//! Toggle-coverage analysis of Value Change Dump (VCD) traces.
//!
//! The crate is a two-stage pipeline. A lexer turns VCD lines into typed
//! events; an indexer folds those events into per-bit toggle state and a
//! module hierarchy; a reporter renders the result as text. All of it is
//! verified: the lexer and indexer are deterministic state machines whose
//! steps are specified exactly, and the coverage figures are proved to obey
//! the toggle-coverage laws.

pub mod indexer;
pub mod lexer;
pub mod logger;
pub mod pipeline;
pub mod report;
pub mod text;
pub mod values;

pub use values::SignalValue;
pub use values::State;
