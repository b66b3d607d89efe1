//! The log buffer: severity-tagged lines appended to an in-memory buffer.
//!
//! The process-wide fan-out — the sink registry and the background
//! flusher that drains this buffer — lives outside the verified core;
//! this module pins down exactly what one logged line contributes.

use vstd::prelude::*;

use crate::text::subvec;

verus! {

/// Severity of a log line.
#[derive(Debug, Clone, Copy, PartialEq, Eq, Structural)]
pub enum Priority {
    Info,
    Warn,
    Error,
}

/// The tag a severity is printed with.
pub open spec fn priority_tag(p: Priority) -> Seq<u8> {
    match p {
        Priority::Info => seq![91u8, 73u8, 78u8, 70u8, 79u8, 93u8],
        Priority::Warn => seq![91u8, 87u8, 65u8, 82u8, 78u8, 93u8],
        Priority::Error => seq![91u8, 69u8, 82u8, 82u8, 79u8, 82u8, 93u8],
    }
}

/// What one write appends to the buffer: `TAG: message` and a newline.
pub open spec fn log_line(p: Priority, msg: Seq<u8>) -> Seq<u8> {
    priority_tag(p) + seq![58u8, 32u8] + msg + seq![10u8]
}

/// An in-memory log buffer.
#[derive(Debug)]
pub struct Log {
    pub buffer: Vec<u8>,
}

impl View for Log {
    type V = Seq<u8>;

    open spec fn view(&self) -> Seq<u8> {
        self.buffer@
    }
}

impl Log {
    /// An empty buffer.
    pub fn new() -> (r: Log)
        ensures
            r@ == Seq::<u8>::empty(),
    {
        Log { buffer: Vec::new() }
    }

    /// Append one severity-tagged line.
    pub fn write(&mut self, priority: Priority, output: &[u8])
        ensures
            final(self)@ == old(self)@ + log_line(priority, output@),
    {
        let tag: Vec<u8> = match priority {
            Priority::Info => {
                let mut t: Vec<u8> = Vec::new();
                t.push(91);
                t.push(73);
                t.push(78);
                t.push(70);
                t.push(79);
                t.push(93);
                t
            },
            Priority::Warn => {
                let mut t: Vec<u8> = Vec::new();
                t.push(91);
                t.push(87);
                t.push(65);
                t.push(82);
                t.push(78);
                t.push(93);
                t
            },
            Priority::Error => {
                let mut t: Vec<u8> = Vec::new();
                t.push(91);
                t.push(69);
                t.push(82);
                t.push(82);
                t.push(79);
                t.push(82);
                t.push(93);
                t
            },
        };
        assert(tag@ =~= priority_tag(priority));
        let mut tagv = tag;
        self.buffer.append(&mut tagv);
        self.buffer.push(58);
        self.buffer.push(32);
        let mut msg = subvec(output, 0, output.len());
        self.buffer.append(&mut msg);
        self.buffer.push(10);
        assert(self@ =~= old(self)@ + log_line(priority, output@));
    }

    /// Drain the buffer: hand out everything written so far and leave the
    /// buffer empty, ready for the next flush.
    pub fn drain(&mut self) -> (r: Vec<u8>)
        ensures
            r@ == old(self)@,
            final(self)@ == Seq::<u8>::empty(),
    {
        let mut out: Vec<u8> = Vec::new();
        core::mem::swap(&mut out, &mut self.buffer);
        out
    }
}

} // verus!
