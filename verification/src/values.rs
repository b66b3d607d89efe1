//! The four-valued logic of a VCD trace and the per-sample `State` record.

use vstd::prelude::*;

verus! {

/// Logic level of one bit at one instant, as four-valued logic: driven high,
/// driven low, unknown (`X`) or high-impedance (`Z`).
#[derive(Debug, Eq, PartialEq, Clone, Copy, Structural)]
pub enum SignalValue {
    UP,
    DOWN,
    X,
    Z,
}

/// The level a sample byte denotes: `D d L l 0` are low, `U u H h 1` are
/// high, `F Z T z` are high-impedance, and every other byte is unknown.
pub open spec fn spec_value_of_byte(b: u8) -> SignalValue {
    if b == 68 || b == 100 || b == 76 || b == 108 || b == 48 {
        SignalValue::DOWN
    } else if b == 85 || b == 117 || b == 72 || b == 104 || b == 49 {
        SignalValue::UP
    } else if b == 70 || b == 90 || b == 84 || b == 122 {
        SignalValue::Z
    } else {
        SignalValue::X
    }
}

/// The byte the report prints for a value: `1`, `0`, `x` or `z`.
pub open spec fn spec_byte_of_value(v: SignalValue) -> u8 {
    match v {
        SignalValue::UP => 49,
        SignalValue::DOWN => 48,
        SignalValue::X => 120,
        SignalValue::Z => 122,
    }
}

impl SignalValue {
    /// Classify one sample byte.
    pub fn from_byte(b: u8) -> (r: SignalValue)
        ensures
            r == spec_value_of_byte(b),
    {
        match b {
            68 | 100 | 76 | 108 | 48 => SignalValue::DOWN,
            85 | 117 | 72 | 104 | 49 => SignalValue::UP,
            70 | 90 | 84 | 122 => SignalValue::Z,
            _ => SignalValue::X,
        }
    }

    /// Render the value as the byte the report prints.
    pub fn to_byte(self) -> (r: u8)
        ensures
            r == spec_byte_of_value(self),
    {
        match self {
            SignalValue::UP => 49,
            SignalValue::DOWN => 48,
            SignalValue::X => 120,
            SignalValue::Z => 122,
        }
    }
}

impl Default for SignalValue {
    /// An unobserved value is unknown.
    fn default() -> (r: Self)
        ensures
            r == SignalValue::X,
    {
        SignalValue::X
    }
}

/// One observed sample: a value and the timestamp it was seen at.
/// A time of `-1` means "never set".
#[derive(Debug, Eq, PartialEq, Clone, Copy, Structural)]
pub struct State {
    pub value: SignalValue,
    pub time: i64,
}

impl Default for State {
    /// The unset sample: unknown value at time `-1`.
    fn default() -> (r: Self)
        ensures
            r.value == SignalValue::X,
            r.time == -1,
    {
        State { value: SignalValue::X, time: -1 }
    }
}

} // verus!
