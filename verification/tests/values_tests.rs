use vcd_coverage::SignalValue;
use vcd_coverage::State;

#[test]
fn byte_classification_follows_the_table() {
    for b in [b'D', b'd', b'L', b'l', b'0'] {
        assert_eq!(SignalValue::from_byte(b), SignalValue::DOWN);
    }
    for b in [b'U', b'u', b'H', b'h', b'1'] {
        assert_eq!(SignalValue::from_byte(b), SignalValue::UP);
    }
    for b in [b'F', b'Z', b'T', b'z'] {
        assert_eq!(SignalValue::from_byte(b), SignalValue::Z);
    }
    for b in [b'x', b'X', b'?', b' ', 0u8, 255u8] {
        assert_eq!(SignalValue::from_byte(b), SignalValue::X);
    }
}

#[test]
fn values_print_as_vcd_sample_bytes() {
    assert_eq!(SignalValue::UP.to_byte(), b'1');
    assert_eq!(SignalValue::DOWN.to_byte(), b'0');
    assert_eq!(SignalValue::X.to_byte(), b'x');
    assert_eq!(SignalValue::Z.to_byte(), b'z');
}

#[test]
fn defaults_are_the_unset_sample() {
    assert_eq!(SignalValue::default(), SignalValue::X);
    let s = State::default();
    assert_eq!(s.value, SignalValue::X);
    assert_eq!(s.time, -1);
}
