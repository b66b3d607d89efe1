use vcd_coverage::lexer::Lexer;
use vcd_coverage::lexer::LineInfo;
use vcd_coverage::lexer::SignalType;

fn feed(lexer: &mut Lexer, line: &str) -> Option<(LineInfo, u64)> {
    lexer
        .feed_line(line.as_bytes())
        .map(|e| (e.value, e.line_number))
}

#[test]
fn scope_line_opens_a_module() {
    let mut lx = Lexer::new(b'<');
    match feed(&mut lx, "$scope module top $end") {
        Some((LineInfo::InScope(name), 1)) => assert_eq!(name, b"top".to_vec()),
        other => panic!("unexpected event: {:?}", other),
    }
}

#[test]
fn task_scope_is_accepted() {
    let mut lx = Lexer::new(b'<');
    match feed(&mut lx, "$scope task worker $end") {
        Some((LineInfo::InScope(name), _)) => assert_eq!(name, b"worker".to_vec()),
        other => panic!("unexpected event: {:?}", other),
    }
}

#[test]
fn other_scope_kinds_are_parse_errors() {
    let mut lx = Lexer::new(b'<');
    match feed(&mut lx, "$scope begin blk $end") {
        Some((LineInfo::ParsingError(t), 1)) => assert_eq!(t, b"$scope begin blk $end".to_vec()),
        other => panic!("unexpected event: {:?}", other),
    }
}

#[test]
fn upscope_line() {
    let mut lx = Lexer::new(b'<');
    assert!(matches!(
        feed(&mut lx, "$upscope $end"),
        Some((LineInfo::UpScope, 1))
    ));
}

#[test]
fn wire_declaration_of_width_eight() {
    let mut lx = Lexer::new(b'<');
    match feed(&mut lx, "$var wire 8 ! data $end") {
        Some((LineInfo::Signal(s), 1)) => {
            assert_eq!(s.id, b"!".to_vec());
            assert_eq!(s.name, b"data".to_vec());
            assert_eq!(s.num_values, 8);
            assert!(matches!(s.signal_type, SignalType::Bus));
        },
        other => panic!("unexpected event: {:?}", other),
    }
}

#[test]
fn wire_declaration_of_width_one_is_a_gate() {
    let mut lx = Lexer::new(b'<');
    match feed(&mut lx, "$var wire 1 a A $end") {
        Some((LineInfo::Signal(s), _)) => {
            assert_eq!(s.num_values, 1);
            assert!(matches!(s.signal_type, SignalType::Gate));
        },
        other => panic!("unexpected event: {:?}", other),
    }
}

#[test]
fn leading_separator_is_stripped_from_the_id() {
    let mut lx = Lexer::new(b'<');
    match feed(&mut lx, "$var wire 1 <a A $end") {
        Some((LineInfo::Signal(s), _)) => assert_eq!(s.id, b"a".to_vec()),
        other => panic!("unexpected event: {:?}", other),
    }
}

#[test]
fn port_range_width_is_absolute_difference_plus_one() {
    let mut lx = Lexer::new(b'<');
    match feed(&mut lx, "$var port <3:0> p bus $end") {
        Some((LineInfo::Signal(s), _)) => {
            assert_eq!(s.num_values, 4);
            assert!(matches!(s.signal_type, SignalType::Bus));
        },
        other => panic!("unexpected event: {:?}", other),
    }
}

#[test]
fn port_range_accepts_descending_and_negative_bounds() {
    let mut lx = Lexer::new(b'<');
    match feed(&mut lx, "$var port <0:3> p bus $end") {
        Some((LineInfo::Signal(s), _)) => assert_eq!(s.num_values, 4),
        other => panic!("unexpected event: {:?}", other),
    }
    match feed(&mut lx, "$var port <-1:1> q bus2 $end") {
        Some((LineInfo::Signal(s), _)) => assert_eq!(s.num_values, 3),
        other => panic!("unexpected event: {:?}", other),
    }
}

#[test]
fn malformed_width_is_a_parse_error() {
    let mut lx = Lexer::new(b'<');
    assert!(matches!(
        feed(&mut lx, "$var wire x7 a A $end"),
        Some((LineInfo::ParsingError(_), 1))
    ));
    assert!(matches!(
        feed(&mut lx, "$var wire 0 a A $end"),
        Some((LineInfo::ParsingError(_), 2))
    ));
}

#[test]
fn multi_line_header_accumulates_until_end() {
    let mut lx = Lexer::new(b'<');
    assert!(feed(&mut lx, "$date").is_none());
    assert!(feed(&mut lx, " June 1").is_none());
    match feed(&mut lx, "$end") {
        Some((LineInfo::DateInfo(body), 3)) => assert_eq!(body, b" June 1$end".to_vec()),
        other => panic!("unexpected event: {:?}", other),
    }
}

#[test]
fn one_line_header_emits_at_once() {
    let mut lx = Lexer::new(b'<');
    match feed(&mut lx, "$version ghdl $end") {
        Some((LineInfo::VersionInfo(body), 1)) => assert_eq!(body, b" ghdl $end".to_vec()),
        other => panic!("unexpected event: {:?}", other),
    }
}

#[test]
fn unterminated_header_is_reported_at_end_of_input() {
    let mut lx = Lexer::new(b'<');
    assert!(feed(&mut lx, "$timescale").is_none());
    match lx.finish() {
        Some(e) => assert!(matches!(e.value, LineInfo::ParsingError(_))),
        None => panic!("expected a parse error at end of input"),
    }
}

#[test]
fn blank_lines_are_skipped_but_counted() {
    let mut lx = Lexer::new(b'<');
    assert!(feed(&mut lx, "   ").is_none());
    assert!(feed(&mut lx, "").is_none());
    match feed(&mut lx, "$upscope $end") {
        Some((LineInfo::UpScope, 3)) => {},
        other => panic!("unexpected event: {:?}", other),
    }
}

#[test]
fn timestamp_line_in_initialisations() {
    let mut lx = Lexer::new(b'<');
    feed(&mut lx, "$enddefinitions $end");
    match feed(&mut lx, "#42") {
        Some((LineInfo::Timestamp(42), 2)) => {},
        other => panic!("unexpected event: {:?}", other),
    }
}

#[test]
fn scalar_change_takes_the_rest_as_id() {
    let mut lx = Lexer::new(b'<');
    feed(&mut lx, "$enddefinitions $end");
    match feed(&mut lx, "x!") {
        Some((LineInfo::Change(c), 2)) => {
            assert_eq!(c.signal_id, b"!".to_vec());
            assert_eq!(c.values, b"x".to_vec());
        },
        other => panic!("unexpected event: {:?}", other),
    }
}

#[test]
fn vector_change_splits_on_the_separator() {
    let mut lx = Lexer::new(b'<');
    feed(&mut lx, "$enddefinitions $end");
    match feed(&mut lx, "b1010<id") {
        Some((LineInfo::Change(c), _)) => {
            assert_eq!(c.signal_id, b"id".to_vec());
            assert_eq!(c.values, b"1010".to_vec());
        },
        other => panic!("unexpected event: {:?}", other),
    }
}

#[test]
fn vector_change_without_separator_is_a_parse_error() {
    let mut lx = Lexer::new(b'<');
    feed(&mut lx, "$enddefinitions $end");
    assert!(matches!(
        feed(&mut lx, "b1010"),
        Some((LineInfo::ParsingError(_), 2))
    ));
}

#[test]
fn port_change_with_space_separator_skips_strengths() {
    let mut lx = Lexer::new(b' ');
    feed(&mut lx, "$enddefinitions $end");
    match feed(&mut lx, "p10 0 0 id") {
        Some((LineInfo::Change(c), _)) => {
            assert_eq!(c.signal_id, b"id".to_vec());
            assert_eq!(c.values, b"10".to_vec());
        },
        other => panic!("unexpected event: {:?}", other),
    }
}

#[test]
fn dump_keywords_in_initialisations() {
    let mut lx = Lexer::new(b'<');
    feed(&mut lx, "$enddefinitions $end");
    assert!(matches!(
        feed(&mut lx, "$dumpports"),
        Some((LineInfo::Dumpports, 2))
    ));
    assert!(matches!(
        feed(&mut lx, "$dumpvars"),
        Some((LineInfo::Useless, 3))
    ));
    assert!(matches!(
        feed(&mut lx, "$dumpall"),
        Some((LineInfo::Useless, 4))
    ));
}

#[test]
fn dumpports_in_the_change_section_is_a_parse_error() {
    let mut lx = Lexer::new(b'<');
    feed(&mut lx, "$enddefinitions $end");
    feed(&mut lx, "$end");
    assert!(matches!(
        feed(&mut lx, "$dumpports"),
        Some((LineInfo::ParsingError(_), 3))
    ));
}

#[test]
fn end_of_initialisations_switches_to_changes() {
    let mut lx = Lexer::new(b'<');
    assert!(matches!(
        feed(&mut lx, "$enddefinitions $end"),
        Some((LineInfo::EndDefinitions, 1))
    ));
    assert!(matches!(
        feed(&mut lx, "$end"),
        Some((LineInfo::EndInitializations, 2))
    ));
    // A `$end` in the change section is no longer meaningful.
    assert!(matches!(
        feed(&mut lx, "$end"),
        Some((LineInfo::ParsingError(_), 3))
    ));
}

#[test]
fn unknown_symbol_is_a_parse_error_with_the_line() {
    let mut lx = Lexer::new(b'<');
    match feed(&mut lx, "$garbage x y") {
        Some((LineInfo::ParsingError(t), 1)) => assert_eq!(t, b"$garbage x y".to_vec()),
        other => panic!("unexpected event: {:?}", other),
    }
}
