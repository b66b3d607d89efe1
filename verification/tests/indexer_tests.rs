use vcd_coverage::indexer::IndexError;
use vcd_coverage::indexer::Indexer;
use vcd_coverage::indexer::translate_infos;
use vcd_coverage::lexer::Change;
use vcd_coverage::lexer::LineEvent;
use vcd_coverage::lexer::LineInfo;
use vcd_coverage::lexer::Signal;
use vcd_coverage::lexer::SignalType;

fn ev(value: LineInfo, line_number: u64) -> LineEvent {
    LineEvent { value, line_number }
}

fn wire(id: &str, name: &str, width: usize) -> LineInfo {
    LineInfo::Signal(Signal {
        id: id.as_bytes().to_vec(),
        name: name.as_bytes().to_vec(),
        num_values: width,
        signal_type: if width == 1 { SignalType::Gate } else { SignalType::Bus },
    })
}

fn change(id: &str, values: &str) -> LineInfo {
    LineInfo::Change(Change {
        signal_id: id.as_bytes().to_vec(),
        values: values.as_bytes().to_vec(),
    })
}

#[test]
fn timestamp_before_end_of_definitions_is_unexpected() {
    let mut ind = Indexer::new();
    let err = ind.feed(&ev(LineInfo::Timestamp(7), 1)).unwrap_err();
    let msg = String::from_utf8(err.message()).unwrap();
    assert_eq!(msg, "line 1: unexpected event");
}

#[test]
fn declaration_after_end_of_definitions_is_unexpected() {
    let mut ind = Indexer::new();
    ind.feed(&ev(LineInfo::EndDefinitions, 1)).unwrap();
    let err = ind.feed(&ev(wire("a", "A", 1), 2)).unwrap_err();
    assert!(matches!(err, IndexError::UnexpectedEvent { line: 2 }));
}

#[test]
fn parsing_error_event_carries_line_and_text() {
    let mut ind = Indexer::new();
    let err = ind
        .feed(&ev(LineInfo::ParsingError(b"wat".to_vec()), 9))
        .unwrap_err();
    let msg = String::from_utf8(err.message()).unwrap();
    assert_eq!(msg, "line 9: cannot parse: wat");
}

#[test]
fn translate_infos_builds_the_aggregate() {
    let events = vec![
        ev(LineInfo::InScope(b"top".to_vec()), 1),
        ev(wire("a", "A", 2), 2),
        ev(LineInfo::UpScope, 3),
        ev(LineInfo::EndDefinitions, 4),
        ev(change("a", "01"), 5),
        ev(LineInfo::EndInitializations, 6),
        ev(LineInfo::Timestamp(3), 7),
        ev(change("a", "10"), 8),
    ];
    let vcd = translate_infos(&events).unwrap();
    assert_eq!(vcd.signals.len(), 2);
    assert_eq!(vcd.hierarchy.len(), 2);
    let bit0 = vcd.get_signal(b"a", 0).unwrap();
    let bit1 = vcd.get_signal(b"a", 1).unwrap();
    // Both bits saw the opposite of their seeded value once.
    assert!(bit0.has_transitioned_up() != bit0.has_transitioned_down());
    assert!(bit1.has_transitioned_up() != bit1.has_transitioned_down());
    assert_eq!(bit0.coverage_halves(), 1);
    assert_eq!(bit1.coverage_halves(), 1);
}

#[test]
fn translate_infos_reports_the_first_error() {
    let events = vec![
        ev(wire("a", "A", 1), 1),
        ev(LineInfo::EndDefinitions, 2),
        ev(change("b", "0"), 3),
        ev(change("c", "0"), 4),
    ];
    let err = translate_infos(&events).unwrap_err();
    let msg = String::from_utf8(err.message()).unwrap();
    assert_eq!(msg, "line 3: unknown signal id: b");
}

#[test]
fn oversized_declaration_is_rejected() {
    let mut ind = Indexer::new();
    let err = ind.feed(&ev(wire("a", "A", 70000), 1)).unwrap_err();
    assert!(matches!(err, IndexError::WidthExceeded { .. }));
}

#[test]
fn per_bit_lines_and_legend_render_as_text() {
    let events = vec![
        ev(wire("a", "A", 1), 1),
        ev(LineInfo::EndDefinitions, 2),
        ev(change("a", "0"), 3),
        ev(LineInfo::EndInitializations, 4),
    ];
    let vcd = translate_infos(&events).unwrap();
    let line = vcd.get_signal(b"a", 0).unwrap().to_result_string();
    assert_eq!(line, "A a-0 0.0 0 0 0");
    assert_eq!(
        vcd_coverage::indexer::Signal::result_explanation(),
        "# Signal name, id-sub_id, coverage [%], has transitioned up, has transitioned down, initial value"
    );
    let whole = vcd.to_result_string();
    assert!(whole.ends_with("A a-0 0.0 0 0 0\n"));
}
