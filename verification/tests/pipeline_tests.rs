use vcd_coverage::indexer::IndexError;
use vcd_coverage::indexer::VCD;
use vcd_coverage::pipeline::analyse_lines;

fn to_lines(src: &str) -> Vec<Vec<u8>> {
    src.lines().map(|l| l.as_bytes().to_vec()).collect()
}

fn analyse(src: &str, separator: u8) -> Result<VCD, IndexError> {
    analyse_lines(&to_lines(src), separator)
}

const LEGEND: &str = "# Signal name, id-sub_id, coverage [%], has transitioned up, has transitioned down, initial value";

#[test]
fn single_scalar_never_toggles() {
    let vcd = analyse(
        "$var wire 1 a A $end\n$enddefinitions $end\n0a\n$end\n",
        b'<',
    )
    .unwrap();
    let report = String::from_utf8(vcd.to_result_bytes()).unwrap();
    let expected = format!(
        "# VCD Statistical analysis. Total coverage: 0.00 % over 1 signals\n{}\nA a-0 0.0 0 0 0\n",
        LEGEND
    );
    assert_eq!(report, expected);
}

#[test]
fn single_scalar_half_toggles() {
    let vcd = analyse(
        "$var wire 1 a A $end\n$enddefinitions $end\n0a\n$end\n#10\n1a\n",
        b'<',
    )
    .unwrap();
    let report = String::from_utf8(vcd.to_result_bytes()).unwrap();
    let expected = format!(
        "# VCD Statistical analysis. Total coverage: 50.00 % over 1 signals\n{}\nA a-0 0.5 1 0 0\n",
        LEGEND
    );
    assert_eq!(report, expected);
}

#[test]
fn single_scalar_full_toggle() {
    let vcd = analyse(
        "$var wire 1 a A $end\n$enddefinitions $end\n0a\n$end\n#5\n1a\n#10\n0a\n",
        b'<',
    )
    .unwrap();
    let report = String::from_utf8(vcd.to_result_bytes()).unwrap();
    let expected = format!(
        "# VCD Statistical analysis. Total coverage: 100.00 % over 1 signals\n{}\nA a-0 1.0 1 1 0\n",
        LEGEND
    );
    assert_eq!(report, expected);
}

#[test]
fn bus_of_width_two() {
    let vcd = analyse(
        "$var port <1:0> # B $end\n$enddefinitions $end\nb10<#\n$end\n#1\nb01<#\n#2\nb10<#\n",
        b'<',
    )
    .unwrap();
    let report = String::from_utf8(vcd.to_result_bytes()).unwrap();
    let expected = format!(
        "# VCD Statistical analysis. Total coverage: 100.00 % over 2 signals\n{}\nB[0] #-0 1.0 1 1 1\nB[1] #-1 1.0 1 1 0\n",
        LEGEND
    );
    assert_eq!(report, expected);
}

#[test]
fn x_initial_promoted() {
    let vcd = analyse(
        "$var wire 1 a A $end\n$enddefinitions $end\nxa\n$end\n#1\n1a\n#2\n0a\n",
        b'<',
    )
    .unwrap();
    let report = String::from_utf8(vcd.to_result_bytes()).unwrap();
    let expected = format!(
        "# VCD Statistical analysis. Total coverage: 50.00 % over 1 signals\n{}\nA a-0 0.5 0 1 x\n",
        LEGEND
    );
    assert_eq!(report, expected);
}

#[test]
fn unknown_id_in_changes() {
    let r = analyse(
        "$var wire 1 a A $end\n$enddefinitions $end\n0a\n$end\n1b\n",
        b'<',
    );
    let err = r.err().expect("a change with an undeclared id must fail");
    let msg = String::from_utf8(err.message()).unwrap();
    assert_eq!(msg, "line 5: unknown signal id: b");
}

#[test]
fn header_scramble_is_not_observable() {
    let a = "$date d1 $end\n$version v1 $end\n$timescale 1ns $end\n$var wire 1 a A $end\n$enddefinitions $end\n0a\n$end\n#1\n1a\n";
    let b = "$timescale 1ns $end\n$date d1 $end\n$version v1 $end\n$var wire 1 a A $end\n$enddefinitions $end\n0a\n$end\n#1\n1a\n";
    let ra = analyse(a, b'<').unwrap().to_result_bytes();
    let rb = analyse(b, b'<').unwrap().to_result_bytes();
    assert_eq!(ra, rb);
}

#[test]
fn rerun_is_byte_identical() {
    let src = "$var wire 2 a A $end\n$enddefinitions $end\nb01<a\n$end\n#1\nb10<a\n#2\nb01<a\n";
    let r1 = analyse(src, b'<').unwrap().to_result_bytes();
    let r2 = analyse(src, b'<').unwrap().to_result_bytes();
    assert_eq!(r1, r2);
}

#[test]
fn width_independence_concrete() {
    // One wire of width 2 ...
    let bus = analyse(
        "$var wire 2 a A $end\n$enddefinitions $end\nb01<a\n$end\n#1\nb10<a\n#2\nb01<a\n",
        b'<',
    )
    .unwrap();
    // ... and two wires of width 1 fed the same per-bit samples.
    let split = analyse(
        "$var wire 1 y Y $end\n$var wire 1 z Z $end\n$enddefinitions $end\n0y\n1z\n$end\n#1\n1y\n0z\n#2\n0y\n1z\n",
        b'<',
    )
    .unwrap();
    for k in 0..2 {
        let b = bus.get_signal(b"a", k).unwrap();
        let w = if k == 0 {
            split.get_signal(b"y", 0).unwrap()
        } else {
            split.get_signal(b"z", 0).unwrap()
        };
        assert_eq!(b.coverage_halves(), w.coverage_halves());
        assert_eq!(b.has_transitioned_up(), w.has_transitioned_up());
        assert_eq!(b.has_transitioned_down(), w.has_transitioned_down());
    }
}

#[test]
fn total_bits_equal_sum_of_widths() {
    let vcd = analyse(
        "$var wire 3 a A $end\n$var wire 2 b B $end\n$enddefinitions $end\n$end\n",
        b'<',
    )
    .unwrap();
    assert_eq!(vcd.signals.len(), 5);
}

#[test]
fn hierarchy_parents_point_backwards() {
    let vcd = analyse(
        "$scope module top $end\n$scope module sub $end\n$var wire 1 a A $end\n$upscope $end\n$upscope $end\n$enddefinitions $end\n0a\n$end\n",
        b'<',
    )
    .unwrap();
    assert_eq!(vcd.hierarchy.len(), 3);
    assert_eq!(vcd.hierarchy[0].parent, 0);
    assert_eq!(vcd.hierarchy[1].parent, 0);
    assert_eq!(vcd.hierarchy[2].parent, 1);
    let report = String::from_utf8(vcd.to_result_bytes()).unwrap();
    assert!(report.contains("top/sub/A a-0 "));
}

#[test]
fn unbalanced_upscope_is_fatal() {
    let r = analyse("$upscope $end\n$enddefinitions $end\n$end\n", b'<');
    let err = r.err().expect("an unbalanced $upscope must fail");
    let msg = String::from_utf8(err.message()).unwrap();
    assert_eq!(msg, "line 1: unbalanced $upscope");
}

#[test]
fn change_wider_than_declaration_is_fatal() {
    let r = analyse(
        "$var wire 2 a A $end\n$enddefinitions $end\nb111<a\n$end\n",
        b'<',
    );
    let err = r.err().expect("a change wider than the declaration must fail");
    let msg = String::from_utf8(err.message()).unwrap();
    assert_eq!(msg, "line 3: change wider than declaration: a");
}

#[test]
fn parse_error_names_the_offending_line() {
    let r = analyse("$bogus\n$enddefinitions $end\n$end\n", b'<');
    let err = r.err().expect("an unknown token must fail");
    let msg = String::from_utf8(err.message()).unwrap();
    assert_eq!(msg, "line 1: cannot parse: $bogus");
}

#[test]
fn empty_model_reports_nan() {
    let vcd = analyse("$enddefinitions $end\n$end\n", b'<').unwrap();
    let report = String::from_utf8(vcd.to_result_bytes()).unwrap();
    let expected = format!(
        "# VCD Statistical analysis. Total coverage: NaN % over 0 signals\n{}\n",
        LEGEND
    );
    assert_eq!(report, expected);
}

#[test]
fn mean_coverage_is_rounded_to_two_decimals() {
    // Three bits, one of them half-toggled: mean 1/6 = 16.666... percent.
    let vcd = analyse(
        "$var wire 1 a A $end\n$var wire 1 b B $end\n$var wire 1 c C $end\n$enddefinitions $end\n0a\n0b\n0c\n$end\n#1\n1a\n",
        b'<',
    )
    .unwrap();
    let report = String::from_utf8(vcd.to_result_bytes()).unwrap();
    assert!(report.starts_with(
        "# VCD Statistical analysis. Total coverage: 16.67 % over 3 signals\n"
    ));
}

#[test]
fn duplicate_ids_keep_the_first_mapping() {
    let vcd = analyse(
        "$var wire 1 a A $end\n$var wire 1 a B $end\n$enddefinitions $end\n0a\n$end\n#1\n1a\n",
        b'<',
    )
    .unwrap();
    // The change addressed the first declaration of `a`.
    let first = vcd.get_signal(b"a", 0).unwrap();
    assert_eq!(first.has_transitioned_up(), true);
    assert_eq!(vcd.signals.len(), 2);
}

#[test]
fn z_samples_reseed_but_never_toggle() {
    let vcd = analyse(
        "$var wire 1 a A $end\n$enddefinitions $end\nza\n$end\n#1\nza\n",
        b'<',
    )
    .unwrap();
    let report = String::from_utf8(vcd.to_result_bytes()).unwrap();
    assert!(report.contains("A a-0 0.0 0 0 z\n"));
}
