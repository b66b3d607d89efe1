use vcd_coverage::text::eq_bytes;
use vcd_coverage::text::find_sub;
use vcd_coverage::text::parse_i64;
use vcd_coverage::text::parse_u64;
use vcd_coverage::text::push_dec;
use vcd_coverage::text::split_once;
use vcd_coverage::text::tokenize;
use vcd_coverage::text::trim;

#[test]
fn trim_removes_ascii_whitespace_at_both_ends() {
    assert_eq!(trim(b"  $var wire \t\r\n"), b"$var wire".to_vec());
    assert_eq!(trim(b"\t \n"), Vec::<u8>::new());
    assert_eq!(trim(b"x"), b"x".to_vec());
}

#[test]
fn tokenize_splits_on_runs_of_whitespace() {
    let toks = tokenize(b"  $var  wire\t8 ! data ");
    let toks: Vec<&[u8]> = toks.iter().map(|t| t.as_slice()).collect();
    assert_eq!(toks, vec![&b"$var"[..], b"wire", b"8", b"!", b"data"]);
}

#[test]
fn find_sub_returns_the_first_occurrence() {
    assert_eq!(find_sub(b"abcabc", b"bc"), Some(1));
    assert_eq!(find_sub(b"abcabc", b"cb"), None);
    assert_eq!(find_sub(b"abc", b""), Some(0));
}

#[test]
fn split_once_cuts_at_the_first_separator() {
    let (head, rest) = split_once(b"10<id<tail", b'<');
    assert_eq!(head, b"10".to_vec());
    assert_eq!(rest, Some(b"id<tail".to_vec()));
    let (head, rest) = split_once(b"plain", b'<');
    assert_eq!(head, b"plain".to_vec());
    assert_eq!(rest, None);
}

#[test]
fn parse_u64_accepts_digits_only() {
    assert_eq!(parse_u64(b"0"), Some(0));
    assert_eq!(parse_u64(b"18446744073709551615"), Some(u64::MAX));
    assert_eq!(parse_u64(b"18446744073709551616"), None);
    assert_eq!(parse_u64(b""), None);
    assert_eq!(parse_u64(b"12a"), None);
}

#[test]
fn parse_i64_accepts_an_optional_minus_sign() {
    assert_eq!(parse_i64(b"42"), Some(42));
    assert_eq!(parse_i64(b"-42"), Some(-42));
    assert_eq!(parse_i64(b"-9223372036854775808"), Some(i64::MIN));
    assert_eq!(parse_i64(b"9223372036854775808"), None);
    assert_eq!(parse_i64(b"-"), None);
}

#[test]
fn push_dec_renders_decimal_numerals() {
    let mut out = Vec::new();
    push_dec(&mut out, 0);
    out.push(b' ');
    push_dec(&mut out, 10200);
    assert_eq!(out, b"0 10200".to_vec());
}

#[test]
fn eq_bytes_is_exact_equality() {
    assert!(eq_bytes(b"abc", b"abc"));
    assert!(!eq_bytes(b"abc", b"abd"));
    assert!(!eq_bytes(b"abc", b"ab"));
}
