//! The reporter: renders the populated aggregate as the final text
//! document, specified byte for byte by [`spec_report`].
//!
//! The report is two header lines — total coverage and a column legend —
//! followed by one line per tracked bit, each `\n`-terminated. The total
//! coverage is the arithmetic mean of the per-bit coverage, as a
//! percentage with two decimals (rounded to nearest, halves up); with no
//! bits at all there is no mean, and `NaN` is printed as Rust would.

use vstd::prelude::*;

use crate::indexer::BitModel;
use crate::indexer::ErrorModel;
use crate::indexer::IndexError;
use crate::indexer::Signal;
use crate::indexer::VCD;
use crate::indexer::VcdModel;
use crate::indexer::spec_coverage_halves;
use crate::indexer::spec_has_down;
use crate::indexer::spec_has_up;
use crate::text::dec_digits;
use crate::text::push_dec;
use crate::text::subvec;
use crate::values::spec_byte_of_value;

verus! {

/// The byte string `b'# VCD Statistical analysis. Total coverage: '`.
pub open spec fn rb_header_prefix() -> Seq<u8> {
    seq![35u8, 32u8, 86u8, 67u8, 68u8, 32u8, 83u8, 116u8, 97u8, 116u8, 105u8, 115u8, 116u8, 105u8, 99u8, 97u8, 108u8, 32u8, 97u8, 110u8, 97u8, 108u8, 121u8, 115u8, 105u8, 115u8, 46u8, 32u8, 84u8, 111u8, 116u8, 97u8, 108u8, 32u8, 99u8, 111u8, 118u8, 101u8, 114u8, 97u8, 103u8, 101u8, 58u8, 32u8]
}

/// The byte string `b' % over '`.
pub open spec fn rb_percent_over() -> Seq<u8> {
    seq![32u8, 37u8, 32u8, 111u8, 118u8, 101u8, 114u8, 32u8]
}

/// The byte string `b' signals\n'`.
pub open spec fn rb_signals_nl() -> Seq<u8> {
    seq![32u8, 115u8, 105u8, 103u8, 110u8, 97u8, 108u8, 115u8, 10u8]
}

/// The byte string `b'# Signal name, id-sub_id, coverage [%], has transitioned up, has transitioned down, initial value'`.
pub open spec fn rb_legend_core() -> Seq<u8> {
    seq![35u8, 32u8, 83u8, 105u8, 103u8, 110u8, 97u8, 108u8, 32u8, 110u8, 97u8, 109u8, 101u8, 44u8, 32u8, 105u8, 100u8, 45u8, 115u8, 117u8, 98u8, 95u8, 105u8, 100u8, 44u8, 32u8, 99u8, 111u8, 118u8, 101u8, 114u8, 97u8, 103u8, 101u8, 32u8, 91u8, 37u8, 93u8, 44u8, 32u8, 104u8, 97u8, 115u8, 32u8, 116u8, 114u8, 97u8, 110u8, 115u8, 105u8, 116u8, 105u8, 111u8, 110u8, 101u8, 100u8, 32u8, 117u8, 112u8, 44u8, 32u8, 104u8, 97u8, 115u8, 32u8, 116u8, 114u8, 97u8, 110u8, 115u8, 105u8, 116u8, 105u8, 111u8, 110u8, 101u8, 100u8, 32u8, 100u8, 111u8, 119u8, 110u8, 44u8, 32u8, 105u8, 110u8, 105u8, 116u8, 105u8, 97u8, 108u8, 32u8, 118u8, 97u8, 108u8, 117u8, 101u8]
}

/// The byte string `b'NaN'`.
pub open spec fn rb_nan() -> Seq<u8> {
    seq![78u8, 97u8, 78u8]
}

/// The byte string `b'line '`.
pub open spec fn rb_line_prefix() -> Seq<u8> {
    seq![108u8, 105u8, 110u8, 101u8, 32u8]
}

/// The byte string `b': '`.
pub open spec fn rb_colon() -> Seq<u8> {
    seq![58u8, 32u8]
}

/// The byte string `b'cannot parse: '`.
pub open spec fn rb_parse_msg() -> Seq<u8> {
    seq![99u8, 97u8, 110u8, 110u8, 111u8, 116u8, 32u8, 112u8, 97u8, 114u8, 115u8, 101u8, 58u8, 32u8]
}

/// The byte string `b'unknown signal id: '`.
pub open spec fn rb_unknown_msg() -> Seq<u8> {
    seq![117u8, 110u8, 107u8, 110u8, 111u8, 119u8, 110u8, 32u8, 115u8, 105u8, 103u8, 110u8, 97u8, 108u8, 32u8, 105u8, 100u8, 58u8, 32u8]
}

/// The byte string `b'change wider than declaration: '`.
pub open spec fn rb_width_msg() -> Seq<u8> {
    seq![99u8, 104u8, 97u8, 110u8, 103u8, 101u8, 32u8, 119u8, 105u8, 100u8, 101u8, 114u8, 32u8, 116u8, 104u8, 97u8, 110u8, 32u8, 100u8, 101u8, 99u8, 108u8, 97u8, 114u8, 97u8, 116u8, 105u8, 111u8, 110u8, 58u8, 32u8]
}

/// The byte string `b'unbalanced $upscope'`.
pub open spec fn rb_unbalanced_msg() -> Seq<u8> {
    seq![117u8, 110u8, 98u8, 97u8, 108u8, 97u8, 110u8, 99u8, 101u8, 100u8, 32u8, 36u8, 117u8, 112u8, 115u8, 99u8, 111u8, 112u8, 101u8]
}

/// The byte string `b'unexpected event'`.
pub open spec fn rb_unexpected_msg() -> Seq<u8> {
    seq![117u8, 110u8, 101u8, 120u8, 112u8, 101u8, 99u8, 116u8, 101u8, 100u8, 32u8, 101u8, 118u8, 101u8, 110u8, 116u8]
}

fn push_header_prefix(out: &mut Vec<u8>)
    ensures
        final(out)@ == old(out)@ + rb_header_prefix(),
{
    let mut v: Vec<u8> = vec![35u8, 32u8, 86u8, 67u8, 68u8, 32u8, 83u8, 116u8, 97u8, 116u8, 105u8, 115u8, 116u8, 105u8, 99u8, 97u8, 108u8, 32u8, 97u8, 110u8, 97u8, 108u8, 121u8, 115u8, 105u8, 115u8, 46u8, 32u8, 84u8, 111u8, 116u8, 97u8, 108u8, 32u8, 99u8, 111u8, 118u8, 101u8, 114u8, 97u8, 103u8, 101u8, 58u8, 32u8];
    assert(v@ =~= rb_header_prefix());
    out.append(&mut v);
}

fn push_percent_over(out: &mut Vec<u8>)
    ensures
        final(out)@ == old(out)@ + rb_percent_over(),
{
    let mut v: Vec<u8> = vec![32u8, 37u8, 32u8, 111u8, 118u8, 101u8, 114u8, 32u8];
    assert(v@ =~= rb_percent_over());
    out.append(&mut v);
}

fn push_signals_nl(out: &mut Vec<u8>)
    ensures
        final(out)@ == old(out)@ + rb_signals_nl(),
{
    let mut v: Vec<u8> = vec![32u8, 115u8, 105u8, 103u8, 110u8, 97u8, 108u8, 115u8, 10u8];
    assert(v@ =~= rb_signals_nl());
    out.append(&mut v);
}

fn push_legend_core(out: &mut Vec<u8>)
    ensures
        final(out)@ == old(out)@ + rb_legend_core(),
{
    let mut v: Vec<u8> = vec![35u8, 32u8, 83u8, 105u8, 103u8, 110u8, 97u8, 108u8, 32u8, 110u8, 97u8, 109u8, 101u8, 44u8, 32u8, 105u8, 100u8, 45u8, 115u8, 117u8, 98u8, 95u8, 105u8, 100u8, 44u8, 32u8, 99u8, 111u8, 118u8, 101u8, 114u8, 97u8, 103u8, 101u8, 32u8, 91u8, 37u8, 93u8, 44u8, 32u8, 104u8, 97u8, 115u8, 32u8, 116u8, 114u8, 97u8, 110u8, 115u8, 105u8, 116u8, 105u8, 111u8, 110u8, 101u8, 100u8, 32u8, 117u8, 112u8, 44u8, 32u8, 104u8, 97u8, 115u8, 32u8, 116u8, 114u8, 97u8, 110u8, 115u8, 105u8, 116u8, 105u8, 111u8, 110u8, 101u8, 100u8, 32u8, 100u8, 111u8, 119u8, 110u8, 44u8, 32u8, 105u8, 110u8, 105u8, 116u8, 105u8, 97u8, 108u8, 32u8, 118u8, 97u8, 108u8, 117u8, 101u8];
    assert(v@ =~= rb_legend_core());
    out.append(&mut v);
}

fn push_nan(out: &mut Vec<u8>)
    ensures
        final(out)@ == old(out)@ + rb_nan(),
{
    let mut v: Vec<u8> = vec![78u8, 97u8, 78u8];
    assert(v@ =~= rb_nan());
    out.append(&mut v);
}

fn push_line_prefix(out: &mut Vec<u8>)
    ensures
        final(out)@ == old(out)@ + rb_line_prefix(),
{
    let mut v: Vec<u8> = vec![108u8, 105u8, 110u8, 101u8, 32u8];
    assert(v@ =~= rb_line_prefix());
    out.append(&mut v);
}

fn push_colon(out: &mut Vec<u8>)
    ensures
        final(out)@ == old(out)@ + rb_colon(),
{
    let mut v: Vec<u8> = vec![58u8, 32u8];
    assert(v@ =~= rb_colon());
    out.append(&mut v);
}

fn push_parse_msg(out: &mut Vec<u8>)
    ensures
        final(out)@ == old(out)@ + rb_parse_msg(),
{
    let mut v: Vec<u8> = vec![99u8, 97u8, 110u8, 110u8, 111u8, 116u8, 32u8, 112u8, 97u8, 114u8, 115u8, 101u8, 58u8, 32u8];
    assert(v@ =~= rb_parse_msg());
    out.append(&mut v);
}

fn push_unknown_msg(out: &mut Vec<u8>)
    ensures
        final(out)@ == old(out)@ + rb_unknown_msg(),
{
    let mut v: Vec<u8> = vec![117u8, 110u8, 107u8, 110u8, 111u8, 119u8, 110u8, 32u8, 115u8, 105u8, 103u8, 110u8, 97u8, 108u8, 32u8, 105u8, 100u8, 58u8, 32u8];
    assert(v@ =~= rb_unknown_msg());
    out.append(&mut v);
}

fn push_width_msg(out: &mut Vec<u8>)
    ensures
        final(out)@ == old(out)@ + rb_width_msg(),
{
    let mut v: Vec<u8> = vec![99u8, 104u8, 97u8, 110u8, 103u8, 101u8, 32u8, 119u8, 105u8, 100u8, 101u8, 114u8, 32u8, 116u8, 104u8, 97u8, 110u8, 32u8, 100u8, 101u8, 99u8, 108u8, 97u8, 114u8, 97u8, 116u8, 105u8, 111u8, 110u8, 58u8, 32u8];
    assert(v@ =~= rb_width_msg());
    out.append(&mut v);
}

fn push_unbalanced_msg(out: &mut Vec<u8>)
    ensures
        final(out)@ == old(out)@ + rb_unbalanced_msg(),
{
    let mut v: Vec<u8> = vec![117u8, 110u8, 98u8, 97u8, 108u8, 97u8, 110u8, 99u8, 101u8, 100u8, 32u8, 36u8, 117u8, 112u8, 115u8, 99u8, 111u8, 112u8, 101u8];
    assert(v@ =~= rb_unbalanced_msg());
    out.append(&mut v);
}

fn push_unexpected_msg(out: &mut Vec<u8>)
    ensures
        final(out)@ == old(out)@ + rb_unexpected_msg(),
{
    let mut v: Vec<u8> = vec![117u8, 110u8, 101u8, 120u8, 112u8, 101u8, 99u8, 116u8, 101u8, 100u8, 32u8, 101u8, 118u8, 101u8, 110u8, 116u8];
    assert(v@ =~= rb_unexpected_msg());
    out.append(&mut v);
}

/// The path segments of a bit joined by `/`.
pub open spec fn join_path(name: Seq<Seq<u8>>) -> Seq<u8>
    decreases name.len(),
{
    if name.len() == 0 {
        Seq::empty()
    } else if name.len() == 1 {
        name[0]
    } else {
        name[0] + seq![47u8] + join_path(name.drop_first())
    }
}

/// `0` or `1`.
pub open spec fn bool01(b: bool) -> Seq<u8> {
    if b {
        seq![49u8]
    } else {
        seq![48u8]
    }
}

/// The coverage of a bit printed with one decimal: `0.0`, `0.5` or `1.0`.
pub open spec fn cov_text(halves: int) -> Seq<u8> {
    if halves == 2 {
        seq![49u8, 46u8, 48u8]
    } else if halves == 1 {
        seq![48u8, 46u8, 53u8]
    } else {
        seq![48u8, 46u8, 48u8]
    }
}

/// One report line for a bit, without the terminating newline:
/// `PATH ID-SUB_ID COV UP DOWN INIT`.
pub open spec fn bit_line_core(b: BitModel) -> Seq<u8> {
    join_path(b.name) + seq![32u8] + b.id + seq![45u8] + dec_digits(b.sub_id) + seq![32u8]
        + cov_text(spec_coverage_halves(b.states)) + seq![32u8] + bool01(spec_has_up(b.states))
        + seq![32u8] + bool01(spec_has_down(b.states)) + seq![32u8] + seq![
        spec_byte_of_value(b.initial.value),
    ]
}

/// The report lines of all bits, in declaration order, each
/// `\n`-terminated.
pub open spec fn report_lines(bits: Seq<BitModel>) -> Seq<u8>
    decreases bits.len(),
{
    if bits.len() == 0 {
        Seq::empty()
    } else {
        bit_line_core(bits[0]) + seq![10u8] + report_lines(bits.drop_first())
    }
}

/// The total coverage of all bits, in half units.
pub open spec fn sum_halves(bits: Seq<BitModel>) -> int
    decreases bits.len(),
{
    if bits.len() == 0 {
        0
    } else {
        spec_coverage_halves(bits[0].states) + sum_halves(bits.drop_first())
    }
}

/// The mean coverage as a percentage in hundredths, rounded to nearest
/// with halves up: `halves / (2 n)` scaled by 10000.
pub open spec fn percent_hundredths(s: int, n: int) -> int {
    (10000 * s + n) / (2 * n)
}

/// A non-negative number of hundredths printed with two decimals.
pub open spec fn fixed2(h: int) -> Seq<u8> {
    dec_digits(h / 100) + seq![46u8, (48 + (h / 10) % 10) as u8, (48 + h % 10) as u8]
}

/// The total-coverage figure: the rounded mean percentage, or `NaN` when
/// there are no bits to average over.
pub open spec fn percent_text(bits: Seq<BitModel>) -> Seq<u8> {
    if bits.len() == 0 {
        rb_nan()
    } else {
        fixed2(percent_hundredths(sum_halves(bits), bits.len() as int))
    }
}

/// The whole report document.
pub open spec fn spec_report(v: VcdModel) -> Seq<u8> {
    rb_header_prefix() + percent_text(v.signals) + rb_percent_over() + dec_digits(
        v.signals.len() as int,
    ) + rb_signals_nl() + rb_legend_core() + seq![10u8] + report_lines(v.signals)
}

/// Total coverage lies between zero and two halves per bit.
pub proof fn lemma_sum_halves_bound(bits: Seq<BitModel>)
    ensures
        0 <= sum_halves(bits) <= 2 * bits.len(),
    decreases bits.len(),
{
    if bits.len() > 0 {
        lemma_sum_halves_bound(bits.drop_first());
    }
}

/// Appending one bit adds its coverage to the total.
proof fn lemma_sum_halves_step(bits: Seq<BitModel>, i: int)
    requires
        0 <= i < bits.len(),
    ensures
        sum_halves(bits.skip(i)) == spec_coverage_halves(bits[i].states) + sum_halves(
            bits.skip(i + 1),
        ),
{
    assert(bits.skip(i)[0] == bits[i]);
    assert(bits.skip(i).drop_first() =~= bits.skip(i + 1));
}

proof fn lemma_report_lines_step(bits: Seq<BitModel>, i: int)
    requires
        0 <= i < bits.len(),
    ensures
        report_lines(bits.skip(i)) == bit_line_core(bits[i]) + seq![10u8] + report_lines(
            bits.skip(i + 1),
        ),
{
    assert(bits.skip(i)[0] == bits[i]);
    assert(bits.skip(i).drop_first() =~= bits.skip(i + 1));
}

proof fn lemma_join_path_push(s: Seq<Seq<u8>>, x: Seq<u8>)
    ensures
        join_path(s.push(x)) == if s.len() == 0 {
            x
        } else {
            join_path(s) + seq![47u8] + x
        },
    decreases s.len(),
{
    let p = s.push(x);
    if s.len() == 0 {
        assert(p.len() == 1);
        assert(p[0] == x);
    } else {
        assert(p[0] == s[0]);
        assert(p.drop_first() =~= s.drop_first().push(x));
        lemma_join_path_push(s.drop_first(), x);
        if s.len() == 1 {
            assert(join_path(p) == s[0] + seq![47u8] + x);
            assert(join_path(s) == s[0]);
        } else {
            assert(join_path(p) == s[0] + seq![47u8] + (join_path(s.drop_first()) + seq![47u8]
                + x));
            assert(s[0] + seq![47u8] + (join_path(s.drop_first()) + seq![47u8] + x) =~= (s[0]
                + seq![47u8] + join_path(s.drop_first())) + seq![47u8] + x);
        }
    }
}

/// Append the `/`-joined path of a bit.
fn push_path(out: &mut Vec<u8>, name: &Vec<Vec<u8>>)
    ensures
        final(out)@ == old(out)@ + join_path(name.deep_view()),
{
    let n: usize = name.len();
    let mut i: usize = 0;
    proof {
        crate::text::lemma_deep_view_bytes(name);
        assert(name.deep_view().take(0) =~= Seq::<Seq<u8>>::empty());
        assert(out@ =~= out@ + join_path(name.deep_view().take(0)));
    }
    while i < n
        invariant
            0 <= i <= n == name@.len(),
            name.deep_view().len() == n,
            out@ == old(out)@ + join_path(name.deep_view().take(i as int)),
            forall|j: int| 0 <= j < n ==> name.deep_view()[j] == name@[j]@,
        decreases n - i,
    {
        if i > 0 {
            out.push(47);
        }
        let mut seg = subvec(name[i].as_slice(), 0, name[i].len());
        let ghost segv = seg@;
        out.append(&mut seg);
        proof {
            let dv = name.deep_view();
            assert(dv.take(i + 1) =~= dv.take(i as int).push(dv[i as int]));
            lemma_join_path_push(dv.take(i as int), dv[i as int]);
            assert(segv == name@[i as int]@);
            if i == 0 {
                assert(out@ =~= old(out)@ + join_path(dv.take(i + 1)));
            } else {
                assert(out@ =~= old(out)@ + join_path(dv.take(i + 1)));
            }
        }
        i = i + 1;
    }
    proof {
        assert(name.deep_view().take(n as int) =~= name.deep_view());
    }
}

/// Turn ASCII bytes into a `String`.
///
/// Relies on `String::from_utf8_lossy`: bytes below 128 decode to the
/// characters with the same code points, one character per byte.
#[verifier::external_body]
fn ascii_to_string(v: &Vec<u8>) -> (r: String)
    ensures
        (forall|i: int| 0 <= i < v@.len() ==> v@[i] < 128) ==> r@.len() == v@.len() && (forall|
            i: int,
        | 0 <= i < v@.len() ==> r@[i] == v@[i] as char),
{
    String::from_utf8_lossy(v.as_slice()).into_owned()
}

impl Signal {
    /// The bytes of this bit's report line, without the newline.
    #[verifier::rlimit(100)]
    pub fn line_bytes(&self) -> (r: Vec<u8>)
        ensures
            r@ == bit_line_core(self@),
    {
        let mut out: Vec<u8> = Vec::new();
        push_path(&mut out, &self.name);
        out.push(32);
        let mut idc = subvec(self.id.as_slice(), 0, self.id.len());
        out.append(&mut idc);
        out.push(45);
        push_dec(&mut out, self.sub_id as u64);
        out.push(32);
        let halves = self.coverage_halves();
        if halves == 2 {
            out.push(49);
            out.push(46);
            out.push(48);
        } else if halves == 1 {
            out.push(48);
            out.push(46);
            out.push(53);
        } else {
            out.push(48);
            out.push(46);
            out.push(48);
        }
        out.push(32);
        if self.has_transitioned_up() {
            out.push(49);
        } else {
            out.push(48);
        }
        out.push(32);
        if self.has_transitioned_down() {
            out.push(49);
        } else {
            out.push(48);
        }
        out.push(32);
        out.push(self.initial_state.value.to_byte());
        assert(out@ =~= bit_line_core(self@));
        out
    }

    /// The report line as text. For ASCII identifiers and names — all
    /// well-formed VCD input — the characters match the line bytes.
    pub fn to_result_string(&self) -> (r: String)
        ensures
            (forall|i: int| 0 <= i < bit_line_core(self@).len() ==> bit_line_core(self@)[i] < 128)
                ==> r@.len() == bit_line_core(self@).len() && (forall|i: int|
                0 <= i < bit_line_core(self@).len() ==> r@[i] == bit_line_core(self@)[i] as char),
    {
        let bytes = self.line_bytes();
        ascii_to_string(&bytes)
    }

    /// The column legend of the report.
    pub fn result_explanation() -> (r: String)
        ensures
            r@.len() == rb_legend_core().len(),
            forall|i: int| 0 <= i < rb_legend_core().len() ==> r@[i] == rb_legend_core()[i] as char,
    {
        let mut bytes: Vec<u8> = Vec::new();
        push_legend_core(&mut bytes);
        assert(bytes@ =~= rb_legend_core());
        assert forall|i: int| 0 <= i < bytes@.len() implies bytes@[i] < 128 by {}
        ascii_to_string(&bytes)
    }
}

impl VCD {
    /// The whole report, as bytes: exactly [`spec_report`] of the
    /// aggregate.
    pub fn to_result_bytes(&self) -> (r: Vec<u8>)
        ensures
            r@ == spec_report(self@),
    {
        broadcast use vstd::arithmetic::div_mod::lemma_fundamental_div_mod;

        let mut out: Vec<u8> = Vec::new();
        push_header_prefix(&mut out);
        let n: usize = self.signals.len();
        if n == 0 {
            push_nan(&mut out);
            assert(self@.signals.len() == 0);
        } else {
            let mut acc: u128 = 0;
            let mut i: usize = 0;
            proof {
                assert(self@.signals.skip(0) =~= self@.signals);
            }
            while i < n
                invariant
                    0 <= i <= n == self@.signals.len(),
                    n == self.signals@.len(),
                    acc == sum_halves(self@.signals) - sum_halves(self@.signals.skip(i as int)),
                    acc <= 2 * i,
                decreases n - i,
            {
                let h = self.signals[i].coverage_halves();
                proof {
                    lemma_sum_halves_step(self@.signals, i as int);
                    assert(self@.signals[i as int] == self.signals@[i as int]@);
                    lemma_sum_halves_bound(self@.signals.skip(i + 1));
                }
                acc = acc + h as u128;
                i = i + 1;
            }
            proof {
                assert(self@.signals.skip(n as int) =~= Seq::<BitModel>::empty());
                lemma_sum_halves_bound(self@.signals);
            }
            let s128: u128 = acc;
            let n128: u128 = n as u128;
            let h: u128 = (10000 * s128 + n128) / (2 * n128);
            proof {
                let s = sum_halves(self@.signals);
                let nn = self@.signals.len() as int;
                assert(h == percent_hundredths(s, nn));
                vstd::arithmetic::div_mod::lemma_div_is_ordered(
                    10000 * s + nn,
                    20001 * nn,
                    2 * nn,
                );
                vstd::arithmetic::div_mod::lemma_fundamental_div_mod_converse(
                    20001 * nn,
                    2 * nn,
                    10000,
                    nn,
                );
                assert(h <= 10000);
                vstd::arithmetic::div_mod::lemma_div_is_ordered(0, 10000 * s + nn, 2 * nn);
            }
            let hi: u64 = (h / 100) as u64;
            let mid: u8 = ((h / 10) % 10) as u8;
            let lo: u8 = (h % 10) as u8;
            push_dec(&mut out, hi);
            out.push(46);
            out.push(48 + mid);
            out.push(48 + lo);
            proof {
                assert(out@ =~= rb_header_prefix() + percent_text(self@.signals));
            }
        }
        push_percent_over(&mut out);
        push_dec(&mut out, n as u64);
        push_signals_nl(&mut out);
        push_legend_core(&mut out);
        out.push(10);
        let ghost head = out@;
        let mut i: usize = 0;
        proof {
            assert(self@.signals.skip(0) =~= self@.signals);
        }
        while i < n
            invariant
                0 <= i <= n == self@.signals.len(),
                n == self.signals@.len(),
                out@ + report_lines(self@.signals.skip(i as int)) == head + report_lines(
                    self@.signals,
                ),
            decreases n - i,
        {
            let mut line = self.signals[i].line_bytes();
            proof {
                assert(self@.signals[i as int] == self.signals@[i as int]@);
                lemma_report_lines_step(self@.signals, i as int);
            }
            let ghost before = out@;
            out.append(&mut line);
            out.push(10);
            proof {
                assert(out@ =~= before + (bit_line_core(self@.signals[i as int]) + seq![10u8]));
                assert(before + (bit_line_core(self@.signals[i as int]) + seq![10u8])
                    + report_lines(self@.signals.skip(i + 1)) =~= before + report_lines(
                    self@.signals.skip(i as int),
                ));
            }
            i = i + 1;
        }
        proof {
            assert(self@.signals.skip(n as int) =~= Seq::<BitModel>::empty());
            assert(out@ + report_lines(self@.signals.skip(n as int)) =~= out@);
            assert(out@ =~= spec_report(self@));
        }
        out
    }

    /// The whole report as text. For ASCII input the characters match the
    /// report bytes exactly.
    pub fn to_result_string(&self) -> (r: String)
        ensures
            (forall|i: int| 0 <= i < spec_report(self@).len() ==> spec_report(self@)[i] < 128)
                ==> r@.len() == spec_report(self@).len() && (forall|i: int|
                0 <= i < spec_report(self@).len() ==> r@[i] == spec_report(self@)[i] as char),
    {
        let bytes = self.to_result_bytes();
        ascii_to_string(&bytes)
    }
}

/// The rendered message of an analysis error: the offending line number,
/// then what was wrong, then the offending text or identifier.
pub open spec fn spec_error_message(e: ErrorModel) -> Seq<u8> {
    match e {
        ErrorModel::Parse { line, text } => rb_line_prefix() + dec_digits(line) + rb_colon()
            + rb_parse_msg() + text,
        ErrorModel::UnknownId { line, id } => rb_line_prefix() + dec_digits(line) + rb_colon()
            + rb_unknown_msg() + id,
        ErrorModel::WidthExceeded { line, id } => rb_line_prefix() + dec_digits(line) + rb_colon()
            + rb_width_msg() + id,
        ErrorModel::UnbalancedScope { line } => rb_line_prefix() + dec_digits(line) + rb_colon()
            + rb_unbalanced_msg(),
        ErrorModel::UnexpectedEvent { line } => rb_line_prefix() + dec_digits(line) + rb_colon()
            + rb_unexpected_msg(),
    }
}

impl IndexError {
    /// Render the error as message bytes.
    pub fn message(&self) -> (r: Vec<u8>)
        ensures
            r@ == spec_error_message(self@),
    {
        let mut out: Vec<u8> = Vec::new();
        push_line_prefix(&mut out);
        match self {
            IndexError::Parse { line, text } => {
                push_dec(&mut out, *line);
                push_colon(&mut out);
                push_parse_msg(&mut out);
                let mut t = subvec(text.as_slice(), 0, text.len());
                out.append(&mut t);
            },
            IndexError::UnknownId { line, id } => {
                push_dec(&mut out, *line);
                push_colon(&mut out);
                push_unknown_msg(&mut out);
                let mut t = subvec(id.as_slice(), 0, id.len());
                out.append(&mut t);
            },
            IndexError::WidthExceeded { line, id } => {
                push_dec(&mut out, *line);
                push_colon(&mut out);
                push_width_msg(&mut out);
                let mut t = subvec(id.as_slice(), 0, id.len());
                out.append(&mut t);
            },
            IndexError::UnbalancedScope { line } => {
                push_dec(&mut out, *line);
                push_colon(&mut out);
                push_unbalanced_msg(&mut out);
            },
            IndexError::UnexpectedEvent { line } => {
                push_dec(&mut out, *line);
                push_colon(&mut out);
                push_unexpected_msg(&mut out);
            },
        }
        assert(out@ =~= spec_error_message(self@));
        out
    }

    /// Render the error as text. The message is ASCII up to the offending
    /// input bytes it embeds.
    pub fn message_string(&self) -> (r: String)
        ensures
            (forall|i: int|
                0 <= i < spec_error_message(self@).len() ==> spec_error_message(self@)[i] < 128)
                ==> r@.len() == spec_error_message(self@).len() && (forall|i: int|
                0 <= i < spec_error_message(self@).len() ==> r@[i] == spec_error_message(self@)[i]
                    as char),
    {
        let bytes = self.message();
        ascii_to_string(&bytes)
    }
}

/// Re-running the analysis on the same events gives the same state, and
/// rendering the same aggregate gives byte-identical reports: the whole
/// pipeline is a function of its input.
pub proof fn lemma_rerun_identical(
    evs1: Seq<crate::lexer::LineEventModel>,
    evs2: Seq<crate::lexer::LineEventModel>,
)
    requires
        evs1 == evs2,
    ensures
        crate::indexer::run_steps(crate::indexer::init_indexer(), evs1)
            == crate::indexer::run_steps(crate::indexer::init_indexer(), evs2),
        (match crate::indexer::run_steps(crate::indexer::init_indexer(), evs1) {
            Result::Ok(m1) => spec_report(m1.vcd) == spec_report(
                crate::indexer::run_steps(crate::indexer::init_indexer(), evs2)->Ok_0.vcd,
            ),
            Result::Err(_) => true,
        }),
{
}

} // verus!
