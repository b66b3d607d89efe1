//! The lexer: a line-fed state machine that turns raw VCD lines into typed
//! events.
//!
//! The caller reads the input line by line (I/O stays outside this crate)
//! and hands each raw line to [`Lexer::feed_line`], which returns at most one
//! event. The exact event stream is pinned down by the specification
//! function [`spec_lex`], a mathematical transcription of the VCD line
//! grammar; `feed_line` is proved to implement it.

use vstd::prelude::*;

use crate::text::all_digits;
use crate::text::dec_value;
use crate::text::eq_bytes;
use crate::text::find_sub;
use crate::text::has_sub;
use crate::text::lemma_deep_view_bytes;
use crate::text::lemma_trimmed_has_token;
use crate::text::match_at;
use crate::text::parse_i64;
use crate::text::parse_u64;
use crate::text::signed_ok;
use crate::text::signed_value;
use crate::text::split_head;
use crate::text::split_once;
use crate::text::split_rest;
use crate::text::subvec;
use crate::text::tokenize;
use crate::text::tokens;
use crate::text::trim;
use crate::text::trimmed;

verus! {

/// What the lexer needs to know about the input: the path the caller will
/// read from, and the separator byte used inside vector and port changes.
pub struct Configuration {
    pub in_file: String,
    pub separator: u8,
}

/// Whether a declared variable is a multi-bit bus or a single gate.
#[derive(Debug, Clone, Copy, PartialEq, Eq, Structural)]
pub enum SignalType {
    Bus,
    Gate,
}

/// A `$var` declaration: identifier code, display name, bit width, kind.
#[derive(Debug)]
pub struct Signal {
    pub id: Vec<u8>,
    pub name: Vec<u8>,
    pub num_values: usize,
    pub signal_type: SignalType,
}

/// Specification-level image of a declared signal.
#[verifier::ext_equal]
pub struct SignalModel {
    pub id: Seq<u8>,
    pub name: Seq<u8>,
    pub num_values: int,
    pub signal_type: SignalType,
}

impl View for Signal {
    type V = SignalModel;

    open spec fn view(&self) -> SignalModel {
        SignalModel {
            id: self.id@,
            name: self.name@,
            num_values: self.num_values as int,
            signal_type: self.signal_type,
        }
    }
}

/// A value-change line: the identifier it refers to and the raw sample
/// bytes, one per bit, most significant first.
#[derive(Debug)]
pub struct Change {
    pub signal_id: Vec<u8>,
    pub values: Vec<u8>,
}

/// Specification-level image of a change.
#[verifier::ext_equal]
pub struct ChangeModel {
    pub signal_id: Seq<u8>,
    pub values: Seq<u8>,
}

impl View for Change {
    type V = ChangeModel;

    open spec fn view(&self) -> ChangeModel {
        ChangeModel { signal_id: self.signal_id@, values: self.values@ }
    }
}

/// One typed event of the VCD stream.
#[derive(Debug)]
pub enum LineInfo {
    Signal(Signal),
    Timestamp(u64),
    Change(Change),
    DateInfo(Vec<u8>),
    VersionInfo(Vec<u8>),
    TimeScaleInfo(Vec<u8>),
    InScope(Vec<u8>),
    UpScope,
    ParsingError(Vec<u8>),
    EndDefinitions,
    EndInitializations,
    Dumpports,
    Useless,
}

/// Specification-level image of an event.
#[verifier::ext_equal]
pub enum EventModel {
    Signal(SignalModel),
    Timestamp(u64),
    Change(ChangeModel),
    DateInfo(Seq<u8>),
    VersionInfo(Seq<u8>),
    TimeScaleInfo(Seq<u8>),
    InScope(Seq<u8>),
    UpScope,
    ParsingError(Seq<u8>),
    EndDefinitions,
    EndInitializations,
    Dumpports,
    Useless,
}

impl View for LineInfo {
    type V = EventModel;

    open spec fn view(&self) -> EventModel {
        match self {
            LineInfo::Signal(s) => EventModel::Signal(s@),
            LineInfo::Timestamp(t) => EventModel::Timestamp(*t),
            LineInfo::Change(c) => EventModel::Change(c@),
            LineInfo::DateInfo(b) => EventModel::DateInfo(b@),
            LineInfo::VersionInfo(b) => EventModel::VersionInfo(b@),
            LineInfo::TimeScaleInfo(b) => EventModel::TimeScaleInfo(b@),
            LineInfo::InScope(b) => EventModel::InScope(b@),
            LineInfo::UpScope => EventModel::UpScope,
            LineInfo::ParsingError(b) => EventModel::ParsingError(b@),
            LineInfo::EndDefinitions => EventModel::EndDefinitions,
            LineInfo::EndInitializations => EventModel::EndInitializations,
            LineInfo::Dumpports => EventModel::Dumpports,
            LineInfo::Useless => EventModel::Useless,
        }
    }
}

/// An event together with the 1-based number of the line that produced it.
#[derive(Debug)]
pub struct LineEvent {
    pub value: LineInfo,
    pub line_number: u64,
}

/// Specification-level image of a numbered event.
#[verifier::ext_equal]
pub struct LineEventModel {
    pub value: EventModel,
    pub line_number: int,
}

impl View for LineEvent {
    type V = LineEventModel;

    open spec fn view(&self) -> LineEventModel {
        LineEventModel { value: self.value@, line_number: self.line_number as int }
    }
}

/// The three sections of a VCD file.
#[derive(Debug, Clone, Copy, PartialEq, Eq, Structural)]
pub enum Part {
    Declarations,
    Initializations,
    Changes,
}

/// Which multi-line header block is being accumulated.
#[derive(Debug, Clone, Copy, PartialEq, Eq, Structural)]
pub enum HeaderKind {
    Date,
    Version,
    TimeScale,
}

/// The lexer state: current section, separator byte, how many lines have
/// been fed, and the pending multi-line header block, if any.
pub struct Lexer {
    pub part: Part,
    pub separator: u8,
    pub lineno: u64,
    pub header_kind: Option<HeaderKind>,
    pub header_buf: Vec<u8>,
}

/// Specification-level image of the lexer state.
#[verifier::ext_equal]
pub struct LexerModel {
    pub part: Part,
    pub separator: u8,
    pub lineno: int,
    pub header: Option<(HeaderKind, Seq<u8>)>,
}

impl View for Lexer {
    type V = LexerModel;

    open spec fn view(&self) -> LexerModel {
        LexerModel {
            part: self.part,
            separator: self.separator,
            lineno: self.lineno as int,
            header: match self.header_kind {
                Option::None => Option::None,
                Option::Some(k) => Option::Some((k, self.header_buf@)),
            },
        }
    }
}

/// Result of one specification-level lexer step: the new state and the
/// event emitted for the line, if any.
#[verifier::ext_equal]
pub struct LexOut {
    pub st: LexerModel,
    pub ev: Option<EventModel>,
}

// Keyword byte strings of the declaration grammar.
pub open spec fn kw_end() -> Seq<u8> {
    seq![36u8, 101u8, 110u8, 100u8]
}

pub open spec fn kw_date() -> Seq<u8> {
    seq![36u8, 100u8, 97u8, 116u8, 101u8]
}

pub open spec fn kw_version() -> Seq<u8> {
    seq![36u8, 118u8, 101u8, 114u8, 115u8, 105u8, 111u8, 110u8]
}

pub open spec fn kw_timescale() -> Seq<u8> {
    seq![36u8, 116u8, 105u8, 109u8, 101u8, 115u8, 99u8, 97u8, 108u8, 101u8]
}

pub open spec fn kw_scope() -> Seq<u8> {
    seq![36u8, 115u8, 99u8, 111u8, 112u8, 101u8]
}

pub open spec fn kw_upscope() -> Seq<u8> {
    seq![36u8, 117u8, 112u8, 115u8, 99u8, 111u8, 112u8, 101u8]
}

pub open spec fn kw_var() -> Seq<u8> {
    seq![36u8, 118u8, 97u8, 114u8]
}

pub open spec fn kw_enddefinitions() -> Seq<u8> {
    seq![
        36u8,
        101u8,
        110u8,
        100u8,
        100u8,
        101u8,
        102u8,
        105u8,
        110u8,
        105u8,
        116u8,
        105u8,
        111u8,
        110u8,
        115u8,
    ]
}

pub open spec fn kw_module() -> Seq<u8> {
    seq![109u8, 111u8, 100u8, 117u8, 108u8, 101u8]
}

pub open spec fn kw_task() -> Seq<u8> {
    seq![116u8, 97u8, 115u8, 107u8]
}

pub open spec fn kw_wire() -> Seq<u8> {
    seq![119u8, 105u8, 114u8, 101u8]
}

pub open spec fn kw_port() -> Seq<u8> {
    seq![112u8, 111u8, 114u8, 116u8]
}

pub open spec fn kw_one() -> Seq<u8> {
    seq![49u8]
}

pub open spec fn kw_dumpports() -> Seq<u8> {
    seq![36u8, 100u8, 117u8, 109u8, 112u8, 112u8, 111u8, 114u8, 116u8, 115u8]
}

pub open spec fn kw_dumpvars() -> Seq<u8> {
    seq![36u8, 100u8, 117u8, 109u8, 112u8, 118u8, 97u8, 114u8, 115u8]
}

pub open spec fn kw_dumpall() -> Seq<u8> {
    seq![36u8, 100u8, 117u8, 109u8, 112u8, 97u8, 108u8, 108u8]
}

pub open spec fn kw_dumpon() -> Seq<u8> {
    seq![36u8, 100u8, 117u8, 109u8, 112u8, 111u8, 110u8]
}

pub open spec fn kw_dumpoff() -> Seq<u8> {
    seq![36u8, 100u8, 117u8, 109u8, 112u8, 111u8, 102u8, 102u8]
}

/// Position of the first occurrence of `pat` in `s` (`s.len()` when absent,
/// `0` when `pat` is empty).
pub open spec fn sub_pos(s: Seq<u8>, pat: Seq<u8>) -> int
    decreases s.len(),
{
    if match_at(s, pat, 0) {
        0
    } else if s.len() == 0 {
        0
    } else {
        1 + sub_pos(s.drop_first(), pat)
    }
}

/// `s` with the first occurrence of `pat` spliced out; `s` itself when
/// `pat` does not occur.
pub open spec fn remove_first(s: Seq<u8>, pat: Seq<u8>) -> Seq<u8> {
    if has_sub(s, pat) {
        s.subrange(0, sub_pos(s, pat)) + s.subrange(sub_pos(s, pat) + pat.len(), s.len() as int)
    } else {
        s
    }
}

/// The event a completed header block turns into.
pub open spec fn header_event(kind: HeaderKind, body: Seq<u8>) -> EventModel {
    match kind {
        HeaderKind::Date => EventModel::DateInfo(body),
        HeaderKind::Version => EventModel::VersionInfo(body),
        HeaderKind::TimeScale => EventModel::TimeScaleInfo(body),
    }
}

/// The header keyword of a kind.
pub open spec fn header_kw(kind: HeaderKind) -> Seq<u8> {
    match kind {
        HeaderKind::Date => kw_date(),
        HeaderKind::Version => kw_version(),
        HeaderKind::TimeScale => kw_timescale(),
    }
}

/// Sample bytes a scalar change line may start with: `0 1 x z X Z`.
pub open spec fn is_scalar_byte(b: u8) -> bool {
    b == 48 || b == 49 || b == 120 || b == 122 || b == 88 || b == 90
}

/// A `$var wire` declaration: `WIDTH ID NAME`, with `WIDTH` a literal
/// decimal. The token `1` means a single gate; any other token must be a
/// decimal width between 1 and 65536. A leading separator byte is stripped
/// from the identifier.
pub open spec fn lex_var_wire(sep: u8, t: Seq<u8>, toks: Seq<Seq<u8>>) -> EventModel {
    if toks.len() < 5 {
        EventModel::ParsingError(t)
    } else {
        let width_tok = toks[2];
        let id = strip_sep(toks[3], sep);
        let name = toks[4];
        if width_tok == kw_one() {
            EventModel::Signal(
                SignalModel { id, name, num_values: 1, signal_type: SignalType::Gate },
            )
        } else if width_tok.len() > 0 && all_digits(width_tok) && 1 <= dec_value(width_tok) <= 65536 {
            EventModel::Signal(
                SignalModel {
                    id,
                    name,
                    num_values: dec_value(width_tok),
                    signal_type: SignalType::Bus,
                },
            )
        } else {
            EventModel::ParsingError(t)
        }
    }
}

/// A `$var port` declaration: the width token is `1` or a range `<L:R>`
/// whose width is `|L - R| + 1`; the enclosing bytes of the range token are
/// stripped without further inspection.
pub open spec fn lex_var_port(sep: u8, t: Seq<u8>, toks: Seq<Seq<u8>>) -> EventModel {
    if toks.len() < 5 {
        EventModel::ParsingError(t)
    } else {
        let width_tok = toks[2];
        let id = strip_sep(toks[3], sep);
        let name = toks[4];
        if width_tok == kw_one() {
            EventModel::Signal(
                SignalModel { id, name, num_values: 1, signal_type: SignalType::Gate },
            )
        } else if width_tok.len() < 2 {
            EventModel::ParsingError(t)
        } else {
            let inner = width_tok.subrange(1, width_tok.len() - 1);
            let l_tok = split_head(inner, 58);
            match split_rest(inner, 58) {
                Option::None => EventModel::ParsingError(t),
                Option::Some(after) => {
                    let r_tok = split_head(after, 58);
                    if signed_ok(l_tok) && signed_ok(r_tok) {
                        let l = signed_value(l_tok);
                        let r = signed_value(r_tok);
                        let width = if l >= r {
                            l - r + 1
                        } else {
                            r - l + 1
                        };
                        if width <= 65536 {
                            EventModel::Signal(
                                SignalModel {
                                    id,
                                    name,
                                    num_values: width,
                                    signal_type: SignalType::Bus,
                                },
                            )
                        } else {
                            EventModel::ParsingError(t)
                        }
                    } else {
                        EventModel::ParsingError(t)
                    }
                },
            }
        }
    }
}

/// The identifier with a single leading separator byte stripped.
pub open spec fn strip_sep(id: Seq<u8>, sep: u8) -> Seq<u8> {
    if id.len() > 0 && id[0] == sep {
        id.drop_first()
    } else {
        id
    }
}

/// A declaration-section line, already trimmed and tokenised.
pub open spec fn lex_decl(st: LexerModel, raw: Seq<u8>, t: Seq<u8>, toks: Seq<Seq<u8>>) -> LexOut {
    let head = toks[0];
    if head == kw_date() || head == kw_version() || head == kw_timescale() {
        let kind = if head == kw_date() {
            HeaderKind::Date
        } else if head == kw_version() {
            HeaderKind::Version
        } else {
            HeaderKind::TimeScale
        };
        let body = remove_first(raw, head);
        if has_sub(body, kw_end()) {
            LexOut { st: st, ev: Option::Some(header_event(kind, body)) }
        } else {
            LexOut {
                st: LexerModel { header: Option::Some((kind, body)), ..st },
                ev: Option::None,
            }
        }
    } else if head == kw_scope() {
        if toks.len() >= 2 && (toks[1] == kw_module() || toks[1] == kw_task()) {
            if toks.len() >= 3 {
                LexOut { st: st, ev: Option::Some(EventModel::InScope(toks[2])) }
            } else {
                LexOut { st: st, ev: Option::Some(EventModel::ParsingError(t)) }
            }
        } else {
            LexOut { st: st, ev: Option::Some(EventModel::ParsingError(t)) }
        }
    } else if head == kw_upscope() {
        LexOut { st: st, ev: Option::Some(EventModel::UpScope) }
    } else if head == kw_var() {
        if toks.len() >= 2 && toks[1] == kw_wire() {
            LexOut { st: st, ev: Option::Some(lex_var_wire(st.separator, t, toks)) }
        } else if toks.len() >= 2 && toks[1] == kw_port() {
            LexOut { st: st, ev: Option::Some(lex_var_port(st.separator, t, toks)) }
        } else {
            LexOut { st: st, ev: Option::Some(EventModel::ParsingError(t)) }
        }
    } else if head == kw_enddefinitions() {
        LexOut {
            st: LexerModel { part: Part::Initializations, ..st },
            ev: Option::Some(EventModel::EndDefinitions),
        }
    } else if head == kw_end() {
        LexOut { st: st, ev: Option::Some(EventModel::Useless) }
    } else {
        LexOut { st: st, ev: Option::Some(EventModel::ParsingError(t)) }
    }
}

/// A timestamp or value-change line, common to the initialisation and
/// change sections. `t` is the trimmed line, known non-empty.
pub open spec fn lex_sample(sep: u8, t: Seq<u8>) -> EventModel {
    if t[0] == 35 {
        // `#N`
        let num = t.drop_first();
        if num.len() > 0 && all_digits(num) && dec_value(num) <= u64::MAX {
            EventModel::Timestamp(dec_value(num) as u64)
        } else {
            EventModel::ParsingError(t)
        }
    } else if is_scalar_byte(t[0]) {
        EventModel::Change(ChangeModel { signal_id: t.drop_first(), values: seq![t[0]] })
    } else if t[0] == 98 {
        // `bBITS<sep>ID`
        let rest = t.drop_first();
        let values = split_head(rest, sep);
        match split_rest(rest, sep) {
            Option::None => EventModel::ParsingError(t),
            Option::Some(after) => EventModel::Change(
                ChangeModel { signal_id: split_head(after, sep), values },
            ),
        }
    } else if t[0] == 112 {
        // `pBITS<sep>s0<sep>s1<sep>ID`; the strengths s0 and s1 are present
        // (and skipped) only when the separator is a space.
        let rest = t.drop_first();
        let values = split_head(rest, sep);
        match split_rest(rest, sep) {
            Option::None => EventModel::ParsingError(t),
            Option::Some(after) => {
                if sep == 32 {
                    match split_rest(after, sep) {
                        Option::None => EventModel::ParsingError(t),
                        Option::Some(after2) => match split_rest(after2, sep) {
                            Option::None => EventModel::ParsingError(t),
                            Option::Some(after3) => EventModel::Change(
                                ChangeModel { signal_id: split_head(after3, sep), values },
                            ),
                        },
                    }
                } else {
                    EventModel::Change(ChangeModel { signal_id: split_head(after, sep), values })
                }
            },
        }
    } else {
        EventModel::ParsingError(t)
    }
}

/// An initialisation-section line: dump-block keywords, the closing `$end`,
/// timestamps and value changes.
pub open spec fn lex_init(st: LexerModel, t: Seq<u8>) -> LexOut {
    if t == kw_dumpports() {
        LexOut { st: st, ev: Option::Some(EventModel::Dumpports) }
    } else if t == kw_dumpvars() || t == kw_dumpall() || t == kw_dumpon() || t == kw_dumpoff() {
        LexOut { st: st, ev: Option::Some(EventModel::Useless) }
    } else if t == kw_end() {
        LexOut {
            st: LexerModel { part: Part::Changes, ..st },
            ev: Option::Some(EventModel::EndInitializations),
        }
    } else {
        LexOut { st: st, ev: Option::Some(lex_sample(st.separator, t)) }
    }
}

/// One lexer step: feed one raw line, get the new state and at most one
/// event. The emitted event always belongs to line `st.lineno + 1`.
pub open spec fn spec_lex(st: LexerModel, raw: Seq<u8>) -> LexOut {
    let lineno = st.lineno + 1;
    let base = LexerModel { lineno, ..st };
    match st.header {
        Option::Some((kind, buf)) => {
            let body = buf + raw;
            if has_sub(body, kw_end()) {
                LexOut {
                    st: LexerModel { header: Option::None, ..base },
                    ev: Option::Some(header_event(kind, body)),
                }
            } else {
                LexOut { st: LexerModel { header: Option::Some((kind, body)), ..base }, ev: Option::None }
            }
        },
        Option::None => {
            let t = trimmed(raw);
            if t.len() == 0 {
                LexOut { st: base, ev: Option::None }
            } else {
                match st.part {
                    Part::Declarations => lex_decl(base, raw, t, tokens(t)),
                    Part::Initializations => lex_init(base, t),
                    Part::Changes => LexOut {
                        st: base,
                        ev: Option::Some(lex_sample(st.separator, t)),
                    },
                }
            }
        },
    }
}

/// The event, if any, that ending the input produces: an unterminated
/// header block is a parse error reported with an empty payload.
pub open spec fn spec_lex_eof(st: LexerModel) -> Option<EventModel> {
    if st.header is Some {
        Option::Some(EventModel::ParsingError(Seq::empty()))
    } else {
        Option::None
    }
}


proof fn lemma_match_at_shift(s: Seq<u8>, pat: Seq<u8>, j: int)
    requires
        s.len() > 0,
        j >= 0,
    ensures
        match_at(s.drop_first(), pat, j) <==> match_at(s, pat, j + 1),
{
    if j + pat.len() <= s.len() - 1 {
        assert(s.drop_first().subrange(j, j + pat.len()) =~= s.subrange(
            j + 1,
            j + 1 + pat.len(),
        ));
    }
}

proof fn lemma_sub_pos_found(s: Seq<u8>, pat: Seq<u8>, i: int)
    requires
        0 <= i,
        match_at(s, pat, i),
        forall|j: int| 0 <= j < i ==> !match_at(s, pat, j),
    ensures
        sub_pos(s, pat) == i,
        has_sub(s, pat),
    decreases i,
{
    if i > 0 {
        assert(s.len() > 0);
        assert(!match_at(s, pat, 0));
        lemma_match_at_shift(s, pat, i - 1);
        assert forall|j: int| 0 <= j < i - 1 implies !match_at(s.drop_first(), pat, j) by {
            lemma_match_at_shift(s, pat, j);
        }
        lemma_sub_pos_found(s.drop_first(), pat, i - 1);
    }
}

/// Append `src` to `dst`.
fn append_bytes(dst: &mut Vec<u8>, src: &[u8])
    ensures
        final(dst)@ == old(dst)@ + src@,
{
    let n: usize = src.len();
    let mut i: usize = 0;
    while i < n
        invariant
            0 <= i <= n == src@.len(),
            dst@ == old(dst)@ + src@.subrange(0, i as int),
        decreases n - i,
    {
        dst.push(src[i]);
        assert(dst@ =~= old(dst)@ + src@.subrange(0, i + 1));
        i = i + 1;
    }
    assert(dst@ =~= old(dst)@ + src@);
}

/// Copy of `s` with the first occurrence of `pat` spliced out.
fn remove_first_exec(s: &[u8], pat: &[u8]) -> (r: Vec<u8>)
    ensures
        r@ == remove_first(s@, pat@),
{
    let n: usize = s.len();
    let m: usize = pat.len();
    match find_sub(s, pat) {
        Option::Some(i) => {
            proof {
                lemma_sub_pos_found(s@, pat@, i as int);
                assert(i + m <= n);
            }
            let mut a = subvec(s, 0, i);
            let mut b = subvec(s, i + m, n);
            a.append(&mut b);
            a
        },
        Option::None => {
            let r = subvec(s, 0, s.len());
            assert(r@ =~= s@);
            r
        },
    }
}

/// Parse a timestamp or value-change line (the trimmed line `t`).
fn sample_line(sep: u8, t: Vec<u8>) -> (r: LineInfo)
    requires
        t@.len() > 0,
    ensures
        r@ == lex_sample(sep, t@),
{
    let b0 = t[0];
    proof {
        assert(t@.drop_first() =~= t@.subrange(1, t@.len() as int));
    }
    if b0 == 35 {
        let num = subvec(t.as_slice(), 1, t.len());
        match parse_u64(num.as_slice()) {
            Option::Some(v) => LineInfo::Timestamp(v),
            Option::None => LineInfo::ParsingError(t),
        }
    } else if b0 == 48 || b0 == 49 || b0 == 120 || b0 == 122 || b0 == 88 || b0 == 90 {
        let id = subvec(t.as_slice(), 1, t.len());
        let mut values: Vec<u8> = Vec::new();
        values.push(b0);
        assert(values@ =~= seq![t@[0]]);
        LineInfo::Change(Change { signal_id: id, values })
    } else if b0 == 98 {
        let rest = subvec(t.as_slice(), 1, t.len());
        let (values, restopt) = split_once(rest.as_slice(), sep);
        match restopt {
            Option::None => LineInfo::ParsingError(t),
            Option::Some(after) => {
                let (id, _tail) = split_once(after.as_slice(), sep);
                LineInfo::Change(Change { signal_id: id, values })
            },
        }
    } else if b0 == 112 {
        let rest = subvec(t.as_slice(), 1, t.len());
        let (values, restopt) = split_once(rest.as_slice(), sep);
        match restopt {
            Option::None => LineInfo::ParsingError(t),
            Option::Some(after) => {
                if sep == 32 {
                    let (_s0, restopt2) = split_once(after.as_slice(), sep);
                    match restopt2 {
                        Option::None => LineInfo::ParsingError(t),
                        Option::Some(after2) => {
                            let (_s1, restopt3) = split_once(after2.as_slice(), sep);
                            match restopt3 {
                                Option::None => LineInfo::ParsingError(t),
                                Option::Some(after3) => {
                                    let (id, _tail) = split_once(after3.as_slice(), sep);
                                    LineInfo::Change(Change { signal_id: id, values })
                                },
                            }
                        },
                    }
                } else {
                    let (id, _tail) = split_once(after.as_slice(), sep);
                    LineInfo::Change(Change { signal_id: id, values })
                }
            },
        }
    } else {
        LineInfo::ParsingError(t)
    }
}

/// Copy one token out of the token list.
fn copy_tok(toks: &Vec<Vec<u8>>, i: usize) -> (r: Vec<u8>)
    requires
        i < toks@.len(),
    ensures
        r@ == toks.deep_view()[i as int],
{
    let r = subvec(toks[i].as_slice(), 0, toks[i].len());
    proof {
        lemma_deep_view_bytes(toks);
        assert(r@ =~= toks@[i as int]@);
    }
    r
}

/// The identifier token with a leading separator byte stripped.
fn strip_sep_exec(toks: &Vec<Vec<u8>>, i: usize, sep: u8) -> (r: Vec<u8>)
    requires
        i < toks@.len(),
    ensures
        r@ == strip_sep(toks.deep_view()[i as int], sep),
{
    let tok = &toks[i];
    proof {
        lemma_deep_view_bytes(toks);
    }
    if tok.len() > 0 && tok[0] == sep {
        let r = subvec(tok.as_slice(), 1, tok.len());
        proof {
            assert(r@ =~= toks@[i as int]@.drop_first());
        }
        r
    } else {
        copy_tok(toks, i)
    }
}

/// Parse a `$var wire` declaration line.
fn var_wire_line(sep: u8, t: Vec<u8>, toks: &Vec<Vec<u8>>) -> (r: LineInfo)
    ensures
        r@ == lex_var_wire(sep, t@, toks.deep_view()),
{
    proof {
        lemma_deep_view_bytes(toks);
    }
    if toks.len() < 5 {
        return LineInfo::ParsingError(t);
    }
    let id = strip_sep_exec(toks, 3, sep);
    let name = copy_tok(toks, 4);
    let one: Vec<u8> = vec![49u8];
    assert(one@ =~= kw_one());
    if eq_bytes(toks[2].as_slice(), one.as_slice()) {
        LineInfo::Signal(Signal { id, name, num_values: 1, signal_type: SignalType::Gate })
    } else {
        match parse_u64(toks[2].as_slice()) {
            Option::Some(v) => {
                if 1 <= v && v <= 65536 {
                    LineInfo::Signal(
                        Signal {
                            id,
                            name,
                            num_values: v as usize,
                            signal_type: SignalType::Bus,
                        },
                    )
                } else {
                    LineInfo::ParsingError(t)
                }
            },
            Option::None => LineInfo::ParsingError(t),
        }
    }
}

/// Parse a `$var port` declaration line.
fn var_port_line(sep: u8, t: Vec<u8>, toks: &Vec<Vec<u8>>) -> (r: LineInfo)
    ensures
        r@ == lex_var_port(sep, t@, toks.deep_view()),
{
    proof {
        lemma_deep_view_bytes(toks);
    }
    if toks.len() < 5 {
        return LineInfo::ParsingError(t);
    }
    let id = strip_sep_exec(toks, 3, sep);
    let name = copy_tok(toks, 4);
    let one: Vec<u8> = vec![49u8];
    assert(one@ =~= kw_one());
    if eq_bytes(toks[2].as_slice(), one.as_slice()) {
        return LineInfo::Signal(
            Signal { id, name, num_values: 1, signal_type: SignalType::Gate },
        );
    }
    let wt = &toks[2];
    if wt.len() < 2 {
        return LineInfo::ParsingError(t);
    }
    let inner = subvec(wt.as_slice(), 1, wt.len() - 1);
    let (l_tok, restopt) = split_once(inner.as_slice(), 58);
    match restopt {
        Option::None => LineInfo::ParsingError(t),
        Option::Some(after) => {
            let (r_tok, _tail) = split_once(after.as_slice(), 58);
            match (parse_i64(l_tok.as_slice()), parse_i64(r_tok.as_slice())) {
                (Option::Some(l), Option::Some(r)) => {
                    let diff: i128 = if l >= r {
                        l as i128 - r as i128
                    } else {
                        r as i128 - l as i128
                    };
                    let width: i128 = diff + 1;
                    if width <= 65536 {
                        LineInfo::Signal(
                            Signal {
                                id,
                                name,
                                num_values: width as usize,
                                signal_type: SignalType::Bus,
                            },
                        )
                    } else {
                        LineInfo::ParsingError(t)
                    }
                },
                _ => LineInfo::ParsingError(t),
            }
        },
    }
}

impl Lexer {
    /// A fresh lexer in the declarations section, before any line.
    pub fn new(separator: u8) -> (r: Lexer)
        ensures
            r@ == (LexerModel {
                part: Part::Declarations,
                separator,
                lineno: 0,
                header: Option::None,
            }),
    {
        Lexer {
            part: Part::Declarations,
            separator,
            lineno: 0,
            header_kind: Option::None,
            header_buf: Vec::new(),
        }
    }

    /// Feed one raw input line (1-based numbering) and return the event it
    /// completes, if any. Implements exactly one step of [`spec_lex`].
    pub fn feed_line(&mut self, raw: &[u8]) -> (r: Option<LineEvent>)
        requires
            old(self)@.lineno < u64::MAX,
        ensures
            final(self)@ == spec_lex(old(self)@, raw@).st,
            match r {
                Option::Some(e) => spec_lex(old(self)@, raw@).ev == Option::Some(e@.value)
                    && e@.line_number == old(self)@.lineno + 1,
                Option::None => spec_lex(old(self)@, raw@).ev is None,
            },
    {
        let ghost g = spec_lex(old(self)@, raw@);
        self.lineno = self.lineno + 1;
        let ln = self.lineno;
        match self.header_kind {
            Option::Some(kind) => {
                append_bytes(&mut self.header_buf, raw);
                let endkw: Vec<u8> = vec![36u8, 101, 110, 100];
                assert(endkw@ =~= kw_end());
                let found = find_sub(self.header_buf.as_slice(), endkw.as_slice());
                proof {
                    if let Option::Some(i) = found {
                        assert(match_at(self.header_buf@, kw_end(), i as int));
                        assert(has_sub(self.header_buf@, kw_end()));
                    }
                }
                if found.is_some() {
                    self.header_kind = Option::None;
                    let mut body: Vec<u8> = Vec::new();
                    core::mem::swap(&mut body, &mut self.header_buf);
                    let info = match kind {
                        HeaderKind::Date => LineInfo::DateInfo(body),
                        HeaderKind::Version => LineInfo::VersionInfo(body),
                        HeaderKind::TimeScale => LineInfo::TimeScaleInfo(body),
                    };
                    assert(self@ =~= g.st);
                    Option::Some(LineEvent { value: info, line_number: ln })
                } else {
                    assert(self@ =~= g.st);
                    Option::None
                }
            },
            Option::None => {
                let t = trim(raw);
                if t.len() == 0 {
                    assert(self@ =~= g.st);
                    return Option::None;
                }
                match self.part {
                    Part::Declarations => {
                        proof {
                            lemma_trimmed_has_token(raw@);
                        }
                        let toks = tokenize(t.as_slice());
                        proof {
                            lemma_deep_view_bytes(&toks);
                        }
                        assert(toks@.len() == tokens(t@).len());
                        let d_kw: Vec<u8> = vec![36u8, 100, 97, 116, 101];
                        let v_kw: Vec<u8> = vec![36u8, 118, 101, 114, 115, 105, 111, 110];
                        let ts_kw: Vec<u8> = vec![36u8, 116, 105, 109, 101, 115, 99, 97, 108, 101];
                        assert(d_kw@ =~= kw_date());
                        assert(v_kw@ =~= kw_version());
                        assert(ts_kw@ =~= kw_timescale());
                        let is_d = eq_bytes(toks[0].as_slice(), d_kw.as_slice());
                        let is_v = eq_bytes(toks[0].as_slice(), v_kw.as_slice());
                        let is_ts = eq_bytes(toks[0].as_slice(), ts_kw.as_slice());
                        if is_d || is_v || is_ts {
                            let kind = if is_d {
                                HeaderKind::Date
                            } else if is_v {
                                HeaderKind::Version
                            } else {
                                HeaderKind::TimeScale
                            };
                            let body = remove_first_exec(raw, toks[0].as_slice());
                            let endkw: Vec<u8> = vec![36u8, 101, 110, 100];
                            assert(endkw@ =~= kw_end());
                            let found = find_sub(body.as_slice(), endkw.as_slice());
                            proof {
                                if let Option::Some(i) = found {
                                    assert(match_at(body@, kw_end(), i as int));
                                    assert(has_sub(body@, kw_end()));
                                }
                            }
                            if found.is_some() {
                                let info = match kind {
                                    HeaderKind::Date => LineInfo::DateInfo(body),
                                    HeaderKind::Version => LineInfo::VersionInfo(body),
                                    HeaderKind::TimeScale => LineInfo::TimeScaleInfo(body),
                                };
                                assert(self@ =~= g.st);
                                Option::Some(LineEvent { value: info, line_number: ln })
                            } else {
                                self.header_kind = Option::Some(kind);
                                self.header_buf = body;
                                assert(self@ =~= g.st);
                                Option::None
                            }
                        } else {
                            let sc_kw: Vec<u8> = vec![36u8, 115, 99, 111, 112, 101];
                            assert(sc_kw@ =~= kw_scope());
                            if eq_bytes(toks[0].as_slice(), sc_kw.as_slice()) {
                                let m_kw: Vec<u8> = vec![109u8, 111, 100, 117, 108, 101];
                                let t_kw: Vec<u8> = vec![116u8, 97, 115, 107];
                                assert(m_kw@ =~= kw_module());
                                assert(t_kw@ =~= kw_task());
                                let info = if toks.len() >= 2 && (eq_bytes(
                                    toks[1].as_slice(),
                                    m_kw.as_slice(),
                                ) || eq_bytes(toks[1].as_slice(), t_kw.as_slice())) {
                                    if toks.len() >= 3 {
                                        LineInfo::InScope(copy_tok(&toks, 2))
                                    } else {
                                        LineInfo::ParsingError(t)
                                    }
                                } else {
                                    LineInfo::ParsingError(t)
                                };
                                assert(self@ =~= g.st);
                                return Option::Some(LineEvent { value: info, line_number: ln });
                            }
                            let up_kw: Vec<u8> = vec![36u8, 117, 112, 115, 99, 111, 112, 101];
                            assert(up_kw@ =~= kw_upscope());
                            if eq_bytes(toks[0].as_slice(), up_kw.as_slice()) {
                                assert(self@ =~= g.st);
                                return Option::Some(
                                    LineEvent { value: LineInfo::UpScope, line_number: ln },
                                );
                            }
                            let var_kw: Vec<u8> = vec![36u8, 118, 97, 114];
                            assert(var_kw@ =~= kw_var());
                            if eq_bytes(toks[0].as_slice(), var_kw.as_slice()) {
                                let w_kw: Vec<u8> = vec![119u8, 105, 114, 101];
                                let p_kw: Vec<u8> = vec![112u8, 111, 114, 116];
                                assert(w_kw@ =~= kw_wire());
                                assert(p_kw@ =~= kw_port());
                                let info = if toks.len() >= 2 && eq_bytes(
                                    toks[1].as_slice(),
                                    w_kw.as_slice(),
                                ) {
                                    var_wire_line(self.separator, t, &toks)
                                } else if toks.len() >= 2 && eq_bytes(
                                    toks[1].as_slice(),
                                    p_kw.as_slice(),
                                ) {
                                    var_port_line(self.separator, t, &toks)
                                } else {
                                    LineInfo::ParsingError(t)
                                };
                                assert(self@ =~= g.st);
                                return Option::Some(LineEvent { value: info, line_number: ln });
                            }
                            let ed_kw: Vec<u8> = vec![
                                36u8,
                                101,
                                110,
                                100,
                                100,
                                101,
                                102,
                                105,
                                110,
                                105,
                                116,
                                105,
                                111,
                                110,
                                115,
                            ];
                            assert(ed_kw@ =~= kw_enddefinitions());
                            if eq_bytes(toks[0].as_slice(), ed_kw.as_slice()) {
                                self.part = Part::Initializations;
                                assert(self@ =~= g.st);
                                return Option::Some(
                                    LineEvent {
                                        value: LineInfo::EndDefinitions,
                                        line_number: ln,
                                    },
                                );
                            }
                            let end_kw: Vec<u8> = vec![36u8, 101, 110, 100];
                            assert(end_kw@ =~= kw_end());
                            if eq_bytes(toks[0].as_slice(), end_kw.as_slice()) {
                                assert(self@ =~= g.st);
                                return Option::Some(
                                    LineEvent { value: LineInfo::Useless, line_number: ln },
                                );
                            }
                            assert(self@ =~= g.st);
                            Option::Some(
                                LineEvent { value: LineInfo::ParsingError(t), line_number: ln },
                            )
                        }
                    },
                    Part::Initializations => {
                        let dp_kw: Vec<u8> = vec![36u8, 100, 117, 109, 112, 112, 111, 114, 116, 115];
                        let dv_kw: Vec<u8> = vec![36u8, 100, 117, 109, 112, 118, 97, 114, 115];
                        let da_kw: Vec<u8> = vec![36u8, 100, 117, 109, 112, 97, 108, 108];
                        let don_kw: Vec<u8> = vec![36u8, 100, 117, 109, 112, 111, 110];
                        let doff_kw: Vec<u8> = vec![36u8, 100, 117, 109, 112, 111, 102, 102];
                        let end_kw: Vec<u8> = vec![36u8, 101, 110, 100];
                        assert(dp_kw@ =~= kw_dumpports());
                        assert(dv_kw@ =~= kw_dumpvars());
                        assert(da_kw@ =~= kw_dumpall());
                        assert(don_kw@ =~= kw_dumpon());
                        assert(doff_kw@ =~= kw_dumpoff());
                        assert(end_kw@ =~= kw_end());
                        if eq_bytes(t.as_slice(), dp_kw.as_slice()) {
                            assert(self@ =~= g.st);
                            return Option::Some(
                                LineEvent { value: LineInfo::Dumpports, line_number: ln },
                            );
                        }
                        if eq_bytes(t.as_slice(), dv_kw.as_slice()) || eq_bytes(
                            t.as_slice(),
                            da_kw.as_slice(),
                        ) || eq_bytes(t.as_slice(), don_kw.as_slice()) || eq_bytes(
                            t.as_slice(),
                            doff_kw.as_slice(),
                        ) {
                            assert(self@ =~= g.st);
                            return Option::Some(
                                LineEvent { value: LineInfo::Useless, line_number: ln },
                            );
                        }
                        if eq_bytes(t.as_slice(), end_kw.as_slice()) {
                            self.part = Part::Changes;
                            assert(self@ =~= g.st);
                            return Option::Some(
                                LineEvent {
                                    value: LineInfo::EndInitializations,
                                    line_number: ln,
                                },
                            );
                        }
                        let info = sample_line(self.separator, t);
                        assert(self@ =~= g.st);
                        Option::Some(LineEvent { value: info, line_number: ln })
                    },
                    Part::Changes => {
                        let info = sample_line(self.separator, t);
                        assert(self@ =~= g.st);
                        Option::Some(LineEvent { value: info, line_number: ln })
                    },
                }
            },
        }
    }

    /// Tell the lexer the input has ended. An unterminated header block is
    /// reported as a parse error at the last line that was fed.
    pub fn finish(&mut self) -> (r: Option<LineEvent>)
        ensures
            final(self)@ == (LexerModel { header: Option::None, ..old(self)@ }),
            match r {
                Option::Some(e) => spec_lex_eof(old(self)@) == Option::Some(e@.value)
                    && e@.line_number == old(self)@.lineno,
                Option::None => spec_lex_eof(old(self)@) is None,
            },
    {
        match self.header_kind {
            Option::Some(_) => {
                self.header_kind = Option::None;
                self.header_buf = Vec::new();
                let payload: Vec<u8> = Vec::new();
                Option::Some(
                    LineEvent {
                        value: LineInfo::ParsingError(payload),
                        line_number: self.lineno,
                    },
                )
            },
            Option::None => Option::None,
        }
    }
}

} // verus!
