//! Verified byte-string primitives: ASCII whitespace trimming, tokenisation,
//! substring search, splitting on a separator byte, and decimal numerals.
//!
//! VCD input is ASCII and line-oriented, so the whole pipeline works on
//! byte sequences; these are the spec-level and executable building blocks.

use vstd::prelude::*;

verus! {

/// ASCII whitespace: space, tab, line feed, form feed, carriage return.
pub open spec fn is_ws(b: u8) -> bool {
    b == 32 || b == 9 || b == 10 || b == 12 || b == 13
}

/// ASCII decimal digit.
pub open spec fn is_digit(b: u8) -> bool {
    48 <= b <= 57
}

pub open spec fn all_digits(s: Seq<u8>) -> bool {
    forall|i: int| 0 <= i < s.len() ==> is_digit(#[trigger] s[i])
}

/// Executable whitespace test.
pub fn ws(b: u8) -> (r: bool)
    ensures
        r == is_ws(b),
{
    b == 32 || b == 9 || b == 10 || b == 12 || b == 13
}

/// Executable digit test.
pub fn digit(b: u8) -> (r: bool)
    ensures
        r == is_digit(b),
{
    48 <= b && b <= 57
}

pub open spec fn trim_front(s: Seq<u8>) -> Seq<u8>
    decreases s.len(),
{
    if s.len() > 0 && is_ws(s[0]) {
        trim_front(s.drop_first())
    } else {
        s
    }
}

pub open spec fn trim_back(s: Seq<u8>) -> Seq<u8>
    decreases s.len(),
{
    if s.len() > 0 && is_ws(s.last()) {
        trim_back(s.drop_last())
    } else {
        s
    }
}

/// The sequence with leading and trailing ASCII whitespace removed.
pub open spec fn trimmed(s: Seq<u8>) -> Seq<u8> {
    trim_back(trim_front(s))
}

proof fn lemma_trim_front_subrange(s: Seq<u8>, i: int)
    requires
        0 <= i <= s.len(),
        forall|j: int| 0 <= j < i ==> is_ws(#[trigger] s[j]),
        i < s.len() ==> !is_ws(s[i]),
    ensures
        trim_front(s) == s.subrange(i, s.len() as int),
    decreases i,
{
    if i == 0 {
        assert(s.subrange(0, s.len() as int) =~= s);
    } else {
        lemma_trim_front_subrange(s.drop_first(), i - 1);
        assert(s.drop_first().subrange(i - 1, s.drop_first().len() as int) =~= s.subrange(
            i,
            s.len() as int,
        ));
    }
}

proof fn lemma_trim_back_subrange(s: Seq<u8>, j: int)
    requires
        0 <= j <= s.len(),
        forall|k: int| j <= k < s.len() ==> is_ws(#[trigger] s[k]),
        j > 0 ==> !is_ws(s[j - 1]),
    ensures
        trim_back(s) == s.subrange(0, j),
    decreases s.len() - j,
{
    if j == s.len() {
        if s.len() > 0 && is_ws(s.last()) {
            lemma_trim_back_subrange(s.drop_last(), j - 1);
            assert(s.drop_last().subrange(0, j - 1) =~= s.subrange(0, j - 1));
            assert(trim_back(s) == s.subrange(0, j - 1));
            assert(is_ws(s[j - 1]));
            assert(false);
        } else {
            assert(s.subrange(0, s.len() as int) =~= s);
        }
    } else {
        assert(is_ws(s.last()));
        lemma_trim_back_subrange(s.drop_last(), j);
        assert(s.drop_last().subrange(0, j) =~= s.subrange(0, j));
    }
}

/// Copy of `s` with leading and trailing ASCII whitespace removed.
pub fn trim(s: &[u8]) -> (r: Vec<u8>)
    ensures
        r@ == trimmed(s@),
{
    let n: usize = s.len();
    let mut i: usize = 0;
    while i < n && ws(s[i])
        invariant
            0 <= i <= n == s@.len(),
            forall|j: int| 0 <= j < i ==> is_ws(#[trigger] s@[j]),
        decreases n - i,
    {
        i = i + 1;
    }
    proof {
        lemma_trim_front_subrange(s@, i as int);
    }
    let mut j: usize = n;
    while j > i && ws(s[j - 1])
        invariant
            i <= j <= n == s@.len(),
            forall|k: int| j <= k < n ==> is_ws(#[trigger] s@[k]),
        decreases j,
    {
        j = j - 1;
    }
    let ghost tf = trim_front(s@);
    proof {
        if i < n {
            lemma_trim_back_subrange(tf, j - i);
        } else {
            lemma_trim_back_subrange(tf, 0);
        }
    }
    let mut r: Vec<u8> = Vec::new();
    let mut k: usize = i;
    while k < j
        invariant
            i <= k <= j <= n == s@.len(),
            r@ == s@.subrange(i as int, k as int),
        decreases j - k,
    {
        r.push(s[k]);
        assert(r@ =~= s@.subrange(i as int, k + 1));
        k = k + 1;
    }
    proof {
        assert(tf.subrange(0, j - i) =~= s@.subrange(i as int, j as int));
    }
    r
}

proof fn lemma_trim_front_head(s: Seq<u8>)
    ensures
        trim_front(s).len() > 0 ==> !is_ws(trim_front(s)[0]),
    decreases s.len(),
{
    if s.len() > 0 && is_ws(s[0]) {
        lemma_trim_front_head(s.drop_first());
    }
}

proof fn lemma_trim_back_prefix(s: Seq<u8>)
    ensures
        trim_back(s).len() <= s.len(),
        trim_back(s) == s.take(trim_back(s).len() as int),
    decreases s.len(),
{
    if s.len() > 0 && is_ws(s.last()) {
        lemma_trim_back_prefix(s.drop_last());
        assert(s.drop_last().take(trim_back(s).len() as int) =~= s.take(
            trim_back(s).len() as int,
        ));
    } else {
        assert(s.take(s.len() as int) =~= s);
    }
}

/// A non-empty trimmed line starts with a non-whitespace byte, so it has at
/// least one token, and that token is its longest non-whitespace prefix.
pub proof fn lemma_trimmed_has_token(s: Seq<u8>)
    requires
        trimmed(s).len() > 0,
    ensures
        !is_ws(trimmed(s)[0]),
        tokens(trimmed(s)).len() >= 1,
        tokens(trimmed(s))[0] == take_tok(trimmed(s)),
{
    let tf = trim_front(s);
    lemma_trim_front_head(s);
    lemma_trim_back_prefix(tf);
    assert(trimmed(s)[0] == tf[0]);
    let t = trimmed(s);
    assert(tokens(t) == seq![take_tok(t)] + tokens(t.skip(take_tok(t).len() as int)));
}

/// The longest prefix of `s` made of non-whitespace bytes.
pub open spec fn take_tok(s: Seq<u8>) -> Seq<u8>
    decreases s.len(),
{
    if s.len() > 0 && !is_ws(s[0]) {
        seq![s[0]] + take_tok(s.drop_first())
    } else {
        Seq::empty()
    }
}

proof fn lemma_take_tok_len(s: Seq<u8>)
    ensures
        take_tok(s).len() <= s.len(),
        s.len() > 0 && !is_ws(s[0]) ==> take_tok(s).len() >= 1,
    decreases s.len(),
{
    if s.len() > 0 && !is_ws(s[0]) {
        lemma_take_tok_len(s.drop_first());
    }
}

/// The whitespace-separated tokens of `s`, in order, empty tokens omitted.
pub open spec fn tokens(s: Seq<u8>) -> Seq<Seq<u8>>
    decreases s.len(),
    when s.len() >= 0
    via tokens_decreases
{
    if s.len() == 0 {
        Seq::empty()
    } else if is_ws(s[0]) {
        tokens(s.drop_first())
    } else {
        seq![take_tok(s)] + tokens(s.skip(take_tok(s).len() as int))
    }
}

#[via_fn]
proof fn tokens_decreases(s: Seq<u8>) {
    if s.len() > 0 && !is_ws(s[0]) {
        lemma_take_tok_len(s);
    }
}

proof fn lemma_take_tok_subrange(s: Seq<u8>, i: int)
    requires
        0 <= i <= s.len(),
        forall|j: int| 0 <= j < i ==> !is_ws(#[trigger] s[j]),
        i < s.len() ==> is_ws(s[i]),
    ensures
        take_tok(s) == s.subrange(0, i),
    decreases i,
{
    if i == 0 {
        assert(take_tok(s) =~= s.subrange(0, 0));
    } else {
        lemma_take_tok_subrange(s.drop_first(), i - 1);
        assert(s.drop_first().subrange(0, i - 1) =~= s.subrange(1, i));
        assert(seq![s[0]] + s.subrange(1, i) =~= s.subrange(0, i));
    }
}

/// The tokens of `s`, each copied out as its own vector.
pub fn tokenize(s: &[u8]) -> (r: Vec<Vec<u8>>)
    ensures
        r.deep_view() == tokens(s@),
{
    let n: usize = s.len();
    let mut r: Vec<Vec<u8>> = Vec::new();
    let mut i: usize = 0;
    proof {
        assert(s@.skip(0) =~= s@);
        assert(r.deep_view() + tokens(s@) =~= tokens(s@));
    }
    while i < n
        invariant
            0 <= i <= n == s@.len(),
            tokens(s@) == r.deep_view() + tokens(s@.skip(i as int)),
        decreases n - i,
    {
        if ws(s[i]) {
            proof {
                assert(s@.skip(i as int).drop_first() =~= s@.skip(i + 1));
            }
            i = i + 1;
        } else {
            let start: usize = i;
            let mut tok: Vec<u8> = Vec::new();
            while i < n && !ws(s[i])
                invariant
                    start <= i <= n == s@.len(),
                    forall|j: int| start <= j < i ==> !is_ws(#[trigger] s@[j]),
                    tok@ == s@.subrange(start as int, i as int),
                decreases n - i,
            {
                tok.push(s[i]);
                assert(tok@ =~= s@.subrange(start as int, i + 1));
                i = i + 1;
            }
            proof {
                let tail = s@.skip(start as int);
                assert(forall|j: int|
                    0 <= j < i - start ==> !is_ws(#[trigger] tail[j]) && tail[j] == s@[start + j]);
                lemma_take_tok_subrange(tail, i - start);
                assert(tail.subrange(0, i - start) =~= s@.subrange(start as int, i as int));
                assert(tail.skip(i - start) =~= s@.skip(i as int));
                assert(tokens(tail) == seq![tok@] + tokens(s@.skip(i as int)));
            }
            let ghost old_r = r.deep_view();
            let ghost old_rv = r@;
            let ghost tok_snap = tok;
            r.push(tok);
            proof {
                assert(r@ == old_rv.push(tok_snap));
                assert forall|k: int| 0 <= k < r@.len() implies r.deep_view()[k] == (old_r + seq![
                    tok_snap@,
                ])[k] by {
                    if k < old_rv.len() {
                        assert(r@[k] == old_rv[k]);
                    } else {
                        assert(r@[k] == tok_snap);
                        assert(tok_snap.deep_view() =~= tok_snap@);
                    }
                }
                assert(r.deep_view() =~= old_r + seq![tok_snap@]);
                assert(old_r + (seq![tok_snap@] + tokens(s@.skip(i as int))) =~= (old_r + seq![
                    tok_snap@,
                ]) + tokens(s@.skip(i as int)));
            }
        }
    }
    proof {
        assert(s@.skip(n as int) =~= Seq::<u8>::empty());
        assert(r.deep_view() + Seq::<Seq<u8>>::empty() =~= r.deep_view());
    }
    r
}

/// The deep view of a token list indexes to the view of each token.
pub proof fn lemma_deep_view_bytes(toks: &Vec<Vec<u8>>)
    ensures
        toks.deep_view().len() == toks@.len(),
        forall|i: int| 0 <= i < toks@.len() ==> toks.deep_view()[i] == toks@[i]@,
{
    assert forall|i: int| 0 <= i < toks@.len() implies toks.deep_view()[i] == toks@[i]@ by {
        assert(toks@[i].deep_view() =~= toks@[i]@);
    }
}

/// Whether the bytes of `pat` occur in `s` starting at index `i`.
pub open spec fn match_at(s: Seq<u8>, pat: Seq<u8>, i: int) -> bool {
    0 <= i && i + pat.len() <= s.len() && s.subrange(i, i + pat.len()) == pat
}

/// Whether `pat` occurs anywhere in `s`.
pub open spec fn has_sub(s: Seq<u8>, pat: Seq<u8>) -> bool {
    exists|i: int| match_at(s, pat, i)
}

/// Byte-for-byte equality of two slices.
pub fn eq_bytes(a: &[u8], b: &[u8]) -> (r: bool)
    ensures
        r == (a@ == b@),
{
    if a.len() != b.len() {
        return false;
    }
    let n: usize = a.len();
    let mut i: usize = 0;
    while i < n
        invariant
            0 <= i <= n,
            a@.len() == n,
            b@.len() == n,
            forall|j: int| 0 <= j < i ==> a@[j] == b@[j],
        decreases n - i,
    {
        if a[i] != b[i] {
            return false;
        }
        i = i + 1;
    }
    proof {
        assert(a@ =~= b@);
    }
    true
}

/// Index of the first occurrence of `pat` in `s`, if any.
pub fn find_sub(s: &[u8], pat: &[u8]) -> (r: Option<usize>)
    ensures
        match r {
            Some(i) => match_at(s@, pat@, i as int) && forall|j: int|
                0 <= j < i ==> !match_at(s@, pat@, j),
            None => !has_sub(s@, pat@),
        },
{
    let n: usize = s.len();
    let m: usize = pat.len();
    if m > n {
        return None;
    }
    let mut i: usize = 0;
    while i <= n - m
        invariant
            0 <= i <= n - m + 1,
            m <= n == s@.len(),
            m == pat@.len(),
            forall|j: int| 0 <= j < i ==> !match_at(s@, pat@, j),
        decreases n + 1 - m - i,
    {
        let mut k: usize = 0;
        let mut ok: bool = true;
        while k < m
            invariant
                0 <= k <= m,
                i + m <= n,
                n == s@.len(),
                m == pat@.len(),
                ok <==> (forall|t: int| 0 <= t < k ==> s@[i + t] == pat@[t]),
            decreases m - k,
        {
            if s[i + k] != pat[k] {
                ok = false;
                k = m;
            } else {
                k = k + 1;
            }
        }
        if ok {
            proof {
                assert(s@.subrange(i as int, i + m) =~= pat@);
            }
            return Some(i);
        }
        proof {
            if match_at(s@, pat@, i as int) {
                assert(forall|t: int|
                    0 <= t < m ==> #[trigger] s@.subrange(i as int, i + m)[t] == s@[i + t]);
                assert(false);
            }
        }
        i = i + 1;
    }
    proof {
        assert forall|j: int| !match_at(s@, pat@, j) by {
            if match_at(s@, pat@, j) {
                assert(0 <= j < i);
            }
        }
    }
    None
}

/// Length of the prefix of `s` that precedes the first occurrence of `b`
/// (`s.len()` when `b` does not occur).
pub open spec fn sep_pos(s: Seq<u8>, b: u8) -> int
    decreases s.len(),
{
    if s.len() == 0 {
        0
    } else if s[0] == b {
        0
    } else {
        1 + sep_pos(s.drop_first(), b)
    }
}

proof fn lemma_sep_pos_at(s: Seq<u8>, b: u8, i: int)
    requires
        0 <= i <= s.len(),
        forall|j: int| 0 <= j < i ==> s[j] != b,
        i < s.len() ==> s[i] == b,
    ensures
        sep_pos(s, b) == i,
    decreases i,
{
    if s.len() > 0 && s[0] != b {
        lemma_sep_pos_at(s.drop_first(), b, i - 1);
    }
}

/// The part of `s` before the first `sep`.
pub open spec fn split_head(s: Seq<u8>, sep: u8) -> Seq<u8> {
    s.subrange(0, sep_pos(s, sep))
}

/// The part of `s` after the first `sep`, or `None` when `sep` is absent.
pub open spec fn split_rest(s: Seq<u8>, sep: u8) -> Option<Seq<u8>> {
    if sep_pos(s, sep) < s.len() {
        Some(s.subrange(sep_pos(s, sep) + 1, s.len() as int))
    } else {
        None
    }
}

/// Split `s` at the first occurrence of `sep`: the bytes before it, and
/// the bytes after it when it occurs.
pub fn split_once(s: &[u8], sep: u8) -> (r: (Vec<u8>, Option<Vec<u8>>))
    ensures
        r.0@ == split_head(s@, sep),
        match r.1 {
            Some(rest) => split_rest(s@, sep) == Some(rest@),
            None => split_rest(s@, sep) is None,
        },
{
    let n: usize = s.len();
    let mut i: usize = 0;
    while i < n && s[i] != sep
        invariant
            0 <= i <= n == s@.len(),
            forall|j: int| 0 <= j < i ==> s@[j] != sep,
        decreases n - i,
    {
        i = i + 1;
    }
    proof {
        lemma_sep_pos_at(s@, sep, i as int);
    }
    let head = subvec(s, 0, i);
    if i < n {
        let rest = subvec(s, i + 1, n);
        (head, Some(rest))
    } else {
        (head, None)
    }
}

/// Copy of `s[i..j]`.
pub fn subvec(s: &[u8], i: usize, j: usize) -> (r: Vec<u8>)
    requires
        0 <= i <= j <= s@.len(),
    ensures
        r@ == s@.subrange(i as int, j as int),
{
    let mut r: Vec<u8> = Vec::new();
    let mut k: usize = i;
    while k < j
        invariant
            i <= k <= j <= s@.len(),
            r@ == s@.subrange(i as int, k as int),
        decreases j - k,
    {
        r.push(s[k]);
        assert(r@ =~= s@.subrange(i as int, k + 1));
        k = k + 1;
    }
    r
}

/// The value of a string of decimal digits, most significant first.
pub open spec fn dec_value(s: Seq<u8>) -> int
    decreases s.len(),
{
    if s.len() == 0 {
        0
    } else {
        dec_value(s.drop_last()) * 10 + (s.last() - 48)
    }
}

pub proof fn lemma_dec_value_nonneg(s: Seq<u8>)
    requires
        all_digits(s),
    ensures
        dec_value(s) >= 0,
    decreases s.len(),
{
    if s.len() > 0 {
        assert(all_digits(s.drop_last()));
        lemma_dec_value_nonneg(s.drop_last());
    }
}

pub proof fn lemma_dec_value_prefix(s: Seq<u8>, k: int)
    requires
        all_digits(s),
        0 <= k <= s.len(),
    ensures
        dec_value(s.take(k)) <= dec_value(s),
    decreases s.len() - k,
{
    if k < s.len() {
        lemma_dec_value_prefix(s, k + 1);
        let p = s.take(k + 1);
        assert(p.drop_last() =~= s.take(k));
        assert(all_digits(s.take(k)));
        lemma_dec_value_nonneg(s.take(k));
        assert(dec_value(p) == dec_value(s.take(k)) * 10 + (s[k] - 48));
    } else {
        assert(s.take(k) =~= s);
    }
}

/// Parse an unsigned decimal numeral. Returns the value exactly when `s` is
/// a non-empty, all-digit string whose value fits in a `u64`.
pub fn parse_u64(s: &[u8]) -> (r: Option<u64>)
    ensures
        match r {
            Some(v) => s@.len() > 0 && all_digits(s@) && v == dec_value(s@),
            None => s@.len() == 0 || !all_digits(s@) || dec_value(s@) > u64::MAX,
        },
{
    broadcast use vstd::arithmetic::div_mod::lemma_fundamental_div_mod;

    let n: usize = s.len();
    if n == 0 {
        return None;
    }
    let mut acc: u64 = 0;
    let mut i: usize = 0;
    proof {
        assert(s@.take(0) =~= Seq::<u8>::empty());
    }
    while i < n
        invariant
            0 <= i <= n == s@.len(),
            all_digits(s@.take(i as int)),
            acc == dec_value(s@.take(i as int)),
        decreases n - i,
    {
        let b = s[i];
        if !digit(b) {
            return None;
        }
        let d: u64 = (b - 48) as u64;
        proof {
            assert(s@.take(i + 1).drop_last() =~= s@.take(i as int));
            assert(dec_value(s@.take(i + 1)) == acc * 10 + d);
        }
        if acc > (u64::MAX - d) / 10 {
            proof {
                let q = (u64::MAX - d) as int / 10;
                assert((u64::MAX - d) as int == 10 * q + (u64::MAX - d) as int % 10);
                assert(acc * 10 >= (q + 1) * 10) by (nonlinear_arith)
                    requires acc as int >= q + 1,
                ;
                assert(dec_value(s@.take(i + 1)) > u64::MAX);
                if all_digits(s@) {
                    lemma_dec_value_prefix(s@, i + 1);
                }
            }
            return None;
        }
        proof {
            let q = (u64::MAX - d) as int / 10;
            assert((u64::MAX - d) as int == 10 * q + (u64::MAX - d) as int % 10);
            assert(acc * 10 <= q * 10) by (nonlinear_arith)
                requires acc as int <= q,
            ;
        }
        acc = acc * 10 + d;
        i = i + 1;
    }
    proof {
        assert(s@.take(n as int) =~= s@);
    }
    Some(acc)
}

/// Whether `s` is a well-formed signed decimal numeral whose value fits
/// in an `i64`: an optional leading minus sign, then at least one digit.
pub open spec fn signed_ok(s: Seq<u8>) -> bool {
    if s.len() > 0 && s[0] == 45 {
        s.len() > 1 && all_digits(s.skip(1)) && dec_value(s.skip(1)) <= 0x8000000000000000
    } else {
        s.len() > 0 && all_digits(s) && dec_value(s) <= i64::MAX
    }
}

/// The value of a signed decimal numeral.
pub open spec fn signed_value(s: Seq<u8>) -> int {
    if s.len() > 0 && s[0] == 45 {
        -dec_value(s.skip(1))
    } else {
        dec_value(s)
    }
}

/// Parse a signed decimal numeral, exactly when `signed_ok` holds of it.
pub fn parse_i64(s: &[u8]) -> (r: Option<i64>)
    ensures
        r is Some <==> signed_ok(s@),
        r matches Some(v) ==> v == signed_value(s@),
{
    let n: usize = s.len();
    if n > 0 && s[0] == 45 {
        let mag = subvec(s, 1, n);
        proof {
            assert(mag@ =~= s@.skip(1));
        }
        match parse_u64(mag.as_slice()) {
            Some(v) => {
                if v <= 0x8000000000000000 {
                    if v == 0x8000000000000000 {
                        Some(i64::MIN)
                    } else {
                        Some(-(v as i64))
                    }
                } else {
                    None
                }
            },
            None => {
                proof {
                    if s@.skip(1).len() > 0 && all_digits(s@.skip(1)) {
                        lemma_dec_value_nonneg(s@.skip(1));
                    }
                }
                None
            },
        }
    } else {
        match parse_u64(s) {
            Some(v) => {
                if v <= i64::MAX as u64 {
                    Some(v as i64)
                } else {
                    None
                }
            },
            None => None,
        }
    }
}

/// The decimal numeral of a non-negative integer, most significant first.
pub open spec fn dec_digits(n: int) -> Seq<u8>
    decreases n,
{
    if n <= 9 {
        seq![(48 + if n >= 0 { n } else { 0 }) as u8]
    } else {
        dec_digits(n / 10) + seq![(48 + n % 10) as u8]
    }
}

/// Append the decimal numeral of `n` to `out`.
pub fn push_dec(out: &mut Vec<u8>, n: u64)
    ensures
        final(out)@ == old(out)@ + dec_digits(n as int),
    decreases n,
{
    broadcast use vstd::arithmetic::div_mod::lemma_fundamental_div_mod;

    if n <= 9 {
        out.push(48 + n as u8);
        assert(out@ =~= old(out)@ + dec_digits(n as int));
    } else {
        push_dec(out, n / 10);
        out.push(48 + (n % 10) as u8);
        assert(out@ =~= old(out)@ + dec_digits(n as int));
    }
}

} // verus!
