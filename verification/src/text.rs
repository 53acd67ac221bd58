//! Byte-level text primitives: splitting on a separator class, trimming
//! Unicode white space from UTF-8 text, parsing and printing decimal `i32`.

use vstd::prelude::*;

use vstd::string::StringSliceAdditionalSpecFns;

use crate::utils::{digits_value, is_digit};

verus! {

/// The separator classes the parsers split on.
#[derive(Debug, Clone, Copy, PartialEq, Eq, Structural)]
pub enum Sep {
    /// `,`, `;` or ASCII white space (space, tab, LF, FF, CR).
    Rules,
    /// `:`.
    Colon,
    /// `\`.
    Backslash,
}

pub open spec fn is_sep(kind: Sep, b: u8) -> bool {
    match kind {
        Sep::Rules => b == 44 || b == 59 || b == 32 || b == 9 || b == 10 || b == 12 || b == 13,
        Sep::Colon => b == 58,
        Sep::Backslash => b == 92,
    }
}

fn is_sep_exec(kind: Sep, b: u8) -> (r: bool)
    ensures
        r == is_sep(kind, b),
{
    match kind {
        Sep::Rules => b == 44 || b == 59 || b == 32 || b == 9 || b == 10 || b == 12 || b == 13,
        Sep::Colon => b == 58,
        Sep::Backslash => b == 92,
    }
}

/// `str::split` on a separator class: the pieces between separators, empty
/// ones included (`n` separators give `n + 1` pieces).
pub open spec fn spec_split(s: Seq<u8>, kind: Sep) -> Seq<Seq<u8>>
    decreases s.len(),
{
    if s.len() == 0 {
        seq![Seq::empty()]
    } else {
        let prev = spec_split(s.drop_last(), kind);
        if is_sep(kind, s.last()) {
            prev.push(Seq::empty())
        } else {
            prev.update(prev.len() - 1, prev.last().push(s.last()))
        }
    }
}

pub proof fn lemma_split_nonempty(s: Seq<u8>, kind: Sep)
    ensures
        spec_split(s, kind).len() >= 1,
    decreases s.len(),
{
    if s.len() > 0 {
        lemma_split_nonempty(s.drop_last(), kind);
    }
}

/// Text with no separator of the class.
pub open spec fn sep_free(s: Seq<u8>, kind: Sep) -> bool {
    forall|i: int| 0 <= i < s.len() ==> !is_sep(kind, #[trigger] s[i])
}

/// Appending separator-free text extends the last piece.
pub proof fn lemma_split_append_plain(x: Seq<u8>, s: Seq<u8>, kind: Sep)
    requires
        sep_free(s, kind),
    ensures
        spec_split(x + s, kind) == spec_split(x, kind).update(
            spec_split(x, kind).len() - 1,
            spec_split(x, kind).last() + s,
        ),
    decreases s.len(),
{
    lemma_split_nonempty(x, kind);
    let pieces = spec_split(x, kind);
    if s.len() == 0 {
        assert(x + s =~= x);
        assert(pieces.last() + s =~= pieces.last());
        assert(pieces.update(pieces.len() - 1, pieces.last()) =~= pieces);
    } else {
        let s0 = s.drop_last();
        assert(sep_free(s0, kind)) by {
            assert forall|i: int| 0 <= i < s0.len() implies !is_sep(kind, #[trigger] s0[i]) by {
                assert(s0[i] == s[i]);
            }
        }
        lemma_split_append_plain(x, s0, kind);
        assert((x + s).drop_last() =~= x + s0);
        assert((x + s).last() == s[s.len() - 1]);
        assert(!is_sep(kind, s[s.len() - 1]));
        assert((pieces.last() + s0).push(s.last()) =~= pieces.last() + s);
        assert(spec_split(x + s, kind) =~= pieces.update(pieces.len() - 1, pieces.last() + s));
    }
}

/// A separator followed by separator-free text adds that text as a new
/// piece.
pub proof fn lemma_split_append_piece(x: Seq<u8>, b: u8, s: Seq<u8>, kind: Sep)
    requires
        is_sep(kind, b),
        sep_free(s, kind),
    ensures
        spec_split(x + seq![b] + s, kind) == spec_split(x, kind).push(s),
{
    let xb = x.push(b);
    assert(x + seq![b] =~= xb);
    assert(xb.drop_last() =~= x);
    assert(spec_split(xb, kind) == spec_split(x, kind).push(Seq::empty()));
    lemma_split_append_plain(xb, s, kind);
    assert(Seq::<u8>::empty() + s =~= s);
    assert(spec_split(x, kind).push(Seq::empty()).update(spec_split(x, kind).len() as int, s)
        =~= spec_split(x, kind).push(s));
}

/// Two texts joined by a separator split into the pieces of the first
/// followed by the pieces of the second.
pub proof fn lemma_split_join(x: Seq<u8>, b: u8, y: Seq<u8>, kind: Sep)
    requires
        is_sep(kind, b),
    ensures
        spec_split(x + seq![b] + y, kind) == spec_split(x, kind) + spec_split(y, kind),
    decreases y.len(),
{
    let xb = x + seq![b];
    if y.len() == 0 {
        assert(xb + y =~= xb);
        assert(xb.drop_last() =~= x);
        assert(xb.last() == b);
        assert(spec_split(x, kind).push(Seq::empty()) =~= spec_split(x, kind) + seq![
            Seq::<u8>::empty(),
        ]);
    } else {
        let y0 = y.drop_last();
        lemma_split_join(x, b, y0, kind);
        lemma_split_nonempty(y0, kind);
        let whole = xb + y;
        assert(whole.drop_last() =~= xb + y0);
        assert(whole.last() == y.last());
        let a = spec_split(x, kind);
        let p = spec_split(y0, kind);
        if is_sep(kind, y.last()) {
            assert((a + p).push(Seq::empty()) =~= a + p.push(Seq::empty()));
        } else {
            assert((a + p).update((a + p).len() - 1, (a + p).last().push(y.last())) =~= a
                + p.update(p.len() - 1, p.last().push(y.last())));
        }
    }
}

/// Separator-free text is one piece.
pub proof fn lemma_split_plain(s: Seq<u8>, kind: Sep)
    requires
        sep_free(s, kind),
    ensures
        spec_split(s, kind) == seq![s],
{
    lemma_split_append_plain(Seq::empty(), s, kind);
    assert(Seq::<u8>::empty() + s =~= s);
    assert(seq![Seq::<u8>::empty()].update(0, Seq::<u8>::empty() + s) =~= seq![s]);
}

/// No piece holds a separator.
pub proof fn lemma_split_pieces_sep_free(s: Seq<u8>, kind: Sep)
    ensures
        forall|k: int|
            0 <= k < spec_split(s, kind).len() ==> sep_free(#[trigger] spec_split(s, kind)[k], kind),
    decreases s.len(),
{
    lemma_split_nonempty(s, kind);
    if s.len() > 0 {
        let prev = spec_split(s.drop_last(), kind);
        lemma_split_pieces_sep_free(s.drop_last(), kind);
        lemma_split_nonempty(s.drop_last(), kind);
        if !is_sep(kind, s.last()) {
            let l = prev.last().push(s.last());
            assert(sep_free(prev[prev.len() - 1], kind));
            assert(sep_free(l, kind)) by {
                assert forall|i: int| 0 <= i < l.len() implies !is_sep(kind, #[trigger] l[i]) by {
                    if i < l.len() - 1 {
                        assert(l[i] == prev[prev.len() - 1][i]);
                    }
                }
            }
        } else {
            assert(sep_free(Seq::<u8>::empty(), kind));
        }
    }
}

/// Text that does not start with a separator has a non-empty first piece.
pub proof fn lemma_split_first_nonempty(s: Seq<u8>, kind: Sep)
    requires
        s.len() > 0,
        !is_sep(kind, s[0]),
    ensures
        spec_split(s, kind)[0].len() > 0,
    decreases s.len(),
{
    lemma_split_nonempty(s, kind);
    lemma_split_nonempty(s.drop_last(), kind);
    if s.len() == 1 {
        assert(s.drop_last() =~= Seq::<u8>::empty());
    } else {
        assert(s.drop_last()[0] == s[0]);
        lemma_split_first_nonempty(s.drop_last(), kind);
    }
}

/// The bounds `[lo, hi)` in `b` of every piece of `b[start..end]` split on
/// `kind`.
pub fn split_bounds(b: &[u8], start: usize, end: usize, kind: Sep) -> (r: Vec<(usize, usize)>)
    requires
        start <= end <= b@.len(),
    ensures
        r@.len() == spec_split(b@.subrange(start as int, end as int), kind).len(),
        forall|k: int|
            0 <= k < r@.len() ==> start <= (#[trigger] r@[k]).0 <= r@[k].1 <= end && b@.subrange(
                r@[k].0 as int,
                r@[k].1 as int,
            ) == spec_split(b@.subrange(start as int, end as int), kind)[k],
{
    let mut pieces: Vec<(usize, usize)> = Vec::new();
    let mut cur = start;
    let mut j = start;
    assert(b@.subrange(start as int, start as int) =~= Seq::<u8>::empty());
    while j < end
        invariant
            start <= cur <= j <= end <= b@.len(),
            spec_split(b@.subrange(start as int, j as int), kind).len() == pieces@.len() + 1,
            forall|k: int|
                0 <= k < pieces@.len() ==> start <= (#[trigger] pieces@[k]).0 <= pieces@[k].1 <= j
                    && b@.subrange(pieces@[k].0 as int, pieces@[k].1 as int) == spec_split(
                    b@.subrange(start as int, j as int),
                    kind,
                )[k],
            spec_split(b@.subrange(start as int, j as int), kind).last() == b@.subrange(
                cur as int,
                j as int,
            ),
        decreases end - j,
    {
        let ghost sub = b@.subrange(start as int, j as int);
        let ghost sub2 = b@.subrange(start as int, j + 1);
        assert(sub2.drop_last() =~= sub);
        assert(sub2.last() == b@[j as int]);
        proof {
            lemma_split_nonempty(sub, kind);
        }
        if is_sep_exec(kind, b[j]) {
            pieces.push((cur, j));
            cur = j + 1;
            assert(b@.subrange(cur as int, j + 1) =~= Seq::<u8>::empty());
        } else {
            assert(b@.subrange(cur as int, j + 1) =~= b@.subrange(cur as int, j as int).push(
                b@[j as int],
            ));
        }
        j += 1;
    }
    pieces.push((cur, end));
    pieces
}

/// Byte length of a Unicode white-space character (`char::is_whitespace`)
/// encoded in UTF-8 at the start of `s`, or 0.
pub open spec fn ws_prefix(s: Seq<u8>) -> nat {
    if s.len() >= 1 && (s[0] == 32 || (9 <= s[0] <= 13)) {
        1
    } else if s.len() >= 2 && s[0] == 0xc2 && (s[1] == 0x85 || s[1] == 0xa0) {
        2
    } else if s.len() >= 3 && s[0] == 0xe1 && s[1] == 0x9a && s[2] == 0x80 {
        3
    } else if s.len() >= 3 && s[0] == 0xe2 && s[1] == 0x80 && ((0x80 <= s[2] <= 0x8a) || s[2]
        == 0xa8 || s[2] == 0xa9 || s[2] == 0xaf) {
        3
    } else if s.len() >= 3 && s[0] == 0xe2 && s[1] == 0x81 && s[2] == 0x9f {
        3
    } else if s.len() >= 3 && s[0] == 0xe3 && s[1] == 0x80 && s[2] == 0x80 {
        3
    } else {
        0
    }
}

/// Byte length of a Unicode white-space character ending `s`, or 0.
pub open spec fn ws_suffix(s: Seq<u8>) -> nat {
    let n = s.len() as int;
    if n >= 1 && (s[n - 1] == 32 || (9 <= s[n - 1] <= 13)) {
        1
    } else if n >= 2 && ws_prefix(s.subrange(n - 2, n)) == 2 {
        2
    } else if n >= 3 && ws_prefix(s.subrange(n - 3, n)) == 3 {
        3
    } else {
        0
    }
}

/// `str::trim_start`.
pub open spec fn spec_trim_start(s: Seq<u8>) -> Seq<u8>
    decreases s.len(),
{
    if ws_prefix(s) > 0 {
        spec_trim_start(s.subrange(ws_prefix(s) as int, s.len() as int))
    } else {
        s
    }
}

/// `str::trim_end`.
pub open spec fn spec_trim_end(s: Seq<u8>) -> Seq<u8>
    decreases s.len(),
{
    if ws_suffix(s) > 0 {
        spec_trim_end(s.subrange(0, s.len() - ws_suffix(s)))
    } else {
        s
    }
}

/// `str::trim` of UTF-8 text.
pub open spec fn spec_trim(s: Seq<u8>) -> Seq<u8> {
    spec_trim_end(spec_trim_start(s))
}

pub fn ws_prefix_exec(b: &[u8], lo: usize, hi: usize) -> (n: usize)
    requires
        lo <= hi <= b@.len(),
    ensures
        n == ws_prefix(b@.subrange(lo as int, hi as int)),
{
    let ghost s = b@.subrange(lo as int, hi as int);
    let len = hi - lo;
    if len >= 1 && (b[lo] == 32 || (9 <= b[lo] && b[lo] <= 13)) {
        1
    } else if len >= 2 && b[lo] == 0xc2 && (b[lo + 1] == 0x85 || b[lo + 1] == 0xa0) {
        2
    } else if len >= 3 && b[lo] == 0xe1 && b[lo + 1] == 0x9a && b[lo + 2] == 0x80 {
        3
    } else if len >= 3 && b[lo] == 0xe2 && b[lo + 1] == 0x80 && ((0x80 <= b[lo + 2] && b[lo + 2]
        <= 0x8a) || b[lo + 2] == 0xa8 || b[lo + 2] == 0xa9 || b[lo + 2] == 0xaf) {
        3
    } else if len >= 3 && b[lo] == 0xe2 && b[lo + 1] == 0x81 && b[lo + 2] == 0x9f {
        3
    } else if len >= 3 && b[lo] == 0xe3 && b[lo + 1] == 0x80 && b[lo + 2] == 0x80 {
        3
    } else {
        0
    }
}

fn ws_suffix_exec(b: &[u8], lo: usize, hi: usize) -> (n: usize)
    requires
        lo <= hi <= b@.len(),
    ensures
        n == ws_suffix(b@.subrange(lo as int, hi as int)),
{
    let ghost s = b@.subrange(lo as int, hi as int);
    let len = hi - lo;
    if len >= 1 && (b[hi - 1] == 32 || (9 <= b[hi - 1] && b[hi - 1] <= 13)) {
        return 1;
    }
    if len >= 2 && ws_prefix_exec(b, hi - 2, hi) == 2 {
        assert(s.subrange(len - 2, len as int) =~= b@.subrange(hi - 2, hi as int));
        return 2;
    }
    if len >= 2 {
        assert(s.subrange(len - 2, len as int) =~= b@.subrange(hi - 2, hi as int));
    }
    if len >= 3 && ws_prefix_exec(b, hi - 3, hi) == 3 {
        assert(s.subrange(len - 3, len as int) =~= b@.subrange(hi - 3, hi as int));
        return 3;
    }
    if len >= 3 {
        assert(s.subrange(len - 3, len as int) =~= b@.subrange(hi - 3, hi as int));
    }
    0
}

/// Bounds of `str::trim` applied to `b[lo..hi]`.
pub fn trim_bounds(b: &[u8], lo: usize, hi: usize) -> (r: (usize, usize))
    requires
        lo <= hi <= b@.len(),
    ensures
        lo <= r.0 <= r.1 <= hi,
        b@.subrange(r.0 as int, r.1 as int) == spec_trim(b@.subrange(lo as int, hi as int)),
{
    let mut a = lo;
    loop
        invariant
            lo <= a <= hi <= b@.len(),
            spec_trim_start(b@.subrange(lo as int, hi as int)) == spec_trim_start(
                b@.subrange(a as int, hi as int),
            ),
        ensures
            lo <= a <= hi,
            spec_trim_start(b@.subrange(lo as int, hi as int)) == b@.subrange(a as int, hi as int),
        decreases hi - a,
    {
        let w = ws_prefix_exec(b, a, hi);
        if w == 0 {
            break;
        }
        assert(b@.subrange(a as int, hi as int).subrange(w as int, hi - a) =~= b@.subrange(
            a + w,
            hi as int,
        ));
        a = a + w;
    }
    let mut z = hi;
    loop
        invariant
            a <= z <= hi <= b@.len(),
            spec_trim_end(b@.subrange(a as int, hi as int)) == spec_trim_end(
                b@.subrange(a as int, z as int),
            ),
        ensures
            a <= z <= hi,
            spec_trim_end(b@.subrange(a as int, hi as int)) == b@.subrange(a as int, z as int),
        decreases z - a,
    {
        let w = ws_suffix_exec(b, a, z);
        if w == 0 {
            break;
        }
        assert(b@.subrange(a as int, z as int).subrange(0, (z - a) - w) =~= b@.subrange(
            a as int,
            z - w,
        ));
        z = z - w;
    }
    (a, z)
}

/// Every byte of `d` is a decimal digit.
pub open spec fn all_digits(d: Seq<u8>) -> bool {
    forall|j: int| 0 <= j < d.len() ==> is_digit(#[trigger] d[j])
}

/// 1 when `s` starts with `+` or `-`, else 0.
pub open spec fn sign_len(s: Seq<u8>) -> int {
    if s.len() > 0 && (s[0] == 43 || s[0] == 45) {
        1
    } else {
        0
    }
}

/// `i32::from_str`: an optional `+`/`-`, then one or more digits, the value
/// in range; anything else is an error.
pub open spec fn spec_parse_i32(s: Seq<u8>) -> Option<i32> {
    let d = s.subrange(sign_len(s), s.len() as int);
    if d.len() == 0 || !all_digits(d) {
        None
    } else {
        let v = digits_value(d, d.len() as int);
        let w = if s[0] == 45 { -v } else { v };
        if i32::MIN <= w <= i32::MAX {
            Some(w as i32)
        } else {
            None
        }
    }
}

proof fn lemma_digits_value_nonneg(s: Seq<u8>, n: int)
    requires
        0 <= n <= s.len(),
        forall|j: int| 0 <= j < n ==> is_digit(s[j]),
    ensures
        digits_value(s, n) >= 0,
    decreases n,
{
    if n > 0 {
        lemma_digits_value_nonneg(s, n - 1);
    }
}

/// Saturation bound of the parse accumulator (far above the `i32` range).
const PARSE_SATURATION: i64 = 10_000_000_000;

/// `b[lo..hi].parse::<i32>()`.
#[verifier::loop_isolation(false)]
pub fn parse_i32(b: &[u8], lo: usize, hi: usize) -> (r: Option<i32>)
    requires
        lo <= hi <= b@.len(),
    ensures
        r == spec_parse_i32(b@.subrange(lo as int, hi as int)),
{
    let ghost s = b@.subrange(lo as int, hi as int);
    let signed = hi > lo && (b[lo] == 43 || b[lo] == 45);
    let neg = hi > lo && b[lo] == 45;
    let start = if signed { lo + 1 } else { lo };
    let ghost d = b@.subrange(start as int, hi as int);
    assert(s.len() > 0 ==> s[0] == b@[lo as int]);
    assert(d =~= s.subrange(sign_len(s), s.len() as int));
    if start == hi {
        return None;
    }
    let mut k = start;
    let mut acc: i64 = 0;
    while k < hi
        invariant
            start <= k <= hi <= b@.len(),
            d == b@.subrange(start as int, hi as int),
            forall|j: int| 0 <= j < k - start ==> is_digit(d[j]),
            0 <= acc <= PARSE_SATURATION,
            acc < PARSE_SATURATION ==> acc == digits_value(d, k - start),
            acc == PARSE_SATURATION ==> digits_value(d, k - start) >= PARSE_SATURATION,
        decreases hi - k,
    {
        let c = b[k];
        assert(d[k - start] == c);
        if !(c >= 48 && c <= 57) {
            assert(!is_digit(d[k - start]));
            assert(!all_digits(d));
            return None;
        }
        let dv = (c - 48) as i64;
        proof {
            lemma_digits_value_nonneg(d, k - start);
        }
        let ghost old_dv = digits_value(d, k - start);
        assert(digits_value(d, k - start + 1) == old_dv * 10 + dv);
        if acc >= PARSE_SATURATION / 10 {
            assert(old_dv >= PARSE_SATURATION / 10);
            assert(old_dv * 10 + dv >= PARSE_SATURATION) by (nonlinear_arith)
                requires
                    old_dv >= PARSE_SATURATION / 10,
                    dv >= 0,
            ;
            acc = PARSE_SATURATION;
        } else {
            acc = acc * 10 + dv;
            if acc > PARSE_SATURATION {
                acc = PARSE_SATURATION;
            }
        }
        k += 1;
    }
    assert(all_digits(d));
    let v: i64 = if neg { -acc } else { acc };
    if v < i32::MIN as i64 || v > i32::MAX as i64 {
        None
    } else {
        Some(v as i32)
    }
}

/// Decimal digits of a natural number, most significant first (`"0"` for 0).
pub open spec fn nat_digits(n: nat) -> Seq<u8>
    decreases n,
{
    if n < 10 {
        seq![(48 + n) as u8]
    } else {
        nat_digits(n / 10).push((48 + n % 10) as u8)
    }
}

/// `format!("{}", v)` for an `i32`.
pub open spec fn spec_i32_text(v: int) -> Seq<u8> {
    if v < 0 {
        seq![45u8] + nat_digits((-v) as nat)
    } else {
        nat_digits(v as nat)
    }
}

/// Append the decimal text of `v` (as `format!("{}", v)` prints it).
pub fn push_i32(out: &mut Vec<u8>, v: i32)
    ensures
        final(out)@ == old(out)@ + spec_i32_text(v as int),
{
    let neg = v < 0;
    let n: u64 = if neg {
        (-(v as i64)) as u64
    } else {
        v as u64
    };
    let ghost total = n as nat;
    // Digits collected least significant first.
    let mut rev: Vec<u8> = Vec::new();
    let mut m: u64 = n;
    assert(nat_digits(total) =~= nat_digits(m as nat) + rev@.reverse());
    loop
        invariant
            m <= total,
            nat_digits(total) == nat_digits(m as nat) + rev@.reverse(),
        ensures
            m < 10,
            nat_digits(total) == nat_digits(m as nat) + rev@.reverse(),
        decreases m,
    {
        if m < 10 {
            break;
        }
        let d = (m % 10) as u8;
        let ghost old_rev = rev@;
        assert(nat_digits(m as nat) == nat_digits((m / 10) as nat).push((48 + m % 10) as u8));
        rev.push(48 + d);
        assert(rev@.reverse() =~= seq![(48 + d) as u8] + old_rev.reverse());
        assert(nat_digits((m / 10) as nat).push((48 + m % 10) as u8) + old_rev.reverse()
            =~= nat_digits((m / 10) as nat) + rev@.reverse());
        m = m / 10;
    }
    let ghost base = out@;
    if neg {
        out.push(45);
    }
    out.push(48 + (m as u8));
    let ghost head = out@;
    assert(head =~= base + (if neg { seq![45u8] } else { Seq::empty() }) + nat_digits(m as nat));
    let mut i = rev.len();
    assert(head + rev@.reverse().subrange(0, 0) =~= head);
    while i > 0
        invariant
            i <= rev@.len(),
            out@ == head + rev@.reverse().subrange(0, rev@.len() - i),
        decreases i,
    {
        i -= 1;
        let c = rev[i];
        out.push(c);
        assert(rev@.reverse()[rev@.len() - 1 - i] == c);
        assert(rev@.reverse().subrange(0, rev@.len() - i) =~= rev@.reverse().subrange(
            0,
            rev@.len() - i - 1,
        ).push(c));
    }
    assert(rev@.reverse().subrange(0, rev@.len() as int) =~= rev@.reverse());
    assert(out@ =~= base + spec_i32_text(v as int));
}

/// Append a byte string.
pub fn push_bytes(out: &mut Vec<u8>, s: &[u8])
    ensures
        final(out)@ == old(out)@ + s@,
{
    let ghost base = out@;
    let mut i: usize = 0;
    while i < s.len()
        invariant
            i <= s@.len(),
            out@ == base + s@.subrange(0, i as int),
        decreases s@.len() - i,
    {
        out.push(s[i]);
        assert(s@.subrange(0, i + 1) =~= s@.subrange(0, i as int).push(s@[i as int]));
        i += 1;
    }
    assert(s@.subrange(0, s@.len() as int) =~= s@);
}

/// Append the UTF-8 bytes of a string.
pub fn push_str(out: &mut Vec<u8>, s: &str)
    ensures
        final(out)@ == old(out)@ + s.spec_bytes(),
{
    push_bytes(out, s.as_bytes());
}

/// `str::split_whitespace` on UTF-8 text, as a scan from byte `i` where a
/// word started at `start` (`-1` between words).
pub open spec fn ws_words_from(s: Seq<u8>, i: int, start: int) -> Seq<Seq<u8>>
    decreases s.len() - i,
{
    if i < 0 || i >= s.len() {
        if 0 <= start <= s.len() {
            seq![s.subrange(start, s.len() as int)]
        } else {
            Seq::empty()
        }
    } else {
        let w = ws_prefix(s.subrange(i, s.len() as int));
        if w > 0 {
            let done = if 0 <= start <= i {
                seq![s.subrange(start, i)]
            } else {
                Seq::<Seq<u8>>::empty()
            };
            done + ws_words_from(s, i + w, -1)
        } else {
            ws_words_from(
                s,
                i + 1,
                if start >= 0 {
                    start
                } else {
                    i
                },
            )
        }
    }
}

/// The non-empty white-space separated words of `s`.
pub open spec fn spec_split_whitespace(s: Seq<u8>) -> Seq<Seq<u8>> {
    ws_words_from(s, 0, -1)
}

proof fn lemma_ws_prefix_bound(s: Seq<u8>)
    ensures
        ws_prefix(s) <= s.len(),
{
}

/// Bounds in `b` of the words of `b[lo..hi]` (`str::split_whitespace`).
pub fn split_whitespace_bounds(b: &[u8], lo: usize, hi: usize) -> (r: Vec<(usize, usize)>)
    requires
        lo <= hi <= b@.len(),
    ensures
        r@.len() == spec_split_whitespace(b@.subrange(lo as int, hi as int)).len(),
        forall|k: int|
            0 <= k < r@.len() ==> lo <= (#[trigger] r@[k]).0 <= r@[k].1 <= hi && b@.subrange(
                r@[k].0 as int,
                r@[k].1 as int,
            ) == spec_split_whitespace(b@.subrange(lo as int, hi as int))[k],
{
    let ghost s = b@.subrange(lo as int, hi as int);
    let mut out: Vec<(usize, usize)> = Vec::new();
    let mut i: usize = lo;
    let mut start: Option<usize> = None;
    let ghost st: int = -1;
    while i < hi
        invariant
            lo <= i <= hi <= b@.len(),
            s == b@.subrange(lo as int, hi as int),
            st == (match start {
                Some(x) => x - lo,
                None => -1,
            }),
            match start {
                Some(x) => lo <= x <= i,
                None => true,
            },
            forall|k: int|
                0 <= k < out@.len() ==> lo <= (#[trigger] out@[k]).0 <= out@[k].1 <= hi
                    && b@.subrange(out@[k].0 as int, out@[k].1 as int) == spec_split_whitespace(
                    s,
                )[k],
            spec_split_whitespace(s) == ({
                let done: Seq<Seq<u8>> = Seq::new(
                    out@.len(),
                    |k: int| b@.subrange(out@[k].0 as int, out@[k].1 as int),
                );
                done
            }) + ws_words_from(s, i - lo, st),
        decreases hi - i,
    {
        let w = ws_prefix_exec(b, i, hi);
        assert(s.subrange(i - lo, s.len() as int) =~= b@.subrange(i as int, hi as int));
        proof {
            lemma_ws_prefix_bound(b@.subrange(i as int, hi as int));
        }
        let ghost done_before = Seq::new(
            out@.len(),
            |k: int| b@.subrange(out@[k].0 as int, out@[k].1 as int),
        );
        if w > 0 {
            match start {
                Some(x) => {
                    out.push((x, i));
                    assert(s.subrange(x - lo, i - lo) =~= b@.subrange(x as int, i as int));
                    let ghost done_after = Seq::new(
                        out@.len(),
                        |k: int| b@.subrange(out@[k].0 as int, out@[k].1 as int),
                    );
                    assert(done_after =~= done_before + seq![s.subrange(x - lo, i - lo)]);
                },
                None => {},
            }
            start = None;
            proof {
                st = -1;
            }
            i = i + w;
        } else {
            if start.is_none() {
                start = Some(i);
                proof {
                    st = i - lo;
                }
            }
            i += 1;
        }
        proof {
            let done_now = Seq::new(
                out@.len(),
                |k: int| b@.subrange(out@[k].0 as int, out@[k].1 as int),
            );
            assert(spec_split_whitespace(s) =~= done_now + ws_words_from(s, i - lo, st));
            assert forall|k: int| 0 <= k < out@.len() implies lo <= (#[trigger] out@[k]).0
                <= out@[k].1 <= hi && b@.subrange(out@[k].0 as int, out@[k].1 as int)
                == spec_split_whitespace(s)[k] by {
                assert(done_now[k] == b@.subrange(out@[k].0 as int, out@[k].1 as int));
            }
        }
    }
    let ghost done_before = Seq::new(
        out@.len(),
        |k: int| b@.subrange(out@[k].0 as int, out@[k].1 as int),
    );
    match start {
        Some(x) => {
            out.push((x, hi));
            assert(s.subrange(x - lo, s.len() as int) =~= b@.subrange(x as int, hi as int));
        },
        None => {},
    }
    proof {
        let done_now = Seq::new(
            out@.len(),
            |k: int| b@.subrange(out@[k].0 as int, out@[k].1 as int),
        );
        assert(spec_split_whitespace(s) =~= done_now);
        assert forall|k: int| 0 <= k < out@.len() implies lo <= (#[trigger] out@[k]).0
            <= out@[k].1 <= hi && b@.subrange(out@[k].0 as int, out@[k].1 as int)
            == spec_split_whitespace(s)[k] by {
            assert(done_now[k] == b@.subrange(out@[k].0 as int, out@[k].1 as int));
        }
    }
    out
}

/// `format!("{:w}", v)`: the decimal text right-aligned in `width`
/// columns (never cut).
#[verifier::opaque]
pub open spec fn spec_i32_padded(v: int, width: nat) -> Seq<u8> {
    let t = spec_i32_text(v);
    let pad = if t.len() < width {
        (width - t.len()) as nat
    } else {
        0nat
    };
    Seq::new(pad, |i: int| 32u8) + t
}

pub fn push_i32_padded(out: &mut Vec<u8>, v: i32, width: usize)
    ensures
        final(out)@ == old(out)@ + spec_i32_padded(v as int, width as nat),
{
    let mut t: Vec<u8> = Vec::new();
    push_i32(&mut t, v);
    assert(t@ =~= spec_i32_text(v as int));
    let ghost base = out@;
    let mut k: usize = t.len();
    while k < width
        invariant
            t.len() <= k,
            k <= width || k == t.len(),
            out@ =~= base + Seq::new((k - t.len()) as nat, |i: int| 32u8),
        decreases width - k,
    {
        out.push(32);
        k += 1;
    }
    push_bytes(out, t.as_slice());
    proof {
        reveal(spec_i32_padded);
    }
}

} // verus!
