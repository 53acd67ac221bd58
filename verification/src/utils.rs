//! Byte-string helpers shared by the hooks: printable-ASCII check, character
//! search, colour escapes, client-name sanitising, `Q_strncpyz`, `atoi`,
//! `strlen` and colour stripping.

use vstd::prelude::*;

use crate::sdk::Q_COLOR_ESCAPE;

verus! {

/// An ASCII decimal digit.
pub open spec fn is_digit(b: u8) -> bool {
    48 <= b <= 57
}

/// A printable ASCII byte (`0x20..=0x7E`).
pub open spec fn is_printable(b: u8) -> bool {
    0x20 <= b <= 0x7e
}

/// `^` followed by a decimal digit at the start of `s`.
pub open spec fn starts_with_color(s: Seq<u8>) -> bool {
    s.len() >= 2 && s[0] == Q_COLOR_ESCAPE && is_digit(s[1])
}

/// Index of the first NUL byte of `s`, or its length when there is none.
pub open spec fn spec_strlen(s: Seq<u8>) -> nat
    decreases s.len(),
{
    if s.len() == 0 {
        0
    } else if s[0] == 0 {
        0
    } else {
        1 + spec_strlen(s.subrange(1, s.len() as int))
    }
}

pub proof fn lemma_strlen_bounds(s: Seq<u8>)
    ensures
        spec_strlen(s) <= s.len(),
        forall|j: int| 0 <= j < spec_strlen(s) ==> s[j] != 0,
        spec_strlen(s) < s.len() ==> s[spec_strlen(s) as int] == 0,
    decreases s.len(),
{
    if s.len() > 0 && s[0] != 0 {
        let t = s.subrange(1, s.len() as int);
        lemma_strlen_bounds(t);
        assert forall|j: int| 0 <= j < spec_strlen(s) implies s[j] != 0 by {
            if j > 0 {
                assert(s[j] == t[j - 1]);
            }
        }
    }
}

/// `spec_strlen` is pinned by "no NUL before `n`, NUL at `n` (or end)".
pub proof fn lemma_strlen_unique(s: Seq<u8>, n: int)
    requires
        0 <= n <= s.len(),
        forall|j: int| 0 <= j < n ==> s[j] != 0,
        n < s.len() ==> s[n] == 0,
    ensures
        spec_strlen(s) == n,
    decreases s.len(),
{
    if s.len() > 0 && s[0] != 0 {
        let t = s.subrange(1, s.len() as int);
        assert forall|j: int| 0 <= j < n - 1 implies t[j] != 0 by {
            assert(t[j] == s[j + 1]);
        }
        if n - 1 < t.len() {
            assert(t[n - 1] == s[n]);
        }
        lemma_strlen_unique(t, n - 1);
    }
}

/// `Q_IsValidAsciiStr`: every byte is printable ASCII.
pub fn is_valid_ascii_str(bytes: &[u8]) -> (r: bool)
    ensures
        r == (forall|i: int| 0 <= i < bytes@.len() ==> is_printable(#[trigger] bytes@[i])),
{
    let mut i: usize = 0;
    while i < bytes.len()
        invariant
            i <= bytes@.len(),
            forall|j: int| 0 <= j < i ==> is_printable(#[trigger] bytes@[j]),
        decreases bytes@.len() - i,
    {
        let b = bytes[i];
        if !(0x20 <= b && b <= 0x7e) {
            return false;
        }
        i += 1;
    }
    true
}

/// `Q_strchrs`: index of the first byte of `bytes` that occurs in `search`.
pub fn strchrs(bytes: &[u8], search: &[u8]) -> (r: Option<usize>)
    ensures
        match r {
            Some(i) => i < bytes@.len() && search@.contains(bytes@[i as int]) && forall|j: int|
                0 <= j < i ==> !search@.contains(#[trigger] bytes@[j]),
            None => forall|j: int| 0 <= j < bytes@.len() ==> !search@.contains(#[trigger] bytes@[j]),
        },
{
    let mut i: usize = 0;
    while i < bytes.len()
        invariant
            i <= bytes@.len(),
            forall|j: int| 0 <= j < i ==> !search@.contains(#[trigger] bytes@[j]),
        decreases bytes@.len() - i,
    {
        let b = bytes[i];
        let mut k: usize = 0;
        while k < search.len()
            invariant
                k <= search@.len(),
                i < bytes@.len(),
                b == bytes@[i as int],
                forall|j: int| 0 <= j < i ==> !search@.contains(#[trigger] bytes@[j]),
                forall|m: int| 0 <= m < k ==> search@[m] != b,
            decreases search@.len() - k,
        {
            if search[k] == b {
                assert(search@[k as int] == b);
                return Some(i);
            }
            k += 1;
        }
        assert(!search@.contains(b));
        i += 1;
    }
    None
}

/// `Q_IsColorStringExt`: `^[0-9]` at the start of `bytes`.
pub fn is_color_string_ext(bytes: &[u8]) -> (r: bool)
    ensures
        r == starts_with_color(bytes@),
{
    bytes.len() >= 2 && bytes[0] == Q_COLOR_ESCAPE && bytes[1] >= 48 && bytes[1] <= 57
}

/// `strlen` of a NUL-terminated byte region: the index of the first NUL, or
/// the whole length.
pub fn c_strlen(bytes: &[u8]) -> (n: usize)
    ensures
        n == spec_strlen(bytes@),
{
    let mut i: usize = 0;
    while i < bytes.len() && bytes[i] != 0
        invariant
            i <= bytes@.len(),
            forall|j: int| 0 <= j < i ==> bytes@[j] != 0,
        decreases bytes@.len() - i,
    {
        i += 1;
    }
    proof {
        lemma_strlen_unique(bytes@, i as int);
    }
    i
}

/// What `Q_strncpyz(out, src, out.len())` leaves in `out`.
pub open spec fn spec_strncpyz(out: Seq<u8>, src: Seq<u8>) -> Seq<u8> {
    if out.len() == 0 {
        out
    } else {
        let m = if src.len() < out.len() - 1 { src.len() as int } else { out.len() - 1 };
        src.subrange(0, m) + seq![0u8] + out.subrange(m + 1, out.len() as int)
    }
}

/// `Q_strncpyz` semantics: copy `src` into `out` up to `len-1` bytes and
/// NUL-terminate; the bytes after the terminator are left as they were.
pub fn strncpyz(out: &mut [u8], src: &[u8])
    ensures
        final(out)@ == spec_strncpyz(old(out)@, src@),
{
    let n = out.len();
    if n == 0 {
        return;
    }
    let copy = n - 1;
    let m = if src.len() < copy { src.len() } else { copy };
    let mut i: usize = 0;
    while i < m
        invariant
            m < out@.len(),
            m <= src@.len(),
            i <= m,
            out@.len() == old(out)@.len(),
            forall|j: int| 0 <= j < i ==> out@[j] == src@[j],
            forall|j: int| i <= j < out@.len() ==> out@[j] == old(out)@[j],
        decreases m - i,
    {
        out[i] = src[i];
        i += 1;
    }
    out[m] = 0;
    assert(out@ =~= spec_strncpyz(old(out)@, src@));
}

/// Length of the run of spaces and tabs at the start of `s`.
pub open spec fn blank_prefix_len(s: Seq<u8>) -> nat
    decreases s.len(),
{
    if s.len() > 0 && (s[0] == 32 || s[0] == 9) {
        1 + blank_prefix_len(s.subrange(1, s.len() as int))
    } else {
        0
    }
}

/// Length of the run of decimal digits at the start of `s`.
pub open spec fn digit_prefix_len(s: Seq<u8>) -> nat
    decreases s.len(),
{
    if s.len() > 0 && is_digit(s[0]) {
        1 + digit_prefix_len(s.subrange(1, s.len() as int))
    } else {
        0
    }
}

/// Decimal value of the first `n` bytes of `s` (all digits).
pub open spec fn digits_value(s: Seq<u8>, n: int) -> int
    decreases n,
{
    if n <= 0 {
        0
    } else {
        digits_value(s, n - 1) * 10 + (s[n - 1] - 48)
    }
}

/// C `atoi` with the result clamped to the `i32` range: leading spaces and
/// tabs, an optional sign, then as many digits as follow.
pub open spec fn spec_atoi(s: Seq<u8>) -> int {
    let t = s.subrange(blank_prefix_len(s) as int, s.len() as int);
    let neg = t.len() > 0 && t[0] == 45;
    let signed = t.len() > 0 && (t[0] == 43 || t[0] == 45);
    let u = if signed { t.subrange(1, t.len() as int) } else { t };
    let v = digits_value(u, digit_prefix_len(u) as int);
    let w = if neg { -v } else { v };
    if w < i32::MIN { i32::MIN as int } else if w > i32::MAX { i32::MAX as int } else { w }
}

proof fn lemma_blank_prefix(s: Seq<u8>, i: int)
    requires
        0 <= i <= s.len(),
        forall|j: int| 0 <= j < i ==> (s[j] == 32 || s[j] == 9),
        i < s.len() ==> !(s[i] == 32 || s[i] == 9),
    ensures
        blank_prefix_len(s) == i,
    decreases s.len(),
{
    if s.len() > 0 && (s[0] == 32 || s[0] == 9) {
        let t = s.subrange(1, s.len() as int);
        assert forall|j: int| 0 <= j < i - 1 implies (t[j] == 32 || t[j] == 9) by {
            assert(t[j] == s[j + 1]);
        }
        if i - 1 < t.len() {
            assert(t[i - 1] == s[i]);
        }
        lemma_blank_prefix(t, i - 1);
    }
}

proof fn lemma_digit_prefix(s: Seq<u8>, i: int)
    requires
        0 <= i <= s.len(),
        forall|j: int| 0 <= j < i ==> is_digit(s[j]),
        i < s.len() ==> !is_digit(s[i]),
    ensures
        digit_prefix_len(s) == i,
    decreases s.len(),
{
    if s.len() > 0 && is_digit(s[0]) {
        let t = s.subrange(1, s.len() as int);
        assert forall|j: int| 0 <= j < i - 1 implies is_digit(t[j]) by {
            assert(t[j] == s[j + 1]);
        }
        if i - 1 < t.len() {
            assert(t[i - 1] == s[i]);
        }
        lemma_digit_prefix(t, i - 1);
    }
}

proof fn lemma_digits_value_monotone(s: Seq<u8>, a: int, b: int)
    requires
        0 <= a <= b <= s.len(),
        forall|j: int| 0 <= j < b ==> is_digit(s[j]),
    ensures
        0 <= digits_value(s, a) <= digits_value(s, b),
    decreases b - a,
{
    if a < b {
        lemma_digits_value_monotone(s, a, b - 1);
        assert(digits_value(s, b) == digits_value(s, b - 1) * 10 + (s[b - 1] - 48));
    } else {
        lemma_digits_value_nonneg(s, a);
    }
}

proof fn lemma_digits_value_nonneg(s: Seq<u8>, n: int)
    requires
        0 <= n <= s.len(),
        forall|j: int| 0 <= j < n ==> is_digit(s[j]),
    ensures
        digits_value(s, n) >= 0,
    decreases n,
{
    if n > 0 {
        lemma_digits_value_nonneg(s, n - 1);
    }
}

/// Bound above which the running `atoi` accumulator is kept saturated: far
/// beyond the `i32` range, so clamping gives the same result.
const ATOI_SATURATION: i64 = 10_000_000_000;

/// C `atoi`: skip leading spaces/tabs, optional sign, digits; 0 if no
/// digits; the value is clamped to the `i32` range.
pub fn atoi(bytes: &[u8]) -> (r: i32)
    ensures
        r as int == spec_atoi(bytes@),
{
    let ghost s = bytes@;
    let mut i: usize = 0;
    while i < bytes.len() && (bytes[i] == 32 || bytes[i] == 9)
        invariant
            i <= s.len(),
            s == bytes@,
            forall|j: int| 0 <= j < i ==> (s[j] == 32 || s[j] == 9),
        decreases s.len() - i,
    {
        i += 1;
    }
    proof {
        lemma_blank_prefix(s, i as int);
    }
    let ghost t = s.subrange(i as int, s.len() as int);
    let neg = i < bytes.len() && bytes[i] == 45;
    let mut start = i;
    if i < bytes.len() && (bytes[i] == 43 || bytes[i] == 45) {
        start = i + 1;
    }
    let ghost u = s.subrange(start as int, s.len() as int);
    assert(u =~= (if t.len() > 0 && (t[0] == 43 || t[0] == 45) {
        t.subrange(1, t.len() as int)
    } else {
        t
    }));
    let mut k = start;
    let mut acc: i64 = 0;
    while k < bytes.len() && bytes[k] >= 48 && bytes[k] <= 57
        invariant
            start <= k <= s.len(),
            s == bytes@,
            u == s.subrange(start as int, s.len() as int),
            forall|j: int| 0 <= j < k - start ==> is_digit(u[j]),
            0 <= acc <= ATOI_SATURATION,
            acc < ATOI_SATURATION ==> acc == digits_value(u, k - start),
            acc == ATOI_SATURATION ==> digits_value(u, k - start) >= ATOI_SATURATION,
        decreases s.len() - k,
    {
        let d = (bytes[k] - 48) as i64;
        assert(u[k - start] == s[k as int]);
        proof {
            lemma_digits_value_nonneg(u, k - start);
        }
        let ghost old_dv = digits_value(u, k - start);
        assert(digits_value(u, k - start + 1) == old_dv * 10 + d);
        if acc >= ATOI_SATURATION / 10 {
            assert(old_dv >= ATOI_SATURATION / 10);
            assert(old_dv * 10 + d >= ATOI_SATURATION) by (nonlinear_arith)
                requires
                    old_dv >= ATOI_SATURATION / 10,
                    d >= 0,
            ;
            acc = ATOI_SATURATION;
        } else {
            acc = acc * 10 + d;
            if acc > ATOI_SATURATION {
                acc = ATOI_SATURATION;
            }
        }
        k += 1;
    }
    proof {
        assert forall|j: int| 0 <= j < k - start implies is_digit(u[j]) by {}
        if k < s.len() {
            assert(u[k - start] == s[k as int]);
        }
        lemma_digit_prefix(u, k - start);
    }
    let v: i64 = if neg { -acc } else { acc };
    if v < i32::MIN as i64 {
        i32::MIN
    } else if v > i32::MAX as i64 {
        i32::MAX
    } else {
        v as i32
    }
}


/// Bytes name cleaning never copies into a name: controls and a
/// handful of Windows-1252 specials.
pub open spec fn is_dropped_name_byte(c: u8) -> bool {
    c < 0x20 || c == 0x81 || c == 0x8d || c == 0x8f || c == 0x90 || c == 0x9d || c == 0xa0
        || c == 0xad
}

/// A third consecutive space or `@` starts at `i`: the first byte of the run
/// is dropped, so at most two remain.
pub open spec fn squeezed_run(input: Seq<u8>, i: int) -> bool {
    0 <= i && i + 2 < input.len() && ((input[i] == 32 && input[i + 1] == 32 && input[i + 2] == 32)
        || (input[i] == 64 && input[i + 1] == 64 && input[i + 2] == 64))
}

/// Length of the run of byte `b` starting at `start`.
pub open spec fn run_len(s: Seq<u8>, start: int, b: u8) -> nat
    decreases s.len() - start,
{
    if 0 <= start < s.len() && s[start] == b {
        1 + run_len(s, start + 1, b)
    } else {
        0
    }
}

/// Where the name proper starts: after the leading spaces, then the leading
/// asterisks.
pub open spec fn name_start(input: Seq<u8>) -> int {
    let a = run_len(input, 0, 32) as int;
    a + run_len(input, a, 42) as int
}

/// The name-cleaning scan from `i`: the bytes kept so far and the running
/// colour-less length (a kept digit right after a kept `^` counts -1, any
/// other kept byte +1). Stops at the end of the input or once `cap` bytes
/// are kept.
pub open spec fn clean_scan(input: Seq<u8>, i: int, kept: Seq<u8>, colorless: int, cap: int) -> (Seq<
    u8,
>, int)
    decreases input.len() - i,
{
    if i < 0 || i >= input.len() || kept.len() >= cap {
        (kept, colorless)
    } else {
        let c = input[i];
        if squeezed_run(input, i) || is_dropped_name_byte(c) {
            clean_scan(input, i + 1, kept, colorless, cap)
        } else {
            let delta: int = if kept.len() > 0 && kept.last() == Q_COLOR_ESCAPE && is_digit(c) {
                -1
            } else {
                1
            };
            clean_scan(input, i + 1, kept.push(c), colorless + delta, cap)
        }
    }
}

/// The fallback name for empty or colour-only names.
pub open spec fn padawan() -> Seq<u8> {
    seq![80u8, 97, 100, 97, 119, 97, 110]
}

/// What `client_clean_name(input, out)` leaves in `out`: the kept bytes,
/// a NUL, the rest of `out` untouched; `Padawan` is written over it when the
/// name came out empty or made of colour codes only.
pub open spec fn spec_clean_name(input: Seq<u8>, out: Seq<u8>) -> Seq<u8> {
    let (kept, colorless) = clean_scan(input, name_start(input), Seq::empty(), 0, out.len() - 1);
    let mid = kept + seq![0u8] + out.subrange(kept.len() + 1int, out.len() as int);
    if mid[0] == 0 || colorless == 0 {
        spec_strncpyz(mid, padawan())
    } else {
        mid
    }
}

proof fn lemma_clean_scan_len(input: Seq<u8>, i: int, kept: Seq<u8>, colorless: int, cap: int)
    requires
        kept.len() <= cap,
    ensures
        kept.len() <= clean_scan(input, i, kept, colorless, cap).0.len() <= cap,
    decreases input.len() - i,
{
    if !(i < 0 || i >= input.len() || kept.len() >= cap) {
        let c = input[i];
        if squeezed_run(input, i) || is_dropped_name_byte(c) {
            lemma_clean_scan_len(input, i + 1, kept, colorless, cap);
        } else {
            let delta: int = if kept.len() > 0 && kept.last() == Q_COLOR_ESCAPE && is_digit(c) {
                -1
            } else {
                1
            };
            lemma_clean_scan_len(input, i + 1, kept.push(c), colorless + delta, cap);
        }
    }
}

/// Sanitise a client name into `out` (e.g. a
/// `MAX_NETNAME` buffer). Leading spaces then asterisks are dropped, runs of
/// three spaces or `@` are squeezed, control and a few special bytes are
/// removed, the result is NUL-terminated, and an empty or colour-only name
/// becomes `Padawan`.
pub fn client_clean_name(input: &[u8], out: &mut [u8])
    requires
        1 <= old(out)@.len() <= isize::MAX,
    ensures
        final(out)@ == spec_clean_name(input@, old(out)@),
{
    let ghost inp = input@;
    let ghost orig = out@;
    let out_size = out.len();
    let mut in_off: usize = 0;
    while in_off < input.len() && input[in_off] == 32
        invariant
            in_off <= inp.len(),
            inp == input@,
            run_len(inp, 0, 32) == in_off + run_len(inp, in_off as int, 32),
        decreases inp.len() - in_off,
    {
        in_off += 1;
    }
    let ghost a = in_off as int;
    assert(run_len(inp, a, 32) == 0);
    while in_off < input.len() && input[in_off] == 42
        invariant
            a <= in_off <= inp.len(),
            inp == input@,
            run_len(inp, 0, 32) == a,
            run_len(inp, a, 42) == (in_off - a) + run_len(inp, in_off as int, 42),
        decreases inp.len() - in_off,
    {
        in_off += 1;
    }
    assert(run_len(inp, in_off as int, 42) == 0);
    assert(in_off == name_start(inp));

    let mut outpos: usize = 0;
    let mut colorless: i64 = 0;
    let ghost cap: int = out_size - 1;
    assert(out@.subrange(0, 0) =~= Seq::<u8>::empty());
    while in_off < input.len() && outpos + 1 < out_size
        invariant
            in_off <= inp.len(),
            inp == input@,
            out_size == out@.len(),
            out@.len() == orig.len(),
            1 <= orig.len() <= isize::MAX,
            cap == out_size - 1,
            outpos <= cap,
            -(outpos as int) <= colorless <= outpos,
            forall|j: int| outpos < j < out@.len() ==> out@[j] == orig[j],
            clean_scan(inp, name_start(inp), Seq::empty(), 0, cap) == clean_scan(
                inp,
                in_off as int,
                out@.subrange(0, outpos as int),
                colorless as int,
                cap,
            ),
        decreases inp.len() - in_off,
    {
        let ghost kept = out@.subrange(0, outpos as int);
        let c = input[in_off];
        out[outpos] = c;
        assert(out@.subrange(0, outpos as int) =~= kept);
        if in_off + 1 < input.len() && in_off + 2 < input.len() {
            if c == 32 && input[in_off + 1] == 32 && input[in_off + 2] == 32 {
                in_off += 1;
                continue;
            }
            if c == 64 && input[in_off + 1] == 64 && input[in_off + 2] == 64 {
                in_off += 1;
                continue;
            }
        }
        if c < 0x20 {
            in_off += 1;
            continue;
        }
        if c == 0x81 || c == 0x8d || c == 0x8f || c == 0x90 || c == 0x9d || c == 0xa0 || c == 0xad {
            in_off += 1;
            continue;
        }
        if outpos > 0 && out[outpos - 1] == Q_COLOR_ESCAPE {
            if c >= 48 && c <= 57 {
                colorless -= 1;
            } else {
                colorless += 1;
            }
        } else {
            colorless += 1;
        }
        assert(out@.subrange(0, outpos + 1) =~= kept.push(c));
        outpos += 1;
        in_off += 1;
    }
    let ghost kept = out@.subrange(0, outpos as int);
    assert(clean_scan(inp, in_off as int, kept, colorless as int, cap) == (kept, colorless as int));
    out[outpos] = 0;
    let ghost mid = out@;
    assert(mid =~= kept + seq![0u8] + orig.subrange(kept.len() + 1int, orig.len() as int));
    if out[0] == 0 || colorless == 0 {
        let padawan_name: [u8; 7] = [80, 97, 100, 97, 119, 97, 110];
        assert(padawan_name@ =~= padawan());
        strncpyz(out, &padawan_name);
    }
}

/// One colour-stripping pass over a NUL-free region: the bytes kept, and
/// whether any `^[0-9]` pair was dropped.
pub open spec fn strip_scan(s: Seq<u8>) -> (Seq<u8>, bool)
    decreases s.len(),
{
    if s.len() == 0 {
        (s, false)
    } else if starts_with_color(s) {
        (strip_scan(s.subrange(2, s.len() as int)).0, true)
    } else {
        let r = strip_scan(s.subrange(1, s.len() as int));
        (seq![s[0]] + r.0, r.1)
    }
}

/// The buffer after one pass of `Q_StripColor`: the kept bytes compacted to
/// the front, then a NUL when anything moved; the rest is untouched.
pub open spec fn strip_pass(buf: Seq<u8>) -> Seq<u8> {
    let n = spec_strlen(buf) as int;
    let kept = strip_scan(buf.subrange(0, n)).0;
    if kept.len() < n {
        kept + seq![0u8] + buf.subrange(kept.len() + 1int, buf.len() as int)
    } else {
        buf
    }
}

/// Whether a pass over `buf` finds a colour escape.
pub open spec fn has_color(buf: Seq<u8>) -> bool {
    strip_scan(buf.subrange(0, spec_strlen(buf) as int)).1
}

/// `Q_StripColor` on a buffer: passes repeat until one finds no colour
/// escape (removing one can join a `^` and a digit into a new one).
pub open spec fn spec_strip_color(buf: Seq<u8>) -> Seq<u8>
    decreases spec_strlen(buf),
{
    if has_color(buf) {
        proof {
            lemma_strip_pass_shrinks(buf);
        }
        spec_strip_color(strip_pass(buf))
    } else {
        buf
    }
}

pub proof fn lemma_strip_scan(s: Seq<u8>)
    ensures
        strip_scan(s).0.len() <= s.len(),
        strip_scan(s).1 ==> strip_scan(s).0.len() + 2 <= s.len(),
        !strip_scan(s).1 ==> strip_scan(s).0 == s,
        forall|j: int| 0 <= j < strip_scan(s).0.len() ==> exists|k: int| 0 <= k < s.len()
            && #[trigger] strip_scan(s).0[j] == s[k],
    decreases s.len(),
{
    if s.len() > 0 {
        if starts_with_color(s) {
            let t = s.subrange(2, s.len() as int);
            lemma_strip_scan(t);
            assert forall|j: int| 0 <= j < strip_scan(s).0.len() implies exists|k: int|
                0 <= k < s.len() && #[trigger] strip_scan(s).0[j] == s[k] by {
                let k = choose|k: int| 0 <= k < t.len() && strip_scan(t).0[j] == t[k];
                assert(s[k + 2] == t[k]);
            }
        } else {
            let t = s.subrange(1, s.len() as int);
            lemma_strip_scan(t);
            if !strip_scan(t).1 {
                assert(seq![s[0]] + t =~= s);
            }
            assert forall|j: int| 0 <= j < strip_scan(s).0.len() implies exists|k: int|
                0 <= k < s.len() && #[trigger] strip_scan(s).0[j] == s[k] by {
                if j == 0 {
                    assert(strip_scan(s).0[j] == s[0]);
                } else {
                    assert(strip_scan(s).0[j] == strip_scan(t).0[j - 1]);
                    let k = choose|k: int| 0 <= k < t.len() && strip_scan(t).0[j - 1] == t[k];
                    assert(s[k + 1] == t[k]);
                }
            }
        }
    }
}

pub proof fn lemma_strip_pass_shrinks(buf: Seq<u8>)
    requires
        has_color(buf),
    ensures
        spec_strlen(strip_pass(buf)) + 2 <= spec_strlen(buf),
{
    let n = spec_strlen(buf) as int;
    lemma_strlen_bounds(buf);
    let region = buf.subrange(0, n);
    lemma_strip_scan(region);
    let kept = strip_scan(region).0;
    let p = strip_pass(buf);
    assert forall|j: int| 0 <= j < kept.len() implies p[j] != 0 by {
        let k = choose|k: int| 0 <= k < region.len() && kept[j] == region[k];
        assert(region[k] == buf[k]);
    }
    assert(p[kept.len() as int] == 0);
    lemma_strlen_unique(p, kept.len() as int);
}

/// A pass that finds no escape leaves a region with no `^` followed by a
/// digit anywhere.
proof fn lemma_clean_scan_has_no_escape(s: Seq<u8>)
    requires
        !strip_scan(s).1,
    ensures
        forall|i: int| 0 <= i && i + 1 < s.len() ==> !(s[i] == Q_COLOR_ESCAPE && is_digit(#[trigger] s[i + 1])),
    decreases s.len(),
{
    if s.len() > 0 {
        let t = s.subrange(1, s.len() as int);
        lemma_clean_scan_has_no_escape(t);
        assert forall|i: int| 0 <= i && i + 1 < s.len() implies !(s[i] == Q_COLOR_ESCAPE && is_digit(
            #[trigger] s[i + 1],
        )) by {
            if i > 0 {
                assert(s[i] == t[i - 1] && s[i + 1] == t[i]);
            }
        }
    }
}

/// Law: after colour stripping, the text before the NUL holds no colour
/// escape — no `^` directly followed by a digit, those formed by earlier
/// removals included.
pub proof fn law_stripped_text_has_no_escape(buf: Seq<u8>)
    ensures
        ({
            let r = spec_strip_color(buf);
            forall|i: int|
                0 <= i && i + 1 < spec_strlen(r) ==> !(r[i] == Q_COLOR_ESCAPE && is_digit(#[trigger] r[i + 1]))
        }),
    decreases spec_strlen(buf),
{
    if has_color(buf) {
        lemma_strip_pass_shrinks(buf);
        law_stripped_text_has_no_escape(strip_pass(buf));
        assert(spec_strip_color(buf) == spec_strip_color(strip_pass(buf)));
    } else {
        assert(spec_strip_color(buf) == buf);
        let n = spec_strlen(buf) as int;
        lemma_strlen_bounds(buf);
        let region = buf.subrange(0, n);
        lemma_clean_scan_has_no_escape(region);
        assert forall|i: int| 0 <= i && i + 1 < n implies !(buf[i] == Q_COLOR_ESCAPE && is_digit(
            #[trigger] buf[i + 1],
        )) by {
            assert(region[i] == buf[i] && region[i + 1] == buf[i + 1]);
        }
    }
}

/// The text of a NUL-terminated buffer: its bytes before the first NUL.
pub open spec fn c_text(buf: Seq<u8>) -> Seq<u8> {
    buf.subrange(0, spec_strlen(buf) as int)
}

/// `a` occurs in `b` at the strictly increasing positions `pos`.
pub open spec fn subsequence_at(a: Seq<u8>, b: Seq<u8>, pos: Seq<int>) -> bool {
    &&& pos.len() == a.len()
    &&& forall|j: int| 0 <= j < a.len() ==> 0 <= #[trigger] pos[j] < b.len() && a[j] == b[pos[j]]
    &&& forall|j: int, k: int| 0 <= j < k < a.len() ==> #[trigger] pos[j] < #[trigger] pos[k]
}

/// `a` is `b` with some bytes left out (the rest kept in order).
pub open spec fn is_subsequence(a: Seq<u8>, b: Seq<u8>) -> bool {
    exists|pos: Seq<int>| subsequence_at(a, b, pos)
}

proof fn lemma_subsequence_refl(a: Seq<u8>)
    ensures
        is_subsequence(a, a),
{
    let pos = Seq::new(a.len(), |i: int| i);
    assert(subsequence_at(a, a, pos));
}

proof fn lemma_subsequence_trans(a: Seq<u8>, b: Seq<u8>, c: Seq<u8>)
    requires
        is_subsequence(a, b),
        is_subsequence(b, c),
    ensures
        is_subsequence(a, c),
{
    let p = choose|p: Seq<int>| subsequence_at(a, b, p);
    let q = choose|q: Seq<int>| subsequence_at(b, c, q);
    let r = Seq::new(a.len(), |i: int| q[p[i]]);
    assert forall|j: int| 0 <= j < a.len() implies 0 <= #[trigger] r[j] < c.len() && a[j] == c[r[j]] by {
        assert(0 <= p[j] < b.len());
    }
    assert forall|j: int, k: int| 0 <= j < k < a.len() implies #[trigger] r[j] < #[trigger] r[k] by {
        assert(p[j] < p[k]);
        assert(0 <= p[j] && p[k] < b.len());
    }
    assert(subsequence_at(a, c, r));
}

/// The bytes one pass keeps occur in order in the region it scanned.
proof fn lemma_strip_scan_subsequence(s: Seq<u8>)
    ensures
        is_subsequence(strip_scan(s).0, s),
    decreases s.len(),
{
    if s.len() == 0 {
        lemma_subsequence_refl(s);
    } else if starts_with_color(s) {
        let t = s.subrange(2, s.len() as int);
        lemma_strip_scan_subsequence(t);
        let a = strip_scan(t).0;
        let p = choose|p: Seq<int>| subsequence_at(a, t, p);
        let r = Seq::new(a.len(), |i: int| p[i] + 2);
        assert forall|j: int| 0 <= j < a.len() implies 0 <= #[trigger] r[j] < s.len() && a[j] == s[r[j]] by {
            assert(t[p[j]] == s[p[j] + 2]);
        }
        assert forall|j: int, k: int| 0 <= j < k < a.len() implies #[trigger] r[j] < #[trigger] r[k] by {
            assert(p[j] < p[k]);
        }
        assert(subsequence_at(strip_scan(s).0, s, r));
    } else {
        let t = s.subrange(1, s.len() as int);
        lemma_strip_scan_subsequence(t);
        let a = strip_scan(t).0;
        let p = choose|p: Seq<int>| subsequence_at(a, t, p);
        let out = strip_scan(s).0;
        assert(out == seq![s[0]] + a);
        let r = Seq::new(out.len(), |i: int| if i == 0 { 0 } else { p[i - 1] + 1 });
        assert forall|j: int| 0 <= j < out.len() implies 0 <= #[trigger] r[j] < s.len() && out[j] == s[r[j]] by {
            if j > 0 {
                assert(out[j] == a[j - 1]);
                assert(t[p[j - 1]] == s[p[j - 1] + 1]);
            }
        }
        assert forall|j: int, k: int| 0 <= j < k < out.len() implies #[trigger] r[j] < #[trigger] r[k] by {
            if j > 0 {
                assert(p[j - 1] < p[k - 1]);
            } else {
                assert(0 <= p[k - 1]);
            }
        }
        assert(subsequence_at(out, s, r));
    }
}

/// Law: colour stripping only removes bytes — the stripped text is a
/// subsequence of the text it started from.
pub proof fn law_stripped_text_is_subsequence(buf: Seq<u8>)
    ensures
        is_subsequence(c_text(spec_strip_color(buf)), c_text(buf)),
    decreases spec_strlen(buf),
{
    if has_color(buf) {
        lemma_strip_pass_shrinks(buf);
        let p = strip_pass(buf);
        law_stripped_text_is_subsequence(p);
        let n = spec_strlen(buf) as int;
        lemma_strlen_bounds(buf);
        let region = buf.subrange(0, n);
        lemma_strip_scan(region);
        let kept = strip_scan(region).0;
        assert forall|j: int| 0 <= j < kept.len() implies p[j] != 0 by {
            let k = choose|k: int| 0 <= k < region.len() && kept[j] == region[k];
            assert(region[k] == buf[k]);
        }
        assert(p[kept.len() as int] == 0);
        lemma_strlen_unique(p, kept.len() as int);
        assert(c_text(p) =~= kept);
        lemma_strip_scan_subsequence(region);
        lemma_subsequence_trans(c_text(spec_strip_color(p)), kept, region);
    } else {
        lemma_subsequence_refl(c_text(buf));
    }
}

/// Law: stripping twice is stripping once.
pub proof fn law_strip_color_idempotent(buf: Seq<u8>)
    ensures
        spec_strip_color(spec_strip_color(buf)) == spec_strip_color(buf),
    decreases spec_strlen(buf),
{
    if has_color(buf) {
        lemma_strip_pass_shrinks(buf);
        law_strip_color_idempotent(strip_pass(buf));
    }
}

/// One in-place pass of `Q_StripColor`; returns whether it dropped an
/// escape.
#[verifier::rlimit(50)]
fn strip_color_pass(text: &mut [u8]) -> (found: bool)
    ensures
        found == has_color(old(text)@),
        final(text)@ == strip_pass(old(text)@),
{
    let ghost buf = text@;
    let ghost n = spec_strlen(buf) as int;
    proof {
        lemma_strlen_bounds(buf);
    }
    let ghost region = buf.subrange(0, n);
    let mut found = false;
    let mut read: usize = 0;
    let mut write: usize = 0;
    assert(region.subrange(0, n) =~= region);
    assert(text@.subrange(0, 0) + strip_scan(region).0 =~= strip_scan(region).0);
    while read < text.len() && text[read] != 0
        invariant
            write <= read <= n,
            n <= buf.len(),
            text@.len() == buf.len(),
            region == buf.subrange(0, n),
            forall|j: int| 0 <= j < n ==> buf[j] != 0,
            n < buf.len() ==> buf[n] == 0,
            forall|j: int| write <= j < buf.len() ==> text@[j] == buf[j],
            text@.subrange(0, write as int) + strip_scan(region.subrange(read as int, n)).0
                == strip_scan(region).0,
            strip_scan(region).1 == (found || strip_scan(region.subrange(read as int, n)).1),
        decreases n - read,
    {
        let ghost rest = region.subrange(read as int, n);
        if read + 1 < text.len() && text[read] == Q_COLOR_ESCAPE && text[read + 1] >= 48
            && text[read + 1] <= 57 {
            assert(read + 1 < n) by {
                if read + 1 == n {
                    assert(text@[n] == buf[n]);
                }
            }
            assert(starts_with_color(rest));
            assert(rest.subrange(2, rest.len() as int) =~= region.subrange(read + 2, n));
            found = true;
            read += 2;
        } else {
            assert(!starts_with_color(rest)) by {
                if rest.len() >= 2 {
                    assert(rest[0] == text@[read as int]);
                    assert(rest[1] == text@[read + 1]);
                }
            }
            assert(rest.subrange(1, rest.len() as int) =~= region.subrange(read + 1, n));
            let ghost before = text@.subrange(0, write as int);
            if write != read {
                let b = text[read];
                text[write] = b;
            }
            assert(text@.subrange(0, write + 1) =~= before.push(rest[0]));
            assert(before.push(rest[0]) + strip_scan(region.subrange(read + 1, n)).0 =~= before
                + strip_scan(rest).0);
            write += 1;
            read += 1;
        }
    }
    assert(region.subrange(read as int, n) =~= Seq::<u8>::empty());
    assert(text@.subrange(0, write as int) =~= strip_scan(region).0);
    if write < read && write < text.len() {
        text[write] = 0;
    }
    proof {
        lemma_strip_scan(region);
        if found {
            assert(text@ =~= strip_pass(buf));
        } else {
            assert(strip_scan(region).0 =~= region);
            assert(write == n);
            assert forall|j: int| 0 <= j < buf.len() implies text@[j] == buf[j] by {
                if j < n {
                    assert(text@.subrange(0, write as int)[j] == region[j]);
                }
            }
            assert(text@ =~= buf);
        }
    }
    found
}

/// `Q_StripColor`: repeatedly remove `^[0-9]` colour escapes from the
/// NUL-terminated text in place.
pub fn strip_color(text: &mut [u8])
    ensures
        final(text)@ == spec_strip_color(old(text)@),
        is_subsequence(c_text(final(text)@), c_text(old(text)@)),
{
    proof {
        law_stripped_text_is_subsequence(text@);
    }
    loop
        invariant
            spec_strip_color(text@) == spec_strip_color(old(text)@),
        ensures
            text@ == spec_strip_color(old(text)@),
        decreases spec_strlen(text@),
    {
        let ghost buf = text@;
        let found = strip_color_pass(text);
        if !found {
            proof {
                lemma_strlen_bounds(buf);
                lemma_strip_scan(buf.subrange(0, spec_strlen(buf) as int));
            }
            break;
        }
        proof {
            lemma_strip_pass_shrinks(buf);
        }
    }
}

} // verus!
