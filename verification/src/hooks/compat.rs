//! Download-validation helpers: the directory-traversal check, the
//! case- and separator-insensitive file-name comparison, and the command
//! tokenizer (`Cmd_TokenizeString2`) used on the referenced-paks list.

use vstd::prelude::*;

use crate::sdk::{BIG_INFO_STRING, MAX_STRING_TOKENS};

verus! {

/// `s` holds `../` or `..\` starting at `i`.
pub open spec fn traversal_at(s: Seq<u8>, i: int) -> bool {
    0 <= i && i + 3 <= s.len() && s[i] == 46 && s[i + 1] == 46 && (s[i + 2] == 47 || s[i + 2]
        == 92)
}

/// `FS_CheckDirTraversal`: whether the path contains a `../` or `..\`
/// escape.
pub fn check_dir_traversal(checkdir: &[u8]) -> (r: bool)
    ensures
        r == exists|i: int| traversal_at(checkdir@, i),
{
    let mut i: usize = 0;
    while i < checkdir.len() && checkdir.len() - i >= 3
        invariant
            i <= checkdir@.len(),
            forall|j: int| 0 <= j < i ==> !traversal_at(checkdir@, j),
        decreases checkdir@.len() - i,
    {
        if checkdir[i] == 46 && checkdir[i + 1] == 46 && (checkdir[i + 2] == 47 || checkdir[i + 2]
            == 92) {
            assert(traversal_at(checkdir@, i as int));
            return true;
        }
        i += 1;
    }
    assert forall|j: int| !traversal_at(checkdir@, j) by {
        if j >= i as int {
            assert(!(j + 3 <= checkdir@.len()));
        }
    }
    false
}

/// The byte `FS_FilenameCompare` compares: letters upper-cased, `\` and `:`
/// folded to `/`.
pub open spec fn fold_path_byte(c: u8) -> u8 {
    let u: u8 = if 97 <= c <= 122 {
        (c - 32) as u8
    } else {
        c
    };
    if u == 92 || u == 58 {
        47
    } else {
        u
    }
}

/// Byte `i` of a string, 0 past its end (the C terminator).
pub open spec fn byte_or_nul(s: Seq<u8>, i: int) -> u8 {
    if 0 <= i < s.len() {
        s[i]
    } else {
        0
    }
}

/// Whether the two names differ from position `i` on: the first position
/// whose folded bytes differ comes before the first common NUL.
pub open spec fn names_differ_from(s1: Seq<u8>, s2: Seq<u8>, i: int) -> bool
    decreases s1.len() + 1 - i,
{
    let c1 = fold_path_byte(byte_or_nul(s1, i));
    let c2 = fold_path_byte(byte_or_nul(s2, i));
    if i < 0 || c1 != c2 {
        i >= 0
    } else if c1 == 0 {
        false
    } else if i >= s1.len() {
        false
    } else {
        names_differ_from(s1, s2, i + 1)
    }
}

fn fold_path_byte_exec(c: u8) -> (r: u8)
    ensures
        r == fold_path_byte(c),
{
    let u = if 97 <= c && c <= 122 {
        c - 32
    } else {
        c
    };
    if u == 92 || u == 58 {
        47
    } else {
        u
    }
}

/// `FS_FilenameCompare`: case-folded, `\`/`:` normalised to `/`, byte
/// compare; returns true when the names *differ*.
pub fn filename_compare(s1: &[u8], s2: &[u8]) -> (r: bool)
    ensures
        r == names_differ_from(s1@, s2@, 0),
{
    let mut i: usize = 0;
    loop
        invariant
            i <= s1@.len(),
            names_differ_from(s1@, s2@, 0) == names_differ_from(s1@, s2@, i as int),
        decreases s1@.len() - i,
    {
        let c1 = fold_path_byte_exec(if i < s1.len() {
            s1[i]
        } else {
            0
        });
        let c2 = fold_path_byte_exec(if i < s2.len() {
            s2[i]
        } else {
            0
        });
        if c1 != c2 {
            return true;
        }
        if c1 == 0 {
            return false;
        }
        // A folded byte is NUL only for NUL, so `s1` is not exhausted yet.
        assert(i < s1@.len());
        i += 1;
    }
}

// ---------------------------------------------------------------------------
// Cmd_TokenizeString2
// ---------------------------------------------------------------------------

/// End of the run of white space (bytes `<= ' '`) from `pos`.
pub open spec fn ws_end(s: Seq<u8>, cap: int, pos: int) -> int
    decreases cap - pos,
{
    if 0 <= pos < cap && pos < s.len() && s[pos] <= 32 {
        ws_end(s, cap, pos + 1)
    } else {
        pos
    }
}

/// `//` or `/*` starts at `p` (within the first `cap` bytes).
pub open spec fn line_comment_at(s: Seq<u8>, cap: int, p: int) -> bool {
    0 <= p && p + 1 < cap && p + 1 < s.len() && s[p] == 47 && s[p + 1] == 47
}

pub open spec fn block_comment_at(s: Seq<u8>, cap: int, p: int) -> bool {
    0 <= p && p + 1 < cap && p + 1 < s.len() && s[p] == 47 && s[p + 1] == 42
}

/// Position of the first `*/` at or after `pos`, or `cap` when none.
pub open spec fn block_comment_close(s: Seq<u8>, cap: int, pos: int) -> int
    decreases cap - pos,
{
    if pos < 0 || pos >= cap {
        if pos < 0 {
            0
        } else {
            pos
        }
    } else if s[pos] == 42 && pos + 1 < cap && s[pos + 1] == 47 {
        pos
    } else {
        block_comment_close(s, cap, pos + 1)
    }
}

/// Where the next token starts, skipping white space and `/* */` comments;
/// `None` at the end of the text or at a `//` comment (or an unterminated
/// `/*`).
pub open spec fn next_token_start(s: Seq<u8>, cap: int, pos: int) -> Option<int>
    decreases cap - pos,
{
    let p = ws_end(s, cap, pos);
    if pos < 0 || p >= cap || p < pos {
        None
    } else if line_comment_at(s, cap, p) {
        None
    } else if block_comment_at(s, cap, p) {
        let q = block_comment_close(s, cap, p + 2);
        if q + 2 > cap || q < p + 2 {
            None
        } else {
            next_token_start(s, cap, q + 2)
        }
    } else {
        Some(p)
    }
}

/// End of a quoted token's body starting at `pos`: the closing quote or
/// `cap`.
pub open spec fn quoted_end(s: Seq<u8>, cap: int, pos: int) -> int
    decreases cap - pos,
{
    if 0 <= pos < cap && s[pos] != 34 {
        quoted_end(s, cap, pos + 1)
    } else {
        pos
    }
}

/// End of a plain token from `pos`: white space, a quote (unless quotes
/// are ignored), a comment start, or `cap`.
pub open spec fn word_end(s: Seq<u8>, cap: int, pos: int, ignore_quotes: bool) -> int
    decreases cap - pos,
{
    if 0 <= pos < cap && s[pos] > 32 && !(!ignore_quotes && s[pos] == 34) && !line_comment_at(
        s,
        cap,
        pos,
    ) && !block_comment_at(s, cap, pos) {
        word_end(s, cap, pos + 1, ignore_quotes)
    } else {
        pos
    }
}

/// The tokens of `s[pos..cap]`, given that `argc` were produced already
/// (at most `MAX_STRING_TOKENS` in all).
pub open spec fn tokens_from(s: Seq<u8>, cap: int, pos: int, ignore_quotes: bool, argc: nat) -> Seq<
    Seq<u8>,
>
    decreases cap - pos,
{
    if argc >= MAX_STRING_TOKENS || pos < 0 {
        Seq::empty()
    } else {
        match next_token_start(s, cap, pos) {
            None => Seq::empty(),
            Some(p) => if p < pos || p >= cap {
                Seq::empty()
            } else if !ignore_quotes && s[p] == 34 {
                let e = quoted_end(s, cap, p + 1);
                if e < p + 1 {
                    Seq::empty()
                } else if e >= cap {
                    seq![s.subrange(p + 1, e)]
                } else {
                    seq![s.subrange(p + 1, e)] + tokens_from(s, cap, e + 1, ignore_quotes, argc + 1)
                }
            } else {
                let e = word_end(s, cap, p + 1, ignore_quotes);
                if e < p + 1 {
                    Seq::empty()
                } else if e >= cap {
                    seq![s.subrange(p, e)]
                } else {
                    seq![s.subrange(p, e)] + tokens_from(s, cap, e, ignore_quotes, argc + 1)
                }
            },
        }
    }
}

/// `Cmd_TokenizeString2(text, ignoreQuotes)`: the argument vector of the
/// text (its first `BIG_INFO_STRING - 1` bytes).
pub open spec fn spec_tokenize(s: Seq<u8>, ignore_quotes: bool) -> Seq<Seq<u8>> {
    let cap = if s.len() < BIG_INFO_STRING - 1 {
        s.len() as int
    } else {
        BIG_INFO_STRING - 1
    };
    tokens_from(s, cap, 0, ignore_quotes, 0)
}

proof fn lemma_ws_end(s: Seq<u8>, cap: int, pos: int)
    requires
        0 <= pos,
        cap <= s.len(),
    ensures
        pos <= ws_end(s, cap, pos),
        pos <= cap ==> ws_end(s, cap, pos) <= cap,
        ws_end(s, cap, pos) < cap ==> s[ws_end(s, cap, pos)] > 32,
    decreases cap - pos,
{
    if 0 <= pos < cap && pos < s.len() && s[pos] <= 32 {
        lemma_ws_end(s, cap, pos + 1);
    }
}

proof fn lemma_block_close(s: Seq<u8>, cap: int, pos: int)
    requires
        0 <= pos,
        cap <= s.len(),
    ensures
        pos <= cap ==> pos <= block_comment_close(s, cap, pos) <= cap,
        pos > cap ==> block_comment_close(s, cap, pos) == pos,
        block_comment_close(s, cap, pos) < cap ==> block_comment_close(s, cap, pos) + 2 <= cap,
    decreases cap - pos,
{
    if pos < cap && !(s[pos] == 42 && pos + 1 < cap && s[pos + 1] == 47) {
        lemma_block_close(s, cap, pos + 1);
    }
}

proof fn lemma_next_token_start(s: Seq<u8>, cap: int, pos: int)
    requires
        0 <= pos,
        cap <= s.len(),
    ensures
        match next_token_start(s, cap, pos) {
            Some(p) => pos <= p < cap && s[p] > 32 && !line_comment_at(s, cap, p)
                && !block_comment_at(s, cap, p),
            None => true,
        },
    decreases cap - pos,
{
    lemma_ws_end(s, cap, pos);
    let p = ws_end(s, cap, pos);
    if !(p >= cap || p < pos) && !line_comment_at(s, cap, p) && block_comment_at(s, cap, p) {
        let q = block_comment_close(s, cap, p + 2);
        lemma_block_close(s, cap, p + 2);
        if !(q + 2 > cap || q < p + 2) {
            lemma_next_token_start(s, cap, q + 2);
        }
    }
}

proof fn lemma_quoted_end(s: Seq<u8>, cap: int, pos: int)
    requires
        0 <= pos <= cap,
        cap <= s.len(),
    ensures
        pos <= quoted_end(s, cap, pos) <= cap,
        quoted_end(s, cap, pos) < cap ==> s[quoted_end(s, cap, pos)] == 34,
    decreases cap - pos,
{
    if pos < cap && s[pos] != 34 {
        lemma_quoted_end(s, cap, pos + 1);
    }
}

proof fn lemma_word_end(s: Seq<u8>, cap: int, pos: int, ig: bool)
    requires
        0 <= pos <= cap,
        cap <= s.len(),
    ensures
        pos <= word_end(s, cap, pos, ig) <= cap,
    decreases cap - pos,
{
    if 0 <= pos < cap && s[pos] > 32 && !(!ig && s[pos] == 34) && !line_comment_at(s, cap, pos)
        && !block_comment_at(s, cap, pos) {
        lemma_word_end(s, cap, pos + 1, ig);
    }
}

fn ws_end_exec(s: &[u8], cap: usize, pos: usize) -> (r: usize)
    requires
        pos <= cap <= s@.len(),
    ensures
        r == ws_end(s@, cap as int, pos as int),
{
    let mut p = pos;
    while p < cap && s[p] <= 32
        invariant
            pos <= p <= cap <= s@.len(),
            ws_end(s@, cap as int, pos as int) == ws_end(s@, cap as int, p as int),
        decreases cap - p,
    {
        p += 1;
    }
    p
}

fn block_comment_close_exec(s: &[u8], cap: usize, pos: usize) -> (r: usize)
    requires
        pos <= cap <= s@.len(),
    ensures
        r == block_comment_close(s@, cap as int, pos as int),
{
    let mut q = pos;
    while q < cap && !(s[q] == 42 && q + 1 < cap && s[q + 1] == 47)
        invariant
            pos <= q <= cap <= s@.len(),
            block_comment_close(s@, cap as int, pos as int) == block_comment_close(
                s@,
                cap as int,
                q as int,
            ),
        decreases cap - q,
    {
        q += 1;
    }
    q
}

fn next_token_start_exec(s: &[u8], cap: usize, pos: usize) -> (r: Option<usize>)
    requires
        pos <= cap <= s@.len(),
    ensures
        match r {
            Some(p) => next_token_start(s@, cap as int, pos as int) == Some(p as int),
            None => next_token_start(s@, cap as int, pos as int) is None,
        },
{
    let mut at = pos;
    loop
        invariant
            pos <= at <= cap <= s@.len(),
            next_token_start(s@, cap as int, pos as int) == next_token_start(
                s@,
                cap as int,
                at as int,
            ),
        decreases cap - at,
    {
        let p = ws_end_exec(s, cap, at);
        proof {
            lemma_ws_end(s@, cap as int, at as int);
        }
        if p >= cap {
            return None;
        }
        if s[p] == 47 && p + 1 < cap && s[p + 1] == 47 {
            return None;
        }
        if s[p] == 47 && p + 1 < cap && s[p + 1] == 42 {
            let q = block_comment_close_exec(s, cap, p + 2);
            proof {
                lemma_block_close(s@, cap as int, p + 2);
            }
            if q >= cap {
                return None;
            }
            at = q + 2;
        } else {
            return Some(p);
        }
    }
}

fn quoted_end_exec(s: &[u8], cap: usize, pos: usize) -> (r: usize)
    requires
        pos <= cap <= s@.len(),
    ensures
        r == quoted_end(s@, cap as int, pos as int),
{
    let mut q = pos;
    while q < cap && s[q] != 34
        invariant
            pos <= q <= cap <= s@.len(),
            quoted_end(s@, cap as int, pos as int) == quoted_end(s@, cap as int, q as int),
        decreases cap - q,
    {
        q += 1;
    }
    q
}

fn word_end_exec(s: &[u8], cap: usize, pos: usize, ignore_quotes: bool) -> (r: usize)
    requires
        pos <= cap <= s@.len(),
    ensures
        r == word_end(s@, cap as int, pos as int, ignore_quotes),
{
    let mut q = pos;
    while q < cap && s[q] > 32 && !(!ignore_quotes && s[q] == 34) && !(s[q] == 47 && q + 1 < cap
        && s[q + 1] == 47) && !(s[q] == 47 && q + 1 < cap && s[q + 1] == 42)
        invariant
            pos <= q <= cap <= s@.len(),
            word_end(s@, cap as int, pos as int, ignore_quotes) == word_end(
                s@,
                cap as int,
                q as int,
                ignore_quotes,
            ),
        decreases cap - q,
    {
        q += 1;
    }
    q
}

fn copy_range(s: &[u8], lo: usize, hi: usize) -> (r: Vec<u8>)
    requires
        lo <= hi <= s@.len(),
    ensures
        r@ == s@.subrange(lo as int, hi as int),
{
    let part = vstd::slice::slice_subrange(s, lo, hi);
    vstd::slice::slice_to_vec(part)
}

/// The token vectors' contents.
pub open spec fn token_views(v: Seq<Vec<u8>>) -> Seq<Seq<u8>> {
    v.map_values(|t: Vec<u8>| t@)
}

/// `Cmd_TokenizeString2(text_in, ignoreQuotes)`: split the command text into
/// arguments — white space separates them, `"..."` groups (unless quotes
/// are ignored), `//` ends the text, `/* */` is skipped — with at most
/// `MAX_STRING_TOKENS` arguments from the first `BIG_INFO_STRING - 1`
/// bytes. `text` is the string before its NUL terminator.
pub fn cmd_tokenize_string2(text: &[u8], ignore_quotes: bool) -> (r: Vec<Vec<u8>>)
    ensures
        token_views(r@) == spec_tokenize(text@, ignore_quotes),
{
    let ghost s = text@;
    let cap = if text.len() < BIG_INFO_STRING - 1 {
        text.len()
    } else {
        BIG_INFO_STRING - 1
    };
    let mut out: Vec<Vec<u8>> = Vec::new();
    let mut pos: usize = 0;
    assert(token_views(out@) =~= Seq::<Seq<u8>>::empty());
    loop
        invariant_except_break
            out@.len() <= MAX_STRING_TOKENS,
            spec_tokenize(s, ignore_quotes) == token_views(out@) + tokens_from(
                s,
                cap as int,
                pos as int,
                ignore_quotes,
                out@.len() as nat,
            ),
        invariant
            s == text@,
            cap <= s.len(),
            cap == (if s.len() < BIG_INFO_STRING - 1 {
                s.len() as int
            } else {
                BIG_INFO_STRING - 1
            }),
            pos <= cap,
        ensures
            token_views(out@) == spec_tokenize(s, ignore_quotes),
        decreases cap - pos,
    {
        let ghost before = token_views(out@);
        if out.len() == MAX_STRING_TOKENS {
            assert(before + Seq::empty() =~= before);
            break;
        }
        let start = next_token_start_exec(text, cap, pos);
        proof {
            lemma_next_token_start(s, cap as int, pos as int);
        }
        let p = match start {
            None => {
                assert(before + Seq::empty() =~= before);
                break;
            },
            Some(p) => p,
        };
        if !ignore_quotes && text[p] == 34 {
            let e = quoted_end_exec(text, cap, p + 1);
            proof {
                lemma_quoted_end(s, cap as int, p + 1);
            }
            let tok = copy_range(text, p + 1, e);
            out.push(tok);
            assert(token_views(out@) =~= before.push(s.subrange(p + 1, e as int)));
            if e >= cap {
                assert(before + seq![s.subrange(p + 1, e as int)] =~= before.push(
                    s.subrange(p + 1, e as int),
                ));
                break;
            }
            assert(before + (seq![s.subrange(p + 1, e as int)] + tokens_from(
                s,
                cap as int,
                e + 1,
                ignore_quotes,
                out@.len() as nat,
            )) =~= before.push(s.subrange(p + 1, e as int)) + tokens_from(
                s,
                cap as int,
                e + 1,
                ignore_quotes,
                out@.len() as nat,
            ));
            pos = e + 1;
        } else {
            let e = word_end_exec(text, cap, p + 1, ignore_quotes);
            proof {
                lemma_word_end(s, cap as int, p + 1, ignore_quotes);
            }
            let tok = copy_range(text, p, e);
            out.push(tok);
            assert(token_views(out@) =~= before.push(s.subrange(p as int, e as int)));
            if e >= cap {
                assert(before + seq![s.subrange(p as int, e as int)] =~= before.push(
                    s.subrange(p as int, e as int),
                ));
                break;
            }
            assert(before + (seq![s.subrange(p as int, e as int)] + tokens_from(
                s,
                cap as int,
                e as int,
                ignore_quotes,
                out@.len() as nat,
            )) =~= before.push(s.subrange(p as int, e as int)) + tokens_from(
                s,
                cap as int,
                e as int,
                ignore_quotes,
                out@.len() as nat,
            ));
            pos = e;
        }
    }
    out
}

/// Law: the tokenizer never yields more than `MAX_STRING_TOKENS`
/// arguments (the guard against malicious input).
pub proof fn law_token_count_is_bounded(s: Seq<u8>, ignore_quotes: bool)
    ensures
        spec_tokenize(s, ignore_quotes).len() <= MAX_STRING_TOKENS,
{
    let cap = if s.len() < BIG_INFO_STRING - 1 {
        s.len() as int
    } else {
        BIG_INFO_STRING - 1
    };
    lemma_tokens_bound(s, cap, 0, ignore_quotes, 0);
}

proof fn lemma_tokens_bound(s: Seq<u8>, cap: int, pos: int, ig: bool, argc: nat)
    requires
        argc <= MAX_STRING_TOKENS,
    ensures
        argc + tokens_from(s, cap, pos, ig, argc).len() <= MAX_STRING_TOKENS,
    decreases cap - pos,
{
    if !(argc >= MAX_STRING_TOKENS || pos < 0) {
        match next_token_start(s, cap, pos) {
            None => {},
            Some(p) => {
                if !(p < pos || p >= cap) {
                    if !ig && s[p] == 34 {
                        let e = quoted_end(s, cap, p + 1);
                        if !(e < p + 1) && e < cap {
                            lemma_tokens_bound(s, cap, e + 1, ig, argc + 1);
                        }
                    } else {
                        let e = word_end(s, cap, p + 1, ig);
                        if !(e < p + 1) && e < cap {
                            lemma_tokens_bound(s, cap, e, ig, argc + 1);
                        }
                    }
                }
            },
        }
    }
}

} // verus!
