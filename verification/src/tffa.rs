//! Parallel self-organized TFFA matches on one `GT_TEAM` map.
//!
//! Match `0` is the main TFFA: every connected client belongs to it unless
//! they create or join another match; it is always active and its fraglimit
//! is enforced like any other match. Slots `1..=MAX_MATCHES` are
//! player-created. Scores are kept proxy-side per match (team tally and a
//! per-player copy); the game's global team scores are neutralised so the
//! pristine exit rules never end the server early, and the `scores`
//! command is rewritten per viewer with the per-player copies. Every match
//! shares the server's `fraglimit`.
//!
//! Isolation rests on the per-client match table: damage and visibility
//! only cross between clients of one match, and each viewer sees the
//! players of other matches as prefixed spectators (`(TFFA N) name`).

use vstd::prelude::*;
use vstd::string::StringSliceAdditionalSpecFns;

use crate::hooks::game::{clients_wf, same_but_stats};
use crate::sdk::{
    MAX_CLIENTS, MAX_GENTITIES, MAX_NETNAME, SPECTATOR_FOLLOW, TEAM_BLUE, TEAM_RED, TEAM_SPECTATOR,
};
use crate::state::{client_entry_wf, ClientEntry, GameStats};
use crate::utils::{lemma_strlen_bounds, lemma_strlen_unique, spec_strip_color, spec_strlen, strip_color};
use crate::text::{
    is_sep, nat_digits, parse_i32, push_bytes, push_i32, push_str, spec_i32_text, spec_parse_i32,
    spec_split, spec_split_whitespace, spec_trim, split_bounds, split_whitespace_bounds,
    trim_bounds, Sep, sep_free, lemma_split_append_piece, lemma_split_plain,
    lemma_split_pieces_sep_free, lemma_split_first_nonempty, lemma_split_nonempty,
};

verus! {

/// Match id of the implicit main TFFA.
pub const MAIN_MATCH: u8 = 0;

/// Maximum player-created matches (ids `1..=MAX_MATCHES`).
pub const MAX_MATCHES: usize = 8;

/// Backing table size: main slot and created slots.
pub const TOTAL_MATCH_SLOTS: usize = 9;

/// Capacity of the per-frame player-owned entity cache.
pub const OWNED_CAP: usize = 96;

/// `scores ...` entries carry 14 ints each; the second is the score.
pub const SCORE_ENTRY_INTS: usize = 14;

pub const SCORE_ENTRY_SCORE: usize = 1;

/// Damage gate: blocked unless both ends share one match.
pub fn damage_blocked(attacker_match: u8, victim_match: u8) -> (r: bool)
    ensures
        r == (attacker_match != victim_match),
{
    attacker_match != victim_match
}

/// Snapshot gate: `true` keeps the entity for the viewer.
pub fn entity_visible(viewer_match: u8, ent_match: u8) -> (r: bool)
    ensures
        r == (viewer_match == ent_match),
{
    viewer_match == ent_match
}

/// Whether a per-match score has hit the shared `fraglimit`.
pub open spec fn spec_fraglimit_hit(red: i32, blue: i32, fraglimit: i32) -> bool {
    fraglimit > 0 && (red >= fraglimit || blue >= fraglimit)
}

pub fn fraglimit_hit(red: i32, blue: i32, fraglimit: i32) -> (r: bool)
    ensures
        r == spec_fraglimit_hit(red, blue, fraglimit),
{
    fraglimit > 0 && (red >= fraglimit || blue >= fraglimit)
}

// ---------------------------------------------------------------------------
// Quake info strings
// ---------------------------------------------------------------------------

/// The `\`-separated parts of an info string, a leading empty part (from a
/// leading backslash) dropped.
pub open spec fn info_parts(info: Seq<u8>) -> Seq<Seq<u8>> {
    let parts = spec_split(info, Sep::Backslash);
    if parts.len() > 0 && parts[0].len() == 0 {
        parts.drop_first()
    } else {
        parts
    }
}

/// The ordered `(key, value)` pairs of an info string (a trailing odd part
/// is ignored).
pub open spec fn spec_info_pairs(info: Seq<u8>) -> Seq<(Seq<u8>, Seq<u8>)> {
    let p = info_parts(info);
    Seq::new(p.len() / 2, |k: int| (p[2 * k], p[2 * k + 1]))
}

pub open spec fn pairs_view(v: Seq<(Vec<u8>, Vec<u8>)>) -> Seq<(Seq<u8>, Seq<u8>)> {
    v.map_values(|p: (Vec<u8>, Vec<u8>)| (p.0@, p.1@))
}

fn copy_range(s: &[u8], lo: usize, hi: usize) -> (r: Vec<u8>)
    requires
        lo <= hi <= s@.len(),
    ensures
        r@ == s@.subrange(lo as int, hi as int),
{
    vstd::slice::slice_to_vec(vstd::slice::slice_subrange(s, lo, hi))
}

/// Parse a Quake info string (`n\Bob\t\1\...`, with or without a leading
/// `\`) into its ordered pairs.
pub fn info_pairs(info: &[u8]) -> (r: Vec<(Vec<u8>, Vec<u8>)>)
    ensures
        pairs_view(r@) == spec_info_pairs(info@),
{
    let bounds = split_bounds(info, 0, info.len(), Sep::Backslash);
    let ghost parts = spec_split(info@, Sep::Backslash);
    assert(info@.subrange(0, info@.len() as int) =~= info@);
    proof {
        crate::text::lemma_split_nonempty(info@, Sep::Backslash);
    }
    let first: usize = if bounds.len() > 0 && bounds[0].0 == bounds[0].1 {
        1
    } else {
        0
    };
    let ghost p = info_parts(info@);
    assert(p.len() == bounds@.len() - first);
    assert(forall|k: int| 0 <= k < p.len() ==> p[k] == parts[k + first]);
    let mut out: Vec<(Vec<u8>, Vec<u8>)> = Vec::new();
    let mut i: usize = first;
    while i <= bounds.len() && bounds.len() - i >= 2
        invariant
            first <= i,
            first <= 1,
            first <= bounds@.len(),
            i <= bounds@.len(),
            i == first + 2 * out@.len(),
            p.len() == bounds@.len() - first,
            forall|k: int| 0 <= k < p.len() ==> p[k] == parts[k + first],
            forall|k: int|
                0 <= k < bounds@.len() ==> (#[trigger] bounds@[k]).0 <= bounds@[k].1 <= info@.len()
                    && info@.subrange(bounds@[k].0 as int, bounds@[k].1 as int) == parts[k],
            forall|k: int|
                0 <= k < out@.len() ==> (#[trigger] out@[k]).0@ == p[2 * k] && out@[k].1@ == p[2
                    * k + 1],
        decreases bounds@.len() - i,
    {
        let (klo, khi) = bounds[i];
        let (vlo, vhi) = bounds[i + 1];
        let key = copy_range(info, klo, khi);
        let value = copy_range(info, vlo, vhi);
        out.push((key, value));
        i += 2;
    }
    assert(out@.len() == p.len() / 2);
    assert(pairs_view(out@) =~= spec_info_pairs(info@));
    out
}

/// The value of the first pair whose key is `key`, searching from `i`.
pub open spec fn find_value(pairs: Seq<(Seq<u8>, Seq<u8>)>, key: Seq<u8>, i: int) -> Option<
    Seq<u8>,
>
    decreases pairs.len() - i,
{
    if i < 0 || i >= pairs.len() {
        None
    } else if pairs[i].0 == key {
        Some(pairs[i].1)
    } else {
        find_value(pairs, key, i + 1)
    }
}

pub open spec fn spec_info_value(info: Seq<u8>, key: Seq<u8>) -> Option<Seq<u8>> {
    find_value(spec_info_pairs(info), key, 0)
}

fn bytes_eq(a: &[u8], b: &[u8]) -> (r: bool)
    ensures
        r == (a@ == b@),
{
    if a.len() != b.len() {
        return false;
    }
    let mut i: usize = 0;
    while i < a.len()
        invariant
            a@.len() == b@.len(),
            i <= a@.len(),
            forall|j: int| 0 <= j < i ==> a@[j] == b@[j],
        decreases a@.len() - i,
    {
        if a[i] != b[i] {
            return false;
        }
        i += 1;
    }
    assert(a@ =~= b@);
    true
}

/// Read one key from an info string.
pub fn info_value(info: &[u8], key: &[u8]) -> (r: Option<Vec<u8>>)
    ensures
        match r {
            Some(v) => spec_info_value(info@, key@) == Some(v@),
            None => spec_info_value(info@, key@) is None,
        },
{
    let pairs = info_pairs(info);
    let ghost ps = spec_info_pairs(info@);
    let mut i: usize = 0;
    while i < pairs.len()
        invariant
            ps == spec_info_pairs(info@),
            pairs_view(pairs@) == ps,
            i <= pairs@.len(),
            find_value(ps, key@, 0) == find_value(ps, key@, i as int),
        decreases pairs@.len() - i,
    {
        assert(ps[i as int] == (pairs@[i as int].0@, pairs@[i as int].1@));
        if bytes_eq(pairs[i].0.as_slice(), key) {
            let v = vstd::slice::slice_to_vec(pairs[i].1.as_slice());
            assert(ps[i as int].0 == key@);
            assert(find_value(ps, key@, i as int) == Some(ps[i as int].1));
            return Some(v);
        }
        i += 1;
    }
    None
}

/// Index of the first pair whose key is `key`, searching from `i`.
pub open spec fn find_index(pairs: Seq<(Seq<u8>, Seq<u8>)>, key: Seq<u8>, i: int) -> Option<int>
    decreases pairs.len() - i,
{
    if i < 0 || i >= pairs.len() {
        None
    } else if pairs[i].0 == key {
        Some(i)
    } else {
        find_index(pairs, key, i + 1)
    }
}

proof fn lemma_find_index(pairs: Seq<(Seq<u8>, Seq<u8>)>, key: Seq<u8>, i: int)
    requires
        0 <= i,
    ensures
        match find_index(pairs, key, i) {
            Some(j) => i <= j < pairs.len() && pairs[j].0 == key && forall|m: int|
                i <= m < j ==> pairs[m].0 != key,
            None => forall|m: int| i <= m < pairs.len() ==> pairs[m].0 != key,
        },
    decreases pairs.len() - i,
{
    if i < pairs.len() && pairs[i].0 != key {
        lemma_find_index(pairs, key, i + 1);
    }
}

/// The pairs with `key` set to `value`: the first pair with that key takes
/// the value, or the pair is appended when the key is missing.
pub open spec fn set_pairs(pairs: Seq<(Seq<u8>, Seq<u8>)>, key: Seq<u8>, value: Seq<u8>) -> Seq<
    (Seq<u8>, Seq<u8>),
> {
    match find_index(pairs, key, 0) {
        Some(i) => pairs.update(i, (pairs[i].0, value)),
        None => pairs.push((key, value)),
    }
}

/// One rendered pair: `\key\value`, or `key\value` for the first pair of a
/// string without a leading backslash.
pub open spec fn render_pair(pair: (Seq<u8>, Seq<u8>), first: bool, leading: bool) -> Seq<u8> {
    if first && !leading {
        pair.0 + seq![92u8] + pair.1
    } else {
        seq![92u8] + pair.0 + seq![92u8] + pair.1
    }
}

pub open spec fn render_info(pairs: Seq<(Seq<u8>, Seq<u8>)>, leading: bool) -> Seq<u8>
    decreases pairs.len(),
{
    if pairs.len() == 0 {
        Seq::empty()
    } else {
        render_info(pairs.drop_last(), leading) + render_pair(
            pairs.last(),
            pairs.len() == 1,
            leading,
        )
    }
}

/// `info_set`: the info string with `key` set to `value`, the other pairs
/// and the leading-backslash style kept.
pub open spec fn spec_info_set(info: Seq<u8>, key: Seq<u8>, value: Seq<u8>) -> Seq<u8> {
    render_info(
        set_pairs(spec_info_pairs(info), key, value),
        info.len() > 0 && info[0] == 92,
    )
}

fn push_pair(out: &mut Vec<u8>, key: &[u8], value: &[u8], first: bool, leading: bool)
    ensures
        final(out)@ == old(out)@ + render_pair((key@, value@), first, leading),
{
    if !(first && !leading) {
        out.push(92);
    }
    push_bytes(out, key);
    out.push(92);
    push_bytes(out, value);
    assert(final(out)@ =~= old(out)@ + render_pair((key@, value@), first, leading));
}

/// Set one key in an info string, preserving the other pairs and the
/// leading-backslash style of the input; appends the pair when missing.
pub fn info_set(info: &[u8], key: &[u8], value: &[u8]) -> (r: Vec<u8>)
    ensures
        r@ == spec_info_set(info@, key@, value@),
{
    let leading = info.len() > 0 && info[0] == 92;
    let pairs = info_pairs(info);
    let ghost ps = spec_info_pairs(info@);
    let mut found: usize = pairs.len();
    let mut j: usize = 0;
    while j < pairs.len()
        invariant_except_break
            found == pairs@.len(),
            find_index(ps, key@, 0) == find_index(ps, key@, j as int),
        invariant
            ps == spec_info_pairs(info@),
            pairs_view(pairs@) == ps,
            j <= pairs@.len(),
        ensures
            found <= pairs@.len(),
            found < pairs@.len() ==> find_index(ps, key@, 0) == Some(found as int),
            found == pairs@.len() ==> find_index(ps, key@, 0) is None,
        decreases pairs@.len() - j,
    {
        assert(ps[j as int] == (pairs@[j as int].0@, pairs@[j as int].1@));
        if bytes_eq(pairs[j].0.as_slice(), key) {
            found = j;
            break;
        }
        j += 1;
    }
    let ghost set = set_pairs(ps, key@, value@);
    let mut out: Vec<u8> = Vec::new();
    let mut k: usize = 0;
    while k < pairs.len()
        invariant
            ps == spec_info_pairs(info@),
            pairs_view(pairs@) == ps,
            set == set_pairs(ps, key@, value@),
            found <= pairs@.len(),
            found < pairs@.len() ==> find_index(ps, key@, 0) == Some(found as int),
            found == pairs@.len() ==> find_index(ps, key@, 0) is None,
            k <= pairs@.len(),
            leading == (info@.len() > 0 && info@[0] == 92),
            out@ == render_info(set.subrange(0, k as int), leading),
        decreases pairs@.len() - k,
    {
        let ghost before = set.subrange(0, k as int);
        assert(ps[k as int] == (pairs@[k as int].0@, pairs@[k as int].1@));
        if k == found {
            push_pair(&mut out, pairs[k].0.as_slice(), value, k == 0, leading);
        } else {
            push_pair(&mut out, pairs[k].0.as_slice(), pairs[k].1.as_slice(), k == 0, leading);
        }
        assert(set.subrange(0, k + 1).drop_last() =~= before);
        k += 1;
    }
    if found == pairs.len() {
        push_pair(&mut out, key, value, pairs.len() == 0, leading);
        assert(set.drop_last() =~= set.subrange(0, pairs@.len() as int));
    } else {
        assert(set.subrange(0, pairs@.len() as int) =~= set);
    }
    out
}

// ---------------------------------------------------------------------------
// Per-viewer player configstrings
// ---------------------------------------------------------------------------

/// `(TFFA N) `, the name prefix of a player of match `N`: the bytes of
/// `(TFFA `, the decimal match id, then `) `.
pub open spec fn spec_prefix_for(player_match: u8) -> Seq<u8> {
    seq![40u8, 84, 70, 70, 65, 32] + nat_digits(player_match as nat) + seq![41u8, 32]
}

pub fn prefix_for(player_match: u8) -> (r: Vec<u8>)
    ensures
        r@ == spec_prefix_for(player_match),
{
    let mut out: Vec<u8> = Vec::new();
    let head: [u8; 6] = [40, 84, 70, 70, 65, 32];
    let tail: [u8; 2] = [41, 32];
    push_bytes(&mut out, head.as_slice());
    push_i32(&mut out, player_match as i32);
    push_bytes(&mut out, tail.as_slice());
    assert(out@ =~= spec_prefix_for(player_match));
    out
}

/// Whether byte index `i` of UTF-8 text starts a character (or is its end).
pub open spec fn char_boundary(s: Seq<u8>, i: int) -> bool {
    i == 0 || i == s.len() || (0 < i < s.len() && !(0x80 <= s[i] < 0xc0))
}

/// The largest character boundary at or before `c`.
pub open spec fn boundary_at_or_before(s: Seq<u8>, c: int) -> int
    decreases c,
{
    if c <= 0 {
        0
    } else if char_boundary(s, c) {
        c
    } else {
        boundary_at_or_before(s, c - 1)
    }
}

proof fn lemma_boundary_at_or_before(s: Seq<u8>, c: int)
    ensures
        0 <= boundary_at_or_before(s, c),
        c >= 0 ==> boundary_at_or_before(s, c) <= c,
    decreases c,
{
    if c > 0 && !char_boundary(s, c) {
        lemma_boundary_at_or_before(s, c - 1);
    }
}

/// How much of the name fits after the prefix: at most `MAX_NETNAME - 1`
/// bytes in all, cut back to a character boundary, and a trailing bare `^`
/// dropped.
pub open spec fn name_cut(orig: Seq<u8>, prefix_len: int) -> int {
    let max_total = MAX_NETNAME - 1;
    let budget = if max_total >= prefix_len {
        max_total - prefix_len
    } else {
        0
    };
    let cut0 = if orig.len() < budget {
        orig.len() as int
    } else {
        budget
    };
    let cut1 = boundary_at_or_before(orig, cut0);
    if cut1 > 0 && orig[cut1 - 1] == 94 {
        cut1 - 1
    } else {
        cut1
    }
}

pub open spec fn spec_prefixed_name(orig: Seq<u8>, player_match: u8) -> Seq<u8> {
    let p = spec_prefix_for(player_match);
    p + orig.subrange(0, name_cut(orig, p.len() as int))
}

/// The prefixed display name, truncated so the whole of it fits
/// `MAX_NETNAME` (35 bytes and the NUL). The cut falls on a UTF-8
/// character boundary and never leaves a bare `^` (color escape) at the
/// end.
pub fn prefixed_name(orig: &[u8], player_match: u8) -> (r: Vec<u8>)
    ensures
        r@ == spec_prefixed_name(orig@, player_match),
{
    let mut out = prefix_for(player_match);
    let max_total = MAX_NETNAME - 1;
    let budget = if max_total >= out.len() {
        max_total - out.len()
    } else {
        0
    };
    let mut cut = if orig.len() < budget {
        orig.len()
    } else {
        budget
    };
    let ghost cut0 = cut as int;
    while cut > 0 && !(cut == orig.len() || (cut < orig.len() && !(0x80 <= orig[cut] && orig[cut]
        < 0xc0)))
        invariant
            cut <= orig@.len(),
            0 <= cut0,
            boundary_at_or_before(orig@, cut0) == boundary_at_or_before(orig@, cut as int),
        decreases cut,
    {
        cut -= 1;
    }
    if cut > 0 && orig[cut - 1] == 94 {
        cut -= 1;
    }
    push_bytes(&mut out, vstd::slice::slice_subrange(orig, 0, cut));
    out
}

/// Law: a prefixed name always fits `MAX_NETNAME` with its NUL.
pub proof fn law_prefixed_name_fits(orig: Seq<u8>, player_match: u8)
    ensures
        spec_prefixed_name(orig, player_match).len() < MAX_NETNAME,
        spec_prefixed_name(orig, player_match).subrange(
            0,
            spec_prefix_for(player_match).len() as int,
        ) == spec_prefix_for(player_match),
{
    reveal_with_fuel(nat_digits, 3);
    let p = spec_prefix_for(player_match);
    assert(nat_digits(player_match as nat).len() <= 3);
    let max_total = MAX_NETNAME - 1;
    let budget = max_total - p.len();
    let cut0 = if orig.len() < budget {
        orig.len() as int
    } else {
        budget
    };
    lemma_boundary_at_or_before(orig, cut0);
    assert(spec_prefixed_name(orig, player_match).subrange(0, p.len() as int) =~= p);
}

/// `info_value(base, key)` for the one-letter keys of a player string.
pub open spec fn key_n() -> Seq<u8> {
    seq![110u8]
}

pub open spec fn key_t() -> Seq<u8> {
    seq![116u8]
}

/// A player's `CS_PLAYERS` string as a viewer of `viewer_match` sees it:
/// a playing outsider (other match, base team red or blue) gets the
/// `(TFFA N)` name prefix and the spectator team; everyone else is left
/// untouched (`None`).
pub open spec fn spec_rewrite_cs_players(base: Seq<u8>, player_match: u8, viewer_match: u8) -> Option<
    Seq<u8>,
> {
    if base.len() == 0 || player_match == viewer_match {
        None
    } else {
        match spec_info_value(base, key_t()) {
            None => None,
            Some(t) => match spec_parse_i32(t) {
                None => None,
                Some(team) => if team != TEAM_RED && team != TEAM_BLUE {
                    None
                } else {
                    let orig = match spec_info_value(base, key_n()) {
                        Some(n) => n,
                        None => Seq::empty(),
                    };
                    let out = spec_info_set(base, key_n(), spec_prefixed_name(orig, player_match));
                    Some(spec_info_set(out, key_t(), spec_i32_text(TEAM_SPECTATOR as int)))
                },
            },
        }
    }
}

/// Rewrite a `CS_PLAYERS + n` info string for a viewer; `None` when it
/// stays as the game set it.
pub fn rewrite_cs_players_for_viewer(base: &[u8], player_match: u8, viewer_match: u8) -> (r: Option<
    Vec<u8>,
>)
    ensures
        match r {
            Some(v) => spec_rewrite_cs_players(base@, player_match, viewer_match) == Some(v@),
            None => spec_rewrite_cs_players(base@, player_match, viewer_match) is None,
        },
{
    if base.len() == 0 {
        return None;
    }
    if player_match == viewer_match {
        return None;
    }
    let kt: [u8; 1] = [116];
    let kn: [u8; 1] = [110];
    assert(kt@ == key_t());
    assert(kn@ == key_n());
    let t = match info_value(base, kt.as_slice()) {
        None => {
            return None;
        },
        Some(t) => t,
    };
    let team = match parse_i32(t.as_slice(), 0, t.len()) {
        None => {
            assert(t@.subrange(0, t@.len() as int) =~= t@);
            return None;
        },
        Some(v) => v,
    };
    assert(t@.subrange(0, t@.len() as int) =~= t@);
    if team != TEAM_RED && team != TEAM_BLUE {
        return None;
    }
    let orig: Vec<u8> = match info_value(base, kn.as_slice()) {
        Some(n) => n,
        None => Vec::new(),
    };
    let name = prefixed_name(orig.as_slice(), player_match);
    let out = info_set(base, kn.as_slice(), name.as_slice());
    let mut spec_team: Vec<u8> = Vec::new();
    push_i32(&mut spec_team, TEAM_SPECTATOR);
    Some(info_set(out.as_slice(), kt.as_slice(), spec_team.as_slice()))
}

/// `s` holds `pat` starting at `i`.
pub open spec fn occurs_at(s: Seq<u8>, pat: Seq<u8>, i: int) -> bool {
    0 <= i && i + pat.len() <= s.len() && s.subrange(i, i + pat.len()) == pat
}

fn occurs_at_exec(s: &[u8], pat: &[u8], i: usize) -> (r: bool)
    ensures
        r == occurs_at(s@, pat@, i as int),
{
    if i > s.len() || s.len() - i < pat.len() {
        return false;
    }
    let n = s.len();
    let mut k: usize = 0;
    while k < pat.len()
        invariant
            n == s@.len(),
            i + pat@.len() <= n,
            k <= pat@.len(),
            forall|j: int| 0 <= j < k ==> s@[i + j] == pat@[j],
        decreases pat@.len() - k,
    {
        if s[i + k] != pat[k] {
            assert(s@.subrange(i as int, i + pat@.len())[k as int] != pat@[k as int]);
            return false;
        }
        k += 1;
    }
    assert(s@.subrange(i as int, i + pat@.len()) =~= pat@);
    true
}

/// Whether a game-originated server command is the pristine fraglimit
/// notice (`print "...` carrying the `HIT_THE_KILL_LIMIT` string
/// reference), which is swallowed while the matches own the fraglimit
/// endings.
pub open spec fn spec_is_kill_limit_print(text: Seq<u8>) -> bool {
    occurs_at(text, "print \"".spec_bytes(), 0) && exists|i: int|
        occurs_at(text, "HIT_THE_KILL_LIMIT".spec_bytes(), i)
}

pub fn is_kill_limit_print(text: &str) -> (r: bool)
    ensures
        r == spec_is_kill_limit_print(text.spec_bytes()),
{
    let b = text.as_bytes();
    let head = "print \"".as_bytes();
    let key = "HIT_THE_KILL_LIMIT".as_bytes();
    if !occurs_at_exec(b, head, 0) {
        return false;
    }
    let mut i: usize = 0;
    while i < b.len()
        invariant
            b@ == text.spec_bytes(),
            key@ == "HIT_THE_KILL_LIMIT".spec_bytes(),
            head@ == "print \"".spec_bytes(),
            occurs_at(b@, head@, 0),
            i <= b@.len(),
            forall|j: int| 0 <= j < i ==> !occurs_at(b@, key@, j),
        decreases b@.len() - i,
    {
        if occurs_at_exec(b, key, i) {
            assert(occurs_at(text.spec_bytes(), "HIT_THE_KILL_LIMIT".spec_bytes(), i as int));
            return true;
        }
        i += 1;
    }
    if occurs_at_exec(b, key, b.len()) {
        assert(occurs_at(text.spec_bytes(), "HIT_THE_KILL_LIMIT".spec_bytes(), b.len() as int));
        return true;
    }
    assert forall|j: int| !occurs_at(b@, key@, j) by {
        if j > b@.len() {
            assert(!(j + key@.len() <= b@.len()));
        }
    }
    false
}

// ---------------------------------------------------------------------------
// scores command rewrite
// ---------------------------------------------------------------------------

/// The entries of a `scores` command as a viewer sees them: whole 14-int
/// entries only, each entry's score replaced by the per-match copy of its
/// client (when the client number is a valid slot).
pub open spec fn kept_entries(scores: Seq<i32>, entries: Seq<i32>) -> Seq<i32> {
    Seq::new(
        ((entries.len() / 14) * 14) as nat,
        |i: int|
            if i % 14 == 1 && 0 <= entries[i - 1] < MAX_CLIENTS {
                scores[entries[i - 1] as int]
            } else {
                entries[i]
            },
    )
}

/// Each int preceded by one space.
pub open spec fn ints_text(s: Seq<i32>) -> Seq<u8>
    decreases s.len(),
{
    if s.len() == 0 {
        Seq::empty()
    } else {
        ints_text(s.drop_last()) + seq![32u8] + spec_i32_text(s.last() as int)
    }
}

/// The bytes of `scores`.
pub open spec fn scores_word() -> Seq<u8> {
    seq![115u8, 99, 111, 114, 101, 115]
}

/// `scores <count> <red> <blue> <entries...>`.
pub open spec fn spec_filter_scores(red: i32, blue: i32, scores: Seq<i32>, entries: Seq<i32>) -> Seq<
    u8,
> {
    scores_word() + ints_text(seq![(entries.len() / 14) as i32, red, blue]) + ints_text(
        kept_entries(scores, entries),
    )
}

fn push_int(out: &mut Vec<u8>, v: i32)
    ensures
        final(out)@ == old(out)@ + seq![32u8] + spec_i32_text(v as int),
{
    out.push(32);
    push_i32(out, v);
}

/// The `scores` command for one viewer: every entry kept, the team header
/// set to the viewer's match tallies and each entry's score replaced by the
/// per-match copy (`player_scores`, one per client slot).
pub fn filter_scores(red: i32, blue: i32, player_scores: &[i32], entries: &[i32]) -> (r: Vec<u8>)
    requires
        player_scores@.len() == MAX_CLIENTS,
    ensures
        r@ == spec_filter_scores(red, blue, player_scores@, entries@),
{
    let count = entries.len() / SCORE_ENTRY_INTS;
    let n = count * SCORE_ENTRY_INTS;
    let word: [u8; 6] = [115, 99, 111, 114, 101, 115];
    assert(word@ == scores_word());
    let mut out: Vec<u8> = Vec::new();
    push_bytes(&mut out, word.as_slice());
    push_int(&mut out, count as i32);
    push_int(&mut out, red);
    push_int(&mut out, blue);
    let ghost head = out@;
    let ghost kept = kept_entries(player_scores@, entries@);
    assert(head =~= scores_word() + ints_text(seq![count as i32, red, blue])) by {
        let h = seq![count as i32, red, blue];
        reveal_with_fuel(ints_text, 4);
        assert(h.drop_last() =~= seq![count as i32, red]);
        assert(h.drop_last().drop_last() =~= seq![count as i32]);
        assert(h.drop_last().drop_last().drop_last() =~= Seq::<i32>::empty());
    }
    let mut i: usize = 0;
    assert(kept.subrange(0, 0) =~= Seq::<i32>::empty());
    while i < n
        invariant
            n == (entries@.len() / 14) * 14,
            n <= entries@.len(),
            player_scores@.len() == MAX_CLIENTS,
            kept == kept_entries(player_scores@, entries@),
            i <= n,
            out@ == head + ints_text(kept.subrange(0, i as int)),
        decreases n - i,
    {
        let v = if i % SCORE_ENTRY_INTS == SCORE_ENTRY_SCORE && 0 <= entries[i - 1] && entries[i
            - 1] < MAX_CLIENTS as i32 {
            player_scores[entries[i - 1] as usize]
        } else {
            entries[i]
        };
        assert(v == kept[i as int]);
        push_int(&mut out, v);
        assert(kept.subrange(0, i + 1).drop_last() =~= kept.subrange(0, i as int));
        i += 1;
    }
    assert(kept.subrange(0, n as int) =~= kept);
    out
}

proof fn lemma_ints_text_concat(a: Seq<i32>, b: Seq<i32>)
    ensures
        ints_text(a + b) == ints_text(a) + ints_text(b),
    decreases b.len(),
{
    if b.len() == 0 {
        assert(a + b =~= a);
        assert(ints_text(a) + Seq::<u8>::empty() =~= ints_text(a));
    } else {
        lemma_ints_text_concat(a, b.drop_last());
        assert((a + b).drop_last() =~= a + b.drop_last());
        assert((a + b).last() == b.last());
        assert(ints_text(a) + ints_text(b.drop_last()) + seq![32u8] + spec_i32_text(b.last() as int)
            =~= ints_text(a) + (ints_text(b.drop_last()) + seq![32u8] + spec_i32_text(
            b.last() as int,
        )));
    }
}

/// Law: the rewritten `scores` command is `scores` followed by its numbers,
/// each after a space: the count of whole 14-int entries, the viewer's red
/// and blue tallies, then every whole entry in order with exactly one field
/// changed — its score (field 1) becomes the per-match score of the
/// entry's own client (field 0), when that is a client slot. A trailing
/// partial entry is dropped.
pub proof fn law_filtered_scores_entries(red: i32, blue: i32, scores: Seq<i32>, entries: Seq<i32>)
    requires
        scores.len() == MAX_CLIENTS,
    ensures
        exists|nums: Seq<i32>|
            {
                &&& spec_filter_scores(red, blue, scores, entries) == seq![115u8, 99, 111, 114, 101, 115]
                    + ints_text(nums)
                &&& nums.len() == 3 + (entries.len() / 14) * 14
                &&& nums[0] == (entries.len() / 14) as i32
                &&& nums[1] == red
                &&& nums[2] == blue
                &&& forall|k: int, f: int|
                    0 <= k < entries.len() / 14 && 0 <= f < 14 ==> #[trigger] nums[3 + 14 * k + f]
                        == (if f == 1 && 0 <= entries[14 * k] < MAX_CLIENTS {
                        scores[entries[14 * k] as int]
                    } else {
                        entries[14 * k + f]
                    })
            },
{
    let head = seq![(entries.len() / 14) as i32, red, blue];
    let kept = kept_entries(scores, entries);
    let nums = head + kept;
    lemma_ints_text_concat(head, kept);
    assert(spec_filter_scores(red, blue, scores, entries) =~= seq![115u8, 99, 111, 114, 101, 115]
        + ints_text(nums));
    assert forall|k: int, f: int| 0 <= k < entries.len() / 14 && 0 <= f < 14 implies #[trigger] nums[3 + 14 * k + f]
        == (if f == 1 && 0 <= entries[14 * k] < MAX_CLIENTS {
        scores[entries[14 * k] as int]
    } else {
        entries[14 * k + f]
    }) by {
        let i = 14 * k + f;
        assert(i % 14 == f && 0 <= i < (entries.len() / 14) * 14) by (nonlinear_arith)
            requires
                i == 14 * k + f,
                0 <= k < entries.len() / 14,
                0 <= f < 14,
        ;
        assert(nums[3 + i] == kept[i]);
        if f == 1 {
            assert(i - 1 == 14 * k);
        }
    }
}

/// The ints of a `scores ...` command (`None` unless it is one and every
/// word parses).
pub open spec fn parse_ints(words: Seq<Seq<u8>>) -> Option<Seq<i32>>
    decreases words.len(),
{
    if words.len() == 0 {
        Some(Seq::empty())
    } else {
        match (parse_ints(words.drop_last()), spec_parse_i32(words.last())) {
            (Some(a), Some(v)) => Some(a.push(v)),
            _ => None,
        }
    }
}

/// `scores ` as bytes.
pub open spec fn scores_head() -> Seq<u8> {
    seq![115u8, 99, 111, 114, 101, 115, 32]
}

/// The numbers of a `scores` command: the text after `scores `, split on
/// white space, every word an `i32`; at least the three header ints and
/// whole 14-int entries after them.
pub open spec fn spec_scores_numbers(text: Seq<u8>) -> Option<Seq<i32>> {
    if !occurs_at(text, scores_head(), 0) {
        None
    } else {
        match parse_ints(spec_split_whitespace(text.subrange(7, text.len() as int))) {
            None => None,
            Some(nums) => if nums.len() < 3 || (nums.len() - 3) % 14 != 0 {
                None
            } else {
                Some(nums)
            },
        }
    }
}

/// Parse a `scores ...` server command into its numbers.
pub fn scores_numbers(text: &str) -> (r: Option<Vec<i32>>)
    ensures
        match r {
            Some(v) => spec_scores_numbers(text.spec_bytes()) == Some(v@),
            None => spec_scores_numbers(text.spec_bytes()) is None,
        },
{
    let b = text.as_bytes();
    let head: [u8; 7] = [115, 99, 111, 114, 101, 115, 32];
    assert(head@ == scores_head());
    if !occurs_at_exec(b, head.as_slice(), 0) {
        return None;
    }
    let words = split_whitespace_bounds(b, 7, b.len());
    let ghost ws = spec_split_whitespace(b@.subrange(7, b@.len() as int));
    let mut nums: Vec<i32> = Vec::new();
    let mut k: usize = 0;
    while k < words.len()
        invariant
            b@ == text.spec_bytes(),
            ws == spec_split_whitespace(b@.subrange(7, b@.len() as int)),
            words@.len() == ws.len(),
            forall|j: int|
                0 <= j < words@.len() ==> 7 <= (#[trigger] words@[j]).0 <= words@[j].1 <= b@.len()
                    && b@.subrange(words@[j].0 as int, words@[j].1 as int) == ws[j],
            k <= words@.len(),
            parse_ints(ws.subrange(0, k as int)) == Some(nums@),
        decreases words@.len() - k,
    {
        let (lo, hi) = words[k];
        assert(ws.subrange(0, k + 1).drop_last() =~= ws.subrange(0, k as int));
        match parse_i32(b, lo, hi) {
            None => {
                assert(parse_ints(ws.subrange(0, k + 1)) is None);
                assert(parse_ints(ws) is None) by {
                    lemma_parse_ints_prefix_fails(ws, k as int + 1);
                }
                return None;
            },
            Some(v) => {
                nums.push(v);
            },
        }
        k += 1;
    }
    assert(ws.subrange(0, words@.len() as int) =~= ws);
    if nums.len() < 3 || (nums.len() - 3) % SCORE_ENTRY_INTS != 0 {
        return None;
    }
    Some(nums)
}

proof fn lemma_parse_ints_prefix_fails(ws: Seq<Seq<u8>>, k: int)
    requires
        0 <= k <= ws.len(),
        parse_ints(ws.subrange(0, k)) is None,
    ensures
        parse_ints(ws) is None,
    decreases ws.len() - k,
{
    if k < ws.len() {
        assert(ws.subrange(0, k + 1).drop_last() =~= ws.subrange(0, k));
        lemma_parse_ints_prefix_fails(ws, k + 1);
    } else {
        assert(ws.subrange(0, k) =~= ws);
    }
}

// ---------------------------------------------------------------------------
// Match bookkeeping
// ---------------------------------------------------------------------------

/// One match slot: its team tallies and whether it is open.
#[derive(Debug, Clone, Copy, PartialEq, Eq, Structural)]
pub struct MatchSlot {
    pub red: i32,
    pub blue: i32,
    pub active: bool,
}

/// Dedup marker of the last pushed score pair (none pushed yet).
pub const SCORES_UNSENT: (i32, i32) = (i32::MIN, i32::MIN);

/// The TFFA state: the match of every client slot, the match slots, the
/// per-match score copy of every client, the last score pair pushed to and
/// the match last shown to every viewer, the stored `CS_PLAYERS` base
/// strings, the owned-entity cache stamps and the intermission flag.
#[derive(Debug)]
pub struct TffaState {
    pub client_match: Vec<u8>,
    pub matches: Vec<MatchSlot>,
    pub player_score: Vec<i32>,
    pub cs_scores_sent: Vec<(i32, i32)>,
    pub viewer_match_cache: Vec<u8>,
    pub cs_players_base: Vec<Vec<u8>>,
    pub owned_count: usize,
    pub rebuilt_stamp: u32,
    pub frame_stamp: u32,
    pub intermission: bool,
}

impl TffaState {
    /// Tables at their sizes, every client in an existing match, the main
    /// match always open.
    pub open spec fn wf(&self) -> bool {
        &&& self.client_match@.len() == MAX_CLIENTS
        &&& self.matches@.len() == TOTAL_MATCH_SLOTS
        &&& self.player_score@.len() == MAX_CLIENTS
        &&& self.cs_scores_sent@.len() == MAX_CLIENTS
        &&& self.viewer_match_cache@.len() == MAX_CLIENTS
        &&& self.cs_players_base@.len() == MAX_CLIENTS
        &&& forall|i: int| 0 <= i < MAX_CLIENTS ==> #[trigger] self.client_match@[i] < TOTAL_MATCH_SLOTS
        &&& forall|i: int|
            0 <= i < MAX_CLIENTS ==> #[trigger] self.viewer_match_cache@[i] < TOTAL_MATCH_SLOTS
        &&& self.matches@[MAIN_MATCH as int].active
    }

    /// Everyone in the main match, no created match open, all scores zero.
    pub fn new() -> (r: TffaState)
        ensures
            r.wf(),
            forall|i: int| 0 <= i < MAX_CLIENTS ==> r.client_match@[i] == MAIN_MATCH,
            forall|i: int| 0 <= i < MAX_CLIENTS ==> r.player_score@[i] == 0,
            forall|i: int|
                0 <= i < TOTAL_MATCH_SLOTS ==> r.matches@[i] == (MatchSlot {
                    red: 0,
                    blue: 0,
                    active: i == MAIN_MATCH,
                }),
            !r.intermission,
    {
        let mut matches: Vec<MatchSlot> = Vec::new();
        let mut i: usize = 0;
        while i < TOTAL_MATCH_SLOTS
            invariant
                i <= TOTAL_MATCH_SLOTS,
                matches@.len() == i,
                forall|j: int|
                    0 <= j < i ==> matches@[j] == (MatchSlot {
                        red: 0,
                        blue: 0,
                        active: j == MAIN_MATCH,
                    }),
            decreases TOTAL_MATCH_SLOTS - i,
        {
            matches.push(MatchSlot { red: 0, blue: 0, active: i == 0 });
            i += 1;
        }
        let mut client_match: Vec<u8> = Vec::new();
        let mut player_score: Vec<i32> = Vec::new();
        let mut cs_scores_sent: Vec<(i32, i32)> = Vec::new();
        let mut viewer_match_cache: Vec<u8> = Vec::new();
        let mut cs_players_base: Vec<Vec<u8>> = Vec::new();
        let mut c: usize = 0;
        while c < MAX_CLIENTS
            invariant
                c <= MAX_CLIENTS,
                client_match@.len() == c,
                player_score@.len() == c,
                cs_scores_sent@.len() == c,
                viewer_match_cache@.len() == c,
                cs_players_base@.len() == c,
                forall|j: int| 0 <= j < c ==> client_match@[j] == MAIN_MATCH,
                forall|j: int| 0 <= j < c ==> viewer_match_cache@[j] == MAIN_MATCH,
                forall|j: int| 0 <= j < c ==> player_score@[j] == 0,
            decreases MAX_CLIENTS - c,
        {
            client_match.push(MAIN_MATCH);
            player_score.push(0);
            cs_scores_sent.push(SCORES_UNSENT);
            viewer_match_cache.push(MAIN_MATCH);
            cs_players_base.push(Vec::new());
            c += 1;
        }
        TffaState {
            client_match,
            matches,
            player_score,
            cs_scores_sent,
            viewer_match_cache,
            cs_players_base,
            owned_count: 0,
            rebuilt_stamp: 0,
            frame_stamp: 0,
            intermission: false,
        }
    }
}

/// Whether `c` is a client slot number.
pub open spec fn valid_client(c: i32) -> bool {
    0 <= c < MAX_CLIENTS
}

pub open spec fn spec_client_match(state: &TffaState, client_num: i32) -> u8 {
    if valid_client(client_num) {
        state.client_match@[client_num as int]
    } else {
        MAIN_MATCH
    }
}

/// Match of a client (`0` = main TFFA); an out-of-range number is main.
pub fn client_match(state: &TffaState, client_num: i32) -> (r: u8)
    requires
        state.wf(),
    ensures
        r == spec_client_match(state, client_num),
        r < TOTAL_MATCH_SLOTS,
{
    if !(0 <= client_num && client_num < MAX_CLIENTS as i32) {
        return MAIN_MATCH;
    }
    state.client_match[client_num as usize]
}

/// What a viewer sees: the followed player's match when spectating one
/// (`follow_target`, a live client slot), else the viewer's own match;
/// main for an out-of-range viewer.
pub open spec fn spec_effective_match(state: &TffaState, viewer: i32, follow_target: Option<i32>) -> u8 {
    if !valid_client(viewer) {
        MAIN_MATCH
    } else {
        match follow_target {
            Some(t) => spec_client_match(state, t),
            None => state.client_match@[viewer as int],
        }
    }
}

pub fn effective_match(state: &TffaState, viewer: i32, follow_target: Option<i32>) -> (r: u8)
    requires
        state.wf(),
    ensures
        r == spec_effective_match(state, viewer, follow_target),
        r < TOTAL_MATCH_SLOTS,
{
    if !(0 <= viewer && viewer < MAX_CLIENTS as i32) {
        return MAIN_MATCH;
    }
    match follow_target {
        Some(t) => client_match(state, t),
        None => state.client_match[viewer as usize],
    }
}

/// Rewrite a `scores ...` server command for a viewer of `viewer_match`:
/// unified roster, the header from that match's tallies, every score the
/// per-match copy. `None` when the text is not a parsable scores command.
pub fn rewrite_scores_for_viewer(state: &TffaState, text: &str, viewer_match: u8) -> (r: Option<
    Vec<u8>,
>)
    requires
        state.wf(),
        viewer_match < TOTAL_MATCH_SLOTS,
    ensures
        match spec_scores_numbers(text.spec_bytes()) {
            None => r is None,
            Some(nums) => r is Some && r->0@ == spec_filter_scores(
                state.matches@[viewer_match as int].red,
                state.matches@[viewer_match as int].blue,
                state.player_score@,
                nums.subrange(3, nums.len() as int),
            ),
        },
{
    let nums = match scores_numbers(text) {
        None => {
            return None;
        },
        Some(n) => n,
    };
    let entries = vstd::slice::slice_subrange(nums.as_slice(), 3, nums.len());
    let m = state.matches[viewer_match as usize];
    Some(filter_scores(m.red, m.blue, state.player_score.as_slice(), entries))
}

/// A new round: match tallies and per-player copies go to zero, created
/// matches close, the main slot reopens, the score dedup is re-armed and
/// fraglimit handling runs again. Client assignments are kept.
pub fn reset_round(state: &mut TffaState)
    requires
        old(state).wf(),
    ensures
        final(state).wf(),
        final(state).client_match@ == old(state).client_match@,
        forall|i: int|
            0 <= i < TOTAL_MATCH_SLOTS ==> final(state).matches@[i] == (MatchSlot {
                red: 0,
                blue: 0,
                active: i == MAIN_MATCH,
            }),
        forall|i: int| 0 <= i < MAX_CLIENTS ==> final(state).player_score@[i] == 0,
        forall|i: int| 0 <= i < MAX_CLIENTS ==> final(state).cs_scores_sent@[i] == SCORES_UNSENT,
        final(state).viewer_match_cache@ == old(state).viewer_match_cache@,
        final(state).cs_players_base@ == old(state).cs_players_base@,
        final(state).owned_count == 0,
        final(state).rebuilt_stamp == 0,
        final(state).frame_stamp == old(state).frame_stamp,
        !final(state).intermission,
{
    let mut i: usize = 0;
    while i < TOTAL_MATCH_SLOTS
        invariant
            i <= TOTAL_MATCH_SLOTS,
            state.matches@.len() == TOTAL_MATCH_SLOTS,
            state.client_match == old(state).client_match,
            state.player_score == old(state).player_score,
            state.cs_scores_sent == old(state).cs_scores_sent,
            state.viewer_match_cache == old(state).viewer_match_cache,
            state.cs_players_base == old(state).cs_players_base,
            state.frame_stamp == old(state).frame_stamp,
            old(state).wf(),
            forall|j: int|
                0 <= j < i ==> state.matches@[j] == (MatchSlot {
                    red: 0,
                    blue: 0,
                    active: j == MAIN_MATCH,
                }),
        decreases TOTAL_MATCH_SLOTS - i,
    {
        state.matches.set(i, MatchSlot { red: 0, blue: 0, active: i == 0 });
        i += 1;
    }
    let mut c: usize = 0;
    while c < MAX_CLIENTS
        invariant
            c <= MAX_CLIENTS,
            state.player_score@.len() == MAX_CLIENTS,
            state.cs_scores_sent@.len() == MAX_CLIENTS,
            state.client_match == old(state).client_match,
            state.viewer_match_cache == old(state).viewer_match_cache,
            state.cs_players_base == old(state).cs_players_base,
            state.frame_stamp == old(state).frame_stamp,
            old(state).wf(),
            forall|j: int|
                0 <= j < TOTAL_MATCH_SLOTS ==> state.matches@[j] == (MatchSlot {
                    red: 0,
                    blue: 0,
                    active: j == MAIN_MATCH,
                }),
            state.matches@.len() == TOTAL_MATCH_SLOTS,
            forall|j: int| 0 <= j < c ==> state.player_score@[j] == 0,
            forall|j: int| 0 <= j < c ==> state.cs_scores_sent@[j] == SCORES_UNSENT,
        decreases MAX_CLIENTS - c,
    {
        state.player_score.set(c, 0);
        state.cs_scores_sent.set(c, SCORES_UNSENT);
        c += 1;
    }
    state.owned_count = 0;
    state.rebuilt_stamp = 0;
    state.intermission = false;
}

/// Forget a client slot: back to main, score copy zero, no base string,
/// score dedup re-armed, viewer cache main.
fn clear_client(state: &mut TffaState, c: usize)
    requires
        old(state).wf(),
        c < MAX_CLIENTS,
    ensures
        final(state).wf(),
        final(state).client_match@ == old(state).client_match@.update(c as int, MAIN_MATCH),
        final(state).player_score@ == old(state).player_score@.update(c as int, 0),
        final(state).cs_players_base@[c as int]@ == Seq::<u8>::empty(),
        forall|i: int|
            0 <= i < MAX_CLIENTS && i != c ==> final(state).cs_players_base@[i] == old(state).cs_players_base@[i],
        final(state).cs_scores_sent@ == old(state).cs_scores_sent@.update(c as int, SCORES_UNSENT),
        final(state).viewer_match_cache@ == old(state).viewer_match_cache@.update(
            c as int,
            MAIN_MATCH,
        ),
        final(state).matches@ == old(state).matches@,
        final(state).intermission == old(state).intermission,
        final(state).frame_stamp == old(state).frame_stamp,
{
    state.client_match.set(c, MAIN_MATCH);
    state.player_score.set(c, 0);
    state.cs_players_base.set(c, Vec::new());
    state.cs_scores_sent.set(c, SCORES_UNSENT);
    state.viewer_match_cache.set(c, MAIN_MATCH);
}

/// A first-time connect starts the slot from scratch (it may have been used
/// by a different player before); a reconnect keeps it.
pub fn on_client_connect(state: &mut TffaState, client_num: i32, first_time: bool)
    requires
        old(state).wf(),
    ensures
        final(state).wf(),
        !(first_time && valid_client(client_num)) ==> final(state).client_match@ == old(state).client_match@ && final(state).player_score@ == old(state).player_score@,
        first_time && valid_client(client_num) ==> final(state).client_match@ == old(state).client_match@.update(client_num as int, MAIN_MATCH) && final(state).player_score@ == old(state).player_score@.update(client_num as int, 0) && final(state).cs_players_base@[client_num as int]@
            == Seq::<u8>::empty(),
        final(state).matches@ == old(state).matches@,
{
    if !first_time || !(0 <= client_num && client_num < MAX_CLIENTS as i32) {
        return;
    }
    clear_client(state, client_num as usize);
}

/// A disconnecting client's slot is cleared. Returns whether it was a
/// client slot (the other viewers' views of it then get cleared too).
pub fn on_client_disconnect(state: &mut TffaState, client_num: i32) -> (r: bool)
    requires
        old(state).wf(),
    ensures
        final(state).wf(),
        r == valid_client(client_num),
        !r ==> final(state).client_match@ == old(state).client_match@,
        r ==> final(state).client_match@ == old(state).client_match@.update(
            client_num as int,
            MAIN_MATCH,
        ) && final(state).player_score@ == old(state).player_score@.update(client_num as int, 0)
            && final(state).cs_players_base@[client_num as int]@ == Seq::<u8>::empty(),
        final(state).matches@ == old(state).matches@,
{
    if !(0 <= client_num && client_num < MAX_CLIENTS as i32) {
        return false;
    }
    clear_client(state, client_num as usize);
    true
}

/// Bump the frame stamp so the owned-entity cache is rebuilt once per game
/// frame.
pub fn on_frame_start(state: &mut TffaState)
    ensures
        final(state).frame_stamp == (if old(state).frame_stamp == u32::MAX {
            0
        } else {
            old(state).frame_stamp + 1
        }),
        final(state).client_match == old(state).client_match,
        final(state).matches == old(state).matches,
        final(state).player_score == old(state).player_score,
        final(state).rebuilt_stamp == old(state).rebuilt_stamp,
        final(state).intermission == old(state).intermission,
{
    state.frame_stamp = state.frame_stamp.wrapping_add(1);
}

/// `AddScore` accounting: a non-zero red or blue score goes to the
/// scorer's match tally and per-player copy (wrapping like the game's int
/// arithmetic). Nothing is counted while the feature is off or while the
/// game runs its own unpenalised team-change suicides. Returns whether the
/// score was counted (the global team score then has to be neutralised).
pub fn on_add_score(
    state: &mut TffaState,
    enabled: bool,
    dont_penalize: bool,
    client_num: i32,
    team: i32,
    score: i32,
) -> (counted: bool)
    requires
        old(state).wf(),
    ensures
        final(state).wf(),
        counted == (enabled && score != 0 && (team == TEAM_RED || team == TEAM_BLUE)
            && !dont_penalize),
        final(state).client_match@ == old(state).client_match@,
        !counted ==> final(state).matches@ == old(state).matches@ && final(state).player_score@
            == old(state).player_score@,
        counted ==> ({
            let mid = spec_client_match(&*old(state), client_num) as int;
            let m = old(state).matches@[mid];
            final(state).matches@ == old(state).matches@.update(
                mid,
                if team == TEAM_RED {
                    MatchSlot { red: m.red.wrapping_add(score), ..m }
                } else {
                    MatchSlot { blue: m.blue.wrapping_add(score), ..m }
                },
            ) && final(state).player_score@ == (if valid_client(client_num) {
                old(state).player_score@.update(
                    client_num as int,
                    old(state).player_score@[client_num as int].wrapping_add(score),
                )
            } else {
                old(state).player_score@
            })
        }),
{
    if !enabled || score == 0 {
        return false;
    }
    if team != TEAM_RED && team != TEAM_BLUE {
        return false;
    }
    if dont_penalize {
        return false;
    }
    let mid = client_match(state, client_num) as usize;
    let mut m = state.matches[mid];
    if team == TEAM_RED {
        m.red = m.red.wrapping_add(score);
    } else {
        m.blue = m.blue.wrapping_add(score);
    }
    state.matches.set(mid, m);
    if 0 <= client_num && client_num < MAX_CLIENTS as i32 {
        let c = client_num as usize;
        let v = state.player_score[c].wrapping_add(score);
        state.player_score.set(c, v);
    }
    true
}

/// Record a score pair about to be pushed to a viewer's HUD; `false` (no
/// push) when the viewer is out of range or already shows that pair.
pub fn note_scores_sent(state: &mut TffaState, viewer: i32, red: i32, blue: i32) -> (push: bool)
    requires
        old(state).wf(),
    ensures
        final(state).wf(),
        push == (valid_client(viewer) && old(state).cs_scores_sent@[viewer as int] != (red, blue)),
        push ==> final(state).cs_scores_sent@ == old(state).cs_scores_sent@.update(
            viewer as int,
            (red, blue),
        ),
        !push ==> final(state).cs_scores_sent@ == old(state).cs_scores_sent@,
        final(state).client_match@ == old(state).client_match@,
        final(state).matches@ == old(state).matches@,
        final(state).player_score@ == old(state).player_score@,
{
    if !(0 <= viewer && viewer < MAX_CLIENTS as i32) {
        return false;
    }
    let v = viewer as usize;
    let (r, b) = state.cs_scores_sent[v];
    if r == red && b == blue {
        return false;
    }
    state.cs_scores_sent.set(v, (red, blue));
    true
}

/// A viewer was just sent every override for `viewer_match`: record the
/// match and its score pair as shown, and return that pair.
pub fn mark_viewer_refreshed(state: &mut TffaState, client_num: i32, viewer_match: u8) -> (r: (
    i32,
    i32,
))
    requires
        old(state).wf(),
        viewer_match < TOTAL_MATCH_SLOTS,
    ensures
        final(state).wf(),
        r == (old(state).matches@[viewer_match as int].red, old(state).matches@[viewer_match as int].blue),
        valid_client(client_num) ==> final(state).cs_scores_sent@ == old(state).cs_scores_sent@.update(client_num as int, r) && final(state).viewer_match_cache@ == old(state).viewer_match_cache@.update(client_num as int, viewer_match),
        !valid_client(client_num) ==> final(state).cs_scores_sent@ == old(state).cs_scores_sent@
            && final(state).viewer_match_cache@ == old(state).viewer_match_cache@,
        final(state).client_match@ == old(state).client_match@,
        final(state).matches@ == old(state).matches@,
        final(state).player_score@ == old(state).player_score@,
{
    let m = state.matches[viewer_match as usize];
    if 0 <= client_num && client_num < MAX_CLIENTS as i32 {
        state.cs_scores_sent.set(client_num as usize, (m.red, m.blue));
        state.viewer_match_cache.set(client_num as usize, viewer_match);
    }
    (m.red, m.blue)
}

/// `proxy_tffa_maxMatches` as used: clamped to `1..=MAX_MATCHES` (a
/// negative value reads as a huge count, i.e. the maximum).
pub open spec fn spec_max_matches(v: i32) -> usize {
    if v < 0 || v > MAX_MATCHES {
        MAX_MATCHES
    } else if v < 1 {
        1
    } else {
        v as usize
    }
}

pub fn max_matches(v: i32) -> (r: usize)
    ensures
        r == spec_max_matches(v),
{
    if v < 0 || v > MAX_MATCHES as i32 {
        MAX_MATCHES
    } else if v < 1 {
        1
    } else {
        v as usize
    }
}

/// `proxy_tffa_maxGroupSize` as used: clamped to `2..=MAX_CLIENTS` (a
/// negative value reads as the maximum).
pub open spec fn spec_max_group_size(v: i32) -> usize {
    if v < 0 || v > MAX_CLIENTS {
        MAX_CLIENTS
    } else if v < 2 {
        2
    } else {
        v as usize
    }
}

pub fn max_group_size(v: i32) -> (r: usize)
    ensures
        r == spec_max_group_size(v),
{
    if v < 0 || v > MAX_CLIENTS as i32 {
        MAX_CLIENTS
    } else if v < 2 {
        2
    } else {
        v as usize
    }
}

/// Number of entries of `s` equal to `id`.
pub open spec fn count_of(s: Seq<u8>, id: u8) -> nat
    decreases s.len(),
{
    if s.len() == 0 {
        0
    } else {
        count_of(s.drop_last(), id) + if s.last() == id {
            1nat
        } else {
            0nat
        }
    }
}

proof fn lemma_count_of_bound(s: Seq<u8>, id: u8)
    ensures
        count_of(s, id) <= s.len(),
    decreases s.len(),
{
    if s.len() > 0 {
        lemma_count_of_bound(s.drop_last(), id);
    }
}

/// Number of client slots assigned to a match (free slots count for the
/// main match).
pub fn match_size(state: &TffaState, match_id: u8) -> (r: usize)
    requires
        state.wf(),
    ensures
        r == count_of(state.client_match@, match_id),
        r <= MAX_CLIENTS,
{
    let mut n: usize = 0;
    let mut i: usize = 0;
    while i < MAX_CLIENTS
        invariant
            state.client_match@.len() == MAX_CLIENTS,
            i <= MAX_CLIENTS,
            n == count_of(state.client_match@.subrange(0, i as int), match_id),
        decreases MAX_CLIENTS - i,
    {
        proof {
            lemma_count_of_bound(state.client_match@.subrange(0, i as int), match_id);
            assert(state.client_match@.subrange(0, i + 1).drop_last() =~= state.client_match@.subrange(
                0,
                i as int,
            ));
        }
        if state.client_match[i] == match_id {
            n += 1;
        }
        i += 1;
    }
    assert(state.client_match@.subrange(0, MAX_CLIENTS as int) =~= state.client_match@);
    proof {
        lemma_count_of_bound(state.client_match@, match_id);
    }
    n
}

/// Back to the main match with a fresh score copy.
pub fn leave_match(state: &mut TffaState, client_num: i32)
    requires
        old(state).wf(),
        valid_client(client_num),
    ensures
        final(state).wf(),
        final(state).client_match@ == old(state).client_match@.update(client_num as int, MAIN_MATCH),
        final(state).player_score@ == old(state).player_score@.update(client_num as int, 0),
        final(state).matches@ == old(state).matches@,
        final(state).cs_players_base@ == old(state).cs_players_base@,
        final(state).viewer_match_cache@ == old(state).viewer_match_cache@,
        final(state).cs_scores_sent@ == old(state).cs_scores_sent@,
{
    state.client_match.set(client_num as usize, MAIN_MATCH);
    state.player_score.set(client_num as usize, 0);
}

/// A created slot can be opened: it is closed and nobody is assigned to it.
pub open spec fn slot_free(cm: Seq<u8>, matches: Seq<MatchSlot>, i: int) -> bool {
    !matches[i].active && forall|j: int| 0 <= j < cm.len() ==> cm[j] != i
}

/// The first free created slot from `i` on, below `max`; 0 when none.
pub open spec fn first_free(cm: Seq<u8>, matches: Seq<MatchSlot>, max: usize, i: int) -> int
    decreases TOTAL_MATCH_SLOTS - i,
{
    if i < 1 || i >= TOTAL_MATCH_SLOTS || i >= max {
        0
    } else if slot_free(cm, matches, i) {
        i
    } else {
        first_free(cm, matches, max, i + 1)
    }
}

proof fn lemma_first_free(cm: Seq<u8>, matches: Seq<MatchSlot>, max: usize, i: int)
    ensures
        first_free(cm, matches, max, i) == 0 || (i <= first_free(cm, matches, max, i)
            < TOTAL_MATCH_SLOTS && first_free(cm, matches, max, i) < max && slot_free(
            cm,
            matches,
            first_free(cm, matches, max, i),
        )),
    decreases TOTAL_MATCH_SLOTS - i,
{
    if !(i < 1 || i >= TOTAL_MATCH_SLOTS || i >= max) && !slot_free(cm, matches, i) {
        lemma_first_free(cm, matches, max, i + 1);
    }
}

/// `tffa_create` for a client (already checked to be a spectator): leave
/// the current match, then open the first free created slot below `max`
/// (a closed slot nobody is assigned to) with zero tallies and put the
/// client in it. Returns the new match id, or 0 when no slot is free.
pub fn create_match(state: &mut TffaState, client_num: i32, max: usize) -> (id: u8)
    requires
        old(state).wf(),
        valid_client(client_num),
    ensures
        final(state).wf(),
        ({
            let cm = old(state).client_match@.update(client_num as int, MAIN_MATCH);
            let ps = old(state).player_score@.update(client_num as int, 0);
            let f = first_free(cm, old(state).matches@, max, 1);
            &&& id == f
            &&& f == 0 ==> final(state).client_match@ == cm && final(state).player_score@ == ps
                && final(state).matches@ == old(state).matches@
            &&& f != 0 ==> final(state).client_match@ == cm.update(client_num as int, f as u8)
                && final(state).player_score@ == ps && final(state).matches@ == old(state).matches@.update(f, MatchSlot { red: 0, blue: 0, active: true })
        }),
        final(state).cs_players_base@ == old(state).cs_players_base@,
{
    leave_match(state, client_num);
    let ghost cm = state.client_match@;
    let mut id: usize = 0;
    let mut i: usize = 1;
    while i < TOTAL_MATCH_SLOTS
        invariant_except_break
            id == 0,
        invariant
            state.wf(),
            state.client_match@ == cm,
            state.matches@ == old(state).matches@,
            1 <= i <= TOTAL_MATCH_SLOTS,
            first_free(cm, state.matches@, max, 1) == first_free(cm, state.matches@, max, i as int),
        ensures
            state.wf(),
            state.client_match@ == cm,
            state.matches@ == old(state).matches@,
            id == first_free(cm, state.matches@, max, 1),
        decreases TOTAL_MATCH_SLOTS - i,
    {
        if i >= max {
            break;
        }
        let m = state.matches[i];
        let mut used = false;
        let mut c: usize = 0;
        while c < MAX_CLIENTS
            invariant
                state.client_match@ == cm,
                cm.len() == MAX_CLIENTS,
                c <= MAX_CLIENTS,
                i < TOTAL_MATCH_SLOTS,
                used == exists|j: int| 0 <= j < c && cm[j] == i,
            decreases MAX_CLIENTS - c,
        {
            if state.client_match[c] as usize == i {
                used = true;
            }
            c += 1;
        }
        if !m.active && !used {
            assert(slot_free(cm, state.matches@, i as int));
            id = i;
            break;
        }
        i += 1;
    }
    proof {
        lemma_first_free(cm, old(state).matches@, max, 1);
    }
    if id != 0 {
        state.matches.set(id, MatchSlot { red: 0, blue: 0, active: true });
        state.client_match.set(client_num as usize, id as u8);
    }
    id as u8
}

/// The answer to `tffa_join <id>`.
#[derive(Debug, Clone, Copy, PartialEq, Eq, Structural)]
pub enum JoinOutcome {
    /// The id is not a created match the server allows.
    Usage,
    /// That match is not open.
    Inactive,
    /// That match already has the group size.
    Full,
    /// The client is in the match; `moved` when it came from another one.
    Joined { moved: bool },
}

pub open spec fn spec_join_outcome(state: &TffaState, client_num: i32, id: i32, max: usize, group: usize) -> JoinOutcome {
    if !(1 <= id <= MAX_MATCHES) || id > max {
        JoinOutcome::Usage
    } else if !state.matches@[id as int].active {
        JoinOutcome::Inactive
    } else if count_of(state.client_match@, id as u8) >= group {
        JoinOutcome::Full
    } else {
        JoinOutcome::Joined { moved: state.client_match@[client_num as int] != id }
    }
}

/// `tffa_join <id>` for a client (already checked to be a spectator): the
/// id must name an open created match within `max`, with fewer than
/// `group` clients; a client from another match moves there with a fresh
/// score copy.
pub fn join_match(state: &mut TffaState, client_num: i32, id: i32, max: usize, group: usize) -> (r:
    JoinOutcome)
    requires
        old(state).wf(),
        valid_client(client_num),
    ensures
        final(state).wf(),
        r == spec_join_outcome(&*old(state), client_num, id, max, group),
        r == (JoinOutcome::Joined { moved: true }) ==> final(state).client_match@ == old(state).client_match@.update(client_num as int, id as u8) && final(state).player_score@ == old(state).player_score@.update(client_num as int, 0),
        r != (JoinOutcome::Joined { moved: true }) ==> final(state).client_match@ == old(state).client_match@ && final(state).player_score@ == old(state).player_score@,
        final(state).matches@ == old(state).matches@,
        final(state).cs_players_base@ == old(state).cs_players_base@,
{
    if !(1 <= id && id <= MAX_MATCHES as i32) || id as usize > max {
        return JoinOutcome::Usage;
    }
    let mid = id as u8;
    if !state.matches[id as usize].active {
        return JoinOutcome::Inactive;
    }
    if match_size(state, mid) >= group {
        return JoinOutcome::Full;
    }
    let old = state.client_match[client_num as usize];
    if old != mid {
        leave_match(state, client_num);
        state.client_match.set(client_num as usize, mid);
        return JoinOutcome::Joined { moved: true };
    }
    JoinOutcome::Joined { moved: false }
}

// ---------------------------------------------------------------------------
// Finishing matches
// ---------------------------------------------------------------------------

/// A match that hit the fraglimit this frame, with its final tallies.
#[derive(Debug, Clone, Copy, PartialEq, Eq, Structural)]
pub struct Finished {
    pub id: u8,
    pub red: i32,
    pub blue: i32,
}

/// The active matches at the fraglimit, in id order.
pub open spec fn finished_from(matches: Seq<MatchSlot>, fraglimit: i32, i: int) -> Seq<Finished>
    decreases matches.len() - i,
{
    if i < 0 || i >= matches.len() {
        Seq::empty()
    } else {
        let m = matches[i];
        let rest = finished_from(matches, fraglimit, i + 1);
        if m.active && spec_fraglimit_hit(m.red, m.blue, fraglimit) {
            seq![Finished { id: i as u8, red: m.red, blue: m.blue }] + rest
        } else {
            rest
        }
    }
}

/// `matches` with every finished created match closed and zeroed (the main
/// match keeps its final tallies).
pub open spec fn close_finished(matches: Seq<MatchSlot>, fraglimit: i32) -> Seq<MatchSlot> {
    Seq::new(
        matches.len(),
        |i: int|
            if i != MAIN_MATCH && matches[i].active && spec_fraglimit_hit(
                matches[i].red,
                matches[i].blue,
                fraglimit,
            ) {
                MatchSlot { red: 0, blue: 0, active: false }
            } else {
                matches[i]
            },
    )
}

/// Per frame: the matches that hit the shared fraglimit (none while an
/// intermission runs or without a positive fraglimit), in id order, with
/// the created ones among them closed and zeroed.
pub fn collect_finished(state: &mut TffaState, fraglimit: i32) -> (r: Vec<Finished>)
    requires
        old(state).wf(),
    ensures
        final(state).wf(),
        old(state).intermission || fraglimit <= 0 ==> r@.len() == 0 && final(state).matches@ == old(state).matches@,
        !(old(state).intermission || fraglimit <= 0) ==> r@ == finished_from(
            old(state).matches@,
            fraglimit,
            0,
        ) && final(state).matches@ == close_finished(old(state).matches@, fraglimit),
        final(state).client_match@ == old(state).client_match@,
        final(state).player_score@ == old(state).player_score@,
        final(state).cs_players_base@ == old(state).cs_players_base@,
        final(state).intermission == old(state).intermission,
{
    let mut out: Vec<Finished> = Vec::new();
    if state.intermission || fraglimit <= 0 {
        return out;
    }
    let ghost ms = state.matches@;
    let mut i: usize = TOTAL_MATCH_SLOTS;
    while i > 0
        invariant
            i <= TOTAL_MATCH_SLOTS,
            ms == old(state).matches@,
            ms.len() == TOTAL_MATCH_SLOTS,
            state.wf(),
            state.client_match@ == old(state).client_match@,
            state.player_score@ == old(state).player_score@,
            state.cs_players_base@ == old(state).cs_players_base@,
            state.intermission == old(state).intermission,
            out@ == finished_from(ms, fraglimit, i as int),
            forall|j: int| 0 <= j < i ==> state.matches@[j] == ms[j],
            forall|j: int|
                i <= j < TOTAL_MATCH_SLOTS ==> state.matches@[j] == close_finished(ms, fraglimit)[j],
        decreases i,
    {
        i -= 1;
        let m = state.matches[i];
        if m.active && fraglimit_hit(m.red, m.blue, fraglimit) {
            let f = Finished { id: i as u8, red: m.red, blue: m.blue };
            let mut next: Vec<Finished> = Vec::new();
            next.push(f);
            let ghost rest = out@;
            next.append(&mut out);
            out = next;
            assert(out@ =~= seq![f] + rest);
            if i != 0 {
                state.matches.set(i, MatchSlot { red: 0, blue: 0, active: false });
            }
        }
    }
    assert(state.matches@ =~= close_finished(ms, fraglimit));
    out
}

/// The connected clients assigned to a match, by slot number.
pub open spec fn members_from(cm: Seq<u8>, connected: Seq<bool>, id: u8, i: int) -> Seq<i32>
    decreases cm.len() - i,
{
    if i < 0 || i >= cm.len() {
        Seq::empty()
    } else if cm[i] == id && connected[i] {
        seq![i as i32] + members_from(cm, connected, id, i + 1)
    } else {
        members_from(cm, connected, id, i + 1)
    }
}

/// The connected members of a match (`connected`: one flag per client slot).
pub fn match_members(state: &TffaState, id: u8, connected: &[bool]) -> (r: Vec<i32>)
    requires
        state.wf(),
        connected@.len() == MAX_CLIENTS,
    ensures
        r@ == members_from(state.client_match@, connected@, id, 0),
{
    let mut out: Vec<i32> = Vec::new();
    let mut i: usize = MAX_CLIENTS;
    while i > 0
        invariant
            state.wf(),
            connected@.len() == MAX_CLIENTS,
            i <= MAX_CLIENTS,
            out@ == members_from(state.client_match@, connected@, id, i as int),
        decreases i,
    {
        i -= 1;
        if state.client_match[i] == id && connected[i] {
            let mut next: Vec<i32> = Vec::new();
            next.push(i as i32);
            let ghost rest = out@;
            next.append(&mut out);
            out = next;
            assert(out@ =~= seq![i as i32] + rest);
        }
    }
    out
}

/// The connected members of match `id` go back to the main match with a
/// fresh score copy; returns the members that came from a created match
/// (their views and stats start over).
pub fn move_match_to_main(state: &mut TffaState, id: u8, connected: &[bool]) -> (moved: Vec<i32>)
    requires
        old(state).wf(),
        connected@.len() == MAX_CLIENTS,
    ensures
        final(state).wf(),
        forall|i: int|
            0 <= i < MAX_CLIENTS ==> final(state).client_match@[i] == (if old(state).client_match@[i] == id && connected@[i] {
                MAIN_MATCH
            } else {
                old(state).client_match@[i]
            }),
        forall|i: int|
            0 <= i < MAX_CLIENTS ==> final(state).player_score@[i] == (if old(state).client_match@[i] == id && connected@[i] {
                0
            } else {
                old(state).player_score@[i]
            }),
        moved@ == (if id == MAIN_MATCH {
            Seq::empty()
        } else {
            members_from(old(state).client_match@, connected@, id, 0)
        }),
        final(state).matches@ == old(state).matches@,
        final(state).cs_players_base@ == old(state).cs_players_base@,
{
    let members = match_members(state, id, connected);
    let ghost cm_old = state.client_match@;
    let ghost ps_old = state.player_score@;
    let mut i: usize = 0;
    while i < MAX_CLIENTS
        invariant
            state.wf(),
            cm_old == old(state).client_match@,
            ps_old == old(state).player_score@,
            cm_old.len() == MAX_CLIENTS,
            ps_old.len() == MAX_CLIENTS,
            connected@.len() == MAX_CLIENTS,
            i <= MAX_CLIENTS,
            state.matches@ == old(state).matches@,
            state.cs_players_base@ == old(state).cs_players_base@,
            forall|j: int|
                0 <= j < i ==> state.client_match@[j] == (if cm_old[j] == id && connected@[j] {
                    MAIN_MATCH
                } else {
                    cm_old[j]
                }),
            forall|j: int|
                #![trigger state.player_score@[j]]
                0 <= j < i ==> state.player_score@[j] == (if cm_old[j] == id && connected@[j] {
                    0i32
                } else {
                    ps_old[j]
                }),
            forall|j: int| i <= j < MAX_CLIENTS ==> state.client_match@[j] == cm_old[j],
            forall|j: int| i <= j < MAX_CLIENTS ==> state.player_score@[j] == ps_old[j],
        decreases MAX_CLIENTS - i,
    {
        let ghost ps0 = state.player_score@;
        if state.client_match[i] == id && connected[i] {
            state.client_match.set(i, MAIN_MATCH);
            state.player_score.set(i, 0);
        }
        assert forall|j: int|
            #![trigger state.player_score@[j]]
            0 <= j < i + 1 implies state.player_score@[j] == (if cm_old[j] == id && connected@[j] {
            0i32
        } else {
            ps_old[j]
        }) by {
            if j < i {
                assert(state.player_score@[j] == ps0[j]);
            }
        }
        i += 1;
    }
    if id == MAIN_MATCH {
        Vec::new()
    } else {
        members
    }
}

/// The first created match within `max` that is still played (open, with
/// a connected member), the candidate to become the new main.
pub open spec fn candidate_from(state: &TffaState, connected: Seq<bool>, max: usize, i: int) -> Option<u8>
    decreases TOTAL_MATCH_SLOTS - i,
{
    if i < 1 || i > max || i >= TOTAL_MATCH_SLOTS {
        None
    } else if state.matches@[i].active && members_from(state.client_match@, connected, i as u8, 0).len() > 0 {
        Some(i as u8)
    } else {
        candidate_from(state, connected, max, i + 1)
    }
}

pub fn new_main_candidate(state: &TffaState, connected: &[bool], max: usize) -> (r: Option<u8>)
    requires
        state.wf(),
        connected@.len() == MAX_CLIENTS,
    ensures
        r == candidate_from(state, connected@, max, 1),
{
    let mut i: usize = 1;
    while i < TOTAL_MATCH_SLOTS
        invariant
            state.wf(),
            connected@.len() == MAX_CLIENTS,
            1 <= i <= TOTAL_MATCH_SLOTS,
            candidate_from(state, connected@, max, 1) == candidate_from(state, connected@, max, i as int),
        decreases TOTAL_MATCH_SLOTS - i,
    {
        if i > max {
            return None;
        }
        if state.matches[i].active {
            let members = match_members(state, i as u8, connected);
            if members.len() > 0 {
                return Some(i as u8);
            }
        }
        i += 1;
    }
    None
}

proof fn lemma_candidate_range(state: &TffaState, connected: Seq<bool>, max: usize, i: int)
    ensures
        candidate_from(state, connected, max, i) matches Some(id) ==> 1 <= id < TOTAL_MATCH_SLOTS
            && i <= id,
    decreases TOTAL_MATCH_SLOTS - i,
{
    if !(i < 1 || i > max || i >= TOTAL_MATCH_SLOTS) {
        lemma_candidate_range(state, connected, max, i + 1);
    }
}

/// What becomes of the main match at a frame's finish.
#[derive(Debug, Clone, Copy, PartialEq, Eq, Structural)]
pub enum MainEnd {
    /// It did not finish.
    Continues,
    /// It finished with nobody in it: its lead is dropped silently.
    DropLead,
    /// It finished and created match `id` (tallies `red`-`blue`) becomes
    /// the new main match.
    Promote { id: u8, red: i32, blue: i32 },
    /// It finished with no other match in play: the map ends on the final
    /// scoreboard.
    EndMap,
}

/// A finished match with its connected members.
#[derive(Debug)]
pub struct MatchEnd {
    pub result: Finished,
    pub members: Vec<i32>,
}

/// The frame's finish sequence: the created matches to announce, stat and
/// send back (in id order), then the main match's end.
#[derive(Debug)]
pub struct FinishPlan {
    pub created: Vec<MatchEnd>,
    pub main: Option<MatchEnd>,
    pub main_end: MainEnd,
}

pub open spec fn ends_view(v: Seq<MatchEnd>) -> Seq<(Finished, Seq<i32>)> {
    v.map_values(|e: MatchEnd| (e.result, e.members@))
}

/// The finished created matches that still have connected members, with
/// those members, in order.
pub open spec fn created_ends(cm: Seq<u8>, connected: Seq<bool>, finished: Seq<Finished>) -> Seq<
    (Finished, Seq<i32>),
>
    decreases finished.len(),
{
    if finished.len() == 0 {
        Seq::empty()
    } else {
        let prev = created_ends(cm, connected, finished.drop_last());
        let f = finished.last();
        let members = members_from(cm, connected, f.id, 0);
        if f.id != MAIN_MATCH && members.len() > 0 {
            prev.push((f, members))
        } else {
            prev
        }
    }
}

/// The main match's result among the finished, if it finished.
pub open spec fn main_result(finished: Seq<Finished>) -> Option<Finished>
    decreases finished.len(),
{
    if finished.len() == 0 {
        None
    } else {
        match main_result(finished.drop_last()) {
            Some(f) => Some(f),
            None => if finished.last().id == MAIN_MATCH {
                Some(finished.last())
            } else {
                None
            },
        }
    }
}

/// The main match's end: dropped lead without members, else promotion of
/// the first created match still in play (within `max`), else the end of
/// the map.
pub open spec fn spec_main_end(state: &TffaState, connected: Seq<bool>, max: usize, finished: Seq<Finished>) -> MainEnd {
    match main_result(finished) {
        None => MainEnd::Continues,
        Some(_) => if members_from(state.client_match@, connected, MAIN_MATCH, 0).len() == 0 {
            MainEnd::DropLead
        } else {
            match candidate_from(state, connected, max, 1) {
                Some(id) => MainEnd::Promote {
                    id,
                    red: state.matches@[id as int].red,
                    blue: state.matches@[id as int].blue,
                },
                None => MainEnd::EndMap,
            }
        },
    }
}

/// Plan the finish of the matches that hit the fraglimit this frame (the
/// state as `collect_finished` left it): each finished created match with
/// members is announced, its stats printed and its members sent back; then
/// the main match, when it finished, drops its lead if empty, or hands over
/// to the first created match still in play, or ends the map.
pub fn plan_finishes(state: &TffaState, finished: &[Finished], connected: &[bool], max: usize) -> (r:
    FinishPlan)
    requires
        state.wf(),
        connected@.len() == MAX_CLIENTS,
    ensures
        ends_view(r.created@) == created_ends(state.client_match@, connected@, finished@),
        r.main_end == spec_main_end(state, connected@, max, finished@),
        main_result(finished@) is None ==> r.main is None,
        main_result(finished@) matches Some(f) ==> r.main is Some && r.main->0.result == f
            && r.main->0.members@ == members_from(state.client_match@, connected@, MAIN_MATCH, 0),
{
    let mut created: Vec<MatchEnd> = Vec::new();
    let mut main: Option<MatchEnd> = None;
    let mut i: usize = 0;
    while i < finished.len()
        invariant
            state.wf(),
            connected@.len() == MAX_CLIENTS,
            i <= finished@.len(),
            ends_view(created@) == created_ends(state.client_match@, connected@, finished@.subrange(0, i as int)),
            main_result(finished@.subrange(0, i as int)) is None ==> main is None,
            main_result(finished@.subrange(0, i as int)) matches Some(f) ==> main is Some
                && main->0.result == f && main->0.members@ == members_from(
                state.client_match@,
                connected@,
                MAIN_MATCH,
                0,
            ),
        decreases finished@.len() - i,
    {
        let f = finished[i];
        let members = match_members(state, f.id, connected);
        let ghost prefix = finished@.subrange(0, i + 1);
        assert(prefix.drop_last() =~= finished@.subrange(0, i as int));
        assert(prefix.last() == f);
        if f.id != MAIN_MATCH {
            if members.len() > 0 {
                let ghost before = created@;
                created.push(MatchEnd { result: f, members });
                assert(ends_view(created@) =~= ends_view(before).push((f, created@.last().members@)));
            }
        } else if main.is_none() {
            main = Some(MatchEnd { result: f, members });
        }
        i += 1;
    }
    assert(finished@.subrange(0, finished@.len() as int) =~= finished@);
    let main_end = match &main {
        None => MainEnd::Continues,
        Some(end) => {
            if end.members.len() == 0 {
                MainEnd::DropLead
            } else {
                match new_main_candidate(state, connected, max) {
                    Some(id) => {
                        proof {
                            lemma_candidate_range(state, connected@, max, 1);
                        }
                        MainEnd::Promote {
                            id,
                            red: state.matches[id as usize].red,
                            blue: state.matches[id as usize].blue,
                        }
                    },
                    None => MainEnd::EndMap,
                }
            }
        },
    };
    FinishPlan { created, main, main_end }
}

/// The main match finished with nobody in it: its tallies go back to zero
/// so the stale lead cannot finish it again every frame; nothing else
/// changes.
pub fn drop_empty_main_lead(state: &mut TffaState)
    requires
        old(state).wf(),
    ensures
        final(state).wf(),
        final(state).matches@ == old(state).matches@.update(
            MAIN_MATCH as int,
            MatchSlot { red: 0, blue: 0, active: old(state).matches@[MAIN_MATCH as int].active },
        ),
        final(state).client_match@ == old(state).client_match@,
        final(state).player_score@ == old(state).player_score@,
        final(state).cs_players_base@ == old(state).cs_players_base@,
        final(state).intermission == old(state).intermission,
{
    let active = state.matches[0].active;
    state.matches.set(0, MatchSlot { red: 0, blue: 0, active });
}

/// The candidate match becomes the main one: its tallies move into the
/// main slot, its own slot closes, its connected members join the main
/// match (their score copies are kept). Returns those members.
pub fn adopt_as_main(state: &mut TffaState, id: u8, connected: &[bool]) -> (members: Vec<i32>)
    requires
        old(state).wf(),
        connected@.len() == MAX_CLIENTS,
        1 <= id < TOTAL_MATCH_SLOTS,
    ensures
        final(state).wf(),
        members@ == members_from(old(state).client_match@, connected@, id, 0),
        final(state).matches@ == old(state).matches@.update(
            MAIN_MATCH as int,
            MatchSlot {
                red: old(state).matches@[id as int].red,
                blue: old(state).matches@[id as int].blue,
                active: true,
            },
        ).update(id as int, MatchSlot { red: 0, blue: 0, active: false }),
        forall|i: int|
            0 <= i < MAX_CLIENTS ==> final(state).client_match@[i] == (if old(state).client_match@[i] == id && connected@[i] {
                MAIN_MATCH
            } else {
                old(state).client_match@[i]
            }),
        final(state).player_score@ == old(state).player_score@,
        final(state).cs_players_base@ == old(state).cs_players_base@,
{
    let members = match_members(state, id, connected);
    let cand = state.matches[id as usize];
    state.matches.set(0, MatchSlot { red: cand.red, blue: cand.blue, active: true });
    state.matches.set(id as usize, MatchSlot { red: 0, blue: 0, active: false });
    let ghost cm_old = old(state).client_match@;
    let mut i: usize = 0;
    while i < MAX_CLIENTS
        invariant
            cm_old == old(state).client_match@,
            cm_old.len() == MAX_CLIENTS,
            state.wf(),
            connected@.len() == MAX_CLIENTS,
            i <= MAX_CLIENTS,
            state.matches@ == old(state).matches@.update(
                MAIN_MATCH as int,
                MatchSlot {
                    red: old(state).matches@[id as int].red,
                    blue: old(state).matches@[id as int].blue,
                    active: true,
                },
            ).update(id as int, MatchSlot { red: 0, blue: 0, active: false }),
            state.player_score@ == old(state).player_score@,
            state.cs_players_base@ == old(state).cs_players_base@,
            forall|j: int|
                0 <= j < i ==> state.client_match@[j] == (if cm_old[j] == id && connected@[j] {
                    MAIN_MATCH
                } else {
                    cm_old[j]
                }),
            forall|j: int| i <= j < MAX_CLIENTS ==> state.client_match@[j] == cm_old[j],
        decreases MAX_CLIENTS - i,
    {
        if state.client_match[i] == id && connected[i] {
            state.client_match.set(i, MAIN_MATCH);
        }
        i += 1;
    }
    members
}

// ---------------------------------------------------------------------------
// Announcements
// ---------------------------------------------------------------------------

/// Whether byte `b` starts a UTF-8 character (is not a continuation byte).
pub open spec fn char_start(b: u8) -> bool {
    !(0x80 <= b < 0xc0)
}

/// End of the first `n` characters of UTF-8 text scanned from byte `i`,
/// `count` characters having started before `i`.
pub open spec fn chars_end(s: Seq<u8>, i: int, count: nat, n: nat) -> int
    decreases s.len() - i,
{
    if i < 0 || i >= s.len() {
        s.len() as int
    } else if char_start(s[i]) {
        if count >= n {
            i
        } else {
            chars_end(s, i + 1, count + 1, n)
        }
    } else {
        chars_end(s, i + 1, count, n)
    }
}

/// A name byte as the announcement prints it: `"` becomes `'`, line breaks
/// become spaces.
pub open spec fn announce_byte(b: u8) -> u8 {
    if b == 34 {
        39
    } else if b == 10 || b == 13 {
        32
    } else {
        b
    }
}

/// One name for the end-of-match announcement: its first 20 characters
/// with quotes and line breaks neutralised (they would break the
/// `print "..."` command), color escapes stripped, up to a NUL.
pub open spec fn spec_announce_name(raw: Seq<u8>) -> Seq<u8> {
    let e = chars_end(raw, 0, 0, 20);
    let mapped = Seq::new(e as nat, |i: int| announce_byte(raw[i]));
    let stripped = spec_strip_color(mapped);
    stripped.subrange(0, spec_strlen(stripped) as int)
}

proof fn lemma_chars_end(s: Seq<u8>, i: int, count: nat, n: nat)
    requires
        0 <= i <= s.len(),
    ensures
        i <= chars_end(s, i, count, n) <= s.len(),
    decreases s.len() - i,
{
    if i < s.len() {
        if char_start(s[i]) {
            if count < n {
                lemma_chars_end(s, i + 1, count + 1, n);
            }
        } else {
            lemma_chars_end(s, i + 1, count, n);
        }
    }
}

/// The announcement form of a player name (UTF-8 text).
pub fn announce_name(raw: &[u8]) -> (r: Vec<u8>)
    ensures
        r@ == spec_announce_name(raw@),
{
    let mut i: usize = 0;
    let mut count: usize = 0;
    while i < raw.len() && !(!(0x80 <= raw[i] && raw[i] < 0xc0) && count >= 20)
        invariant
            i <= raw@.len(),
            count <= 20,
            chars_end(raw@, 0, 0, 20) == chars_end(raw@, i as int, count as nat, 20),
        decreases raw@.len() - i,
    {
        if !(0x80 <= raw[i] && raw[i] < 0xc0) {
            count += 1;
        }
        i += 1;
    }
    let e = i;
    let mut mapped: Vec<u8> = Vec::new();
    let mut k: usize = 0;
    while k < e
        invariant
            e <= raw@.len(),
            e == chars_end(raw@, 0, 0, 20),
            k <= e,
            mapped@ =~= Seq::new(k as nat, |j: int| announce_byte(raw@[j])),
        decreases e - k,
    {
        let b = raw[k];
        let c = if b == 34 {
            39
        } else if b == 10 || b == 13 {
            32
        } else {
            b
        };
        mapped.push(c);
        k += 1;
    }
    strip_color(mapped.as_mut_slice());
    let ghost stripped = mapped@;
    let mut n: usize = 0;
    while n < mapped.len() && mapped[n] != 0
        invariant
            n <= mapped@.len(),
            forall|j: int| 0 <= j < n ==> mapped@[j] != 0,
        decreases mapped@.len() - n,
    {
        n += 1;
    }
    proof {
        lemma_strlen_unique(mapped@, n as int);
    }
    mapped.truncate(n);
    mapped
}

/// `-` for nobody, else the names joined by `, `.
pub open spec fn spec_name_list(names: Seq<Seq<u8>>) -> Seq<u8>
    decreases names.len(),
{
    if names.len() == 0 {
        seq![45u8]
    } else if names.len() == 1 {
        names[0]
    } else {
        spec_name_list(names.drop_last()) + seq![44u8, 32] + names.last()
    }
}

pub open spec fn names_view(v: Seq<Vec<u8>>) -> Seq<Seq<u8>> {
    v.map_values(|n: Vec<u8>| n@)
}

/// The team list of an announcement.
pub fn name_list(names: &[Vec<u8>]) -> (r: Vec<u8>)
    ensures
        r@ == spec_name_list(names_view(names@)),
{
    let mut out: Vec<u8> = Vec::new();
    if names.len() == 0 {
        out.push(45);
        return out;
    }
    push_bytes(&mut out, names[0].as_slice());
    let mut i: usize = 1;
    assert(names_view(names@).subrange(0, 1).drop_last().len() == 0);
    while i < names.len()
        invariant
            1 <= i <= names@.len(),
            out@ == spec_name_list(names_view(names@).subrange(0, i as int)),
        decreases names@.len() - i,
    {
        out.push(44);
        out.push(32);
        push_bytes(&mut out, names[i].as_slice());
        assert(names_view(names@).subrange(0, i + 1).drop_last() =~= names_view(names@).subrange(
            0,
            i as int,
        ));
        i += 1;
    }
    assert(names_view(names@).subrange(0, names@.len() as int) =~= names_view(names@));
    out
}

/// The team of a stored player string (its `t` key as an int).
pub open spec fn spec_member_team(base: Seq<u8>) -> Option<i32> {
    if base.len() == 0 {
        None
    } else {
        match spec_info_value(base, key_t()) {
            None => None,
            Some(t) => spec_parse_i32(t),
        }
    }
}

pub fn member_team(base: &[u8]) -> (r: Option<i32>)
    ensures
        r == spec_member_team(base@),
{
    if base.len() == 0 {
        return None;
    }
    let kt: [u8; 1] = [116];
    assert(kt@ == key_t());
    match info_value(base, kt.as_slice()) {
        None => None,
        Some(t) => {
            let r = parse_i32(t.as_slice(), 0, t.len());
            assert(t@.subrange(0, t@.len() as int) =~= t@);
            r
        },
    }
}

/// `player<N>`.
pub open spec fn placeholder_name(client_num: i32) -> Seq<u8> {
    seq![112u8, 108, 97, 121, 101, 114] + spec_i32_text(client_num as int)
}

/// The name a member is announced under: `player<N>` without a stored
/// player string (or without a name in it), else the announcement form of
/// its name.
pub open spec fn spec_member_name(base: Seq<u8>, client_num: i32) -> Seq<u8> {
    if base.len() == 0 {
        placeholder_name(client_num)
    } else {
        match spec_info_value(base, key_n()) {
            None => spec_announce_name(placeholder_name(client_num)),
            Some(n) => spec_announce_name(n),
        }
    }
}

pub fn member_name(base: &[u8], client_num: i32) -> (r: Vec<u8>)
    ensures
        r@ == spec_member_name(base@, client_num),
{
    let word: [u8; 6] = [112, 108, 97, 121, 101, 114];
    let mut placeholder: Vec<u8> = Vec::new();
    push_bytes(&mut placeholder, word.as_slice());
    push_i32(&mut placeholder, client_num);
    assert(placeholder@ =~= placeholder_name(client_num));
    if base.len() == 0 {
        return placeholder;
    }
    let kn: [u8; 1] = [110];
    assert(kn@ == key_n());
    match info_value(base, kn.as_slice()) {
        None => announce_name(placeholder.as_slice()),
        Some(n) => announce_name(n.as_slice()),
    }
}

/// The announced names of the members whose stored player string puts them
/// on `team`, in member order.
pub open spec fn spec_team_names(bases: Seq<Seq<u8>>, members: Seq<i32>, team: i32) -> Seq<Seq<u8>>
    decreases members.len(),
{
    if members.len() == 0 {
        seq![]
    } else {
        let rest = spec_team_names(bases, members.drop_last(), team);
        let cn = members.last();
        if spec_member_team(bases[cn as int]) == Some(team) {
            rest.push(spec_member_name(bases[cn as int], cn))
        } else {
            rest
        }
    }
}

pub open spec fn bases_view(bases: Seq<Vec<u8>>) -> Seq<Seq<u8>> {
    bases.map_values(|b: Vec<u8>| b@)
}

/// `(red list, blue list)` of a finished match: its members split by the
/// team of their stored player string (members on neither team are left
/// out), each side joined by [`name_list`].
pub fn team_name_lists(bases: &[Vec<u8>], members: &[i32]) -> (r: (Vec<u8>, Vec<u8>))
    requires
        forall|i: int| 0 <= i < members@.len() ==> 0 <= #[trigger] members@[i] < bases@.len(),
    ensures
        r.0@ == spec_name_list(spec_team_names(bases_view(bases@), members@, TEAM_RED)),
        r.1@ == spec_name_list(spec_team_names(bases_view(bases@), members@, TEAM_BLUE)),
{
    let ghost bv = bases_view(bases@);
    let mut red: Vec<Vec<u8>> = Vec::new();
    let mut blue: Vec<Vec<u8>> = Vec::new();
    let mut i: usize = 0;
    while i < members.len()
        invariant
            0 <= i <= members@.len(),
            bv == bases_view(bases@),
            forall|k: int| 0 <= k < members@.len() ==> 0 <= #[trigger] members@[k] < bases@.len(),
            names_view(red@) == spec_team_names(bv, members@.subrange(0, i as int), TEAM_RED),
            names_view(blue@) == spec_team_names(bv, members@.subrange(0, i as int), TEAM_BLUE),
        decreases members@.len() - i,
    {
        let cn = members[i];
        let base = bases[cn as usize].as_slice();
        let name = member_name(base, cn);
        let team = member_team(base);
        let ghost prefix = members@.subrange(0, i as int);
        let ghost next = members@.subrange(0, i + 1);
        assert(next.drop_last() =~= prefix);
        assert(next.last() == cn);
        assert(bv[cn as int] == base@);
        let ghost red_before = red@;
        let ghost blue_before = blue@;
        if team == Some(TEAM_RED) {
            red.push(name);
            assert(names_view(red@) =~= names_view(red_before).push(name@));
        } else if team == Some(TEAM_BLUE) {
            blue.push(name);
            assert(names_view(blue@) =~= names_view(blue_before).push(name@));
        }
        i += 1;
    }
    assert(members@.subrange(0, members@.len() as int) =~= members@);
    (name_list(red.as_slice()), name_list(blue.as_slice()))
}

/// How the end-of-match line ends.
#[derive(Debug, Clone, Copy, PartialEq, Eq, Structural)]
pub enum EndKind {
    /// Its players go back to the main match as spectators.
    Returned,
    /// The map ends and the final scoreboard follows.
    FinalScoreboard,
}

/// The end-of-match announcement:
/// `print "<which> ended: RED r - BLUE b. RED: <names> | BLUE: <names>. <tail>\n"`
/// where `<which>` is `TFFA <id>` or, for the main match, `main (TFFA 0)`.
pub open spec fn spec_match_end_text(
    f: Finished,
    red_list: Seq<u8>,
    blue_list: Seq<u8>,
    kind: EndKind,
) -> Seq<u8> {
    "print \"".spec_bytes() + (if f.id == MAIN_MATCH {
        "main (TFFA 0)".spec_bytes()
    } else {
        "TFFA ".spec_bytes() + spec_i32_text(f.id as int)
    }) + " ended: RED ".spec_bytes() + spec_i32_text(f.red as int) + " - BLUE ".spec_bytes()
        + spec_i32_text(f.blue as int) + ". RED: ".spec_bytes() + red_list + " | BLUE: ".spec_bytes()
        + blue_list + (match kind {
        EndKind::Returned => ". Players returned to main as spectator.\n\"".spec_bytes(),
        EndKind::FinalScoreboard => ". Final scoreboard incoming.\n\"".spec_bytes(),
    })
}

pub fn match_end_text(f: Finished, red_list: &[u8], blue_list: &[u8], kind: EndKind) -> (r: Vec<u8>)
    ensures
        r@ == spec_match_end_text(f, red_list@, blue_list@, kind),
{
    let mut out: Vec<u8> = Vec::new();
    push_str(&mut out, "print \"");
    let ghost a = out@;
    if f.id == MAIN_MATCH {
        push_str(&mut out, "main (TFFA 0)");
    } else {
        push_str(&mut out, "TFFA ");
        push_i32(&mut out, f.id as i32);
    }
    push_str(&mut out, " ended: RED ");
    push_i32(&mut out, f.red);
    push_str(&mut out, " - BLUE ");
    push_i32(&mut out, f.blue);
    push_str(&mut out, ". RED: ");
    push_bytes(&mut out, red_list);
    push_str(&mut out, " | BLUE: ");
    push_bytes(&mut out, blue_list);
    match kind {
        EndKind::Returned => push_str(&mut out, ". Players returned to main as spectator.\n\""),
        EndKind::FinalScoreboard => push_str(&mut out, ". Final scoreboard incoming.\n\""),
    }
    assert(out@ =~= spec_match_end_text(f, red_list@, blue_list@, kind));
    out
}

/// `print "TFFA <id> becomes the new main (RED r - BLUE b).\n"`
pub open spec fn spec_new_main_text(id: u8, red: i32, blue: i32) -> Seq<u8> {
    "print \"TFFA ".spec_bytes() + spec_i32_text(id as int) + " becomes the new main (RED ".spec_bytes()
        + spec_i32_text(red as int) + " - BLUE ".spec_bytes() + spec_i32_text(blue as int)
        + ").\n\"".spec_bytes()
}

pub fn new_main_text(id: u8, red: i32, blue: i32) -> (r: Vec<u8>)
    ensures
        r@ == spec_new_main_text(id, red, blue),
{
    let mut out: Vec<u8> = Vec::new();
    push_str(&mut out, "print \"TFFA ");
    push_i32(&mut out, id as i32);
    push_str(&mut out, " becomes the new main (RED ");
    push_i32(&mut out, red);
    push_str(&mut out, " - BLUE ");
    push_i32(&mut out, blue);
    push_str(&mut out, ").\n\"");
    assert(out@ =~= spec_new_main_text(id, red, blue));
    out
}

// ---------------------------------------------------------------------------
// Player commands
// ---------------------------------------------------------------------------

/// The `tffa` client commands.
#[derive(Debug, Clone, Copy, PartialEq, Eq, Structural)]
pub enum TffaCommand {
    Create,
    Join,
    Leave,
    List,
}

pub open spec fn spec_tffa_command(name: Seq<u8>) -> Option<TffaCommand> {
    if name == "tffa_create".spec_bytes() {
        Some(TffaCommand::Create)
    } else if name == "tffa_join".spec_bytes() {
        Some(TffaCommand::Join)
    } else if name == "tffa_leave".spec_bytes() {
        Some(TffaCommand::Leave)
    } else if name == "tffa_list".spec_bytes() || name == "tffa".spec_bytes() {
        Some(TffaCommand::List)
    } else {
        None
    }
}

/// What a `tffa` command needs before it runs: creating and joining need
/// the feature on; creating, joining and leaving need a spectator (travel
/// happens from the spectator team); listing needs nothing. `Some` holds
/// the refusal sent back.
pub open spec fn spec_command_refusal(command: TffaCommand, enabled: bool, is_spectator: bool) -> Option<Seq<u8>> {
    if command == TffaCommand::List {
        None
    } else if command != TffaCommand::Leave && !enabled {
        Some("print \"TFFA matches are not enabled on this server (GT_TEAM only).\n\"".spec_bytes())
    } else if !is_spectator {
        Some("print \"You must be spectator to travel between TFFA matches (use /team spectator first).\n\"".spec_bytes())
    } else {
        None
    }
}

pub fn command_refusal(command: TffaCommand, enabled: bool, is_spectator: bool) -> (r: Option<Vec<u8>>)
    ensures
        match r {
            Some(t) => spec_command_refusal(command, enabled, is_spectator) == Some(t@),
            None => spec_command_refusal(command, enabled, is_spectator) is None,
        },
{
    if command == TffaCommand::List {
        return None;
    }
    let mut out: Vec<u8> = Vec::new();
    if command != TffaCommand::Leave && !enabled {
        push_str(&mut out, "print \"TFFA matches are not enabled on this server (GT_TEAM only).\n\"");
        return Some(out);
    }
    if !is_spectator {
        push_str(&mut out, "print \"You must be spectator to travel between TFFA matches (use /team spectator first).\n\"");
        return Some(out);
    }
    None
}

/// How TFFA treats a server command the game sends.
#[derive(Debug, Clone, Copy, PartialEq, Eq, Structural)]
pub enum ServerCommandKind {
    /// The pristine fraglimit notice: swallowed.
    KillLimitPrint,
    /// A scoreboard: rewritten for each viewer.
    Scores,
    /// Anything else: sent as is.
    Other,
}

pub open spec fn spec_server_command_kind(text: Seq<u8>) -> ServerCommandKind {
    if spec_is_kill_limit_print(text) {
        ServerCommandKind::KillLimitPrint
    } else if occurs_at(text, "scores ".spec_bytes(), 0) {
        ServerCommandKind::Scores
    } else {
        ServerCommandKind::Other
    }
}

pub fn server_command_kind(text: &str) -> (r: ServerCommandKind)
    ensures
        r == spec_server_command_kind(text.spec_bytes()),
{
    if is_kill_limit_print(text) {
        ServerCommandKind::KillLimitPrint
    } else if occurs_at_exec(text.as_bytes(), "scores ".as_bytes(), 0) {
        ServerCommandKind::Scores
    } else {
        ServerCommandKind::Other
    }
}

/// The command a client command name (`argv 0`) names; `None` leaves the
/// command to the game.
pub fn tffa_command(name: &[u8]) -> (r: Option<TffaCommand>)
    ensures
        r == spec_tffa_command(name@),
{
    if bytes_eq(name, "tffa_create".as_bytes()) {
        Some(TffaCommand::Create)
    } else if bytes_eq(name, "tffa_join".as_bytes()) {
        Some(TffaCommand::Join)
    } else if bytes_eq(name, "tffa_leave".as_bytes()) {
        Some(TffaCommand::Leave)
    } else if bytes_eq(name, "tffa_list".as_bytes()) || bytes_eq(name, "tffa".as_bytes()) {
        Some(TffaCommand::List)
    } else {
        None
    }
}

/// A numeric command argument: the trimmed text as an `i32`, 0 when it
/// does not parse.
pub open spec fn spec_arg_i32(arg: Seq<u8>) -> i32 {
    match spec_parse_i32(spec_trim(arg)) {
        Some(v) => v,
        None => 0,
    }
}

pub fn arg_i32(arg: &[u8]) -> (r: i32)
    ensures
        r == spec_arg_i32(arg@),
{
    let (lo, hi) = trim_bounds(arg, 0, arg.len());
    assert(arg@.subrange(0, arg@.len() as int) =~= arg@);
    match parse_i32(arg, lo, hi) {
        Some(v) => v,
        None => 0,
    }
}

/// One line of the match list: `\n<id>: <n> players, <red>-<blue>^7`, the
/// main match as `\n0 (main): ...`.
pub open spec fn list_line(id: int, size: nat, m: MatchSlot) -> Seq<u8> {
    seq![10u8] + (if id == 0 {
        "0 (main)".spec_bytes()
    } else {
        spec_i32_text(id)
    }) + ": ".spec_bytes() + spec_i32_text(size as int) + " players, ".spec_bytes()
        + spec_i32_text(m.red as int) + seq![45u8] + spec_i32_text(m.blue as int)
        + "^7".spec_bytes()
}

/// The listed lines for slots `0..i`: the main match always, created
/// matches within `max` while open.
pub open spec fn list_lines(state: &TffaState, max: usize, i: int) -> Seq<u8>
    decreases i,
{
    if i <= 0 {
        Seq::empty()
    } else {
        let j = i - 1;
        list_lines(state, max, j) + if j == 0 || (j <= max && state.matches@[j].active) {
            list_line(j, count_of(state.client_match@, j as u8), state.matches@[j])
        } else {
            Seq::empty()
        }
    }
}

/// The `tffa_list` reply: `print "Matches:<lines>\n"`.
pub open spec fn spec_list_text(state: &TffaState, max: usize) -> Seq<u8> {
    "print \"Matches:".spec_bytes() + list_lines(state, max, TOTAL_MATCH_SLOTS as int)
        + "\n\"".spec_bytes()
}

/// Append one `tffa_list` line.
fn push_list_line(out: &mut Vec<u8>, id: usize, size: usize, m: MatchSlot)
    requires
        id < TOTAL_MATCH_SLOTS,
        size <= MAX_CLIENTS,
    ensures
        final(out)@ == old(out)@ + list_line(id as int, size as nat, m),
{
    let ghost start = out@;
    out.push(10);
    if id == 0 {
        push_str(out, "0 (main)");
    } else {
        push_i32(out, id as i32);
    }
    push_str(out, ": ");
    push_i32(out, size as i32);
    push_str(out, " players, ");
    push_i32(out, m.red);
    out.push(45);
    push_i32(out, m.blue);
    push_str(out, "^7");
    assert(out@ =~= start + list_line(id as int, size as nat, m));
}

pub fn list_text(state: &TffaState, max: usize) -> (r: Vec<u8>)
    requires
        state.wf(),
    ensures
        r@ == spec_list_text(state, max),
{
    let mut out: Vec<u8> = Vec::new();
    push_str(&mut out, "print \"Matches:");
    let ghost head = out@;
    let mut i: usize = 0;
    while i < TOTAL_MATCH_SLOTS
        invariant
            state.wf(),
            i <= TOTAL_MATCH_SLOTS,
            out@ == head + list_lines(state, max, i as int),
        decreases TOTAL_MATCH_SLOTS - i,
    {
        let m = state.matches[i];
        let ghost before = out@;
        if i == 0 || (i <= max && m.active) {
            let size = match_size(state, i as u8);
            push_list_line(&mut out, i, size, m);
        }
        assert(out@ =~= head + list_lines(state, max, i + 1));
        i += 1;
    }
    push_str(&mut out, "\n\"");
    out
}

/// `print "Created match <id>. Team up with /team red|blue, invite others
/// with tffa_join <id>.\n"`
pub open spec fn spec_created_text(id: u8) -> Seq<u8> {
    "print \"Created match ".spec_bytes() + spec_i32_text(id as int)
        + ". Team up with /team red|blue, invite others with tffa_join ".spec_bytes()
        + spec_i32_text(id as int) + ".\n\"".spec_bytes()
}

pub fn created_text(id: u8) -> (r: Vec<u8>)
    ensures
        r@ == spec_created_text(id),
{
    let mut out: Vec<u8> = Vec::new();
    push_str(&mut out, "print \"Created match ");
    push_i32(&mut out, id as i32);
    push_str(&mut out, ". Team up with /team red|blue, invite others with tffa_join ");
    push_i32(&mut out, id as i32);
    push_str(&mut out, ".\n\"");
    assert(out@ =~= spec_created_text(id));
    out
}

/// The reply to `tffa_join`.
pub open spec fn spec_join_text(outcome: JoinOutcome, id: i32) -> Seq<u8> {
    match outcome {
        JoinOutcome::Usage => "print \"Usage: tffa_join <match 1..N> (see tffa_list).\n\"".spec_bytes(),
        JoinOutcome::Inactive => "print \"That match is not active.\n\"".spec_bytes(),
        JoinOutcome::Full => "print \"That match is full.\n\"".spec_bytes(),
        JoinOutcome::Joined { .. } => "print \"Joined match ".spec_bytes() + spec_i32_text(id as int)
            + ".\n\"".spec_bytes(),
    }
}

pub fn join_text(outcome: JoinOutcome, id: i32) -> (r: Vec<u8>)
    ensures
        r@ == spec_join_text(outcome, id),
{
    let mut out: Vec<u8> = Vec::new();
    match outcome {
        JoinOutcome::Usage => push_str(
            &mut out,
            "print \"Usage: tffa_join <match 1..N> (see tffa_list).\n\"",
        ),
        JoinOutcome::Inactive => push_str(&mut out, "print \"That match is not active.\n\""),
        JoinOutcome::Full => push_str(&mut out, "print \"That match is full.\n\""),
        JoinOutcome::Joined { .. } => {
            push_str(&mut out, "print \"Joined match ");
            push_i32(&mut out, id);
            push_str(&mut out, ".\n\"");
        },
    }
    assert(out@ =~= spec_join_text(outcome, id));
    out
}

// ---------------------------------------------------------------------------
// Views, follows, traces, statistics
// ---------------------------------------------------------------------------

/// The player string of slot `n` as one viewer is sent it: the rewritten
/// form for a playing outsider, the stored string otherwise.
pub open spec fn spec_view_of_slot(base: Seq<u8>, slot_match: u8, viewer_match: u8) -> Seq<u8> {
    match spec_rewrite_cs_players(base, slot_match, viewer_match) {
        Some(v) => v,
        None => base,
    }
}

pub fn view_of_slot(base: &[u8], slot_match: u8, viewer_match: u8) -> (r: Vec<u8>)
    ensures
        r@ == spec_view_of_slot(base@, slot_match, viewer_match),
{
    match rewrite_cs_players_for_viewer(base, slot_match, viewer_match) {
        Some(v) => v,
        None => vstd::slice::slice_to_vec(base),
    }
}

/// `cs <index> "<value>"` and a newline: the engine's own configstring
/// update command, sent to one viewer.
pub open spec fn spec_cs_command(index: i32, value: Seq<u8>) -> Seq<u8> {
    "cs ".spec_bytes() + spec_i32_text(index as int) + " \"".spec_bytes() + value + "\"\n".spec_bytes()
}

pub fn cs_command(index: i32, value: &[u8]) -> (r: Vec<u8>)
    ensures
        r@ == spec_cs_command(index, value@),
{
    let mut out: Vec<u8> = Vec::new();
    push_str(&mut out, "cs ");
    push_i32(&mut out, index);
    push_str(&mut out, " \"");
    push_bytes(&mut out, value);
    push_str(&mut out, "\"\n");
    out
}

/// The `cs` command setting a HUD score configstring to a number.
pub fn cs_int_command(index: i32, value: i32) -> (r: Vec<u8>)
    ensures
        r@ == spec_cs_command(index, spec_i32_text(value as int)),
{
    let mut text: Vec<u8> = Vec::new();
    push_i32(&mut text, value);
    cs_command(index, text.as_slice())
}

/// Store the player string the game just set for a slot; `false` for a
/// number that is no client slot.
pub fn store_cs_players_base(state: &mut TffaState, slot: i32, value: &[u8]) -> (stored: bool)
    requires
        old(state).wf(),
    ensures
        final(state).wf(),
        stored == valid_client(slot),
        stored ==> final(state).cs_players_base@[slot as int]@ == value@ && forall|i: int|
            0 <= i < MAX_CLIENTS && i != slot ==> final(state).cs_players_base@[i] == old(state).cs_players_base@[i],
        !stored ==> final(state).cs_players_base@ == old(state).cs_players_base@,
        final(state).client_match@ == old(state).client_match@,
        final(state).matches@ == old(state).matches@,
{
    if !(0 <= slot && slot < MAX_CLIENTS as i32) {
        return false;
    }
    state.cs_players_base.set(slot as usize, vstd::slice::slice_to_vec(value));
    true
}

/// The player a spectator follows: the viewer must be on the spectator
/// team (`viewer_team`, `None` without game data) in follow mode, and the
/// target a client slot with a player in it.
pub open spec fn spec_follow_target(
    viewer_team: Option<i32>,
    spectator_state: i32,
    target: i32,
    target_live: bool,
) -> Option<i32> {
    if viewer_team != Some(TEAM_SPECTATOR) || spectator_state != SPECTATOR_FOLLOW {
        None
    } else if !valid_client(target) || !target_live {
        None
    } else {
        Some(target)
    }
}

pub fn follow_target(
    viewer_team: Option<i32>,
    spectator_state: i32,
    target: i32,
    target_live: bool,
) -> (r: Option<i32>)
    ensures
        r == spec_follow_target(viewer_team, spectator_state, target, target_live),
{
    match viewer_team {
        Some(t) => {
            if t != TEAM_SPECTATOR {
                return None;
            }
        },
        None => {
            return None;
        },
    }
    if spectator_state != SPECTATOR_FOLLOW {
        return None;
    }
    if !(0 <= target && target < MAX_CLIENTS as i32) || !target_live {
        return None;
    }
    Some(target)
}

/// The match a trace belongs to: a player entity's own, else (a missile,
/// a saber) its owner's when the owner is a player; `None` for the world
/// and everything else (the trace is then left alone). `ent_live` and
/// `owner_live` tell whether those slots hold a player.
pub open spec fn spec_request_match(
    state: &TffaState,
    ent_num: i32,
    ent_live: bool,
    owner: i32,
    owner_live: bool,
) -> Option<u8> {
    if valid_client(ent_num) && ent_live {
        Some(state.client_match@[ent_num as int])
    } else if 0 <= ent_num < MAX_GENTITIES && valid_client(owner) && owner_live {
        Some(state.client_match@[owner as int])
    } else {
        None
    }
}

pub fn request_match(state: &TffaState, ent_num: i32, ent_live: bool, owner: i32, owner_live: bool) -> (r:
    Option<u8>)
    requires
        state.wf(),
    ensures
        r == spec_request_match(state, ent_num, ent_live, owner, owner_live),
{
    if 0 <= ent_num && ent_num < MAX_CLIENTS as i32 && ent_live {
        return Some(state.client_match[ent_num as usize]);
    }
    if 0 <= ent_num && ent_num < MAX_GENTITIES as i32 && 0 <= owner && owner < MAX_CLIENTS as i32
        && owner_live {
        return Some(state.client_match[owner as usize]);
    }
    None
}

/// An entity is made intangible for a trace when it belongs to another
/// match, is in use and is solid.
pub fn trace_flips_entity(entity_match: u8, requester: u8, in_use: bool, contents: i32) -> (r: bool)
    ensures
        r == (entity_match != requester && in_use && contents != 0),
{
    entity_match != requester && in_use && contents != 0
}

/// Zero statistics.
pub open spec fn zero_stats() -> GameStats {
    GameStats { killed: 0, killed_by: 0, damages_given: 0, damages_taken: 0 }
}

/// One client's entry after `n` starts a new match: its table against `n`
/// is zeroed, and when it is `n` itself (`own`) its whole table and its team
/// tallies too.
#[verifier::spinoff_prover]
fn reset_entry(e: ClientEntry, own: bool, n: usize) -> (r: ClientEntry)
    requires
        client_entry_wf(e),
        n < MAX_CLIENTS,
    ensures
        same_but_stats(e, r),
        forall|j: int|
            0 <= j < MAX_CLIENTS ==> #[trigger] r.game_stats@[j] == (if own || j == n {
                zero_stats()
            } else {
                e.game_stats@[j]
            }),
        own ==> r.team_kills == 0 && r.team_killed == 0 && r.team_damages_given == 0
            && r.team_damages_taken == 0,
        !own ==> r.team_kills == e.team_kills && r.team_killed == e.team_killed
            && r.team_damages_given == e.team_damages_given && r.team_damages_taken
            == e.team_damages_taken,
{
    let mut r = e;
    if own {
        let mut j: usize = 0;
        while j < MAX_CLIENTS
            invariant
                client_entry_wf(r),
                same_but_stats(e, r),
                j <= MAX_CLIENTS,
                r.team_kills == e.team_kills && r.team_killed == e.team_killed,
                r.team_damages_given == e.team_damages_given,
                r.team_damages_taken == e.team_damages_taken,
                forall|m: int| 0 <= m < j ==> #[trigger] r.game_stats@[m] == zero_stats(),
            decreases MAX_CLIENTS - j,
        {
            r.game_stats.set(j, GameStats { killed: 0, killed_by: 0, damages_given: 0, damages_taken: 0 });
            j += 1;
        }
        r.team_kills = 0;
        r.team_killed = 0;
        r.team_damages_given = 0;
        r.team_damages_taken = 0;
    } else {
        let ghost before = r.game_stats@;
        r.game_stats.set(n, GameStats { killed: 0, killed_by: 0, damages_given: 0, damages_taken: 0 });
        assert forall|j: int| 0 <= j < MAX_CLIENTS && j != n implies #[trigger] r.game_stats@[j]
            == e.game_stats@[j] by {
            assert(r.game_stats@[j] == before[j]);
        }
    }
    r
}

/// The table row and team tallies every client holds after `n` starts a
/// new match, given what it held before.
pub open spec fn reset_row_ok(old_e: ClientEntry, new_e: ClientEntry, i: int, n: int) -> bool {
    &&& same_but_stats(old_e, new_e)
    &&& forall|j: int|
        0 <= j < MAX_CLIENTS ==> #[trigger] new_e.game_stats@[j] == (if i == n || j == n {
            zero_stats()
        } else {
            old_e.game_stats@[j]
        })
    &&& new_e.team_kills == (if i == n { 0 } else { old_e.team_kills })
    &&& new_e.team_killed == (if i == n { 0 } else { old_e.team_killed })
    &&& new_e.team_damages_given == (if i == n { 0 } else { old_e.team_damages_given })
    &&& new_e.team_damages_taken == (if i == n { 0 } else { old_e.team_damages_taken })
}

/// A client starts a new match with clean statistics: its own table and
/// every other client's entry against it are zeroed, and its team tallies.
#[verifier::spinoff_prover]
pub fn reset_slot_stats(clients: &mut Vec<ClientEntry>, client_num: i32)
    requires
        clients_wf(old(clients)@),
    ensures
        clients_wf(final(clients)@),
        !valid_client(client_num) ==> final(clients)@ == old(clients)@,
        valid_client(client_num) ==> forall|i: int|
            0 <= i < MAX_CLIENTS ==> reset_row_ok(
                old(clients)@[i],
                #[trigger] final(clients)@[i],
                i,
                client_num as int,
            ),
{
    if !(0 <= client_num && client_num < MAX_CLIENTS as i32) {
        return;
    }
    let n = client_num as usize;
    let ghost orig = clients@;
    let mut i: usize = 0;
    while i < MAX_CLIENTS
        invariant
            clients_wf(clients@),
            clients_wf(orig),
            orig == old(clients)@,
            n == client_num,
            n < MAX_CLIENTS,
            i <= MAX_CLIENTS,
            forall|k: int| i <= k < MAX_CLIENTS ==> #[trigger] clients@[k] == orig[k],
            forall|k: int|
                0 <= k < i ==> reset_row_ok(orig[k], #[trigger] clients@[k], k, n as int),
        decreases MAX_CLIENTS - i,
    {
        let ghost before = clients@;
        let e0 = clients.remove(i);
        assert(e0 == orig[i as int]);
        let e = reset_entry(e0, i == n, n);
        clients.insert(i, e);
        proof {
            assert(clients@ =~= before.update(i as int, e));
            assert(reset_row_ok(orig[i as int], e, i as int, n as int));
        }
        i += 1;
    }
}

/// Keys and values with no backslash.
pub open spec fn pairs_sep_free(pairs: Seq<(Seq<u8>, Seq<u8>)>) -> bool {
    forall|k: int|
        0 <= k < pairs.len() ==> sep_free((#[trigger] pairs[k]).0, Sep::Backslash) && sep_free(
            pairs[k].1,
            Sep::Backslash,
        )
}

/// The pieces `k1, v1, k2, v2, ...` of a pair list.
pub open spec fn flat_pairs(pairs: Seq<(Seq<u8>, Seq<u8>)>) -> Seq<Seq<u8>>
    decreases pairs.len(),
{
    if pairs.len() == 0 {
        Seq::empty()
    } else {
        flat_pairs(pairs.drop_last()).push(pairs.last().0).push(pairs.last().1)
    }
}

proof fn lemma_flat_pairs(pairs: Seq<(Seq<u8>, Seq<u8>)>)
    ensures
        flat_pairs(pairs).len() == 2 * pairs.len(),
        forall|k: int|
            0 <= k < pairs.len() ==> flat_pairs(pairs)[2 * k] == (#[trigger] pairs[k]).0
                && flat_pairs(pairs)[2 * k + 1] == pairs[k].1,
    decreases pairs.len(),
{
    if pairs.len() > 0 {
        let d = pairs.drop_last();
        lemma_flat_pairs(d);
        assert forall|k: int| 0 <= k < pairs.len() implies flat_pairs(pairs)[2 * k] == (
        #[trigger] pairs[k]).0 && flat_pairs(pairs)[2 * k + 1] == pairs[k].1 by {
            if k < pairs.len() - 1 {
                assert(d[k] == pairs[k]);
            }
        }
    }
}

/// How a rendered pair list splits on backslashes.
proof fn lemma_render_split(pairs: Seq<(Seq<u8>, Seq<u8>)>, leading: bool)
    requires
        pairs_sep_free(pairs),
    ensures
        leading ==> spec_split(render_info(pairs, true), Sep::Backslash) == seq![Seq::<u8>::empty()]
            + flat_pairs(pairs),
        !leading && pairs.len() > 0 ==> spec_split(render_info(pairs, false), Sep::Backslash)
            == flat_pairs(pairs),
    decreases pairs.len(),
{
    let sep = Sep::Backslash;
    if pairs.len() == 0 {
        assert(seq![Seq::<u8>::empty()] + flat_pairs(pairs) =~= seq![Seq::<u8>::empty()]);
    } else {
        let d = pairs.drop_last();
        let (k, v) = pairs.last();
        assert(pairs_sep_free(d)) by {
            assert forall|i: int| 0 <= i < d.len() implies sep_free((#[trigger] d[i]).0, sep)
                && sep_free(d[i].1, sep) by {
                assert(d[i] == pairs[i]);
            }
        }
        assert(sep_free(k, sep) && sep_free(v, sep)) by {
            assert(pairs[pairs.len() - 1] == pairs.last());
        }
        lemma_render_split(d, leading);
        if leading || pairs.len() > 1 {
            let prev = render_info(d, leading);
            assert(render_info(pairs, leading) =~= prev + seq![92u8] + k + seq![92u8] + v);
            lemma_split_append_piece(prev, 92u8, k, sep);
            lemma_split_append_piece(prev + seq![92u8] + k, 92u8, v, sep);
            if leading {
                assert(seq![Seq::<u8>::empty()] + flat_pairs(d).push(k).push(v) =~= (seq![
                    Seq::<u8>::empty(),
                ] + flat_pairs(d)).push(k).push(v));
            }
        } else {
            assert(d.len() == 0);
            assert(render_info(d, false) =~= Seq::<u8>::empty());
            assert(flat_pairs(d) =~= Seq::<Seq<u8>>::empty());
            assert(render_info(pairs, false) =~= Seq::<u8>::empty() + render_pair((k, v), true, false));
            assert(render_info(pairs, false) =~= k + seq![92u8] + v);
            lemma_split_plain(k, sep);
            lemma_split_append_piece(k, 92u8, v, sep);
            assert(flat_pairs(pairs) =~= seq![k, v]);
        }
    }
}

/// Parsing a rendered pair list gives the list back, when no key or value
/// holds a backslash and a string without the leading backslash does not
/// start with an empty key.
proof fn lemma_parse_render(pairs: Seq<(Seq<u8>, Seq<u8>)>, leading: bool)
    requires
        pairs_sep_free(pairs),
        !leading && pairs.len() > 0 ==> pairs[0].0.len() > 0,
    ensures
        spec_info_pairs(render_info(pairs, leading)) == pairs,
{
    lemma_render_split(pairs, leading);
    lemma_flat_pairs(pairs);
    let flat = flat_pairs(pairs);
    let r = render_info(pairs, leading);
    if pairs.len() == 0 {
        assert(r =~= Seq::<u8>::empty());
        assert(spec_split(r, Sep::Backslash) =~= seq![Seq::<u8>::empty()]);
        assert(info_parts(r) =~= Seq::<Seq<u8>>::empty());
    } else if leading {
        assert((seq![Seq::<u8>::empty()] + flat).drop_first() =~= flat);
        assert(info_parts(r) == flat);
    } else {
        assert(flat[0] == pairs[0].0);
        assert(info_parts(r) == flat);
    }
    assert(spec_info_pairs(r) =~= pairs);
}

/// The pairs read from any info string hold no backslash, and a string
/// that does not start with one has a non-empty first key.
proof fn lemma_info_pairs_shape(info: Seq<u8>)
    ensures
        pairs_sep_free(spec_info_pairs(info)),
        !(info.len() > 0 && info[0] == 92) && spec_info_pairs(info).len() > 0 ==> spec_info_pairs(
            info,
        )[0].0.len() > 0,
{
    let parts = spec_split(info, Sep::Backslash);
    lemma_split_pieces_sep_free(info, Sep::Backslash);
    lemma_split_nonempty(info, Sep::Backslash);
    let p = info_parts(info);
    assert(forall|k: int| 0 <= k < p.len() ==> sep_free(#[trigger] p[k], Sep::Backslash)) by {
        assert forall|k: int| 0 <= k < p.len() implies sep_free(#[trigger] p[k], Sep::Backslash) by {
            if parts.len() > 0 && parts[0].len() == 0 {
                assert(p[k] == parts[k + 1]);
            } else {
                assert(p[k] == parts[k]);
            }
        }
    }
    let ps = spec_info_pairs(info);
    assert forall|k: int| 0 <= k < ps.len() implies sep_free((#[trigger] ps[k]).0, Sep::Backslash)
        && sep_free(ps[k].1, Sep::Backslash) by {
        assert(ps[k] == (p[2 * k], p[2 * k + 1]));
    }
    if !(info.len() > 0 && info[0] == 92) && ps.len() > 0 {
        if info.len() == 0 {
            assert(parts =~= seq![Seq::<u8>::empty()]);
            assert(p.len() == 0);
        } else {
            lemma_split_first_nonempty(info, Sep::Backslash);
            assert(p == parts);
            assert(ps[0] == (p[0], p[1]));
        }
    }
}

proof fn lemma_find_value_at(pairs: Seq<(Seq<u8>, Seq<u8>)>, key: Seq<u8>, i: int, j: int)
    requires
        0 <= i <= j < pairs.len(),
        pairs[j].0 == key,
        forall|m: int| i <= m < j ==> (#[trigger] pairs[m]).0 != key,
    ensures
        find_value(pairs, key, i) == Some(pairs[j].1),
    decreases j - i,
{
    if i < j {
        lemma_find_value_at(pairs, key, i + 1, j);
    }
}

proof fn lemma_find_value_absent(pairs: Seq<(Seq<u8>, Seq<u8>)>, key: Seq<u8>, i: int)
    requires
        0 <= i,
        forall|m: int| i <= m < pairs.len() ==> (#[trigger] pairs[m]).0 != key,
    ensures
        find_value(pairs, key, i) is None,
    decreases pairs.len() - i,
{
    if i < pairs.len() {
        lemma_find_value_absent(pairs, key, i + 1);
    }
}

/// Changing the value of a pair whose key is not `key`, or appending such a
/// pair, leaves the lookup of `key` alone.
proof fn lemma_find_value_other(
    pairs: Seq<(Seq<u8>, Seq<u8>)>,
    changed: Seq<(Seq<u8>, Seq<u8>)>,
    key: Seq<u8>,
    i: int,
)
    requires
        0 <= i,
        pairs.len() <= changed.len() <= pairs.len() + 1,
        forall|m: int| 0 <= m < pairs.len() ==> (#[trigger] changed[m]).0 == pairs[m].0,
        forall|m: int|
            0 <= m < pairs.len() && (#[trigger] changed[m]).0 == key ==> changed[m].1 == pairs[m].1,
        changed.len() > pairs.len() ==> changed[pairs.len() as int].0 != key,
    ensures
        find_value(changed, key, i) == find_value(pairs, key, i),
    decreases changed.len() - i,
{
    if i < changed.len() {
        lemma_find_value_other(pairs, changed, key, i + 1);
    }
}

proof fn lemma_find_value_is_a_value(pairs: Seq<(Seq<u8>, Seq<u8>)>, key: Seq<u8>, i: int)
    requires
        0 <= i,
        find_value(pairs, key, i) is Some,
    ensures
        exists|m: int| 0 <= m < pairs.len() && (#[trigger] pairs[m]).1 == find_value(pairs, key, i)->0,
    decreases pairs.len() - i,
{
    if pairs[i].0 == key {
        assert(pairs[i].1 == find_value(pairs, key, i)->0);
    } else {
        lemma_find_value_is_a_value(pairs, key, i + 1);
    }
}

/// A value read from an info string holds no backslash.
proof fn lemma_info_value_sep_free(info: Seq<u8>, key: Seq<u8>)
    requires
        spec_info_value(info, key) is Some,
    ensures
        sep_free(spec_info_value(info, key)->0, Sep::Backslash),
{
    lemma_info_pairs_shape(info);
    let ps = spec_info_pairs(info);
    lemma_find_value_is_a_value(ps, key, 0);
    let m = choose|m: int| 0 <= m < ps.len() && (#[trigger] ps[m]).1 == find_value(ps, key, 0)->0;
    assert(sep_free(ps[m].1, Sep::Backslash));
}

proof fn lemma_nat_digits_are_digits(n: nat)
    ensures
        forall|i: int| 0 <= i < nat_digits(n).len() ==> 48 <= #[trigger] nat_digits(n)[i] <= 57,
    decreases n,
{
    if n >= 10 {
        lemma_nat_digits_are_digits(n / 10);
        let d = nat_digits(n / 10);
        assert forall|i: int| 0 <= i < nat_digits(n).len() implies 48 <= #[trigger] nat_digits(n)[i]
            <= 57 by {
            if i < d.len() {
                assert(nat_digits(n)[i] == d[i]);
            }
        }
    }
}

/// A prefixed name holds no backslash when the name it starts from holds
/// none.
proof fn lemma_prefixed_name_sep_free(orig: Seq<u8>, player_match: u8)
    requires
        sep_free(orig, Sep::Backslash),
    ensures
        sep_free(spec_prefixed_name(orig, player_match), Sep::Backslash),
{
    let p = spec_prefix_for(player_match);
    lemma_nat_digits_are_digits(player_match as nat);
    let dg = nat_digits(player_match as nat);
    assert(sep_free(p, Sep::Backslash)) by {
        assert forall|i: int| 0 <= i < p.len() implies !is_sep(Sep::Backslash, #[trigger] p[i]) by {
            if 6 <= i < 6 + dg.len() {
                assert(p[i] == dg[i - 6]);
            }
        }
    }
    let max_total = MAX_NETNAME - 1;
    let budget = if max_total >= p.len() {
        max_total - p.len()
    } else {
        0
    };
    let cut0 = if orig.len() < budget {
        orig.len() as int
    } else {
        budget
    };
    lemma_boundary_at_or_before(orig, cut0);
    let cut = name_cut(orig, p.len() as int);
    assert(0 <= cut <= orig.len());
    let tail = orig.subrange(0, cut);
    let name = spec_prefixed_name(orig, player_match);
    assert(name == p + tail);
    assert forall|i: int| 0 <= i < name.len() implies !is_sep(Sep::Backslash, #[trigger] name[i]) by {
        if i < p.len() {
            assert(name[i] == p[i]);
        } else {
            assert(name[i] == tail[i - p.len()]);
            assert(tail[i - p.len()] == orig[i - p.len()]);
        }
    }
}

/// Law: a viewer sees a playing player of another match — base team red
/// or blue — as a spectator whose name carries that match's `(TFFA N) `
/// prefix: the rewrite exists, its `t` reads `3` (the spectator team) and
/// its `n` starts with the prefix. Red and blue players are treated alike.
pub proof fn law_outsiders_shown_as_spectators(
    base: Seq<u8>,
    player_match: u8,
    viewer_match: u8,
    team: i32,
)
    requires
        base.len() > 0,
        player_match != viewer_match,
        team == TEAM_RED || team == TEAM_BLUE,
        spec_info_value(base, seq![116u8]) matches Some(t) && spec_parse_i32(t) == Some(team),
    ensures
        spec_rewrite_cs_players(base, player_match, viewer_match) matches Some(r) && {
            &&& spec_info_value(r, seq![116u8]) == Some(seq![51u8])
            &&& spec_info_value(r, seq![110u8]) matches Some(name) && name.len() >= 6
                && name.subrange(0, 6) == seq![40u8, 84, 70, 70, 65, 32]
                && name.subrange(0, spec_prefix_for(player_match).len() as int) == spec_prefix_for(
                player_match,
            )
        },
{
    assert(key_t() == seq![116u8]);
    assert(key_n() == seq![110u8]);
    let orig = match spec_info_value(base, key_n()) {
        Some(n) => n,
        None => Seq::empty(),
    };
    if spec_info_value(base, key_n()) is Some {
        lemma_info_value_sep_free(base, key_n());
    }
    assert(sep_free(orig, Sep::Backslash));
    let name = spec_prefixed_name(orig, player_match);
    lemma_prefixed_name_sep_free(orig, player_match);
    law_prefixed_name_fits(orig, player_match);
    let out = spec_info_set(base, key_n(), name);
    let three = spec_i32_text(TEAM_SPECTATOR as int);
    assert(three == seq![51u8]);
    assert(sep_free(three, Sep::Backslash));
    assert(sep_free(key_n(), Sep::Backslash));
    assert(sep_free(key_t(), Sep::Backslash));
    assert(key_n()[0] != key_t()[0]);
    assert(key_n() != key_t());
    law_info_set_then_value(base, key_n(), name, key_t());
    law_info_set_then_value(out, key_t(), three, key_n());
    let r = spec_info_set(out, key_t(), three);
    assert(spec_rewrite_cs_players(base, player_match, viewer_match) == Some(r));
    assert(spec_info_value(r, key_n()) == Some(name));
    let p = spec_prefix_for(player_match);
    assert(p.subrange(0, 6) =~= seq![40u8, 84, 70, 70, 65, 32]);
    assert(name.subrange(0, 6) =~= p.subrange(0, 6));
}

/// Setting a key in an info string and reading it back gives the value
/// written, and every other key reads as before. The key is non-empty and
/// neither key nor value holds a backslash.
pub proof fn law_info_set_then_value(
    info: Seq<u8>,
    key: Seq<u8>,
    value: Seq<u8>,
    other: Seq<u8>,
)
    requires
        key.len() > 0,
        sep_free(key, Sep::Backslash),
        sep_free(value, Sep::Backslash),
    ensures
        spec_info_value(spec_info_set(info, key, value), key) == Some(value),
        other != key ==> spec_info_value(spec_info_set(info, key, value), other) == spec_info_value(
            info,
            other,
        ),
{
    let ps = spec_info_pairs(info);
    let leading = info.len() > 0 && info[0] == 92;
    let set = set_pairs(ps, key, value);
    lemma_info_pairs_shape(info);
    lemma_find_index(ps, key, 0);
    match find_index(ps, key, 0) {
        Some(i) => {
            assert(set == ps.update(i, (ps[i].0, value)));
            assert(pairs_sep_free(set)) by {
                assert forall|k: int| 0 <= k < set.len() implies sep_free((#[trigger] set[k]).0, Sep::Backslash)
                    && sep_free(set[k].1, Sep::Backslash) by {
                    if k != i {
                        assert(set[k] == ps[k]);
                    } else {
                        assert(set[k] == (ps[i].0, value));
                        assert(ps[k] == ps[i]);
                    }
                }
            }
            assert(!leading && set.len() > 0 ==> set[0].0.len() > 0) by {
                if set.len() > 0 {
                    assert(set[0].0 == ps[0].0);
                }
            }
            lemma_parse_render(set, leading);
            lemma_find_value_at(set, key, 0, i);
            if other != key {
                lemma_find_value_other(ps, set, other, 0);
            }
        },
        None => {
            assert(set == ps.push((key, value)));
            assert(pairs_sep_free(set)) by {
                assert forall|k: int| 0 <= k < set.len() implies sep_free((#[trigger] set[k]).0, Sep::Backslash)
                    && sep_free(set[k].1, Sep::Backslash) by {
                    if k < ps.len() {
                        assert(set[k] == ps[k]);
                    }
                }
            }
            assert(!leading && set.len() > 0 ==> set[0].0.len() > 0) by {
                if ps.len() > 0 {
                    assert(set[0] == ps[0]);
                }
            }
            lemma_parse_render(set, leading);
            lemma_find_value_at(set, key, 0, ps.len() as int);
            if other != key {
                lemma_find_value_other(ps, set, other, 0);
            }
        },
    }
}


proof fn lemma_count_of_gain(s: Seq<u8>, i: int, id: u8)
    requires
        0 <= i < s.len(),
        s[i] != id,
    ensures
        count_of(s.update(i, id), id) == count_of(s, id) + 1,
    decreases s.len(),
{
    let t = s.update(i, id);
    if i == s.len() - 1 {
        assert(t.drop_last() =~= s.drop_last());
    } else {
        lemma_count_of_gain(s.drop_last(), i, id);
        assert(t.drop_last() =~= s.drop_last().update(i, id));
    }
}

/// An accepted `tffa_join` never takes the match past the group size: the
/// joined match then holds at most `group` clients, the joiner included.
pub proof fn law_join_respects_group_size(
    state: TffaState,
    client_num: i32,
    id: i32,
    max: usize,
    group: usize,
)
    requires
        state.wf(),
        valid_client(client_num),
        spec_join_outcome(&state, client_num, id, max, group) is Joined,
    ensures
        count_of(state.client_match@.update(client_num as int, id as u8), id as u8) <= group,
        count_of(state.client_match@, id as u8) < group,
{
    let cm = state.client_match@;
    if cm[client_num as int] != id as u8 {
        lemma_count_of_gain(cm, client_num as int, id as u8);
    } else {
        assert(cm.update(client_num as int, id as u8) =~= cm);
    }
}

} // verus!
