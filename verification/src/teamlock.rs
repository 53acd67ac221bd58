//! Round-start team locking (`proxy_sv_lockTeams`, TDM/CTF).
//!
//! When a round starts with an even, populated roster (both teams at least
//! two players), each team is capped at its round-start size. The cap is a
//! reservation: it survives players leaving, so the freed slots stay open for
//! the same team instead of being taken by the other one. A round that
//! starts uneven (e.g. 2 vs 3) is not locked.
//!
//! The trigger is the reconnect burst the engine issues when a map loads or
//! is restarted: every retained client gets `GAME_CLIENT_CONNECT` with
//! `firstTime == qfalse` before the next `GAME_RUN_FRAME`. Late joins use
//! `firstTime == qtrue` and do not retrigger the snapshot.
//!
//! Enforcement: an explicit `red`/`blue` request for a full, locked team is
//! dropped with a message, and so is an auto pick (`team free`/empty) once
//! both locked teams are full. Spectator changes pass unchanged.

use vstd::prelude::*;

use crate::sdk::{CON_DISCONNECTED, TEAM_BLUE, TEAM_RED};
use vstd::string::StringSliceAdditionalSpecFns;

use crate::text::{push_i32, push_str, spec_i32_text};

verus! {

/// The round-start caps: both teams lock at their (equal) size only when
/// each fielded at least two players; otherwise no team is locked (`-1`).
pub open spec fn spec_snapshot_caps(red: i32, blue: i32) -> (i32, i32) {
    if red >= 2 && blue >= 2 && red == blue {
        (red, blue)
    } else {
        (-1i32, -1i32)
    }
}

pub fn snapshot_caps(red: i32, blue: i32) -> (r: (i32, i32))
    ensures
        r == spec_snapshot_caps(red, blue),
{
    if red >= 2 && blue >= 2 && red == blue {
        (red, blue)
    } else {
        (-1, -1)
    }
}

/// A team is full when it is locked (`cap >= 0`) and at or above its cap.
pub open spec fn team_full(cap: i32, count: i32) -> bool {
    cap >= 0 && count >= cap
}

/// Whether an auto pick (`team free`, an empty string, or any other request
/// the game routes through `PickTeam`) must be refused: only when every
/// locked team is already at its cap.
pub fn auto_join_blocked(red_max: i32, blue_max: i32, red: i32, blue: i32) -> (r: bool)
    ensures
        r == (team_full(red_max, red) && team_full(blue_max, blue)),
{
    let red_full = red_max >= 0 && red >= red_max;
    let blue_full = blue_max >= 0 && blue >= blue_max;
    red_full && blue_full
}

/// ASCII lower-casing of one byte.
pub open spec fn ascii_lower(c: u8) -> u8 {
    if 65 <= c <= 90 {
        (c + 32) as u8
    } else {
        c
    }
}

/// Equal length and equal bytes up to ASCII case.
pub open spec fn eq_ignore_case(a: Seq<u8>, b: Seq<u8>) -> bool {
    a.len() == b.len() && forall|i: int| 0 <= i < a.len() ==> ascii_lower(a[i]) == ascii_lower(b[i])
}

fn ascii_lower_exec(c: u8) -> (r: u8)
    ensures
        r == ascii_lower(c),
{
    if 65 <= c && c <= 90 {
        c + 32
    } else {
        c
    }
}

pub fn ascii_eq_ignore_case(a: &[u8], b: &[u8]) -> (r: bool)
    ensures
        r == eq_ignore_case(a@, b@),
{
    if a.len() != b.len() {
        return false;
    }
    let mut i: usize = 0;
    while i < a.len()
        invariant
            a@.len() == b@.len(),
            i <= a@.len(),
            forall|j: int| 0 <= j < i ==> ascii_lower(a@[j]) == ascii_lower(b@[j]),
        decreases a@.len() - i,
    {
        if ascii_lower_exec(a[i]) != ascii_lower_exec(b[i]) {
            return false;
        }
        i += 1;
    }
    true
}

/// The request words `SetTeam` understands, as bytes.
pub open spec fn word_red() -> Seq<u8> {
    seq![114u8, 101, 100]
}

pub open spec fn word_r() -> Seq<u8> {
    seq![114u8]
}

pub open spec fn word_blue() -> Seq<u8> {
    seq![98u8, 108, 117, 101]
}

pub open spec fn word_b() -> Seq<u8> {
    seq![98u8]
}

pub open spec fn word_spectator() -> Seq<u8> {
    seq![115u8, 112, 101, 99, 116, 97, 116, 111, 114]
}

pub open spec fn word_s() -> Seq<u8> {
    seq![115u8]
}

pub open spec fn word_score() -> Seq<u8> {
    seq![115u8, 99, 111, 114, 101]
}

pub open spec fn word_scoreboard() -> Seq<u8> {
    seq![115u8, 99, 111, 114, 101, 98, 111, 97, 114, 100]
}

pub open spec fn word_follow1() -> Seq<u8> {
    seq![102u8, 111, 108, 108, 111, 119, 49]
}

pub open spec fn word_follow2() -> Seq<u8> {
    seq![102u8, 111, 108, 108, 111, 119, 50]
}

/// The team an explicit `red`/`blue` request names (`None` for anything
/// else, and for a missing request string).
pub open spec fn spec_requested_team(s: Option<Seq<u8>>) -> Option<i32> {
    match s {
        None => None,
        Some(b) => if eq_ignore_case(b, word_red()) || eq_ignore_case(b, word_r()) {
            Some(TEAM_RED)
        } else if eq_ignore_case(b, word_blue()) || eq_ignore_case(b, word_b()) {
            Some(TEAM_BLUE)
        } else {
            None
        },
    }
}

/// Whether the request is one of the arms `SetTeam` treats as spectator.
pub open spec fn spec_requested_spectator(s: Option<Seq<u8>>) -> bool {
    match s {
        None => false,
        Some(b) => eq_ignore_case(b, word_spectator()) || eq_ignore_case(b, word_s())
            || eq_ignore_case(b, word_score()) || eq_ignore_case(b, word_scoreboard())
            || eq_ignore_case(b, word_follow1()) || eq_ignore_case(b, word_follow2()),
    }
}

pub open spec fn opt_view(s: Option<&[u8]>) -> Option<Seq<u8>> {
    match s {
        None => None,
        Some(b) => Some(b@),
    }
}

/// The team an explicit `red`/`blue` (or `r`/`b`, any case) request names;
/// `None` when the request is not a direct team join. `s` is the request
/// string before its NUL, `None` for a null pointer.
pub fn requested_team(s: Option<&[u8]>) -> (r: Option<i32>)
    ensures
        r == spec_requested_team(opt_view(s)),
{
    match s {
        None => None,
        Some(b) => {
            let red: [u8; 3] = [114, 101, 100];
            let r1: [u8; 1] = [114];
            let blue: [u8; 4] = [98, 108, 117, 101];
            let b1: [u8; 1] = [98];
            assert(red@ == word_red());
            assert(r1@ == word_r());
            assert(blue@ == word_blue());
            assert(b1@ == word_b());
            if ascii_eq_ignore_case(b, red.as_slice()) || ascii_eq_ignore_case(b, r1.as_slice()) {
                Some(TEAM_RED)
            } else if ascii_eq_ignore_case(b, blue.as_slice()) || ascii_eq_ignore_case(
                b,
                b1.as_slice(),
            ) {
                Some(TEAM_BLUE)
            } else {
                None
            }
        },
    }
}

/// Whether the request explicitly selects the spectator team — the exact
/// arms `SetTeam` treats as spectator. Everything else that is not an
/// explicit `red`/`blue` falls through to `PickTeam` (auto pick).
pub fn requested_spectator(s: Option<&[u8]>) -> (r: bool)
    ensures
        r == spec_requested_spectator(opt_view(s)),
{
    match s {
        None => false,
        Some(b) => {
            let w1: [u8; 9] = [115, 112, 101, 99, 116, 97, 116, 111, 114];
            let w2: [u8; 1] = [115];
            let w3: [u8; 5] = [115, 99, 111, 114, 101];
            let w4: [u8; 10] = [115, 99, 111, 114, 101, 98, 111, 97, 114, 100];
            let w5: [u8; 7] = [102, 111, 108, 108, 111, 119, 49];
            let w6: [u8; 7] = [102, 111, 108, 108, 111, 119, 50];
            assert(w1@ == word_spectator());
            assert(w2@ == word_s());
            assert(w3@ == word_score());
            assert(w4@ == word_scoreboard());
            assert(w5@ == word_follow1());
            assert(w6@ == word_follow2());
            ascii_eq_ignore_case(b, w1.as_slice()) || ascii_eq_ignore_case(b, w2.as_slice())
                || ascii_eq_ignore_case(b, w3.as_slice()) || ascii_eq_ignore_case(b, w4.as_slice())
                || ascii_eq_ignore_case(b, w5.as_slice()) || ascii_eq_ignore_case(
                b,
                w6.as_slice(),
            )
        },
    }
}

/// One player slot as the team count reads it from game memory: whether
/// the entity has a client, its `pers.connected` state and its
/// `sess.sessionTeam`.
#[derive(Debug, Clone, Copy, PartialEq, Eq, Structural)]
pub struct RosterSlot {
    pub has_client: bool,
    pub connected: i32,
    pub session_team: i32,
}

/// Whether a slot counts for `team`: a client that is not disconnected and
/// sits on that team (the game's `TeamCount`).
pub open spec fn counts_for(slot: RosterSlot, team: i32) -> bool {
    slot.has_client && slot.connected != CON_DISCONNECTED && slot.session_team == team
}

/// Number of slots of `roster` counting for `team`.
pub open spec fn spec_team_count(roster: Seq<RosterSlot>, team: i32) -> nat
    decreases roster.len(),
{
    if roster.len() == 0 {
        0
    } else {
        spec_team_count(roster.drop_last(), team) + if counts_for(roster.last(), team) {
            1nat
        } else {
            0nat
        }
    }
}

proof fn lemma_team_count_bound(roster: Seq<RosterSlot>, team: i32)
    ensures
        spec_team_count(roster, team) <= roster.len(),
    decreases roster.len(),
{
    if roster.len() > 0 {
        lemma_team_count_bound(roster.drop_last(), team);
    }
}

/// Count a team exactly like the game's `TeamCount`: every connected
/// client whose session team matches.
pub fn team_count(roster: &[RosterSlot], team: i32) -> (r: i32)
    requires
        roster@.len() <= i32::MAX,
    ensures
        r == spec_team_count(roster@, team),
{
    let mut count: i32 = 0;
    let mut i: usize = 0;
    while i < roster.len()
        invariant
            i <= roster@.len() <= i32::MAX,
            count == spec_team_count(roster@.subrange(0, i as int), team),
        decreases roster@.len() - i,
    {
        proof {
            lemma_team_count_bound(roster@.subrange(0, i as int), team);
            assert(roster@.subrange(0, i + 1).drop_last() =~= roster@.subrange(0, i as int));
        }
        let slot = roster[i];
        if slot.has_client && slot.connected != CON_DISCONNECTED && slot.session_team == team {
            count += 1;
        }
        i += 1;
    }
    assert(roster@.subrange(0, roster@.len() as int) =~= roster@);
    count
}

/// The lock state: armed at a map load or restart (`pending`), fed by the
/// reconnect burst (`saw_reconnect`), and the caps of the current round
/// (`-1` = that team is not locked).
#[derive(Debug, Clone, Copy, PartialEq, Eq, Structural)]
pub struct TeamLock {
    pub pending: bool,
    pub saw_reconnect: bool,
    pub red_max: i32,
    pub blue_max: i32,
}

impl TeamLock {
    /// Caps are either both off or both at one even size of at least two.
    pub open spec fn caps_valid(&self) -> bool {
        (self.red_max == -1 && self.blue_max == -1) || (self.red_max >= 2 && self.red_max
            == self.blue_max)
    }

    /// A fresh lock: armed, no reconnect seen, nothing locked.
    pub fn new() -> (r: TeamLock)
        ensures
            r.pending,
            !r.saw_reconnect,
            r.red_max == -1,
            r.blue_max == -1,
            r.caps_valid(),
    {
        TeamLock { pending: true, saw_reconnect: false, red_max: -1, blue_max: -1 }
    }

    /// A map load or restart starts a new round: re-arm the snapshot and
    /// release the previous round's caps.
    pub fn on_game_init(&mut self)
        ensures
            final(self).pending,
            !final(self).saw_reconnect,
            final(self).red_max == -1,
            final(self).blue_max == -1,
    {
        self.pending = true;
        self.saw_reconnect = false;
        self.red_max = -1;
        self.blue_max = -1;
    }

    /// `GAME_CLIENT_CONNECT`: a `firstTime == qfalse` connect is part of
    /// the map-load/map-restart reconnect burst, i.e. the round start.
    pub fn on_client_connect(&mut self, first_time: bool)
        ensures
            *final(self) == (if first_time {
                *old(self)
            } else {
                TeamLock { saw_reconnect: true, ..*old(self) }
            }),
    {
        if first_time {
            return;
        }
        self.saw_reconnect = true;
    }

    /// Whether the next frame takes the roster snapshot.
    pub fn snapshot_due(&self) -> (r: bool)
        ensures
            r == (self.pending && self.saw_reconnect),
    {
        self.pending && self.saw_reconnect
    }

    /// `GAME_RUN_FRAME`: on the first frame after the reconnect burst take
    /// the roster snapshot — caps from `snapshot_caps` when the feature is
    /// on for a team gametype (`lock_enabled`), none otherwise — and disarm.
    /// Returns whether the snapshot was taken.
    pub fn on_run_frame(&mut self, lock_enabled: bool, red: i32, blue: i32) -> (taken: bool)
        ensures
            taken == (old(self).pending && old(self).saw_reconnect),
            taken ==> final(self).pending == false && final(self).saw_reconnect == old(
                self,
            ).saw_reconnect && (final(self).red_max, final(self).blue_max) == (if lock_enabled {
                spec_snapshot_caps(red, blue)
            } else {
                (-1i32, -1i32)
            }),
            !taken ==> *final(self) == *old(self),
            old(self).caps_valid() ==> final(self).caps_valid(),
    {
        if !(self.pending && self.saw_reconnect) {
            return false;
        }
        let (red_max, blue_max) = if lock_enabled {
            snapshot_caps(red, blue)
        } else {
            (-1, -1)
        };
        self.red_max = red_max;
        self.blue_max = blue_max;
        self.pending = false;
        true
    }
}

/// The join `SetTeam` must drop under the current lock, as the team the
/// refusal names; `None` when the call goes through.
///
/// `active` is the master switch and the feature gate, `old_team` the
/// caller's session team (`None` when the entity has no client), counts are
/// the live team sizes. An explicit join to a locked, full team is refused;
/// an auto pick is refused once every locked team is full and then names
/// the least-populated team (red on a tie); spectator requests, same-team
/// requests and games outside the team modes pass.
pub open spec fn spec_blocked_join(
    active: bool,
    request: Option<Seq<u8>>,
    old_team: Option<i32>,
    lock: TeamLock,
    gametype_supported: bool,
    red_count: i32,
    blue_count: i32,
) -> Option<i32> {
    let explicit = spec_requested_team(request);
    if !active {
        None
    } else if explicit is None && spec_requested_spectator(request) {
        None
    } else if old_team is None {
        None
    } else if explicit == Some(old_team->0) {
        None
    } else if lock.red_max < 0 && lock.blue_max < 0 {
        None
    } else if !gametype_supported {
        None
    } else {
        match explicit {
            Some(team) => {
                let (cap, count) = if team == TEAM_RED {
                    (lock.red_max, red_count)
                } else {
                    (lock.blue_max, blue_count)
                };
                if cap < 0 || count < cap {
                    None
                } else {
                    Some(team)
                }
            },
            None => if !(team_full(lock.red_max, red_count) && team_full(lock.blue_max, blue_count)) {
                None
            } else if red_count <= blue_count {
                Some(TEAM_RED)
            } else {
                Some(TEAM_BLUE)
            },
        }
    }
}

pub fn blocked_join(
    active: bool,
    request: Option<&[u8]>,
    old_team: Option<i32>,
    lock: &TeamLock,
    gametype_supported: bool,
    red_count: i32,
    blue_count: i32,
) -> (r: Option<i32>)
    ensures
        r == spec_blocked_join(
            active,
            opt_view(request),
            old_team,
            *lock,
            gametype_supported,
            red_count,
            blue_count,
        ),
{
    if !active {
        return None;
    }
    let explicit = requested_team(request);
    if explicit.is_none() && requested_spectator(request) {
        return None;
    }
    let old = match old_team {
        None => {
            return None;
        },
        Some(t) => t,
    };
    if explicit == Some(old) {
        return None;
    }
    if lock.red_max < 0 && lock.blue_max < 0 {
        return None;
    }
    if !gametype_supported {
        return None;
    }
    match explicit {
        Some(team) => {
            let (cap, count) = if team == TEAM_RED {
                (lock.red_max, red_count)
            } else {
                (lock.blue_max, blue_count)
            };
            if cap < 0 || count < cap {
                None
            } else {
                Some(team)
            }
        },
        None => {
            if !auto_join_blocked(lock.red_max, lock.blue_max, red_count, blue_count) {
                return None;
            }
            if red_count <= blue_count {
                Some(TEAM_RED)
            } else {
                Some(TEAM_BLUE)
            }
        },
    }
}

/// The colored team name used in the refusal.
pub open spec fn team_label(team: i32) -> Seq<u8> {
    if team == TEAM_RED {
        "^1Red^7".spec_bytes()
    } else {
        "^4Blue^7".spec_bytes()
    }
}

/// `print "You cannot join the <team> team: teams are locked for ^3R vs B^7.\n"`
pub open spec fn spec_locked_message(team: i32, red_max: i32, blue_max: i32) -> Seq<u8> {
    "print \"You cannot join the ".spec_bytes() + team_label(team)
        + " team: teams are locked for ^3".spec_bytes() + spec_i32_text(red_max as int)
        + " vs ".spec_bytes() + spec_i32_text(blue_max as int) + "^7.\n\"".spec_bytes()
}

/// The server command telling the player why the join was refused, naming
/// both locked sizes.
pub fn locked_message(team: i32, red_max: i32, blue_max: i32) -> (r: Vec<u8>)
    ensures
        r@ == spec_locked_message(team, red_max, blue_max),
{
    let mut out: Vec<u8> = Vec::new();
    push_str(&mut out, "print \"You cannot join the ");
    if team == TEAM_RED {
        push_str(&mut out, "^1Red^7");
    } else {
        push_str(&mut out, "^4Blue^7");
    }
    push_str(&mut out, " team: teams are locked for ^3");
    push_i32(&mut out, red_max);
    push_str(&mut out, " vs ");
    push_i32(&mut out, blue_max);
    push_str(&mut out, "^7.\n\"");
    assert(out@ =~= spec_locked_message(team, red_max, blue_max));
    out
}

/// Law: a spectator, score or follow request is never refused.
pub proof fn law_spectator_requests_pass(
    active: bool,
    request: Seq<u8>,
    old_team: Option<i32>,
    lock: TeamLock,
    gametype_supported: bool,
    red_count: i32,
    blue_count: i32,
)
    requires
        spec_requested_spectator(Some(request)),
    ensures
        spec_blocked_join(
            active,
            Some(request),
            old_team,
            lock,
            gametype_supported,
            red_count,
            blue_count,
        ) is None,
{
    assert(spec_requested_team(Some(request)) is None) by {
        if eq_ignore_case(request, word_red()) || eq_ignore_case(request, word_r())
            || eq_ignore_case(request, word_blue()) || eq_ignore_case(request, word_b()) {
            // The team words and the spectator words differ in length or
            // in their first letter.
            assert(ascii_lower(request[0]) == 114 || ascii_lower(request[0]) == 98);
            assert(ascii_lower(request[0]) == 115 || ascii_lower(request[0]) == 102);
        }
    }
}

/// Law: a round that is not locked refuses nobody.
pub proof fn law_unlocked_round_refuses_nobody(
    active: bool,
    request: Option<Seq<u8>>,
    old_team: Option<i32>,
    lock: TeamLock,
    gametype_supported: bool,
    red_count: i32,
    blue_count: i32,
)
    requires
        lock.red_max == -1,
        lock.blue_max == -1,
    ensures
        spec_blocked_join(
            active,
            request,
            old_team,
            lock,
            gametype_supported,
            red_count,
            blue_count,
        ) is None,
{
}

/// Law: caps are reservations — a refused explicit join names a team that
/// is locked and full, and a refused auto pick happens only when every
/// locked team is full.
pub proof fn law_refusals_need_full_teams(
    active: bool,
    request: Option<Seq<u8>>,
    old_team: Option<i32>,
    lock: TeamLock,
    gametype_supported: bool,
    red_count: i32,
    blue_count: i32,
)
    ensures
        ({
            let r = spec_blocked_join(
                active,
                request,
                old_team,
                lock,
                gametype_supported,
                red_count,
                blue_count,
            );
            r is Some ==> match spec_requested_team(request) {
                Some(team) => r == Some(team) && (if team == TEAM_RED {
                    team_full(lock.red_max, red_count)
                } else {
                    team_full(lock.blue_max, blue_count)
                }),
                None => team_full(lock.red_max, red_count) && team_full(lock.blue_max, blue_count),
            }
        }),
{
}

/// Law: with the lock active in a team game, an explicit join of red or
/// blue from another team is refused — naming that team — exactly when
/// that team is locked (cap at least 0) and already holds its cap;
/// otherwise it goes through. Red and blue are treated alike.
pub proof fn law_explicit_join_refused_iff_full(
    request: Option<Seq<u8>>,
    old_team: i32,
    lock: TeamLock,
    red_count: i32,
    blue_count: i32,
    team: i32,
)
    requires
        spec_requested_team(request) == Some(team),
        team == TEAM_RED || team == TEAM_BLUE,
        team != old_team,
    ensures
        spec_blocked_join(true, request, Some(old_team), lock, true, red_count, blue_count) == (if (
        team == TEAM_RED && lock.red_max >= 0 && red_count >= lock.red_max) || (team == TEAM_BLUE
            && lock.blue_max >= 0 && blue_count >= lock.blue_max) {
            Some(team)
        } else {
            None
        }),
{
}

/// Law: with the lock active in a team game, an automatic pick (neither a
/// team nor a spectator request) is refused exactly when both teams are
/// locked and each holds its cap, and the refusal then names the team with
/// fewer players (red on a tie).
pub proof fn law_auto_pick_refused_iff_both_full(
    request: Option<Seq<u8>>,
    old_team: i32,
    lock: TeamLock,
    red_count: i32,
    blue_count: i32,
)
    requires
        spec_requested_team(request) is None,
        !spec_requested_spectator(request),
    ensures
        spec_blocked_join(true, request, Some(old_team), lock, true, red_count, blue_count) == (if
            lock.red_max >= 0 && red_count >= lock.red_max && lock.blue_max >= 0 && blue_count
            >= lock.blue_max {
            Some(if red_count <= blue_count { TEAM_RED } else { TEAM_BLUE })
        } else {
            None
        }),
{
}

/// Law: the snapshot locks a round only at one even size of at least two,
/// and every state the lock goes through keeps that shape.
pub proof fn law_locked_rounds_are_even(red: i32, blue: i32)
    ensures
        ({
            let (r, b) = spec_snapshot_caps(red, blue);
            (r == -1 && b == -1) || (r == b && r >= 2 && r == red && b == blue)
        }),
{
}

} // verus!
