//! Decisions of the game hooks: the damage and kill statistics, the
//! anti-HP-teller pain quantisation, the minimum jump time, and the
//! integer parts of the end-of-game statistics tables.

use vstd::prelude::*;
use vstd::string::StringSliceAdditionalSpecFns;

use crate::sdk::{MAX_CLIENTS, TEAM_BLUE, TEAM_RED};
use crate::state::{client_entry_wf, ClientEntry, GameStats};
use crate::text::{push_bytes, push_i32, push_str, spec_i32_text};

verus! {

/// `EV_PAIN`, the pain event whose parameter tells the victim's health.
pub const EV_PAIN: i32 = 89;

/// Whether a pair of teams makes a team kill or team damage: both on the
/// same playing team.
pub open spec fn spec_is_same_team(a: i32, b: i32) -> bool {
    (a == TEAM_RED || a == TEAM_BLUE) && a == b
}

pub fn is_same_team(a: i32, b: i32) -> (r: bool)
    ensures
        r == spec_is_same_team(a, b),
{
    (a == TEAM_RED || a == TEAM_BLUE) && a == b
}

/// Health and armor as the damage accounting counts them (negatives as 0).
pub open spec fn total_health(armor: i32, health: i32) -> int {
    (if armor > 0 {
        armor as int
    } else {
        0
    }) + (if health > 0 {
        health as int
    } else {
        0
    })
}

/// The damage a hit dealt: the drop of the target's counted health and
/// armor across the game's own damage handling (in the game's wrapping
/// int arithmetic).
pub fn damage_dealt(armor_before: i32, health_before: i32, armor_after: i32, health_after: i32) -> (r:
    i32)
    ensures
        r == (total_health(armor_before, health_before) - total_health(
            armor_after,
            health_after,
        )) as i32,
{
    let a0 = if armor_before > 0 {
        armor_before as i64
    } else {
        0
    };
    let h0 = if health_before > 0 {
        health_before as i64
    } else {
        0
    };
    let a1 = if armor_after > 0 {
        armor_after as i64
    } else {
        0
    };
    let h1 = if health_after > 0 {
        health_after as i64
    } else {
        0
    };
    let d = a0 + h0 - a1 - h1;
    d as i32
}

/// The cell `(i, j)` of the statistics after a hit of `d` by `a` on `t`:
/// `a` gave `d` to `t`, `t` took `d` from `a` (wrapping int sums).
pub open spec fn cell_after_damage(c: GameStats, i: int, j: int, a: int, t: int, d: i32) -> GameStats {
    GameStats {
        damages_given: if i == a && j == t {
            c.damages_given.wrapping_add(d)
        } else {
            c.damages_given
        },
        damages_taken: if i == t && j == a {
            c.damages_taken.wrapping_add(d)
        } else {
            c.damages_taken
        },
        ..c
    }
}

/// The cell `(i, j)` after `a` killed `t`.
pub open spec fn cell_after_kill(c: GameStats, i: int, j: int, a: int, t: int) -> GameStats {
    GameStats {
        killed: if i == a && j == t {
            c.killed.wrapping_add(1)
        } else {
            c.killed
        },
        killed_by: if i == t && j == a {
            c.killed_by.wrapping_add(1)
        } else {
            c.killed_by
        },
        ..c
    }
}

/// Everything but the statistics is untouched.
pub open spec fn same_but_stats(old: ClientEntry, new: ClientEntry) -> bool {
    &&& client_entry_wf(new)
    &&& new.is_connected == old.is_connected
    &&& new.clean_name@ == old.clean_name@
    &&& new.timenudge_data == old.timenudge_data
    &&& new.timenudge == old.timenudge
    &&& new.last_time_net_status == old.last_time_net_status
    &&& new.cmd_stats@ == old.cmd_stats@
    &&& new.cmd_index == old.cmd_index
    &&& new.packet_counter == old.packet_counter
}

pub open spec fn clients_wf(c: Seq<ClientEntry>) -> bool {
    c.len() == MAX_CLIENTS && forall|i: int| 0 <= i < MAX_CLIENTS ==> client_entry_wf(#[trigger] c[i])
}

/// Add to one cell of one client's statistics and to its team tallies.
fn bump_client(
    clients: &mut Vec<ClientEntry>,
    who: usize,
    opponent: usize,
    delta: GameStats,
    team: (i32, i32, i32, i32),
)
    requires
        clients_wf(old(clients)@),
        who < MAX_CLIENTS,
        opponent < MAX_CLIENTS,
    ensures
        clients_wf(final(clients)@),
        forall|i: int|
            0 <= i < MAX_CLIENTS && i != who ==> #[trigger] final(clients)@[i] == old(clients)@[i],
        same_but_stats(old(clients)@[who as int], final(clients)@[who as int]),
        ({
            let o = old(clients)@[who as int];
            let n = final(clients)@[who as int];
            &&& forall|j: int|
                0 <= j < MAX_CLIENTS && j != opponent ==> #[trigger] n.game_stats@[j]
                    == o.game_stats@[j]
            &&& n.game_stats@[opponent as int] == (GameStats {
                killed: o.game_stats@[opponent as int].killed.wrapping_add(delta.killed),
                killed_by: o.game_stats@[opponent as int].killed_by.wrapping_add(delta.killed_by),
                damages_given: o.game_stats@[opponent as int].damages_given.wrapping_add(
                    delta.damages_given,
                ),
                damages_taken: o.game_stats@[opponent as int].damages_taken.wrapping_add(
                    delta.damages_taken,
                ),
            })
            &&& n.team_kills == o.team_kills.wrapping_add(team.0)
            &&& n.team_killed == o.team_killed.wrapping_add(team.1)
            &&& n.team_damages_given == o.team_damages_given.wrapping_add(team.2)
            &&& n.team_damages_taken == o.team_damages_taken.wrapping_add(team.3)
        }),
{
    let ghost before = clients@;
    let mut e = clients.remove(who);
    let c = e.game_stats[opponent];
    let n = GameStats {
        killed: c.killed.wrapping_add(delta.killed),
        killed_by: c.killed_by.wrapping_add(delta.killed_by),
        damages_given: c.damages_given.wrapping_add(delta.damages_given),
        damages_taken: c.damages_taken.wrapping_add(delta.damages_taken),
    };
    e.game_stats.set(opponent, n);
    e.team_kills = e.team_kills.wrapping_add(team.0);
    e.team_killed = e.team_killed.wrapping_add(team.1);
    e.team_damages_given = e.team_damages_given.wrapping_add(team.2);
    e.team_damages_taken = e.team_damages_taken.wrapping_add(team.3);
    clients.insert(who, e);
    assert forall|i: int| 0 <= i < MAX_CLIENTS && i != who implies #[trigger] clients@[i]
        == before[i] by {
        if i < who {
            assert(clients@[i] == before.remove(who as int)[i]);
        } else {
            assert(clients@[i] == before.remove(who as int)[i - 1]);
        }
    }
}

/// `G_Damage` accounting: a hit of `damages` by client `attacker` on
/// client `target` goes to both ends' statistics, and to their team damage
/// tallies when they are on the same playing team.
pub fn account_damage(
    clients: &mut Vec<ClientEntry>,
    attacker: usize,
    target: usize,
    damages: i32,
    is_team: bool,
)
    requires
        clients_wf(old(clients)@),
        attacker < MAX_CLIENTS,
        target < MAX_CLIENTS,
    ensures
        clients_wf(final(clients)@),
        forall|i: int|
            0 <= i < MAX_CLIENTS ==> same_but_stats(old(clients)@[i], #[trigger] final(clients)@[i]),
        forall|i: int, j: int|
            0 <= i < MAX_CLIENTS && 0 <= j < MAX_CLIENTS ==> #[trigger] final(clients)@[i].game_stats@[j] == cell_after_damage(
                old(clients)@[i].game_stats@[j],
                i,
                j,
                attacker as int,
                target as int,
                damages,
            ),
        forall|i: int|
            0 <= i < MAX_CLIENTS ==> #[trigger] final(clients)@[i].team_damages_given == (if i
                == attacker && is_team {
                old(clients)@[i].team_damages_given.wrapping_add(damages)
            } else {
                old(clients)@[i].team_damages_given
            }),
        forall|i: int|
            0 <= i < MAX_CLIENTS ==> #[trigger] final(clients)@[i].team_damages_taken == (if i
                == target && is_team {
                old(clients)@[i].team_damages_taken.wrapping_add(damages)
            } else {
                old(clients)@[i].team_damages_taken
            }),
        forall|i: int|
            0 <= i < MAX_CLIENTS ==> #[trigger] final(clients)@[i].team_kills == old(clients)@[i].team_kills && final(clients)@[i].team_killed == old(clients)@[i].team_killed,
{
    let zero = GameStats { killed: 0, killed_by: 0, damages_given: 0, damages_taken: 0 };
    let t = if is_team {
        damages
    } else {
        0
    };
    bump_client(
        clients,
        attacker,
        target,
        GameStats { damages_given: damages, ..zero },
        (0, 0, t, 0),
    );
    bump_client(
        clients,
        target,
        attacker,
        GameStats { damages_taken: damages, ..zero },
        (0, 0, 0, t),
    );
}

/// `player_die` accounting: client `attacker` killed client `victim`; both
/// ends' statistics count it, and their team tallies when they are on the
/// same playing team.
pub fn account_kill(clients: &mut Vec<ClientEntry>, attacker: usize, victim: usize, is_team: bool)
    requires
        clients_wf(old(clients)@),
        attacker < MAX_CLIENTS,
        victim < MAX_CLIENTS,
    ensures
        clients_wf(final(clients)@),
        forall|i: int|
            0 <= i < MAX_CLIENTS ==> same_but_stats(old(clients)@[i], #[trigger] final(clients)@[i]),
        forall|i: int, j: int|
            0 <= i < MAX_CLIENTS && 0 <= j < MAX_CLIENTS ==> #[trigger] final(clients)@[i].game_stats@[j] == cell_after_kill(
                old(clients)@[i].game_stats@[j],
                i,
                j,
                attacker as int,
                victim as int,
            ),
        forall|i: int|
            0 <= i < MAX_CLIENTS ==> #[trigger] final(clients)@[i].team_kills == (if i == attacker
                && is_team {
                old(clients)@[i].team_kills.wrapping_add(1)
            } else {
                old(clients)@[i].team_kills
            }),
        forall|i: int|
            0 <= i < MAX_CLIENTS ==> #[trigger] final(clients)@[i].team_killed == (if i == victim
                && is_team {
                old(clients)@[i].team_killed.wrapping_add(1)
            } else {
                old(clients)@[i].team_killed
            }),
        forall|i: int|
            0 <= i < MAX_CLIENTS ==> #[trigger] final(clients)@[i].team_damages_given == old(clients)@[i].team_damages_given && final(clients)@[i].team_damages_taken == old(clients)@[i].team_damages_taken,
{
    let zero = GameStats { killed: 0, killed_by: 0, damages_given: 0, damages_taken: 0 };
    let t: i32 = if is_team {
        1
    } else {
        0
    };
    bump_client(clients, attacker, victim, GameStats { killed: 1, ..zero }, (t, 0, 0, 0));
    bump_client(clients, victim, attacker, GameStats { killed_by: 1, ..zero }, (0, t, 0, 0));
}

/// The pain event parameter as sent: with the anti-HP-teller on, an
/// `EV_PAIN` health is rounded up to 24, 49, 74 or 100, so it no longer
/// tells the exact health.
pub open spec fn spec_pain_parm(event: i32, parm: i32, anti_hp: bool) -> i32 {
    if event == EV_PAIN && anti_hp {
        if parm < 25 {
            24
        } else if parm < 50 {
            49
        } else if parm < 75 {
            74
        } else {
            100
        }
    } else {
        parm
    }
}

pub fn pain_parm(event: i32, parm: i32, anti_hp: bool) -> (r: i32)
    ensures
        r == spec_pain_parm(event, parm, anti_hp),
{
    if event == EV_PAIN && anti_hp {
        if parm < 25 {
            24
        } else if parm < 50 {
            49
        } else if parm < 75 {
            74
        } else {
            100
        }
    } else {
        parm
    }
}

/// The absolute value of a wrapped time difference, as the game's int
/// arithmetic gives it (`i32::MIN` stays itself).
pub open spec fn wrapped_abs(d: i32) -> i32 {
    if d == i32::MIN {
        d
    } else if d < 0 {
        (-d) as i32
    } else {
        d
    }
}

/// The minimum jump time for one think: the new jump start of the client
/// and whether its jump key is held down this frame.
pub open spec fn spec_jump_step(
    jump_start: i32,
    level_time: i32,
    upmove: i32,
    is_spectator: bool,
    min_jump_time: i32,
) -> (i32, bool) {
    if min_jump_time <= 0 {
        (jump_start, false)
    } else if !is_spectator && upmove > 0 {
        if jump_start == 0 {
            (level_time, true)
        } else {
            (jump_start, false)
        }
    } else if jump_start != 0 {
        if wrapped_abs(level_time.wrapping_sub(jump_start)) < min_jump_time {
            (jump_start, true)
        } else {
            (0, false)
        }
    } else {
        (jump_start, false)
    }
}

/// A jump that started is held for at least `min_jump_time` ms: the first
/// frame with the jump key records the start and holds it, and once the
/// key is released it stays held until the time is up, then the timer
/// resets. Returns the new start and whether to force the key down.
pub fn jump_step(
    jump_start: i32,
    level_time: i32,
    upmove: i32,
    is_spectator: bool,
    min_jump_time: i32,
) -> (r: (i32, bool))
    ensures
        r == spec_jump_step(jump_start, level_time, upmove, is_spectator, min_jump_time),
{
    if min_jump_time <= 0 {
        return (jump_start, false);
    }
    if !is_spectator && upmove > 0 {
        if jump_start == 0 {
            (level_time, true)
        } else {
            (jump_start, false)
        }
    } else if jump_start != 0 {
        let d = level_time.wrapping_sub(jump_start);
        let a = if d == i32::MIN {
            d
        } else if d < 0 {
            -d
        } else {
            d
        };
        if a < min_jump_time {
            (jump_start, true)
        } else {
            (0, false)
        }
    } else {
        (jump_start, false)
    }
}

/// `Q_strncpyz` into `size` bytes then `%<width>.<width>s`: at most
/// `size - 1` (and at most `width`) bytes of `src`, right-aligned in
/// `width` columns.
pub open spec fn spec_printf_str(src: Seq<u8>, size: nat, width: nat) -> Seq<u8> {
    let cap = if size == 0 {
        0
    } else if size - 1 < width {
        (size - 1) as nat
    } else {
        width
    };
    let len = if cap < src.len() {
        cap
    } else {
        src.len()
    };
    Seq::new((width - len) as nat, |i: int| 32u8) + src.subrange(0, len as int)
}

pub fn printf_str(src: &[u8], size: usize, width: usize) -> (r: Vec<u8>)
    ensures
        r@ == spec_printf_str(src@, size as nat, width as nat),
{
    let cap = if size == 0 {
        0
    } else if size - 1 < width {
        size - 1
    } else {
        width
    };
    let len = if cap < src.len() {
        cap
    } else {
        src.len()
    };
    let mut out: Vec<u8> = Vec::new();
    let mut k: usize = 0;
    while k < width - len
        invariant
            len <= width,
            k <= width - len,
            out@ =~= Seq::new(k as nat, |i: int| 32u8),
        decreases width - len - k,
    {
        out.push(32);
        k += 1;
    }
    push_bytes(&mut out, vstd::slice::slice_subrange(src, 0, len));
    out
}

/// A client's damage totals over every opponent (wrapping int sums).
pub open spec fn given_total(stats: Seq<GameStats>, n: int) -> i32
    decreases n,
{
    if n <= 0 {
        0
    } else {
        given_total(stats, n - 1).wrapping_add(stats[n - 1].damages_given)
    }
}

pub open spec fn taken_total(stats: Seq<GameStats>, n: int) -> i32
    decreases n,
{
    if n <= 0 {
        0
    } else {
        taken_total(stats, n - 1).wrapping_add(stats[n - 1].damages_taken)
    }
}

pub fn damage_totals(entry: &ClientEntry) -> (r: (i32, i32))
    requires
        client_entry_wf(*entry),
    ensures
        r == (given_total(entry.game_stats@, MAX_CLIENTS as int), taken_total(
            entry.game_stats@,
            MAX_CLIENTS as int,
        )),
{
    let mut given: i32 = 0;
    let mut taken: i32 = 0;
    let mut i: usize = 0;
    while i < MAX_CLIENTS
        invariant
            client_entry_wf(*entry),
            i <= MAX_CLIENTS,
            given == given_total(entry.game_stats@, i as int),
            taken == taken_total(entry.game_stats@, i as int),
        decreases MAX_CLIENTS - i,
    {
        given = given.wrapping_add(entry.game_stats[i].damages_given);
        taken = taken.wrapping_add(entry.game_stats[i].damages_taken);
        i += 1;
    }
    (given, taken)
}

/// `a/b`, the team kills and team damages columns.
pub fn tally_text(a: i32, b: i32) -> (r: Vec<u8>)
    ensures
        r@ == spec_i32_text(a as int) + seq![47u8] + spec_i32_text(b as int),
{
    let mut out: Vec<u8> = Vec::new();
    push_i32(&mut out, a);
    out.push(47);
    push_i32(&mut out, b);
    out
}

/// A personal-table row is shown for an opponent the viewer dealt damage to
/// or took damage from.
pub fn personal_row_shown(cell: &GameStats) -> (r: bool)
    ensures
        r == (cell.damages_given > 0 || cell.damages_taken > 0),
{
    cell.damages_given > 0 || cell.damages_taken > 0
}

/// The numbers of one global-table row: damages given net of team damage
/// given, damages taken, their difference and the kill difference
/// (wrapping int arithmetic, as the game computes).
#[derive(Debug, Clone, Copy, PartialEq, Eq, Structural)]
pub struct GlobalRow {
    pub damages_given: i32,
    pub damages_taken: i32,
    pub damages_diff: i32,
    pub kills_diff: i32,
}

/// The global-table row of a client with game score `score` and `killed`
/// deaths; `None` (no row) when it neither dealt nor took damage.
pub fn global_row(entry: &ClientEntry, score: i32, killed: i32) -> (r: Option<GlobalRow>)
    requires
        client_entry_wf(*entry),
    ensures
        ({
            let given = given_total(entry.game_stats@, MAX_CLIENTS as int);
            let taken = taken_total(entry.game_stats@, MAX_CLIENTS as int);
            let net = given.wrapping_sub(entry.team_damages_given);
            &&& !(given > 0 || taken > 0) ==> r is None
            &&& (given > 0 || taken > 0) ==> r == Some(GlobalRow {
                damages_given: net,
                damages_taken: taken,
                damages_diff: net.wrapping_sub(taken),
                kills_diff: score.wrapping_sub(killed),
            })
        }),
{
    let (given, taken) = damage_totals(entry);
    if !(given > 0 || taken > 0) {
        return None;
    }
    let net = given.wrapping_sub(entry.team_damages_given);
    Some(GlobalRow {
        damages_given: net,
        damages_taken: taken,
        damages_diff: net.wrapping_sub(taken),
        kills_diff: score.wrapping_sub(killed),
    })
}

/// The best players of the global table: the largest damage difference,
/// the largest damage dealt and the largest kill difference, each with its
/// client (`-1` for none yet; ties keep the earlier client).
#[derive(Debug, Clone, Copy, PartialEq, Eq, Structural)]
pub struct BestPlayers {
    pub best_dmg_diff: i32,
    pub best_dmg_client: i32,
    pub highest_dmg: i32,
    pub highest_dmg_client: i32,
    pub best_frag_diff: i32,
    pub best_frag_client: i32,
}

impl BestPlayers {
    /// Nobody yet.
    pub fn new() -> (r: BestPlayers)
        ensures
            r.best_dmg_client == -1 && r.highest_dmg_client == -1 && r.best_frag_client == -1,
            r.best_dmg_diff == i32::MIN && r.highest_dmg == i32::MIN && r.best_frag_diff == i32::MIN,
    {
        BestPlayers {
            best_dmg_diff: i32::MIN,
            best_dmg_client: -1,
            highest_dmg: i32::MIN,
            highest_dmg_client: -1,
            best_frag_diff: i32::MIN,
            best_frag_client: -1,
        }
    }

    /// Take one listed client into account (strictly better replaces).
    pub fn note(&mut self, client_num: i32, damages_diff: i32, damages_given: i32, kills_diff: i32)
        ensures
            (final(self).best_dmg_diff, final(self).best_dmg_client) == (if damages_diff > old(self).best_dmg_diff {
                (damages_diff, client_num)
            } else {
                (old(self).best_dmg_diff, old(self).best_dmg_client)
            }),
            (final(self).highest_dmg, final(self).highest_dmg_client) == (if damages_given > old(self).highest_dmg {
                (damages_given, client_num)
            } else {
                (old(self).highest_dmg, old(self).highest_dmg_client)
            }),
            (final(self).best_frag_diff, final(self).best_frag_client) == (if kills_diff > old(self).best_frag_diff {
                (kills_diff, client_num)
            } else {
                (old(self).best_frag_diff, old(self).best_frag_client)
            }),
    {
        if damages_diff > self.best_dmg_diff {
            self.best_dmg_diff = damages_diff;
            self.best_dmg_client = client_num;
        }
        if damages_given > self.highest_dmg {
            self.highest_dmg = damages_given;
            self.highest_dmg_client = client_num;
        }
        if kills_diff > self.best_frag_diff {
            self.best_frag_diff = kills_diff;
            self.best_frag_client = client_num;
        }
    }
}

/// `{:+}` of an int: the sign always shown.
pub open spec fn signed_text(v: i32) -> Seq<u8> {
    if v >= 0 {
        seq![43u8] + spec_i32_text(v as int)
    } else {
        spec_i32_text(v as int)
    }
}

/// Which best-player line.
#[derive(Debug, Clone, Copy, PartialEq, Eq, Structural)]
pub enum BestKind {
    Mvp,
    HighestDamage,
    BestFragger,
}

/// `print "<title>: <name> (^3<+value>^7)\n"`.
pub open spec fn spec_best_line(kind: BestKind, name: Seq<u8>, value: i32) -> Seq<u8> {
    "print \"".spec_bytes() + (match kind {
        BestKind::Mvp => "MVP: ".spec_bytes(),
        BestKind::HighestDamage => "Highest damage dealer: ".spec_bytes(),
        BestKind::BestFragger => "Best fragger: ".spec_bytes(),
    }) + name + " (^3".spec_bytes() + signed_text(value) + "^7)\n\"".spec_bytes()
}

pub fn best_line(kind: BestKind, name: &[u8], value: i32) -> (r: Vec<u8>)
    ensures
        r@ == spec_best_line(kind, name@, value),
{
    let mut out: Vec<u8> = Vec::new();
    push_str(&mut out, "print \"");
    match kind {
        BestKind::Mvp => push_str(&mut out, "MVP: "),
        BestKind::HighestDamage => push_str(&mut out, "Highest damage dealer: "),
        BestKind::BestFragger => push_str(&mut out, "Best fragger: "),
    }
    push_bytes(&mut out, name);
    push_str(&mut out, " (^3");
    if value >= 0 {
        out.push(43);
    }
    push_i32(&mut out, value);
    push_str(&mut out, "^7)\n\"");
    assert(out@ =~= spec_best_line(kind, name@, value));
    out
}

} // verus!
