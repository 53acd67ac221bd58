//! The traps and `vmMain` events the proxy intercepts: the usercmd
//! sanitiser, the client bookkeeping, the client-command filter and the
//! userinfo model and forcepowers checks.

use vstd::prelude::*;
use vstd::string::StringSliceAdditionalSpecFns;

use crate::hooks::engine_sv::{caseless_eq_upto, caseless_eq_upto_exec, caseless_eq_upto_from};
use crate::teamlock::ascii_lower;
use crate::sdk::{FP_LEVITATION, MAX_CLIENTS, NUM_FORCE_POWERS, ROLL, Usercmd};
use crate::state::{client_entry_wf, is_fresh_client, ClientEntry, LocatedGameData, ProxyState};
use crate::text::{push_bytes, push_str};
use crate::utils::{
    atoi, is_digit, is_printable, is_valid_ascii_str, spec_atoi, spec_strncpyz, strchrs,
    strncpyz, spec_strlen,
};

verus! {

/// Record where the game placed its entities and clients.
pub fn locate_game_data(
    state: &mut ProxyState,
    g_entities: usize,
    num_entities: i32,
    g_entity_size: i32,
    g_clients: usize,
    g_client_size: i32,
)
    ensures
        final(state).located_game_data == (LocatedGameData {
            g_entities,
            num_entities,
            g_entity_size,
            g_clients,
            g_client_size,
        }),
        final(state).clients@ == old(state).clients@,
        final(state).svs_time == old(state).svs_time,
        final(state).enabled == old(state).enabled,
        final(state).jump_start_time@ == old(state).jump_start_time@,
{
    state.located_game_data = LocatedGameData {
        g_entities,
        num_entities,
        g_entity_size,
        g_clients,
        g_client_size,
    };
}

/// The usercmd as the game gets it: a levitation or out-of-range force
/// power selection becomes "none" (`0xFF`), and the view roll is zeroed.
pub fn sanitize_usercmd(cmd: &mut Usercmd)
    ensures
        final(cmd).forcesel == (if old(cmd).forcesel == FP_LEVITATION || old(cmd).forcesel
            >= NUM_FORCE_POWERS {
            0xffu8
        } else {
            old(cmd).forcesel
        }),
        final(cmd).angles@ == old(cmd).angles@.update(ROLL as int, 0),
        final(cmd).server_time == old(cmd).server_time,
        final(cmd).buttons == old(cmd).buttons,
        final(cmd).weapon == old(cmd).weapon,
        final(cmd).invensel == old(cmd).invensel,
        final(cmd).generic_cmd == old(cmd).generic_cmd,
        final(cmd).forwardmove == old(cmd).forwardmove,
        final(cmd).rightmove == old(cmd).rightmove,
        final(cmd).upmove == old(cmd).upmove,
{
    if cmd.forcesel == FP_LEVITATION || cmd.forcesel >= NUM_FORCE_POWERS {
        cmd.forcesel = 0xff;
    }
    cmd.angles[ROLL] = 0;
}

/// The greeting a first-time human client gets.
pub open spec fn spec_welcome_message() -> Seq<u8> {
    "print \"^5jampgame_proxy (^70.0.7^5)^7\n\"".spec_bytes()
}

pub fn welcome_message(first_time: bool, is_bot: bool) -> (r: Option<Vec<u8>>)
    ensures
        first_time && !is_bot ==> r is Some && r->0@ == spec_welcome_message(),
        !(first_time && !is_bot) ==> r is None,
{
    if first_time && !is_bot {
        let mut out: Vec<u8> = Vec::new();
        push_str(&mut out, "print \"^5jampgame_proxy (^70.0.7^5)^7\n\"");
        Some(out)
    } else {
        None
    }
}

/// A client begins: it counts as connected from now on.
pub fn client_begin(state: &mut ProxyState, client_num: i32)
    requires
        old(state).wf(),
    ensures
        final(state).wf(),
        forall|i: int|
            0 <= i < MAX_CLIENTS && i != client_num ==> #[trigger] final(state).clients@[i] == old(
                state,
            ).clients@[i],
        0 <= client_num < MAX_CLIENTS ==> ({
            let o = old(state).clients@[client_num as int];
            let n = final(state).clients@[client_num as int];
            &&& n.is_connected
            &&& n.clean_name@ == o.clean_name@
            &&& n.cmd_stats@ == o.cmd_stats@
            &&& n.game_stats@ == o.game_stats@
            &&& n.cmd_index == o.cmd_index
            &&& n.packet_counter == o.packet_counter
            &&& n.timenudge == o.timenudge
        }),
        final(state).svs_time == old(state).svs_time,
        final(state).enabled == old(state).enabled,
{
    if !(0 <= client_num && client_num < MAX_CLIENTS as i32) {
        return;
    }
    let c = client_num as usize;
    let ghost before = state.clients@;
    let mut e = state.clients.remove(c);
    e.is_connected = true;
    state.clients.insert(c, e);
    assert forall|i: int| 0 <= i < MAX_CLIENTS && i != c implies #[trigger] state.clients@[i]
        == before[i] by {
        if i < c {
            assert(state.clients@[i] == before.remove(c as int)[i]);
        } else {
            assert(state.clients@[i] == before.remove(c as int)[i - 1]);
        }
    }
}

/// A connected client leaves: its bookkeeping starts over.
pub fn client_disconnect(state: &mut ProxyState, client_num: i32)
    requires
        old(state).wf(),
    ensures
        final(state).wf(),
        forall|i: int|
            0 <= i < MAX_CLIENTS && i != client_num ==> #[trigger] final(state).clients@[i] == old(
                state,
            ).clients@[i],
        0 <= client_num < MAX_CLIENTS && old(state).clients@[client_num as int].is_connected
            ==> is_fresh_client(final(state).clients@[client_num as int]),
        !(0 <= client_num < MAX_CLIENTS && old(state).clients@[client_num as int].is_connected)
            ==> final(state).clients@ == old(state).clients@,
        final(state).svs_time == old(state).svs_time,
        final(state).enabled == old(state).enabled,
{
    if !(0 <= client_num && client_num < MAX_CLIENTS as i32) {
        return;
    }
    let c = client_num as usize;
    if state.clients[c].is_connected {
        state.clients.set(c, ClientEntry::default());
    }
}

// ---------------------------------------------------------------------------
// Client commands
// ---------------------------------------------------------------------------

/// What becomes of a client command.
#[derive(Debug, Clone, Copy, PartialEq, Eq, Structural)]
pub enum CommandVerdict {
    /// The game runs it.
    Pass,
    /// Dropped.
    Block,
    /// A cheat tool's command: announced and the client kicked.
    KickCheater,
}

/// `word` as the game's case-insensitive `n`-character comparison sees it:
/// the first `n` characters of `s` match.
pub open spec fn starts(s: Seq<u8>, word: &str, n: int) -> bool {
    caseless_eq_upto(s, word.spec_bytes(), n)
}

/// The `callvote` bounds for a vote name: `None` when the vote is not
/// range-checked; the later names win when several match.
pub open spec fn vote_bounds(arg1: Seq<u8>, max_map_restart: i32) -> Option<(i32, i32)> {
    if starts(arg1, "timelimit", 9) {
        Some((0, 35790))
    } else if starts(arg1, "map_restart", 11) {
        Some((0, max_map_restart))
    } else if starts(arg1, "g_doWarmup", 10) {
        Some((0, 1))
    } else if starts(arg1, "fraglimit", 9) {
        Some((0, 0x7fff_ffff))
    } else if starts(arg1, "capturelimit", 12) {
        Some((0, 0x7fff_ffff))
    } else {
        None
    }
}

/// Some byte of `s` is in `set`.
pub open spec fn has_any(s: Seq<u8>, set: Seq<u8>) -> bool {
    exists|i: int, j: int| 0 <= i < s.len() && 0 <= j < set.len() && s[i] == set[j]
}

/// The client-command filter: commands of disconnected clients, cheat
/// tools, over-long chat, out-of-range `gc`, crashing `npc spawn` and
/// `team follow` forms, `callteamvote`, `kill` when disabled, malformed or
/// out-of-range `callvote`, and arguments carrying line breaks (or `;`
/// outside chat) never reach the game. `args` is the concatenation of the
/// arguments after the command.
pub open spec fn spec_client_command(
    client_num: i32,
    connected: bool,
    cmd: Seq<u8>,
    arg1: Seq<u8>,
    arg2: Seq<u8>,
    args: Seq<u8>,
    sv_maxclients: i32,
    kill_disabled: bool,
    max_map_restart: i32,
) -> CommandVerdict {
    let say = starts(cmd, "say", 3) || starts(cmd, "say_team", 8) || starts(cmd, "tell", 4);
    if !(0 <= client_num < MAX_CLIENTS) {
        CommandVerdict::Pass
    } else if !connected {
        CommandVerdict::Block
    } else if starts(cmd, "jkaDST_", 7) {
        CommandVerdict::KickCheater
    } else if say && args.len() > 256 {
        CommandVerdict::Block
    } else if starts(cmd, "gc", 2) && spec_atoi(arg1) >= sv_maxclients {
        CommandVerdict::Block
    } else if starts(cmd, "npc", 3) && starts(arg1, "spawn", 5) && (starts(arg2, "ragnos", 6)
        || starts(arg2, "saber_droid", 6)) {
        CommandVerdict::Block
    } else if starts(cmd, "team", 4) && (starts(arg1, "follow1", 7) || starts(arg1, "follow2", 7)) {
        CommandVerdict::Block
    } else if starts(cmd, "callteamvote", 12) {
        CommandVerdict::Block
    } else if kill_disabled && starts(cmd, "kill", 4) {
        CommandVerdict::Block
    } else if starts(cmd, "callvote", 8) && (arg2.len() >= 256 || match vote_bounds(
        arg1,
        max_map_restart,
    ) {
        Some((lo, hi)) => spec_atoi(arg2) < lo || spec_atoi(arg2) > hi,
        None => false,
    }) {
        CommandVerdict::Block
    } else if has_any(args, seq![13u8, 10]) {
        CommandVerdict::Block
    } else if !say && has_any(args, seq![59u8]) {
        CommandVerdict::Block
    } else {
        CommandVerdict::Pass
    }
}

fn starts_exec(s: &[u8], word: &str, n: usize) -> (r: bool)
    ensures
        r == starts(s@, word, n as int),
{
    caseless_eq_upto_exec(s, word.as_bytes(), n)
}

fn has_any_exec(s: &[u8], set: &[u8]) -> (r: bool)
    ensures
        r == has_any(s@, set@),
{
    match strchrs(s, set) {
        Some(_) => true,
        None => false,
    }
}

/// With the net status feature on, `netStatus` and `showNet` (the game's
/// case-insensitive prefix comparison) are answered by the proxy with the
/// net status table instead of reaching the game.
pub open spec fn spec_net_status_requested(enabled: bool, cmd: Seq<u8>) -> bool {
    enabled && (starts(cmd, "netStatus", 9) || starts(cmd, "showNet", 7))
}

pub fn net_status_requested(enabled: bool, cmd: &[u8]) -> (r: bool)
    ensures
        r == spec_net_status_requested(enabled, cmd@),
{
    enabled && (starts_exec(cmd, "netStatus", 9) || starts_exec(cmd, "showNet", 7))
}

pub fn client_command(
    client_num: i32,
    connected: bool,
    cmd: &[u8],
    arg1: &[u8],
    arg2: &[u8],
    args: &[u8],
    sv_maxclients: i32,
    kill_disabled: bool,
    max_map_restart: i32,
) -> (r: CommandVerdict)
    ensures
        r == spec_client_command(
            client_num,
            connected,
            cmd@,
            arg1@,
            arg2@,
            args@,
            sv_maxclients,
            kill_disabled,
            max_map_restart,
        ),
{
    if !(0 <= client_num && client_num < MAX_CLIENTS as i32) {
        return CommandVerdict::Pass;
    }
    if !connected {
        return CommandVerdict::Block;
    }
    if starts_exec(cmd, "jkaDST_", 7) {
        return CommandVerdict::KickCheater;
    }
    let say = starts_exec(cmd, "say", 3) || starts_exec(cmd, "say_team", 8) || starts_exec(
        cmd,
        "tell",
        4,
    );
    if say && args.len() > 256 {
        return CommandVerdict::Block;
    }
    if starts_exec(cmd, "gc", 2) && atoi(arg1) >= sv_maxclients {
        return CommandVerdict::Block;
    }
    if starts_exec(cmd, "npc", 3) && starts_exec(arg1, "spawn", 5) && (starts_exec(
        arg2,
        "ragnos",
        6,
    ) || starts_exec(arg2, "saber_droid", 6)) {
        return CommandVerdict::Block;
    }
    if starts_exec(cmd, "team", 4) && (starts_exec(arg1, "follow1", 7) || starts_exec(
        arg1,
        "follow2",
        7,
    )) {
        return CommandVerdict::Block;
    }
    if starts_exec(cmd, "callteamvote", 12) {
        return CommandVerdict::Block;
    }
    if kill_disabled && starts_exec(cmd, "kill", 4) {
        return CommandVerdict::Block;
    }
    if starts_exec(cmd, "callvote", 8) {
        let value = atoi(arg2);
        if arg2.len() >= 256 {
            return CommandVerdict::Block;
        }
        let mut min: i32 = 0;
        let mut max: i32 = 1;
        let mut check = false;
        if starts_exec(arg1, "capturelimit", 12) {
            min = 0;
            max = 0x7fff_ffff;
            check = true;
        }
        if starts_exec(arg1, "fraglimit", 9) {
            min = 0;
            max = 0x7fff_ffff;
            check = true;
        }
        if starts_exec(arg1, "g_doWarmup", 10) {
            min = 0;
            max = 1;
            check = true;
        }
        if starts_exec(arg1, "map_restart", 11) {
            min = 0;
            max = max_map_restart;
            check = true;
        }
        if starts_exec(arg1, "timelimit", 9) {
            min = 0;
            max = 35790;
            check = true;
        }
        assert(check == vote_bounds(arg1@, max_map_restart) is Some);
        assert(check ==> vote_bounds(arg1@, max_map_restart) == Some((min, max)));
        if check && (value < min || value > max) {
            return CommandVerdict::Block;
        }
    }
    let breaks: [u8; 2] = [13, 10];
    let semi: [u8; 1] = [59];
    assert(breaks@ == seq![13u8, 10]);
    assert(semi@ == seq![59u8]);
    if has_any_exec(args, breaks.as_slice()) {
        return CommandVerdict::Block;
    }
    if !say && has_any_exec(args, semi.as_slice()) {
        return CommandVerdict::Block;
    }
    CommandVerdict::Pass
}

/// The first `word.len()` bytes of `s` spell the lower-case `word` up to
/// ASCII case.
pub open spec fn spells(s: Seq<u8>, word: Seq<u8>) -> bool {
    s.len() >= word.len() && forall|i: int| 0 <= i < word.len() ==> ascii_lower(#[trigger] s[i]) == word[i]
}

/// Law: a chat command — one whose name begins with `say` or `tell` in any
/// case (`say`, `say_team`, `tell`) — from a connected client is refused
/// exactly when its arguments run past 256 bytes or carry a line break;
/// a `;` in chat never blocks it.
pub proof fn law_chat_commands(
    client_num: i32,
    cmd: Seq<u8>,
    arg1: Seq<u8>,
    arg2: Seq<u8>,
    args: Seq<u8>,
    sv_maxclients: i32,
    kill_disabled: bool,
    max_map_restart: i32,
)
    requires
        0 <= client_num < MAX_CLIENTS,
        spells(cmd, seq![115u8, 97, 121]) || spells(cmd, seq![116u8, 101, 108, 108]),
    ensures
        spec_client_command(
            client_num,
            true,
            cmd,
            arg1,
            arg2,
            args,
            sv_maxclients,
            kill_disabled,
            max_map_restart,
        ) == (if args.len() > 256 || exists|i: int|
            0 <= i < args.len() && (args[i] == 13 || args[i] == 10) {
            CommandVerdict::Block
        } else {
            CommandVerdict::Pass
        }),
{
    reveal_strlit("say");
    assert(vstd::string::is_ascii("say"));
    vstd::string::is_ascii_spec_bytes("say");
    reveal_strlit("say_team");
    assert(vstd::string::is_ascii("say_team"));
    vstd::string::is_ascii_spec_bytes("say_team");
    reveal_strlit("tell");
    assert(vstd::string::is_ascii("tell"));
    vstd::string::is_ascii_spec_bytes("tell");
    reveal_strlit("jkaDST_");
    assert(vstd::string::is_ascii("jkaDST_"));
    vstd::string::is_ascii_spec_bytes("jkaDST_");
    reveal_strlit("gc");
    assert(vstd::string::is_ascii("gc"));
    vstd::string::is_ascii_spec_bytes("gc");
    reveal_strlit("npc");
    assert(vstd::string::is_ascii("npc"));
    vstd::string::is_ascii_spec_bytes("npc");
    reveal_strlit("team");
    assert(vstd::string::is_ascii("team"));
    vstd::string::is_ascii_spec_bytes("team");
    reveal_strlit("callteamvote");
    assert(vstd::string::is_ascii("callteamvote"));
    vstd::string::is_ascii_spec_bytes("callteamvote");
    reveal_strlit("kill");
    assert(vstd::string::is_ascii("kill"));
    vstd::string::is_ascii_spec_bytes("kill");
    reveal_strlit("callvote");
    assert(vstd::string::is_ascii("callvote"));
    vstd::string::is_ascii_spec_bytes("callvote");
    reveal_with_fuel(caseless_eq_upto_from, 6);
    let t = seq![116u8, 101, 108, 108];
    if spells(cmd, t) {
        assert(ascii_lower(cmd[0]) == 116 && ascii_lower(cmd[1]) == 101 && ascii_lower(cmd[2]) == 108
            && ascii_lower(cmd[3]) == 108);
        assert(starts(cmd, "tell", 4));
    } else {
        assert(ascii_lower(cmd[0]) == 115 && ascii_lower(cmd[1]) == 97 && ascii_lower(cmd[2]) == 121);
        assert(starts(cmd, "say", 3));
    }
    assert(!starts(cmd, "jkaDST_", 7));
    assert(!starts(cmd, "gc", 2));
    assert(!starts(cmd, "npc", 3));
    assert(!starts(cmd, "team", 4));
    assert(!starts(cmd, "callteamvote", 12));
    assert(!starts(cmd, "kill", 4));
    assert(!starts(cmd, "callvote", 8));
    let brk = seq![13u8, 10];
    if has_any(args, brk) {
        let (i, j) = choose|i: int, j: int| 0 <= i < args.len() && 0 <= j < brk.len() && args[i] == brk[j];
        assert(args[i] == 13 || args[i] == 10);
    }
    if exists|i: int| 0 <= i < args.len() && (args[i] == 13 || args[i] == 10) {
        let i = choose|i: int| 0 <= i < args.len() && (args[i] == 13 || args[i] == 10);
        if args[i] == 13 {
            assert(args[i] == brk[0]);
        } else {
            assert(args[i] == brk[1]);
        }
    }
}

/// `chat "^3(Anti-Cheat system) ^7<name>^3 got kicked cause of cheating^7"`
pub open spec fn spec_cheater_chat(name: Seq<u8>) -> Seq<u8> {
    "chat \"^3(Anti-Cheat system) ^7".spec_bytes() + name
        + "^3 got kicked cause of cheating^7\"".spec_bytes()
}

pub fn cheater_chat(name: &[u8]) -> (r: Vec<u8>)
    ensures
        r@ == spec_cheater_chat(name@),
{
    let mut out: Vec<u8> = Vec::new();
    push_str(&mut out, "chat \"^3(Anti-Cheat system) ^7");
    push_bytes(&mut out, name);
    push_str(&mut out, "^3 got kicked cause of cheating^7\"");
    out
}

// ---------------------------------------------------------------------------
// Userinfo
// ---------------------------------------------------------------------------

/// The `model` value is a cheat tool's: a (case-insensitive) prefix of
/// `darksidetools`, the empty value included.
pub open spec fn spec_cheat_model(model: Seq<u8>) -> bool {
    starts(model, "darksidetools", model.len() as int)
}

pub fn cheat_model(model: &[u8]) -> (r: bool)
    ensures
        r == spec_cheat_model(model@),
{
    starts_exec(model, "darksidetools", model.len())
}

/// The `model` value is replaced by `kyle` when it is a bugged model (a
/// prefix of `jedi_/red` or `jedi_/blue` that starts with `jedi_`, or of
/// `rancor` or `wampa`, any case), holds anything but printable ASCII, or
/// reaches the configured path length (a negative limit never does).
pub open spec fn spec_model_is_bad(model: Seq<u8>, max_len: i32) -> bool {
    let len = model.len() as int;
    (starts(model, "jedi_", 5) && (starts(model, "jedi_/red", len) || starts(
        model,
        "jedi_/blue",
        len,
    ))) || starts(model, "rancor", len) || starts(model, "wampa", len) || !(forall|i: int|
        0 <= i < model.len() ==> is_printable(#[trigger] model[i])) || (max_len >= 0 && model.len()
        >= max_len)
}

pub fn model_is_bad(model: &[u8], max_len: i32) -> (r: bool)
    ensures
        r == spec_model_is_bad(model@, max_len),
{
    let len = model.len();
    (starts_exec(model, "jedi_", 5) && (starts_exec(model, "jedi_/red", len) || starts_exec(
        model,
        "jedi_/blue",
        len,
    ))) || starts_exec(model, "rancor", len) || starts_exec(model, "wampa", len)
        || !is_valid_ascii_str(model) || (max_len >= 0 && model.len() >= max_len as usize)
}

/// A well-formed `forcepowers` value: 22 to 24 characters of digits and
/// exactly two single `-` separators, none past the sixth character.
pub open spec fn spec_force_powers_valid(fp: Seq<u8>) -> bool {
    &&& 22 <= fp.len() <= 24
    &&& forall|i: int| 0 <= i < fp.len() ==> (fp[i] == 45 || is_digit(#[trigger] fp[i]))
    &&& forall|i: int| 0 <= i < fp.len() && fp[i] == 45 ==> 1 <= i <= 5
    &&& forall|i: int| 0 < i < fp.len() && #[trigger] fp[i] == 45 ==> fp[i - 1] != 45
    &&& dash_count(fp) == 2
}

/// Number of `-` in `s`.
pub open spec fn dash_count(s: Seq<u8>) -> nat
    decreases s.len(),
{
    if s.len() == 0 {
        0
    } else {
        dash_count(s.drop_last()) + if s.last() == 45 {
            1nat
        } else {
            0nat
        }
    }
}

proof fn lemma_dash_count_bound(s: Seq<u8>)
    ensures
        dash_count(s) <= s.len(),
    decreases s.len(),
{
    if s.len() > 0 {
        lemma_dash_count_bound(s.drop_last());
    }
}

pub fn force_powers_valid(fp: &[u8]) -> (r: bool)
    ensures
        r == spec_force_powers_valid(fp@),
{
    let n = fp.len();
    if n < 22 || n > 24 {
        return false;
    }
    let mut seps: usize = 0;
    let mut i: usize = 0;
    while i < n
        invariant
            n == fp@.len(),
            22 <= n <= 24,
            i <= n,
            seps == dash_count(fp@.subrange(0, i as int)),
            forall|j: int| 0 <= j < i ==> (fp@[j] == 45 || is_digit(#[trigger] fp@[j])),
            forall|j: int| 0 <= j < i && fp@[j] == 45 ==> 1 <= j <= 5,
            forall|j: int| 0 < j < i && #[trigger] fp@[j] == 45 ==> fp@[j - 1] != 45,
        decreases n - i,
    {
        proof {
            lemma_dash_count_bound(fp@.subrange(0, i as int));
            assert(fp@.subrange(0, i + 1).drop_last() =~= fp@.subrange(0, i as int));
        }
        let b = fp[i];
        if b != 45 && !(48 <= b && b <= 57) {
            return false;
        }
        if !(1 <= i && i <= 5) && b == 45 {
            return false;
        }
        if i > 0 && fp[i - 1] == 45 && b == 45 {
            return false;
        }
        if b == 45 {
            seps += 1;
        }
        i += 1;
    }
    assert(fp@.subrange(0, n as int) =~= fp@);
    seps == 2
}

/// The default force setup put in place of a malformed one.
pub open spec fn default_force_powers() -> Seq<u8> {
    "7-1-030000000000003332".spec_bytes()
}

/// The `forcepowers` value sent on: the client's value cut to 29 bytes,
/// or the default setup when that is malformed.
pub open spec fn spec_sanitize_force_powers(raw: Seq<u8>) -> Seq<u8> {
    let buf = spec_strncpyz(Seq::new(30, |i: int| 0u8), raw);
    let fp = buf.subrange(0, spec_strlen(buf) as int);
    if spec_force_powers_valid(fp) {
        fp
    } else {
        default_force_powers()
    }
}

pub fn sanitize_force_powers(raw: &[u8]) -> (r: Vec<u8>)
    ensures
        r@ == spec_sanitize_force_powers(raw@),
{
    let mut buf: [u8; 30] = [0; 30];
    assert(buf@ =~= Seq::new(30, |i: int| 0u8));
    strncpyz(&mut buf, raw);
    let mut n: usize = 0;
    while n < 30 && buf[n] != 0
        invariant
            n <= 30,
            forall|j: int| 0 <= j < n ==> buf@[j] != 0,
        decreases 30 - n,
    {
        n += 1;
    }
    proof {
        crate::utils::lemma_strlen_unique(buf@, n as int);
    }
    let fp = vstd::slice::slice_subrange(buf.as_slice(), 0, n);
    if force_powers_valid(fp) {
        vstd::slice::slice_to_vec(fp)
    } else {
        let mut out: Vec<u8> = Vec::new();
        push_str(&mut out, "7-1-030000000000003332");
        out
    }
}

} // verus!
