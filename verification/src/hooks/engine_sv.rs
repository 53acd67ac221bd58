//! The checks the engine hooks add in front of the pristine engine
//! functions: the rcon cooldown and `writeconfig` guard, the query-length
//! guard, the userinfo model guard, the download filters, the entity-index
//! bounds check and the client-message gate.

use vstd::prelude::*;
use vstd::string::StringSliceAdditionalSpecFns;

use crate::hooks::compat::{
    byte_or_nul, check_dir_traversal, cmd_tokenize_string2, filename_compare, names_differ_from,
    spec_tokenize, token_views, traversal_at,
};
use crate::sdk::{
    CLC_MOVE, CLC_MOVE_NO_DELTA, CS_ACTIVE, CS_CONNECTED, MAX_GENTITIES, MAX_QPATH,
    OFFSET_SV_SV_ENTITIES, SIZEOF_SV_ENTITY_T,
};
use crate::teamlock::ascii_lower;
use crate::text::{push_bytes, push_str};
use crate::utils::{is_printable, is_valid_ascii_str};

verus! {

/// `netadr_t` (type, IPv4, IPX, port), as the engine passes it by value.
#[derive(Debug, Clone, Copy)]
pub struct Netadr {
    pub kind: i32,
    pub ip: [u8; 4],
    pub ipx: [u8; 10],
    pub port: u16,
}

/// Whether the engine hook layer is attached.
#[derive(Debug, Clone, Copy, PartialEq, Eq, Structural)]
pub struct HookFlags {
    pub attached: bool,
}

/// Record that every hook is attached.
pub fn set_attached(flags: &mut HookFlags)
    ensures
        final(flags).attached,
{
    flags.attached = true;
}

/// Clear the attached flag (master switch off, or all hooks detached).
pub fn set_detached(flags: &mut HookFlags)
    ensures
        !final(flags).attached,
{
    flags.attached = false;
}

pub fn attached(flags: &HookFlags) -> (r: bool)
    ensures
        r == flags.attached,
{
    flags.attached
}

/// What the hook layer does to follow the master switch.
#[derive(Debug, Clone, Copy, PartialEq, Eq, Structural)]
pub enum HookAction {
    Attach,
    Detach,
    Keep,
}

pub open spec fn spec_follow_master_switch(attached: bool, enabled: bool) -> HookAction {
    if enabled && !attached {
        HookAction::Attach
    } else if !enabled && attached {
        HookAction::Detach
    } else {
        HookAction::Keep
    }
}

/// The master switch (`proxy_sv_enable`), checked every frame: attach the
/// hooks when it is on and they are not, detach them when it is off and
/// they are, else leave them.
pub fn follow_master_switch(flags: &HookFlags, enabled: bool) -> (r: HookAction)
    ensures
        r == spec_follow_master_switch(flags.attached, enabled),
{
    if enabled && !flags.attached {
        HookAction::Attach
    } else if !enabled && flags.attached {
        HookAction::Detach
    } else {
        HookAction::Keep
    }
}

/// The flag after carrying out an action.
pub open spec fn attached_after(attached: bool, action: HookAction) -> bool {
    match action {
        HookAction::Attach => true,
        HookAction::Detach => false,
        HookAction::Keep => attached,
    }
}

/// Law: once the frame's action is carried out, the hook layer is attached
/// exactly when the master switch is on; and a second check in the same
/// position asks for nothing.
pub proof fn law_master_switch_converges(attached: bool, enabled: bool)
    ensures
        attached_after(attached, spec_follow_master_switch(attached, enabled)) == enabled,
        spec_follow_master_switch(
            attached_after(attached, spec_follow_master_switch(attached, enabled)),
            enabled,
        ) == HookAction::Keep,
{
}

/// The game's case-insensitive `n`-character comparison finding the strings equal on C strings given by their bytes before the
/// NUL: the first `n` characters agree up to ASCII case, or both strings
/// end together before that, compared from position `i`.
pub open spec fn caseless_eq_upto_from(a: Seq<u8>, b: Seq<u8>, n: int, i: int) -> bool
    decreases n - i,
{
    if i < 0 || i >= n {
        true
    } else {
        let c1 = byte_or_nul(a, i);
        let c2 = byte_or_nul(b, i);
        if ascii_lower(c1) != ascii_lower(c2) {
            false
        } else if c1 == 0 {
            true
        } else {
            caseless_eq_upto_from(a, b, n, i + 1)
        }
    }
}

pub open spec fn caseless_eq_upto(a: Seq<u8>, b: Seq<u8>, n: int) -> bool {
    caseless_eq_upto_from(a, b, n, 0)
}

/// The game's case-insensitive `n`-character comparison finding the strings equal for NUL-free byte strings.
pub fn caseless_eq_upto_exec(a: &[u8], b: &[u8], n: usize) -> (r: bool)
    ensures
        r == caseless_eq_upto(a@, b@, n as int),
{
    let mut i: usize = 0;
    while i < n
        invariant
            i <= n,
            caseless_eq_upto(a@, b@, n as int) == caseless_eq_upto_from(a@, b@, n as int, i as int),
        decreases n - i,
    {
        let c1: u8 = if i < a.len() {
            a[i]
        } else {
            0
        };
        let c2: u8 = if i < b.len() {
            b[i]
        } else {
            0
        };
        let l1: u8 = if 65 <= c1 && c1 <= 90 {
            c1 + 32
        } else {
            c1
        };
        let l2: u8 = if 65 <= c2 && c2 <= 90 {
            c2 + 32
        } else {
            c2
        };
        if l1 != l2 {
            return false;
        }
        if c1 == 0 {
            return true;
        }
        i += 1;
    }
    true
}

// ---------------------------------------------------------------------------
// rcon
// ---------------------------------------------------------------------------

/// The rcon cooldown: with the feature on, a command within 500 ms of the
/// last accepted one is dropped (the engine time is unsigned and wraps).
pub fn rcon_cooldown_blocks(enabled: bool, now: u32, last: u32) -> (r: bool)
    ensures
        r == (enabled && now < last.wrapping_add(500)),
{
    enabled && now < last.wrapping_add(500)
}

/// `writeconfig` may only write `.cfg` files: the command is refused when
/// argument 2 starts with `writeconfig` (any case) and argument 3 has a
/// four-character extension other than `.cfg` (any case).
pub open spec fn spec_writeconfig_blocked(argv2: Seq<u8>, arg3: Seq<u8>) -> bool {
    caseless_eq_upto(argv2, "writeconfig".spec_bytes(), 11) && arg3.len() >= 5 && arg3[arg3.len() - 4]
        == 46 && !caseless_eq_upto(
        arg3.subrange(arg3.len() - 4, arg3.len() as int),
        ".cfg".spec_bytes(),
        4,
    )
}

pub fn writeconfig_blocked(argv2: &[u8], arg3: &[u8]) -> (r: bool)
    ensures
        r == spec_writeconfig_blocked(argv2@, arg3@),
{
    if !caseless_eq_upto_exec(argv2, "writeconfig".as_bytes(), 11) {
        return false;
    }
    let n = arg3.len();
    if n < 5 || arg3[n - 4] != 46 {
        return false;
    }
    !caseless_eq_upto_exec(vstd::slice::slice_subrange(arg3, n - 4, n), ".cfg".as_bytes(), 4)
}

/// `getstatus`/`getinfo` with an over-long argument would overflow the
/// reply's info string: such a query is dropped.
pub fn query_arg_too_long(arg1: &[u8]) -> (r: bool)
    ensures
        r == (arg1@.len() > 128),
{
    arg1.len() > 128
}

// ---------------------------------------------------------------------------
// userinfo
// ---------------------------------------------------------------------------

/// The `model` userinfo value is replaced by `kyle` when it holds anything
/// but printable ASCII or reaches the configured path length (a negative
/// limit reads as unlimited).
pub open spec fn spec_model_needs_reset(model: Seq<u8>, max_len: i32) -> bool {
    !(forall|i: int| 0 <= i < model.len() ==> is_printable(#[trigger] model[i])) || (max_len >= 0
        && model.len() >= max_len)
}

pub fn model_needs_reset(model: &[u8], max_len: i32) -> (r: bool)
    ensures
        r == spec_model_needs_reset(model@, max_len),
{
    !is_valid_ascii_str(model) || (max_len >= 0 && model.len() >= max_len as usize)
}

// ---------------------------------------------------------------------------
// Downloads
// ---------------------------------------------------------------------------

/// A download command from a client already in the game is ignored.
pub fn download_command_blocked(client_state: i32) -> (r: bool)
    ensures
        r == (client_state == CS_ACTIVE),
{
    client_state == CS_ACTIVE
}

/// `download <file>`: only a `.pk3` (any case) of at least five characters
/// without `../` or `..\`, and never in game.
pub open spec fn spec_begin_download_blocked(client_state: i32, file: Seq<u8>) -> bool {
    client_state == CS_ACTIVE || file.len() < 5 || (exists|i: int| traversal_at(file, i))
        || !caseless_eq_upto(file.subrange(file.len() - 4, file.len() as int), ".pk3".spec_bytes(), 4)
}

pub fn begin_download_blocked(client_state: i32, file: &[u8]) -> (r: bool)
    ensures
        r == spec_begin_download_blocked(client_state, file@),
{
    if client_state == CS_ACTIVE {
        return true;
    }
    let n = file.len();
    if n < 5 {
        return true;
    }
    if check_dir_traversal(file) {
        return true;
    }
    !caseless_eq_upto_exec(vstd::slice::slice_subrange(file, n - 4, n), ".pk3".as_bytes(), 4)
}

/// `userinfo` without an argument is dropped.
pub fn empty_userinfo_blocked(arg: &[u8]) -> (r: bool)
    ensures
        r == (arg@.len() == 0),
{
    arg.len() == 0
}

/// What the download writer does for a client.
#[derive(Debug, Clone, Copy, PartialEq, Eq, Structural)]
pub enum DownloadVerdict {
    /// Nothing is being downloaded: return at once.
    Idle,
    /// Hand over to the engine's own writer.
    Serve,
    /// A `.pk3` the current pure set does not reference: refuse it.
    Refuse,
}

/// Index of the last `.` in `s`, if any.
pub open spec fn last_dot(s: Seq<u8>) -> Option<int>
    decreases s.len(),
{
    if s.len() == 0 {
        None
    } else if s.last() == 46 {
        Some(s.len() - 1)
    } else {
        last_dot(s.drop_last())
    }
}

proof fn lemma_last_dot(s: Seq<u8>)
    ensures
        match last_dot(s) {
            Some(d) => 0 <= d < s.len() && s[d] == 46 && forall|j: int| d < j < s.len() ==> s[j]
                != 46,
            None => forall|j: int| 0 <= j < s.len() ==> s[j] != 46,
        },
    decreases s.len(),
{
    if s.len() > 0 && s.last() != 46 {
        let t = s.drop_last();
        lemma_last_dot(t);
        assert forall|j: int| 0 <= j < t.len() implies t[j] == s[j] by {}
    }
}

/// Whether some referenced pak names the file (`FS_FilenameCompare`).
pub open spec fn referenced(paks: Seq<Seq<u8>>, name: Seq<u8>) -> bool {
    exists|k: int| 0 <= k < paks.len() && !names_differ_from(paks[k], name, 0)
}

/// The download writer's decision for a download name (its bytes before
/// the NUL), the open download handle and the engine's referenced-pak list:
/// a new download of a `.pk3` (the name cut to `MAX_QPATH` bytes, its
/// extension after the last dot, any case) is served only when a
/// referenced pak has the same name without the extension.
pub open spec fn spec_download_verdict(dlname: Seq<u8>, download: i32, paks_text: Seq<u8>) -> DownloadVerdict {
    if dlname.len() == 0 {
        DownloadVerdict::Idle
    } else if download != 0 {
        DownloadVerdict::Serve
    } else {
        let pak = if dlname.len() < MAX_QPATH {
            dlname
        } else {
            dlname.subrange(0, MAX_QPATH as int)
        };
        match last_dot(pak) {
            None => DownloadVerdict::Refuse,
            Some(d) => if pak.len() - (d + 1) == 3 && caseless_eq_upto(
                pak.subrange(d + 1, pak.len() as int),
                "pk3".spec_bytes(),
                4,
            ) && referenced(spec_tokenize(paks_text, true), pak.subrange(0, d)) {
                DownloadVerdict::Serve
            } else {
                DownloadVerdict::Refuse
            },
        }
    }
}

#[verifier::loop_isolation(false)]
pub fn download_verdict(dlname: &[u8], download: i32, paks_text: &[u8]) -> (r: DownloadVerdict)
    ensures
        r == spec_download_verdict(dlname@, download, paks_text@),
{
    if dlname.len() == 0 {
        return DownloadVerdict::Idle;
    }
    if download != 0 {
        return DownloadVerdict::Serve;
    }
    let n = if dlname.len() < MAX_QPATH {
        dlname.len()
    } else {
        MAX_QPATH
    };
    let pak = vstd::slice::slice_subrange(dlname, 0, n);
    assert(dlname.len() < MAX_QPATH ==> pak@ =~= dlname@);
    let mut d: usize = n;
    assert(pak@.subrange(0, n as int) =~= pak@);
    while d > 0 && pak[d - 1] != 46
        invariant
            d <= n,
            n == pak@.len(),
            last_dot(pak@) == last_dot(pak@.subrange(0, d as int)),
        decreases d,
    {
        assert(pak@.subrange(0, d as int).drop_last() =~= pak@.subrange(0, d - 1));
        d -= 1;
    }
    if d == 0 {
        assert(pak@.subrange(0, 0).len() == 0);
        return DownloadVerdict::Refuse;
    }
    let dot = d - 1;
    assert(last_dot(pak@.subrange(0, d as int)) == Some(dot as int));
    let ext = vstd::slice::slice_subrange(pak, dot + 1, n);
    if !(n - (dot + 1) == 3 && caseless_eq_upto_exec(ext, "pk3".as_bytes(), 4)) {
        return DownloadVerdict::Refuse;
    }
    let name = vstd::slice::slice_subrange(pak, 0, dot);
    let tokens = cmd_tokenize_string2(paks_text, true);
    let ghost toks = token_views(tokens@);
    let mut k: usize = 0;
    while k < tokens.len()
        invariant
            toks == token_views(tokens@),
            toks == spec_tokenize(paks_text@, true),
            k <= tokens@.len(),
            forall|j: int| 0 <= j < k ==> names_differ_from(toks[j], name@, 0),
        decreases tokens@.len() - k,
    {
        assert(toks[k as int] == tokens@[k as int]@);
        if !filename_compare(tokens[k].as_slice(), name) {
            assert(referenced(toks, name@));
            assert(name@ == pak@.subrange(0, dot as int));
            assert(ext@ == pak@.subrange(dot + 1, pak@.len() as int));
            return DownloadVerdict::Serve;
        }
        k += 1;
    }
    DownloadVerdict::Refuse
}

/// `File "<name>" is not referenced and cannot be downloaded.`, cut to the
/// 1023 bytes the engine's message buffer holds.
pub open spec fn spec_refusal_message(dlname: Seq<u8>) -> Seq<u8> {
    let full = "File \"".spec_bytes() + dlname + "\" is not referenced and cannot be downloaded.".spec_bytes();
    if full.len() <= 1023 {
        full
    } else {
        full.subrange(0, 1023)
    }
}

pub fn refusal_message(dlname: &[u8]) -> (r: Vec<u8>)
    ensures
        r@ == spec_refusal_message(dlname@),
{
    let mut out: Vec<u8> = Vec::new();
    push_str(&mut out, "File \"");
    push_bytes(&mut out, dlname);
    push_str(&mut out, "\" is not referenced and cannot be downloaded.");
    if out.len() > 1023 {
        out.truncate(1023);
    }
    out
}

// ---------------------------------------------------------------------------
// Entities, gamestate, client messages
// ---------------------------------------------------------------------------

/// `SV_SvEntityForGentity`: the address of a game entity's server entity,
/// indexed by its real position in the game's entity array; `None` (the
/// engine then drops with an error) for a null entity or an entity number
/// out of range. Address arithmetic wraps like the engine's.
pub open spec fn spec_sventity_address(
    sv: usize,
    g_ent: usize,
    number: i32,
    gentities: usize,
    gentity_size: usize,
) -> Option<usize> {
    if g_ent == 0 || number < 0 || number >= MAX_GENTITIES {
        None
    } else {
        let num = (g_ent.wrapping_sub(gentities) / gentity_size) as usize;
        Some(sv.wrapping_add(OFFSET_SV_SV_ENTITIES).wrapping_add(num.wrapping_mul(SIZEOF_SV_ENTITY_T)))
    }
}

pub fn sventity_address(sv: usize, g_ent: usize, number: i32, gentities: usize, gentity_size: usize) -> (r:
    Option<usize>)
    requires
        gentity_size > 0,
    ensures
        r == spec_sventity_address(sv, g_ent, number, gentities, gentity_size),
{
    if g_ent == 0 || number < 0 || number >= MAX_GENTITIES as i32 {
        return None;
    }
    let num = g_ent.wrapping_sub(gentities) / gentity_size;
    Some(sv.wrapping_add(OFFSET_SV_SV_ENTITIES).wrapping_add(num.wrapping_mul(SIZEOF_SV_ENTITY_T)))
}

/// After the engine sent the gamestate: only a connecting client is
/// promoted (to primed); any other state is restored.
pub fn state_after_gamestate(before: i32, after: i32) -> (r: i32)
    ensures
        r == (if before == CS_CONNECTED {
            after
        } else {
            before
        }),
{
    if before == CS_CONNECTED {
        after
    } else {
        before
    }
}

/// What becomes of a client message before the engine parses it.
#[derive(Debug, Clone, Copy, PartialEq, Eq, Structural)]
pub enum MessageGate {
    /// From before a map restart: ignored.
    Ignore,
    /// The client missed the gamestate: it is sent again, the message dropped.
    Resend,
    /// Outdated: dropped.
    Drop,
    /// Parsed by the engine.
    Pass,
}

/// `s` contains `pat`.
pub open spec fn contains(s: Seq<u8>, pat: Seq<u8>) -> bool {
    exists|i: int| 0 <= i && i + pat.len() <= s.len() && #[trigger] s.subrange(i, i + pat.len()) == pat
}

fn contains_exec(s: &[u8], pat: &[u8]) -> (r: bool)
    ensures
        r == contains(s@, pat@),
{
    if pat.len() == 0 {
        assert(s@.subrange(0int, 0int + pat@.len()) =~= pat@);
        return true;
    }
    if pat.len() > s.len() {
        return false;
    }
    let n = s.len();
    let last = n - pat.len();
    let mut i: usize = 0;
    while i <= last
        invariant
            n == s@.len(),
            pat@.len() >= 1,
            last == n - pat@.len(),
            i <= last + 1,
            forall|j: int| 0 <= j < i ==> #[trigger] s@.subrange(j, j + pat@.len()) != pat@,
        decreases last + 1 - i,
    {
        let mut k: usize = 0;
        let mut same = true;
        while k < pat.len()
            invariant
                n == s@.len(),
                i <= last,
                last == n - pat@.len(),
                k <= pat@.len(),
                same == (forall|j: int| 0 <= j < k ==> s@[i + j] == pat@[j]),
            decreases pat@.len() - k,
        {
            if s[i + k] != pat[k] {
                same = false;
            }
            k += 1;
        }
        if same {
            assert(s@.subrange(i as int, i + pat@.len()) =~= pat@);
            return true;
        }
        assert(s@.subrange(i as int, i + pat@.len()) != pat@) by {
            let j = choose|j: int| 0 <= j < pat@.len() && s@[i + j] != pat@[j];
            assert(s@.subrange(i as int, i + pat@.len())[j] == s@[i + j]);
        }
        i += 1;
    }
    false
}

/// The newer serverId gate: a message for another server id is ignored when
/// it dates from before a map restart, answered with a new gamestate when
/// the client is not in the game yet and acknowledges a later message, and
/// dropped otherwise — unless the client's last command was `nextdl`
/// outside a download, which passes.
pub open spec fn spec_message_gate(
    server_id: i32,
    sv_server_id: i32,
    restarted_server_id: i32,
    downloading: bool,
    last_command: Seq<u8>,
    client_state: i32,
    message_acknowledge: i32,
    gamestate_message_num: i32,
) -> MessageGate {
    if server_id == sv_server_id || (!downloading && contains(last_command, "nextdl".spec_bytes())) {
        MessageGate::Pass
    } else if server_id >= restarted_server_id && server_id < sv_server_id {
        MessageGate::Ignore
    } else if client_state != CS_ACTIVE && message_acknowledge > gamestate_message_num {
        MessageGate::Resend
    } else {
        MessageGate::Drop
    }
}

pub fn message_gate(
    server_id: i32,
    sv_server_id: i32,
    restarted_server_id: i32,
    downloading: bool,
    last_command: &[u8],
    client_state: i32,
    message_acknowledge: i32,
    gamestate_message_num: i32,
) -> (r: MessageGate)
    ensures
        r == spec_message_gate(
            server_id,
            sv_server_id,
            restarted_server_id,
            downloading,
            last_command@,
            client_state,
            message_acknowledge,
            gamestate_message_num,
        ),
{
    if server_id == sv_server_id {
        return MessageGate::Pass;
    }
    if !downloading && contains_exec(last_command, "nextdl".as_bytes()) {
        return MessageGate::Pass;
    }
    if server_id >= restarted_server_id && server_id < sv_server_id {
        return MessageGate::Ignore;
    }
    if client_state != CS_ACTIVE && message_acknowledge > gamestate_message_num {
        return MessageGate::Resend;
    }
    MessageGate::Drop
}

/// A message carrying usercmds (`clc_move`, `clc_moveNoDelta`) starts a new
/// packet for the net statistics.
pub fn carries_usercmds(command_byte: i32) -> (r: bool)
    ensures
        r == (command_byte == CLC_MOVE || command_byte == CLC_MOVE_NO_DELTA),
{
    command_byte == CLC_MOVE || command_byte == CLC_MOVE_NO_DELTA
}

} // verus!
