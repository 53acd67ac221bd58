//! Proxy state: the per-client bookkeeping records, the proxy's cvar table
//! and the master enable switch.
//!
//! All of it is plain data owned by one value; the host keeps that value
//! for the process lifetime and passes it to the functions that read or
//! update it.

use vstd::prelude::*;

use crate::sdk::{CMD_MASK, MAX_CLIENTS, MAX_NETNAME};

verus! {

/// The proxy cvar table: `(name, default)`; `CVAR_ARCHIVE` is the flag for
/// all of them.
pub const PROXY_CVARS: [(&'static str, &'static str); 8] = [
    ("proxy_sv_enable", "1"),
    ("proxy_sv_enableRconCmdCooldown", "0"),
    ("proxy_sv_enableNetStatus", "0"),
    ("proxy_sv_maxCallVoteMapRestartValue", "60"),
    ("proxy_sv_modelPathLength", "64"),
    ("proxy_sv_antiHpTeller", "0"),
    ("proxy_sv_minJumpTime", "0"),
    ("proxy_sv_enableEndGameStats", "1"),
];

/// Indexes into `PROXY_CVARS`.
pub const CVAR_ENABLE: usize = 0;

pub const CVAR_ENABLE_RCON_CMD_COOLDOWN: usize = 1;

pub const CVAR_ENABLE_NET_STATUS: usize = 2;

pub const CVAR_MAX_CALLVOTE_MAPRESTART: usize = 3;

pub const CVAR_MODEL_PATH_LENGTH: usize = 4;

pub const CVAR_ANTI_HP_TELLER: usize = 5;

pub const CVAR_MIN_JUMP_TIME: usize = 6;

pub const CVAR_ENABLE_END_GAME_STATS: usize = 7;

/// Where the game keeps its entities and clients (recorded from the
/// `G_LOCATE_GAME_DATA` trap). Addresses kept as integers.
#[derive(Debug, Clone, Copy, PartialEq, Eq, Structural)]
pub struct LocatedGameData {
    pub g_entities: usize,
    pub num_entities: i32,
    pub g_entity_size: i32,
    pub g_clients: usize,
    pub g_client_size: i32,
}

impl Default for LocatedGameData {
    fn default() -> (r: Self)
        ensures
            r.g_entities == 0 && r.num_entities == 0 && r.g_entity_size == 0 && r.g_clients == 0
                && r.g_client_size == 0,
    {
        LocatedGameData { g_entities: 0, num_entities: 0, g_entity_size: 0, g_clients: 0, g_client_size: 0 }
    }
}

/// netStatus delay/ping samples of one client.
#[derive(Debug, Clone, Copy, PartialEq, Eq, Structural)]
pub struct TimenudgeData {
    pub delay_count: i32,
    pub delay_sum: i32,
    pub ping_sum: i32,
    pub last_time_nudge_calculation: i32,
}

impl Default for TimenudgeData {
    fn default() -> (r: Self)
        ensures
            r.delay_count == 0 && r.delay_sum == 0 && r.ping_sum == 0
                && r.last_time_nudge_calculation == 0,
    {
        TimenudgeData { delay_count: 0, delay_sum: 0, ping_sum: 0, last_time_nudge_calculation: 0 }
    }
}

/// One slot of the per-usercmd statistics ring.
#[derive(Debug, Clone, Copy, PartialEq, Eq, Structural)]
pub struct UcmdStat {
    pub server_time: i32,
    pub packet_index: usize,
}

impl Default for UcmdStat {
    fn default() -> (r: Self)
        ensures
            r.server_time == 0 && r.packet_index == 0,
    {
        UcmdStat { server_time: 0, packet_index: 0 }
    }
}

/// Per-(client, opponent) tallies.
#[derive(Debug, Clone, Copy, PartialEq, Eq, Structural)]
pub struct GameStats {
    pub killed: i32,
    pub killed_by: i32,
    pub damages_given: i32,
    pub damages_taken: i32,
}

impl Default for GameStats {
    fn default() -> (r: Self)
        ensures
            r.killed == 0 && r.killed_by == 0 && r.damages_given == 0 && r.damages_taken == 0,
    {
        GameStats { killed: 0, killed_by: 0, damages_given: 0, damages_taken: 0 }
    }
}

/// Per-client bookkeeping.
#[derive(Debug, Clone)]
pub struct ClientEntry {
    pub is_connected: bool,
    /// The cleaned name, NUL-padded (`MAX_NETNAME` bytes).
    pub clean_name: Vec<u8>,
    pub timenudge_data: TimenudgeData,
    pub timenudge: i32,
    pub last_time_net_status: i32,
    /// The usercmd statistics ring (`CMD_MASK` slots).
    pub cmd_stats: Vec<UcmdStat>,
    pub cmd_index: usize,
    /// Packet-identity counter for the usercmd statistics: bumped once per
    /// client message that carries usercmds.
    pub packet_counter: u32,
    /// Tallies against every other client (`MAX_CLIENTS` entries).
    pub game_stats: Vec<GameStats>,
    pub team_kills: i32,
    pub team_killed: i32,
    pub team_damages_given: i32,
    pub team_damages_taken: i32,
}

/// The shape every client entry keeps: its tables at their fixed sizes.
pub open spec fn client_entry_wf(c: ClientEntry) -> bool {
    &&& c.clean_name@.len() == MAX_NETNAME
    &&& c.cmd_stats@.len() == CMD_MASK
    &&& c.game_stats@.len() == MAX_CLIENTS
}

/// A fresh entry: disconnected, every counter and table zero.
pub open spec fn is_fresh_client(c: ClientEntry) -> bool {
    &&& client_entry_wf(c)
    &&& !c.is_connected
    &&& forall|i: int| 0 <= i < MAX_NETNAME ==> c.clean_name@[i] == 0
    &&& c.timenudge_data == TimenudgeData {
        delay_count: 0,
        delay_sum: 0,
        ping_sum: 0,
        last_time_nudge_calculation: 0,
    }
    &&& c.timenudge == 0 && c.last_time_net_status == 0
    &&& forall|i: int| 0 <= i < CMD_MASK ==> c.cmd_stats@[i] == UcmdStat { server_time: 0, packet_index: 0 }
    &&& c.cmd_index == 0 && c.packet_counter == 0
    &&& forall|i: int|
        0 <= i < MAX_CLIENTS ==> c.game_stats@[i] == GameStats {
            killed: 0,
            killed_by: 0,
            damages_given: 0,
            damages_taken: 0,
        }
    &&& c.team_kills == 0 && c.team_killed == 0
    &&& c.team_damages_given == 0 && c.team_damages_taken == 0
}

/// `n` copies of one `Copy` value.
fn repeat<T: Copy>(x: T, n: usize) -> (v: Vec<T>)
    ensures
        v@.len() == n,
        forall|i: int| 0 <= i < n ==> v@[i] == x,
{
    let mut v: Vec<T> = Vec::new();
    let mut i: usize = 0;
    while i < n
        invariant
            i <= n,
            v@.len() == i,
            forall|j: int| 0 <= j < i ==> v@[j] == x,
        decreases n - i,
    {
        v.push(x);
        i += 1;
    }
    v
}

impl Default for ClientEntry {
    fn default() -> (r: Self)
        ensures
            is_fresh_client(r),
    {
        ClientEntry {
            is_connected: false,
            clean_name: repeat(0u8, MAX_NETNAME),
            timenudge_data: TimenudgeData::default(),
            timenudge: 0,
            last_time_net_status: 0,
            cmd_stats: repeat(UcmdStat::default(), CMD_MASK),
            cmd_index: 0,
            packet_counter: 0,
            game_stats: repeat(GameStats::default(), MAX_CLIENTS),
            team_kills: 0,
            team_killed: 0,
            team_damages_given: 0,
            team_damages_taken: 0,
        }
    }
}

/// The per-client table, one fresh entry per client slot.
pub fn default_clients() -> (v: Vec<ClientEntry>)
    ensures
        v@.len() == MAX_CLIENTS,
        forall|i: int| 0 <= i < MAX_CLIENTS ==> is_fresh_client(#[trigger] v@[i]),
{
    let mut v: Vec<ClientEntry> = Vec::new();
    let mut i: usize = 0;
    while i < MAX_CLIENTS
        invariant
            i <= MAX_CLIENTS,
            v@.len() == i,
            forall|j: int| 0 <= j < i ==> is_fresh_client(#[trigger] v@[j]),
        decreases MAX_CLIENTS - i,
    {
        v.push(ClientEntry::default());
        i += 1;
    }
    v
}

/// The whole proxy state.
#[derive(Debug)]
pub struct ProxyState {
    pub located_game_data: LocatedGameData,
    pub svs_time: i32,
    /// One entry per client slot (`MAX_CLIENTS`).
    pub clients: Vec<ClientEntry>,
    /// Start of the current jump of every client (`MAX_CLIENTS`).
    pub jump_start_time: Vec<i32>,
    /// The master switch (mirror of `proxy_sv_enable`).
    pub enabled: bool,
}

impl ProxyState {
    pub open spec fn wf(&self) -> bool {
        &&& self.clients@.len() == MAX_CLIENTS
        &&& forall|i: int| 0 <= i < MAX_CLIENTS ==> client_entry_wf(#[trigger] self.clients@[i])
        &&& self.jump_start_time@.len() == MAX_CLIENTS
    }

    /// The state before any event: no game data, time 0, fresh clients,
    /// and the proxy switched on — the window between `dllEntry` and the
    /// first cvar refresh keeps the proxy on, matching the cvar default.
    pub fn new() -> (r: ProxyState)
        ensures
            r.wf(),
            r.svs_time == 0,
            r.enabled,
            r.located_game_data == (LocatedGameData {
                g_entities: 0,
                num_entities: 0,
                g_entity_size: 0,
                g_clients: 0,
                g_client_size: 0,
            }),
            forall|i: int| 0 <= i < MAX_CLIENTS ==> is_fresh_client(#[trigger] r.clients@[i]),
            forall|i: int| 0 <= i < MAX_CLIENTS ==> r.jump_start_time@[i] == 0,
    {
        ProxyState {
            located_game_data: LocatedGameData::default(),
            svs_time: 0,
            clients: default_clients(),
            jump_start_time: repeat(0i32, MAX_CLIENTS),
            enabled: true,
        }
    }
}

/// Whether the proxy state has been created yet (i.e. `dllEntry` ran).
pub fn is_initialised(state: &Option<ProxyState>) -> (r: bool)
    ensures
        r == state.is_some(),
{
    state.is_some()
}

/// `GAME_RUN_FRAME` bookkeeping: record the server time.
pub fn set_svs_time(state: &mut ProxyState, time: i32)
    ensures
        *final(state) == (ProxyState { svs_time: time, ..*old(state) }),
{
    state.svs_time = time;
}

/// Set the master switch (after the `proxy_sv_enable` cvar is refreshed).
pub fn set_proxy_enabled(state: &mut ProxyState, enabled: bool)
    ensures
        *final(state) == (ProxyState { enabled: enabled, ..*old(state) }),
{
    state.enabled = enabled;
}

/// Whether the proxy's hooks and interceptions are active.
pub fn proxy_enabled(state: &ProxyState) -> (r: bool)
    ensures
        r == state.enabled,
{
    state.enabled
}

} // verus!
