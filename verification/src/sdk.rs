//! SDK ABI surface: limits, enum ordinals, trap/vmMain numbers and the
//! layout offsets the proxy reads engine and game structures through.
//! Every number here comes from compiling the Jedi Academy SDK headers for
//! i386; do not change one without re-deriving it.
#![allow(dead_code)]

use vstd::prelude::*;

verus! {

// Limits and constants (q_shared.h / g_local.h / qcommon.h).
pub const MAX_CLIENTS: usize = 32;
pub const MAX_NETNAME: usize = 36;
pub const MAX_INFO_STRING: usize = 1024;
pub const MAX_STRING_CHARS: usize = 1024;
pub const MAX_TOKEN_CHARS: usize = 1024;
pub const MAX_CVAR_VALUE_STRING: usize = 256;
pub const MAX_OSPATH: usize = 4096;
pub const CVAR_ARCHIVE: u32 = 0x0000_0001;
pub const Q_COLOR_ESCAPE: u8 = 94;
/// `BIG_INFO_STRING`: bounds the tokenizer input.
pub const BIG_INFO_STRING: usize = 8192;

pub const MAX_GENTITIES: usize = 1024;
pub const MAX_STRING_TOKENS: usize = 1024;
pub const PACKET_BACKUP: usize = 32;
pub const PACKET_MASK: usize = 31;
pub const MAX_RELIABLE_COMMANDS: usize = 128;
pub const MAX_QPATH: usize = 64;
pub const MAX_NAME_LENGTH: usize = 32;
pub const CMD_MASK: usize = 1024;

// clientState_t.
pub const CS_FREE: i32 = 0;
pub const CS_ZOMBIE: i32 = 1;
pub const CS_CONNECTED: i32 = 2;
pub const CS_PRIMED: i32 = 3;
pub const CS_ACTIVE: i32 = 4;

/// `clc_move` and `clc_moveNoDelta` client message opcodes.
pub const CLC_MOVE: i32 = 2;
pub const CLC_MOVE_NO_DELTA: i32 = 3;

// team_t.
pub const TEAM_FREE: i32 = 0;
pub const TEAM_RED: i32 = 1;
pub const TEAM_BLUE: i32 = 2;
pub const TEAM_SPECTATOR: i32 = 3;
pub const TEAM_NUM_TEAMS: i32 = 4;

// gametype_t: the team modes the proxy features apply to.
pub const GT_TEAM: i32 = 6;
pub const GT_CTF: i32 = 8;

/// `clientConnected_t::CON_DISCONNECTED`.
pub const CON_DISCONNECTED: i32 = 0;

// PERS_* and STAT_* indices read by the stats printer.
pub const PERS_SCORE: usize = 0;
pub const PERS_TEAM: usize = 3;
pub const PERS_KILLED: usize = 8;
pub const STAT_HEALTH: usize = 0;
pub const STAT_ARMOR: usize = 5;

/// Angle index of the roll component.
pub const ROLL: usize = 2;

// Force powers.
pub const FP_LEVITATION: u8 = 1;
pub const NUM_FORCE_POWERS: u8 = 18;

/// Version string the engine must report in its `version` cvar.
pub const ORIGINAL_ENGINE_VERSION: &'static str = "JAmp: v1.0.1.1 linux-i386 Nov 10 2003";
/// Name the pristine game module is installed under next to the proxy.
pub const ORIGINAL_LIBRARY_NAME: &'static str = "jampgame_original.so";
/// Subdirectory the engine loads game modules from when `fs_game` is unset.
pub const DEFAULT_BASE_GAME_FOLDER_NAME: &'static str = "base";

// System trap ordinals (gameImport_t).
pub const G_CVAR_REGISTER: i32 = 5;
pub const G_CVAR_UPDATE: i32 = 6;
pub const G_CVAR_SET: i32 = 7;
pub const G_CVAR_VARIABLE_INTEGER_VALUE: i32 = 8;
pub const G_CVAR_VARIABLE_STRING_BUFFER: i32 = 9;
pub const G_ARGV: i32 = 11;
pub const G_LOCATE_GAME_DATA: i32 = 17;
pub const G_DROP_CLIENT: i32 = 18;
pub const G_SEND_SERVER_COMMAND: i32 = 19;
pub const G_SET_CONFIGSTRING: i32 = 20;
pub const G_GET_CONFIGSTRING: i32 = 21;
pub const G_GET_USERINFO: i32 = 22;
pub const G_SET_USERINFO: i32 = 23;
pub const G_GET_USERCMD: i32 = 40;
pub const G_NAV_FREE: i32 = 201;
/// Trace-family traps, all forwarding to `SV_Trace` with the same word layout.
pub const G_TRACE: i32 = 27;
pub const G_G2TRACE: i32 = 28;
pub const G_TRACECAPSULE: i32 = 49;
/// `trap_Milliseconds`.
pub const G_MILLISECONDS: i32 = 2;

/// `svc_download` byte written to download-error messages.
pub const SVC_DOWNLOAD: i32 = 6;
/// `errorParm_t::ERR_DROP`.
pub const ERR_DROP: i32 = 1;

// vmMain commands (gameExport_t).
pub const GAME_INIT: i32 = 0;
pub const GAME_SHUTDOWN: i32 = 1;
pub const GAME_CLIENT_CONNECT: i32 = 2;
pub const GAME_CLIENT_BEGIN: i32 = 3;
pub const GAME_CLIENT_USERINFO_CHANGED: i32 = 4;
pub const GAME_CLIENT_DISCONNECT: i32 = 5;
pub const GAME_CLIENT_COMMAND: i32 = 6;
pub const GAME_RUN_FRAME: i32 = 8;

// Game structure layout (gentity_t, gclient_t, ...).
pub const SIZEOF_GENTITY: usize = 1516;
pub const OFFSET_GENTITY_CLIENT: usize = 864;
pub const SIZEOF_GCLIENT: usize = 7232;
pub const OFFSET_GCLIENT_PERS: usize = 1552;
pub const OFFSET_PERS_NETNAME: usize = 48;
pub const OFFSET_GENTITY_S: usize = 0;
pub const OFFSET_GENTITY_PLAYER_STATE: usize = 532;
pub const OFFSET_GENTITY_DAMAGE_REDIRECT: usize = 1488;
pub const OFFSET_GENTITY_S_ETYPE: usize = 4;
pub const OFFSET_GENTITY_S_OTHER_ENTITY_NUM: usize = 188;
pub const OFFSET_GENTITY_S_OTHER_ENTITY_NUM2: usize = 192;
pub const OFFSET_GENTITY_S_OWNER: usize = 280;
pub const OFFSET_GENTITY_R_OWNER: usize = 660;
pub const OFFSET_GENTITY_R_CONTENTS: usize = 604;
pub const OFFSET_GENTITY_R_LINKED: usize = 560;
pub const OFFSET_SNAPSHOT_FRAME_PS_CLIENT_NUM: usize = 208;
pub const OFFSET_SNAPSHOT_ENUMS_COUNT: usize = 0;
pub const OFFSET_SNAPSHOT_ENUMS_LIST: usize = 4;
pub const MAX_SNAPSHOT_ENTITIES: usize = 1024;

/// Entity numbers (`GENTITYNUM_BITS` 10).
pub const ENTITYNUM_NONE: i32 = 1023;
pub const ENTITYNUM_WORLD: i32 = 1022;

/// Base `eType` of temp-event entities.
pub const ET_EVENTS: i32 = 18;
pub const EV_SABER_HIT: i32 = 30;
pub const EV_SABER_BLOCK: i32 = 31;
pub const EV_SABER_CLASHFLARE: i32 = 32;
pub const EV_PAIN: i32 = 89;
pub const EV_OBITUARY: i32 = 93;

/// Configstring indices: `CS_SCORES1/2` drive the mini HUD, `CS_PLAYERS + n`
/// carries client `n`'s info string.
pub const CS_SCORES1: i32 = 6;
pub const CS_SCORES2: i32 = 7;
pub const CS_PLAYERS: i32 = 1131;

// Engine structure layout (server.h / qcommon.h).
pub const OFFSET_CLIENT_STATE: usize = 0;
pub const OFFSET_CLIENT_USERINFO: usize = 4;
pub const OFFSET_CLIENT_RELIABLE_COMMANDS: usize = 1032;
pub const OFFSET_CLIENT_RELIABLE_SEQUENCE: usize = 132104;
pub const OFFSET_CLIENT_RELIABLE_ACKNOWLEDGE: usize = 132108;
pub const OFFSET_CLIENT_MESSAGE_ACKNOWLEDGE: usize = 132116;
pub const OFFSET_CLIENT_GAMESTATE_MESSAGE_NUM: usize = 132120;
pub const OFFSET_CLIENT_LAST_CLIENT_COMMAND: usize = 132164;
pub const OFFSET_CLIENT_DELTA_MESSAGE: usize = 133384;
pub const OFFSET_CLIENT_LAST_PACKET_TIME: usize = 133392;
pub const OFFSET_CLIENT_GENTITY: usize = 133188;
pub const OFFSET_CLIENT_NAME: usize = 133192;
pub const OFFSET_CLIENT_DOWNLOAD_NAME: usize = 133224;
pub const OFFSET_CLIENT_DOWNLOAD: usize = 133288;
pub const OFFSET_CLIENT_FRAMES: usize = 133412;
pub const OFFSET_CLIENT_PING: usize = 234532;
pub const OFFSET_CLIENT_RATE: usize = 234536;
pub const OFFSET_CLIENT_SNAPSHOT_MSEC: usize = 234540;
pub const OFFSET_CLIENT_NETCHAN: usize = 234548;
pub const OFFSET_CLIENT_SNAPSHOT_MESSAGE_SENT: usize = 3148;
pub const OFFSET_CLIENT_SNAPSHOT_MESSAGE_ACKED: usize = 3152;
pub const OFFSET_SV_SV_ENTITIES: usize = 8880;
pub const OFFSET_SV_GENTITIES: usize = 647860;
pub const OFFSET_SV_GENTITY_SIZE: usize = 647864;
pub const OFFSET_SVS_TIME: usize = 4;
pub const OFFSET_SVS_CLIENTS: usize = 12;
pub const OFFSET_SHARED_SVFLAGS: usize = 0x238;
pub const SVF_BOT: u8 = 8;
pub const OFFSET_SHARED_ENTITY_S: usize = 0;
pub const OFFSET_ENTITY_NUMBER: usize = 0;
pub const OFFSET_ENTITY_CLIENT_NUM: usize = 232;
pub const OFFSET_PS_STATS: usize = 244;
pub const OFFSET_PS_PERSISTANT: usize = 308;
pub const OFFSET_PS_CLIENT_NUM: usize = 172;
pub const OFFSET_GCLIENT_PS: usize = 0;
pub const OFFSET_GCLIENT_SESS: usize = 1708;
pub const OFFSET_PERS_CMD: usize = 4;
pub const OFFSET_PERS_CONNECTED: usize = 0;
pub const OFFSET_SESS_SESSION_TEAM: usize = 0;
pub const OFFSET_SESS_SPECTATOR_STATE: usize = 8;
pub const OFFSET_SESS_SPECTATOR_CLIENT: usize = 12;

// spectatorState_t.
pub const SPECTATOR_NOT: i32 = 0;
pub const SPECTATOR_FREE: i32 = 1;
pub const SPECTATOR_FOLLOW: i32 = 2;
pub const SPECTATOR_SCOREBOARD: i32 = 3;

// level_locals_t.
pub const OFFSET_LEVEL_TIME: usize = 32;
pub const OFFSET_LEVEL_FRAMENUM: usize = 28;
pub const OFFSET_LEVEL_TEAM_SCORES: usize = 44;
pub const OFFSET_LEVEL_TEAM_SCORES_RED: usize = 48;
pub const OFFSET_LEVEL_TEAM_SCORES_BLUE: usize = 52;

// msg_t / netchan_t / netadr_t.
pub const OFFSET_MSG_DATA: usize = 12;
pub const OFFSET_MSG_CURSIZE: usize = 20;
pub const OFFSET_MSG_READCOUNT: usize = 24;
pub const OFFSET_MSG_BIT: usize = 28;
pub const OFFSET_NETCHAN_REMOTE_ADDRESS: usize = 234556;
pub const OFFSET_NETCHAN_QPORT: usize = 28;
pub const OFFSET_NETCHAN_UNSENT_FRAGMENTS: usize = 49200;
pub const OFFSET_NETADR_PORT: usize = 18;

/// Strides of the `svs->clients` and `sv->svEntities` arrays.
pub const SIZEOF_CLIENT_T: usize = 332920;
pub const SIZEOF_SV_ENTITY_T: usize = 624;

/// Layout pins of `usercmd_t`.
pub const SIZEOF_USERCMD: usize = 28;
pub const OFFSET_USERCMD_ANGLES: usize = 4;
pub const OFFSET_USERCMD_FORCESEL: usize = 21;

/// `usercmd_t`: the command the engine stores for a client.
#[derive(Debug, Default, Clone, Copy)]
pub struct Usercmd {
    pub server_time: i32,
    pub angles: [i32; 3],
    pub buttons: i32,
    pub weapon: u8,
    pub forcesel: u8,
    pub invensel: u8,
    pub generic_cmd: u8,
    pub forwardmove: i8,
    pub rightmove: i8,
    pub upmove: i8,
}

} // verus!
