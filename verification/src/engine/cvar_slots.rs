//! Engine globals holding `cvar_t*` pointers.

use vstd::prelude::*;

verus! {

pub const SV_FPS: usize = 0x0827_3e84;

pub const SV_GAMETYPE: usize = 0x0831_21cc;

pub const SV_HOSTNAME: usize = 0x0827_3e9c;

pub const SV_MAPNAME: usize = 0x0827_3e90;

pub const SV_MAXCLIENTS: usize = 0x0827_3ea4;

pub const SV_PRIVATECLIENTS: usize = 0x0827_3e80;

pub const SV_PURE: usize = 0x0831_21a8;

pub const SV_MAXRATE: usize = 0x0831_219c;

pub const SV_RCONPASSWORD: usize = 0x0831_21d4;

pub const SV_FLOODPROTECT: usize = 0x0827_3e88;

pub const SV_ALLOWDOWNLOAD: usize = 0x0831_21b0;

pub const COM_DEDICATED: usize = 0x0831_f254;

pub const COM_SV_RUNNING: usize = 0x0831_f300;

pub const COM_CL_RUNNING: usize = 0x0831_f400;

pub const COM_LOGFILE: usize = 0x0831_f41c;

pub const COM_DEVELOPER: usize = 0x0831_e204;

pub const FS_GAMEDIRVAR: usize = 0x0838_aaec;

} // verus!
