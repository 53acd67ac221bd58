//! Engine global variable addresses.

use vstd::prelude::*;

verus! {

pub const SVS: usize = 0x0831_21e0;

pub const SVSCLIENTS: usize = 0x0831_21ec;

pub const SV: usize = 0x0827_3ec0;

/// `server.sv.serverId` (binary: `SV_ExecuteClientMessage` compares the
/// message serverId against `0x8273ec8`).
pub const SV_SERVER_ID: usize = 0x0827_3ec8;

/// `server.sv.restartedServerId` (`0x8273ecc`, same compare site).
pub const SV_RESTARTED_SERVER_ID: usize = 0x0827_3ecc;

pub const RD_BUFFER: usize = 0x081e_90c0;

pub const RD_BUFFERSIZE: usize = 0x081e_90c4;

pub const RD_FLUSH: usize = 0x081e_90c8;

pub const LOGFILE: usize = 0x0831_f24c;

pub const CMD_ARGC: usize = 0x0826_0e20;

pub const CMD_ARGV: usize = 0x0826_0e40;

pub const CMD_TOKENIZED: usize = 0x0826_4440;

} // verus!
