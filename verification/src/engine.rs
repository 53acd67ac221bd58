//! The engine's address tables and the memory layer recorded at
//! `GAME_INIT`.
//!
//! The engine is a non-PIE executable fixed at `0x08048000`, so every
//! address is absolute and tied to the one engine version the proxy runs
//! on.

pub mod calls;
pub mod cvar_slots;
pub mod functions;
pub mod patches;
pub mod vars;

use vstd::prelude::*;

verus! {

/// Bounds of the engine's executable segment.
pub const ENGINE_TEXT_LO: usize = 0x0804_a1e0;

pub const ENGINE_TEXT_HI: usize = 0x0819_9494;

/// Bounds of the engine's read-write segment (BSS included).
pub const ENGINE_RW_LO: usize = 0x0819_a4e0;

pub const ENGINE_RW_HI: usize = 0x0839_6bb4;

/// The engine's tokenizer output buffer.
pub const CMD_TOKENIZED_BASE: usize = 0x0826_4440;

/// Offsets inside a `cvar_t`.
pub const OFFSET_CVAR_STRING: usize = 4;

pub const OFFSET_CVAR_INTEGER: usize = 32;

/// Whether an address lies in the engine's code.
pub fn in_text_range(addr: usize) -> (r: bool)
    ensures
        r == (ENGINE_TEXT_LO <= addr < ENGINE_TEXT_HI),
{
    ENGINE_TEXT_LO <= addr && addr < ENGINE_TEXT_HI
}

/// Whether an address lies in the engine's data.
pub fn in_rw_range(addr: usize) -> (r: bool)
    ensures
        r == (ENGINE_RW_LO <= addr < ENGINE_RW_HI),
{
    ENGINE_RW_LO <= addr && addr < ENGINE_RW_HI
}

/// The cvar-pointer slots read at `GAME_INIT`, in the order the memory
/// layer keeps them.
pub open spec fn spec_cvar_slots() -> Seq<usize> {
    seq![
        cvar_slots::SV_FPS,
        cvar_slots::SV_GAMETYPE,
        cvar_slots::SV_HOSTNAME,
        cvar_slots::SV_MAPNAME,
        cvar_slots::SV_MAXCLIENTS,
        cvar_slots::SV_PRIVATECLIENTS,
        cvar_slots::SV_PURE,
        cvar_slots::SV_MAXRATE,
        cvar_slots::SV_RCONPASSWORD,
        cvar_slots::SV_FLOODPROTECT,
        cvar_slots::SV_ALLOWDOWNLOAD,
        cvar_slots::COM_DEDICATED,
        cvar_slots::COM_SV_RUNNING,
        cvar_slots::COM_CL_RUNNING,
        cvar_slots::COM_LOGFILE,
        cvar_slots::COM_DEVELOPER,
        cvar_slots::FS_GAMEDIRVAR,
    ]
}

pub fn cvar_slot_addresses() -> (r: [usize; 17])
    ensures
        r@ == spec_cvar_slots(),
{
    let r: [usize; 17] = [
        cvar_slots::SV_FPS,
        cvar_slots::SV_GAMETYPE,
        cvar_slots::SV_HOSTNAME,
        cvar_slots::SV_MAPNAME,
        cvar_slots::SV_MAXCLIENTS,
        cvar_slots::SV_PRIVATECLIENTS,
        cvar_slots::SV_PURE,
        cvar_slots::SV_MAXRATE,
        cvar_slots::SV_RCONPASSWORD,
        cvar_slots::SV_FLOODPROTECT,
        cvar_slots::SV_ALLOWDOWNLOAD,
        cvar_slots::COM_DEDICATED,
        cvar_slots::COM_SV_RUNNING,
        cvar_slots::COM_CL_RUNNING,
        cvar_slots::COM_LOGFILE,
        cvar_slots::COM_DEVELOPER,
        cvar_slots::FS_GAMEDIRVAR,
    ];
    assert(r@ =~= spec_cvar_slots());
    r
}

/// What the proxy records of the engine at `GAME_INIT`: the `svs` and `sv`
/// globals, the `cvar_t*` each cvar slot held, and the addresses of the
/// common variables (redirect buffer, size and flush, log file, command
/// argc and argv).
#[derive(Debug, Clone, Copy)]
pub struct MemoryLayer {
    pub svs: usize,
    pub sv: usize,
    pub cvar_ptrs: [usize; 17],
    pub common_vars: [usize; 6],
}

pub open spec fn spec_common_vars() -> Seq<usize> {
    seq![vars::RD_BUFFER, vars::RD_BUFFERSIZE, vars::RD_FLUSH, vars::LOGFILE, vars::CMD_ARGC, vars::CMD_ARGV]
}

/// The memory layer from the `cvar_t*` values read out of the slots of
/// `cvar_slot_addresses` (in that order).
pub fn memory_layer(cvar_ptrs: [usize; 17]) -> (r: MemoryLayer)
    ensures
        r.svs == vars::SVS,
        r.sv == vars::SV,
        r.cvar_ptrs@ == cvar_ptrs@,
        r.common_vars@ == spec_common_vars(),
{
    let common_vars: [usize; 6] = [
        vars::RD_BUFFER,
        vars::RD_BUFFERSIZE,
        vars::RD_FLUSH,
        vars::LOGFILE,
        vars::CMD_ARGC,
        vars::CMD_ARGV,
    ];
    assert(common_vars@ =~= spec_common_vars());
    MemoryLayer { svs: vars::SVS, sv: vars::SV, cvar_ptrs, common_vars }
}

} // verus!
