//! The pristine game module's helper functions and hook targets, as file
//! offsets rebased by the module's load base.

use vstd::prelude::*;

verus! {

/// `Q_stricmpn`.
pub const FN_Q_STRICMPN: usize = 0x001a_5184;

/// The two-argument `Q_stricmp` (its own function, not `Q_stricmpn`).
pub const FN_Q_STRICMP: usize = 0x001a_5304;

pub const FN_COM_SPRINTF: usize = 0x001a_5524;

pub const FN_INFO_VALUE_FOR_KEY: usize = 0x001a_5604;

pub const FN_INFO_SET_VALUE_FOR_KEY: usize = 0x001a_5b54;

pub const FN_CONCAT_ARGS: usize = 0x0012_9c74;

/// Hook targets.
pub const FN_G_DAMAGE: usize = 0x0013_8554;

pub const FN_PLAYER_DIE: usize = 0x0013_3b44;

pub const FN_BEGIN_INTERMISSION: usize = 0x0008_7d14;

pub const FN_G_ADD_EVENT: usize = 0x0016_e564;

pub const FN_CLIENT_THINK_REAL: usize = 0x0011_c4c4;

/// `SetTeam(gentity_t*, char*)`, the one path every team change takes.
pub const FN_SET_TEAM: usize = 0x0012_ada4;

/// `AddScore(gentity_t*, vec3_t, int)`, where every frag is credited.
pub const FN_ADD_SCORE: usize = 0x0013_13a4;

/// The game module's `Com_Error`.
pub const FN_COM_ERROR: usize = 0x0008_68a4;

/// Bounds of the game module's code, as file offsets.
pub const GAME_TEXT_LO: usize = 0x0008_5564;

pub const GAME_TEXT_HI: usize = 0x001a_66c4;

/// Whether a file offset lies in the game module's code.
pub fn in_game_text(offset: usize) -> (r: bool)
    ensures
        r == (GAME_TEXT_LO <= offset < GAME_TEXT_HI),
{
    GAME_TEXT_LO <= offset && offset < GAME_TEXT_HI
}

/// Where a game function is in memory: the module base plus its offset.
/// Calls are only made with the module loaded (`base != 0`).
pub fn game_address(base: usize, offset: usize) -> (r: usize)
    requires
        base != 0,
        base + offset <= usize::MAX,
    ensures
        r == base + offset,
{
    base + offset
}

} // verus!
