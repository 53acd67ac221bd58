//! Verified core of the Jedi Academy game-module proxy: name/string
//! sanitisers, the per-team-size rule engine, the round-start team lock, the
//! parallel TFFA match bookkeeping, the i386 instruction-length decoder used
//! for detours, the download-name checks and the net-status accounting.
//!
//! Everything that touches engine memory, the dynamic loader or the syscall
//! trap lives outside this crate; the functions here take the values read
//! from there and return the decisions and texts to act on.
#![allow(unused_imports)]

pub mod engine;
pub mod hooks;
pub mod jampgame;
pub mod patch;
pub mod rules;
pub mod sdk;
pub mod shared_api;
pub mod state;
pub mod syscall;
pub mod teamlock;
pub mod text;
pub mod tffa;
pub mod utils;

use vstd::prelude::*;
use vstd::string::StringSliceAdditionalSpecFns;

use crate::sdk::{DEFAULT_BASE_GAME_FOLDER_NAME, ORIGINAL_ENGINE_VERSION, ORIGINAL_LIBRARY_NAME};
use crate::text::{push_bytes, push_str, spec_trim, trim_bounds};

verus! {

/// Symbol the pristine module exports for receiving the syscall trap.
pub const DLL_ENTRY_SYMBOL: &'static str = "dllEntry";

/// Symbol of the pristine module's command dispatcher.
pub const VM_MAIN_SYMBOL: &'static str = "vmMain";

/// The version gate: the engine's `version` cvar starts with the version
/// string of the pristine engine (`strncmp` over the latter's length).
pub open spec fn spec_engine_version_matches(version: Seq<u8>) -> bool {
    let want = ORIGINAL_ENGINE_VERSION.spec_bytes();
    version.len() >= want.len() && version.subrange(0, want.len() as int) == want
}

/// Whether the engine reporting `version` (the cvar's bytes before NUL) is
/// the one this proxy runs on.
pub fn engine_version_matches(version: &[u8]) -> (r: bool)
    ensures
        r == spec_engine_version_matches(version@),
{
    let want = ORIGINAL_ENGINE_VERSION.as_bytes();
    if version.len() < want.len() {
        return false;
    }
    let mut i: usize = 0;
    while i < want.len()
        invariant
            want@ == ORIGINAL_ENGINE_VERSION.spec_bytes(),
            want@.len() <= version@.len(),
            i <= want@.len(),
            forall|j: int| 0 <= j < i ==> version@[j] == want@[j],
        decreases want@.len() - i,
    {
        if version[i] != want[i] {
            assert(version@.subrange(0, want@.len() as int)[i as int] != want@[i as int]);
            return false;
        }
        i += 1;
    }
    assert(version@.subrange(0, want@.len() as int) =~= want@);
    true
}

/// `<fs_game>/jampgame_original.so`, where a blank `fs_game` (after
/// trimming white space) means `base`.
pub open spec fn spec_original_library_path(fs_game: Seq<u8>) -> Seq<u8> {
    let dir = if spec_trim(fs_game).len() == 0 {
        DEFAULT_BASE_GAME_FOLDER_NAME.spec_bytes()
    } else {
        spec_trim(fs_game)
    };
    dir + seq![47u8] + ORIGINAL_LIBRARY_NAME.spec_bytes()
}

/// Path of the pristine game module, relative to the working directory,
/// from the `fs_game` cvar text.
pub fn original_library_path(fs_game: &str) -> (r: Vec<u8>)
    ensures
        r@ == spec_original_library_path(fs_game.spec_bytes()),
{
    let b = fs_game.as_bytes();
    let (lo, hi) = trim_bounds(b, 0, b.len());
    assert(b@.subrange(0, b@.len() as int) =~= b@);
    let mut out: Vec<u8> = Vec::new();
    if lo == hi {
        push_str(&mut out, DEFAULT_BASE_GAME_FOLDER_NAME);
    } else {
        push_bytes(&mut out, vstd::slice::slice_subrange(b, lo, hi));
    }
    out.push(47);
    push_str(&mut out, ORIGINAL_LIBRARY_NAME);
    out
}

} // verus!
