//! Decisions taken inside the engine and game hooks: download-name checks,
//! per-client net statistics, the engine-side request filters and the game
//! event bookkeeping.

pub mod compat;
pub mod netstatus;
pub mod engine_sv;
pub mod game;

use vstd::prelude::*;

verus! {

/// Fetch the pristine function a hook wraps through its getter and hand it
/// back unchanged (`original_call(f)` is `f()`).
pub fn original_call<F, G: Fn() -> F>(getter: G) -> (r: F)
    requires
        getter.requires(()),
    ensures
        getter.ensures((), r),
{
    getter()
}

} // verus!
