//! Engine call sites the proxy retargets.

use vstd::prelude::*;

verus! {

pub const CALL_SV_ADD_ENT_TO_SNAPSHOT_FOR_PLAYERS: usize = 0x0805_882d;

} // verus!
