//! Engine bytes the proxy patches in place.

use vstd::prelude::*;

verus! {

pub const SVC_REMOTE_COMMAND_TIMER_NOP_ADDR: usize = 0x0805_6b26;

pub const SVC_REMOTE_COMMAND_TIMER_NOP_LEN: usize = 25;

pub const SVC_REMOTE_COMMAND_REDIRECT_LEN_ADDR: usize = 0x0805_6c7d;

pub const SVC_REMOTE_COMMAND_REDIRECT_LEN_BYTE: u8 = 0x03;

} // verus!
