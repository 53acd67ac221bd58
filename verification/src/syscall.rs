//! Reading the strings the engine writes into the proxy's buffers.

use vstd::prelude::*;

use crate::utils::spec_strlen;

verus! {

/// The bytes before the first NUL of a buffer the engine filled (the whole
/// buffer when it holds no NUL).
pub fn read_engine_string(buffer: &[u8]) -> (r: &[u8])
    ensures
        r@ == buffer@.subrange(0, spec_strlen(buffer@) as int),
{
    let mut n: usize = 0;
    while n < buffer.len() && buffer[n] != 0
        invariant
            n <= buffer@.len(),
            forall|j: int| 0 <= j < n ==> buffer@[j] != 0,
        decreases buffer@.len() - n,
    {
        n += 1;
    }
    proof {
        crate::utils::lemma_strlen_unique(buffer@, n as int);
    }
    vstd::slice::slice_subrange(buffer, 0, n)
}

/// Longest server command text sent: the engine's reliable command slots
/// hold 1024 bytes with the NUL, and longer texts are dropped, not cut.
pub const MAX_SERVER_COMMAND: usize = 1022;

/// Whether a server command text is short enough to be sent.
pub fn server_command_fits(text: &[u8]) -> (r: bool)
    ensures
        r == (text@.len() <= MAX_SERVER_COMMAND),
{
    text.len() <= MAX_SERVER_COMMAND
}

} // verus!
