//! Sizes for a host with real memory.

use vstd::prelude::*;

verus! {

/// Channel packets on the wire whose proof has not yet come back.
///
/// Sized for a fast link with a deep window and several retransmit generations outstanding at
/// once.
pub const SENT_HASHES: usize = 1024;

} // verus!
