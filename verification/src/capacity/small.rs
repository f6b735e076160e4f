//! Sizes for a small board: one link, a shallow window, and no room to be generous.

use vstd::prelude::*;

verus! {

/// Channel packets on the wire whose proof has not yet come back.
///
/// A board runs one link at a shallow window. Overflow is not a failure here: an unrecorded
/// packet simply retransmits, so this trades a little airtime under heavy loss for a hard
/// memory bound.
pub const SENT_HASHES: usize = 32;

} // verus!
