//! The accept loop's limit on concurrent connections.

use vstd::prelude::*;

verus! {

/// A hostile same-user process gains nothing by flooding (it can talk to the
/// agent directly), so the cap only bounds resource use.
pub const MAX_INFLIGHT: usize = 64;

/// Whether a newly accepted connection may be handled while `inflight`
/// others are: otherwise it is dropped.
pub fn has_room(inflight: usize) -> (r: bool)
    ensures
        r == (inflight < MAX_INFLIGHT),
{
    inflight < MAX_INFLIGHT
}

} // verus!
