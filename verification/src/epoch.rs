//! Epochs: logical commit timestamps.

use vstd::prelude::*;

verus! {

/// A logical timestamp. Epochs are totally ordered by `<`.
pub type HummockEpoch = u64;

/// Marks state that no commit has touched yet.
pub const INVALID_EPOCH: u64 = 0;

/// Marks "never deleted": no tombstone is in effect.
pub const MAX_EPOCH: u64 = 0xffff_ffff_ffff_ffff;

/// Whether `epoch` is the sentinel that stands for "never deleted".
pub open spec fn is_max_epoch_spec(epoch: u64) -> bool {
    epoch == MAX_EPOCH
}

/// Whether `epoch` is the sentinel that stands for "never deleted".
#[verifier::when_used_as_spec(is_max_epoch_spec)]
pub fn is_max_epoch(epoch: HummockEpoch) -> (r: bool)
    ensures
        r == is_max_epoch_spec(epoch),
{
    epoch == MAX_EPOCH
}

} // verus!
