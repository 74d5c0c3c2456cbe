//! When the log file is rotated.
use vstd::prelude::*;

verus! {

/// The size in bytes past which the log file is rotated.
pub const MAX_LOG_SIZE: u64 = 5242880;

/// Whether a log file of this size is renamed before it is opened, which keeps
/// one earlier generation.
pub fn should_rotate(size: u64) -> (yes: bool)
    ensures
        yes == (size > 5 * 1024 * 1024),
{
    size > MAX_LOG_SIZE
}

} // verus!
