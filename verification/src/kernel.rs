//! Decisions of the demonstration processes that the kernel boots.
use vstd::prelude::*;

verus! {

/// Number of characters the demonstration processes print before shutting the machine down.
pub const MAX_PRINTS: usize = 200;

/// Whether the print that brought the shared counter from `prev_count` to one more is the last
/// one, so the machine should shut down.
pub fn should_shutdown(prev_count: usize) -> (r: bool)
    requires
        prev_count < usize::MAX,
    ensures
        r == (prev_count + 1 >= MAX_PRINTS),
{
    prev_count + 1 >= MAX_PRINTS
}

} // verus!
