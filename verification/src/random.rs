//! The source of the randomness that tree placement draws on.

use rand::Rng;
use vstd::prelude::*;

verus! {

/// Draws a number from `0..bound` with `rand`'s thread-local generator
/// (`rand::thread_rng().gen_range(0..bound)`).
///
/// Nothing is proved about this function. Its contract repeats what
/// `gen_range` documents: the value lies in the range given, and an empty
/// range, which makes `gen_range` panic, is excluded. Which value comes
/// is left open.
#[verifier::external_body]
pub(crate) fn random_below(bound: u32) -> (drawn: u32)
    requires
        bound > 0,
    ensures
        drawn < bound,
{
    rand::thread_rng().gen_range(0..bound)
}

} // verus!
