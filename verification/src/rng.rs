//! The one source of randomness: scheduling jitter that desynchronizes
//! scrub runs across nodes.
use vstd::prelude::*;

verus! {

/// Relies on rand::thread_rng and rand::Rng::gen_range: a u64 drawn from
/// `[0, bound)`; gen_range panics on an empty range, so the bound must be
/// positive. Nothing more than the range is promised of a random draw.
#[verifier::external_body]
pub(crate) fn rand_u64_below(bound: u64) -> (r: u64)
    requires
        bound > 0,
    ensures
        r < bound,
{
    rand::Rng::gen_range(&mut rand::thread_rng(), 0..bound)
}

} // verus!
