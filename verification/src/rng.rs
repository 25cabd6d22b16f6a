//! The library's only source of randomness: a caller-supplied `rand`
//! generator, reached through one trusted wrapper. Every draw is handed to
//! verified code as a plain bounded integer, so generation logic is proved
//! for every value a draw can take; a caller that wants reproducible
//! generation seeds the generator itself.

use vstd::prelude::*;

verus! {

#[verifier::external_type_specification]
#[verifier::external_body]
pub struct ExStdRng(rand::rngs::StdRng);

/// Relies on `rand::Rng::gen_range` over `lo..hi`: returns a value in
/// `[lo, hi)` and panics only on an empty range, which the precondition
/// rules out. Nothing more is promised of the value: callers are verified
/// for every outcome.
#[verifier::external_body]
pub(crate) fn rng_range(rng: &mut rand::rngs::StdRng, lo: i64, hi: i64) -> (r: i64)
    requires
        lo < hi,
    ensures
        lo <= r < hi,
{
    rand::Rng::gen_range(rng, lo..hi)
}

} // verus!
