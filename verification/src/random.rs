//! The random source. Passwords are drawn with the `rand` crate's standard
//! generator; what the rest of the library knows of it is stated here and is
//! taken on trust.

use rand::rngs::StdRng;
use rand::seq::SliceRandom;
use rand::Rng;
use vstd::prelude::*;

verus! {

/// `rand::rngs::StdRng`, the generator that every drawing function takes by
/// exclusive reference. Its state is opaque to the proofs.
#[verifier::external_type_specification]
#[verifier::external_body]
pub struct ExStdRng(rand::rngs::StdRng);

/// Draws a position below `bound` with `rand::Rng::random_range(0..bound)`.
///
/// Trusted: the call panics on an empty range, which `bound > 0` rules out, and
/// returns a value of the range, so one below `bound`. Nothing else is claimed
/// of the value, and two calls may differ.
#[verifier::external_body]
pub(crate) fn random_index(rng: &mut StdRng, bound: usize) -> (index: usize)
    requires
        bound > 0,
    ensures
        index < bound,
{
    rng.random_range(0..bound)
}

/// Reorders `chars` in place with `rand::seq::SliceRandom::shuffle`.
///
/// Trusted: the shuffle only swaps elements of the slice, so afterwards the
/// vector holds the same characters, each as often as before. Nothing is claimed
/// of the order.
#[verifier::external_body]
pub(crate) fn shuffle_chars(chars: &mut Vec<char>, rng: &mut StdRng)
    ensures
        final(chars)@.to_multiset() == old(chars)@.to_multiset(),
{
    chars.shuffle(rng);
}

} // verus!
