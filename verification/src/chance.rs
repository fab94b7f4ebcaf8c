//! The random number generator of the players. Nothing here is proved: each
//! function hands a call on to the `rand` crate, and its contract says what
//! that crate's documentation and source promise of every outcome.

use rand::rngs::StdRng;
use rand::seq::{IteratorRandom, SliceRandom};
use rand::{RngCore, SeedableRng};
use vstd::prelude::*;

verus! {

/// `rand::rngs::StdRng`, the generator that all players use. Its state is
/// hidden from the proofs.
#[verifier::external_type_specification]
#[verifier::external_body]
pub struct ExStdRng(rand::rngs::StdRng);

/// `SeedableRng::seed_from_u64` for `StdRng`: a generator whose output is
/// fixed by the seed. Nothing is claimed of the numbers it will give.
#[verifier::external_body]
pub(crate) fn seeded(seed: u64) -> StdRng {
    StdRng::seed_from_u64(seed)
}

/// `RngCore::next_u32`: the next random number. It may be any.
#[verifier::external_body]
pub(crate) fn next_u32(rng: &mut StdRng) -> u32 {
    rng.next_u32()
}

/// `SliceRandom::choose` on the items of a vector: one of the items, picked
/// at random, and nothing exactly when there is no item.
#[verifier::external_body]
pub(crate) fn choose_ref<'a, T>(items: &'a Vec<T>, rng: &mut StdRng) -> (r: Option<&'a T>)
    ensures
        r is None <==> items.len() == 0,
        r matches Some(x) ==> items@.contains(*x),
{
    items.choose(rng)
}

/// `IteratorRandom::choose` on the iterator over a vector: one of the items,
/// picked at random, and nothing exactly when there is no item.
#[verifier::external_body]
pub(crate) fn choose_item<T>(items: Vec<T>, rng: &mut StdRng) -> (r: Option<T>)
    ensures
        r is None <==> items.len() == 0,
        r matches Some(x) ==> items@.contains(x),
{
    items.into_iter().choose(rng)
}

} // verus!
