use vstd::prelude::*;

use rand::prng::XorShiftRng;
use rand::{Rng, SeedableRng};

use crate::card::Card;

verus! {

/// The game's one random number generator, shared by shuffles and CPU choices.
#[verifier::external_type_specification]
#[verifier::external_body]
pub struct ExXorShiftRng(XorShiftRng);

/// Relies on `SeedableRng::from_seed` of rand's `XorShiftRng`: a generator whose
/// whole stream is fixed by the 16 seed bytes.
#[verifier::external_body]
pub(crate) fn rng_from_seed(seed: [u8; 16]) -> XorShiftRng {
    XorShiftRng::from_seed(seed)
}

/// Relies on `Rng::gen_range(0, len)`: a value below `len`; it panics when `len` is 0.
#[verifier::external_body]
pub(crate) fn random_index(rng: &mut XorShiftRng, len: usize) -> (r: usize)
    requires
        0 < len,
    ensures
        r < len,
{
    rng.gen_range(0, len)
}

/// Relies on `Rng::shuffle`: it only swaps items, so the cards stay the same
/// cards, in some order.
#[verifier::external_body]
pub(crate) fn shuffle_cards(rng: &mut XorShiftRng, cards: &mut Vec<Card>)
    ensures
        final(cards)@.to_multiset() == old(cards)@.to_multiset(),
        final(cards)@.len() == old(cards)@.len(),
{
    rng.shuffle(cards.as_mut_slice())
}

} // verus!
