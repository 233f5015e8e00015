//! The random draws of the library, made with the `fastrand` generator.
//!
//! A generator is carried as its 64-bit state. Each draw takes the state it
//! starts from and gives back the state it leaves, so that everything built
//! from draws is a function of the seed.

use vstd::prelude::*;

verus! {

/// What `fastrand::Rng::bool` yields from a generator in the given state:
/// the drawn bit and the state of the generator after the draw.
pub uninterp spec fn coin(state: u64) -> (bool, u64);

/// What `fastrand::Rng::shuffle` makes of `items` from a generator in the
/// given state: the reordered items and the state of the generator afterwards.
/// The swap positions are drawn with `Rng::usize`, which draws by the width of
/// a pointer, so that width is an argument too.
pub uninterp spec fn shuffled(word_bits: u32, state: u64, items: Seq<(i32, i32)>) -> (
    Seq<(i32, i32)>,
    u64,
);

/// Draws one bit with `fastrand::Rng::bool`.
///
/// Trusted: a generator made by `Rng::with_seed(state)` is in that state,
/// `Rng::get_seed` reads the state back, and the draw and the state it leaves
/// depend on the state alone.
#[verifier::external_body]
pub(crate) fn flip(state: u64) -> (r: (bool, u64))
    ensures
        r == coin(state),
{
    let mut rng = fastrand::Rng::with_seed(state);
    let bit = rng.bool();
    (bit, rng.get_seed())
}

/// Reorders `items` with `fastrand::Rng::shuffle`.
///
/// Trusted: the outcome depends on the state, the items and the pointer width
/// alone, and the shuffle only swaps items, so the result holds the same items
/// as often as before.
#[verifier::external_body]
pub(crate) fn shuffle(state: u64, items: Vec<(i32, i32)>) -> (r: (Vec<(i32, i32)>, u64))
    ensures
        (r.0@, r.1) == shuffled(usize::BITS, state, items@),
        r.0@.to_multiset() == items@.to_multiset(),
{
    let mut items = items;
    let mut rng = fastrand::Rng::with_seed(state);
    rng.shuffle(&mut items);
    (items, rng.get_seed())
}

} // verus!
