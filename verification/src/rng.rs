use vstd::prelude::*;

verus! {

/// The deterministic pseudorandom generator that every randomized choice of
/// the library draws from. Declared so that verified code can pass it around;
/// its internals stay opaque.
#[verifier::external_type_specification]
#[verifier::external_body]
pub struct ExChaCha8Rng(rand_chacha::ChaCha8Rng);

/// Relies on rand_core's `RngCore::next_u32` for `ChaCha8Rng`: any 32-bit
/// value may come back.
#[verifier::external_body]
pub(crate) fn rng_next_u32(rng: &mut rand_chacha::ChaCha8Rng) -> u32 {
    rand::RngCore::next_u32(rng)
}

/// Relies on rand_core's `RngCore::next_u64` for `ChaCha8Rng`: any 64-bit
/// value may come back.
#[verifier::external_body]
pub(crate) fn rng_next_u64(rng: &mut rand_chacha::ChaCha8Rng) -> u64 {
    rand::RngCore::next_u64(rng)
}

/// Relies on rand's `Rng::random_range` over `lo..hi`: it panics only on an
/// empty range and returns a value of the range.
#[verifier::external_body]
pub(crate) fn rng_range(rng: &mut rand_chacha::ChaCha8Rng, lo: usize, hi: usize) -> (r: usize)
    requires
        lo < hi,
    ensures
        lo <= r < hi,
{
    rand::Rng::random_range(rng, lo..hi)
}

/// Relies on rand's `Rng::random::<bool>`: a coin flip under the standard
/// uniform distribution; either value may come back.
#[verifier::external_body]
pub(crate) fn rng_coin(rng: &mut rand_chacha::ChaCha8Rng) -> bool {
    rand::Rng::random::<bool>(rng)
}

/// Relies on rand's `IndexedRandom::choose`: `None` exactly on an empty
/// slice, otherwise a reference to one of the slice's elements.
#[verifier::external_body]
pub(crate) fn choose_ref<'a, T>(items: &'a [T], rng: &mut rand_chacha::ChaCha8Rng) -> (r: Option<
    &'a T,
>)
    ensures
        match r {
            Option::None => items@.len() == 0,
            Option::Some(x) => exists|i: int| 0 <= i < items@.len() && *x == items@[i],
        },
{
    rand::seq::IndexedRandom::choose(items, rng)
}

} // verus!
