use vstd::prelude::*;

verus! {

/// A value drawn from `0..bound`.
pub(crate) fn random_below(bound: usize) -> (r: usize)
    requires
        bound > 0,
    ensures
        r < bound,
{
    random_below_wide(bound as u128) as usize
}

/// Relies on rand::Rng::gen_range with the thread-local generator: a value
/// drawn from `0..bound` (it panics on an empty range, hence the `requires`).
#[verifier::external_body]
pub(crate) fn random_below_wide(bound: u128) -> (r: u128)
    requires
        bound > 0,
    ensures
        r < bound,
{
    rand::Rng::gen_range(&mut rand::thread_rng(), 0..bound)
}

/// Relies on rand::seq::index::sample with the thread-local generator:
/// exactly `amount` distinct indices from `0..length` (it panics when
/// `amount > length`, hence the `requires`).
#[verifier::external_body]
pub(crate) fn random_distinct(length: usize, amount: usize) -> (r: Vec<usize>)
    requires
        amount <= length,
    ensures
        r@.len() == amount,
        r@.no_duplicates(),
        forall|i: int| 0 <= i < r@.len() ==> r@[i] < length,
{
    rand::seq::index::sample(&mut rand::thread_rng(), length, amount).into_vec()
}

} // verus!
