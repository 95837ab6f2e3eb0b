use rand::distributions::{Distribution, Uniform};
use rand::seq::SliceRandom;
use vstd::prelude::*;

verus! {

/// Relies on rand's `SliceRandom::choose` for slices: `None` exactly when the
/// slice is empty, otherwise a reference to one of its elements.
#[verifier::external_body]
pub(crate) fn choose_word(words: &Vec<&'static str>) -> (r: Option<&'static str>)
    ensures
        r is None <==> words@.len() == 0,
        r matches Some(w) ==> words@.contains(w),
{
    words.as_slice().choose(&mut rand::thread_rng()).copied()
}

/// Relies on rand's `Uniform` over a half-open integer range: `Uniform::from`
/// panics unless `low < high`, and a sample lies in `[low, high)`.
#[verifier::external_body]
pub(crate) fn uniform_sample(low: i64, high: i64) -> (r: i64)
    requires
        low < high,
    ensures
        low <= r < high,
{
    Uniform::from(low..high).sample(&mut rand::thread_rng())
}

} // verus!
