//! The dice. Every random draw of the simulation is one of the calls below
//! into the `rand` crate; each draws from the generator of the calling thread,
//! which the operating system seeds. Nothing here is proved: each contract
//! states what `rand` documents of every outcome, and the simulation is
//! verified for whatever a call returns within it.

use rand::distributions::{IndependentSample, Range};
use rand::Rng;
use vstd::prelude::*;

verus! {

/// `rand::random::<usize>()`: any `usize` may come back.
#[verifier::external_body]
pub(crate) fn random_usize() -> (draw: usize) {
    rand::random::<usize>()
}

/// `Rng::gen_weighted_bool` on `rand::thread_rng()`: `true` with a chance of
/// one in `n`. For `n` of zero or one the result is always `true`; for a
/// larger `n` either value may come back.
#[verifier::external_body]
pub(crate) fn weighted_flip(n: u32) -> (hit: bool)
    ensures
        n <= 1 ==> hit,
{
    rand::thread_rng().gen_weighted_bool(n)
}

/// `Rng::choose` on `rand::thread_rng()`: one of `values`, each as likely as
/// the others, or `None` where there is none to pick.
#[verifier::external_body]
pub(crate) fn pick_one<T: Copy>(values: &[T]) -> (picked: Option<T>)
    ensures
        values@.len() == 0 ==> picked is None,
        values@.len() > 0 ==> picked is Some && values@.contains(picked->0),
{
    rand::thread_rng().choose(values).copied()
}

/// `Range::new(low, high)` sampled once with `ind_sample` on
/// `rand::thread_rng()`: an integer of the half-open interval from `low` to
/// `high`. `Range::new` panics unless `low < high`.
#[verifier::external_body]
pub(crate) fn sample_range(low: usize, high: usize) -> (draw: usize)
    requires
        low < high,
    ensures
        low <= draw < high,
{
    Range::new(low, high).ind_sample(&mut rand::thread_rng())
}

/// `Rng::gen_range::<isize>` on `rand::thread_rng()`: an integer of the
/// half-open interval from `low` to `high`. The call panics unless
/// `low < high`.
#[verifier::external_body]
pub(crate) fn gen_range(low: isize, high: isize) -> (draw: isize)
    requires
        low < high,
    ensures
        low <= draw < high,
{
    rand::thread_rng().gen_range::<isize>(low, high)
}

} // verus!
