//! The random source and the draws the game makes from it.

use rand::rngs::StdRng;
use rand::seq::SliceRandom;
use rand::Rng;
use vstd::prelude::*;

verus! {

/// `rand::rngs::StdRng`, the random source of every draw. Nothing is known
/// of what it holds.
#[verifier::external_type_specification]
#[verifier::external_body]
pub struct ExStdRng(StdRng);

/// Calls `rand::Rng::gen_range` on the half-open range `low..high`.
///
/// Trusted: the draw lies in the range. `gen_range` panics on an empty range,
/// which `requires` rules out.
#[verifier::external_body]
pub(crate) fn draw_between(rng: &mut StdRng, low: u64, high: u64) -> (drawn: u64)
    requires
        low < high,
    ensures
        low <= drawn < high,
{
    rng.gen_range(low..high)
}

/// Calls `rand::Rng::gen_ratio`: `true` with probability
/// `numerator / denominator`.
///
/// Trusted: equal numerator and denominator always give `true`, a zero
/// numerator always gives `false`. `gen_ratio` panics on a zero denominator
/// or a numerator above the denominator, which `requires` rules out.
#[verifier::external_body]
pub(crate) fn draw_chance(rng: &mut StdRng, numerator: u32, denominator: u32) -> (hit: bool)
    requires
        0 < denominator,
        numerator <= denominator,
    ensures
        numerator == denominator ==> hit,
        numerator == 0 ==> !hit,
{
    rng.gen_ratio(numerator, denominator)
}

/// Calls `rand::seq::index::sample`: `amount` distinct indices below `length`,
/// in random order.
///
/// Trusted: the number of indices, their range and their distinctness.
/// `sample` panics when `amount` exceeds `length`; its rejection sampler,
/// used for lengths beyond `u32::MAX`, expects `amount` strictly below
/// `length`.
#[verifier::external_body]
pub(crate) fn draw_distinct(rng: &mut StdRng, length: usize, amount: usize) -> (picks: Vec<usize>)
    requires
        amount <= length,
        amount < length || length <= u32::MAX,
    ensures
        picks@.len() == amount,
        forall|i: int| 0 <= i < picks@.len() ==> picks@[i] < length,
        forall|i: int, j: int| 0 <= i < j < picks@.len() ==> picks@[i] != picks@[j],
{
    rand::seq::index::sample(rng, length, amount).into_vec()
}

/// Whether `after` holds the elements of `before` in some order: each place
/// of `after` takes the element of one place of `before`, no two the same.
pub open spec fn rearranged<T>(before: Seq<T>, after: Seq<T>) -> bool {
    exists|order: Seq<int>|
        {
            &&& order.len() == before.len()
            &&& after.len() == before.len()
            &&& order.no_duplicates()
            &&& forall|i: int|
                0 <= i < order.len() ==> 0 <= #[trigger] order[i] < before.len() && after[i]
                    == before[order[i]]
        }
}

/// Calls `rand::seq::SliceRandom::shuffle` on the list.
///
/// Trusted: the list holds afterwards what it held before, in some order.
#[verifier::external_body]
pub(crate) fn shuffle<T>(list: &mut Vec<T>, rng: &mut StdRng)
    ensures
        rearranged(old(list)@, final(list)@),
{
    list.shuffle(rng);
}

} // verus!
