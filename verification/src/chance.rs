use vstd::prelude::*;
use rand::distributions::{Distribution, WeightedIndex};
use rand::rngs::ThreadRng;
use rand::seq::IteratorRandom;
use rand::Rng;

verus! {

/// `rand::rngs::ThreadRng`, which is handed on to the calls and never looked into.
#[verifier::external_type_specification]
#[verifier::external_body]
pub struct ExThreadRng(ThreadRng);

/// `rand::thread_rng` hands out the generator of the calling thread; nothing
/// is claimed of it.
pub assume_specification[ rand::thread_rng ]() -> (rng: ThreadRng)
;

/// The most indices that one call of `pick_distinct` may be asked for.
///
/// `choose_multiple` reserves room for that many before it draws, and the
/// vector that it reserves panics where the room is more than `isize::MAX`
/// bytes. This many indices stay below that on a 32-bit machine too.
pub const PICK_LIMIT: usize = 0x0fff_ffff;

/// The sum of a list of weights.
pub open spec fn total_weight(weights: Seq<u32>) -> nat
    decreases weights.len(),
{
    if weights.len() == 0 {
        0
    } else {
        weights.last() as nat + total_weight(weights.drop_last())
    }
}

/// Some weight of the list is above zero.
pub open spec fn has_positive_weight(weights: Seq<u32>) -> bool {
    exists|j: int| 0 <= j < weights.len() && #[trigger] weights[j] > 0
}

/// Calls `rand::seq::IteratorRandom::choose_multiple` on the indices `0..n`.
///
/// Claimed of it, for every outcome: it returns `amount` of the indices, or
/// all `n` of them if there are fewer, and none of them twice. Nothing is
/// claimed of which indices come nor of their order.
#[verifier::external_body]
pub(crate) fn pick_distinct(rng: &mut ThreadRng, n: usize, amount: usize) -> (picked: Vec<usize>)
    requires
        amount <= PICK_LIMIT,
    ensures
        picked@.len() == if amount <= n { amount } else { n },
        forall|i: int| 0 <= i < picked@.len() ==> #[trigger] picked@[i] < n,
        picked@.no_duplicates(),
{
    (0..n).choose_multiple(rng, amount)
}

/// Calls `rand::seq::IteratorRandom::choose` on the indices `0..n`.
///
/// Claimed of it, for every outcome: it returns one of the indices, and `None`
/// exactly when there is none.
#[verifier::external_body]
pub(crate) fn pick_one(rng: &mut ThreadRng, n: usize) -> (picked: Option<usize>)
    ensures
        picked is None <==> n == 0,
        picked matches Some(i) ==> i < n,
{
    (0..n).choose(rng)
}

/// Calls `rand::Rng::gen_range` on the range `low..high`.
///
/// Claimed of it, for every outcome: the number lies in the range. The call
/// panics on an empty range, which the precondition leaves out.
#[verifier::external_body]
pub(crate) fn pick_between(rng: &mut ThreadRng, low: usize, high: usize) -> (picked: usize)
    requires
        low < high,
    ensures
        low <= picked < high,
{
    rng.gen_range(low..high)
}

/// Calls `rand::Rng::gen` for a `bool`: a fair coin, of which nothing is claimed.
#[verifier::external_body]
pub(crate) fn flip(rng: &mut ThreadRng) -> (heads: bool) {
    rng.gen()
}

/// Builds a `rand::distributions::WeightedIndex` over `weights` and samples it once.
///
/// Claimed of it, for every outcome: an index comes back exactly when some
/// weight is above zero; it is the index of such a weight. The weights are
/// added up in a `u32`, so their sum must fit into one.
#[verifier::external_body]
pub(crate) fn pick_weighted(rng: &mut ThreadRng, weights: &Vec<u32>) -> (picked: Option<usize>)
    requires
        total_weight(weights@) <= u32::MAX,
    ensures
        picked is Some <==> has_positive_weight(weights@),
        picked matches Some(i) ==> i < weights@.len() && weights@[i as int] > 0,
{
    match WeightedIndex::new(weights) {
        Ok(dist) => Some(dist.sample(rng)),
        Err(_) => None,
    }
}

} // verus!
