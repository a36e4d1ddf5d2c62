use vstd::prelude::*;

verus! {

/// Sum of a sequence of weights, as used by `weighted_pick`.
pub open spec fn sum_weights(ws: Seq<u32>) -> int
    decreases ws.len(),
{
    if ws.len() == 0 {
        0
    } else {
        sum_weights(ws.drop_last()) + ws.last()
    }
}

/// Relies on rand's `Rng::gen_range` over `lo..hi`: it panics only when the
/// range is empty, and otherwise returns a value drawn from the range.
#[verifier::external_body]
pub(crate) fn rand_range_i32(lo: i32, hi: i32) -> (r: i32)
    requires
        lo < hi,
    ensures
        lo <= r < hi,
{
    rand::Rng::gen_range(&mut rand::thread_rng(), lo..hi)
}

/// Relies on rand's `Rng::gen_range` over `0..=max`, which is never empty
/// and returns a value no greater than `max`.
#[verifier::external_body]
pub(crate) fn rand_upto_u32(max: u32) -> (r: u32)
    ensures
        r <= max,
{
    rand::Rng::gen_range(&mut rand::thread_rng(), 0..=max)
}

/// Relies on rand's `random::<bool>()`. Nothing is promised of the outcome.
#[verifier::external_body]
pub(crate) fn coin_flip() -> bool {
    rand::random::<bool>()
}

/// Relies on rand's `WeightedIndex` over `u32` weights: `new` fails exactly
/// when there is no entry or every weight is zero (no weight is negative
/// here, and the sum is required to fit, so the remaining error and the
/// overflow in its running total are ruled out), and `sample` returns the
/// index of an entry, never one whose weight is zero.
#[verifier::external_body]
pub(crate) fn weighted_pick(weights: &Vec<u32>) -> (r: Option<usize>)
    requires
        sum_weights(weights@) <= u32::MAX,
    ensures
        r matches Some(i) ==> i < weights@.len() && weights@[i as int] > 0,
        sum_weights(weights@) > 0 ==> r is Some,
{
    match rand::distributions::WeightedIndex::new(weights.iter()) {
        Ok(dist) => Some(rand::distributions::Distribution::sample(
            &dist,
            &mut rand::thread_rng(),
        )),
        Err(_) => None,
    }
}

} // verus!
