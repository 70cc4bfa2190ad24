use vstd::prelude::*;
use rand::seq::SliceRandom;
use rand::{Rng, SeedableRng};
use rand::rngs::SmallRng;

verus! {

#[verifier::external_type_specification]
#[verifier::external_body]
pub struct ExSmallRng(rand::rngs::SmallRng);

/// Relies on rand's `SeedableRng::from_entropy`: a generator seeded from the system.
#[verifier::external_body]
pub(crate) fn new_rng() -> (r: SmallRng) {
    SmallRng::from_entropy()
}

/// Relies on rand's `Rng::gen_range` on `0..n`: an index below `n`. It panics when the
/// range is empty.
#[verifier::external_body]
pub(crate) fn random_below(rng: &mut SmallRng, n: usize) -> (r: usize)
    requires
        n > 0,
    ensures
        r < n,
{
    rng.gen_range(0..n)
}

/// Relies on rand's `Rng::gen_ratio`: true with probability `numerator / denominator`,
/// always true when they are equal and always false for a zero numerator. It panics
/// for a zero denominator or a numerator above it.
#[verifier::external_body]
pub(crate) fn random_ratio(rng: &mut SmallRng, numerator: u32, denominator: u32) -> (r: bool)
    requires
        0 < denominator,
        numerator <= denominator,
    ensures
        numerator == denominator ==> r,
        numerator == 0 ==> !r,
{
    rng.gen_ratio(numerator, denominator)
}

/// Relies on rand's `SliceRandom::choose`: one element picked at random, `None` for
/// an empty slice.
#[verifier::external_body]
pub(crate) fn pick<T: Copy>(rng: &mut SmallRng, v: &Vec<T>) -> (r: Option<T>)
    ensures
        r is None <==> v@.len() == 0,
        r is Some ==> v@.contains(r->Some_0),
{
    v.choose(rng).copied()
}

/// Relies on rand's `SliceRandom::shuffle`: the same elements in a random order.
#[verifier::external_body]
pub(crate) fn shuffle<T>(rng: &mut SmallRng, v: &mut Vec<T>)
    ensures
        final(v)@.to_multiset() == old(v)@.to_multiset(),
{
    v.shuffle(rng)
}

/// Relies on rand's `SliceRandom::choose_weighted`: the first field of an element
/// picked with probability proportional to its weight; `None` when there is no
/// positive weight. It needs the total weight to fit in `u32`.
#[verifier::external_body]
pub(crate) fn choose_weighted<T: Copy>(rng: &mut SmallRng, v: &Vec<(T, u32)>) -> (r: Option<T>)
    requires
        total_weight(v@) <= u32::MAX,
    ensures
        r is None <==> forall|i: int| 0 <= i < v@.len() ==> #[trigger] v@[i].1 == 0,
        r is Some ==> exists|i: int| 0 <= i < v@.len() && v@[i].0 == r->Some_0 && v@[i].1 > 0,
{
    v.choose_weighted(rng, |item| item.1).ok().map(|item| item.0)
}

pub open spec fn total_weight<T>(v: Seq<(T, u32)>) -> int
    decreases v.len(),
{
    if v.len() == 0 {
        0
    } else {
        total_weight(v.drop_last()) + v.last().1
    }
}

} // verus!
