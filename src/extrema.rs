use vstd::prelude::*;
use itertools::Itertools;
use crate::point::{dist, Point};

verus! {

/// Every element of `v` lies within `usize` distance of `goal`.
pub open spec fn distances_fit<T>(v: Seq<(Point, T)>, goal: Point) -> bool {
    forall|i: int| 0 <= i < v.len() ==> dist(#[trigger] v[i].0, goal) <= usize::MAX
}

/// Relies on itertools' `Itertools::min_set_by_key`, keyed by the distance from the
/// first field to `goal`: the elements at the least distance, in their order.
#[verifier::external_body]
pub(crate) fn closest_to<T: Copy>(v: &Vec<(Point, T)>, goal: Point) -> (r: Vec<(Point, T)>)
    requires
        distances_fit(v@, goal),
    ensures
        r@.len() == 0 <==> v@.len() == 0,
        forall|i: int| 0 <= i < r@.len() ==> v@.contains(#[trigger] r@[i]),
        forall|i: int, j: int|
            0 <= i < r@.len() && 0 <= j < v@.len() ==> dist(#[trigger] r@[i].0, goal) <= dist(
                #[trigger] v@[j].0,
                goal,
            ),
{
    v.iter().copied().min_set_by_key(|item| item.0.distance(goal))
}

/// Relies on itertools' `Itertools::max_set_by_key`, keyed by the distance from the
/// first field to `goal`: the elements at the greatest distance, in their order.
#[verifier::external_body]
pub(crate) fn farthest_from<T: Copy>(v: &Vec<(Point, T)>, goal: Point) -> (r: Vec<(Point, T)>)
    requires
        distances_fit(v@, goal),
    ensures
        r@.len() == 0 <==> v@.len() == 0,
        forall|i: int| 0 <= i < r@.len() ==> v@.contains(#[trigger] r@[i]),
        forall|i: int, j: int|
            0 <= i < r@.len() && 0 <= j < v@.len() ==> dist(#[trigger] r@[i].0, goal) >= dist(
                #[trigger] v@[j].0,
                goal,
            ),
{
    v.iter().copied().max_set_by_key(|item| item.0.distance(goal))
}

} // verus!
