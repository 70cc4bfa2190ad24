use vstd::prelude::*;
use std::collections::{HashMap, HashSet};
use rand::rngs::SmallRng;
use crate::cell::Cell;
use crate::cell::cell_animal::CellAnimal;
use crate::ecosystem::simple_animal::{cell_of, row_before, with_animal};
use crate::ecosystem::water_flow::{index_of, point_of};
use crate::map::{next_version, World};
use crate::point::{dist, in_circle, in_map, Point};
use crate::random::new_rng;

verus! {

#[derive(Debug, Clone, Copy, PartialEq, Eq, Structural, Hash)]
pub enum SnakeSpecies {
    A,
    B,
    C,
}

/// One cell of a snake. Without a segment the cell is a spare part, not yet part of a
/// snake.
#[derive(Debug, Clone, Copy, PartialEq, Eq, Structural)]
pub struct Snake {
    pub species: SnakeSpecies,
    pub segment: Option<SnakeSegment>,
}

/// A link of a snake's chain: `next_segment` is the next point toward the tail.
#[derive(Debug, Clone, Copy, PartialEq, Eq, Structural)]
pub struct SnakeSegment {
    pub kind: SnakeSegmentKind,
    pub next_segment: Option<Point>,
}

/// The head identifies each individual: without it two snakes that touch end to end
/// would read as one.
#[derive(Debug, Clone, Copy, PartialEq, Eq, Structural)]
pub enum SnakeSegmentKind {
    Head { last_feeding: u64 },
    Body,
}

impl Snake {
    /// A spare part of the given species.
    pub fn new(species: SnakeSpecies) -> (r: Snake)
        ensures
            r == (Snake { species, segment: None }),
    {
        Snake { species, segment: None }
    }

    pub fn species(&self) -> (r: SnakeSpecies)
        ensures
            r == self.species,
    {
        self.species
    }

    pub fn is_body(&self) -> (r: bool)
        ensures
            r == (self.segment is Some && self.segment->Some_0.kind is Body),
    {
        match self.segment {
            Some(segment) => matches!(segment.kind, SnakeSegmentKind::Body),
            None => false,
        }
    }

    pub fn next_segment(&self) -> (r: Option<Point>)
        ensures
            r == (match self.segment {
                Some(s) => s.next_segment,
                None => None,
            }),
    {
        match self.segment {
            Some(segment) => segment.next_segment,
            None => None,
        }
    }
}

/// Move ratios are given in parts per million.
pub const MOVE_RATIO_SCALE: u32 = 1000000;

/// The tunables of the snake engine. Times are milliseconds.
#[derive(Debug, Clone, Copy, PartialEq, Eq, Structural)]
pub struct SnakeParams {
    pub min_size: usize,
    pub a_max_size: usize,
    pub b_max_size: usize,
    pub c_max_size: usize,
    /// Chance per tick, in parts per million, that a snake of each species moves.
    pub a_move_ratio: u32,
    pub b_move_ratio: u32,
    pub c_move_ratio: u32,
    pub eating_radius: usize,
    pub starvation_delay: u64,
}

/// Runs the snakes of all species over the map.
#[derive(Debug)]
pub struct SnakeSystem {
    pub params: SnakeParams,
    pub rng: SmallRng,
}

/// What happens to one snake, or to one stray segment, in a tick.
#[derive(Debug, Clone, PartialEq, Eq)]
pub enum Change {
    /// Spare parts, head first, become a snake.
    NewSnake(Vec<Point>),
    /// The snake at these points, head first, starves.
    Starve(Vec<Point>),
    /// The snake at these points, head first, moves its head to `target`.
    Move { snake: Vec<Point>, target: Point },
    /// The head moves to `new_head` and grows by one, eating the amphibian at `food`.
    Eat { head: Point, new_head: Point, food: Point },
    /// A segment that belongs to no valid snake dies.
    Death(Point),
}

pub open spec fn max_size_spec(prm: SnakeParams, species: SnakeSpecies) -> usize {
    match species {
        SnakeSpecies::A => prm.a_max_size,
        SnakeSpecies::B => prm.b_max_size,
        SnakeSpecies::C => prm.c_max_size,
    }
}

pub open spec fn move_ratio_spec(prm: SnakeParams, species: SnakeSpecies) -> u32 {
    match species {
        SnakeSpecies::A => prm.a_move_ratio,
        SnakeSpecies::B => prm.b_move_ratio,
        SnakeSpecies::C => prm.c_move_ratio,
    }
}

pub open spec fn snake_at(rows: Seq<Seq<Cell>>, p: Point) -> Option<Snake> {
    match cell_of(rows, p).animal {
        CellAnimal::Snake(s) => Some(s),
        _ => None,
    }
}

pub open spec fn segment_at(rows: Seq<Seq<Cell>>, p: Point) -> Option<SnakeSegment> {
    match snake_at(rows, p) {
        Some(s) => s.segment,
        None => None,
    }
}

pub open spec fn is_head(seg: SnakeSegment) -> bool {
    seg.kind is Head
}

/// The points reached by following `next` links through `bodies` (keyed by flat
/// index), each body taken at most once, at most `budget` of them.
pub open spec fn chain(bodies: Map<usize, SnakeSegment>, n: int, next: Option<Point>, budget: nat) -> Seq<Point>
    decreases budget,
{
    if budget == 0 {
        Seq::empty()
    } else {
        match next {
            None => Seq::empty(),
            Some(p) => {
                let k = index_of(p, n) as usize;
                if !in_map(p, n) || !bodies.contains_key(k) {
                    Seq::empty()
                } else {
                    seq![p] + chain(bodies.remove(k), n, bodies[k].next_segment, (budget - 1) as nat)
                }
            },
        }
    }
}

/// The bodies left once the chain was taken out.
pub open spec fn chain_rest(bodies: Map<usize, SnakeSegment>, n: int, next: Option<Point>, budget: nat) -> Map<usize, SnakeSegment>
    decreases budget,
{
    if budget == 0 {
        bodies
    } else {
        match next {
            None => bodies,
            Some(p) => {
                let k = index_of(p, n) as usize;
                if !in_map(p, n) || !bodies.contains_key(k) {
                    bodies
                } else {
                    chain_rest(bodies.remove(k), n, bodies[k].next_segment, (budget - 1) as nat)
                }
            },
        }
    }
}

proof fn lemma_index_fits(p: Point, n: int)
    requires
        in_map(p, n),
        n * n <= usize::MAX,
    ensures
        0 <= index_of(p, n) < n * n,
        index_of(p, n) as usize as int == index_of(p, n),
{
    assert(0 <= p.y * n + p.x < n * n) by (nonlinear_arith)
        requires
            0 <= p.x < n,
            0 <= p.y < n,
    ;
}

fn flat_index(p: Point, n: usize) -> (r: usize)
    requires
        in_map(p, n as int),
        n * n <= usize::MAX,
    ensures
        r == index_of(p, n as int),
{
    proof {
        lemma_index_fits(p, n as int);
    }
    p.y as usize * n + p.x as usize
}

impl SnakeSystem {
    pub fn new(params: SnakeParams) -> (r: SnakeSystem)
        ensures
            r.params == params,
    {
        SnakeSystem { params, rng: new_rng() }
    }

    pub fn max_size(&self, species: SnakeSpecies) -> (r: usize)
        ensures
            r == max_size_spec(self.params, species),
    {
        match species {
            SnakeSpecies::A => self.params.a_max_size,
            SnakeSpecies::B => self.params.b_max_size,
            SnakeSpecies::C => self.params.c_max_size,
        }
    }

    pub fn move_ratio(&self, species: SnakeSpecies) -> (r: u32)
        ensures
            r == move_ratio_spec(self.params, species),
    {
        match species {
            SnakeSpecies::A => self.params.a_move_ratio,
            SnakeSpecies::B => self.params.b_move_ratio,
            SnakeSpecies::C => self.params.c_move_ratio,
        }
    }

    /// The points of the snake whose head is at `head`, head first: its bodies are
    /// followed link by link and taken out of `bodies`, so that no body serves two
    /// snakes. `None` when the snake is shorter than the minimum size.
    pub fn extract_snake(
        min_size: usize,
        max_size: usize,
        head: Point,
        head_next_segment: Option<Point>,
        bodies: &mut HashMap<usize, SnakeSegment>,
        n: usize,
    ) -> (r: Option<Vec<Point>>)
        requires
            n * n <= usize::MAX,
        ensures
            ({
                let budget = if max_size > 0 {
                    (max_size - 1) as nat
                } else {
                    0
                };
                let c = chain(old(bodies)@, n as int, head_next_segment, budget);
                &&& final(bodies)@ == chain_rest(old(bodies)@, n as int, head_next_segment, budget)
                &&& r is Some <==> c.len() + 1 >= min_size
                &&& r is Some ==> r->Some_0@ == seq![head] + c
            }),
    {
        broadcast use vstd::std_specs::hash::group_hash_axioms;

        let ghost budget0: nat = if max_size > 0 {
            (max_size - 1) as nat
        } else {
            0
        };
        let ghost bodies0 = bodies@;
        let mut points: Vec<Point> = Vec::new();
        points.push(head);
        let mut next = head_next_segment;
        let mut budget: usize = if max_size > 0 {
            max_size - 1
        } else {
            0
        };
        while budget > 0
            invariant_except_break
                budget > 0 ==> points@.len() >= 1,
            invariant
                n * n <= usize::MAX,
                points@.len() >= 1,
                points@[0] == head,
                points@.subrange(1, points@.len() as int) + chain(bodies@, n as int, next, budget as nat)
                    == chain(bodies0, n as int, head_next_segment, budget0),
                chain_rest(bodies@, n as int, next, budget as nat) == chain_rest(bodies0, n as int, head_next_segment, budget0),
            ensures
                points@.subrange(1, points@.len() as int) == chain(bodies0, n as int, head_next_segment, budget0),
                bodies@ == chain_rest(bodies0, n as int, head_next_segment, budget0),
                points@.len() >= 1,
                points@[0] == head,
            decreases budget,
        {
            let target = match next {
                Some(target) => target,
                None => {
                    assert(points@.subrange(1, points@.len() as int) + Seq::<Point>::empty() =~= points@.subrange(1, points@.len() as int));
                    break;
                },
            };
            if !target.is_valid(n) {
                assert(points@.subrange(1, points@.len() as int) + Seq::<Point>::empty() =~= points@.subrange(1, points@.len() as int));
                break;
            }
            let k = flat_index(target, n);
            let ghost before = bodies@;
            let ghost old_points = points@;
            match bodies.remove(&k) {
                None => {
                    assert(points@.subrange(1, points@.len() as int) + Seq::<Point>::empty() =~= points@.subrange(1, points@.len() as int));
                    break;
                },
                Some(segment) => {
                    points.push(target);
                    next = segment.next_segment;
                    budget = budget - 1;
                    assert(points@.subrange(1, points@.len() as int) =~= old_points.subrange(1, old_points.len() as int) + seq![target]);
                    assert(seq![target] + chain(bodies@, n as int, next, budget as nat) == chain(before, n as int, Some(target), (budget + 1) as nat));
                    assert(old_points.subrange(1, old_points.len() as int) + seq![target] + chain(bodies@, n as int, next, budget as nat)
                        =~= old_points.subrange(1, old_points.len() as int) + (seq![target] + chain(bodies@, n as int, next, budget as nat)));
                },
            }
        }
        proof {
            if budget == 0 {
                assert(chain(bodies@, n as int, next, 0) =~= Seq::<Point>::empty());
                assert(points@.subrange(1, points@.len() as int) + Seq::<Point>::empty() =~= points@.subrange(1, points@.len() as int));
            }
        }
        assert(points@ =~= seq![head] + points@.subrange(1, points@.len() as int));
        if points.len() >= min_size {
            Some(points)
        } else {
            None
        }
    }
}

pub open spec fn adjacent(a: Point, b: Point) -> bool {
    dist(a, b) == 1
}

/// A snake body laid out on the grid: inside the map, no point twice, each point next
/// to the one before.
pub open spec fn is_path(v: Seq<Point>, n: int) -> bool {
    &&& forall|i: int| 0 <= i < v.len() ==> in_map(#[trigger] v[i], n)
    &&& forall|i: int, j: int| 0 <= i < j < v.len() ==> #[trigger] v[i] != #[trigger] v[j]
    &&& forall|i: int| 0 <= i < v.len() - 1 ==> adjacent(#[trigger] v[i], v[i + 1])
}

proof fn lemma_index_injective(p: Point, q: Point, n: int)
    requires
        in_map(p, n),
        in_map(q, n),
        index_of(p, n) == index_of(q, n),
    ensures
        p == q,
{
    vstd::arithmetic::div_mod::lemma_fundamental_div_mod_converse(index_of(p, n), n, p.y as int, p.x as int);
    vstd::arithmetic::div_mod::lemma_fundamental_div_mod_converse(index_of(q, n), n, q.y as int, q.x as int);
}

/// `q` is a spare part still available, by flat index.
pub open spec fn spare_at(spares: Set<usize>, n: int, q: Point) -> bool {
    in_map(q, n) && spares.contains(index_of(q, n) as usize)
}

/// No available spare part lies next to either end of `w`.
#[verifier::opaque]
pub open spec fn ends_stuck(spares: Set<usize>, n: int, w: Seq<Point>) -> bool {
    forall|d: int|
        0 <= d < 4 ==> !spare_at(spares, n, #[trigger] neighbors(w[0])[d]) && !spare_at(
            spares,
            n,
            neighbors(w.last())[d],
        )
}

/// The flat indices of the points of `w`.
#[verifier::opaque]
pub open spec fn keys_of(w: Seq<Point>, n: int) -> Set<usize> {
    Set::new(|k: usize| exists|i: int| 0 <= i < w.len() && index_of(#[trigger] w[i], n) as usize == k)
}

proof fn lemma_keys_grow(before: Seq<Point>, after: Seq<Point>, c: Point, n: int, at_head: bool)
    requires
        after == if at_head {
            seq![c] + before
        } else {
            before.push(c)
        },
    ensures
        keys_of(after, n) == keys_of(before, n).insert(index_of(c, n) as usize),
{
    reveal(keys_of);
    let k = index_of(c, n) as usize;
    assert forall|x: usize| keys_of(after, n).contains(x) <==> keys_of(before, n).insert(k).contains(x) by {
        if keys_of(after, n).contains(x) {
            let i = choose|i: int| 0 <= i < after.len() && index_of(after[i], n) as usize == x;
            if at_head {
                if i > 0 {
                    assert(after[i] == before[i - 1]);
                }
            } else if i < before.len() {
                assert(after[i] == before[i]);
            }
        }
        if keys_of(before, n).contains(x) {
            let j = choose|j: int| 0 <= j < before.len() && index_of(before[j], n) as usize == x;
            if at_head {
                assert(after[j + 1] == before[j]);
            } else {
                assert(after[j] == before[j]);
            }
        }
        if x == k {
            if at_head {
                assert(after[0] == c);
            } else {
                assert(after[after.len() - 1] == c);
            }
        }
    }
    assert(keys_of(after, n) =~= keys_of(before, n).insert(k));
}

impl SnakeSystem {
    /// The available spare parts next to either end, tagged with the end.
    fn adjacent_spare_parts(head: Point, tail: Point, spare_parts: &HashSet<usize>, n: usize) -> (candidates: Vec<(bool, Point)>)
        requires
            n * n <= usize::MAX,
            n + 2 <= isize::MAX,
            in_map(head, n as int),
            in_map(tail, n as int),
        ensures
            forall|c: int|
                0 <= c < candidates@.len() ==> {
                    let (at_head, q) = #[trigger] candidates@[c];
                    &&& in_map(q, n as int)
                    &&& spare_parts@.contains(index_of(q, n as int) as usize)
                    &&& adjacent(if at_head { head } else { tail }, q)
                },
            candidates@.len() == 0 ==> forall|e: int|
                0 <= e < 4 ==> !spare_at(spare_parts@, n as int, #[trigger] neighbors(head)[e]) && !spare_at(
                    spare_parts@,
                    n as int,
                    neighbors(tail)[e],
                ),
    {
        broadcast use vstd::std_specs::hash::group_hash_axioms;

        let ghost nn = n as int;
        let directions = Point::directions();
            let mut candidates: Vec<(bool, Point)> = Vec::new();
        let mut side: usize = 0;
        while side < 2
            invariant
                n * n <= usize::MAX,
                n + 2 <= isize::MAX,
                nn == n,
                directions@ == crate::point::directions_spec(),
                in_map(head, nn),
                in_map(tail, nn),
                side <= 2,
                forall|e: int| 0 <= e < 4 && side > 0 && spare_at(spare_parts@, nn, #[trigger] neighbors(head)[e]) ==> candidates@.len() > 0,
                forall|e: int| 0 <= e < 4 && side > 1 && spare_at(spare_parts@, nn, #[trigger] neighbors(tail)[e]) ==> candidates@.len() > 0,
                forall|c: int|
                    0 <= c < candidates@.len() ==> {
                        let (at_head, q) = #[trigger] candidates@[c];
                        &&& in_map(q, nn)
                        &&& spare_parts@.contains(index_of(q, nn) as usize)
                        &&& adjacent(if at_head { head } else { tail }, q)
                    },
            decreases 2 - side,
        {
            let at_head = side == 0;
            let base = if at_head {
                head
            } else {
                tail
            };
            let mut d: usize = 0;
            while d < 4
                invariant
                    n * n <= usize::MAX,
                    n + 2 <= isize::MAX,
                    nn == n,
                    directions@ == crate::point::directions_spec(),
                    in_map(head, nn),
                    in_map(tail, nn),
                    base == if at_head { head } else { tail },
                    d <= 4,
                    side < 2,
                    at_head == (side == 0),
                    forall|e: int| 0 <= e < 4 && side > 0 && spare_at(spare_parts@, nn, #[trigger] neighbors(head)[e]) ==> candidates@.len() > 0,
                    forall|e: int| 0 <= e < d && spare_at(spare_parts@, nn, #[trigger] neighbors(base)[e]) ==> candidates@.len() > 0,
                    forall|c: int|
                        0 <= c < candidates@.len() ==> {
                            let (h, q) = #[trigger] candidates@[c];
                            &&& in_map(q, nn)
                            &&& spare_parts@.contains(index_of(q, nn) as usize)
                            &&& adjacent(if h { head } else { tail }, q)
                        },
                decreases 4 - d,
            {
                let candidate = base.add(directions[d]);
                assert(candidate == neighbors(base)[d as int]);
                if candidate.is_valid(n) {
                    let k = flat_index(candidate, n);
                    if spare_parts.contains(&k) {
                        candidates.push((at_head, candidate));
                    }
                }
                d = d + 1;
            }
            side = side + 1;
        }
        candidates
    }

    /// Grow a new snake of exactly the minimum size from `point` through adjacent
    /// spare parts, taken out of `spare_parts` (flat indices) as they are used, each
    /// step at a random end. The result is head first; `None` when the growth got
    /// stuck short of the minimum size.
    #[verifier::rlimit(100)]
    pub fn determine_new_snake(
        &mut self,
        point: Point,
        spare_parts: &mut HashSet<usize>,
        n: usize,
    ) -> (r: Option<Vec<Point>>)
        requires
            n * n <= usize::MAX,
            n + 2 <= isize::MAX,
            in_map(point, n as int),
            !old(spare_parts)@.contains(index_of(point, n as int) as usize),
        ensures
            final(self).params == old(self).params,
            final(spare_parts)@.subset_of(old(spare_parts)@),
            old(self).params.min_size == 1 ==> r is Some,
            r is Some ==> final(spare_parts)@ == old(spare_parts)@.difference(keys_of(r->Some_0@, n as int)),
            r is None ==> old(self).params.min_size == 0 || exists|w: Seq<Point>|
                {
                    &&& 1 <= w.len() < old(self).params.min_size
                    &&& w.contains(point)
                    &&& is_path(w, n as int)
                    &&& final(spare_parts)@ == old(spare_parts)@.difference(keys_of(w, n as int))
                    &&& #[trigger] ends_stuck(final(spare_parts)@, n as int, w)
                },
            r is Some ==> {
                let v = r->Some_0@;
                &&& v.len() == old(self).params.min_size
                &&& v.contains(point)
                &&& is_path(v, n as int)
                &&& forall|i: int|
                    0 <= i < v.len() && v[i] != point ==> old(spare_parts)@.contains(
                        index_of(#[trigger] v[i], n as int) as usize,
                    )
                &&& forall|i: int|
                    0 <= i < v.len() ==> !final(spare_parts)@.contains(index_of(#[trigger] v[i], n as int) as usize)
            },
    {
        broadcast use vstd::std_specs::hash::group_hash_axioms;

        let ghost set0 = spare_parts@;
        let ghost nn = n as int;
        let snake_size = self.params.min_size;
        let mut segments: Vec<Point> = Vec::new();
        segments.push(point);
        let mut head = point;
        let mut tail = point;
        let directions = Point::directions();
        assert(segments@[0] == point);
        assert(spare_parts@ =~= set0.difference(keys_of(segments@, nn))) by {
            reveal(keys_of);
            assert forall|x: usize| keys_of(segments@, nn).contains(x) implies x == index_of(point, nn) as usize by {
                let i = choose|i: int| 0 <= i < segments@.len() && index_of(segments@[i], nn) as usize == x;
            }
            assert(keys_of(segments@, nn).contains(index_of(segments@[0], nn) as usize));
        }
        while segments.len() < snake_size
            invariant
                n * n <= usize::MAX,
                n + 2 <= isize::MAX,
                nn == n,
                self.params == old(self).params,
                snake_size == self.params.min_size,
                directions@ == crate::point::directions_spec(),
                segments@.len() >= 1,
                segments@.contains(point),
                head == segments@[0],
                tail == segments@.last(),
                is_path(segments@, nn),
                
                forall|i: int|
                    0 <= i < segments@.len() && segments@[i] != point ==> set0.contains(
                        index_of(#[trigger] segments@[i], nn) as usize,
                    ),
                forall|i: int|
                    0 <= i < segments@.len() ==> !spare_parts@.contains(index_of(#[trigger] segments@[i], nn) as usize),
                spare_parts@ == set0.difference(keys_of(segments@, nn)),
                segments@.len() == 1 || segments@.len() <= snake_size,
            ensures
                segments@.len() >= snake_size || ends_stuck(spare_parts@, nn, segments@),
            decreases snake_size - segments@.len(),
        {
            let candidates = Self::adjacent_spare_parts(head, tail, spare_parts, n);
            match crate::random::pick(&mut self.rng, &candidates) {
                None => {
                    proof {
                        reveal(ends_stuck);
                        assert forall|d: int| 0 <= d < 4 implies !spare_at(spare_parts@, nn, #[trigger] neighbors(segments@[0])[d]) && !spare_at(
                            spare_parts@,
                            nn,
                            neighbors(segments@.last())[d],
                        ) by {
                            assert(!spare_at(spare_parts@, nn, neighbors(head)[d]));
                        }
                        assert(ends_stuck(spare_parts@, nn, segments@));
                    }
                    break;
                },
                Some((at_head, candidate)) => {
                    let ghost before = segments@;
                    let k = flat_index(candidate, n);
                    proof {
                        assert forall|i: int| 0 <= i < before.len() implies #[trigger] before[i] != candidate by {
                            if before[i] == candidate {
                                assert(!spare_parts@.contains(index_of(before[i], nn) as usize));
                            }
                        }
                    }
                    if at_head {
                        head = candidate;
                        segments.insert(0, candidate);
                        proof {
                            assert(segments@ =~= seq![candidate] + before);
                            assert forall|i: int| 0 <= i < segments@.len() - 1 implies adjacent(#[trigger] segments@[i], segments@[i + 1]) by {
                                if i > 0 {
                                    assert(segments@[i] == before[i - 1]);
                                    assert(segments@[i + 1] == before[i]);
                                }
                            }
                            assert forall|i: int, j: int| 0 <= i < j < segments@.len() implies #[trigger] segments@[i] != #[trigger] segments@[j] by {
                                if i > 0 {
                                    assert(segments@[i] == before[i - 1]);
                                }
                                assert(segments@[j] == before[j - 1]);
                            }
                            assert(segments@[1] == before[0]);
                        }
                    } else {
                        tail = candidate;
                        segments.push(candidate);
                        proof {
                            assert forall|i: int| 0 <= i < segments@.len() - 1 implies adjacent(#[trigger] segments@[i], segments@[i + 1]) by {
                                if i < before.len() - 1 {
                                    assert(segments@[i] == before[i]);
                                    assert(segments@[i + 1] == before[i + 1]);
                                }
                            }
                            assert forall|i: int, j: int| 0 <= i < j < segments@.len() implies #[trigger] segments@[i] != #[trigger] segments@[j] by {
                                assert(segments@[i] == before[i]);
                                if j < before.len() {
                                    assert(segments@[j] == before[j]);
                                }
                            }
                        }
                    }
                    let ghost set_before = spare_parts@;
                    spare_parts.remove(&k);
                    proof {
                        assert(set0.contains(k));
                        assert forall|i: int| 0 <= i < segments@.len() implies !spare_parts@.contains(index_of(#[trigger] segments@[i], nn) as usize) by {
                            if segments@[i] != candidate {
                                assert(before.contains(segments@[i]));
                                let e = choose|e: int| 0 <= e < before.len() && before[e] == segments@[i];
                                assert(!set_before.contains(index_of(before[e], nn) as usize));
                            }
                        }
                        assert forall|i: int| 0 <= i < segments@.len() && segments@[i] != point implies set0.contains(
                            index_of(#[trigger] segments@[i], nn) as usize) by {
                            if segments@[i] != candidate {
                                assert(before.contains(segments@[i]));
                                let e = choose|e: int| 0 <= e < before.len() && before[e] == segments@[i];
                            }
                        }
                        assert(before.contains(point));
                        let e = choose|e: int| 0 <= e < before.len() && before[e] == point;
                        if at_head {
                            assert(segments@[e + 1] == point);
                        } else {
                            assert(segments@[e] == point);
                        }
                        if at_head {
                            assert(segments@ =~= seq![candidate] + before);
                        } else {
                            assert(segments@ =~= before.push(candidate));
                        }
                        lemma_keys_grow(before, segments@, candidate, nn, at_head);
                        assert(spare_parts@ =~= set0.difference(keys_of(segments@, nn)));
                    }
                },
            }
        }
        if segments.len() == snake_size {
            Some(segments)
        } else {
            assert(snake_size == 0 || ends_stuck(spare_parts@, nn, segments@));
            None
        }
    }
}

pub open spec fn with_snake(rows: Seq<Seq<Cell>>, p: Point, s: Snake) -> Seq<Seq<Cell>> {
    with_animal(rows, p, CellAnimal::Snake(s))
}

/// The segment that a new snake gets at its `i`-th point.
pub open spec fn segment_for(v: Seq<Point>, i: int, now: u64) -> SnakeSegment {
    SnakeSegment {
        kind: if i == 0 {
            SnakeSegmentKind::Head { last_feeding: now }
        } else {
            SnakeSegmentKind::Body
        },
        next_segment: if i + 1 < v.len() {
            Some(v[i + 1])
        } else {
            None
        },
    }
}

pub open spec fn write_segments(rows: Seq<Seq<Cell>>, v: Seq<Point>, species: SnakeSpecies, now: u64, i: nat) -> Seq<Seq<Cell>>
    decreases i,
{
    if i == 0 || i > v.len() {
        rows
    } else {
        with_snake(
            write_segments(rows, v, species, now, (i - 1) as nat),
            v[i - 1],
            Snake { species, segment: Some(segment_for(v, i - 1, now)) },
        )
    }
}

/// Every listed cell still holds a spare part of the first one's species.
pub open spec fn new_snake_check(rows: Seq<Seq<Cell>>, n: int, v: Seq<Point>) -> bool {
    &&& v.len() >= 1
    &&& forall|i: int|
        0 <= i < v.len() ==> {
            &&& in_map(#[trigger] v[i], n)
            &&& snake_at(rows, v[i]) is Some
            &&& snake_at(rows, v[i])->Some_0.species == snake_at(rows, v[0])->Some_0.species
            &&& snake_at(rows, v[i])->Some_0.segment is None
        }
}

/// The cells after the listed spare parts, if still spare parts of one species,
/// became a snake.
pub open spec fn new_snake_result(rows: Seq<Seq<Cell>>, n: int, v: Seq<Point>, now: u64) -> Seq<Seq<Cell>> {
    if new_snake_check(rows, n, v) {
        write_segments(rows, v, snake_at(rows, v[0])->Some_0.species, now, v.len())
    } else {
        rows
    }
}

/// The cell at `p` as a body segment, if it is a segment.
pub open spec fn demote(rows: Seq<Seq<Cell>>, p: Point) -> Seq<Seq<Cell>> {
    match snake_at(rows, p) {
        Some(s) => match s.segment {
            Some(g) => with_snake(rows, p, Snake { segment: Some(SnakeSegment { kind: SnakeSegmentKind::Body, ..g }), ..s }),
            None => rows,
        },
        None => rows,
    }
}

/// The cell at `p` as the end of its chain, if it is a segment.
pub open spec fn clear_next(rows: Seq<Seq<Cell>>, p: Point) -> Seq<Seq<Cell>> {
    match snake_at(rows, p) {
        Some(s) => match s.segment {
            Some(g) => with_snake(rows, p, Snake { segment: Some(SnakeSegment { next_segment: None, ..g }), ..s }),
            None => rows,
        },
        None => rows,
    }
}

pub open spec fn link_after(v: Seq<Point>, i: int) -> Option<Point> {
    if i + 1 < v.len() {
        Some(v[i + 1])
    } else {
        None
    }
}

/// The snake is still where it was planned, link for link, and the target is free.
pub open spec fn move_check(rows: Seq<Seq<Cell>>, n: int, v: Seq<Point>, target: Point) -> bool {
    &&& v.len() >= 1
    &&& in_map(target, n)
    &&& forall|i: int| 0 <= i < v.len() ==> in_map(#[trigger] v[i], n)
    &&& segment_at(rows, v[0]) is Some
    &&& is_head(segment_at(rows, v[0])->Some_0)
    &&& segment_at(rows, v[0])->Some_0.next_segment == link_after(v, 0)
    &&& forall|i: int|
        1 <= i < v.len() ==> {
            &&& snake_at(rows, #[trigger] v[i]) is Some
            &&& snake_at(rows, v[i])->Some_0.species == snake_at(rows, v[0])->Some_0.species
            &&& segment_at(rows, v[i]) is Some
            &&& segment_at(rows, v[i])->Some_0.kind is Body
            &&& segment_at(rows, v[i])->Some_0.next_segment == link_after(v, i)
        }
    &&& cell_of(rows, target).animal is Empty
}

/// A new head at the target, the old head a body, the old tail gone.
pub open spec fn move_result(rows: Seq<Seq<Cell>>, v: Seq<Point>, target: Point) -> Seq<Seq<Cell>> {
    let s0 = snake_at(rows, v[0])->Some_0;
    let last_feeding = segment_at(rows, v[0])->Some_0.kind->last_feeding;
    let r1 = with_snake(
        rows,
        target,
        Snake {
            species: s0.species,
            segment: Some(SnakeSegment { kind: SnakeSegmentKind::Head { last_feeding }, next_segment: Some(v[0]) }),
        },
    );
    let r2 = demote(r1, v[0]);
    let r3 = with_animal(r2, v.last(), CellAnimal::Empty);
    let new_tail = if v.len() == 1 {
        target
    } else {
        v[v.len() - 2]
    };
    clear_next(r3, new_tail)
}

pub open spec fn eat_check(rows: Seq<Seq<Cell>>, n: int, head: Point, new_head: Point, food: Point) -> bool {
    &&& head != new_head && head != food && new_head != food
    &&& in_map(head, n) && in_map(new_head, n) && in_map(food, n)
    &&& segment_at(rows, head) is Some
    &&& is_head(segment_at(rows, head)->Some_0)
    &&& cell_of(rows, new_head).animal is Empty
    &&& cell_of(rows, food).animal is Amphibian
}

/// A new, fed head at `new_head` linked to the old head, which becomes a body; the
/// prey is gone.
pub open spec fn eat_result(rows: Seq<Seq<Cell>>, head: Point, new_head: Point, food: Point, now: u64) -> Seq<Seq<Cell>> {
    let s = snake_at(rows, head)->Some_0;
    with_animal(
        with_snake(
            demote(rows, head),
            new_head,
            Snake {
                species: s.species,
                segment: Some(SnakeSegment { kind: SnakeSegmentKind::Head { last_feeding: now }, next_segment: Some(head) }),
            },
        ),
        food,
        CellAnimal::Empty,
    )
}

pub open spec fn death_result(rows: Seq<Seq<Cell>>, n: int, p: Point) -> Seq<Seq<Cell>> {
    if in_map(p, n) && snake_at(rows, p) is Some {
        with_animal(rows, p, CellAnimal::Dead)
    } else {
        rows
    }
}

pub open spec fn deaths_result(rows: Seq<Seq<Cell>>, n: int, v: Seq<Point>) -> Seq<Seq<Cell>>
    decreases v.len(),
{
    if v.len() == 0 {
        rows
    } else {
        death_result(deaths_result(rows, n, v.drop_last()), n, v.last())
    }
}

/// The cells after one change was replayed: applied if its check holds on the
/// current cells, skipped otherwise.
pub open spec fn apply_one(rows: Seq<Seq<Cell>>, n: int, c: Change, now: u64) -> Seq<Seq<Cell>> {
    match c {
        Change::NewSnake(v) => new_snake_result(rows, n, v@, now),
        Change::Move { snake, target } => if move_check(rows, n, snake@, target) {
            move_result(rows, snake@, target)
        } else {
            rows
        },
        Change::Eat { head, new_head, food } => if eat_check(rows, n, head, new_head, food) {
            eat_result(rows, head, new_head, food, now)
        } else {
            rows
        },
        Change::Death(p) => death_result(rows, n, p),
        Change::Starve(v) => deaths_result(rows, n, v@),
    }
}

pub open spec fn apply_all(rows: Seq<Seq<Cell>>, n: int, changes: Seq<Change>, now: u64) -> Seq<Seq<Cell>>
    decreases changes.len(),
{
    if changes.len() == 0 {
        rows
    } else {
        apply_one(apply_all(rows, n, changes.drop_last(), now), n, changes.last(), now)
    }
}

impl SnakeSystem {
    fn snake_cell(map: &World, point: Point) -> (r: Option<(Cell, Snake)>)
        requires
            map.wf(),
        ensures
            r is Some <==> in_map(point, map.side() as int) && snake_at(map@, point) is Some,
            r is Some ==> r->Some_0.0 == map.cell_at(point) && Some(r->Some_0.1) == snake_at(map@, point),
    {
        match map.cell(point) {
            Some(cell) => match cell.animal {
                CellAnimal::Snake(snake) => Some((cell, snake)),
                _ => None,
            },
            None => None,
        }
    }

    /// Enroll the listed spare parts as a snake, head first, fed at `now`.
    pub fn apply_new_snake(map: &mut World, points: &Vec<Point>, now: u64) -> (r: bool)
        requires
            old(map).wf(),
        ensures
            final(map).wf(),
            final(map).side() == old(map).side(),
            final(map).version() == old(map).version(),
            r == new_snake_check(old(map)@, old(map).side() as int, points@),
            final(map)@ == new_snake_result(old(map)@, old(map).side() as int, points@, now),
    {
        let ghost rows0 = map@;
        let ghost n = map.side() as int;
        if points.len() == 0 {
            return false;
        }
        let species = match Self::snake_cell(map, points[0]) {
            Some((_, head)) => head.species,
            None => {
                return false;
            },
        };
        let mut i: usize = 0;
        while i < points.len()
            invariant
                map.wf(),
                map@ == rows0,
                n == map.side(),
                points@.len() >= 1,
                in_map(points@[0], n),
                snake_at(rows0, points@[0]) is Some,
                species == snake_at(rows0, points@[0])->Some_0.species,
                i <= points@.len(),
                forall|k: int|
                    0 <= k < i ==> {
                        &&& in_map(#[trigger] points@[k], n)
                        &&& snake_at(rows0, points@[k]) is Some
                        &&& snake_at(rows0, points@[k])->Some_0.species == species
                        &&& snake_at(rows0, points@[k])->Some_0.segment is None
                    },
            decreases points@.len() - i,
        {
            match Self::snake_cell(map, points[i]) {
                Some((_, snake)) => {
                    if snake.species != species || snake.segment.is_some() {
                        return false;
                    }
                },
                None => {
                    return false;
                },
            }
            i = i + 1;
        }
        let mut i: usize = 0;
        while i < points.len()
            invariant
                map.wf(),
                n == map.side(),
                map.version() == old(map).version(),
                new_snake_check(rows0, n, points@),
                species == snake_at(rows0, points@[0])->Some_0.species,
                i <= points@.len(),
                map@ == write_segments(rows0, points@, species, now, i as nat),
            decreases points@.len() - i,
        {
            let point = points[i];
            assert(in_map(points@[i as int], n));
            let cell = match map.cell(point) {
                Some(cell) => cell,
                None => Cell::empty(0),
            };
            let kind = if i == 0 {
                SnakeSegmentKind::Head { last_feeding: now }
            } else {
                SnakeSegmentKind::Body
            };
            let next_segment = if i + 1 < points.len() {
                Some(points[i + 1])
            } else {
                None
            };
            let snake = Snake { species, segment: Some(SnakeSegment { kind, next_segment }) };
            map.set_cell(point, Cell { animal: CellAnimal::Snake(snake), ..cell });
            i = i + 1;
        }
        true
    }

    /// Move the snake's head to `target` if the snake is still as planned and the
    /// target is free.
    pub fn apply_move(map: &mut World, snake: &Vec<Point>, target: Point) -> (r: bool)
        requires
            old(map).wf(),
        ensures
            final(map).wf(),
            final(map).side() == old(map).side(),
            final(map).version() == old(map).version(),
            r == move_check(old(map)@, old(map).side() as int, snake@, target),
            r ==> final(map)@ == move_result(old(map)@, snake@, target),
            !r ==> final(map)@ == old(map)@,
    {
        let ghost rows0 = map@;
        let ghost n = map.side() as int;
        if snake.len() == 0 {
            return false;
        }
        let (head_cell, head) = match Self::snake_cell(map, snake[0]) {
            Some(pair) => pair,
            None => {
                return false;
            },
        };
        let species = head.species;
        let head_segment = match head.segment {
            Some(segment) => segment,
            None => {
                return false;
            },
        };
        let expected_next = if snake.len() > 1 {
            Some(snake[1])
        } else {
            None
        };
        if head_segment.next_segment != expected_next {
            return false;
        }
        let last_feeding = match head_segment.kind {
            SnakeSegmentKind::Head { last_feeding } => last_feeding,
            SnakeSegmentKind::Body => {
                return false;
            },
        };
        let mut i: usize = 1;
        while i < snake.len()
            invariant
                map.wf(),
                map@ == rows0,
                n == map.side(),
                snake@.len() >= 1,
                in_map(snake@[0], n),
                snake_at(rows0, snake@[0]) == Some(head),
                species == head.species,
                1 <= i <= snake@.len(),
                forall|k: int|
                    1 <= k < i ==> {
                        &&& in_map(#[trigger] snake@[k], n)
                        &&& snake_at(rows0, snake@[k]) is Some
                        &&& snake_at(rows0, snake@[k])->Some_0.species == species
                        &&& segment_at(rows0, snake@[k]) is Some
                        &&& segment_at(rows0, snake@[k])->Some_0.kind is Body
                        &&& segment_at(rows0, snake@[k])->Some_0.next_segment == link_after(snake@, k)
                    },
            decreases snake@.len() - i,
        {
            match Self::snake_cell(map, snake[i]) {
                None => {
                    return false;
                },
                Some((_, body)) => {
                    let expected = if i + 1 < snake.len() {
                        Some(snake[i + 1])
                    } else {
                        None
                    };
                    if body.species != species || !body.is_body() || body.next_segment() != expected {
                        return false;
                    }
                },
            }
            i = i + 1;
        }
        let target_cell = match map.cell(target) {
            Some(cell) => cell,
            None => {
                return false;
            },
        };
        if !target_cell.animal.is_empty() {
            return false;
        }
        assert(forall|k: int| 0 <= k < snake@.len() ==> in_map(#[trigger] snake@[k], n)) by {
            assert(in_map(snake@[0], n));
        }
        let new_head = Snake {
            species,
            segment: Some(SnakeSegment { kind: SnakeSegmentKind::Head { last_feeding }, next_segment: Some(snake[0]) }),
        };
        map.set_cell(target, Cell { animal: CellAnimal::Snake(new_head), ..target_cell });
        Self::demote_cell(map, snake[0]);
        let tail = snake[snake.len() - 1];
        let tail_cell = match map.cell(tail) {
            Some(cell) => cell,
            None => Cell::empty(0),
        };
        map.set_cell(tail, Cell { animal: CellAnimal::Empty, ..tail_cell });
        let new_tail = if snake.len() == 1 {
            target
        } else {
            snake[snake.len() - 2]
        };
        Self::clear_next_cell(map, new_tail);
        true
    }

    fn demote_cell(map: &mut World, point: Point)
        requires
            old(map).wf(),
            in_map(point, old(map).side() as int),
        ensures
            final(map).wf(),
            final(map).side() == old(map).side(),
            final(map).version() == old(map).version(),
            final(map)@ == demote(old(map)@, point),
    {
        match Self::snake_cell(map, point) {
            Some((cell, snake)) => match snake.segment {
                Some(segment) => {
                    let body = Snake { segment: Some(SnakeSegment { kind: SnakeSegmentKind::Body, ..segment }), ..snake };
                    map.set_cell(point, Cell { animal: CellAnimal::Snake(body), ..cell });
                },
                None => {},
            },
            None => {},
        }
    }

    fn clear_next_cell(map: &mut World, point: Point)
        requires
            old(map).wf(),
            in_map(point, old(map).side() as int),
        ensures
            final(map).wf(),
            final(map).side() == old(map).side(),
            final(map).version() == old(map).version(),
            final(map)@ == clear_next(old(map)@, point),
    {
        match Self::snake_cell(map, point) {
            Some((cell, snake)) => match snake.segment {
                Some(segment) => {
                    let end = Snake { segment: Some(SnakeSegment { next_segment: None, ..segment }), ..snake };
                    map.set_cell(point, Cell { animal: CellAnimal::Snake(end), ..cell });
                },
                None => {},
            },
            None => {},
        }
    }

    /// Grow the snake onto `new_head`, eating the amphibian at `food`, if the head is
    /// still a head, `new_head` still free and the prey still there.
    pub fn apply_eat(map: &mut World, head: Point, new_head: Point, food: Point, now: u64) -> (r: bool)
        requires
            old(map).wf(),
        ensures
            final(map).wf(),
            final(map).side() == old(map).side(),
            final(map).version() == old(map).version(),
            r == eat_check(old(map)@, old(map).side() as int, head, new_head, food),
            r ==> final(map)@ == eat_result(old(map)@, head, new_head, food, now),
            !r ==> final(map)@ == old(map)@,
    {
        if head == new_head || head == food || new_head == food {
            return false;
        }
        let snake = match Self::snake_cell(map, head) {
            Some((_, snake)) => snake,
            None => {
                return false;
            },
        };
        match snake.segment {
            Some(segment) => {
                if !matches!(segment.kind, SnakeSegmentKind::Head { .. }) {
                    return false;
                }
            },
            None => {
                return false;
            },
        }
        let new_head_cell = match map.cell(new_head) {
            Some(cell) => cell,
            None => {
                return false;
            },
        };
        if !new_head_cell.animal.is_empty() {
            return false;
        }
        let food_cell = match map.cell(food) {
            Some(cell) => cell,
            None => {
                return false;
            },
        };
        if food_cell.animal.amphibian().is_none() {
            return false;
        }
        Self::demote_cell(map, head);
        let grown = Snake {
            species: snake.species,
            segment: Some(SnakeSegment { kind: SnakeSegmentKind::Head { last_feeding: now }, next_segment: Some(head) }),
        };
        map.set_cell(new_head, Cell { animal: CellAnimal::Snake(grown), ..new_head_cell });
        map.set_cell(food, Cell { animal: CellAnimal::Empty, ..food_cell });
        true
    }

    /// Turn the cell at `point` into dead matter if it still holds a snake.
    pub fn apply_death(map: &mut World, point: Point) -> (r: bool)
        requires
            old(map).wf(),
        ensures
            final(map).wf(),
            final(map).side() == old(map).side(),
            final(map).version() == old(map).version(),
            final(map)@ == death_result(old(map)@, old(map).side() as int, point),
            r == (in_map(point, old(map).side() as int) && snake_at(old(map)@, point) is Some),
    {
        match Self::snake_cell(map, point) {
            Some((cell, _)) => {
                map.set_cell(point, Cell { animal: CellAnimal::Dead, ..cell });
                true
            },
            None => false,
        }
    }

    /// Every listed cell that still holds a snake dies.
    pub fn apply_starvation(map: &mut World, points: &Vec<Point>) -> (r: bool)
        requires
            old(map).wf(),
        ensures
            final(map).wf(),
            final(map).side() == old(map).side(),
            final(map).version() == old(map).version(),
            final(map)@ == deaths_result(old(map)@, old(map).side() as int, points@),
            !r ==> final(map)@ == old(map)@,
    {
        let ghost rows0 = map@;
        let ghost n = map.side() as int;
        let mut any = false;
        let mut i: usize = 0;
        while i < points.len()
            invariant
                map.wf(),
                n == map.side(),
                map.version() == old(map).version(),
                i <= points@.len(),
                map@ == deaths_result(rows0, n, points@.subrange(0, i as int)),
                !any ==> map@ == rows0,
            decreases points@.len() - i,
        {
            let died = Self::apply_death(map, points[i]);
            assert(points@.subrange(0, i + 1).drop_last() =~= points@.subrange(0, i as int));
            any = any || died;
            i = i + 1;
        }
        assert(points@.subrange(0, points@.len() as int) =~= points@);
        any
    }

    /// Replay the planned changes at time `now`, each only if what it needs still
    /// holds on the map as it is then. Returns whether any altered the map; if so the
    /// version advances.
    pub fn apply_changes(&self, map: &mut World, changes: &Vec<Change>, now: u64) -> (r: bool)
        requires
            old(map).wf(),
            old(map).version() < u64::MAX,
        ensures
            final(map).wf(),
            final(map).side() == old(map).side(),
            final(map)@ == apply_all(old(map)@, old(map).side() as int, changes@, now),
            !r ==> final(map)@ == old(map)@ && final(map).version() == old(map).version(),
            r ==> final(map).version() == next_version(old(map).version(), now),
    {
        let ghost rows0 = map@;
        let ghost n = map.side() as int;
        let mut changed = false;
        let mut i: usize = 0;
        while i < changes.len()
            invariant
                map.wf(),
                n == map.side(),
                map.version() == old(map).version(),
                i <= changes@.len(),
                map@ == apply_all(rows0, n, changes@.subrange(0, i as int), now),
                !changed ==> map@ == rows0,
            decreases changes@.len() - i,
        {
            let applied = match &changes[i] {
                Change::NewSnake(points) => Self::apply_new_snake(map, points, now),
                Change::Move { snake, target } => Self::apply_move(map, snake, *target),
                Change::Eat { head, new_head, food } => Self::apply_eat(map, *head, *new_head, *food, now),
                Change::Death(point) => Self::apply_death(map, *point),
                Change::Starve(points) => Self::apply_starvation(map, points),
            };
            assert(changes@.subrange(0, i + 1).drop_last() =~= changes@.subrange(0, i as int));
            changed = changed || applied;
            i = i + 1;
        }
        assert(changes@.subrange(0, changes@.len() as int) =~= changes@);
        if changed {
            map.notify_update(now);
        }
        changed
    }
}

pub open spec fn free_at(rows: Seq<Seq<Cell>>, n: int, p: Point) -> bool {
    in_map(p, n) && cell_of(rows, p).animal is Empty
}

/// An amphibian not yet promised to a snake this tick.
pub open spec fn prey_at(rows: Seq<Seq<Cell>>, n: int, eaten: Set<usize>, p: Point) -> bool {
    in_map(p, n) && cell_of(rows, p).animal is Amphibian && !eaten.contains(index_of(p, n) as usize)
}

pub open spec fn neighbors(p: Point) -> Seq<Point> {
    seq![
        Point { x: (p.x + 1) as isize, y: p.y },
        Point { x: p.x, y: (p.y + 1) as isize },
        Point { x: (p.x - 1) as isize, y: p.y },
        Point { x: p.x, y: (p.y - 1) as isize },
    ]
}

/// `t` is a free neighbor of `head` that gets as close to `goal` as any free
/// neighbor.
pub open spec fn best_step(rows: Seq<Seq<Cell>>, n: int, head: Point, goal: Point, t: Point) -> bool {
    &&& neighbors(head).contains(t)
    &&& free_at(rows, n, t)
    &&& forall|k: int| 0 <= k < 4 && free_at(rows, n, #[trigger] neighbors(head)[k]) ==> dist(t, goal) <= dist(neighbors(head)[k], goal)
}

pub open spec fn has_free_neighbor(rows: Seq<Seq<Cell>>, n: int, head: Point) -> bool {
    exists|k: int| 0 <= k < 4 && free_at(rows, n, #[trigger] neighbors(head)[k])
}

/// The map fits the tunables: every coordinate computed around a cell fits.
pub open spec fn snake_params_fit(prm: SnakeParams, n: int) -> bool {
    &&& n + prm.eating_radius + 2 <= isize::MAX
    &&& n * 2 + 2 <= usize::MAX
    &&& n * 2 + 2 <= isize::MAX
    &&& n * n <= usize::MAX
    &&& prm.a_move_ratio <= MOVE_RATIO_SCALE
    &&& prm.b_move_ratio <= MOVE_RATIO_SCALE
    &&& prm.c_move_ratio <= MOVE_RATIO_SCALE
}

impl SnakeSystem {
    /// The snake starves when its head last fed more than the delay ago.
    pub fn determine_starvation(&self, now: u64, head: SnakeSegment, snake_points: &Vec<Point>) -> (r: Option<Change>)
        ensures
            r is Some <==> (head.kind is Head && now - head.kind->last_feeding > self.params.starvation_delay),
            r is Some ==> r->Some_0 is Starve && r->Some_0->Starve_0@ == snake_points@,
    {
        match head.kind {
            SnakeSegmentKind::Head { last_feeding } => {
                if now > last_feeding && now - last_feeding > self.params.starvation_delay {
                    let mut v: Vec<Point> = Vec::new();
                    let mut i: usize = 0;
                    while i < snake_points.len()
                        invariant
                            i <= snake_points@.len(),
                            v@ == snake_points@.subrange(0, i as int),
                        decreases snake_points@.len() - i,
                    {
                        v.push(snake_points[i]);
                        i = i + 1;
                        assert(v@ =~= snake_points@.subrange(0, i as int));
                    }
                    assert(v@ =~= snake_points@);
                    return Some(Change::Starve(v));
                }
                None
            },
            SnakeSegmentKind::Body => None,
        }
    }

    /// A free neighbor of `head` as close to `goal` as any, picked at random among
    /// the closest; `None` when every neighbor is taken.
    pub fn find_movement_target(&mut self, map: &World, head: Point, goal: Point) -> (r: Option<Point>)
        requires
            map.wf(),
            snake_params_fit(old(self).params, map.side() as int),
            in_map(head, map.side() as int),
            in_map(goal, map.side() as int),
        ensures
            final(self).params == old(self).params,
            r is None <==> !has_free_neighbor(map@, map.side() as int, head),
            r is Some ==> best_step(map@, map.side() as int, head, goal, r->Some_0),
    {
        let ghost n = map.side() as int;
        let directions = Point::directions();
        let mut free: Vec<(Point, ())> = Vec::new();
        let mut d: usize = 0;
        while d < 4
            invariant
                map.wf(),
                n == map.side(),
                snake_params_fit(self.params, n),
                in_map(head, n),
                in_map(goal, n),
                directions@ == crate::point::directions_spec(),
                d <= 4,
                forall|e: int| 0 <= e < free@.len() ==> neighbors(head).contains((#[trigger] free@[e]).0) && free_at(map@, n, free@[e].0),
                forall|k: int| 0 <= k < d && free_at(map@, n, #[trigger] neighbors(head)[k]) ==> exists|e: int| 0 <= e < free@.len() && free@[e].0 == neighbors(head)[k],
            decreases 4 - d,
        {
            let target = head.add(directions[d]);
            assert(target == neighbors(head)[d as int]);
            let ghost before = free@;
            match map.cell(target) {
                Some(cell) => {
                    if cell.animal.is_empty() {
                        free.push((target, ()));
                        assert(free@[before.len() as int].0 == target);
                    }
                },
                None => {},
            }
            assert forall|e: int| 0 <= e < free@.len() implies neighbors(head).contains((#[trigger] free@[e]).0) && free_at(map@, n, free@[e].0) by {
                if e < before.len() {
                    assert(free@[e] == before[e]);
                } else {
                    assert(neighbors(head)[d as int] == target);
                }
            }
            assert forall|k: int| 0 <= k < d + 1 && free_at(map@, n, #[trigger] neighbors(head)[k]) implies exists|e: int| 0 <= e < free@.len() && free@[e].0 == neighbors(head)[k] by {
                if k < d {
                    let e = choose|e: int| 0 <= e < before.len() && before[e].0 == neighbors(head)[k];
                    assert(free@[e] == before[e]);
                }
            }
            d = d + 1;
        }
        assert(crate::extrema::distances_fit(free@, goal));
        let best = crate::extrema::closest_to(&free, goal);
        match crate::random::pick(&mut self.rng, &best) {
            Some(pair) => {
                let target = pair.0;
                proof {
                    let i = choose|i: int| 0 <= i < best@.len() && best@[i] == pair;
                    assert(free@.contains(best@[i]));
                    let j = choose|j: int| 0 <= j < free@.len() && free@[j] == best@[i];
                    assert(free@[j].0 == target);
                    assert forall|k: int| 0 <= k < 4 && free_at(map@, n, #[trigger] neighbors(head)[k]) implies dist(target, goal) <= dist(neighbors(head)[k], goal) by {
                        let e = choose|e: int| 0 <= e < free@.len() && free@[e].0 == neighbors(head)[k];
                        assert(dist(best@[i].0, goal) <= dist(free@[e].0, goal));
                    }
                }
                Some(target)
            },
            None => {
                assert forall|k: int| 0 <= k < 4 implies !free_at(map@, n, #[trigger] neighbors(head)[k]) by {
                    if free_at(map@, n, neighbors(head)[k]) {
                        let e = choose|e: int| 0 <= e < free@.len() && free@[e].0 == neighbors(head)[k];
                    }
                }
                None
            },
        }
    }

    /// Eat a prey within the eating radius of the head, picked at random, if the head
    /// can step toward it; the prey is then promised to this snake.
    pub fn determine_eat_nearby_prey(&mut self, map: &World, eaten: &mut HashSet<usize>, head: Point) -> (r: Option<Change>)
        requires
            map.wf(),
            snake_params_fit(old(self).params, map.side() as int),
            in_map(head, map.side() as int),
        ensures
            final(self).params == old(self).params,
            r is None ==> final(eaten)@ == old(eaten)@,
            r is Some ==> {
                let c = r->Some_0;
                &&& c is Eat
                &&& c->head == head
                &&& in_circle(head, old(self).params.eating_radius as int, map.side() as int, c->food)
                &&& prey_at(map@, map.side() as int, old(eaten)@, c->food)
                &&& best_step(map@, map.side() as int, head, c->food, c->new_head)
                &&& final(eaten)@ == old(eaten)@.insert(index_of(c->food, map.side() as int) as usize)
            },
            (exists|t: Point|
                #[trigger] in_circle(head, old(self).params.eating_radius as int, map.side() as int, t) && prey_at(
                    map@,
                    map.side() as int,
                    old(eaten)@,
                    t,
                )) && has_free_neighbor(map@, map.side() as int, head) ==> r is Some,
    {
        broadcast use vstd::std_specs::hash::group_hash_axioms;

        let ghost n = map.side() as int;
        let ghost eaten0 = eaten@;
        let n_usize = map.size();
        let points = head.circle(self.params.eating_radius, n_usize).into_vec();
        let mut preys: Vec<Point> = Vec::new();
        let mut q: usize = 0;
        while q < points.len()
            invariant
                map.wf(),
                n == map.side(),
                n_usize == n,
                n * n <= usize::MAX,
                q <= points@.len(),
                forall|t: Point| points@.contains(t) <==> in_circle(head, self.params.eating_radius as int, n, t),
                forall|e: int| 0 <= e < preys@.len() ==> points@.contains(#[trigger] preys@[e]) && prey_at(map@, n, eaten@, preys@[e]),
                forall|e: int| 0 <= e < q && prey_at(map@, n, eaten@, #[trigger] points@[e]) ==> preys@.contains(points@[e]),
            decreases points@.len() - q,
        {
            let t = points[q];
            assert(points@.contains(t));
            let ghost before = preys@;
            if t.is_valid(n_usize) {
                match map.cell(t) {
                    Some(cell) => {
                        if cell.animal.amphibian().is_some() && !eaten.contains(&flat_index(t, n_usize)) {
                            preys.push(t);
                            assert(preys@[before.len() as int] == t);
                        }
                    },
                    None => {},
                }
            }
            assert forall|e: int| 0 <= e < q + 1 && prey_at(map@, n, eaten@, #[trigger] points@[e]) implies preys@.contains(points@[e]) by {
                if e < q {
                    assert(before.contains(points@[e]));
                    let k = choose|k: int| 0 <= k < before.len() && before[k] == points@[e];
                    assert(preys@[k] == before[k]);
                }
            }
            q = q + 1;
        }
        let food = match crate::random::pick(&mut self.rng, &preys) {
            Some(food) => food,
            None => {
                assert forall|t: Point| #[trigger] in_circle(head, self.params.eating_radius as int, n, t) implies !prey_at(map@, n, eaten0, t) by {
                    if prey_at(map@, n, eaten0, t) {
                        assert(points@.contains(t));
                        let e = choose|e: int| 0 <= e < points@.len() && points@[e] == t;
                        assert(preys@.contains(points@[e]));
                    }
                }
                return None;
            },
        };
        proof {
            let e = choose|e: int| 0 <= e < preys@.len() && preys@[e] == food;
            assert(prey_at(map@, n, eaten@, preys@[e]));
        }
        let new_head = match self.find_movement_target(map, head, food) {
            Some(target) => target,
            None => {
                return None;
            },
        };
        let k = flat_index(food, n_usize);
        eaten.insert(k);
        Some(Change::Eat { head, new_head, food })
    }
}

/// The targets a random walk may pick: any neighbor for a one-cell snake; else
/// straight on, or a quarter turn either way (never back onto the body).
pub open spec fn walk_targets(v: Seq<Point>) -> Seq<Point> {
    let head = v[0];
    if v.len() == 1 {
        neighbors(head)
    } else {
        let f = Point { x: (v[0].x - v[1].x) as isize, y: (v[0].y - v[1].y) as isize };
        seq![
            Point { x: (head.x + f.x) as isize, y: (head.y + f.y) as isize },
            Point { x: (head.x - f.y) as isize, y: (head.y + f.x) as isize },
            Point { x: (head.x + f.y) as isize, y: (head.y - f.x) as isize },
        ]
    }
}

/// `v`, head first, is a snake of species `s` as extracted from the map: linked
/// segment by segment, of an allowed length.
pub open spec fn snake_sound(rows: Seq<Seq<Cell>>, n: int, prm: SnakeParams, s: SnakeSpecies, v: Seq<Point>) -> bool {
    &&& v.len() >= 1
    &&& v.len() >= prm.min_size
    &&& v.len() <= max_size_spec(prm, s) || v.len() == 1
    &&& forall|i: int|
        0 <= i < v.len() ==> {
            &&& in_map(#[trigger] v[i], n)
            &&& snake_at(rows, v[i]) is Some
            &&& snake_at(rows, v[i])->Some_0.species == s
            &&& segment_at(rows, v[i]) is Some
            &&& (is_head(segment_at(rows, v[i])->Some_0) <==> i == 0)
            &&& (i + 1 < v.len() ==> segment_at(rows, v[i])->Some_0.next_segment == Some(v[i + 1]))
        }
}

/// What a planned change may be, given the map it was planned on.
pub open spec fn change_sound(rows: Seq<Seq<Cell>>, n: int, prm: SnakeParams, now: u64, c: Change) -> bool {
    match c {
        Change::NewSnake(v) => v@.len() == prm.min_size && is_path(v@, n) && new_snake_check(rows, n, v@),
        Change::Starve(v) => v@.len() >= 1 && snake_sound(rows, n, prm, snake_at(rows, v@[0])->Some_0.species, v@)
            && now - segment_at(rows, v@[0])->Some_0.kind->last_feeding > prm.starvation_delay,
        Change::Move { snake, target } => snake@.len() >= 1 && snake_sound(
            rows,
            n,
            prm,
            snake_at(rows, snake@[0])->Some_0.species,
            snake@,
        ) && free_at(rows, n, target) && (walk_targets(snake@).contains(target) || neighbors(snake@[0]).contains(
            target,
        )),
        Change::Eat { head, new_head, food } => {
            &&& in_map(head, n)
            &&& segment_at(rows, head) is Some
            &&& is_head(segment_at(rows, head)->Some_0)
            &&& in_circle(head, prm.eating_radius as int, n, food)
            &&& cell_of(rows, food).animal is Amphibian
            &&& best_step(rows, n, head, food, new_head)
        },
        Change::Death(p) => in_map(p, n) && segment_at(rows, p) is Some,
    }
}

proof fn lemma_chain_links(bodies: Map<usize, SnakeSegment>, n: int, next: Option<Point>, budget: nat)
    requires
        n * n <= usize::MAX,
    ensures
        chain(bodies, n, next, budget).len() <= budget,
        chain(bodies, n, next, budget).len() > 0 ==> next == Some(chain(bodies, n, next, budget)[0]),
        forall|i: int|
            0 <= i < chain(bodies, n, next, budget).len() ==> in_map(#[trigger] chain(bodies, n, next, budget)[i], n)
                && bodies.contains_key(index_of(chain(bodies, n, next, budget)[i], n) as usize),
        forall|i: int|
            0 <= i < chain(bodies, n, next, budget).len() - 1 ==> bodies[index_of(
                #[trigger] chain(bodies, n, next, budget)[i],
                n,
            ) as usize].next_segment == Some(chain(bodies, n, next, budget)[i + 1]),
        chain_rest(bodies, n, next, budget).submap_of(bodies),
    decreases budget,
{
    if budget > 0 {
        match next {
            None => {},
            Some(p) => {
                let k = index_of(p, n) as usize;
                if in_map(p, n) && bodies.contains_key(k) {
                    let rest = bodies.remove(k);
                    lemma_chain_links(rest, n, bodies[k].next_segment, (budget - 1) as nat);
                    let c = chain(bodies, n, next, budget);
                    let c2 = chain(rest, n, bodies[k].next_segment, (budget - 1) as nat);
                    assert(c == seq![p] + c2);
                    assert(rest.submap_of(bodies));
                    let cr = chain_rest(rest, n, bodies[k].next_segment, (budget - 1) as nat);
                    assert(chain_rest(bodies, n, next, budget) == cr);
                    assert forall|x: usize| #[trigger] cr.contains_key(x) implies bodies.contains_key(x) && cr[x] == bodies[x] by {
                        assert(rest.contains_key(x));
                    }
                    assert forall|i: int| 0 <= i < c.len() implies in_map(#[trigger] c[i], n) && bodies.contains_key(index_of(c[i], n) as usize) by {
                        if i > 0 {
                            assert(c[i] == c2[i - 1]);
                            assert(rest.contains_key(index_of(c2[i - 1], n) as usize));
                        }
                    }
                    assert forall|i: int| 0 <= i < c.len() - 1 implies bodies[index_of(#[trigger] c[i], n) as usize].next_segment == Some(c[i + 1]) by {
                        if i > 0 {
                            assert(c[i] == c2[i - 1]);
                            assert(c[i + 1] == c2[i]);
                            assert(rest.contains_key(index_of(c2[i - 1], n) as usize));
                        } else {
                            assert(c[1] == c2[0]);
                        }
                    }
                }
            },
        }
    }
}

impl SnakeSystem {
    /// A random step: the forward direction weighs 4, each side 1; a one-cell snake
    /// picks any free neighbor alike.
    pub fn determine_random_walk(&mut self, map: &World, snake_points: &Vec<Point>) -> (r: Option<Change>)
        requires
            map.wf(),
            snake_params_fit(old(self).params, map.side() as int),
            snake_points@.len() >= 1,
            forall|i: int| 0 <= i < snake_points@.len() ==> in_map(#[trigger] snake_points@[i], map.side() as int),
        ensures
            final(self).params == old(self).params,
            r is None <==> !exists|k: int| 0 <= k < walk_targets(snake_points@).len() && free_at(map@, map.side() as int, #[trigger] walk_targets(snake_points@)[k]),
            r is Some ==> r->Some_0 is Move && r->Some_0->snake@ == snake_points@ && free_at(map@, map.side() as int, r->Some_0->target)
                && walk_targets(snake_points@).contains(r->Some_0->target),
    {
        let ghost n = map.side() as int;
        let head = snake_points[0];
        assert(in_map(snake_points@[0], n));
        let directions: Vec<(Point, u32)> = if snake_points.len() == 1 {
            let d = Point::directions();
            vec![(head.add(d[0]), 1), (head.add(d[1]), 1), (head.add(d[2]), 1), (head.add(d[3]), 1)]
        } else {
            assert(in_map(snake_points@[1], n));
            let forward = head.sub(snake_points[1]);
            vec![(head.add(forward), 4), (head.add(forward.turn_right()), 1), (head.add(forward.turn_left()), 1)]
        };
        let ghost targets = walk_targets(snake_points@);
        assert(directions@.len() == targets.len());
        assert(forall|k: int| 0 <= k < targets.len() ==> #[trigger] directions@[k].0 == targets[k]);
        let mut valid: Vec<(Point, u32)> = Vec::new();
        let mut k: usize = 0;
        while k < directions.len()
            invariant
                map.wf(),
                n == map.side(),
                directions@.len() == targets.len(),
                directions@.len() <= 4,
                forall|e: int| 0 <= e < targets.len() ==> #[trigger] directions@[e].0 == targets[e],
                forall|e: int| 0 <= e < directions@.len() ==> 1 <= #[trigger] directions@[e].1 <= 4,
                k <= directions@.len(),
                valid@.len() <= k,
                forall|e: int| 0 <= e < valid@.len() ==> targets.contains((#[trigger] valid@[e]).0) && free_at(map@, n, valid@[e].0) && 1 <= valid@[e].1 <= 4,
                forall|e: int| 0 <= e < k && free_at(map@, n, #[trigger] targets[e]) ==> exists|f: int| 0 <= f < valid@.len() && valid@[f].0 == targets[e],
            decreases directions@.len() - k,
        {
            let (target, weight) = directions[k];
            let ghost before = valid@;
            match map.cell(target) {
                Some(cell) => {
                    if cell.animal.is_empty() {
                        valid.push((target, weight));
                        assert(valid@[before.len() as int].0 == targets[k as int]);
                    }
                },
                None => {},
            }
            assert forall|e: int| 0 <= e < valid@.len() implies targets.contains((#[trigger] valid@[e]).0) && free_at(map@, n, valid@[e].0) && 1 <= valid@[e].1 <= 4 by {
                if e < before.len() {
                    assert(valid@[e] == before[e]);
                } else {
                    assert(targets[k as int] == target);
                }
            }
            assert forall|e: int| 0 <= e < k + 1 && free_at(map@, n, #[trigger] targets[e]) implies exists|f: int| 0 <= f < valid@.len() && valid@[f].0 == targets[e] by {
                if e < k {
                    let f = choose|f: int| 0 <= f < before.len() && before[f].0 == targets[e];
                    assert(valid@[f] == before[f]);
                }
            }
            k = k + 1;
        }
        proof {
            lemma_small_weights(valid@);
        }
        match crate::random::choose_weighted(&mut self.rng, &valid) {
            Some(target) => {
                let mut snake: Vec<Point> = Vec::new();
                let mut i: usize = 0;
                while i < snake_points.len()
                    invariant
                        i <= snake_points@.len(),
                        snake@ == snake_points@.subrange(0, i as int),
                    decreases snake_points@.len() - i,
                {
                    snake.push(snake_points[i]);
                    i = i + 1;
                    assert(snake@ =~= snake_points@.subrange(0, i as int));
                }
                assert(snake@ =~= snake_points@);
                proof {
                    let i = choose|i: int| 0 <= i < valid@.len() && valid@[i].0 == target && valid@[i].1 > 0;
                    assert(targets.contains(valid@[i].0));
                }
                Some(Change::Move { snake, target })
            },
            None => {
                assert forall|e: int| 0 <= e < targets.len() implies !free_at(map@, n, #[trigger] targets[e]) by {
                    if free_at(map@, n, targets[e]) {
                        let f = choose|f: int| 0 <= f < valid@.len() && valid@[f].0 == targets[e];
                        assert(valid@[f].1 > 0);
                    }
                }
                None
            },
        }
    }
}

proof fn lemma_small_weights(v: Seq<(Point, u32)>)
    requires
        v.len() <= 4,
        forall|e: int| 0 <= e < v.len() ==> 1 <= #[trigger] v[e].1 <= 4,
    ensures
        crate::random::total_weight(v) <= 4 * v.len(),
    decreases v.len(),
{
    if v.len() > 0 {
        let w = v.drop_last();
        assert forall|e: int| 0 <= e < w.len() implies 1 <= #[trigger] w[e].1 <= 4 by {
            assert(w[e] == v[e]);
        }
        lemma_small_weights(w);
        assert(v.last() == v[v.len() - 1]);
    }
}

/// The heads of one species, with their segments.
pub open spec fn heads_ok(rows: Seq<Seq<Cell>>, n: int, species: SnakeSpecies, heads: Seq<(Point, SnakeSegment)>) -> bool {
    forall|i: int|
        0 <= i < heads.len() ==> {
            let (h, seg) = #[trigger] heads[i];
            &&& in_map(h, n)
            &&& segment_at(rows, h) == Some(seg)
            &&& is_head(seg)
            &&& snake_at(rows, h)->Some_0.species == species
        }
}

/// The bodies of one species not yet claimed by a snake, keyed by flat index.
pub open spec fn bodies_ok(rows: Seq<Seq<Cell>>, n: int, species: SnakeSpecies, bodies: Map<usize, SnakeSegment>) -> bool {
    forall|k: usize|
        #[trigger] bodies.contains_key(k) ==> {
            let p = point_of(k as int, n);
            &&& k < n * n
            &&& in_map(p, n)
            &&& index_of(p, n) == k
            &&& segment_at(rows, p) == Some(bodies[k])
            &&& bodies[k].kind is Body
            &&& snake_at(rows, p)->Some_0.species == species
        }
}

/// The spare parts of one species not yet used, by flat index.
pub open spec fn spares_ok(rows: Seq<Seq<Cell>>, n: int, species: SnakeSpecies, spares: Set<usize>) -> bool {
    forall|k: usize|
        #[trigger] spares.contains(k) ==> {
            let p = point_of(k as int, n);
            &&& k < n * n
            &&& in_map(p, n)
            &&& index_of(p, n) == k
            &&& snake_at(rows, p) is Some
            &&& snake_at(rows, p)->Some_0.species == species
            &&& snake_at(rows, p)->Some_0.segment is None
        }
}

pub open spec fn all_in_map(v: Seq<Point>, n: int) -> bool {
    forall|i: int| 0 <= i < v.len() ==> in_map(#[trigger] v[i], n)
}

proof fn lemma_point_index(p: Point, n: int)
    requires
        in_map(p, n),
        n * n <= usize::MAX,
    ensures
        point_of(index_of(p, n), n) == p,
        0 <= index_of(p, n) < n * n,
{
    vstd::arithmetic::div_mod::lemma_fundamental_div_mod_converse(index_of(p, n), n, p.y as int, p.x as int);
    lemma_index_fits(p, n);
}

pub open spec fn extract_budget(prm: SnakeParams, species: SnakeSpecies) -> nat {
    if max_size_spec(prm, species) > 0 {
        (max_size_spec(prm, species) - 1) as nat
    } else {
        0
    }
}

/// The bodies left once the heads, in order, took their snakes out.
pub open spec fn bodies_after(
    prm: SnakeParams,
    species: SnakeSpecies,
    n: int,
    bodies0: Map<usize, SnakeSegment>,
    heads: Seq<(Point, SnakeSegment)>,
) -> Map<usize, SnakeSegment>
    decreases heads.len(),
{
    if heads.len() == 0 {
        bodies0
    } else {
        chain_rest(
            bodies_after(prm, species, n, bodies0, heads.drop_last()),
            n,
            heads.last().1.next_segment,
            extract_budget(prm, species),
        )
    }
}

/// The snake of the `i`-th head, head first, from the bodies the earlier heads left.
pub open spec fn head_snake(
    prm: SnakeParams,
    species: SnakeSpecies,
    n: int,
    bodies0: Map<usize, SnakeSegment>,
    heads: Seq<(Point, SnakeSegment)>,
    i: int,
) -> Seq<Point> {
    seq![heads[i].0] + chain(
        bodies_after(prm, species, n, bodies0, heads.subrange(0, i)),
        n,
        heads[i].1.next_segment,
        extract_budget(prm, species),
    )
}

pub open spec fn short_head(
    prm: SnakeParams,
    species: SnakeSpecies,
    n: int,
    bodies0: Map<usize, SnakeSegment>,
    heads: Seq<(Point, SnakeSegment)>,
    i: int,
) -> bool {
    head_snake(prm, species, n, bodies0, heads, i).len() < prm.min_size
}

pub open spec fn starving(prm: SnakeParams, now: u64, head: SnakeSegment) -> bool {
    head.kind is Head && now - head.kind->last_feeding > prm.starvation_delay
}

/// The deaths and starvations planned for the first `h` heads: a death for each head
/// with too short a snake, a starvation for each starving snake, deaths of nothing
/// else.
#[verifier::opaque]
pub open spec fn head_deaths_ok(
    prm: SnakeParams,
    species: SnakeSpecies,
    n: int,
    now: u64,
    bodies0: Map<usize, SnakeSegment>,
    heads: Seq<(Point, SnakeSegment)>,
    eaten0: Set<usize>,
    eaten: Set<usize>,
    changes: Seq<Change>,
    h: int,
) -> bool {
    &&& forall|i: int|
        0 <= i < h && short_head(prm, species, n, bodies0, heads, i) ==> changes.contains(
            Change::Death(#[trigger] heads[i].0),
        )
    &&& forall|i: int|
        0 <= i < h && !short_head(prm, species, n, bodies0, heads, i) && starving(prm, now, #[trigger] heads[i].1)
            ==> exists|k: int|
            0 <= k < changes.len() && changes[k] is Starve && changes[k]->Starve_0@ == head_snake(
                prm,
                species,
                n,
                bodies0,
                heads,
                i,
            )
    &&& forall|k: int|
        0 <= k < changes.len() && (#[trigger] changes[k]) is Death ==> exists|i: int|
            0 <= i < h && heads[i].0 == changes[k]->Death_0 && short_head(prm, species, n, bodies0, heads, i)
}

/// The eats planned for the first `h` heads: only by snakes below their maximum
/// size, each on a prey not promised before, no two on the same prey; and no new
/// snake.
#[verifier::opaque]
pub open spec fn head_eats_ok(
    prm: SnakeParams,
    species: SnakeSpecies,
    n: int,
    now: u64,
    bodies0: Map<usize, SnakeSegment>,
    heads: Seq<(Point, SnakeSegment)>,
    eaten0: Set<usize>,
    eaten: Set<usize>,
    changes: Seq<Change>,
    h: int,
) -> bool {
    &&& eaten0.subset_of(eaten)
    &&& forall|k: int| 0 <= k < changes.len() ==> !((#[trigger] changes[k]) is NewSnake)
    &&& forall|k: int|
        0 <= k < changes.len() && (#[trigger] changes[k]) is Eat ==> {
            &&& exists|i: int|
                0 <= i < h && heads[i].0 == changes[k]->head && !short_head(prm, species, n, bodies0, heads, i)
                    && head_snake(prm, species, n, bodies0, heads, i).len() < max_size_spec(prm, species)
            &&& !eaten0.contains(index_of(changes[k]->food, n) as usize)
            &&& eaten.contains(index_of(changes[k]->food, n) as usize)
        }
    &&& forall|k: int, l: int|
        0 <= k < l < changes.len() && (#[trigger] changes[k]) is Eat && (#[trigger] changes[l]) is Eat
            ==> changes[k]->food != changes[l]->food
}

/// What the changes planned for the first `h` heads amount to.
pub open spec fn head_changes_ok(
    prm: SnakeParams,
    species: SnakeSpecies,
    n: int,
    now: u64,
    bodies0: Map<usize, SnakeSegment>,
    heads: Seq<(Point, SnakeSegment)>,
    eaten0: Set<usize>,
    eaten: Set<usize>,
    changes: Seq<Change>,
    h: int,
) -> bool {
    &&& head_deaths_ok(prm, species, n, now, bodies0, heads, eaten0, eaten, changes, h)
    &&& head_eats_ok(prm, species, n, now, bodies0, heads, eaten0, eaten, changes, h)
}

/// The body at `p` was claimed by no head's snake.
pub open spec fn unclaimed(
    prm: SnakeParams,
    species: SnakeSpecies,
    n: int,
    bodies0: Map<usize, SnakeSegment>,
    heads: Seq<(Point, SnakeSegment)>,
    p: Point,
) -> bool {
    bodies_after(prm, species, n, bodies0, heads).contains_key(index_of(p, n) as usize)
}

/// `w` is a partial snake grown from `p` that got stuck: shorter than the minimum size,
/// with no spare part left next to either end.
pub open spec fn stuck_chain(w: Seq<Point>, p: Point, n: int, min_size: int, left: Set<usize>) -> bool {
    &&& 1 <= w.len() < min_size
    &&& w.contains(p)
    &&& is_path(w, n)
    &&& ends_stuck(left, n, w)
}

/// The spare part at `p` went into a new snake of `r`, or into a partial snake that
/// got stuck.
pub open spec fn spare_outcome(prm: SnakeParams, n: int, r: Seq<Change>, left: Set<usize>, p: Point) -> bool {
    ||| prm.min_size == 0
    ||| exists|k: int| 0 <= k < r.len() && r[k] is NewSnake && (#[trigger] r[k])->NewSnake_0@.contains(p)
    ||| exists|w: Seq<Point>| #[trigger] stuck_chain(w, p, n, prm.min_size as int, left)
}

/// Every listed spare part that was available went into a new snake of `r` or into a
/// partial snake that got stuck, with `left` the spare parts still unused.
#[verifier::opaque]
pub open spec fn spares_done(
    prm: SnakeParams,
    n: int,
    spare_points: Seq<Point>,
    spares0: Set<usize>,
    left: Set<usize>,
    r: Seq<Change>,
) -> bool {
    forall|q: int|
        0 <= q < spare_points.len() && spares0.contains(index_of(spare_points[q], n) as usize) ==> #[trigger] spare_outcome(
            prm,
            n,
            r,
            left,
            spare_points[q],
        )
}

proof fn lemma_ends_stuck_shrink(a: Set<usize>, b: Set<usize>, n: int, w: Seq<Point>)
    requires
        b.subset_of(a),
        ends_stuck(a, n, w),
    ensures
        ends_stuck(b, n, w),
{
    reveal(ends_stuck);
}

/// What the changes planned for one species amount to: those of its heads (see
/// `head_changes_ok` and `head_acts_ok`), then a death for each body no head claimed
/// and the new snakes, which account for every spare part (see `spares_done`); eats on prey not promised
/// before, no two on the same prey.
#[verifier::opaque]
pub open spec fn species_changes_ok(
    prm: SnakeParams,
    species: SnakeSpecies,
    rows: Seq<Seq<Cell>>,
    n: int,
    now: u64,
    bodies0: Map<usize, SnakeSegment>,
    heads: Seq<(Point, SnakeSegment)>,
    body_points: Seq<Point>,
    spare_points: Seq<Point>,
    spares0: Set<usize>,
    spares_left: Set<usize>,
    eaten0: Set<usize>,
    eaten: Set<usize>,
    r: Seq<Change>,
) -> bool {
    &&& spares_done(prm, n, spare_points, spares0, spares_left, r)
    &&& exists|m: int|
        #![trigger r.subrange(0, m)]
        0 <= m <= r.len() && head_changes_ok(prm, species, n, now, bodies0, heads, eaten0, eaten, r.subrange(0, m), heads.len() as int)
            && head_acts_ok(prm, species, rows, n, now, bodies0, heads, r.subrange(0, m), heads.len() as int)
            && forall|k: int|
            m <= k < r.len() ==> (#[trigger] r[k]) is NewSnake || (r[k] is Death && body_points.contains(r[k]->Death_0)
                && unclaimed(prm, species, n, bodies0, heads, r[k]->Death_0))
    &&& forall|b: int|
        0 <= b < body_points.len() && unclaimed(prm, species, n, bodies0, heads, #[trigger] body_points[b]) ==> r.contains(
            Change::Death(body_points[b]),
        )
    &&& eaten0.subset_of(eaten)
    &&& forall|k: int|
        0 <= k < r.len() && (#[trigger] r[k]) is Eat ==> !eaten0.contains(index_of(r[k]->food, n) as usize) && eaten.contains(
            index_of(r[k]->food, n) as usize,
        )
    &&& forall|k: int, l: int|
        0 <= k < l < r.len() && (#[trigger] r[k]) is Eat && (#[trigger] r[l]) is Eat ==> r[k]->food != r[l]->food
}

#[verifier::rlimit(100)]
proof fn lemma_head_step_deaths_0(
    prm: SnakeParams,
    species: SnakeSpecies,
    n: int,
    now: u64,
    bodies0: Map<usize, SnakeSegment>,
    heads: Seq<(Point, SnakeSegment)>,
    eaten0: Set<usize>,
    eaten_mid: Set<usize>,
    eaten1: Set<usize>,
    changes: Seq<Change>,
    c: Option<Change>,
    h: int,
)
    requires
        0 <= h < heads.len(),
        head_deaths_ok(prm, species, n, now, bodies0, heads, eaten0, eaten_mid, changes, h),
        short_head(prm, species, n, bodies0, heads, h) ==> c == Some(Change::Death(heads[h].0)),
        !short_head(prm, species, n, bodies0, heads, h) && starving(prm, now, heads[h].1) ==> c is Some
            && c->Some_0 is Starve && c->Some_0->Starve_0@ == head_snake(prm, species, n, bodies0, heads, h),
        c is Some && c->Some_0 is Death ==> short_head(prm, species, n, bodies0, heads, h) && c->Some_0->Death_0
            == heads[h].0,
        c is Some ==> !(c->Some_0 is NewSnake),
        c is Some && c->Some_0 is Eat ==> {
            &&& c->Some_0->head == heads[h].0
            &&& !short_head(prm, species, n, bodies0, heads, h)
            &&& head_snake(prm, species, n, bodies0, heads, h).len() < max_size_spec(prm, species)
            &&& !eaten_mid.contains(index_of(c->Some_0->food, n) as usize)
            &&& eaten1 == eaten_mid.insert(index_of(c->Some_0->food, n) as usize)
        },
        !(c is Some && c->Some_0 is Eat) ==> eaten1 == eaten_mid,
    ensures
        ({
            let out = push_opt(changes, c);
            forall|i: int|
        0 <= i < (h + 1) && short_head(prm, species, n, bodies0, heads, i) ==> out.contains(
            Change::Death(#[trigger] heads[i].0),
        )
        }),
{
    reveal(head_deaths_ok);
    let out = push_opt(changes, c);
    assert forall|k: int| 0 <= k < changes.len() implies out[k] == changes[k] by {}
    assert forall|i: int|
        0 <= i < h + 1 && short_head(prm, species, n, bodies0, heads, i) implies out.contains(
        Change::Death(#[trigger] heads[i].0),
    ) by {
        if i < h {
            let k = choose|k: int| 0 <= k < changes.len() && changes[k] == Change::Death(heads[i].0);
            assert(out[k] == changes[k]);
        } else {
            assert(out[changes.len() as int] == Change::Death(heads[i].0));
        }
    }
}

#[verifier::rlimit(100)]
proof fn lemma_head_step_deaths_1(
    prm: SnakeParams,
    species: SnakeSpecies,
    n: int,
    now: u64,
    bodies0: Map<usize, SnakeSegment>,
    heads: Seq<(Point, SnakeSegment)>,
    eaten0: Set<usize>,
    eaten_mid: Set<usize>,
    eaten1: Set<usize>,
    changes: Seq<Change>,
    c: Option<Change>,
    h: int,
)
    requires
        0 <= h < heads.len(),
        head_deaths_ok(prm, species, n, now, bodies0, heads, eaten0, eaten_mid, changes, h),
        short_head(prm, species, n, bodies0, heads, h) ==> c == Some(Change::Death(heads[h].0)),
        !short_head(prm, species, n, bodies0, heads, h) && starving(prm, now, heads[h].1) ==> c is Some
            && c->Some_0 is Starve && c->Some_0->Starve_0@ == head_snake(prm, species, n, bodies0, heads, h),
        c is Some && c->Some_0 is Death ==> short_head(prm, species, n, bodies0, heads, h) && c->Some_0->Death_0
            == heads[h].0,
        c is Some ==> !(c->Some_0 is NewSnake),
        c is Some && c->Some_0 is Eat ==> {
            &&& c->Some_0->head == heads[h].0
            &&& !short_head(prm, species, n, bodies0, heads, h)
            &&& head_snake(prm, species, n, bodies0, heads, h).len() < max_size_spec(prm, species)
            &&& !eaten_mid.contains(index_of(c->Some_0->food, n) as usize)
            &&& eaten1 == eaten_mid.insert(index_of(c->Some_0->food, n) as usize)
        },
        !(c is Some && c->Some_0 is Eat) ==> eaten1 == eaten_mid,
    ensures
        ({
            let out = push_opt(changes, c);
            forall|i: int|
        0 <= i < (h + 1) && !short_head(prm, species, n, bodies0, heads, i) && starving(prm, now, #[trigger] heads[i].1)
            ==> exists|k: int|
            0 <= k < out.len() && out[k] is Starve && out[k]->Starve_0@ == head_snake(
                prm,
                species,
                n,
                bodies0,
                heads,
                i,
            )
        }),
{
    reveal(head_deaths_ok);
    let out = push_opt(changes, c);
    assert forall|k: int| 0 <= k < changes.len() implies out[k] == changes[k] by {}
    assert forall|i: int|
        0 <= i < h + 1 && !short_head(prm, species, n, bodies0, heads, i) && starving(prm, now, #[trigger] heads[i].1)
            implies exists|k: int|
            0 <= k < out.len() && out[k] is Starve && out[k]->Starve_0@ == head_snake(prm, species, n, bodies0, heads, i) by {
        if i < h {
            let k = choose|k: int|
                0 <= k < changes.len() && changes[k] is Starve && changes[k]->Starve_0@ == head_snake(
                    prm,
                    species,
                    n,
                    bodies0,
                    heads,
                    i,
                );
            assert(out[k] == changes[k]);
        } else {
            assert(out[changes.len() as int] == c->Some_0);
        }
    }
}

#[verifier::rlimit(100)]
proof fn lemma_head_step_deaths_2(
    prm: SnakeParams,
    species: SnakeSpecies,
    n: int,
    now: u64,
    bodies0: Map<usize, SnakeSegment>,
    heads: Seq<(Point, SnakeSegment)>,
    eaten0: Set<usize>,
    eaten_mid: Set<usize>,
    eaten1: Set<usize>,
    changes: Seq<Change>,
    c: Option<Change>,
    h: int,
)
    requires
        0 <= h < heads.len(),
        head_deaths_ok(prm, species, n, now, bodies0, heads, eaten0, eaten_mid, changes, h),
        short_head(prm, species, n, bodies0, heads, h) ==> c == Some(Change::Death(heads[h].0)),
        !short_head(prm, species, n, bodies0, heads, h) && starving(prm, now, heads[h].1) ==> c is Some
            && c->Some_0 is Starve && c->Some_0->Starve_0@ == head_snake(prm, species, n, bodies0, heads, h),
        c is Some && c->Some_0 is Death ==> short_head(prm, species, n, bodies0, heads, h) && c->Some_0->Death_0
            == heads[h].0,
        c is Some ==> !(c->Some_0 is NewSnake),
        c is Some && c->Some_0 is Eat ==> {
            &&& c->Some_0->head == heads[h].0
            &&& !short_head(prm, species, n, bodies0, heads, h)
            &&& head_snake(prm, species, n, bodies0, heads, h).len() < max_size_spec(prm, species)
            &&& !eaten_mid.contains(index_of(c->Some_0->food, n) as usize)
            &&& eaten1 == eaten_mid.insert(index_of(c->Some_0->food, n) as usize)
        },
        !(c is Some && c->Some_0 is Eat) ==> eaten1 == eaten_mid,
    ensures
        ({
            let out = push_opt(changes, c);
            forall|k: int|
        0 <= k < out.len() && (#[trigger] out[k]) is Death ==> exists|i: int|
            0 <= i < (h + 1) && heads[i].0 == out[k]->Death_0 && short_head(prm, species, n, bodies0, heads, i)
        }),
{
    reveal(head_deaths_ok);
    let out = push_opt(changes, c);
    assert forall|k: int| 0 <= k < changes.len() implies out[k] == changes[k] by {}
    assert forall|k: int|
        0 <= k < out.len() && (#[trigger] out[k]) is Death implies exists|i: int|
            0 <= i < h + 1 && heads[i].0 == out[k]->Death_0 && short_head(prm, species, n, bodies0, heads, i) by {
        if k < changes.len() {
            assert(changes[k] is Death);
        } else {
            assert(out[k] == c->Some_0);
        }
    }
}

#[verifier::rlimit(100)]
proof fn lemma_head_step_deaths(
    prm: SnakeParams,
    species: SnakeSpecies,
    n: int,
    now: u64,
    bodies0: Map<usize, SnakeSegment>,
    heads: Seq<(Point, SnakeSegment)>,
    eaten0: Set<usize>,
    eaten_mid: Set<usize>,
    eaten1: Set<usize>,
    changes: Seq<Change>,
    c: Option<Change>,
    h: int,
)
    requires
        0 <= h < heads.len(),
        head_deaths_ok(prm, species, n, now, bodies0, heads, eaten0, eaten_mid, changes, h),
        short_head(prm, species, n, bodies0, heads, h) ==> c == Some(Change::Death(heads[h].0)),
        !short_head(prm, species, n, bodies0, heads, h) && starving(prm, now, heads[h].1) ==> c is Some
            && c->Some_0 is Starve && c->Some_0->Starve_0@ == head_snake(prm, species, n, bodies0, heads, h),
        c is Some && c->Some_0 is Death ==> short_head(prm, species, n, bodies0, heads, h) && c->Some_0->Death_0
            == heads[h].0,
        c is Some ==> !(c->Some_0 is NewSnake),
        c is Some && c->Some_0 is Eat ==> {
            &&& c->Some_0->head == heads[h].0
            &&& !short_head(prm, species, n, bodies0, heads, h)
            &&& head_snake(prm, species, n, bodies0, heads, h).len() < max_size_spec(prm, species)
            &&& !eaten_mid.contains(index_of(c->Some_0->food, n) as usize)
            &&& eaten1 == eaten_mid.insert(index_of(c->Some_0->food, n) as usize)
        },
        !(c is Some && c->Some_0 is Eat) ==> eaten1 == eaten_mid,
    ensures
        head_deaths_ok(
            prm,
            species,
            n,
            now,
            bodies0,
            heads,
            eaten0,
            eaten1,
            push_opt(changes, c),
            h + 1,
        ),
{
    reveal(head_deaths_ok);
    lemma_head_step_deaths_0(prm, species, n, now, bodies0, heads, eaten0, eaten_mid, eaten1, changes, c, h);
    lemma_head_step_deaths_1(prm, species, n, now, bodies0, heads, eaten0, eaten_mid, eaten1, changes, c, h);
    lemma_head_step_deaths_2(prm, species, n, now, bodies0, heads, eaten0, eaten_mid, eaten1, changes, c, h);
}

#[verifier::rlimit(100)]
proof fn lemma_head_step_eats(
    prm: SnakeParams,
    species: SnakeSpecies,
    n: int,
    now: u64,
    bodies0: Map<usize, SnakeSegment>,
    heads: Seq<(Point, SnakeSegment)>,
    eaten0: Set<usize>,
    eaten_mid: Set<usize>,
    eaten1: Set<usize>,
    changes: Seq<Change>,
    c: Option<Change>,
    h: int,
)
    requires
        0 <= h < heads.len(),
        head_eats_ok(prm, species, n, now, bodies0, heads, eaten0, eaten_mid, changes, h),
        short_head(prm, species, n, bodies0, heads, h) ==> c == Some(Change::Death(heads[h].0)),
        !short_head(prm, species, n, bodies0, heads, h) && starving(prm, now, heads[h].1) ==> c is Some
            && c->Some_0 is Starve && c->Some_0->Starve_0@ == head_snake(prm, species, n, bodies0, heads, h),
        c is Some && c->Some_0 is Death ==> short_head(prm, species, n, bodies0, heads, h) && c->Some_0->Death_0
            == heads[h].0,
        c is Some ==> !(c->Some_0 is NewSnake),
        c is Some && c->Some_0 is Eat ==> {
            &&& c->Some_0->head == heads[h].0
            &&& !short_head(prm, species, n, bodies0, heads, h)
            &&& head_snake(prm, species, n, bodies0, heads, h).len() < max_size_spec(prm, species)
            &&& !eaten_mid.contains(index_of(c->Some_0->food, n) as usize)
            &&& eaten1 == eaten_mid.insert(index_of(c->Some_0->food, n) as usize)
        },
        !(c is Some && c->Some_0 is Eat) ==> eaten1 == eaten_mid,
    ensures
        head_eats_ok(
            prm,
            species,
            n,
            now,
            bodies0,
            heads,
            eaten0,
            eaten1,
            push_opt(changes, c),
            h + 1,
        ),
{
    reveal(head_eats_ok);
    let out = push_opt(changes, c);
    assert forall|k: int| 0 <= k < changes.len() implies out[k] == changes[k] by {}
    assert forall|k: int| 0 <= k < out.len() implies !((#[trigger] out[k]) is NewSnake) by {
        if k < changes.len() {
            assert(!(changes[k] is NewSnake));
        }
    }
    assert forall|k: int|
        0 <= k < out.len() && (#[trigger] out[k]) is Eat implies {
            &&& exists|i: int|
                0 <= i < h + 1 && heads[i].0 == out[k]->head && !short_head(prm, species, n, bodies0, heads, i)
                    && head_snake(prm, species, n, bodies0, heads, i).len() < max_size_spec(prm, species)
            &&& !eaten0.contains(index_of(out[k]->food, n) as usize)
            &&& eaten1.contains(index_of(out[k]->food, n) as usize)
        } by {
        if k < changes.len() {
            assert(changes[k] is Eat);
        } else {
            assert(out[k] == c->Some_0);
            assert(eaten0.subset_of(eaten_mid));
        }
    }
    assert forall|k: int, l: int|
        0 <= k < l < out.len() && (#[trigger] out[k]) is Eat && (#[trigger] out[l]) is Eat implies out[k]->food
        != out[l]->food by {
        if l < changes.len() {
            assert(changes[k] is Eat && changes[l] is Eat);
        } else {
            assert(changes[k] is Eat);
            assert(eaten_mid.contains(index_of(changes[k]->food, n) as usize));
        }
    }
}

/// The point a change acts through: a snake's head, or the eating head.
pub open spec fn actor(c: Change) -> Point {
    match c {
        Change::Starve(v) => v@[0],
        Change::Move { snake, target } => snake@[0],
        Change::Eat { head, new_head, food } => head,
        Change::Death(p) => p,
        Change::NewSnake(v) => v@[0],
    }
}

pub open spec fn acts(c: Change) -> bool {
    c is Starve || c is Move || c is Eat
}

/// No two heads share a point.
pub open spec fn heads_distinct(heads: Seq<(Point, SnakeSegment)>) -> bool {
    forall|a: int, b: int| 0 <= a < b < heads.len() ==> (#[trigger] heads[a]).0 != (#[trigger] heads[b]).0
}

/// The snake of the `i`-th head is sure to act: it moves every tick, has a free
/// neighbor, and a free walking step.
pub open spec fn moves_surely(
    prm: SnakeParams,
    species: SnakeSpecies,
    rows: Seq<Seq<Cell>>,
    n: int,
    bodies0: Map<usize, SnakeSegment>,
    heads: Seq<(Point, SnakeSegment)>,
    i: int,
) -> bool {
    let v = head_snake(prm, species, n, bodies0, heads, i);
    &&& move_ratio_spec(prm, species) == MOVE_RATIO_SCALE
    &&& has_free_neighbor(rows, n, heads[i].0)
    &&& exists|k: int| 0 <= k < walk_targets(v).len() && free_at(rows, n, #[trigger] walk_targets(v)[k])
}

/// What the snakes of the first `h` heads do: a move lists exactly the extracted
/// snake of a head that is not starving, a starvation exactly that of a starving
/// one, an eat comes from a head that is not starving; no snake acts twice, so a
/// starving snake neither moves nor eats; and a snake sure to act moves or eats.
#[verifier::opaque]
pub open spec fn head_acts_ok(
    prm: SnakeParams,
    species: SnakeSpecies,
    rows: Seq<Seq<Cell>>,
    n: int,
    now: u64,
    bodies0: Map<usize, SnakeSegment>,
    heads: Seq<(Point, SnakeSegment)>,
    changes: Seq<Change>,
    h: int,
) -> bool {
    &&& forall|k: int|
        0 <= k < changes.len() && (#[trigger] changes[k]) is Move ==> exists|i: int|
            0 <= i < h && changes[k]->snake@ == head_snake(prm, species, n, bodies0, heads, i) && !short_head(
                prm,
                species,
                n,
                bodies0,
                heads,
                i,
            ) && !starving(prm, now, heads[i].1)
    &&& forall|k: int|
        0 <= k < changes.len() && (#[trigger] changes[k]) is Starve ==> exists|i: int|
            0 <= i < h && changes[k]->Starve_0@ == head_snake(prm, species, n, bodies0, heads, i) && !short_head(
                prm,
                species,
                n,
                bodies0,
                heads,
                i,
            ) && starving(prm, now, heads[i].1)
    &&& forall|k: int|
        0 <= k < changes.len() && (#[trigger] changes[k]) is Eat ==> exists|i: int|
            0 <= i < h && changes[k]->head == heads[i].0 && !starving(prm, now, heads[i].1)
    &&& forall|k: int, l: int|
        0 <= k < l < changes.len() && acts(#[trigger] changes[k]) && acts(#[trigger] changes[l]) ==> actor(changes[k])
            != actor(changes[l])
    &&& forall|i: int|
        0 <= i < h && !short_head(prm, species, n, bodies0, heads, i) && !starving(prm, now, #[trigger] heads[i].1)
            && moves_surely(prm, species, rows, n, bodies0, heads, i) ==> exists|k: int|
            0 <= k < changes.len() && ((changes[k] is Move && changes[k]->snake@ == head_snake(
                prm,
                species,
                n,
                bodies0,
                heads,
                i,
            )) || (changes[k] is Eat && changes[k]->head == heads[i].0))
}

#[verifier::rlimit(100)]
proof fn lemma_head_step_acts(
    prm: SnakeParams,
    species: SnakeSpecies,
    rows: Seq<Seq<Cell>>,
    n: int,
    now: u64,
    bodies0: Map<usize, SnakeSegment>,
    heads: Seq<(Point, SnakeSegment)>,
    changes: Seq<Change>,
    c: Option<Change>,
    h: int,
)
    requires
        0 <= h < heads.len(),
        heads_distinct(heads),
        head_acts_ok(prm, species, rows, n, now, bodies0, heads, changes, h),
        c is Some && c->Some_0 is Move ==> c->Some_0->snake@ == head_snake(prm, species, n, bodies0, heads, h)
            && !short_head(prm, species, n, bodies0, heads, h) && !starving(prm, now, heads[h].1),
        c is Some && c->Some_0 is Starve ==> c->Some_0->Starve_0@ == head_snake(prm, species, n, bodies0, heads, h)
            && !short_head(prm, species, n, bodies0, heads, h) && starving(prm, now, heads[h].1),
        c is Some && c->Some_0 is Eat ==> c->Some_0->head == heads[h].0 && !starving(prm, now, heads[h].1),
        !short_head(prm, species, n, bodies0, heads, h) && !starving(prm, now, heads[h].1) && moves_surely(
            prm,
            species,
            rows,
            n,
            bodies0,
            heads,
            h,
        ) ==> c is Some && ((c->Some_0 is Move && c->Some_0->snake@ == head_snake(prm, species, n, bodies0, heads, h))
            || (c->Some_0 is Eat && c->Some_0->head == heads[h].0)),
    ensures
        head_acts_ok(prm, species, rows, n, now, bodies0, heads, push_opt(changes, c), h + 1),
{
    reveal(head_acts_ok);
    let out = push_opt(changes, c);
    assert forall|k: int| 0 <= k < changes.len() implies out[k] == changes[k] by {}
    assert forall|k: int|
        0 <= k < out.len() && acts(#[trigger] out[k]) implies exists|i: int| 0 <= i < h + 1 && actor(out[k]) == heads[i].0
            && (k < changes.len() ==> i < h) by {
        if k < changes.len() {
            assert(changes[k] is Move || changes[k] is Starve || changes[k] is Eat);
            if changes[k] is Move {
                let i = choose|i: int|
                    0 <= i < h && changes[k]->snake@ == head_snake(prm, species, n, bodies0, heads, i) && !short_head(
                        prm,
                        species,
                        n,
                        bodies0,
                        heads,
                        i,
                    ) && !starving(prm, now, heads[i].1);
                assert(head_snake(prm, species, n, bodies0, heads, i)[0] == heads[i].0);
            } else if changes[k] is Starve {
                let i = choose|i: int|
                    0 <= i < h && changes[k]->Starve_0@ == head_snake(prm, species, n, bodies0, heads, i) && !short_head(
                        prm,
                        species,
                        n,
                        bodies0,
                        heads,
                        i,
                    ) && starving(prm, now, heads[i].1);
                assert(head_snake(prm, species, n, bodies0, heads, i)[0] == heads[i].0);
            }
        } else {
            assert(out[k] == c->Some_0);
            assert(head_snake(prm, species, n, bodies0, heads, h)[0] == heads[h].0);
        }
    }
    assert forall|k: int, l: int|
        0 <= k < l < out.len() && acts(#[trigger] out[k]) && acts(#[trigger] out[l]) implies actor(out[k]) != actor(out[l]) by {
        if l >= changes.len() {
            let i = choose|i: int| 0 <= i < h + 1 && actor(out[k]) == heads[i].0 && (k < changes.len() ==> i < h);
            let j = choose|j: int| 0 <= j < h + 1 && actor(out[l]) == heads[j].0 && (l < changes.len() ==> j < h);
            assert(j == h) by {
                assert(out[l] == c->Some_0);
                assert(head_snake(prm, species, n, bodies0, heads, h)[0] == heads[h].0);
            }
            assert(i < h);
            assert(heads[i].0 != heads[h].0);
        } else {
            assert(out[k] == changes[k] && out[l] == changes[l]);
        }
    }
    assert forall|k: int| 0 <= k < out.len() && (#[trigger] out[k]) is Move implies exists|i: int|
        0 <= i < h + 1 && out[k]->snake@ == head_snake(prm, species, n, bodies0, heads, i) && !short_head(
            prm,
            species,
            n,
            bodies0,
            heads,
            i,
        ) && !starving(prm, now, heads[i].1) by {
        if k < changes.len() {
            assert(changes[k] is Move);
        }
    }
    assert forall|k: int| 0 <= k < out.len() && (#[trigger] out[k]) is Starve implies exists|i: int|
        0 <= i < h + 1 && out[k]->Starve_0@ == head_snake(prm, species, n, bodies0, heads, i) && !short_head(
            prm,
            species,
            n,
            bodies0,
            heads,
            i,
        ) && starving(prm, now, heads[i].1) by {
        if k < changes.len() {
            assert(changes[k] is Starve);
        }
    }
    assert forall|k: int| 0 <= k < out.len() && (#[trigger] out[k]) is Eat implies exists|i: int|
        0 <= i < h + 1 && out[k]->head == heads[i].0 && !starving(prm, now, heads[i].1) by {
        if k < changes.len() {
            assert(changes[k] is Eat);
        }
    }
    assert forall|i: int|
        0 <= i < h + 1 && !short_head(prm, species, n, bodies0, heads, i) && !starving(prm, now, #[trigger] heads[i].1)
            && moves_surely(prm, species, rows, n, bodies0, heads, i) implies exists|k: int|
            0 <= k < out.len() && ((out[k] is Move && out[k]->snake@ == head_snake(prm, species, n, bodies0, heads, i))
                || (out[k] is Eat && out[k]->head == heads[i].0)) by {
        if i < h {
            let k = choose|k: int|
                0 <= k < changes.len() && ((changes[k] is Move && changes[k]->snake@ == head_snake(
                    prm,
                    species,
                    n,
                    bodies0,
                    heads,
                    i,
                )) || (changes[k] is Eat && changes[k]->head == heads[i].0));
            assert(out[k] == changes[k]);
        } else {
            assert(out[changes.len() as int] == c->Some_0);
        }
    }
}

/// The changes with `c` appended, if there is one.
pub open spec fn push_opt(changes: Seq<Change>, c: Option<Change>) -> Seq<Change> {
    if c is Some {
        changes.push(c->Some_0)
    } else {
        changes
    }
}

proof fn lemma_head_step(
    prm: SnakeParams,
    species: SnakeSpecies,
    n: int,
    now: u64,
    bodies0: Map<usize, SnakeSegment>,
    heads: Seq<(Point, SnakeSegment)>,
    eaten0: Set<usize>,
    eaten_mid: Set<usize>,
    eaten1: Set<usize>,
    changes: Seq<Change>,
    c: Option<Change>,
    h: int,
)
    requires
        0 <= h < heads.len(),
        head_changes_ok(prm, species, n, now, bodies0, heads, eaten0, eaten_mid, changes, h),
        short_head(prm, species, n, bodies0, heads, h) ==> c == Some(Change::Death(heads[h].0)),
        !short_head(prm, species, n, bodies0, heads, h) && starving(prm, now, heads[h].1) ==> c is Some
            && c->Some_0 is Starve && c->Some_0->Starve_0@ == head_snake(prm, species, n, bodies0, heads, h),
        c is Some && c->Some_0 is Death ==> short_head(prm, species, n, bodies0, heads, h) && c->Some_0->Death_0
            == heads[h].0,
        c is Some ==> !(c->Some_0 is NewSnake),
        c is Some && c->Some_0 is Eat ==> {
            &&& c->Some_0->head == heads[h].0
            &&& !short_head(prm, species, n, bodies0, heads, h)
            &&& head_snake(prm, species, n, bodies0, heads, h).len() < max_size_spec(prm, species)
            &&& !eaten_mid.contains(index_of(c->Some_0->food, n) as usize)
            &&& eaten1 == eaten_mid.insert(index_of(c->Some_0->food, n) as usize)
        },
        !(c is Some && c->Some_0 is Eat) ==> eaten1 == eaten_mid,
    ensures
        head_changes_ok(
            prm,
            species,
            n,
            now,
            bodies0,
            heads,
            eaten0,
            eaten1,
            push_opt(changes, c),
            h + 1,
        ),
{
    lemma_head_step_deaths(prm, species, n, now, bodies0, heads, eaten0, eaten_mid, eaten1, changes, c, h);
    lemma_head_step_eats(prm, species, n, now, bodies0, heads, eaten0, eaten_mid, eaten1, changes, c, h);
}

impl SnakeSystem {
    /// What the snake `snake_points` does this tick, if it moves at all: eat a prey
    /// nearby, head for the closest prey, or walk at random once it is full grown or
    /// no prey is left.
    pub fn determine_next_movement(
        &mut self,
        map: &World,
        species: SnakeSpecies,
        snake_points: Vec<Point>,
        eaten: &mut HashSet<usize>,
        amphibians: &Vec<Point>,
        now: u64,
    ) -> (r: Option<Change>)
        requires
            map.wf(),
            snake_params_fit(old(self).params, map.side() as int),
            snake_sound(map@, map.side() as int, old(self).params, species, snake_points@),
            all_in_map(amphibians@, map.side() as int),
        ensures
            final(self).params == old(self).params,
            r is Some ==> change_sound(map@, map.side() as int, old(self).params, now, r->Some_0),
            r is Some ==> (r->Some_0 is Move && r->Some_0->snake@ == snake_points@) || (r->Some_0 is Eat
                && r->Some_0->head == snake_points@[0] && snake_points@.len() < max_size_spec(old(self).params, species)),
            r is Some && r->Some_0 is Eat ==> !old(eaten)@.contains(index_of(r->Some_0->food, map.side() as int) as usize)
                && final(eaten)@ == old(eaten)@.insert(index_of(r->Some_0->food, map.side() as int) as usize),
            !(r is Some && r->Some_0 is Eat) ==> final(eaten)@ == old(eaten)@,
            move_ratio_spec(old(self).params, species) == 0 ==> r is None,
            move_ratio_spec(old(self).params, species) == MOVE_RATIO_SCALE && has_free_neighbor(
                map@,
                map.side() as int,
                snake_points@[0],
            ) && (exists|k: int|
                0 <= k < walk_targets(snake_points@).len() && free_at(
                    map@,
                    map.side() as int,
                    #[trigger] walk_targets(snake_points@)[k],
                )) ==> r is Some,
    {
        broadcast use vstd::std_specs::hash::group_hash_axioms;

        let ghost n = map.side() as int;
        let ghost prm = self.params;
        let ratio = self.move_ratio(species);
        if !crate::random::random_ratio(&mut self.rng, ratio, MOVE_RATIO_SCALE) {
            return None;
        }
        let head = snake_points[0];
        assert(in_map(snake_points@[0], n));
        assert(snake_at(map@, snake_points@[0])->Some_0.species == species);
        if snake_points.len() < self.max_size(species) {
            match self.determine_eat_nearby_prey(map, eaten, head) {
                Some(change) => {
                    return Some(change);
                },
                None => {},
            }
            let mut preys: Vec<(Point, ())> = Vec::new();
            let mut i: usize = 0;
            while i < amphibians.len()
                invariant
                    map.wf(),
                    n == map.side(),
                    snake_params_fit(self.params, n),
                    all_in_map(amphibians@, n),
                    i <= amphibians@.len(),
                    forall|e: int| 0 <= e < preys@.len() ==> in_map((#[trigger] preys@[e]).0, n),
                decreases amphibians@.len() - i,
            {
                let prey = amphibians[i];
                assert(in_map(amphibians@[i as int], n));
                if !eaten.contains(&flat_index(prey, map.size())) {
                    preys.push((prey, ()));
                }
                i = i + 1;
            }
            if preys.len() > 0 {
                let closest = crate::extrema::closest_to(&preys, head);
                let prey = match crate::random::pick(&mut self.rng, &closest) {
                    Some(pair) => pair.0,
                    None => {
                        assert(false);
                        return None;
                    },
                };
                proof {
                    let i = choose|i: int| 0 <= i < closest@.len() && closest@[i].0 == prey;
                    assert(preys@.contains(closest@[i]));
                    let j = choose|j: int| 0 <= j < preys@.len() && preys@[j] == closest@[i];
                    assert(in_map(preys@[j].0, n));
                }
                let target = match self.find_movement_target(map, head, prey) {
                    Some(target) => target,
                    None => {
                        return None;
                    },
                };
                return Some(Change::Move { snake: snake_points, target });
            }
        }
        let r = self.determine_random_walk(map, &snake_points);
        r
    }

    /// Extract each head's snake, in order, and decide what it does: a head with too
    /// short a snake dies; a snake whose head is starving starves; another may move
    /// or eat.
    pub fn determine_head_changes(
        &mut self,
        map: &World,
        species: SnakeSpecies,
        heads: &Vec<(Point, SnakeSegment)>,
        bodies: &mut HashMap<usize, SnakeSegment>,
        eaten: &mut HashSet<usize>,
        amphibians: &Vec<Point>,
        now: u64,
    ) -> (r: Vec<Change>)
        requires
            map.wf(),
            snake_params_fit(old(self).params, map.side() as int),
            heads_ok(map@, map.side() as int, species, heads@),
            heads_distinct(heads@),
            bodies_ok(map@, map.side() as int, species, old(bodies)@),
            all_in_map(amphibians@, map.side() as int),
        ensures
            head_acts_ok(old(self).params, species, map@, map.side() as int, now, old(bodies)@, heads@, r@, heads@.len() as int),
            final(self).params == old(self).params,
            final(bodies)@ == bodies_after(old(self).params, species, map.side() as int, old(bodies)@, heads@),
            bodies_ok(map@, map.side() as int, species, final(bodies)@),
            forall|i: int| 0 <= i < r@.len() ==> change_sound(map@, map.side() as int, old(self).params, now, #[trigger] r@[i]),
            head_changes_ok(
                old(self).params,
                species,
                map.side() as int,
                now,
                old(bodies)@,
                heads@,
                old(eaten)@,
                final(eaten)@,
                r@,
                heads@.len() as int,
            ),
    {
        broadcast use vstd::std_specs::hash::group_hash_axioms;

        let ghost n = map.side() as int;
        let ghost prm = self.params;
        let ghost rows = map@;
        let ghost bodies0 = bodies@;
        let ghost eaten0 = eaten@;
        let size = map.size();
        let max_size = self.max_size(species);
        let min_size = self.params.min_size;
        let mut changes: Vec<Change> = Vec::new();
        assert(head_changes_ok(prm, species, n, now, bodies0, heads@, eaten0, eaten@, changes@, 0)) by {
            reveal(head_deaths_ok);
            reveal(head_eats_ok);
        }
        assert(head_acts_ok(prm, species, rows, n, now, bodies0, heads@, changes@, 0)) by {
            reveal(head_acts_ok);
        }
        let mut h: usize = 0;
        while h < heads.len()
            invariant
                map.wf(),
                n == map.side(),
                size == n,
                rows == map@,
                self.params == prm,
                prm == old(self).params,
                max_size == max_size_spec(prm, species),
                min_size == prm.min_size,
                snake_params_fit(prm, n),
                heads_ok(rows, n, species, heads@),
                bodies_ok(rows, n, species, bodies@),
                all_in_map(amphibians@, n),
                h <= heads@.len(),
                forall|i: int| 0 <= i < changes@.len() ==> change_sound(rows, n, prm, now, #[trigger] changes@[i]),
                bodies@ == bodies_after(prm, species, n, bodies0, heads@.subrange(0, h as int)),
                head_changes_ok(prm, species, n, now, bodies0, heads@, eaten0, eaten@, changes@, h as int),
                heads_distinct(heads@),
                head_acts_ok(prm, species, rows, n, now, bodies0, heads@, changes@, h as int),
            decreases heads@.len() - h,
        {
            let (point, head) = heads[h];
            assert(heads_ok(rows, n, species, heads@));
            assert(heads@[h as int] == (point, head));
            let ghost bodies_before = bodies@;
            let ghost budget: nat = if max_size > 0 {
                (max_size - 1) as nat
            } else {
                0
            };
            proof {
                lemma_chain_links(bodies_before, n, head.next_segment, budget);
            }
            let ghost changes_before = changes@;
            let ghost eaten_before = eaten@;
            assert(heads@.subrange(0, h + 1).drop_last() =~= heads@.subrange(0, h as int));
            let extracted = Self::extract_snake(min_size, max_size, point, head.next_segment, bodies, size);
            proof {
                let c = chain(bodies_before, n, head.next_segment, budget);
                assert(bodies@.submap_of(bodies_before));
                assert forall|k: usize| #[trigger] bodies@.contains_key(k) implies bodies_before.contains_key(k) && bodies@[k] == bodies_before[k] by {}
            }
            match extracted {
                None => {
                    changes.push(Change::Death(point));
                    proof {
                        lemma_head_step(prm, species, n, now, bodies0, heads@, eaten0, eaten_before, eaten@, changes_before, Some(Change::Death(point)), h as int);
                        lemma_head_step_acts(prm, species, rows, n, now, bodies0, heads@, changes_before, Some(Change::Death(point)), h as int);
                        assert(changes@ == changes_before.push(Change::Death(point)));
                    }
                },
                Some(snake_points) => {
                    proof {
                        let c = chain(bodies_before, n, head.next_segment, budget);
                        let v = snake_points@;
                        assert(v == seq![point] + c);
                        assert forall|i: int| 0 <= i < v.len() implies {
                            &&& in_map(#[trigger] v[i], n)
                            &&& snake_at(rows, v[i]) is Some
                            &&& snake_at(rows, v[i])->Some_0.species == species
                            &&& segment_at(rows, v[i]) is Some
                            &&& (is_head(segment_at(rows, v[i])->Some_0) <==> i == 0)
                            &&& (i + 1 < v.len() ==> segment_at(rows, v[i])->Some_0.next_segment == Some(v[i + 1]))
                        } by {
                            if i == 0 {
                                if v.len() > 1 {
                                    assert(v[1] == c[0]);
                                }
                            } else {
                                assert(v[i] == c[i - 1]);
                                let k = index_of(c[i - 1], n) as usize;
                                assert(bodies_before.contains_key(k));
                                lemma_point_index(c[i - 1], n);
                                if i + 1 < v.len() {
                                    assert(v[i + 1] == c[i]);
                                }
                            }
                        }
                        assert(snake_sound(rows, n, prm, species, v));
                    }
                    let change = match self.determine_starvation(now, head, &snake_points) {
                        Some(change) => Some(change),
                        None => self.determine_next_movement(map, species, snake_points, eaten, amphibians, now),
                    };
                    match change {
                        Some(change) => {
                            let ghost c = change;
                            changes.push(change);
                            proof {
                                lemma_head_step(prm, species, n, now, bodies0, heads@, eaten0, eaten_before, eaten@, changes_before, Some(c), h as int);
                                lemma_head_step_acts(prm, species, rows, n, now, bodies0, heads@, changes_before, Some(c), h as int);
                            }
                        },
                        None => {
                            proof {
                                lemma_head_step(prm, species, n, now, bodies0, heads@, eaten0, eaten_before, eaten@, changes_before, None, h as int);
                                lemma_head_step_acts(prm, species, rows, n, now, bodies0, heads@, changes_before, None, h as int);
                            }
                        },
                    }
                },
            }
            h = h + 1;
        }
        assert(heads@.subrange(0, heads@.len() as int) =~= heads@);
        changes
    }

    /// Form new snakes from the listed spare parts, in order: each still available is
    /// grown into a snake of the minimum size if it can be.
    #[verifier::rlimit(100)]
    pub fn determine_new_snakes(
        &mut self,
        map: &World,
        species: SnakeSpecies,
        spare_parts: &mut HashSet<usize>,
        spare_points: &Vec<Point>,
    ) -> (r: Vec<Change>)
        requires
            map.wf(),
            snake_params_fit(old(self).params, map.side() as int),
            spares_ok(map@, map.side() as int, species, old(spare_parts)@),
            all_in_map(spare_points@, map.side() as int),
        ensures
            final(self).params == old(self).params,
            forall|i: int| 0 <= i < r@.len() ==> (#[trigger] r@[i]) is NewSnake,
            forall|i: int| 0 <= i < r@.len() ==> change_sound(map@, map.side() as int, old(self).params, 0, #[trigger] r@[i]),
            final(spare_parts)@.subset_of(old(spare_parts)@),
            spares_done(old(self).params, map.side() as int, spare_points@, old(spare_parts)@, final(spare_parts)@, r@),
    {
        broadcast use vstd::std_specs::hash::group_hash_axioms;

        let ghost n = map.side() as int;
        let ghost prm = self.params;
        let ghost rows = map@;
        let ghost spares0 = spare_parts@;
        let size = map.size();
        let mut changes: Vec<Change> = Vec::new();
        let mut q: usize = 0;
        while q < spare_points.len()
            invariant
                map.wf(),
                n == map.side(),
                size == n,
                rows == map@,
                self.params == prm,
                prm == old(self).params,
                snake_params_fit(prm, n),
                all_in_map(spare_points@, n),
                spares_ok(rows, n, species, spare_parts@),
                spare_parts@.subset_of(spares0),
                q <= spare_points@.len(),
                forall|i: int| 0 <= i < changes@.len() ==> (#[trigger] changes@[i]) is NewSnake,
                forall|i: int| 0 <= i < changes@.len() ==> change_sound(rows, n, prm, 0, #[trigger] changes@[i]),
                forall|e: int| 0 <= e < q ==> !spare_parts@.contains(index_of(#[trigger] spare_points@[e], n) as usize),
                forall|x: usize|
                    spares0.contains(x) && !(#[trigger] spare_parts@.contains(x)) ==> spare_outcome(prm, n, changes@, spare_parts@, point_of(x as int, n)),
            decreases spare_points@.len() - q,
        {
            let ghost before = changes@;
            let ghost cur = spare_parts@;
            let point = spare_points[q];
            assert(in_map(spare_points@[q as int], n));
            let k = flat_index(point, size);
            proof {
                lemma_point_index(point, n);
            }
            if spare_parts.contains(&k) {
                spare_parts.remove(&k);
                let ghost set_after = spare_parts@;
                let result = self.determine_new_snake(point, spare_parts, size);
                let ghost cur2 = spare_parts@;
                match result {
                    Some(snake_points) => {
                        let ghost v = snake_points@;
                        proof {
                            assert forall|i: int| 0 <= i < v.len() implies {
                                &&& in_map(#[trigger] v[i], n)
                                &&& snake_at(rows, v[i]) is Some
                                &&& snake_at(rows, v[i])->Some_0.species == species
                                &&& snake_at(rows, v[i])->Some_0.segment is None
                            } by {
                                lemma_point_index(v[i], n);
                                if v[i] != point {
                                    assert(set_after.contains(index_of(v[i], n) as usize));
                                    assert(cur.contains(index_of(v[i], n) as usize));
                                }
                            }
                            assert(v.len() >= 1);
                            assert(in_map(v[0], n));
                        }
                        changes.push(Change::NewSnake(snake_points));
                        proof {
                            assert(changes@[before.len() as int] is NewSnake && changes@[before.len() as int]->NewSnake_0@ == v);
                            reveal(keys_of);
                            assert forall|x: usize|
                                spares0.contains(x) && !(#[trigger] cur2.contains(x)) implies spare_outcome(prm, n, changes@, cur2, point_of(x as int, n)) by {
                                if cur.contains(x) {
                                    if x == k {
                                        assert(point_of(x as int, n) == point);
                                    } else {
                                        assert(keys_of(v, n).contains(x));
                                        let i = choose|i: int| 0 <= i < v.len() && index_of(#[trigger] v[i], n) as usize == x;
                                        lemma_point_index(v[i], n);
                                        assert(point_of(x as int, n) == v[i]);
                                    }
                                    assert(changes@[before.len() as int]->NewSnake_0@.contains(point_of(x as int, n)));
                                } else {
                                    let p = point_of(x as int, n);
                                    assert(spare_outcome(prm, n, before, cur, p));
                                    if exists|j: int| 0 <= j < before.len() && before[j] is NewSnake && (#[trigger] before[j])->NewSnake_0@.contains(p) {
                                        let j = choose|j: int| 0 <= j < before.len() && before[j] is NewSnake && (#[trigger] before[j])->NewSnake_0@.contains(p);
                                        assert(changes@[j] == before[j]);
                                    } else if prm.min_size != 0 {
                                        let w = choose|w: Seq<Point>| #[trigger] stuck_chain(w, p, n, prm.min_size as int, cur);
                                        lemma_ends_stuck_shrink(cur, cur2, n, w);
                                        assert(stuck_chain(w, p, n, prm.min_size as int, cur2));
                                    }
                                }
                            }
                        }
                    },
                    None => {
                        proof {
                            reveal(keys_of);
                            assert forall|x: usize|
                                spares0.contains(x) && !(#[trigger] cur2.contains(x)) implies spare_outcome(prm, n, changes@, cur2, point_of(x as int, n)) by {
                                let p = point_of(x as int, n);
                                if prm.min_size != 0 {
                                    if cur.contains(x) {
                                        let w = choose|w: Seq<Point>| {
                                            &&& 1 <= w.len() < prm.min_size
                                            &&& w.contains(point)
                                            &&& is_path(w, n)
                                            &&& cur2 == set_after.difference(keys_of(w, n))
                                            &&& #[trigger] ends_stuck(cur2, n, w)
                                        };
                                        if x == k {
                                            assert(p == point);
                                        } else {
                                            assert(keys_of(w, n).contains(x));
                                            let i = choose|i: int| 0 <= i < w.len() && index_of(#[trigger] w[i], n) as usize == x;
                                            assert(in_map(w[i], n));
                                            lemma_point_index(w[i], n);
                                            assert(p == w[i]);
                                        }
                                        assert(stuck_chain(w, p, n, prm.min_size as int, cur2));
                                    } else {
                                        assert(spare_outcome(prm, n, before, cur, p));
                                        if !(exists|j: int| 0 <= j < before.len() && before[j] is NewSnake && (#[trigger] before[j])->NewSnake_0@.contains(p)) {
                                            let w = choose|w: Seq<Point>| #[trigger] stuck_chain(w, p, n, prm.min_size as int, cur);
                                            lemma_ends_stuck_shrink(cur, cur2, n, w);
                                            assert(stuck_chain(w, p, n, prm.min_size as int, cur2));
                                        }
                                    }
                                }
                            }
                        }
                    },
                }
                proof {
                    assert forall|x: usize| #[trigger] spare_parts@.contains(x) implies cur.contains(x) by {
                        assert(set_after.contains(x));
                    }
                }
            } else {
                proof {
                    assert(!cur.contains(index_of(point, n) as usize));
                }
            }
            proof {
                assert(!spare_parts@.contains(index_of(spare_points@[q as int], n) as usize));
                assert forall|e: int| 0 <= e < q + 1 implies !spare_parts@.contains(index_of(#[trigger] spare_points@[e], n) as usize) by {
                    if e < q {
                        assert(!cur.contains(index_of(spare_points@[e], n) as usize));
                    }
                }
            }
            q = q + 1;
        }
        proof {
            reveal(spares_done);
            assert forall|e: int|
                0 <= e < spare_points@.len() && spares0.contains(index_of(spare_points@[e], n) as usize) implies #[trigger] spare_outcome(
                    prm, n, changes@, spare_parts@, spare_points@[e]) by {
                assert(in_map(spare_points@[e], n));
                lemma_point_index(spare_points@[e], n);
                assert(!spare_parts@.contains(index_of(spare_points@[e], n) as usize));
            }
        }
        changes
    }

    /// Plan the changes for the snakes of one species: extract each snake from its
    /// head, then let it starve or move; kill heads too short and bodies that no
    /// snake claimed; form new snakes from spare parts.
    #[verifier::rlimit(80)]
    pub fn determine_species_changes(
        &mut self,
        map: &World,
        species: SnakeSpecies,
        heads: &Vec<(Point, SnakeSegment)>,
        bodies: &mut HashMap<usize, SnakeSegment>,
        body_points: &Vec<Point>,
        spare_parts: &mut HashSet<usize>,
        spare_points: &Vec<Point>,
        eaten: &mut HashSet<usize>,
        amphibians: &Vec<Point>,
        now: u64,
    ) -> (r: Vec<Change>)
        requires
            map.wf(),
            snake_params_fit(old(self).params, map.side() as int),
            heads_ok(map@, map.side() as int, species, heads@),
            heads_distinct(heads@),
            bodies_ok(map@, map.side() as int, species, old(bodies)@),
            spares_ok(map@, map.side() as int, species, old(spare_parts)@),
            all_in_map(body_points@, map.side() as int),
            forall|i: int| 0 <= i < body_points@.len() ==> segment_at(map@, #[trigger] body_points@[i]) is Some,
            all_in_map(spare_points@, map.side() as int),
            all_in_map(amphibians@, map.side() as int),
        ensures
            final(self).params == old(self).params,
            forall|i: int| 0 <= i < r@.len() ==> change_sound(map@, map.side() as int, old(self).params, now, #[trigger] r@[i]),
            species_changes_ok(
                old(self).params,
                species,
                map@,
                map.side() as int,
                now,
                old(bodies)@,
                heads@,
                body_points@,
                spare_points@,
                old(spare_parts)@,
                final(spare_parts)@,
                old(eaten)@,
                final(eaten)@,
                r@,
            ),
    {
        broadcast use vstd::std_specs::hash::group_hash_axioms;

        let ghost n = map.side() as int;
        let ghost prm = self.params;
        let ghost rows = map@;
        let ghost bodies0 = bodies@;
        let ghost eaten0 = eaten@;
        let ghost spares0 = spare_parts@;
        let size = map.size();
        let mut changes = self.determine_head_changes(map, species, heads, bodies, eaten, amphibians, now);
        let ghost head_changes = changes@;
        let ghost m = changes@.len() as int;
        let ghost eaten1 = eaten@;
        let mut b: usize = 0;
        while b < body_points.len()
            invariant
                map.wf(),
                n == map.side(),
                size == n,
                rows == map@,
                snake_params_fit(prm, n),
                all_in_map(body_points@, n),
                forall|i: int| 0 <= i < body_points@.len() ==> segment_at(rows, #[trigger] body_points@[i]) is Some,
                b <= body_points@.len(),
                forall|i: int| 0 <= i < changes@.len() ==> change_sound(rows, n, prm, now, #[trigger] changes@[i]),
                bodies@ == bodies_after(prm, species, n, bodies0, heads@),
                m <= changes@.len(),
                head_changes.len() == m,
                forall|k: int| 0 <= k < m ==> #[trigger] changes@[k] == head_changes[k],
                forall|k: int|
                    m <= k < changes@.len() ==> (#[trigger] changes@[k]) is Death && body_points@.contains(changes@[k]->Death_0)
                        && unclaimed(prm, species, n, bodies0, heads@, changes@[k]->Death_0),
                forall|e: int|
                    0 <= e < b && unclaimed(prm, species, n, bodies0, heads@, #[trigger] body_points@[e]) ==> changes@.contains(
                        Change::Death(body_points@[e]),
                    ),
            decreases body_points@.len() - b,
        {
            let point = body_points[b];
            assert(in_map(body_points@[b as int], n));
            assert(segment_at(rows, body_points@[b as int]) is Some);
            let ghost before = changes@;
            if bodies.contains_key(&flat_index(point, size)) {
                changes.push(Change::Death(point));
                assert(changes@[before.len() as int] == Change::Death(point));
                assert(body_points@.contains(point)) by {
                    assert(body_points@[b as int] == point);
                }
            }
            assert forall|e: int|
                0 <= e < b + 1 && unclaimed(prm, species, n, bodies0, heads@, #[trigger] body_points@[e]) implies changes@.contains(
                    Change::Death(body_points@[e])) by {
                if e < b {
                    let k = choose|k: int| 0 <= k < before.len() && before[k] == Change::Death(body_points@[e]);
                    assert(changes@[k] == before[k]);
                }
            }
            b = b + 1;
        }
        let ghost before_new = changes@;
        let mut news = self.determine_new_snakes(map, species, spare_parts, spare_points);
        let ghost added = news@;
        changes.append(&mut news);
        proof {
            assert(changes@ =~= before_new + added);
            assert forall|i: int| 0 <= i < changes@.len() implies change_sound(rows, n, prm, now, #[trigger] changes@[i]) by {
                if i >= before_new.len() {
                    assert(changes@[i] == added[i - before_new.len()]);
                } else {
                    assert(changes@[i] == before_new[i]);
                }
            }
            assert forall|k: int| 0 <= k < m implies #[trigger] changes@[k] == head_changes[k] by {
                assert(changes@[k] == before_new[k]);
            }
            assert forall|k: int| m <= k < changes@.len() implies (#[trigger] changes@[k]) is NewSnake || (changes@[k] is Death
                && body_points@.contains(changes@[k]->Death_0) && unclaimed(prm, species, n, bodies0, heads@, changes@[k]->Death_0)) by {
                if k < before_new.len() {
                    assert(changes@[k] == before_new[k]);
                } else {
                    assert(changes@[k] == added[k - before_new.len()]);
                }
            }
            assert forall|e: int|
                0 <= e < body_points@.len() && unclaimed(prm, species, n, bodies0, heads@, #[trigger] body_points@[e]) implies changes@.contains(
                    Change::Death(body_points@[e])) by {
                let k = choose|k: int| 0 <= k < before_new.len() && before_new[k] == Change::Death(body_points@[e]);
                assert(changes@[k] == before_new[k]);
            }
            reveal(spares_done);
            assert forall|q: int|
                0 <= q < spare_points@.len() && spares0.contains(index_of(spare_points@[q], n) as usize) implies #[trigger] spare_outcome(
                    prm, n, changes@, spare_parts@, spare_points@[q]) by {
                assert(spare_outcome(prm, n, added, spare_parts@, spare_points@[q]));
                if exists|k: int| 0 <= k < added.len() && added[k] is NewSnake && (#[trigger] added[k])->NewSnake_0@.contains(spare_points@[q]) {
                    let k = choose|k: int| 0 <= k < added.len() && added[k] is NewSnake && (#[trigger] added[k])->NewSnake_0@.contains(spare_points@[q]);
                    assert(changes@[before_new.len() + k] == added[k]);
                }
            }
            assert(spares_done(prm, n, spare_points@, spares0, spare_parts@, changes@));
        }
        proof {
            let r = changes@;
            assert(species_changes_ok(prm, species, rows, n, now, bodies0, heads@, body_points@, spare_points@, spares0, spare_parts@, eaten0, eaten1, r)) by {
                reveal(species_changes_ok);
                reveal(head_eats_ok);
                assert(r.subrange(0, m) =~= head_changes);
                assert forall|k: int| 0 <= k < r.len() && (#[trigger] r[k]) is Eat implies !eaten0.contains(index_of(r[k]->food, n) as usize)
                    && eaten1.contains(index_of(r[k]->food, n) as usize) by {
                    assert(k < m);
                    assert(head_changes[k] == r[k]);
                }
                assert forall|k: int, l: int| 0 <= k < l < r.len() && (#[trigger] r[k]) is Eat && (#[trigger] r[l]) is Eat implies r[k]->food
                    != r[l]->food by {
                    assert(l < m);
                    assert(head_changes[k] == r[k]);
                    assert(head_changes[l] == r[l]);
                }
            }
        }
        changes
    }
}

pub open spec fn is_head_of(rows: Seq<Seq<Cell>>, p: Point, species: SnakeSpecies) -> bool {
    &&& snake_at(rows, p) is Some
    &&& snake_at(rows, p)->Some_0.species == species
    &&& segment_at(rows, p) is Some
    &&& is_head(segment_at(rows, p)->Some_0)
}

pub open spec fn is_spare_of(rows: Seq<Seq<Cell>>, p: Point, species: SnakeSpecies) -> bool {
    &&& snake_at(rows, p) is Some
    &&& snake_at(rows, p)->Some_0.species == species
    &&& segment_at(rows, p) is None
}

pub open spec fn is_body_of(rows: Seq<Seq<Cell>>, p: Point, species: SnakeSpecies) -> bool {
    &&& snake_at(rows, p) is Some
    &&& snake_at(rows, p)->Some_0.species == species
    &&& segment_at(rows, p) is Some
    &&& segment_at(rows, p)->Some_0.kind is Body
}

/// `heads`, `bodies`, `body_points`, `spare_points` and `spares` index every head,
/// every body and every spare part of `species` on the map, and nothing else.
pub open spec fn full_index(
    rows: Seq<Seq<Cell>>,
    n: int,
    species: SnakeSpecies,
    heads: Seq<(Point, SnakeSegment)>,
    bodies: Map<usize, SnakeSegment>,
    body_points: Seq<Point>,
    spare_points: Seq<Point>,
    spares: Set<usize>,
) -> bool {
    &&& heads_ok(rows, n, species, heads)
    &&& heads_distinct(heads)
    &&& spares_ok(rows, n, species, spares)
    &&& all_in_map(spare_points, n)
    &&& forall|p: Point|
        in_map(p, n) && #[trigger] is_spare_of(rows, p, species) ==> spares.contains(index_of(p, n) as usize)
            && spare_points.contains(p)
    &&& bodies_ok(rows, n, species, bodies)
    &&& all_in_map(body_points, n)
    &&& forall|i: int| 0 <= i < body_points.len() ==> segment_at(rows, #[trigger] body_points[i]) is Some
    &&& forall|p: Point|
        in_map(p, n) && #[trigger] is_head_of(rows, p, species) ==> exists|i: int| 0 <= i < heads.len() && heads[i].0 == p
    &&& forall|p: Point|
        in_map(p, n) && #[trigger] is_body_of(rows, p, species) ==> bodies.contains_key(index_of(p, n) as usize)
            && body_points.contains(p)
}

/// The cells of one species, indexed: heads with their segments, bodies by flat
/// index and in grid order, spare parts by flat index and in grid order.
pub type SegmentIndex = (Vec<(Point, SnakeSegment)>, HashMap<usize, SnakeSegment>, Vec<Point>, HashSet<usize>, Vec<Point>);

impl SnakeSystem {
    fn index_species(map: &World, species: SnakeSpecies) -> (r: SegmentIndex)
        requires
            map.wf(),
            map.side() * map.side() <= usize::MAX,
        ensures
            heads_ok(map@, map.side() as int, species, r.0@),
            bodies_ok(map@, map.side() as int, species, r.1@),
            all_in_map(r.2@, map.side() as int),
            forall|i: int| 0 <= i < r.2@.len() ==> segment_at(map@, #[trigger] r.2@[i]) is Some,
            spares_ok(map@, map.side() as int, species, r.3@),
            all_in_map(r.4@, map.side() as int),
            full_index(map@, map.side() as int, species, r.0@, r.1@, r.2@, r.4@, r.3@),
    {
        broadcast use vstd::std_specs::hash::group_hash_axioms;

        let ghost n = map.side() as int;
        let ghost rows = map@;
        let size = map.size();
        let mut heads: Vec<(Point, SnakeSegment)> = Vec::new();
        let mut bodies: HashMap<usize, SnakeSegment> = HashMap::new();
        let mut body_points: Vec<Point> = Vec::new();
        let mut spares: HashSet<usize> = HashSet::new();
        let mut spare_points: Vec<Point> = Vec::new();
        assert(n <= isize::MAX) by (nonlinear_arith)
            requires
                n * n <= isize::MAX,
                n >= 0,
        ;
        let mut i: usize = 0;
        while i < size
            invariant
                map.wf(),
                n == map.side(),
                size == n,
                n <= isize::MAX,
                rows == map@,
                n * n <= usize::MAX,
                i <= size,
                heads_ok(rows, n, species, heads@),
                bodies_ok(rows, n, species, bodies@),
                all_in_map(body_points@, n),
                forall|e: int| 0 <= e < body_points@.len() ==> segment_at(rows, #[trigger] body_points@[e]) is Some,
                spares_ok(rows, n, species, spares@),
                all_in_map(spare_points@, n),
                forall|e: int| 0 <= e < heads@.len() ==> row_before((#[trigger] heads@[e]).0, i as int, 0),
                forall|a: int, b: int|
                    0 <= a < b < heads@.len() ==> row_before((#[trigger] heads@[a]).0, (#[trigger] heads@[b]).0.y as int, heads@[b].0.x as int),
                forall|p: Point|
                    in_map(p, n) && row_before(p, i as int, 0) && #[trigger] is_spare_of(rows, p, species) ==> spares@.contains(
                        index_of(p, n) as usize,
                    ) && spare_points@.contains(p),
                forall|p: Point|
                    in_map(p, n) && row_before(p, i as int, 0) && #[trigger] is_head_of(rows, p, species) ==> exists|e: int|
                        0 <= e < heads@.len() && heads@[e].0 == p,
                forall|p: Point|
                    in_map(p, n) && row_before(p, i as int, 0) && #[trigger] is_body_of(rows, p, species) ==> bodies@.contains_key(
                        index_of(p, n) as usize,
                    ) && body_points@.contains(p),
            decreases size - i,
        {
            let mut j: usize = 0;
            while j < size
                invariant
                    map.wf(),
                    n == map.side(),
                    size == n,
                    n <= isize::MAX,
                    rows == map@,
                    n * n <= usize::MAX,
                    i < size,
                    j <= size,
                    heads_ok(rows, n, species, heads@),
                    bodies_ok(rows, n, species, bodies@),
                    all_in_map(body_points@, n),
                    forall|e: int| 0 <= e < body_points@.len() ==> segment_at(rows, #[trigger] body_points@[e]) is Some,
                    spares_ok(rows, n, species, spares@),
                    all_in_map(spare_points@, n),
                    forall|e: int| 0 <= e < heads@.len() ==> row_before((#[trigger] heads@[e]).0, i as int, j as int),
                    forall|a: int, b: int|
                        0 <= a < b < heads@.len() ==> row_before((#[trigger] heads@[a]).0, (#[trigger] heads@[b]).0.y as int, heads@[b].0.x as int),
                    forall|p: Point|
                        in_map(p, n) && row_before(p, i as int, j as int) && #[trigger] is_spare_of(rows, p, species) ==> spares@.contains(
                            index_of(p, n) as usize,
                        ) && spare_points@.contains(p),
                    forall|p: Point|
                        in_map(p, n) && row_before(p, i as int, j as int) && #[trigger] is_head_of(rows, p, species) ==> exists|e: int|
                            0 <= e < heads@.len() && heads@[e].0 == p,
                    forall|p: Point|
                        in_map(p, n) && row_before(p, i as int, j as int) && #[trigger] is_body_of(rows, p, species) ==> bodies@.contains_key(
                            index_of(p, n) as usize,
                        ) && body_points@.contains(p),
                decreases size - j,
            {
                let point = Point { x: j as isize, y: i as isize };
                proof {
                    lemma_point_index(point, n);
                }
                let ghost heads_before = heads@;
                let ghost spares_before = spares@;
                let ghost spare_points_before = spare_points@;
                let ghost bodies_before = bodies@;
                let ghost points_before = body_points@;
                match Self::snake_cell(map, point) {
                    Some((_, snake)) => {
                        if snake.species == species {
                            let k = flat_index(point, size);
                            match snake.segment {
                                None => {
                                    let ghost before = spares@;
                                    spares.insert(k);
                                    spare_points.push(point);
                                    assert forall|x: usize| #[trigger] spares@.contains(x) implies before.contains(x) || x == k by {}
                                },
                                Some(segment) => match segment.kind {
                                    SnakeSegmentKind::Head { .. } => {
                                        heads.push((point, segment));
                                    },
                                    SnakeSegmentKind::Body => {
                                        let ghost before = bodies@;
                                        bodies.insert(k, segment);
                                        body_points.push(point);
                                        assert forall|x: usize| #[trigger] bodies@.contains_key(x) implies (before.contains_key(x) && bodies@[x] == before[x]) || x == k by {}
                                    },
                                },
                            }
                        }
                    },
                    None => {},
                }
                proof {
                    assert forall|e: int| 0 <= e < heads@.len() implies row_before((#[trigger] heads@[e]).0, i as int, j + 1) by {
                        if e < heads_before.len() {
                            assert(heads@[e] == heads_before[e]);
                        }
                    }
                    assert forall|a: int, b: int|
                        0 <= a < b < heads@.len() implies row_before((#[trigger] heads@[a]).0, (#[trigger] heads@[b]).0.y as int, heads@[b].0.x as int) by {
                        assert(heads@[a] == heads_before[a]);
                        if b < heads_before.len() {
                            assert(heads@[b] == heads_before[b]);
                        } else {
                            assert(heads@[b].0 == point);
                        }
                    }
                    assert forall|p: Point|
                        in_map(p, n) && row_before(p, i as int, j + 1) && #[trigger] is_spare_of(rows, p, species) implies spares@.contains(
                            index_of(p, n) as usize) && spare_points@.contains(p) by {
                        if p == point {
                            assert(spare_points@[spare_points@.len() - 1] == p);
                        } else {
                            assert(spare_points_before.contains(p));
                            let e = choose|e: int| 0 <= e < spare_points_before.len() && spare_points_before[e] == p;
                            assert(spare_points@[e] == spare_points_before[e]);
                        }
                    }
                    assert forall|p: Point|
                        in_map(p, n) && row_before(p, i as int, j + 1) && #[trigger] is_head_of(rows, p, species) implies exists|e: int|
                            0 <= e < heads@.len() && heads@[e].0 == p by {
                        if p == point {
                            assert(heads@[heads@.len() - 1].0 == p);
                        } else {
                            let e = choose|e: int| 0 <= e < heads_before.len() && heads_before[e].0 == p;
                            assert(heads@[e] == heads_before[e]);
                        }
                    }
                    assert forall|p: Point|
                        in_map(p, n) && row_before(p, i as int, j + 1) && #[trigger] is_body_of(rows, p, species) implies bodies@.contains_key(
                            index_of(p, n) as usize) && body_points@.contains(p) by {
                        if p == point {
                            assert(body_points@[body_points@.len() - 1] == p);
                        } else {
                            assert(points_before.contains(p));
                            let e = choose|e: int| 0 <= e < points_before.len() && points_before[e] == p;
                            assert(body_points@[e] == points_before[e]);
                        }
                    }
                }
                j = j + 1;
            }
            i = i + 1;
        }
        assert(heads_distinct(heads@)) by {
            assert forall|a: int, b: int| 0 <= a < b < heads@.len() implies (#[trigger] heads@[a]).0 != (#[trigger] heads@[b]).0 by {
                assert(row_before(heads@[a].0, heads@[b].0.y as int, heads@[b].0.x as int));
            }
        }
        (heads, bodies, body_points, spares, spare_points)
    }

    fn index_amphibians(map: &World) -> (r: Vec<Point>)
        requires
            map.wf(),
        ensures
            all_in_map(r@, map.side() as int),
    {
        let ghost n = map.side() as int;
        let size = map.size();
        assert(n <= isize::MAX) by (nonlinear_arith)
            requires
                n * n <= isize::MAX,
                n >= 0,
        ;
        let mut preys: Vec<Point> = Vec::new();
        let mut i: usize = 0;
        while i < size
            invariant
                map.wf(),
                n == map.side(),
                size == n,
                n <= isize::MAX,
                i <= size,
                all_in_map(preys@, n),
            decreases size - i,
        {
            let mut j: usize = 0;
            while j < size
                invariant
                    map.wf(),
                    n == map.side(),
                    size == n,
                    n <= isize::MAX,
                    i < size,
                    j <= size,
                    all_in_map(preys@, n),
                decreases size - j,
            {
                let point = Point { x: j as isize, y: i as isize };
                match map.cell(point) {
                    Some(cell) => {
                        if cell.animal.amphibian().is_some() {
                            preys.push(point);
                        }
                    },
                    None => {},
                }
                j = j + 1;
            }
            i = i + 1;
        }
        preys
    }

    /// Index one species and plan its changes.
    fn plan_species(
        &mut self,
        map: &World,
        species: SnakeSpecies,
        eaten: &mut HashSet<usize>,
        amphibians: &Vec<Point>,
        now: u64,
    ) -> (r: Vec<Change>)
        requires
            map.wf(),
            snake_params_fit(old(self).params, map.side() as int),
            all_in_map(amphibians@, map.side() as int),
        ensures
            final(self).params == old(self).params,
            forall|i: int| 0 <= i < r@.len() ==> change_sound(map@, map.side() as int, old(self).params, now, #[trigger] r@[i]),
            species_planned(old(self).params, species, map@, map.side() as int, now, old(eaten)@, final(eaten)@, r@),
            old(eaten)@.subset_of(final(eaten)@),
            forall|k: int|
                0 <= k < r@.len() && (#[trigger] r@[k]) is Eat ==> !old(eaten)@.contains(index_of(r@[k]->food, map.side() as int) as usize)
                    && final(eaten)@.contains(index_of(r@[k]->food, map.side() as int) as usize),
            forall|k: int, l: int|
                0 <= k < l < r@.len() && (#[trigger] r@[k]) is Eat && (#[trigger] r@[l]) is Eat ==> r@[k]->food != r@[l]->food,
    {
        let (heads, mut bodies, body_points, mut spares, spare_points) = Self::index_species(map, species);
        let ghost bodies0 = bodies@;
        let r = self.determine_species_changes(
            map,
            species,
            &heads,
            &mut bodies,
            &body_points,
            &mut spares,
            &spare_points,
            eaten,
            amphibians,
            now,
        );
        proof {
            reveal(species_changes_ok);
        }
        r
    }

    /// Plan one tick for every species, A, B then C. The plan is made of one part per
    /// species, each the plan of that species for a complete index of its heads and
    /// bodies (see `species_changes_ok`); no two eats share a prey. Each planned change
    /// holds of the map as it was read; `apply_changes` checks it again before it
    /// commits.
    pub fn determine_changes(&mut self, map: &World, now: u64) -> (r: Vec<Change>)
        requires
            map.wf(),
            snake_params_fit(old(self).params, map.side() as int),
        ensures
            final(self).params == old(self).params,
            forall|i: int| 0 <= i < r@.len() ==> change_sound(map@, map.side() as int, old(self).params, now, #[trigger] r@[i]),
            exists|ra: Seq<Change>, rb: Seq<Change>, rc: Seq<Change>, e1: Set<usize>, e2: Set<usize>, e3: Set<usize>|
                #![trigger species_planned(old(self).params, SnakeSpecies::A, map@, map.side() as int, now, Set::empty(), e1, ra), species_planned(old(self).params, SnakeSpecies::B, map@, map.side() as int, now, e1, e2, rb), species_planned(old(self).params, SnakeSpecies::C, map@, map.side() as int, now, e2, e3, rc)]
                r@ == ra + rb + rc && species_planned(old(self).params, SnakeSpecies::A, map@, map.side() as int, now, Set::empty(), e1, ra)
                    && species_planned(old(self).params, SnakeSpecies::B, map@, map.side() as int, now, e1, e2, rb)
                    && species_planned(old(self).params, SnakeSpecies::C, map@, map.side() as int, now, e2, e3, rc),
            forall|k: int, l: int|
                0 <= k < l < r@.len() && (#[trigger] r@[k]) is Eat && (#[trigger] r@[l]) is Eat ==> r@[k]->food != r@[l]->food,
    {
        broadcast use vstd::std_specs::hash::group_hash_axioms;

        let ghost n = map.side() as int;
        let amphibians = Self::index_amphibians(map);
        let mut eaten: HashSet<usize> = HashSet::new();
        let ghost e0 = eaten@;
        assert(e0 =~= Set::<usize>::empty());
        let mut changes = self.plan_species(map, SnakeSpecies::A, &mut eaten, &amphibians, now);
        let ghost e1 = eaten@;
        let mut b_changes = self.plan_species(map, SnakeSpecies::B, &mut eaten, &amphibians, now);
        let ghost e2 = eaten@;
        let mut c_changes = self.plan_species(map, SnakeSpecies::C, &mut eaten, &amphibians, now);
        let ghost e3 = eaten@;
        let ghost ra = changes@;
        let ghost rb = b_changes@;
        let ghost rc = c_changes@;
        changes.append(&mut b_changes);
        changes.append(&mut c_changes);
        proof {
            let r = changes@;
            assert(r =~= ra + rb + rc);
            assert forall|i: int| 0 <= i < r.len() implies change_sound(map@, n, self.params, now, #[trigger] r[i]) by {
                if i < ra.len() {
                    assert(r[i] == ra[i]);
                } else if i < ra.len() + rb.len() {
                    assert(r[i] == rb[i - ra.len()]);
                } else {
                    assert(r[i] == rc[i - ra.len() - rb.len()]);
                }
            }
            assert forall|k: int, l: int| 0 <= k < l < r.len() && (#[trigger] r[k]) is Eat && (#[trigger] r[l]) is Eat implies r[k]->food
                != r[l]->food by {
                let la = ra.len() as int;
                let lb = la + rb.len();
                if l < la {
                    assert(r[k] == ra[k] && r[l] == ra[l]);
                } else if l < lb {
                    assert(r[l] == rb[l - la]);
                    assert(!e1.contains(index_of(rb[l - la]->food, n) as usize));
                    if k < la {
                        assert(r[k] == ra[k]);
                        assert(e1.contains(index_of(ra[k]->food, n) as usize));
                    } else {
                        assert(r[k] == rb[k - la]);
                    }
                } else {
                    assert(r[l] == rc[l - lb]);
                    assert(!e2.contains(index_of(rc[l - lb]->food, n) as usize));
                    if k < la {
                        assert(r[k] == ra[k]);
                        assert(e1.contains(index_of(ra[k]->food, n) as usize));
                    } else if k < lb {
                        assert(r[k] == rb[k - la]);
                        assert(e2.contains(index_of(rb[k - la]->food, n) as usize));
                    } else {
                        assert(r[k] == rc[k - lb]);
                    }
                }
            }
        }
        changes
    }
}

/// A part of a plan is the plan of `species` for a complete index of its heads,
/// bodies and spare parts, with the prey promised before it in `eaten0` and after it in `eaten1`.
pub open spec fn species_planned(
    prm: SnakeParams,
    species: SnakeSpecies,
    rows: Seq<Seq<Cell>>,
    n: int,
    now: u64,
    eaten0: Set<usize>,
    eaten1: Set<usize>,
    r: Seq<Change>,
) -> bool {
    exists|
        heads: Seq<(Point, SnakeSegment)>,
        bodies0: Map<usize, SnakeSegment>,
        body_points: Seq<Point>,
        spare_points: Seq<Point>,
        spares0: Set<usize>,
        spares_left: Set<usize>,
    |
        full_index(rows, n, species, heads, bodies0, body_points, spare_points, spares0) && #[trigger] species_changes_ok(
            prm,
            species,
            rows,
            n,
            now,
            bodies0,
            heads,
            body_points,
            spare_points,
            spares0,
            spares_left,
            eaten0,
            eaten1,
            r,
        )
}

proof fn lemma_chain_taken(bodies: Map<usize, SnakeSegment>, n: int, next: Option<Point>, budget: nat)
    requires
        n * n <= usize::MAX,
    ensures
        forall|i: int|
            0 <= i < chain(bodies, n, next, budget).len() ==> !chain_rest(bodies, n, next, budget).contains_key(
                index_of(#[trigger] chain(bodies, n, next, budget)[i], n) as usize,
            ),
    decreases budget,
{
    if budget > 0 {
        match next {
            None => {},
            Some(p) => {
                let k = index_of(p, n) as usize;
                if in_map(p, n) && bodies.contains_key(k) {
                    let rest = bodies.remove(k);
                    lemma_chain_taken(rest, n, bodies[k].next_segment, (budget - 1) as nat);
                    lemma_chain_links(rest, n, bodies[k].next_segment, (budget - 1) as nat);
                    let c = chain(bodies, n, next, budget);
                    let c2 = chain(rest, n, bodies[k].next_segment, (budget - 1) as nat);
                    let cr = chain_rest(rest, n, bodies[k].next_segment, (budget - 1) as nat);
                    assert(c == seq![p] + c2);
                    assert forall|i: int| 0 <= i < c.len() implies !cr.contains_key(index_of(#[trigger] c[i], n) as usize) by {
                        if i > 0 {
                            assert(c[i] == c2[i - 1]);
                        } else {
                            assert(!rest.contains_key(k));
                            assert(cr.submap_of(rest));
                        }
                    }
                }
            },
        }
    }
}

proof fn lemma_bodies_after_shrink(
    prm: SnakeParams,
    species: SnakeSpecies,
    n: int,
    bodies0: Map<usize, SnakeSegment>,
    heads: Seq<(Point, SnakeSegment)>,
    i: int,
    j: int,
)
    requires
        n * n <= usize::MAX,
        0 <= i <= j <= heads.len(),
    ensures
        bodies_after(prm, species, n, bodies0, heads.subrange(0, j)).submap_of(
            bodies_after(prm, species, n, bodies0, heads.subrange(0, i)),
        ),
    decreases j - i,
{
    if j > i {
        lemma_bodies_after_shrink(prm, species, n, bodies0, heads, i, j - 1);
        let prev = bodies_after(prm, species, n, bodies0, heads.subrange(0, j - 1));
        assert(heads.subrange(0, j).drop_last() =~= heads.subrange(0, j - 1));
        lemma_chain_links(prev, n, heads[j - 1].1.next_segment, extract_budget(prm, species));
        let cur = bodies_after(prm, species, n, bodies0, heads.subrange(0, j));
        let base = bodies_after(prm, species, n, bodies0, heads.subrange(0, i));
        assert forall|x: usize| #[trigger] cur.contains_key(x) implies base.contains_key(x) && cur[x] == base[x] by {
            assert(prev.contains_key(x));
        }
    }
}

/// The snakes of two different heads share no point: each head takes its bodies out
/// before the next head looks, and heads and bodies lie on different cells.
pub proof fn extracted_snakes_are_disjoint(
    prm: SnakeParams,
    species: SnakeSpecies,
    rows: Seq<Seq<Cell>>,
    n: int,
    bodies0: Map<usize, SnakeSegment>,
    heads: Seq<(Point, SnakeSegment)>,
    i: int,
    j: int,
)
    requires
        n * n <= usize::MAX,
        heads_ok(rows, n, species, heads),
        heads_distinct(heads),
        bodies_ok(rows, n, species, bodies0),
        0 <= i < j < heads.len(),
    ensures
        forall|a: int, b: int|
            0 <= a < head_snake(prm, species, n, bodies0, heads, i).len() && 0 <= b < head_snake(
                prm,
                species,
                n,
                bodies0,
                heads,
                j,
            ).len() ==> #[trigger] head_snake(prm, species, n, bodies0, heads, i)[a] != #[trigger] head_snake(
                prm,
                species,
                n,
                bodies0,
                heads,
                j,
            )[b],
{
    let budget = extract_budget(prm, species);
    let bi = bodies_after(prm, species, n, bodies0, heads.subrange(0, i));
    let bi1 = bodies_after(prm, species, n, bodies0, heads.subrange(0, i + 1));
    let bj = bodies_after(prm, species, n, bodies0, heads.subrange(0, j));
    let ci = chain(bi, n, heads[i].1.next_segment, budget);
    let cj = chain(bj, n, heads[j].1.next_segment, budget);
    lemma_chain_links(bi, n, heads[i].1.next_segment, budget);
    lemma_chain_links(bj, n, heads[j].1.next_segment, budget);
    lemma_chain_taken(bi, n, heads[i].1.next_segment, budget);
    lemma_bodies_after_shrink(prm, species, n, bodies0, heads, 0, i);
    lemma_bodies_after_shrink(prm, species, n, bodies0, heads, 0, j);
    lemma_bodies_after_shrink(prm, species, n, bodies0, heads, i + 1, j);
    assert(heads.subrange(0, 0) =~= Seq::<(Point, SnakeSegment)>::empty());
    assert(heads.subrange(0, i + 1).drop_last() =~= heads.subrange(0, i));
    assert(heads[i] == heads.subrange(0, i + 1).last());
    assert(bi1 == chain_rest(bi, n, heads[i].1.next_segment, budget));
    let vi = head_snake(prm, species, n, bodies0, heads, i);
    let vj = head_snake(prm, species, n, bodies0, heads, j);
    assert forall|a: int, b: int| 0 <= a < vi.len() && 0 <= b < vj.len() implies #[trigger] vi[a] != #[trigger] vj[b] by {
        if a == 0 && b == 0 {
            assert(heads[i].0 != heads[j].0);
        } else if a == 0 {
            let q = cj[b - 1];
            assert(vj[b] == q);
            assert(bj.contains_key(index_of(q, n) as usize));
            assert(bodies0.contains_key(index_of(q, n) as usize));
            lemma_point_index(q, n);
            assert(point_of(index_of(q, n) as usize as int, n) == q);
            assert(segment_at(rows, q)->Some_0.kind is Body);
            assert(is_head(segment_at(rows, heads[i].0)->Some_0));
        } else if b == 0 {
            let q = ci[a - 1];
            assert(vi[a] == q);
            assert(bi.contains_key(index_of(q, n) as usize));
            assert(bodies0.contains_key(index_of(q, n) as usize));
            lemma_point_index(q, n);
            assert(point_of(index_of(q, n) as usize as int, n) == q);
            assert(segment_at(rows, q)->Some_0.kind is Body);
            assert(is_head(segment_at(rows, heads[j].0)->Some_0));
        } else {
            let x = ci[a - 1];
            let y = cj[b - 1];
            assert(vi[a] == x && vj[b] == y);
            assert(!bi1.contains_key(index_of(x, n) as usize));
            assert(bj.contains_key(index_of(y, n) as usize));
            assert(bi1.contains_key(index_of(y, n) as usize));
        }
    }
}

/// The rows form an `n` by `n` grid.
pub open spec fn is_grid(rows: Seq<Seq<Cell>>, n: int) -> bool {
    rows.len() == n && forall|i: int| 0 <= i < n ==> #[trigger] rows[i].len() == n
}

proof fn lemma_with_animal(rows: Seq<Seq<Cell>>, n: int, p: Point, q: Point, a: CellAnimal)
    requires
        is_grid(rows, n),
        in_map(p, n),
        in_map(q, n),
    ensures
        is_grid(with_animal(rows, p, a), n),
        cell_of(with_animal(rows, p, a), q) == if p == q {
            Cell { animal: a, ..cell_of(rows, p) }
        } else {
            cell_of(rows, q)
        },
{
    let r = with_animal(rows, p, a);
    assert forall|i: int| 0 <= i < n implies #[trigger] r[i].len() == n by {
        assert(rows[i].len() == n);
    }
    if p != q && p.y == q.y {
        assert(p.x != q.x);
    }
}

#[verifier::rlimit(40)]
proof fn lemma_write_segments(rows: Seq<Seq<Cell>>, n: int, v: Seq<Point>, species: SnakeSpecies, now: u64, k: nat)
    requires
        is_grid(rows, n),
        k <= v.len(),
        forall|i: int| 0 <= i < v.len() ==> in_map(#[trigger] v[i], n),
        forall|i: int, j: int| 0 <= i < j < v.len() ==> #[trigger] v[i] != #[trigger] v[j],
    ensures
        is_grid(write_segments(rows, v, species, now, k), n),
        forall|i: int|
            0 <= i < k ==> snake_at(write_segments(rows, v, species, now, k), #[trigger] v[i]) == Some(
                Snake { species, segment: Some(segment_for(v, i, now)) },
            ),
    decreases k,
{
    if k > 0 {
        lemma_write_segments(rows, n, v, species, now, (k - 1) as nat);
        let before = write_segments(rows, v, species, now, (k - 1) as nat);
        let written = Snake { species, segment: Some(segment_for(v, k - 1, now)) };
        assert forall|i: int| 0 <= i < k implies snake_at(write_segments(rows, v, species, now, k), #[trigger] v[i])
            == Some(Snake { species, segment: Some(segment_for(v, i, now)) }) by {
            lemma_with_animal(before, n, v[k - 1], v[i], CellAnimal::Snake(written));
        }
        lemma_with_animal(before, n, v[k - 1], v[0], CellAnimal::Snake(written));
    }
}

/// A snake formed from spare parts is well formed: its first point is a head fed at
/// `now`, each point links to the next one and the last to none, the others are
/// bodies, and all are of the species of the spare parts.
pub proof fn formed_snake_is_well_linked(rows: Seq<Seq<Cell>>, n: int, v: Seq<Point>, now: u64)
    requires
        is_grid(rows, n),
        new_snake_check(rows, n, v),
        forall|i: int, j: int| 0 <= i < j < v.len() ==> #[trigger] v[i] != #[trigger] v[j],
    ensures
        forall|i: int|
            0 <= i < v.len() ==> {
                let s = #[trigger] snake_at(new_snake_result(rows, n, v, now), v[i]);
                &&& s is Some
                &&& s->Some_0.species == snake_at(rows, v[0])->Some_0.species
                &&& s->Some_0.segment is Some
                &&& (i == 0 ==> s->Some_0.segment->Some_0.kind == SnakeSegmentKind::Head { last_feeding: now })
                &&& (i > 0 ==> s->Some_0.segment->Some_0.kind is Body)
                &&& (i + 1 < v.len() ==> s->Some_0.segment->Some_0.next_segment == Some(v[i + 1]))
                &&& (i + 1 == v.len() ==> s->Some_0.segment->Some_0.next_segment is None)
            },
{
    lemma_write_segments(rows, n, v, snake_at(rows, v[0])->Some_0.species, now, v.len());
}

proof fn lemma_demote(rows: Seq<Seq<Cell>>, n: int, p: Point, q: Point)
    requires
        is_grid(rows, n),
        in_map(p, n),
        in_map(q, n),
    ensures
        is_grid(demote(rows, p), n),
        p != q ==> cell_of(demote(rows, p), q) == cell_of(rows, q),
        segment_at(rows, p) is Some ==> snake_at(demote(rows, p), p) == Some(
            Snake {
                segment: Some(SnakeSegment { kind: SnakeSegmentKind::Body, ..segment_at(rows, p)->Some_0 }),
                ..snake_at(rows, p)->Some_0
            },
        ),
{
    match snake_at(rows, p) {
        Some(s) => match s.segment {
            Some(g) => {
                lemma_with_animal(
                    rows,
                    n,
                    p,
                    q,
                    CellAnimal::Snake(Snake { segment: Some(SnakeSegment { kind: SnakeSegmentKind::Body, ..g }), ..s }),
                );
                lemma_with_animal(
                    rows,
                    n,
                    p,
                    p,
                    CellAnimal::Snake(Snake { segment: Some(SnakeSegment { kind: SnakeSegmentKind::Body, ..g }), ..s }),
                );
            },
            None => {},
        },
        None => {},
    }
}

proof fn lemma_clear_next(rows: Seq<Seq<Cell>>, n: int, p: Point, q: Point)
    requires
        is_grid(rows, n),
        in_map(p, n),
        in_map(q, n),
    ensures
        is_grid(clear_next(rows, p), n),
        p != q ==> cell_of(clear_next(rows, p), q) == cell_of(rows, q),
        segment_at(rows, p) is Some ==> snake_at(clear_next(rows, p), p) == Some(
            Snake {
                segment: Some(SnakeSegment { next_segment: None, ..segment_at(rows, p)->Some_0 }),
                ..snake_at(rows, p)->Some_0
            },
        ),
{
    match snake_at(rows, p) {
        Some(s) => match s.segment {
            Some(g) => {
                lemma_with_animal(
                    rows,
                    n,
                    p,
                    q,
                    CellAnimal::Snake(Snake { segment: Some(SnakeSegment { next_segment: None, ..g }), ..s }),
                );
                lemma_with_animal(
                    rows,
                    n,
                    p,
                    p,
                    CellAnimal::Snake(Snake { segment: Some(SnakeSegment { next_segment: None, ..g }), ..s }),
                );
            },
            None => {},
        },
        None => {},
    }
}

/// The snake after a move: the target, then every point but the tail.
pub open spec fn moved_points(v: Seq<Point>, target: Point) -> Seq<Point> {
    seq![target] + v.subrange(0, v.len() - 1)
}

/// A move keeps a snake well formed: the target becomes the head, with the old head's
/// feeding time, each point links to the next one and the new tail to none, the
/// others are bodies, and all keep the species.
pub proof fn moved_snake_is_well_linked(rows: Seq<Seq<Cell>>, n: int, v: Seq<Point>, target: Point)
    requires
        is_grid(rows, n),
        move_check(rows, n, v, target),
        forall|i: int, j: int| 0 <= i < j < v.len() ==> #[trigger] v[i] != #[trigger] v[j],
    ensures
        ({
            let r = move_result(rows, v, target);
            let w = moved_points(v, target);
            forall|i: int|
                0 <= i < w.len() ==> {
                    let s = #[trigger] snake_at(r, w[i]);
                    &&& s is Some
                    &&& s->Some_0.species == snake_at(rows, v[0])->Some_0.species
                    &&& s->Some_0.segment is Some
                    &&& (i == 0 ==> s->Some_0.segment->Some_0.kind == segment_at(rows, v[0])->Some_0.kind)
                    &&& (i > 0 ==> s->Some_0.segment->Some_0.kind is Body)
                    &&& (i + 1 < w.len() ==> s->Some_0.segment->Some_0.next_segment == Some(w[i + 1]))
                    &&& (i + 1 == w.len() ==> s->Some_0.segment->Some_0.next_segment is None)
                }
        }),
{
    let len = v.len();
    let s0 = snake_at(rows, v[0])->Some_0;
    let g0 = segment_at(rows, v[0])->Some_0;
    let head = Snake {
        species: s0.species,
        segment: Some(SnakeSegment { kind: SnakeSegmentKind::Head { last_feeding: g0.kind->last_feeding }, next_segment: Some(v[0]) }),
    };
    let r1 = with_snake(rows, target, head);
    let r2 = demote(r1, v[0]);
    let tail = v[len - 1];
    let r3 = with_animal(r2, tail, CellAnimal::Empty);
    let new_tail = if len == 1 {
        target
    } else {
        v[len - 2]
    };
    let r4 = clear_next(r3, new_tail);
    assert(r4 == move_result(rows, v, target));
    let w = moved_points(v, target);
    assert(in_map(v[0], n));
    assert(in_map(tail, n));
    assert(in_map(new_tail, n));
    assert forall|i: int| 0 <= i < len implies #[trigger] v[i] != target by {
        assert(in_map(v[i], n));
        if i > 0 {
            assert(snake_at(rows, v[i]) is Some);
        }
    }
    assert forall|i: int|
        0 <= i < w.len() implies {
            let s = #[trigger] snake_at(r4, w[i]);
            &&& s is Some
            &&& s->Some_0.species == s0.species
            &&& s->Some_0.segment is Some
            &&& (i == 0 ==> s->Some_0.segment->Some_0.kind == g0.kind)
            &&& (i > 0 ==> s->Some_0.segment->Some_0.kind is Body)
            &&& (i + 1 < w.len() ==> s->Some_0.segment->Some_0.next_segment == Some(w[i + 1]))
            &&& (i + 1 == w.len() ==> s->Some_0.segment->Some_0.next_segment is None)
        } by {
        let q = w[i];
        if i == 0 {
            assert(q == target);
        } else {
            assert(q == v[i - 1]);
            assert(in_map(v[i - 1], n));
        }
        assert(in_map(q, n));
        lemma_with_animal(rows, n, target, q, CellAnimal::Snake(head));
        lemma_with_animal(rows, n, target, v[0], CellAnimal::Snake(head));
        lemma_demote(r1, n, v[0], q);
        lemma_with_animal(r2, n, tail, q, CellAnimal::Empty);
        lemma_with_animal(r2, n, tail, new_tail, CellAnimal::Empty);
        lemma_demote(r1, n, v[0], new_tail);
        lemma_with_animal(rows, n, target, new_tail, CellAnimal::Snake(head));
        lemma_clear_next(r3, n, new_tail, q);
        if i > 0 {
            assert(q != tail);
        }
        if len > 1 {
            assert(new_tail != tail);
        }
    }
}

/// Eating keeps a snake well formed: the new head, fed at `now`, links to the old
/// head, which becomes a body with its link kept; the prey's cell empties and no
/// other cell changes.
pub proof fn fed_snake_grows_at_its_head(rows: Seq<Seq<Cell>>, n: int, head: Point, new_head: Point, food: Point, now: u64)
    requires
        is_grid(rows, n),
        eat_check(rows, n, head, new_head, food),
    ensures
        ({
            let r = eat_result(rows, head, new_head, food, now);
            let s = snake_at(rows, head)->Some_0;
            let g = segment_at(rows, head)->Some_0;
            &&& snake_at(r, new_head) == Some(
                Snake {
                    species: s.species,
                    segment: Some(SnakeSegment { kind: SnakeSegmentKind::Head { last_feeding: now }, next_segment: Some(head) }),
                },
            )
            &&& snake_at(r, head) == Some(
                Snake { segment: Some(SnakeSegment { kind: SnakeSegmentKind::Body, ..g }), ..s },
            )
            &&& cell_of(r, food).animal is Empty
            &&& forall|q: Point| in_map(q, n) && q != head && q != new_head && q != food ==> #[trigger] cell_of(r, q) == cell_of(rows, q)
        }),
{
    let s = snake_at(rows, head)->Some_0;
    let grown = Snake {
        species: s.species,
        segment: Some(SnakeSegment { kind: SnakeSegmentKind::Head { last_feeding: now }, next_segment: Some(head) }),
    };
    let r1 = demote(rows, head);
    let r2 = with_snake(r1, new_head, grown);
    lemma_demote(rows, n, head, head);
    lemma_demote(rows, n, head, new_head);
    lemma_with_animal(r1, n, new_head, new_head, CellAnimal::Snake(grown));
    lemma_with_animal(r1, n, new_head, head, CellAnimal::Snake(grown));
    lemma_with_animal(r2, n, food, head, CellAnimal::Empty);
    lemma_with_animal(r2, n, food, new_head, CellAnimal::Empty);
    lemma_with_animal(r2, n, food, food, CellAnimal::Empty);
    assert forall|q: Point| in_map(q, n) && q != head && q != new_head && q != food implies #[trigger] cell_of(
        eat_result(rows, head, new_head, food, now),
        q,
    ) == cell_of(rows, q) by {
        lemma_demote(rows, n, head, q);
        lemma_with_animal(r1, n, new_head, q, CellAnimal::Snake(grown));
        lemma_with_animal(r2, n, food, q, CellAnimal::Empty);
    }
}

} // verus!
