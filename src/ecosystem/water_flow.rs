use vstd::prelude::*;
use vstd::arithmetic::div_mod::lemma_fundamental_div_mod_converse;
use crate::cell::Cell;
use crate::cell::cell_water::CellWater;
use crate::grid::{flow_rows, FlowArray};
use crate::map::{next_version, World};
use crate::point::{dist, in_circle, in_map, Point};

verus! {

/// A cell that may receive water from a source cell.
#[derive(Debug, Clone, Copy, PartialEq, Eq, Structural)]
pub struct WaterFlowTarget {
    pub coordinates: Point,
    /// Source height minus target height: positive means the target is lower.
    pub fall: i16,
}

/// The cells that may receive water from one source, in priority order.
#[derive(Debug, Clone)]
pub struct WaterFlow {
    pub targets: Vec<WaterFlowTarget>,
}

/// Moves water downhill, one level per source and tick, along a plan computed once
/// from the height field.
#[derive(Debug)]
pub struct WaterFlowSystem {
    water_flows: FlowArray,
    size: usize,
    water_thickness: i16,
}

/// A candidate target with its sort key: distance, then target height.
type FlowCandidate = (usize, u8, WaterFlowTarget);

pub open spec fn height_at(rows: Seq<Seq<Cell>>, p: Point) -> int {
    rows[p.y as int][p.x as int].height as int
}

pub open spec fn water_at(rows: Seq<Seq<Cell>>, p: Point) -> CellWater {
    rows[p.y as int][p.x as int].water
}

/// The cells after the water of the cell at `p` became `w`.
pub open spec fn with_water(rows: Seq<Seq<Cell>>, p: Point, w: CellWater) -> Seq<Seq<Cell>> {
    rows.update(
        p.y as int,
        rows[p.y as int].update(p.x as int, Cell { water: w, ..rows[p.y as int][p.x as int] }),
    )
}

/// The point that the flat, row by row index `k` stands for.
pub open spec fn point_of(k: int, n: int) -> Point {
    Point { x: (k % n) as isize, y: (k / n) as isize }
}

pub open spec fn index_of(p: Point, n: int) -> int {
    p.y * n + p.x
}

/// `t` may receive water from `s`: within `radius`, and not higher than `s` by a
/// water thickness or more (deep water floods uphill by less than that).
pub open spec fn is_flow_target(
    rows: Seq<Seq<Cell>>,
    n: int,
    radius: int,
    thickness: int,
    s: Point,
    t: WaterFlowTarget,
) -> bool {
    &&& in_circle(s, radius, n, t.coordinates)
    &&& t.fall == height_at(rows, s) - height_at(rows, t.coordinates)
    &&& t.fall > -thickness
}

/// Targets come by increasing distance, then by increasing height.
pub open spec fn flow_order(rows: Seq<Seq<Cell>>, s: Point, a: WaterFlowTarget, b: WaterFlowTarget) -> bool {
    dist(s, a.coordinates) < dist(s, b.coordinates) || (dist(s, a.coordinates) == dist(
        s,
        b.coordinates,
    ) && height_at(rows, a.coordinates) <= height_at(rows, b.coordinates))
}

/// `targets` is the priority list of source `s`.
pub open spec fn is_flow_plan(
    rows: Seq<Seq<Cell>>,
    n: int,
    radius: int,
    thickness: int,
    s: Point,
    targets: Seq<WaterFlowTarget>,
) -> bool {
    &&& forall|a: int| 0 <= a < targets.len() ==> is_flow_target(rows, n, radius, thickness, s, #[trigger] targets[a])
    &&& forall|p: Point|
        #[trigger] in_circle(s, radius, n, p) && height_at(rows, s) - height_at(rows, p) > -thickness
            ==> exists|a: int| 0 <= a < targets.len() && targets[a].coordinates == p
    &&& forall|a: int, b: int| 0 <= a < b < targets.len() ==> flow_order(rows, s, #[trigger] targets[a], #[trigger] targets[b])
    &&& forall|a: int, b: int|
        0 <= a < b < targets.len() ==> (#[trigger] targets[a]).coordinates != (#[trigger] targets[b]).coordinates
}

/// The least fall that moves one level of water from a source left with `drier` to a
/// target that would hold `wetter`: higher-energy transfers need more head.
pub open spec fn min_fall(drier: CellWater, wetter: CellWater, thickness: int) -> int {
    match (drier, wetter) {
        (CellWater::Empty, CellWater::Shallow) => 0,
        (CellWater::Empty, CellWater::Deep) => thickness,
        (CellWater::Shallow, CellWater::Shallow) => -thickness,
        _ => 0,
    }
}

pub open spec fn accepts_flow(rows: Seq<Seq<Cell>>, t: WaterFlowTarget, drier: CellWater, thickness: int) -> bool {
    &&& water_at(rows, t.coordinates).wetter_spec() is Some
    &&& t.fall > min_fall(drier, water_at(rows, t.coordinates).wetter_spec()->Some_0, thickness)
}

/// The first target from index `from` on that accepts water, or -1.
pub open spec fn first_flow(
    rows: Seq<Seq<Cell>>,
    targets: Seq<WaterFlowTarget>,
    drier: CellWater,
    thickness: int,
    from: int,
) -> int
    decreases targets.len() - from,
{
    if from < 0 || from >= targets.len() {
        -1
    } else if accepts_flow(rows, targets[from], drier, thickness) {
        from
    } else {
        first_flow(rows, targets, drier, thickness, from + 1)
    }
}

/// The cells, the received marks and whether anything moved, after source `k` had its
/// turn.
pub open spec fn flow_from(
    state: (Seq<Seq<Cell>>, Seq<bool>, bool),
    n: int,
    plan: Seq<Seq<WaterFlowTarget>>,
    thickness: int,
    k: int,
) -> (Seq<Seq<Cell>>, Seq<bool>, bool) {
    let (rows, received, moved) = state;
    let s = point_of(k, n);
    if received[k] {
        state
    } else {
        match water_at(rows, s).drier_spec() {
            None => state,
            Some(drier) => {
                let f = first_flow(rows, plan[k], drier, thickness, 0);
                if f < 0 {
                    state
                } else {
                    let t = plan[k][f].coordinates;
                    let wetter = water_at(rows, t).wetter_spec()->Some_0;
                    (
                        with_water(with_water(rows, t, wetter), s, drier),
                        received.update(index_of(t, n), true),
                        true,
                    )
                }
            },
        }
    }
}

/// The state after sources `0 .. k`, in grid order, had their turn within one tick.
pub open spec fn flow_upto(
    rows: Seq<Seq<Cell>>,
    n: int,
    plan: Seq<Seq<WaterFlowTarget>>,
    thickness: int,
    k: nat,
) -> (Seq<Seq<Cell>>, Seq<bool>, bool)
    decreases k,
{
    if k == 0 {
        (rows, Seq::new((n * n) as nat, |i: int| false), false)
    } else {
        flow_from(flow_upto(rows, n, plan, thickness, (k - 1) as nat), n, plan, thickness, k - 1)
    }
}

/// Relies on std's `slice::sort_by_key`: the candidates reordered by distance, then
/// height.
#[verifier::external_body]
fn sort_candidates(v: &mut Vec<FlowCandidate>)
    ensures
        final(v)@.to_multiset() == old(v)@.to_multiset(),
        forall|a: int, b: int|
            0 <= a < b < final(v)@.len() ==> (#[trigger] final(v)@[a]).0 < (#[trigger] final(v)@[b]).0
                || (final(v)@[a].0 == final(v)@[b].0 && final(v)@[a].1 <= final(v)@[b].1),
{
    v.sort_by_key(|c| (c.0, c.1));
}

pub proof fn lemma_index_point(i: int, j: int, n: int)
    requires
        0 <= i < n,
        0 <= j < n,
    ensures
        point_of(i * n + j, n) == (Point { x: j as isize, y: i as isize }),
        0 <= i * n + j < n * n,
{
    lemma_fundamental_div_mod_converse(i * n + j, n, i, j);
    assert(0 <= i * n + j < n * n) by (nonlinear_arith)
        requires
            0 <= i < n,
            0 <= j < n,
    ;
}

proof fn lemma_first_flow_accepts(
    rows: Seq<Seq<Cell>>,
    targets: Seq<WaterFlowTarget>,
    drier: CellWater,
    thickness: int,
    from: int,
)
    requires
        first_flow(rows, targets, drier, thickness, from) >= 0,
    ensures
        from <= first_flow(rows, targets, drier, thickness, from) < targets.len(),
        accepts_flow(rows, targets[first_flow(rows, targets, drier, thickness, from)], drier, thickness),
    decreases targets.len() - from,
{
    if from >= 0 && from < targets.len() && !accepts_flow(rows, targets[from], drier, thickness) {
        lemma_first_flow_accepts(rows, targets, drier, thickness, from + 1);
    }
}

proof fn lemma_index_in_grid(p: Point, n: int)
    requires
        in_map(p, n),
    ensures
        0 <= index_of(p, n) < n * n,
{
    assert(0 <= p.y * n + p.x < n * n) by (nonlinear_arith)
        requires
            0 <= p.x < n,
            0 <= p.y < n,
    ;
}

impl WaterFlowSystem {
    /// The plan of each source, by flat index.
    pub closed spec fn plan(&self) -> Seq<Seq<WaterFlowTarget>> {
        Seq::new(
            (self.size * self.size) as nat,
            |k: int| flow_rows(self.water_flows)[k / self.size as int][k % self.size as int],
        )
    }

    pub closed spec fn shaped(&self) -> bool {
        &&& flow_rows(self.water_flows).len() == self.size
        &&& forall|i: int| 0 <= i < self.size ==> #[trigger] flow_rows(self.water_flows)[i].len() == self.size
        &&& self.size * self.size <= isize::MAX
    }

    pub closed spec fn side(&self) -> nat {
        self.size as nat
    }

    pub closed spec fn thickness(&self) -> int {
        self.water_thickness as int
    }

    pub open spec fn wf(&self) -> bool {
        &&& self.shaped()
        &&& self.plan().len() == self.side() * self.side()
        &&& forall|k: int, a: int|
            0 <= k < self.plan().len() && 0 <= a < self.plan()[k].len() ==> in_map(
                #[trigger] self.plan()[k][a].coordinates,
                self.side() as int,
            )
        &&& 0 <= self.thickness() <= 255
    }

    /// Plan the flows of every cell of `map`: for each source, the cells within
    /// `max_radius` that are not higher by `water_thickness` or more, nearest first,
    /// then lowest first.
    pub fn new(max_radius: usize, water_thickness: u8, map: &World) -> (r: WaterFlowSystem)
        requires
            map.wf(),
            map.side() + max_radius + 1 <= isize::MAX,
        ensures
            r.wf(),
            r.side() == map.side(),
            r.thickness() == water_thickness,
            forall|k: int|
                0 <= k < map.side() * map.side() ==> is_flow_plan(
                    map@,
                    map.side() as int,
                    max_radius as int,
                    water_thickness as int,
                    point_of(k, map.side() as int),
                    #[trigger] r.plan()[k],
                ),
    {
        let flows = Self::determine_water_flows(max_radius, water_thickness, map);
        let ghost fl = flows@;
        let size = map.size();
        let r = WaterFlowSystem {
            water_flows: FlowArray::from_flows(size, flows),
            size,
            water_thickness: water_thickness as i16,
        };
        assert forall|k: int| 0 <= k < size * size implies #[trigger] r.plan()[k] == fl[k]@ by {
            crate::ecosystem::water_cycle::lemma_div_below(k, size as int);
            assert((k / size as int) * size + k % size as int == k) by (nonlinear_arith)
                requires
                    k == size * (k / size as int) + k % size as int,
            ;
        }
        assert forall|k: int, a: int|
            0 <= k < r.plan().len() && 0 <= a < r.plan()[k].len() implies in_map(
            #[trigger] r.plan()[k][a].coordinates,
            r.side() as int,
        ) by {
            assert(r.plan()[k] == fl[k]@);
        }
        r
    }

    fn determine_water_flows(max_radius: usize, water_thickness: u8, map: &World) -> (r: Vec<WaterFlow>)
        requires
            map.wf(),
            map.side() + max_radius + 1 <= isize::MAX,
        ensures
            r@.len() == map.side() * map.side(),
            forall|k: int|
                0 <= k < map.side() * map.side() ==> is_flow_plan(
                    map@,
                    map.side() as int,
                    max_radius as int,
                    water_thickness as int,
                    point_of(k, map.side() as int),
                    #[trigger] r@[k]@,
                ),
    {
        let n = map.size();
        let mut flows: Vec<WaterFlow> = Vec::new();
        let mut i: usize = 0;
        while i < n
            invariant
                n == map.side(),
                map.wf(),
                map.side() + max_radius + 1 <= isize::MAX,
                i <= n,
                flows@.len() == i * n,
                forall|k: int|
                    0 <= k < flows@.len() ==> is_flow_plan(
                        map@,
                        n as int,
                        max_radius as int,
                        water_thickness as int,
                        point_of(k, n as int),
                        #[trigger] flows@[k]@,
                    ),
            decreases n - i,
        {
            let mut j: usize = 0;
            while j < n
                invariant
                    n == map.side(),
                    map.wf(),
                    map.side() + max_radius + 1 <= isize::MAX,
                    i < n,
                    j <= n,
                    flows@.len() == i * n + j,
                    forall|k: int|
                        0 <= k < flows@.len() ==> is_flow_plan(
                            map@,
                            n as int,
                            max_radius as int,
                            water_thickness as int,
                            point_of(k, n as int),
                            #[trigger] flows@[k]@,
                        ),
                decreases n - j,
            {
                proof {
                    lemma_index_point(i as int, j as int, n as int);
                }
                let source = Point { x: j as isize, y: i as isize };
                let targets = Self::source_targets(max_radius, water_thickness, map, source);
                flows.push(WaterFlow { targets });
                j = j + 1;
            }
            assert((i + 1) * n == i * n + n) by (nonlinear_arith);
            i = i + 1;
        }
        flows
    }

    /// The priority list of one source.
    fn source_targets(max_radius: usize, water_thickness: u8, map: &World, source: Point) -> (r: Vec<
        WaterFlowTarget,
    >)
        requires
            map.wf(),
            map.side() + max_radius + 1 <= isize::MAX,
            in_map(source, map.side() as int),
        ensures
            is_flow_plan(
                map@,
                map.side() as int,
                max_radius as int,
                water_thickness as int,
                source,
                r@,
            ),
    {
        let ghost rows = map@;
        let ghost n = map.side() as int;
        let ghost radius = max_radius as int;
        let ghost thick = water_thickness as int;
        let height = match map.cell(source) {
            Some(cell) => cell.height as i16,
            None => 0,
        };
        let points = source.circle(max_radius, map.size()).into_vec();
        let mut candidates: Vec<FlowCandidate> = Vec::new();
        let mut q: usize = 0;
        while q < points.len()
            invariant
                map.wf(),
                rows == map@,
                n == map.side(),
                radius == max_radius,
                thick == water_thickness,
                in_map(source, n),
                height == height_at(rows, source),
                forall|p: Point| points@.contains(p) <==> in_circle(source, radius, n, p),
                points@.no_duplicates(),
                q <= points@.len(),
                forall|c: int|
                    0 <= c < candidates@.len() ==> exists|e: int| 0 <= e < q && points@[e] == (#[trigger] candidates@[c]).2.coordinates,
                forall|c: int, d: int|
                    0 <= c < d < candidates@.len() ==> (#[trigger] candidates@[c]).2.coordinates != (#[trigger] candidates@[d]).2.coordinates,
                forall|c: int|
                    0 <= c < candidates@.len() ==> {
                        let cand = #[trigger] candidates@[c];
                        &&& is_flow_target(rows, n, radius, thick, source, cand.2)
                        &&& cand.0 == dist(source, cand.2.coordinates)
                        &&& cand.1 == height_at(rows, cand.2.coordinates)
                    },
                forall|e: int|
                    0 <= e < q && height_at(rows, source) - height_at(rows, #[trigger] points@[e]) > -thick
                        ==> exists|c: int| 0 <= c < candidates@.len() && candidates@[c].2.coordinates == points@[e],
            decreases points@.len() - q,
        {
            let p = points[q];
            assert(points@.contains(p));
            let target_height = match map.cell(p) {
                Some(cell) => cell.height,
                None => 0,
            };
            let fall = height - target_height as i16;
            if fall > -(water_thickness as i16) {
                let distance = source.distance(p);
                let ghost before = candidates@;
                candidates.push((distance, target_height, WaterFlowTarget { coordinates: p, fall }));
                assert forall|e: int|
                    0 <= e < q + 1 && height_at(rows, source) - height_at(rows, #[trigger] points@[e]) > -thick
                        implies exists|c: int| 0 <= c < candidates@.len() && candidates@[c].2.coordinates == points@[e] by {
                    if e == q {
                        assert(candidates@[before.len() as int].2.coordinates == points@[e]);
                    } else {
                        let c = choose|c: int| 0 <= c < before.len() && before[c].2.coordinates == points@[e];
                        assert(candidates@[c] == before[c]);
                    }
                }
                assert forall|c: int| 0 <= c < candidates@.len() implies exists|e: int| 0 <= e < q + 1 && points@[e] == (#[trigger] candidates@[c]).2.coordinates by {
                    if c < before.len() {
                        assert(candidates@[c] == before[c]);
                    } else {
                        assert(points@[q as int] == candidates@[c].2.coordinates);
                    }
                }
                assert forall|c: int, d: int| 0 <= c < d < candidates@.len() implies (#[trigger] candidates@[c]).2.coordinates != (#[trigger] candidates@[d]).2.coordinates by {
                    if d == before.len() {
                        assert(candidates@[c] == before[c]);
                        let e = choose|e: int| 0 <= e < q && points@[e] == before[c].2.coordinates;
                        assert(points@[e] != points@[q as int]);
                    } else {
                        assert(candidates@[c] == before[c]);
                        assert(candidates@[d] == before[d]);
                    }
                }
            }
            q = q + 1;
        }
        let ghost unsorted = candidates@;
        sort_candidates(&mut candidates);
        proof {
            unsorted.to_multiset_ensures();
            candidates@.to_multiset_ensures();
            assert(unsorted.no_duplicates());
            unsorted.lemma_multiset_has_no_duplicates();
            assert forall|x: FlowCandidate| candidates@.to_multiset().contains(x) implies candidates@.to_multiset().count(x) == 1 by {
                assert(unsorted.to_multiset().contains(x));
            }
            candidates@.lemma_multiset_has_no_duplicates_conv();
        }
        let mut targets: Vec<WaterFlowTarget> = Vec::new();
        let mut c: usize = 0;
        while c < candidates.len()
            invariant
                c <= candidates@.len(),
                targets@.len() == c,
                forall|a: int| 0 <= a < c ==> #[trigger] targets@[a] == candidates@[a].2,
            decreases candidates@.len() - c,
        {
            targets.push(candidates[c].2);
            c = c + 1;
        }
        proof {
            assert forall|a: int| 0 <= a < candidates@.len() implies {
                let cand = #[trigger] candidates@[a];
                &&& is_flow_target(rows, n, radius, thick, source, cand.2)
                &&& cand.0 == dist(source, cand.2.coordinates)
                &&& cand.1 == height_at(rows, cand.2.coordinates)
            } by {
                assert(candidates@.contains(candidates@[a]));
                assert(candidates@.to_multiset().count(candidates@[a]) > 0);
                assert(unsorted.to_multiset().count(candidates@[a]) > 0);
                assert(unsorted.contains(candidates@[a]));
            }
            assert forall|a: int| 0 <= a < targets@.len() implies is_flow_target(rows, n, radius, thick, source, #[trigger] targets@[a]) by {
                assert(targets@[a] == candidates@[a].2);
            }
            assert forall|p: Point|
                #[trigger] in_circle(source, radius, n, p) && height_at(rows, source) - height_at(rows, p) > -thick
                    implies exists|a: int| 0 <= a < targets@.len() && targets@[a].coordinates == p by {
                assert(points@.contains(p));
                let e = choose|e: int| 0 <= e < points@.len() && points@[e] == p;
                let u = choose|u: int| 0 <= u < unsorted.len() && unsorted[u].2.coordinates == points@[e];
                assert(unsorted.contains(unsorted[u]));
                assert(unsorted.to_multiset().count(unsorted[u]) > 0);
                assert(candidates@.to_multiset().count(unsorted[u]) > 0);
                assert(candidates@.contains(unsorted[u]));
                let a = choose|a: int| 0 <= a < candidates@.len() && candidates@[a] == unsorted[u];
                assert(targets@[a] == candidates@[a].2);
            }
            assert forall|a: int, b: int| 0 <= a < b < targets@.len() implies (#[trigger] targets@[a]).coordinates != (#[trigger] targets@[b]).coordinates by {
                assert(targets@[a] == candidates@[a].2);
                assert(targets@[b] == candidates@[b].2);
                let ca = candidates@[a];
                let cb = candidates@[b];
                assert(candidates@.contains(ca) && candidates@.contains(cb));
                assert(candidates@.to_multiset().count(ca) > 0);
                assert(candidates@.to_multiset().count(cb) > 0);
                assert(unsorted.contains(ca) && unsorted.contains(cb));
                if ca.2.coordinates == cb.2.coordinates {
                    assert(ca == cb);
                }
            }
            assert forall|a: int, b: int| 0 <= a < b < targets@.len() implies flow_order(rows, source, #[trigger] targets@[a], #[trigger] targets@[b]) by {
                assert(targets@[a] == candidates@[a].2);
                assert(targets@[b] == candidates@[b].2);
                let ca = candidates@[a];
                let cb = candidates@[b];
                assert(ca.0 < cb.0 || (ca.0 == cb.0 && ca.1 <= cb.1));
            }
        }
        targets
    }
}

impl WaterFlowSystem {
    /// One tick: each source that has not received water this tick, in grid order,
    /// gives one level of water to the first target of its plan that takes it. Returns
    /// whether any water moved; if so the version advances.
    pub fn flow(&self, map: &mut World, now: u64) -> (r: bool)
        requires
            self.wf(),
            old(map).wf(),
            old(map).side() == self.side(),
            old(map).version() < u64::MAX,
        ensures
            final(map).wf(),
            final(map).side() == old(map).side(),
            final(map)@ == flow_upto(
                old(map)@,
                self.side() as int,
                self.plan(),
                self.thickness(),
                self.side() * self.side(),
            ).0,
            r == flow_upto(
                old(map)@,
                self.side() as int,
                self.plan(),
                self.thickness(),
                self.side() * self.side(),
            ).2,
            r ==> final(map).version() == next_version(old(map).version(), now),
            !r ==> final(map).version() == old(map).version() && final(map)@ == old(map)@,
    {
        let ghost rows0 = map@;
        let ghost plan = self.plan();
        let ghost th = self.thickness();
        let n = self.size;
        let total = n * n;
        let mut received: Vec<bool> = Vec::new();
        while received.len() < total
            invariant
                received@.len() <= total,
                forall|a: int| 0 <= a < received@.len() ==> !#[trigger] received@[a],
            decreases total - received@.len(),
        {
            received.push(false);
        }
        assert(received@ =~= flow_upto(rows0, n as int, plan, th, 0).1);
        assert(n <= isize::MAX) by (nonlinear_arith)
            requires
                n * n <= isize::MAX,
        ;
        let mut moved = false;
        let mut i: usize = 0;
        let mut k: usize = 0;
        while i < n
            invariant
                self.wf(),
                n == self.side(),
                total == n * n,
                n <= isize::MAX,
                plan == self.plan(),
                th == self.thickness(),
                map.wf(),
                map.side() == n,
                map.version() == old(map).version(),
                old(map).version() < u64::MAX,
                i <= n,
                k == i * n,
                received@.len() == total,
                (map@, received@, moved) == flow_upto(rows0, n as int, plan, th, k as nat),
                !moved ==> map@ == rows0,
            decreases n - i,
        {
            let mut j: usize = 0;
            while j < n
                invariant
                    self.wf(),
                    n == self.side(),
                    total == n * n,
                    n <= isize::MAX,
                    plan == self.plan(),
                    th == self.thickness(),
                    map.wf(),
                    map.side() == n,
                    map.version() == old(map).version(),
                    i < n,
                    j <= n,
                    k == i * n + j,
                    received@.len() == total,
                    (map@, received@, moved) == flow_upto(rows0, n as int, plan, th, k as nat),
                    !moved ==> map@ == rows0,
                decreases n - j,
            {
                proof {
                    lemma_index_point(i as int, j as int, n as int);
                }
                let ghost before = (map@, received@, moved);
                let source = Point { x: j as isize, y: i as isize };
                if !received[k] {
                    let cell = match map.cell(source) {
                        Some(cell) => cell,
                        None => Cell::empty(0),
                    };
                    assert(source == point_of(k as int, n as int));
                    assert(cell == before.0[i as int][j as int]);
                    match cell.water.drier() {
                        None => {},
                        Some(drier) => {
                            let targets = self.water_flows.targets(i, j);
                            assert(targets@ == plan[k as int]);
                            match Self::find_flow_target(map, targets, drier, self.water_thickness) {
                                None => {},
                                Some(f) => {
                                    let t = targets[f].coordinates;
                                    assert(in_map(plan[k as int][f as int].coordinates, n as int));
                                    let target_cell = match map.cell(t) {
                                        Some(c) => c,
                                        None => Cell::empty(0),
                                    };
                                    assert(target_cell == before.0[t.y as int][t.x as int]);
                                    proof {
                                        lemma_first_flow_accepts(before.0, plan[k as int], drier, th, 0);
                                    }
                                    match target_cell.water.wetter() {
                                        None => {},
                                        Some(wetter) => {
                                            map.set_cell(t, Cell { water: wetter, ..target_cell });
                                            let source_cell = match map.cell(source) {
                                                Some(c) => c,
                                                None => Cell::empty(0),
                                            };
                                            map.set_cell(source, Cell { water: drier, ..source_cell });
                                            proof {
                                                lemma_index_in_grid(t, n as int);
                                            }
                                            received.set(t.y as usize * n + t.x as usize, true);
                                            moved = true;
                                            assert(source == point_of(k as int, n as int));
                                            assert(cell == before.0[i as int][j as int]);
                                            assert(f as int == first_flow(before.0, plan[k as int], drier, th, 0));
                                            assert(t == plan[k as int][f as int].coordinates);
                                            assert(target_cell == before.0[t.y as int][t.x as int]);
                                            assert(map@ == with_water(with_water(before.0, t, wetter), source, drier));
                                            assert(received@ == before.1.update(index_of(t, n as int), true));
                                        },
                                    }
                                },
                            }
                        },
                    }
                }
                assert((map@, received@, moved) == flow_from(before, n as int, plan, th, k as int));
                j = j + 1;
                k = k + 1;
            }
            assert((i + 1) * n == i * n + n) by (nonlinear_arith);
            i = i + 1;
        }
        if moved {
            map.notify_update(now);
        }
        moved
    }

    /// The first of `targets` that takes water from a source left with `drier`.
    fn find_flow_target(map: &World, targets: &Vec<WaterFlowTarget>, drier: CellWater, thickness: i16) -> (r: Option<usize>)
        requires
            map.wf(),
            forall|a: int| 0 <= a < targets@.len() ==> in_map(#[trigger] targets@[a].coordinates, map.side() as int),
        ensures
            r is None <==> first_flow(map@, targets@, drier, thickness as int, 0) < 0,
            r is Some ==> r->Some_0 == first_flow(map@, targets@, drier, thickness as int, 0)
                && r->Some_0 < targets@.len(),
    {
        let mut f: usize = 0;
        while f < targets.len()
            invariant
                map.wf(),
                forall|a: int| 0 <= a < targets@.len() ==> in_map(#[trigger] targets@[a].coordinates, map.side() as int),
                f <= targets@.len(),
                first_flow(map@, targets@, drier, thickness as int, 0) == first_flow(map@, targets@, drier, thickness as int, f as int),
            decreases targets@.len() - f,
        {
            let t = targets[f];
            let cell = match map.cell(t.coordinates) {
                Some(c) => c,
                None => Cell::empty(0),
            };
            match cell.water.wetter() {
                Some(wetter) => {
                    if t.fall as i32 > min_fall_of(drier, wetter, thickness) {
                        return Some(f);
                    }
                },
                None => {},
            }
            f = f + 1;
        }
        None
    }
}

fn min_fall_of(drier: CellWater, wetter: CellWater, thickness: i16) -> (r: i32)
    ensures
        r == min_fall(drier, wetter, thickness as int),
{
    match (drier, wetter) {
        (CellWater::Empty, CellWater::Shallow) => 0,
        (CellWater::Empty, CellWater::Deep) => thickness as i32,
        (CellWater::Shallow, CellWater::Shallow) => -(thickness as i32),
        _ => 0,
    }
}

impl View for WaterFlow {
    type V = Seq<WaterFlowTarget>;

    open spec fn view(&self) -> Seq<WaterFlowTarget> {
        self.targets@
    }
}

} // verus!
