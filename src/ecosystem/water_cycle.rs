use vstd::prelude::*;
use rand::rngs::SmallRng;
use crate::cell::Cell;
use crate::cell::cell_water::CellWater;
use crate::ecosystem::simple_animal::cell_of;
use crate::ecosystem::snake::is_grid;
use crate::ecosystem::water_flow::{index_of, point_of, water_at, with_water};
use crate::point::dist;
use crate::map::{next_version, World};
use crate::point::{in_circle, in_map, on_circumference, Point};
use crate::random::{new_rng, random_below, random_ratio, shuffle};

verus! {

/// Evaporation and rain over an atmospheric reservoir of water levels.
#[derive(Debug)]
pub struct WaterCycleSystem {
    pub max_rain_radius: usize,
    pub atmosphere_water: i64,
    pub rng: SmallRng,
}

/// The cells and the rain still to fall after rain fell on `candidates` in order:
/// each cell that can get wetter does, while rain remains.
pub open spec fn rain_on(rows: Seq<Seq<Cell>>, candidates: Seq<Point>, remaining: int) -> (Seq<Seq<Cell>>, int)
    decreases candidates.len(),
{
    if candidates.len() == 0 {
        (rows, remaining)
    } else {
        let (r, left) = rain_on(rows, candidates.drop_last(), remaining);
        let p = candidates.last();
        if left <= 0 {
            (r, left)
        } else {
            match water_at(r, p).wetter_spec() {
                Some(w) => (with_water(r, p, w), left - 1),
                None => (r, left),
            }
        }
    }
}

/// One level of water less, or the same.
pub open spec fn dried_or_same(before: Cell, after: Cell) -> bool {
    after == before || (before.water.drier_spec() is Some && after == Cell {
        water: before.water.drier_spec()->Some_0,
        ..before
    })
}

/// One level of water more, or the same.
pub open spec fn wetted_or_same(before: Cell, after: Cell) -> bool {
    after == before || (before.water.wetter_spec() is Some && after == Cell {
        water: before.water.wetter_spec()->Some_0,
        ..before
    })
}

proof fn lemma_with_water(rows: Seq<Seq<Cell>>, n: int, p: Point, q: Point, w: CellWater)
    requires
        is_grid(rows, n),
        in_map(p, n),
        in_map(q, n),
    ensures
        is_grid(with_water(rows, p, w), n),
        cell_of(with_water(rows, p, w), q) == if p == q {
            Cell { water: w, ..cell_of(rows, p) }
        } else {
            cell_of(rows, q)
        },
{
    let r = with_water(rows, p, w);
    assert forall|i: int| 0 <= i < n implies #[trigger] r[i].len() == n by {
        assert(rows[i].len() == n);
    }
    if p != q && p.y == q.y {
        assert(p.x != q.x);
    }
}

/// Rain on a list without repeats wets each listed cell at most once and no other.
proof fn lemma_rain_on_effect(rows: Seq<Seq<Cell>>, n: int, candidates: Seq<Point>, remaining: int)
    requires
        is_grid(rows, n),
        candidates.no_duplicates(),
        forall|i: int| 0 <= i < candidates.len() ==> in_map(#[trigger] candidates[i], n),
    ensures
        is_grid(rain_on(rows, candidates, remaining).0, n),
        forall|q: Point|
            in_map(q, n) && !candidates.contains(q) ==> #[trigger] cell_of(rain_on(rows, candidates, remaining).0, q)
                == cell_of(rows, q),
        forall|q: Point|
            in_map(q, n) && candidates.contains(q) ==> wetted_or_same(
                cell_of(rows, q),
                #[trigger] cell_of(rain_on(rows, candidates, remaining).0, q),
            ),
    decreases candidates.len(),
{
    if candidates.len() > 0 {
        let front = candidates.drop_last();
        let p = candidates.last();
        assert forall|i: int| 0 <= i < front.len() implies in_map(#[trigger] front[i], n) by {
            assert(front[i] == candidates[i]);
        }
        assert(front.no_duplicates()) by {
            assert forall|i: int, j: int| 0 <= i < front.len() && 0 <= j < front.len() && i != j implies front[i] != front[j] by {
                assert(front[i] == candidates[i]);
                assert(front[j] == candidates[j]);
            }
        }
        lemma_rain_on_effect(rows, n, front, remaining);
        assert(in_map(candidates[candidates.len() - 1], n));
        assert(!front.contains(p)) by {
            if front.contains(p) {
                let i = choose|i: int| 0 <= i < front.len() && front[i] == p;
                assert(candidates[i] == candidates[candidates.len() - 1]);
            }
        }
        let (r, left) = rain_on(rows, front, remaining);
        assert forall|q: Point| in_map(q, n) implies {
            &&& (!candidates.contains(q) ==> #[trigger] cell_of(rain_on(rows, candidates, remaining).0, q) == cell_of(rows, q))
            &&& (candidates.contains(q) ==> wetted_or_same(cell_of(rows, q), cell_of(rain_on(rows, candidates, remaining).0, q)))
        } by {
            if left > 0 && water_at(r, p).wetter_spec() is Some {
                lemma_with_water(r, n, p, q, water_at(r, p).wetter_spec()->Some_0);
            }
            if q != p {
                if candidates.contains(q) {
                    let i = choose|i: int| 0 <= i < candidates.len() && candidates[i] == q;
                    assert(front[i] == q);
                } else {
                    assert(!front.contains(q)) by {
                        if front.contains(q) {
                            let i = choose|i: int| 0 <= i < front.len() && front[i] == q;
                            assert(candidates[i] == q);
                        }
                    }
                }
            } else {
                assert(candidates[candidates.len() - 1] == q);
            }
        }
        if left > 0 && water_at(r, p).wetter_spec() is Some {
            lemma_with_water(r, n, p, p, water_at(r, p).wetter_spec()->Some_0);
        }
    }
}

/// A cell after evaporation: one level drier if the draw fired and it had water.
pub open spec fn evaporated(cell: Cell, draw: bool) -> Cell {
    if draw && cell.water.drier_spec() is Some {
        Cell { water: cell.water.drier_spec()->Some_0, ..cell }
    } else {
        cell
    }
}

/// The number of cells among the first `k`, row by row, that differ between the two
/// grids.
pub open spec fn changed_count(before: Seq<Seq<Cell>>, after: Seq<Seq<Cell>>, n: int, k: nat) -> int
    decreases k,
{
    if k == 0 {
        0
    } else {
        changed_count(before, after, n, (k - 1) as nat) + if cell_of(after, point_of(k - 1, n)) != cell_of(
            before,
            point_of(k - 1, n),
        ) {
            1int
        } else {
            0int
        }
    }
}

proof fn lemma_changed_count_zero(base: Seq<Seq<Cell>>, n: int, k: nat)
    ensures
        changed_count(base, base, n, k) == 0,
    decreases k,
{
    if k > 0 {
        lemma_changed_count_zero(base, n, (k - 1) as nat);
    }
}

pub(crate) proof fn lemma_div_below(k: int, n: int)
    requires
        n > 0,
        0 <= k < n * n,
    ensures
        0 <= k / n < n,
        0 <= k % n < n,
        k == n * (k / n) + k % n,
{
    vstd::arithmetic::div_mod::lemma_fundamental_div_mod(k, n);
    vstd::arithmetic::div_mod::lemma_mod_pos_bound(k, n);
    vstd::arithmetic::div_mod::lemma_div_pos_is_pos(k, n);
    let q = k / n;
    let r = k % n;
    assert(q < n) by (nonlinear_arith)
        requires
            k == n * q + r,
            0 <= r,
            k < n * n,
            n > 0,
    ;
}

proof fn lemma_point_of_index(k: int, n: int)
    requires
        n > 0,
        n <= isize::MAX,
        0 <= k < n * n,
    ensures
        in_map(point_of(k, n), n),
        index_of(point_of(k, n), n) == k,
{
    lemma_div_below(k, n);
    let q = k / n;
    let r = k % n;
    assert(q * n == n * q) by (nonlinear_arith);
}

proof fn lemma_index_in_map(p: Point, n: int)
    requires
        in_map(p, n),
    ensures
        0 <= index_of(p, n) < n * n,
        point_of(index_of(p, n), n) == p,
{
    crate::ecosystem::water_flow::lemma_index_point(p.y as int, p.x as int, n);
}

proof fn lemma_index_injective_grid(p: Point, q: Point, n: int)
    requires
        in_map(p, n),
        in_map(q, n),
        index_of(p, n) == index_of(q, n),
    ensures
        p == q,
{
    lemma_index_in_map(p, n);
    lemma_index_in_map(q, n);
}

/// Counting the first `k` cells, then the one at `p`, whose index is `k`, after a
/// write to `p` alone.
proof fn lemma_changed_count_agree(before: Seq<Seq<Cell>>, mid: Seq<Seq<Cell>>, after: Seq<Seq<Cell>>, n: int, k: nat, p: Point)
    requires
        n > 0,
        n <= isize::MAX,
        k < n * n,
        in_map(p, n),
        index_of(p, n) == k,
        forall|q: Point| in_map(q, n) && q != p ==> #[trigger] cell_of(after, q) == cell_of(mid, q),
    ensures
        changed_count(before, after, n, k) == changed_count(before, mid, n, k),
    decreases k,
{
    if k > 0 {
        lemma_changed_count_agree_prefix(before, mid, after, n, (k - 1) as nat, p);
    }
}

proof fn lemma_changed_count_agree_prefix(before: Seq<Seq<Cell>>, mid: Seq<Seq<Cell>>, after: Seq<Seq<Cell>>, n: int, j: nat, p: Point)
    requires
        n > 0,
        n <= isize::MAX,
        in_map(p, n),
        j < index_of(p, n),
        forall|q: Point| in_map(q, n) && q != p ==> #[trigger] cell_of(after, q) == cell_of(mid, q),
    ensures
        changed_count(before, after, n, j + 1) == changed_count(before, mid, n, j + 1),
    decreases j,
{
    if j > 0 {
        lemma_changed_count_agree_prefix(before, mid, after, n, (j - 1) as nat, p);
    }
    let q = point_of(j as int, n);
    lemma_index_in_map(p, n);
    lemma_point_of_index(j as int, n);
    assert(q != p);
    assert(cell_of(after, q) == cell_of(mid, q));
    assert(changed_count(before, after, n, j + 1) == changed_count(before, after, n, j) + if cell_of(after, q) != cell_of(before, q) {
        1int
    } else {
        0int
    });
    assert(changed_count(before, mid, n, j + 1) == changed_count(before, mid, n, j) + if cell_of(mid, q) != cell_of(before, q) {
        1int
    } else {
        0int
    });
}

/// One more cell differs from `base`: the count grows by one if that cell is among
/// the first `k`.
proof fn lemma_changed_count_one_more(base: Seq<Seq<Cell>>, rows: Seq<Seq<Cell>>, next: Seq<Seq<Cell>>, n: int, k: nat, p: Point)
    requires
        n > 0,
        n <= isize::MAX,
        k <= n * n,
        in_map(p, n),
        forall|q: Point| in_map(q, n) && q != p ==> #[trigger] cell_of(next, q) == cell_of(rows, q),
        cell_of(rows, p) == cell_of(base, p),
        cell_of(next, p) != cell_of(base, p),
    ensures
        changed_count(base, next, n, k) == changed_count(base, rows, n, k) + if index_of(p, n) < k {
            1int
        } else {
            0int
        },
    decreases k,
{
    if k > 0 {
        lemma_changed_count_one_more(base, rows, next, n, (k - 1) as nat, p);
        let q = point_of(k - 1, n);
        lemma_point_of_index(k - 1, n);
        lemma_index_in_map(p, n);
        if q == p {
            assert(index_of(p, n) == k - 1);
        } else {
            assert(index_of(p, n) != k - 1);
            assert(cell_of(next, q) == cell_of(rows, q));
        }
    }
}

/// Rain on cells still as they were in `base` adds one changed cell per level that
/// fell.
proof fn lemma_rain_on_count(base: Seq<Seq<Cell>>, rows: Seq<Seq<Cell>>, n: int, candidates: Seq<Point>, remaining: int)
    requires
        n > 0,
        n <= isize::MAX,
        is_grid(rows, n),
        candidates.no_duplicates(),
        forall|i: int| 0 <= i < candidates.len() ==> in_map(#[trigger] candidates[i], n),
        forall|i: int| 0 <= i < candidates.len() ==> cell_of(rows, #[trigger] candidates[i]) == cell_of(base, candidates[i]),
    ensures
        changed_count(base, rain_on(rows, candidates, remaining).0, n, (n * n) as nat) == changed_count(
            base,
            rows,
            n,
            (n * n) as nat,
        ) + remaining - rain_on(rows, candidates, remaining).1,
        remaining <= 0 ==> rain_on(rows, candidates, remaining).1 == remaining,
    decreases candidates.len(),
{
    if candidates.len() > 0 {
        let front = candidates.drop_last();
        let p = candidates.last();
        assert forall|i: int| 0 <= i < front.len() implies in_map(#[trigger] front[i], n) by {
            assert(front[i] == candidates[i]);
        }
        assert forall|i: int| 0 <= i < front.len() implies cell_of(rows, #[trigger] front[i]) == cell_of(base, front[i]) by {
            assert(front[i] == candidates[i]);
        }
        assert(front.no_duplicates()) by {
            assert forall|i: int, j: int| 0 <= i < front.len() && 0 <= j < front.len() && i != j implies front[i] != front[j] by {
                assert(front[i] == candidates[i]);
                assert(front[j] == candidates[j]);
            }
        }
        lemma_rain_on_count(base, rows, n, front, remaining);
        lemma_rain_on_effect(rows, n, front, remaining);
        assert(in_map(candidates[candidates.len() - 1], n));
        assert(!front.contains(p)) by {
            if front.contains(p) {
                let i = choose|i: int| 0 <= i < front.len() && front[i] == p;
                assert(candidates[i] == candidates[candidates.len() - 1]);
            }
        }
        let (r, left) = rain_on(rows, front, remaining);
        assert(cell_of(r, p) == cell_of(base, p)) by {
            assert(cell_of(rows, candidates[candidates.len() - 1]) == cell_of(base, candidates[candidates.len() - 1]));
        }
        if left > 0 && water_at(r, p).wetter_spec() is Some {
            let w = water_at(r, p).wetter_spec()->Some_0;
            assert forall|q: Point| in_map(q, n) && q != p implies #[trigger] cell_of(with_water(r, p, w), q) == cell_of(r, q) by {
                lemma_with_water(r, n, p, q, w);
            }
            lemma_with_water(r, n, p, p, w);
            lemma_index_in_map(p, n);
            lemma_changed_count_one_more(base, r, with_water(r, p, w), n, (n * n) as nat, p);
        }
    }
}

/// Rain that is not used up wets every cell of the list that can get wetter, and
/// never grows.
proof fn lemma_rain_on_full(rows: Seq<Seq<Cell>>, n: int, candidates: Seq<Point>, remaining: int)
    requires
        is_grid(rows, n),
        candidates.no_duplicates(),
        forall|i: int| 0 <= i < candidates.len() ==> in_map(#[trigger] candidates[i], n),
    ensures
        rain_on(rows, candidates, remaining).1 <= remaining,
        rain_on(rows, candidates, remaining).1 > 0 ==> forall|q: Point|
            #[trigger] candidates.contains(q) && water_at(rows, q).wetter_spec() is Some ==> cell_of(
                rain_on(rows, candidates, remaining).0,
                q,
            ) == (Cell { water: water_at(rows, q).wetter_spec()->Some_0, ..cell_of(rows, q) }),
    decreases candidates.len(),
{
    if candidates.len() > 0 {
        let front = candidates.drop_last();
        let p = candidates.last();
        assert forall|i: int| 0 <= i < front.len() implies in_map(#[trigger] front[i], n) by {
            assert(front[i] == candidates[i]);
        }
        assert(front.no_duplicates()) by {
            assert forall|i: int, j: int| 0 <= i < front.len() && 0 <= j < front.len() && i != j implies front[i] != front[j] by {
                assert(front[i] == candidates[i]);
                assert(front[j] == candidates[j]);
            }
        }
        lemma_rain_on_full(rows, n, front, remaining);
        lemma_rain_on_effect(rows, n, front, remaining);
        assert(in_map(candidates[candidates.len() - 1], n));
        assert(!front.contains(p)) by {
            if front.contains(p) {
                let i = choose|i: int| 0 <= i < front.len() && front[i] == p;
                assert(candidates[i] == candidates[candidates.len() - 1]);
            }
        }
        let (r, left) = rain_on(rows, front, remaining);
        if rain_on(rows, candidates, remaining).1 > 0 {
            assert forall|q: Point|
                #[trigger] candidates.contains(q) && water_at(rows, q).wetter_spec() is Some implies cell_of(
                    rain_on(rows, candidates, remaining).0,
                    q,
                ) == (Cell { water: water_at(rows, q).wetter_spec()->Some_0, ..cell_of(rows, q) }) by {
                let i = choose|i: int| 0 <= i < candidates.len() && candidates[i] == q;
                assert(in_map(q, n));
                if left > 0 && water_at(r, p).wetter_spec() is Some {
                    lemma_with_water(r, n, p, q, water_at(r, p).wetter_spec()->Some_0);
                }
                if q != p {
                    assert(front[i] == q);
                    assert(front.contains(q));
                } else {
                    assert(cell_of(r, p) == cell_of(rows, p));
                }
            }
        }
    }
}

impl WaterCycleSystem {
    pub fn new(max_rain_radius: usize, atmosphere_water: i64) -> (r: WaterCycleSystem)
        ensures
            r.max_rain_radius == max_rain_radius,
            r.atmosphere_water == atmosphere_water,
    {
        WaterCycleSystem { max_rain_radius, atmosphere_water, rng: new_rng() }
    }

    /// Let rain fall on the candidates in order: each that can get wetter takes one
    /// level from the remaining rain and from the atmosphere, until no rain remains.
    pub fn add_rain(map: &mut World, candidates: &Vec<Point>, remaining_rain: &mut i64, atmosphere_water: &mut i64)
        requires
            old(map).wf(),
            forall|i: int| 0 <= i < candidates@.len() ==> in_map(#[trigger] candidates@[i], old(map).side() as int),
            *old(atmosphere_water) - *old(remaining_rain) >= i64::MIN,
        ensures
            final(map).wf(),
            final(map).side() == old(map).side(),
            final(map).version() == old(map).version(),
            (final(map)@, *final(remaining_rain) as int) == rain_on(old(map)@, candidates@, *old(remaining_rain) as int),
            *old(atmosphere_water) - *final(atmosphere_water) == *old(remaining_rain) - *final(remaining_rain),
            *final(remaining_rain) <= *old(remaining_rain),
            *old(remaining_rain) > 0 ==> *final(remaining_rain) >= 0,
            *old(remaining_rain) <= 0 ==> *final(remaining_rain) == *old(remaining_rain) && final(map)@ == old(map)@,
    {
        let ghost rows0 = map@;
        let ghost rain0 = *remaining_rain;
        let ghost air0 = *atmosphere_water;
        let mut i: usize = 0;
        while i < candidates.len()
            invariant
                map.wf(),
                map.side() == old(map).side(),
                map.version() == old(map).version(),
                forall|e: int| 0 <= e < candidates@.len() ==> in_map(#[trigger] candidates@[e], map.side() as int),
                i <= candidates@.len(),
                (map@, *remaining_rain as int) == rain_on(rows0, candidates@.subrange(0, i as int), rain0 as int),
                air0 - *atmosphere_water == rain0 - *remaining_rain,
                *remaining_rain <= rain0,
                rain0 > 0 ==> *remaining_rain >= 0,
                rain0 <= 0 ==> *remaining_rain == rain0 && map@ == rows0,
                air0 - rain0 >= i64::MIN,
            decreases candidates@.len() - i,
        {
            let candidate = candidates[i];
            assert(candidates@.subrange(0, i + 1).drop_last() =~= candidates@.subrange(0, i as int));
            assert(in_map(candidates@[i as int], map.side() as int));
            if *remaining_rain > 0 {
                let cell = match map.cell(candidate) {
                    Some(cell) => cell,
                    None => Cell::empty(0),
                };
                match cell.water.wetter() {
                    Some(wetter) => {
                        map.set_cell(candidate, Cell { water: wetter, ..cell });
                        *remaining_rain = *remaining_rain - 1;
                        *atmosphere_water = *atmosphere_water - 1;
                    },
                    None => {},
                }
            }
            i = i + 1;
        }
        assert(candidates@.subrange(0, candidates@.len() as int) =~= candidates@);
    }

    /// One rain tick: `rain` levels fall around a random center, ring by ring out to
    /// the maximum rain radius, in a random order within each ring. The atmosphere
    /// loses what fell; the version advances.
    pub fn rain(&mut self, map: &mut World, rain: i64, now: u64)
        requires
            old(map).wf(),
            old(map).side() > 0,
            old(map).version() < u64::MAX,
            old(map).side() + old(self).max_rain_radius + 2 <= isize::MAX,
            old(self).atmosphere_water - rain >= i64::MIN,
        ensures
            final(map).wf(),
            final(map).side() == old(map).side(),
            final(map).version() == next_version(old(map).version(), now),
            final(self).max_rain_radius == old(self).max_rain_radius,
            old(self).atmosphere_water >= final(self).atmosphere_water,
            rain > 0 ==> old(self).atmosphere_water - final(self).atmosphere_water <= rain,
            rain <= 0 ==> final(map)@ == old(map)@ && final(self).atmosphere_water == old(self).atmosphere_water,
            forall|p: Point| in_map(p, old(map).side() as int) ==> wetted_or_same(#[trigger] old(map).cell_at(p), final(map).cell_at(p)),
            old(self).atmosphere_water - final(self).atmosphere_water == changed_count(
                old(map)@,
                final(map)@,
                old(map).side() as int,
                old(map).side() * old(map).side(),
            ),
            rain > 0 && (forall|p: Point| in_map(p, old(map).side() as int) ==> #[trigger] old(map).cell_at(p).water != CellWater::Deep)
                ==> old(self).atmosphere_water - final(self).atmosphere_water >= 1,
            rain > 0 ==> old(self).atmosphere_water - final(self).atmosphere_water == rain || exists|c: Point|
                in_map(c, old(map).side() as int) && forall|p: Point|
                    #[trigger] in_circle(c, old(self).max_rain_radius as int, old(map).side() as int, p) ==> old(map).cell_at(p).water
                        == CellWater::Deep || final(map).cell_at(p) == (Cell {
                        water: old(map).cell_at(p).water.wetter_spec()->Some_0,
                        ..old(map).cell_at(p)
                    }),
    {
        let ghost air0 = self.atmosphere_water;
        let ghost rows0 = map@;
        let ghost n = map.side() as int;
        let size = map.size();
        let center_x = random_below(&mut self.rng, size);
        let center_y = random_below(&mut self.rng, size);
        let center = Point::new(center_x as isize, center_y as isize);
        let mut remaining = rain;
        let mut radius: usize = 0;
        assert(n <= isize::MAX) by (nonlinear_arith)
            requires
                n * n <= isize::MAX,
                n >= 0,
        ;
        proof {
            lemma_changed_count_zero(rows0, n, (n * n) as nat);
        }
        while remaining > 0 && radius <= self.max_rain_radius
            invariant
                map.wf(),
                map.side() == n,
                size == n,
                in_map(center, n),
                map.version() == old(map).version(),
                n + self.max_rain_radius + 2 <= isize::MAX,
                self.max_rain_radius == old(self).max_rain_radius,
                radius <= self.max_rain_radius + 1,
                air0 - self.atmosphere_water == rain - remaining,
                rain > 0 ==> 0 <= remaining <= rain,
                rain <= 0 ==> remaining == rain && map@ == old(map)@,
                air0 - rain >= i64::MIN,
                rows0 == old(map)@,
                forall|p: Point| in_map(p, n) ==> wetted_or_same(#[trigger] cell_of(rows0, p), cell_of(map@, p)),
                forall|p: Point| in_map(p, n) && dist(center, p) >= radius ==> #[trigger] cell_of(map@, p) == cell_of(rows0, p),
                n <= isize::MAX,
                n > 0,
                air0 - self.atmosphere_water == changed_count(rows0, map@, n, (n * n) as nat),
                radius > 0 && rain > 0 && (forall|p: Point| in_map(p, n) ==> #[trigger] cell_of(rows0, p).water != CellWater::Deep)
                    ==> remaining < rain,
                remaining > 0 ==> forall|p: Point|
                    in_map(p, n) && dist(center, p) < radius && #[trigger] water_at(rows0, p).wetter_spec() is Some ==> cell_of(map@, p)
                        == (Cell { water: water_at(rows0, p).wetter_spec()->Some_0, ..cell_of(rows0, p) }),
            decreases self.max_rain_radius + 1 - radius,
        {
            let mut candidates = center.circumference(radius, size).into_vec();
            let ghost ring = candidates@;
            shuffle(&mut self.rng, &mut candidates);
            proof {
                ring.to_multiset_ensures();
                candidates@.to_multiset_ensures();
                assert forall|i: int| 0 <= i < candidates@.len() implies in_map(#[trigger] candidates@[i], n) by {
                    assert(candidates@.contains(candidates@[i]));
                    assert(candidates@.to_multiset().count(candidates@[i]) > 0);
                    assert(ring.contains(candidates@[i]));
                }
                ring.lemma_multiset_has_no_duplicates();
                candidates@.lemma_multiset_has_no_duplicates_conv();
                assert forall|p: Point| candidates@.contains(p) <==> on_circumference(center, radius as int, n, p) by {
                    assert(candidates@.contains(p) <==> candidates@.to_multiset().count(p) > 0);
                    assert(ring.contains(p) <==> ring.to_multiset().count(p) > 0);
                }
            }
            let ghost before = map@;
            let ghost rem_before = remaining;
            Self::add_rain(map, &candidates, &mut remaining, &mut self.atmosphere_water);
            proof {
                assert(is_grid(before, n));
                lemma_rain_on_effect(before, n, candidates@, rem_before as int);
                assert forall|i: int| 0 <= i < candidates@.len() implies cell_of(before, #[trigger] candidates@[i]) == cell_of(rows0, candidates@[i]) by {
                    assert(candidates@.contains(candidates@[i]));
                }
                lemma_rain_on_count(rows0, before, n, candidates@, rem_before as int);
                lemma_rain_on_full(before, n, candidates@, rem_before as int);
                if remaining > 0 {
                    assert forall|p: Point|
                        in_map(p, n) && dist(center, p) < radius + 1 && #[trigger] water_at(rows0, p).wetter_spec() is Some implies cell_of(map@, p)
                            == (Cell { water: water_at(rows0, p).wetter_spec()->Some_0, ..cell_of(rows0, p) }) by {
                        if dist(center, p) == radius {
                            assert(candidates@.contains(p));
                            assert(cell_of(before, p) == cell_of(rows0, p));
                        } else {
                            assert(!candidates@.contains(p));
                        }
                    }
                }
                if radius == 0 && rain > 0 && (forall|p: Point| in_map(p, n) ==> #[trigger] cell_of(rows0, p).water != CellWater::Deep) {
                    assert(candidates@.contains(center));
                    let c = choose|i: int| 0 <= i < candidates@.len() && candidates@[i] == center;
                    assert(candidates@.len() == 1) by {
                        if candidates@.len() > 1 {
                            let other = if c == 0 { 1int } else { 0int };
                            assert(candidates@.contains(candidates@[other]));
                            assert(dist(center, candidates@[other]) == 0);
                        }
                    }
                    assert(candidates@.drop_last() =~= Seq::<Point>::empty());
                    assert(candidates@.last() == center);
                    assert(cell_of(before, center) == cell_of(rows0, center));
                    assert(cell_of(rows0, center).water != CellWater::Deep);
                    assert(rain_on(before, candidates@.drop_last(), rem_before as int) == (before, rem_before as int));
                    assert(water_at(before, center).wetter_spec() is Some);
                    assert(rain_on(before, candidates@, rem_before as int).1 == rem_before - 1);
                    assert(remaining < rain);
                }
                assert forall|p: Point| in_map(p, n) implies wetted_or_same(#[trigger] cell_of(rows0, p), cell_of(map@, p)) by {
                    if candidates@.contains(p) {
                        assert(dist(center, p) == radius);
                        assert(cell_of(before, p) == cell_of(rows0, p));
                    }
                }
                assert forall|p: Point| in_map(p, n) && dist(center, p) >= radius + 1 implies #[trigger] cell_of(map@, p) == cell_of(rows0, p) by {
                    assert(!candidates@.contains(p));
                }
            }
            radius = radius + 1;
        }
        assert forall|p: Point| in_map(p, n) implies wetted_or_same(#[trigger] old(map).cell_at(p), map.cell_at(p)) by {
            assert(cell_of(rows0, p) == old(map).cell_at(p));
            assert(cell_of(map@, p) == map.cell_at(p));
        }
        proof {
            if rain > 0 && remaining > 0 {
                assert forall|p: Point|
                    #[trigger] in_circle(center, self.max_rain_radius as int, n, p) implies old(map).cell_at(p).water == CellWater::Deep
                        || map.cell_at(p) == (Cell { water: old(map).cell_at(p).water.wetter_spec()->Some_0, ..old(map).cell_at(p) }) by {
                    assert(old(map).cell_at(p) == cell_of(rows0, p));
                    assert(map.cell_at(p) == cell_of(map@, p));
                    if water_at(rows0, p).wetter_spec() is Some {
                        assert(dist(center, p) < radius);
                    }
                }
            }
            if rain > 0 && (forall|p: Point| in_map(p, n) ==> #[trigger] old(map).cell_at(p).water != CellWater::Deep) {
                assert forall|p: Point| in_map(p, n) implies #[trigger] cell_of(rows0, p).water != CellWater::Deep by {
                    assert(old(map).cell_at(p) == cell_of(rows0, p));
                }
            }
        }
        map.notify_update(now);
    }

    /// One evaporation tick: every cell with water dries by one level with
    /// probability `ratio` parts per million, and the atmosphere gains what dried.
    /// The version advances.
    pub fn evaporate(&mut self, map: &mut World, ratio: u32, now: u64)
        requires
            old(map).wf(),
            old(map).version() < u64::MAX,
            ratio <= crate::ecosystem::snake::MOVE_RATIO_SCALE,
            old(self).atmosphere_water + old(map).side() * old(map).side() <= i64::MAX,
        ensures
            final(map).wf(),
            final(map).side() == old(map).side(),
            final(map).version() == next_version(old(map).version(), now),
            final(self).max_rain_radius == old(self).max_rain_radius,
            final(self).atmosphere_water - old(self).atmosphere_water == changed_count(
                old(map)@,
                final(map)@,
                old(map).side() as int,
                old(map).side() * old(map).side(),
            ),
            forall|p: Point| in_map(p, old(map).side() as int) ==> dried_or_same(#[trigger] old(map).cell_at(p), final(map).cell_at(p)),
            ratio == 0 ==> final(map)@ == old(map)@,
            ratio == crate::ecosystem::snake::MOVE_RATIO_SCALE ==> forall|p: Point|
                in_map(p, old(map).side() as int) ==> #[trigger] final(map).cell_at(p) == evaporated(old(map).cell_at(p), true),
    {
        let ghost n = map.side() as int;
        let size = map.size();
        let total = size * size;
        let mut draws: Vec<bool> = Vec::new();
        let mut k: usize = 0;
        assert(n <= isize::MAX) by (nonlinear_arith)
            requires
                n * n <= isize::MAX,
                n >= 0,
        ;
        while k < total
            invariant
                map.wf(),
                *map == *old(map),
                self.max_rain_radius == old(self).max_rain_radius,
                self.atmosphere_water == old(self).atmosphere_water,
                n <= isize::MAX,
                n == map.side(),
                size == n,
                total == n * n,
                ratio <= crate::ecosystem::snake::MOVE_RATIO_SCALE,
                k <= total,
                draws@.len() == k,
                ratio == 0 ==> forall|e: int| 0 <= e < k ==> !#[trigger] draws@[e],
                ratio == crate::ecosystem::snake::MOVE_RATIO_SCALE ==> forall|e: int|
                    0 <= e < k && water_at(map@, point_of(e, n)) != CellWater::Empty ==> #[trigger] draws@[e],
            decreases total - k,
        {
            let p = Point { x: (k % size) as isize, y: (k / size) as isize };
            proof {
                lemma_point_of_index(k as int, n);
                assert(p == point_of(k as int, n));
            }
            let has_water = match map.cell(p) {
                Some(cell) => !cell.water.is_empty(),
                None => false,
            };
            let draw = if has_water {
                random_ratio(&mut self.rng, ratio, crate::ecosystem::snake::MOVE_RATIO_SCALE)
            } else {
                false
            };
            draws.push(draw);
            k = k + 1;
        }
        self.evaporate_with(map, &draws);
        proof {
            assert forall|p: Point| in_map(p, n) implies dried_or_same(#[trigger] old(map).cell_at(p), map.cell_at(p)) by {
                lemma_index_in_map(p, n);
            }
            if ratio == 0 {
                assert forall|y: int| 0 <= y < n implies #[trigger] map@[y] =~= old(map)@[y] by {
                    assert forall|x: int| 0 <= x < n implies map@[y][x] == old(map)@[y][x] by {
                        let p = Point { x: x as isize, y: y as isize };
                        lemma_index_in_map(p, n);
                        assert(map.cell_at(p) == evaporated(old(map).cell_at(p), draws@[index_of(p, n)]));
                    }
                }
                assert(map@ =~= old(map)@);
            }
            if ratio == crate::ecosystem::snake::MOVE_RATIO_SCALE {
                assert forall|p: Point| in_map(p, n) implies #[trigger] map.cell_at(p) == evaporated(old(map).cell_at(p), true) by {
                    lemma_index_in_map(p, n);
                    if water_at(old(map)@, p) != CellWater::Empty {
                        assert(draws@[index_of(p, n)]);
                    }
                }
            }
        }
        map.notify_update(now);
    }

    /// Dry each cell `k` (row by row) that holds water by one level where `draws[k]`
    /// is true, and add to the atmosphere what dried.
    pub fn evaporate_with(&mut self, map: &mut World, draws: &Vec<bool>)
        requires
            old(map).wf(),
            draws@.len() == old(map).side() * old(map).side(),
            old(self).atmosphere_water + old(map).side() * old(map).side() <= i64::MAX,
        ensures
            final(map).wf(),
            final(map).side() == old(map).side(),
            final(map).version() == old(map).version(),
            final(self).max_rain_radius == old(self).max_rain_radius,
            forall|p: Point|
                in_map(p, old(map).side() as int) ==> #[trigger] final(map).cell_at(p) == evaporated(
                    old(map).cell_at(p),
                    draws@[index_of(p, old(map).side() as int)],
                ),
            final(self).atmosphere_water - old(self).atmosphere_water == changed_count(
                old(map)@,
                final(map)@,
                old(map).side() as int,
                old(map).side() * old(map).side(),
            ),
    {
        let ghost rows0 = map@;
        let ghost air0 = self.atmosphere_water;
        let ghost n = map.side() as int;
        let size = map.size();
        let total = size * size;
        let mut k: usize = 0;
        assert(n <= isize::MAX) by (nonlinear_arith)
            requires
                n * n <= isize::MAX,
                n >= 0,
        ;
        while k < total
            invariant
                map.wf(),
                n <= isize::MAX,
                map.side() == n,
                size == n,
                total == n * n,
                map.version() == old(map).version(),
                self.max_rain_radius == old(self).max_rain_radius,
                draws@.len() == total,
                k <= total,
                rows0 == old(map)@,
                air0 == old(self).atmosphere_water,
                air0 + n * n <= i64::MAX,
                0 <= self.atmosphere_water - air0 <= k,
                self.atmosphere_water - air0 == changed_count(rows0, map@, n, k as nat),
                forall|p: Point|
                    in_map(p, n) ==> #[trigger] cell_of(map@, p) == if index_of(p, n) < k {
                        evaporated(cell_of(rows0, p), draws@[index_of(p, n)])
                    } else {
                        cell_of(rows0, p)
                    },
            decreases total - k,
        {
            let p = Point { x: (k % size) as isize, y: (k / size) as isize };
            proof {
                lemma_point_of_index(k as int, n);
                assert(p == point_of(k as int, n));
                lemma_index_in_map(p, n);
            }
            let ghost before = map@;
            let cell = match map.cell(p) {
                Some(cell) => cell,
                None => Cell::empty(0),
            };
            if draws[k] {
                match cell.water.drier() {
                    Some(drier) => {
                        map.set_cell(p, Cell { water: drier, ..cell });
                        self.atmosphere_water = self.atmosphere_water + 1;
                    },
                    None => {},
                }
            }
            proof {
                assert forall|q: Point| in_map(q, n) && q != p implies #[trigger] cell_of(map@, q) == cell_of(before, q) by {
                    if q.y == p.y {
                        assert(q.x != p.x);
                    }
                }
                assert forall|q: Point| in_map(q, n) implies #[trigger] cell_of(map@, q) == if index_of(q, n) < k + 1 {
                    evaporated(cell_of(rows0, q), draws@[index_of(q, n)])
                } else {
                    cell_of(rows0, q)
                } by {
                    lemma_index_in_map(q, n);
                    if index_of(q, n) == k {
                        lemma_index_injective_grid(q, p, n);
                    }
                }
                lemma_changed_count_agree(rows0, before, map@, n, k as nat, p);
                assert(point_of(k as int, n) == p);
            }
            k = k + 1;
        }
        proof {
            assert forall|p: Point| in_map(p, n) implies #[trigger] map.cell_at(p) == evaporated(
                old(map).cell_at(p),
                draws@[index_of(p, n)],
            ) by {
                lemma_index_in_map(p, n);
                assert(cell_of(map@, p) == map.cell_at(p));
            }
        }
    }
}

} // verus!
