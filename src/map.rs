use vstd::prelude::*;
use itertools::Itertools;
use crate::cell::{painted, Cell};
use crate::cell_color::{is_paintable, CellColor};
use crate::error::{MapError, PaintError};
use crate::grid::{cell_rows, CellArray};
use crate::point::{in_map, Point};

verus! {

/// The world map: a square grid of cells and a version id that grows on every committed
/// change.
#[derive(Debug)]
pub struct World {
    cells: CellArray,
    size: usize,
    version_id: u64,
}

pub open spec fn is_min_of(s: Seq<u8>, v: u8) -> bool {
    s.contains(v) && forall|k: int| 0 <= k < s.len() ==> v <= #[trigger] s[k]
}

pub open spec fn is_max_of(s: Seq<u8>, v: u8) -> bool {
    s.contains(v) && forall|k: int| 0 <= k < s.len() ==> #[trigger] s[k] <= v
}

/// A height stretched so that `low` becomes 0 and `high` becomes 255, rounded to the
/// nearest integer (halves up). A flat height map becomes all 0.
pub open spec fn normalized(h: u8, low: u8, high: u8) -> int {
    if high <= low {
        0
    } else {
        ((h - low) * 510 + (high - low)) / (2 * (high - low))
    }
}

/// The version id after a commit at time `now`: the time, unless that would not
/// increase it.
pub open spec fn next_version(version: u64, now: u64) -> u64 {
    if now > version {
        now
    } else {
        (version + 1) as u64
    }
}

/// Relies on itertools' `Itertools::minmax`: the least and the greatest element, or
/// `None` for no element.
#[verifier::external_body]
fn min_max(v: &Vec<u8>) -> (r: Option<(u8, u8)>)
    ensures
        r is None <==> v@.len() == 0,
        r is Some ==> is_min_of(v@, r->Some_0.0) && is_max_of(v@, r->Some_0.1),
{
    v.iter().copied().minmax().into_option()
}

fn normalize_height(h: u8, low: u8, high: u8) -> (r: u8)
    requires
        low <= h <= high,
    ensures
        r == normalized(h, low, high),
{
    if high <= low {
        0
    } else {
        let d: u32 = (high - low) as u32;
        let x: u32 = (h - low) as u32;
        assert(x * 510 + d <= 511 * d) by (nonlinear_arith)
            requires
                x <= d,
        ;
        let q = (x * 510 + d) / (2 * d);
        assert(q <= 255) by (nonlinear_arith)
            requires
                q == (x * 510 + d) / (2 * d),
                x * 510 + d <= 511 * d,
                d > 0,
        ;
        q as u8
    }
}

proof fn lemma_flat_index(i: int, j: int, n: int)
    requires
        0 <= i < n,
        0 <= j < n,
    ensures
        0 <= i * n + j < n * n,
        (i + 1) * n == i * n + n,
{
    assert(0 <= i * n + j < n * n) by (nonlinear_arith)
        requires
            0 <= i < n,
            0 <= j < n,
    ;
    assert((i + 1) * n == i * n + n) by (nonlinear_arith);
}

impl View for World {
    type V = Seq<Seq<Cell>>;

    /// The cells, row by row.
    closed spec fn view(&self) -> Seq<Seq<Cell>> {
        cell_rows(self.cells)
    }
}

impl World {
    /// The side of the square map.
    pub closed spec fn side(&self) -> nat {
        self.size as nat
    }

    pub closed spec fn version(&self) -> u64 {
        self.version_id
    }

    pub open spec fn wf(&self) -> bool {
        &&& self@.len() == self.side()
        &&& forall|i: int| 0 <= i < self.side() ==> #[trigger] self@[i].len() == self.side()
        &&& self.side() * self.side() <= isize::MAX
    }

    /// The cell at `p`, meaningful where `p` lies inside the map.
    pub open spec fn cell_at(&self, p: Point) -> Cell {
        self@[p.y as int][p.x as int]
    }

    /// The map after the cell at `p` became `cell`.
    pub open spec fn with_cell(&self, p: Point, cell: Cell) -> Seq<Seq<Cell>> {
        self@.update(p.y as int, self@[p.y as int].update(p.x as int, cell))
    }

    /// Build a map of `size` by `size` empty cells at time `now`; `heights` gives the
    /// height map row by row, stretched to span 0 to 255.
    pub fn new(size: usize, heights: &Vec<u8>, now: u64) -> (r: Result<World, MapError>)
        ensures
            r is Ok <==> size > 0 && size * size <= isize::MAX && heights@.len() == size * size,
            r is Err ==> (r->Err_0 == MapError::EmptyHeightMap <==> size == 0),
            r is Ok ==> {
                let m = r->Ok_0;
                &&& m.wf()
                &&& m.side() == size
                &&& m.version() == now
                &&& forall|lo: u8, hi: u8|
                    #![trigger is_min_of(heights@, lo), is_max_of(heights@, hi)]
                    is_min_of(heights@, lo) && is_max_of(heights@, hi) ==> forall|i: int, j: int|
                        0 <= i < size && 0 <= j < size ==> #[trigger] m@[i][j]
                            == Cell::empty_spec(normalized(heights@[i * size + j], lo, hi) as u8)
            },
    {
        if size == 0 {
            return Err(MapError::EmptyHeightMap);
        }
        assert(size as u128 * size as u128 <= u128::MAX) by (nonlinear_arith)
            requires
                size <= usize::MAX,
                usize::MAX <= u64::MAX,
        ;
        assert(size * size > 0) by (nonlinear_arith)
            requires
                size > 0,
        ;
        let total: u128 = size as u128 * size as u128;
        if total > isize::MAX as u128 || total != heights.len() as u128 {
            return Err(MapError::HeightMapMismatch);
        }
        let (low, high) = match min_max(heights) {
            Some(pair) => pair,
            None => {
                return Err(MapError::HeightMapMismatch);
            },
        };
        let mut cells = CellArray::from_elem(size, Cell::empty(0));
        let mut i: usize = 0;
        let mut k: usize = 0;
        while i < size
            invariant
                size > 0,
                size * size <= isize::MAX,
                heights@.len() == size * size,
                is_min_of(heights@, low),
                is_max_of(heights@, high),
                i <= size,
                k == i * size,
                cell_rows(cells).len() == size,
                forall|a: int| 0 <= a < size ==> #[trigger] cell_rows(cells)[a].len() == size,
                forall|a: int, b: int|
                    0 <= a < i && 0 <= b < size ==> #[trigger] cell_rows(cells)[a][b]
                        == Cell::empty_spec(normalized(heights@[a * size + b], low, high) as u8),
            decreases size - i,
        {
            let mut j: usize = 0;
            while j < size
                invariant
                    size > 0,
                    size * size <= isize::MAX,
                    heights@.len() == size * size,
                    is_min_of(heights@, low),
                    is_max_of(heights@, high),
                    i < size,
                    j <= size,
                    k == i * size + j,
                    cell_rows(cells).len() == size,
                    forall|a: int| 0 <= a < size ==> #[trigger] cell_rows(cells)[a].len() == size,
                    forall|a: int, b: int|
                        (0 <= a < i && 0 <= b < size) || (a == i && 0 <= b < j)
                            ==> #[trigger] cell_rows(cells)[a][b] == Cell::empty_spec(
                            normalized(heights@[a * size + b], low, high) as u8,
                        ),
                decreases size - j,
            {
                proof {
                    lemma_flat_index(i as int, j as int, size as int);
                }
                let h = heights[k];
                assert(heights@.contains(h));
                assert(low <= h <= high) by {
                    assert(heights@[k as int] == h);
                }
                let cell = Cell::empty(normalize_height(h, low, high));
                cells.set(i, j, cell);
                j = j + 1;
                k = k + 1;
            }
            proof {
                lemma_flat_index(i as int, 0, size as int);
            }
            i = i + 1;
        }
        let map = World { cells, size, version_id: now };
        proof {
            assert forall|lo: u8, hi: u8|
                #![trigger is_min_of(heights@, lo), is_max_of(heights@, hi)]
                is_min_of(heights@, lo) && is_max_of(heights@, hi) implies forall|a: int, b: int|
                0 <= a < size && 0 <= b < size ==> #[trigger] map@[a][b] == Cell::empty_spec(
                normalized(heights@[a * size + b], lo, hi) as u8,
            ) by {
                let (ilo, ihi) = choose|x: int, y: int|
                    0 <= x < heights@.len() && 0 <= y < heights@.len() && heights@[x] == lo
                        && heights@[y] == hi;
                let (jlo, jhi) = choose|x: int, y: int|
                    0 <= x < heights@.len() && 0 <= y < heights@.len() && heights@[x] == low
                        && heights@[y] == high;
                assert(lo <= heights@[jlo]);
                assert(low <= heights@[ilo]);
                assert(hi >= heights@[jhi]);
                assert(high >= heights@[ihi]);
            }
        }
        Ok(map)
    }

    pub fn size(&self) -> (r: usize)
        ensures
            r == self.side(),
    {
        self.size
    }

    pub fn version_id(&self) -> (r: u64)
        ensures
            r == self.version(),
    {
        self.version_id
    }

    /// The cell at `point`, or `None` outside the map.
    pub fn cell(&self, point: Point) -> (r: Option<Cell>)
        requires
            self.wf(),
        ensures
            r == if in_map(point, self.side() as int) {
                Some(self.cell_at(point))
            } else {
                None
            },
    {
        if point.is_valid(self.size) {
            self.cells.get(point.y as usize, point.x as usize)
        } else {
            None
        }
    }

    /// Replace the cell at `point`. The version id is left to `notify_update`.
    pub fn set_cell(&mut self, point: Point, cell: Cell)
        requires
            old(self).wf(),
            in_map(point, old(self).side() as int),
        ensures
            final(self).wf(),
            final(self).side() == old(self).side(),
            final(self).version() == old(self).version(),
            final(self)@ == old(self).with_cell(point, cell),
    {
        self.cells.set(point.y as usize, point.x as usize, cell);
    }

    /// Record a committed change: the version id moves forward.
    pub fn notify_update(&mut self, now: u64)
        requires
            old(self).version() < u64::MAX,
        ensures
            final(self)@ == old(self)@,
            final(self).side() == old(self).side(),
            final(self).version() == next_version(old(self).version(), now),
            final(self).version() > old(self).version(),
    {
        self.version_id = if now > self.version_id {
            now
        } else {
            self.version_id + 1
        };
    }

    /// Paint `color` on the cell at `point` at time `now`, and advance the version.
    /// Refused, with the map unchanged, outside the map or for a color that users may
    /// not paint.
    pub fn set_cell_color(&mut self, point: Point, color: CellColor, now: u64) -> (r: Result<
        (),
        PaintError,
    >)
        requires
            old(self).wf(),
            old(self).version() < u64::MAX,
        ensures
            final(self).wf(),
            final(self).side() == old(self).side(),
            r is Ok <==> in_map(point, old(self).side() as int) && is_paintable(color),
            r is Err ==> *final(self) == *old(self),
            r is Err ==> (r->Err_0 == PaintError::InvalidPosition <==> !in_map(
                point,
                old(self).side() as int,
            )),
            r is Err && in_map(point, old(self).side() as int) ==> r->Err_0
                == PaintError::ColorNotPaintable,
            r is Ok ==> final(self)@ == old(self).with_cell(
                point,
                painted(old(self).cell_at(point), color, now)->Some_0,
            ),
            r is Ok ==> final(self).version() == next_version(old(self).version(), now),
    {
        let mut cell = match self.cell(point) {
            Some(cell) => cell,
            None => {
                return Err(PaintError::InvalidPosition);
            },
        };
        match cell.with_color(color, now) {
            Ok(()) => {},
            Err(e) => {
                return Err(e);
            },
        }
        self.set_cell(point, cell);
        self.notify_update(now);
        Ok(())
    }
}

/// Every commit moves the version id strictly forward, so two committed states never
/// share a version id.
pub proof fn commit_advances_version(version: u64, now: u64)
    requires
        version < u64::MAX,
    ensures
        next_version(version, now) > version,
{
}

} // verus!
