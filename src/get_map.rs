use vstd::prelude::*;
use crate::cell::color_of;
use crate::cell_color::{available_colors_spec, color_index, color_rgb, CellColor, COLOR_COUNT};
use crate::map::World;
use crate::point::Point;

verus! {

/// A snapshot request: the version the reader already has, if any.
#[derive(Debug, Clone, Copy, PartialEq, Eq, Structural)]
pub struct Request {
    pub last_version_id: Option<u64>,
}

/// A snapshot of the map: its palette and one color index per cell, row by row.
#[derive(Debug, Clone)]
pub struct Response {
    pub version_id: u64,
    pub size: usize,
    pub colors: Vec<[u8; 3]>,
    pub available_color_indexes: Vec<usize>,
    pub cell_color_indexes: Vec<usize>,
}

impl Request {
    /// The reader already has the current version and should wait for a change.
    pub fn should_wait(&self, map: &World) -> (r: bool)
        ensures
            r == (self.last_version_id == Some(map.version())),
    {
        match self.last_version_id {
            Some(last) => last == map.version_id(),
            None => false,
        }
    }
}

/// The snapshot of `map` as it is now.
pub fn prepare_response(map: &World) -> (r: Response)
    requires
        map.wf(),
    ensures
        r.version_id == map.version(),
        r.size == map.side(),
        r.colors@.len() == COLOR_COUNT,
        forall|c: CellColor| (#[trigger] r.colors@[color_index(c) as int])@ == color_rgb(c),
        r.available_color_indexes@ == available_colors_spec().map_values(|c: CellColor| color_index(c) as usize),
        r.cell_color_indexes@.len() == map.side() * map.side(),
        forall|y: int, x: int|
            0 <= y < map.side() && 0 <= x < map.side() ==> r.cell_color_indexes@[y * map.side() + x]
                == color_index(color_of(#[trigger] map@[y][x])),
{
    let ghost n = map.side() as int;
    let all = CellColor::all_colors();
    let mut colors: Vec<[u8; 3]> = Vec::new();
    let mut c: usize = 0;
    while c < all.len()
        invariant
            all@.len() == COLOR_COUNT,
            forall|i: int| 0 <= i < COLOR_COUNT ==> color_index(#[trigger] all@[i]) == i,
            c <= all@.len(),
            colors@.len() == c,
            forall|i: int| 0 <= i < c ==> (#[trigger] colors@[i])@ == color_rgb(all@[i]),
        decreases all@.len() - c,
    {
        colors.push(all[c].as_rgb());
        c = c + 1;
    }
    assert forall|k: CellColor| (#[trigger] colors@[color_index(k) as int])@ == color_rgb(k) by {
        let i = color_index(k) as int;
        assert(color_index(all@[i]) == i);
        assert(all@[i] == k);
    }
    let available = CellColor::available_colors();
    let mut available_color_indexes: Vec<usize> = Vec::new();
    let mut a: usize = 0;
    while a < available.len()
        invariant
            a <= available@.len(),
            available_color_indexes@ == available@.subrange(0, a as int).map_values(|c: CellColor| color_index(c) as usize),
        decreases available@.len() - a,
    {
        available_color_indexes.push(available[a].as_index());
        a = a + 1;
        assert(available_color_indexes@ =~= available@.subrange(0, a as int).map_values(|c: CellColor| color_index(c) as usize));
    }
    assert(available@.subrange(0, available@.len() as int) =~= available@);
    let size = map.size();
    assert(n <= isize::MAX) by (nonlinear_arith)
        requires
            n * n <= isize::MAX,
            n >= 0,
    ;
    let mut cell_color_indexes: Vec<usize> = Vec::new();
    let mut i: usize = 0;
    while i < size
        invariant
            map.wf(),
            n == map.side(),
            size == n,
            n <= isize::MAX,
            i <= size,
            cell_color_indexes@.len() == i * n,
            forall|y: int, x: int|
                0 <= y < i && 0 <= x < n ==> cell_color_indexes@[y * n + x] == color_index(color_of(#[trigger] map@[y][x])),
        decreases size - i,
    {
        let mut j: usize = 0;
        while j < size
            invariant
                map.wf(),
                n == map.side(),
                size == n,
                n <= isize::MAX,
                i < size,
                j <= size,
                cell_color_indexes@.len() == i * n + j,
                forall|y: int, x: int|
                    (0 <= y < i && 0 <= x < n) || (y == i && 0 <= x < j) ==> cell_color_indexes@[y * n + x] == color_index(
                        color_of(#[trigger] map@[y][x]),
                    ),
            decreases size - j,
        {
            let index = match map.cell(Point { x: j as isize, y: i as isize }) {
                Some(cell) => cell.color().as_index(),
                None => 0,
            };
            let ghost before = cell_color_indexes@;
            cell_color_indexes.push(index);
            assert forall|y: int, x: int|
                (0 <= y < i && 0 <= x < n) || (y == i && 0 <= x < j + 1) implies cell_color_indexes@[y * n + x]
                    == color_index(color_of(#[trigger] map@[y][x])) by {
                if y < i {
                    assert((y + 1) * n <= i * n) by (nonlinear_arith)
                        requires
                            0 <= y,
                            y + 1 <= i,
                            n >= 0,
                    ;
                    assert((y + 1) * n == y * n + n) by (nonlinear_arith);
                    assert(cell_color_indexes@[y * n + x] == before[y * n + x]);
                } else if x < j {
                    assert(cell_color_indexes@[y * n + x] == before[y * n + x]);
                }
            }
            j = j + 1;
        }
        assert((i + 1) * n == i * n + n) by (nonlinear_arith);
        i = i + 1;
    }
    Response {
        version_id: map.version_id(),
        size,
        colors,
        available_color_indexes,
        cell_color_indexes,
    }
}

} // verus!
