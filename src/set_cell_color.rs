use vstd::prelude::*;
use crate::cell::painted;
use crate::cell_color::{color_index, is_paintable, CellColor, COLOR_COUNT};
use crate::error::PaintError;
use crate::map::{next_version, World};
use crate::point::Point;

verus! {

/// A user's brush stroke: paint the color of index `color_index` on one cell.
#[derive(Debug, Clone, Copy, PartialEq, Eq, Structural)]
pub struct Request {
    pub x_index: usize,
    pub y_index: usize,
    pub color_index: usize,
}

#[derive(Debug, Clone, Copy, PartialEq, Eq, Structural)]
pub struct Response {
    pub version_id: u64,
}

pub open spec fn request_point(request: Request) -> Point {
    Point { x: request.x_index as isize, y: request.y_index as isize }
}

pub open spec fn request_in_map(request: Request, n: int) -> bool {
    request.x_index < n && request.y_index < n
}

/// Apply a brush stroke at time `now`. Refused, with the map unchanged, for an
/// unknown color, a color users may not paint, or a cell outside the map.
pub fn set_cell_color(map: &mut World, request: Request, now: u64) -> (r: Result<Response, PaintError>)
    requires
        old(map).wf(),
        old(map).version() < u64::MAX,
    ensures
        final(map).wf(),
        final(map).side() == old(map).side(),
        r is Err ==> *final(map) == *old(map),
        request.color_index >= COLOR_COUNT ==> r == Err::<Response, PaintError>(PaintError::InvalidColorIndex),
        request.color_index < COLOR_COUNT && !request_in_map(request, old(map).side() as int) ==> r
            == Err::<Response, PaintError>(PaintError::InvalidPosition),
        r is Ok <==> request.color_index < COLOR_COUNT && request_in_map(request, old(map).side() as int)
            && (forall|c: CellColor| color_index(c) == request.color_index ==> is_paintable(c)),
        r is Ok ==> r->Ok_0.version_id == final(map).version() && final(map).version() == next_version(
            old(map).version(),
            now,
        ),
        r is Ok ==> forall|c: CellColor|
            color_index(c) == request.color_index ==> final(map)@ == old(map).with_cell(
                request_point(request),
                painted(old(map).cell_at(request_point(request)), c, now)->Some_0,
            ),
{
    let color = match CellColor::try_from_index(request.color_index) {
        Ok(color) => color,
        Err(e) => {
            return Err(e);
        },
    };
    if request.x_index >= map.size() || request.y_index >= map.size() {
        return Err(PaintError::InvalidPosition);
    }
    let point = Point { x: request.x_index as isize, y: request.y_index as isize };
    assert(map.side() <= isize::MAX) by (nonlinear_arith)
        requires
            map.side() * map.side() <= isize::MAX,
            map.side() >= 1,
    ;
    match map.set_cell_color(point, color, now) {
        Ok(()) => Ok(Response { version_id: map.version_id() }),
        Err(e) => Err(e),
    }
}

} // verus!
