use vstd::prelude::*;

verus! {

/// A point of the plane, which may or may not lie inside the map.
#[derive(Debug, Clone, Copy, PartialEq, Eq, Structural, Hash)]
pub struct Point {
    pub x: isize,
    pub y: isize,
}

/// Iterates over the valid points at most `radius` away from a center (taxicab distance).
#[derive(Debug, Clone)]
pub struct CircleIter {
    points: Vec<Point>,
    next_index: usize,
}

/// Iterates over the valid points exactly `radius` away from a center (taxicab distance).
#[derive(Debug, Clone)]
pub struct CircumferenceIter {
    points: Vec<Point>,
    next_index: usize,
}

pub open spec fn abs(v: int) -> int {
    if v < 0 {
        -v
    } else {
        v
    }
}

pub open spec fn fits_isize(v: int) -> bool {
    isize::MIN <= v <= isize::MAX
}

/// Taxicab distance between two points.
pub open spec fn dist(a: Point, b: Point) -> int {
    abs(a.x - b.x) + abs(a.y - b.y)
}

pub open spec fn in_map(p: Point, map_size: int) -> bool {
    0 <= p.x < map_size && 0 <= p.y < map_size
}

pub open spec fn in_circle(center: Point, radius: int, map_size: int, p: Point) -> bool {
    in_map(p, map_size) && dist(center, p) <= radius
}

pub open spec fn on_circumference(center: Point, radius: int, map_size: int, p: Point) -> bool {
    in_map(p, map_size) && dist(center, p) == radius
}

pub open spec fn circle_set(center: Point, radius: int, map_size: int) -> Set<Point> {
    Set::new(|p: Point| in_circle(center, radius, map_size, p))
}

pub open spec fn circumference_set(center: Point, radius: int, map_size: int) -> Set<Point> {
    Set::new(|p: Point| on_circumference(center, radius, map_size, p))
}

/// The bounds that keep every coordinate computed around `center` within `isize`.
pub open spec fn region_fits(center: Point, radius: int, map_size: int) -> bool {
    &&& 0 <= radius <= isize::MAX
    &&& 0 <= map_size <= isize::MAX
    &&& fits_isize(center.x - radius - 1)
    &&& fits_isize(center.x + radius + 1)
    &&& fits_isize(center.y - radius - 1)
    &&& fits_isize(center.y + radius + 1)
}

/// `p` comes before the column `x`, or before row `y` in that column.
pub open spec fn lex_before(p: Point, x: int, y: int) -> bool {
    p.x < x || (p.x == x && p.y < y)
}

pub open spec fn lex_lt(a: Point, b: Point) -> bool {
    lex_before(a, b.x as int, b.y as int)
}

pub open spec fn lex_sorted(s: Seq<Point>) -> bool {
    forall|i: int, j: int| 0 <= i < j < s.len() ==> lex_lt(#[trigger] s[i], #[trigger] s[j])
}

pub open spec fn surroundings_spec(p: Point) -> Seq<Point> {
    seq![
        Point { x: (p.x - 1) as isize, y: p.y },
        Point { x: p.x, y: (p.y - 1) as isize },
        Point { x: p.x, y: p.y },
        Point { x: p.x, y: (p.y + 1) as isize },
        Point { x: (p.x + 1) as isize, y: p.y },
    ]
}

pub open spec fn directions_spec() -> Seq<Point> {
    seq![Point { x: 1, y: 0 }, Point { x: 0, y: 1 }, Point { x: -1isize, y: 0 }, Point { x: 0, y: -1isize }]
}

impl View for CircleIter {
    type V = Seq<Point>;

    /// The points not yet handed out.
    closed spec fn view(&self) -> Seq<Point> {
        self.points@.subrange(self.next_index as int, self.points@.len() as int)
    }
}

impl View for CircumferenceIter {
    type V = Seq<Point>;

    /// The points not yet handed out.
    closed spec fn view(&self) -> Seq<Point> {
        self.points@.subrange(self.next_index as int, self.points@.len() as int)
    }
}

impl CircleIter {
    pub closed spec fn wf(&self) -> bool {
        self.next_index <= self.points@.len()
    }

    /// Hand out the next point, if any is left.
    pub fn next(&mut self) -> (r: Option<Point>)
        requires
            old(self).wf(),
        ensures
            final(self).wf(),
            old(self)@.len() == 0 ==> r is None && final(self)@ == old(self)@,
            old(self)@.len() > 0 ==> r == Some(old(self)@[0]) && final(self)@ == old(self)@.drop_first(),
    {
        if self.next_index < self.points.len() {
            let p = self.points[self.next_index];
            self.next_index = self.next_index + 1;
            assert(self@ =~= old(self)@.drop_first());
            Some(p)
        } else {
            None
        }
    }

    /// All the points not yet handed out.
    pub fn into_vec(self) -> (r: Vec<Point>)
        requires
            self.wf(),
        ensures
            r@ == self@,
    {
        let mut r: Vec<Point> = Vec::new();
        let mut i: usize = self.next_index;
        while i < self.points.len()
            invariant
                self.next_index <= i <= self.points@.len(),
                r@ == self.points@.subrange(self.next_index as int, i as int),
            decreases self.points@.len() - i,
        {
            r.push(self.points[i]);
            i = i + 1;
            assert(r@ =~= self.points@.subrange(self.next_index as int, i as int));
        }
        r
    }
}

impl CircumferenceIter {
    pub closed spec fn wf(&self) -> bool {
        self.next_index <= self.points@.len()
    }

    /// Hand out the next point, if any is left.
    pub fn next(&mut self) -> (r: Option<Point>)
        requires
            old(self).wf(),
        ensures
            final(self).wf(),
            old(self)@.len() == 0 ==> r is None && final(self)@ == old(self)@,
            old(self)@.len() > 0 ==> r == Some(old(self)@[0]) && final(self)@ == old(self)@.drop_first(),
    {
        if self.next_index < self.points.len() {
            let p = self.points[self.next_index];
            self.next_index = self.next_index + 1;
            assert(self@ =~= old(self)@.drop_first());
            Some(p)
        } else {
            None
        }
    }

    /// All the points not yet handed out.
    pub fn into_vec(self) -> (r: Vec<Point>)
        requires
            self.wf(),
        ensures
            r@ == self@,
    {
        let mut r: Vec<Point> = Vec::new();
        let mut i: usize = self.next_index;
        while i < self.points.len()
            invariant
                self.next_index <= i <= self.points@.len(),
                r@ == self.points@.subrange(self.next_index as int, i as int),
            decreases self.points@.len() - i,
        {
            r.push(self.points[i]);
            i = i + 1;
            assert(r@ =~= self.points@.subrange(self.next_index as int, i as int));
        }
        r
    }
}

proof fn lemma_lex_sorted_no_duplicates(s: Seq<Point>)
    requires
        lex_sorted(s),
    ensures
        s.no_duplicates(),
{
    assert forall|i: int, j: int| 0 <= i < s.len() && 0 <= j < s.len() && i != j implies s[i]
        != s[j] by {
        if i < j {
            assert(lex_lt(s[i], s[j]));
        } else {
            assert(lex_lt(s[j], s[i]));
        }
    }
}

/// The valid coordinates of one axis that are at most `radius` away from `center`.
fn valid_range(center: isize, radius: isize, map_size: isize) -> (r: (isize, isize))
    requires
        radius >= 0,
        map_size >= 0,
        fits_isize(center - radius),
        fits_isize(center + radius + 1),
    ensures
        r.0 == if center - radius > 0 {
            center - radius
        } else {
            0
        },
        r.1 == if center + radius + 1 < map_size {
            center + radius + 1
        } else {
            map_size as int
        },
{
    let low = center - radius;
    let high = center + radius + 1;
    let start = if low > 0 {
        low
    } else {
        0
    };
    let end = if high < map_size {
        high
    } else {
        map_size
    };
    (start, end)
}

fn is_in_valid_range(x_or_y: isize, map_size: isize) -> (r: bool)
    ensures
        r == (0 <= x_or_y < map_size),
{
    x_or_y >= 0 && x_or_y < map_size
}

fn abs_isize(v: isize) -> (r: isize)
    requires
        v > isize::MIN,
    ensures
        r == abs(v as int),
{
    if v < 0 {
        -v
    } else {
        v
    }
}

impl Point {
    pub fn new(x: isize, y: isize) -> (r: Point)
        ensures
            r.x == x,
            r.y == y,
    {
        Point { x, y }
    }

    /// The point of row `i` and column `j`.
    pub fn new_ij(ij: (usize, usize)) -> (r: Point)
        requires
            ij.0 <= isize::MAX,
            ij.1 <= isize::MAX,
        ensures
            r.x == ij.1,
            r.y == ij.0,
    {
        Point { x: ij.1 as isize, y: ij.0 as isize }
    }

    pub fn is_valid(self, map_size: usize) -> (r: bool)
        ensures
            r == in_map(self, map_size as int),
    {
        if map_size > isize::MAX as usize {
            self.x >= 0 && self.y >= 0
        } else {
            is_in_valid_range(self.x, map_size as isize) && is_in_valid_range(
                self.y,
                map_size as isize,
            )
        }
    }

    /// The points up to distance 1 from this one, this one included. They are not
    /// necessarily valid.
    pub fn surroundings(self) -> (r: [Point; 5])
        requires
            fits_isize(self.x - 1),
            fits_isize(self.x + 1),
            fits_isize(self.y - 1),
            fits_isize(self.y + 1),
        ensures
            r@ == surroundings_spec(self),
    {
        let r = [
            Point { x: self.x - 1, y: self.y },
            Point { x: self.x, y: self.y - 1 },
            Point { x: self.x, y: self.y },
            Point { x: self.x, y: self.y + 1 },
            Point { x: self.x + 1, y: self.y },
        ];
        assert(r@ =~= surroundings_spec(self));
        r
    }

    /// Iterate over all valid points as far as `radius` from this point, in taxicab
    /// geometry: `abs(delta_x) + abs(delta_y)`. The points are not returned in any
    /// particular order.
    pub fn circle(self, radius: usize, map_size: usize) -> (r: CircleIter)
        requires
            region_fits(self, radius as int, map_size as int),
        ensures
            r.wf(),
            r@.no_duplicates(),
            r@.to_set() == circle_set(self, radius as int, map_size as int),
            forall|p: Point| r@.contains(p) <==> in_circle(self, radius as int, map_size as int, p),
    {
        let points = Self::circle_points(self, radius as isize, map_size as isize);
        let r = CircleIter { points, next_index: 0 };
        assert(r@ =~= points@);
        proof {
            assert(r@.to_set() =~= circle_set(self, radius as int, map_size as int));
        }
        r
    }

    fn circle_points(center: Point, radius: isize, map_size: isize) -> (r: Vec<Point>)
        requires
            region_fits(center, radius as int, map_size as int),
        ensures
            r@.no_duplicates(),
            forall|p: Point| r@.contains(p) <==> in_circle(center, radius as int, map_size as int, p),
    {
        let mut points: Vec<Point> = Vec::new();
        let (x_start, x_end) = valid_range(center.x, radius, map_size);
        let mut x: isize = x_start;
        while x < x_end
            invariant
                region_fits(center, radius as int, map_size as int),
                x_start <= x,
                x <= x_end || x == x_start,
                x_start >= 0,
                x_start >= center.x - radius,
                x_end <= map_size,
                x_end <= center.x + radius + 1,
                lex_sorted(points@),
                forall|i: int|
                    0 <= i < points@.len() ==> in_circle(
                        center,
                        radius as int,
                        map_size as int,
                        #[trigger] points@[i],
                    ) && points@[i].x < x,
                forall|p: Point|
                    #[trigger] in_circle(center, radius as int, map_size as int, p) && p.x < x
                        ==> points@.contains(p),
            decreases x_end - x,
        {
            let dx = abs_isize(center.x - x);
            let dy = radius - dx;
            let (y_start, y_end) = valid_range(center.y, dy, map_size);
            let mut y: isize = y_start;
            while y < y_end
                invariant
                    region_fits(center, radius as int, map_size as int),
                    0 <= x < map_size,
                    dx == abs(center.x - x),
                    dy == radius - dx,
                    0 <= dy,
                    y_start <= y,
                    y <= y_end || y == y_start,
                    y_start >= 0,
                    y_start >= center.y - dy,
                    y_end <= map_size,
                    y_end <= center.y + dy + 1,
                    lex_sorted(points@),
                    forall|i: int|
                        0 <= i < points@.len() ==> in_circle(
                            center,
                            radius as int,
                            map_size as int,
                            #[trigger] points@[i],
                        ) && lex_before(points@[i], x as int, y as int),
                    forall|p: Point|
                        #[trigger] in_circle(center, radius as int, map_size as int, p)
                            && lex_before(p, x as int, y as int) ==> points@.contains(p),
                decreases y_end - y,
            {
                let ghost old_points = points@;
                let q = Point { x, y };
                points.push(q);
                proof {
                    assert(points@[old_points.len() as int] == q);
                    assert forall|p: Point|
                        #[trigger] in_circle(center, radius as int, map_size as int, p)
                            && lex_before(p, x as int, y + 1) implies points@.contains(p) by {
                        if p == q {
                            assert(points@[old_points.len() as int] == p);
                        } else {
                            assert(old_points.contains(p));
                            let k = choose|k: int| 0 <= k < old_points.len() && old_points[k] == p;
                            assert(points@[k] == p);
                        }
                    }
                    assert forall|i: int, j: int|
                        0 <= i < j < points@.len() implies lex_lt(
                        #[trigger] points@[i],
                        #[trigger] points@[j],
                    ) by {
                        if j == old_points.len() {
                            assert(lex_before(old_points[i], x as int, y as int));
                        } else {
                            assert(lex_lt(old_points[i], old_points[j]));
                        }
                    }
                    assert forall|i: int| 0 <= i < points@.len() implies in_circle(
                        center,
                        radius as int,
                        map_size as int,
                        #[trigger] points@[i],
                    ) && lex_before(points@[i], x as int, y + 1) by {
                        if i < old_points.len() {
                            assert(points@[i] == old_points[i]);
                        }
                    }
                }
                y = y + 1;
            }
            proof {
                assert forall|p: Point|
                    #[trigger] in_circle(center, radius as int, map_size as int, p) && p.x < x
                        + 1 implies points@.contains(p) by {
                    if p.x == x {
                        assert(lex_before(p, x as int, y as int));
                    }
                }
            }
            x = x + 1;
        }
        proof {
            lemma_lex_sorted_no_duplicates(points@);
        }
        points
    }

    /// Iterate over all valid points at exactly `radius` from this point, in taxicab
    /// geometry. The points are not returned in any particular order.
    pub fn circumference(self, radius: usize, map_size: usize) -> (r: CircumferenceIter)
        requires
            region_fits(self, radius as int, map_size as int),
        ensures
            r.wf(),
            r@.no_duplicates(),
            r@.to_set() == circumference_set(self, radius as int, map_size as int),
            forall|p: Point|
                r@.contains(p) <==> on_circumference(self, radius as int, map_size as int, p),
    {
        let points = Self::circumference_points(self, radius as isize, map_size as isize);
        let r = CircumferenceIter { points, next_index: 0 };
        assert(r@ =~= points@);
        proof {
            assert(r@.to_set() =~= circumference_set(self, radius as int, map_size as int));
        }
        r
    }

    fn circumference_points(center: Point, radius: isize, map_size: isize) -> (r: Vec<Point>)
        requires
            region_fits(center, radius as int, map_size as int),
        ensures
            r@.no_duplicates(),
            forall|p: Point|
                r@.contains(p) <==> on_circumference(center, radius as int, map_size as int, p),
    {
        let mut points: Vec<Point> = Vec::new();
        let (x_start, x_end) = valid_range(center.x, radius, map_size);
        let mut x: isize = x_start;
        while x < x_end
            invariant
                region_fits(center, radius as int, map_size as int),
                x_start <= x,
                x <= x_end || x == x_start,
                x_start >= 0,
                x_start >= center.x - radius,
                x_end <= map_size,
                x_end <= center.x + radius + 1,
                lex_sorted(points@),
                forall|i: int|
                    0 <= i < points@.len() ==> on_circumference(
                        center,
                        radius as int,
                        map_size as int,
                        #[trigger] points@[i],
                    ) && points@[i].x < x,
                forall|p: Point|
                    #[trigger] on_circumference(center, radius as int, map_size as int, p) && p.x
                        < x ==> points@.contains(p),
            decreases x_end - x,
        {
            let dx = abs_isize(center.x - x);
            let dy = radius - dx;
            let ghost before = points@;
            let low = center.y - dy;
            if dy > 0 && is_in_valid_range(low, map_size) {
                Self::push_sorted(&mut points, Point { x, y: low });
            }
            let ghost middle = points@;
            let high = center.y + dy;
            if is_in_valid_range(high, map_size) {
                Self::push_sorted(&mut points, Point { x, y: high });
            }
            proof {
                assert forall|i: int|
                    0 <= i < points@.len() implies on_circumference(
                    center,
                    radius as int,
                    map_size as int,
                    #[trigger] points@[i],
                ) && points@[i].x < x + 1 by {
                    if i < before.len() {
                        assert(points@[i] == before[i]);
                    } else if i < middle.len() {
                        assert(points@[i] == middle[i]);
                    }
                }
                assert forall|p: Point|
                    #[trigger] on_circumference(center, radius as int, map_size as int, p) && p.x
                        < x + 1 implies points@.contains(p) by {
                    if p.x < x {
                        assert(before.contains(p));
                        let k = choose|k: int| 0 <= k < before.len() && before[k] == p;
                        assert(middle[k] == p);
                        assert(points@[k] == p);
                    } else if p.y == high {
                        assert(points@[points@.len() - 1] == p);
                    } else {
                        assert(p.y == low);
                        assert(middle[middle.len() - 1] == p);
                        assert(points@[middle.len() - 1] == p);
                    }
                }
            }
            x = x + 1;
        }
        proof {
            lemma_lex_sorted_no_duplicates(points@);
        }
        points
    }

    /// Append a point that comes after every point already held.
    fn push_sorted(points: &mut Vec<Point>, p: Point)
        requires
            lex_sorted(old(points)@),
            forall|i: int| 0 <= i < old(points)@.len() ==> lex_lt(#[trigger] old(points)@[i], p),
        ensures
            final(points)@ == old(points)@.push(p),
            lex_sorted(final(points)@),
    {
        points.push(p);
        assert forall|i: int, j: int| 0 <= i < j < points@.len() implies lex_lt(
            #[trigger] points@[i],
            #[trigger] points@[j],
        ) by {
            if j == old(points)@.len() {
                assert(lex_lt(old(points)@[i], p));
            } else {
                assert(lex_lt(old(points)@[i], old(points)@[j]));
            }
        }
    }

    /// Taxicab distance to `another`.
    pub fn distance(self, another: Self) -> (r: usize)
        requires
            dist(self, another) <= usize::MAX,
        ensures
            r == dist(self, another),
    {
        let dx: i128 = self.x as i128 - another.x as i128;
        let dy: i128 = self.y as i128 - another.y as i128;
        let ax: i128 = if dx < 0 {
            -dx
        } else {
            dx
        };
        let ay: i128 = if dy < 0 {
            -dy
        } else {
            dy
        };
        (ax + ay) as usize
    }

    pub fn turn_right(self) -> (r: Self)
        requires
            self.y > isize::MIN,
        ensures
            r.x == -self.y,
            r.y == self.x,
    {
        Point { x: -self.y, y: self.x }
    }

    pub fn turn_left(self) -> (r: Self)
        requires
            self.x > isize::MIN,
        ensures
            r.x == self.y,
            r.y == -self.x,
    {
        Point { x: self.y, y: -self.x }
    }

    pub fn turn_over(self) -> (r: Self)
        requires
            self.x > isize::MIN,
            self.y > isize::MIN,
        ensures
            r.x == -self.x,
            r.y == -self.y,
    {
        Point { x: -self.x, y: -self.y }
    }

    pub fn add(self, rhs: Self) -> (r: Self)
        requires
            fits_isize(self.x + rhs.x),
            fits_isize(self.y + rhs.y),
        ensures
            r.x == self.x + rhs.x,
            r.y == self.y + rhs.y,
    {
        Point { x: self.x + rhs.x, y: self.y + rhs.y }
    }

    pub fn sub(self, rhs: Self) -> (r: Self)
        requires
            fits_isize(self.x - rhs.x),
            fits_isize(self.y - rhs.y),
        ensures
            r.x == self.x - rhs.x,
            r.y == self.y - rhs.y,
    {
        Point { x: self.x - rhs.x, y: self.y - rhs.y }
    }

    pub fn mul(self, rhs: isize) -> (r: Self)
        requires
            fits_isize(self.x * rhs),
            fits_isize(self.y * rhs),
        ensures
            r.x == self.x * rhs,
            r.y == self.y * rhs,
    {
        Point { x: self.x * rhs, y: self.y * rhs }
    }

    pub fn neg(self) -> (r: Self)
        requires
            self.x > isize::MIN,
            self.y > isize::MIN,
        ensures
            r.x == -self.x,
            r.y == -self.y,
    {
        Point { x: -self.x, y: -self.y }
    }

    /// The four unit directions: +x, +y, -x, -y.
    pub fn directions() -> (r: [Point; 4])
        ensures
            r@ == directions_spec(),
    {
        let r = [Point { x: 1, y: 0 }, Point { x: 0, y: 1 }, Point { x: -1, y: 0 }, Point { x: 0, y: -1 }];
        assert(r@ =~= directions_spec());
        r
    }
}

/// At radius 0 the circle and the circumference around a valid point hold that point
/// alone.
pub proof fn zero_radius_is_the_center(center: Point, map_size: int)
    requires
        in_map(center, map_size),
    ensures
        circle_set(center, 0, map_size) == set![center],
        circumference_set(center, 0, map_size) == set![center],
{
    assert(circle_set(center, 0, map_size) =~= set![center]);
    assert(circumference_set(center, 0, map_size) =~= set![center]);
}

/// Near an edge or a corner the circle holds exactly the points of the full taxicab
/// disk that lie inside the map.
pub proof fn circle_is_clipped_disk(center: Point, radius: int, map_size: int)
    ensures
        circle_set(center, radius, map_size) == Set::new(|p: Point| dist(center, p) <= radius).filter(
            |p: Point| in_map(p, map_size),
        ),
        circumference_set(center, radius, map_size) == Set::new(|p: Point| dist(center, p) == radius).filter(
            |p: Point| in_map(p, map_size),
        ),
{
    assert(circle_set(center, radius, map_size) =~= Set::new(|p: Point| dist(center, p) <= radius).filter(
        |p: Point| in_map(p, map_size),
    ));
    assert(circumference_set(center, radius, map_size) =~= Set::new(|p: Point| dist(center, p) == radius).filter(
        |p: Point| in_map(p, map_size),
    ));
}

} // verus!
