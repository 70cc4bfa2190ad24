use ecosim::point::Point;
use std::collections::HashSet;

#[test]
fn circle() {
    let map_size = 100;

    let check = |center: Point, radius: usize, expected: &[[isize; 2]]| {
        let mut iter = center.circle(radius, map_size);
        let mut points: HashSet<[isize; 2]> = HashSet::new();
        while let Some(point) = iter.next() {
            points.insert([point.x, point.y]);
        }

        let expected: HashSet<_> = expected.iter().copied().collect();
        assert_eq!(points, expected);
    };

    check(Point::new(10, 20), 0, &[[10, 20]]);
    check(
        Point::new(10, 20),
        1,
        &[[9, 20], [10, 19], [10, 20], [10, 21], [11, 20]],
    );
    check(
        Point::new(10, 20),
        2,
        &[
            [8, 20],
            [9, 19],
            [9, 20],
            [9, 21],
            [10, 18],
            [10, 19],
            [10, 20],
            [10, 21],
            [10, 22],
            [11, 19],
            [11, 20],
            [11, 21],
            [12, 20],
        ],
    );

    check(
        Point::new(1, 20),
        2,
        &[
            [0, 19],
            [0, 20],
            [0, 21],
            [1, 18],
            [1, 19],
            [1, 20],
            [1, 21],
            [1, 22],
            [2, 19],
            [2, 20],
            [2, 21],
            [3, 20],
        ],
    );

    check(
        Point::new(0, 20),
        2,
        &[
            [0, 18],
            [0, 19],
            [0, 20],
            [0, 21],
            [0, 22],
            [1, 19],
            [1, 20],
            [1, 21],
            [2, 20],
        ],
    );

    check(
        Point::new(98, 20),
        2,
        &[
            [96, 20],
            [97, 19],
            [97, 20],
            [97, 21],
            [98, 18],
            [98, 19],
            [98, 20],
            [98, 21],
            [98, 22],
            [99, 19],
            [99, 20],
            [99, 21],
        ],
    );

    check(
        Point::new(99, 20),
        2,
        &[
            [97, 20],
            [98, 19],
            [98, 20],
            [98, 21],
            [99, 18],
            [99, 19],
            [99, 20],
            [99, 21],
            [99, 22],
        ],
    );
}

#[test]
fn circumference() {
    let map_size = 100;

    let check = |center: Point, radius: usize, expected: &[[isize; 2]]| {
        let mut iter = center.circumference(radius, map_size);
        let mut points: HashSet<[isize; 2]> = HashSet::new();
        while let Some(point) = iter.next() {
            points.insert([point.x, point.y]);
        }

        let expected: HashSet<_> = expected.iter().copied().collect();
        assert_eq!(points, expected);
    };

    check(Point::new(10, 20), 0, &[[10, 20]]);
    check(
        Point::new(10, 20),
        1,
        &[[9, 20], [11, 20], [10, 21], [10, 19]],
    );
    check(
        Point::new(10, 20),
        2,
        &[
            [8, 20],
            [12, 20],
            [9, 21],
            [9, 19],
            [10, 22],
            [10, 18],
            [11, 21],
            [11, 19],
        ],
    );

    check(
        Point::new(1, 20),
        2,
        &[
            [3, 20],
            [0, 21],
            [0, 19],
            [1, 22],
            [1, 18],
            [2, 21],
            [2, 19],
        ],
    );

    check(
        Point::new(0, 20),
        2,
        &[[2, 20], [0, 22], [0, 18], [1, 21], [1, 19]],
    );

    check(
        Point::new(98, 20),
        2,
        &[
            [96, 20],
            [97, 21],
            [97, 19],
            [98, 22],
            [98, 18],
            [99, 21],
            [99, 19],
        ],
    );

    check(
        Point::new(99, 20),
        2,
        &[[97, 20], [98, 21], [98, 19], [99, 22], [99, 18]],
    );
}
