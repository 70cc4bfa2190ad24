use ecosim::cell::cell_animal::CellAnimal;
use ecosim::cell::Cell;
use ecosim::cell_color::CellColor;
use ecosim::ecosystem::amphibian::Amphibian;
use ecosim::ecosystem::simple_animal::SimpleAnimal;
use ecosim::ecosystem::snake::{
    Change, SnakeParams, SnakeSegment, SnakeSegmentKind, SnakeSpecies, SnakeSystem,
};
use ecosim::map::World;
use ecosim::point::Point;
use std::collections::{HashMap, HashSet};

fn params(starvation_delay: u64) -> SnakeParams {
    SnakeParams {
        min_size: 3,
        a_max_size: 5,
        b_max_size: 5,
        c_max_size: 5,
        a_move_ratio: 1_000_000,
        b_move_ratio: 1_000_000,
        c_move_ratio: 1_000_000,
        eating_radius: 2,
        starvation_delay,
    }
}

fn tick(system: &mut SnakeSystem, world: &mut World, now: u64) -> bool {
    let changes = system.determine_changes(world, now);
    system.apply_changes(world, &changes, now)
}

fn segment(world: &World, p: Point) -> Option<SnakeSegment> {
    world.cell(p).unwrap().animal.snake().and_then(|s| s.segment)
}

fn snake_cells(world: &World) -> Vec<Point> {
    let mut found = Vec::new();
    for y in 0..world.size() as isize {
        for x in 0..world.size() as isize {
            if world.cell(Point::new(x, y)).unwrap().animal.snake().is_some() {
                found.push(Point::new(x, y));
            }
        }
    }
    found
}

/// Follow the links from the only head; returns the points visited, head first.
fn walk_from_head(world: &World) -> Vec<Point> {
    let heads: Vec<Point> = snake_cells(world)
        .into_iter()
        .filter(|&p| matches!(segment(world, p).map(|s| s.kind), Some(SnakeSegmentKind::Head { .. })))
        .collect();
    assert_eq!(heads.len(), 1);
    let mut points = vec![heads[0]];
    let mut next = segment(world, heads[0]).unwrap().next_segment;
    while let Some(p) = next {
        assert!(points.len() <= 5);
        let s = segment(world, p).unwrap();
        assert_eq!(s.kind, SnakeSegmentKind::Body);
        assert_eq!(world.cell(p).unwrap().animal.snake().unwrap().species, SnakeSpecies::A);
        points.push(p);
        next = s.next_segment;
    }
    points
}

fn paint_snake(world: &mut World, now: u64) {
    for y in [2, 3, 4] {
        world.set_cell_color(Point::new(3, y), CellColor::SnakeA, now).unwrap();
    }
}

#[test]
fn snake_formation_and_movement() {
    let mut world = World::new(7, &vec![0; 49], 1).unwrap();
    let mut system = SnakeSystem::new(params(1_000_000));
    paint_snake(&mut world, 1);

    assert!(tick(&mut system, &mut world, 2));
    let body = walk_from_head(&world);
    assert_eq!(body.len(), 3);
    assert!(body[0] == Point::new(3, 2) || body[0] == Point::new(3, 4));
    assert_eq!(body[1], Point::new(3, 3));

    let prey = Point::new(3, 6);
    let mut cell = world.cell(prey).unwrap();
    cell.animal = CellAnimal::Amphibian(Amphibian(SimpleAnimal::new(2)));
    world.set_cell(prey, cell);

    let mut now = 3;
    let mut distance = body[0].distance(prey);
    while world.cell(prey).unwrap().animal.amphibian().is_some() {
        assert!(now < 40);
        assert!(tick(&mut system, &mut world, now));
        let head = walk_from_head(&world)[0];
        if world.cell(prey).unwrap().animal.amphibian().is_some() {
            assert!(head.distance(prey) <= distance + 1);
            distance = head.distance(prey);
        }
        now += 1;
    }
    assert_eq!(snake_cells(&world).len(), 4);
    assert_eq!(walk_from_head(&world).len(), 4);
}

#[test]
fn snake_starves_when_head_last_feeding_is_older_than_starvation_delay() {
    let mut world = World::new(7, &vec![0; 49], 1).unwrap();
    let mut system = SnakeSystem::new(params(0));
    paint_snake(&mut world, 1);
    assert!(tick(&mut system, &mut world, 2));
    assert_eq!(walk_from_head(&world).len(), 3);

    assert!(tick(&mut system, &mut world, 3));

    for y in [2, 3, 4] {
        assert!(world.cell(Point::new(3, y)).unwrap().animal.is_dead());
    }
}

#[test]
fn two_spare_parts_do_not_make_a_snake() {
    let mut world = World::new(7, &vec![0; 49], 1).unwrap();
    let mut system = SnakeSystem::new(params(1_000_000));
    world.set_cell_color(Point::new(1, 1), CellColor::SnakeB, 1).unwrap();
    world.set_cell_color(Point::new(1, 2), CellColor::SnakeB, 1).unwrap();

    let changes = system.determine_changes(&world, 2);
    assert!(changes.is_empty());
}

#[test]
fn dangling_body_dies() {
    let mut world = World::new(5, &vec![0; 25], 1).unwrap();
    let mut system = SnakeSystem::new(params(1_000_000));
    let mut cell = world.cell(Point::new(2, 2)).unwrap();
    cell.animal = CellAnimal::Snake(ecosim::ecosystem::snake::Snake {
        species: SnakeSpecies::C,
        segment: Some(SnakeSegment { kind: SnakeSegmentKind::Body, next_segment: None }),
    });
    world.set_cell(Point::new(2, 2), cell);

    let changes = system.determine_changes(&world, 2);
    assert_eq!(changes, vec![Change::Death(Point::new(2, 2))]);
    assert!(system.apply_changes(&mut world, &changes, 2));
    assert!(world.cell(Point::new(2, 2)).unwrap().animal.is_dead());
}

#[test]
fn extract_snake_follows_links_and_claims_bodies() {
    let body = |next: Option<Point>| SnakeSegment { kind: SnakeSegmentKind::Body, next_segment: next };
    let n = 5;
    let index = |p: Point| p.y as usize * n + p.x as usize;
    let mut bodies: HashMap<usize, SnakeSegment> = HashMap::new();
    bodies.insert(index(Point::new(1, 0)), body(Some(Point::new(2, 0))));
    bodies.insert(index(Point::new(2, 0)), body(Some(Point::new(3, 0))));
    bodies.insert(index(Point::new(3, 0)), body(None));
    bodies.insert(index(Point::new(4, 4)), body(None));

    let snake = SnakeSystem::extract_snake(3, 3, Point::new(0, 0), Some(Point::new(1, 0)), &mut bodies, n);

    assert_eq!(snake, Some(vec![Point::new(0, 0), Point::new(1, 0), Point::new(2, 0)]));
    let left: HashSet<usize> = bodies.keys().copied().collect();
    assert_eq!(left, HashSet::from([index(Point::new(3, 0)), index(Point::new(4, 4))]));

    let short = SnakeSystem::extract_snake(3, 5, Point::new(4, 3), Some(Point::new(4, 4)), &mut bodies, n);
    assert_eq!(short, None);
    assert!(!bodies.contains_key(&index(Point::new(4, 4))));
}

#[test]
fn stale_move_is_skipped_at_commit() {
    let mut world = World::new(7, &vec![0; 49], 1).unwrap();
    let mut system = SnakeSystem::new(params(1_000_000));
    paint_snake(&mut world, 1);
    assert!(tick(&mut system, &mut world, 2));
    let body = walk_from_head(&world);
    let target = Point::new(body[0].x + 1, body[0].y);
    // Another writer fills the target between planning and commit.
    world.set_cell_color(target, CellColor::Insect, 3).unwrap();
    let before = world.version_id();

    let changes = vec![Change::Move { snake: body.clone(), target }];
    assert!(!system.apply_changes(&mut world, &changes, 4));
    assert_eq!(walk_from_head(&world), body);
    assert_eq!(world.version_id(), before);
}

#[test]
fn snake_without_prey_walks_forward_or_sideways() {
    let mut world = World::new(7, &vec![0; 49], 1).unwrap();
    let mut system = SnakeSystem::new(params(1_000_000));
    paint_snake(&mut world, 1);
    assert!(tick(&mut system, &mut world, 2));
    let before = walk_from_head(&world);

    assert!(tick(&mut system, &mut world, 3));

    let after = walk_from_head(&world);
    assert_eq!(after.len(), 3);
    assert_eq!(after[1], before[0]);
    assert_eq!(after[2], before[1]);
    assert_eq!(after[0].distance(before[0]), 1);
    assert_ne!(after[0], before[1]);
    assert!(world.cell(before[2]).unwrap().animal.is_empty());
}

#[test]
fn short_head_and_unclaimed_body_die_in_one_plan() {
    let mut world = World::new(7, &vec![0; 49], 1).unwrap();
    let mut system = SnakeSystem::new(params(1_000_000));
    let head = ecosim::ecosystem::snake::Snake {
        species: SnakeSpecies::A,
        segment: Some(SnakeSegment { kind: SnakeSegmentKind::Head { last_feeding: 1 }, next_segment: Some(Point::new(1, 2)) }),
    };
    let body = |next: Option<Point>| ecosim::ecosystem::snake::Snake {
        species: SnakeSpecies::A,
        segment: Some(SnakeSegment { kind: SnakeSegmentKind::Body, next_segment: next }),
    };
    for (p, snake) in [
        (Point::new(1, 1), head),
        (Point::new(1, 2), body(None)),
        (Point::new(5, 5), body(None)),
    ] {
        let mut cell = world.cell(p).unwrap();
        cell.animal = CellAnimal::Snake(snake);
        world.set_cell(p, cell);
    }

    let changes = system.determine_changes(&world, 2);

    assert_eq!(changes.len(), 2);
    assert!(changes.contains(&Change::Death(Point::new(1, 1))));
    assert!(changes.contains(&Change::Death(Point::new(5, 5))));
}
