use ecosim::cell::cell_animal::CellAnimal;
use ecosim::cell::cell_grass::CellGrass;
use ecosim::cell::cell_water::CellWater;
use ecosim::cell::Cell;
use ecosim::cell_color::CellColor;
use ecosim::error::{MapError, PaintError};
use ecosim::get_map::{prepare_response, Request as MapRequest};
use ecosim::map::World;
use ecosim::monitored_rwlock::RunningAverage;
use ecosim::point::Point;
use ecosim::set_cell_color::{set_cell_color, Request as PaintRequest};

#[test]
fn heights_are_stretched_to_the_full_range() {
    let world = World::new(2, &vec![10, 20, 30, 40], 7).unwrap();
    let heights: Vec<u8> = [(0, 0), (1, 0), (0, 1), (1, 1)]
        .iter()
        .map(|&(x, y)| world.cell(Point::new(x, y)).unwrap().height)
        .collect();
    assert_eq!(heights, vec![0, 85, 170, 255]);
    assert_eq!(world.version_id(), 7);
    assert_eq!(world.size(), 2);
}

#[test]
fn flat_height_map_is_all_zero() {
    let world = World::new(2, &vec![42, 42, 42, 42], 7).unwrap();
    assert_eq!(world.cell(Point::new(1, 1)).unwrap().height, 0);
}

#[test]
fn height_map_of_the_wrong_size_is_refused() {
    assert_eq!(World::new(2, &vec![1, 2, 3], 7).unwrap_err(), MapError::HeightMapMismatch);
    assert_eq!(World::new(0, &vec![], 7).unwrap_err(), MapError::EmptyHeightMap);
}

#[test]
fn cells_outside_the_map_are_absent() {
    let world = World::new(3, &vec![0; 9], 1).unwrap();
    assert!(world.cell(Point::new(-1, 0)).is_none());
    assert!(world.cell(Point::new(0, 3)).is_none());
    assert_eq!(world.cell(Point::new(2, 2)), Some(Cell::empty(0)));
}

#[test]
fn color_follows_layer_precedence() {
    let mut cell = Cell::empty(3);
    assert_eq!(cell.color(), CellColor::Empty);
    cell.set_grass(CellGrass::High);
    assert_eq!(cell.color(), CellColor::HighGrass);
    cell.set_water(CellWater::Deep);
    assert_eq!(cell.color(), CellColor::DeepWater);
    *cell.animal_mut() = CellAnimal::Dead;
    assert_eq!(cell.color(), CellColor::DeadMatter);
    // The same cell always shows the same color.
    assert_eq!(cell.color(), cell.clone().color());
}

#[test]
fn painting_a_color_reads_back_modulo_precedence() {
    let mut cell = Cell::empty(0);
    cell.with_color(CellColor::LowGrass, 1).unwrap();
    assert_eq!(cell.color(), CellColor::LowGrass);
    cell.with_color(CellColor::ShallowWater, 1).unwrap();
    assert_eq!(cell.color(), CellColor::ShallowWater);
    cell.with_color(CellColor::SnakeC, 1).unwrap();
    assert_eq!(cell.color(), CellColor::SnakeC);
    // Grass under a snake stays hidden.
    cell.with_color(CellColor::LowGrass, 1).unwrap();
    assert_eq!(cell.color(), CellColor::SnakeC);
    assert_eq!(cell.grass, CellGrass::Low);
    assert_eq!(cell.water, CellWater::Shallow);
}

#[test]
fn painting_empty_then_shallow_water_shows_water() {
    let mut cell = Cell::empty(0);
    cell.with_color(CellColor::Insect, 1).unwrap();
    cell.with_color(CellColor::LowGrass, 1).unwrap();
    cell.with_color(CellColor::Empty, 2).unwrap();
    cell.with_color(CellColor::ShallowWater, 3).unwrap();
    assert_eq!(cell.color(), CellColor::ShallowWater);
    assert_eq!(cell.grass, CellGrass::Empty);
}

#[test]
fn colors_users_may_not_paint_are_refused() {
    let mut cell = Cell::empty(0);
    for color in [CellColor::DryGrass, CellColor::HighGrass, CellColor::DeepWater, CellColor::DeadMatter] {
        assert_eq!(cell.with_color(color, 1), Err(PaintError::ColorNotPaintable));
    }
    assert_eq!(cell, Cell::empty(0));
}

#[test]
fn palette_is_bit_exact() {
    let rgb: Vec<[u8; 3]> = CellColor::all_colors().iter().map(|c| c.as_rgb()).collect();
    assert_eq!(
        rgb,
        vec![
            [255, 255, 255],
            [50, 18, 16],
            [188, 226, 61],
            [229, 205, 23],
            [217, 158, 47],
            [184, 83, 55],
            [171, 144, 101],
            [99, 130, 86],
            [27, 116, 72],
            [47, 168, 232],
            [9, 70, 99],
            [123, 123, 123],
        ]
    );
    let available: Vec<usize> = CellColor::available_colors().iter().map(|c| c.as_index()).collect();
    assert_eq!(available, vec![0, 1, 2, 3, 4, 5, 7, 9]);
    assert_eq!(CellColor::try_from_index(9), Ok(CellColor::ShallowWater));
    assert_eq!(CellColor::try_from_index(12), Err(PaintError::InvalidColorIndex));
}

#[test]
fn paint_request_advances_the_version() {
    let mut world = World::new(3, &vec![0; 9], 100).unwrap();
    let request = PaintRequest { x_index: 2, y_index: 1, color_index: 7 };

    let response = set_cell_color(&mut world, request, 50).unwrap();

    assert_eq!(response.version_id, 101);
    assert_eq!(world.version_id(), 101);
    assert_eq!(world.cell(Point::new(2, 1)).unwrap().color(), CellColor::LowGrass);

    let response = set_cell_color(&mut world, request, 500).unwrap();
    assert_eq!(response.version_id, 500);
}

#[test]
fn paint_request_errors() {
    let mut world = World::new(3, &vec![0; 9], 100).unwrap();
    let bad_color = PaintRequest { x_index: 0, y_index: 0, color_index: 12 };
    let not_paintable = PaintRequest { x_index: 0, y_index: 0, color_index: 10 };
    let outside = PaintRequest { x_index: 3, y_index: 0, color_index: 1 };

    assert_eq!(set_cell_color(&mut world, bad_color, 200), Err(PaintError::InvalidColorIndex));
    assert_eq!(set_cell_color(&mut world, not_paintable, 200), Err(PaintError::ColorNotPaintable));
    assert_eq!(set_cell_color(&mut world, outside, 200), Err(PaintError::InvalidPosition));
    assert_eq!(world.version_id(), 100);
    assert_eq!(world.cell(Point::new(0, 0)), Some(Cell::empty(0)));
}

#[test]
fn snapshot_lists_one_color_per_cell() {
    let mut world = World::new(2, &vec![0; 4], 9).unwrap();
    world.set_cell_color(Point::new(1, 0), CellColor::Amphibian, 10).unwrap();

    let response = prepare_response(&world);

    assert_eq!(response.version_id, 10);
    assert_eq!(response.size, 2);
    assert_eq!(response.colors.len(), 12);
    assert_eq!(response.colors[3], [229, 205, 23]);
    assert_eq!(response.available_color_indexes, vec![0, 1, 2, 3, 4, 5, 7, 9]);
    assert_eq!(response.cell_color_indexes, vec![0, 2, 0, 0]);
}

#[test]
fn long_poll_waits_only_on_the_current_version() {
    let world = World::new(2, &vec![0; 4], 9).unwrap();
    assert!(MapRequest { last_version_id: Some(9) }.should_wait(&world));
    assert!(!MapRequest { last_version_id: Some(8) }.should_wait(&world));
    assert!(!MapRequest { last_version_id: None }.should_wait(&world));
}

#[test]
fn version_strictly_increases_on_every_commit() {
    let mut world = World::new(2, &vec![0; 4], 1_000).unwrap();
    let mut last = world.version_id();
    for now in [5, 1_000, 1_001, 3_000, 2] {
        world.notify_update(now);
        assert!(world.version_id() > last);
        last = world.version_id();
    }
    assert_eq!(last, 3_001);
}

#[test]
fn running_average_pops_the_mean() {
    let mut average = RunningAverage::new();
    assert_eq!(average.pop(), None);
    average.push(10);
    average.push(20);
    average.push(40);
    assert_eq!(average.pop(), Some(23));
    assert_eq!(average.pop(), None);
}

#[test]
fn zero_radius_yields_the_center_alone() {
    let corner = Point::new(0, 0);
    let mut circle = corner.circle(0, 4).into_vec();
    let mut ring = corner.circumference(0, 4).into_vec();
    circle.sort_by_key(|p| (p.x, p.y));
    ring.sort_by_key(|p| (p.x, p.y));
    assert_eq!(circle, vec![corner]);
    assert_eq!(ring, vec![corner]);
}

#[test]
fn circle_at_a_corner_keeps_only_valid_points() {
    let mut points = Point::new(0, 0).circle(1, 3).into_vec();
    points.sort_by_key(|p| (p.x, p.y));
    assert_eq!(points, vec![Point::new(0, 0), Point::new(0, 1), Point::new(1, 0)]);
    let mut ring = Point::new(2, 2).circumference(2, 3).into_vec();
    ring.sort_by_key(|p| (p.x, p.y));
    assert_eq!(ring, vec![Point::new(0, 2), Point::new(1, 1), Point::new(2, 0)]);
}

#[test]
fn geometry_helpers() {
    let p = Point::new(3, -2);
    assert_eq!(p.distance(Point::new(-1, 4)), 10);
    assert_eq!(Point::new(1, 0).turn_right(), Point::new(0, 1));
    assert_eq!(Point::new(1, 0).turn_left(), Point::new(0, -1));
    assert_eq!(p.turn_over(), Point::new(-3, 2));
    assert_eq!(p.add(Point::new(1, 1)), Point::new(4, -1));
    assert_eq!(p.sub(Point::new(1, 1)), Point::new(2, -3));
    assert_eq!(p.mul(3), Point::new(9, -6));
    assert_eq!(Point::new_ij((4, 7)), Point::new(7, 4));
    assert!(Point::new(2, 0).is_valid(3));
    assert!(!Point::new(3, 0).is_valid(3));
    assert_eq!(
        p.surroundings(),
        [Point::new(2, -2), Point::new(3, -3), Point::new(3, -2), Point::new(3, -1), Point::new(4, -2)]
    );
}
