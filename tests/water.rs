use ecosim::cell::cell_water::CellWater;
use ecosim::cell::Cell;
use ecosim::ecosystem::water_cycle::WaterCycleSystem;
use ecosim::ecosystem::water_flow::WaterFlowSystem;
use ecosim::map::World;
use ecosim::point::Point;

/// A 3 by 3 map whose rows have the given heights.
fn map_with_rows(rows: [[u8; 3]; 3]) -> World {
    let heights: Vec<u8> = rows.iter().flat_map(|row| row.iter().copied()).collect();
    World::new(3, &heights, 1).unwrap()
}

fn water(world: &World, x: isize, y: isize) -> CellWater {
    world.cell(Point::new(x, y)).unwrap().water
}

fn put_water(world: &mut World, x: isize, y: isize, w: CellWater) {
    let cell = world.cell(Point::new(x, y)).unwrap();
    world.set_cell(Point::new(x, y), Cell { water: w, ..cell });
}

#[test]
fn water_flows_downhill_within_one_tick() {
    let mut world = map_with_rows([[9, 9, 9], [9, 9, 9], [0, 0, 0]]);
    let flows = WaterFlowSystem::new(1, 1, &world);
    put_water(&mut world, 0, 1, CellWater::Shallow);
    let version = world.version_id();

    assert!(flows.flow(&mut world, 2));

    assert_eq!(water(&world, 0, 1), CellWater::Empty);
    // The lowest neighbor, one row down, received the water.
    assert_eq!(water(&world, 0, 2), CellWater::Shallow);
    let wet: usize = (0..3)
        .flat_map(|y| (0..3).map(move |x| (x, y)))
        .filter(|&(x, y)| water(&world, x, y) != CellWater::Empty)
        .count();
    assert_eq!(wet, 1);
    assert!(world.version_id() > version);
}

#[test]
fn water_on_flat_ground_stays() {
    let mut world = map_with_rows([[9, 9, 9], [9, 9, 9], [9, 9, 9]]);
    let flows = WaterFlowSystem::new(1, 1, &world);
    put_water(&mut world, 1, 1, CellWater::Shallow);
    let version = world.version_id();

    assert!(!flows.flow(&mut world, 2));

    assert_eq!(water(&world, 1, 1), CellWater::Shallow);
    assert_eq!(world.version_id(), version);
}

#[test]
fn water_cannot_chain_multiple_cells_in_a_single_tick() {
    // A slope down the first column: the water that reaches the middle cell this tick
    // may not go on to the bottom one before the next tick.
    let mut world = map_with_rows([[9, 9, 9], [5, 9, 9], [0, 9, 9]]);
    let flows = WaterFlowSystem::new(1, 1, &world);
    put_water(&mut world, 0, 0, CellWater::Shallow);

    assert!(flows.flow(&mut world, 2));
    assert_eq!(water(&world, 0, 0), CellWater::Empty);
    assert_eq!(water(&world, 0, 1), CellWater::Shallow);
    assert_eq!(water(&world, 0, 2), CellWater::Empty);

    assert!(flows.flow(&mut world, 3));
    assert_eq!(water(&world, 0, 1), CellWater::Empty);
    assert_eq!(water(&world, 0, 2), CellWater::Shallow);
}

#[test]
fn water_two_sources_on_the_same_row() {
    // Both sources lie above the low row: each gives its level to the cell below it.
    let mut world = map_with_rows([[9, 9, 9], [9, 9, 9], [0, 0, 0]]);
    let flows = WaterFlowSystem::new(1, 1, &world);
    put_water(&mut world, 0, 1, CellWater::Shallow);
    put_water(&mut world, 1, 1, CellWater::Shallow);

    assert!(flows.flow(&mut world, 2));
    assert_eq!(water(&world, 0, 1), CellWater::Empty);
    assert_eq!(water(&world, 1, 1), CellWater::Empty);
    assert_eq!(water(&world, 0, 2), CellWater::Shallow);
    assert_eq!(water(&world, 1, 2), CellWater::Shallow);
}

#[test]
fn deep_water_floods_uphill_by_less_than_a_thickness() {
    // Deep water at height 9 gives a level to an empty neighbor at height 10: the
    // fall is -1, above the least fall of -2 for deep to shallow with thickness 2.
    let mut world = map_with_rows([[9, 10, 255], [255, 255, 255], [255, 255, 255]]);
    let flows = WaterFlowSystem::new(1, 2, &world);
    let low = world.cell(Point::new(0, 0)).unwrap().height;
    let high = world.cell(Point::new(1, 0)).unwrap().height;
    assert!(high > low && high - low < 2);
    put_water(&mut world, 0, 0, CellWater::Deep);

    assert!(flows.flow(&mut world, 2));
    assert_eq!(water(&world, 0, 0), CellWater::Shallow);
    assert_eq!(water(&world, 1, 0), CellWater::Shallow);
}

#[test]
fn evaporation_with_certainty_dries_every_cell_by_one_level() {
    let mut world = map_with_rows([[1, 2, 3], [4, 5, 6], [7, 8, 9]]);
    put_water(&mut world, 0, 0, CellWater::Deep);
    put_water(&mut world, 2, 2, CellWater::Shallow);
    let mut cycle = WaterCycleSystem::new(1, 10);
    let version = world.version_id();

    cycle.evaporate(&mut world, 1_000_000, 5);

    assert_eq!(water(&world, 0, 0), CellWater::Shallow);
    assert_eq!(water(&world, 2, 2), CellWater::Empty);
    assert_eq!(cycle.atmosphere_water, 12);
    assert!(world.version_id() > version);
}

#[test]
fn evaporation_that_never_fires_changes_nothing() {
    let mut world = map_with_rows([[1, 2, 3], [4, 5, 6], [7, 8, 9]]);
    put_water(&mut world, 1, 1, CellWater::Deep);
    let mut cycle = WaterCycleSystem::new(1, 10);

    cycle.evaporate(&mut world, 0, 5);

    assert_eq!(water(&world, 1, 1), CellWater::Deep);
    assert_eq!(cycle.atmosphere_water, 10);
}

#[test]
fn rain_takes_from_the_atmosphere_what_falls() {
    let mut world = map_with_rows([[1, 2, 3], [4, 5, 6], [7, 8, 9]]);
    let mut cycle = WaterCycleSystem::new(4, 100);

    cycle.rain(&mut world, 3, 5);

    let levels: i64 = (0..3)
        .flat_map(|y| (0..3).map(move |x| (x, y)))
        .map(|(x, y)| match water(&world, x, y) {
            CellWater::Empty => 0,
            CellWater::Shallow => 1,
            CellWater::Deep => 2,
        })
        .sum();
    assert_eq!(levels, 3);
    assert_eq!(cycle.atmosphere_water, 97);
}

#[test]
fn rain_wets_each_cell_once_per_tick() {
    let mut world = map_with_rows([[1, 2, 3], [4, 5, 6], [7, 8, 9]]);
    let mut cycle = WaterCycleSystem::new(4, 100);

    cycle.rain(&mut world, 50, 5);
    for y in 0..3 {
        for x in 0..3 {
            assert_eq!(water(&world, x, y), CellWater::Shallow);
        }
    }
    assert_eq!(cycle.atmosphere_water, 91);

    cycle.rain(&mut world, 50, 6);
    cycle.rain(&mut world, 50, 7);
    for y in 0..3 {
        for x in 0..3 {
            assert_eq!(water(&world, x, y), CellWater::Deep);
        }
    }
    assert_eq!(cycle.atmosphere_water, 82);
}

#[test]
fn water_goes_to_the_lowest_of_equally_near_cells() {
    // Both side neighbors are lower; the plan lists the lower one first.
    let mut world = map_with_rows([[100, 200, 0], [255, 255, 255], [255, 255, 255]]);
    let flows = WaterFlowSystem::new(1, 1, &world);
    put_water(&mut world, 1, 0, CellWater::Shallow);

    assert!(flows.flow(&mut world, 2));
    assert_eq!(water(&world, 1, 0), CellWater::Empty);
    assert_eq!(water(&world, 2, 0), CellWater::Shallow);
    assert_eq!(water(&world, 0, 0), CellWater::Empty);
}

#[test]
fn evaporation_follows_the_draws_cell_by_cell() {
    let mut world = map_with_rows([[1, 2, 3], [4, 5, 6], [7, 8, 9]]);
    put_water(&mut world, 0, 0, CellWater::Deep);
    put_water(&mut world, 1, 0, CellWater::Shallow);
    put_water(&mut world, 2, 2, CellWater::Shallow);
    let mut cycle = WaterCycleSystem::new(1, 10);
    // Row by row: the draw for (0, 0) fires, (1, 0) does not, (2, 2) fires, and the
    // draw for the dry cell (1, 1) changes nothing.
    let draws = vec![true, false, false, false, true, false, false, false, true];
    let version = world.version_id();

    cycle.evaporate_with(&mut world, &draws);

    assert_eq!(water(&world, 0, 0), CellWater::Shallow);
    assert_eq!(water(&world, 1, 0), CellWater::Shallow);
    assert_eq!(water(&world, 1, 1), CellWater::Empty);
    assert_eq!(water(&world, 2, 2), CellWater::Empty);
    assert_eq!(cycle.atmosphere_water, 12);
    assert_eq!(world.version_id(), version);
}
