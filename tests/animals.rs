use ecosim::cell::cell_animal::CellAnimal;
use ecosim::cell::Cell;
use ecosim::ecosystem::insect::Insect;
use ecosim::ecosystem::simple_animal::{
    Change, Direction, SimpleAnimal, SimpleAnimalKind, SimpleAnimalState, SimpleAnimalSystem,
};
use ecosim::map::World;
use ecosim::point::Point;

const NOW: u64 = 1_000;

fn empty_world(size: usize) -> World {
    World::new(size, &vec![0; size * size], NOW).unwrap()
}

fn put(world: &mut World, x: isize, y: isize, animal: CellAnimal) {
    let cell = world.cell(Point::new(x, y)).unwrap();
    world.set_cell(Point::new(x, y), Cell { animal, ..cell });
}

fn insect(state: SimpleAnimalState, last_feeding: u64) -> CellAnimal {
    CellAnimal::Insect(Insect(SimpleAnimal {
        state,
        direction: Direction::PlusX,
        destination: None,
        last_feeding,
    }))
}

fn insects(world: &World) -> Vec<(Point, SimpleAnimal)> {
    let mut found = Vec::new();
    for y in 0..world.size() as isize {
        for x in 0..world.size() as isize {
            if let Some(i) = world.cell(Point::new(x, y)).unwrap().animal.insect() {
                found.push((Point::new(x, y), i.0));
            }
        }
    }
    found
}

fn tick(system: &mut SimpleAnimalSystem, world: &mut World, now: u64) -> bool {
    let changes = system.determine_changes(world, now);
    system.apply_changes(world, &changes, now)
}

#[test]
fn lone_insect_eats_dead_matter() {
    let mut world = empty_world(5);
    put(&mut world, 2, 2, CellAnimal::Dead);
    put(&mut world, 2, 1, insect(SimpleAnimalState::SearchFood, NOW));
    let mut system = SimpleAnimalSystem::new(SimpleAnimalKind::Insect, 1, 3, 4, 60_000);

    assert!(tick(&mut system, &mut world, NOW));

    assert!(world.cell(Point::new(2, 2)).unwrap().animal.is_empty());
    let eater = world.cell(Point::new(2, 1)).unwrap().animal.insect().unwrap();
    assert_eq!(eater.0.state, SimpleAnimalState::SearchMatingGround);
    assert_eq!(eater.0.last_feeding, NOW);
}

#[test]
fn insect_mating() {
    let mut world = empty_world(9);
    put(&mut world, 4, 4, insect(SimpleAnimalState::SearchPartner, NOW));
    put(&mut world, 4, 6, insect(SimpleAnimalState::SearchPartner, NOW));
    let mut system = SimpleAnimalSystem::new(SimpleAnimalKind::Insect, 1, 3, 4, 60_000);

    assert!(tick(&mut system, &mut world, NOW));

    let all = insects(&world);
    assert_eq!(all.len(), 3);
    for (point, animal) in &all {
        assert_eq!(animal.state, SimpleAnimalState::SearchFood);
        assert!(point.distance(Point::new(4, 4)) <= 3 || point.distance(Point::new(4, 6)) <= 3);
    }
    let newborn = all
        .iter()
        .find(|(p, _)| *p != Point::new(4, 4) && *p != Point::new(4, 6))
        .unwrap();
    assert_eq!(newborn.1.last_feeding, NOW);
}

#[test]
fn starving_insect_dies_when_looking_for_food() {
    let mut world = empty_world(5);
    put(&mut world, 1, 1, insect(SimpleAnimalState::SearchFood, 0));
    let mut system = SimpleAnimalSystem::new(SimpleAnimalKind::Insect, 1, 3, 4, 10);

    assert!(tick(&mut system, &mut world, NOW));

    assert!(world.cell(Point::new(1, 1)).unwrap().animal.is_dead());
}

#[test]
fn starving_insect_goes_back_to_looking_for_food() {
    let mut world = empty_world(5);
    put(&mut world, 1, 1, insect(SimpleAnimalState::SearchPartner, 0));
    let mut system = SimpleAnimalSystem::new(SimpleAnimalKind::Insect, 1, 3, 4, 10);

    assert!(tick(&mut system, &mut world, NOW));

    let animal = world.cell(Point::new(1, 1)).unwrap().animal.insect().unwrap().0;
    assert_eq!(animal.state, SimpleAnimalState::SearchFood);
    assert_eq!(animal.last_feeding, NOW);
    assert_eq!(animal.destination, None);
}

#[test]
fn insect_on_grass_starts_looking_for_a_partner() {
    let mut world = empty_world(5);
    put(&mut world, 2, 2, insect(SimpleAnimalState::SearchMatingGround, NOW));
    let mut cell = world.cell(Point::new(2, 3)).unwrap();
    cell.grass = ecosim::cell::cell_grass::CellGrass::Low;
    world.set_cell(Point::new(2, 3), cell);
    let mut system = SimpleAnimalSystem::new(SimpleAnimalKind::Insect, 1, 3, 4, 60_000);

    let changes = system.determine_changes(&world, NOW);
    assert_eq!(changes, vec![(Point::new(2, 2), Change::SearchPartner)]);
    system.apply_changes(&mut world, &changes, NOW);

    let animal = world.cell(Point::new(2, 2)).unwrap().animal.insect().unwrap().0;
    assert_eq!(animal.state, SimpleAnimalState::SearchPartner);
}

#[test]
fn amphibian_eats_an_insect() {
    let mut world = empty_world(5);
    put(&mut world, 1, 1, CellAnimal::Amphibian(ecosim::ecosystem::amphibian::Amphibian(SimpleAnimal::new(NOW))));
    put(&mut world, 1, 2, insect(SimpleAnimalState::SearchFood, NOW));
    let mut system = SimpleAnimalSystem::new(SimpleAnimalKind::Amphibian, 1, 3, 4, 60_000);

    assert!(tick(&mut system, &mut world, NOW));

    assert!(world.cell(Point::new(1, 2)).unwrap().animal.is_empty());
    let amphibian = world.cell(Point::new(1, 1)).unwrap().animal.amphibian().unwrap();
    assert_eq!(amphibian.0.state, SimpleAnimalState::SearchMatingGround);
}

#[test]
fn insect_walks_toward_its_destination() {
    let mut world = empty_world(7);
    let walker = SimpleAnimal {
        state: SimpleAnimalState::SearchFood,
        direction: Direction::PlusX,
        destination: Some(Point::new(3, 6)),
        last_feeding: NOW,
    };
    put(&mut world, 3, 3, CellAnimal::Insect(Insect(walker)));
    let mut system = SimpleAnimalSystem::new(SimpleAnimalKind::Insect, 1, 3, 4, 60_000);

    // Facing +x, an insect may turn right (+y) or left (-y): +y is closer.
    assert!(tick(&mut system, &mut world, NOW));

    assert!(world.cell(Point::new(3, 3)).unwrap().animal.is_empty());
    let moved = world.cell(Point::new(3, 4)).unwrap().animal.insect().unwrap().0;
    assert_eq!(moved.direction, Direction::PlusY);
    assert_eq!(moved.destination, Some(Point::new(3, 6)));
}

#[test]
fn partner_seeker_without_mating_ground_gives_up() {
    let mut world = empty_world(5);
    put(&mut world, 2, 2, insect(SimpleAnimalState::SearchPartner, NOW));
    let mut system = SimpleAnimalSystem::new(SimpleAnimalKind::Insect, 1, 1, 2, 60_000);

    let changes = system.determine_changes(&world, NOW);
    assert_eq!(changes, vec![(Point::new(2, 2), Change::SearchMatingGround)]);
}

#[test]
fn stale_change_is_skipped_at_commit() {
    let mut world = empty_world(5);
    put(&mut world, 2, 2, CellAnimal::Dead);
    put(&mut world, 2, 1, insect(SimpleAnimalState::SearchFood, NOW));
    let mut system = SimpleAnimalSystem::new(SimpleAnimalKind::Insect, 1, 3, 4, 60_000);
    let changes = system.determine_changes(&world, NOW);
    assert_eq!(changes, vec![(Point::new(2, 1), Change::Eat(Point::new(2, 2)))]);

    // Another writer removes the food between planning and commit.
    put(&mut world, 2, 2, CellAnimal::Empty);
    let version = world.version_id();
    assert!(!system.apply_changes(&mut world, &changes, NOW + 1));

    let animal = world.cell(Point::new(2, 1)).unwrap().animal.insect().unwrap().0;
    assert_eq!(animal.state, SimpleAnimalState::SearchFood);
    assert_eq!(world.version_id(), version);
}

#[test]
fn partner_seeker_heads_for_the_farthest_mating_ground() {
    let mut world = empty_world(9);
    put(&mut world, 4, 4, insect(SimpleAnimalState::SearchPartner, NOW));
    for (x, y) in [(4, 5), (4, 7)] {
        let mut cell = world.cell(Point::new(x, y)).unwrap();
        cell.grass = ecosim::cell::cell_grass::CellGrass::Low;
        world.set_cell(Point::new(x, y), cell);
    }
    let mut system = SimpleAnimalSystem::new(SimpleAnimalKind::Insect, 1, 1, 3, 60_000);

    let changes = system.determine_changes(&world, NOW);
    assert_eq!(changes, vec![(Point::new(4, 4), Change::SetDestination(Point::new(4, 7)))]);
}
