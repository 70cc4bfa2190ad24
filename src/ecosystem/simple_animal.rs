use vstd::prelude::*;
use rand::rngs::SmallRng;
use crate::cell::Cell;
use crate::cell::cell_animal::CellAnimal;
use crate::cell::cell_grass::CellGrass;
use crate::cell::cell_water::CellWater;
use crate::ecosystem::amphibian::Amphibian;
use crate::ecosystem::insect::Insect;
use crate::extrema::farthest_from;
use crate::map::{next_version, World};
use crate::point::{
    dist, fits_isize, in_circle, in_map, on_circumference, surroundings_spec, Point,
};
use crate::random::{new_rng, pick};

verus! {

/// What a simple animal is looking for.
#[derive(Debug, Clone, Copy, PartialEq, Eq, Structural)]
pub enum SimpleAnimalState {
    SearchFood,
    SearchMatingGround,
    SearchPartner,
}

/// The state that insects and amphibians share. Times are milliseconds on the
/// simulation's clock.
#[derive(Debug, Clone, Copy, PartialEq, Eq, Structural)]
pub struct SimpleAnimal {
    pub state: SimpleAnimalState,
    pub direction: Direction,
    pub destination: Option<Point>,
    pub last_feeding: u64,
}

/// A step that a simple animal may take: where it lands and which way it then faces.
#[derive(Debug, Clone, Copy, PartialEq, Eq, Structural)]
pub struct WalkCandidate {
    pub target: Point,
    pub new_direction: Direction,
}

/// One of the four unit directions an animal can face.
#[derive(Debug, Clone, Copy, PartialEq, Eq, Structural)]
pub enum Direction {
    PlusX,
    PlusY,
    MinusX,
    MinusY,
}

impl Direction {
    pub open spec fn vector(self) -> Point {
        match self {
            Direction::PlusX => Point { x: 1, y: 0 },
            Direction::PlusY => Point { x: 0, y: 1 },
            Direction::MinusX => Point { x: -1isize, y: 0 },
            Direction::MinusY => Point { x: 0, y: -1isize },
        }
    }

    /// A quarter turn from +x toward +y.
    pub open spec fn right(self) -> Direction {
        match self {
            Direction::PlusX => Direction::PlusY,
            Direction::PlusY => Direction::MinusX,
            Direction::MinusX => Direction::MinusY,
            Direction::MinusY => Direction::PlusX,
        }
    }

    /// A quarter turn from +x toward -y.
    pub open spec fn left(self) -> Direction {
        match self {
            Direction::PlusX => Direction::MinusY,
            Direction::PlusY => Direction::PlusX,
            Direction::MinusX => Direction::PlusY,
            Direction::MinusY => Direction::MinusX,
        }
    }

    pub fn to_point(self) -> (r: Point)
        ensures
            r == self.vector(),
    {
        match self {
            Direction::PlusX => Point { x: 1, y: 0 },
            Direction::PlusY => Point { x: 0, y: 1 },
            Direction::MinusX => Point { x: -1, y: 0 },
            Direction::MinusY => Point { x: 0, y: -1 },
        }
    }

    /// The direction a quarter turn right: `(x, y)` becomes `(-y, x)`.
    pub fn turn_right(self) -> (r: Direction)
        ensures
            r == self.right(),
            r.vector().x == -self.vector().y,
            r.vector().y == self.vector().x,
    {
        match self {
            Direction::PlusX => Direction::PlusY,
            Direction::PlusY => Direction::MinusX,
            Direction::MinusX => Direction::MinusY,
            Direction::MinusY => Direction::PlusX,
        }
    }

    /// The direction a quarter turn left: `(x, y)` becomes `(y, -x)`.
    pub fn turn_left(self) -> (r: Direction)
        ensures
            r == self.left(),
            r.vector().x == self.vector().y,
            r.vector().y == -self.vector().x,
    {
        match self {
            Direction::PlusX => Direction::MinusY,
            Direction::PlusY => Direction::PlusX,
            Direction::MinusX => Direction::PlusY,
            Direction::MinusY => Direction::MinusX,
        }
    }
}

impl SimpleAnimal {
    /// A newborn: looking for food, facing +x, fed at `now`.
    pub fn new(now: u64) -> (r: SimpleAnimal)
        ensures
            r == newborn(now),
    {
        SimpleAnimal {
            state: SimpleAnimalState::SearchFood,
            direction: Direction::PlusX,
            destination: None,
            last_feeding: now,
        }
    }
}

pub open spec fn newborn(now: u64) -> SimpleAnimal {
    SimpleAnimal {
        state: SimpleAnimalState::SearchFood,
        direction: Direction::PlusX,
        destination: None,
        last_feeding: now,
    }
}

impl WalkCandidate {
    /// A step of `scale` cells from `point` along `direction`.
    pub fn new(point: Point, direction: Direction, scale: usize) -> (r: WalkCandidate)
        requires
            scale <= isize::MAX,
            fits_isize(point.x + direction.vector().x * scale),
            fits_isize(point.y + direction.vector().y * scale),
        ensures
            r.target.x == point.x + direction.vector().x * scale,
            r.target.y == point.y + direction.vector().y * scale,
            r.new_direction == direction,
    {
        let s = scale as isize;
        let target = match direction {
            Direction::PlusX => Point { x: point.x + s, y: point.y },
            Direction::PlusY => Point { x: point.x, y: point.y + s },
            Direction::MinusX => Point { x: point.x - s, y: point.y },
            Direction::MinusY => Point { x: point.x, y: point.y - s },
        };
        WalkCandidate { target, new_direction: direction }
    }
}

/// The species that share the simple-animal state machine.
#[derive(Debug, Clone, Copy, PartialEq, Eq, Structural)]
pub enum SimpleAnimalKind {
    Insect,
    Amphibian,
}

/// What one animal does in a tick.
#[derive(Debug, Clone, Copy, PartialEq, Eq, Structural)]
pub enum Change {
    Eat(Point),
    SearchPartner,
    Mate { partner: Point, new_born: Point },
    MoveTo(WalkCandidate),
    SetDestination(Point),
    SearchMatingGround,
    Starve,
}

/// Which cells an animal looks for around itself.
#[derive(Debug, Clone, Copy, PartialEq, Eq, Structural)]
pub enum Goal {
    Food,
    MatingGround,
    Partner,
    NewBorn,
}

/// The tunables of one species. Times are milliseconds.
#[derive(Debug, Clone, Copy, PartialEq, Eq, Structural)]
pub struct SimpleAnimalParams {
    pub kind: SimpleAnimalKind,
    pub eating_radius: usize,
    pub mating_radius: usize,
    pub destination_radius: usize,
    pub starvation_delay: u64,
}

/// Runs the state machine of one species over the map.
#[derive(Debug)]
pub struct SimpleAnimalSystem {
    pub params: SimpleAnimalParams,
    pub rng: SmallRng,
}

pub open spec fn animal_of(kind: SimpleAnimalKind, cell: Cell) -> Option<SimpleAnimal> {
    match (kind, cell.animal) {
        (SimpleAnimalKind::Insect, CellAnimal::Insect(i)) => Some(i.0),
        (SimpleAnimalKind::Amphibian, CellAnimal::Amphibian(a)) => Some(a.0),
        _ => None,
    }
}

pub open spec fn build_spec(kind: SimpleAnimalKind, a: SimpleAnimal) -> CellAnimal {
    match kind {
        SimpleAnimalKind::Insect => CellAnimal::Insect(Insect(a)),
        SimpleAnimalKind::Amphibian => CellAnimal::Amphibian(Amphibian(a)),
    }
}

/// Insects eat dead matter; amphibians eat insects.
pub open spec fn food_goal(kind: SimpleAnimalKind, cell: Cell) -> bool {
    match kind {
        SimpleAnimalKind::Insect => cell.animal is Dead,
        SimpleAnimalKind::Amphibian => cell.animal is Insect,
    }
}

/// Insects mate on grass; amphibians on water.
pub open spec fn mating_ground(kind: SimpleAnimalKind, cell: Cell) -> bool {
    match kind {
        SimpleAnimalKind::Insect => cell.grass != CellGrass::Empty,
        SimpleAnimalKind::Amphibian => cell.water != CellWater::Empty,
    }
}

pub open spec fn step(p: Point, d: Direction, scale: int) -> WalkCandidate {
    WalkCandidate {
        target: Point { x: (p.x + d.vector().x * scale) as isize, y: (p.y + d.vector().y * scale) as isize },
        new_direction: d,
    }
}

/// Insects turn right or left by one cell; amphibians also go one or two cells
/// forward.
pub open spec fn walk_candidates_spec(kind: SimpleAnimalKind, p: Point, d: Direction) -> Seq<
    WalkCandidate,
> {
    match kind {
        SimpleAnimalKind::Insect => seq![step(p, d.right(), 1), step(p, d.left(), 1)],
        SimpleAnimalKind::Amphibian => seq![
            step(p, d.right(), 1),
            step(p, d.left(), 1),
            step(p, d, 1),
            step(p, d, 2),
        ],
    }
}

pub open spec fn cell_of(rows: Seq<Seq<Cell>>, p: Point) -> Cell {
    rows[p.y as int][p.x as int]
}

/// Whether the cell at `t` is what an animal at `p` looks for.
pub open spec fn goal_holds(kind: SimpleAnimalKind, rows: Seq<Seq<Cell>>, n: int, p: Point, goal: Goal, t: Point) -> bool {
    in_map(t, n) && match goal {
        Goal::Food => food_goal(kind, cell_of(rows, t)),
        Goal::MatingGround => mating_ground(kind, cell_of(rows, t)),
        Goal::Partner => t != p && animal_of(kind, cell_of(rows, t)) is Some && animal_of(
            kind,
            cell_of(rows, t),
        )->Some_0.state == SimpleAnimalState::SearchPartner,
        Goal::NewBorn => cell_of(rows, t).animal is Empty,
    }
}

pub open spec fn any_in_circle(kind: SimpleAnimalKind, rows: Seq<Seq<Cell>>, n: int, p: Point, radius: int, goal: Goal) -> bool {
    exists|t: Point| #[trigger] in_circle(p, radius, n, t) && goal_holds(kind, rows, n, p, goal, t)
}

pub open spec fn phase_goal(state: SimpleAnimalState) -> Goal {
    match state {
        SimpleAnimalState::SearchFood => Goal::Food,
        SimpleAnimalState::SearchMatingGround => Goal::MatingGround,
        SimpleAnimalState::SearchPartner => Goal::Partner,
    }
}

pub open spec fn is_starving(delay: u64, now: u64, a: SimpleAnimal) -> bool {
    now - a.last_feeding > delay
}

/// The goal of the animal's phase can be met this tick.
pub open spec fn goal_reachable(prm: SimpleAnimalParams, rows: Seq<Seq<Cell>>, n: int, p: Point, a: SimpleAnimal) -> bool {
    match a.state {
        SimpleAnimalState::SearchFood => any_in_circle(prm.kind, rows, n, p, prm.eating_radius as int, Goal::Food),
        SimpleAnimalState::SearchMatingGround => exists|k: int|
            0 <= k < 5 && goal_holds(prm.kind, rows, n, p, Goal::MatingGround, #[trigger] surroundings_spec(p)[k]),
        SimpleAnimalState::SearchPartner => any_in_circle(prm.kind, rows, n, p, prm.mating_radius as int, Goal::Partner)
            && any_in_circle(prm.kind, rows, n, p, prm.mating_radius as int, Goal::NewBorn),
    }
}

/// `c` meets the goal of the animal's phase.
pub open spec fn goal_change(prm: SimpleAnimalParams, rows: Seq<Seq<Cell>>, n: int, p: Point, a: SimpleAnimal, c: Change) -> bool {
    match a.state {
        SimpleAnimalState::SearchFood => c is Eat && in_circle(p, prm.eating_radius as int, n, c->Eat_0)
            && goal_holds(prm.kind, rows, n, p, Goal::Food, c->Eat_0),
        SimpleAnimalState::SearchMatingGround => c == Change::SearchPartner,
        SimpleAnimalState::SearchPartner => {
            &&& c is Mate
            &&& in_circle(p, prm.mating_radius as int, n, c->partner)
            &&& goal_holds(prm.kind, rows, n, p, Goal::Partner, c->partner)
            &&& in_circle(p, prm.mating_radius as int, n, c->new_born)
            &&& goal_holds(prm.kind, rows, n, p, Goal::NewBorn, c->new_born)
        },
    }
}

/// The animal has somewhere to walk to, and a free step to take.
pub open spec fn walk_possible(kind: SimpleAnimalKind, rows: Seq<Seq<Cell>>, n: int, p: Point, a: SimpleAnimal) -> bool {
    let cands = walk_candidates_spec(kind, p, a.direction);
    &&& a.destination is Some
    &&& a.destination->Some_0 != p
    &&& in_map(a.destination->Some_0, n)
    &&& exists|k: int| 0 <= k < cands.len() && goal_holds(kind, rows, n, p, Goal::NewBorn, #[trigger] cands[k].target)
}

/// `c` is a free step that gets as close to the destination as any free step.
pub open spec fn walk_change(kind: SimpleAnimalKind, rows: Seq<Seq<Cell>>, n: int, p: Point, a: SimpleAnimal, c: Change) -> bool {
    let cands = walk_candidates_spec(kind, p, a.direction);
    let dest = a.destination->Some_0;
    &&& c is MoveTo
    &&& cands.contains(c->MoveTo_0)
    &&& goal_holds(kind, rows, n, p, Goal::NewBorn, c->MoveTo_0.target)
    &&& forall|k: int|
        0 <= k < cands.len() && goal_holds(kind, rows, n, p, Goal::NewBorn, #[trigger] cands[k].target)
            ==> dist(c->MoveTo_0.target, dest) <= dist(cands[k].target, dest)
}

/// `c` sets a new destination as the phase asks, or gives up looking for a partner.
pub open spec fn destination_change(prm: SimpleAnimalParams, rows: Seq<Seq<Cell>>, n: int, p: Point, a: SimpleAnimal, c: Change) -> bool {
    let radius = prm.destination_radius as int;
    let goal = phase_goal(a.state);
    if any_in_circle(prm.kind, rows, n, p, radius, goal) {
        c is SetDestination && in_circle(p, radius, n, c->SetDestination_0) && goal_holds(
            prm.kind,
            rows,
            n,
            p,
            goal,
            c->SetDestination_0,
        )
    } else if a.state != SimpleAnimalState::SearchPartner {
        c is SetDestination && (on_circumference(p, radius, n, c->SetDestination_0) || (c->SetDestination_0
            == p && !exists|t: Point| #[trigger] on_circumference(p, radius, n, t)))
    } else if any_in_circle(prm.kind, rows, n, p, radius, Goal::MatingGround) {
        &&& c is SetDestination
        &&& in_circle(p, radius, n, c->SetDestination_0)
        &&& goal_holds(prm.kind, rows, n, p, Goal::MatingGround, c->SetDestination_0)
        &&& forall|t: Point|
            #[trigger] in_circle(p, radius, n, t) && goal_holds(prm.kind, rows, n, p, Goal::MatingGround, t)
                ==> dist(p, t) <= dist(p, c->SetDestination_0)
    } else {
        c == Change::SearchMatingGround
    }
}

/// The rules, first match wins: starve, meet the goal, walk, pick a destination.
pub open spec fn change_allowed(prm: SimpleAnimalParams, rows: Seq<Seq<Cell>>, n: int, now: u64, p: Point, a: SimpleAnimal, c: Change) -> bool {
    if is_starving(prm.starvation_delay, now, a) {
        c == Change::Starve
    } else if goal_reachable(prm, rows, n, p, a) {
        goal_change(prm, rows, n, p, a, c)
    } else if walk_possible(prm.kind, rows, n, p, a) {
        walk_change(prm.kind, rows, n, p, a, c)
    } else {
        destination_change(prm, rows, n, p, a, c)
    }
}

/// The map fits the radii: every coordinate computed around a cell fits in `isize`.
pub open spec fn params_fit(prm: SimpleAnimalParams, n: int) -> bool {
    &&& n + prm.eating_radius + 2 <= isize::MAX
    &&& n + prm.mating_radius + 2 <= isize::MAX
    &&& n + prm.destination_radius + 2 <= isize::MAX
    &&& n * 2 <= usize::MAX
}

pub open spec fn with_animal(rows: Seq<Seq<Cell>>, p: Point, animal: CellAnimal) -> Seq<Seq<Cell>> {
    rows.update(p.y as int, rows[p.y as int].update(p.x as int, Cell { animal, ..rows[p.y as int][p.x as int] }))
}

/// What each change needs to find at commit time for it to apply.
pub open spec fn commit_check(kind: SimpleAnimalKind, rows: Seq<Seq<Cell>>, n: int, p: Point, c: Change) -> bool {
    let a = animal_of(kind, cell_of(rows, p))->Some_0;
    &&& in_map(p, n)
    &&& animal_of(kind, cell_of(rows, p)) is Some
    &&& match c {
        Change::Starve => true,
        Change::SetDestination(_) => true,
        Change::SearchMatingGround => a.state != SimpleAnimalState::SearchMatingGround,
        Change::SearchPartner => a.state == SimpleAnimalState::SearchMatingGround,
        Change::Eat(t) => t != p && a.state == SimpleAnimalState::SearchFood && goal_holds(kind, rows, n, p, Goal::Food, t),
        Change::Mate { partner, new_born } => {
            &&& partner != p && new_born != p && partner != new_born
            &&& a.state == SimpleAnimalState::SearchPartner
            &&& goal_holds(kind, rows, n, p, Goal::Partner, partner)
            &&& goal_holds(kind, rows, n, p, Goal::NewBorn, new_born)
        },
        Change::MoveTo(w) => w.target != p && goal_holds(kind, rows, n, p, Goal::NewBorn, w.target),
    }
}

/// The cells after one change was replayed: applied if its check holds on the
/// current cells, skipped otherwise.
pub open spec fn apply_one(kind: SimpleAnimalKind, rows: Seq<Seq<Cell>>, n: int, now: u64, p: Point, c: Change) -> Seq<Seq<Cell>> {
    if !commit_check(kind, rows, n, p, c) {
        rows
    } else {
        let a = animal_of(kind, cell_of(rows, p))->Some_0;
        match c {
            Change::Starve => if a.state == SimpleAnimalState::SearchFood {
                with_animal(rows, p, CellAnimal::Dead)
            } else {
                with_animal(
                    rows,
                    p,
                    build_spec(kind, SimpleAnimal { state: SimpleAnimalState::SearchFood, last_feeding: now, destination: None, ..a }),
                )
            },
            Change::SearchMatingGround => with_animal(
                rows,
                p,
                build_spec(kind, SimpleAnimal { state: SimpleAnimalState::SearchMatingGround, destination: None, ..a }),
            ),
            Change::SearchPartner => with_animal(
                rows,
                p,
                build_spec(kind, SimpleAnimal { state: SimpleAnimalState::SearchPartner, destination: None, ..a }),
            ),
            Change::SetDestination(d) => with_animal(
                rows,
                p,
                build_spec(kind, SimpleAnimal { destination: Some(d), ..a }),
            ),
            Change::Eat(t) => with_animal(
                with_animal(
                    rows,
                    p,
                    build_spec(
                        kind,
                        SimpleAnimal { state: SimpleAnimalState::SearchMatingGround, destination: None, last_feeding: now, ..a },
                    ),
                ),
                t,
                CellAnimal::Empty,
            ),
            Change::Mate { partner, new_born } => {
                let b = animal_of(kind, cell_of(rows, partner))->Some_0;
                with_animal(
                    with_animal(
                        with_animal(rows, p, build_spec(kind, SimpleAnimal { state: SimpleAnimalState::SearchFood, ..a })),
                        partner,
                        build_spec(kind, SimpleAnimal { state: SimpleAnimalState::SearchFood, ..b }),
                    ),
                    new_born,
                    build_spec(kind, newborn(now)),
                )
            },
            Change::MoveTo(w) => {
                let moved = SimpleAnimal {
                    destination: if a.destination == Some(w.target) {
                        None
                    } else {
                        a.destination
                    },
                    direction: w.new_direction,
                    ..a
                };
                with_animal(with_animal(rows, w.target, build_spec(kind, moved)), p, CellAnimal::Empty)
            },
        }
    }
}

/// The cells after the changes were replayed in order.
pub open spec fn apply_all(kind: SimpleAnimalKind, rows: Seq<Seq<Cell>>, n: int, now: u64, changes: Seq<(Point, Change)>) -> Seq<Seq<Cell>>
    decreases changes.len(),
{
    if changes.len() == 0 {
        rows
    } else {
        let last = changes.last();
        apply_one(kind, apply_all(kind, rows, n, now, changes.drop_last()), n, now, last.0, last.1)
    }
}

/// A replayed change alters the map only if what it needs held at commit time, on
/// the cells as they then were, not merely when it was planned.
pub proof fn committed_changes_were_rechecked(
    kind: SimpleAnimalKind,
    rows: Seq<Seq<Cell>>,
    n: int,
    now: u64,
    p: Point,
    c: Change,
)
    ensures
        apply_one(kind, rows, n, now, p, c) != rows ==> commit_check(kind, rows, n, p, c),
{
}

impl SimpleAnimalKind {
    /// The animal of this species in `cell`, if any.
    pub fn get(self, cell: &Cell) -> (r: Option<SimpleAnimal>)
        ensures
            r == animal_of(self, *cell),
    {
        match (self, cell.animal) {
            (SimpleAnimalKind::Insect, CellAnimal::Insect(i)) => Some(i.0),
            (SimpleAnimalKind::Amphibian, CellAnimal::Amphibian(a)) => Some(a.0),
            _ => None,
        }
    }

    pub fn build_cell(self, simple_animal: SimpleAnimal) -> (r: CellAnimal)
        ensures
            r == build_spec(self, simple_animal),
    {
        match self {
            SimpleAnimalKind::Insect => CellAnimal::Insect(Insect(simple_animal)),
            SimpleAnimalKind::Amphibian => CellAnimal::Amphibian(Amphibian(simple_animal)),
        }
    }

    pub fn is_food_goal(self, cell: &Cell) -> (r: bool)
        ensures
            r == food_goal(self, *cell),
    {
        match self {
            SimpleAnimalKind::Insect => cell.animal.is_dead(),
            SimpleAnimalKind::Amphibian => cell.animal.insect().is_some(),
        }
    }

    pub fn is_mating_ground_goal(self, cell: &Cell) -> (r: bool)
        ensures
            r == mating_ground(self, *cell),
    {
        match self {
            SimpleAnimalKind::Insect => !cell.grass.is_empty(),
            SimpleAnimalKind::Amphibian => !cell.water.is_empty(),
        }
    }

    /// The steps this species may take from `point` when facing `direction`.
    pub fn walk_candidates(self, point: Point, direction: Direction) -> (r: Vec<WalkCandidate>)
        requires
            fits_isize(point.x + 2),
            fits_isize(point.x - 2),
            fits_isize(point.y + 2),
            fits_isize(point.y - 2),
        ensures
            r@ == walk_candidates_spec(self, point, direction),
    {
        let d = direction;
        let right = d.turn_right();
        let left = d.turn_left();
        let r = match self {
            SimpleAnimalKind::Insect => vec![
                WalkCandidate::new(point, right, 1),
                WalkCandidate::new(point, left, 1),
            ],
            SimpleAnimalKind::Amphibian => vec![
                WalkCandidate::new(point, right, 1),
                WalkCandidate::new(point, left, 1),
                WalkCandidate::new(point, d, 1),
                WalkCandidate::new(point, d, 2),
            ],
        };
        assert(r@ =~= walk_candidates_spec(self, point, direction));
        r
    }
}

impl SimpleAnimalSystem {
    pub fn new(
        kind: SimpleAnimalKind,
        eating_radius: usize,
        mating_radius: usize,
        destination_radius: usize,
        starvation_delay: u64,
    ) -> (r: SimpleAnimalSystem)
        ensures
            r.params == (SimpleAnimalParams { kind, eating_radius, mating_radius, destination_radius, starvation_delay }),
    {
        SimpleAnimalSystem {
            params: SimpleAnimalParams { kind, eating_radius, mating_radius, destination_radius, starvation_delay },
            rng: new_rng(),
        }
    }

    /// Replay the planned changes at time `now`, each only if what it needs still
    /// holds on the map as it is then. Returns whether any was applied; if so the
    /// version advances.
    pub fn apply_changes(&self, map: &mut World, changes: &Vec<(Point, Change)>, now: u64) -> (r: bool)
        requires
            old(map).wf(),
            old(map).version() < u64::MAX,
        ensures
            final(map).wf(),
            final(map).side() == old(map).side(),
            final(map)@ == apply_all(self.params.kind, old(map)@, old(map).side() as int, now, changes@),
            !r ==> final(map)@ == old(map)@ && final(map).version() == old(map).version(),
            r ==> final(map).version() == next_version(old(map).version(), now),
    {
        let ghost rows0 = map@;
        let ghost n = map.side() as int;
        let kind = self.params.kind;
        let mut changed = false;
        let mut i: usize = 0;
        while i < changes.len()
            invariant
                map.wf(),
                map.side() == n,
                map.version() == old(map).version(),
                i <= changes@.len(),
                map@ == apply_all(kind, rows0, n, now, changes@.subrange(0, i as int)),
                !changed ==> map@ == rows0,
            decreases changes@.len() - i,
        {
            let (point, change) = changes[i];
            let wrote = Self::apply_change(kind, map, point, change, now);
            assert(changes@.subrange(0, i + 1).drop_last() =~= changes@.subrange(0, i as int));
            changed = changed || wrote;
            i = i + 1;
        }
        assert(changes@.subrange(0, changes@.len() as int) =~= changes@);
        if changed {
            map.notify_update(now);
        }
        changed
    }

    /// Replay one change; returns whether it applied.
    fn apply_change(kind: SimpleAnimalKind, map: &mut World, point: Point, change: Change, now: u64) -> (r: bool)
        requires
            old(map).wf(),
        ensures
            final(map).wf(),
            final(map).side() == old(map).side(),
            final(map).version() == old(map).version(),
            final(map)@ == apply_one(kind, old(map)@, old(map).side() as int, now, point, change),
            r == commit_check(kind, old(map)@, old(map).side() as int, point, change),
    {
        let ghost n = map.side() as int;
        let here = match map.cell(point) {
            Some(cell) => cell,
            None => {
                return false;
            },
        };
        let a = match kind.get(&here) {
            Some(a) => a,
            None => {
                return false;
            },
        };
        match change {
            Change::Starve => {
                if a.state == SimpleAnimalState::SearchFood {
                    map.set_cell(point, Cell { animal: CellAnimal::Dead, ..here });
                } else {
                    let fed = SimpleAnimal {
                        state: SimpleAnimalState::SearchFood,
                        last_feeding: now,
                        destination: None,
                        ..a
                    };
                    map.set_cell(point, Cell { animal: kind.build_cell(fed), ..here });
                }
                true
            },
            Change::SearchMatingGround => {
                if a.state != SimpleAnimalState::SearchMatingGround {
                    let b = SimpleAnimal { state: SimpleAnimalState::SearchMatingGround, destination: None, ..a };
                    map.set_cell(point, Cell { animal: kind.build_cell(b), ..here });
                    true
                } else {
                    false
                }
            },
            Change::SearchPartner => {
                if a.state == SimpleAnimalState::SearchMatingGround {
                    let b = SimpleAnimal { state: SimpleAnimalState::SearchPartner, destination: None, ..a };
                    map.set_cell(point, Cell { animal: kind.build_cell(b), ..here });
                    true
                } else {
                    false
                }
            },
            Change::SetDestination(destination) => {
                let b = SimpleAnimal { destination: Some(destination), ..a };
                map.set_cell(point, Cell { animal: kind.build_cell(b), ..here });
                true
            },
            Change::Eat(target) => {
                if target == point || a.state != SimpleAnimalState::SearchFood {
                    return false;
                }
                let food = match map.cell(target) {
                    Some(cell) => cell,
                    None => {
                        return false;
                    },
                };
                if !kind.is_food_goal(&food) {
                    return false;
                }
                let b = SimpleAnimal {
                    state: SimpleAnimalState::SearchMatingGround,
                    destination: None,
                    last_feeding: now,
                    ..a
                };
                map.set_cell(point, Cell { animal: kind.build_cell(b), ..here });
                map.set_cell(target, Cell { animal: CellAnimal::Empty, ..food });
                true
            },
            Change::Mate { partner, new_born } => {
                if partner == point || new_born == point || partner == new_born || a.state
                    != SimpleAnimalState::SearchPartner {
                    return false;
                }
                let partner_cell = match map.cell(partner) {
                    Some(cell) => cell,
                    None => {
                        return false;
                    },
                };
                let b = match kind.get(&partner_cell) {
                    Some(b) => b,
                    None => {
                        return false;
                    },
                };
                if b.state != SimpleAnimalState::SearchPartner {
                    return false;
                }
                let born_cell = match map.cell(new_born) {
                    Some(cell) => cell,
                    None => {
                        return false;
                    },
                };
                if !born_cell.animal.is_empty() {
                    return false;
                }
                let a2 = SimpleAnimal { state: SimpleAnimalState::SearchFood, ..a };
                let b2 = SimpleAnimal { state: SimpleAnimalState::SearchFood, ..b };
                map.set_cell(point, Cell { animal: kind.build_cell(a2), ..here });
                map.set_cell(partner, Cell { animal: kind.build_cell(b2), ..partner_cell });
                map.set_cell(new_born, Cell { animal: kind.build_cell(SimpleAnimal::new(now)), ..born_cell });
                true
            },
            Change::MoveTo(candidate) => {
                let target = candidate.target;
                if target == point {
                    return false;
                }
                let to = match map.cell(target) {
                    Some(cell) => cell,
                    None => {
                        return false;
                    },
                };
                if !to.animal.is_empty() {
                    return false;
                }
                let destination = if a.destination == Some(target) {
                    None
                } else {
                    a.destination
                };
                let b = SimpleAnimal { destination, direction: candidate.new_direction, ..a };
                map.set_cell(target, Cell { animal: kind.build_cell(b), ..to });
                map.set_cell(point, Cell { animal: CellAnimal::Empty, ..here });
                true
            },
        }
    }
}

/// `p` comes before row `i`, or before column `j` in that row.
pub open spec fn row_before(p: Point, i: int, j: int) -> bool {
    p.y < i || (p.y == i && p.x < j)
}

impl SimpleAnimalSystem {
    fn check_food_goal(kind: SimpleAnimalKind, map: &World, point: Point) -> (r: bool)
        requires
            map.wf(),
        ensures
            r == (in_map(point, map.side() as int) && food_goal(kind, map.cell_at(point))),
    {
        match map.cell(point) {
            Some(cell) => kind.is_food_goal(&cell),
            None => false,
        }
    }

    fn check_mating_ground_goal(kind: SimpleAnimalKind, map: &World, point: Point) -> (r: bool)
        requires
            map.wf(),
        ensures
            r == (in_map(point, map.side() as int) && mating_ground(kind, map.cell_at(point))),
    {
        match map.cell(point) {
            Some(cell) => kind.is_mating_ground_goal(&cell),
            None => false,
        }
    }

    fn check_partner_goal(kind: SimpleAnimalKind, map: &World, self_point: Point, point: Point) -> (r: bool)
        requires
            map.wf(),
        ensures
            r == goal_holds(kind, map@, map.side() as int, self_point, Goal::Partner, point),
    {
        if self_point == point {
            return false;
        }
        match map.cell(point) {
            Some(cell) => match kind.get(&cell) {
                Some(partner) => partner.state == SimpleAnimalState::SearchPartner,
                None => false,
            },
            None => false,
        }
    }

    fn check_new_born(map: &World, point: Point) -> (r: bool)
        requires
            map.wf(),
        ensures
            r == (in_map(point, map.side() as int) && map.cell_at(point).animal is Empty),
    {
        match map.cell(point) {
            Some(cell) => cell.animal.is_empty(),
            None => false,
        }
    }

    fn check_goal(kind: SimpleAnimalKind, map: &World, self_point: Point, goal: Goal, point: Point) -> (r: bool)
        requires
            map.wf(),
        ensures
            r == goal_holds(kind, map@, map.side() as int, self_point, goal, point),
    {
        match goal {
            Goal::Food => Self::check_food_goal(kind, map, point),
            Goal::MatingGround => Self::check_mating_ground_goal(kind, map, point),
            Goal::Partner => Self::check_partner_goal(kind, map, self_point, point),
            Goal::NewBorn => Self::check_new_born(map, point),
        }
    }

    /// The points within `radius` of `point` whose cells meet `goal`.
    fn points_where(kind: SimpleAnimalKind, map: &World, point: Point, radius: usize, goal: Goal) -> (r: Vec<Point>)
        requires
            map.wf(),
            in_map(point, map.side() as int),
            map.side() + radius + 2 <= isize::MAX,
        ensures
            forall|t: Point|
                r@.contains(t) <==> in_circle(point, radius as int, map.side() as int, t) && goal_holds(
                    kind,
                    map@,
                    map.side() as int,
                    point,
                    goal,
                    t,
                ),
    {
        let ghost n = map.side() as int;
        let points = point.circle(radius, map.size()).into_vec();
        let mut r: Vec<Point> = Vec::new();
        let mut q: usize = 0;
        while q < points.len()
            invariant
                map.wf(),
                n == map.side(),
                q <= points@.len(),
                forall|t: Point| points@.contains(t) <==> in_circle(point, radius as int, n, t),
                forall|t: Point|
                    r@.contains(t) <==> (exists|e: int| 0 <= e < q && points@[e] == t) && goal_holds(
                        kind,
                        map@,
                        n,
                        point,
                        goal,
                        t,
                    ),
            decreases points@.len() - q,
        {
            let t = points[q];
            let ghost before = r@;
            if Self::check_goal(kind, map, point, goal, t) {
                r.push(t);
            }
            assert forall|u: Point|
                r@.contains(u) <==> (exists|e: int| 0 <= e < q + 1 && points@[e] == u) && goal_holds(
                    kind,
                    map@,
                    n,
                    point,
                    goal,
                    u,
                ) by {
                if r@.contains(u) {
                    let k = choose|k: int| 0 <= k < r@.len() && r@[k] == u;
                    if k < before.len() {
                        assert(before[k] == u);
                        assert(before.contains(u));
                    } else {
                        assert(u == t);
                        assert(points@[q as int] == u);
                    }
                }
                if (exists|e: int| 0 <= e < q + 1 && points@[e] == u) && goal_holds(kind, map@, n, point, goal, u) {
                    let e = choose|e: int| 0 <= e < q + 1 && points@[e] == u;
                    if e < q {
                        assert(before.contains(u));
                        let k = choose|k: int| 0 <= k < before.len() && before[k] == u;
                        assert(r@[k] == u);
                    } else {
                        assert(u == t);
                        assert(r@[r@.len() - 1] == u);
                    }
                }
            }
            q = q + 1;
        }
        assert forall|t: Point|
            r@.contains(t) <==> in_circle(point, radius as int, n, t) && goal_holds(kind, map@, n, point, goal, t) by {
            if in_circle(point, radius as int, n, t) {
                assert(points@.contains(t));
                let e = choose|e: int| 0 <= e < points@.len() && points@[e] == t;
                assert(exists|e: int| 0 <= e < q && points@[e] == t);
            }
            if r@.contains(t) {
                let e = choose|e: int| 0 <= e < q && points@[e] == t;
                assert(points@.contains(t));
            }
        }
        r
    }

    /// The animal starves when it last fed more than the delay ago.
    pub fn determine_starvation(&self, now: u64, simple_animal: SimpleAnimal) -> (r: Option<Change>)
        ensures
            r == if is_starving(self.params.starvation_delay, now, simple_animal) {
                Some(Change::Starve)
            } else {
                None
            },
    {
        if now > simple_animal.last_feeding && now - simple_animal.last_feeding
            > self.params.starvation_delay {
            Some(Change::Starve)
        } else {
            None
        }
    }

    /// The change that meets the goal of the animal's phase, if it can be met now.
    pub fn determine_reached_goal(&mut self, map: &World, point: Point, simple_animal: SimpleAnimal) -> (r: Option<Change>)
        requires
            map.wf(),
            params_fit(old(self).params, map.side() as int),
            in_map(point, map.side() as int),
        ensures
            final(self).params == old(self).params,
            r is Some <==> goal_reachable(old(self).params, map@, map.side() as int, point, simple_animal),
            r is Some ==> goal_change(old(self).params, map@, map.side() as int, point, simple_animal, r->Some_0),
    {
        let ghost n = map.side() as int;
        let kind = self.params.kind;
        match simple_animal.state {
            SimpleAnimalState::SearchFood => {
                let foods = Self::points_where(kind, map, point, self.params.eating_radius, Goal::Food);
                if foods.len() > 0 {
                    assert(foods@.contains(foods@[0]));
                    Some(Change::Eat(foods[0]))
                } else {
                    assert forall|t: Point| #[trigger] in_circle(point, self.params.eating_radius as int, n, t)
                        implies !goal_holds(kind, map@, n, point, Goal::Food, t) by {
                        if goal_holds(kind, map@, n, point, Goal::Food, t) {
                            assert(foods@.contains(t));
                        }
                    }
                    None
                }
            },
            SimpleAnimalState::SearchMatingGround => {
                let around = point.surroundings();
                let mut k: usize = 0;
                while k < 5
                    invariant
                        map.wf(),
                        n == map.side(),
                        k <= 5,
                        kind == old(self).params.kind,
                        self.params == old(self).params,
                        simple_animal.state == SimpleAnimalState::SearchMatingGround,
                        around@ == surroundings_spec(point),
                        forall|e: int| 0 <= e < k ==> !goal_holds(kind, map@, n, point, Goal::MatingGround, #[trigger] surroundings_spec(point)[e]),
                    decreases 5 - k,
                {
                    if Self::check_mating_ground_goal(kind, map, around[k]) {
                        assert(goal_holds(kind, map@, n, point, Goal::MatingGround, surroundings_spec(point)[k as int]));
                        return Some(Change::SearchPartner);
                    }
                    k = k + 1;
                }
                None
            },
            SimpleAnimalState::SearchPartner => {
                let radius = self.params.mating_radius;
                let partners = Self::points_where(kind, map, point, radius, Goal::Partner);
                if partners.len() == 0 {
                    assert forall|t: Point| #[trigger] in_circle(point, radius as int, n, t)
                        implies !goal_holds(kind, map@, n, point, Goal::Partner, t) by {
                        if goal_holds(kind, map@, n, point, Goal::Partner, t) {
                            assert(partners@.contains(t));
                        }
                    }
                    return None;
                }
                assert(partners@.contains(partners@[0]));
                let borns = Self::points_where(kind, map, point, radius, Goal::NewBorn);
                match pick(&mut self.rng, &borns) {
                    Some(new_born) => Some(Change::Mate { partner: partners[0], new_born }),
                    None => {
                        assert forall|t: Point| #[trigger] in_circle(point, radius as int, n, t)
                            implies !goal_holds(kind, map@, n, point, Goal::NewBorn, t) by {
                            if goal_holds(kind, map@, n, point, Goal::NewBorn, t) {
                                assert(borns@.contains(t));
                            }
                        }
                        None
                    },
                }
            },
        }
    }
}

impl SimpleAnimalSystem {
    /// A free step toward the destination, as close to it as any free step.
    pub fn determine_next_walk(&mut self, map: &World, point: Point, simple_animal: SimpleAnimal) -> (r: Option<Change>)
        requires
            map.wf(),
            params_fit(old(self).params, map.side() as int),
            in_map(point, map.side() as int),
        ensures
            final(self).params == old(self).params,
            r is Some <==> walk_possible(old(self).params.kind, map@, map.side() as int, point, simple_animal),
            r is Some ==> walk_change(old(self).params.kind, map@, map.side() as int, point, simple_animal, r->Some_0),
    {
        let ghost n = map.side() as int;
        let kind = self.params.kind;
        let destination = match simple_animal.destination {
            Some(d) => d,
            None => {
                return None;
            },
        };
        if destination == point || !destination.is_valid(map.size()) {
            return None;
        }
        let candidates = kind.walk_candidates(point, simple_animal.direction);
        let ghost cands = candidates@;
        let mut free: Vec<(Point, WalkCandidate)> = Vec::new();
        let mut k: usize = 0;
        while k < candidates.len()
            invariant
                map.wf(),
                n == map.side(),
                n * 2 <= usize::MAX,
                in_map(destination, n),
                cands == candidates@,
                k <= cands.len(),
                forall|e: int|
                    0 <= e < free@.len() ==> {
                        let f = #[trigger] free@[e];
                        &&& f.0 == f.1.target
                        &&& cands.contains(f.1)
                        &&& goal_holds(kind, map@, n, point, Goal::NewBorn, f.0)
                    },
                forall|e: int|
                    0 <= e < k && goal_holds(kind, map@, n, point, Goal::NewBorn, #[trigger] cands[e].target)
                        ==> exists|f: int| 0 <= f < free@.len() && free@[f].1 == cands[e],
            decreases cands.len() - k,
        {
            let c = candidates[k];
            let ghost before = free@;
            if Self::check_new_born(map, c.target) {
                free.push((c.target, c));
                assert(free@[before.len() as int].1 == cands[k as int]);
            }
            assert(cands.contains(c)) by {
                assert(cands[k as int] == c);
            }
            assert forall|e: int|
                0 <= e < k + 1 && goal_holds(kind, map@, n, point, Goal::NewBorn, #[trigger] cands[e].target)
                    implies exists|f: int| 0 <= f < free@.len() && free@[f].1 == cands[e] by {
                if e < k {
                    let f = choose|f: int| 0 <= f < before.len() && before[f].1 == cands[e];
                    assert(free@[f] == before[f]);
                }
            }
            k = k + 1;
        }
        assert(crate::extrema::distances_fit(free@, destination)) by {
            assert forall|i: int| 0 <= i < free@.len() implies dist(#[trigger] free@[i].0, destination) <= usize::MAX by {
                assert(goal_holds(kind, map@, n, point, Goal::NewBorn, free@[i].0));
            }
        }
        let closest = crate::extrema::closest_to(&free, destination);
        match pick(&mut self.rng, &closest) {
            Some(best) => {
                let change = Change::MoveTo(best.1);
                proof {
                    let i = choose|i: int| 0 <= i < closest@.len() && closest@[i] == best;
                    assert(free@.contains(closest@[i]));
                    let j = choose|j: int| 0 <= j < free@.len() && free@[j] == best;
                    assert(free@[j] == best);
                    assert forall|e: int|
                        0 <= e < cands.len() && goal_holds(kind, map@, n, point, Goal::NewBorn, #[trigger] cands[e].target)
                            implies dist(best.1.target, destination) <= dist(cands[e].target, destination) by {
                        let f = choose|f: int| 0 <= f < free@.len() && free@[f].1 == cands[e];
                        assert(free@[f].0 == cands[e].target);
                        assert(dist(closest@[i].0, destination) <= dist(free@[f].0, destination));
                    }
                    assert(goal_holds(kind, map@, n, point, Goal::NewBorn, cands[0].target) ==> free@.len() > 0);
                }
                Some(change)
            },
            None => {
                assert forall|e: int|
                    0 <= e < cands.len() implies !goal_holds(kind, map@, n, point, Goal::NewBorn, #[trigger] cands[e].target) by {
                    if goal_holds(kind, map@, n, point, Goal::NewBorn, cands[e].target) {
                        let f = choose|f: int| 0 <= f < free@.len() && free@[f].1 == cands[e];
                    }
                }
                None
            },
        }
    }

    /// A new destination, as the phase asks; a partner seeker with no mating ground in
    /// sight goes back to looking for one.
    pub fn determine_next_destination(&mut self, map: &World, point: Point, simple_animal: SimpleAnimal) -> (r: Change)
        requires
            map.wf(),
            params_fit(old(self).params, map.side() as int),
            in_map(point, map.side() as int),
        ensures
            final(self).params == old(self).params,
            destination_change(old(self).params, map@, map.side() as int, point, simple_animal, r),
    {
        let ghost n = map.side() as int;
        let kind = self.params.kind;
        let radius = self.params.destination_radius;
        let goal = match simple_animal.state {
            SimpleAnimalState::SearchFood => Goal::Food,
            SimpleAnimalState::SearchMatingGround => Goal::MatingGround,
            SimpleAnimalState::SearchPartner => Goal::Partner,
        };
        let goals = Self::points_where(kind, map, point, radius, goal);
        match pick(&mut self.rng, &goals) {
            Some(destination) => {
                return Change::SetDestination(destination);
            },
            None => {},
        }
        assert forall|t: Point| #[trigger] in_circle(point, radius as int, n, t)
            implies !goal_holds(kind, map@, n, point, goal, t) by {
            if goal_holds(kind, map@, n, point, goal, t) {
                assert(goals@.contains(t));
            }
        }
        if simple_animal.state != SimpleAnimalState::SearchPartner {
            let far = point.circumference(radius, map.size()).into_vec();
            match pick(&mut self.rng, &far) {
                Some(destination) => Change::SetDestination(destination),
                None => {
                    assert forall|t: Point| !#[trigger] on_circumference(point, radius as int, n, t) by {
                        if on_circumference(point, radius as int, n, t) {
                            assert(far@.contains(t));
                        }
                    }
                    Change::SetDestination(point)
                },
            }
        } else {
            let grounds = Self::points_where(kind, map, point, radius, Goal::MatingGround);
            let mut pairs: Vec<(Point, ())> = Vec::new();
            let mut k: usize = 0;
            while k < grounds.len()
                invariant
                    k <= grounds@.len(),
                    pairs@.len() == k,
                    forall|e: int| 0 <= e < k ==> #[trigger] pairs@[e] == (grounds@[e], ()),
                decreases grounds@.len() - k,
            {
                pairs.push((grounds[k], ()));
                k = k + 1;
            }
            assert(crate::extrema::distances_fit(pairs@, point)) by {
                assert forall|i: int| 0 <= i < pairs@.len() implies dist(#[trigger] pairs@[i].0, point) <= usize::MAX by {
                    assert(grounds@.contains(grounds@[i]));
                }
            }
            let farthest = farthest_from(&pairs, point);
            match pick(&mut self.rng, &farthest) {
                Some(best) => {
                    proof {
                        let i = choose|i: int| 0 <= i < farthest@.len() && farthest@[i] == best;
                        assert(pairs@.contains(farthest@[i]));
                        let j = choose|j: int| 0 <= j < pairs@.len() && pairs@[j] == best;
                        assert(grounds@.contains(grounds@[j]));
                        assert forall|t: Point|
                            #[trigger] in_circle(point, radius as int, n, t) && goal_holds(kind, map@, n, point, Goal::MatingGround, t)
                                implies dist(point, t) <= dist(point, best.0) by {
                            assert(grounds@.contains(t));
                            let e = choose|e: int| 0 <= e < grounds@.len() && grounds@[e] == t;
                            assert(pairs@[e] == (t, ()));
                            assert(dist(farthest@[i].0, point) >= dist(pairs@[e].0, point));
                        }
                    }
                    Change::SetDestination(best.0)
                },
                None => {
                    assert forall|t: Point| #[trigger] in_circle(point, radius as int, n, t)
                        implies !goal_holds(kind, map@, n, point, Goal::MatingGround, t) by {
                        if goal_holds(kind, map@, n, point, Goal::MatingGround, t) {
                            assert(grounds@.contains(t));
                            let e = choose|e: int| 0 <= e < grounds@.len() && grounds@[e] == t;
                            assert(pairs@[e] == (t, ()));
                        }
                    }
                    Change::SearchMatingGround
                },
            }
        }
    }

    /// What the animal at `point` does this tick: the first rule that applies.
    pub fn determine_change(&mut self, map: &World, point: Point, simple_animal: SimpleAnimal, now: u64) -> (r: Change)
        requires
            map.wf(),
            params_fit(old(self).params, map.side() as int),
            in_map(point, map.side() as int),
        ensures
            final(self).params == old(self).params,
            change_allowed(old(self).params, map@, map.side() as int, now, point, simple_animal, r),
    {
        match self.determine_starvation(now, simple_animal) {
            Some(change) => {
                return change;
            },
            None => {},
        }
        match self.determine_reached_goal(map, point, simple_animal) {
            Some(change) => {
                return change;
            },
            None => {},
        }
        match self.determine_next_walk(map, point, simple_animal) {
            Some(change) => {
                return change;
            },
            None => {},
        }
        self.determine_next_destination(map, point, simple_animal)
    }

    /// Plan one tick: a change for every animal of this species, in grid order.
    pub fn determine_changes(&mut self, map: &World, now: u64) -> (r: Vec<(Point, Change)>)
        requires
            map.wf(),
            params_fit(old(self).params, map.side() as int),
        ensures
            final(self).params == old(self).params,
            forall|k: int|
                0 <= k < r@.len() ==> {
                    let (p, c) = #[trigger] r@[k];
                    &&& in_map(p, map.side() as int)
                    &&& animal_of(old(self).params.kind, map.cell_at(p)) is Some
                    &&& change_allowed(
                        old(self).params,
                        map@,
                        map.side() as int,
                        now,
                        p,
                        animal_of(old(self).params.kind, map.cell_at(p))->Some_0,
                        c,
                    )
                },
            forall|p: Point|
                in_map(p, map.side() as int) && #[trigger] animal_of(old(self).params.kind, map.cell_at(p)) is Some
                    ==> exists|k: int| 0 <= k < r@.len() && r@[k].0 == p,
            forall|k: int, l: int|
                0 <= k < l < r@.len() ==> row_before(#[trigger] r@[k].0, (#[trigger] r@[l].0).y as int, r@[l].0.x as int),
    {
        let ghost n = map.side() as int;
        let ghost prm = self.params;
        let size = map.size();
        let kind = self.params.kind;
        let mut changes: Vec<(Point, Change)> = Vec::new();
        let mut i: usize = 0;
        while i < size
            invariant
                map.wf(),
                n == map.side(),
                size == n,
                kind == prm.kind,
                self.params == prm,
                prm == old(self).params,
                params_fit(prm, n),
                i <= size,
                forall|k: int|
                    0 <= k < changes@.len() ==> {
                        let (p, c) = #[trigger] changes@[k];
                        &&& in_map(p, n)
                        &&& row_before(p, i as int, 0)
                        &&& animal_of(kind, map.cell_at(p)) is Some
                        &&& change_allowed(prm, map@, n, now, p, animal_of(kind, map.cell_at(p))->Some_0, c)
                    },
                forall|p: Point|
                    in_map(p, n) && row_before(p, i as int, 0) && #[trigger] animal_of(kind, map.cell_at(p)) is Some
                        ==> exists|k: int| 0 <= k < changes@.len() && changes@[k].0 == p,
                forall|k: int, l: int|
                    0 <= k < l < changes@.len() ==> row_before(#[trigger] changes@[k].0, (#[trigger] changes@[l].0).y as int, changes@[l].0.x as int),
            decreases size - i,
        {
            let mut j: usize = 0;
            while j < size
                invariant
                    map.wf(),
                    n == map.side(),
                    size == n,
                    kind == prm.kind,
                    self.params == prm,
                    prm == old(self).params,
                    params_fit(prm, n),
                    i < size,
                    j <= size,
                    forall|k: int|
                        0 <= k < changes@.len() ==> {
                            let (p, c) = #[trigger] changes@[k];
                            &&& in_map(p, n)
                            &&& row_before(p, i as int, j as int)
                            &&& animal_of(kind, map.cell_at(p)) is Some
                            &&& change_allowed(prm, map@, n, now, p, animal_of(kind, map.cell_at(p))->Some_0, c)
                        },
                    forall|p: Point|
                        in_map(p, n) && row_before(p, i as int, j as int) && #[trigger] animal_of(kind, map.cell_at(p)) is Some
                            ==> exists|k: int| 0 <= k < changes@.len() && changes@[k].0 == p,
                    forall|k: int, l: int|
                        0 <= k < l < changes@.len() ==> row_before(#[trigger] changes@[k].0, (#[trigger] changes@[l].0).y as int, changes@[l].0.x as int),
                decreases size - j,
            {
                let point = Point { x: j as isize, y: i as isize };
                let ghost before = changes@;
                match map.cell(point) {
                    Some(cell) => match kind.get(&cell) {
                        Some(simple_animal) => {
                            let change = self.determine_change(map, point, simple_animal, now);
                            changes.push((point, change));
                            assert(changes@[before.len() as int] == (point, change));
                        },
                        None => {},
                    },
                    None => {},
                }
                assert forall|p: Point|
                    in_map(p, n) && row_before(p, i as int, j + 1) && #[trigger] animal_of(kind, map.cell_at(p)) is Some
                        implies exists|k: int| 0 <= k < changes@.len() && changes@[k].0 == p by {
                    if row_before(p, i as int, j as int) {
                        let k = choose|k: int| 0 <= k < before.len() && before[k].0 == p;
                        assert(changes@[k] == before[k]);
                    } else {
                        assert(p == point);
                        assert(changes@[before.len() as int].0 == p);
                    }
                }
                j = j + 1;
            }
            i = i + 1;
        }
        changes
    }
}

} // verus!
