pub mod cell_animal;
pub mod cell_grass;
pub mod cell_water;

use vstd::prelude::*;
use crate::cell::cell_animal::CellAnimal;
use crate::cell::cell_grass::CellGrass;
use crate::cell::cell_water::CellWater;
use crate::cell_color::{color_index, is_paintable, CellColor, COLOR_COUNT};
use crate::ecosystem::amphibian::Amphibian;
use crate::ecosystem::insect::Insect;
use crate::ecosystem::simple_animal::{newborn, SimpleAnimal};
use crate::ecosystem::snake::{Snake, SnakeSpecies};
use crate::error::PaintError;

verus! {

/// One cell of the map: an animal, water and grass layer over a fixed height.
#[derive(Debug, Clone, Copy, PartialEq, Eq, Structural)]
pub struct Cell {
    pub animal: CellAnimal,
    pub water: CellWater,
    pub grass: CellGrass,
    pub height: u8,
}

/// What a cell looks like: the animal layer shows over water, water over grass.
pub open spec fn color_of(cell: Cell) -> CellColor {
    match cell.animal {
        CellAnimal::Insect(_) => CellColor::Insect,
        CellAnimal::Amphibian(_) => CellColor::Amphibian,
        CellAnimal::Snake(snake) => match snake.species {
            SnakeSpecies::A => CellColor::SnakeA,
            SnakeSpecies::B => CellColor::SnakeB,
            SnakeSpecies::C => CellColor::SnakeC,
        },
        CellAnimal::Dead => CellColor::DeadMatter,
        CellAnimal::Empty => match cell.water {
            CellWater::Shallow => CellColor::ShallowWater,
            CellWater::Deep => CellColor::DeepWater,
            CellWater::Empty => match cell.grass {
                CellGrass::Dry => CellColor::DryGrass,
                CellGrass::Low => CellColor::LowGrass,
                CellGrass::High => CellColor::HighGrass,
                CellGrass::Empty => CellColor::Empty,
            },
        },
    }
}

/// The cell after a user paints `color` on it at time `now`; `None` for a color that
/// users may not paint. Animal colors replace the animal only, water and grass colors
/// their own layer only, and `Empty` clears every layer but the height.
pub open spec fn painted(cell: Cell, color: CellColor, now: u64) -> Option<Cell> {
    match color {
        CellColor::Empty => Some(
            Cell { animal: CellAnimal::Empty, water: CellWater::Empty, grass: CellGrass::Empty, ..cell },
        ),
        CellColor::Insect => Some(Cell { animal: CellAnimal::Insect(Insect(newborn(now))), ..cell }),
        CellColor::Amphibian => Some(
            Cell { animal: CellAnimal::Amphibian(Amphibian(newborn(now))), ..cell },
        ),
        CellColor::SnakeA => Some(
            Cell { animal: CellAnimal::Snake(Snake { species: SnakeSpecies::A, segment: None }), ..cell },
        ),
        CellColor::SnakeB => Some(
            Cell { animal: CellAnimal::Snake(Snake { species: SnakeSpecies::B, segment: None }), ..cell },
        ),
        CellColor::SnakeC => Some(
            Cell { animal: CellAnimal::Snake(Snake { species: SnakeSpecies::C, segment: None }), ..cell },
        ),
        CellColor::ShallowWater => Some(Cell { water: CellWater::Shallow, ..cell }),
        CellColor::LowGrass => Some(Cell { grass: CellGrass::Low, ..cell }),
        _ => None,
    }
}

impl Cell {
    pub open spec fn empty_spec(height: u8) -> Cell {
        Cell { animal: CellAnimal::Empty, water: CellWater::Empty, grass: CellGrass::Empty, height }
    }

    /// A cell with nothing on it.
    pub fn empty(height: u8) -> (r: Cell)
        ensures
            r == Cell::empty_spec(height),
    {
        Cell { animal: CellAnimal::Empty, water: CellWater::Empty, grass: CellGrass::Empty, height }
    }

    pub fn color(&self) -> (r: CellColor)
        ensures
            r == color_of(*self),
    {
        match self.animal {
            CellAnimal::Insect(_) => CellColor::Insect,
            CellAnimal::Amphibian(_) => CellColor::Amphibian,
            CellAnimal::Snake(snake) => match snake.species {
                SnakeSpecies::A => CellColor::SnakeA,
                SnakeSpecies::B => CellColor::SnakeB,
                SnakeSpecies::C => CellColor::SnakeC,
            },
            CellAnimal::Dead => CellColor::DeadMatter,
            CellAnimal::Empty => match self.water {
                CellWater::Shallow => CellColor::ShallowWater,
                CellWater::Deep => CellColor::DeepWater,
                CellWater::Empty => match self.grass {
                    CellGrass::Dry => CellColor::DryGrass,
                    CellGrass::Low => CellColor::LowGrass,
                    CellGrass::High => CellColor::HighGrass,
                    CellGrass::Empty => CellColor::Empty,
                },
            },
        }
    }

    /// Paint `color` on this cell at time `now`. Colors that users may not paint are
    /// refused and leave the cell as it was.
    pub fn with_color(&mut self, color: CellColor, now: u64) -> (r: Result<(), PaintError>)
        ensures
            r is Ok <==> is_paintable(color),
            r is Ok ==> painted(*old(self), color, now) == Some(*final(self)),
            r is Err ==> r->Err_0 == PaintError::ColorNotPaintable && *final(self) == *old(self),
    {
        match color {
            CellColor::Empty => {
                self.animal = CellAnimal::Empty;
                self.water = CellWater::Empty;
                self.grass = CellGrass::Empty;
            },
            CellColor::Insect => self.animal = CellAnimal::Insect(Insect(SimpleAnimal::new(now))),
            CellColor::Amphibian => self.animal = CellAnimal::Amphibian(
                Amphibian(SimpleAnimal::new(now)),
            ),
            CellColor::SnakeA => self.animal = CellAnimal::Snake(Snake::new(SnakeSpecies::A)),
            CellColor::SnakeB => self.animal = CellAnimal::Snake(Snake::new(SnakeSpecies::B)),
            CellColor::SnakeC => self.animal = CellAnimal::Snake(Snake::new(SnakeSpecies::C)),
            CellColor::ShallowWater => self.water = CellWater::Shallow,
            CellColor::LowGrass => self.grass = CellGrass::Low,
            _ => {
                return Err(PaintError::ColorNotPaintable);
            },
        }
        Ok(())
    }

    pub fn animal(&self) -> (r: &CellAnimal)
        ensures
            *r == self.animal,
    {
        &self.animal
    }

    pub fn animal_mut(&mut self) -> (r: &mut CellAnimal)
        ensures
            *r == old(self).animal,
            *final(self) == (Cell { animal: *final(r), ..*old(self) }),
    {
        &mut self.animal
    }

    pub fn water(&self) -> (r: CellWater)
        ensures
            r == self.water,
    {
        self.water
    }

    pub fn grass(&self) -> (r: CellGrass)
        ensures
            r == self.grass,
    {
        self.grass
    }

    pub fn set_water(&mut self, water: CellWater)
        ensures
            *final(self) == (Cell { water, ..*old(self) }),
    {
        self.water = water;
    }

    pub fn set_grass(&mut self, grass: CellGrass)
        ensures
            *final(self) == (Cell { grass, ..*old(self) }),
    {
        self.grass = grass;
    }

    pub fn height(&self) -> (r: u8)
        ensures
            r == self.height,
    {
        self.height
    }

    pub fn set_height(&mut self, height: u8)
        ensures
            *final(self) == (Cell { height, ..*old(self) }),
    {
        self.height = height;
    }
}

/// Every cell shows exactly one palette color, decided by the cell alone.
pub proof fn color_is_total_and_deterministic(a: Cell, b: Cell)
    ensures
        color_index(color_of(a)) < COLOR_COUNT,
        a == b ==> color_of(a) == color_of(b),
{
}

/// Painting a color and reading the cell back gives that color, unless a layer that
/// shows over the painted one is occupied: an animal hides water and grass, water
/// hides grass.
pub proof fn paint_then_read(cell: Cell, color: CellColor, now: u64)
    requires
        is_paintable(color),
    ensures
        painted(cell, color, now) is Some,
        color_of(painted(cell, color, now)->Some_0) == match color {
            CellColor::ShallowWater => if cell.animal is Empty {
                color
            } else {
                color_of(cell)
            },
            CellColor::LowGrass => if cell.animal is Empty && cell.water is Empty {
                color
            } else {
                color_of(cell)
            },
            _ => color,
        },
{
}

/// Painting `Empty` and then shallow water shows shallow water, whatever the cell held.
pub proof fn paint_empty_then_water(cell: Cell, now1: u64, now2: u64)
    ensures
        painted(cell, CellColor::Empty, now1) is Some,
        painted(painted(cell, CellColor::Empty, now1)->Some_0, CellColor::ShallowWater, now2) is Some,
        color_of(
            painted(painted(cell, CellColor::Empty, now1)->Some_0, CellColor::ShallowWater, now2)->Some_0,
        ) == CellColor::ShallowWater,
{
}

} // verus!
