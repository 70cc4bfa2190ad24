use vstd::prelude::*;
use crate::ecosystem::amphibian::Amphibian;
use crate::ecosystem::insect::Insect;
use crate::ecosystem::snake::Snake;

verus! {

/// The animal layer of a cell: at most one animal lives in a cell.
#[derive(Debug, Clone, Copy, PartialEq, Eq, Structural)]
pub enum CellAnimal {
    Empty,
    Insect(Insect),
    Amphibian(Amphibian),
    Snake(Snake),
    Dead,
}

impl CellAnimal {
    pub fn is_empty(&self) -> (r: bool)
        ensures
            r == (*self is Empty),
    {
        matches!(self, CellAnimal::Empty)
    }

    pub fn is_dead(&self) -> (r: bool)
        ensures
            r == (*self is Dead),
    {
        matches!(self, CellAnimal::Dead)
    }

    pub fn insect(&self) -> (r: Option<Insect>)
        ensures
            r == (match *self {
                CellAnimal::Insect(i) => Some(i),
                _ => None,
            }),
    {
        match self {
            CellAnimal::Insect(insect) => Some(*insect),
            _ => None,
        }
    }

    /// The insect of this cell, to change in place.
    pub fn insect_mut(&mut self) -> (r: Option<&mut Insect>)
        ensures
            match *old(self) {
                CellAnimal::Insect(i) => r is Some && *r->Some_0 == i && *final(self)
                    == CellAnimal::Insect(*final(r->Some_0)),
                _ => r is None && *final(self) == *old(self),
            },
    {
        match self {
            CellAnimal::Insect(insect) => Some(insect),
            _ => None,
        }
    }

    pub fn amphibian(&self) -> (r: Option<Amphibian>)
        ensures
            r == (match *self {
                CellAnimal::Amphibian(a) => Some(a),
                _ => None,
            }),
    {
        match self {
            CellAnimal::Amphibian(amphibian) => Some(*amphibian),
            _ => None,
        }
    }

    pub fn snake(&self) -> (r: Option<Snake>)
        ensures
            r == (match *self {
                CellAnimal::Snake(s) => Some(s),
                _ => None,
            }),
    {
        match self {
            CellAnimal::Snake(snake) => Some(*snake),
            _ => None,
        }
    }
}

} // verus!
