use vstd::prelude::*;

verus! {

/// How much water a cell holds, from none to deep.
#[derive(Debug, Clone, Copy, PartialEq, Eq, Structural)]
pub enum CellWater {
    Empty,
    Shallow,
    Deep,
}

impl CellWater {
    /// The water level as a number: 0, 1 or 2.
    pub open spec fn level(self) -> int {
        match self {
            CellWater::Empty => 0,
            CellWater::Shallow => 1,
            CellWater::Deep => 2,
        }
    }

    pub open spec fn drier_spec(self) -> Option<CellWater> {
        match self {
            CellWater::Empty => None,
            CellWater::Shallow => Some(CellWater::Empty),
            CellWater::Deep => Some(CellWater::Shallow),
        }
    }

    pub open spec fn wetter_spec(self) -> Option<CellWater> {
        match self {
            CellWater::Empty => Some(CellWater::Shallow),
            CellWater::Shallow => Some(CellWater::Deep),
            CellWater::Deep => None,
        }
    }

    /// One level less water, if there is any.
    pub fn drier(self) -> (r: Option<Self>)
        ensures
            r == self.drier_spec(),
            r is Some ==> r->Some_0.level() == self.level() - 1,
            r is None <==> self.level() == 0,
    {
        match self {
            CellWater::Empty => None,
            CellWater::Shallow => Some(CellWater::Empty),
            CellWater::Deep => Some(CellWater::Shallow),
        }
    }

    /// One level more water, unless the cell is already deep.
    pub fn wetter(self) -> (r: Option<Self>)
        ensures
            r == self.wetter_spec(),
            r is Some ==> r->Some_0.level() == self.level() + 1,
            r is None <==> self.level() == 2,
    {
        match self {
            CellWater::Empty => Some(CellWater::Shallow),
            CellWater::Shallow => Some(CellWater::Deep),
            CellWater::Deep => None,
        }
    }

    pub fn is_empty(self) -> (r: bool)
        ensures
            r == (self == CellWater::Empty),
    {
        matches!(self, CellWater::Empty)
    }
}

} // verus!
