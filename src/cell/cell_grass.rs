use vstd::prelude::*;

verus! {

#[derive(Debug, Clone, Copy, PartialEq, Eq, Structural)]
pub enum CellGrass {
    Empty,
    Dry,
    Low,
    High,
}

impl CellGrass {
    pub fn is_empty(self) -> (r: bool)
        ensures
            r == (self == CellGrass::Empty),
    {
        matches!(self, CellGrass::Empty)
    }
}

} // verus!
