use vstd::prelude::*;
use crate::ecosystem::simple_animal::SimpleAnimal;

verus! {

/// An insect: eats dead matter and mates on grass.
#[derive(Debug, Clone, Copy, PartialEq, Eq, Structural)]
pub struct Insect(pub SimpleAnimal);

} // verus!
