use vstd::prelude::*;
use crate::ecosystem::simple_animal::SimpleAnimal;

verus! {

/// An amphibian: eats insects and mates on water.
#[derive(Debug, Clone, Copy, PartialEq, Eq, Structural)]
pub struct Amphibian(pub SimpleAnimal);

} // verus!
