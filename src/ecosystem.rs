pub mod amphibian;
pub mod insect;
pub mod simple_animal;
pub mod snake;
pub mod water_flow;
pub mod water_cycle;
