pub mod cell;
pub mod cell_color;
pub mod ecosystem;
pub mod error;
pub mod extrema;
pub mod get_map;
pub mod grid;
pub mod map;
pub mod monitored_rwlock;
pub mod point;
pub mod random;
pub mod set_cell_color;
