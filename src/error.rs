use vstd::prelude::*;

verus! {

/// Why a paint request was refused.
#[derive(Debug, Clone, Copy, PartialEq, Eq, Structural)]
pub enum PaintError {
    /// No palette color has this index.
    InvalidColorIndex,
    /// The color exists but users may not paint it.
    ColorNotPaintable,
    /// The coordinates lie outside the map.
    InvalidPosition,
}

} // verus!

verus! {

/// Why a map could not be built from a height map.
#[derive(Debug, Clone, Copy, PartialEq, Eq, Structural)]
pub enum MapError {
    /// The height map does not hold exactly `size * size` heights.
    HeightMapMismatch,
    /// The map would hold no cell.
    EmptyHeightMap,
}

} // verus!
