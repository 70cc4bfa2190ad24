use vstd::prelude::*;
use crate::error::PaintError;

verus! {

/// The palette: what a cell looks like.
#[derive(Debug, Clone, Copy, PartialEq, Eq, Structural)]
pub enum CellColor {
    Empty,
    Insect,
    Amphibian,
    SnakeA,
    SnakeB,
    SnakeC,
    DryGrass,
    LowGrass,
    HighGrass,
    ShallowWater,
    DeepWater,
    DeadMatter,
}

pub const COLOR_COUNT: usize = 12;

pub open spec fn color_index(c: CellColor) -> nat {
    match c {
        CellColor::Empty => 0,
        CellColor::Insect => 1,
        CellColor::Amphibian => 2,
        CellColor::SnakeA => 3,
        CellColor::SnakeB => 4,
        CellColor::SnakeC => 5,
        CellColor::DryGrass => 6,
        CellColor::LowGrass => 7,
        CellColor::HighGrass => 8,
        CellColor::ShallowWater => 9,
        CellColor::DeepWater => 10,
        CellColor::DeadMatter => 11,
    }
}

pub open spec fn color_rgb(c: CellColor) -> Seq<u8> {
    match c {
        CellColor::Empty => seq![255u8, 255, 255],
        CellColor::Insect => seq![50u8, 18, 16],
        CellColor::Amphibian => seq![188u8, 226, 61],
        CellColor::SnakeA => seq![229u8, 205, 23],
        CellColor::SnakeB => seq![217u8, 158, 47],
        CellColor::SnakeC => seq![184u8, 83, 55],
        CellColor::DryGrass => seq![171u8, 144, 101],
        CellColor::LowGrass => seq![99u8, 130, 86],
        CellColor::HighGrass => seq![27u8, 116, 72],
        CellColor::ShallowWater => seq![47u8, 168, 232],
        CellColor::DeepWater => seq![9u8, 70, 99],
        CellColor::DeadMatter => seq![123u8, 123, 123],
    }
}

/// The colors that users may paint.
pub open spec fn is_paintable(c: CellColor) -> bool {
    match c {
        CellColor::DryGrass | CellColor::HighGrass | CellColor::DeepWater
        | CellColor::DeadMatter => false,
        _ => true,
    }
}

pub open spec fn available_colors_spec() -> Seq<CellColor> {
    seq![
        CellColor::Empty,
        CellColor::Insect,
        CellColor::Amphibian,
        CellColor::SnakeA,
        CellColor::SnakeB,
        CellColor::SnakeC,
        CellColor::LowGrass,
        CellColor::ShallowWater,
    ]
}

impl CellColor {
    pub fn as_index(self) -> (r: usize)
        ensures
            r == color_index(self),
            r < COLOR_COUNT,
    {
        match self {
            CellColor::Empty => 0,
            CellColor::Insect => 1,
            CellColor::Amphibian => 2,
            CellColor::SnakeA => 3,
            CellColor::SnakeB => 4,
            CellColor::SnakeC => 5,
            CellColor::DryGrass => 6,
            CellColor::LowGrass => 7,
            CellColor::HighGrass => 8,
            CellColor::ShallowWater => 9,
            CellColor::DeepWater => 10,
            CellColor::DeadMatter => 11,
        }
    }

    pub fn as_rgb(self) -> (r: [u8; 3])
        ensures
            r@ == color_rgb(self),
    {
        let r = match self {
            CellColor::Empty => [255, 255, 255],
            CellColor::Insect => [50, 18, 16],
            CellColor::Amphibian => [188, 226, 61],
            CellColor::SnakeA => [229, 205, 23],
            CellColor::SnakeB => [217, 158, 47],
            CellColor::SnakeC => [184, 83, 55],
            CellColor::DryGrass => [171, 144, 101],
            CellColor::LowGrass => [99, 130, 86],
            CellColor::HighGrass => [27, 116, 72],
            CellColor::ShallowWater => [47, 168, 232],
            CellColor::DeepWater => [9, 70, 99],
            CellColor::DeadMatter => [123, 123, 123],
        };
        assert(r@ =~= color_rgb(self));
        r
    }

    pub fn try_from_index(index: usize) -> (r: Result<CellColor, PaintError>)
        ensures
            index < COLOR_COUNT <==> r is Ok,
            r is Ok ==> color_index(r->Ok_0) == index,
            r is Err ==> r->Err_0 == PaintError::InvalidColorIndex,
    {
        match index {
            0 => Ok(CellColor::Empty),
            1 => Ok(CellColor::Insect),
            2 => Ok(CellColor::Amphibian),
            3 => Ok(CellColor::SnakeA),
            4 => Ok(CellColor::SnakeB),
            5 => Ok(CellColor::SnakeC),
            6 => Ok(CellColor::DryGrass),
            7 => Ok(CellColor::LowGrass),
            8 => Ok(CellColor::HighGrass),
            9 => Ok(CellColor::ShallowWater),
            10 => Ok(CellColor::DeepWater),
            11 => Ok(CellColor::DeadMatter),
            _ => Err(PaintError::InvalidColorIndex),
        }
    }

    /// All colors, sorted by their index.
    pub fn all_colors() -> (r: Vec<CellColor>)
        ensures
            r@.len() == COLOR_COUNT,
            forall|i: int| 0 <= i < COLOR_COUNT ==> color_index(#[trigger] r@[i]) == i,
    {
        let mut r: Vec<CellColor> = Vec::new();
        let mut i: usize = 0;
        while i < COLOR_COUNT
            invariant
                i <= COLOR_COUNT,
                r@.len() == i,
                forall|k: int| 0 <= k < i ==> color_index(#[trigger] r@[k]) == k,
            decreases COLOR_COUNT - i,
        {
            match CellColor::try_from_index(i) {
                Ok(c) => r.push(c),
                Err(_) => {},
            }
            i = i + 1;
        }
        r
    }

    /// The colors that users may paint, sorted by their index.
    pub fn available_colors() -> (r: Vec<CellColor>)
        ensures
            r@ == available_colors_spec(),
            forall|c: CellColor| r@.contains(c) <==> is_paintable(c),
    {
        let r = vec![
            CellColor::Empty,
            CellColor::Insect,
            CellColor::Amphibian,
            CellColor::SnakeA,
            CellColor::SnakeB,
            CellColor::SnakeC,
            CellColor::LowGrass,
            CellColor::ShallowWater,
        ];
        assert(r@ =~= available_colors_spec());
        assert forall|c: CellColor| r@.contains(c) <==> is_paintable(c) by {
            if is_paintable(c) {
                match c {
                    CellColor::Empty => assert(r@[0] == c),
                    CellColor::Insect => assert(r@[1] == c),
                    CellColor::Amphibian => assert(r@[2] == c),
                    CellColor::SnakeA => assert(r@[3] == c),
                    CellColor::SnakeB => assert(r@[4] == c),
                    CellColor::SnakeC => assert(r@[5] == c),
                    CellColor::LowGrass => assert(r@[6] == c),
                    CellColor::ShallowWater => assert(r@[7] == c),
                    _ => {},
                }
            }
        }
        r
    }
}

} // verus!
