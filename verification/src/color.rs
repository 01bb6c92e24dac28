use vstd::prelude::*;
use vstd::string::StringExecFns;

verus! {

/// The two sides of the game.
#[derive(Copy, Clone, Debug, PartialEq, Eq, Structural)]
pub enum Color {
    White,
    Black,
}

/// Number of colors.
pub const NUM_COLORS: usize = 2;

/// The colors, by index.
pub const ALL_COLORS: [Color; 2] = [Color::White, Color::Black];

impl Color {
    /// Position of the color in per-color arrays: White is 0, Black is 1.
    pub open spec fn index(self) -> int {
        match self {
            Color::White => 0,
            Color::Black => 1,
        }
    }

    /// The other color.
    pub open spec fn flipped(self) -> Color {
        match self {
            Color::White => Color::Black,
            Color::Black => Color::White,
        }
    }

    /// Change of rank of a piece of this color that advances by one step.
    pub open spec fn step(self) -> int {
        match self {
            Color::White => 1,
            Color::Black => -1,
        }
    }

    /// Position of the color in per-color arrays.
    pub fn to_index(&self) -> (r: usize)
        ensures
            r == self.index(),
    {
        match self {
            Color::White => 0,
            Color::Black => 1,
        }
    }

    /// The opponent of this color; applying it twice gives the color back.
    pub fn opposite(self) -> (r: Color)
        ensures
            r == self.flipped(),
            r.flipped() == self,
    {
        match self {
            Color::White => Color::Black,
            Color::Black => Color::White,
        }
    }

    /// One-letter name of the color: "w" or "b".
    pub fn to_string(&self) -> (s: String)
        ensures
            s@ == (if *self == Color::White { "w"@ } else { "b"@ }),
    {
        match self {
            Color::White => String::from_str("w"),
            Color::Black => String::from_str("b"),
        }
    }
}

} // verus!
