use vstd::prelude::*;

verus! {

/// What a cell holds: a stone of one of the two sides, or nothing.
#[derive(Copy, Clone, PartialEq, Eq, Debug, Structural)]
pub enum Stone {
    White,
    Black,
    Empty,
}

impl Stone {
    /// The colour that plays against `self`. `Empty` has no rival and maps
    /// to itself.
    pub open spec fn rival(self) -> Stone {
        match self {
            Stone::White => Stone::Black,
            Stone::Black => Stone::White,
            Stone::Empty => Stone::Empty,
        }
    }

    /// Whether this is a stone of one of the two sides.
    pub open spec fn is_side(self) -> bool {
        self != Stone::Empty
    }

    /// The colour that plays against `self`.
    pub fn opponent(self) -> (r: Stone)
        ensures
            r == self.rival(),
    {
        match self {
            Stone::White => Stone::Black,
            Stone::Black => Stone::White,
            Stone::Empty => Stone::Empty,
        }
    }
}

} // verus!
