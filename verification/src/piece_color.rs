//! The two disc colors of Connect Four.

use vstd::prelude::*;

verus! {

/// The two colors that can be placed on a Connect Four board.
/// Red moves first.
#[derive(Copy, Clone, Debug, PartialEq, Eq, Structural)]
#[allow(non_camel_case_types)]
pub enum PieceColor {
    RED,
    YELLOW,
}

impl PieceColor {
    /// The opposing color.
    pub open spec fn spec_switch(&self) -> PieceColor {
        match self {
            PieceColor::RED => PieceColor::YELLOW,
            PieceColor::YELLOW => PieceColor::RED,
        }
    }

    /// Flips the value of the piece.
    #[verifier::when_used_as_spec(spec_switch)]
    pub fn switch(&self) -> (r: Self)
        ensures
            r == self.spec_switch(),
    {
        match self {
            PieceColor::RED => PieceColor::YELLOW,
            PieceColor::YELLOW => PieceColor::RED,
        }
    }
}

} // verus!
