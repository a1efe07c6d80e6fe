//! The two piece letters shared by both TOOT-and-OTTO players.

use vstd::prelude::*;

verus! {

/// The two pieces that can be placed on a TOOT-and-OTTO board.  Both
/// players may drop either letter, subject to their remaining stock.
#[derive(Copy, Clone, Debug, PartialEq, Eq, Structural)]
pub enum PieceLetter {
    T,
    O,
}

} // verus!
