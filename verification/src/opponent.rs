//! The selectable opponents for a game.

use vstd::prelude::*;

verus! {

/// Who plays the other side: a second human or a computer opponent of
/// one of three strengths.
#[derive(Copy, Clone, Debug, PartialEq, Eq, Structural)]
pub enum Opponent {
    Human,
    EasyCPU,
    MediumCPU,
    HardCPU,
}

} // verus!
