//! The two players of TOOT-and-OTTO.

use vstd::prelude::*;

verus! {

/// TOOT aims for the sequence T-O-O-T, OTTO for O-T-T-O.  TOOT moves
/// first.
#[derive(Copy, Clone, Debug, PartialEq, Eq, Structural)]
#[allow(non_camel_case_types)]
pub enum Player {
    TOOT,
    OTTO,
}

impl Player {
    /// The opposing player.
    pub open spec fn spec_switch(&self) -> Player {
        match self {
            Player::TOOT => Player::OTTO,
            Player::OTTO => Player::TOOT,
        }
    }

    /// Switches the player to the other value.
    #[verifier::when_used_as_spec(spec_switch)]
    pub fn switch(&self) -> (r: Self)
        ensures
            r == self.spec_switch(),
    {
        match self {
            Player::TOOT => Player::OTTO,
            Player::OTTO => Player::TOOT,
        }
    }
}

} // verus!
