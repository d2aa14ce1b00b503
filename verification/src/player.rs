//! Players and the derived ownership of cells.

use vstd::prelude::*;

verus! {

/// One of the two players, or `Undef` for "no player".
///
/// `Undef` doubles as the ownership value of a cell that neither player's
/// territory reaches.
#[derive(Clone, Copy, Debug, PartialEq, Eq, Structural)]
pub enum Player {
    Undef,
    One,
    Two,
}

impl Player {
    /// The palette/ordinal index of this player: `Undef` 0, `One` 1, `Two` 2.
    pub fn index(&self) -> (r: usize)
        ensures
            r == self.spec_index(),
    {
        match self {
            Player::Undef => 0,
            Player::One => 1,
            Player::Two => 2,
        }
    }

    /// The player with the given ordinal index, taken modulo 3.
    pub fn from_index(index: usize) -> (r: Player)
        ensures
            r.spec_index() == index % 3,
    {
        match index % 3 {
            0 => Player::Undef,
            1 => Player::One,
            _ => Player::Two,
        }
    }

    pub open spec fn spec_index(self) -> int {
        match self {
            Player::Undef => 0,
            Player::One => 1,
            Player::Two => 2,
        }
    }

    /// The opponent of a real player; `Undef` has no opponent and is its own.
    pub fn other(&self) -> (r: Player)
        ensures
            r == self.spec_other(),
    {
        match self {
            Player::Undef => Player::Undef,
            Player::One => Player::Two,
            Player::Two => Player::One,
        }
    }

    pub open spec fn spec_other(self) -> Player {
        match self {
            Player::Undef => Player::Undef,
            Player::One => Player::Two,
            Player::Two => Player::One,
        }
    }
}

} // verus!
