//! The vocabulary of the game: the two colours, the three states of a
//! square, and the ways a game can end.

use vstd::prelude::*;

verus! {

/// The content of one square of the board.
#[derive(Clone, Copy, Debug, PartialEq, Eq, Structural)]
pub enum Cell {
    Empty,
    Black,
    White,
}

/// One of the two sides.
#[derive(Clone, Copy, Debug, PartialEq, Eq, Structural)]
pub enum Player {
    Black,
    White,
}

/// How a finished game ended. A win carries its margin: by how many
/// pieces the winner leads.
#[derive(Clone, Copy, Debug, PartialEq, Eq, Structural)]
pub enum Outcome {
    BlackWins(usize),
    WhiteWins(usize),
    Draw,
}

impl Player {
    /// The piece this player puts on the board.
    pub open spec fn spec_cell(&self) -> Cell {
        match self {
            Player::Black => Cell::Black,
            Player::White => Cell::White,
        }
    }

    /// The other side.
    pub open spec fn spec_opponent(&self) -> Player {
        match self {
            Player::Black => Player::White,
            Player::White => Player::Black,
        }
    }

    /// The piece this player puts on the board.
    #[verifier::when_used_as_spec(spec_cell)]
    pub fn cell(&self) -> (c: Cell)
        ensures
            c == self.spec_cell(),
    {
        match self {
            Player::Black => Cell::Black,
            Player::White => Cell::White,
        }
    }

    /// The other side.
    #[verifier::when_used_as_spec(spec_opponent)]
    pub fn opponent(&self) -> (p: Player)
        ensures
            p == self.spec_opponent(),
    {
        match self {
            Player::Black => Player::White,
            Player::White => Player::Black,
        }
    }
}

} // verus!
