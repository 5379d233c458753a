//! Othello (Reversi) on the standard 8x8 board.
//!
//! The crate is split into the vocabulary of the game ([`piece`]), the rules
//! stated as mathematics over a grid of cells ([`rules`]) together with the
//! counting of pieces ([`counting`]), the executable board that is proved
//! against them ([`board`]), the turn-taking state machine built on top of
//! it ([`game`]), the textual notation for moves and positions
//! ([`notation`]), and the facts that follow from the rules ([`theorems`]).

pub mod board;
pub mod counting;
pub mod game;
pub mod notation;
pub mod piece;
pub mod rules;
pub mod theorems;

pub use board::Board;
pub use game::{Game, Turn};
pub use piece::{Cell, Outcome, Player};
