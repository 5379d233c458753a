//! A game in progress: the board and whose turn it is.
//!
//! The game is a small state machine. Its driver asks what the turn
//! requires ([`Game::begin_turn`]), reads a move where one is wanted, and
//! hands it in ([`Game::enter`] or [`Game::play`]).

use vstd::prelude::*;
use crate::board::{Board, SIZE};
use crate::counting::outcome_of;
use crate::notation::{parse_move, parsed};
use crate::piece::{Outcome, Player};
use crate::rules::{
    after_move, can_move, finished, initial_grid, legal_move, occupancy_kept, on_board,
    well_formed, Grid,
};

verus! {

/// What a turn requires.
#[derive(Clone, Copy, Debug, PartialEq, Eq, Structural)]
pub enum Turn {
    /// Neither side can move: the game has ended with this result.
    Finished(Outcome),
    /// This player could not move and has been passed over.
    Pass(Player),
    /// This player is to move.
    Move(Player),
}

/// The state of a game as the rules see it.
pub struct GameState {
    pub grid: Grid,
    pub to_move: Player,
}

/// What the turn requires in a given state.
pub open spec fn turn_of(state: GameState) -> Turn {
    if finished(state.grid) {
        Turn::Finished(outcome_of(state.grid))
    } else if !can_move(state.grid, state.to_move) {
        Turn::Pass(state.to_move)
    } else {
        Turn::Move(state.to_move)
    }
}

/// The state in which the turn starts: a player who cannot move while the
/// opponent can is passed over, and nothing else changes.
pub open spec fn after_turn_start(state: GameState) -> GameState {
    if turn_of(state) is Pass {
        GameState { grid: state.grid, to_move: state.to_move.opponent() }
    } else {
        state
    }
}

/// The player to move may play on `(r, c)`: the square is on the board and
/// the move is legal.
pub open spec fn accepts(state: GameState, r: int, c: int) -> bool {
    on_board(r, c) && legal_move(state.grid, state.to_move, r, c)
}

/// The state after the player to move has asked for `(r, c)`: an accepted
/// move is made and the turn goes to the opponent, a rejected one changes
/// nothing.
pub open spec fn after_request(state: GameState, r: int, c: int) -> GameState {
    if accepts(state, r, c) {
        GameState {
            grid: after_move(state.grid, state.to_move, r, c),
            to_move: state.to_move.opponent(),
        }
    } else {
        state
    }
}

/// A game of Othello.
pub struct Game {
    board: Board,
    current: Player,
}

impl View for Game {
    type V = GameState;

    closed spec fn view(&self) -> GameState {
        GameState { grid: self.board@, to_move: self.current }
    }
}

impl Game {
    /// A new game: the starting position, Black to move.
    pub fn new() -> (game: Game)
        ensures
            game@ == (GameState { grid: initial_grid(), to_move: Player::Black }),
    {
        Game { board: Board::new(), current: Player::Black }
    }

    /// A game taken up in a given position, with `to_move` to play next.
    pub fn with_position(board: Board, to_move: Player) -> (game: Game)
        ensures
            game@ == (GameState { grid: board@, to_move }),
    {
        Game { board, current: to_move }
    }

    /// The position of a game is a grid of eight rows of eight cells.
    pub proof fn lemma_well_formed(&self)
        ensures
            well_formed(self@.grid),
    {
        self.board.lemma_well_formed();
    }

    /// The board as it stands.
    pub fn board(&self) -> (board: &Board)
        ensures
            board@ == self@.grid,
    {
        &self.board
    }

    /// The player whose turn it is.
    pub fn current_player(&self) -> (player: Player)
        ensures
            player == self@.to_move,
    {
        self.current
    }

    /// Starts a turn and says what it requires. Where the player to move
    /// has no legal move but the opponent has one, the turn passes to the
    /// opponent; the board is never touched.
    pub fn begin_turn(&mut self) -> (turn: Turn)
        ensures
            turn == turn_of(old(self)@),
            final(self)@ == after_turn_start(old(self)@),
            final(self)@.grid == old(self)@.grid,
    {
        if self.board.game_over() {
            return Turn::Finished(self.board.outcome());
        }
        let player = self.current;
        if !self.board.has_valid_move(&player) {
            self.current = player.opponent();
            return Turn::Pass(player);
        }
        Turn::Move(player)
    }

    /// Handles the request of the player to move to play on `(row, col)`.
    /// A square off the board and an illegal move are both rejected, and
    /// leave the game as it was; a legal move is made and ends the turn.
    pub fn play(&mut self, row: usize, col: usize) -> (accepted: bool)
        ensures
            accepted == accepts(old(self)@, row as int, col as int),
            final(self)@ == after_request(old(self)@, row as int, col as int),
            occupancy_kept(old(self)@.grid, final(self)@.grid),
    {
        let player = self.current;
        if row >= SIZE || col >= SIZE || !self.board.is_valid_move(&player, row, col) {
            return false;
        }
        self.board.apply_move(&player, row, col);
        self.current = player.opponent();
        true
    }

    /// Handles a line of input from the player to move. A line that does
    /// not name a square is rejected just as an illegal move is.
    pub fn enter(&mut self, line: &str) -> (accepted: bool)
        ensures
            accepted == accepts(old(self)@, parsed(line@).0, parsed(line@).1),
            final(self)@ == after_request(old(self)@, parsed(line@).0, parsed(line@).1),
            line@.len() != 2 ==> !accepted && final(self)@ == old(self)@,
            occupancy_kept(old(self)@.grid, final(self)@.grid),
    {
        let (row, col) = parse_move(line);
        self.play(row, col)
    }
}

} // verus!
