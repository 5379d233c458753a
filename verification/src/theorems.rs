//! What follows from the rules: facts about positions and games that hold
//! whatever the moves are.

use vstd::prelude::*;
use crate::board::Board;
use crate::counting::{
    count, lemma_cells_row_major, lemma_counts_add_up, lemma_tally_loses_one,
    lemma_tally_shrinks_strictly,
};
use crate::game::{accepts, after_request, after_turn_start, turn_of, GameState, Turn};
use crate::notation::parsed;
use crate::piece::{Cell, Player};
use crate::rules::{
    after_move, after_placing, along, can_move, captures, finished, flanks, flipped, in_run,
    is_direction, legal, legal_move, lemma_capture_by_run_length, lemma_flipped_direction,
    lemma_in_run_by_steps, occupancy_kept, on_board, ray_cell, ray_on_board, run_of, steps_to,
    toward, well_formed, Grid,
};

verus! {

/// A move that a player asks for.
pub struct Placement {
    pub player: Player,
    pub row: int,
    pub col: int,
}

/// The position reached from `g` by making `moves` in order.
pub open spec fn after_moves(g: Grid, moves: Seq<Placement>) -> Grid
    decreases moves.len(),
{
    if moves.len() == 0 {
        g
    } else {
        let last = moves.last();
        after_move(after_moves(g, moves.drop_last()), last.player, last.row, last.col)
    }
}

/// Something that happens to a game: a turn starts, or the player to move
/// asks for a square.
pub enum Event {
    TurnStart,
    Request(int, int),
}

/// The state that a game is in after one event.
pub open spec fn after_event(state: GameState, event: Event) -> GameState {
    match event {
        Event::TurnStart => after_turn_start(state),
        Event::Request(r, c) => after_request(state, r, c),
    }
}

/// The state that a game is in after a sequence of events.
pub open spec fn after_events(state: GameState, events: Seq<Event>) -> GameState
    decreases events.len(),
{
    if events.len() == 0 {
        state
    } else {
        after_event(after_events(state, events.drop_last()), events.last())
    }
}

/// A move never empties a square: every piece on the board before the move
/// is still a piece, of one colour or the other, after it.
pub proof fn lemma_move_keeps_occupancy(g: Grid, player: Player, r: int, c: int)
    ensures
        occupancy_kept(g, after_move(g, player, r, c)),
{
}

/// Occupancy is kept from a position to itself, and along a chain of
/// positions.
pub proof fn lemma_occupancy_kept_is_a_preorder(a: Grid, b: Grid, c: Grid)
    ensures
        occupancy_kept(a, a),
        occupancy_kept(a, b) && occupancy_kept(b, c) ==> occupancy_kept(a, c),
{
    if occupancy_kept(a, b) && occupancy_kept(b, c) {
        assert forall|i: int, j: int| on_board(i, j) && a[i][j] != Cell::Empty implies c[i][j]
            != Cell::Empty by {
            assert(b[i][j] != Cell::Empty);
        }
    }
}

/// However many moves are made, by whichever side and wherever, a square
/// that once holds a piece never becomes empty again.
pub proof fn lemma_moves_keep_occupancy(g: Grid, moves: Seq<Placement>)
    ensures
        occupancy_kept(g, after_moves(g, moves)),
    decreases moves.len(),
{
    if moves.len() > 0 {
        let before = after_moves(g, moves.drop_last());
        let last = moves.last();
        lemma_moves_keep_occupancy(g, moves.drop_last());
        lemma_move_keeps_occupancy(before, last.player, last.row, last.col);
        lemma_occupancy_kept_is_a_preorder(g, before, after_moves(g, moves));
    }
}

/// Whatever happens in a game, a square that once holds a piece never
/// becomes empty again.
pub proof fn lemma_game_keeps_occupancy(state: GameState, events: Seq<Event>)
    ensures
        occupancy_kept(state.grid, after_events(state, events).grid),
    decreases events.len(),
{
    if events.len() > 0 {
        let before = after_events(state, events.drop_last());
        lemma_game_keeps_occupancy(state, events.drop_last());
        match events.last() {
            Event::TurnStart => {},
            Event::Request(r, c) => {
                lemma_move_keeps_occupancy(before.grid, before.to_move, r, c);
            },
        }
        lemma_occupancy_kept_is_a_preorder(
            state.grid,
            before.grid,
            after_events(state, events).grid,
        );
    }
}

/// In one direction a piece flanks a run of one length only.
pub proof fn lemma_flanked_length_is_unique(
    g: Grid,
    r: int,
    c: int,
    dr: int,
    dc: int,
    own: Cell,
    opp: Cell,
    n: int,
    m: int,
)
    requires
        flanks(g, r, c, dr, dc, own, opp, n),
        flanks(g, r, c, dr, dc, own, opp, m),
    ensures
        n == m,
{
    if n < m {
        assert(ray_cell(g, r, c, dr, dc, n + 1) == opp);
    } else if m < n {
        assert(ray_cell(g, r, c, dr, dc, m + 1) == opp);
    }
}

/// Where a piece flanks `n` pieces in a direction, the squares of the run
/// in that direction are the first `n` squares of the ray, no more and no
/// fewer.
pub proof fn lemma_run_is_the_flanked_squares(
    g: Grid,
    r: int,
    c: int,
    dr: int,
    dc: int,
    own: Cell,
    opp: Cell,
    n: int,
    i: int,
    j: int,
)
    requires
        is_direction(dr, dc),
        flanks(g, r, c, dr, dc, own, opp, n),
    ensures
        in_run(g, r, c, dr, dc, opp, i, j) <==> exists|k: int|
            1 <= k <= n && i == #[trigger] along(r, dr, k) && j == along(c, dc, k),
{
    lemma_in_run_by_steps(g, r, c, dr, dc, opp, i, j);
    if in_run(g, r, c, dr, dc, opp, i, j) {
        let k = choose|k: int|
            k >= 1 && i == along(r, dr, k) && j == along(c, dc, k) && #[trigger] run_of(
                g,
                r,
                c,
                dr,
                dc,
                opp,
                k,
            );
        if k > n {
            assert(ray_cell(g, r, c, dr, dc, n + 1) == opp);
        }
        assert(1 <= k <= n && i == along(r, dr, k) && j == along(c, dc, k));
    }
}

/// A move changes the played square and the flipped squares, and these
/// only. Every flipped square is on the board, is not the played square,
/// held a piece of the opponent before the move and holds one of the mover
/// after it.
pub proof fn lemma_move_changes_what_it_captures(
    g: Grid,
    own: Cell,
    opp: Cell,
    r: int,
    c: int,
    i: int,
    j: int,
)
    ensures
        flipped(g, r, c, own, opp, i, j) ==> on_board(i, j) && g[i][j] == opp && !(i == r && j
            == c),
        on_board(i, j) ==> after_placing(g, own, opp, r, c)[i][j] == if (i == r && j == c)
            || flipped(g, r, c, own, opp, i, j) {
            own
        } else {
            g[i][j]
        },
{
    lemma_flipped_direction(g, r, c, own, opp, i, j);
    if flipped(g, r, c, own, opp, i, j) {
        let (dr, dc) = (toward(r, i), toward(c, j));
        lemma_in_run_by_steps(g, r, c, dr, dc, opp, i, j);
        let k = steps_to(r, c, dr, dc, i, j);
        assert(ray_on_board(r, c, dr, dc, k) && ray_cell(g, r, c, dr, dc, k) == opp);
    }
}

/// A move on an occupied square is never legal, whatever surrounds it.
pub proof fn lemma_occupied_square_is_not_legal(g: Grid, player: Player, r: int, c: int)
    requires
        g[r][c] != Cell::Empty,
    ensures
        !legal_move(g, player, r, c),
{
}

/// A run of opposing pieces that reaches the edge of the board is not
/// captured: there is no piece behind it to flank it.
pub proof fn lemma_run_to_the_edge_is_not_captured(
    g: Grid,
    r: int,
    c: int,
    dr: int,
    dc: int,
    own: Cell,
    opp: Cell,
    n: int,
)
    requires
        n >= 0,
        run_of(g, r, c, dr, dc, opp, n),
        !ray_on_board(r, c, dr, dc, n + 1),
    ensures
        !captures(g, r, c, dr, dc, own, opp),
{
    lemma_capture_by_run_length(g, r, c, dr, dc, own, opp, n);
}

/// A direction whose first square is off the board or does not hold an
/// opposing piece captures nothing, whatever lies further along it.
pub proof fn lemma_no_capture_across_a_gap(
    g: Grid,
    r: int,
    c: int,
    dr: int,
    dc: int,
    own: Cell,
    opp: Cell,
)
    requires
        !ray_on_board(r, c, dr, dc, 1) || ray_cell(g, r, c, dr, dc, 1) != opp,
    ensures
        !captures(g, r, c, dr, dc, own, opp),
{
    lemma_capture_by_run_length(g, r, c, dr, dc, own, opp, 0);
}

/// A run that is followed by an empty square is not captured either.
pub proof fn lemma_run_to_an_empty_square_is_not_captured(
    g: Grid,
    r: int,
    c: int,
    dr: int,
    dc: int,
    player: Player,
    n: int,
)
    requires
        n >= 0,
        run_of(g, r, c, dr, dc, player.opponent().cell(), n),
        ray_cell(g, r, c, dr, dc, n + 1) == Cell::Empty,
    ensures
        !captures(g, r, c, dr, dc, player.cell(), player.opponent().cell()),
{
    lemma_capture_by_run_length(g, r, c, dr, dc, player.cell(), player.opponent().cell(), n);
}

/// On a board without an empty square nobody can move: the game is over.
pub proof fn lemma_full_board_is_finished(g: Grid)
    requires
        forall|i: int, j: int| on_board(i, j) ==> (#[trigger] g[i][j]) != Cell::Empty,
    ensures
        finished(g),
{
    assert forall|p: Player, r: int, c: int| on_board(r, c) implies !legal_move(g, p, r, c) by {
        assert(g[r][c] != Cell::Empty);
    }
}

/// Every board is a well-formed grid, so its three counts add up to
/// sixty-four.
pub proof fn lemma_board_counts_add_up(board: Board)
    ensures
        count(board@, Cell::Empty) + count(board@, Cell::Black) + count(board@, Cell::White)
            == 64,
{
    board.lemma_well_formed();
    lemma_counts_add_up(board@);
}

/// A piece put on an empty square fills exactly one square: whatever it
/// captures, the number of empty squares goes down by one.
pub proof fn lemma_move_fills_one_square(g: Grid, player: Player, r: int, c: int)
    requires
        well_formed(g),
        on_board(r, c),
        g[r][c] == Cell::Empty,
    ensures
        count(after_move(g, player, r, c), Cell::Empty) + 1 == count(g, Cell::Empty),
{
    let h = after_move(g, player, r, c);
    let (own, opp) = (player.cell(), player.opponent().cell());
    lemma_cells_row_major(g);
    lemma_cells_row_major(h);
    let (before, after) = (g.flatten(), h.flatten());
    assert forall|x: int| 0 <= x < 64 && x != 8 * r + c implies (after[x] == Cell::Empty
        <==> before[x] == Cell::Empty) by {
        let (i, j) = (x / 8, x % 8);
        lemma_move_changes_what_it_captures(g, own, opp, r, c, i, j);
    }
    assert(after[8 * r + c] == h[r][c]);
    lemma_tally_loses_one(before, after, Cell::Empty, 8 * r + c);
}

/// A legal move turns over at least one piece.
pub proof fn lemma_legal_move_flips_a_piece(g: Grid, own: Cell, opp: Cell, r: int, c: int)
    requires
        legal(g, own, opp, r, c),
    ensures
        exists|i: int, j: int| on_board(i, j) && #[trigger] flipped(g, r, c, own, opp, i, j),
{
    let (dr, dc) = choose|dr: int, dc: int|
        is_direction(dr, dc) && #[trigger] captures(g, r, c, dr, dc, own, opp);
    let n = choose|n: int| flanks(g, r, c, dr, dc, own, opp, n);
    let (i, j) = (along(r, dr, 1), along(c, dc, 1));
    assert(ray_cell(g, r, c, dr, dc, 1) == opp);
    assert(run_of(g, r, c, dr, dc, opp, 1));
    assert(in_run(g, r, c, dr, dc, opp, i, j));
    assert(flipped(g, r, c, own, opp, i, j));
}

/// A legal move gains its side at least two pieces, the one it places and
/// one or more that it turns over, and costs the opponent at least one.
pub proof fn lemma_legal_move_gains_pieces(g: Grid, player: Player, r: int, c: int)
    requires
        well_formed(g),
        on_board(r, c),
        legal_move(g, player, r, c),
    ensures
        count(after_move(g, player, r, c), player.cell()) >= count(g, player.cell()) + 2,
        count(after_move(g, player, r, c), player.opponent().cell()) < count(
            g,
            player.opponent().cell(),
        ),
{
    let h = after_move(g, player, r, c);
    let (own, opp) = (player.cell(), player.opponent().cell());
    lemma_move_fills_one_square(g, player, r, c);
    lemma_counts_add_up(g);
    lemma_counts_add_up(h);
    lemma_cells_row_major(g);
    lemma_cells_row_major(h);
    let (before, after) = (g.flatten(), h.flatten());
    assert forall|x: int| 0 <= x < 64 && after[x] == opp implies before[x] == opp by {
        let (i, j) = (x / 8, x % 8);
        lemma_move_changes_what_it_captures(g, own, opp, r, c, i, j);
    }
    lemma_legal_move_flips_a_piece(g, own, opp, r, c);
    let (i, j) = choose|i: int, j: int|
        on_board(i, j) && #[trigger] flipped(g, r, c, own, opp, i, j);
    lemma_move_changes_what_it_captures(g, own, opp, r, c, i, j);
    lemma_tally_shrinks_strictly(before, after, opp, 8 * i + j);
}

/// A finished game is one in which neither side has a legal move on any
/// square.
pub proof fn lemma_finished_means_no_legal_move(g: Grid, player: Player, r: int, c: int)
    requires
        finished(g),
        on_board(r, c),
    ensures
        !can_move(g, player),
        !legal_move(g, player, r, c),
{
}

/// A pass changes the side to move and nothing else, and the side that
/// gets the turn can move: two passes never follow each other.
pub proof fn lemma_pass_hands_over_to_a_player_who_can_move(state: GameState)
    requires
        turn_of(state) is Pass,
    ensures
        after_turn_start(state).grid == state.grid,
        after_turn_start(state).to_move == state.to_move.opponent(),
        turn_of(after_turn_start(state)) == Turn::Move(state.to_move.opponent()),
{
    match state.to_move {
        Player::Black => {
            assert(can_move(state.grid, Player::White));
        },
        Player::White => {
            assert(can_move(state.grid, Player::Black));
        },
    }
}

/// A line that is not two characters long is turned down like an illegal
/// move: it is not accepted and the game stays as it was.
pub proof fn lemma_malformed_line_is_rejected(state: GameState, line: Seq<char>)
    requires
        line.len() != 2,
    ensures
        !accepts(state, parsed(line).0, parsed(line).1),
        after_request(state, parsed(line).0, parsed(line).1) == state,
{
}

/// A rejected request, whatever the reason, leaves the game untouched, and
/// an accepted one hands the turn to the opponent.
pub proof fn lemma_request_either_moves_or_changes_nothing(state: GameState, r: int, c: int)
    ensures
        !accepts(state, r, c) ==> after_request(state, r, c) == state,
        accepts(state, r, c) ==> after_request(state, r, c).to_move == state.to_move.opponent()
            && after_request(state, r, c).grid == after_move(state.grid, state.to_move, r, c),
{
}

} // verus!
