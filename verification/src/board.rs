//! The executable board.

use vstd::prelude::*;
use crate::counting::{count, lemma_cells_row_major, lemma_tally_prefix, outcome_of, tally};
use crate::piece::{Cell, Outcome, Player};
use crate::rules::{
    after_move, after_placing, along, can_move, captures, finished, flanks, flip_run, flipped,
    in_run, initial_grid, is_direction, legal_move, lemma_capture_by_run_length,
    lemma_flipped_direction, lemma_in_run_by_steps, lemma_same_ray, occupancy_kept, on_board,
    on_ray, ray_cell, ray_on_board, run_is_closed, run_of, run_stops_after, same_ray, steps_to,
    toward, well_formed, with_cell, Grid,
};

verus! {

/// Number of rows, and of columns.
pub const SIZE: usize = 8;

/// The eight compass directions, as `(row delta, column delta)`.
pub const DIRECTIONS: [(isize, isize); 8] = [
    (-1, 0),
    (1, 0),
    (0, -1),
    (0, 1),
    (-1, -1),
    (-1, 1),
    (1, -1),
    (1, 1),
];

/// The grid that an array of rows stands for.
pub open spec fn grid_of(cells: [[Cell; 8]; 8]) -> Grid {
    Seq::new(8, |i: int| cells@[i]@)
}

/// An 8x8 Othello board.
pub struct Board {
    grid: [[Cell; 8]; 8],
}

impl View for Board {
    type V = Grid;

    closed spec fn view(&self) -> Grid {
        grid_of(self.grid)
    }
}

impl Board {
    /// The starting position.
    pub fn new() -> (board: Board)
        ensures
            board@ == initial_grid(),
    {
        let mut grid = [[Cell::Empty; SIZE]; SIZE];
        grid[3][3] = Cell::White;
        grid[3][4] = Cell::Black;
        grid[4][3] = Cell::Black;
        grid[4][4] = Cell::White;
        let board = Board { grid };
        assert(board@ =~~= initial_grid());
        board
    }

    /// The board that holds the given rows of cells.
    pub fn from_cells(cells: [[Cell; 8]; 8]) -> (board: Board)
        ensures
            board@ == grid_of(cells),
    {
        Board { grid: cells }
    }

    /// The content of the square `(row, col)`.
    pub fn cell(&self, row: usize, col: usize) -> (cell: Cell)
        requires
            on_board(row as int, col as int),
        ensures
            cell == self@[row as int][col as int],
    {
        self.grid[row][col]
    }

    /// Every position has eight rows of eight cells.
    pub proof fn lemma_well_formed(&self)
        ensures
            well_formed(self@),
    {
    }

    /// Whether `player` may legally play on `(row, col)`: the square is
    /// empty and a piece placed there captures in at least one direction.
    pub fn is_valid_move(&self, player: &Player, row: usize, col: usize) -> (valid: bool)
        requires
            on_board(row as int, col as int),
        ensures
            valid == legal_move(self@, *player, row as int, col as int),
            self@[row as int][col as int] != Cell::Empty ==> !valid,
    {
        if self.grid[row][col] != Cell::Empty {
            return false;
        }
        let opponent = player.opponent().cell();
        let ghost own = player.cell();
        let ghost (r0, c0) = (row as int, col as int);
        let mut i: usize = 0;
        while i < 8
            invariant
                0 <= i <= 8,
                on_board(r0, c0),
                r0 == row,
                c0 == col,
                own == player.cell(),
                opponent == player.opponent().cell(),
                self@[r0][c0] == Cell::Empty,
                forall|t: int|
                    0 <= t < i ==> !captures(
                        self@,
                        r0,
                        c0,
                        (#[trigger] DIRECTIONS[t]).0 as int,
                        DIRECTIONS[t].1 as int,
                        own,
                        opponent,
                    ),
            decreases 8 - i,
        {
            let (row_delta, col_delta) = DIRECTIONS[i];
            proof {
                lemma_directions();
            }
            if self.check_direction(row, col, row_delta, col_delta, player, opponent) {
                return true;
            }
            i += 1;
        }
        proof {
            lemma_directions();
        }
        false
    }

    /// Whether a piece of `player` on `(row, col)` captures in the direction
    /// `(row_delta, col_delta)`, the pieces to capture being `opponent`.
    pub fn check_direction(
        &self,
        row: usize,
        col: usize,
        row_delta: isize,
        col_delta: isize,
        player: &Player,
        opponent: Cell,
    ) -> (found: bool)
        requires
            on_board(row as int, col as int),
            is_direction(row_delta as int, col_delta as int),
        ensures
            found == captures(
                self@,
                row as int,
                col as int,
                row_delta as int,
                col_delta as int,
                player.cell(),
                opponent,
            ),
    {
        let own = player.cell();
        let mut r = row as isize + row_delta;
        let mut c = col as isize + col_delta;
        let mut found_opponent = false;
        let ghost mut k: int = 1;
        let ghost g = self@;
        let ghost (r0, c0, dr, dc) = (row as int, col as int, row_delta as int, col_delta as int);

        while r >= 0 && r < SIZE as isize && c >= 0 && c < SIZE as isize
            invariant
                on_board(r0, c0),
                is_direction(dr, dc),
                r0 == row,
                c0 == col,
                dr == row_delta,
                dc == col_delta,
                g == self@,
                1 <= k <= 8,
                r == along(r0, dr, k),
                c == along(c0, dc, k),
                run_of(g, r0, c0, dr, dc, opponent, k - 1),
                found_opponent == (k > 1),
                own == player.cell(),
            decreases 8 - k,
        {
            let current = self.grid[r as usize][c as usize];
            proof {
                if current != opponent {
                    lemma_capture_by_run_length(g, r0, c0, dr, dc, own, opponent, k - 1);
                }
            }
            if current == opponent {
                found_opponent = true;
            } else if current == own {
                return found_opponent;
            } else {
                return false;
            }
            r += row_delta;
            c += col_delta;
            proof {
                k = k + 1;
            }
        }
        proof {
            lemma_capture_by_run_length(g, r0, c0, dr, dc, own, opponent, k - 1);
        }
        false
    }

    /// Puts a piece of `player` on `(row, col)` and turns over every piece
    /// that it captures, in all eight directions.
    ///
    /// The move is carried out whether or not it is legal: the piece is
    /// placed even on an occupied square, and nothing is turned over where
    /// nothing is flanked.
    pub fn apply_move(&mut self, player: &Player, row: usize, col: usize)
        requires
            on_board(row as int, col as int),
        ensures
            final(self)@ == after_move(old(self)@, *player, row as int, col as int),
            occupancy_kept(old(self)@, final(self)@),
    {
        let ghost g = self@;
        let ghost (r0, c0) = (row as int, col as int);
        let piece = player.cell();
        self.grid[row][col] = piece;
        let opponent = player.opponent().cell();
        proof {
            assert(self@ =~~= placed_first(g, piece, opponent, r0, c0, 0));
        }
        let mut i: usize = 0;
        while i < 8
            invariant
                0 <= i <= 8,
                on_board(r0, c0),
                r0 == row,
                c0 == col,
                piece == player.cell(),
                opponent == player.opponent().cell(),
                self@ == placed_first(g, piece, opponent, r0, c0, i as int),
            decreases 8 - i,
        {
            let (row_delta, col_delta) = DIRECTIONS[i];
            proof {
                lemma_directions();
                lemma_placed_next(g, piece, opponent, r0, c0, i as int);
            }
            if self.check_direction(row, col, row_delta, col_delta, player, opponent) {
                self.flip_pieces(row, col, row_delta, col_delta, player, opponent);
            }
            i += 1;
        }
        proof {
            lemma_placed_all(g, piece, opponent, r0, c0);
        }
    }

    /// Whether `player` has a legal move anywhere on the board.
    pub fn has_valid_move(&self, player: &Player) -> (any: bool)
        ensures
            any == can_move(self@, *player),
    {
        let mut row: usize = 0;
        while row < SIZE
            invariant
                0 <= row <= 8,
                forall|r: int, c: int|
                    0 <= r < row && 0 <= c < 8 ==> !#[trigger] legal_move(self@, *player, r, c),
            decreases 8 - row,
        {
            let mut col: usize = 0;
            while col < SIZE
                invariant
                    0 <= row < 8,
                    0 <= col <= 8,
                    forall|r: int, c: int|
                        0 <= r < row && 0 <= c < 8 ==> !#[trigger] legal_move(
                            self@,
                            *player,
                            r,
                            c,
                        ),
                    forall|c: int|
                        0 <= c < col ==> !#[trigger] legal_move(self@, *player, row as int, c),
                decreases 8 - col,
            {
                if self.is_valid_move(player, row, col) {
                    return true;
                }
                col += 1;
            }
            row += 1;
        }
        false
    }

    /// The number of squares that hold `piece`.
    pub fn count_pieces(&self, piece: Cell) -> (n: usize)
        ensures
            n == count(self@, piece),
    {
        let mut n: usize = 0;
        let ghost cells = self@.flatten();
        proof {
            lemma_cells_row_major(self@);
            lemma_tally_prefix(cells, 0, piece);
        }
        let mut row: usize = 0;
        while row < SIZE
            invariant
                0 <= row <= 8,
                cells == self@.flatten(),
                cells.len() == 64,
                forall|i: int, j: int|
                    0 <= i < 8 && 0 <= j < 8 ==> cells[8 * i + j] == #[trigger] self@[i][j],
                n == tally(cells.take(8 * row), piece),
                n <= 8 * row,
            decreases 8 - row,
        {
            let mut col: usize = 0;
            while col < SIZE
                invariant
                    0 <= row < 8,
                    0 <= col <= 8,
                    cells == self@.flatten(),
                    cells.len() == 64,
                    forall|i: int, j: int|
                        0 <= i < 8 && 0 <= j < 8 ==> cells[8 * i + j] == #[trigger] self@[i][j],
                    n == tally(cells.take(8 * row + col), piece),
                    n <= 8 * row + col,
                decreases 8 - col,
            {
                proof {
                    lemma_tally_prefix(cells, 8 * row + col + 1, piece);
                    assert(cells[8 * row + col] == self@[row as int][col as int]);
                }
                if self.grid[row][col] == piece {
                    n += 1;
                }
                col += 1;
            }
            row += 1;
        }
        proof {
            assert(cells.take(64) =~= cells);
        }
        n
    }

    /// Who is ahead, and by how much: the result once the game is over.
    pub fn outcome(&self) -> (result: Outcome)
        ensures
            result == outcome_of(self@),
    {
        let black_count = self.count_pieces(Cell::Black);
        let white_count = self.count_pieces(Cell::White);
        if black_count > white_count {
            Outcome::BlackWins(black_count - white_count)
        } else if white_count > black_count {
            Outcome::WhiteWins(white_count - black_count)
        } else {
            Outcome::Draw
        }
    }

    /// Whether the game is over: neither side has a legal move.
    pub fn game_over(&self) -> (over: bool)
        ensures
            over == finished(self@),
    {
        !self.has_valid_move(&Player::Black) && !self.has_valid_move(&Player::White)
    }

    /// Turns the run of `opponent` pieces that starts next to `(row, col)`
    /// in the direction `(row_delta, col_delta)` into pieces of `player`.
    ///
    /// The run has to end before the edge of the board, which is the case
    /// in every direction in which the piece on `(row, col)` captures.
    pub fn flip_pieces(
        &mut self,
        row: usize,
        col: usize,
        row_delta: isize,
        col_delta: isize,
        player: &Player,
        opponent: Cell,
    )
        requires
            on_board(row as int, col as int),
            is_direction(row_delta as int, col_delta as int),
            run_is_closed(
                old(self)@,
                row as int,
                col as int,
                row_delta as int,
                col_delta as int,
                opponent,
            ),
        ensures
            final(self)@ == flip_run(
                old(self)@,
                row as int,
                col as int,
                row_delta as int,
                col_delta as int,
                player.cell(),
                opponent,
            ),
            occupancy_kept(old(self)@, final(self)@),
    {
        let mut r = row as isize + row_delta;
        let mut c = col as isize + col_delta;
        let own = player.cell();
        let ghost mut k: int = 1;
        let ghost g = self@;
        let ghost (r0, c0, dr, dc) = (row as int, col as int, row_delta as int, col_delta as int);
        let ghost end = choose|n: int| run_stops_after(g, r0, c0, dr, dc, opponent, n);
        assert(self@ =~~= flip_first(g, r0, c0, dr, dc, own, 1));

        while self.grid[r as usize][c as usize] == opponent
            invariant
                on_board(r0, c0),
                is_direction(dr, dc),
                dr == row_delta,
                dc == col_delta,
                run_stops_after(g, r0, c0, dr, dc, opponent, end),
                1 <= k <= end + 1,
                r == along(r0, dr, k),
                c == along(c0, dc, k),
                on_board(r as int, c as int),
                self@ == flip_first(g, r0, c0, dr, dc, own, k),
            decreases end + 1 - k,
        {
            self.grid[r as usize][c as usize] = own;
            r += row_delta;
            c += col_delta;
            proof {
                lemma_flip_first_step(g, r0, c0, dr, dc, own, k);
                k = k + 1;
            }
        }
        proof {
            assert(self@[r as int][c as int] == ray_cell(g, r0, c0, dr, dc, k));
            lemma_flip_first_whole_run(g, r0, c0, dr, dc, own, opponent, end);
        }
    }
}

/// The place of a direction in `DIRECTIONS`.
spec fn slot(dr: int, dc: int) -> int {
    if dc == 0 {
        if dr < 0 {
            0
        } else {
            1
        }
    } else if dr == 0 {
        if dc < 0 {
            2
        } else {
            3
        }
    } else if dr < 0 {
        if dc < 0 {
            4
        } else {
            5
        }
    } else {
        if dc < 0 {
            6
        } else {
            7
        }
    }
}

/// `DIRECTIONS` lists every direction once.
proof fn lemma_directions()
    ensures
        forall|t: int|
            0 <= t < 8 ==> is_direction(
                (#[trigger] DIRECTIONS[t]).0 as int,
                DIRECTIONS[t].1 as int,
            ) && slot(DIRECTIONS[t].0 as int, DIRECTIONS[t].1 as int) == t,
        forall|dr: int, dc: int|
            is_direction(dr, dc) ==> 0 <= #[trigger] slot(dr, dc) < 8 && DIRECTIONS[slot(
                dr,
                dc,
            )].0 == dr && DIRECTIONS[slot(dr, dc)].1 == dc,
{
}

/// The position reached from `g` when `own` has been placed on `(r, c)` and
/// the captures in the first `n` directions of `DIRECTIONS` have been made.
spec fn placed_first(g: Grid, own: Cell, opp: Cell, r: int, c: int, n: int) -> Grid {
    Seq::new(
        8,
        |i: int|
            Seq::new(
                8,
                |j: int|
                    if (i == r && j == c) || (flipped(g, r, c, own, opp, i, j) && slot(
                        toward(r, i),
                        toward(c, j),
                    ) < n) {
                        own
                    } else {
                        g[i][j]
                    },
            ),
    )
}

/// The captures made in the first `n` directions leave the ray of a later
/// direction as it was.
proof fn lemma_placed_same_ray(
    g: Grid,
    own: Cell,
    opp: Cell,
    r: int,
    c: int,
    dr: int,
    dc: int,
    n: int,
)
    requires
        is_direction(dr, dc),
        n <= slot(dr, dc),
    ensures
        same_ray(g, placed_first(g, own, opp, r, c, n), r, c, dr, dc),
{
}

/// What handling the direction `(dr, dc)`, number `n` of `DIRECTIONS`,
/// does to the square `(i, j)`.
proof fn lemma_placed_next_cell(
    g: Grid,
    own: Cell,
    opp: Cell,
    r: int,
    c: int,
    dr: int,
    dc: int,
    n: int,
    i: int,
    j: int,
)
    requires
        is_direction(dr, dc),
        slot(dr, dc) == n,
        0 <= i < 8,
        0 <= j < 8,
    ensures
        placed_first(g, own, opp, r, c, n + 1)[i][j] == if captures(g, r, c, dr, dc, own, opp)
            && in_run(g, r, c, dr, dc, opp, i, j) {
            own
        } else {
            placed_first(g, own, opp, r, c, n)[i][j]
        },
{
    lemma_flipped_direction(g, r, c, own, opp, i, j);
    lemma_in_run_by_steps(g, r, c, dr, dc, opp, i, j);
}

/// Handling direction number `n` after the first `n`: the captures seen on
/// the board by then are those of the original position, and making them
/// gives the position for `n + 1` directions.
proof fn lemma_placed_next(g: Grid, own: Cell, opp: Cell, r: int, c: int, n: int)
    requires
        on_board(r, c),
        0 <= n < 8,
    ensures
        ({
            let h = placed_first(g, own, opp, r, c, n);
            let next = placed_first(g, own, opp, r, c, n + 1);
            let (dr, dc) = (DIRECTIONS[n].0 as int, DIRECTIONS[n].1 as int);
            if captures(h, r, c, dr, dc, own, opp) {
                run_is_closed(h, r, c, dr, dc, opp) && flip_run(h, r, c, dr, dc, own, opp) == next
            } else {
                h == next
            }
        }),
{
    lemma_directions();
    let h = placed_first(g, own, opp, r, c, n);
    let next = placed_first(g, own, opp, r, c, n + 1);
    let (dr, dc) = (DIRECTIONS[n].0 as int, DIRECTIONS[n].1 as int);
    lemma_placed_same_ray(g, own, opp, r, c, dr, dc, n);
    lemma_same_ray(g, h, r, c, dr, dc, own, opp);
    if captures(h, r, c, dr, dc, own, opp) {
        let flip = flip_run(h, r, c, dr, dc, own, opp);
        assert forall|i: int, j: int| 0 <= i < 8 && 0 <= j < 8 implies flip[i][j]
            == next[i][j] by {
            lemma_placed_next_cell(g, own, opp, r, c, dr, dc, n, i, j);
        }
        assert(flip =~~= next);
    } else {
        assert forall|i: int, j: int| 0 <= i < 8 && 0 <= j < 8 implies h[i][j] == next[i][j] by {
            lemma_placed_next_cell(g, own, opp, r, c, dr, dc, n, i, j);
        }
        assert(h =~~= next);
    }
}

/// Once all eight directions have been handled the move is complete.
proof fn lemma_placed_all(g: Grid, own: Cell, opp: Cell, r: int, c: int)
    ensures
        placed_first(g, own, opp, r, c, 8) == after_placing(g, own, opp, r, c),
{
    lemma_directions();
    let a = placed_first(g, own, opp, r, c, 8);
    let b = after_placing(g, own, opp, r, c);
    assert forall|i: int, j: int| 0 <= i < 8 && 0 <= j < 8 implies a[i][j] == b[i][j] by {
        lemma_flipped_direction(g, r, c, own, opp, i, j);
    }
    assert(a =~~= b);
}

/// The grid in which the squares less than `k` steps away from `(r, c)` in
/// direction `(dr, dc)` hold `own`.
spec fn flip_first(g: Grid, r: int, c: int, dr: int, dc: int, own: Cell, k: int) -> Grid {
    Seq::new(
        8,
        |i: int|
            Seq::new(
                8,
                |j: int|
                    if on_ray(r, c, dr, dc, i, j) && steps_to(r, c, dr, dc, i, j) < k {
                        own
                    } else {
                        g[i][j]
                    },
            ),
    )
}

/// Flipping one more square of a ray.
proof fn lemma_flip_first_step(g: Grid, r: int, c: int, dr: int, dc: int, own: Cell, k: int)
    requires
        is_direction(dr, dc),
        k >= 1,
        ray_on_board(r, c, dr, dc, k),
    ensures
        with_cell(flip_first(g, r, c, dr, dc, own, k), along(r, dr, k), along(c, dc, k), own)
            == flip_first(g, r, c, dr, dc, own, k + 1),
{
    let a = with_cell(flip_first(g, r, c, dr, dc, own, k), along(r, dr, k), along(c, dc, k), own);
    let b = flip_first(g, r, c, dr, dc, own, k + 1);
    assert(a =~~= b);
}

/// Flipping the squares up to the end of a run flips the run.
proof fn lemma_flip_first_whole_run(
    g: Grid,
    r: int,
    c: int,
    dr: int,
    dc: int,
    own: Cell,
    opp: Cell,
    n: int,
)
    requires
        is_direction(dr, dc),
        run_stops_after(g, r, c, dr, dc, opp, n),
    ensures
        flip_first(g, r, c, dr, dc, own, n + 1) == flip_run(g, r, c, dr, dc, own, opp),
{
    let a = flip_first(g, r, c, dr, dc, own, n + 1);
    let b = flip_run(g, r, c, dr, dc, own, opp);
    assert forall|i: int, j: int| 0 <= i < 8 && 0 <= j < 8 implies a[i][j] == b[i][j] by {
        lemma_in_run_by_steps(g, r, c, dr, dc, opp, i, j);
    }
    assert(a =~~= b);
}

} // verus!
