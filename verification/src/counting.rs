//! Counting the pieces of a position.

use vstd::prelude::*;
use crate::piece::{Cell, Outcome};
use crate::rules::{well_formed, Grid};

verus! {

/// The test whether a cell holds `piece`.
pub open spec fn holds(piece: Cell) -> spec_fn(Cell) -> bool {
    |x: Cell| x == piece
}

/// How many of `cells` hold `piece`.
pub open spec fn tally(cells: Seq<Cell>, piece: Cell) -> nat {
    cells.filter(holds(piece)).len()
}

/// How many squares of the grid hold `piece`.
pub open spec fn count(g: Grid, piece: Cell) -> nat {
    tally(g.flatten(), piece)
}

/// The result of a game that ends in position `g`: the side with more pieces
/// wins by the difference, and equal numbers are a draw.
pub open spec fn outcome_of(g: Grid) -> Outcome {
    let black = count(g, Cell::Black);
    let white = count(g, Cell::White);
    if black > white {
        Outcome::BlackWins((black - white) as usize)
    } else if white > black {
        Outcome::WhiteWins((white - black) as usize)
    } else {
        Outcome::Draw
    }
}

/// Nothing is counted among no cells.
pub proof fn lemma_tally_empty(piece: Cell)
    ensures
        tally(Seq::<Cell>::empty(), piece) == 0,
{
    Seq::<Cell>::empty().lemma_filter_len(holds(piece));
}

/// One more cell adds one to the tally of the piece it holds.
pub proof fn lemma_tally_push(cells: Seq<Cell>, cell: Cell, piece: Cell)
    ensures
        tally(cells.push(cell), piece) == tally(cells, piece) + if cell == piece {
            1int
        } else {
            0int
        },
{
    cells.lemma_filter_len_push(holds(piece), cell);
}

/// Counting cell by cell: among no cells nothing is counted, and each
/// further cell adds one if it holds `piece`.
pub proof fn lemma_tally_prefix(cells: Seq<Cell>, n: int, piece: Cell)
    requires
        0 <= n <= cells.len(),
    ensures
        tally(cells.take(n), piece) == if n == 0 {
            0
        } else {
            tally(cells.take(n - 1), piece) + if cells[n - 1] == piece {
                1int
            } else {
                0int
            }
        },
{
    if n == 0 {
        lemma_tally_empty(piece);
    } else {
        assert(cells.take(n) =~= cells.take(n - 1).push(cells[n - 1]));
        lemma_tally_push(cells.take(n - 1), cells[n - 1], piece);
    }
}

/// Every cell of a sequence is empty, black or white: the three tallies
/// add up to its length.
pub proof fn lemma_tallies_add_up(cells: Seq<Cell>)
    ensures
        tally(cells, Cell::Empty) + tally(cells, Cell::Black) + tally(cells, Cell::White)
            == cells.len(),
    decreases cells.len(),
{
    if cells.len() == 0 {
        lemma_tally_empty(Cell::Empty);
        lemma_tally_empty(Cell::Black);
        lemma_tally_empty(Cell::White);
    } else {
        let init = cells.drop_last();
        assert(cells =~= init.push(cells.last()));
        lemma_tallies_add_up(init);
        lemma_tally_push(init, cells.last(), Cell::Empty);
        lemma_tally_push(init, cells.last(), Cell::Black);
        lemma_tally_push(init, cells.last(), Cell::White);
    }
}

/// Where `after` holds `piece` only on squares on which `before` holds it
/// too, it holds no more of them.
pub proof fn lemma_tally_shrinks(before: Seq<Cell>, after: Seq<Cell>, piece: Cell)
    requires
        before.len() == after.len(),
        forall|i: int| 0 <= i < after.len() && after[i] == piece ==> before[i] == piece,
    ensures
        tally(after, piece) <= tally(before, piece),
    decreases before.len(),
{
    if before.len() > 0 {
        assert(before =~= before.drop_last().push(before.last()));
        assert(after =~= after.drop_last().push(after.last()));
        lemma_tally_shrinks(before.drop_last(), after.drop_last(), piece);
        lemma_tally_push(before.drop_last(), before.last(), piece);
        lemma_tally_push(after.drop_last(), after.last(), piece);
    }
}

/// Where `after` holds `piece` only on squares on which `before` holds it
/// too, and not on all of them, it holds fewer.
pub proof fn lemma_tally_shrinks_strictly(
    before: Seq<Cell>,
    after: Seq<Cell>,
    piece: Cell,
    k: int,
)
    requires
        before.len() == after.len(),
        forall|i: int| 0 <= i < after.len() && after[i] == piece ==> before[i] == piece,
        0 <= k < before.len(),
        before[k] == piece,
        after[k] != piece,
    ensures
        tally(after, piece) < tally(before, piece),
    decreases before.len(),
{
    assert(before =~= before.drop_last().push(before.last()));
    assert(after =~= after.drop_last().push(after.last()));
    lemma_tally_push(before.drop_last(), before.last(), piece);
    lemma_tally_push(after.drop_last(), after.last(), piece);
    if k == before.len() - 1 {
        lemma_tally_shrinks(before.drop_last(), after.drop_last(), piece);
    } else {
        lemma_tally_shrinks_strictly(before.drop_last(), after.drop_last(), piece, k);
    }
}

/// Where `before` and `after` hold `piece` on the same squares but for one,
/// on which only `before` does, `after` holds exactly one fewer.
pub proof fn lemma_tally_loses_one(before: Seq<Cell>, after: Seq<Cell>, piece: Cell, k: int)
    requires
        before.len() == after.len(),
        forall|i: int|
            0 <= i < after.len() && i != k ==> (after[i] == piece <==> before[i] == piece),
        0 <= k < before.len(),
        before[k] == piece,
        after[k] != piece,
    ensures
        tally(after, piece) + 1 == tally(before, piece),
    decreases before.len(),
{
    assert(before =~= before.drop_last().push(before.last()));
    assert(after =~= after.drop_last().push(after.last()));
    lemma_tally_push(before.drop_last(), before.last(), piece);
    lemma_tally_push(after.drop_last(), after.last(), piece);
    if k == before.len() - 1 {
        lemma_tally_shrinks(before.drop_last(), after.drop_last(), piece);
        lemma_tally_shrinks(after.drop_last(), before.drop_last(), piece);
    } else {
        lemma_tally_loses_one(before.drop_last(), after.drop_last(), piece, k);
    }
}

/// The cells of the first `n` rows, laid out row after row.
proof fn lemma_rows_row_major(g: Grid, n: int)
    requires
        well_formed(g),
        0 <= n <= 8,
    ensures
        g.take(n).flatten().len() == 8 * n,
        forall|i: int, j: int|
            0 <= i < n && 0 <= j < 8 ==> g.take(n).flatten()[8 * i + j] == #[trigger] g[i][j],
    decreases n,
{
    if n > 0 {
        lemma_rows_row_major(g, n - 1);
        assert(g.take(n) =~= g.take(n - 1).push(g[n - 1]));
        g.take(n - 1).lemma_flatten_push(g[n - 1]);
    }
}

/// The cells of a grid are its sixty-four squares laid out row after row:
/// the square `(i, j)` is cell number `8 * i + j`.
pub proof fn lemma_cells_row_major(g: Grid)
    requires
        well_formed(g),
    ensures
        g.flatten().len() == 64,
        forall|i: int, j: int|
            0 <= i < 8 && 0 <= j < 8 ==> g.flatten()[8 * i + j] == #[trigger] g[i][j],
{
    lemma_rows_row_major(g, 8);
    assert(g.take(8) =~= g);
}

/// At all times the empty, the black and the white squares are the
/// sixty-four squares of the board.
pub proof fn lemma_counts_add_up(g: Grid)
    requires
        well_formed(g),
    ensures
        count(g, Cell::Empty) + count(g, Cell::Black) + count(g, Cell::White) == 64,
{
    lemma_cells_row_major(g);
    lemma_tallies_add_up(g.flatten());
}

} // verus!
