//! The rules of the game, stated over a grid of cells.
//!
//! Everything here is specification: a position is a sequence of eight rows
//! of eight cells, squares are addressed by `(row, column)` with both
//! coordinates in `0..8`, and a direction is a pair of deltas in `-1..=1`
//! that are not both zero.

use vstd::prelude::*;
use crate::piece::{Cell, Player};

verus! {

/// The mathematical model of a position: rows of cells, row-major.
pub type Grid = Seq<Seq<Cell>>;

/// The grid has eight rows of eight cells.
pub open spec fn well_formed(g: Grid) -> bool {
    &&& g.len() == 8
    &&& forall|i: int| 0 <= i < 8 ==> (#[trigger] g[i]).len() == 8
}

/// The grid `g` with `cell` on `(r, c)`.
pub open spec fn with_cell(g: Grid, r: int, c: int, cell: Cell) -> Grid {
    g.update(r, g[r].update(c, cell))
}

/// `(r, c)` names a square of the board.
pub open spec fn on_board(r: int, c: int) -> bool {
    0 <= r < 8 && 0 <= c < 8
}

/// `(dr, dc)` is one of the eight compass directions.
pub open spec fn is_direction(dr: int, dc: int) -> bool {
    &&& -1 <= dr <= 1
    &&& -1 <= dc <= 1
    &&& !(dr == 0 && dc == 0)
}

/// The coordinate reached from `start` after `k` steps of `delta`, for a
/// delta in `-1..=1`. For such a delta this is `start + k * delta`, written
/// without the product (see [`lemma_along_is_linear`]).
pub open spec fn along(start: int, delta: int, k: int) -> int {
    if delta > 0 {
        start + k
    } else if delta < 0 {
        start - k
    } else {
        start
    }
}

/// The square `k` steps away from `(r, c)` in direction `(dr, dc)` is on the
/// board.
pub open spec fn ray_on_board(r: int, c: int, dr: int, dc: int, k: int) -> bool {
    on_board(along(r, dr, k), along(c, dc, k))
}

/// The content of the square `k` steps away from `(r, c)` in direction
/// `(dr, dc)`.
pub open spec fn ray_cell(g: Grid, r: int, c: int, dr: int, dc: int, k: int) -> Cell {
    g[along(r, dr, k)][along(c, dc, k)]
}

/// How many steps of `(dr, dc)` lead from `(r, c)` to `(i, j)`, if any
/// number does.
pub open spec fn steps_to(r: int, c: int, dr: int, dc: int, i: int, j: int) -> int {
    if dr > 0 {
        i - r
    } else if dr < 0 {
        r - i
    } else if dc > 0 {
        j - c
    } else {
        c - j
    }
}

/// `(i, j)` is met when leaving `(r, c)` in direction `(dr, dc)`.
pub open spec fn on_ray(r: int, c: int, dr: int, dc: int, i: int, j: int) -> bool {
    let k = steps_to(r, c, dr, dc, i, j);
    k >= 1 && i == along(r, dr, k) && j == along(c, dc, k)
}

/// The first `n` squares met when leaving `(r, c)` in direction `(dr, dc)`
/// are all on the board and all hold `piece`.
pub open spec fn run_of(g: Grid, r: int, c: int, dr: int, dc: int, piece: Cell, n: int) -> bool {
    forall|k: int|
        1 <= k <= n ==> ray_on_board(r, c, dr, dc, k) && #[trigger] ray_cell(g, r, c, dr, dc, k)
            == piece
}

/// The run of `opp` pieces that starts next to `(r, c)` in direction
/// `(dr, dc)` has length `n`: the next `n` squares hold `opp`, and the one
/// after them is off the board or holds something else.
pub open spec fn run_length_is(
    g: Grid,
    r: int,
    c: int,
    dr: int,
    dc: int,
    opp: Cell,
    n: int,
) -> bool {
    &&& n >= 0
    &&& run_of(g, r, c, dr, dc, opp, n)
    &&& !(ray_on_board(r, c, dr, dc, n + 1) && ray_cell(g, r, c, dr, dc, n + 1) == opp)
}

/// The run of `opp` pieces that starts next to `(r, c)` in direction
/// `(dr, dc)` has length `n` and stops on the board: the square after it
/// exists.
pub open spec fn run_stops_after(
    g: Grid,
    r: int,
    c: int,
    dr: int,
    dc: int,
    opp: Cell,
    n: int,
) -> bool {
    &&& run_length_is(g, r, c, dr, dc, opp, n)
    &&& ray_on_board(r, c, dr, dc, n + 1)
}

/// The run of `opp` pieces that starts next to `(r, c)` in direction
/// `(dr, dc)` ends before the edge of the board.
pub open spec fn run_is_closed(g: Grid, r: int, c: int, dr: int, dc: int, opp: Cell) -> bool {
    exists|n: int| run_stops_after(g, r, c, dr, dc, opp, n)
}

/// A piece `own` at `(r, c)` flanks exactly `n` pieces in direction
/// `(dr, dc)`: the run of `opp` pieces next to it has length `n >= 1`, and
/// the square right after the run is on the board and holds `own`.
pub open spec fn flanks(
    g: Grid,
    r: int,
    c: int,
    dr: int,
    dc: int,
    own: Cell,
    opp: Cell,
    n: int,
) -> bool {
    &&& n >= 1
    &&& run_stops_after(g, r, c, dr, dc, opp, n)
    &&& ray_cell(g, r, c, dr, dc, n + 1) == own
}

/// A piece `own` at `(r, c)` captures in direction `(dr, dc)`: an unbroken
/// run of one or more `opp` pieces leads from the square to an `own` piece,
/// with neither a gap nor the edge in between.
pub open spec fn captures(
    g: Grid,
    r: int,
    c: int,
    dr: int,
    dc: int,
    own: Cell,
    opp: Cell,
) -> bool {
    exists|n: int| flanks(g, r, c, dr, dc, own, opp, n)
}

/// `(i, j)` lies in the run of `opp` pieces that starts next to `(r, c)` in
/// direction `(dr, dc)`: it is `k >= 1` steps away and every square up to
/// and including it holds `opp`.
pub open spec fn in_run(
    g: Grid,
    r: int,
    c: int,
    dr: int,
    dc: int,
    opp: Cell,
    i: int,
    j: int,
) -> bool {
    exists|k: int|
        k >= 1 && i == along(r, dr, k) && j == along(c, dc, k) && #[trigger] run_of(
            g,
            r,
            c,
            dr,
            dc,
            opp,
            k,
        )
}

/// The grid in which every `opp` piece of the run that starts next to
/// `(r, c)` in direction `(dr, dc)` has been turned into `own`.
pub open spec fn flip_run(
    g: Grid,
    r: int,
    c: int,
    dr: int,
    dc: int,
    own: Cell,
    opp: Cell,
) -> Grid {
    Seq::new(
        8,
        |i: int|
            Seq::new(
                8,
                |j: int|
                    if in_run(g, r, c, dr, dc, opp, i, j) {
                        own
                    } else {
                        g[i][j]
                    },
            ),
    )
}

/// Placing `own` on `(r, c)` is a legal move against `opp`: the square is
/// empty and the new piece captures in at least one direction.
pub open spec fn legal(g: Grid, own: Cell, opp: Cell, r: int, c: int) -> bool {
    &&& g[r][c] == Cell::Empty
    &&& exists|dr: int, dc: int|
        is_direction(dr, dc) && #[trigger] captures(g, r, c, dr, dc, own, opp)
}

/// `player` may legally play on `(r, c)`.
pub open spec fn legal_move(g: Grid, player: Player, r: int, c: int) -> bool {
    legal(g, player.cell(), player.opponent().cell(), r, c)
}

/// `(i, j)` is turned over when `own` is placed on `(r, c)`: it lies in the
/// run of some direction in which the new piece captures.
pub open spec fn flipped(g: Grid, r: int, c: int, own: Cell, opp: Cell, i: int, j: int) -> bool {
    exists|dr: int, dc: int|
        is_direction(dr, dc) && captures(g, r, c, dr, dc, own, opp) && #[trigger] in_run(
            g,
            r,
            c,
            dr,
            dc,
            opp,
            i,
            j,
        )
}

/// The position after `own` has been placed on `(r, c)` against `opp`: the
/// square holds `own`, so does every flipped square, and nothing else
/// changes.
pub open spec fn after_placing(g: Grid, own: Cell, opp: Cell, r: int, c: int) -> Grid {
    Seq::new(
        8,
        |i: int|
            Seq::new(
                8,
                |j: int|
                    if (i == r && j == c) || flipped(g, r, c, own, opp, i, j) {
                        own
                    } else {
                        g[i][j]
                    },
            ),
    )
}

/// The position after `player` has moved on `(r, c)`.
pub open spec fn after_move(g: Grid, player: Player, r: int, c: int) -> Grid {
    after_placing(g, player.cell(), player.opponent().cell(), r, c)
}

/// `player` has at least one legal move.
pub open spec fn can_move(g: Grid, player: Player) -> bool {
    exists|r: int, c: int| on_board(r, c) && #[trigger] legal_move(g, player, r, c)
}

/// Neither side can move.
pub open spec fn finished(g: Grid) -> bool {
    !can_move(g, Player::Black) && !can_move(g, Player::White)
}

/// The content of `(r, c)` in the starting position.
pub open spec fn initial_cell(r: int, c: int) -> Cell {
    if (r == 3 && c == 3) || (r == 4 && c == 4) {
        Cell::White
    } else if (r == 3 && c == 4) || (r == 4 && c == 3) {
        Cell::Black
    } else {
        Cell::Empty
    }
}

/// The starting position: two white and two black pieces on the four
/// central squares, placed diagonally.
pub open spec fn initial_grid() -> Grid {
    Seq::new(8, |r: int| Seq::new(8, |c: int| initial_cell(r, c)))
}

/// No square that holds a piece in `before` is empty in `after`.
pub open spec fn occupancy_kept(before: Grid, after: Grid) -> bool {
    forall|i: int, j: int|
        on_board(i, j) && before[i][j] != Cell::Empty ==> #[trigger] after[i][j] != Cell::Empty
}

/// A square lies in a run exactly if it is on the ray and the run reaches as
/// far as the square.
pub proof fn lemma_in_run_by_steps(
    g: Grid,
    r: int,
    c: int,
    dr: int,
    dc: int,
    opp: Cell,
    i: int,
    j: int,
)
    requires
        is_direction(dr, dc),
    ensures
        in_run(g, r, c, dr, dc, opp, i, j) <==> on_ray(r, c, dr, dc, i, j) && run_of(
            g,
            r,
            c,
            dr,
            dc,
            opp,
            steps_to(r, c, dr, dc, i, j),
        ),
{
}

/// The unit step that leads from coordinate `from` towards coordinate `to`.
pub open spec fn toward(from: int, to: int) -> int {
    if to > from {
        1
    } else if to < from {
        -1
    } else {
        0
    }
}

/// Only one direction can turn a given square over: the one that points
/// from the played square to it.
pub proof fn lemma_flipped_direction(
    g: Grid,
    r: int,
    c: int,
    own: Cell,
    opp: Cell,
    i: int,
    j: int,
)
    ensures
        flipped(g, r, c, own, opp, i, j) <==> {
            &&& is_direction(toward(r, i), toward(c, j))
            &&& captures(g, r, c, toward(r, i), toward(c, j), own, opp)
            &&& in_run(g, r, c, toward(r, i), toward(c, j), opp, i, j)
        },
{
    if flipped(g, r, c, own, opp, i, j) {
        let (dr, dc) = choose|dr: int, dc: int|
            is_direction(dr, dc) && captures(g, r, c, dr, dc, own, opp) && #[trigger] in_run(
                g,
                r,
                c,
                dr,
                dc,
                opp,
                i,
                j,
            );
        lemma_in_run_by_steps(g, r, c, dr, dc, opp, i, j);
    }
}

/// Two grids that agree on every square met when leaving `(r, c)` in
/// direction `(dr, dc)`.
pub open spec fn same_ray(g: Grid, h: Grid, r: int, c: int, dr: int, dc: int) -> bool {
    forall|k: int|
        #![trigger ray_cell(g, r, c, dr, dc, k)]
        #![trigger ray_cell(h, r, c, dr, dc, k)]
        k >= 1 && ray_on_board(r, c, dr, dc, k) ==> ray_cell(g, r, c, dr, dc, k) == ray_cell(
            h,
            r,
            c,
            dr,
            dc,
            k,
        )
}

/// What happens in a direction depends on the squares of its ray alone.
pub proof fn lemma_same_ray(
    g: Grid,
    h: Grid,
    r: int,
    c: int,
    dr: int,
    dc: int,
    own: Cell,
    opp: Cell,
)
    requires
        same_ray(g, h, r, c, dr, dc),
    ensures
        forall|n: int| run_of(g, r, c, dr, dc, opp, n) <==> run_of(h, r, c, dr, dc, opp, n),
        captures(g, r, c, dr, dc, own, opp) <==> captures(h, r, c, dr, dc, own, opp),
        run_is_closed(g, r, c, dr, dc, opp) <==> run_is_closed(h, r, c, dr, dc, opp),
        forall|i: int, j: int|
            in_run(g, r, c, dr, dc, opp, i, j) <==> in_run(h, r, c, dr, dc, opp, i, j),
{
    assert forall|n: int| run_of(g, r, c, dr, dc, opp, n) <==> run_of(
        h,
        r,
        c,
        dr,
        dc,
        opp,
        n,
    ) by {}
    assert forall|n: int| flanks(g, r, c, dr, dc, own, opp, n) <==> flanks(
        h,
        r,
        c,
        dr,
        dc,
        own,
        opp,
        n,
    ) by {}
    assert forall|n: int| run_stops_after(g, r, c, dr, dc, opp, n) <==> run_stops_after(
        h,
        r,
        c,
        dr,
        dc,
        opp,
        n,
    ) by {}
}

/// Once the length of the run in a direction is known, so is whether the
/// direction captures: the run must not be empty, and the square that ends
/// it must be on the board and hold `own`.
pub proof fn lemma_capture_by_run_length(
    g: Grid,
    r: int,
    c: int,
    dr: int,
    dc: int,
    own: Cell,
    opp: Cell,
    n: int,
)
    requires
        run_length_is(g, r, c, dr, dc, opp, n),
    ensures
        captures(g, r, c, dr, dc, own, opp) <==> n >= 1 && ray_on_board(r, c, dr, dc, n + 1)
            && ray_cell(g, r, c, dr, dc, n + 1) == own,
{
    if n >= 1 && ray_on_board(r, c, dr, dc, n + 1) && ray_cell(g, r, c, dr, dc, n + 1) == own {
        assert(flanks(g, r, c, dr, dc, own, opp, n));
    }
    assert forall|m: int| m != n implies !flanks(g, r, c, dr, dc, own, opp, m) by {
        if m > n && run_of(g, r, c, dr, dc, opp, m) {
            assert(ray_on_board(r, c, dr, dc, n + 1) && ray_cell(g, r, c, dr, dc, n + 1) == opp);
        }
    }
}

/// For a delta in `-1..=1`, `along` is the affine map `start + k * delta`.
pub proof fn lemma_along_is_linear(start: int, delta: int, k: int)
    requires
        -1 <= delta <= 1,
    ensures
        along(start, delta, k) == start + k * delta,
{
    assert(k * delta == along(0, delta, k)) by (nonlinear_arith)
        requires
            -1 <= delta <= 1,
    ;
}

} // verus!
