use othello::board::DIRECTIONS;
use othello::{Board, Cell, Player};

fn board_from(rows: [&str; 8]) -> Board {
    let mut cells = [[Cell::Empty; 8]; 8];
    for (r, row) in rows.iter().enumerate() {
        assert_eq!(row.len(), 8);
        for (c, ch) in row.chars().enumerate() {
            cells[r][c] = match ch {
                '.' => Cell::Empty,
                'B' => Cell::Black,
                'W' => Cell::White,
                other => panic!("unexpected character {other}"),
            };
        }
    }
    Board::from_cells(cells)
}

fn legal_squares(board: &Board, player: Player) -> Vec<(usize, usize)> {
    let mut squares = Vec::new();
    for row in 0..8 {
        for col in 0..8 {
            if board.is_valid_move(&player, row, col) {
                squares.push((row, col));
            }
        }
    }
    squares
}

#[test]
fn from_cells_keeps_every_cell() {
    let board = board_from([
        "B.......",
        ".W......",
        "........",
        "...BW...",
        "........",
        "........",
        "......W.",
        ".......B",
    ]);
    assert_eq!(board.cell(0, 0), Cell::Black);
    assert_eq!(board.cell(1, 1), Cell::White);
    assert_eq!(board.cell(3, 3), Cell::Black);
    assert_eq!(board.cell(3, 4), Cell::White);
    assert_eq!(board.cell(6, 6), Cell::White);
    assert_eq!(board.cell(7, 7), Cell::Black);
    assert_eq!(board.cell(0, 1), Cell::Empty);
    assert_eq!(board.count_pieces(Cell::Black), 3);
    assert_eq!(board.count_pieces(Cell::White), 3);
    assert_eq!(board.count_pieces(Cell::Empty), 58);
}

#[test]
fn occupied_square_is_rejected_whatever_surrounds_it() {
    // (3, 3) would capture to the east if it were empty.
    let board = board_from([
        "........",
        "........",
        "........",
        "...WWB..",
        "........",
        "........",
        "........",
        "........",
    ]);
    assert!(!board.is_valid_move(&Player::Black, 3, 3));
    assert!(!board.is_valid_move(&Player::White, 3, 3));
    assert!(!board.is_valid_move(&Player::Black, 3, 5));
    // The scan itself still sees the capture: only the occupancy forbids it.
    assert!(board.check_direction(3, 3, 0, 1, &Player::Black, Cell::White));
    assert!(board.is_valid_move(&Player::Black, 3, 2));
}

#[test]
fn occupied_squares_of_the_opening_are_rejected() {
    let board = Board::new();
    for (row, col) in [(3, 3), (3, 4), (4, 3), (4, 4)] {
        assert!(!board.is_valid_move(&Player::Black, row, col));
        assert!(!board.is_valid_move(&Player::White, row, col));
    }
}

#[test]
fn run_that_reaches_the_edge_is_rejected() {
    let board = board_from([
        "........",
        "........",
        "........",
        ".....WWW",
        "........",
        "........",
        "........",
        "........",
    ]);
    assert!(!board.check_direction(3, 4, 0, 1, &Player::Black, Cell::White));
    assert!(!board.is_valid_move(&Player::Black, 3, 4));
    assert!(!board.has_valid_move(&Player::Black));
}

#[test]
fn run_that_reaches_a_corner_diagonally_is_rejected() {
    let board = board_from([
        "........",
        "........",
        "........",
        "........",
        "........",
        ".....W..",
        "......W.",
        ".......W",
    ]);
    assert!(!board.check_direction(4, 4, 1, 1, &Player::Black, Cell::White));
    assert!(!board.is_valid_move(&Player::Black, 4, 4));
}

#[test]
fn run_broken_by_an_empty_square_is_rejected() {
    let board = board_from([
        "........",
        "........",
        "........",
        ".WW.B...",
        "........",
        "........",
        "........",
        "........",
    ]);
    assert!(!board.check_direction(3, 0, 0, 1, &Player::Black, Cell::White));
    assert!(!board.is_valid_move(&Player::Black, 3, 0));
}

#[test]
fn own_piece_behind_a_gap_does_not_capture() {
    let board = board_from([
        "........",
        "........",
        "........",
        "..WB....",
        "........",
        "........",
        "........",
        "........",
    ]);
    // From (3, 0) the first square to the east is empty.
    assert!(!board.check_direction(3, 0, 0, 1, &Player::Black, Cell::White));
    assert!(!board.is_valid_move(&Player::Black, 3, 0));
    // From (3, 1) the run starts right away.
    assert!(board.check_direction(3, 1, 0, 1, &Player::Black, Cell::White));
    assert!(board.is_valid_move(&Player::Black, 3, 1));
}

#[test]
fn own_piece_next_door_does_not_capture() {
    let board = board_from([
        "........",
        "........",
        "........",
        "...BW...",
        "........",
        "........",
        "........",
        "........",
    ]);
    assert!(!board.check_direction(3, 2, 0, 1, &Player::Black, Cell::White));
    assert!(!board.is_valid_move(&Player::Black, 3, 2));
    assert!(board.is_valid_move(&Player::Black, 3, 5));
    assert!(board.is_valid_move(&Player::White, 3, 2));
}

#[test]
fn long_run_is_captured() {
    let board = board_from([
        "........",
        "........",
        "........",
        ".WWWWWWB",
        "........",
        "........",
        "........",
        "........",
    ]);
    assert!(board.check_direction(3, 0, 0, 1, &Player::Black, Cell::White));
    assert!(board.is_valid_move(&Player::Black, 3, 0));
    assert_eq!(legal_squares(&board, Player::Black), vec![(3, 0)]);
    assert_eq!(legal_squares(&board, Player::White), vec![]);
}

#[test]
fn every_direction_captures() {
    // A black piece on (3, 3) would flank one white piece in each direction.
    let board = board_from([
        "........",
        ".B.B.B..",
        "..WWW...",
        ".BW.WB..",
        "..WWW...",
        ".B.B.B..",
        "........",
        "........",
    ]);
    for (row_delta, col_delta) in DIRECTIONS {
        assert!(board.check_direction(3, 3, row_delta, col_delta, &Player::Black, Cell::White));
        assert!(!board.check_direction(3, 3, row_delta, col_delta, &Player::White, Cell::Black));
    }
    assert!(board.is_valid_move(&Player::Black, 3, 3));
    assert!(!board.is_valid_move(&Player::White, 3, 3));
}

#[test]
fn one_capturing_direction_is_enough() {
    for (index, (row_delta, col_delta)) in DIRECTIONS.iter().enumerate() {
        let mut cells = [[Cell::Empty; 8]; 8];
        let near = ((3 + row_delta) as usize, (3 + col_delta) as usize);
        let far = ((3 + 2 * row_delta) as usize, (3 + 2 * col_delta) as usize);
        cells[near.0][near.1] = Cell::White;
        cells[far.0][far.1] = Cell::Black;
        let board = Board::from_cells(cells);
        assert!(board.is_valid_move(&Player::Black, 3, 3));
        for (other, (dr, dc)) in DIRECTIONS.iter().enumerate() {
            assert_eq!(
                board.check_direction(3, 3, *dr, *dc, &Player::Black, Cell::White),
                other == index
            );
        }
    }
}

#[test]
fn directions_are_the_eight_neighbours() {
    let mut seen = Vec::new();
    for (row_delta, col_delta) in DIRECTIONS {
        assert!((-1..=1).contains(&row_delta));
        assert!((-1..=1).contains(&col_delta));
        assert!((row_delta, col_delta) != (0, 0));
        assert!(!seen.contains(&(row_delta, col_delta)));
        seen.push((row_delta, col_delta));
    }
    assert_eq!(seen.len(), 8);
}

#[test]
fn scan_stops_at_the_first_own_piece() {
    let board = board_from([
        "........",
        "........",
        "........",
        ".WBWB...",
        "........",
        "........",
        "........",
        "........",
    ]);
    assert!(board.check_direction(3, 0, 0, 1, &Player::Black, Cell::White));
    // From (3, 5) westwards the first piece is Black's own.
    assert!(!board.check_direction(3, 5, 0, -1, &Player::Black, Cell::White));
    assert!(board.check_direction(3, 5, 0, -1, &Player::White, Cell::Black));
}

#[test]
fn scan_from_a_corner_looks_off_the_board() {
    let board = Board::new();
    for (row_delta, col_delta) in DIRECTIONS {
        assert!(!board.check_direction(0, 0, row_delta, col_delta, &Player::Black, Cell::White));
        assert!(!board.check_direction(7, 7, row_delta, col_delta, &Player::White, Cell::Black));
    }
}

#[test]
fn has_valid_move_agrees_with_the_squares() {
    let board = board_from([
        "WB......",
        "........",
        "........",
        "........",
        "........",
        "........",
        "........",
        "........",
    ]);
    assert_eq!(legal_squares(&board, Player::Black), vec![]);
    assert!(!board.has_valid_move(&Player::Black));
    assert_eq!(legal_squares(&board, Player::White), vec![(0, 2)]);
    assert!(board.has_valid_move(&Player::White));
    assert!(!board.game_over());
}
