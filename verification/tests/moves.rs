use othello::{Board, Cell, Player};

fn board_from(rows: [&str; 8]) -> Board {
    let mut cells = [[Cell::Empty; 8]; 8];
    for (r, row) in rows.iter().enumerate() {
        assert_eq!(row.len(), 8);
        for (c, ch) in row.chars().enumerate() {
            cells[r][c] = match ch {
                '.' => Cell::Empty,
                'B' => Cell::Black,
                'W' => Cell::White,
                other => panic!("unexpected character {other}"),
            };
        }
    }
    Board::from_cells(cells)
}

fn rows_of(board: &Board) -> Vec<String> {
    (0..8)
        .map(|row| {
            (0..8)
                .map(|col| match board.cell(row, col) {
                    Cell::Empty => '.',
                    Cell::Black => 'B',
                    Cell::White => 'W',
                })
                .collect()
        })
        .collect()
}

#[test]
fn move_captures_in_all_eight_directions_at_once() {
    let mut board = board_from([
        "........",
        ".B.B.B..",
        "..WWW...",
        ".BW.WB..",
        "..WWW...",
        ".B.B.B..",
        "........",
        "........",
    ]);
    board.apply_move(&Player::Black, 3, 3);
    assert_eq!(
        rows_of(&board),
        vec![
            "........",
            ".B.B.B..",
            "..BBB...",
            ".BBBBB..",
            "..BBB...",
            ".B.B.B..",
            "........",
            "........",
        ]
    );
    assert_eq!(board.count_pieces(Cell::Black), 17);
    assert_eq!(board.count_pieces(Cell::White), 0);
}

#[test]
fn move_flips_flanked_runs_and_leaves_the_others() {
    // East is flanked, south runs off the board, west has a gap,
    // north-east is flanked over two pieces.
    let mut board = board_from([
        "........",
        "......B.",
        ".....W..",
        "....W...",
        "B.W.WWB.",
        "...W....",
        "...W....",
        "...W....",
    ]);
    assert!(board.is_valid_move(&Player::Black, 4, 3));
    board.apply_move(&Player::Black, 4, 3);
    assert_eq!(
        rows_of(&board),
        vec![
            "........",
            "......B.",
            ".....B..",
            "....B...",
            "B.WBBBB.",
            "...W....",
            "...W....",
            "...W....",
        ]
    );
}

#[test]
fn move_flips_only_up_to_the_flanking_piece() {
    let mut board = board_from([
        "........",
        "........",
        "........",
        ".WWBWWB.",
        "........",
        "........",
        "........",
        "........",
    ]);
    board.apply_move(&Player::Black, 3, 0);
    assert_eq!(rows_of(&board)[3], "BBBBWWB.");
}

#[test]
fn white_captures_black_the_same_way() {
    let mut board = board_from([
        "........",
        "........",
        "...W....",
        "...B....",
        "...B....",
        "........",
        "........",
        "........",
    ]);
    assert!(board.is_valid_move(&Player::White, 5, 3));
    board.apply_move(&Player::White, 5, 3);
    assert_eq!(board.cell(3, 3), Cell::White);
    assert_eq!(board.cell(4, 3), Cell::White);
    assert_eq!(board.cell(5, 3), Cell::White);
    assert_eq!(board.count_pieces(Cell::White), 4);
    assert_eq!(board.count_pieces(Cell::Black), 0);
}

#[test]
fn move_without_a_capture_only_places_the_piece() {
    let mut board = board_from([
        "........",
        "........",
        "........",
        "....WWW.",
        "........",
        "........",
        "........",
        "........",
    ]);
    assert!(!board.is_valid_move(&Player::Black, 0, 0));
    board.apply_move(&Player::Black, 0, 0);
    assert_eq!(rows_of(&board)[0], "B.......");
    assert_eq!(rows_of(&board)[3], "....WWW.");
    assert_eq!(board.count_pieces(Cell::Black), 1);
    assert_eq!(board.count_pieces(Cell::White), 3);
}

#[test]
fn flip_pieces_turns_the_run_up_to_the_next_other_cell() {
    let mut board = board_from([
        "........",
        "........",
        "........",
        ".WWWB.W.",
        "........",
        "........",
        "........",
        "........",
    ]);
    board.flip_pieces(3, 0, 0, 1, &Player::Black, Cell::White);
    assert_eq!(rows_of(&board)[3], ".BBBB.W.");
    for row in [0, 1, 2, 4, 5, 6, 7] {
        assert_eq!(rows_of(&board)[row], "........");
    }
}

#[test]
fn flip_pieces_stops_at_an_empty_square() {
    let mut board = board_from([
        "........",
        "........",
        "..W.....",
        "...W....",
        "........",
        ".....W..",
        "........",
        "........",
    ]);
    board.flip_pieces(1, 1, 1, 1, &Player::Black, Cell::White);
    assert_eq!(board.cell(2, 2), Cell::Black);
    assert_eq!(board.cell(3, 3), Cell::Black);
    assert_eq!(board.cell(4, 4), Cell::Empty);
    assert_eq!(board.cell(5, 5), Cell::White);
}

#[test]
fn flip_pieces_on_an_empty_run_changes_nothing() {
    let mut board = Board::new();
    board.flip_pieces(0, 0, 1, 1, &Player::Black, Cell::White);
    assert_eq!(rows_of(&board), rows_of(&Board::new()));
}

#[test]
fn occupied_squares_stay_occupied_throughout_a_game() {
    let mut board = Board::new();
    let mut player = Player::Black;
    let mut moves = 0;
    while !board.game_over() {
        if !board.has_valid_move(&player) {
            player = player.opponent();
            continue;
        }
        // Play the last legal square in row-major order.
        let mut choice = None;
        for row in 0..8 {
            for col in 0..8 {
                if board.is_valid_move(&player, row, col) {
                    choice = Some((row, col));
                }
            }
        }
        let (row, col) = choice.unwrap();
        let before = rows_of(&board);
        let own_before = board.count_pieces(player.cell());
        let other_before = board.count_pieces(player.opponent().cell());
        board.apply_move(&player, row, col);
        let after = rows_of(&board);
        assert!(board.count_pieces(player.cell()) >= own_before + 2);
        assert!(board.count_pieces(player.opponent().cell()) < other_before);
        for r in 0..8 {
            for c in 0..8 {
                let was = before[r].as_bytes()[c];
                let is = after[r].as_bytes()[c];
                if was != b'.' {
                    assert!(is != b'.');
                }
            }
        }
        assert_eq!(board.cell(row, col), player.cell());
        moves += 1;
        assert_eq!(board.count_pieces(Cell::Empty), 60 - moves);
        assert_eq!(
            board.count_pieces(Cell::Black)
                + board.count_pieces(Cell::White)
                + board.count_pieces(Cell::Empty),
            64
        );
        player = player.opponent();
    }
    assert!(moves > 0);
    assert!(!board.has_valid_move(&Player::Black));
    assert!(!board.has_valid_move(&Player::White));
}

#[test]
fn counts_add_up_to_sixty_four() {
    let boards = [
        Board::new(),
        Board::from_cells([[Cell::Empty; 8]; 8]),
        Board::from_cells([[Cell::Black; 8]; 8]),
        board_from([
            "BWBWBWBW",
            "W.......",
            "B.......",
            "W..BW...",
            "B..WB...",
            "W.......",
            "B.......",
            "WWWWWWWW",
        ]),
    ];
    let expected = [(2, 2, 60), (0, 0, 64), (64, 0, 0), (9, 17, 38)];
    for (board, (black, white, empty)) in boards.iter().zip(expected) {
        assert_eq!(board.count_pieces(Cell::Black), black);
        assert_eq!(board.count_pieces(Cell::White), white);
        assert_eq!(board.count_pieces(Cell::Empty), empty);
        assert_eq!(black + white + empty, 64);
    }
}
