//! Moves as text, and the board as text.
//!
//! A move is written as two lowercase letters, the row first and the column
//! second, each in `a..=h`. The board is drawn with the same letters along
//! its top and left edges.

use vstd::prelude::*;
use vstd::string::{StrSliceExecFns, StringExecFns};
use crate::board::{Board, SIZE};
use crate::piece::Cell;
use crate::rules::Grid;

verus! {

/// The coordinate that a letter stands for: `a` is 0, `b` is 1 and so on.
/// A character that comes before `a` stands for 8, which is off the board,
/// as is whatever follows `h`.
pub open spec fn letter_index(ch: char) -> int {
    if ch >= 'a' {
        ch as int - 'a' as int
    } else {
        8
    }
}

/// The square that a line of input names. A line that is not exactly two
/// characters long names `(8, 8)`, which is off the board.
pub open spec fn parsed(line: Seq<char>) -> (int, int) {
    if line.len() == 2 {
        (letter_index(line[0]), letter_index(line[1]))
    } else {
        (8, 8)
    }
}

/// The coordinate that a letter stands for.
pub fn letter_to_index(ch: char) -> (index: usize)
    ensures
        index == letter_index(ch),
{
    if ch >= 'a' {
        (ch as u32 - 'a' as u32) as usize
    } else {
        SIZE
    }
}

/// Reads a move from a line of input, given without its line terminator.
pub fn parse_move(line: &str) -> (square: (usize, usize))
    ensures
        (square.0 as int, square.1 as int) == parsed(line@),
{
    if line.unicode_len() != 2 {
        return (SIZE, SIZE);
    }
    let row = line.get_char(0);
    let col = line.get_char(1);
    (letter_to_index(row), letter_to_index(col))
}

/// The letter that names row or column `i`.
pub open spec fn letter(i: int) -> char {
    ('a' as int + i) as char
}

/// The character that a cell is drawn with.
pub open spec fn symbol(cell: Cell) -> char {
    match cell {
        Cell::Empty => '.',
        Cell::Black => 'B',
        Cell::White => 'W',
    }
}

/// The first line of the drawing: two spaces, then the column letters.
pub open spec fn header_text() -> Seq<char> {
    seq![' ', ' '] + Seq::new(8, |j: int| letter(j)) + seq!['\n']
}

/// The line that draws row `i`: its letter, a space, and its eight cells.
pub open spec fn row_text(cells: Seq<Cell>, i: int) -> Seq<char> {
    seq![letter(i), ' '] + Seq::new(8, |j: int| symbol(cells[j])) + seq!['\n']
}

/// The header followed by the lines of the first `n` rows.
pub open spec fn rows_text(g: Grid, n: int) -> Seq<char>
    decreases n,
{
    if n <= 0 {
        header_text()
    } else {
        rows_text(g, n - 1) + row_text(g[n - 1], n - 1)
    }
}

/// The drawing of a position: the header and the eight rows, each line
/// ended by a newline.
pub open spec fn board_text(g: Grid) -> Seq<char> {
    rows_text(g, 8)
}

/// The letter that names row or column `i`, as a string.
pub fn letter_str(i: usize) -> (s: &'static str)
    requires
        i < 8,
    ensures
        s@ == seq![letter(i as int)],
{
    proof {
        reveal_strlit("a");
        reveal_strlit("b");
        reveal_strlit("c");
        reveal_strlit("d");
        reveal_strlit("e");
        reveal_strlit("f");
        reveal_strlit("g");
        reveal_strlit("h");
    }
    if i == 0 {
        "a"
    } else if i == 1 {
        "b"
    } else if i == 2 {
        "c"
    } else if i == 3 {
        "d"
    } else if i == 4 {
        "e"
    } else if i == 5 {
        "f"
    } else if i == 6 {
        "g"
    } else {
        "h"
    }
}

/// The character that a cell is drawn with, as a string.
pub fn symbol_str(cell: Cell) -> (s: &'static str)
    ensures
        s@ == seq![symbol(cell)],
{
    proof {
        reveal_strlit(".");
        reveal_strlit("B");
        reveal_strlit("W");
    }
    match cell {
        Cell::Empty => ".",
        Cell::Black => "B",
        Cell::White => "W",
    }
}

impl Board {
    /// Draws the board: a line of column letters, then one line per row
    /// that starts with the row's letter.
    pub fn render(&self) -> (text: String)
        ensures
            text@ == board_text(self@),
    {
        let mut text = String::from_str("  abcdefgh\n");
        proof {
            reveal_strlit("  abcdefgh\n");
        }
        let mut row: usize = 0;
        while row < SIZE
            invariant
                0 <= row <= 8,
                text@ == rows_text(self@, row as int),
            decreases 8 - row,
        {
            let ghost start = text@;
            text.append(letter_str(row));
            text.append(" ");
            proof {
                reveal_strlit(" ");
                assert(text@ =~= start + seq![letter(row as int), ' '] + Seq::new(
                    0,
                    |j: int| symbol(self@[row as int][j]),
                ));
            }
            let mut col: usize = 0;
            while col < SIZE
                invariant
                    0 <= row < 8,
                    0 <= col <= 8,
                    text@ == start + seq![letter(row as int), ' '] + Seq::new(
                        col as nat,
                        |j: int| symbol(self@[row as int][j]),
                    ),
                decreases 8 - col,
            {
                text.append(symbol_str(self.cell(row, col)));
                proof {
                    assert(text@ =~= start + seq![letter(row as int), ' '] + Seq::new(
                        (col + 1) as nat,
                        |j: int| symbol(self@[row as int][j]),
                    ));
                }
                col += 1;
            }
            text.append("\n");
            proof {
                reveal_strlit("\n");
                self.lemma_well_formed();
            }
            row += 1;
        }
        text
    }
}

} // verus!
