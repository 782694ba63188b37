//! The grid data model: positions, cells, and the board built from text.

use vstd::prelude::*;

verus! {

/// A grid coordinate as an ordered (column, row) pair.
#[derive(Clone, Copy, Debug, Eq, Hash, Ord, PartialEq, PartialOrd, Structural)]
pub struct Pos(pub i16, pub i16);

/// One grid location: either a traversal cost in 1..=9 or an impassable wall.
#[derive(Clone, Copy, Debug, Eq, PartialEq, Structural)]
pub enum Cell {
    Blocked,
    Cost(u8),
}

/// Why a textual board description was rejected.
#[derive(Clone, Copy, Debug, Eq, PartialEq, Structural)]
pub enum ParseError {
    /// No rows at all, or rows of zero length.
    EmptyBoard,
    /// More than 255 rows, or rows longer than 255 cells.
    TooLarge,
    /// Some row's length differs from the first row's.
    UnequalRowLength,
    /// A character other than '1'..='9' or 'X'; carries the first such
    /// character in row-major order.
    InvalidCharacter(char),
}

/// A rectangular weighted grid with optional diagonal movement.
pub struct Board {
    pub width: u8,
    pub height: u8,
    pub data: Vec<Vec<Cell>>,
    pub allow_diagonal: bool,
}

/// A cell is well formed when a stored cost lies in 1..=9.
pub open spec fn cell_ok(c: Cell) -> bool {
    match c {
        Cell::Blocked => true,
        Cell::Cost(v) => 1 <= v <= 9,
    }
}

/// The cost stored in a cell; zero stands in for a wall, which no move may
/// enter.
pub open spec fn cell_cost(c: Cell) -> u8 {
    match c {
        Cell::Blocked => 0,
        Cell::Cost(v) => v,
    }
}

/// The board characters the text format accepts.
pub open spec fn valid_char(c: char) -> bool {
    c == 'X' || ('1' <= c && c <= '9')
}

/// The cell a valid board character denotes.
pub open spec fn char_cell(c: char) -> Cell {
    if c == 'X' {
        Cell::Blocked
    } else {
        Cell::Cost((c as int - 48) as u8)
    }
}

/// A valid board character denotes a well-formed cell: 'X' a wall, a digit
/// a cost between 1 and 9.
proof fn lemma_char_cell_ok(c: char)
    requires
        valid_char(c),
    ensures
        cell_ok(char_cell(c)),
{
    if c != 'X' {
        assert(49 <= c as int <= 57);
    }
}

/// The rows of text as sequences of characters.
pub open spec fn rows_view(rows: Seq<&str>) -> Seq<Seq<char>> {
    rows.map_values(|s: &str| s@)
}

impl Board {
    /// Well-formedness: positive dimensions, every row of exactly `width`
    /// cells, `height` rows, and every stored cost in 1..=9.
    pub open spec fn wf(self) -> bool {
        &&& 1 <= self.width
        &&& 1 <= self.height
        &&& self.data@.len() == self.height as int
        &&& forall|y: int|
            0 <= y < self.height as int ==> (#[trigger] self.data@[y])@.len() == self.width as int
        &&& forall|y: int, x: int|
            0 <= y < self.height as int && 0 <= x < self.width as int ==> cell_ok(
                #[trigger] self.data@[y]@[x],
            )
    }

    /// The cell stored at column `x`, row `y`.
    pub open spec fn cell_at(self, x: int, y: int) -> Cell {
        self.data@[y]@[x]
    }

    /// The cell at `position`, which must lie on the board: callers
    /// bounds-check, as the successor generator does internally.
    pub fn cell(&self, position: &Pos) -> (c: Cell)
        requires
            self.wf(),
            0 <= position.0 as int && (position.0 as int) < self.width as int,
            0 <= position.1 as int && (position.1 as int) < self.height as int,
        ensures
            c == self.cell_at(position.0 as int, position.1 as int),
    {
        self.data[position.1 as usize][position.0 as usize]
    }

    /// Builds a board from one string per row, one character per cell:
    /// '1'..='9' a traversal cost, 'X' a wall. Rejects an empty board,
    /// dimensions beyond 255, unequal row lengths, and any other character,
    /// in that order of checks; otherwise returns the parsed board.
    pub fn new(board_lines: Vec<&str>, allow_diagonal: bool) -> (r: Result<Board, ParseError>)
        ensures
            ({
                let rv = rows_view(board_lines@);
                let empty = rv.len() == 0 || rv[0].len() == 0;
                let too_large = rv.len() > 255 || rv[0].len() > 255;
                let unequal = exists|y: int| 0 <= y < rv.len() && (#[trigger] rv[y]).len() != rv[0].len();
                &&& (r == Err::<Board, ParseError>(ParseError::EmptyBoard) <==> empty)
                &&& (r == Err::<Board, ParseError>(ParseError::TooLarge) <==> !empty && too_large)
                &&& (r == Err::<Board, ParseError>(ParseError::UnequalRowLength) <==> !empty
                    && !too_large && unequal)
                &&& !empty && !too_large && !unequal ==> ({
                    if forall|y: int, x: int|
                        0 <= y < rv.len() && 0 <= x < rv[0].len() ==> valid_char(#[trigger] rv[y][x]) {
                        match r {
                            Ok(b) => {
                                &&& b.wf()
                                &&& b.width as int == rv[0].len()
                                &&& b.height as int == rv.len()
                                &&& b.allow_diagonal == allow_diagonal
                                &&& forall|y: int, x: int|
                                    0 <= y < rv.len() && 0 <= x < rv[0].len() ==> b.cell_at(x, y)
                                        == char_cell(#[trigger] rv[y][x])
                            },
                            Err(_) => false,
                        }
                    } else {
                        exists|y: int, x: int|
                            {
                                &&& 0 <= y < rv.len()
                                &&& 0 <= x < rv[0].len()
                                &&& !valid_char(rv[y][x])
                                &&& forall|y2: int, x2: int|
                                    0 <= y2 < rv.len() && 0 <= x2 < rv[0].len() && (y2 < y || (y2
                                        == y && x2 < x)) ==> valid_char(#[trigger] rv[y2][x2])
                                &&& r == Err::<Board, ParseError>(
                                    ParseError::InvalidCharacter(rv[y][x]),
                                )
                            }
                    }
                })
            }),
    {
        let height = board_lines.len();
        if height == 0 {
            return Err(ParseError::EmptyBoard);
        }
        let width = board_lines[0].unicode_len();
        if width == 0 {
            return Err(ParseError::EmptyBoard);
        }
        if height > 255 || width > 255 {
            return Err(ParseError::TooLarge);
        }
        let mut y: usize = 1;
        while y < height
            invariant
                1 <= y <= height,
                height == board_lines@.len(),
                width == board_lines@[0]@.len(),
                1 <= width <= 255,
                1 <= height <= 255,
                forall|i: int| 0 <= i < y ==> (#[trigger] board_lines@[i])@.len() == width as int,
            decreases height - y,
        {
            if board_lines[y].unicode_len() != width {
                proof {
                    let rv = rows_view(board_lines@);
                    assert(rv[y as int].len() != rv[0].len());
                }
                return Err(ParseError::UnequalRowLength);
            }
            y += 1;
        }
        let mut data: Vec<Vec<Cell>> = Vec::new();
        let mut y: usize = 0;
        while y < height
            invariant
                0 <= y <= height,
                height == board_lines@.len(),
                1 <= width <= 255,
                1 <= height <= 255,
                forall|i: int| 0 <= i < height ==> (#[trigger] board_lines@[i])@.len() == width as int,
                data@.len() == y as int,
                forall|i: int| 0 <= i < y ==> (#[trigger] data@[i])@.len() == width as int,
                forall|i: int, j: int|
                    0 <= i < y && 0 <= j < width as int ==> valid_char(#[trigger] board_lines@[i]@[j]),
                forall|i: int, j: int|
                    0 <= i < y && 0 <= j < width as int ==> data@[i]@[j] == char_cell(
                        #[trigger] board_lines@[i]@[j],
                    ),
            decreases height - y,
        {
            let mut row: Vec<Cell> = Vec::new();
            let mut x: usize = 0;
            while x < width
                invariant
                    0 <= x <= width,
                    0 <= y < height,
                    height == board_lines@.len(),
                    1 <= width <= 255,
                    1 <= height <= 255,
                    forall|i: int|
                        0 <= i < height ==> (#[trigger] board_lines@[i])@.len() == width as int,
                    forall|i: int, j: int|
                        0 <= i < y && 0 <= j < width as int ==> valid_char(
                            #[trigger] board_lines@[i]@[j],
                        ),
                    row@.len() == x as int,
                    forall|j: int|
                        0 <= j < x ==> valid_char(#[trigger] board_lines@[y as int]@[j]),
                    forall|j: int|
                        0 <= j < x ==> row@[j] == char_cell(#[trigger] board_lines@[y as int]@[j]),
                decreases width - x,
            {
                let c = board_lines[y].get_char(x);
                if c == 'X' {
                    row.push(Cell::Blocked);
                } else if '1' <= c && c <= '9' {
                    row.push(Cell::Cost(((c as u32) - 48) as u8));
                } else {
                    proof {
                        let rv = rows_view(board_lines@);
                        assert(forall|i: int|
                            0 <= i < rv.len() ==> #[trigger] rv[i] == board_lines@[i]@);
                        assert(!valid_char(rv[y as int][x as int]));
                        assert(forall|y2: int, x2: int|
                            0 <= y2 < rv.len() && 0 <= x2 < rv[0].len() && (y2 < y as int || (y2
                                == y as int && x2 < x as int)) ==> valid_char(
                                #[trigger] rv[y2][x2],
                            ));
                    }
                    return Err(ParseError::InvalidCharacter(c));
                }
                x += 1;
            }
            data.push(row);
            y += 1;
        }
        let board = Board { width: width as u8, height: height as u8, data, allow_diagonal };
        proof {
            let rv = rows_view(board_lines@);
            assert(forall|i: int| 0 <= i < rv.len() ==> #[trigger] rv[i] == board_lines@[i]@);
            assert(forall|i: int|
                0 <= i < rv.len() ==> (#[trigger] rv[i]).len() == rv[0].len());
            assert(forall|y2: int, x2: int|
                0 <= y2 < rv.len() && 0 <= x2 < rv[0].len() ==> valid_char(
                    #[trigger] rv[y2][x2],
                ));
            assert(forall|y2: int, x2: int|
                0 <= y2 < rv.len() && 0 <= x2 < rv[0].len() ==> board.cell_at(x2, y2)
                    == char_cell(#[trigger] rv[y2][x2]));
            assert forall|y2: int, x2: int|
                0 <= y2 < board.height as int && 0 <= x2 < board.width as int implies cell_ok(
                #[trigger] board.data@[y2]@[x2],
            ) by {
                lemma_char_cell_ok(board_lines@[y2]@[x2]);
            }
        }
        Ok(board)
    }
}

} // verus!
