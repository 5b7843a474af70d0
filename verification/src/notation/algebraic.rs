use super::text::{chars_of, code_of, takes_two_bytes, utf8_len};
use crate::board::Coord;
use vstd::prelude::*;

verus! {

/// Names of cells as a letter for the column and a digit for the row, on a
/// board of `rows` by `cols` cells. Row 1 is the last row of the grid.
pub struct AlgebraicNotation {
    pub rows: u32,
    pub cols: u32,
}

#[derive(Debug, PartialEq)]
pub enum AlgebraicNotationError {
    InvalidString(String),
    InvalidCell(String),
}

/// What is wrong with the name of a cell.
pub enum CellFault {
    /// The name does not take two bytes.
    InvalidString,
    /// The name takes two bytes and names no cell of the board.
    InvalidCell,
}

impl AlgebraicNotationError {
    /// What the error says is wrong.
    pub open spec fn fault(self) -> CellFault {
        match self {
            AlgebraicNotationError::InvalidString(_) => CellFault::InvalidString,
            AlgebraicNotationError::InvalidCell(_) => CellFault::InvalidCell,
        }
    }

    /// The message that the error carries.
    pub open spec fn message(self) -> Seq<char> {
        match self {
            AlgebraicNotationError::InvalidString(m) => m@,
            AlgebraicNotationError::InvalidCell(m) => m@,
        }
    }
}

impl AlgebraicNotation {
    /// The cell that a letter and a digit name: the letter counts columns
    /// from `a`, the digit counts rows from `1` at the last row of the grid.
    pub open spec fn cell(self, col: char, row: char) -> Option<Coord> {
        let c = col as int - 'a' as int;
        let r = row as int - '1' as int;
        if 0 <= c < self.cols && 0 <= r < self.rows && self.rows - 1 - r <= i32::MAX {
            Some(Coord { row: (self.rows - 1 - r) as i32, col: c as i32 })
        } else {
            None
        }
    }

    /// The cell that a name stands for, or what is wrong with the name.
    pub open spec fn named(self, name: Seq<char>) -> Result<Coord, CellFault> {
        if utf8_len(name, name.len() as int) != 2 {
            Err(CellFault::InvalidString)
        } else if name.len() != 2 {
            Err(CellFault::InvalidCell)
        } else {
            match self.cell(name[0], name[1]) {
                Some(c) => Ok(c),
                None => Err(CellFault::InvalidCell),
            }
        }
    }

    /// Reads the name of a cell from its characters.
    pub fn cell_from_chars(&self, cell: &Vec<char>) -> (r: Result<Coord, AlgebraicNotationError>)
        ensures
            r is Ok <==> self.named(cell@) is Ok,
            r matches Ok(c) ==> self.named(cell@) == Ok::<Coord, CellFault>(c),
            r matches Err(e) ==> self.named(cell@) == Err::<Coord, CellFault>(e.fault())
                && e.message() == "Invalid cell"@,
    {
        if !takes_two_bytes(cell) {
            return Err(AlgebraicNotationError::InvalidString("Invalid cell".to_string()));
        }
        if cell.len() != 2 {
            return Err(AlgebraicNotationError::InvalidCell("Invalid cell".to_string()));
        }
        let col = code_of(cell[0]);
        let row = code_of(cell[1]);
        if col < code_of('a') || row < code_of('1') {
            return Err(AlgebraicNotationError::InvalidCell("Invalid cell".to_string()));
        }
        let col = col - code_of('a');
        let row = row - code_of('1');
        if col >= self.cols || row >= self.rows {
            return Err(AlgebraicNotationError::InvalidCell("Invalid cell".to_string()));
        }
        let board_row: i64 = self.rows as i64 - 1 - row as i64;
        if board_row > i32::MAX as i64 {
            return Err(AlgebraicNotationError::InvalidCell("Invalid cell".to_string()));
        }
        Ok(Coord { row: board_row as i32, col: col as i32 })
    }

    /// Reads the name of a cell.
    pub fn cell_from_str(&self, cell: &str) -> (r: Result<Coord, AlgebraicNotationError>)
        ensures
            r is Ok <==> self.named(cell@) is Ok,
            r matches Ok(c) ==> self.named(cell@) == Ok::<Coord, CellFault>(c),
            r matches Err(e) ==> self.named(cell@) == Err::<Coord, CellFault>(e.fault())
                && e.message() == "Invalid cell"@,
    {
        let chars = chars_of(cell);
        self.cell_from_chars(&chars)
    }
}

} // verus!
