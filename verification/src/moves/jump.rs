use super::util::has_coord;
use super::{relocate, relocated};
use crate::board::model::BoardView;
use crate::board::{Board, Coord};
use crate::errors::OutOfBoundsError;
use vstd::prelude::*;

verus! {

/// Leaping by a fixed pair of offsets, over whatever stands in between.
#[derive(Debug, Clone, Copy, PartialEq, Eq, Structural)]
pub struct Jump {
    pub first: u32,
    pub second: u32,
}

/// The distance between two indices.
pub open spec fn gap(a: int, b: int) -> int {
    if a >= b {
        a - b
    } else {
        b - a
    }
}

impl Jump {
    /// The knight's leap: two cells one way, one cell the other.
    pub fn default() -> (j: Jump)
        ensures
            j.first == 2,
            j.second == 1,
    {
        Jump { first: 2, second: 1 }
    }

    /// The two cells lie one offset apart by rows and the other by columns.
    pub open spec fn in_range(self, from: Coord, to: Coord) -> bool {
        let rows = gap(to.row as int, from.row as int);
        let cols = gap(to.col as int, from.col as int);
        (rows == self.first && cols == self.second) || (rows == self.second && cols == self.first)
    }

    /// The rule lets the piece on `from` go to `to`: the leap has the right
    /// shape and lands on the grid, on an empty cell or on a piece of the
    /// other colour.
    pub open spec fn allows(self, b: BoardView, from: Coord, to: Coord) -> bool {
        &&& b.at(from) matches Some(p)
        &&& self.in_range(from, to)
        &&& b.in_bounds(to)
        &&& b.at(to) matches Some(q) ==> q.color != p.color
    }

    /// The `i`-th of the eight leaps, as a change of row and of column.
    pub open spec fn offset(self, i: int) -> (int, int) {
        let a = if i < 4 {
            self.first as int
        } else {
            self.second as int
        };
        let b = if i < 4 {
            self.second as int
        } else {
            self.first as int
        };
        (if i % 4 < 2 {
            a
        } else {
            -a
        }, if i % 2 == 0 {
            b
        } else {
            -b
        })
    }

    /// Does the leap from `from` to `to` have the shape of the rule?
    pub fn is_jump_in_range(&self, from: &Coord, to: &Coord) -> (r: bool)
        ensures
            r == self.in_range(*from, *to),
    {
        let dr: i64 = to.row as i64 - from.row as i64;
        let dc: i64 = to.col as i64 - from.col as i64;
        let n_rows: i64 = if dr >= 0 {
            dr
        } else {
            -dr
        };
        let n_cols: i64 = if dc >= 0 {
            dc
        } else {
            -dc
        };
        (n_rows == self.first as i64 && n_cols == self.second as i64) || (n_rows
            == self.second as i64 && n_cols == self.first as i64)
    }

    /// May the piece on `from` leap to `to`?
    pub fn is_move_valid(&self, from: Coord, to: Coord, board: &Board) -> (r: bool)
        requires
            board.wf(),
        ensures
            r == self.allows(board@, from, to),
    {
        let from_piece = match board.get_piece(&from) {
            Ok(Some(piece)) => piece,
            _ => {
                return false;
            },
        };
        if !self.is_jump_in_range(&from, &to) {
            return false;
        }
        let to_piece = match board.get_piece(&to) {
            Ok(Some(piece)) => piece,
            Ok(None) => {
                return true;
            },
            _ => {
                return false;
            },
        };
        from_piece.color != to_piece.color
    }

    /// The cells the rule lets the piece on `from` go to, each once.
    pub fn allowed_moves(&self, from: Coord, board: &Board) -> (cells: Vec<Coord>)
        requires
            board.wf(),
        ensures
            cells@.no_duplicates(),
            forall|to: Coord| cells@.contains(to) <==> self.allows(board@, from, to),
    {
        let from_piece = match board.get_piece(&from) {
            Ok(Some(piece)) => piece,
            _ => {
                return Vec::new();
            },
        };
        let mut to_coords: Vec<Coord> = Vec::new();
        let mut i: u8 = 0;
        while i < 8
            invariant
                board.wf(),
                i <= 8,
                board@.at(from) == Some(from_piece@),
                to_coords@.no_duplicates(),
                forall|to: Coord|
                    to_coords@.contains(to) <==> self.allows(board@, from, to) && exists|j: int|
                        0 <= j < i && #[trigger] self.offset(j) == (
                            to.row - from.row,
                            to.col - from.col,
                        ),
            decreases 8 - i,
        {
            let a: i64 = if i < 4 {
                self.first as i64
            } else {
                self.second as i64
            };
            let b: i64 = if i < 4 {
                self.second as i64
            } else {
                self.first as i64
            };
            let row: i64 = if i % 4 < 2 {
                from.row as i64 + a
            } else {
                from.row as i64 - a
            };
            let col: i64 = if i % 2 == 0 {
                from.col as i64 + b
            } else {
                from.col as i64 - b
            };
            let ghost before = to_coords@;
            let mut found = false;
            if i32::MIN as i64 <= row && row <= i32::MAX as i64 && i32::MIN as i64 <= col && col
                <= i32::MAX as i64 {
                let to = Coord { row: row as i32, col: col as i32 };
                let free = match board.get_piece(&to) {
                    Ok(Some(piece)) => piece.color != from_piece.color,
                    Ok(None) => true,
                    Err(_) => false,
                };
                if free {
                    assert(self.offset(i as int) == (to.row - from.row, to.col - from.col));
                    assert(self.allows(board@, from, to));
                    if !has_coord(&to_coords, to) {
                        to_coords.push(to);
                        proof {
                            assert forall|c: Coord| to_coords@.contains(c) implies before.contains(
                                c,
                            ) || c == to by {
                                let k = choose|k: int| 0 <= k < to_coords@.len() && to_coords@[k] == c;
                                if k < before.len() {
                                    assert(before[k] == c);
                                }
                            }
                            assert(to_coords@[before.len() as int] == to);
                            assert forall|c: Coord| before.contains(c) implies to_coords@.contains(
                                c,
                            ) by {
                                let k = choose|k: int| 0 <= k < before.len() && before[k] == c;
                                assert(to_coords@[k] == c);
                            }
                        }
                    }
                }
            }
            proof {
                assert forall|to: Coord|
                    to_coords@.contains(to) <==> self.allows(board@, from, to) && exists|j: int|
                        0 <= j < i + 1 && #[trigger] self.offset(j) == (
                            to.row - from.row,
                            to.col - from.col,
                        ) by {
                    if self.allows(board@, from, to) && self.offset(i as int) == (
                        to.row - from.row,
                        to.col - from.col,
                    ) {
                        assert(to.row == row && to.col == col);
                        assert(to_coords@.contains(to));
                    }
                    if before.contains(to) {
                        let j = choose|j: int|
                            0 <= j < i && #[trigger] self.offset(j) == (
                                to.row - from.row,
                                to.col - from.col,
                            );
                        assert(0 <= j < i + 1);
                    }
                }
            }
            i += 1;
        }
        proof {
            assert forall|to: Coord| to_coords@.contains(to) <==> self.allows(
                board@,
                from,
                to,
            ) by {
                if self.allows(board@, from, to) {
                    self.lemma_offsets(from, to);
                }
            }
        }
        to_coords
    }

    /// A leap of the right shape is one of the eight.
    proof fn lemma_offsets(self, from: Coord, to: Coord)
        requires
            self.in_range(from, to),
        ensures
            exists|j: int|
                0 <= j < 8 && #[trigger] self.offset(j) == (to.row - from.row, to.col - from.col),
    {
        let d = (to.row - from.row, to.col - from.col);
        if self.offset(0) == d {
        } else if self.offset(1) == d {
        } else if self.offset(2) == d {
        } else if self.offset(3) == d {
        } else if self.offset(4) == d {
        } else if self.offset(5) == d {
        } else if self.offset(6) == d {
        } else {
            assert(self.offset(7) == d);
        }
    }

    /// Moves the piece on `from` to `to` and marks it as moved, whether or
    /// not the rule allows the move.
    pub fn move_piece(&self, from: Coord, to: Coord, board: &mut Board) -> (r: Result<
        (),
        OutOfBoundsError,
    >)
        requires
            old(board).wf(),
        ensures
            final(board).wf(),
            final(board)@ == relocated(old(board)@, from, to),
            r is Err <==> old(board)@.at(from) is Some && !old(board)@.in_bounds(to),
    {
        relocate(from, to, board)
    }
}

} // verus!
