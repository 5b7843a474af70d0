use super::jump::gap;
use super::util::{coord_of, lemma_concat_contains};
use super::{relocate, relocated};
use crate::board::model::BoardView;
use crate::board::{Board, Coord};
use crate::errors::OutOfBoundsError;
use crate::piece::{Color, Piece, PieceView};
use vstd::prelude::*;

verus! {

/// The pawn's moves: forward onto empty cells, diagonally to capture.
#[derive(Debug, Clone, Copy, PartialEq, Eq, Structural)]
pub struct PawnMove {}

/// The change of row when a pawn of this colour advances one cell: White
/// advances towards row 0, Black away from it.
pub open spec fn forward(color: Color) -> int {
    match color {
        Color::White => -1,
        Color::Black => 1,
    }
}

/// The sequence that holds `c` where `cond` holds, and nothing otherwise.
pub open spec fn only_if(cond: bool, c: Coord) -> Seq<Coord> {
    if cond {
        seq![c]
    } else {
        Seq::empty()
    }
}

fn forward_step(color: Color) -> (f: i64)
    ensures
        f == forward(color),
{
    match color {
        Color::White => -1,
        Color::Black => 1,
    }
}

impl PawnMove {
    /// The rule of the pawn.
    pub fn new() -> (p: PawnMove) {
        PawnMove {  }
    }

    /// `to` is the cell straight ahead of `from`, on the grid and empty.
    pub open spec fn one_step(self, b: BoardView, p: PieceView, from: Coord, to: Coord) -> bool {
        &&& to.col == from.col
        &&& to.row == from.row + forward(p.color)
        &&& b.in_bounds(to)
        &&& b.at(to) is None
    }

    /// `to` is two cells straight ahead of `from`, `from` is on the row the
    /// pawns of this colour start on, and `to` and the cell before it are on
    /// the grid and empty.
    pub open spec fn two_steps(self, b: BoardView, p: PieceView, from: Coord, to: Coord) -> bool {
        &&& to.col == from.col
        &&& to.row == from.row + 2 * forward(p.color)
        &&& b.is_pawn_row(from.row as int, p.color)
        &&& b.inside(from.row + forward(p.color), from.col as int)
        &&& b.cell(from.row + forward(p.color), from.col as int) is None
        &&& b.in_bounds(to)
        &&& b.at(to) is None
    }

    /// `to` is diagonally ahead of `from`, on the grid, and holds a piece of
    /// the other colour or is the cell to capture onto in passing.
    pub open spec fn capture(self, b: BoardView, p: PieceView, from: Coord, to: Coord) -> bool {
        &&& gap(to.col as int, from.col as int) == 1
        &&& to.row == from.row + forward(p.color)
        &&& b.in_bounds(to)
        &&& match b.at(to) {
            Some(q) => q.color != p.color,
            None => b.info.en_passant == Some(to),
        }
    }

    /// The rule lets the piece on `from` go to `to`.
    pub open spec fn allows(self, b: BoardView, from: Coord, to: Coord) -> bool {
        &&& b.at(from) matches Some(p)
        &&& (self.one_step(b, p, from, to) || self.two_steps(b, p, from, to) || self.capture(
            b,
            p,
            from,
            to,
        ))
    }

    /// The cells the rule lets the piece on `from` go to: one step ahead, two
    /// steps ahead, then the capture towards greater columns and the one
    /// towards lesser columns.
    pub open spec fn moves(self, b: BoardView, from: Coord) -> Seq<Coord> {
        match b.at(from) {
            Some(p) => {
                let f = forward(p.color);
                let ahead = coord_of((from.row + f, from.col as int));
                let far = coord_of((from.row + 2 * f, from.col as int));
                let east = coord_of((from.row + f, from.col + 1));
                let west = coord_of((from.row + f, from.col - 1));
                only_if(self.one_step(b, p, from, ahead), ahead) + only_if(
                    self.two_steps(b, p, from, far),
                    far,
                ) + only_if(from.col < i32::MAX && self.capture(b, p, from, east), east) + only_if(
                    self.capture(b, p, from, west),
                    west,
                )
            },
            None => Seq::empty(),
        }
    }

    fn check_one_forward_step(&self, from: &Coord, to: &Coord, board: &Board) -> (r: bool)
        requires
            board.wf(),
        ensures
            r == (to.col == from.col && board@.in_bounds(*to) && board@.at(*to) is None),
    {
        if to.col != from.col {
            return false;
        }
        match board.get_piece(to) {
            Ok(Some(_)) => false,
            Ok(None) => true,
            Err(_) => false,
        }
    }

    fn check_two_forward_steps(&self, from_piece: &Piece, step: i64, board: &Board) -> (r: bool)
        requires
            board.wf(),
            step == forward(from_piece.color),
        ensures
            r == {
                let from = from_piece.coord;
                &&& board@.is_pawn_row(from.row as int, from_piece.color)
                &&& board@.inside(from.row + step, from.col as int)
                &&& board@.cell(from.row + step, from.col as int) is None
                &&& board@.inside(from.row + 2 * step, from.col as int)
                &&& board@.cell(from.row + 2 * step, from.col as int) is None
            },
    {
        if !board.is_pawn_row(from_piece.coord.row, from_piece.color) {
            return false;
        }
        let mut row: i64 = from_piece.coord.row as i64;
        let mut n: u8 = 0;
        while n < 2
            invariant
                board.wf(),
                n <= 2,
                step == 1 || step == -1,
                row == from_piece.coord.row + n * step,
                n >= 1 ==> board@.inside(
                    from_piece.coord.row + step,
                    from_piece.coord.col as int,
                ) && board@.cell(from_piece.coord.row + step, from_piece.coord.col as int) is None,
                n >= 2 ==> board@.inside(
                    from_piece.coord.row + 2 * step,
                    from_piece.coord.col as int,
                ) && board@.cell(from_piece.coord.row + 2 * step, from_piece.coord.col as int)
                    is None,
            decreases 2 - n,
        {
            row = row + step;
            if row < 0 || row > i32::MAX as i64 {
                return false;
            }
            let next_coord = Coord { row: row as i32, col: from_piece.coord.col };
            if !self.check_one_forward_step(&from_piece.coord, &next_coord, board) {
                return false;
            }
            n += 1;
        }
        true
    }

    fn check_en_passant(&self, to: &Coord, board: &Board) -> (r: bool)
        ensures
            r == (board@.info.en_passant == Some(*to)),
    {
        match board.info().en_passant {
            Some(coord) => coord.row == to.row && coord.col == to.col,
            None => false,
        }
    }

    fn check_capture(&self, from_piece: &Piece, to: &Coord, board: &Board) -> (r: bool)
        requires
            board.wf(),
        ensures
            r == (board@.in_bounds(*to) && match board@.at(*to) {
                Some(q) => q.color != from_piece.color,
                None => board@.info.en_passant == Some(*to),
            }),
    {
        let to_piece = match board.get_piece(to) {
            Ok(Some(piece)) => piece,
            Ok(None) => {
                return self.check_en_passant(to, board);
            },
            _ => {
                return false;
            },
        };
        to_piece.color != from_piece.color
    }

    /// May the piece on `from` go to `to` as a pawn does?
    pub fn is_move_valid(&self, from: Coord, to: Coord, board: &Board) -> (r: bool)
        requires
            board.wf(),
        ensures
            r == self.allows(board@, from, to),
    {
        let from_piece = match board.get_piece(&from) {
            Ok(Some(piece)) => piece,
            _ => {
                return false;
            },
        };
        let step = forward_step(from_piece.color);
        let row_diff: i64 = to.row as i64 - from.row as i64;
        let col_diff: i64 = to.col as i64 - from.col as i64;
        if (col_diff == 1 || col_diff == -1) && row_diff == step {
            return self.check_capture(from_piece, &to, board);
        }
        if col_diff != 0 {
            return false;
        }
        if row_diff == step {
            return self.check_one_forward_step(&from, &to, board);
        } else if row_diff == 2 * step {
            return self.check_two_forward_steps(from_piece, step, board);
        }
        false
    }

    /// The cells the piece on `from` may go to as a pawn does.
    pub fn allowed_moves(&self, from: Coord, board: &Board) -> (cells: Vec<Coord>)
        requires
            board.wf(),
        ensures
            cells@ == self.moves(board@, from),
    {
        let from_piece = match board.get_piece(&from) {
            Ok(Some(piece)) => piece,
            _ => {
                return Vec::new();
            },
        };
        let ghost b = board@;
        let ghost p = from_piece@;
        let step = forward_step(from_piece.color);
        let mut moves: Vec<Coord> = Vec::new();
        let row: i64 = from.row as i64 + step;
        let ghost ahead = coord_of((from.row + step, from.col as int));
        let ghost far = coord_of((from.row + 2 * step, from.col as int));
        let ghost east = coord_of((from.row + step, from.col + 1));
        let ghost west = coord_of((from.row + step, from.col - 1));
        if row < 0 || row > i32::MAX as i64 {
            proof {
                assert(moves@ =~= self.moves(b, from));
            }
            return moves;
        }
        let next_coord = Coord { row: row as i32, col: from.col };
        if self.check_one_forward_step(&from, &next_coord, board) {
            moves.push(next_coord);
        }
        assert(moves@ =~= only_if(self.one_step(b, p, from, ahead), ahead));
        let far_row: i64 = row + step;
        if self.check_two_forward_steps(from_piece, step, board) {
            moves.push(Coord { row: far_row as i32, col: from.col });
        }
        assert(moves@ =~= only_if(self.one_step(b, p, from, ahead), ahead) + only_if(
            self.two_steps(b, p, from, far),
            far,
        ));
        if from.col < i32::MAX {
            let east_coord = Coord { row: row as i32, col: from.col + 1 };
            if self.check_capture(from_piece, &east_coord, board) {
                moves.push(east_coord);
            }
        }
        assert(moves@ =~= only_if(self.one_step(b, p, from, ahead), ahead) + only_if(
            self.two_steps(b, p, from, far),
            far,
        ) + only_if(from.col < i32::MAX && self.capture(b, p, from, east), east));
        if from.col > 0 {
            let west_coord = Coord { row: row as i32, col: from.col - 1 };
            if self.check_capture(from_piece, &west_coord, board) {
                moves.push(west_coord);
            }
        }
        assert(moves@ =~= self.moves(b, from));
        moves
    }

    /// Moves the piece on `from` to `to` and marks it as moved, whether or
    /// not the rule allows the move.
    pub fn move_piece(&self, from: Coord, to: Coord, board: &mut Board) -> (r: Result<
        (),
        OutOfBoundsError,
    >)
        requires
            old(board).wf(),
        ensures
            final(board).wf(),
            final(board)@ == relocated(old(board)@, from, to),
            r is Err <==> old(board)@.at(from) is Some && !old(board)@.in_bounds(to),
    {
        relocate(from, to, board)
    }
}

/// The cells that the rule offers from `from` are those it lets the piece go
/// to.
pub proof fn pawn_moves_are_allowed(pawn: PawnMove, b: BoardView, from: Coord, to: Coord)
    requires
        b.wf(),
    ensures
        pawn.moves(b, from).contains(to) <==> pawn.allows(b, from, to),
{
    if b.at(from) is Some {
        let p = b.at(from)->0;
        let f = forward(p.color);
        let ahead = coord_of((from.row + f, from.col as int));
        let far = coord_of((from.row + 2 * f, from.col as int));
        let east = coord_of((from.row + f, from.col + 1));
        let west = coord_of((from.row + f, from.col - 1));
        let s1 = only_if(pawn.one_step(b, p, from, ahead), ahead);
        let s2 = only_if(pawn.two_steps(b, p, from, far), far);
        let s3 = only_if(from.col < i32::MAX && pawn.capture(b, p, from, east), east);
        let s4 = only_if(pawn.capture(b, p, from, west), west);
        lemma_concat_contains(s1, s2, to);
        lemma_concat_contains(s1 + s2, s3, to);
        lemma_concat_contains(s1 + s2 + s3, s4, to);
        assert(s1.contains(to) <==> pawn.one_step(b, p, from, to)) by {
            if pawn.one_step(b, p, from, ahead) {
                assert(s1[0] == ahead);
            }
        }
        assert(s2.contains(to) <==> pawn.two_steps(b, p, from, to)) by {
            if pawn.two_steps(b, p, from, far) {
                assert(s2[0] == far);
            }
        }
        assert(s3.contains(to) || s4.contains(to) <==> pawn.capture(b, p, from, to)) by {
            if from.col < i32::MAX && pawn.capture(b, p, from, east) {
                assert(s3[0] == east);
            }
            if pawn.capture(b, p, from, west) {
                assert(s4[0] == west);
            }
        }
    }
}

/// A pawn that went one row ahead cannot go back: from the cell it reached,
/// the rule does not let it return to the cell it came from.
pub proof fn pawn_cannot_go_back(pawn: PawnMove, b: BoardView, from: Coord, to: Coord)
    requires
        b.wf(),
        b.at(from) matches Some(p) && to.row == from.row + forward(p.color),
    ensures
        !pawn.allows(relocated(b, from, to), to, from),
{
}

} // verus!
