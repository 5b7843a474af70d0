use crate::board::model::BoardView;
use crate::board::{Board, Coord, HasCoordinates};
use crate::errors::OutOfBoundsError;
use crate::piece::PieceView;
use vstd::prelude::*;

pub mod castle;
pub mod diag;
pub mod jump;
pub mod line;
pub mod pawn;
pub mod util;

pub use castle::Castle;
pub use diag::Diagonal;
pub use jump::Jump;
pub use line::Line;
pub use pawn::PawnMove;

verus! {

/// The closed set of movement rules a piece may follow.
#[derive(Debug, Clone, Copy, PartialEq, Eq, Structural)]
pub enum Move {
    Line(Line),
    Diagonal(Diagonal),
    Jump(Jump),
    Pawn(PawnMove),
    Castle(Castle),
}

impl Move {
    /// The rule lets the piece on `from` capture on `to`. Castling never
    /// captures.
    pub open spec fn attacks(self, b: BoardView, from: Coord, to: Coord) -> bool {
        match self {
            Move::Line(rule) => rule.allows(b, from, to),
            Move::Diagonal(rule) => rule.allows(b, from, to),
            Move::Jump(rule) => rule.allows(b, from, to),
            Move::Pawn(rule) => rule.allows(b, from, to),
            Move::Castle(_) => false,
        }
    }

    /// The rule lets the piece on `from` go to `to`.
    pub open spec fn allows(self, b: BoardView, from: Coord, to: Coord) -> bool {
        match self {
            Move::Line(rule) => rule.allows(b, from, to),
            Move::Diagonal(rule) => rule.allows(b, from, to),
            Move::Jump(rule) => rule.allows(b, from, to),
            Move::Pawn(rule) => rule.allows(b, from, to),
            Move::Castle(rule) => rule.allows(b, from, to),
        }
    }

    /// `cells` are the cells the rule offers from `from`: for a leap each
    /// cell once in some order, for the other rules in the order of the rule.
    pub open spec fn offers(self, b: BoardView, from: Coord, cells: Seq<Coord>) -> bool {
        match self {
            Move::Line(rule) => cells == rule.moves(b, from),
            Move::Diagonal(rule) => cells == rule.moves(b, from),
            Move::Jump(rule) => cells.no_duplicates() && forall|to: Coord|
                cells.contains(to) <==> rule.allows(b, from, to),
            Move::Pawn(rule) => cells == rule.moves(b, from),
            Move::Castle(rule) => cells == rule.moves(b, from),
        }
    }

    /// Where the rule is a castle, the king that its evaluation asks for
    /// stands on the board.
    pub open spec fn kings_present(self, b: BoardView, from: Coord, to: Option<Coord>) -> bool {
        match self {
            Move::Castle(rule) => rule.kings_present(b, from, to),
            _ => true,
        }
    }

    /// Does the rule let the piece on `from` go to `to`?
    pub fn is_move_valid(&self, from: Coord, to: Coord, board: &Board) -> (r: bool)
        requires
            board.wf(),
            self.kings_present(board@, from, Some(to)),
        ensures
            r == self.allows(board@, from, to),
    {
        match self {
            Move::Line(rule) => rule.is_move_valid(from, to, board),
            Move::Diagonal(rule) => rule.is_move_valid(from, to, board),
            Move::Jump(rule) => rule.is_move_valid(from, to, board),
            Move::Pawn(rule) => rule.is_move_valid(from, to, board),
            Move::Castle(rule) => rule.is_move_valid(from, to, board),
        }
    }

    /// The cells the rule lets the piece on `from` go to.
    pub fn allowed_moves(&self, from: Coord, board: &Board) -> (cells: Vec<Coord>)
        requires
            board.wf(),
            self.kings_present(board@, from, None),
        ensures
            self.offers(board@, from, cells@),
            forall|to: Coord| cells@.contains(to) <==> self.allows(board@, from, to),
    {
        match self {
            Move::Line(rule) => {
                let cells = rule.allowed_moves(from, board);
                proof {
                    assert forall|to: Coord| cells@.contains(to) <==> self.allows(
                        board@,
                        from,
                        to,
                    ) by {
                        line::line_moves_are_allowed(*rule, board@, from, to);
                    }
                }
                cells
            },
            Move::Diagonal(rule) => {
                let cells = rule.allowed_moves(from, board);
                proof {
                    assert forall|to: Coord| cells@.contains(to) <==> self.allows(
                        board@,
                        from,
                        to,
                    ) by {
                        diag::diagonal_moves_are_allowed(*rule, board@, from, to);
                    }
                }
                cells
            },
            Move::Jump(rule) => rule.allowed_moves(from, board),
            Move::Pawn(rule) => {
                let cells = rule.allowed_moves(from, board);
                proof {
                    assert forall|to: Coord| cells@.contains(to) <==> self.allows(
                        board@,
                        from,
                        to,
                    ) by {
                        pawn::pawn_moves_are_allowed(*rule, board@, from, to);
                    }
                }
                cells
            },
            Move::Castle(rule) => {
                let cells = rule.allowed_moves(from, board);
                proof {
                    assert forall|to: Coord| cells@.contains(to) <==> self.allows(
                        board@,
                        from,
                        to,
                    ) by {
                        castle::castle_moves_are_allowed(*rule, board@, from, to);
                    }
                }
                cells
            },
        }
    }

    /// Moves the piece on `from` to `to` and marks it as moved, whether or
    /// not the rule allows the move.
    pub fn move_piece(&self, from: Coord, to: Coord, board: &mut Board) -> (r: Result<
        (),
        OutOfBoundsError,
    >)
        requires
            old(board).wf(),
        ensures
            final(board).wf(),
            final(board)@ == relocated(old(board)@, from, to),
            r is Err <==> old(board)@.at(from) is Some && !old(board)@.in_bounds(to),
    {
        relocate(from, to, board)
    }

    /// Does the rule let the piece on `from` capture on `to`?
    pub fn can_attack(&self, from: Coord, to: Coord, board: &Board) -> (r: bool)
        requires
            board.wf(),
        ensures
            r == self.attacks(board@, from, to),
    {
        match self {
            Move::Line(rule) => rule.is_move_valid(from, to, board),
            Move::Diagonal(rule) => rule.is_move_valid(from, to, board),
            Move::Jump(rule) => rule.is_move_valid(from, to, board),
            Move::Pawn(rule) => rule.is_move_valid(from, to, board),
            Move::Castle(_) => false,
        }
    }
}

/// The eight compass directions. North is towards greater rows, east towards
/// greater columns.
#[derive(Debug, Clone, Copy, PartialEq, Eq, Structural)]
pub enum Direction {
    North,
    South,
    East,
    West,
    NorthWest,
    NorthEast,
    SouthWest,
    SouthEast,
}

impl Direction {
    /// The unit vector of the direction.
    pub open spec fn step(self) -> Coord {
        match self {
            Direction::North => Coord { row: 1, col: 0 },
            Direction::South => Coord { row: -1i32, col: 0 },
            Direction::East => Coord { row: 0, col: 1 },
            Direction::West => Coord { row: 0, col: -1i32 },
            Direction::NorthWest => Coord { row: 1, col: -1i32 },
            Direction::NorthEast => Coord { row: 1, col: 1 },
            Direction::SouthWest => Coord { row: -1i32, col: -1i32 },
            Direction::SouthEast => Coord { row: -1i32, col: 1 },
        }
    }

    /// The direction runs along a row or a column.
    pub open spec fn is_orthogonal(self) -> bool {
        self == Direction::North || self == Direction::South || self == Direction::East
            || self == Direction::West
    }

    /// The direction runs along a diagonal.
    pub open spec fn is_diagonal(self) -> bool {
        !self.is_orthogonal()
    }

    /// The unit vector of the direction.
    pub fn get_step(&self) -> (s: Coord)
        ensures
            s == self.step(),
    {
        match self {
            Direction::North => Coord { row: 1, col: 0 },
            Direction::South => Coord { row: -1, col: 0 },
            Direction::East => Coord { row: 0, col: 1 },
            Direction::West => Coord { row: 0, col: -1 },
            Direction::NorthWest => Coord { row: 1, col: -1 },
            Direction::NorthEast => Coord { row: 1, col: 1 },
            Direction::SouthWest => Coord { row: -1, col: -1 },
            Direction::SouthEast => Coord { row: -1, col: 1 },
        }
    }
}

#[derive(Debug, Clone, Copy, PartialEq, Eq, Structural)]
pub enum DirectionError {
    SameOriginDestiny,
    InvalidDirection,
}

/// The direction in which `to` lies as seen from `from`: defined when the two
/// cells differ and share a row, a column or a diagonal.
pub open spec fn direction_of(from: Coord, to: Coord) -> Result<Direction, DirectionError> {
    let dr = to.row - from.row;
    let dc = to.col - from.col;
    if dr == 0 && dc == 0 {
        Err(DirectionError::SameOriginDestiny)
    } else if dr == 0 {
        Ok(if dc > 0 { Direction::East } else { Direction::West })
    } else if dc == 0 {
        Ok(if dr > 0 { Direction::North } else { Direction::South })
    } else if dr == dc {
        Ok(if dr > 0 { Direction::NorthEast } else { Direction::SouthWest })
    } else if dr == -dc {
        Ok(if dr > 0 { Direction::NorthWest } else { Direction::SouthEast })
    } else {
        Err(DirectionError::InvalidDirection)
    }
}

/// How many steps lie between two cells on a common line.
pub open spec fn distance(from: Coord, to: Coord) -> int {
    let dr = if to.row >= from.row { to.row - from.row } else { from.row - to.row };
    let dc = if to.col >= from.col { to.col - from.col } else { from.col - to.col };
    if dr >= dc { dr } else { dc }
}

/// The direction in which `to` lies as seen from `from`. Two equal cells lie
/// in no direction; neither do two cells that share no row, column or
/// diagonal.
pub fn parse_direction<T: HasCoordinates>(from: &T, to: &T) -> (r: Result<Direction, DirectionError>)
    ensures
        r == direction_of(from.coordinates(), to.coordinates()),
{
    let from_coord = from.get_coordinates();
    let to_coord = to.get_coordinates();
    let row_diff: i64 = (to_coord.row as i64) - (from_coord.row as i64);
    let col_diff: i64 = (to_coord.col as i64) - (from_coord.col as i64);
    if row_diff == 0 && col_diff == 0 {
        return Err(DirectionError::SameOriginDestiny);
    }
    if row_diff == 0 {
        if col_diff > 0 {
            return Ok(Direction::East);
        } else {
            return Ok(Direction::West);
        }
    }
    if col_diff == 0 {
        if row_diff > 0 {
            return Ok(Direction::North);
        } else {
            return Ok(Direction::South);
        }
    }
    if row_diff == col_diff {
        if row_diff > 0 {
            return Ok(Direction::NorthEast);
        } else {
            return Ok(Direction::SouthWest);
        }
    }
    if row_diff == -col_diff {
        if row_diff > 0 {
            return Ok(Direction::NorthWest);
        } else {
            return Ok(Direction::SouthEast);
        }
    }
    Err(DirectionError::InvalidDirection)
}

/// The position after the piece on `from` was moved to `to` by a rule: the
/// piece stands on `to`, is marked as moved, and `from` is empty. Nothing
/// changes where `from` holds no piece or `to` is off the grid.
pub open spec fn relocated(b: BoardView, from: Coord, to: Coord) -> BoardView {
    match b.at(from) {
        Some(p) => if b.in_bounds(to) {
            b.placed(PieceView { coord: to, has_moved: true, ..p }).cleared(from)
        } else {
            b
        },
        None => b,
    }
}

/// Moves the piece on `from` to `to` and marks it as moved, without asking
/// whether any rule allows the move.
pub fn relocate(from: Coord, to: Coord, board: &mut Board) -> (r: Result<(), OutOfBoundsError>)
    requires
        old(board).wf(),
    ensures
        final(board).wf(),
        final(board)@ == relocated(old(board)@, from, to),
        r is Err <==> old(board)@.at(from) is Some && !old(board)@.in_bounds(to),
{
    let mut from_piece = match board.get_piece(&from) {
        Ok(Some(piece)) => piece.duplicate(),
        _ => {
            return Ok(());
        },
    };
    from_piece.coord = to;
    from_piece.has_moved = true;
    match board.set_piece(from_piece) {
        Ok(()) => {},
        Err(e) => {
            return Err(e);
        },
    }
    let _ = board.remove_piece(&from);
    Ok(())
}

/// A parsed direction leads from `from` to `to` in a whole number of steps.
pub proof fn direction_reaches(from: Coord, to: Coord)
    requires
        direction_of(from, to) is Ok,
    ensures
        distance(from, to) >= 1,
        from.stepped(direction_of(from, to)->Ok_0.step(), distance(from, to)) == (
            to.row as int,
            to.col as int,
        ),
{
    let d = direction_of(from, to)->Ok_0;
    let n = distance(from, to);
    assert(n * 1 == n && n * 0 == 0 && n * (-1) == -n) by (nonlinear_arith);
}

/// A rule lets a piece go only to cells of the grid.
pub proof fn allowed_cells_are_on_the_grid(rule: Move, b: BoardView, from: Coord, to: Coord)
    requires
        b.wf(),
        rule.allows(b, from, to),
    ensures
        b.in_bounds(to),
{
    match rule {
        Move::Line(r) => {
            util::lemma_slide_lands_inside(b, r.max_range, true, from, to);
        },
        Move::Diagonal(r) => {
            util::lemma_slide_lands_inside(b, r.max_range, false, from, to);
        },
        Move::Jump(_) => {},
        Move::Pawn(_) => {},
        Move::Castle(r) => {
            util::lemma_slide_lands_inside(b, r.movement.max_range, true, from, to);
        },
    }
}

/// Castling never lands on a piece: onto an occupied cell a rule lets a piece
/// go exactly when it lets the piece capture there.
pub proof fn no_castle_lands_on_a_piece(rule: Move, b: BoardView, from: Coord, to: Coord)
    requires
        b.at(to) is Some,
    ensures
        rule.allows(b, from, to) <==> rule.attacks(b, from, to),
{
}

/// A cell that lies a whole number of steps away in a direction is seen in
/// that direction.
pub proof fn steps_lead_in_their_direction(from: Coord, to: Coord, d: Direction, k: int)
    requires
        k >= 1,
        from.stepped(d.step(), k) == (to.row as int, to.col as int),
    ensures
        direction_of(from, to) == Ok::<Direction, DirectionError>(d),
        distance(from, to) == k,
{
    assert(k * 1 == k && k * 0 == 0 && k * (-1) == -k) by (nonlinear_arith);
}

} // verus!
