use super::util::{
    can_traverse, legal_coords_along_direction, slide_ray, slide_ray_holds_valid, slide_valid,
};
use super::{parse_direction, relocate, relocated, Direction};
use crate::board::model::BoardView;
use crate::board::{Board, Coord};
use crate::errors::OutOfBoundsError;
use vstd::prelude::*;

verus! {

/// Sliding along diagonals, optionally no farther than `max_range` cells.
#[derive(Debug, Clone, Copy, PartialEq, Eq, Structural)]
pub struct Diagonal {
    pub max_range: Option<u32>,
}

impl Diagonal {
    /// A slide along diagonals, as far as the board goes or no farther than
    /// `max_range` cells.
    pub fn new(max_range: Option<u32>) -> (l: Diagonal)
        ensures
            l.max_range == max_range,
    {
        Diagonal { max_range }
    }

    /// The rule lets the piece on `from` go to `to`: the two share a
    /// diagonal, every cell between them is empty, `to` is empty or holds a
    /// piece of the other colour, and `to` is within range.
    pub open spec fn allows(self, b: BoardView, from: Coord, to: Coord) -> bool {
        slide_valid(b, self.max_range, false, from, to)
    }

    /// The cells the rule lets the piece on `from` go to: north-east,
    /// north-west, south-east, south-west, in each direction nearest first.
    pub open spec fn moves(self, b: BoardView, from: Coord) -> Seq<Coord> {
        slide_ray(b, self.max_range, from, Direction::NorthEast) + slide_ray(
            b,
            self.max_range,
            from,
            Direction::NorthWest,
        ) + slide_ray(b, self.max_range, from, Direction::SouthEast) + slide_ray(
            b,
            self.max_range,
            from,
            Direction::SouthWest,
        )
    }

    /// May the piece on `from` slide to `to`?
    pub fn is_move_valid(&self, from: Coord, to: Coord, board: &Board) -> (r: bool)
        requires
            board.wf(),
        ensures
            r == self.allows(board@, from, to),
    {
        let from_piece = match board.get_piece(&from) {
            Ok(Some(piece)) => piece,
            _ => {
                return false;
            },
        };
        let direction = match parse_direction(&from, &to) {
            Ok(direction) => direction,
            Err(_) => {
                return false;
            },
        };
        let step = match direction {
            Direction::NorthEast
            | Direction::NorthWest
            | Direction::SouthEast
            | Direction::SouthWest => {
                direction.get_step()
            },
            _ => {
                return false;
            },
        };
        let max_range = match self.max_range {
            Some(n) => n,
            None => board.max_cells_direction(&direction),
        };
        can_traverse(board, from_piece, &to, &step, max_range)
    }

    /// The cells the piece on `from` may slide to.
    pub fn allowed_moves(&self, from: Coord, board: &Board) -> (cells: Vec<Coord>)
        requires
            board.wf(),
        ensures
            cells@ == self.moves(board@, from),
    {
        let from_piece = match board.get_piece(&from) {
            Ok(Some(piece)) => piece,
            _ => {
                return Vec::new();
            },
        };
        let mut allowed_moves: Vec<Coord> = Vec::new();
        let directions = [Direction::NorthEast, Direction::NorthWest, Direction::SouthEast, Direction::SouthWest];
        let mut i: usize = 0;
        while i < 4
            invariant
                board.wf(),
                i <= 4,
                board@.at(from) == Some(from_piece@),
                directions@ =~= seq![
                    Direction::NorthEast,
                    Direction::NorthWest,
                    Direction::SouthEast,
                    Direction::SouthWest,
                ],
                i == 0 ==> allowed_moves@ == Seq::<Coord>::empty(),
                i == 1 ==> allowed_moves@ == slide_ray(
                    board@,
                    self.max_range,
                    from,
                    Direction::NorthEast,
                ),
                i == 2 ==> allowed_moves@ == slide_ray(
                    board@,
                    self.max_range,
                    from,
                    Direction::NorthEast,
                ) + slide_ray(board@, self.max_range, from, Direction::NorthWest),
                i == 3 ==> allowed_moves@ == slide_ray(
                    board@,
                    self.max_range,
                    from,
                    Direction::NorthEast,
                ) + slide_ray(board@, self.max_range, from, Direction::NorthWest) + slide_ray(
                    board@,
                    self.max_range,
                    from,
                    Direction::SouthEast,
                ),
                i == 4 ==> allowed_moves@ == self.moves(board@, from),
            decreases 4 - i,
        {
            let direction = directions[i];
            let max_range = match self.max_range {
                Some(n) => n,
                None => board.max_cells_direction(&direction),
            };
            let mut cells = legal_coords_along_direction(
                &from,
                &direction,
                board,
                from_piece,
                max_range,
            );
            assert(cells@ == slide_ray(board@, self.max_range, from, direction));
            proof {
                if i == 0 {
                    assert(Seq::<Coord>::empty() + cells@ =~= cells@);
                }
            }
            allowed_moves.append(&mut cells);
            i += 1;
        }
        allowed_moves
    }

    /// Moves the piece on `from` to `to` and marks it as moved, whether or
    /// not the rule allows the move.
    pub fn move_piece(&self, from: Coord, to: Coord, board: &mut Board) -> (r: Result<
        (),
        OutOfBoundsError,
    >)
        requires
            old(board).wf(),
        ensures
            final(board).wf(),
            final(board)@ == relocated(old(board)@, from, to),
            r is Err <==> old(board)@.at(from) is Some && !old(board)@.in_bounds(to),
    {
        relocate(from, to, board)
    }
}

/// The cells that the rule offers from `from` are those it lets the piece go
/// to.
pub proof fn diagonal_moves_are_allowed(diagonal: Diagonal, b: BoardView, from: Coord, to: Coord)
    requires
        b.wf(),
    ensures
        diagonal.moves(b, from).contains(to) <==> diagonal.allows(b, from, to),
{
    let ne = slide_ray(b, diagonal.max_range, from, Direction::NorthEast);
    let nw = slide_ray(b, diagonal.max_range, from, Direction::NorthWest);
    let se = slide_ray(b, diagonal.max_range, from, Direction::SouthEast);
    let sw = slide_ray(b, diagonal.max_range, from, Direction::SouthWest);
    slide_ray_holds_valid(b, diagonal.max_range, from, Direction::NorthEast, to);
    slide_ray_holds_valid(b, diagonal.max_range, from, Direction::NorthWest, to);
    slide_ray_holds_valid(b, diagonal.max_range, from, Direction::SouthEast, to);
    slide_ray_holds_valid(b, diagonal.max_range, from, Direction::SouthWest, to);
    super::util::lemma_concat_contains(ne, nw, to);
    super::util::lemma_concat_contains(ne + nw, se, to);
    super::util::lemma_concat_contains(ne + nw + se, sw, to);
}

} // verus!
