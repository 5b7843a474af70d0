use super::line::Line;
use super::util::{coord_of, free_at, landing_at, lemma_stepped_next, open_at};
use super::{
    direction_of, direction_reaches, distance, parse_direction, relocate, relocated,
    steps_lead_in_their_direction, Direction,
};
use crate::board::model::{moved_then_restored, BoardView};
use crate::board::{Board, CastlingRights, Coord};
use crate::check::{in_check, is_check};
use crate::errors::OutOfBoundsError;
use crate::piece::Color;
use vstd::prelude::*;

verus! {

/// In a castle the king travels at most this many cells.
pub const MAX_RANGE: u32 = 2;

/// Castling: the king travels along its row or column to the cell that a
/// castling right names, as far as `movement` lets it go.
#[derive(Debug, Clone, Copy, PartialEq, Eq, Structural)]
pub struct Castle {
    pub movement: Line,
}

/// The cells strictly between a king and a rook are empty. The two must lie
/// on a common row, column or diagonal.
pub open spec fn line_clear(b: BoardView, king: Coord, rook: Coord) -> bool {
    &&& direction_of(king, rook) matches Ok(d)
    &&& forall|k: int|
        1 <= k < distance(king, rook) ==> b.cell(
            (#[trigger] king.stepped(d.step(), k)).0,
            king.stepped(d.step(), k).1,
        ) is None
}

/// The `k`-th cell on the way from `king` to `to`.
pub open spec fn path_cell(king: Coord, to: Coord, k: int) -> Coord {
    coord_of(king.stepped(direction_of(king, to)->Ok_0.step(), k))
}

/// Standing on the `k`-th cell of its way to `to`, the king is not in check.
pub open spec fn safe_at(b: BoardView, king: Coord, to: Coord, k: int) -> bool {
    !in_check(b.moved(king, path_cell(king, to, k)), path_cell(king, to, k), false)
}

/// A cell once left by the line from a cell on the grid is not entered again.
proof fn lemma_outside_stays(b: BoardView, from: Coord, d: Direction, k: int, later: int)
    requires
        b.in_bounds(from),
        1 <= k <= later,
        !b.inside(from.stepped(d.step(), k).0, from.stepped(d.step(), k).1),
    ensures
        !b.inside(from.stepped(d.step(), later).0, from.stepped(d.step(), later).1),
{
    assert(k * 1 == k && k * 0 == 0 && k * (-1) == -k) by (nonlinear_arith);
    assert(later * 1 == later && later * 0 == 0 && later * (-1) == -later) by (nonlinear_arith);
}

/// A move of a piece onto an empty cell, or onto its own cell, leaves the
/// kings of the other colour where they are.
proof fn lemma_king_stays(b: BoardView, from: Coord, to: Coord, color: Color)
    requires
        b.wf(),
        b.in_bounds(to),
        b.at(from) matches Some(p) && p.color != color,
        b.at(to) is None || to == from,
        b.has_king(color),
    ensures
        b.moved(from, to).has_king(color),
        b.moved(from, to).wf(),
        b.moved(from, to).at(to) == Some(b.at(from)->0.at(to)),
{
    let d = choose|d: Coord| b.is_king(color, d);
    assert(b.moved(from, to).is_king(color, d));
}

impl Castle {
    /// A castle in which the king travels at most `max_range` cells, two
    /// where no range is given.
    pub fn new(max_range: Option<u32>) -> (c: Castle)
        ensures
            c.movement.max_range == Some(
                match max_range {
                    Some(n) => n,
                    None => MAX_RANGE,
                },
            ),
    {
        let range = match max_range {
            Some(n) => n,
            None => MAX_RANGE,
        };
        Castle { movement: Line::new(Some(range)) }
    }

    /// The way is open for the castle that `right` names: the king on `king`
    /// can travel to the landing cell as `movement` goes, the landing cell is
    /// empty, and so are the cells between the king and the rook.
    pub open spec fn path_open(self, b: BoardView, king: Coord, right: CastlingRights) -> bool {
        &&& self.movement.allows(b, king, right.new_king)
        &&& b.at(right.new_king) is None
        &&& line_clear(b, king, right.tower)
    }

    /// The king can castle as `right` names: the way is open, and on no cell
    /// of its way, the one it starts from and the one it lands on included,
    /// would the king be in check.
    pub open spec fn usable(self, b: BoardView, king: Coord, right: CastlingRights) -> bool {
        &&& self.path_open(b, king, right)
        &&& forall|k: int|
            0 <= k <= distance(king, right.new_king) ==> #[trigger] safe_at(
                b,
                king,
                right.new_king,
                k,
            )
    }

    /// The rule lets the piece on `from` go to `to`: a castling right of its
    /// colour names `to` as landing cell, and the king can castle as that
    /// right names.
    pub open spec fn allows(self, b: BoardView, from: Coord, to: Coord) -> bool {
        &&& b.at(from) matches Some(p)
        &&& exists|i: int|
            0 <= i < b.info.castling.rights(p.color).len() && (#[trigger] b.info.castling.rights(
                p.color,
            )[i]).new_king == to && self.usable(b, from, b.info.castling.rights(p.color)[i])
    }

    /// The landing cells of the first `n` of `rights` by which the king on
    /// `from` can castle, in their order.
    pub open spec fn landings(
        self,
        b: BoardView,
        from: Coord,
        rights: Seq<CastlingRights>,
        n: int,
    ) -> Seq<Coord>
        decreases n,
    {
        if n <= 0 {
            Seq::empty()
        } else {
            let before = self.landings(b, from, rights, n - 1);
            if self.usable(b, from, rights[n - 1]) {
                before.push(rights[n - 1].new_king)
            } else {
                before
            }
        }
    }

    /// The cells the rule lets the piece on `from` go to: the landing cell of
    /// each castling right of its colour by which it can castle, in the order
    /// of the rights.
    pub open spec fn moves(self, b: BoardView, from: Coord) -> Seq<Coord> {
        match b.at(from) {
            Some(p) => self.landings(
                b,
                from,
                b.info.castling.rights(p.color),
                b.info.castling.rights(p.color).len() as int,
            ),
            None => Seq::empty(),
        }
    }

    /// The evaluation of a castle looks for the king of the other side. So
    /// wherever the way is open for a right of the piece on `from` (for one
    /// that lands on `to`, where `to` is given), that king stands on the
    /// board.
    pub open spec fn kings_present(self, b: BoardView, from: Coord, to: Option<Coord>) -> bool {
        b.at(from) matches Some(p) ==> forall|i: int|
            0 <= i < b.info.castling.rights(p.color).len() && (to matches Some(t) ==> (
            #[trigger] b.info.castling.rights(p.color)[i]).new_king == t) && self.path_open(
                b,
                from,
                b.info.castling.rights(p.color)[i],
            ) ==> b.has_king(p.color.other())
    }

    fn is_line_clear(&self, king: &Coord, rook: &Coord, board: &Board) -> (r: bool)
        requires
            board.wf(),
            board@.in_bounds(*king),
        ensures
            r == line_clear(board@, *king, *rook),
    {
        let direction = match parse_direction(king, rook) {
            Ok(direction) => direction,
            Err(_) => {
                return false;
            },
        };
        let step = direction.get_step();
        let ghost b = board@;
        let ghost n = distance(*king, *rook);
        proof {
            direction_reaches(*king, *rook);
            lemma_stepped_next(*king, step, 0);
        }
        let mut row: i64 = king.row as i64;
        let mut col: i64 = king.col as i64;
        let mut k: u64 = 0;
        loop
            invariant
                board.wf(),
                b == board@,
                b.in_bounds(*king),
                direction_of(*king, *rook) == Ok::<Direction, super::DirectionError>(direction),
                step == direction.step(),
                n == distance(*king, *rook),
                king.stepped(step, n) == (rook.row as int, rook.col as int),
                0 <= k < n,
                king.stepped(step, k as int) == (row as int, col as int),
                b.inside(row as int, col as int),
                forall|j: int|
                    1 <= j <= k ==> b.cell(
                        (#[trigger] king.stepped(step, j)).0,
                        king.stepped(step, j).1,
                    ) is None,
            decreases n - k,
        {
            proof {
                lemma_stepped_next(*king, step, k as int);
            }
            row = row + step.row as i64;
            col = col + step.col as i64;
            k = k + 1;
            if row == rook.row as i64 && col == rook.col as i64 {
                proof {
                    steps_lead_in_their_direction(*king, *rook, direction, k as int);
                }
                return true;
            }
            proof {
                if k == n {
                    assert(false);
                }
            }
            if row < 0 || row > i32::MAX as i64 || col < 0 || col > i32::MAX as i64 {
                proof {
                    assert forall|j: int| 1 <= j < n implies b.cell(
                        (#[trigger] king.stepped(step, j)).0,
                        king.stepped(step, j).1,
                    ) is None by {
                        if j >= k {
                            lemma_outside_stays(b, *king, direction, k as int, j);
                        }
                    }
                }
                return true;
            }
            let inter = Coord { row: row as i32, col: col as i32 };
            match board.get_piece(&inter) {
                Ok(Some(_)) => {
                    return false;
                },
                Ok(None) => {},
                Err(_) => {
                    proof {
                        assert forall|j: int| 1 <= j < n implies b.cell(
                            (#[trigger] king.stepped(step, j)).0,
                            king.stepped(step, j).1,
                        ) is None by {
                            if j >= k {
                                lemma_outside_stays(b, *king, direction, k as int, j);
                            }
                        }
                    }
                    return true;
                },
            }
        }
    }

    /// Can the king on `king` castle to `new_king` with the rook on `rook`?
    fn can_safely_traverse(&self, king: &Coord, new_king: &Coord, rook: &Coord, board: &mut Board) -> (r:
        bool)
        requires
            old(board).wf(),
            old(board)@.at(*king) matches Some(p) && (self.path_open(
                old(board)@,
                *king,
                CastlingRights { new_king: *new_king, tower: *rook },
            ) ==> old(board)@.has_king(p.color.other())),
        ensures
            final(board).wf(),
            final(board)@ == old(board)@,
            r == self.usable(
                old(board)@,
                *king,
                CastlingRights { new_king: *new_king, tower: *rook },
            ),
    {
        let ghost b = board@;
        let ghost right = CastlingRights { new_king: *new_king, tower: *rook };
        if !self.movement.is_move_valid(*king, *new_king, board) {
            return false;
        }
        match board.get_piece(new_king) {
            Ok(None) => {},
            _ => {
                return false;
            },
        }
        if !self.is_line_clear(king, rook, board) {
            return false;
        }
        let direction = match parse_direction(king, new_king) {
            Ok(direction) => direction,
            Err(_) => {
                return false;
            },
        };
        let step = direction.get_step();
        let ghost n = distance(*king, *new_king);
        let ghost p = b.at(*king)->0;
        proof {
            direction_reaches(*king, *new_king);
            lemma_stepped_next(*king, step, 0);
            let range = super::util::range_of(self.movement.max_range, b, direction);
            let m = choose|m: int|
                1 <= m <= range && p.coord.stepped(step, m) == (
                    new_king.row as int,
                    new_king.col as int,
                ) && #[trigger] open_at(b, p.color, p.coord, step, m);
            steps_lead_in_their_direction(*king, *new_king, direction, m);
            assert(open_at(b, p.color, *king, step, n));
        }
        let mut inter: Coord = *king;
        let mut k: u64 = 0;
        loop
            invariant
                board.wf(),
                board@ == b,
                b == old(board)@,
                b.at(*king) == Some(p),
                b.has_king(p.color.other()),
                self.path_open(b, *king, right),
                right == (CastlingRights { new_king: *new_king, tower: *rook }),
                direction_of(*king, *new_king) == Ok::<Direction, super::DirectionError>(direction),
                step == direction.step(),
                n == distance(*king, *new_king),
                king.stepped(step, n) == (new_king.row as int, new_king.col as int),
                open_at(b, p.color, *king, step, n),
                0 <= k <= n,
                king.stepped(step, k as int) == (inter.row as int, inter.col as int),
                inter == path_cell(*king, *new_king, k as int),
                forall|j: int| 0 <= j < k ==> #[trigger] safe_at(b, *king, *new_king, j),
            decreases n - k,
        {
            proof {
                if 1 <= k < n {
                    assert(free_at(b, *king, step, k as int));
                }
                if k == n {
                    assert(landing_at(b, p.color, *king, step, k as int));
                }
                lemma_stepped_next(*king, step, 0);
                assert(b.cells.dom().contains(*king));
                assert(b.in_bounds(inter));
                lemma_king_stays(b, *king, inter, p.color.other());
                moved_then_restored(b, *king, inter);
            }
            let taken = board.move_to_coord(king, &inter);
            let under_check = is_check(&inter, board, false);
            board.restore_move(king, &inter, taken);
            if under_check {
                assert(!safe_at(b, *king, *new_king, k as int));
                return false;
            }
            if inter.row == new_king.row && inter.col == new_king.col {
                proof {
                    lemma_stepped_next(*king, step, 0);
                    assert(inter == *new_king);
                    if k >= 1 {
                        steps_lead_in_their_direction(*king, *new_king, direction, k as int);
                    } else {
                        assert(*king == *new_king);
                    }
                    assert(k == n);
                }
                return true;
            }
            proof {
                assert(k < n);
                lemma_stepped_next(*king, step, k as int);
                assert(free_at(b, *king, step, k + 1) || landing_at(b, p.color, *king, step, k + 1));
            }
            inter = Coord { row: inter.row + step.row, col: inter.col + step.col };
            k = k + 1;
        }
    }

    /// May the piece on `from` castle to `to`?
    pub fn is_move_valid(&self, from: Coord, to: Coord, board: &Board) -> (r: bool)
        requires
            board.wf(),
            self.kings_present(board@, from, Some(to)),
        ensures
            r == self.allows(board@, from, to),
    {
        let from_piece = match board.get_piece(&from) {
            Ok(Some(piece)) => piece,
            _ => {
                return false;
            },
        };
        let rights = match board.info().castling.get(&from_piece.color) {
            Some(castling) => castling,
            None => {
                return false;
            },
        };
        let mut scratch = board.duplicate();
        let mut i: usize = 0;
        while i < rights.len()
            invariant
                board.wf(),
                scratch.wf(),
                scratch@ == board@,
                board@.at(from) == Some(from_piece@),
                rights@ == board@.info.castling.rights(from_piece.color),
                self.kings_present(board@, from, Some(to)),
                i <= rights.len(),
                forall|j: int|
                    0 <= j < i ==> !((#[trigger] rights@[j]).new_king == to && self.usable(
                        board@,
                        from,
                        rights@[j],
                    )),
            decreases rights.len() - i,
        {
            let right = rights[i];
            if right.new_king.row == to.row && right.new_king.col == to.col {
                assert(rights@[i as int].new_king == to);
                if self.can_safely_traverse(&from, &to, &right.tower, &mut scratch) {
                    return true;
                }
            }
            i += 1;
        }
        false
    }

    /// The cells the piece on `from` may castle to.
    pub fn allowed_moves(&self, from: Coord, board: &Board) -> (cells: Vec<Coord>)
        requires
            board.wf(),
            self.kings_present(board@, from, None),
        ensures
            cells@ == self.moves(board@, from),
    {
        let from_piece = match board.get_piece(&from) {
            Ok(Some(piece)) => piece,
            _ => {
                return Vec::new();
            },
        };
        let rights = match board.info().castling.get(&from_piece.color) {
            Some(castling) => castling,
            None => {
                return Vec::new();
            },
        };
        let mut allowed_moves: Vec<Coord> = Vec::new();
        let mut scratch = board.duplicate();
        let mut i: usize = 0;
        while i < rights.len()
            invariant
                board.wf(),
                scratch.wf(),
                scratch@ == board@,
                board@.at(from) == Some(from_piece@),
                rights@ == board@.info.castling.rights(from_piece.color),
                self.kings_present(board@, from, None),
                i <= rights.len(),
                allowed_moves@ == self.landings(board@, from, rights@, i as int),
            decreases rights.len() - i,
        {
            let right = rights[i];
            assert(rights@[i as int] == right);
            if self.can_safely_traverse(&from, &right.new_king, &right.tower, &mut scratch) {
                allowed_moves.push(right.new_king);
            }
            i += 1;
        }
        allowed_moves
    }

    /// Moves the piece on `from` to `to` and marks it as moved, whether or
    /// not the rule allows the move.
    pub fn move_piece(&self, from: Coord, to: Coord, board: &mut Board) -> (r: Result<
        (),
        OutOfBoundsError,
    >)
        requires
            old(board).wf(),
        ensures
            final(board).wf(),
            final(board)@ == relocated(old(board)@, from, to),
            r is Err <==> old(board)@.at(from) is Some && !old(board)@.in_bounds(to),
    {
        relocate(from, to, board)
    }
}

/// A cell is among the first `n` landings exactly when one of the first `n`
/// rights names it and the king can castle as that right names.
proof fn lemma_landings(
    castle: Castle,
    b: BoardView,
    from: Coord,
    rights: Seq<CastlingRights>,
    n: int,
    to: Coord,
)
    requires
        0 <= n <= rights.len(),
    ensures
        castle.landings(b, from, rights, n).contains(to) <==> exists|i: int|
            0 <= i < n && (#[trigger] rights[i]).new_king == to && castle.usable(b, from, rights[i]),
    decreases n,
{
    if n > 0 {
        lemma_landings(castle, b, from, rights, n - 1, to);
        let before = castle.landings(b, from, rights, n - 1);
        let now = castle.landings(b, from, rights, n);
        if castle.usable(b, from, rights[n - 1]) {
            assert(now == before.push(rights[n - 1].new_king));
            if before.contains(to) {
                let j = choose|j: int| 0 <= j < before.len() && before[j] == to;
                assert(now[j] == to);
            }
            if rights[n - 1].new_king == to {
                assert(now[before.len() as int] == to);
            }
            if now.contains(to) {
                let j = choose|j: int| 0 <= j < now.len() && now[j] == to;
                if j < before.len() {
                    assert(before[j] == to);
                }
            }
        }
    }
}

/// The cells that the rule offers from `from` are those it lets the piece go
/// to.
pub proof fn castle_moves_are_allowed(castle: Castle, b: BoardView, from: Coord, to: Coord)
    ensures
        castle.moves(b, from).contains(to) <==> castle.allows(b, from, to),
{
    if b.at(from) is Some {
        let p = b.at(from)->0;
        let rights = b.info.castling.rights(p.color);
        lemma_landings(castle, b, from, rights, rights.len() as int, to);
    }
}

} // verus!
