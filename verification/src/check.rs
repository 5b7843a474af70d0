use crate::board::model::{
    king_coord_holds_the_first_king, moved_keeps_wf, moved_then_restored, BoardView,
};
use crate::board::{Board, Coord};
use crate::moves::allowed_cells_are_on_the_grid;
use crate::piece::Color;
use vstd::prelude::*;

verus! {

/// The piece on `c` is of this colour and attacks `target`.
pub open spec fn strikes(b: BoardView, c: Coord, color: Color, target: Coord) -> bool {
    b.at(c) matches Some(q) && q.color == color && q.attacks(b, target)
}

/// Some piece of this colour attacks `target`.
pub open spec fn attacked_by(b: BoardView, color: Color, target: Coord) -> bool {
    exists|c: Coord| strikes(b, c, color, target)
}

/// Where the king on `king` stands after the move from `from` to `to`.
pub open spec fn king_after(king: Coord, from: Coord, to: Coord) -> Coord {
    if from == king {
        to
    } else {
        king
    }
}

/// The piece on `c` threatens the piece of colour `defender` on `target`: it
/// is of the other colour and attacks `target`, and, unless `probe` is set,
/// the capture on `target` would not leave the king of its own side attacked.
pub open spec fn threatens(
    b: BoardView,
    c: Coord,
    defender: Color,
    target: Coord,
    probe: bool,
) -> bool {
    &&& strikes(b, c, defender.other(), target)
    &&& probe || !attacked_by(
        b.moved(c, target),
        defender,
        king_after(b.king_coord(defender.other()), c, target),
    )
}

/// The piece on `target` is threatened by a piece of the other colour.
pub open spec fn in_check(b: BoardView, target: Coord, probe: bool) -> bool {
    b.at(target) matches Some(d) && exists|c: Coord| threatens(b, c, d.color, target, probe)
}

/// Does some piece of this colour attack `target`?
pub fn is_attacked_by(board: &Board, color: Color, target: Coord) -> (r: bool)
    requires
        board.wf(),
    ensures
        r == attacked_by(board@, color, target),
{
    let rows = board.get_rows();
    let cols = board.get_cols();
    let mut row: u32 = 0;
    while row < rows && row <= 0x7fff_ffff
        invariant
            board.wf(),
            rows == board@.rows,
            cols == board@.cols,
            forall|c: Coord| c.row < row ==> !#[trigger] strikes(board@, c, color, target),
        decreases rows - row,
    {
        let mut col: u32 = 0;
        while col < cols && col <= 0x7fff_ffff
            invariant
                board.wf(),
                rows == board@.rows,
                cols == board@.cols,
                row < rows,
                row <= 0x7fff_ffff,
                forall|c: Coord|
                    c.row < row || (c.row == row && c.col < col) ==> !#[trigger] strikes(
                        board@,
                        c,
                        color,
                        target,
                    ),
            decreases cols - col,
        {
            let from = Coord { row: row as i32, col: col as i32 };
            let hit = match board.get_piece(&from) {
                Ok(Some(piece)) => piece.color == color && piece.can_attack(target, board),
                _ => false,
            };
            if hit {
                assert(strikes(board@, from, color, target));
                return true;
            }
            col += 1;
        }
        row += 1;
    }
    false
}

/// Is the piece on `coord` threatened? Every piece of the other colour that
/// attacks the cell counts when `is_checking_mate` is set; otherwise only
/// those whose capture on the cell would not leave their own king attacked.
pub fn is_check(coord: &Coord, board: &mut Board, is_checking_mate: bool) -> (r: bool)
    requires
        old(board).wf(),
        old(board)@.at(*coord) matches Some(d) ==> old(board)@.has_king(d.color.other()),
    ensures
        final(board).wf(),
        final(board)@ == old(board)@,
        r == in_check(old(board)@, *coord, is_checking_mate),
{
    let enemy_color = match board.get_piece(coord) {
        Ok(Some(piece)) => piece.color,
        _ => {
            return false;
        },
    };
    let ally_color = enemy_color.opposite();
    let ally_king_coord = board.get_king(&ally_color).coord;
    let ghost b = board@;
    let rows = board.get_rows();
    let cols = board.get_cols();
    let mut row: u32 = 0;
    while row < rows && row <= 0x7fff_ffff
        invariant
            board.wf(),
            board@ == b,
            b == old(board)@,
            b.at(*coord) matches Some(d) && d.color == enemy_color,
            rows == b.rows,
            cols == b.cols,
            b.in_bounds(ally_king_coord),
            ally_king_coord == b.king_coord(enemy_color.other()),
            ally_color == enemy_color.other(),
            forall|c: Coord|
                c.row < row ==> !#[trigger] threatens(b, c, enemy_color, *coord, is_checking_mate),
        decreases rows - row,
    {
        let mut col: u32 = 0;
        while col < cols && col <= 0x7fff_ffff
            invariant
                board.wf(),
                board@ == b,
                b == old(board)@,
                b.at(*coord) matches Some(d) && d.color == enemy_color,
                rows == b.rows,
                cols == b.cols,
                row < rows,
                row <= 0x7fff_ffff,
                b.in_bounds(ally_king_coord),
                ally_king_coord == b.king_coord(enemy_color.other()),
                ally_color == enemy_color.other(),
                forall|c: Coord|
                    c.row < row || (c.row == row && c.col < col) ==> !#[trigger] threatens(
                        b,
                        c,
                        enemy_color,
                        *coord,
                        is_checking_mate,
                    ),
            decreases cols - col,
        {
            let from = Coord { row: row as i32, col: col as i32 };
            let hit = match board.get_piece(&from) {
                Ok(Some(piece)) => piece.color == ally_color && piece.can_attack(*coord, board),
                _ => false,
            };
            if hit {
                if is_checking_mate {
                    assert(threatens(b, from, enemy_color, *coord, is_checking_mate));
                    return true;
                }
                let king_coord = if from.row == ally_king_coord.row && from.col
                    == ally_king_coord.col {
                    *coord
                } else {
                    ally_king_coord
                };
                let taken = board.move_to_coord(&from, coord);
                let exposed = is_attacked_by(board, enemy_color, king_coord);
                board.restore_move(&from, coord, taken);
                proof {
                    moved_then_restored(b, from, *coord);
                }
                if !exposed {
                    assert(threatens(b, from, enemy_color, *coord, is_checking_mate));
                    return true;
                }
            }
            col += 1;
        }
        row += 1;
    }
    false
}

/// A threat that counts when the own king is looked after counts in a mate
/// probe too.
pub proof fn check_is_found_by_the_mate_probe(b: BoardView, target: Coord)
    requires
        in_check(b, target, false),
    ensures
        in_check(b, target, true),
{
    let d = b.at(target)->0;
    let c = choose|c: Coord| threatens(b, c, d.color, target, false);
    assert(threatens(b, c, d.color, target, true));
}

/// Where the attacks on a cell are looked for, the cell is never empty, so
/// a piece attacks it exactly when one of its rules lets it go there.
pub proof fn attacks_are_moves_onto_pieces(b: BoardView, c: Coord, color: Color, target: Coord)
    requires
        b.at(target) is Some,
    ensures
        strikes(b, c, color, target) <==> crate::check::helps(b, color, c, target),
{
    if b.at(c) is Some {
        let q = b.at(c)->0;
        assert forall|i: int| 0 <= i < q.moves.len() implies ((#[trigger] q.moves[i]).attacks(
            b,
            q.coord,
            target,
        ) <==> q.moves[i].allows(b, q.coord, target)) by {
            crate::moves::no_castle_lands_on_a_piece(q.moves[i], b, q.coord, target);
        }
    }
}

/// The piece on `e` is of this colour, and one of its rules lets it go to `t`.
pub open spec fn helps(b: BoardView, color: Color, e: Coord, t: Coord) -> bool {
    b.at(e) matches Some(q) && q.color == color && q.can_move(b, t)
}

/// The piece on `c` is mated: wherever it goes it is attacked, and whatever
/// another piece of its colour does, it stays attacked where it is.
pub open spec fn is_mated(b: BoardView, c: Coord) -> bool {
    &&& b.at(c) matches Some(k)
    &&& forall|t: Coord| #[trigger] helps(b, k.color, c, t) ==> in_check(b.moved(c, t), t, true)
    &&& forall|e: Coord, t: Coord|
        e != c && #[trigger] helps(b, k.color, e, t) ==> in_check(b.moved(e, t), c, true)
}

/// What the search for a mate of the piece on `c` asks of the position: the
/// other side has a king, and no move of the side of the piece takes the last
/// king of the other side off the board.
pub open spec fn mate_evaluable(b: BoardView, c: Coord) -> bool {
    b.at(c) matches Some(k) ==> {
        &&& b.has_king(k.color.other())
        &&& forall|e: Coord, t: Coord| #[trigger]
            helps(b, k.color, e, t) ==> b.moved(e, t).has_king(k.color.other())
    }
}

/// The side of the piece on `c` does not attack the king of the other side,
/// and that king stands on the board.
pub open spec fn other_king_is_out_of_reach(b: BoardView, c: Coord) -> bool {
    b.at(c) matches Some(k) ==> b.has_king(k.color.other()) && !attacked_by(
        b,
        k.color,
        b.king_coord(k.color.other()),
    )
}

/// Where the side of the piece on `c` does not attack the king of the other
/// side, none of its moves takes that king off the board: a mate of the piece
/// can be searched for.
pub proof fn out_of_reach_king_stays(b: BoardView, c: Coord)
    requires
        b.wf(),
        other_king_is_out_of_reach(b, c),
    ensures
        mate_evaluable(b, c),
{
    if b.at(c) is Some {
        let k = b.at(c)->0;
        let other = k.color.other();
        let king = b.king_coord(other);
        king_coord_holds_the_first_king(b, other);
        assert forall|e: Coord, t: Coord| #[trigger] helps(b, k.color, e, t) implies b.moved(
            e,
            t,
        ).has_king(other) by {
            if t == king {
                attacks_are_moves_onto_pieces(b, e, k.color, king);
                assert(strikes(b, e, k.color, king));
            }
            assert(b.moved(e, t).is_king(other, king));
        }
    }
}

/// Can a mate of the piece on `coord` be searched for? It can where the
/// other side has a king that the side of the piece does not attack.
pub fn can_search_mate(coord: &Coord, board: &Board) -> (r: bool)
    requires
        board.wf(),
    ensures
        r == other_king_is_out_of_reach(board@, *coord),
        r ==> mate_evaluable(board@, *coord),
{
    let color = match board.get_piece(coord) {
        Ok(Some(piece)) => piece.color,
        _ => {
            return true;
        },
    };
    let r = match board.find_king(&color.opposite()) {
        Some(king) => !is_attacked_by(board, color, king.coord),
        None => false,
    };
    proof {
        if r {
            out_of_reach_king_stays(board@, *coord);
        }
    }
    r
}

/// After the move from `from` to `to`, is the piece on `target` attacked?
fn attacked_after(board: &mut Board, from: &Coord, to: &Coord, target: &Coord) -> (r: bool)
    requires
        old(board).wf(),
        old(board)@.in_bounds(*from),
        old(board)@.in_bounds(*to),
        old(board)@.moved(*from, *to).at(*target) matches Some(d) ==> old(board)@.moved(
            *from,
            *to,
        ).has_king(d.color.other()),
    ensures
        final(board).wf(),
        final(board)@ == old(board)@,
        r == in_check(old(board)@.moved(*from, *to), *target, true),
{
    let taken = board.move_to_coord(from, to);
    let r = is_check(target, board, true);
    board.restore_move(from, to, taken);
    proof {
        moved_then_restored(old(board)@, *from, *to);
    }
    r
}

/// Is the piece on `coord` mated? It is when none of its own moves takes it
/// out of the attack, and no move of another piece of its colour ends the
/// attack on it.
pub fn is_mate(coord: &Coord, board: &mut Board) -> (r: bool)
    requires
        old(board).wf(),
        mate_evaluable(old(board)@, *coord),
    ensures
        final(board).wf(),
        final(board)@ == old(board)@,
        r == is_mated(old(board)@, *coord),
{
    let ghost b = board@;
    let (color, king_moves) = match board.get_piece(coord) {
        Ok(Some(piece)) => {
            proof {
                assert(b.cells.dom().contains(*coord));
                assert forall|i: int| 0 <= i < piece@.moves.len() implies (
                #[trigger] piece@.moves[i]).kings_present(b, piece@.coord, None) by {}
            }
            (piece.color, piece.get_moves(board))
        },
        _ => {
            return false;
        },
    };
    let ghost k = b.at(*coord)->0;
    let mut i: usize = 0;
    while i < king_moves.len()
        invariant
            board.wf(),
            board@ == b,
            b == old(board)@,
            b.at(*coord) == Some(k),
            k.coord == *coord,
            mate_evaluable(b, *coord),
            i <= king_moves.len(),
            forall|t: Coord| king_moves@.contains(t) <==> k.can_move(b, t),
            forall|j: int|
                0 <= j < i ==> in_check(b.moved(*coord, #[trigger] king_moves@[j]), king_moves@[j], true),
        decreases king_moves.len() - i,
    {
        let to = king_moves[i];
        proof {
            assert(king_moves@.contains(to));
            assert(helps(b, k.color, *coord, to));
            let n = choose|n: int|
                0 <= n < k.moves.len() && (#[trigger] k.moves[n]).allows(b, k.coord, to);
            allowed_cells_are_on_the_grid(k.moves[n], b, *coord, to);
            moved_keeps_wf(b, *coord, to);
        }
        if !attacked_after(board, coord, &to, &to) {
            return false;
        }
        i += 1;
    }
    proof {
        assert forall|t: Coord| #[trigger] helps(b, k.color, *coord, t) implies in_check(
            b.moved(*coord, t),
            t,
            true,
        ) by {
            assert(king_moves@.contains(t));
            let j = choose|j: int| 0 <= j < king_moves@.len() && king_moves@[j] == t;
            assert(in_check(b.moved(*coord, king_moves@[j]), king_moves@[j], true));
        }
    }
    let rows = board.get_rows();
    let cols = board.get_cols();
    let mut row: u32 = 0;
    while row < rows && row <= 0x7fff_ffff
        invariant
            board.wf(),
            board@ == b,
            b == old(board)@,
            b.at(*coord) == Some(k),
            k.color == color,
            mate_evaluable(b, *coord),
            rows == b.rows,
            cols == b.cols,
            forall|e: Coord, t: Coord|
                e != *coord && e.row < row && #[trigger] helps(b, color, e, t) ==> in_check(
                    b.moved(e, t),
                    *coord,
                    true,
                ),
        decreases rows - row,
    {
        let mut col: u32 = 0;
        while col < cols && col <= 0x7fff_ffff
            invariant
                board.wf(),
                board@ == b,
                b == old(board)@,
                b.at(*coord) == Some(k),
                k.color == color,
                mate_evaluable(b, *coord),
                rows == b.rows,
                cols == b.cols,
                row < rows,
                row <= 0x7fff_ffff,
                forall|e: Coord, t: Coord|
                    e != *coord && (e.row < row || (e.row == row && e.col < col))
                        && #[trigger] helps(b, color, e, t) ==> in_check(
                        b.moved(e, t),
                        *coord,
                        true,
                    ),
            decreases cols - col,
        {
            let from = Coord { row: row as i32, col: col as i32 };
            let is_king = from.row == coord.row && from.col == coord.col;
            let moves: Vec<Coord> = match board.get_piece(&from) {
                Ok(Some(piece)) => {
                    if piece.color == color && !is_king {
                        proof {
                            assert(b.cells.dom().contains(from));
                            assert forall|i: int| 0 <= i < piece@.moves.len() implies (
                            #[trigger] piece@.moves[i]).kings_present(b, piece@.coord, None) by {}
                        }
                        piece.get_moves(board)
                    } else {
                        Vec::new()
                    }
                },
                _ => Vec::new(),
            };
            assert(forall|t: Coord| from != *coord && helps(b, color, from, t) ==> moves@.contains(t));
            let mut n: usize = 0;
            while n < moves.len()
                invariant
                    board.wf(),
                    board@ == b,
                    b == old(board)@,
                    b.at(*coord) == Some(k),
                    k.color == color,
                    mate_evaluable(b, *coord),
                    b.in_bounds(from),
                    n <= moves.len(),
                    forall|t: Coord| moves@.contains(t) ==> from != *coord && helps(b, color, from, t),
                    forall|j: int|
                        0 <= j < n ==> in_check(b.moved(from, #[trigger] moves@[j]), *coord, true),
                decreases moves.len() - n,
            {
                let to = moves[n];
                proof {
                    assert(moves@.contains(to));
                    assert(helps(b, color, from, to));
                    let q = b.at(from)->0;
                    assert(b.cells.dom().contains(from));
                    let m = choose|m: int|
                        0 <= m < q.moves.len() && (#[trigger] q.moves[m]).allows(b, q.coord, to);
                    allowed_cells_are_on_the_grid(q.moves[m], b, from, to);
                    moved_keeps_wf(b, from, to);
                    assert(b.cells.dom().contains(*coord));
                }
                if !attacked_after(board, &from, &to, coord) {
                    return false;
                }
                n += 1;
            }
            proof {
                assert forall|e: Coord, t: Coord|
                    e != *coord && (e.row < row || (e.row == row && e.col < col + 1))
                        && #[trigger] helps(b, color, e, t) implies in_check(
                    b.moved(e, t),
                    *coord,
                    true,
                ) by {
                    if e == from {
                        assert(moves@.contains(t));
                        let j = choose|j: int| 0 <= j < moves@.len() && moves@[j] == t;
                        assert(in_check(b.moved(from, moves@[j]), *coord, true));
                    }
                }
            }
            col += 1;
        }
        row += 1;
    }
    proof {
        assert forall|e: Coord, t: Coord| e != *coord && #[trigger] helps(b, color, e, t) implies in_check(
            b.moved(e, t),
            *coord,
            true,
        ) by {
            assert(b.cells.dom().contains(e));
        }
    }
    true
}

} // verus!
