use super::board_info::{BoardInfoView, CastlingRights, CastlingView};
use super::Coord;
use crate::moves::Direction;
use crate::piece::{Color, PieceType, PieceView};
use vstd::prelude::*;

verus! {

/// A position as a plain value: the size of the grid, the pieces by the cell
/// they stand on, and the state of the game.
pub struct BoardView {
    pub rows: int,
    pub cols: int,
    pub cells: Map<Coord, PieceView>,
    pub info: BoardInfoView,
}

impl BoardView {
    /// The cell with these indices lies on the grid, and a coordinate can
    /// name it.
    pub open spec fn inside(self, row: int, col: int) -> bool {
        0 <= row < self.rows && 0 <= col < self.cols && row <= i32::MAX && col <= i32::MAX
    }

    /// The cell lies on the grid.
    pub open spec fn in_bounds(self, c: Coord) -> bool {
        self.inside(c.row as int, c.col as int)
    }

    /// The piece on a cell, if the cell holds one.
    pub open spec fn at(self, c: Coord) -> Option<PieceView> {
        if self.cells.dom().contains(c) {
            Some(self.cells[c])
        } else {
            None
        }
    }

    /// The piece on the cell with these indices, if there is such a cell and it
    /// holds one.
    pub open spec fn cell(self, row: int, col: int) -> Option<PieceView> {
        if i32::MIN <= row <= i32::MAX && i32::MIN <= col <= i32::MAX {
            self.at(Coord { row: row as i32, col: col as i32 })
        } else {
            None
        }
    }

    /// Every piece stands on a cell of the grid and knows that cell.
    pub open spec fn wf(self) -> bool {
        &&& 0 <= self.rows
        &&& 0 <= self.cols
        &&& forall|c: Coord| #[trigger]
            self.cells.dom().contains(c) ==> self.in_bounds(c) && self.cells[c].coord == c
    }

    /// The position with `p` put on its own cell, in place of what stood there.
    pub open spec fn placed(self, p: PieceView) -> BoardView {
        BoardView { cells: self.cells.insert(p.coord, p), ..self }
    }

    /// The position with the first `n` of `pieces` put on their cells, one
    /// after the other.
    pub open spec fn with_pieces(self, pieces: Seq<PieceView>, n: int) -> BoardView
        decreases n,
    {
        if n <= 0 {
            self
        } else {
            self.with_pieces(pieces, n - 1).placed(pieces[n - 1])
        }
    }

    /// The position on a board of eight by eight cells that holds `pieces`,
    /// put on their cells one after the other, in a game with state `info`.
    pub open spec fn official(pieces: Seq<PieceView>, info: BoardInfoView) -> BoardView {
        (BoardView { rows: 8, cols: 8, cells: Map::empty(), info }).with_pieces(
            pieces,
            pieces.len() as int,
        )
    }

    /// The position from which a game starts.
    pub open spec fn initial() -> BoardView {
        BoardView::official(initial_pieces(), initial_info())
    }

    /// The position with a cell emptied.
    pub open spec fn cleared(self, c: Coord) -> BoardView {
        BoardView { cells: self.cells.remove(c), ..self }
    }

    /// The position after what stands on `from` went to `to`: `from` is left
    /// empty, and `to` holds what `from` held.
    pub open spec fn moved(self, from: Coord, to: Coord) -> BoardView {
        match self.at(from) {
            Some(p) => BoardView { cells: self.cells.remove(from).insert(to, p.at(to)), ..self },
            None => BoardView { cells: self.cells.remove(from).remove(to), ..self },
        }
    }

    /// What a move from `from` to `to` takes off the board.
    pub open spec fn captured(self, from: Coord, to: Coord) -> Option<PieceView> {
        if from == to {
            None
        } else {
            self.at(to)
        }
    }

    /// The position after a move from `from` to `to` was taken back and
    /// `captured` was put back on `to`.
    pub open spec fn restored(self, from: Coord, to: Coord, captured: Option<PieceView>) -> BoardView {
        let back = self.moved(to, from);
        match captured {
            Some(p) => BoardView { cells: back.cells.insert(to, p), ..back },
            None => back,
        }
    }

    /// The default range of a sliding piece: the extent of the board along the
    /// direction.
    pub open spec fn max_cells(self, d: Direction) -> int {
        match d {
            Direction::North | Direction::South => self.rows,
            Direction::East | Direction::West => self.cols,
            _ => if self.rows >= self.cols {
                self.rows
            } else {
                self.cols
            },
        }
    }

    /// The far row, seen from the side on which this colour starts.
    pub open spec fn is_promotion_row(self, row: int, color: Color) -> bool {
        match color {
            Color::White => row == 0,
            Color::Black => row == self.rows - 1,
        }
    }

    /// The row on which the pawns of this colour start.
    pub open spec fn is_pawn_row(self, row: int, color: Color) -> bool {
        match color {
            Color::White => row == self.rows - 2,
            Color::Black => row == 1,
        }
    }

    /// A king of this colour stands on the board.
    pub open spec fn has_king(self, color: Color) -> bool {
        exists|c: Coord| self.is_king(color, c)
    }

    /// The cell holds a king of this colour.
    pub open spec fn is_king(self, color: Color, c: Coord) -> bool {
        self.at(c) matches Some(p) && p.color == color && p.piece == PieceType::King
    }

    /// `c` holds the king of this colour that a row-major scan meets first.
    pub open spec fn is_first_king(self, color: Color, c: Coord) -> bool {
        &&& self.is_king(color, c)
        &&& forall|d: Coord| #[trigger] self.is_king(color, d) ==> !d.precedes(c)
    }

    /// The cell of the king of this colour that a row-major scan meets first.
    pub open spec fn king_coord(self, color: Color) -> Coord {
        choose|c: Coord| self.is_first_king(color, c)
    }

    /// The pieces of one colour among the first `upto` cells of a row, from
    /// left to right.
    pub open spec fn row_pieces(self, color: Color, row: int, upto: int) -> Seq<PieceView>
        decreases upto,
    {
        if upto <= 0 {
            Seq::empty()
        } else {
            let before = self.row_pieces(color, row, upto - 1);
            match self.cell(row, upto - 1) {
                Some(p) => if p.color == color {
                    before.push(p)
                } else {
                    before
                },
                None => before,
            }
        }
    }

    /// The pieces of one colour in the first `upto` rows, in row-major order.
    pub open spec fn pieces_upto(self, color: Color, upto: int) -> Seq<PieceView>
        decreases upto,
    {
        if upto <= 0 {
            Seq::empty()
        } else {
            self.pieces_upto(color, upto - 1) + self.row_pieces(color, upto - 1, self.cols)
        }
    }

    /// All pieces of one colour, in row-major order.
    pub open spec fn pieces(self, color: Color) -> Seq<PieceView> {
        self.pieces_upto(color, self.rows)
    }
}

/// The kind of the piece that starts on a column of the first or last row.
pub open spec fn back_rank(col: int) -> PieceType {
    if col == 0 || col == 7 {
        PieceType::Rook
    } else if col == 1 || col == 6 {
        PieceType::Knight
    } else if col == 2 || col == 5 {
        PieceType::Bishop
    } else if col == 3 {
        PieceType::Queen
    } else {
        PieceType::King
    }
}

/// The `i`-th piece of the starting position, counted row by row: Black on
/// the first two rows, White on the last two, the pawns on the inner rows.
pub open spec fn initial_piece(i: int) -> PieceView {
    if i < 8 {
        PieceView::standard(Color::Black, back_rank(i), Coord { row: 0, col: i as i32 })
    } else if i < 16 {
        PieceView::standard(Color::Black, PieceType::Pawn, Coord { row: 1, col: (i - 8) as i32 })
    } else if i < 24 {
        PieceView::standard(Color::White, PieceType::Pawn, Coord { row: 6, col: (i - 16) as i32 })
    } else {
        PieceView::standard(Color::White, back_rank(i - 24), Coord { row: 7, col: (i - 24) as i32 })
    }
}

/// The thirty-two pieces of the starting position.
pub open spec fn initial_pieces() -> Seq<PieceView> {
    Seq::new(32, |i: int| initial_piece(i))
}

/// The castle of a colour on the side of its king or of its queen.
pub open spec fn official_castle(color: Color, king_side: bool) -> CastlingRights {
    let row: i32 = match color {
        Color::White => 7,
        Color::Black => 0,
    };
    if king_side {
        CastlingRights { new_king: Coord { row, col: 6 }, tower: Coord { row, col: 7 } }
    } else {
        CastlingRights { new_king: Coord { row, col: 2 }, tower: Coord { row, col: 0 } }
    }
}

/// The state of a game at its start: White to move, every castle available.
pub open spec fn initial_info() -> BoardInfoView {
    BoardInfoView {
        castling: CastlingView {
            white: Some(
                seq![official_castle(Color::White, true), official_castle(Color::White, false)],
            ),
            black: Some(
                seq![official_castle(Color::Black, true), official_castle(Color::Black, false)],
            ),
        },
        ..BoardInfoView::initial()
    }
}

/// A piece is among those of a row up to a column exactly when it is of the
/// colour asked for and stands on its cell, in that row, before that column.
pub proof fn row_pieces_are_the_pieces_of_the_row(
    b: BoardView,
    color: Color,
    row: int,
    upto: int,
    p: PieceView,
)
    requires
        b.wf(),
    ensures
        b.row_pieces(color, row, upto).contains(p) <==> p.color == color && p.coord.row == row
            && 0 <= p.coord.col < upto && b.at(p.coord) == Some(p),
    decreases upto,
{
    if upto > 0 {
        row_pieces_are_the_pieces_of_the_row(b, color, row, upto - 1, p);
        let before = b.row_pieces(color, row, upto - 1);
        let now = b.row_pieces(color, row, upto);
        let here = b.cell(row, upto - 1);
        if here is Some && here->0.color == color {
            let q = here->0;
            assert(now == before.push(q));
            assert(now[before.len() as int] == q);
            if before.contains(p) {
                let i = choose|i: int| 0 <= i < before.len() && before[i] == p;
                assert(now[i] == p);
            }
            if now.contains(p) {
                let i = choose|i: int| 0 <= i < now.len() && now[i] == p;
                if i < before.len() {
                    assert(before[i] == p);
                }
            }
            let c = Coord { row: row as i32, col: (upto - 1) as i32 };
            assert(b.cells.dom().contains(c));
        }
        if b.at(p.coord) == Some(p) {
            assert(b.cells.dom().contains(p.coord));
        }
    }
}

/// A piece is among those of the first rows exactly when it is of the colour
/// asked for and stands on its cell, in one of those rows.
pub proof fn pieces_upto_are_the_pieces_of_the_rows(
    b: BoardView,
    color: Color,
    upto: int,
    p: PieceView,
)
    requires
        b.wf(),
    ensures
        b.pieces_upto(color, upto).contains(p) <==> p.color == color && 0 <= p.coord.row < upto
            && b.at(p.coord) == Some(p),
    decreases upto,
{
    if upto > 0 {
        pieces_upto_are_the_pieces_of_the_rows(b, color, upto - 1, p);
        row_pieces_are_the_pieces_of_the_row(b, color, upto - 1, b.cols, p);
        let before = b.pieces_upto(color, upto - 1);
        let row = b.row_pieces(color, upto - 1, b.cols);
        if before.contains(p) {
            let i = choose|i: int| 0 <= i < before.len() && before[i] == p;
            assert((before + row)[i] == p);
        }
        if row.contains(p) {
            let i = choose|i: int| 0 <= i < row.len() && row[i] == p;
            assert((before + row)[before.len() + i] == p);
        }
        if (before + row).contains(p) {
            let i = choose|i: int| 0 <= i < (before + row).len() && (before + row)[i] == p;
            if i < before.len() {
                assert(before[i] == p);
            } else {
                assert(row[i - before.len()] == p);
            }
        }
        if b.at(p.coord) == Some(p) {
            assert(b.cells.dom().contains(p.coord));
        }
    }
}

/// The pieces of a colour are exactly those of that colour that stand on the
/// board.
pub proof fn pieces_are_the_pieces_on_the_board(b: BoardView, color: Color, p: PieceView)
    requires
        b.wf(),
    ensures
        b.pieces(color).contains(p) <==> p.color == color && b.at(p.coord) == Some(p),
{
    pieces_upto_are_the_pieces_of_the_rows(b, color, b.rows, p);
    if b.at(p.coord) == Some(p) {
        assert(b.cells.dom().contains(p.coord));
    }
}

/// The cell that `king_coord` names holds the first king of a colour that has
/// one.
pub proof fn king_coord_holds_the_first_king(b: BoardView, color: Color)
    requires
        b.wf(),
        b.has_king(color),
    ensures
        b.is_first_king(color, b.king_coord(color)),
{
    let d = choose|d: Coord| b.is_king(color, d);
    first_king_exists(b, color, d, d.row as int, d.col as int);
}

/// Among the kings of a colour one comes first in the row-major scan.
proof fn first_king_exists(b: BoardView, color: Color, d: Coord, row: int, col: int)
    requires
        b.wf(),
        b.is_king(color, d),
        d.row == row,
        d.col == col,
    ensures
        exists|c: Coord| b.is_first_king(color, c),
    decreases row, col,
{
    assert(b.cells.dom().contains(d));
    if forall|x: Coord| #[trigger] b.is_king(color, x) ==> !x.precedes(d) {
        assert(b.is_first_king(color, d));
    } else {
        let x = choose|x: Coord| #[trigger] b.is_king(color, x) && x.precedes(d);
        assert(b.cells.dom().contains(x));
        first_king_exists(b, color, x, x.row as int, x.col as int);
    }
}

/// Taking a move back restores the position exactly, whatever stood on the two
/// cells.
pub proof fn moved_then_restored(b: BoardView, from: Coord, to: Coord)
    requires
        b.wf(),
        b.in_bounds(from),
        b.in_bounds(to),
    ensures
        b.moved(from, to).restored(from, to, b.captured(from, to)) == b,
{
    let after = b.moved(from, to).restored(from, to, b.captured(from, to));
    assert(after.cells =~= b.cells);
}

/// A move keeps every piece on the grid and on the cell it knows.
pub proof fn moved_keeps_wf(b: BoardView, from: Coord, to: Coord)
    requires
        b.wf(),
        b.in_bounds(to),
    ensures
        b.moved(from, to).wf(),
{
}

/// At most one cell holds the first king of a colour.
pub proof fn first_king_is_unique(b: BoardView, color: Color, c: Coord, d: Coord)
    requires
        b.is_first_king(color, c),
        b.is_first_king(color, d),
    ensures
        c == d,
{
}

} // verus!
