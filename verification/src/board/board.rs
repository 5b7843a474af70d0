use super::board_info::{BoardInfo, CastlingRights};
use super::model::{initial_info, initial_piece, initial_pieces, BoardView};
use super::Coord;
use crate::errors::OutOfBoundsError;
use crate::moves::Direction;
use crate::notation::fen::{on_official_board, outcome, parse, piece_views, well_shaped, FenError};
use crate::piece::{Color, Piece, PieceType, PieceView};
use vstd::prelude::*;

verus! {

/// The number of rows of a board made without a size.
pub const ROWS: u32 = 8;

/// The number of columns of a board made without a size.
pub const COLS: u32 = 8;

/// A grid of cells, each empty or holding one piece, and the state of the game.
#[derive(Clone)]
pub struct Board {
    board: Vec<Vec<Option<Piece>>>,
    info: BoardInfo,
    n_rows: u32,
    n_cols: u32,
}

/// The pieces that a sequence of references points to, as plain values.
pub open spec fn views_of(pieces: Seq<&Piece>) -> Seq<PieceView> {
    pieces.map_values(|p: &Piece| p@)
}

/// What a cell holds, as a plain value.
pub open spec fn view_of(piece: Option<Piece>) -> Option<PieceView> {
    match piece {
        Some(p) => Some(p@),
        None => None,
    }
}

impl View for Board {
    type V = BoardView;

    closed spec fn view(&self) -> BoardView {
        BoardView {
            rows: self.n_rows as int,
            cols: self.n_cols as int,
            cells: self.cells(),
            info: self.info@,
        }
    }
}

impl Board {
    spec fn slot(&self, row: int, col: int) -> Option<Piece> {
        self.board@[row]@[col]
    }

    spec fn slot_ok(&self, row: int, col: int) -> bool {
        self.slot(row, col) matches Some(p) ==> p.coord.row == row && p.coord.col == col
    }

    spec fn cells(&self) -> Map<Coord, PieceView> {
        Map::new(
            |c: Coord|
                0 <= c.row < self.n_rows && 0 <= c.col < self.n_cols && self.slot(
                    c.row as int,
                    c.col as int,
                ) is Some,
            |c: Coord| self.slot(c.row as int, c.col as int)->0@,
        )
    }

    /// The grid has the size it claims, and each piece in it names the cell
    /// it stands on.
    pub closed spec fn grid_wf(&self) -> bool {
        &&& self.board@.len() == self.n_rows
        &&& forall|r: int|
            0 <= r < self.n_rows ==> (#[trigger] self.board@[r])@.len() == self.n_cols
        &&& forall|r: int, c: int|
            0 <= r < self.n_rows && 0 <= c < self.n_cols ==> self.slot_ok(r, c)
    }

    /// The invariant of a board: the grid has the size it claims, and every
    /// piece knows the cell it stands on.
    pub open spec fn wf(&self) -> bool {
        self.grid_wf() && self@.wf()
    }

    /// The grid has the size of `before` and holds what `before` holds, but
    /// for the cell `c`.
    pub closed spec fn changed_only_at(&self, before: &Board, c: Coord) -> bool {
        &&& self.n_rows == before.n_rows
        &&& self.n_cols == before.n_cols
        &&& self.board@.len() == before.board@.len()
        &&& forall|r: int|
            0 <= r < self.board@.len() ==> (#[trigger] self.board@[r])@.len()
                == before.board@[r]@.len()
        &&& forall|r: int, k: int|
            0 <= r < self.n_rows && 0 <= k < self.n_cols && !(r == c.row && k == c.col)
                ==> #[trigger] self.slot(r, k) == before.slot(r, k)
    }

    /// A board changed in one cell alone is well formed where the cell is
    /// empty or holds a piece that knows that it stands there.
    pub proof fn wf_after_change(&self, before: &Board, c: Coord)
        requires
            before.wf(),
            self.changed_only_at(before, c),
            self@.at(c) matches Some(p) ==> p.coord == c,
        ensures
            self.wf(),
    {
        assert forall|r: int, k: int|
            0 <= r < self.n_rows && 0 <= k < self.n_cols implies (#[trigger] self.slot(r, k)
            == before.slot(r, k) || self.slot_ok(r, k)) by {
            if r == c.row && k == c.col {
                if self.slot(r, k) is Some {
                    assert(self@.cells.dom().contains(c));
                }
            }
        }
        self.lemma_kept(before);
    }

    proof fn lemma_kept(&self, before: &Board)
        requires
            before.grid_wf(),
            self.n_rows == before.n_rows,
            self.n_cols == before.n_cols,
            self.board@.len() == before.board@.len(),
            forall|r: int|
                0 <= r < self.n_rows ==> (#[trigger] self.board@[r])@.len() == self.n_cols,
            forall|r: int, c: int|
                0 <= r < self.n_rows && 0 <= c < self.n_cols ==> (#[trigger] self.slot(r, c)
                    == before.slot(r, c) || self.slot_ok(r, c)),
        ensures
            self.grid_wf(),
            self@.wf(),
    {
        assert forall|r: int, c: int|
            0 <= r < self.n_rows && 0 <= c < self.n_cols implies self.slot_ok(r, c) by {
            assert(before.slot_ok(r, c));
            assert(self.slot(r, c) == before.slot(r, c) || self.slot_ok(r, c));
        }
        self.lemma_view_wf();
    }

    proof fn lemma_view_wf(&self)
        requires
            self.grid_wf(),
        ensures
            self@.wf(),
    {
        assert forall|c: Coord| #[trigger] self@.cells.dom().contains(c) implies self@.in_bounds(c)
            && self@.cells[c].coord == c by {
            assert(self.slot_ok(c.row as int, c.col as int));
        }
    }

    /// An empty board of `n_rows` by `n_cols` cells, eight by eight where no
    /// size is given.
    pub fn new(n_rows: Option<u32>, n_cols: Option<u32>) -> (b: Board)
        ensures
            b.wf(),
            b@.rows == (match n_rows {
                Some(n) => n,
                None => ROWS,
            }),
            b@.cols == (match n_cols {
                Some(n) => n,
                None => COLS,
            }),
            b@.cells == Map::<Coord, PieceView>::empty(),
            b@.info == super::board_info::BoardInfoView::initial(),
    {
        let n_rows = match n_rows {
            Some(n) => n,
            None => ROWS,
        };
        let n_cols = match n_cols {
            Some(n) => n,
            None => COLS,
        };
        let mut board: Vec<Vec<Option<Piece>>> = Vec::new();
        let mut r: u32 = 0;
        while r < n_rows
            invariant
                r <= n_rows,
                board@.len() == r,
                forall|i: int| 0 <= i < r ==> (#[trigger] board@[i])@.len() == n_cols,
                forall|i: int, j: int|
                    0 <= i < r && 0 <= j < n_cols ==> (#[trigger] board@[i]@[j]) is None,
            decreases n_rows - r,
        {
            let mut row: Vec<Option<Piece>> = Vec::new();
            let mut c: u32 = 0;
            while c < n_cols
                invariant
                    c <= n_cols,
                    row@.len() == c,
                    forall|j: int| 0 <= j < c ==> (#[trigger] row@[j]) is None,
                decreases n_cols - c,
            {
                row.push(None);
                c += 1;
            }
            board.push(row);
            r += 1;
        }
        let b = Board { board, n_rows, n_cols, info: BoardInfo::default() };
        proof {
            b.lemma_view_wf();
            assert(b@.cells =~= Map::<Coord, PieceView>::empty());
        }
        b
    }

    /// A board of eight by eight cells that holds `pieces`, put on their
    /// cells one after the other, in a game with state `info`.
    pub fn from_pieces(pieces: &Vec<Piece>, info: BoardInfo) -> (r: Result<Board, OutOfBoundsError>)
        ensures
            r is Ok <==> on_official_board(piece_views(pieces@)),
            r matches Ok(b) ==> b.wf() && b@ == BoardView::official(piece_views(pieces@), info@),
    {
        let mut board = Board::new(None, None);
        board.set_info(info);
        let ghost start = board@;
        let ghost views = piece_views(pieces@);
        let mut i: usize = 0;
        while i < pieces.len()
            invariant
                board.wf(),
                i <= pieces.len(),
                views == piece_views(pieces@),
                start.rows == 8,
                start.cols == 8,
                board@.rows == 8,
                board@.cols == 8,
                board@ == start.with_pieces(views, i as int),
                forall|j: int|
                    0 <= j < i ==> 0 <= (#[trigger] views[j]).coord.row < 8 && 0
                        <= views[j].coord.col < 8,
            decreases pieces.len() - i,
        {
            assert(views[i as int] == pieces@[i as int]@);
            match board.set_piece(pieces[i].duplicate()) {
                Ok(()) => {},
                Err(e) => {
                    return Err(e);
                },
            }
            i += 1;
        }
        Ok(board)
    }

    /// The board that a position text describes.
    pub fn from_fen(fen: &str) -> (r: Result<Board, FenError>)
        ensures
            match outcome(fen@, well_shaped(fen@)) {
                Ok((pieces, info)) => r matches Ok(b) && b.wf() && b@ == BoardView::official(
                    pieces,
                    info,
                ),
                Err(f) => r matches Err(e) && f.is_reported_by(e),
            },
    {
        let (pieces, info) = match parse(fen) {
            Ok(found) => found,
            Err(e) => {
                return Err(e);
            },
        };
        match Self::from_pieces(&pieces, info) {
            Ok(board) => Ok(board),
            Err(_) => {
                assert(false);
                vstd::pervasive::unreached()
            },
        }
    }

    /// The board from which a game starts.
    pub fn default() -> (b: Board)
        ensures
            b.wf(),
            b@ == BoardView::initial(),
    {
        let mut pieces: Vec<Piece> = Vec::new();
        let mut i: i32 = 0;
        while i < 32
            invariant
                0 <= i <= 32,
                pieces@.len() == i,
                forall|j: int| 0 <= j < i ==> (#[trigger] pieces@[j])@ == initial_piece(j),
            decreases 32 - i,
        {
            let col = i % 8;
            let kind = if col == 0 || col == 7 {
                PieceType::Rook
            } else if col == 1 || col == 6 {
                PieceType::Knight
            } else if col == 2 || col == 5 {
                PieceType::Bishop
            } else if col == 3 {
                PieceType::Queen
            } else {
                PieceType::King
            };
            let piece = if i < 8 {
                Self::back_rank_piece(Color::Black, kind, Coord { row: 0, col })
            } else if i < 16 {
                Piece::new_pawn(Color::Black, Coord { row: 1, col })
            } else if i < 24 {
                Piece::new_pawn(Color::White, Coord { row: 6, col })
            } else {
                Self::back_rank_piece(Color::White, kind, Coord { row: 7, col })
            };
            pieces.push(piece);
            i += 1;
        }
        assert(piece_views(pieces@) =~= initial_pieces());
        let mut info = BoardInfo::default();
        info.castling.add(
            Color::White,
            CastlingRights { new_king: Coord { row: 7, col: 6 }, tower: Coord { row: 7, col: 7 } },
        );
        info.castling.add(
            Color::White,
            CastlingRights { new_king: Coord { row: 7, col: 2 }, tower: Coord { row: 7, col: 0 } },
        );
        info.castling.add(
            Color::Black,
            CastlingRights { new_king: Coord { row: 0, col: 6 }, tower: Coord { row: 0, col: 7 } },
        );
        info.castling.add(
            Color::Black,
            CastlingRights { new_king: Coord { row: 0, col: 2 }, tower: Coord { row: 0, col: 0 } },
        );
        proof {
            assert(info@.castling.white->0 =~= initial_info().castling.white->0);
            assert(info@.castling.black->0 =~= initial_info().castling.black->0);
        }
        match Self::from_pieces(&pieces, info) {
            Ok(board) => board,
            Err(_) => {
                assert(false);
                vstd::pervasive::unreached()
            },
        }
    }

    fn back_rank_piece(color: Color, kind: PieceType, coord: Coord) -> (p: Piece)
        requires
            kind != PieceType::Pawn,
        ensures
            p@ == PieceView::standard(color, kind, coord),
    {
        match kind {
            PieceType::Rook => Piece::new_rook(color, coord),
            PieceType::Knight => Piece::new_knight(color, coord),
            PieceType::Bishop => Piece::new_bishop(color, coord),
            PieceType::Queen => Piece::new_queen(color, coord),
            _ => Piece::new_king(color, coord),
        }
    }

    /// Does the cell lie on the grid?
    pub fn in_bounds(&self, coords: &Coord) -> (r: bool)
        ensures
            r == self@.in_bounds(*coords),
    {
        coords.row >= 0 && (coords.row as i64) < (self.n_rows as i64) && coords.col >= 0 && (
        coords.col as i64) < (self.n_cols as i64)
    }

    /// The state of the game.
    pub fn info(&self) -> (info: &BoardInfo)
        ensures
            info@ == self@.info,
    {
        &self.info
    }

    /// Replaces the state of the game.
    pub fn set_info(&mut self, info: BoardInfo)
        requires
            old(self).wf(),
        ensures
            final(self).wf(),
            final(self)@ == (BoardView { info: info@, ..old(self)@ }),
    {
        self.info = info;
        proof {
            assert(self@.cells =~= old(self)@.cells);
            self.lemma_kept(old(self));
        }
    }

    /// The number of rows of the grid.
    pub fn get_rows(&self) -> (n: u32)
        ensures
            n == self@.rows,
    {
        self.n_rows
    }

    /// The number of columns of the grid.
    pub fn get_cols(&self) -> (n: u32)
        ensures
            n == self@.cols,
    {
        self.n_cols
    }

    /// The piece on a cell.
    pub fn get_piece(&self, coords: &Coord) -> (r: Result<Option<&Piece>, OutOfBoundsError>)
        requires
            self.wf(),
        ensures
            r is Ok <==> self@.in_bounds(*coords),
            r matches Ok(Some(p)) ==> self@.at(*coords) == Some(p@),
            r matches Ok(None) ==> self@.at(*coords) is None,
    {
        if !self.in_bounds(coords) {
            return Err(OutOfBoundsError);
        }
        Ok(self.board[coords.row as usize][coords.col as usize].as_ref())
    }

    /// The cell itself, to be changed in place. What the cell is left with
    /// must know that it stands there: see `wf_after_change`.
    pub fn get_piece_mut(&mut self, coords: &Coord) -> (r: Result<
        &mut Option<Piece>,
        OutOfBoundsError,
    >)
        requires
            old(self).wf(),
        ensures
            r is Ok <==> old(self)@.in_bounds(*coords),
            r is Err ==> final(self)@ == old(self)@ && final(self).wf(),
            r matches Ok(cell) ==> view_of(*cell) == old(self)@.at(*coords),
            r matches Ok(cell) ==> final(self)@.rows == old(self)@.rows && final(self)@.cols == old(
                self,
            )@.cols && final(self)@.info == old(self)@.info,
            r matches Ok(cell) ==> forall|c: Coord|
                #[trigger] final(self)@.at(c) == (if c == *coords {
                    view_of(*final(cell))
                } else {
                    old(self)@.at(c)
                }),
            r matches Ok(cell) ==> final(self).changed_only_at(old(self), *coords),
    {
        if !self.in_bounds(coords) {
            return Err(OutOfBoundsError);
        }
        Ok(&mut self.board[coords.row as usize][coords.col as usize])
    }

    /// Puts a piece on the cell it names, in place of what stood there.
    pub fn set_piece(&mut self, piece: Piece) -> (r: Result<(), OutOfBoundsError>)
        requires
            old(self).wf(),
        ensures
            final(self).wf(),
            r is Ok <==> old(self)@.in_bounds(piece.coord),
            r is Ok ==> final(self)@ == old(self)@.placed(piece@),
            r is Err ==> final(self)@ == old(self)@,
    {
        let coord = piece.coord;
        if !self.in_bounds(&coord) {
            return Err(OutOfBoundsError);
        }
        let ghost placed = piece@;
        self.board[coord.row as usize][coord.col as usize] = Some(piece);
        proof {
            self.lemma_kept(old(self));
            assert(self@.cells =~= old(self)@.placed(placed).cells);
        }
        Ok(())
    }

    /// Empties a cell.
    pub fn remove_piece(&mut self, coord: &Coord) -> (r: Result<(), OutOfBoundsError>)
        requires
            old(self).wf(),
        ensures
            final(self).wf(),
            r is Ok <==> old(self)@.in_bounds(*coord),
            r is Ok ==> final(self)@ == old(self)@.cleared(*coord),
            r is Err ==> final(self)@ == old(self)@,
    {
        if !self.in_bounds(coord) {
            return Err(OutOfBoundsError);
        }
        self.board[coord.row as usize][coord.col as usize] = None;
        proof {
            self.lemma_kept(old(self));
            assert(self@.cells =~= old(self)@.cleared(*coord).cells);
        }
        Ok(())
    }

    /// Moves what stands on `from` to `to` and hands back what the move took
    /// off the board.
    pub fn move_to_coord(&mut self, from: &Coord, to: &Coord) -> (taken: Option<Piece>)
        requires
            old(self).wf(),
            old(self)@.in_bounds(*from),
            old(self)@.in_bounds(*to),
        ensures
            final(self).wf(),
            final(self)@ == old(self)@.moved(*from, *to),
            view_of(taken) == old(self)@.captured(*from, *to),
    {
        let mut piece = self.board[from.row as usize][from.col as usize].take();
        match &mut piece {
            Some(p) => {
                p.coord = *to;
            },
            None => {},
        }
        let old_piece = self.board[to.row as usize][to.col as usize].take();
        self.board[to.row as usize][to.col as usize] = piece;
        proof {
            self.lemma_kept(old(self));
            assert(self@.cells =~= old(self)@.moved(*from, *to).cells);
        }
        old_piece
    }

    /// Takes back a move from `from` to `to` that took `taken` off the board.
    pub fn restore_move(&mut self, from: &Coord, to: &Coord, taken: Option<Piece>)
        requires
            old(self).wf(),
            old(self)@.in_bounds(*from),
            old(self)@.in_bounds(*to),
            taken matches Some(p) ==> p.coord == *to,
        ensures
            final(self).wf(),
            final(self)@ == old(self)@.restored(*from, *to, view_of(taken)),
    {
        let _ = self.move_to_coord(to, from);
        let ghost mid = *self;
        if taken.is_some() {
            self.board[to.row as usize][to.col as usize] = taken;
            proof {
                self.lemma_kept(&mid);
                assert(self@.cells =~= old(self)@.restored(*from, *to, view_of(taken)).cells);
            }
        }
    }

    proof fn lemma_slot(&self, r: int, c: int)
        requires
            self.grid_wf(),
            0 <= r < self.n_rows,
            0 <= c < self.n_cols,
        ensures
            view_of(self.slot(r, c)) == self@.cell(r, c),
            self.slot(r, c) matches Some(p) ==> p.coord.row == r && p.coord.col == c,
    {
        assert(self.slot_ok(r, c));
    }

    /// All pieces of one colour, in row-major order.
    pub fn get_all_pieces(&self, color: &Color) -> (pieces: Vec<&Piece>)
        requires
            self.wf(),
        ensures
            views_of(pieces@) == self@.pieces(*color),
    {
        let mut pieces: Vec<&Piece> = Vec::new();
        let mut r: usize = 0;
        assert(views_of(pieces@) =~= self@.pieces_upto(*color, 0));
        while r < self.board.len()
            invariant
                self.wf(),
                r <= self.board.len(),
                views_of(pieces@) == self@.pieces_upto(*color, r as int),
            decreases self.board.len() - r,
        {
            let row = &self.board[r];
            let mut c: usize = 0;
            assert(views_of(pieces@) =~= self@.pieces_upto(*color, r as int) + self@.row_pieces(
                *color,
                r as int,
                0,
            ));
            while c < row.len()
                invariant
                    self.wf(),
                    r < self.board.len(),
                    *row == self.board@[r as int],
                    c <= row.len(),
                    views_of(pieces@) == self@.pieces_upto(*color, r as int) + self@.row_pieces(
                        *color,
                        r as int,
                        c as int,
                    ),
                decreases row.len() - c,
            {
                proof {
                    self.lemma_slot(r as int, c as int);
                }
                let ghost before = pieces@;
                if let Some(piece) = &row[c] {
                    if piece.color == *color {
                        pieces.push(piece);
                        assert(views_of(pieces@) =~= views_of(before).push(piece@));
                    }
                }
                assert(views_of(pieces@) =~= self@.pieces_upto(*color, r as int)
                    + self@.row_pieces(*color, r as int, c + 1));
                c += 1;
            }
            r += 1;
        }
        pieces
    }

    /// The king of a colour, if it has one: the first that a row-major scan
    /// meets.
    pub fn find_king(&self, color: &Color) -> (found: Option<&Piece>)
        requires
            self.wf(),
        ensures
            found is Some <==> self@.has_king(*color),
            found matches Some(king) ==> self@.at(king.coord) == Some(king@)
                && self@.is_first_king(*color, king.coord) && king.coord == self@.king_coord(
                *color,
            ),
    {
        let mut r: usize = 0;
        while r < self.board.len()
            invariant
                self.wf(),
                r <= self.board.len(),
                forall|d: Coord| #[trigger] self@.is_king(*color, d) ==> d.row >= r,
            decreases self.board.len() - r,
        {
            let row = &self.board[r];
            let mut c: usize = 0;
            while c < row.len()
                invariant
                    self.wf(),
                    r < self.board.len(),
                    *row == self.board@[r as int],
                    c <= row.len(),
                    forall|d: Coord| #[trigger]
                        self@.is_king(*color, d) ==> d.row > r || (d.row == r && d.col >= c),
                decreases row.len() - c,
            {
                proof {
                    self.lemma_slot(r as int, c as int);
                }
                if let Some(piece) = &row[c] {
                    if piece.color == *color && piece.piece == PieceType::King {
                        proof {
                            assert(self@.is_king(*color, piece.coord));
                            assert(self@.is_first_king(*color, piece.coord));
                        }
                        return Some(piece);
                    }
                }
                assert forall|d: Coord| #[trigger] self@.is_king(*color, d) implies d.row > r || (
                d.row == r && d.col >= c + 1) by {
                    if d.row == r && d.col == c {
                        assert(self@.cell(r as int, c as int) == self@.at(d));
                    }
                }
                c += 1;
            }
            r += 1;
        }
        proof {
            if self@.has_king(*color) {
                let d = choose|d: Coord| self@.is_king(*color, d);
                assert(self@.is_king(*color, d));
                assert(self@.cells.dom().contains(d));
                assert(false);
            }
        }
        None
    }

    /// The king of a colour: the first that a row-major scan meets. A board
    /// without a king of that colour is no position to ask this of.
    pub fn get_king(&self, color: &Color) -> (king: &Piece)
        requires
            self.wf(),
            self@.has_king(*color),
        ensures
            self@.at(king.coord) == Some(king@),
            self@.is_first_king(*color, king.coord),
            king.coord == self@.king_coord(*color),
    {
        match self.find_king(color) {
            Some(king) => king,
            None => vstd::pervasive::unreached(),
        }
    }

    /// Makes the move from `from` to `to`, lets `on_board_change` look at the
    /// position, and takes the move back: the board is left as it was,
    /// whatever stood on the two cells and whatever the callback returns.
    pub fn temporal_move<T, F: Fn(&Board) -> T>(
        &mut self,
        from: &Coord,
        to: &Coord,
        on_board_change: F,
    ) -> (res: T)
        requires
            old(self).wf(),
            old(self)@.in_bounds(*from),
            old(self)@.in_bounds(*to),
            forall|b: &Board|
                b.wf() && b@ == old(self)@.moved(*from, *to) ==> call_requires(
                    on_board_change,
                    (b,),
                ),
        ensures
            final(self).wf(),
            final(self)@ == old(self)@,
            exists|b: &Board|
                b.wf() && b@ == old(self)@.moved(*from, *to) && call_ensures(
                    on_board_change,
                    (b,),
                    res,
                ),
    {
        let to_piece = self.move_to_coord(from, to);
        let res = on_board_change(self);
        proof {
            let b: &Board = self;
            assert(b.wf() && b@ == old(self)@.moved(*from, *to) && call_ensures(
                on_board_change,
                (b,),
                res,
            ));
        }
        self.restore_move(from, to, to_piece);
        proof {
            super::model::moved_then_restored(old(self)@, *from, *to);
        }
        res
    }

    /// Does a rule of the piece on `from` let it go to `to`?
    pub fn can_move(&self, from: &Coord, to: &Coord) -> (r: bool)
        requires
            self.wf(),
            self@.at(*from) matches Some(p) ==> p.kings_present(self@, Some(*to)),
        ensures
            r == (self@.at(*from) matches Some(p) && p.can_move(self@, *to)),
    {
        let piece = match self.get_piece(from) {
            Ok(Some(piece)) => piece,
            _ => {
                return false;
            },
        };
        assert(piece.coord == *from) by {
            assert(self@.cells.dom().contains(*from));
        }
        piece.can_move(*to, self)
    }

    /// A board of its own with the same position.
    pub fn duplicate(&self) -> (b: Board)
        requires
            self.wf(),
        ensures
            b.wf(),
            b@ == self@,
    {
        let mut board: Vec<Vec<Option<Piece>>> = Vec::new();
        let mut r: usize = 0;
        while r < self.board.len()
            invariant
                self.wf(),
                r <= self.board.len(),
                board@.len() == r,
                forall|i: int| 0 <= i < r ==> (#[trigger] board@[i])@.len() == self.n_cols,
                forall|i: int, j: int|
                    0 <= i < r && 0 <= j < self.n_cols ==> view_of(#[trigger] board@[i]@[j])
                        == view_of(self.slot(i, j)),
            decreases self.board.len() - r,
        {
            let source = &self.board[r];
            let mut row: Vec<Option<Piece>> = Vec::new();
            let mut c: usize = 0;
            while c < source.len()
                invariant
                    self.wf(),
                    r < self.board.len(),
                    *source == self.board@[r as int],
                    c <= source.len(),
                    row@.len() == c,
                    forall|j: int|
                        0 <= j < c ==> view_of(#[trigger] row@[j]) == view_of(
                            self.slot(r as int, j),
                        ),
                decreases source.len() - c,
            {
                let cell = match &source[c] {
                    Some(piece) => Some(piece.duplicate()),
                    None => None,
                };
                row.push(cell);
                c += 1;
            }
            board.push(row);
            r += 1;
        }
        let b = Board { board, n_rows: self.n_rows, n_cols: self.n_cols, info: self.info.duplicate() };
        proof {
            assert forall|i: int, j: int|
                0 <= i < b.n_rows && 0 <= j < b.n_cols implies b.slot_ok(i, j) by {
                assert(self.slot_ok(i, j));
                assert(view_of(b.board@[i]@[j]) == view_of(self.slot(i, j)));
            }
            b.lemma_view_wf();
            assert forall|c: Coord| b@.cells.dom().contains(c) <==> self@.cells.dom().contains(
                c,
            ) by {
                if 0 <= c.row < self.n_rows && 0 <= c.col < self.n_cols {
                    assert(view_of(b.board@[c.row as int]@[c.col as int]) == view_of(
                        self.slot(c.row as int, c.col as int),
                    ));
                }
            }
            assert forall|c: Coord| b@.cells.dom().contains(c) implies b@.cells[c]
                == self@.cells[c] by {
                assert(view_of(b.board@[c.row as int]@[c.col as int]) == view_of(
                    self.slot(c.row as int, c.col as int),
                ));
            }
            assert(b@.cells =~= self@.cells);
        }
        b
    }

    /// Traversal length along a direction: the rows for north and south, the
    /// columns for east and west, the greater of the two for diagonals.
    pub fn max_cells_direction(&self, direction: &Direction) -> (n: u32)
        ensures
            n == self@.max_cells(*direction),
    {
        match direction {
            Direction::North | Direction::South => self.n_rows,
            Direction::East | Direction::West => self.n_cols,
            _ => if self.n_rows >= self.n_cols {
                self.n_rows
            } else {
                self.n_cols
            },
        }
    }

    /// The row on which a pawn of this colour is promoted.
    pub fn is_promotion_row(&self, row: i32, color: Color) -> (r: bool)
        ensures
            r == self@.is_promotion_row(row as int, color),
    {
        match color {
            Color::White => row == 0,
            Color::Black => row as i64 == self.n_rows as i64 - 1,
        }
    }

    /// The row on which the pawns of this colour start.
    pub fn is_pawn_row(&self, row: i32, color: Color) -> (r: bool)
        ensures
            r == self@.is_pawn_row(row as int, color),
    {
        match color {
            Color::White => row as i64 == self.n_rows as i64 - 2,
            Color::Black => row == 1,
        }
    }
}

} // verus!
