use crate::board::model::BoardView;
use crate::board::{Board, Coord, HasCoordinates};
use crate::moves::util::extend_unique;
use crate::moves::{Castle, Diagonal, Jump, Line, Move, PawnMove};
use vstd::prelude::*;

verus! {

#[derive(Debug, PartialEq, Clone, Copy, Eq, Hash, Structural)]
pub enum Color {
    White,
    Black,
}

impl Color {
    /// The other of the two colours.
    pub open spec fn other(self) -> Color {
        match self {
            Color::White => Color::Black,
            Color::Black => Color::White,
        }
    }

    /// The colour of the other side.
    pub fn opposite(&self) -> (c: Color)
        ensures
            c == self.other(),
    {
        match self {
            Color::White => Color::Black,
            Color::Black => Color::White,
        }
    }
}

#[derive(Debug, PartialEq, Clone, Copy, Eq, Hash, Structural)]
pub enum PieceType {
    King,
    Queen,
    Rook,
    Bishop,
    Knight,
    Pawn,
}

/// A coloured unit on a cell, with the movement rules it follows.
#[derive(Debug, Clone)]
pub struct Piece {
    pub color: Color,
    pub piece: PieceType,
    pub coord: Coord,
    pub moves: Vec<Move>,
    /// Set once the piece has been moved by a rule.
    pub has_moved: bool,
}

/// What a piece is, as a plain value.
pub struct PieceView {
    pub color: Color,
    pub piece: PieceType,
    pub coord: Coord,
    pub moves: Seq<Move>,
    pub has_moved: bool,
}

impl View for Piece {
    type V = PieceView;

    open spec fn view(&self) -> PieceView {
        PieceView {
            color: self.color,
            piece: self.piece,
            coord: self.coord,
            moves: self.moves@,
            has_moved: self.has_moved,
        }
    }
}

/// The rules that a piece of a kind follows.
pub open spec fn rules_of(kind: PieceType) -> Seq<Move> {
    match kind {
        PieceType::Rook => seq![Move::Line(Line { max_range: None })],
        PieceType::Bishop => seq![Move::Diagonal(Diagonal { max_range: None })],
        PieceType::Queen => seq![
            Move::Line(Line { max_range: None }),
            Move::Diagonal(Diagonal { max_range: None }),
        ],
        PieceType::King => seq![
            Move::Line(Line { max_range: Some(1) }),
            Move::Diagonal(Diagonal { max_range: Some(1) }),
            Move::Castle(Castle { movement: Line { max_range: Some(2) } }),
        ],
        PieceType::Pawn => seq![Move::Pawn(PawnMove {  })],
        PieceType::Knight => seq![Move::Jump(Jump { first: 2, second: 1 })],
    }
}

impl PieceView {
    /// A piece of a kind that follows the rules of its kind and has not moved.
    pub open spec fn standard(color: Color, kind: PieceType, coord: Coord) -> PieceView {
        PieceView { color, piece: kind, coord, moves: rules_of(kind), has_moved: false }
    }

    /// The same piece standing on another cell.
    pub open spec fn at(self, coord: Coord) -> PieceView {
        PieceView { coord, ..self }
    }

    /// One of the rules of the piece lets what stands on its cell go to `to`.
    pub open spec fn can_move(self, b: BoardView, to: Coord) -> bool {
        exists|i: int| 0 <= i < self.moves.len() && (#[trigger] self.moves[i]).allows(b, self.coord, to)
    }

    /// One of the first `n` rules of the piece lets what stands on its cell
    /// go to `to`.
    pub open spec fn can_move_by(self, b: BoardView, to: Coord, n: int) -> bool {
        exists|i: int| 0 <= i < n && (#[trigger] self.moves[i]).allows(b, self.coord, to)
    }

    /// Where a rule of the piece is a castle, the king that its evaluation
    /// asks for stands on the board.
    pub open spec fn kings_present(self, b: BoardView, to: Option<Coord>) -> bool {
        forall|i: int|
            0 <= i < self.moves.len() ==> (#[trigger] self.moves[i]).kings_present(b, self.coord, to)
    }

    /// One of the rules of the piece lets what stands on its cell capture on
    /// `to`.
    pub open spec fn attacks(self, b: BoardView, to: Coord) -> bool {
        exists|i: int| 0 <= i < self.moves.len() && (#[trigger] self.moves[i]).attacks(b, self.coord, to)
    }
}

fn copy_moves(v: &Vec<Move>) -> (r: Vec<Move>)
    ensures
        r@ == v@,
{
    let mut r: Vec<Move> = Vec::new();
    let mut i: usize = 0;
    while i < v.len()
        invariant
            i <= v.len(),
            r@ == v@.subrange(0, i as int),
        decreases v.len() - i,
    {
        r.push(v[i]);
        assert(v@.subrange(0, i as int).push(v@[i as int]) =~= v@.subrange(0, i + 1));
        i += 1;
    }
    assert(v@.subrange(0, v@.len() as int) =~= v@);
    r
}

impl Piece {
    /// A piece that has not moved yet.
    pub fn new(color: Color, piece: PieceType, moves: Vec<Move>, coord: Coord) -> (p: Piece)
        ensures
            p@ == (PieceView { color, piece, coord, moves: moves@, has_moved: false }),
    {
        Piece { color, piece, coord, moves, has_moved: false }
    }

    /// A rook: it slides along rows and columns.
    pub fn new_rook(color: Color, coord: Coord) -> (p: Piece)
        ensures
            p@ == PieceView::standard(color, PieceType::Rook, coord),
    {
        let moves = vec![Move::Line(Line::new(None))];
        assert(moves@ =~= seq![Move::Line(Line { max_range: None })]);
        Self::new(color, PieceType::Rook, moves, coord)
    }

    /// A bishop: it slides along diagonals.
    pub fn new_bishop(color: Color, coord: Coord) -> (p: Piece)
        ensures
            p@ == PieceView::standard(color, PieceType::Bishop, coord),
    {
        let moves = vec![Move::Diagonal(Diagonal::new(None))];
        assert(moves@ =~= seq![Move::Diagonal(Diagonal { max_range: None })]);
        Self::new(color, PieceType::Bishop, moves, coord)
    }

    /// A queen: it slides along rows, columns and diagonals.
    pub fn new_queen(color: Color, coord: Coord) -> (p: Piece)
        ensures
            p@ == PieceView::standard(color, PieceType::Queen, coord),
    {
        let moves = vec![Move::Line(Line::new(None)), Move::Diagonal(Diagonal::new(None))];
        assert(moves@ =~= seq![
            Move::Line(Line { max_range: None }),
            Move::Diagonal(Diagonal { max_range: None }),
        ]);
        Self::new(color, PieceType::Queen, moves, coord)
    }

    /// A king: one cell along a row, a column or a diagonal, or a castle.
    pub fn new_king(color: Color, coord: Coord) -> (p: Piece)
        ensures
            p@ == PieceView::standard(color, PieceType::King, coord),
    {
        let moves = vec![
            Move::Line(Line::new(Some(1))),
            Move::Diagonal(Diagonal::new(Some(1))),
            Move::Castle(Castle::new(Some(2))),
        ];
        assert(moves@ =~= seq![
            Move::Line(Line { max_range: Some(1) }),
            Move::Diagonal(Diagonal { max_range: Some(1) }),
            Move::Castle(Castle { movement: Line { max_range: Some(2) } }),
        ]);
        Self::new(color, PieceType::King, moves, coord)
    }

    /// A pawn.
    pub fn new_pawn(color: Color, coord: Coord) -> (p: Piece)
        ensures
            p@ == PieceView::standard(color, PieceType::Pawn, coord),
    {
        let moves = vec![Move::Pawn(PawnMove::new())];
        assert(moves@ =~= seq![Move::Pawn(PawnMove {  })]);
        Self::new(color, PieceType::Pawn, moves, coord)
    }

    /// A knight: it leaps two cells one way and one cell the other.
    pub fn new_knight(color: Color, coord: Coord) -> (p: Piece)
        ensures
            p@ == PieceView::standard(color, PieceType::Knight, coord),
    {
        let moves = vec![Move::Jump(Jump::default())];
        assert(moves@ =~= seq![Move::Jump(Jump { first: 2, second: 1 })]);
        Self::new(color, PieceType::Knight, moves, coord)
    }

    /// Does one of the rules of the piece let it go to `coord`?
    pub fn can_move(&self, coord: Coord, board: &Board) -> (r: bool)
        requires
            board.wf(),
            self@.kings_present(board@, Some(coord)),
        ensures
            r == self@.can_move(board@, coord),
    {
        let mut i: usize = 0;
        while i < self.moves.len()
            invariant
                board.wf(),
                self@.kings_present(board@, Some(coord)),
                i <= self.moves.len(),
                forall|j: int|
                    0 <= j < i ==> !(#[trigger] self.moves@[j]).allows(board@, self.coord, coord),
            decreases self.moves.len() - i,
        {
            assert(self@.moves[i as int].kings_present(board@, self@.coord, Some(coord)));
            if self.moves[i].is_move_valid(self.coord, coord, board) {
                assert(self@.moves[i as int].allows(board@, self@.coord, coord));
                return true;
            }
            i += 1;
        }
        false
    }

    /// The cells the rules of the piece let it go to, each once.
    pub fn get_moves(&self, board: &Board) -> (cells: Vec<Coord>)
        requires
            board.wf(),
            self@.kings_present(board@, None),
        ensures
            cells@.no_duplicates(),
            forall|to: Coord| cells@.contains(to) <==> self@.can_move(board@, to),
    {
        let mut cells: Vec<Coord> = Vec::new();
        let mut i: usize = 0;
        while i < self.moves.len()
            invariant
                board.wf(),
                self@.kings_present(board@, None),
                i <= self.moves.len(),
                cells@.no_duplicates(),
                forall|to: Coord| #[trigger]
                    cells@.contains(to) <==> self@.can_move_by(board@, to, i as int),
            decreases self.moves.len() - i,
        {
            assert(self@.moves[i as int].kings_present(board@, self@.coord, None));
            let offered = self.moves[i].allowed_moves(self.coord, board);
            let ghost before = cells@;
            extend_unique(&mut cells, &offered);
            proof {
                assert forall|to: Coord| #[trigger]
                    cells@.contains(to) <==> self@.can_move_by(board@, to, i + 1) by {
                    assert(before.contains(to) <==> self@.can_move_by(board@, to, i as int));
                    assert(offered@.contains(to) <==> self@.moves[i as int].allows(
                        board@,
                        self@.coord,
                        to,
                    ));
                    if self@.can_move_by(board@, to, i as int) {
                        let j = choose|j: int|
                            0 <= j < i && (#[trigger] self@.moves[j]).allows(
                                board@,
                                self@.coord,
                                to,
                            );
                        assert(0 <= j < i + 1);
                    }
                }
            }
            i += 1;
        }
        cells
    }

    /// Does one of the rules of the piece let it capture on `coord`?
    pub fn can_attack(&self, coord: Coord, board: &Board) -> (r: bool)
        requires
            board.wf(),
        ensures
            r == self@.attacks(board@, coord),
    {
        let mut i: usize = 0;
        while i < self.moves.len()
            invariant
                board.wf(),
                i <= self.moves.len(),
                forall|j: int|
                    0 <= j < i ==> !(#[trigger] self.moves@[j]).attacks(board@, self.coord, coord),
            decreases self.moves.len() - i,
        {
            if self.moves[i].can_attack(self.coord, coord, board) {
                assert(self@.moves[i as int].attacks(board@, self@.coord, coord));
                return true;
            }
            i += 1;
        }
        false
    }

    /// A piece with the same content.
    pub fn duplicate(&self) -> (p: Piece)
        ensures
            p@ == self@,
    {
        Piece {
            color: self.color,
            piece: self.piece,
            coord: self.coord,
            moves: copy_moves(&self.moves),
            has_moved: self.has_moved,
        }
    }
}

impl HasCoordinates for Piece {
    open spec fn coordinates(&self) -> Coord {
        self.coord
    }

    fn get_coordinates(&self) -> (c: Coord) {
        self.coord
    }
}

} // verus!
