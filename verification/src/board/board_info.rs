use super::Coord;
use crate::piece::Color;
use vstd::prelude::*;

verus! {

/// A castle that is still available: where the king lands, and the rook it
/// castles with.
#[derive(Debug, Clone, Copy, PartialEq, Eq, Structural)]
pub struct CastlingRights {
    /// Cell the king moves to.
    pub new_king: Coord,
    /// Cell the rook stands on.
    pub tower: Coord,
}

/// The castles available to each colour. A colour without an entry has none.
#[derive(Debug, Clone)]
pub struct CastlingTable {
    white: Option<Vec<CastlingRights>>,
    black: Option<Vec<CastlingRights>>,
}

/// The castles available to each colour, as a plain value.
pub struct CastlingView {
    pub white: Option<Seq<CastlingRights>>,
    pub black: Option<Seq<CastlingRights>>,
}

impl CastlingView {
    /// The entry of a colour, if it has one.
    pub open spec fn entry(self, color: Color) -> Option<Seq<CastlingRights>> {
        match color {
            Color::White => self.white,
            Color::Black => self.black,
        }
    }

    /// The castles recorded for a colour, in the order they were recorded.
    pub open spec fn rights(self, color: Color) -> Seq<CastlingRights> {
        match self.entry(color) {
            Some(s) => s,
            None => Seq::empty(),
        }
    }

    /// How many colours have an entry.
    pub open spec fn len(self) -> nat {
        ((if self.white is Some { 1nat } else { 0nat }) + (if self.black is Some { 1nat } else { 0nat })) as nat
    }

    /// The table after one more castle was recorded for a colour.
    pub open spec fn with(self, color: Color, right: CastlingRights) -> CastlingView {
        match color {
            Color::White => CastlingView { white: Some(self.rights(color).push(right)), ..self },
            Color::Black => CastlingView { black: Some(self.rights(color).push(right)), ..self },
        }
    }
}

/// An entry of the table, as a plain value.
pub open spec fn view_entry(e: Option<Vec<CastlingRights>>) -> Option<Seq<CastlingRights>> {
    match e {
        Some(v) => Some(v@),
        None => None,
    }
}

impl View for CastlingTable {
    type V = CastlingView;

    closed spec fn view(&self) -> CastlingView {
        CastlingView { white: view_entry(self.white), black: view_entry(self.black) }
    }
}

fn copy_rights(v: &Vec<CastlingRights>) -> (r: Vec<CastlingRights>)
    ensures
        r@ == v@,
{
    let mut r: Vec<CastlingRights> = Vec::new();
    let mut i: usize = 0;
    while i < v.len()
        invariant
            i <= v.len(),
            r@ == v@.subrange(0, i as int),
        decreases v.len() - i,
    {
        r.push(v[i]);
        assert(v@.subrange(0, i as int).push(v@[i as int]) =~= v@.subrange(0, i + 1));
        i += 1;
    }
    assert(v@.subrange(0, v@.len() as int) =~= v@);
    r
}

fn copy_entry(e: &Option<Vec<CastlingRights>>) -> (r: Option<Vec<CastlingRights>>)
    ensures
        view_entry(r) == view_entry(*e),
{
    match e {
        Some(v) => Some(copy_rights(v)),
        None => None,
    }
}

impl CastlingTable {
    /// A table with no entry.
    pub fn new() -> (t: CastlingTable)
        ensures
            t@.white is None,
            t@.black is None,
    {
        CastlingTable { white: None, black: None }
    }

    /// The number of colours that have an entry.
    pub fn len(&self) -> (n: usize)
        ensures
            n == self@.len(),
    {
        let w: usize = if self.white.is_some() { 1 } else { 0 };
        let b: usize = if self.black.is_some() { 1 } else { 0 };
        w + b
    }

    /// The castles recorded for a colour, or `None` where it has no entry.
    pub fn get(&self, color: &Color) -> (r: Option<&Vec<CastlingRights>>)
        ensures
            r is Some <==> self@.entry(*color) is Some,
            r matches Some(v) ==> self@.entry(*color) == Some(v@),
    {
        match color {
            Color::White => self.white.as_ref(),
            Color::Black => self.black.as_ref(),
        }
    }

    /// Records one more castle for a colour, after those it already has.
    pub fn add(&mut self, color: Color, right: CastlingRights)
        ensures
            final(self)@ == old(self)@.with(color, right),
    {
        match color {
            Color::White => {
                let mut v = match self.white.take() {
                    Some(v) => v,
                    None => Vec::new(),
                };
                v.push(right);
                self.white = Some(v);
            },
            Color::Black => {
                let mut v = match self.black.take() {
                    Some(v) => v,
                    None => Vec::new(),
                };
                v.push(right);
                self.black = Some(v);
            },
        }
    }

    /// A table with the same entries.
    pub fn duplicate(&self) -> (t: CastlingTable)
        ensures
            t@ == self@,
    {
        CastlingTable { white: copy_entry(&self.white), black: copy_entry(&self.black) }
    }
}

/// The state of a game beside the placement of the pieces.
#[derive(Debug, Clone)]
pub struct BoardInfo {
    /// The colour that moves next.
    pub turn: Color,
    /// Where each king may still castle to.
    pub castling: CastlingTable,
    /// The cell a pawn may capture onto in passing, if any.
    pub en_passant: Option<Coord>,
    /// Halfmoves since the last capture or pawn advance.
    pub halfmove_clock: i32,
    /// Starts at 1 and grows after each move of Black.
    pub fullmove_number: i32,
}

/// The state of a game, as a plain value.
pub struct BoardInfoView {
    pub turn: Color,
    pub castling: CastlingView,
    pub en_passant: Option<Coord>,
    pub halfmove_clock: i32,
    pub fullmove_number: i32,
}

impl View for BoardInfo {
    type V = BoardInfoView;

    open spec fn view(&self) -> BoardInfoView {
        BoardInfoView {
            turn: self.turn,
            castling: self.castling@,
            en_passant: self.en_passant,
            halfmove_clock: self.halfmove_clock,
            fullmove_number: self.fullmove_number,
        }
    }
}

impl BoardInfoView {
    /// The state before the first move: White to move, no castle, no cell to
    /// capture onto in passing.
    pub open spec fn initial() -> BoardInfoView {
        BoardInfoView {
            turn: Color::White,
            castling: CastlingView { white: None, black: None },
            en_passant: None,
            halfmove_clock: 0,
            fullmove_number: 1,
        }
    }
}

impl BoardInfo {
    /// The state before the first move.
    pub fn default() -> (info: BoardInfo)
        ensures
            info@ == BoardInfoView::initial(),
    {
        BoardInfo {
            turn: Color::White,
            castling: CastlingTable::new(),
            en_passant: None,
            halfmove_clock: 0,
            fullmove_number: 1,
        }
    }

    /// Hands the move to the other colour and advances the clocks.
    pub fn next_turn(&mut self)
        requires
            old(self).halfmove_clock < i32::MAX,
            old(self).fullmove_number < i32::MAX,
        ensures
            final(self).turn == old(self).turn.other(),
            final(self).halfmove_clock == old(self).halfmove_clock + 1,
            final(self).fullmove_number == old(self).fullmove_number + (if old(self).turn
                == Color::Black {
                1int
            } else {
                0int
            }),
            final(self).castling@ == old(self).castling@,
            final(self).en_passant == old(self).en_passant,
    {
        self.turn = self.turn.opposite();
        if self.turn == Color::White {
            self.fullmove_number += 1;
        }
        self.halfmove_clock += 1;
    }

    /// Sets the halfmove clock back to zero, as after a capture or a pawn
    /// advance.
    pub fn reset_halfmove_clock(&mut self)
        ensures
            final(self)@ == (BoardInfoView { halfmove_clock: 0, ..old(self)@ }),
    {
        self.halfmove_clock = 0;
    }

    /// A record with the same content.
    pub fn duplicate(&self) -> (info: BoardInfo)
        ensures
            info@ == self@,
    {
        BoardInfo {
            turn: self.turn,
            castling: self.castling.duplicate(),
            en_passant: self.en_passant,
            halfmove_clock: self.halfmove_clock,
            fullmove_number: self.fullmove_number,
        }
    }
}

} // verus!
