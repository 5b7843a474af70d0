use super::algebraic::AlgebraicNotation;
use super::text::{
    chars_of, code_of, digit_value, number, parse_number, parts_of, same_text, split, split_chars,
    split_words, words,
};
use crate::board::board_info::{BoardInfoView, CastlingView};
use crate::board::{BoardInfo, CastlingRights, CastlingTable, Coord};
use crate::piece::{Color, Piece, PieceType, PieceView};
use vstd::prelude::*;

verus! {

/// The error of reading a position text: the variant says which part of the
/// text is at fault, the message what is wrong with it.
#[derive(Debug, PartialEq)]
pub enum FenError {
    InvalidFen(String),
    InvalidPiece(String),
    InvalidGameInfo(String),
}

/// The number of columns of the board that the notation describes.
pub const OFFICIAL_BOARD_COLS: i32 = 8;

/// The number of rows of the board that the notation describes.
pub const OFFICIAL_BOARD_ROWS: usize = 8;

/// The position from which a game starts.
pub const INITIAL_BOARD: &'static str = "rnbqkbnr/pppppppp/8/8/8/8/PPPPPPPP/RNBQKBNR w KQkq - 0 1";

/// The shape of a position text: eight rows of pieces and digits, the colour
/// to move, the castles, the cell to capture onto in passing, and two clocks.
pub const FEN_PATTERN: &'static str =
    "^((([pnbrqkPNBRQK1-8]{1,8})/?){8})\\s+(b|w)\\s+(-|K?Q?k?q?)\\s+(-|[a-h][3-6])\\s+(\\d+)\\s+(\\d+)\\s*";

/// What a search for the regular expression `pattern` in `text` finds:
/// whether there is a match, or `None` where `pattern` is not a regular
/// expression.
pub uninterp spec fn regex_match(pattern: Seq<char>, text: Seq<char>) -> Option<bool>;

/// Compiles `pattern` with `regex::Regex::new` and searches `text` with
/// `Regex::is_match`. Both depend on their arguments alone; nothing is
/// claimed of the result beyond its name.
#[verifier::external_body]
fn regex_is_match(pattern: &str, text: &str) -> (r: Option<bool>)
    ensures
        r == regex_match(pattern@, text@),
{
    match regex::Regex::new(pattern) {
        Ok(re) => Some(re.is_match(text)),
        Err(_) => None,
    }
}

/// The text has the shape of a position.
pub open spec fn well_shaped(fen: Seq<char>) -> bool {
    regex_match(FEN_PATTERN@, fen) == Some(true)
}

/// What a search says of the shape of a text: the text has the shape where
/// the pattern could be searched for and was found.
pub fn found_shape(found: Option<bool>) -> (r: bool)
    ensures
        r == (found == Some(true)),
{
    match found {
        Some(found) => found,
        None => false,
    }
}

/// Does the text have the shape of a position?
pub fn is_valid(fen: &str) -> (r: bool)
    ensures
        r == well_shaped(fen@),
{
    found_shape(regex_is_match(FEN_PATTERN, fen))
}

/// Why a text is not a position.
#[derive(Debug, Clone, Copy, PartialEq, Eq, Structural)]
pub enum FenFault {
    /// The text does not have the shape of a position.
    Shape,
    /// No row of pieces comes before the state of the game.
    NoRows,
    /// The state of the game does not have five fields.
    InfoCount,
    Turn,
    Castling,
    EnPassant,
    HalfmoveClock,
    FullmoveNumber,
    /// There are more rows than the board has.
    TooManyRows,
    /// A character in a row is neither a digit nor a piece.
    Piece,
    /// A row does not fill the columns of the board exactly.
    RowWidth,
}

impl FenFault {
    /// The message that reports this fault.
    pub open spec fn message(self) -> Seq<char> {
        match self {
            FenFault::Shape => "Invalid FEN"@,
            FenFault::NoRows => "Invalid FEN, no row of pieces"@,
            FenFault::InfoCount => "Incorrect number of game info, expected 5"@,
            FenFault::Turn => "Invalid turn"@,
            FenFault::Castling => "Invalid castling right"@,
            FenFault::EnPassant => "Invalid en passant"@,
            FenFault::HalfmoveClock => "Invalid halfmove clock"@,
            FenFault::FullmoveNumber => "Invalid fullmove number"@,
            FenFault::TooManyRows => "Invalid FEN, too many rows"@,
            FenFault::Piece => "Invalid piece"@,
            FenFault::RowWidth => "Invalid FEN, a row does not have 8 columns"@,
        }
    }

    /// `e` is the error that reports this fault: the variant says which part
    /// of the text is at fault, the message what is wrong with it.
    pub open spec fn is_reported_by(self, e: FenError) -> bool {
        match self {
            FenFault::Shape | FenFault::NoRows | FenFault::TooManyRows | FenFault::RowWidth => e matches FenError::InvalidFen(
                m,
            ) && m@ == self.message(),
            FenFault::Piece => e matches FenError::InvalidPiece(m) && m@ == self.message(),
            _ => e matches FenError::InvalidGameInfo(m) && m@ == self.message(),
        }
    }

    /// The error that reports this fault.
    pub fn report(self) -> (e: FenError)
        ensures
            self.is_reported_by(e),
    {
        match self {
            FenFault::Shape => FenError::InvalidFen("Invalid FEN".to_string()),
            FenFault::NoRows => FenError::InvalidFen("Invalid FEN, no row of pieces".to_string()),
            FenFault::InfoCount => FenError::InvalidGameInfo(
                "Incorrect number of game info, expected 5".to_string(),
            ),
            FenFault::Turn => FenError::InvalidGameInfo("Invalid turn".to_string()),
            FenFault::Castling => FenError::InvalidGameInfo("Invalid castling right".to_string()),
            FenFault::EnPassant => FenError::InvalidGameInfo("Invalid en passant".to_string()),
            FenFault::HalfmoveClock => FenError::InvalidGameInfo(
                "Invalid halfmove clock".to_string(),
            ),
            FenFault::FullmoveNumber => FenError::InvalidGameInfo(
                "Invalid fullmove number".to_string(),
            ),
            FenFault::TooManyRows => FenError::InvalidFen("Invalid FEN, too many rows".to_string()),
            FenFault::Piece => FenError::InvalidPiece("Invalid piece".to_string()),
            FenFault::RowWidth => FenError::InvalidFen(
                "Invalid FEN, a row does not have 8 columns".to_string(),
            ),
        }
    }
}

/// The pieces that a sequence holds, as plain values.
pub open spec fn piece_views(pieces: Seq<Piece>) -> Seq<PieceView> {
    pieces.map_values(|p: Piece| p@)
}

/// The colour and kind of the piece that a letter stands for: upper case for
/// White, lower case for Black.
pub open spec fn piece_kind(c: char) -> Option<(Color, PieceType)> {
    if c == 'p' {
        Some((Color::Black, PieceType::Pawn))
    } else if c == 'n' {
        Some((Color::Black, PieceType::Knight))
    } else if c == 'b' {
        Some((Color::Black, PieceType::Bishop))
    } else if c == 'r' {
        Some((Color::Black, PieceType::Rook))
    } else if c == 'q' {
        Some((Color::Black, PieceType::Queen))
    } else if c == 'k' {
        Some((Color::Black, PieceType::King))
    } else if c == 'P' {
        Some((Color::White, PieceType::Pawn))
    } else if c == 'N' {
        Some((Color::White, PieceType::Knight))
    } else if c == 'B' {
        Some((Color::White, PieceType::Bishop))
    } else if c == 'R' {
        Some((Color::White, PieceType::Rook))
    } else if c == 'Q' {
        Some((Color::White, PieceType::Queen))
    } else if c == 'K' {
        Some((Color::White, PieceType::King))
    } else {
        None
    }
}

/// The piece that a letter puts on a cell.
pub fn char_to_piece(c: char, row: i32, col: i32) -> (r: Result<Piece, FenError>)
    ensures
        match piece_kind(c) {
            Some((color, kind)) => r matches Ok(p) && p@ == PieceView::standard(
                color,
                kind,
                Coord { row, col },
            ),
            None => r matches Err(e) && FenFault::Piece.is_reported_by(e),
        },
{
    let coord = Coord { row, col };
    let piece = if c == 'p' {
        Piece::new_pawn(Color::Black, coord)
    } else if c == 'n' {
        Piece::new_knight(Color::Black, coord)
    } else if c == 'b' {
        Piece::new_bishop(Color::Black, coord)
    } else if c == 'r' {
        Piece::new_rook(Color::Black, coord)
    } else if c == 'q' {
        Piece::new_queen(Color::Black, coord)
    } else if c == 'k' {
        Piece::new_king(Color::Black, coord)
    } else if c == 'P' {
        Piece::new_pawn(Color::White, coord)
    } else if c == 'N' {
        Piece::new_knight(Color::White, coord)
    } else if c == 'B' {
        Piece::new_bishop(Color::White, coord)
    } else if c == 'R' {
        Piece::new_rook(Color::White, coord)
    } else if c == 'Q' {
        Piece::new_queen(Color::White, coord)
    } else if c == 'K' {
        Piece::new_king(Color::White, coord)
    } else {
        return Err(FenFault::Piece.report());
    };
    Ok(piece)
}

/// The reading of the first `n` characters of a row: the pieces met so far
/// and the number of columns they and the digits fill, or the fault met.
pub open spec fn row_state(row: Seq<char>, r: int, n: int) -> Result<(Seq<PieceView>, int), FenFault>
    decreases n,
{
    if n <= 0 {
        Ok((Seq::empty(), 0))
    } else {
        match row_state(row, r, n - 1) {
            Err(e) => Err(e),
            Ok((pieces, col)) => match digit_value(row[n - 1]) {
                Some(d) => Ok((pieces, col + d)),
                None => match piece_kind(row[n - 1]) {
                    Some((color, kind)) => Ok(
                        (
                            pieces.push(
                                PieceView::standard(
                                    color,
                                    kind,
                                    Coord { row: r as i32, col: col as i32 },
                                ),
                            ),
                            col + 1,
                        ),
                    ),
                    None => Err(FenFault::Piece),
                },
            },
        }
    }
}

/// The pieces of a row: a digit leaves that many columns empty, a letter puts
/// a piece on the next column, and the row must fill eight columns.
pub open spec fn row_pieces(row: Seq<char>, r: int) -> Result<Seq<PieceView>, FenFault> {
    match row_state(row, r, row.len() as int) {
        Err(e) => Err(e),
        Ok((pieces, col)) => if col == OFFICIAL_BOARD_COLS {
            Ok(pieces)
        } else {
            Err(FenFault::RowWidth)
        },
    }
}

/// The pieces of the first `n` rows, in the order of the text.
pub open spec fn rows_pieces(rows: Seq<Seq<char>>, n: int) -> Result<Seq<PieceView>, FenFault>
    decreases n,
{
    if n <= 0 {
        Ok(Seq::empty())
    } else {
        match rows_pieces(rows, n - 1) {
            Err(e) => Err(e),
            Ok(pieces) => match row_pieces(rows[n - 1], n - 1) {
                Err(e) => Err(e),
                Ok(more) => Ok(pieces + more),
            },
        }
    }
}

/// The castle that a letter grants: `K` and `Q` to White on the side of the
/// king and of the queen, `k` and `q` to Black.
pub open spec fn castling_right(c: char) -> Option<(Color, CastlingRights)> {
    if c == 'K' {
        Some(
            (
                Color::White,
                CastlingRights { new_king: Coord { row: 7, col: 6 }, tower: Coord { row: 7, col: 7 } },
            ),
        )
    } else if c == 'Q' {
        Some(
            (
                Color::White,
                CastlingRights { new_king: Coord { row: 7, col: 2 }, tower: Coord { row: 7, col: 0 } },
            ),
        )
    } else if c == 'k' {
        Some(
            (
                Color::Black,
                CastlingRights { new_king: Coord { row: 0, col: 6 }, tower: Coord { row: 0, col: 7 } },
            ),
        )
    } else if c == 'q' {
        Some(
            (
                Color::Black,
                CastlingRights { new_king: Coord { row: 0, col: 2 }, tower: Coord { row: 0, col: 0 } },
            ),
        )
    } else {
        None
    }
}

/// The reading of the first `n` characters of the castling field: the table
/// so far and whether a `-` has ended the reading, or the fault met.
pub open spec fn castling_state(field: Seq<char>, n: int) -> Result<(CastlingView, bool), FenFault>
    decreases n,
{
    if n <= 0 {
        Ok((CastlingView { white: None, black: None }, false))
    } else {
        match castling_state(field, n - 1) {
            Err(e) => Err(e),
            Ok((table, ended)) => if ended {
                Ok((table, ended))
            } else if field[n - 1] == '-' {
                Ok((table, true))
            } else {
                match castling_right(field[n - 1]) {
                    Some((color, right)) => Ok((table.with(color, right), false)),
                    None => Err(FenFault::Castling),
                }
            },
        }
    }
}

/// The state of the game that the words after the rows spell.
pub open spec fn game_info(fields: Seq<Seq<char>>) -> Result<BoardInfoView, FenFault> {
    if fields.len() != 5 {
        Err(FenFault::InfoCount)
    } else if fields[0] != "w"@ && fields[0] != "b"@ {
        Err(FenFault::Turn)
    } else {
        match castling_state(fields[1], fields[1].len() as int) {
            Err(e) => Err(e),
            Ok((castling, _)) => {
                let passant = (AlgebraicNotation { rows: 8, cols: 8 }).named(fields[2]);
                if fields[2] != "-"@ && passant is Err {
                    Err(FenFault::EnPassant)
                } else if number(fields[3]) is None {
                    Err(FenFault::HalfmoveClock)
                } else if number(fields[4]) is None {
                    Err(FenFault::FullmoveNumber)
                } else {
                    Ok(
                        BoardInfoView {
                            turn: if fields[0] == "w"@ {
                                Color::White
                            } else {
                                Color::Black
                            },
                            castling,
                            en_passant: if fields[2] == "-"@ {
                                None
                            } else {
                                Some(passant->Ok_0)
                            },
                            halfmove_clock: number(fields[3])->0,
                            fullmove_number: number(fields[4])->0,
                        },
                    )
                }
            },
        }
    }
}

/// The pieces and the state of the game that a text describes. The rows are
/// parted by `/`; the last of them is followed, after white space, by the
/// five fields of the state.
pub open spec fn parsed(fen: Seq<char>) -> Result<(Seq<PieceView>, BoardInfoView), FenFault> {
    let parts = split(fen, '/');
    let tail = words(parts.last());
    if tail.len() == 0 {
        Err(FenFault::NoRows)
    } else {
        let rows = parts.drop_last().push(tail[0]);
        match game_info(tail.skip(1)) {
            Err(e) => Err(e),
            Ok(info) => if rows.len() > OFFICIAL_BOARD_ROWS {
                Err(FenFault::TooManyRows)
            } else {
                match rows_pieces(rows, rows.len() as int) {
                    Err(e) => Err(e),
                    Ok(pieces) => Ok((pieces, info)),
                }
            },
        }
    }
}

/// What reading a text gives: what it describes where it has the shape of a
/// position, the fault of its shape otherwise.
pub open spec fn outcome(fen: Seq<char>, shaped: bool) -> Result<(Seq<PieceView>, BoardInfoView), FenFault> {
    if shaped {
        parsed(fen)
    } else {
        Err(FenFault::Shape)
    }
}

/// Every piece stands on the board of eight by eight cells.
pub open spec fn on_official_board(pieces: Seq<PieceView>) -> bool {
    forall|i: int|
        0 <= i < pieces.len() ==> 0 <= (#[trigger] pieces[i]).coord.row < 8 && 0
            <= pieces[i].coord.col < 8
}

proof fn lemma_row_fault_stays(row: Seq<char>, r: int, n: int, m: int)
    requires
        0 <= n <= m,
        row_state(row, r, n) is Err,
    ensures
        row_state(row, r, m) == row_state(row, r, n),
    decreases m - n,
{
    if n < m {
        lemma_row_fault_stays(row, r, n, m - 1);
    }
}

proof fn lemma_row_width_nonneg(row: Seq<char>, r: int, n: int)
    requires
        row_state(row, r, n) is Ok,
    ensures
        0 <= row_state(row, r, n)->Ok_0.1,
    decreases n,
{
    if n > 0 {
        lemma_row_width_nonneg(row, r, n - 1);
    }
}

proof fn lemma_rows_fault_stays(rows: Seq<Seq<char>>, n: int, m: int)
    requires
        0 <= n <= m,
        rows_pieces(rows, n) is Err,
    ensures
        rows_pieces(rows, m) == rows_pieces(rows, n),
    decreases m - n,
{
    if n < m {
        lemma_rows_fault_stays(rows, n, m - 1);
    }
}

proof fn lemma_castling_fault_stays(field: Seq<char>, n: int, m: int)
    requires
        0 <= n <= m,
        castling_state(field, n) is Err,
    ensures
        castling_state(field, m) == castling_state(field, n),
    decreases m - n,
{
    if n < m {
        lemma_castling_fault_stays(field, n, m - 1);
    }
}

proof fn lemma_castling_end_stays(field: Seq<char>, n: int, m: int)
    requires
        0 <= n <= m,
        castling_state(field, n) matches Ok(s) && s.1,
    ensures
        castling_state(field, m) == castling_state(field, n),
    decreases m - n,
{
    if n < m {
        lemma_castling_end_stays(field, n, m - 1);
    }
}

/// Reads one row of pieces and adds them to `pieces`.
fn parse_row(row: &Vec<char>, row_idx: i32, pieces: &mut Vec<Piece>) -> (r: Result<(), FenError>)
    requires
        0 <= row_idx < 8,
        on_official_board(piece_views(old(pieces)@)),
    ensures
        match row_pieces(row@, row_idx as int) {
            Ok(more) => r is Ok && piece_views(final(pieces)@) == piece_views(old(pieces)@) + more
                && on_official_board(piece_views(final(pieces)@)),
            Err(f) => r matches Err(e) && f.is_reported_by(e),
        },
{
    let ghost before = piece_views(pieces@);
    let mut col: i32 = 0;
    let mut i: usize = 0;
    assert(piece_views(pieces@) =~= before + Seq::<PieceView>::empty());
    while i < row.len()
        invariant
            0 <= row_idx < 8,
            i <= row.len(),
            0 <= col <= 9,
            on_official_board(before),
            row_state(row@, row_idx as int, i as int) matches Ok(s) && (if s.1 <= 8 {
                col == s.1 && piece_views(pieces@) == before + s.0 && on_official_board(
                    piece_views(pieces@),
                )
            } else {
                col == 9
            }),
        decreases row.len() - i,
    {
        let c = row[i];
        let ghost held = piece_views(pieces@);
        let ghost s = row_state(row@, row_idx as int, i as int)->Ok_0;
        proof {
            lemma_row_width_nonneg(row@, row_idx as int, i as int);
        }
        if '0' <= c && c <= '9' {
            let d: i32 = (code_of(c) - code_of('0')) as i32;
            assert(digit_value(c) == Some(d as int));
            col = if col + d > 9 {
                9
            } else {
                col + d
            };
        } else {
            match char_to_piece(c, row_idx, col) {
                Ok(piece) => {
                    let ghost added = piece@;
                    pieces.push(piece);
                    proof {
                        assert(piece_views(pieces@) =~= held.push(added));
                        if s.1 <= 7 {
                            assert(before + s.0.push(added) =~= (before + s.0).push(added));
                            assert forall|j: int| 0 <= j < piece_views(pieces@).len() implies 0 <= (
                            #[trigger] piece_views(pieces@)[j]).coord.row < 8 && 0 <= piece_views(
                                pieces@,
                            )[j].coord.col < 8 by {
                                if j < held.len() {
                                    assert(piece_views(pieces@)[j] == held[j]);
                                }
                            }
                        }
                    }
                    col = if col + 1 > 9 {
                        9
                    } else {
                        col + 1
                    };
                },
                Err(e) => {
                    proof {
                        lemma_row_fault_stays(row@, row_idx as int, i + 1, row@.len() as int);
                    }
                    return Err(e);
                },
            }
        }
        i += 1;
    }
    if col != OFFICIAL_BOARD_COLS {
        return Err(FenFault::RowWidth.report());
    }
    Ok(())
}

/// Reads the castles that the castling field grants.
fn parse_castling(field: &Vec<char>) -> (r: Result<CastlingTable, FenError>)
    ensures
        match castling_state(field@, field@.len() as int) {
            Ok(s) => r matches Ok(t) && t@ == s.0,
            Err(f) => r matches Err(e) && f.is_reported_by(e),
        },
{
    let mut table = CastlingTable::new();
    let mut i: usize = 0;
    while i < field.len()
        invariant
            i <= field.len(),
            castling_state(field@, i as int) == Ok::<(CastlingView, bool), FenFault>(
                (table@, false),
            ),
        decreases field.len() - i,
    {
        let c = field[i];
        let (color, new_king, tower) = if c == 'K' {
            (Color::White, Coord { row: 7, col: 6 }, Coord { row: 7, col: 7 })
        } else if c == 'Q' {
            (Color::White, Coord { row: 7, col: 2 }, Coord { row: 7, col: 0 })
        } else if c == 'k' {
            (Color::Black, Coord { row: 0, col: 6 }, Coord { row: 0, col: 7 })
        } else if c == 'q' {
            (Color::Black, Coord { row: 0, col: 2 }, Coord { row: 0, col: 0 })
        } else if c == '-' {
            proof {
                lemma_castling_end_stays(field@, i + 1, field@.len() as int);
            }
            return Ok(table);
        } else {
            proof {
                lemma_castling_fault_stays(field@, i + 1, field@.len() as int);
            }
            return Err(FenFault::Castling.report());
        };
        table.add(color, CastlingRights { new_king, tower });
        i += 1;
    }
    Ok(table)
}

/// Reads the state of the game from the five words that follow the rows.
pub fn parse_board_info(fields: &Vec<Vec<char>>) -> (r: Result<BoardInfo, FenError>)
    ensures
        match game_info(parts_of(fields@)) {
            Ok(info) => r matches Ok(i) && i@ == info,
            Err(f) => r matches Err(e) && f.is_reported_by(e),
        },
{
    if fields.len() != 5 {
        return Err(FenFault::InfoCount.report());
    }
    assert(parts_of(fields@)[0] == fields@[0]@);
    assert(parts_of(fields@)[1] == fields@[1]@);
    assert(parts_of(fields@)[2] == fields@[2]@);
    assert(parts_of(fields@)[3] == fields@[3]@);
    assert(parts_of(fields@)[4] == fields@[4]@);
    let turn = if same_text(&fields[0], "w") {
        Color::White
    } else if same_text(&fields[0], "b") {
        Color::Black
    } else {
        return Err(FenFault::Turn.report());
    };
    let castling = match parse_castling(&fields[1]) {
        Ok(table) => table,
        Err(e) => {
            return Err(e);
        },
    };
    let alg_parser = AlgebraicNotation { rows: 8, cols: 8 };
    let en_passant = if same_text(&fields[2], "-") {
        None
    } else {
        match alg_parser.cell_from_chars(&fields[2]) {
            Ok(coord) => Some(coord),
            Err(_) => {
                return Err(FenFault::EnPassant.report());
            },
        }
    };
    let halfmove_clock = match parse_number(&fields[3]) {
        Some(n) => n,
        None => {
            return Err(FenFault::HalfmoveClock.report());
        },
    };
    let fullmove_number = match parse_number(&fields[4]) {
        Some(n) => n,
        None => {
            return Err(FenFault::FullmoveNumber.report());
        },
    };
    Ok(BoardInfo { turn, castling, en_passant, halfmove_clock, fullmove_number })
}

/// Reads a position whose shape has been tested: `shaped` says whether the
/// text has the shape of a position.
pub fn parse_checked(fen: &str, shaped: bool) -> (r: Result<(Vec<Piece>, BoardInfo), FenError>)
    ensures
        match outcome(fen@, shaped) {
            Ok((pieces, info)) => r matches Ok(found) && piece_views(found.0@) == pieces
                && found.1@ == info && on_official_board(pieces),
            Err(f) => r matches Err(e) && f.is_reported_by(e),
        },
{
    if !shaped {
        return Err(FenFault::Shape.report());
    }
    let chars = chars_of(fen);
    let mut parts = split_chars(&chars, '/');
    let ghost all_parts = parts_of(parts@);
    assert(parts@.len() == all_parts.len());
    let last = match parts.pop() {
        Some(last) => last,
        None => {
            return Err(FenFault::NoRows.report());
        },
    };
    assert(last@ == all_parts.last());
    assert(parts_of(parts@) =~= all_parts.drop_last());
    let mut tail = split_words(&last);
    if tail.len() == 0 {
        return Err(FenFault::NoRows.report());
    }
    let ghost all_tail = parts_of(tail@);
    let first = tail.remove(0);
    assert(first@ == all_tail[0]);
    assert(parts_of(tail@) =~= all_tail.skip(1));
    let ghost before = parts_of(parts@);
    parts.push(first);
    assert(parts_of(parts@) =~= before.push(first@));
    let ghost rows = parts_of(parts@);
    let board_info = match parse_board_info(&tail) {
        Ok(info) => info,
        Err(e) => {
            return Err(e);
        },
    };
    if parts.len() > OFFICIAL_BOARD_ROWS {
        return Err(FenFault::TooManyRows.report());
    }
    let mut pieces: Vec<Piece> = Vec::new();
    let mut row_idx: usize = 0;
    assert(piece_views(pieces@) =~= Seq::<PieceView>::empty());
    assert(outcome(fen@, shaped) == match rows_pieces(rows, rows.len() as int) {
        Err(e) => Err::<(Seq<PieceView>, BoardInfoView), FenFault>(e),
        Ok(found) => Ok((found, board_info@)),
    });
    while row_idx < parts.len()
        invariant
            row_idx <= parts.len() <= 8,
            rows == parts_of(parts@),
            outcome(fen@, shaped) == match rows_pieces(rows, rows.len() as int) {
                Err(e) => Err::<(Seq<PieceView>, BoardInfoView), FenFault>(e),
                Ok(found) => Ok((found, board_info@)),
            },
            rows_pieces(rows, row_idx as int) == Ok::<Seq<PieceView>, FenFault>(
                piece_views(pieces@),
            ),
            on_official_board(piece_views(pieces@)),
        decreases parts.len() - row_idx,
    {
        assert(rows[row_idx as int] == parts@[row_idx as int]@);
        match parse_row(&parts[row_idx], row_idx as i32, &mut pieces) {
            Ok(()) => {},
            Err(e) => {
                proof {
                    assert(rows.len() == parts@.len());
                    assert(row_pieces(rows[row_idx as int], row_idx as int) is Err);
                    assert(rows_pieces(rows, row_idx + 1) is Err);
                    lemma_rows_fault_stays(rows, row_idx + 1, rows.len() as int);
                }
                return Err(e);
            },
        }
        row_idx += 1;
    }
    Ok((pieces, board_info))
}

/// Reads a position: the pieces in the order of the text, and the state of
/// the game.
pub fn parse(fen: &str) -> (r: Result<(Vec<Piece>, BoardInfo), FenError>)
    ensures
        match outcome(fen@, well_shaped(fen@)) {
            Ok((pieces, info)) => r matches Ok(found) && piece_views(found.0@) == pieces
                && found.1@ == info && on_official_board(pieces),
            Err(f) => r matches Err(e) && f.is_reported_by(e),
        },
{
    let shaped = is_valid(fen);
    parse_checked(fen, shaped)
}

} // verus!
