use chess_model::board::{Board, Coord};
use chess_model::notation::fen::{
    char_to_piece, found_shape, is_valid, parse, parse_board_info, parse_checked, FenError,
    INITIAL_BOARD,
};
use chess_model::notation::text::{chars_of, parse_number, split_chars, split_words};
use chess_model::piece::{Color, PieceType};

#[test]
fn test_fen_regex() {
    let fen = INITIAL_BOARD;
    assert!(is_valid(fen), "Fen is valid");

    // invalid fen with a space instead of a p
    let fen = "rnbqkbnr/pppppxpp/8/8/8/8/PPPPPPPP/RNBQKBNR w KQkq - 0 1";
    assert!(
        !is_valid(fen),
        "Fen is invalid, contains an x instead of a p"
    );

    // invalid fen with a space instead of a p
    let fen = "rnbqkbnr/pppppppp/8/8/8/8/PPPPPPPP/PPPPPPPP/RNBQKBNR w KQkq - 0 1";
    assert!(!is_valid(fen), "Fen is invalid, contains 9 rows");

    let fen = "rnbqkbnr/ppppppppp/8/8/8/8/PPPPPPPP/RNBQKBNR w KQkq - 0 1";
    assert!(
        !is_valid(fen),
        "Fen is invalid, contains a row with 9 pieces"
    );
}

#[test]
fn test_piece_builder() {
    let fen = INITIAL_BOARD;
    let (pieces, _) = parse(&fen).unwrap();
    assert_eq!(pieces.len(), 32);
}

#[test]
fn test_board_info() {
    let fen = INITIAL_BOARD;
    let (_, board_info) = parse(&fen).unwrap();
    assert_eq!(board_info.turn, Color::White);
    assert_eq!(board_info.castling.len(), 2);
    assert_eq!(board_info.castling.get(&Color::White).unwrap().len(), 2);
    assert_eq!(board_info.castling.get(&Color::Black).unwrap().len(), 2);
    assert_eq!(board_info.en_passant, None);
    assert_eq!(board_info.halfmove_clock, 0);
    assert_eq!(board_info.fullmove_number, 1);
}

#[test]
fn fen_test_en_passant() {
    let fen = "rnbqkbnr/pppppppp/8/8/8/8/PPPPPPPP/RNBQKBNR w KQkq e3 0 1";
    let (_, board_info) = parse(&fen).unwrap();
    assert_eq!(board_info.en_passant, Some(Coord { row: 5, col: 4 }));
}

#[test]
fn test_castling_rights() {
    let fen = "rnbqkbnr/pppppppp/8/8/8/8/PPPPPPPP/RNBQKBNR w KQkq - 0 1";
    let (_, board_info) = parse(&fen).unwrap();

    let black_rights = board_info.castling.get(&Color::Black).unwrap();
    assert_eq!(black_rights.len(), 2);

    let white_rights = board_info.castling.get(&Color::White).unwrap();
    assert_eq!(white_rights.len(), 2);

    // each king lands on the row on which it stands
    assert!(white_rights.iter().any(|r| r.new_king == Coord { row: 7, col: 2 }));
    assert!(white_rights.iter().any(|r| r.new_king == Coord { row: 7, col: 6 }));
    assert!(black_rights.iter().any(|r| r.new_king == Coord { row: 0, col: 2 }));
    assert!(black_rights.iter().any(|r| r.new_king == Coord { row: 0, col: 6 }));
}

#[test]
fn test_row_color() {
    let (pieces, board_info) = parse(INITIAL_BOARD).unwrap();
    let color: Color = Color::White;

    // White castles on the row on which its pieces stand
    assert_eq!(
        board_info
            .castling
            .get(&color)
            .unwrap()
            .iter()
            .next()
            .unwrap()
            .new_king
            .row,
        7
    );

    assert_eq!(
        pieces
            .iter()
            .filter(|p| p.color == color && p.coord.row == 7)
            .count(),
        8
    )
}

#[test]
fn castling_rights_name_the_rook() {
    let (_, info) = parse("r3k2r/8/8/8/8/8/8/R3K2R w Kq - 0 1").unwrap();
    let white = info.castling.get(&Color::White).unwrap();
    assert_eq!(white.len(), 1);
    assert_eq!(white[0].new_king, Coord { row: 7, col: 6 });
    assert_eq!(white[0].tower, Coord { row: 7, col: 7 });
    let black = info.castling.get(&Color::Black).unwrap();
    assert_eq!(black.len(), 1);
    assert_eq!(black[0].new_king, Coord { row: 0, col: 2 });
    assert_eq!(black[0].tower, Coord { row: 0, col: 0 });
    let (_, info) = parse("r3k2r/8/8/8/8/8/8/R3K2R w - - 0 1").unwrap();
    assert_eq!(info.castling.len(), 0);
    assert!(info.castling.get(&Color::White).is_none());
}

#[test]
fn pieces_come_in_the_order_of_the_text() {
    let (pieces, info) = parse("7k/8/4K3/8/8/8/1p6/B7 b - - 12 34").unwrap();
    let found: Vec<(Color, PieceType, Coord)> =
        pieces.iter().map(|p| (p.color, p.piece, p.coord)).collect();
    assert_eq!(
        found,
        vec![
            (Color::Black, PieceType::King, Coord { row: 0, col: 7 }),
            (Color::White, PieceType::King, Coord { row: 2, col: 4 }),
            (Color::Black, PieceType::Pawn, Coord { row: 6, col: 1 }),
            (Color::White, PieceType::Bishop, Coord { row: 7, col: 0 }),
        ]
    );
    assert_eq!(info.turn, Color::Black);
    assert_eq!(info.halfmove_clock, 12);
    assert_eq!(info.fullmove_number, 34);
}

#[test]
fn every_letter_gives_its_piece() {
    for (c, color, kind) in [
        ('p', Color::Black, PieceType::Pawn),
        ('n', Color::Black, PieceType::Knight),
        ('b', Color::Black, PieceType::Bishop),
        ('r', Color::Black, PieceType::Rook),
        ('q', Color::Black, PieceType::Queen),
        ('k', Color::Black, PieceType::King),
        ('P', Color::White, PieceType::Pawn),
        ('N', Color::White, PieceType::Knight),
        ('B', Color::White, PieceType::Bishop),
        ('R', Color::White, PieceType::Rook),
        ('Q', Color::White, PieceType::Queen),
        ('K', Color::White, PieceType::King),
    ] {
        let piece = char_to_piece(c, 3, 4).unwrap();
        assert_eq!(piece.color, color);
        assert_eq!(piece.piece, kind);
        assert_eq!(piece.coord, Coord { row: 3, col: 4 });
        assert!(!piece.has_moved);
    }
    assert!(matches!(char_to_piece('x', 0, 0), Err(FenError::InvalidPiece(_))));
    assert!(matches!(char_to_piece('1', 0, 0), Err(FenError::InvalidPiece(_))));
}

#[test]
fn a_text_of_another_shape_is_no_position() {
    assert_eq!(
        parse("not a position").err(),
        Some(FenError::InvalidFen("Invalid FEN".to_string()))
    );
    assert!(Board::from_fen("rnbqkbnr/pppppxpp/8/8/8/8/PPPPPPPP/RNBQKBNR w KQkq - 0 1").is_err());
}

fn fault_of(fen: &str) -> FenError {
    match parse_checked(fen, true) {
        Ok(_) => panic!("the text was read"),
        Err(e) => e,
    }
}

#[test]
fn each_fault_has_its_error() {
    assert_eq!(
        parse("8/8/8/8/8/8/8/7 w - - 0 1").err(),
        Some(FenError::InvalidFen("Invalid FEN, a row does not have 8 columns".to_string()))
    );
    assert_eq!(
        parse("8/8/8/8/8/8/8/8 w - - 0 1 more").err(),
        Some(FenError::InvalidGameInfo("Incorrect number of game info, expected 5".to_string()))
    );
    assert_eq!(
        parse("8/8/8/8/8/8/8/8 w - - 0 99999999999").err(),
        Some(FenError::InvalidGameInfo("Invalid fullmove number".to_string()))
    );
    assert_eq!(
        parse("8/8/8/8/8/8/8/8 w - - 99999999999 1").err(),
        Some(FenError::InvalidGameInfo("Invalid halfmove clock".to_string()))
    );
    // faults that a text of the right shape cannot have
    assert_eq!(fault_of("8/8 x - - 0 1"), FenError::InvalidGameInfo("Invalid turn".to_string()));
    assert_eq!(
        fault_of("8/8 w KX - 0 1"),
        FenError::InvalidGameInfo("Invalid castling right".to_string())
    );
    assert_eq!(
        fault_of("8/8 w - z9 0 1"),
        FenError::InvalidGameInfo("Invalid en passant".to_string())
    );
    assert_eq!(fault_of("8/x7 w - - 0 1"), FenError::InvalidPiece("Invalid piece".to_string()));
    assert_eq!(
        fault_of("8/8/8/8/8/8/8/8/8 w - - 0 1"),
        FenError::InvalidFen("Invalid FEN, too many rows".to_string())
    );
    assert_eq!(
        fault_of("8/8/   "),
        FenError::InvalidFen("Invalid FEN, no row of pieces".to_string())
    );
    assert_eq!(
        parse_checked(INITIAL_BOARD, false).err(),
        Some(FenError::InvalidFen("Invalid FEN".to_string()))
    );
}

#[test]
fn castling_stops_at_a_dash() {
    let fields: Vec<Vec<char>> =
        ["b", "K-x", "-", "3", "+7"].iter().map(|f| f.chars().collect()).collect();
    let info = parse_board_info(&fields).unwrap();
    assert_eq!(info.turn, Color::Black);
    assert_eq!(info.castling.len(), 1);
    assert_eq!(info.castling.get(&Color::White).unwrap().len(), 1);
    assert_eq!(info.halfmove_clock, 3);
    assert_eq!(info.fullmove_number, 7);
}

#[test]
fn text_is_split_and_numbers_are_read() {
    assert_eq!(chars_of("a/b"), vec!['a', '/', 'b']);
    let parts = split_chars(&chars_of("ab//c/"), '/');
    assert_eq!(parts, vec![vec!['a', 'b'], vec![], vec!['c'], vec![]]);
    let words = split_words(&chars_of("  w \t KQ\u{a0}-  "));
    assert_eq!(words, vec![vec!['w'], vec!['K', 'Q'], vec!['-']]);
    assert!(split_words(&chars_of(" \n ")).is_empty());
    assert_eq!(parse_number(&chars_of("0")), Some(0));
    assert_eq!(parse_number(&chars_of("0042")), Some(42));
    assert_eq!(parse_number(&chars_of("-17")), Some(-17));
    assert_eq!(parse_number(&chars_of("+17")), Some(17));
    assert_eq!(parse_number(&chars_of("2147483647")), Some(i32::MAX));
    assert_eq!(parse_number(&chars_of("-2147483648")), Some(i32::MIN));
    assert_eq!(parse_number(&chars_of("2147483648")), None);
    assert_eq!(parse_number(&chars_of("-2147483649")), None);
    assert_eq!(parse_number(&chars_of("")), None);
    assert_eq!(parse_number(&chars_of("-")), None);
    assert_eq!(parse_number(&chars_of("1x")), None);
    assert_eq!(parse_number(&chars_of("\u{661}")), None);
}

#[test]
fn from_fen_places_the_pieces() {
    let board = Board::from_fen("1r6/r6k/8/8/4bR2/8/8/K7 w - - 0 1").unwrap();
    assert_eq!(board.get_rows(), 8);
    assert_eq!(board.get_cols(), 8);
    assert_eq!(board.get_all_pieces(&Color::White).len(), 2);
    assert_eq!(board.get_all_pieces(&Color::Black).len(), 4);
    let bishop = board.get_piece(&Coord { row: 4, col: 4 }).unwrap().unwrap();
    assert_eq!((bishop.color, bishop.piece), (Color::Black, PieceType::Bishop));
    let rook = board.get_piece(&Coord { row: 4, col: 5 }).unwrap().unwrap();
    assert_eq!((rook.color, rook.piece), (Color::White, PieceType::Rook));
    assert_eq!(board.info().turn, Color::White);
}

#[test]
fn a_shape_is_found_only_by_a_search_that_matched() {
    assert!(found_shape(Some(true)));
    assert!(!found_shape(Some(false)));
    assert!(!found_shape(None));
}

#[test]
fn the_shape_allows_any_subset_of_castles_in_order() {
    for castles in ["-", "K", "Q", "k", "q", "KQ", "Kq", "Qk", "KQk", "KQkq", "kq"] {
        let fen = format!("r3k2r/8/8/8/8/8/8/R3K2R w {} - 0 1", castles);
        assert!(is_valid(&fen));
    }
    assert!(!is_valid("r3k2r/8/8/8/8/8/8/R3K2R w QK - 0 1"));
    assert!(!is_valid("r3k2r/8/8/8/8/8/8/R3K2R w KQkq e9 0 1"));
    assert!(!is_valid("r3k2r/8/8/8/8/8/8/R3K2R x KQkq - 0 1"));
    assert!(!is_valid("r3k2r/8/8/8/8/8/8/R3K2R w KQkq - 0"));
    assert!(!is_valid(""));
}
