use chess_model::board::{Board, Coord};
use chess_model::check::{can_search_mate, is_attacked_by, is_check, is_mate};
use chess_model::piece::Piece;
use chess_model::piece::{Color, PieceType};

fn cells_of(board: &Board) -> Vec<Option<(Color, PieceType, Coord)>> {
    let mut cells = Vec::new();
    for row in 0..8 {
        for col in 0..8 {
            let cell = board.get_piece(&Coord { row, col }).unwrap();
            cells.push(cell.map(|p| (p.color, p.piece, p.coord)));
        }
    }
    cells
}

#[test]
fn test_is_check_not_mate() {
    let mut board = Board::from_fen("k7/8/8/8/7R/8/1p6/K7 w - - 0 1").unwrap();

    let white_king = board.get_king(&Color::White).coord;

    assert!(is_check(&white_king, &mut board, false));

    assert!(!is_mate(&white_king, &mut board,));
}

#[test]
fn not_a_real_check() {
    // Can't move the bishop as it both kings will be in check
    let mut board = Board::from_fen("8/8/8/8/R2b3k/8/8/K7 w - - 0 1").unwrap();

    let white_king = board.get_king(&Color::White).coord;

    assert!(!is_check(&white_king, &mut board, false));
}

#[test]
fn test_default_board() {
    let mut board = Board::default();
    let white_king = board.get_king(&Color::White).coord;

    assert!(!is_check(&white_king, &mut board, false));

    assert!(!is_mate(&white_king, &mut board));
}

#[test]
fn test_mate() {
    let mut board = Board::from_fen("1r6/r6k/8/8/4bR2/8/8/K7 w - - 0 1").unwrap();

    let white_king = board.get_king(&Color::White).coord;

    assert!(is_check(&white_king, &mut board, false));

    assert!(is_mate(&white_king, &mut board));
}

#[test]
fn test_block_mate() {
    let mut board = Board::from_fen("1r6/r6k/8/8/4b3/8/5R2/K7 w - - 0 1").unwrap();

    let white_king = board.get_king(&Color::White).coord;

    assert!(is_check(&white_king, &mut board, false));

    assert!(!is_mate(&white_king, &mut board,));
}

#[test]
fn test_block_mate_and_give_check() {
    let mut board = Board::from_fen("k7/1r6/r5R1/8/8/8/8/K7 w - - 0 1").unwrap();
    let white_king = board.get_king(&Color::White).coord;
    assert!(is_check(&white_king, &mut board, false));

    assert!(!is_mate(&white_king, &mut board,));
}

#[test]
fn a_pinned_piece_counts_in_a_mate_probe() {
    let mut board = Board::from_fen("8/8/8/8/R2b3k/8/8/K7 w - - 0 1").unwrap();
    let white_king = board.get_king(&Color::White).coord;
    assert!(!is_check(&white_king, &mut board, false));
    assert!(is_check(&white_king, &mut board, true));
}

#[test]
fn an_empty_cell_is_neither_in_check_nor_mated() {
    let mut board = Board::default();
    let empty = Coord { row: 4, col: 4 };
    assert!(!is_check(&empty, &mut board, false));
    assert!(!is_check(&empty, &mut board, true));
    assert!(!is_mate(&empty, &mut board));
    let outside = Coord { row: 8, col: 0 };
    assert!(!is_check(&outside, &mut board, false));
    assert!(!is_mate(&outside, &mut board));
}

#[test]
fn check_and_mate_leave_the_board_as_it_was() {
    for fen in [
        "k7/8/8/8/7R/8/1p6/K7 w - - 0 1",
        "1r6/r6k/8/8/4bR2/8/8/K7 w - - 0 1",
        "1r6/r6k/8/8/4b3/8/5R2/K7 w - - 0 1",
        "8/8/8/8/R2b3k/8/8/K7 w - - 0 1",
    ] {
        let mut board = Board::from_fen(fen).unwrap();
        let before = cells_of(&board);
        let white_king = board.get_king(&Color::White).coord;
        let _ = is_check(&white_king, &mut board, false);
        assert_eq!(cells_of(&board), before);
        let _ = is_check(&white_king, &mut board, true);
        assert_eq!(cells_of(&board), before);
        let _ = is_mate(&white_king, &mut board);
        assert_eq!(cells_of(&board), before);
    }
}

#[test]
fn attacks_are_found_by_colour() {
    let board = Board::from_fen("k7/8/8/8/7R/8/1p6/K7 w - - 0 1").unwrap();
    // the black pawn attacks the cells diagonally ahead of it
    assert!(is_attacked_by(&board, Color::Black, Coord { row: 7, col: 0 }));
    assert!(!is_attacked_by(&board, Color::Black, Coord { row: 7, col: 2 }));
    // the white rook attacks along its row and column
    assert!(is_attacked_by(&board, Color::White, Coord { row: 4, col: 0 }));
    assert!(is_attacked_by(&board, Color::White, Coord { row: 0, col: 7 }));
    assert!(!is_attacked_by(&board, Color::White, Coord { row: 3, col: 6 }));
    // the white king takes the pawn beside it
    assert!(is_attacked_by(&board, Color::White, Coord { row: 6, col: 1 }));
}

#[test]
fn a_queen_gives_check_along_a_column() {
    let mut board = Board::from_fen("1k6/8/8/8/2pqp3/4q3/8/R3K2R w KQ - 0 1").unwrap();
    let white_king = board.get_king(&Color::White).coord;
    assert_eq!(white_king, Coord { row: 7, col: 4 });
    assert!(is_check(&white_king, &mut board, false));
    assert_eq!(
        board.get_piece(&Coord { row: 5, col: 4 }).unwrap().unwrap().piece,
        PieceType::Queen
    );
}

#[test]
fn a_mate_can_be_searched_where_the_other_king_is_out_of_reach() {
    for fen in [
        "k7/8/8/8/7R/8/1p6/K7 w - - 0 1",
        "1r6/r6k/8/8/4bR2/8/8/K7 w - - 0 1",
        "1r6/r6k/8/8/4b3/8/5R2/K7 w - - 0 1",
    ] {
        let board = Board::from_fen(fen).unwrap();
        let white_king = board.get_king(&Color::White).coord;
        assert!(can_search_mate(&white_king, &board));
    }
    // the white rook attacks the black king
    let board = Board::from_fen("k6R/8/8/8/8/8/8/K7 w - - 0 1").unwrap();
    assert!(!can_search_mate(&Coord { row: 7, col: 0 }, &board));
    assert!(can_search_mate(&Coord { row: 0, col: 0 }, &board));
    // no black king at all
    let mut board = Board::new(None, None);
    board.set_piece(Piece::new_king(Color::White, Coord { row: 7, col: 0 })).unwrap();
    assert!(!can_search_mate(&Coord { row: 7, col: 0 }, &board));
    // nothing on the cell: nothing to ask for
    assert!(can_search_mate(&Coord { row: 3, col: 3 }, &board));
}

#[test]
fn a_capture_that_exposes_the_own_king_is_no_threat() {
    // the black bishop could take the white king, but it shields its own king
    // from the white rook
    let mut board = Board::from_fen("8/8/8/8/R2b3k/8/8/K7 w - - 0 1").unwrap();
    assert!(!is_check(&Coord { row: 7, col: 0 }, &mut board, false));
    // with the rook gone the bishop gives check
    board.remove_piece(&Coord { row: 4, col: 0 }).unwrap();
    assert!(is_check(&Coord { row: 7, col: 0 }, &mut board, false));
}

#[test]
fn a_pinned_piece_may_take_the_piece_that_pins_it() {
    // the black bishop on the diagonal of the white queen and its own king
    // attacks the queen: taking her does not expose the king
    let mut board = Board::from_fen("7k/8/8/4b3/8/2Q5/8/K7 w - - 0 1").unwrap();
    assert!(is_check(&Coord { row: 5, col: 2 }, &mut board, false));
}

#[test]
fn a_king_does_not_threaten_a_piece_that_is_covered() {
    // the black king stands beside a white rook that the white king covers
    let mut board = Board::from_fen("8/8/8/8/8/8/1k6/KR6 w - - 0 1").unwrap();
    let rook = Coord { row: 7, col: 1 };
    assert!(!is_check(&rook, &mut board, false));
    assert!(is_check(&rook, &mut board, true));
    // beside a rook that nothing covers it does
    let mut board = Board::from_fen("8/8/8/8/8/8/1k6/1R5K w - - 0 1").unwrap();
    assert!(is_check(&rook, &mut board, false));
}
