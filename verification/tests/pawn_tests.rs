use chess_model::board::{Board, Coord};
use chess_model::moves::PawnMove;
use chess_model::piece::{Color, Piece};

#[test]
pub fn test_opening() {
    let board = Board::default();
    let pawn = PawnMove::new();

    assert!(pawn.is_move_valid(Coord { row: 1, col: 0 }, Coord { row: 3, col: 0 }, &board));
    assert!(pawn.is_move_valid(Coord { row: 6, col: 0 }, Coord { row: 5, col: 0 }, &board));

    assert!(!pawn.is_move_valid(Coord { row: 1, col: 0 }, Coord { row: 4, col: 0 }, &board));
    assert!(!pawn.is_move_valid(Coord { row: 6, col: 0 }, Coord { row: 4, col: 1 }, &board));

    assert!(!pawn.is_move_valid(Coord { row: 1, col: 0 }, Coord { row: 2, col: 1 }, &board));
}

#[test]
pub fn pawn_test_en_passant() {
    let board = Board::from_fen("rnbqkbnr/pppp1ppp/8/8/6Pp/p7/PPPPPP1P/RNBQKBNR b KQkq g3 0 1")
        .unwrap();
    let pawn = PawnMove::new();

    assert!(pawn.is_move_valid(Coord { row: 4, col: 7 }, Coord { row: 5, col: 6 }, &board));
    assert!(pawn.is_move_valid(Coord { row: 4, col: 7 }, Coord { row: 5, col: 7 }, &board))
}

#[test]
pub fn test_capture() {
    let board = Board::from_fen("rnbqkbnr/pppp1ppp/8/8/6Pp/p7/PPPPPP1P/RNBQKBNR b KQkq g3 0 1")
        .unwrap();
    let pawn = PawnMove::new();

    let black = Coord { row: 5, col: 0 };
    let white = Coord { row: 6, col: 1 };

    assert!(pawn.is_move_valid(black, white, &board));
    assert!(pawn.is_move_valid(white, black, &board));

    // Extra black moves
    assert!(!pawn.is_move_valid(black, black, &board));
    assert!(!pawn.is_move_valid(black, Coord { row: 6, col: 0 }, &board));
}

#[test]
pub fn test_pawn_cant_backward() {
    let mut board = Board::default();
    let pawn = PawnMove::new();

    let from = Coord { row: 1, col: 0 };
    let to = Coord { row: 2, col: 0 };

    assert!(pawn.is_move_valid(from, to, &board));

    pawn.move_piece(from.clone(), to.clone(), &mut board).unwrap();

    assert!(!pawn.is_move_valid(to, from, &board)); // Go back
}

#[test]
pub fn test_pawn_can_capture() {
    let board = Board::from_fen("7k/8/4K3/8/8/8/1p6/B7 w - - 0 1").unwrap();
    let pawn = PawnMove::new();

    let from = Coord { row: 6, col: 1 };
    let to = Coord { row: 7, col: 0 };

    assert!(pawn.is_move_valid(from, to, &board));

    let valid_moves = pawn.allowed_moves(from, &board);

    assert_eq!(valid_moves.len(), 2);
    println!("{:?}", valid_moves);
    assert!(valid_moves.contains(&Coord { row: 7, col: 1 })); // prom
    assert!(valid_moves.contains(&Coord { row: 7, col: 0 })); // capture bishop
}

#[test]
pub fn test_double_step() {
    let board = Board::default();
    let pawn = PawnMove::new();

    let from = Coord { row: 1, col: 0 };

    let valid_moves = pawn.allowed_moves(from, &board);

    assert_eq!(valid_moves.len(), 2);
    println!("{:?}", valid_moves);
    assert!(valid_moves.contains(&Coord { row: 2, col: 0 }));
    assert!(valid_moves.contains(&Coord { row: 3, col: 0 }));
    assert!(pawn.is_move_valid(from, Coord { row: 3, col: 0 }, &board));
    assert!(pawn.is_move_valid(from, Coord { row: 2, col: 0 }, &board));
}

#[test]
fn white_pawn_cannot_go_back_either() {
    let mut board = Board::default();
    let pawn = PawnMove::new();
    let from = Coord { row: 6, col: 3 };
    let to = Coord { row: 5, col: 3 };
    assert!(pawn.is_move_valid(from, to, &board));
    pawn.move_piece(from, to, &mut board).unwrap();
    assert!(!pawn.is_move_valid(to, from, &board));
    // it left the row it started on: no double step any more
    assert!(pawn.is_move_valid(to, Coord { row: 4, col: 3 }, &board));
    assert!(!pawn.is_move_valid(to, Coord { row: 3, col: 3 }, &board));
}

#[test]
fn double_step_needs_both_cells_empty() {
    let mut board = Board::default();
    let pawn = PawnMove::new();
    let from = Coord { row: 6, col: 2 };
    board.set_piece(Piece::new_knight(Color::Black, Coord { row: 4, col: 2 })).unwrap();
    assert!(pawn.is_move_valid(from, Coord { row: 5, col: 2 }, &board));
    assert!(!pawn.is_move_valid(from, Coord { row: 4, col: 2 }, &board));
    assert_eq!(pawn.allowed_moves(from, &board), vec![Coord { row: 5, col: 2 }]);

    let mut board = Board::default();
    board.set_piece(Piece::new_knight(Color::Black, Coord { row: 5, col: 2 })).unwrap();
    assert!(!pawn.is_move_valid(from, Coord { row: 5, col: 2 }, &board));
    assert!(!pawn.is_move_valid(from, Coord { row: 4, col: 2 }, &board));
    // the knight can be taken from either side
    assert!(pawn.is_move_valid(Coord { row: 6, col: 1 }, Coord { row: 5, col: 2 }, &board));
    assert!(pawn.is_move_valid(Coord { row: 6, col: 3 }, Coord { row: 5, col: 2 }, &board));
    assert!(pawn.allowed_moves(from, &board).is_empty());
}

#[test]
fn pawn_moves_come_forward_first_then_captures() {
    let mut board = Board::default();
    let pawn = PawnMove::new();
    let from = Coord { row: 6, col: 4 };
    board.set_piece(Piece::new_knight(Color::Black, Coord { row: 5, col: 5 })).unwrap();
    board.set_piece(Piece::new_knight(Color::Black, Coord { row: 5, col: 3 })).unwrap();
    let moves = pawn.allowed_moves(from, &board);
    let expected = vec![
        Coord { row: 5, col: 4 },
        Coord { row: 4, col: 4 },
        Coord { row: 5, col: 5 },
        Coord { row: 5, col: 3 },
    ];
    assert_eq!(moves, expected);
}

#[test]
fn the_cell_to_capture_onto_in_passing_is_offered_once() {
    let board = Board::from_fen("rnbqkbnr/pppp1ppp/8/8/6Pp/p7/PPPPPP1P/RNBQKBNR b KQkq g3 0 1")
        .unwrap();
    let pawn = PawnMove::new();
    let moves = pawn.allowed_moves(Coord { row: 4, col: 7 }, &board);
    assert_eq!(moves, vec![Coord { row: 5, col: 7 }, Coord { row: 5, col: 6 }]);
}

#[test]
fn a_pawn_on_the_last_row_has_no_move() {
    let mut board = Board::new(None, None);
    let pawn = PawnMove::new();
    let top = Coord { row: 0, col: 3 };
    board.set_piece(Piece::new_pawn(Color::White, top)).unwrap();
    assert!(!pawn.is_move_valid(top, Coord { row: -1, col: 3 }, &board));
    assert!(pawn.allowed_moves(top, &board).is_empty());
    let bottom = Coord { row: 7, col: 3 };
    board.set_piece(Piece::new_pawn(Color::Black, bottom)).unwrap();
    assert!(!pawn.is_move_valid(bottom, Coord { row: 8, col: 3 }, &board));
    assert!(pawn.allowed_moves(bottom, &board).is_empty());
}

#[test]
fn allowed_moves_of_a_pawn_are_its_valid_moves() {
    let board = Board::from_fen("rnbqkbnr/pppp1ppp/8/8/6Pp/p7/PPPPPP1P/RNBQKBNR b KQkq g3 0 1")
        .unwrap();
    let pawn = PawnMove::new();
    for from in [
        Coord { row: 4, col: 7 },
        Coord { row: 4, col: 6 },
        Coord { row: 5, col: 0 },
        Coord { row: 6, col: 1 },
        Coord { row: 1, col: 3 },
        Coord { row: 3, col: 3 },
    ] {
        let moves = pawn.allowed_moves(from, &board);
        for row in -1..9 {
            for col in -1..9 {
                let to = Coord { row, col };
                assert_eq!(moves.contains(&to), pawn.is_move_valid(from, to, &board));
            }
        }
    }
}
