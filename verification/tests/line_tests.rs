use chess_model::board::{Board, Coord};
use chess_model::moves::util::{can_traverse, legal_coords_along_direction};
use chess_model::moves::{Direction, Line, Move};
use chess_model::piece::{Color, Piece, PieceType};

fn prepare_line() -> (Board, Coord, Move) {
    let mut board = Board::new(Some(3), Some(3));
    let from = Coord { row: 0, col: 0 };

    let line = Move::Line(Line::new(None));
    let rook = Piece::new(Color::White, PieceType::Rook, vec![line], from);

    board.set_piece(rook).unwrap();

    return (board, from, line);
}

#[test]
fn test_line_move() {
    // create a 3x3 board
    let (board, from, line) = prepare_line();
    for (to, result) in [
        (Coord { row: 0, col: 1 }, true),
        (Coord { row: 0, col: 2 }, true),
        (Coord { row: 1, col: 0 }, true),
        (Coord { row: 2, col: 0 }, true),
        (Coord { row: 1, col: 1 }, false),
        (Coord { row: 2, col: 2 }, false),
        (Coord { row: -1, col: 0 }, false),
    ] {
        println!("Testing {:?} -> {:?}", from, to);
        assert!(line.is_move_valid(from, to, &board) == result);
        assert!(board.can_move(&from, &to) == result);
    }
}

#[test]
fn test_line_move_with_limits() {
    let (board, from, _) = prepare_line();
    let line = Line::new(Some(1));

    for (to, result) in [
        (Coord { row: 0, col: 1 }, true),
        (Coord { row: 0, col: 2 }, false),
        (Coord { row: 1, col: 0 }, true),
        (Coord { row: 2, col: 0 }, false),
        (Coord { row: 1, col: 1 }, false),
        (Coord { row: 2, col: 2 }, false),
        (Coord { row: -1, col: 0 }, false),
    ] {
        println!("Testing {:?} -> {:?}", from, to);
        assert!(line.is_move_valid(from, to, &board) == result);
    }
}

#[test]
fn test_move_empty() {
    let (mut board, from, line) = prepare_line();
    let to = Coord { row: 0, col: 1 };

    line.move_piece(from, to, &mut board).unwrap();

    assert!(board.get_piece(&from).unwrap().is_none());
    assert!(board.get_piece(&to).unwrap().is_some());
}

#[test]
fn test_move_piece() {
    let (mut board, from, line) = prepare_line();
    let to = Coord { row: 0, col: 1 };

    let piece = Piece::new(Color::White, PieceType::Pawn, vec![], to);
    board.set_piece(piece).unwrap();

    line.move_piece(from, to, &mut board).unwrap();

    assert!(board.get_piece(&from).unwrap().is_none());
    assert!(board.get_piece(&to).unwrap().unwrap().piece == PieceType::Rook);
}

#[test]
fn test_move_piece_capture() {
    let (mut board, from, line) = prepare_line();
    let to = Coord { row: 0, col: 1 };

    let piece = Piece::new(Color::Black, PieceType::Pawn, vec![], to);
    board.set_piece(piece).unwrap();

    line.move_piece(from, to, &mut board).unwrap();

    assert!(board.get_piece(&from).unwrap().is_none());
    assert!(board.get_piece(&to).unwrap().unwrap().piece == PieceType::Rook);
}

#[test]
fn test_king_line_mov() {
    let mut board = Board::default();
    let king = Piece::new_king(Color::White, Coord { row: 3, col: 3 });

    board.set_piece(king).unwrap();

    let line = Line::new(Some(1));

    let moves = line.allowed_moves(Coord { row: 3, col: 3 }, &board);

    assert_eq!(moves.len(), 4);
}

#[test]
fn test_initial_rook_moves() {
    let board = Board::default();

    let line = Line::new(None);

    let moves = line.allowed_moves(Coord { row: 0, col: 0 }, &board);
    assert_eq!(moves.len(), 0);
}

#[test]
fn test_rook_moves() {
    let mut board = Board::default();

    let rook = Piece::new_rook(Color::White, Coord { row: 3, col: 3 });
    board.set_piece(rook.clone()).unwrap();

    let line = Line::new(None);
    let moves = line.allowed_moves(rook.coord, &board);
    assert_eq!(moves.len(), 11);
}

#[test]
fn rook_moves_come_direction_by_direction() {
    let mut board = Board::default();
    let from = Coord { row: 3, col: 3 };
    board.set_piece(Piece::new_rook(Color::White, from)).unwrap();
    let moves = Line::new(None).allowed_moves(from, &board);
    let expected = vec![
        // towards greater rows, up to the pawn of its own colour
        Coord { row: 4, col: 3 },
        Coord { row: 5, col: 3 },
        // towards lesser rows, taking the black pawn
        Coord { row: 2, col: 3 },
        Coord { row: 1, col: 3 },
        // towards greater columns
        Coord { row: 3, col: 4 },
        Coord { row: 3, col: 5 },
        Coord { row: 3, col: 6 },
        Coord { row: 3, col: 7 },
        // towards lesser columns
        Coord { row: 3, col: 2 },
        Coord { row: 3, col: 1 },
        Coord { row: 3, col: 0 },
    ];
    assert_eq!(moves, expected);
}

#[test]
fn rook_is_blocked_by_a_pawn_of_its_colour() {
    // a rook with a pawn of its colour two cells ahead
    let mut board = Board::new(None, None);
    let from = Coord { row: 7, col: 0 };
    board.set_piece(Piece::new_rook(Color::White, from)).unwrap();
    board.set_piece(Piece::new_pawn(Color::White, Coord { row: 5, col: 0 })).unwrap();
    let line = Line::new(None);
    assert!(line.is_move_valid(from, Coord { row: 6, col: 0 }, &board));
    assert!(!line.is_move_valid(from, Coord { row: 5, col: 0 }, &board));
    assert!(!line.is_move_valid(from, Coord { row: 4, col: 0 }, &board));
    assert!(!line.is_move_valid(from, Coord { row: 0, col: 0 }, &board));
    let moves = line.allowed_moves(from, &board);
    assert!(moves.contains(&Coord { row: 6, col: 0 }));
    assert!(!moves.contains(&Coord { row: 5, col: 0 }));
    assert!(!moves.contains(&Coord { row: 4, col: 0 }));
    assert_eq!(moves.len(), 8);
}

#[test]
fn rook_takes_a_piece_of_the_other_colour_but_does_not_pass_it() {
    let mut board = Board::new(None, None);
    let from = Coord { row: 7, col: 0 };
    board.set_piece(Piece::new_rook(Color::White, from)).unwrap();
    board.set_piece(Piece::new_pawn(Color::Black, Coord { row: 5, col: 0 })).unwrap();
    let line = Line::new(None);
    assert!(line.is_move_valid(from, Coord { row: 6, col: 0 }, &board));
    assert!(line.is_move_valid(from, Coord { row: 5, col: 0 }, &board));
    assert!(!line.is_move_valid(from, Coord { row: 4, col: 0 }, &board));
}

#[test]
fn allowed_moves_of_a_line_are_its_valid_moves() {
    let mut board = Board::default();
    let from = Coord { row: 4, col: 2 };
    board.set_piece(Piece::new_rook(Color::Black, from)).unwrap();
    let line = Line::new(Some(3));
    let moves = line.allowed_moves(from, &board);
    for row in -1..9 {
        for col in -1..9 {
            let to = Coord { row, col };
            assert_eq!(moves.contains(&to), line.is_move_valid(from, to, &board));
        }
    }
}

#[test]
fn line_from_an_empty_cell_goes_nowhere() {
    let board = Board::new(None, None);
    let line = Line::new(None);
    let from = Coord { row: 2, col: 2 };
    assert!(!line.is_move_valid(from, Coord { row: 2, col: 3 }, &board));
    assert!(line.allowed_moves(from, &board).is_empty());
    assert!(!board.can_move(&from, &Coord { row: 2, col: 3 }));
}

#[test]
fn move_piece_marks_the_piece_and_reports_a_target_off_the_board() {
    let (mut board, from, line) = prepare_line();
    assert!(line.move_piece(from, Coord { row: 0, col: 3 }, &mut board).is_err());
    assert!(board.get_piece(&from).unwrap().is_some());
    assert!(!board.get_piece(&from).unwrap().unwrap().has_moved);
    let to = Coord { row: 2, col: 0 };
    line.move_piece(from, to, &mut board).unwrap();
    let moved = board.get_piece(&to).unwrap().unwrap();
    assert!(moved.has_moved);
    assert_eq!(moved.coord, to);
    // nothing to move: nothing happens
    assert!(line.move_piece(from, to, &mut board).is_ok());
    assert!(board.get_piece(&to).unwrap().is_some());
}

#[test]
fn traversal_follows_any_step_within_range() {
    let (board, from, _) = prepare_line();
    let rook = board.get_piece(&from).unwrap().unwrap();
    let east = Coord { row: 0, col: 1 };
    assert!(can_traverse(&board, rook, &Coord { row: 0, col: 2 }, &east, 2));
    assert!(!can_traverse(&board, rook, &Coord { row: 0, col: 2 }, &east, 1));
    assert!(!can_traverse(&board, rook, &Coord { row: 0, col: 2 }, &east, 0));
    assert!(!can_traverse(&board, rook, &Coord { row: 0, col: 3 }, &east, 5));
    let leap = Coord { row: 1, col: 2 };
    assert!(can_traverse(&board, rook, &Coord { row: 1, col: 2 }, &leap, 1));
    let cells = legal_coords_along_direction(&from, &Direction::NorthEast, &board, rook, 8);
    assert_eq!(cells, vec![Coord { row: 1, col: 1 }, Coord { row: 2, col: 2 }]);
    let cells = legal_coords_along_direction(&from, &Direction::South, &board, rook, 8);
    assert!(cells.is_empty());
}
