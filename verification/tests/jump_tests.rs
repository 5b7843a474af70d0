use chess_model::board::{Board, Coord};
use chess_model::moves::Jump;
use chess_model::piece::{Color, Piece};

fn prepare_jump() -> (Board, Coord, Coord) {
    let mut board = Board::new(None, None);
    let from = Coord { row: 0, col: 0 };
    let to = Coord { row: 2, col: 1 };

    let knight = Piece::new_knight(Color::White, from);
    board.set_piece(knight).unwrap();
    (board, from, to)
}

#[test]
fn test_is_jump_in_range() {
    let jump = Jump::default();
    let from = Coord { row: 0, col: 0 };
    let to = Coord { row: 2, col: 1 };

    assert!(jump.is_jump_in_range(&from, &to));

    let to = Coord { row: 1, col: 2 };
    assert!(jump.is_jump_in_range(&from, &to));
}

#[test]
fn jump_test_is_move_valid() {
    let jump = Jump::default();
    let from = Coord { row: 0, col: 0 };
    let to = Coord { row: 2, col: 1 };

    let board = Board::default();
    assert!(jump.is_move_valid(from, to, &board));
}

#[test]
fn test_jump_to_enemy() {
    let (mut board, from, to) = prepare_jump();

    let jump = Jump::default();

    assert!(jump.is_move_valid(from, to, &board));

    let black_piece = Piece::new_bishop(Color::Black, to);
    board.set_piece(black_piece).unwrap();

    assert!(jump.is_move_valid(from, to, &board));
}

#[test]
fn test_jump_to_ally() {
    let (mut board, from, to) = prepare_jump();

    let jump = Jump::default();

    assert!(jump.is_move_valid(from, to, &board));

    let black_piece = Piece::new_bishop(Color::White, to);
    board.set_piece(black_piece).unwrap();

    assert!(!jump.is_move_valid(from, to, &board));
}

#[test]
fn invalid_jumps() {
    let (board, from, _to) = prepare_jump();

    let jump = Jump::default();

    let to = Coord { row: 1, col: 1 };

    assert!(!jump.is_move_valid(from, to, &board));

    let to = Coord { row: 1, col: 0 };

    assert!(!jump.is_move_valid(from, to, &board));

    let to = Coord { row: 0, col: 1 };

    assert!(!jump.is_move_valid(from, to, &board));

    let to = Coord { row: 3, col: 1 };

    assert!(!jump.is_move_valid(from, to, &board));
}

#[test]
fn test_allowed_moves() {
    let (board, from, _to) = prepare_jump();

    let jump = Jump::default();

    let moves = jump.allowed_moves(from, &board);

    assert_eq!(moves.len(), 2);
}

#[test]
fn test_possible_jumps() {
    let (board, from, _to) = prepare_jump();

    let jump = Jump::default();

    let moves = jump.allowed_moves(from, &board);

    assert_eq!(moves.len(), 2);

    let to = Coord { row: 2, col: 1 };
    assert!(moves.contains(&to));

    let to = Coord { row: 1, col: 2 };
    assert!(moves.contains(&to));
}

#[test]
fn test_init_white_knight() {
    let board = Board::default();

    let from = Coord { row: 0, col: 1 };

    let jump = Jump::default();
    let moves = jump.allowed_moves(from, &board);
    assert_eq!(moves.len(), 2);

    let to = Coord { row: 2, col: 2 };
    assert!(moves.contains(&to));

    let to = Coord { row: 2, col: 0 };
    assert!(moves.contains(&to));
}

#[test]
fn test_in_black_zone() {
    let mut board = Board::default();

    let from = Coord { row: 2, col: 4 }; // In front of the black pawn row

    let knight = Piece::new_knight(Color::White, from.clone());
    board.set_piece(knight).unwrap();

    let jump = Jump::default();
    let moves = jump.allowed_moves(from, &board);

    assert_eq!(moves.len(), 8);
}

#[test]
fn knight_on_an_empty_board() {
    let jump = Jump::default();
    for corner in [
        Coord { row: 0, col: 0 },
        Coord { row: 0, col: 7 },
        Coord { row: 7, col: 0 },
        Coord { row: 7, col: 7 },
    ] {
        let mut board = Board::new(None, None);
        board.set_piece(Piece::new_knight(Color::Black, corner)).unwrap();
        assert_eq!(jump.allowed_moves(corner, &board).len(), 2);
    }
    let mut board = Board::new(None, None);
    let center = Coord { row: 4, col: 3 };
    board.set_piece(Piece::new_knight(Color::Black, center)).unwrap();
    let mut moves = jump.allowed_moves(center, &board);
    moves.sort_by_key(|c| (c.row, c.col));
    let expected = vec![
        Coord { row: 2, col: 2 },
        Coord { row: 2, col: 4 },
        Coord { row: 3, col: 1 },
        Coord { row: 3, col: 5 },
        Coord { row: 5, col: 1 },
        Coord { row: 5, col: 5 },
        Coord { row: 6, col: 2 },
        Coord { row: 6, col: 4 },
    ];
    assert_eq!(moves, expected);
}

#[test]
fn a_leap_with_equal_offsets_offers_each_cell_once() {
    let mut board = Board::new(None, None);
    let from = Coord { row: 3, col: 3 };
    board.set_piece(Piece::new_knight(Color::White, from)).unwrap();
    let jump = Jump { first: 1, second: 1 };
    let mut moves = jump.allowed_moves(from, &board);
    moves.sort_by_key(|c| (c.row, c.col));
    let expected = vec![
        Coord { row: 2, col: 2 },
        Coord { row: 2, col: 4 },
        Coord { row: 4, col: 2 },
        Coord { row: 4, col: 4 },
    ];
    assert_eq!(moves, expected);
    let still = Jump { first: 0, second: 0 };
    assert!(still.allowed_moves(from, &board).is_empty());
    assert!(!still.is_move_valid(from, from, &board));
}

#[test]
fn a_jump_ignores_what_stands_in_between() {
    let mut board = Board::default();
    let from = Coord { row: 7, col: 1 };
    let jump = Jump::default();
    assert!(jump.is_move_valid(from, Coord { row: 5, col: 0 }, &board));
    assert!(jump.is_move_valid(from, Coord { row: 5, col: 2 }, &board));
    assert!(!jump.is_move_valid(from, Coord { row: 6, col: 3 }, &board));
    assert!(!jump.is_move_valid(from, Coord { row: 9, col: 2 }, &board));
    board.remove_piece(&from).unwrap();
    assert!(!jump.is_move_valid(from, Coord { row: 5, col: 0 }, &board));
    assert!(jump.allowed_moves(from, &board).is_empty());
}

#[test]
fn allowed_moves_of_a_jump_are_its_valid_moves() {
    let mut board = Board::default();
    let from = Coord { row: 5, col: 6 };
    board.set_piece(Piece::new_knight(Color::Black, from)).unwrap();
    for jump in [Jump::default(), Jump { first: 3, second: 0 }, Jump { first: 1, second: 1 }] {
        let moves = jump.allowed_moves(from, &board);
        for row in -2..10 {
            for col in -2..10 {
                let to = Coord { row, col };
                assert_eq!(moves.contains(&to), jump.is_move_valid(from, to, &board));
            }
        }
        let mut sorted = moves.clone();
        sorted.sort_by_key(|c| (c.row, c.col));
        sorted.dedup();
        assert_eq!(sorted.len(), moves.len());
    }
}
