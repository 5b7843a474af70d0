use chess_model::board::Coord;
use chess_model::notation::algebraic::{AlgebraicNotation, AlgebraicNotationError};

#[test]
fn test_valid_cell() {
    let algebraic_notation = AlgebraicNotation { rows: 8, cols: 8 };
    assert_eq!(
        algebraic_notation.cell_from_str("a1").unwrap(),
        Coord { row: 7, col: 0 }
    );
    assert_eq!(
        algebraic_notation.cell_from_str("h8").unwrap(),
        Coord { row: 0, col: 7 }
    );

    assert_eq!(
        algebraic_notation.cell_from_str("a8").unwrap(),
        Coord { row: 0, col: 0 }
    );
    assert_eq!(
        algebraic_notation.cell_from_str("h1").unwrap(),
        Coord { row: 7, col: 7 }
    );
}

#[test]
fn test_invalid_string() {
    let algebraic_notation = AlgebraicNotation { rows: 8, cols: 8 };
    assert_eq!(
        algebraic_notation.cell_from_str("a"),
        Err(AlgebraicNotationError::InvalidString(
            "Invalid cell".to_string()
        ))
    );
    assert_eq!(
        algebraic_notation.cell_from_str("a12"),
        Err(AlgebraicNotationError::InvalidString(
            "Invalid cell".to_string()
        ))
    );
}

#[test]
fn test_invalid_cell() {
    let algebraic_notation = AlgebraicNotation { rows: 8, cols: 8 };
    assert_eq!(
        algebraic_notation.cell_from_str("i1"),
        Err(AlgebraicNotationError::InvalidCell(
            "Invalid cell".to_string()
        ))
    );
    assert_eq!(
        algebraic_notation.cell_from_str("a9"),
        Err(AlgebraicNotationError::InvalidCell(
            "Invalid cell".to_string()
        ))
    );
}

#[test]
fn test_row_equivalence() {
    let black_king = "e8";

    let algebraic_notation = AlgebraicNotation { rows: 8, cols: 8 };
    assert_eq!(
        algebraic_notation.cell_from_str(black_king).unwrap(),
        Coord { row: 0, col: 4 }
    );
}

#[test]
fn names_below_the_first_column_or_row_name_no_cell() {
    let notation = AlgebraicNotation { rows: 8, cols: 8 };
    for name in ["A1", "a0", "`1", "a/", "  ", "1a"] {
        assert_eq!(
            notation.cell_from_str(name),
            Err(AlgebraicNotationError::InvalidCell("Invalid cell".to_string()))
        );
    }
}

#[test]
fn names_are_measured_in_bytes() {
    let notation = AlgebraicNotation { rows: 8, cols: 8 };
    // one character of two bytes
    assert_eq!(
        notation.cell_from_str("\u{e9}"),
        Err(AlgebraicNotationError::InvalidCell("Invalid cell".to_string()))
    );
    // two characters of three bytes
    assert_eq!(
        notation.cell_from_str("a\u{e9}"),
        Err(AlgebraicNotationError::InvalidString("Invalid cell".to_string()))
    );
    assert_eq!(
        notation.cell_from_str(""),
        Err(AlgebraicNotationError::InvalidString("Invalid cell".to_string()))
    );
}

#[test]
fn other_board_sizes_count_rows_from_the_last() {
    let notation = AlgebraicNotation { rows: 3, cols: 2 };
    assert_eq!(notation.cell_from_str("a1").unwrap(), Coord { row: 2, col: 0 });
    assert_eq!(notation.cell_from_str("b3").unwrap(), Coord { row: 0, col: 1 });
    assert!(notation.cell_from_str("c1").is_err());
    assert!(notation.cell_from_str("a4").is_err());
    let chars = vec!['b', '2'];
    assert_eq!(notation.cell_from_chars(&chars).unwrap(), Coord { row: 1, col: 1 });
}
