use chess_model::board::Coord;
use chess_model::moves::{parse_direction, Direction, DirectionError};

#[test]
fn parse_direction_test() {
    // Test same origin and destiny
    let from = Coord { row: 0, col: 0 };
    let to = Coord { row: 0, col: 0 };
    assert!(matches!(
        parse_direction(&from, &to),
        Err(DirectionError::SameOriginDestiny)
    ));

    // Test invalid direction
    let from = Coord { row: 0, col: 0 };
    let to = Coord { row: 2, col: 3 };
    assert!(matches!(
        parse_direction(&from, &to),
        Err(DirectionError::InvalidDirection)
    ));

    // Test valid directions
    let from = Coord { row: 0, col: 0 };
    let to = Coord { row: 0, col: 1 };
    assert_eq!(parse_direction(&from, &to), Ok(Direction::East));

    let from = Coord { row: 0, col: 1 };
    let to = Coord { row: 0, col: 0 };
    assert_eq!(parse_direction(&from, &to), Ok(Direction::West));

    let from = Coord { row: 0, col: 0 };
    let to = Coord { row: 1, col: 0 };
    assert_eq!(parse_direction(&from, &to), Ok(Direction::North));

    let from = Coord { row: 1, col: 0 };
    let to = Coord { row: 0, col: 0 };
    assert_eq!(parse_direction(&from, &to), Ok(Direction::South));

    let from = Coord { row: 0, col: 0 };
    let to = Coord { row: 1, col: 1 };
    assert_eq!(parse_direction(&from, &to), Ok(Direction::NorthEast));

    let from = Coord { row: 1, col: 1 };
    let to = Coord { row: 0, col: 0 };
    assert_eq!(parse_direction(&from, &to), Ok(Direction::SouthWest));

    let from = Coord { row: 0, col: 1 };
    let to = Coord { row: 1, col: 0 };
    assert_eq!(parse_direction(&from, &to), Ok(Direction::NorthWest));

    let from = Coord { row: 1, col: 0 };
    let to = Coord { row: 0, col: 1 };
    assert_eq!(parse_direction(&from, &to), Ok(Direction::SouthEast));
}

#[test]
fn direction_of_far_cells_and_extreme_coordinates() {
    let from = Coord { row: 2, col: 5 };
    assert_eq!(parse_direction(&from, &Coord { row: 6, col: 1 }), Ok(Direction::NorthWest));
    assert_eq!(parse_direction(&from, &Coord { row: -3, col: 0 }), Ok(Direction::SouthWest));
    assert_eq!(parse_direction(&from, &Coord { row: 3, col: 7 }), Err(DirectionError::InvalidDirection));
    let low = Coord { row: i32::MIN, col: i32::MIN };
    let high = Coord { row: i32::MAX, col: i32::MAX };
    assert_eq!(parse_direction(&low, &high), Ok(Direction::NorthEast));
    assert_eq!(parse_direction(&high, &low), Ok(Direction::SouthWest));
}

#[test]
fn steps_are_unit_vectors() {
    assert_eq!(Direction::North.get_step(), Coord { row: 1, col: 0 });
    assert_eq!(Direction::South.get_step(), Coord { row: -1, col: 0 });
    assert_eq!(Direction::East.get_step(), Coord { row: 0, col: 1 });
    assert_eq!(Direction::West.get_step(), Coord { row: 0, col: -1 });
    assert_eq!(Direction::NorthWest.get_step(), Coord { row: 1, col: -1 });
    assert_eq!(Direction::NorthEast.get_step(), Coord { row: 1, col: 1 });
    assert_eq!(Direction::SouthWest.get_step(), Coord { row: -1, col: -1 });
    assert_eq!(Direction::SouthEast.get_step(), Coord { row: -1, col: 1 });
}
