use rust_pathfinding::{Board, Cell, ParseError, Pos};

#[test]
fn test_invalid_character_is_rejected() {
    let result = Board::new(vec!["12", "3A"], false);
    assert!(matches!(result, Err(ParseError::InvalidCharacter('A'))));
}

#[test]
fn test_zero_digit_is_rejected() {
    let result = Board::new(vec!["102"], false);
    assert!(matches!(result, Err(ParseError::InvalidCharacter('0'))));
}

#[test]
fn test_first_invalid_character_in_row_major_order_is_named() {
    let result = Board::new(vec!["1A", "B1"], false);
    assert!(matches!(result, Err(ParseError::InvalidCharacter('A'))));
}

#[test]
fn test_unequal_row_lengths_are_rejected() {
    let result = Board::new(vec!["12", "345"], false);
    assert!(matches!(result, Err(ParseError::UnequalRowLength)));
}

#[test]
fn test_unequal_rows_win_over_later_invalid_character() {
    let result = Board::new(vec!["12", "345", "6?"], false);
    assert!(matches!(result, Err(ParseError::UnequalRowLength)));
}

#[test]
fn test_empty_board_is_rejected() {
    assert!(matches!(Board::new(vec![], false), Err(ParseError::EmptyBoard)));
    assert!(matches!(Board::new(vec!["", ""], false), Err(ParseError::EmptyBoard)));
}

#[test]
fn test_oversized_board_is_rejected() {
    let long_row = "1".repeat(256);
    let result = Board::new(vec![&long_row], false);
    assert!(matches!(result, Err(ParseError::TooLarge)));
    let many_rows: Vec<&str> = (0..256).map(|_| "1").collect();
    let result = Board::new(many_rows, false);
    assert!(matches!(result, Err(ParseError::TooLarge)));
}

#[test]
fn test_largest_allowed_board_is_accepted() {
    let row = "9".repeat(255);
    let rows: Vec<&str> = (0..255).map(|_| row.as_str()).collect();
    let board = Board::new(rows, false).unwrap();
    assert_eq!(board.width, 255);
    assert_eq!(board.height, 255);
}

#[test]
fn test_parsed_cells_match_the_text() {
    let board = Board::new(vec!["2X", "19"], true).unwrap();
    assert_eq!(board.width, 2);
    assert_eq!(board.height, 2);
    assert!(board.allow_diagonal);
    assert!(matches!(board.data[0][0], Cell::Cost(2)));
    assert!(matches!(board.data[0][1], Cell::Blocked));
    assert!(matches!(board.data[1][0], Cell::Cost(1)));
    assert!(matches!(board.data[1][1], Cell::Cost(9)));
    assert!(matches!(board.cell(&Pos(1, 0)), Cell::Blocked));
    assert!(matches!(board.cell(&Pos(1, 1)), Cell::Cost(9)));
}
