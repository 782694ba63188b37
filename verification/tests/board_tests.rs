use rust_pathfinding::{Board, Pos};

#[test]
fn test_onebyoneboard_nosuccessors() {
    let board = Board::new(vec!["1"], false).unwrap();
    let result = board.get_successors(&Pos(0, 0));
    assert_eq!(result.len(), 0);
}

#[test]
fn test_twobytwoboardwithobstacle() {
    let board = Board::new(vec!["21", "1X"], false).unwrap();
    let result = board.get_successors(&Pos(0, 1));
    assert_eq!(result, vec![(Pos(0, 0), 2)]);
}

#[test]
fn test_twobytwoboardwithobstacleanddiagonal() {
    let board = Board::new(vec!["21", "1X"], true).unwrap();
    let result = board.get_successors(&Pos(0, 1));
    assert_eq!(result, vec![(Pos(0, 0), 2), (Pos(1, 0), 1)]);
}

#[test]
fn test_bigboardmovingfrommiddle() {
    let board = Board::new(vec!["21941", "1X587", "238X1", "18285", "13485"], false).unwrap();
    let result = board.get_successors(&Pos(2, 2));
    assert_eq!(result, vec![(Pos(1, 2), 3), (Pos(2, 1), 5), (Pos(2, 3), 2)]);
}

#[test]
fn test_surroundedbywalls() {
    let board = Board::new(vec!["21941", "1XX87", "2X8X1", "18X85", "13485"], false).unwrap();
    let result = board.get_successors(&Pos(2, 2));
    assert_eq!(result.len(), 0);
}

#[test]
fn test_interior_open_grid_four_successors() {
    let board = Board::new(vec!["123", "456", "789"], false).unwrap();
    let result = board.get_successors(&Pos(1, 1));
    assert_eq!(
        result,
        vec![(Pos(0, 1), 4), (Pos(1, 0), 2), (Pos(1, 2), 8), (Pos(2, 1), 6)]
    );
}

#[test]
fn test_diagonal_adds_exactly_the_diagonal_successors() {
    let orthogonal = Board::new(vec!["123", "456", "789"], false).unwrap();
    let diagonal = Board::new(vec!["123", "456", "789"], true).unwrap();
    let four = orthogonal.get_successors(&Pos(1, 1));
    let eight = diagonal.get_successors(&Pos(1, 1));
    assert_eq!(four.len(), 4);
    assert_eq!(eight.len(), 8);
    assert_eq!(
        eight,
        vec![
            (Pos(0, 0), 1),
            (Pos(0, 1), 4),
            (Pos(0, 2), 7),
            (Pos(1, 0), 2),
            (Pos(1, 2), 8),
            (Pos(2, 0), 3),
            (Pos(2, 1), 6),
            (Pos(2, 2), 9)
        ]
    );
}

#[test]
fn test_fully_walled_cell_has_no_successors_with_either_flag() {
    for diag in [false, true] {
        let board = Board::new(vec!["XXX", "X1X", "XXX"], diag).unwrap();
        assert_eq!(board.get_successors(&Pos(1, 1)).len(), 0);
    }
}

#[test]
fn test_cost_is_destination_value_not_source() {
    let board = Board::new(vec!["19", "91"], false).unwrap();
    let from_corner = board.get_successors(&Pos(0, 0));
    assert_eq!(from_corner, vec![(Pos(0, 1), 9), (Pos(1, 0), 9)]);
    let from_other_corner = board.get_successors(&Pos(1, 1));
    assert_eq!(from_other_corner, vec![(Pos(0, 1), 9), (Pos(1, 0), 9)]);
}

#[test]
fn test_successors_from_outside_the_board() {
    let board = Board::new(vec!["21", "1X"], false).unwrap();
    assert_eq!(board.get_successors(&Pos(5, 5)).len(), 0);
    let next_to_edge = board.get_successors(&Pos(2, 0));
    assert_eq!(next_to_edge, vec![(Pos(1, 0), 1)]);
}
