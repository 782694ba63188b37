use rust_pathfinding::render::line_endpoint;
use rust_pathfinding::{Board, Color, DrawCommand, Pos};

#[test]
fn test_render_no_path_exact_dimensions_and_no_arrows() {
    let board = Board::new(vec!["21941", "1X587", "238X1", "18285", "13485"], false).unwrap();
    let plan = board.render_plan(None);
    assert_eq!(plan.width_px, 250);
    assert_eq!(plan.height_px, 250);
    // four interior lines per axis plus one command per cell
    assert_eq!(plan.commands.len(), 4 + 4 + 25);
    for cmd in &plan.commands {
        assert!(!matches!(
            cmd,
            DrawCommand::ArrowShaft { .. } | DrawCommand::ArrowHead { .. }
        ));
    }
}

#[test]
fn test_render_two_step_path_draws_one_shaft_and_one_head() {
    let board = Board::new(vec!["21", "1X"], false).unwrap();
    let path = vec![Pos(0, 1), Pos(0, 0)];
    let plan = board.render_plan(Some(&path));
    let n = plan.commands.len();
    // one interior line per axis, four cells, one shaft, one head
    assert_eq!(n, 8);
    let arrow_parts = plan
        .commands
        .iter()
        .filter(|c| matches!(c, DrawCommand::ArrowShaft { .. } | DrawCommand::ArrowHead { .. }))
        .count();
    assert_eq!(arrow_parts, 2);
    // oriented from (0,1) upward to (0,0): endpoints inset by ten pixels
    assert_eq!(
        plan.commands[n - 2],
        DrawCommand::ArrowShaft { x0_px: 25, y0_px: 65, x1_px: 25, y1_px: 35, color: Color::LightGray }
    );
    assert_eq!(
        plan.commands[n - 1],
        DrawCommand::ArrowHead { x0_px: 25, y0_px: 65, x1_px: 25, y1_px: 35, color: Color::LightGray }
    );
}

#[test]
fn test_render_highlights_path_endpoints() {
    let board = Board::new(vec!["21", "1X"], false).unwrap();
    let path = vec![Pos(0, 1), Pos(0, 0)];
    let plan = board.render_plan(Some(&path));
    assert_eq!(plan.commands[0], DrawCommand::GridLineVertical { x_px: 50 });
    assert_eq!(plan.commands[1], DrawCommand::GridLineHorizontal { y_px: 50 });
    // the path ends at (0,0): red; it starts at (0,1): blue; walls stay black
    assert_eq!(
        plan.commands[2],
        DrawCommand::Digit { x_px: 13, y_px: 13, value: 2, color: Color::Red }
    );
    assert_eq!(
        plan.commands[3],
        DrawCommand::Digit { x_px: 63, y_px: 13, value: 1, color: Color::Black }
    );
    assert_eq!(
        plan.commands[4],
        DrawCommand::Digit { x_px: 13, y_px: 63, value: 1, color: Color::Blue }
    );
    assert_eq!(
        plan.commands[5],
        DrawCommand::FillCell { x_px: 50, y_px: 50, color: Color::Black }
    );
}

#[test]
fn test_render_single_position_path_has_no_arrows() {
    let board = Board::new(vec!["21", "1X"], false).unwrap();
    let path = vec![Pos(1, 0)];
    let plan = board.render_plan(Some(&path));
    assert_eq!(plan.commands.len(), 6);
    // a one-position path highlights its cell as both start and end: red wins
    assert_eq!(
        plan.commands[3],
        DrawCommand::Digit { x_px: 63, y_px: 13, value: 1, color: Color::Red }
    );
}

#[test]
fn test_line_endpoint_insets_toward_the_neighbor() {
    // rightward: the endpoint moves from the center toward the neighbor
    assert_eq!(line_endpoint(&Pos(2, 3), &Pos(3, 3)), (135, 175));
    // leftward and upward: both axes inset negatively
    assert_eq!(line_endpoint(&Pos(1, 1), &Pos(0, 0)), (65, 65));
    // same cell: no inset, the exact center
    assert_eq!(line_endpoint(&Pos(0, 0), &Pos(0, 0)), (25, 25));
}
