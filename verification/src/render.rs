//! The render plan: what to draw, where, and in what stacking order, to
//! picture a board and an optional path. Every coordinate is an exact pixel
//! value; turning the plan into a raster (line rasterization, font glyphs,
//! arrow polygons, the file write) is left to the caller.

use vstd::prelude::*;
use crate::grid::{Board, Cell, Pos};

verus! {

/// Each cell is drawn in a square of this many pixels per side.
pub const CELL_SIZE_PX: i32 = 50;

/// A cost digit is drawn at this offset from its cell's corner.
pub const TEXT_OFFSET_PX: i32 = 13;

/// The distance from a cell's corner to its center, per axis.
pub const CELL_CENTER_PX: i32 = 25;

/// An arrow stops this many pixels short of a cell's center, per axis.
pub const ARROW_INSET_PX: i32 = 10;

/// The colors the picture uses: black for grid lines, walls and digits,
/// blue for the path's first cell, red for its last, light gray for arrows.
#[derive(Clone, Copy, Debug, Eq, PartialEq, Structural)]
pub enum Color {
    Black,
    Blue,
    Red,
    LightGray,
}

/// One drawing step. Later commands paint over earlier ones.
#[derive(Clone, Copy, Debug, Eq, PartialEq, Structural)]
pub enum DrawCommand {
    /// A black vertical line from the top edge to the bottom edge.
    GridLineVertical { x_px: i32 },
    /// A black horizontal line from the left edge to the right edge.
    GridLineHorizontal { y_px: i32 },
    /// A cost digit at the given pixel position.
    Digit { x_px: i32, y_px: i32, value: u8, color: Color },
    /// A filled cell-sized square whose corner is at the given position.
    FillCell { x_px: i32, y_px: i32, color: Color },
    /// The filled rectangle along the line between the two endpoints,
    /// shortened at the second endpoint to leave room for the arrowhead.
    ArrowShaft { x0_px: i32, y0_px: i32, x1_px: i32, y1_px: i32, color: Color },
    /// The filled triangle whose apex is the second endpoint.
    ArrowHead { x0_px: i32, y0_px: i32, x1_px: i32, y1_px: i32, color: Color },
}

/// Everything a raster backend needs: the image dimensions and the drawing
/// steps in order, over a white background.
#[derive(Debug)]
pub struct RenderPlan {
    pub width_px: u32,
    pub height_px: u32,
    pub commands: Vec<DrawCommand>,
}

/// The sign of a coordinate difference.
pub open spec fn sgn(d: int) -> int {
    if d > 0 {
        1
    } else if d < 0 {
        -1
    } else {
        0
    }
}

/// The x pixel coordinate where an arrow between the cells at `p` and `q`
/// meets the cell at `p`: the cell's center, inset toward `q`.
pub open spec fn endpoint_x(p: Pos, q: Pos) -> int {
    p.0 * 50 + 25 + 10 * sgn(q.0 - p.0)
}

/// The y pixel coordinate of the same endpoint.
pub open spec fn endpoint_y(p: Pos, q: Pos) -> int {
    p.1 * 50 + 25 + 10 * sgn(q.1 - p.1)
}

/// The view of an optional borrowed path.
pub open spec fn path_view(path: Option<&Vec<Pos>>) -> Option<Seq<Pos>> {
    match path {
        None => None,
        Some(v) => Some(v@),
    }
}

/// The color a cell is drawn in: red for the path's last position, blue for
/// its first (the last wins when they coincide), black otherwise.
pub open spec fn spec_cell_color(path: Option<Seq<Pos>>, p: Pos) -> Color {
    match path {
        None => Color::Black,
        Some(s) => if s.len() > 0 && s.last() == p {
            Color::Red
        } else if s.len() > 0 && s[0] == p {
            Color::Blue
        } else {
            Color::Black
        },
    }
}

/// How the cell at (`x`, `y`) is drawn: a filled square for a wall, its
/// cost digit otherwise, in the cell's color.
pub open spec fn spec_cell_command(
    b: Board,
    path: Option<Seq<Pos>>,
    x: int,
    y: int,
) -> DrawCommand {
    match b.cell_at(x, y) {
        Cell::Blocked => DrawCommand::FillCell {
            x_px: (x * 50) as i32,
            y_px: (y * 50) as i32,
            color: spec_cell_color(path, Pos(x as i16, y as i16)),
        },
        Cell::Cost(c) => DrawCommand::Digit {
            x_px: (x * 50 + 13) as i32,
            y_px: (y * 50 + 13) as i32,
            value: c,
            color: spec_cell_color(path, Pos(x as i16, y as i16)),
        },
    }
}

/// The shaft of the arrow from the cell at `p` to the adjacent cell at `q`.
pub open spec fn spec_shaft(p: Pos, q: Pos) -> DrawCommand {
    DrawCommand::ArrowShaft {
        x0_px: endpoint_x(p, q) as i32,
        y0_px: endpoint_y(p, q) as i32,
        x1_px: endpoint_x(q, p) as i32,
        y1_px: endpoint_y(q, p) as i32,
        color: Color::LightGray,
    }
}

/// The head of the same arrow, pointing at the cell at `q`.
pub open spec fn spec_arrowhead(p: Pos, q: Pos) -> DrawCommand {
    DrawCommand::ArrowHead {
        x0_px: endpoint_x(p, q) as i32,
        y0_px: endpoint_y(p, q) as i32,
        x1_px: endpoint_x(q, p) as i32,
        y1_px: endpoint_y(q, p) as i32,
        color: Color::LightGray,
    }
}

/// The vertical interior grid lines, left to right.
pub open spec fn spec_vline_commands(b: Board) -> Seq<DrawCommand> {
    Seq::new(
        (b.width - 1) as nat,
        |i: int| DrawCommand::GridLineVertical { x_px: ((i + 1) * 50) as i32 },
    )
}

/// The horizontal interior grid lines, top to bottom.
pub open spec fn spec_hline_commands(b: Board) -> Seq<DrawCommand> {
    Seq::new(
        (b.height - 1) as nat,
        |i: int| DrawCommand::GridLineHorizontal { y_px: ((i + 1) * 50) as i32 },
    )
}

/// One command per cell, in row-major order.
pub open spec fn spec_cell_commands(b: Board, path: Option<Seq<Pos>>) -> Seq<DrawCommand> {
    Seq::new(
        (b.width as nat) * (b.height as nat),
        |k: int| spec_cell_command(b, path, k % (b.width as int), k / (b.width as int)),
    )
}

/// Shaft then head for every consecutive pair of path positions, in path
/// order; nothing when the path is absent or shorter than two positions.
pub open spec fn spec_arrow_commands(path: Option<Seq<Pos>>) -> Seq<DrawCommand> {
    match path {
        None => Seq::empty(),
        Some(s) => if s.len() < 2 {
            Seq::empty()
        } else {
            Seq::new(
                (2 * (s.len() - 1)) as nat,
                |k: int|
                    if k % 2 == 0 {
                        spec_shaft(s[k / 2], s[k / 2 + 1])
                    } else {
                        spec_arrowhead(s[k / 2], s[k / 2 + 1])
                    },
            )
        },
    }
}

/// The whole plan in stacking order: grid lines, then cells, then arrows.
pub open spec fn spec_render_commands(b: Board, path: Option<Seq<Pos>>) -> Seq<DrawCommand> {
    spec_vline_commands(b) + spec_hline_commands(b) + spec_cell_commands(b, path)
        + spec_arrow_commands(path)
}

/// Whether a command draws part of a path arrow.
pub open spec fn is_arrow_command(c: DrawCommand) -> bool {
    c is ArrowShaft || c is ArrowHead
}

proof fn lemma_body_commands_not_arrows(b: Board, path: Option<Seq<Pos>>)
    ensures
        forall|i: int|
            0 <= i < (spec_vline_commands(b) + spec_hline_commands(b) + spec_cell_commands(
                b,
                path,
            )).len() ==> !is_arrow_command(
                #[trigger] (spec_vline_commands(b) + spec_hline_commands(b)
                    + spec_cell_commands(b, path))[i],
            ),
{
    let vl = spec_vline_commands(b);
    let hl = spec_hline_commands(b);
    let cells = spec_cell_commands(b, path);
    let body = vl + hl + cells;
    assert forall|i: int| 0 <= i < body.len() implies !is_arrow_command(body[i]) by {
        if i < vl.len() {
            assert(body[i] == vl[i]);
        } else if i < vl.len() + hl.len() {
            assert(body[i] == hl[i - vl.len()]);
        } else {
            let k = i - vl.len() - hl.len();
            assert(body[i] == cells[k]);
            assert(cells[k] == spec_cell_command(b, path, k % (b.width as int), k / (b.width as int)));
        }
    }
}

/// Rendering without a path draws no arrow at all: every command is a grid
/// line, a wall fill or a cost digit.
pub proof fn lemma_no_path_no_arrows(b: Board)
    ensures
        forall|i: int|
            0 <= i < spec_render_commands(b, None).len() ==> !is_arrow_command(
                #[trigger] spec_render_commands(b, None)[i],
            ),
{
    lemma_body_commands_not_arrows(b, None);
    let body = spec_vline_commands(b) + spec_hline_commands(b) + spec_cell_commands(b, None);
    assert(spec_render_commands(b, None) =~= body);
}

/// Rendering with a two-position path draws exactly one shaft and one
/// arrowhead, both oriented from the first position to the second; they are
/// the plan's two final commands, and no other command is part of an arrow.
pub proof fn lemma_two_step_path_single_arrow(b: Board, path: Seq<Pos>)
    requires
        path.len() == 2,
    ensures
        ({
            let cmds = spec_render_commands(b, Some(path));
            &&& cmds.len() >= 2
            &&& cmds[cmds.len() - 2] == spec_shaft(path[0], path[1])
            &&& cmds[cmds.len() - 1] == spec_arrowhead(path[0], path[1])
            &&& forall|i: int|
                0 <= i < cmds.len() - 2 ==> !is_arrow_command(#[trigger] cmds[i])
        }),
{
    lemma_body_commands_not_arrows(b, Some(path));
    let body = spec_vline_commands(b) + spec_hline_commands(b) + spec_cell_commands(
        b,
        Some(path),
    );
    let arrows = spec_arrow_commands(Some(path));
    let cmds = spec_render_commands(b, Some(path));
    assert(arrows.len() == 2);
    assert(arrows[0] == spec_shaft(path[0], path[1]));
    assert(arrows[1] == spec_arrowhead(path[0], path[1]));
    assert(cmds =~= body + arrows);
    assert(cmds[cmds.len() - 2] == arrows[0]);
    assert(cmds[cmds.len() - 1] == arrows[1]);
    assert forall|i: int| 0 <= i < cmds.len() - 2 implies !is_arrow_command(cmds[i]) by {
        assert(cmds[i] == body[i]);
    }
}

/// The color the cell at `p` is drawn in, given the optional path.
fn cell_color(pos_path: Option<&Vec<Pos>>, p: Pos) -> (c: Color)
    ensures
        c == spec_cell_color(path_view(pos_path), p),
{
    match pos_path {
        None => Color::Black,
        Some(v) => {
            if v.len() > 0 {
                if v[v.len() - 1] == p {
                    Color::Red
                } else if v[0] == p {
                    Color::Blue
                } else {
                    Color::Black
                }
            } else {
                Color::Black
            }
        },
    }
}

/// The pixel endpoint of an arrow segment at the cell at `start`, inset
/// toward the cell at `end` by a fixed offset per axis.
pub fn line_endpoint(start: &Pos, end: &Pos) -> (r: (i32, i32))
    ensures
        r.0 as int == endpoint_x(*start, *end),
        r.1 as int == endpoint_y(*start, *end),
{
    let dx: i32 = if end.0 > start.0 {
        1
    } else if end.0 < start.0 {
        -1
    } else {
        0
    };
    let dy: i32 = if end.1 > start.1 {
        1
    } else if end.1 < start.1 {
        -1
    } else {
        0
    };
    (
        start.0 as i32 * CELL_SIZE_PX + CELL_CENTER_PX + ARROW_INSET_PX * dx,
        start.1 as i32 * CELL_SIZE_PX + CELL_CENTER_PX + ARROW_INSET_PX * dy,
    )
}

impl Board {
    /// Lays out the whole picture: the exact image dimensions and, in
    /// stacking order, the interior grid lines, one command per cell (wall
    /// fill or cost digit, path endpoints highlighted), and a shaft and a
    /// head for every consecutive pair of path positions.
    pub fn render_plan(&self, pos_path: Option<&Vec<Pos>>) -> (r: RenderPlan)
        requires
            self.wf(),
        ensures
            r.width_px == self.width as u32 * 50,
            r.height_px == self.height as u32 * 50,
            r.commands@ == spec_render_commands(*self, path_view(pos_path)),
    {
        let ghost path = path_view(pos_path);
        let width = self.width as usize;
        let height = self.height as usize;
        let mut commands: Vec<DrawCommand> = Vec::new();
        let mut i: usize = 0;
        while i < width - 1
            invariant
                self.wf(),
                width == self.width as int,
                0 <= i <= width - 1,
                commands@ == spec_vline_commands(*self).take(i as int),
            decreases width - 1 - i,
        {
            commands.push(DrawCommand::GridLineVertical { x_px: (i as i32 + 1) * CELL_SIZE_PX });
            proof {
                assert(commands@ =~= spec_vline_commands(*self).take(i as int + 1));
            }
            i += 1;
        }
        proof {
            assert(spec_vline_commands(*self).take(width - 1) =~= spec_vline_commands(*self));
        }
        let mut i: usize = 0;
        while i < height - 1
            invariant
                self.wf(),
                width == self.width as int,
                height == self.height as int,
                0 <= i <= height - 1,
                commands@ == spec_vline_commands(*self) + spec_hline_commands(*self).take(
                    i as int,
                ),
            decreases height - 1 - i,
        {
            commands.push(DrawCommand::GridLineHorizontal { y_px: (i as i32 + 1) * CELL_SIZE_PX });
            proof {
                assert(commands@ =~= spec_vline_commands(*self) + spec_hline_commands(
                    *self,
                ).take(i as int + 1));
            }
            i += 1;
        }
        proof {
            assert(spec_hline_commands(*self).take(height - 1) =~= spec_hline_commands(*self));
            assert(commands@ =~= spec_vline_commands(*self) + spec_hline_commands(*self));
        }
        let ghost grid_lines = spec_vline_commands(*self) + spec_hline_commands(*self);
        proof {
            assert(width * height <= 255 * 255) by (nonlinear_arith)
                requires
                    0 <= width <= 255,
                    0 <= height <= 255,
            ;
        }
        let total = width * height;
        let mut k: usize = 0;
        while k < total
            invariant
                self.wf(),
                width == self.width as int,
                height == self.height as int,
                total == width * height,
                path == path_view(pos_path),
                0 <= k <= width * height,
                commands@ == grid_lines + spec_cell_commands(*self, path).take(k as int),
            decreases width * height - k,
        {
            let x = k % width;
            let y = k / width;
            proof {
                assert(y < height) by (nonlinear_arith)
                    requires
                        k < width * height,
                        y == k as int / width as int,
                        width > 0,
                ;
            }
            let color = cell_color(pos_path, Pos(x as i16, y as i16));
            let cmd = match self.data[y][x] {
                Cell::Blocked => DrawCommand::FillCell {
                    x_px: x as i32 * CELL_SIZE_PX,
                    y_px: y as i32 * CELL_SIZE_PX,
                    color,
                },
                Cell::Cost(c) => DrawCommand::Digit {
                    x_px: x as i32 * CELL_SIZE_PX + TEXT_OFFSET_PX,
                    y_px: y as i32 * CELL_SIZE_PX + TEXT_OFFSET_PX,
                    value: c,
                    color,
                },
            };
            commands.push(cmd);
            proof {
                assert(cmd == spec_cell_command(*self, path, k as int % width as int, k as int / width as int));
                assert(commands@ =~= grid_lines + spec_cell_commands(*self, path).take(
                    k as int + 1,
                ));
            }
            k += 1;
        }
        proof {
            assert(spec_cell_commands(*self, path).take(width * height) =~= spec_cell_commands(
                *self,
                path,
            ));
        }
        let ghost body = grid_lines + spec_cell_commands(*self, path);
        if let Some(path_vec) = pos_path {
            if path_vec.len() >= 2 {
                let mut j: usize = 0;
                while j < path_vec.len() - 1
                    invariant
                        path == path_view(pos_path),
                        pos_path == Some(path_vec),
                        path_vec@.len() >= 2,
                        0 <= j <= path_vec@.len() - 1,
                        commands@ == body + spec_arrow_commands(path).take(2 * j as int),
                    decreases path_vec@.len() - 1 - j,
                {
                    let a = path_vec[j];
                    let b = path_vec[j + 1];
                    let start_ep = line_endpoint(&a, &b);
                    let end_ep = line_endpoint(&b, &a);
                    commands.push(
                        DrawCommand::ArrowShaft {
                            x0_px: start_ep.0,
                            y0_px: start_ep.1,
                            x1_px: end_ep.0,
                            y1_px: end_ep.1,
                            color: Color::LightGray,
                        },
                    );
                    commands.push(
                        DrawCommand::ArrowHead {
                            x0_px: start_ep.0,
                            y0_px: start_ep.1,
                            x1_px: end_ep.0,
                            y1_px: end_ep.1,
                            color: Color::LightGray,
                        },
                    );
                    proof {
                        assert(spec_arrow_commands(path)[2 * j as int] == spec_shaft(a, b));
                        assert(spec_arrow_commands(path)[2 * j as int + 1] == spec_arrowhead(
                            a,
                            b,
                        ));
                        assert(commands@ =~= body + spec_arrow_commands(path).take(
                            2 * (j as int + 1),
                        ));
                    }
                    j += 1;
                }
                proof {
                    assert(spec_arrow_commands(path).take(2 * (path_vec@.len() - 1))
                        =~= spec_arrow_commands(path));
                }
            } else {
                proof {
                    assert(spec_arrow_commands(path) =~= Seq::<DrawCommand>::empty());
                }
            }
        }
        proof {
            assert(commands@ =~= spec_render_commands(*self, path));
        }
        RenderPlan {
            width_px: self.width as u32 * (CELL_SIZE_PX as u32),
            height_px: self.height as u32 * (CELL_SIZE_PX as u32),
            commands,
        }
    }
}

} // verus!
