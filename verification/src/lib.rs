//! A weighted-grid pathfinding board: a rectangular grid of traversal costs
//! and obstacles parsed from text, a successor generator for graph-search
//! routines, and a render plan describing how to draw the grid and a path.

pub mod grid;
pub mod render;
pub mod successors;

pub use grid::Board;
pub use render::Color;
pub use render::DrawCommand;
pub use render::RenderPlan;
pub use successors::Successor;
pub use grid::Cell;
pub use grid::ParseError;
pub use grid::Pos;
