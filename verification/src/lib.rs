//! A Sudoku constraint graph and puzzle generator.
//!
//! A 9x9 grid of cells is connected by row, column and box adjacency.  A
//! randomized backtracking search fills the grid into a complete valid
//! solution, a validity checker reports conflicting cells, and a clue-removal
//! routine turns a solved grid into a playable puzzle with a chosen number of
//! pre-filled cells.

pub mod cell;
pub mod evt;
pub mod graph;
pub mod random;
pub mod render;
pub mod value;
