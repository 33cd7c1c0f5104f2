//! The terminal screen: cells, the grid with its cursor and scrollback, and the control sequences
//! that a shell sends to it.

pub mod cell;
pub mod effects;
pub mod grid;
pub mod osc7;
pub mod performer;
pub mod screen;
pub mod stream;
