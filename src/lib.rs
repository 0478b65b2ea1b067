//! Screen-management core of a terminal multiplexer: a per-pane terminal
//! emulator over a scrollable character grid, and a layout engine that tiles
//! the viewport with panes separated by one-cell borders.

pub mod character;
pub mod error;
pub mod grid;
pub mod layout;
pub mod pane;
pub mod screen;
