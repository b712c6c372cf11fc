//! The decisions of the terminal interface that do not draw.
pub mod selection;
pub mod tui_handler;
