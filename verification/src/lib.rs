//! Ghostty theme browsing: theme-file parsing, colour handling, theme
//! filtering and ordering, and the picker's state machine.

pub mod text;
pub mod color;
pub mod theme;
pub mod config;
pub mod process;
pub mod picker;
pub mod cli;
pub mod preview;
