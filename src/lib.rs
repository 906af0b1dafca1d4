//! A single-line status bar for a terminal multiplexer: the open tabs, the
//! keybindings of the current input mode grouped by what they do, and the
//! name of the mode, laid out within a fixed number of columns.
pub mod action;
pub mod bar;
pub mod group;
pub mod layout;
pub mod mode;
pub mod style;
pub mod text;
