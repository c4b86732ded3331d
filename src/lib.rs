//! An interactive, incremental selector: a match engine over a fixed list of
//! items, a sliding viewport over the matches, and the render/input state
//! machine that drives a terminal session.
pub mod selector;
pub mod sliding_window;
pub mod text;
pub mod ui;
