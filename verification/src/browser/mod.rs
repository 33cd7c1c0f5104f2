//! The browser: tabs and panes, what their actions do, and what is kept between runs.

pub mod clipboard_ops;
pub mod file_actions;
pub mod file_drag;
pub mod git_actions;
pub mod pane;
pub mod panes;
pub mod repository;
pub mod session_sync;
pub mod shortcuts;
pub mod tab;
pub mod terminals;
pub mod transfer;
