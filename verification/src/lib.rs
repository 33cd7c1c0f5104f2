//! The logic of a file explorer: the terminal screen, the directory model, selection, tabs,
//! drag and drop, session persistence and the git views, all stated over plain values.

pub mod browser;
pub mod git;
pub mod input;
pub mod model;
pub mod path;
pub mod path_list;
pub mod platform;
pub mod sort;
pub mod terminal;
pub mod text;
pub mod ui;
