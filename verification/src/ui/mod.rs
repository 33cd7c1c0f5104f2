//! What the panels of the window decide, apart from the drawing.

pub mod file_list;
pub mod git_panel;
pub mod prefs;
pub mod search_overlay;
pub mod sidebar;
pub mod tab_bar;
pub mod terminal_input;
pub mod terminal_panel;
pub mod toasts;
