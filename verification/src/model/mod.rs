//! What the explorer knows: directory entries, tags, bookmarks, the session, the watcher.

pub mod bookmarks;
pub mod config;
pub mod display_text;
pub mod fs;
pub mod fs_watch;
pub mod global_tags;
pub mod property_list;
pub mod search;
pub mod session;
pub mod tags;
pub mod themes;
