//! What the explorer decides for the desktop around it: drags to other programs, the clipboard,
//! other programs to open.

pub mod clipboard;
pub mod drag;
pub mod opener;
