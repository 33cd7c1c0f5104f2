//! The tab bar.

use vstd::prelude::*;

verus! {

/// What the tab bar asks for.
#[derive(Clone, Copy, Debug, PartialEq, Eq, Structural)]
pub enum TabBarAction {
    Switch(usize),
    Close(usize),
    New,
    /// A tab has begun to be dragged.
    DragTab(usize),
}

/// Whether tabs can be closed: not the last one.
pub fn shows_close(tab_count: usize) -> (r: bool)
    ensures
        r == (tab_count > 1),
{
    tab_count > 1
}

/// Whether the active tab is to be scrolled to: once it or the number of tabs has changed.
pub fn reveals_active(last: Option<(usize, usize)>, active: usize, tab_count: usize) -> (r: bool)
    ensures
        r == (last != Some((active, tab_count))),
{
    match last {
        Some(l) => l.0 != active || l.1 != tab_count,
        None => true,
    }
}

} // verus!
