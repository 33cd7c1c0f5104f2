//! The two panes of the window: which has the focus, how tabs go from one to the other, and what
//! the directories that they show have in common.

use vstd::prelude::*;

use crate::browser::pane;
use crate::browser::pane::{
    cycle_tab_index, PaneState, PaneView, TabCycleDirection, TabFacts, TabRead,
};
use crate::browser::tab;
use crate::browser::tab::{DirRead, TabState, TabView};
use crate::model::display_text;
use crate::path;
use crate::path::FsPath;
use crate::path_list;
use crate::path_list::push_unique;
use crate::text;
use crate::text::concat3;
use crate::ui::tab_bar::TabBarAction;

verus! {

/// A side of the window.
#[derive(Clone, Copy, Debug, PartialEq, Eq, Structural)]
pub enum PaneSide {
    Left,
    Right,
}

/// The panes. The right one need not be there.
#[derive(Debug)]
pub struct Browser {
    pub left: PaneState,
    pub right: Option<PaneState>,
    pub focus: PaneSide,
}

/// The panes by their parts.
#[verifier::ext_equal]
pub struct BrowserView {
    pub left: PaneView,
    pub right: Option<PaneView>,
    pub focus: PaneSide,
}

/// An optional pane by its parts.
pub open spec fn optional_pane(p: Option<PaneState>) -> Option<PaneView> {
    match p {
        Some(q) => Some(q@),
        None => None,
    }
}

impl View for Browser {
    type V = BrowserView;

    open spec fn view(&self) -> BrowserView {
        BrowserView {
            left: self.left@,
            right: optional_pane(self.right),
            focus: self.focus,
        }
    }
}

impl BrowserView {
    /// Whether the panes are well formed, and the focus is on one that is there.
    pub open spec fn wf(self) -> bool {
        &&& self.left.wf()
        &&& self.right is Some ==> self.right->0.wf()
        &&& self.focus == PaneSide::Right ==> self.right is Some
    }

    /// The pane that has the focus.
    pub open spec fn focused(self) -> PaneView {
        match (self.focus, self.right) {
            (PaneSide::Right, Some(p)) => p,
            _ => self.left,
        }
    }

    /// The tab that is shown in the pane that has the focus.
    pub open spec fn current(self) -> TabView {
        self.focused().tabs[self.focused().active]
    }

    /// The panes with another one where the focus is.
    pub open spec fn with_focused(self, p: PaneView) -> BrowserView {
        match (self.focus, self.right) {
            (PaneSide::Right, Some(_)) => BrowserView { right: Some(p), ..self },
            _ => BrowserView { left: p, ..self },
        }
    }

    /// The panes without the right one.
    pub open spec fn unsplit(self) -> BrowserView {
        BrowserView { right: None, focus: PaneSide::Left, ..self }
    }
}

/// The panes with the focus on the other one, where there is one.
pub open spec fn focus_switched(b: BrowserView) -> BrowserView {
    BrowserView {
        focus: if b.focus == PaneSide::Left && b.right is Some {
            PaneSide::Right
        } else {
            PaneSide::Left
        },
        ..b
    }
}

/// A tab at the directory of another, once that has been read.
pub open spec fn reopened(t: TabView, read: DirRead, show_hidden: bool) -> TabView {
    tab::after_reload(tab::opened(t.path), read, show_hidden, true)
}

/// A pane with a further tab, or a new one of it.
pub open spec fn joined_by_tab(p: Option<PaneView>, t: TabView) -> PaneView {
    match p {
        Some(q) => pane::with_tab(q, t),
        None => pane::pane_of(t),
    }
}

/// The panes once a tab has gone to the right: the last one of the left stays there, and another
/// is opened at its directory.
pub open spec fn moved_right(b: BrowserView, idx: int, read: DirRead, show_hidden: bool) -> BrowserView {
    if b.left.tabs.len() == 1 {
        BrowserView {
            right: Some(joined_by_tab(b.right, reopened(b.left.tabs[0], read, show_hidden))),
            focus: PaneSide::Right,
            ..b
        }
    } else {
        BrowserView {
            left: pane::without_tab(b.left, idx),
            right: Some(joined_by_tab(b.right, b.left.tabs[idx])),
            focus: PaneSide::Right,
        }
    }
}

/// The panes once a tab has gone to the left: with the last one of the right, another is opened at
/// its directory and the right pane goes.
pub open spec fn moved_left(b: BrowserView, idx: int, read: DirRead, show_hidden: bool) -> BrowserView {
    match b.right {
        Some(r) => if r.tabs.len() == 1 {
            BrowserView {
                left: pane::with_tab(b.left, reopened(r.tabs[0], read, show_hidden)),
                right: None,
                focus: PaneSide::Left,
            }
        } else {
            BrowserView {
                left: pane::with_tab(b.left, r.tabs[idx]),
                right: Some(pane::without_tab(r, idx)),
                focus: PaneSide::Left,
            }
        },
        None => BrowserView { focus: PaneSide::Left, ..b },
    }
}

/// A tab that is being dragged.
#[derive(Clone, Copy, Debug, PartialEq, Eq, Structural)]
pub struct TabDrag {
    pub from: PaneSide,
    pub tab_idx: usize,
}

/// What an action of a tab bar left to do.
#[derive(Clone, Copy, Debug, PartialEq, Eq, Structural)]
pub struct TabBarOutcome {
    /// A tab that has begun to be dragged.
    pub drag: Option<TabDrag>,
    /// Whether the right pane should go.
    pub remove_right: bool,
}

/// The pane on a side.
pub open spec fn pane_on(b: BrowserView, side: PaneSide) -> PaneView {
    match (side, b.right) {
        (PaneSide::Right, Some(p)) => p,
        _ => b.left,
    }
}

/// The panes with another one on a side.
pub open spec fn with_pane_on(b: BrowserView, side: PaneSide, p: PaneView) -> BrowserView {
    match (side, b.right) {
        (PaneSide::Right, Some(_)) => BrowserView { right: Some(p), ..b },
        _ => BrowserView { left: p, ..b },
    }
}

/// The panes after an action of the tab bar on a side.
pub open spec fn after_tab_action(
    b: BrowserView,
    side: PaneSide,
    action: TabBarAction,
    read: DirRead,
    show_hidden: bool,
) -> BrowserView {
    let p = pane_on(b, side);
    match action {
        TabBarAction::Switch(i) => BrowserView {
            focus: side,
            ..with_pane_on(b, side, PaneView { active: i as int, ..p })
        },
        TabBarAction::Close(i) => if p.tabs.len() == 1 {
            b
        } else {
            with_pane_on(b, side, pane::without_tab(p, i as int))
        },
        TabBarAction::New => BrowserView {
            focus: side,
            ..with_pane_on(
                b,
                side,
                pane::with_new_tab(p, reopened(p.tabs[p.active], read, show_hidden)),
            )
        },
        TabBarAction::DragTab(_) => b,
    }
}

/// Whether an action of a tab bar speaks of a tab that is there.
pub open spec fn action_fits(p: PaneView, action: TabBarAction) -> bool {
    match action {
        TabBarAction::Switch(i) => i < p.tabs.len(),
        TabBarAction::Close(i) => i < p.tabs.len(),
        TabBarAction::New => true,
        TabBarAction::DragTab(i) => i < p.tabs.len(),
    }
}

/// The directories of tabs.
pub open spec fn tab_dirs(tabs: Seq<TabView>) -> Seq<Seq<u8>> {
    tabs.map_values(|t: TabView| t.path)
}

/// The directories that are shown, each once.
pub open spec fn shown_dirs(b: BrowserView) -> Seq<Seq<u8>> {
    let left = path_list::all_pushed(Seq::empty(), tab_dirs(b.left.tabs));
    match b.right {
        Some(r) => path_list::all_pushed(left, tab_dirs(r.tabs)),
        None => left,
    }
}

/// What is said of a directory that is missing and the one that is shown in its place.
pub open spec fn move_text(m: (Seq<u8>, Seq<u8>)) -> Seq<char> {
    "Folder moved or removed: "@ + display_text::shown(m.0) + "\nShowing: "@ + display_text::shown(
        m.1,
    )
}

/// What reloading tabs came to.
#[derive(Debug)]
pub struct ReloadReport {
    /// Messages to show.
    pub messages: Vec<String>,
    /// The directories that could not be read, with the errors.
    pub errors: Vec<(FsPath, String)>,
}

/// The facts about the tabs of an optional pane.
pub open spec fn optional_facts_fit(p: Option<PaneView>, facts: Seq<TabFacts>) -> bool {
    match p {
        Some(q) => pane::facts_fit(q.tabs, facts),
        None => true,
    }
}

/// The moves of the tabs of both panes, each once.
pub open spec fn all_moves(
    b: BrowserView,
    left: Seq<TabFacts>,
    right: Seq<TabFacts>,
    dirs: Seq<Seq<u8>>,
) -> Seq<(Seq<u8>, Seq<u8>)> {
    let first = pane::moves_of(
        Seq::empty(),
        b.left.tabs,
        left,
        dirs,
        b.left.tabs.len() as int,
    );
    match b.right {
        Some(r) => pane::moves_of(first, r.tabs, right, dirs, r.tabs.len() as int),
        None => first,
    }
}

/// The failures of the tabs of both panes.
pub open spec fn all_failures(
    b: BrowserView,
    left: Seq<TabFacts>,
    right: Seq<TabFacts>,
    dirs: Seq<Seq<u8>>,
) -> Seq<(Seq<u8>, Seq<char>)> {
    let first = pane::failures_of(
        Seq::empty(),
        b.left.tabs,
        left,
        dirs,
        b.left.tabs.len() as int,
    );
    match b.right {
        Some(r) => pane::failures_of(first, r.tabs, right, dirs, r.tabs.len() as int),
        None => first,
    }
}

/// The panes once the tabs in the given directories have been reloaded.
pub open spec fn refreshed_panes(
    b: BrowserView,
    left: Seq<TabFacts>,
    right: Seq<TabFacts>,
    dirs: Seq<Seq<u8>>,
    show_hidden: bool,
) -> BrowserView {
    BrowserView {
        left: PaneView {
            tabs: pane::refreshed_tabs(b.left.tabs, left, dirs, show_hidden),
            ..b.left
        },
        right: match b.right {
            Some(r) => Some(
                PaneView { tabs: pane::refreshed_tabs(r.tabs, right, dirs, show_hidden), ..r },
            ),
            None => None,
        },
        ..b
    }
}

/// Adds the directories of tabs to a list, each once.
fn push_tab_dirs(list: &mut Vec<FsPath>, tabs: &Vec<TabState>)
    ensures
        path::path_views(final(list)@) == path_list::all_pushed(
            path::path_views(old(list)@),
            tab_dirs(pane::tab_views(tabs@)),
        ),
{
    let ghost start = path::path_views(list@);
    let ghost dirs = tab_dirs(pane::tab_views(tabs@));
    let mut i: usize = 0;
    assert(dirs.take(0) =~= Seq::empty());
    while i < tabs.len()
        invariant
            i <= tabs@.len(),
            dirs == tab_dirs(pane::tab_views(tabs@)),
            path::path_views(list@) == path_list::all_pushed(start, dirs.take(i as int)),
        decreases tabs@.len() - i,
    {
        proof {
            assert(dirs.take(i + 1).drop_last() =~= dirs.take(i as int));
            assert(dirs.take(i + 1).last() == tabs@[i as int].current_path@);
        }
        push_unique(list, tabs[i].current_path.clone());
        i += 1;
    }
    assert(dirs.take(i as int) =~= dirs);
}

impl Browser {
    /// The pane that has the focus.
    pub fn focused_pane(&self) -> (r: &PaneState)
        ensures
            r@ == self@.focused(),
    {
        match self.focus {
            PaneSide::Left => &self.left,
            PaneSide::Right => match &self.right {
                Some(p) => p,
                None => &self.left,
            },
        }
    }

    /// The pane that has the focus, to be changed.
    pub fn focused_pane_mut(&mut self) -> (r: &mut PaneState)
        ensures
            r@ == old(self)@.focused(),
            final(self)@ == old(self)@.with_focused(final(r)@),
    {
        match self.focus {
            PaneSide::Left => &mut self.left,
            PaneSide::Right => match &mut self.right {
                Some(p) => p,
                None => &mut self.left,
            },
        }
    }

    /// Moves a tab of the left pane to the right one, with what reading the directory of the first
    /// tab gave, for where it is the last one.
    pub fn move_tab_to_right(&mut self, tab_idx: usize, read: &DirRead, show_hidden: bool)
        requires
            old(self)@.wf(),
            old(self)@.left.tabs.len() == 1 || tab_idx < old(self)@.left.tabs.len(),
        ensures
            final(self)@ == moved_right(old(self)@, tab_idx as int, *read, show_hidden),
            final(self)@.wf(),
    {
        let ghost before = self@;
        let tab = match self.left.take_tab(tab_idx) {
            Some(t) => t,
            None => {
                assert(before.left.tabs[0] == self.left.tabs@[0]@);
                TabState::new(self.left.tabs[0].current_path.clone(), read, show_hidden)
            },
        };
        match &mut self.right {
            Some(r) => {
                r.add_tab(tab);
            },
            None => {
                self.right = Some(PaneState::of_tab(tab));
            },
        }
        self.focus = PaneSide::Right;
    }

    /// Moves a tab of the right pane to the left one, with what reading the directory of the first
    /// tab gave, for where it is the last one.
    pub fn move_tab_to_left(&mut self, tab_idx: usize, read: &DirRead, show_hidden: bool)
        requires
            old(self)@.wf(),
            old(self)@.right is Some ==> old(self)@.right->0.tabs.len() == 1 || tab_idx < old(
                self,
            )@.right->0.tabs.len(),
        ensures
            final(self)@ == moved_left(old(self)@, tab_idx as int, *read, show_hidden),
            final(self)@.wf(),
    {
        let mut right: Option<PaneState> = None;
        std::mem::swap(&mut right, &mut self.right);
        match right {
            Some(mut r) => {
                let ghost pane = r@;
                match r.take_tab(tab_idx) {
                    Some(t) => {
                        self.left.add_tab(t);
                        self.right = Some(r);
                    },
                    None => {
                        assert(pane.tabs[0] == r.tabs@[0]@);
                        let t = TabState::new(r.tabs[0].current_path.clone(), read, show_hidden);
                        self.left.add_tab(t);
                    },
                }
            },
            None => {},
        }
        self.focus = PaneSide::Left;
    }

    /// Drops a tab that was dragged, in the right half of the panes or in the left one. Dropped on
    /// its own side it stays.
    pub fn drop_tab(&mut self, drag: TabDrag, in_right_zone: bool, read: &DirRead, show_hidden: bool)
        requires
            old(self)@.wf(),
            drag.from == PaneSide::Left && in_right_zone ==> old(self)@.left.tabs.len() == 1
                || drag.tab_idx < old(self)@.left.tabs.len(),
            drag.from == PaneSide::Right && !in_right_zone && old(self)@.right is Some ==> old(
                self,
            )@.right->0.tabs.len() == 1 || drag.tab_idx < old(self)@.right->0.tabs.len(),
        ensures
            final(self)@ == match drag.from {
                PaneSide::Left => if in_right_zone {
                    moved_right(old(self)@, drag.tab_idx as int, *read, show_hidden)
                } else {
                    old(self)@
                },
                PaneSide::Right => if in_right_zone {
                    old(self)@
                } else {
                    moved_left(old(self)@, drag.tab_idx as int, *read, show_hidden)
                },
            },
            final(self)@.wf(),
    {
        match drag.from {
            PaneSide::Left => {
                if in_right_zone {
                    self.move_tab_to_right(drag.tab_idx, read, show_hidden);
                }
            },
            PaneSide::Right => {
                if !in_right_zone {
                    self.move_tab_to_left(drag.tab_idx, read, show_hidden);
                }
            },
        }
    }

    /// Closes the right pane.
    pub fn close_right(&mut self)
        requires
            old(self)@.wf(),
        ensures
            final(self)@ == old(self)@.unsplit(),
            final(self)@.wf(),
    {
        self.right = None;
        self.focus = PaneSide::Left;
    }

    /// Closes the tab that is shown where the focus is. The last one of the left pane stays, and
    /// with the last one of the right pane that pane goes.
    pub fn close_active_tab(&mut self)
        requires
            old(self)@.wf(),
        ensures
            final(self)@ == if old(self)@.focused().tabs.len() > 1 {
                old(self)@.with_focused(
                    pane::without_tab(old(self)@.focused(), old(self)@.focused().active),
                )
            } else if old(self)@.focus == PaneSide::Right {
                old(self)@.unsplit()
            } else {
                old(self)@
            },
            final(self)@.wf(),
    {
        let ghost before = self@;
        match self.focus {
            PaneSide::Left => {
                let at = self.left.active_tab;
                let _ = self.left.close_tab(at);
            },
            PaneSide::Right => {
                let mut last = false;
                match &mut self.right {
                    Some(r) => {
                        let at = r.active_tab;
                        last = r.close_tab(at);
                    },
                    None => {},
                }
                if last {
                    self.close_right();
                }
            },
        }
    }

    /// Gives the focus to the other pane, where there is one.
    pub fn switch_focus(&mut self)
        requires
            old(self)@.wf(),
        ensures
            final(self)@ == focus_switched(old(self)@),
            final(self)@.wf(),
    {
        self.focus = match self.focus {
            PaneSide::Left => if self.right.is_some() {
                PaneSide::Right
            } else {
                PaneSide::Left
            },
            PaneSide::Right => PaneSide::Left,
        };
    }

    /// Shows a tab of the pane that has the focus, where it is there.
    pub fn switch_tab(&mut self, idx: usize)
        requires
            old(self)@.wf(),
        ensures
            final(self)@ == if idx < old(self)@.focused().tabs.len() {
                old(self)@.with_focused(
                    PaneView { active: idx as int, ..old(self)@.focused() },
                )
            } else {
                old(self)@
            },
            final(self)@.wf(),
    {
        let n: usize = self.focused_pane().tabs.len();
        assert(self@.focused().tabs.len() == n);
        let ghost before = self@;
        if idx < n {
            let pane = self.focused_pane_mut();
            pane.active_tab = idx;
            assert(pane@ =~= (PaneView { active: idx as int, ..before.focused() }));
        }
    }

    /// Shows the tab before or behind the one that is shown, where the focus is.
    pub fn cycle_tab(&mut self, direction: TabCycleDirection)
        requires
            old(self)@.wf(),
        ensures
            final(self)@ == old(self)@.with_focused(
                PaneView {
                    active: pane::cycled(
                        old(self)@.focused().active,
                        old(self)@.focused().tabs.len() as int,
                        direction,
                    ),
                    ..old(self)@.focused()
                },
            ),
            final(self)@.wf(),
    {
        let ghost before = self@;
        proof {
            pane::cycling_back_undoes_cycling(
                before.focused().active,
                before.focused().tabs.len() as int,
            );
        }
        let pane = self.focused_pane_mut();
        assert(pane@.tabs.len() == pane.tabs@.len());
        let at = cycle_tab_index(pane.active_tab, pane.tabs.len(), direction);
        pane.active_tab = at;
        assert(pane@ =~= (PaneView { active: at as int, ..before.focused() }));
    }

    /// Takes in an action of the tab bar on a side, with what reading the directory that is shown
    /// there gave.
    pub fn handle_tab_action(
        &mut self,
        side: PaneSide,
        action: TabBarAction,
        read: &DirRead,
        show_hidden: bool,
    ) -> (r: TabBarOutcome)
        requires
            old(self)@.wf(),
            side == PaneSide::Right ==> old(self)@.right is Some,
            action_fits(pane_on(old(self)@, side), action),
        ensures
            final(self)@ == after_tab_action(old(self)@, side, action, *read, show_hidden),
            final(self)@.wf(),
            r.drag == (match action {
                TabBarAction::DragTab(i) => Some(TabDrag { from: side, tab_idx: i }),
                _ => None,
            }),
            r.remove_right == (action is Close && side == PaneSide::Right && pane_on(
                old(self)@,
                side,
            ).tabs.len() == 1),
    {
        let ghost before = self@;
        let ghost p = pane_on(before, side);
        let mut outcome = TabBarOutcome { drag: None, remove_right: false };
        let mut last = false;
        {
            let pane = match side {
                PaneSide::Left => &mut self.left,
                PaneSide::Right => match &mut self.right {
                    Some(q) => q,
                    None => &mut self.left,
                },
            };
            match action {
                TabBarAction::Switch(i) => {
                    pane.active_tab = i;
                    assert(pane@ =~= (PaneView { active: i as int, ..p }));
                },
                TabBarAction::Close(i) => {
                    last = pane.close_tab(i);
                },
                TabBarAction::New => {
                    pane.new_tab(read, show_hidden);
                },
                TabBarAction::DragTab(_) => {},
            }
        }
        match action {
            TabBarAction::Switch(_) => {
                self.focus = side;
            },
            TabBarAction::Close(_) => match side {
                PaneSide::Right => {
                    outcome.remove_right = last;
                },
                PaneSide::Left => {},
            },
            TabBarAction::New => {
                self.focus = side;
            },
            TabBarAction::DragTab(i) => {
                outcome.drag = Some(TabDrag { from: side, tab_idx: i });
            },
        }
        assert(self@ =~= after_tab_action(before, side, action, *read, show_hidden));
        outcome
    }

    /// The directories that are shown, each once.
    pub fn displayed_directories(&self) -> (r: Vec<FsPath>)
        ensures
            path::path_views(r@) == shown_dirs(self@),
    {
        let mut out: Vec<FsPath> = Vec::new();
        assert(path::path_views(out@) =~= Seq::empty());
        push_tab_dirs(&mut out, &self.left.tabs);
        match &self.right {
            Some(r) => push_tab_dirs(&mut out, &r.tabs),
            None => {},
        }
        out
    }

    /// Takes in what reading the directories of all tabs gave.
    pub fn reload_all(
        &mut self,
        left_reads: &Vec<TabRead>,
        right_reads: &Vec<TabRead>,
        show_hidden: bool,
    )
        requires
            old(self)@.wf(),
            left_reads@.len() == old(self)@.left.tabs.len(),
            old(self)@.right is Some ==> right_reads@.len() == old(self)@.right->0.tabs.len(),
        ensures
            final(self)@.left == reread(old(self)@.left, left_reads@, show_hidden),
            final(self)@.right == (match old(self)@.right {
                Some(r) => Some(reread(r, right_reads@, show_hidden)),
                None => None,
            }),
            final(self)@.focus == old(self)@.focus,
            final(self)@.wf(),
    {
        let ghost before = self@;
        self.left.reload_all(left_reads, show_hidden);
        assert(self.left@ =~= reread(before.left, left_reads@, show_hidden));
        match &mut self.right {
            Some(r) => {
                r.reload_all(right_reads, show_hidden);
                assert(r@ =~= reread(before.right->0, right_reads@, show_hidden));
            },
            None => {},
        }
    }

    /// Takes in what reading the directories of all tabs gave, for those that show one of `dirs`.
    pub fn reload_shown(
        &mut self,
        dirs: &Vec<FsPath>,
        left_reads: &Vec<TabRead>,
        right_reads: &Vec<TabRead>,
        show_hidden: bool,
    )
        requires
            old(self)@.wf(),
            left_reads@.len() == old(self)@.left.tabs.len(),
            old(self)@.right is Some ==> right_reads@.len() == old(self)@.right->0.tabs.len(),
        ensures
            final(self)@.left == reread_shown(
                old(self)@.left,
                left_reads@,
                path::path_views(dirs@),
                show_hidden,
            ),
            final(self)@.right == (match old(self)@.right {
                Some(r) => Some(
                    reread_shown(r, right_reads@, path::path_views(dirs@), show_hidden),
                ),
                None => None,
            }),
            final(self)@.focus == old(self)@.focus,
            final(self)@.wf(),
    {
        let ghost before = self@;
        let ghost shown = path::path_views(dirs@);
        self.left.reload_shown(dirs, left_reads, show_hidden);
        assert(self.left@ =~= reread_shown(before.left, left_reads@, shown, show_hidden));
        match &mut self.right {
            Some(r) => {
                r.reload_shown(dirs, right_reads, show_hidden);
                assert(r@ =~= reread_shown(before.right->0, right_reads@, shown, show_hidden));
            },
            None => {},
        }
    }

    /// Takes in what was found out about the tabs in the given directories.
    pub fn reload_tabs_in_dirs(
        &mut self,
        dirs: &Vec<FsPath>,
        left_facts: &Vec<TabFacts>,
        right_facts: &Vec<TabFacts>,
        show_hidden: bool,
    ) -> (r: ReloadReport)
        requires
            old(self)@.wf(),
            pane::facts_fit(old(self)@.left.tabs, left_facts@),
            optional_facts_fit(old(self)@.right, right_facts@),
        ensures
            final(self)@ == refreshed_panes(
                old(self)@,
                left_facts@,
                right_facts@,
                path::path_views(dirs@),
                show_hidden,
            ),
            text::text_views(r.messages@) == all_moves(
                old(self)@,
                left_facts@,
                right_facts@,
                path::path_views(dirs@),
            ).map_values(|m: (Seq<u8>, Seq<u8>)| move_text(m)),
            pane::failure_views(r.errors@) == all_failures(
                old(self)@,
                left_facts@,
                right_facts@,
                path::path_views(dirs@),
            ),
            final(self)@.wf(),
    {
        let mut moves: Vec<(FsPath, FsPath)> = Vec::new();
        let mut errors: Vec<(FsPath, String)> = Vec::new();
        assert(pane::move_views(moves@) =~= Seq::empty());
        assert(pane::failure_views(errors@) =~= Seq::empty());
        self.left.reload_tabs_in_dirs(dirs, left_facts, show_hidden, &mut moves, &mut errors);
        match &mut self.right {
            Some(r) => {
                r.reload_tabs_in_dirs(dirs, right_facts, show_hidden, &mut moves, &mut errors);
            },
            None => {},
        }
        ReloadReport { messages: move_messages(&moves), errors }
    }

    /// Follows a directory that has been renamed in every tab that shows it. Says whether any has
    /// followed.
    pub fn follow_external_directory_rename(
        &mut self,
        old_path: &FsPath,
        new_path: &FsPath,
        new_is_dir: bool,
        read: &DirRead,
        show_hidden: bool,
        left_renamed: &Vec<bool>,
        right_renamed: &Vec<bool>,
    ) -> (r: bool)
        requires
            old(self)@.wf(),
            left_renamed@.len() == old(self)@.left.tabs.len(),
            old(self)@.right is Some ==> right_renamed@.len() == old(self)@.right->0.tabs.len(),
        ensures
            r == (new_is_dir && (pane::shows_dir(old(self)@.left.tabs, old_path@) || (old(
                self,
            )@.right is Some && pane::shows_dir(old(self)@.right->0.tabs, old_path@)))),
            final(self)@.left == pane_followed(
                old(self)@.left,
                old_path@,
                new_path@,
                new_is_dir,
                *read,
                show_hidden,
                left_renamed@,
            ),
            final(self)@.right == (match old(self)@.right {
                Some(p) => Some(
                    pane_followed(
                        p,
                        old_path@,
                        new_path@,
                        new_is_dir,
                        *read,
                        show_hidden,
                        right_renamed@,
                    ),
                ),
                None => None,
            }),
            final(self)@.focus == old(self)@.focus,
            final(self)@.wf(),
    {
        let ghost before = self@;
        let mut any = self.left.follow_external_directory_rename(
            old_path,
            new_path,
            new_is_dir,
            read,
            show_hidden,
            left_renamed,
        );
        assert(self.left@ =~= pane_followed(
            before.left,
            old_path@,
            new_path@,
            new_is_dir,
            *read,
            show_hidden,
            left_renamed@,
        ));
        match &mut self.right {
            Some(p) => {
                let more = p.follow_external_directory_rename(
                    old_path,
                    new_path,
                    new_is_dir,
                    read,
                    show_hidden,
                    right_renamed,
                );
                assert(p@ =~= pane_followed(
                    before.right->0,
                    old_path@,
                    new_path@,
                    new_is_dir,
                    *read,
                    show_hidden,
                    right_renamed@,
                ));
                any = any || more;
            },
            None => {},
        }
        any
    }

    /// Selects what has been pasted, where the tab that is shown still shows the directory that it
    /// was pasted into. `existing` is what exists of it.
    pub fn select_paste_results(&mut self, existing: &Vec<FsPath>, dest_dir: &FsPath)
        requires
            old(self)@.wf(),
        ensures
            if path::same_path(old(self)@.current().path, dest_dir@) && existing@.len() > 0 {
                final(self)@ == old(self)@.with_focused(
                    PaneView {
                        tabs: old(self)@.focused().tabs.update(
                            old(self)@.focused().active,
                            with_selected(old(self)@.current(), path::path_views(existing@)),
                        ),
                        ..old(self)@.focused()
                    },
                )
            } else {
                final(self)@ == old(self)@
            },
            final(self)@.wf(),
    {
        let ghost before = self@;
        let here = self.focused_pane().active().current_path.same(dest_dir);
        if here && existing.len() > 0 {
            let pane = self.focused_pane_mut();
            let ghost q = pane@;
            assert(q.tabs.len() == pane.tabs@.len());
            let at = pane.active_tab;
            assert(q.tabs[at as int] == pane.tabs@[at as int]@);
            pane.tabs[at].list_state.select_all(existing);
            proof {
                let t = with_selected(before.current(), path::path_views(existing@));
                assert(pane.tabs@[at as int]@ =~= t);
                assert(pane@.tabs =~= q.tabs.update(at as int, t));
                assert forall|i: int| 0 <= i < pane@.tabs.len() implies (
                #[trigger] pane@.tabs[i]).wf() by {
                    assert(q.tabs[i].wf());
                }
            }
        }
    }
}

/// A tab with these paths selected.
pub open spec fn with_selected(t: TabView, paths: Seq<Seq<u8>>) -> TabView {
    TabView {
        selection: crate::ui::file_list::Selection {
            selected: paths,
            anchor: if paths.len() > 0 {
                Some(paths.last())
            } else {
                None
            },
        },
        ..t
    }
}

/// A pane once all of its tabs have been reloaded.
pub open spec fn reread(p: PaneView, reads: Seq<TabRead>, show_hidden: bool) -> PaneView {
    PaneView {
        tabs: Seq::new(
            p.tabs.len(),
            |i: int|
                tab::after_reload(p.tabs[i], reads[i].read, show_hidden, reads[i].renamed_exists),
        ),
        ..p
    }
}

/// A pane once those of its tabs that show one of the given directories have been reloaded.
pub open spec fn reread_shown(
    p: PaneView,
    reads: Seq<TabRead>,
    dirs: Seq<Seq<u8>>,
    show_hidden: bool,
) -> PaneView {
    PaneView {
        tabs: Seq::new(
            p.tabs.len(),
            |i: int| pane::reread_in(p.tabs[i], reads[i], dirs, show_hidden),
        ),
        ..p
    }
}

/// A pane once its tabs have followed a directory that has been renamed.
pub open spec fn pane_followed(
    p: PaneView,
    from: Seq<u8>,
    to: Seq<u8>,
    to_is_dir: bool,
    read: DirRead,
    show_hidden: bool,
    renamed: Seq<bool>,
) -> PaneView {
    PaneView {
        tabs: Seq::new(
            p.tabs.len(),
            |i: int|
                pane::tab_followed(p.tabs[i], from, to, to_is_dir, read, show_hidden, renamed[i]),
        ),
        ..p
    }
}

/// What is said of directories that are missing.
pub fn move_messages(moves: &Vec<(FsPath, FsPath)>) -> (r: Vec<String>)
    ensures
        text::text_views(r@) == pane::move_views(moves@).map_values(
            |m: (Seq<u8>, Seq<u8>)| move_text(m),
        ),
{
    let ghost all = pane::move_views(moves@).map_values(|m: (Seq<u8>, Seq<u8>)| move_text(m));
    let mut out: Vec<String> = Vec::new();
    let mut i: usize = 0;
    assert(text::text_views(out@) =~= all.take(0));
    while i < moves.len()
        invariant
            i <= moves@.len(),
            all == pane::move_views(moves@).map_values(|m: (Seq<u8>, Seq<u8>)| move_text(m)),
            text::text_views(out@) == all.take(i as int),
        decreases moves@.len() - i,
    {
        let ghost before = text::text_views(out@);
        let from = display_text::path(&moves[i].0);
        let to = display_text::path(&moves[i].1);
        let mut line = concat3("Folder moved or removed: ", from.as_str(), "\nShowing: ");
        line.push_str(to.as_str());
        let ghost v = line@;
        out.push(line);
        i += 1;
        assert(text::text_views(out@) =~= before.push(v));
        assert(text::text_views(out@) =~= all.take(i as int));
    }
    assert(text::text_views(out@) =~= all);
    out
}

/// The directory of every tab is among those that are shown, and none is there twice.
pub proof fn shown_directories_are_listed_once(b: BrowserView)
    ensures
        path::distinct_paths(shown_dirs(b)),
        forall|i: int|
            0 <= i < b.left.tabs.len() ==> path::has_path(
                shown_dirs(b),
                (#[trigger] b.left.tabs[i]).path,
            ),
        b.right is Some ==> forall|i: int|
            0 <= i < b.right->0.tabs.len() ==> path::has_path(
                shown_dirs(b),
                (#[trigger] b.right->0.tabs[i]).path,
            ),
{
    let dirs = tab_dirs(b.left.tabs);
    path_list::all_pushed_paths_are_in_once(Seq::empty(), dirs);
    let left = path_list::all_pushed(Seq::empty(), dirs);
    assert forall|i: int| 0 <= i < b.left.tabs.len() implies path::has_path(
        left,
        (#[trigger] b.left.tabs[i]).path,
    ) by {
        assert(dirs[i] == b.left.tabs[i].path);
    }
    if b.right is Some {
        let more = tab_dirs(b.right->0.tabs);
        path_list::all_pushed_paths_are_in_once(left, more);
        assert forall|i: int| 0 <= i < b.right->0.tabs.len() implies path::has_path(
            shown_dirs(b),
            (#[trigger] b.right->0.tabs[i]).path,
        ) by {
            assert(more[i] == b.right->0.tabs[i].path);
        }
    }
}

/// How many tabs there are.
pub open spec fn tab_count(b: BrowserView) -> nat {
    b.left.tabs.len() + match b.right {
        Some(r) => r.tabs.len(),
        None => 0,
    }
}

/// A tab that is moved to the right is shown there, and no tab is lost: where it was the last one
/// of the left pane that keeps it, and one is added.
pub proof fn tab_moved_right_is_shown(b: BrowserView, idx: int, read: DirRead, show_hidden: bool)
    requires
        b.wf(),
        b.left.tabs.len() == 1 || 0 <= idx < b.left.tabs.len(),
    ensures
        moved_right(b, idx, read, show_hidden).current().path == b.left.tabs[if b.left.tabs.len()
            == 1 {
            0
        } else {
            idx
        }].path,
        tab_count(moved_right(b, idx, read, show_hidden)) == tab_count(b) + if b.left.tabs.len()
            == 1 {
            1int
        } else {
            0int
        },
        moved_right(b, idx, read, show_hidden).wf(),
{
    let after = moved_right(b, idx, read, show_hidden);
    let left = b.left;
    if left.tabs.len() > 1 {
        assert(after.left.wf()) by {
            assert forall|i: int| 0 <= i < after.left.tabs.len() implies (
            #[trigger] after.left.tabs[i]).wf() by {
                pane::closing_keeps_the_other_tabs(left, idx, i);
            }
            pane::closing_keeps_the_other_tabs(left, idx, 0);
        }
    }
}

/// A tab that is moved to the left is shown there, and no tab is lost.
pub proof fn tab_moved_left_is_shown(b: BrowserView, idx: int, read: DirRead, show_hidden: bool)
    requires
        b.wf(),
        b.right is Some,
        b.right->0.tabs.len() == 1 || 0 <= idx < b.right->0.tabs.len(),
    ensures
        moved_left(b, idx, read, show_hidden).current().path == b.right->0.tabs[if b.right->0.tabs.len()
            == 1 {
            0
        } else {
            idx
        }].path,
        tab_count(moved_left(b, idx, read, show_hidden)) == tab_count(b),
{
}

/// Giving the focus to the other pane and back leaves it where it was.
pub proof fn focus_switched_twice_is_back(b: BrowserView)
    requires
        b.wf(),
    ensures
        focus_switched(focus_switched(b)) == b,
{
}

/// Reloading leaves every tab alone whose directory is not among those that have changed.
pub proof fn other_tabs_are_not_reloaded(
    tabs: Seq<TabView>,
    facts: Seq<TabFacts>,
    dirs: Seq<Seq<u8>>,
    show_hidden: bool,
    i: int,
)
    requires
        0 <= i < tabs.len(),
        !path::has_path(dirs, tabs[i].path),
    ensures
        pane::refreshed_tabs(tabs, facts, dirs, show_hidden)[i] == tabs[i],
        pane::refreshed_tabs(tabs, facts, dirs, show_hidden).len() == tabs.len(),
{
}

/// The pane in focus is the right one where the focus is there, and the left one otherwise; changing
/// it leaves the other one alone.
pub proof fn focus_tells_the_pane(b: BrowserView, p: PaneView)
    requires
        b.wf(),
    ensures
        b.focus == PaneSide::Left ==> b.focused() == b.left && b.with_focused(p) == (BrowserView {
            left: p,
            ..b
        }),
        b.focus == PaneSide::Right ==> b.focused() == b.right->0 && b.with_focused(p)
            == (BrowserView { right: Some(p), ..b }),
        b.current() == b.focused().tabs[b.focused().active],
        b.unsplit().right is None && b.unsplit().left == b.left && b.unsplit().focus
            == PaneSide::Left,
        pane_on(b, PaneSide::Left) == b.left,
        b.right is Some ==> pane_on(b, PaneSide::Right) == b.right->0,
        with_pane_on(b, PaneSide::Left, p) == (BrowserView { left: p, ..b }),
        b.right is Some ==> with_pane_on(b, PaneSide::Right, p) == (BrowserView {
            right: Some(p),
            ..b
        }),
{
}

/// The focus goes to the other pane, and stays where there is only one.
pub proof fn focus_goes_to_the_other_pane(b: BrowserView)
    requires
        b.wf(),
    ensures
        b.right is Some && b.focus == PaneSide::Left ==> focus_switched(b).focus == PaneSide::Right,
        b.right is Some && b.focus == PaneSide::Right ==> focus_switched(b).focus == PaneSide::Left,
        b.right is None ==> focus_switched(b) == b,
        focus_switched(b).left == b.left && focus_switched(b).right == b.right,
{
}

/// A tab that is moved to the right stands behind those that are there and is itself, not a copy,
/// unless it is the only one on the left: then its directory is opened on the right as well. The tabs
/// that stay keep their order.
pub proof fn moved_right_tab_stands_last(
    b: BrowserView,
    idx: int,
    read: DirRead,
    show_hidden: bool,
    i: int,
)
    requires
        b.wf(),
        b.left.tabs.len() == 1 || 0 <= idx < b.left.tabs.len(),
    ensures
        ({
            let after = moved_right(b, idx, read, show_hidden);
            let right = after.right->0;
            let were: int = if b.right is Some {
                b.right->0.tabs.len() as int
            } else {
                0
            };
            &&& after.right is Some && after.focus == PaneSide::Right
            &&& right.tabs.len() == were + 1 && right.active == were
            &&& b.right is Some && 0 <= i < were ==> right.tabs[i] == b.right->0.tabs[i]
            &&& b.left.tabs.len() > 1 ==> right.tabs[were] == b.left.tabs[idx]
            &&& b.left.tabs.len() > 1 ==> after.left.tabs == b.left.tabs.remove(idx)
            &&& b.left.tabs.len() == 1 ==> after.left == b.left && right.tabs[were].path
                == b.left.tabs[0].path
        }),
{
    tab::reading_again_shows_what_is_there(
        tab::opened(b.left.tabs[0].path),
        read,
        show_hidden,
        true,
    );
}

/// A tab that is moved to the left stands behind those that are there; where it was the only one on
/// the right, its directory is opened on the left and the right pane goes.
pub proof fn moved_left_tab_stands_last(
    b: BrowserView,
    idx: int,
    read: DirRead,
    show_hidden: bool,
    i: int,
)
    requires
        b.wf(),
        b.right is Some,
        b.right->0.tabs.len() == 1 || 0 <= idx < b.right->0.tabs.len(),
    ensures
        ({
            let after = moved_left(b, idx, read, show_hidden);
            let were = b.left.tabs.len() as int;
            &&& after.focus == PaneSide::Left
            &&& after.left.tabs.len() == were + 1 && after.left.active == were
            &&& 0 <= i < were ==> after.left.tabs[i] == b.left.tabs[i]
            &&& b.right->0.tabs.len() > 1 ==> after.left.tabs[were] == b.right->0.tabs[idx]
                && after.right is Some && after.right->0.tabs == b.right->0.tabs.remove(idx)
            &&& b.right->0.tabs.len() == 1 ==> after.right is None && after.left.tabs[were].path
                == b.right->0.tabs[0].path
        }),
        b.right is None ==> moved_left(b, idx, read, show_hidden).left == b.left,
{
    tab::reading_again_shows_what_is_there(
        tab::opened(b.right->0.tabs[0].path),
        read,
        show_hidden,
        true,
    );
}

/// What the tab bar of a side asks for is done on that side: a tab comes to the front, a tab is
/// closed unless it is the only one, or a new one opens behind the one in front, at the same
/// directory. Showing and opening give that side the focus; the other side stays as it is.
pub proof fn tab_bar_acts_on_its_side(
    b: BrowserView,
    side: PaneSide,
    i: usize,
    read: DirRead,
    show_hidden: bool,
)
    requires
        b.wf(),
        side == PaneSide::Right ==> b.right is Some,
        i < pane_on(b, side).tabs.len(),
    ensures
        ({
            let old = pane_on(b, side);
            let shown = after_tab_action(b, side, TabBarAction::Switch(i), read, show_hidden);
            let closed = after_tab_action(b, side, TabBarAction::Close(i), read, show_hidden);
            let new = after_tab_action(b, side, TabBarAction::New, read, show_hidden);
            &&& shown.focus == side && pane_on(shown, side).active == i && pane_on(shown, side).tabs
                == old.tabs
            &&& old.tabs.len() == 1 ==> closed == b
            &&& old.tabs.len() > 1 ==> pane_on(closed, side).tabs == old.tabs.remove(i as int)
                && closed.focus == b.focus
            &&& new.focus == side && pane_on(new, side).tabs.len() == old.tabs.len() + 1
            &&& pane_on(new, side).active == old.active + 1
            &&& pane_on(new, side).tabs[old.active + 1].path == old.tabs[old.active].path
            &&& after_tab_action(b, side, TabBarAction::DragTab(i), read, show_hidden) == b
            &&& side == PaneSide::Left ==> shown.right == b.right && closed.right == b.right
                && new.right == b.right
            &&& side == PaneSide::Right ==> shown.left == b.left && closed.left == b.left
                && new.left == b.left
        }),
{
    let old = pane_on(b, side);
    tab::reading_again_shows_what_is_there(
        tab::opened(old.tabs[old.active].path),
        read,
        show_hidden,
        true,
    );
}

/// The directories that are shown are those of the tabs, and no others.
pub proof fn shown_directories_are_those_of_the_tabs(b: BrowserView, k: int)
    requires
        0 <= k < shown_dirs(b).len(),
    ensures
        (exists|i: int|
            0 <= i < b.left.tabs.len() && (#[trigger] b.left.tabs[i]).path == shown_dirs(b)[k])
            || (b.right is Some && exists|i: int|
            0 <= i < b.right->0.tabs.len() && (#[trigger] b.right->0.tabs[i]).path == shown_dirs(
                b,
            )[k]),
{
    let none = Seq::<Seq<u8>>::empty();
    let dirs = tab_dirs(b.left.tabs);
    let left = path_list::all_pushed(none, dirs);
    path_list::pushed_paths_stand_behind(none, dirs);
    let p = shown_dirs(b)[k];
    if k < left.len() {
        if b.right is Some {
            path_list::pushed_paths_stand_behind(left, tab_dirs(b.right->0.tabs));
        }
        assert(p == left[k]);
        assert(dirs.contains(left[k]));
        let i = dirs.index_of(p);
        assert(dirs[i] == b.left.tabs[i].path);
    } else {
        let more = tab_dirs(b.right->0.tabs);
        path_list::pushed_paths_stand_behind(left, more);
        assert(more.contains(p));
        let i = more.index_of(p);
        assert(more[i] == b.right->0.tabs[i].path);
    }
}

/// What is told of a directory that is gone: which it was, and which is shown in its place.
pub proof fn move_is_told_with_both_directories(from: Seq<u8>, to: Seq<u8>)
    ensures
        move_text((from, to)) == "Folder moved or removed: "@ + display_text::shown(from)
            + "\nShowing: "@ + display_text::shown(to),
{
}

/// What is to be selected is selected, and a range starts at the last of it. The rest stays.
pub proof fn selected_paths_are_selected(t: TabView, paths: Seq<Seq<u8>>)
    ensures
        with_selected(t, paths).selection.selected == paths,
        paths.len() > 0 ==> with_selected(t, paths).selection.anchor == Some(paths.last()),
        paths.len() == 0 ==> with_selected(t, paths).selection.anchor is None,
        (TabView { selection: t.selection, ..with_selected(t, paths) }) == t,
{
}

/// Reading all tabs again, or following a renaming, is done tab by tab: none comes, goes or changes
/// its place, and the same one stays in front.
pub proof fn tabs_keep_their_places(
    p: PaneView,
    reads: Seq<TabRead>,
    dirs: Seq<Seq<u8>>,
    show_hidden: bool,
    from: Seq<u8>,
    to: Seq<u8>,
    to_is_dir: bool,
    read: DirRead,
    renamed: Seq<bool>,
    i: int,
)
    requires
        0 <= i < p.tabs.len(),
    ensures
        ({
            let all = reread(p, reads, show_hidden);
            let some = reread_shown(p, reads, dirs, show_hidden);
            let moved = pane_followed(p, from, to, to_is_dir, read, show_hidden, renamed);
            &&& all.active == p.active && some.active == p.active && moved.active == p.active
            &&& all.tabs.len() == p.tabs.len() && some.tabs.len() == p.tabs.len()
                && moved.tabs.len() == p.tabs.len()
            &&& all.tabs[i].path == p.tabs[i].path && some.tabs[i].path == p.tabs[i].path
            &&& all.tabs[i] == tab::after_reload(
                p.tabs[i],
                reads[i].read,
                show_hidden,
                reads[i].renamed_exists,
            )
            &&& path::has_path(dirs, p.tabs[i].path) ==> some.tabs[i] == all.tabs[i]
            &&& !path::has_path(dirs, p.tabs[i].path) ==> some.tabs[i] == p.tabs[i]
            &&& !path::same_path(p.tabs[i].path, from) ==> moved.tabs[i] == p.tabs[i]
            &&& path::same_path(p.tabs[i].path, from) && to_is_dir ==> moved.tabs[i].path == to
        }),
{
    tab::reading_again_shows_what_is_there(
        p.tabs[i],
        reads[i].read,
        show_hidden,
        reads[i].renamed_exists,
    );
    pane::only_tabs_at_the_old_path_follow(
        p.tabs[i],
        from,
        to,
        to_is_dir,
        read,
        show_hidden,
        renamed[i],
    );
}

/// Refreshing goes through both panes and leaves the focus and the tabs in front as they are.
pub proof fn both_panes_are_refreshed(
    b: BrowserView,
    left: Seq<TabFacts>,
    right: Seq<TabFacts>,
    dirs: Seq<Seq<u8>>,
    show_hidden: bool,
)
    ensures
        ({
            let after = refreshed_panes(b, left, right, dirs, show_hidden);
            &&& after.focus == b.focus
            &&& after.left.active == b.left.active
            &&& after.left.tabs == pane::refreshed_tabs(b.left.tabs, left, dirs, show_hidden)
            &&& after.right is Some <==> b.right is Some
            &&& b.right is Some ==> after.right->0.active == b.right->0.active
                && after.right->0.tabs == pane::refreshed_tabs(
                b.right->0.tabs,
                right,
                dirs,
                show_hidden,
            )
        }),
        b.right is None ==> all_moves(b, left, right, dirs) == pane::moves_of(
            Seq::empty(),
            b.left.tabs,
            left,
            dirs,
            b.left.tabs.len() as int,
        ) && all_failures(b, left, right, dirs) == pane::failures_of(
            Seq::empty(),
            b.left.tabs,
            left,
            dirs,
            b.left.tabs.len() as int,
        ),
        b.right is Some ==> all_moves(b, left, right, dirs) == pane::moves_of(
            all_moves(b.unsplit(), left, right, dirs),
            b.right->0.tabs,
            right,
            dirs,
            b.right->0.tabs.len() as int,
        ) && all_failures(b, left, right, dirs) == pane::failures_of(
            all_failures(b.unsplit(), left, right, dirs),
            b.right->0.tabs,
            right,
            dirs,
            b.right->0.tabs.len() as int,
        ),
{
}

} // verus!
