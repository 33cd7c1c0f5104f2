//! A pane: a group of tabs, one of which is shown.

use vstd::prelude::*;

use crate::browser::tab;
use crate::browser::tab::{DirRead, ReloadOutcome, TabState, TabView};
use crate::path;
use crate::path::FsPath;
use crate::path_list::contains_path;

verus! {

/// A pane.
#[derive(Debug)]
pub struct PaneState {
    pub tabs: Vec<TabState>,
    pub active_tab: usize,
}

/// A pane by its tabs and the one that is shown.
#[verifier::ext_equal]
pub struct PaneView {
    pub tabs: Seq<TabView>,
    pub active: int,
}

/// Tabs by their parts.
pub open spec fn tab_views(tabs: Seq<TabState>) -> Seq<TabView> {
    tabs.map_values(|t: TabState| t@)
}

impl View for PaneState {
    type V = PaneView;

    open spec fn view(&self) -> PaneView {
        PaneView { tabs: tab_views(self.tabs@), active: self.active_tab as int }
    }
}

impl PaneView {
    /// Whether one of the tabs is shown, and every tab is well formed.
    pub open spec fn wf(self) -> bool {
        &&& 0 <= self.active < self.tabs.len()
        &&& forall|i: int| 0 <= i < self.tabs.len() ==> (#[trigger] self.tabs[i]).wf()
    }
}

/// A pane without one of its tabs. The place of the one that is shown stays, as far as there are
/// tabs.
pub open spec fn without_tab(p: PaneView, idx: int) -> PaneView {
    PaneView {
        tabs: p.tabs.remove(idx),
        active: if p.active >= p.tabs.len() - 1 {
            p.tabs.len() - 2
        } else {
            p.active
        },
    }
}

/// A pane with a further tab at its end, which is shown.
pub open spec fn with_tab(p: PaneView, t: TabView) -> PaneView {
    PaneView { tabs: p.tabs.push(t), active: p.tabs.len() as int }
}

/// A pane with a tab behind the one that is shown, which is shown then.
pub open spec fn with_new_tab(p: PaneView, t: TabView) -> PaneView {
    PaneView { tabs: p.tabs.insert(p.active + 1, t), active: p.active + 1 }
}

/// A pane of one tab.
pub open spec fn pane_of(t: TabView) -> PaneView {
    PaneView { tabs: seq![t], active: 0 }
}

/// What is found out about the directory of a tab: what reading it gave, and whether what is being
/// renamed there still exists.
#[derive(Debug)]
pub struct TabRead {
    pub read: DirRead,
    pub renamed_exists: bool,
}

/// What is found out about the directory of a tab that may be missing: whether it exists, which
/// of the directories above exist, and what reading the innermost of those gave.
#[derive(Debug)]
pub struct TabFacts {
    pub read: DirRead,
    pub renamed_exists: bool,
    pub is_dir: bool,
    pub ancestors_exist: Vec<bool>,
    pub fallback_read: DirRead,
}

/// Whether a directory could not be read because it is not there.
pub open spec fn is_missing(read: DirRead) -> bool {
    match read {
        Ok(_) => false,
        Err(e) => e.not_found || !e.is_dir,
    }
}

/// Where a tab goes that is reloaded: nowhere, unless its directory is missing.
pub open spec fn fallback_of(t: TabView, f: TabFacts) -> Option<(Seq<u8>, Seq<u8>)> {
    if is_missing(f.read) {
        tab::recovery(t.path, f.is_dir, f.ancestors_exist@)
    } else {
        None
    }
}

/// A tab once it has been reloaded, or has gone to another directory where its own is missing.
pub open spec fn refreshed(t: TabView, f: TabFacts, show_hidden: bool) -> TabView {
    match fallback_of(t, f) {
        Some(p) => tab::after_reload(
            t.moved_to(p.1).with_tag_view(None, None),
            f.fallback_read,
            show_hidden,
            true,
        ),
        None => tab::after_reload(t, f.read, show_hidden, f.renamed_exists),
    }
}

/// Tabs once those in the given directories have been reloaded.
pub open spec fn refreshed_tabs(
    tabs: Seq<TabView>,
    facts: Seq<TabFacts>,
    dirs: Seq<Seq<u8>>,
    show_hidden: bool,
) -> Seq<TabView> {
    Seq::new(
        tabs.len(),
        |i: int|
            if path::has_path(dirs, tabs[i].path) {
                refreshed(tabs[i], facts[i], show_hidden)
            } else {
                tabs[i]
            },
    )
}

/// A tab once it has been reloaded if it shows one of the given directories.
pub open spec fn reread_in(
    t: TabView,
    read: TabRead,
    dirs: Seq<Seq<u8>>,
    show_hidden: bool,
) -> TabView {
    if path::has_path(dirs, t.path) {
        tab::after_reload(t, read.read, show_hidden, read.renamed_exists)
    } else {
        t
    }
}

/// Whether a list of moves holds one, in any spelling.
pub open spec fn has_move(list: Seq<(Seq<u8>, Seq<u8>)>, m: (Seq<u8>, Seq<u8>)) -> bool {
    exists|i: int|
        0 <= i < list.len() && path::same_path((#[trigger] list[i]).0, m.0) && path::same_path(
            list[i].1,
            m.1,
        )
}

/// A list of moves with a further one, unless it is there.
pub open spec fn with_move(
    list: Seq<(Seq<u8>, Seq<u8>)>,
    m: Option<(Seq<u8>, Seq<u8>)>,
) -> Seq<(Seq<u8>, Seq<u8>)> {
    match m {
        Some(x) => if has_move(list, x) {
            list
        } else {
            list.push(x)
        },
        None => list,
    }
}

/// The moves to other directories of the first `n` tabs, each once, behind those of a list.
pub open spec fn moves_of(
    start: Seq<(Seq<u8>, Seq<u8>)>,
    tabs: Seq<TabView>,
    facts: Seq<TabFacts>,
    dirs: Seq<Seq<u8>>,
    n: int,
) -> Seq<(Seq<u8>, Seq<u8>)>
    decreases n,
{
    if n <= 0 {
        start
    } else {
        let rest = moves_of(start, tabs, facts, dirs, n - 1);
        if path::has_path(dirs, tabs[n - 1].path) {
            with_move(rest, fallback_of(tabs[n - 1], facts[n - 1]))
        } else {
            rest
        }
    }
}

/// Why a tab could not be reloaded, where it could not and its directory is there.
pub open spec fn failure_of(f: TabFacts) -> Option<Seq<char>> {
    match f.read {
        Ok(_) => None,
        Err(e) => if e.not_found || !e.is_dir {
            None
        } else {
            Some(e.message@)
        },
    }
}

/// The directories of the first `n` tabs that could not be read, with the errors, behind those of
/// a list.
pub open spec fn failures_of(
    start: Seq<(Seq<u8>, Seq<char>)>,
    tabs: Seq<TabView>,
    facts: Seq<TabFacts>,
    dirs: Seq<Seq<u8>>,
    n: int,
) -> Seq<(Seq<u8>, Seq<char>)>
    decreases n,
{
    if n <= 0 {
        start
    } else {
        let rest = failures_of(start, tabs, facts, dirs, n - 1);
        match failure_of(facts[n - 1]) {
            Some(e) => if path::has_path(dirs, tabs[n - 1].path) {
                rest.push((tabs[n - 1].path, e))
            } else {
                rest
            },
            None => rest,
        }
    }
}

/// Moves by their views.
pub open spec fn move_views(moves: Seq<(FsPath, FsPath)>) -> Seq<(Seq<u8>, Seq<u8>)> {
    moves.map_values(|m: (FsPath, FsPath)| (m.0@, m.1@))
}

/// Failures by their views.
pub open spec fn failure_views(failures: Seq<(FsPath, String)>) -> Seq<(Seq<u8>, Seq<char>)> {
    failures.map_values(|f: (FsPath, String)| (f.0@, f.1@))
}

/// Whether the facts about tabs fit the tabs.
pub open spec fn facts_fit(tabs: Seq<TabView>, facts: Seq<TabFacts>) -> bool {
    &&& facts.len() == tabs.len()
    &&& forall|i: int|
        0 <= i < tabs.len() ==> (#[trigger] facts[i]).ancestors_exist@.len() == path::ancestors_of(
            tabs[i].path,
        ).len()
}

/// Adds a move to a list, unless it is there.
fn push_move(list: &mut Vec<(FsPath, FsPath)>, m: (FsPath, FsPath))
    ensures
        move_views(final(list)@) == with_move(move_views(old(list)@), Some((m.0@, m.1@))),
{
    let ghost views = move_views(list@);
    let ghost v = (m.0@, m.1@);
    let mut i: usize = 0;
    while i < list.len()
        invariant
            i <= list@.len(),
            views == move_views(list@),
            v == (m.0@, m.1@),
            forall|k: int|
                0 <= k < i ==> !(path::same_path((#[trigger] views[k]).0, v.0) && path::same_path(
                    views[k].1,
                    v.1,
                )),
        decreases list@.len() - i,
    {
        assert(views[i as int] == (list@[i as int].0@, list@[i as int].1@));
        if list[i].0.same(&m.0) && list[i].1.same(&m.1) {
            return ;
        }
        i += 1;
    }
    list.push(m);
    assert(move_views(list@) =~= views.push(v));
}

impl PaneState {
    /// A pane of one tab at a path, with what reading it gave.
    pub fn new(path: FsPath, read: &DirRead, show_hidden: bool) -> (r: PaneState)
        ensures
            r@ == pane_of(tab::after_reload(tab::opened(path@), *read, show_hidden, true)),
            r@.wf(),
    {
        PaneState::of_tab(TabState::new(path, read, show_hidden))
    }

    /// A pane of one tab.
    pub fn of_tab(tab: TabState) -> (r: PaneState)
        ensures
            r@ == pane_of(tab@),
            tab@.wf() ==> r@.wf(),
    {
        let mut tabs: Vec<TabState> = Vec::new();
        let ghost t = tab@;
        tabs.push(tab);
        let r = PaneState { tabs, active_tab: 0 };
        assert(r@ =~= pane_of(t));
        r
    }

    /// The tab that is shown.
    pub fn active(&self) -> (r: &TabState)
        requires
            self@.wf(),
        ensures
            r@ == self@.tabs[self@.active],
    {
        assert(self@.tabs.len() == self.tabs@.len());
        &self.tabs[self.active_tab]
    }

    /// The tab that is shown, to be changed.
    pub fn active_mut(&mut self) -> (r: &mut TabState)
        requires
            old(self)@.wf(),
        ensures
            *r == old(self).tabs@[old(self).active_tab as int],
            final(self).tabs@ == old(self).tabs@.update(
                old(self).active_tab as int,
                *final(r),
            ),
            final(self).active_tab == old(self).active_tab,
    {
        assert(self@.tabs.len() == self.tabs@.len());
        let i = self.active_tab;
        &mut self.tabs[i]
    }

    /// The names of the tabs.
    pub fn tab_names(&self) -> (r: Vec<String>)
        ensures
            r@.len() == self@.tabs.len(),
            forall|i: int|
                0 <= i < r@.len() ==> (#[trigger] r@[i])@ == tab_name(self@.tabs[i]),
    {
        let mut out: Vec<String> = Vec::new();
        let mut i: usize = 0;
        while i < self.tabs.len()
            invariant
                i <= self.tabs@.len(),
                out@.len() == i,
                forall|k: int| 0 <= k < i ==> (#[trigger] out@[k])@ == tab_name(self@.tabs[k]),
            decreases self.tabs@.len() - i,
        {
            assert(self@.tabs[i as int] == self.tabs@[i as int]@);
            out.push(self.tabs[i].name());
            i += 1;
        }
        out
    }

    /// Opens a tab behind the one that is shown, at the same directory, with what reading it gave.
    pub fn new_tab(&mut self, read: &DirRead, show_hidden: bool)
        requires
            old(self)@.wf(),
        ensures
            final(self)@ == with_new_tab(
                old(self)@,
                tab::after_reload(
                    tab::opened(old(self)@.tabs[old(self)@.active].path),
                    *read,
                    show_hidden,
                    true,
                ),
            ),
            final(self)@.wf(),
    {
        let ghost before = self@;
        let count: usize = self.tabs.len();
        assert(before.tabs.len() == count);
        assert(before.tabs[before.active] == self.tabs@[before.active]@);
        let path = self.tabs[self.active_tab].current_path.clone();
        let tab = TabState::new(path, read, show_hidden);
        let ghost t = tab@;
        self.active_tab = self.active_tab + 1;
        self.tabs.insert(self.active_tab, tab);
        proof {
            assert(self@.tabs =~= before.tabs.insert(before.active + 1, t));
            assert forall|i: int| 0 <= i < self@.tabs.len() implies (#[trigger] self@.tabs[i]).wf() by {
                if i < before.active + 1 {
                    assert(self@.tabs[i] == before.tabs[i]);
                } else if i > before.active + 1 {
                    assert(self@.tabs[i] == before.tabs[i - 1]);
                }
            }
        }
    }

    /// Closes a tab. The last one is not closed: the pane itself should be, which is returned.
    pub fn close_tab(&mut self, idx: usize) -> (r: bool)
        requires
            old(self)@.wf(),
            old(self)@.tabs.len() == 1 || idx < old(self)@.tabs.len(),
        ensures
            r == (old(self)@.tabs.len() == 1),
            final(self)@ == if r {
                old(self)@
            } else {
                without_tab(old(self)@, idx as int)
            },
            final(self)@.wf(),
    {
        match self.take_tab(idx) {
            Some(_) => false,
            None => true,
        }
    }

    /// Takes a tab out of the pane. The last one stays.
    pub fn take_tab(&mut self, idx: usize) -> (r: Option<TabState>)
        requires
            old(self)@.wf(),
            old(self)@.tabs.len() == 1 || idx < old(self)@.tabs.len(),
        ensures
            match r {
                Some(t) => old(self)@.tabs.len() > 1 && t@ == old(self)@.tabs[idx as int]
                    && final(self)@ == without_tab(old(self)@, idx as int) && t@.wf(),
                None => old(self)@.tabs.len() == 1 && final(self)@ == old(self)@,
            },
            final(self)@.wf(),
    {
        let ghost before = self@;
        assert(before.tabs.len() == self.tabs@.len());
        if self.tabs.len() == 1 {
            return None;
        }
        assert(before.tabs[idx as int] == self.tabs@[idx as int]@);
        let tab = self.tabs.remove(idx);
        assert(self@.tabs =~= before.tabs.remove(idx as int));
        if self.active_tab >= self.tabs.len() {
            self.active_tab = self.tabs.len() - 1;
        }
        proof {
            assert forall|i: int| 0 <= i < self@.tabs.len() implies (#[trigger] self@.tabs[i]).wf() by {
                if i < idx {
                    assert(self@.tabs[i] == before.tabs[i]);
                } else {
                    assert(self@.tabs[i] == before.tabs[i + 1]);
                }
            }
        }
        Some(tab)
    }

    /// Adds a tab at the end, and shows it.
    pub fn add_tab(&mut self, tab: TabState)
        requires
            old(self)@.wf(),
            tab@.wf(),
        ensures
            final(self)@ == with_tab(old(self)@, tab@),
            final(self)@.wf(),
    {
        let ghost before = self@;
        let ghost t = tab@;
        let count: usize = self.tabs.len();
        assert(before.tabs.len() == count);
        self.tabs.push(tab);
        self.active_tab = count;
        proof {
            assert(self@.tabs =~= before.tabs.push(t));
            assert forall|i: int| 0 <= i < self@.tabs.len() implies (#[trigger] self@.tabs[i]).wf() by {
                if i < before.tabs.len() {
                    assert(self@.tabs[i] == before.tabs[i]);
                }
            }
        }
    }

    /// Takes in what reading the directories of all tabs gave.
    pub fn reload_all(&mut self, reads: &Vec<TabRead>, show_hidden: bool)
        requires
            old(self)@.wf(),
            reads@.len() == old(self)@.tabs.len(),
        ensures
            final(self)@.active == old(self)@.active,
            final(self)@.tabs.len() == old(self)@.tabs.len(),
            forall|i: int|
                0 <= i < final(self)@.tabs.len() ==> #[trigger] final(self)@.tabs[i]
                    == tab::after_reload(
                    old(self)@.tabs[i],
                    reads@[i].read,
                    show_hidden,
                    reads@[i].renamed_exists,
                ),
            final(self)@.wf(),
    {
        let ghost before = self@;
        let ghost first = self.tabs@;
        assert(before.tabs.len() == self.tabs@.len());
        let mut i: usize = 0;
        while i < self.tabs.len()
            invariant
                i <= self.tabs@.len() == reads@.len() == first.len(),
                self.active_tab == before.active,
                before.tabs == tab_views(first),
                forall|k: int|
                    0 <= k < i ==> (#[trigger] self.tabs@[k])@ == tab::after_reload(
                        before.tabs[k],
                        reads@[k].read,
                        show_hidden,
                        reads@[k].renamed_exists,
                    ),
                forall|k: int| i <= k < first.len() ==> #[trigger] self.tabs@[k] == first[k],
            decreases self.tabs@.len() - i,
        {
            let ghost now = self.tabs@;
            let _ = self.tabs[i].reload(&reads[i].read, show_hidden, reads[i].renamed_exists);
            assert(before.tabs[i as int] == first[i as int]@);
            i += 1;
        }
        proof {
            assert forall|k: int| 0 <= k < self@.tabs.len() implies #[trigger] self@.tabs[k]
                == tab::after_reload(
                before.tabs[k],
                reads@[k].read,
                show_hidden,
                reads@[k].renamed_exists,
            ) && self@.tabs[k].wf() by {
                assert(self@.tabs[k] == self.tabs@[k]@);
                assert(before.tabs[k].wf());
            }
        }
    }

    /// Takes in what reading the directories of the tabs gave, for those that show one of `dirs`.
    pub fn reload_shown(&mut self, dirs: &Vec<FsPath>, reads: &Vec<TabRead>, show_hidden: bool)
        requires
            old(self)@.wf(),
            reads@.len() == old(self)@.tabs.len(),
        ensures
            final(self)@.active == old(self)@.active,
            final(self)@.tabs.len() == old(self)@.tabs.len(),
            forall|i: int|
                0 <= i < final(self)@.tabs.len() ==> #[trigger] final(self)@.tabs[i] == reread_in(
                    old(self)@.tabs[i],
                    reads@[i],
                    path::path_views(dirs@),
                    show_hidden,
                ),
            final(self)@.wf(),
    {
        let ghost before = self@;
        let ghost first = self.tabs@;
        assert(before.tabs.len() == self.tabs@.len());
        let mut i: usize = 0;
        while i < self.tabs.len()
            invariant
                i <= self.tabs@.len() == reads@.len() == first.len(),
                self.active_tab == before.active,
                before.tabs == tab_views(first),
                forall|k: int|
                    0 <= k < i ==> (#[trigger] self.tabs@[k])@ == reread_in(
                        before.tabs[k],
                        reads@[k],
                        path::path_views(dirs@),
                        show_hidden,
                    ),
                forall|k: int| i <= k < first.len() ==> #[trigger] self.tabs@[k] == first[k],
            decreases self.tabs@.len() - i,
        {
            assert(before.tabs[i as int] == first[i as int]@);
            if contains_path(dirs, &self.tabs[i].current_path) {
                let _ = self.tabs[i].reload(&reads[i].read, show_hidden, reads[i].renamed_exists);
            }
            i += 1;
        }
        proof {
            assert forall|k: int| 0 <= k < self@.tabs.len() implies #[trigger] self@.tabs[k]
                == reread_in(before.tabs[k], reads@[k], path::path_views(dirs@), show_hidden)
                && self@.tabs[k].wf() by {
                assert(self@.tabs[k] == self.tabs@[k]@);
                assert(before.tabs[k].wf());
            }
        }
    }

    /// Takes in what was found out about the tabs in the given directories. Tabs whose directory
    /// is missing go to the innermost one above that exists; those moves, each once, and the
    /// errors are added to the lists.
    pub fn reload_tabs_in_dirs(
        &mut self,
        dirs: &Vec<FsPath>,
        facts: &Vec<TabFacts>,
        show_hidden: bool,
        moves: &mut Vec<(FsPath, FsPath)>,
        errors: &mut Vec<(FsPath, String)>,
    )
        requires
            old(self)@.wf(),
            facts_fit(old(self)@.tabs, facts@),
        ensures
            final(self)@ == (PaneView {
                tabs: refreshed_tabs(
                    old(self)@.tabs,
                    facts@,
                    path::path_views(dirs@),
                    show_hidden,
                ),
                active: old(self)@.active,
            }),
            move_views(final(moves)@) == moves_of(
                move_views(old(moves)@),
                old(self)@.tabs,
                facts@,
                path::path_views(dirs@),
                old(self)@.tabs.len() as int,
            ),
            failure_views(final(errors)@) == failures_of(
                failure_views(old(errors)@),
                old(self)@.tabs,
                facts@,
                path::path_views(dirs@),
                old(self)@.tabs.len() as int,
            ),
            final(self)@.wf(),
    {
        let ghost before = self@;
        let ghost first = self.tabs@;
        let ghost dir_views = path::path_views(dirs@);
        let ghost start = move_views(moves@);
        let ghost errors_before = failure_views(errors@);
        let ghost goal = refreshed_tabs(before.tabs, facts@, dir_views, show_hidden);
        assert(before.tabs.len() == self.tabs@.len());
        let mut i: usize = 0;
        while i < self.tabs.len()
            invariant
                i <= self.tabs@.len() == first.len() == before.tabs.len(),
                self.active_tab == before.active,
                before == (PaneView { tabs: tab_views(first), active: before.active }),
                before.wf(),
                facts_fit(before.tabs, facts@),
                dir_views == path::path_views(dirs@),
                goal == refreshed_tabs(before.tabs, facts@, dir_views, show_hidden),
                forall|k: int| 0 <= k < i ==> (#[trigger] self.tabs@[k])@ == goal[k],
                forall|k: int| 0 <= k < i ==> (#[trigger] self.tabs@[k])@.wf(),
                forall|k: int| i <= k < first.len() ==> #[trigger] self.tabs@[k] == first[k],
                move_views(moves@) == moves_of(start, before.tabs, facts@, dir_views, i as int),
                failure_views(errors@) == failures_of(
                    errors_before,
                    before.tabs,
                    facts@,
                    dir_views,
                    i as int,
                ),
            decreases self.tabs@.len() - i,
        {
            let f = &facts[i];
            proof {
                assert(before.tabs[i as int] == first[i as int]@);
                assert(before.tabs[i as int].wf());
                assert(facts@[i as int].ancestors_exist@.len() == path::ancestors_of(
                    before.tabs[i as int].path,
                ).len());
                assert(goal[i as int] == if path::has_path(dir_views, before.tabs[i as int].path) {
                    refreshed(before.tabs[i as int], facts@[i as int], show_hidden)
                } else {
                    before.tabs[i as int]
                });
            }
            if contains_path(dirs, &self.tabs[i].current_path) {
                let here = self.tabs[i].current_path.clone();
                match self.tabs[i].reload(&f.read, show_hidden, f.renamed_exists) {
                    ReloadOutcome::Reloaded => {},
                    ReloadOutcome::CurrentDirectoryMissing => {
                        let found = self.tabs[i].recover_missing_directory(
                            f.is_dir,
                            &f.ancestors_exist,
                            &f.fallback_read,
                            show_hidden,
                        );
                        match found {
                            Some(m) => push_move(moves, m),
                            None => {},
                        }
                    },
                    ReloadOutcome::Failed(error) => {
                        let ghost earlier = failure_views(errors@);
                        let ghost v = (here@, error@);
                        errors.push((here, error));
                        assert(failure_views(errors@) =~= earlier.push(v));
                    },
                }
            }
            i += 1;
        }
        proof {
            assert(self@.tabs =~= goal);
            assert forall|k: int| 0 <= k < self@.tabs.len() implies (#[trigger] self@.tabs[k]).wf() by {
                assert(self@.tabs[k] == self.tabs@[k]@);
            }
        }
    }

    /// Follows a directory that has been renamed in every tab that shows it. For each tab it is
    /// given whether what is being renamed in it exists. Says whether any has followed.
    pub fn follow_external_directory_rename(
        &mut self,
        old_path: &FsPath,
        new_path: &FsPath,
        new_is_dir: bool,
        read: &DirRead,
        show_hidden: bool,
        renamed_exists: &Vec<bool>,
    ) -> (r: bool)
        requires
            old(self)@.wf(),
            renamed_exists@.len() == old(self)@.tabs.len(),
        ensures
            r == (new_is_dir && shows_dir(old(self)@.tabs, old_path@)),
            final(self)@.active == old(self)@.active,
            final(self)@.tabs.len() == old(self)@.tabs.len(),
            forall|i: int|
                0 <= i < final(self)@.tabs.len() ==> #[trigger] final(self)@.tabs[i]
                    == tab_followed(
                    old(self)@.tabs[i],
                    old_path@,
                    new_path@,
                    new_is_dir,
                    *read,
                    show_hidden,
                    renamed_exists@[i],
                ),
            final(self)@.wf(),
    {
        let ghost before = self@;
        let ghost first = self.tabs@;
        assert(before.tabs.len() == self.tabs@.len());
        let mut any = false;
        let mut i: usize = 0;
        while i < self.tabs.len()
            invariant
                i <= self.tabs@.len() == renamed_exists@.len() == first.len(),
                self.active_tab == before.active,
                before.tabs == tab_views(first),
                before.wf(),
                forall|k: int| 0 <= k < i ==> (#[trigger] self.tabs@[k])@.wf(),
                forall|k: int|
                    0 <= k < i ==> (#[trigger] self.tabs@[k])@ == tab_followed(
                        before.tabs[k],
                        old_path@,
                        new_path@,
                        new_is_dir,
                        *read,
                        show_hidden,
                        renamed_exists@[k],
                    ),
                forall|k: int| i <= k < first.len() ==> #[trigger] self.tabs@[k] == first[k],
                any == (new_is_dir && shows_dir(before.tabs.take(i as int), old_path@)),
            decreases self.tabs@.len() - i,
        {
            proof {
                assert(before.tabs[i as int] == first[i as int]@);
                assert(before.tabs[i as int].wf());
            }
            let followed = self.tabs[i].follow_external_directory_rename(
                old_path,
                new_path,
                new_is_dir,
                read,
                show_hidden,
                renamed_exists[i],
            );
            any = any || followed;
            proof {
                lemma_shows_next(before.tabs, old_path@, i as int);
            }
            i += 1;
        }
        proof {
            assert(before.tabs.take(i as int) =~= before.tabs);
            assert forall|k: int| 0 <= k < self@.tabs.len() implies #[trigger] self@.tabs[k]
                == tab_followed(
                before.tabs[k],
                old_path@,
                new_path@,
                new_is_dir,
                *read,
                show_hidden,
                renamed_exists@[k],
            ) && self@.tabs[k].wf() by {
                assert(self@.tabs[k] == self.tabs@[k]@);
            }
        }
        any
    }
}

/// The name of a tab.
pub open spec fn tab_name(t: TabView) -> Seq<char> {
    if path::file_name_of(t.path) is Some {
        crate::model::display_text::shown_name(t.path)
    } else {
        "/"@
    }
}

/// Whether a tab shows a directory.
pub open spec fn shows_dir(tabs: Seq<TabView>, p: Seq<u8>) -> bool {
    exists|i: int| 0 <= i < tabs.len() && path::same_path((#[trigger] tabs[i]).path, p)
}

proof fn lemma_shows_next(tabs: Seq<TabView>, p: Seq<u8>, i: int)
    requires
        0 <= i < tabs.len(),
    ensures
        shows_dir(tabs.take(i + 1), p) == (shows_dir(tabs.take(i), p) || path::same_path(
            tabs[i].path,
            p,
        )),
{
    let more = tabs.take(i + 1);
    let less = tabs.take(i);
    if shows_dir(less, p) {
        let k = choose|k: int| 0 <= k < less.len() && path::same_path((#[trigger] less[k]).path, p);
        assert(more[k] == less[k]);
    }
    if path::same_path(tabs[i].path, p) {
        assert(more[i] == tabs[i]);
    }
    if shows_dir(more, p) {
        let k = choose|k: int| 0 <= k < more.len() && path::same_path((#[trigger] more[k]).path, p);
        if k < i {
            assert(less[k] == more[k]);
        }
    }
}

/// A tab once it has followed a directory that has been renamed, where it shows that.
pub open spec fn tab_followed(
    t: TabView,
    from: Seq<u8>,
    to: Seq<u8>,
    to_is_dir: bool,
    read: DirRead,
    show_hidden: bool,
    renamed_exists: bool,
) -> TabView {
    if path::same_path(t.path, from) && to_is_dir {
        tab::after_move(tab::followed(t, from, to), read, show_hidden, renamed_exists)
    } else {
        t
    }
}

/// Which way the tabs are cycled.
#[derive(Clone, Copy, Debug, PartialEq, Eq, Structural)]
pub enum TabCycleDirection {
    Previous,
    Next,
}

/// The tab before or behind another, round and round.
pub open spec fn cycled(active: int, count: int, direction: TabCycleDirection) -> int {
    let at = if active < count {
        active
    } else {
        count - 1
    };
    if count <= 1 {
        0
    } else {
        match direction {
            TabCycleDirection::Previous => (at + count - 1) % count,
            TabCycleDirection::Next => (at + 1) % count,
        }
    }
}

/// The tab before or behind another, round and round.
pub fn cycle_tab_index(active_tab: usize, tab_count: usize, direction: TabCycleDirection) -> (r:
    usize)
    ensures
        r == cycled(active_tab as int, tab_count as int, direction),
{
    if tab_count <= 1 {
        return 0;
    }
    let at: usize = if active_tab < tab_count {
        active_tab
    } else {
        tab_count - 1
    };
    match direction {
        TabCycleDirection::Previous => {
            if at == 0 {
                proof {
                    let n = tab_count as int;
                    assert((n - 1) % n == n - 1) by (nonlinear_arith)
                        requires
                            n > 1,
                    ;
                }
                tab_count - 1
            } else {
                proof {
                    let n = tab_count as int;
                    assert((at + n - 1) % n == at - 1) by (nonlinear_arith)
                        requires
                            1 <= at < n,
                    ;
                }
                at - 1
            }
        },
        TabCycleDirection::Next => {
            if at == tab_count - 1 {
                proof {
                    let n = tab_count as int;
                    assert(n % n == 0) by (nonlinear_arith)
                        requires
                            n > 1,
                    ;
                }
                0
            } else {
                proof {
                    let n = tab_count as int;
                    assert((at + 1) % n == at + 1) by (nonlinear_arith)
                        requires
                            0 <= at + 1 < n,
                    ;
                }
                at + 1
            }
        },
    }
}

/// Cycling forward and then back shows the tab that was shown.
pub proof fn cycling_back_undoes_cycling(active: int, count: int)
    requires
        0 <= active < count,
    ensures
        cycled(
            cycled(active, count, TabCycleDirection::Next),
            count,
            TabCycleDirection::Previous,
        ) == active,
        0 <= cycled(active, count, TabCycleDirection::Next) < count,
        0 <= cycled(active, count, TabCycleDirection::Previous) < count,
{
    if count > 1 {
        if active == count - 1 {
            assert((active + 1) % count == 0) by (nonlinear_arith)
                requires
                    active + 1 == count,
                    count > 1,
            ;
            assert((count - 1) % count == count - 1) by (nonlinear_arith)
                requires
                    count > 1,
            ;
        } else {
            assert((active + 1) % count == active + 1) by (nonlinear_arith)
                requires
                    0 <= active + 1 < count,
            ;
            assert((active + 1 + count - 1) % count == active) by (nonlinear_arith)
                requires
                    0 <= active < count,
            ;
        }
        assert(0 <= (active + count - 1) % count < count) by (nonlinear_arith)
            requires
                count > 1,
        ;
    }
}

/// Closing a tab leaves the others in their order.
pub proof fn closing_keeps_the_other_tabs(p: PaneView, idx: int, i: int)
    requires
        p.wf(),
        p.tabs.len() > 1,
        0 <= idx < p.tabs.len(),
        0 <= i < p.tabs.len() - 1,
    ensures
        without_tab(p, idx).tabs.len() == p.tabs.len() - 1,
        without_tab(p, idx).tabs[i] == p.tabs[if i < idx {
            i
        } else {
            i + 1
        }],
        0 <= without_tab(p, idx).active < p.tabs.len() - 1,
{
}

/// The tab in front keeps its place when a tab is closed, and is the last one where its place is gone.
pub proof fn closing_keeps_the_place_in_front(p: PaneView, idx: int)
    requires
        p.wf(),
        p.tabs.len() > 1,
        0 <= idx < p.tabs.len(),
    ensures
        p.active < p.tabs.len() - 1 ==> without_tab(p, idx).active == p.active,
        p.active == p.tabs.len() - 1 ==> without_tab(p, idx).active == p.tabs.len() - 2,
{
}

/// A tab that comes to a pane stands behind the others, and a new one right behind the one in front.
/// Either is in front then, and no other tab is lost or changes its order.
pub proof fn added_tab_is_in_front(p: PaneView, t: TabView, i: int)
    requires
        p.wf(),
    ensures
        with_tab(p, t).tabs.len() == p.tabs.len() + 1,
        with_tab(p, t).tabs[with_tab(p, t).active] == t,
        with_tab(p, t).active == p.tabs.len(),
        0 <= i < p.tabs.len() ==> with_tab(p, t).tabs[i] == p.tabs[i],
        with_new_tab(p, t).tabs.len() == p.tabs.len() + 1,
        with_new_tab(p, t).active == p.active + 1,
        with_new_tab(p, t).tabs[p.active + 1] == t,
        0 <= i <= p.active ==> with_new_tab(p, t).tabs[i] == p.tabs[i],
        p.active < i < p.tabs.len() ==> with_new_tab(p, t).tabs[i + 1] == p.tabs[i],
        pane_of(t).tabs.len() == 1 && pane_of(t).tabs[0] == t && pane_of(t).active == 0,
{
}

/// Cycling goes to the next tab or to the one before, and around at the ends.
pub proof fn cycling_goes_around(active: int, count: int)
    requires
        0 <= active < count,
    ensures
        active + 1 < count ==> cycled(active, count, TabCycleDirection::Next) == active + 1,
        active + 1 == count ==> cycled(active, count, TabCycleDirection::Next) == 0,
        active > 0 ==> cycled(active, count, TabCycleDirection::Previous) == active - 1,
        active == 0 ==> cycled(active, count, TabCycleDirection::Previous) == count - 1,
{
    if count > 1 {
        vstd::arithmetic::div_mod::lemma_small_mod((count - 1) as nat, count as nat);
        vstd::arithmetic::div_mod::lemma_mod_self_0(count);
        if active + 1 < count {
            vstd::arithmetic::div_mod::lemma_small_mod((active + 1) as nat, count as nat);
        }
        if active > 0 {
            vstd::arithmetic::div_mod::lemma_small_mod((active - 1) as nat, count as nat);
            vstd::arithmetic::div_mod::lemma_mod_add_multiples_vanish(active - 1, count);
        }
    }
}

/// A tab is refreshed by what is found at its path: what is there now where it can be read, the nearest
/// directory above where it is gone, and as it was where it is there and cannot be read.
pub proof fn refreshed_tab_shows_what_is_found(t: TabView, f: TabFacts, show_hidden: bool, k: int)
    requires
        f.ancestors_exist@.len() == path::ancestors_of(t.path).len(),
    ensures
        f.read is Ok ==> refreshed(t, f, show_hidden) == tab::after_reload(
            t,
            f.read,
            show_hidden,
            f.renamed_exists,
        ) && fallback_of(t, f) is None,
        f.read is Err && !f.read->Err_0.not_found && f.read->Err_0.is_dir ==> refreshed(
            t,
            f,
            show_hidden,
        ) == t && fallback_of(t, f) is None && failure_of(f) == Some(f.read->Err_0.message@),
        f.read is Ok || f.read->Err_0.not_found || !f.read->Err_0.is_dir ==> failure_of(f) is None,
        f.read is Err && (f.read->Err_0.not_found || !f.read->Err_0.is_dir) && !f.is_dir && 0 <= k
            < f.ancestors_exist@.len() && f.ancestors_exist@[k] && (forall|i: int|
            0 <= i < k ==> !#[trigger] f.ancestors_exist@[i]) ==> {
            &&& refreshed(t, f, show_hidden).path == path::ancestors_of(t.path)[k]
            &&& fallback_of(t, f) == Some((t.path, path::ancestors_of(t.path)[k]))
        },
{
    tab::nearest_existing_directory_is_shown(t.path, f.ancestors_exist@, k);
    tab::reading_again_shows_what_is_there(
        t.moved_to(path::ancestors_of(t.path)[k]).with_tag_view(None, None),
        f.fallback_read,
        show_hidden,
        true,
    );
}

/// Of the tabs of a pane those are refreshed whose directory has changed, and the others stay.
pub proof fn only_changed_directories_are_refreshed(
    tabs: Seq<TabView>,
    facts: Seq<TabFacts>,
    dirs: Seq<Seq<u8>>,
    show_hidden: bool,
    i: int,
    d: int,
)
    requires
        0 <= i < tabs.len(),
    ensures
        refreshed_tabs(tabs, facts, dirs, show_hidden).len() == tabs.len(),
        0 <= d < dirs.len() && path::same_path(dirs[d], tabs[i].path) ==> refreshed_tabs(
            tabs,
            facts,
            dirs,
            show_hidden,
        )[i] == refreshed(tabs[i], facts[i], show_hidden),
        (forall|k: int| 0 <= k < dirs.len() ==> !path::same_path(#[trigger] dirs[k], tabs[i].path))
            ==> refreshed_tabs(tabs, facts, dirs, show_hidden)[i] == tabs[i],
{
}

/// The same holds of reading again without looking for what is gone.
pub proof fn only_changed_directories_are_read_again(
    t: TabView,
    read: TabRead,
    dirs: Seq<Seq<u8>>,
    show_hidden: bool,
    d: int,
)
    ensures
        0 <= d < dirs.len() && path::same_path(dirs[d], t.path) ==> reread_in(
            t,
            read,
            dirs,
            show_hidden,
        ) == tab::after_reload(t, read.read, show_hidden, read.renamed_exists),
        (forall|k: int| 0 <= k < dirs.len() ==> !path::same_path(#[trigger] dirs[k], t.path))
            ==> reread_in(t, read, dirs, show_hidden) == t,
{
}

/// Whether a tab had to go elsewhere, from where and to where.
pub open spec fn goes(t: TabView, f: TabFacts, dirs: Seq<Seq<u8>>, m: (Seq<u8>, Seq<u8>)) -> bool {
    path::has_path(dirs, t.path) && fallback_of(t, f) == Some(m)
}

/// Every tab that had to go elsewhere is told of, from where and to where, once for each such pair;
/// nothing else is.
pub proof fn moves_are_told_once(
    start: Seq<(Seq<u8>, Seq<u8>)>,
    tabs: Seq<TabView>,
    facts: Seq<TabFacts>,
    dirs: Seq<Seq<u8>>,
    n: int,
)
    requires
        0 <= n <= tabs.len(),
    ensures
        moves_of(start, tabs, facts, dirs, n).len() >= start.len(),
        moves_of(start, tabs, facts, dirs, n).take(start.len() as int) == start,
        forall|i: int, m: (Seq<u8>, Seq<u8>)|
            0 <= i < n && #[trigger] goes(tabs[i], facts[i], dirs, m) ==> has_move(
                moves_of(start, tabs, facts, dirs, n),
                m,
            ),
        forall|k: int|
            start.len() <= k < moves_of(start, tabs, facts, dirs, n).len() ==> goes_somewhere(
                tabs,
                facts,
                dirs,
                n,
                #[trigger] moves_of(start, tabs, facts, dirs, n)[k],
            ),
    decreases n,
{
    let all = moves_of(start, tabs, facts, dirs, n);
    if n == 0 {
        assert(all.take(start.len() as int) =~= start);
    } else {
        moves_are_told_once(start, tabs, facts, dirs, n - 1);
        let rest = moves_of(start, tabs, facts, dirs, n - 1);
        assert(all.take(start.len() as int) =~= rest.take(start.len() as int));
        assert forall|i: int, m: (Seq<u8>, Seq<u8>)|
            0 <= i < n && #[trigger] goes(tabs[i], facts[i], dirs, m) implies has_move(all, m) by {
            if i < n - 1 {
                let q = choose|q: int|
                    0 <= q < rest.len() && path::same_path((#[trigger] rest[q]).0, m.0)
                        && path::same_path(rest[q].1, m.1);
                assert(has_move(rest, m));
                assert(all[q] == rest[q]);
            } else if !has_move(rest, m) {
                assert(all[rest.len() as int] == m);
            }
        }
        assert forall|k: int| start.len() <= k < all.len() implies goes_somewhere(
            tabs,
            facts,
            dirs,
            n,
            #[trigger] all[k],
        ) by {
            if k < rest.len() {
                assert(all[k] == rest[k]);
                assert(goes_somewhere(tabs, facts, dirs, n - 1, rest[k]));
                let i = choose|i: int|
                    0 <= i < n - 1 && #[trigger] goes(tabs[i], facts[i], dirs, rest[k]);
                assert(goes(tabs[i], facts[i], dirs, all[k]));
            } else {
                assert(goes(tabs[n - 1], facts[n - 1], dirs, all[k]));
            }
        }
    }
}

/// Whether one of the first tabs had to go elsewhere, from where and to where.
pub open spec fn goes_somewhere(
    tabs: Seq<TabView>,
    facts: Seq<TabFacts>,
    dirs: Seq<Seq<u8>>,
    n: int,
    m: (Seq<u8>, Seq<u8>),
) -> bool {
    exists|i: int| 0 <= i < n && #[trigger] goes(tabs[i], facts[i], dirs, m)
}

/// Every tab that could not be read though it is there is told of with the error, in the order of the
/// tabs.
pub proof fn failures_are_told_in_order(
    start: Seq<(Seq<u8>, Seq<char>)>,
    tabs: Seq<TabView>,
    facts: Seq<TabFacts>,
    dirs: Seq<Seq<u8>>,
    n: int,
)
    requires
        0 < n <= tabs.len(),
    ensures
        ({
            let before = failures_of(start, tabs, facts, dirs, n - 1);
            let after = failures_of(start, tabs, facts, dirs, n);
            let f = facts[n - 1];
            let failed = f.read is Err && !f.read->Err_0.not_found && f.read->Err_0.is_dir;
            &&& failed && path::has_path(dirs, tabs[n - 1].path) ==> after == before + seq![
                (tabs[n - 1].path, f.read->Err_0.message@),
            ]
            &&& !failed || !path::has_path(dirs, tabs[n - 1].path) ==> after == before
            &&& failures_of(start, tabs, facts, dirs, 0) == start
        }),
{
    let before = failures_of(start, tabs, facts, dirs, n - 1);
    let f = facts[n - 1];
    if f.read is Err && !f.read->Err_0.not_found && f.read->Err_0.is_dir && path::has_path(
        dirs,
        tabs[n - 1].path,
    ) {
        assert(failures_of(start, tabs, facts, dirs, n) =~= before + seq![
            (tabs[n - 1].path, f.read->Err_0.message@),
        ]);
    }
}

/// A tab is called after the last component of its path, and a slash where that is no name.
pub proof fn tab_is_called_after_its_directory(t: TabView, base: Seq<u8>, name: Seq<u8>)
    requires
        name.len() > 0,
        !name.contains(path::SLASH),
        name != path::here_component(),
        name != path::up_component(),
    ensures
        t.path == path::joined(base, name) ==> tab_name(t) == crate::model::display_text::nfc(
            crate::text::lossy_text(name),
        ),
        t.path == seq![path::SLASH] ==> tab_name(t) == "/"@,
{
    path::parent_undoes_joining(base, name);
    path::root_has_no_name();
}

/// A renaming is followed by the tabs at the old path, where there is a directory at the new one, and
/// by no other.
pub proof fn only_tabs_at_the_old_path_follow(
    t: TabView,
    from: Seq<u8>,
    to: Seq<u8>,
    to_is_dir: bool,
    read: DirRead,
    show_hidden: bool,
    renamed_exists: bool,
)
    ensures
        !path::same_path(t.path, from) || !to_is_dir ==> tab_followed(
            t,
            from,
            to,
            to_is_dir,
            read,
            show_hidden,
            renamed_exists,
        ) == t,
        path::same_path(t.path, from) && to_is_dir ==> tab_followed(
            t,
            from,
            to,
            to_is_dir,
            read,
            show_hidden,
            renamed_exists,
        ).path == to,
{
    tab::reading_again_shows_what_is_there(
        tab::followed(t, from, to),
        read,
        show_hidden,
        renamed_exists,
    );
}

/// A pane shows a directory exactly where one of its tabs is at it.
pub proof fn shown_directory_is_that_of_a_tab(tabs: Seq<TabView>, p: Seq<u8>, i: int)
    requires
        0 <= i < tabs.len(),
    ensures
        path::same_path(tabs[i].path, p) ==> shows_dir(tabs, p),
        (forall|k: int| 0 <= k < tabs.len() ==> !path::same_path((#[trigger] tabs[k]).path, p))
            ==> !shows_dir(tabs, p),
{
}

/// A move is seen as where something was and then where it is; a failure as the path and then why.
pub proof fn moves_and_failures_are_seen_part_by_part(
    moves: Seq<(FsPath, FsPath)>,
    failures: Seq<(FsPath, String)>,
    i: int,
)
    ensures
        move_views(moves).len() == moves.len(),
        failure_views(failures).len() == failures.len(),
        0 <= i < moves.len() ==> move_views(moves)[i].0 == (moves[i].0)@ && move_views(moves)[i].1
            == (moves[i].1)@,
        0 <= i < failures.len() ==> failure_views(failures)[i].0 == (failures[i].0)@
            && failure_views(failures)[i].1 == (failures[i].1)@,
{
}

/// A move that is noted stands behind those noted before, and none is noted twice.
pub proof fn moves_are_noted_once(
    list: Seq<(Seq<u8>, Seq<u8>)>,
    from: Seq<u8>,
    to: Seq<u8>,
    i: int,
)
    ensures
        with_move(list, None) == list,
        0 <= i < list.len() && path::same_path(list[i].0, from) && path::same_path(list[i].1, to)
            ==> with_move(list, Some((from, to))) == list,
        (forall|k: int|
            0 <= k < list.len() ==> !(path::same_path((#[trigger] list[k]).0, from)
                && path::same_path(list[k].1, to))) ==> with_move(list, Some((from, to)))
            == list.push((from, to)),
{
}

/// A directory is shown where any of the tabs shows it.
pub proof fn any_tab_shows_the_directory(a: Seq<TabView>, b: Seq<TabView>, x: TabView, p: Seq<u8>)
    ensures
        shows_dir(a + b, p) <==> shows_dir(a, p) || shows_dir(b, p),
        shows_dir(seq![x], p) <==> path::same_path(x.path, p),
        !shows_dir(Seq::<TabView>::empty(), p),
{
    let all = a + b;
    if shows_dir(a, p) {
        let i = choose|i: int| 0 <= i < a.len() && path::same_path((#[trigger] a[i]).path, p);
        assert(all[i] == a[i]);
    }
    if shows_dir(b, p) {
        let i = choose|i: int| 0 <= i < b.len() && path::same_path((#[trigger] b[i]).path, p);
        assert(all[a.len() + i] == b[i]);
    }
    if shows_dir(all, p) {
        let i = choose|i: int| 0 <= i < all.len() && path::same_path((#[trigger] all[i]).path, p);
        assert(all[i] == if i < a.len() { a[i] } else { b[i - a.len()] });
    }
    assert(seq![x][0] == x);
}

} // verus!
