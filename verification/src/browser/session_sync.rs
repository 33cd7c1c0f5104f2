//! The session: what is kept of the panes between runs, how they are restored from it, and when it
//! is saved. Times are in nanoseconds.

use vstd::prelude::*;

use crate::browser::pane;
use crate::browser::pane::{PaneState, PaneView};
use crate::browser::panes;
use crate::browser::panes::{Browser, BrowserView, PaneSide};
use crate::browser::tab;
use crate::browser::tab::{nearest_existing_directory, DirRead, TabState, TabView};
use crate::model::session;
use crate::model::session::{
    PaneSession, SavedPaneSide, SessionState, SessionView, TabSession, SESSION_VERSION,
};
use crate::path;
use crate::path::FsPath;

verus! {

/// The most tabs of a pane that are restored.
pub const MAX_RESTORED_TABS_PER_PANE: usize = 64;

/// How long a change waits before it is saved.
pub const SESSION_SAVE_DEBOUNCE: u64 = 300_000_000;

/// How long a save that failed waits before it is tried again.
pub const SESSION_SAVE_RETRY: u64 = 5_000_000_000;

/// The bits of the smallest split ratio, 0.15 in single precision.
pub const MIN_SPLIT_RATIO: u32 = 0x3E19_999A;

/// The bits of the largest split ratio, 0.85 in single precision.
pub const MAX_SPLIT_RATIO: u32 = 0x3F59_999A;

/// The bits of the even split ratio, 0.5 in single precision.
pub const EVEN_SPLIT_RATIO: u32 = 0x3F00_0000;

/// Whether bits in single precision are those of a number: neither an infinity nor none at all.
pub open spec fn is_finite(bits: u32) -> bool {
    bits % 0x8000_0000 < 0x7F80_0000
}

/// A split ratio brought between the smallest and the largest one, and the even one for what is no
/// number. Ratios are given by their bits in single precision: of two positive numbers the larger
/// one has the larger bits.
pub open spec fn normalized(bits: u32) -> u32 {
    if !is_finite(bits) {
        EVEN_SPLIT_RATIO
    } else if bits >= 0x8000_0000 || bits < MIN_SPLIT_RATIO {
        MIN_SPLIT_RATIO
    } else if bits > MAX_SPLIT_RATIO {
        MAX_SPLIT_RATIO
    } else {
        bits
    }
}

/// A split ratio brought between the smallest and the largest one.
pub fn normalized_split_ratio(bits: u32) -> (r: u32)
    ensures
        r == normalized(bits),
{
    if bits % 0x8000_0000 >= 0x7F80_0000 {
        EVEN_SPLIT_RATIO
    } else if bits >= 0x8000_0000 || bits < MIN_SPLIT_RATIO {
        MIN_SPLIT_RATIO
    } else if bits > MAX_SPLIT_RATIO {
        MAX_SPLIT_RATIO
    } else {
        bits
    }
}

/// A normalized split ratio is left as it is, and lies between the smallest and the largest one.
pub proof fn normalizing_twice_changes_nothing(bits: u32)
    ensures
        normalized(normalized(bits)) == normalized(bits),
        MIN_SPLIT_RATIO <= normalized(bits) <= MAX_SPLIT_RATIO,
        !session::is_nan(normalized(bits)),
{
}

/// What is kept of a pane.
pub open spec fn kept_of(p: PaneView) -> session::PaneView {
    session::PaneView { tabs: panes::tab_dirs(p.tabs), active_tab: p.active }
}

/// What is kept of the panes.
pub open spec fn snapshot_of(b: BrowserView, split_ratio: u32) -> SessionView {
    SessionView {
        version: SESSION_VERSION,
        left: kept_of(b.left),
        right: match b.right {
            Some(r) => Some(kept_of(r)),
            None => None,
        },
        focus: if b.right is Some && b.focus == PaneSide::Right {
            SavedPaneSide::Right
        } else {
            SavedPaneSide::Left
        },
        split_ratio: normalized(split_ratio),
    }
}

/// What is kept of a pane.
pub fn pane_session(pane: &PaneState) -> (r: PaneSession)
    ensures
        r@ == kept_of(pane@),
{
    let ghost dirs = panes::tab_dirs(pane@.tabs);
    let mut tabs: Vec<TabSession> = Vec::new();
    let mut i: usize = 0;
    assert(session::tab_paths(tabs@) =~= dirs.take(0));
    while i < pane.tabs.len()
        invariant
            i <= pane.tabs@.len(),
            dirs == panes::tab_dirs(pane@.tabs),
            session::tab_paths(tabs@) == dirs.take(i as int),
        decreases pane.tabs@.len() - i,
    {
        let ghost before = session::tab_paths(tabs@);
        assert(dirs[i as int] == pane.tabs@[i as int].current_path@);
        tabs.push(TabSession { path: pane.tabs[i].current_path.clone() });
        assert(session::tab_paths(tabs@) =~= before.push(dirs[i as int]));
        i += 1;
        assert(session::tab_paths(tabs@) =~= dirs.take(i as int));
    }
    assert(dirs.take(i as int) =~= dirs);
    PaneSession { tabs, active_tab: pane.active_tab }
}

/// What is kept of the panes.
pub fn browser_session_snapshot(browser: &Browser, split_ratio: u32) -> (r: SessionState)
    ensures
        r@ == snapshot_of(browser@, split_ratio),
{
    let right = match &browser.right {
        Some(p) => Some(pane_session(p)),
        None => None,
    };
    let focus = match (browser.focus, &browser.right) {
        (PaneSide::Right, Some(_)) => SavedPaneSide::Right,
        _ => SavedPaneSide::Left,
    };
    SessionState {
        version: SESSION_VERSION,
        left: pane_session(&browser.left),
        right,
        focus,
        split_ratio: normalized_split_ratio(split_ratio),
    }
}

/// What is found out about the directory of a saved tab: whether it exists, which of those above
/// exist, and what reading the one gave that is opened.
#[derive(Debug)]
pub struct RestoreFacts {
    pub is_dir: bool,
    pub ancestors_exist: Vec<bool>,
    pub read: DirRead,
}

/// The directory that is opened for a saved one: itself, the innermost one above that exists, or
/// the fallback.
pub open spec fn resolved_dir(
    p: Seq<u8>,
    fallback: Seq<u8>,
    is_dir: bool,
    ancestors_exist: Seq<bool>,
) -> Seq<u8> {
    if !path::is_rooted(p) {
        fallback
    } else if is_dir {
        p
    } else {
        match tab::nearest(path::ancestors_of(p), ancestors_exist, 0) {
            Some(d) => d,
            None => fallback,
        }
    }
}

/// The directory that is opened for a saved one.
pub fn resolve_saved_directory(
    path: &FsPath,
    fallback: &FsPath,
    is_dir: bool,
    ancestors_exist: &Vec<bool>,
) -> (r: FsPath)
    requires
        ancestors_exist@.len() == path::ancestors_of(path@).len(),
    ensures
        r@ == resolved_dir(path@, fallback@, is_dir, ancestors_exist@),
{
    if path.is_absolute() {
        if is_dir {
            return path.clone();
        }
        match nearest_existing_directory(path, ancestors_exist) {
            Some(d) => {
                return d;
            },
            None => {},
        }
    }
    fallback.clone()
}

/// How many of some saved tabs are restored.
pub open spec fn restored_count(saved: nat) -> nat {
    if saved <= MAX_RESTORED_TABS_PER_PANE {
        saved
    } else {
        MAX_RESTORED_TABS_PER_PANE as nat
    }
}

/// A tab that is opened for a saved one.
pub open spec fn restored_tab(
    p: Seq<u8>,
    fallback: Seq<u8>,
    f: RestoreFacts,
    show_hidden: bool,
) -> TabView {
    tab::after_reload(
        tab::opened(resolved_dir(p, fallback, f.is_dir, f.ancestors_exist@)),
        f.read,
        show_hidden,
        true,
    )
}

/// The pane that is restored from a saved one, where that has any tab.
pub open spec fn restored_pane(
    saved: session::PaneView,
    fallback: Seq<u8>,
    facts: Seq<RestoreFacts>,
    show_hidden: bool,
) -> Option<PaneView> {
    let n = restored_count(saved.tabs.len());
    if n == 0 {
        None
    } else {
        Some(
            PaneView {
                tabs: Seq::new(
                    n,
                    |i: int| restored_tab(saved.tabs[i], fallback, facts[i], show_hidden),
                ),
                active: if saved.active_tab < n {
                    saved.active_tab
                } else {
                    n - 1
                },
            },
        )
    }
}

/// Whether the facts about saved tabs fit them.
pub open spec fn restore_facts_fit(saved: session::PaneView, facts: Seq<RestoreFacts>) -> bool {
    &&& facts.len() >= restored_count(saved.tabs.len())
    &&& forall|i: int|
        0 <= i < restored_count(saved.tabs.len()) ==> (
        #[trigger] facts[i]).ancestors_exist@.len() == path::ancestors_of(saved.tabs[i]).len()
}

/// Restores a pane.
pub fn restore_pane(
    saved: &PaneSession,
    fallback: &FsPath,
    facts: &Vec<RestoreFacts>,
    show_hidden: bool,
) -> (r: Option<PaneState>)
    requires
        restore_facts_fit(saved@, facts@),
    ensures
        panes::optional_pane(r) == restored_pane(saved@, fallback@, facts@, show_hidden),
        r is Some ==> r->0@.wf(),
{
    let total: usize = saved.tabs.len();
    assert(saved@.tabs.len() == total);
    let n: usize = if total <= MAX_RESTORED_TABS_PER_PANE {
        total
    } else {
        MAX_RESTORED_TABS_PER_PANE
    };
    let mut tabs: Vec<TabState> = Vec::new();
    let mut i: usize = 0;
    while i < n
        invariant
            i <= n <= saved.tabs@.len(),
            n == restored_count(saved@.tabs.len()),
            restore_facts_fit(saved@, facts@),
            tabs@.len() == i,
            forall|k: int|
                0 <= k < i ==> (#[trigger] tabs@[k])@ == restored_tab(
                    saved@.tabs[k],
                    fallback@,
                    facts@[k],
                    show_hidden,
                ),
            forall|k: int| 0 <= k < i ==> (#[trigger] tabs@[k])@.wf(),
        decreases n - i,
    {
        assert(saved@.tabs[i as int] == saved.tabs@[i as int].path@);
        assert(facts@[i as int].ancestors_exist@.len() == path::ancestors_of(
            saved@.tabs[i as int],
        ).len());
        let f = &facts[i];
        let dir = resolve_saved_directory(
            &saved.tabs[i].path,
            fallback,
            f.is_dir,
            &f.ancestors_exist,
        );
        tabs.push(TabState::new(dir, &f.read, show_hidden));
        i += 1;
    }
    if n == 0 {
        return None;
    }
    let active_tab: usize = if saved.active_tab < n {
        saved.active_tab
    } else {
        n - 1
    };
    let pane = PaneState { tabs, active_tab };
    proof {
        assert(pane@.tabs =~= restored_pane(saved@, fallback@, facts@, show_hidden)->0.tabs);
        assert forall|k: int| 0 <= k < pane@.tabs.len() implies (#[trigger] pane@.tabs[k]).wf() by {
            assert(pane@.tabs[k] == pane.tabs@[k]@);
        }
    }
    Some(pane)
}

/// The panes that are restored, and the split ratio.
#[derive(Debug)]
pub struct RestoredBrowserSession {
    pub browser: Browser,
    pub split_ratio: u32,
}

/// The pane at the fallback.
pub open spec fn fallback_pane(fallback: Seq<u8>, read: DirRead, show_hidden: bool) -> PaneView {
    pane::pane_of(tab::after_reload(tab::opened(fallback), read, show_hidden, true))
}

/// What is found out about the directories of a saved session.
#[derive(Debug)]
pub struct SessionFacts {
    pub left: Vec<RestoreFacts>,
    pub right: Vec<RestoreFacts>,
    /// What reading the fallback gave.
    pub fallback_read: DirRead,
}

/// The panes that are restored from a saved session.
pub open spec fn restored(
    saved: SessionView,
    fallback: Seq<u8>,
    facts: SessionFacts,
    show_hidden: bool,
) -> BrowserView {
    let right = match saved.right {
        Some(p) => restored_pane(p, fallback, facts.right@, show_hidden),
        None => None,
    };
    BrowserView {
        left: match restored_pane(saved.left, fallback, facts.left@, show_hidden) {
            Some(p) => p,
            None => fallback_pane(fallback, facts.fallback_read, show_hidden),
        },
        right,
        focus: if right is Some && saved.focus == SavedPaneSide::Right {
            PaneSide::Right
        } else {
            PaneSide::Left
        },
    }
}

/// Restores the panes from a saved session, or opens the fallback where there is none.
pub fn restore_browser_session(
    saved: Option<&SessionState>,
    fallback: &FsPath,
    facts: &SessionFacts,
    show_hidden: bool,
) -> (r: RestoredBrowserSession)
    requires
        saved is Some ==> restore_facts_fit(saved->0@.left, facts.left@),
        saved is Some && saved->0@.right is Some ==> restore_facts_fit(
            saved->0@.right->0,
            facts.right@,
        ),
    ensures
        r.browser@ == match saved {
            Some(s) => restored(s@, fallback@, *facts, show_hidden),
            None => BrowserView {
                left: fallback_pane(fallback@, facts.fallback_read, show_hidden),
                right: None,
                focus: PaneSide::Left,
            },
        },
        r.split_ratio == match saved {
            Some(s) => normalized(s@.split_ratio),
            None => EVEN_SPLIT_RATIO,
        },
        r.browser@.wf(),
{
    match saved {
        None => RestoredBrowserSession {
            browser: Browser {
                left: PaneState::new(fallback.clone(), &facts.fallback_read, show_hidden),
                right: None,
                focus: PaneSide::Left,
            },
            split_ratio: EVEN_SPLIT_RATIO,
        },
        Some(s) => {
            let left = match restore_pane(&s.left, fallback, &facts.left, show_hidden) {
                Some(p) => p,
                None => PaneState::new(fallback.clone(), &facts.fallback_read, show_hidden),
            };
            let right = match &s.right {
                Some(p) => restore_pane(p, fallback, &facts.right, show_hidden),
                None => None,
            };
            let focus = match (s.focus, &right) {
                (SavedPaneSide::Right, Some(_)) => PaneSide::Right,
                _ => PaneSide::Left,
            };
            RestoredBrowserSession {
                browser: Browser { left, right, focus },
                split_ratio: normalized_split_ratio(s.split_ratio),
            }
        },
    }
}

/// A snapshot that waits to be saved.
#[derive(Debug)]
pub struct PendingSessionSave {
    pub snapshot: SessionState,
    pub deadline: u64,
}

/// A waiting snapshot by its parts.
pub open spec fn pending_view(p: Option<PendingSessionSave>) -> Option<(SessionView, u64)> {
    match p {
        Some(x) => Some((x.snapshot@, x.deadline)),
        None => None,
    }
}

/// An optional session by its parts.
pub open spec fn saved_view(s: Option<SessionState>) -> Option<SessionView> {
    match s {
        Some(x) => Some(x@),
        None => None,
    }
}

/// Whether an optional session is this one.
pub open spec fn is_session(s: Option<SessionView>, other: SessionView) -> bool {
    match s {
        Some(x) => session::same_session(x, other),
        None => false,
    }
}

/// What waits once the layout is this: nothing where it is what was saved, what waited where it
/// is the same, and else this layout for a while.
pub open spec fn pending_after(
    last: Option<SessionView>,
    pending: Option<(SessionView, u64)>,
    snapshot: SessionView,
    now: u64,
) -> Option<(SessionView, u64)> {
    if is_session(last, snapshot) {
        None
    } else {
        match pending {
            Some(p) => if session::same_session(p.0, snapshot) {
                pending
            } else {
                Some((snapshot, (now + SESSION_SAVE_DEBOUNCE) as u64))
            },
            None => Some((snapshot, (now + SESSION_SAVE_DEBOUNCE) as u64)),
        }
    }
}

/// Takes in what the layout is now.
pub fn update_pending_session(
    last_saved: &Option<SessionState>,
    pending: &mut Option<PendingSessionSave>,
    snapshot: SessionState,
    now: u64,
)
    requires
        now + SESSION_SAVE_DEBOUNCE <= u64::MAX,
    ensures
        pending_view(*final(pending)) == pending_after(
            saved_view(*last_saved),
            pending_view(*old(pending)),
            snapshot@,
            now,
        ),
{
    let saved = match last_saved {
        Some(s) => s.same(&snapshot),
        None => false,
    };
    if saved {
        *pending = None;
        return ;
    }
    let waits = match pending {
        Some(p) => p.snapshot.same(&snapshot),
        None => false,
    };
    if !waits {
        *pending = Some(PendingSessionSave { snapshot, deadline: now + SESSION_SAVE_DEBOUNCE });
    }
}

/// When the session is saved.
#[derive(Debug)]
pub struct SessionSaver {
    pub last_saved: Option<SessionState>,
    pub pending: Option<PendingSessionSave>,
    pub error_logged: bool,
}

/// What is to be done about the session.
#[derive(Debug)]
pub enum SaveStep {
    Nothing,
    /// Look again after this time.
    Wait(u64),
    /// Save this.
    Save(SessionState),
}

/// What followed from a save.
#[derive(Clone, Copy, Debug, PartialEq, Eq, Structural)]
pub struct SaveFollowUp {
    /// Whether the error is reported.
    pub report_error: bool,
    /// After which time to look again.
    pub wait: Option<u64>,
}

impl SessionSaver {
    /// Begins with a session that was read, where the panes still have its layout.
    pub fn new(loaded: Option<SessionState>, snapshot: &SessionState) -> (r: SessionSaver)
        ensures
            r.pending is None,
            !r.error_logged,
            saved_view(r.last_saved) == if is_session(saved_view(loaded), snapshot@) {
                saved_view(loaded)
            } else {
                None
            },
    {
        let last_saved = match loaded {
            Some(s) => if s.same(snapshot) {
                Some(s)
            } else {
                None
            },
            None => None,
        };
        SessionSaver { last_saved, pending: None, error_logged: false }
    }

    /// Takes in what the layout is now, and decides what is to be done.
    pub fn update(&mut self, snapshot: SessionState, now: u64) -> (r: SaveStep)
        requires
            now + SESSION_SAVE_DEBOUNCE <= u64::MAX,
        ensures
            ({
                let p = pending_after(
                    saved_view(old(self).last_saved),
                    pending_view(old(self).pending),
                    snapshot@,
                    now,
                );
                match p {
                    None => r is Nothing && final(self).pending is None,
                    Some(w) => if now < w.1 {
                        &&& r matches SaveStep::Wait(d) && d == w.1 - now
                        &&& pending_view(final(self).pending) == p
                    } else {
                        &&& r matches SaveStep::Save(s) && s@ == w.0
                        &&& final(self).pending is None
                    },
                }
            }),
            final(self).last_saved == old(self).last_saved,
            final(self).error_logged == old(self).error_logged,
    {
        update_pending_session(&self.last_saved, &mut self.pending, snapshot, now);
        let wait = match &self.pending {
            Some(p) => if now < p.deadline {
                Some(p.deadline - now)
            } else {
                None
            },
            None => {
                return SaveStep::Nothing;
            },
        };
        match wait {
            Some(d) => SaveStep::Wait(d),
            None => {
                let mut taken: Option<PendingSessionSave> = None;
                std::mem::swap(&mut self.pending, &mut taken);
                match taken {
                    Some(p) => SaveStep::Save(p.snapshot),
                    None => SaveStep::Nothing,
                }
            },
        }
    }

    /// Takes in whether a snapshot has been saved. One that could not be is tried again later, and
    /// the error is reported once.
    pub fn saved(&mut self, snapshot: SessionState, done: bool, now: u64) -> (r: SaveFollowUp)
        requires
            now + SESSION_SAVE_RETRY <= u64::MAX,
        ensures
            if done {
                &&& saved_view(final(self).last_saved) == Some(snapshot@)
                &&& final(self).pending == old(self).pending
                &&& !final(self).error_logged
                &&& r == (SaveFollowUp { report_error: false, wait: None })
            } else {
                &&& final(self).last_saved == old(self).last_saved
                &&& pending_view(final(self).pending) == Some(
                    (snapshot@, (now + SESSION_SAVE_RETRY) as u64),
                )
                &&& final(self).error_logged
                &&& r == (SaveFollowUp {
                    report_error: !old(self).error_logged,
                    wait: Some(SESSION_SAVE_RETRY),
                })
            },
    {
        if done {
            self.last_saved = Some(snapshot);
            self.error_logged = false;
            SaveFollowUp { report_error: false, wait: None }
        } else {
            let report = !self.error_logged;
            self.error_logged = true;
            self.pending = Some(
                PendingSessionSave { snapshot, deadline: now + SESSION_SAVE_RETRY },
            );
            SaveFollowUp { report_error: report, wait: Some(SESSION_SAVE_RETRY) }
        }
    }

    /// Decides whether the layout has to be saved at the end.
    pub fn update_at_exit(&mut self, snapshot: &SessionState) -> (r: bool)
        ensures
            r == !is_session(saved_view(old(self).last_saved), snapshot@),
            pending_view(final(self).pending) == if r {
                pending_view(old(self).pending)
            } else {
                None
            },
            final(self).last_saved == old(self).last_saved,
            final(self).error_logged == old(self).error_logged,
    {
        let same = match &self.last_saved {
            Some(s) => s.same(snapshot),
            None => false,
        };
        if same {
            self.pending = None;
        }
        !same
    }

    /// Takes in that the layout has been saved at the end.
    pub fn saved_at_exit(&mut self, snapshot: SessionState)
        ensures
            saved_view(final(self).last_saved) == Some(snapshot@),
            final(self).pending is None,
            !final(self).error_logged,
    {
        self.last_saved = Some(snapshot);
        self.pending = None;
        self.error_logged = false;
    }
}

/// Whether the directory of every tab of a pane exists, is named from the root, and there are not
/// too many.
pub open spec fn all_there(p: PaneView, facts: Seq<RestoreFacts>) -> bool {
    &&& p.tabs.len() <= MAX_RESTORED_TABS_PER_PANE
    &&& facts.len() >= p.tabs.len()
    &&& forall|i: int|
        0 <= i < p.tabs.len() ==> (#[trigger] facts[i]).is_dir && path::is_rooted(p.tabs[i].path)
}

proof fn lemma_pane_restored(
    p: PaneView,
    fallback: Seq<u8>,
    facts: Seq<RestoreFacts>,
    show_hidden: bool,
)
    requires
        p.wf(),
        all_there(p, facts),
    ensures
        restored_pane(kept_of(p), fallback, facts, show_hidden) is Some,
        kept_of(restored_pane(kept_of(p), fallback, facts, show_hidden)->0) == kept_of(p),
{
    let saved = kept_of(p);
    let r = restored_pane(saved, fallback, facts, show_hidden)->0;
    assert forall|i: int| 0 <= i < p.tabs.len() implies (#[trigger] r.tabs[i]).path
        == p.tabs[i].path by {
        assert(facts[i].is_dir);
        assert(saved.tabs[i] == p.tabs[i].path);
        assert(r.tabs[i] == restored_tab(saved.tabs[i], fallback, facts[i], show_hidden));
    }
    assert(panes::tab_dirs(r.tabs) =~= panes::tab_dirs(p.tabs));
}

/// Restoring what was kept of the panes gives back the layout: the same tabs in the same order,
/// those that were shown, the focus and the split, where all directories are still there.
pub proof fn restored_layout_is_the_saved_one(
    b: BrowserView,
    split_ratio: u32,
    fallback: Seq<u8>,
    facts: SessionFacts,
    show_hidden: bool,
)
    requires
        b.wf(),
        all_there(b.left, facts.left@),
        b.right is Some ==> all_there(b.right->0, facts.right@),
    ensures
        snapshot_of(
            restored(snapshot_of(b, split_ratio), fallback, facts, show_hidden),
            normalized(split_ratio),
        ) == snapshot_of(b, split_ratio),
        restored(snapshot_of(b, split_ratio), fallback, facts, show_hidden).focus == b.focus,
{
    lemma_pane_restored(b.left, fallback, facts.left@, show_hidden);
    if b.right is Some {
        lemma_pane_restored(b.right->0, fallback, facts.right@, show_hidden);
    }
    normalizing_twice_changes_nothing(split_ratio);
}

/// What is selected, filtered, typed or listed in a tab is not kept: only its directory is.
pub proof fn only_the_layout_is_kept(a: BrowserView, b: BrowserView, split_ratio: u32)
    requires
        panes::tab_dirs(a.left.tabs) == panes::tab_dirs(b.left.tabs),
        a.left.active == b.left.active,
        a.focus == b.focus,
        match (a.right, b.right) {
            (Some(x), Some(y)) => panes::tab_dirs(x.tabs) == panes::tab_dirs(y.tabs) && x.active
                == y.active,
            (None, None) => true,
            _ => false,
        },
    ensures
        snapshot_of(a, split_ratio) == snapshot_of(b, split_ratio),
{
}

proof fn lemma_same_session_reflexive(s: SessionView)
    requires
        !session::is_nan(s.split_ratio),
    ensures
        session::same_session(s, s),
{
}

/// A layout that goes back to what was saved is not saved again.
pub proof fn reverted_change_is_not_saved(
    last: SessionView,
    pending: Option<(SessionView, u64)>,
    now: u64,
)
    requires
        !session::is_nan(last.split_ratio),
    ensures
        pending_after(Some(last), pending, last, now) is None,
{
    lemma_same_session_reflexive(last);
}

/// A layout that stays the same is not put off: the time at which it is saved stays.
pub proof fn steady_layout_is_not_put_off(
    last: Option<SessionView>,
    snapshot: SessionView,
    deadline: u64,
    now: u64,
)
    requires
        !is_session(last, snapshot),
        !session::is_nan(snapshot.split_ratio),
    ensures
        pending_after(last, Some((snapshot, deadline)), snapshot, now) == Some((snapshot, deadline)),
{
    lemma_same_session_reflexive(snapshot);
}

/// A split is kept between 0.15 and 0.85, by its bits in single precision: one in between stays, a
/// smaller or negative one becomes the least, a larger one the greatest, and what is no number, or is
/// without end, an even split.
pub proof fn split_is_kept_in_bounds(bits: u32)
    ensures
        0x3E19_999A <= bits <= 0x3F59_999A ==> normalized(bits) == bits,
        bits < 0x3E19_999A ==> normalized(bits) == 0x3E19_999A,
        0x3F59_999A < bits < 0x7F80_0000 ==> normalized(bits) == 0x3F59_999A,
        0x7F80_0000 <= bits < 0x8000_0000 ==> normalized(bits) == 0x3F00_0000,
        0x8000_0000 <= bits < 0xFF80_0000 ==> normalized(bits) == 0x3E19_999A,
        0xFF80_0000 <= bits ==> normalized(bits) == 0x3F00_0000,
{
}

/// What is kept of the panes is the directories of their tabs in their order, the tab in front of each,
/// and the side in focus.
pub proof fn snapshot_keeps_the_layout(b: BrowserView, split_ratio: u32, i: int)
    requires
        b.wf(),
    ensures
        ({
            let s = snapshot_of(b, split_ratio);
            &&& s.left.tabs.len() == b.left.tabs.len() && s.left.active_tab == b.left.active
            &&& 0 <= i < b.left.tabs.len() ==> s.left.tabs[i] == b.left.tabs[i].path
            &&& s.right is Some <==> b.right is Some
            &&& b.right is Some ==> s.right->0.tabs.len() == b.right->0.tabs.len()
                && s.right->0.active_tab == b.right->0.active
            &&& b.right is Some && 0 <= i < b.right->0.tabs.len() ==> s.right->0.tabs[i]
                == b.right->0.tabs[i].path
            &&& s.focus == SavedPaneSide::Right <==> b.focus == PaneSide::Right
            &&& s.version == 1
            &&& s.split_ratio == normalized(split_ratio)
        }),
{
}

/// A saved tab comes back at its directory, at the nearest one above it that exists where it is gone,
/// and at the fallback where there is none or the path does not start at the root.
pub proof fn saved_tab_comes_back(
    p: Seq<u8>,
    fallback: Seq<u8>,
    is_dir: bool,
    there: Seq<bool>,
    k: int,
)
    requires
        there.len() == path::ancestors_of(p).len(),
    ensures
        p.len() == 0 || p[0] != path::SLASH ==> resolved_dir(p, fallback, is_dir, there) == fallback,
        p.len() > 0 && p[0] == path::SLASH && is_dir ==> resolved_dir(p, fallback, is_dir, there)
            == p,
        p.len() > 0 && p[0] == path::SLASH && !is_dir && 0 <= k < there.len() && there[k] && (
        forall|i: int| 0 <= i < k ==> !#[trigger] there[i]) ==> resolved_dir(
            p,
            fallback,
            is_dir,
            there,
        ) == path::ancestors_of(p)[k],
        p.len() > 0 && p[0] == path::SLASH && !is_dir && (forall|i: int|
            0 <= i < there.len() ==> !#[trigger] there[i]) ==> resolved_dir(
            p,
            fallback,
            is_dir,
            there,
        ) == fallback,
{
    tab::nearest_existing_directory_is_shown(p, there, k);
}

/// A saved pane comes back with its first 64 tabs in their order and the one in front that was, or the
/// last one where that is not among them. A pane without tabs does not come back.
pub proof fn saved_pane_comes_back(
    saved: session::PaneView,
    fallback: Seq<u8>,
    facts: Seq<RestoreFacts>,
    show_hidden: bool,
    i: int,
)
    requires
        0 <= saved.active_tab,
    ensures
        saved.tabs.len() == 0 ==> restored_pane(saved, fallback, facts, show_hidden) is None,
        saved.tabs.len() > 0 ==> ({
            let p = restored_pane(saved, fallback, facts, show_hidden)->0;
            &&& restored_pane(saved, fallback, facts, show_hidden) is Some
            &&& saved.tabs.len() <= 64 ==> p.tabs.len() == saved.tabs.len()
            &&& saved.tabs.len() > 64 ==> p.tabs.len() == 64
            &&& saved.active_tab < p.tabs.len() ==> p.active == saved.active_tab
            &&& saved.active_tab >= p.tabs.len() ==> p.active == p.tabs.len() - 1
            &&& 0 <= i < p.tabs.len() ==> p.tabs[i].path == resolved_dir(
                saved.tabs[i],
                fallback,
                facts[i].is_dir,
                facts[i].ancestors_exist@,
            )
        }),
{
    if saved.tabs.len() > 0 {
        let d = resolved_dir(
            saved.tabs[i],
            fallback,
            facts[i].is_dir,
            facts[i].ancestors_exist@,
        );
        tab::reading_again_shows_what_is_there(tab::opened(d), facts[i].read, show_hidden, true);
    }
}

/// The panes come back as they were saved: a left one always, at the fallback where none was saved, a
/// right one only where one was, and with the focus where it was as far as there is such a pane.
pub proof fn saved_panes_come_back(
    saved: SessionView,
    fallback: Seq<u8>,
    facts: SessionFacts,
    show_hidden: bool,
)
    ensures
        ({
            let b = restored(saved, fallback, facts, show_hidden);
            &&& saved.left.tabs.len() > 0 ==> Some(b.left) == restored_pane(
                saved.left,
                fallback,
                facts.left@,
                show_hidden,
            )
            &&& saved.left.tabs.len() == 0 ==> b.left.tabs.len() == 1 && b.left.tabs[0].path
                == fallback
            &&& b.right is Some <==> saved.right is Some && saved.right->0.tabs.len() > 0
            &&& saved.right is Some ==> b.right == restored_pane(
                saved.right->0,
                fallback,
                facts.right@,
                show_hidden,
            )
            &&& b.focus == PaneSide::Right <==> b.right is Some && saved.focus
                == SavedPaneSide::Right
        }),
{
    tab::reading_again_shows_what_is_there(
        tab::opened(fallback),
        facts.fallback_read,
        show_hidden,
        true,
    );
}

/// A changed layout is saved 0.3 seconds after its last change, and one that is saved already is not.
pub proof fn changed_layout_is_saved_after_a_while(
    last: Option<SessionView>,
    pending: Option<(SessionView, u64)>,
    snapshot: SessionView,
    now: u64,
)
    requires
        now + 300_000_000 <= u64::MAX,
    ensures
        last is Some && session::same_session(last->0, snapshot) ==> pending_after(
            last,
            pending,
            snapshot,
            now,
        ) is None,
        (last is None || !session::same_session(last->0, snapshot)) && (pending is None
            || !session::same_session((pending->0).0, snapshot)) ==> pending_after(
            last,
            pending,
            snapshot,
            now,
        ) == Some((snapshot, (now + 300_000_000) as u64)),
        (last is None || !session::same_session(last->0, snapshot)) && pending is Some
            && session::same_session((pending->0).0, snapshot) ==> pending_after(
            last,
            pending,
            snapshot,
            now,
        ) == pending,
        SESSION_SAVE_RETRY == 5_000_000_000,
{
}

} // verus!
