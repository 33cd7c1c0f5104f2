//! Watching the displayed directories: which ones to watch, what an event means for them, and
//! when they are read again. Times are nanoseconds of a clock that never goes back.

use vstd::prelude::*;

use crate::path;
use crate::path::FsPath;
use crate::path_list;
use crate::path_list::{contains_path, copy_paths, push_all_unique, push_unique, sort_paths};
use crate::sort;

verus! {

/// How long it has to be quiet before directories are read again: 160 milliseconds.
pub const QUIET_PERIOD: u64 = 160_000_000;

/// How long a change waits at most: 500 milliseconds.
pub const MAX_BATCH_LATENCY: u64 = 500_000_000;

/// How long a directory that could not be watched is left alone: five seconds.
pub const WATCH_RETRY_DELAY: u64 = 5_000_000_000;

/// Collects the directories that have changed until they are due.
#[derive(Debug)]
pub struct RefreshDebouncer {
    pub dirty_dirs: Vec<FsPath>,
    pub first_dirty_at: Option<u64>,
    pub last_event_at: Option<u64>,
}

/// What is waiting, since when, and when something last happened.
#[verifier::ext_equal]
pub struct Waiting {
    pub dirs: Seq<Seq<u8>>,
    pub first: Option<u64>,
    pub last: Option<u64>,
}

impl View for RefreshDebouncer {
    type V = Waiting;

    open spec fn view(&self) -> Waiting {
        Waiting {
            dirs: path::path_views(self.dirty_dirs@),
            first: self.first_dirty_at,
            last: self.last_event_at,
        }
    }
}

/// What always holds: no directory waits twice, and the times are set while something waits.
pub open spec fn waiting_in_order(w: Waiting) -> bool {
    &&& path::distinct_paths(w.dirs)
    &&& (w.dirs.len() > 0) == (w.first is Some)
    &&& (w.dirs.len() > 0) == (w.last is Some)
}

/// What is waiting once more directories have changed.
pub open spec fn marked(w: Waiting, dirs: Seq<Seq<u8>>, now: u64) -> Waiting {
    let all = path_list::all_pushed(w.dirs, dirs);
    if all.len() == 0 {
        Waiting { dirs: all, ..w }
    } else {
        Waiting {
            dirs: all,
            first: match w.first {
                Some(t) => Some(t),
                None => Some(now),
            },
            last: Some(now),
        }
    }
}

/// When what is waiting is due: once it has been quiet, or once the first change has waited long
/// enough, whichever is sooner. A time beyond the clock is never.
pub open spec fn due_at(w: Waiting) -> Option<int> {
    match (w.last, w.first) {
        (Some(last), Some(first)) => if last + QUIET_PERIOD > u64::MAX || first + MAX_BATCH_LATENCY
            > u64::MAX {
            None
        } else if last + QUIET_PERIOD <= first + MAX_BATCH_LATENCY {
            Some(last + QUIET_PERIOD)
        } else {
            Some(first + MAX_BATCH_LATENCY)
        },
        _ => None,
    }
}

/// Whether something is due.
pub open spec fn is_due(w: Waiting, now: u64) -> bool {
    w.dirs.len() > 0 && due_at(w) is Some && now >= due_at(w)->0
}

/// Whether a list of paths is another one, sorted.
pub open spec fn sorted_from(result: Seq<Seq<u8>>, dirs: Seq<Seq<u8>>) -> bool {
    exists|order: Seq<usize>|
        sort::is_stable_order(order, path_list::order_items(dirs), false) && result
            == #[trigger] sort::rearranged(dirs, order)
}

impl Default for RefreshDebouncer {
    fn default() -> (r: RefreshDebouncer)
        ensures
            r@.dirs.len() == 0,
            r@.first is None,
            r@.last is None,
            waiting_in_order(r@),
    {
        RefreshDebouncer { dirty_dirs: Vec::new(), first_dirty_at: None, last_event_at: None }
    }
}

impl RefreshDebouncer {
    /// Takes in directories that have changed.
    pub fn mark(&mut self, dirs: &Vec<FsPath>, now: u64)
        requires
            waiting_in_order(old(self)@),
        ensures
            waiting_in_order(final(self)@),
            final(self)@ == marked(old(self)@, path::path_views(dirs@), now),
    {
        proof {
            path_list::all_pushed_paths_are_in_once(self@.dirs, path::path_views(dirs@));
        }
        push_all_unique(&mut self.dirty_dirs, dirs);
        assert(self@.dirs.len() == self.dirty_dirs@.len());
        if self.dirty_dirs.len() > 0 {
            if self.first_dirty_at.is_none() {
                self.first_dirty_at = Some(now);
            }
            self.last_event_at = Some(now);
        }
    }

    /// When what is waiting is due.
    pub fn next_deadline(&self) -> (r: Option<u64>)
        ensures
            match r {
                Some(t) => due_at(self@) == Some(t as int),
                None => due_at(self@) is None,
            },
    {
        let (last, first) = match (self.last_event_at, self.first_dirty_at) {
            (Some(l), Some(f)) => (l, f),
            _ => {
                return None;
            },
        };
        let quiet: u64 = match last.checked_add(QUIET_PERIOD) {
            Some(t) => t,
            None => {
                return None;
            },
        };
        let maximum: u64 = match first.checked_add(MAX_BATCH_LATENCY) {
            Some(t) => t,
            None => {
                return None;
            },
        };
        if quiet <= maximum {
            Some(quiet)
        } else {
            Some(maximum)
        }
    }

    /// The directories that are due, sorted, and nothing while none are.
    pub fn take_due(&mut self, now: u64) -> (r: Option<Vec<FsPath>>)
        requires
            waiting_in_order(old(self)@),
        ensures
            waiting_in_order(final(self)@),
            match r {
                Some(dirs) => {
                    &&& is_due(old(self)@, now)
                    &&& sorted_from(path::path_views(dirs@), old(self)@.dirs)
                    &&& final(self)@.dirs.len() == 0
                },
                None => !is_due(old(self)@, now) && final(self)@ == old(self)@,
            },
    {
        assert(self@.dirs.len() == self.dirty_dirs@.len());
        if self.dirty_dirs.len() == 0 {
            return None;
        }
        match self.next_deadline() {
            Some(due) => {
                if now < due {
                    return None;
                }
            },
            None => {
                return None;
            },
        }
        let mut dirs: Vec<FsPath> = Vec::new();
        std::mem::swap(&mut dirs, &mut self.dirty_dirs);
        sort_paths(&mut dirs);
        self.first_dirty_at = None;
        self.last_event_at = None;
        Some(dirs)
    }
}

/// A change never waits longer than the maximum latency, however many more follow it: what
/// happens later does not move the end of the wait beyond it.
pub proof fn later_events_do_not_delay_beyond_the_maximum(
    w: Waiting,
    dirs: Seq<Seq<u8>>,
    now: u64,
    first: u64,
)
    requires
        waiting_in_order(w),
        w.first == Some(first),
        due_at(marked(w, dirs, now)) is Some,
    ensures
        due_at(marked(w, dirs, now))->0 <= first + MAX_BATCH_LATENCY,
        marked(w, dirs, now).first == Some(first),
{
    path_list::all_pushed_paths_are_in_once(w.dirs, dirs);
}

/// While events keep coming, nothing is due before it has been quiet or the first change has
/// waited for the maximum latency.
pub proof fn nothing_is_due_too_early(w: Waiting, now: u64)
    requires
        is_due(w, now),
    ensures
        now >= w.last->0 + QUIET_PERIOD || now >= w.first->0 + MAX_BATCH_LATENCY,
{
}

/// Every directory that was marked is waiting, and each only once.
pub proof fn marked_directories_wait_once(w: Waiting, dirs: Seq<Seq<u8>>, now: u64, i: int)
    requires
        waiting_in_order(w),
        0 <= i < dirs.len(),
    ensures
        path::has_path(marked(w, dirs, now).dirs, dirs[i]),
        path::distinct_paths(marked(w, dirs, now).dirs),
{
    path_list::all_pushed_paths_are_in_once(w.dirs, dirs);
}

/// What kind of event the system reports.
#[derive(Clone, Copy, Debug, PartialEq, Eq, Structural)]
pub enum WatchEventKind {
    /// A file that was written has been closed.
    CloseAfterWrite,
    /// A file was read, opened or closed in any other way.
    Access,
    /// Something was renamed, and both its paths are known.
    RenameBoth,
    /// Something was renamed, in a way that is not known.
    RenameAny,
    /// Anything else: created, removed, changed, renamed with one path known.
    Other,
}

/// An event that the system reports.
#[derive(Debug)]
pub struct WatchEvent {
    pub kind: WatchEventKind,
    pub paths: Vec<FsPath>,
    /// Whether events were lost, so that everything has to be read again.
    pub rescan: bool,
}

/// What tells a directory from any other, whatever its name.
#[derive(Clone, Copy, Debug, PartialEq, Eq, Structural)]
pub struct DirectoryIdentity {
    pub device: u64,
    pub inode: u64,
}

/// A displayed directory as the file system has it now.
#[derive(Debug)]
pub struct DisplayedDirectory {
    pub path: FsPath,
    pub is_dir: bool,
    pub parent_is_dir: bool,
    pub identity: Option<DirectoryIdentity>,
}

/// The paths of the displayed directories.
pub open spec fn displayed_paths(dirs: Seq<DisplayedDirectory>) -> Seq<Seq<u8>> {
    dirs.map_values(|d: DisplayedDirectory| d.path@)
}

/// Whether an event can mean a change: reading does not.
pub fn event_is_relevant(event: &WatchEvent) -> (r: bool)
    ensures
        r == (event.kind != WatchEventKind::Access),
{
    match event.kind {
        WatchEventKind::Access => false,
        _ => true,
    }
}

/// Whether a path is a directory or directly in it.
pub open spec fn concerns(event_path: Seq<u8>, directory: Seq<u8>) -> bool {
    path::same_path(event_path, directory) || (path::parent_of(event_path) is Some
        && path::same_path(path::parent_of(event_path)->0, directory))
}

/// Whether any path of an event is a directory or directly in it.
pub open spec fn any_concerns(event_paths: Seq<Seq<u8>>, directory: Seq<u8>) -> bool {
    exists|i: int| 0 <= i < event_paths.len() && concerns(#[trigger] event_paths[i], directory)
}

/// The displayed directories that an event concerns, each once.
pub open spec fn affected(event_paths: Seq<Seq<u8>>, displayed: Seq<Seq<u8>>) -> Seq<Seq<u8>>
    decreases displayed.len(),
{
    if displayed.len() == 0 {
        Seq::empty()
    } else {
        let rest = affected(event_paths, displayed.drop_last());
        if any_concerns(event_paths, displayed.last()) {
            path_list::pushed_unique(rest, displayed.last())
        } else {
            rest
        }
    }
}

/// Whether any path of an event is a directory or directly in it.
fn event_concerns(event_paths: &Vec<FsPath>, directory: &FsPath) -> (r: bool)
    ensures
        r == any_concerns(path::path_views(event_paths@), directory@),
{
    let ghost views = path::path_views(event_paths@);
    let mut i: usize = 0;
    while i < event_paths.len()
        invariant
            i <= event_paths@.len(),
            views == path::path_views(event_paths@),
            forall|k: int| 0 <= k < i ==> !concerns(#[trigger] views[k], directory@),
        decreases event_paths@.len() - i,
    {
        assert(views[i as int] == event_paths@[i as int]@);
        let inside = match event_paths[i].parent() {
            Some(p) => p.same(directory),
            None => false,
        };
        if inside || event_paths[i].same(directory) {
            return true;
        }
        i += 1;
    }
    false
}

/// The displayed directories that an event concerns, each once.
pub fn affected_displayed_dirs(event: &WatchEvent, displayed_dirs: &Vec<FsPath>) -> (r: Vec<FsPath>)
    ensures
        path::path_views(r@) == affected(
            path::path_views(event.paths@),
            path::path_views(displayed_dirs@),
        ),
{
    let ghost all = path::path_views(displayed_dirs@);
    let ghost paths = path::path_views(event.paths@);
    let mut out: Vec<FsPath> = Vec::new();
    let mut i: usize = 0;
    assert(path::path_views(out@) =~= affected(paths, all.take(0)));
    while i < displayed_dirs.len()
        invariant
            i <= displayed_dirs@.len(),
            all == path::path_views(displayed_dirs@),
            paths == path::path_views(event.paths@),
            path::path_views(out@) == affected(paths, all.take(i as int)),
        decreases displayed_dirs@.len() - i,
    {
        proof {
            assert(all.take(i + 1).drop_last() =~= all.take(i as int));
            assert(all.take(i + 1).last() == displayed_dirs@[i as int]@);
        }
        if event_concerns(&event.paths, &displayed_dirs[i]) {
            push_unique(&mut out, displayed_dirs[i].clone());
        }
        i += 1;
    }
    assert(all.take(i as int) =~= all);
    out
}

/// An event concerns a displayed directory exactly where one of its paths is the directory or
/// directly in it; what is deeper inside does not concern it.
pub proof fn affected_are_the_concerned(event_paths: Seq<Seq<u8>>, displayed: Seq<Seq<u8>>)
    ensures
        path::distinct_paths(affected(event_paths, displayed)),
        forall|i: int|
            0 <= i < displayed.len() && any_concerns(event_paths, #[trigger] displayed[i])
                ==> path::has_path(affected(event_paths, displayed), displayed[i]),
        forall|k: int|
            0 <= k < affected(event_paths, displayed).len() ==> any_concerns(
                event_paths,
                #[trigger] affected(event_paths, displayed)[k],
            ) && displayed.contains(affected(event_paths, displayed)[k]),
    decreases displayed.len(),
{
    if displayed.len() > 0 {
        let rest_dirs = displayed.drop_last();
        affected_are_the_concerned(event_paths, rest_dirs);
        let rest = affected(event_paths, rest_dirs);
        let all = affected(event_paths, displayed);
        path_list::pushed_path_is_in_once(rest, displayed.last());
        assert forall|i: int|
            0 <= i < displayed.len() && any_concerns(
                event_paths,
                #[trigger] displayed[i],
            ) implies path::has_path(all, displayed[i]) by {
            if i < rest_dirs.len() {
                assert(rest_dirs[i] == displayed[i]);
                assert(path::has_path(rest, displayed[i]));
            }
        }
        assert forall|k: int| 0 <= k < all.len() implies any_concerns(
            event_paths,
            #[trigger] all[k],
        ) && displayed.contains(all[k]) by {
            if k < rest.len() {
                assert(all[k] == rest[k]);
                assert(rest_dirs.contains(rest[k]));
                let j = choose|j: int| 0 <= j < rest_dirs.len() && rest_dirs[j] == rest[k];
                assert(displayed[j] == all[k]);
            } else {
                assert(displayed[displayed.len() - 1] == all[k]);
            }
        }
    }
}

/// A directory and the path that it has now.
#[derive(Debug)]
pub struct DirectoryRename {
    pub old_path: FsPath,
    pub new_path: FsPath,
}

/// Renames by their paths.
pub open spec fn rename_views(renames: Seq<DirectoryRename>) -> Seq<(Seq<u8>, Seq<u8>)> {
    renames.map_values(|r: DirectoryRename| (r.old_path@, r.new_path@))
}

/// Whether an event gives the old and the new path of something.
pub open spec fn is_rename_pair(event: WatchEvent) -> bool {
    (event.kind == WatchEventKind::RenameBoth || event.kind == WatchEventKind::RenameAny)
        && event.paths@.len() == 2
}

/// The displayed directories that were renamed, with the path that they have now.
pub open spec fn renamed_displayed(
    old_path: Seq<u8>,
    new_path: Seq<u8>,
    displayed: Seq<Seq<u8>>,
) -> Seq<(Seq<u8>, Seq<u8>)>
    decreases displayed.len(),
{
    if displayed.len() == 0 {
        Seq::empty()
    } else {
        let rest = renamed_displayed(old_path, new_path, displayed.drop_last());
        if path::same_path(displayed.last(), old_path) {
            rest.push((displayed.last(), new_path))
        } else {
            rest
        }
    }
}

/// The displayed directories that an event says were renamed.
pub fn directory_rename_pairs(event: &WatchEvent, displayed_dirs: &Vec<FsPath>) -> (r: Vec<
    DirectoryRename,
>)
    ensures
        rename_views(r@) == if is_rename_pair(*event) {
            renamed_displayed(
                event.paths@[0]@,
                event.paths@[1]@,
                path::path_views(displayed_dirs@),
            )
        } else {
            Seq::empty()
        },
{
    let mut out: Vec<DirectoryRename> = Vec::new();
    let is_pair = match event.kind {
        WatchEventKind::RenameBoth => true,
        WatchEventKind::RenameAny => true,
        _ => false,
    };
    if !is_pair || event.paths.len() != 2 {
        assert(rename_views(out@) =~= Seq::empty());
        return out;
    }
    let ghost all = path::path_views(displayed_dirs@);
    let ghost from = event.paths@[0]@;
    let ghost to = event.paths@[1]@;
    let mut i: usize = 0;
    assert(rename_views(out@) =~= renamed_displayed(from, to, all.take(0)));
    while i < displayed_dirs.len()
        invariant
            i <= displayed_dirs@.len(),
            event.paths@.len() == 2,
            from == event.paths@[0]@,
            to == event.paths@[1]@,
            all == path::path_views(displayed_dirs@),
            rename_views(out@) == renamed_displayed(from, to, all.take(i as int)),
        decreases displayed_dirs@.len() - i,
    {
        proof {
            assert(all.take(i + 1).drop_last() =~= all.take(i as int));
            assert(all.take(i + 1).last() == displayed_dirs@[i as int]@);
        }
        if displayed_dirs[i].same(&event.paths[0]) {
            let ghost before = rename_views(out@);
            let rename = DirectoryRename {
                old_path: displayed_dirs[i].clone(),
                new_path: event.paths[1].clone(),
            };
            let ghost v = (rename.old_path@, rename.new_path@);
            out.push(rename);
            assert(rename_views(out@) =~= before.push(v));
        }
        i += 1;
    }
    assert(all.take(i as int) =~= all);
    out
}

/// What the events of a moment mean.
#[derive(Debug)]
pub struct WatchUpdate {
    pub directory_renames: Vec<DirectoryRename>,
    pub errors: Vec<String>,
}

impl Default for WatchUpdate {
    fn default() -> (r: WatchUpdate)
        ensures
            r.directory_renames@.len() == 0,
            r.errors@.len() == 0,
    {
        WatchUpdate { directory_renames: Vec::new(), errors: Vec::new() }
    }
}

/// Whether a rename is in a list, in whatever spelling of the paths.
pub open spec fn has_rename(renames: Seq<(Seq<u8>, Seq<u8>)>, r: (Seq<u8>, Seq<u8>)) -> bool {
    exists|i: int|
        0 <= i < renames.len() && path::same_path((#[trigger] renames[i]).0, r.0)
            && path::same_path(renames[i].1, r.1)
}

/// A list with a rename at the end, unless it is there already.
pub open spec fn rename_added(renames: Seq<(Seq<u8>, Seq<u8>)>, r: (Seq<u8>, Seq<u8>)) -> Seq<
    (Seq<u8>, Seq<u8>),
> {
    if has_rename(renames, r) {
        renames
    } else {
        renames.push(r)
    }
}

/// A list with renames at the end, each unless it is there already.
pub open spec fn renames_added(
    renames: Seq<(Seq<u8>, Seq<u8>)>,
    more: Seq<(Seq<u8>, Seq<u8>)>,
) -> Seq<(Seq<u8>, Seq<u8>)>
    decreases more.len(),
{
    if more.len() == 0 {
        renames
    } else {
        rename_added(renames_added(renames, more.drop_last()), more.last())
    }
}

impl WatchUpdate {
    /// Notes a rename, unless it is noted already.
    pub fn add_rename(&mut self, rename: DirectoryRename)
        ensures
            rename_views(final(self).directory_renames@) == rename_added(
                rename_views(old(self).directory_renames@),
                (rename.old_path@, rename.new_path@),
            ),
            final(self).errors == old(self).errors,
    {
        let ghost views = rename_views(self.directory_renames@);
        let ghost v = (rename.old_path@, rename.new_path@);
        let mut i: usize = 0;
        while i < self.directory_renames.len()
            invariant
                i <= self.directory_renames@.len(),
                views == rename_views(self.directory_renames@),
                v == (rename.old_path@, rename.new_path@),
                forall|k: int|
                    0 <= k < i ==> !(path::same_path((#[trigger] views[k]).0, v.0)
                        && path::same_path(views[k].1, v.1)),
            decreases self.directory_renames@.len() - i,
        {
            assert(views[i as int] == (
                self.directory_renames@[i as int].old_path@,
                self.directory_renames@[i as int].new_path@,
            ));
            if self.directory_renames[i].old_path.same(&rename.old_path)
                && self.directory_renames[i].new_path.same(&rename.new_path) {
                return ;
            }
            i += 1;
        }
        self.directory_renames.push(rename);
        assert(rename_views(self.directory_renames@) =~= views.push(v));
    }

    /// Notes renames, each unless it is noted already.
    pub fn add_renames(&mut self, renames: Vec<DirectoryRename>)
        ensures
            rename_views(final(self).directory_renames@) == renames_added(
                rename_views(old(self).directory_renames@),
                rename_views(renames@),
            ),
            final(self).errors == old(self).errors,
    {
        let ghost first = rename_views(self.directory_renames@);
        let ghost all = rename_views(renames@);
        let ghost errors = self.errors;
        let mut rest = renames;
        let mut i: usize = 0;
        let n: usize = rest.len();
        assert(all.take(0) =~= Seq::empty());
        assert(rename_views(rest@) =~= all.skip(0));
        while i < n
            invariant
                i <= n == all.len(),
                rest@.len() == n - i,
                rename_views(rest@) == all.skip(i as int),
                rename_views(self.directory_renames@) == renames_added(first, all.take(i as int)),
                self.errors == errors,
            decreases n - i,
        {
            assert(rename_views(rest@)[0] == all[i as int]);
            let ghost before = rename_views(rest@);
            let r = rest.remove(0);
            proof {
                assert(all.take(i + 1).drop_last() =~= all.take(i as int));
                assert(all.take(i + 1).last() == all[i as int]);
                assert(rename_views(rest@) =~= before.skip(1));
                assert(before.skip(1) =~= all.skip(i + 1));
            }
            self.add_rename(r);
            i += 1;
        }
        assert(all.take(i as int) =~= all);
    }
}

/// A directory that could not be watched, and when that was.
#[derive(Debug)]
pub struct FailedWatch {
    pub path: FsPath,
    pub at: u64,
}

/// A displayed directory and what tells it from any other.
#[derive(Debug)]
pub struct KnownDirectory {
    pub path: FsPath,
    pub identity: DirectoryIdentity,
}

/// Directories that could not be watched, by path and time.
pub open spec fn failed_views(failed: Seq<FailedWatch>) -> Seq<(Seq<u8>, u64)> {
    failed.map_values(|f: FailedWatch| (f.path@, f.at))
}

/// Known directories, by path and identity.
pub open spec fn known_views(known: Seq<KnownDirectory>) -> Seq<(Seq<u8>, DirectoryIdentity)> {
    known.map_values(|k: KnownDirectory| (k.path@, k.identity))
}

/// Which directories are watched, which could not be, what is known of the displayed ones, and
/// what is waiting to be read again.
#[derive(Debug)]
pub struct DirectoryWatcher {
    pub watched_paths: Vec<FsPath>,
    pub failed_paths: Vec<FailedWatch>,
    pub displayed_identities: Vec<KnownDirectory>,
    pub debouncer: RefreshDebouncer,
}

/// What the watcher holds.
#[verifier::ext_equal]
pub struct WatcherView {
    pub watched: Seq<Seq<u8>>,
    pub failed: Seq<(Seq<u8>, u64)>,
    pub known: Seq<(Seq<u8>, DirectoryIdentity)>,
    pub waiting: Waiting,
}

impl View for DirectoryWatcher {
    type V = WatcherView;

    open spec fn view(&self) -> WatcherView {
        WatcherView {
            watched: path::path_views(self.watched_paths@),
            failed: failed_views(self.failed_paths@),
            known: known_views(self.displayed_identities@),
            waiting: self.debouncer@,
        }
    }
}

/// Whether no path is noted twice.
pub open spec fn distinct_notes<T>(notes: Seq<(Seq<u8>, T)>) -> bool {
    forall|i: int, j: int|
        0 <= i < j < notes.len() ==> !path::same_path(
            (#[trigger] notes[i]).0,
            (#[trigger] notes[j]).0,
        )
}

impl WatcherView {
    /// What always holds: no directory is watched twice, has failed twice, is known twice or waits
    /// twice.
    pub open spec fn wf(self) -> bool {
        &&& path::distinct_paths(self.watched)
        &&& distinct_notes(self.failed)
        &&& distinct_notes(self.known)
        &&& waiting_in_order(self.waiting)
    }
}

/// What is kept of a list is as the filter says, and was in the list before.
proof fn lemma_kept<A>(s: Seq<A>, keep: spec_fn(A) -> bool, k: int)
    requires
        0 <= k < s.filter(keep).len(),
    ensures
        keep(s.filter(keep)[k]),
        exists|i: int| 0 <= i < s.len() && s[i] == s.filter(keep)[k],
    decreases s.len(),
{
    reveal(Seq::filter);
    let rest = s.drop_last();
    if k < rest.filter(keep).len() {
        lemma_kept(rest, keep, k);
        let i = choose|i: int| 0 <= i < rest.len() && rest[i] == rest.filter(keep)[k];
        assert(s[i] == s.filter(keep)[k]);
    } else {
        assert(s[s.len() - 1] == s.filter(keep)[k]);
    }
}

proof fn lemma_kept_paths_distinct(s: Seq<Seq<u8>>, keep: spec_fn(Seq<u8>) -> bool)
    requires
        path::distinct_paths(s),
    ensures
        path::distinct_paths(s.filter(keep)),
    decreases s.len(),
{
    reveal(Seq::filter);
    if s.len() > 0 {
        let rest = s.drop_last();
        lemma_kept_paths_distinct(rest, keep);
        let t = rest.filter(keep);
        assert forall|i: int| 0 <= i < t.len() implies !path::same_path(
            #[trigger] t[i],
            s.last(),
        ) by {
            lemma_kept(rest, keep, i);
            let j = choose|j: int| 0 <= j < rest.len() && rest[j] == t[i];
            assert(s[j] == t[i]);
        }
    }
}

proof fn lemma_kept_notes_distinct<T>(
    s: Seq<(Seq<u8>, T)>,
    keep: spec_fn((Seq<u8>, T)) -> bool,
)
    requires
        distinct_notes(s),
    ensures
        distinct_notes(s.filter(keep)),
    decreases s.len(),
{
    reveal(Seq::filter);
    if s.len() > 0 {
        let rest = s.drop_last();
        lemma_kept_notes_distinct(rest, keep);
        let t = rest.filter(keep);
        assert forall|i: int| 0 <= i < t.len() implies !path::same_path(
            (#[trigger] t[i]).0,
            s.last().0,
        ) by {
            lemma_kept(rest, keep, i);
            let j = choose|j: int| 0 <= j < rest.len() && rest[j] == t[i];
            assert(s[j] == t[i]);
        }
    }
}

/// Which directories to stop watching and which to start watching.
#[derive(Debug)]
pub struct WatchPlan {
    pub remove: Vec<FsPath>,
    pub add: Vec<FsPath>,
}

/// The directories to watch: every displayed one that exists, and the one above it, so that its
/// own removal or renaming is seen.
pub open spec fn desired(displayed: Seq<DisplayedDirectory>) -> Seq<Seq<u8>>
    decreases displayed.len(),
{
    if displayed.len() == 0 {
        Seq::empty()
    } else {
        let d = displayed.last();
        let rest = desired(displayed.drop_last());
        let own = if d.is_dir {
            path_list::pushed_unique(rest, d.path@)
        } else {
            rest
        };
        if path::parent_of(d.path@) is Some && d.parent_is_dir {
            path_list::pushed_unique(own, path::parent_of(d.path@)->0)
        } else {
            own
        }
    }
}

/// The directories to watch.
pub fn desired_watch_paths(displayed: &Vec<DisplayedDirectory>) -> (r: Vec<FsPath>)
    ensures
        path::path_views(r@) == desired(displayed@),
{
    let mut out: Vec<FsPath> = Vec::new();
    let mut i: usize = 0;
    assert(path::path_views(out@) =~= desired(displayed@.take(0)));
    while i < displayed.len()
        invariant
            i <= displayed@.len(),
            path::path_views(out@) == desired(displayed@.take(i as int)),
        decreases displayed@.len() - i,
    {
        proof {
            assert(displayed@.take(i + 1).drop_last() =~= displayed@.take(i as int));
            assert(displayed@.take(i + 1).last() == displayed@[i as int]);
        }
        if displayed[i].is_dir {
            push_unique(&mut out, displayed[i].path.clone());
        }
        if displayed[i].parent_is_dir {
            if let Some(parent) = displayed[i].path.parent() {
                push_unique(&mut out, parent);
            }
        }
        i += 1;
    }
    assert(displayed@.take(i as int) =~= displayed@);
    out
}

/// Every displayed directory that exists is to be watched, and so is the one above it.
pub proof fn displayed_directories_are_watched(displayed: Seq<DisplayedDirectory>, i: int)
    requires
        0 <= i < displayed.len(),
    ensures
        path::distinct_paths(desired(displayed)),
        displayed[i].is_dir ==> path::has_path(desired(displayed), displayed[i].path@),
        displayed[i].parent_is_dir && path::parent_of(displayed[i].path@) is Some
            ==> path::has_path(desired(displayed), path::parent_of(displayed[i].path@)->0),
    decreases displayed.len(),
{
    let rest_dirs = displayed.drop_last();
    let d = displayed.last();
    let rest = desired(rest_dirs);
    if i < rest_dirs.len() {
        displayed_directories_are_watched(rest_dirs, i);
        assert(rest_dirs[i] == displayed[i]);
    } else if rest_dirs.len() > 0 {
        displayed_directories_are_watched(rest_dirs, 0);
    }
    assert(path::distinct_paths(rest));
    path_list::pushed_path_is_in_once(rest, d.path@);
    let own = if d.is_dir {
        path_list::pushed_unique(rest, d.path@)
    } else {
        rest
    };
    if path::parent_of(d.path@) is Some {
        path_list::pushed_path_is_in_once(own, path::parent_of(d.path@)->0);
    }
}

/// Whether a directory may be tried: it has not failed, or not for a while.
pub open spec fn may_try(failed: Seq<(Seq<u8>, u64)>, p: Seq<u8>, now: u64) -> bool {
    forall|i: int|
        0 <= i < failed.len() && path::same_path((#[trigger] failed[i]).0, p) ==> now
            >= failed[i].1 && now - failed[i].1 >= WATCH_RETRY_DELAY
}

/// The failures of the directories that are still to be watched.
pub open spec fn failed_kept(failed: Seq<(Seq<u8>, u64)>, wanted: Seq<Seq<u8>>) -> Seq<
    (Seq<u8>, u64),
> {
    failed.filter(|f: (Seq<u8>, u64)| path::has_path(wanted, f.0))
}

/// What is known of the directories that are still displayed.
pub open spec fn known_kept(
    known: Seq<(Seq<u8>, DirectoryIdentity)>,
    displayed: Seq<Seq<u8>>,
) -> Seq<(Seq<u8>, DirectoryIdentity)> {
    known.filter(|k: (Seq<u8>, DirectoryIdentity)| path::has_path(displayed, k.0))
}

/// The first place of a directory among the known ones, and their number where it is not.
pub open spec fn known_place(known: Seq<(Seq<u8>, DirectoryIdentity)>, p: Seq<u8>, i: int) -> int
    decreases known.len() - i,
{
    if i < 0 || i >= known.len() {
        known.len() as int
    } else if path::same_path(known[i].0, p) {
        i
    } else {
        known_place(known, p, i + 1)
    }
}

/// What is known once the identity of a directory has been read.
pub open spec fn known_with(
    known: Seq<(Seq<u8>, DirectoryIdentity)>,
    p: Seq<u8>,
    id: DirectoryIdentity,
) -> Seq<(Seq<u8>, DirectoryIdentity)> {
    let k = known_place(known, p, 0);
    if k < known.len() {
        known.update(k, (known[k].0, id))
    } else {
        known.push((p, id))
    }
}

/// What is known once the identities of the displayed directories have been read.
pub open spec fn known_after(
    known: Seq<(Seq<u8>, DirectoryIdentity)>,
    displayed: Seq<DisplayedDirectory>,
) -> Seq<(Seq<u8>, DirectoryIdentity)>
    decreases displayed.len(),
{
    if displayed.len() == 0 {
        known
    } else {
        let rest = known_after(known, displayed.drop_last());
        match displayed.last().identity {
            Some(id) => known_with(rest, displayed.last().path@, id),
            None => rest,
        }
    }
}

proof fn lemma_known_place(known: Seq<(Seq<u8>, DirectoryIdentity)>, p: Seq<u8>, i: int)
    requires
        0 <= i <= known.len(),
    ensures
        i <= known_place(known, p, i) <= known.len(),
        forall|k: int|
            i <= k < known_place(known, p, i) ==> !path::same_path((#[trigger] known[k]).0, p),
    decreases known.len() - i,
{
    if i < known.len() && !path::same_path(known[i].0, p) {
        lemma_known_place(known, p, i + 1);
    }
}

proof fn lemma_known_after_distinct(
    known: Seq<(Seq<u8>, DirectoryIdentity)>,
    displayed: Seq<DisplayedDirectory>,
)
    requires
        distinct_notes(known),
    ensures
        distinct_notes(known_after(known, displayed)),
    decreases displayed.len(),
{
    if displayed.len() > 0 {
        lemma_known_after_distinct(known, displayed.drop_last());
        let rest = known_after(known, displayed.drop_last());
        lemma_known_place(rest, displayed.last().path@, 0);
    }
}

/// The identity that is known of a directory.
pub open spec fn identity_of(known: Seq<(Seq<u8>, DirectoryIdentity)>, p: Seq<u8>) -> Option<
    DirectoryIdentity,
> {
    let k = known_place(known, p, 0);
    if k < known.len() {
        Some(known[k].1)
    } else {
        None
    }
}

/// The paths of the displayed directories.
fn paths_of(displayed: &Vec<DisplayedDirectory>) -> (r: Vec<FsPath>)
    ensures
        path::path_views(r@) == displayed_paths(displayed@),
{
    let mut out: Vec<FsPath> = Vec::new();
    let ghost all = displayed_paths(displayed@);
    let mut i: usize = 0;
    assert(path::path_views(out@) =~= all.take(0));
    while i < displayed.len()
        invariant
            i <= displayed@.len(),
            all == displayed_paths(displayed@),
            path::path_views(out@) == all.take(i as int),
        decreases displayed@.len() - i,
    {
        let ghost before = path::path_views(out@);
        let p = displayed[i].path.clone();
        let ghost v = p@;
        out.push(p);
        i += 1;
        assert(path::path_views(out@) =~= before.push(v));
        assert(path::path_views(out@) =~= all.take(i as int));
    }
    assert(all.take(i as int) =~= all);
    out
}

/// Parts a list of paths by whether they are wanted.
fn split_wanted(paths: &Vec<FsPath>, wanted: &Vec<FsPath>) -> (r: (Vec<FsPath>, Vec<FsPath>))
    ensures
        path::path_views(r.0@) == path::path_views(paths@).filter(
            |p: Seq<u8>| path::has_path(path::path_views(wanted@), p),
        ),
        path::path_views(r.1@) == path::path_views(paths@).filter(
            |p: Seq<u8>| !path::has_path(path::path_views(wanted@), p),
        ),
{
    let ghost all = path::path_views(paths@);
    let ghost w = path::path_views(wanted@);
    let ghost yes = |p: Seq<u8>| path::has_path(w, p);
    let ghost no = |p: Seq<u8>| !path::has_path(w, p);
    let mut keep: Vec<FsPath> = Vec::new();
    let mut drop: Vec<FsPath> = Vec::new();
    let mut i: usize = 0;
    proof {
        reveal(Seq::filter);
        assert(path::path_views(keep@) =~= all.take(0).filter(yes));
        assert(path::path_views(drop@) =~= all.take(0).filter(no));
    }
    while i < paths.len()
        invariant
            i <= paths@.len(),
            all == path::path_views(paths@),
            w == path::path_views(wanted@),
            yes == (|p: Seq<u8>| path::has_path(w, p)),
            no == (|p: Seq<u8>| !path::has_path(w, p)),
            path::path_views(keep@) == all.take(i as int).filter(yes),
            path::path_views(drop@) == all.take(i as int).filter(no),
        decreases paths@.len() - i,
    {
        proof {
            reveal(Seq::filter);
            assert(all.take(i + 1).drop_last() =~= all.take(i as int));
            assert(all.take(i + 1).last() == paths@[i as int]@);
        }
        let ghost k = path::path_views(keep@);
        let ghost d = path::path_views(drop@);
        let p = paths[i].clone();
        let ghost v = p@;
        if contains_path(wanted, &p) {
            keep.push(p);
            assert(path::path_views(keep@) =~= k.push(v));
        } else {
            drop.push(p);
            assert(path::path_views(drop@) =~= d.push(v));
        }
        i += 1;
    }
    assert(all.take(i as int) =~= all);
    (keep, drop)
}

/// What the watcher holds once the plan has been made, before any directory has been tried.
pub open spec fn synced(w: WatcherView, displayed: Seq<DisplayedDirectory>) -> WatcherView {
    let wanted = desired(displayed);
    WatcherView {
        watched: w.watched.filter(|p: Seq<u8>| path::has_path(wanted, p)),
        failed: failed_kept(w.failed, wanted),
        known: known_after(known_kept(w.known, displayed_paths(displayed)), displayed),
        waiting: w.waiting,
    }
}

/// Comparing with what is displayed leaves no directory noted twice.
pub proof fn syncing_notes_nothing_twice(w: WatcherView, displayed: Seq<DisplayedDirectory>)
    requires
        w.wf(),
    ensures
        synced(w, displayed).wf(),
{
    let wanted = desired(displayed);
    let shown = displayed_paths(displayed);
    lemma_kept_paths_distinct(w.watched, |p: Seq<u8>| path::has_path(wanted, p));
    lemma_kept_notes_distinct(w.failed, |f: (Seq<u8>, u64)| path::has_path(wanted, f.0));
    lemma_kept_notes_distinct(
        w.known,
        |k: (Seq<u8>, DirectoryIdentity)| path::has_path(shown, k.0),
    );
    lemma_known_after_distinct(known_kept(w.known, shown), displayed);
}

/// The directories to stop watching.
pub open spec fn to_remove(w: WatcherView, displayed: Seq<DisplayedDirectory>) -> Seq<Seq<u8>> {
    let wanted = desired(displayed);
    w.watched.filter(|p: Seq<u8>| !path::has_path(wanted, p))
}

/// The directories to start watching: those that are to be watched, are not, and may be tried.
pub open spec fn to_add(w: WatcherView, displayed: Seq<DisplayedDirectory>, now: u64) -> Seq<
    Seq<u8>,
> {
    let after = synced(w, displayed);
    desired(displayed).filter(
        |p: Seq<u8>| !path::has_path(after.watched, p) && may_try(after.failed, p, now),
    )
}

impl DirectoryWatcher {
    /// A watcher of nothing.
    pub fn new() -> (r: DirectoryWatcher)
        ensures
            r@.watched.len() == 0,
            r@.failed.len() == 0,
            r@.known.len() == 0,
            r@.waiting.dirs.len() == 0,
            r@.wf(),
    {
        DirectoryWatcher {
            watched_paths: Vec::new(),
            failed_paths: Vec::new(),
            displayed_identities: Vec::new(),
            debouncer: RefreshDebouncer::default(),
        }
    }

    /// Keeps the failures of the directories that are still to be watched.
    fn keep_failed(&mut self, wanted: &Vec<FsPath>)
        ensures
            final(self)@ == (WatcherView {
                failed: failed_kept(old(self)@.failed, path::path_views(wanted@)),
                ..old(self)@
            }),
    {
        let ghost w = path::path_views(wanted@);
        let ghost all = failed_views(self.failed_paths@);
        let ghost yes = |f: (Seq<u8>, u64)| path::has_path(w, f.0);
        let mut kept: Vec<FailedWatch> = Vec::new();
        let mut i: usize = 0;
        proof {
            reveal(Seq::filter);
            assert(failed_views(kept@) =~= all.take(0).filter(yes));
        }
        while i < self.failed_paths.len()
            invariant
                i <= self.failed_paths@.len(),
                self@ == old(self)@,
                all == failed_views(self.failed_paths@),
                w == path::path_views(wanted@),
                yes == (|f: (Seq<u8>, u64)| path::has_path(w, f.0)),
                failed_views(kept@) == all.take(i as int).filter(yes),
            decreases self.failed_paths@.len() - i,
        {
            proof {
                reveal(Seq::filter);
                assert(all.take(i + 1).drop_last() =~= all.take(i as int));
                assert(all.take(i + 1).last() == (
                    self.failed_paths@[i as int].path@,
                    self.failed_paths@[i as int].at,
                ));
            }
            if contains_path(wanted, &self.failed_paths[i].path) {
                let ghost before = failed_views(kept@);
                let f = FailedWatch {
                    path: self.failed_paths[i].path.clone(),
                    at: self.failed_paths[i].at,
                };
                let ghost v = (f.path@, f.at);
                kept.push(f);
                assert(failed_views(kept@) =~= before.push(v));
            }
            i += 1;
        }
        assert(all.take(i as int) =~= all);
        self.failed_paths = kept;
    }

    /// Keeps what is known of the directories that are still displayed.
    fn keep_known(&mut self, displayed: &Vec<FsPath>)
        ensures
            final(self)@ == (WatcherView {
                known: known_kept(old(self)@.known, path::path_views(displayed@)),
                ..old(self)@
            }),
    {
        let ghost w = path::path_views(displayed@);
        let ghost all = known_views(self.displayed_identities@);
        let ghost yes = |k: (Seq<u8>, DirectoryIdentity)| path::has_path(w, k.0);
        let mut kept: Vec<KnownDirectory> = Vec::new();
        let mut i: usize = 0;
        proof {
            reveal(Seq::filter);
            assert(known_views(kept@) =~= all.take(0).filter(yes));
        }
        while i < self.displayed_identities.len()
            invariant
                i <= self.displayed_identities@.len(),
                self@ == old(self)@,
                all == known_views(self.displayed_identities@),
                w == path::path_views(displayed@),
                yes == (|k: (Seq<u8>, DirectoryIdentity)| path::has_path(w, k.0)),
                known_views(kept@) == all.take(i as int).filter(yes),
            decreases self.displayed_identities@.len() - i,
        {
            proof {
                reveal(Seq::filter);
                assert(all.take(i + 1).drop_last() =~= all.take(i as int));
                assert(all.take(i + 1).last() == (
                    self.displayed_identities@[i as int].path@,
                    self.displayed_identities@[i as int].identity,
                ));
            }
            if contains_path(displayed, &self.displayed_identities[i].path) {
                let ghost before = known_views(kept@);
                let k = KnownDirectory {
                    path: self.displayed_identities[i].path.clone(),
                    identity: self.displayed_identities[i].identity,
                };
                let ghost v = (k.path@, k.identity);
                kept.push(k);
                assert(known_views(kept@) =~= before.push(v));
            }
            i += 1;
        }
        assert(all.take(i as int) =~= all);
        self.displayed_identities = kept;
    }

    /// The first place of a directory among the known ones.
    fn find_known(&self, p: &FsPath) -> (r: usize)
        ensures
            r == known_place(self@.known, p@, 0),
            r <= self.displayed_identities@.len(),
    {
        let ghost all = known_views(self.displayed_identities@);
        let mut i: usize = 0;
        while i < self.displayed_identities.len()
            invariant
                i <= self.displayed_identities@.len(),
                all == known_views(self.displayed_identities@),
                known_place(all, p@, 0) == known_place(all, p@, i as int),
            decreases self.displayed_identities@.len() - i,
        {
            if self.displayed_identities[i].path.same(p) {
                return i;
            }
            i += 1;
        }
        i
    }

    /// Notes the identities of the displayed directories.
    fn note_identities(&mut self, displayed: &Vec<DisplayedDirectory>)
        ensures
            final(self)@ == (WatcherView {
                known: known_after(old(self)@.known, displayed@),
                ..old(self)@
            }),
    {
        let ghost first = self@;
        let mut i: usize = 0;
        assert(displayed@.take(0) =~= Seq::empty());
        while i < displayed.len()
            invariant
                i <= displayed@.len(),
                self@ == (WatcherView {
                    known: known_after(first.known, displayed@.take(i as int)),
                    ..first
                }),
            decreases displayed@.len() - i,
        {
            proof {
                assert(displayed@.take(i + 1).drop_last() =~= displayed@.take(i as int));
                assert(displayed@.take(i + 1).last() == displayed@[i as int]);
            }
            if let Some(id) = displayed[i].identity {
                let ghost before = self@.known;
                let k = self.find_known(&displayed[i].path);
                if k < self.displayed_identities.len() {
                    let p = self.displayed_identities[k].path.clone();
                    let ghost v = (p@, id);
                    self.displayed_identities.set(k, KnownDirectory { path: p, identity: id });
                    assert(self@.known =~= before.update(k as int, v));
                } else {
                    let p = displayed[i].path.clone();
                    let ghost v = (p@, id);
                    self.displayed_identities.push(KnownDirectory { path: p, identity: id });
                    assert(self@.known =~= before.push(v));
                }
            }
            i += 1;
        }
        assert(displayed@.take(i as int) =~= displayed@);
    }

    /// Whether a directory may be tried.
    fn may_be_tried(&self, p: &FsPath, now: u64) -> (r: bool)
        ensures
            r == may_try(self@.failed, p@, now),
    {
        let ghost all = failed_views(self.failed_paths@);
        let mut i: usize = 0;
        while i < self.failed_paths.len()
            invariant
                i <= self.failed_paths@.len(),
                all == failed_views(self.failed_paths@),
                forall|k: int|
                    0 <= k < i && path::same_path((#[trigger] all[k]).0, p@) ==> now >= all[k].1
                        && now - all[k].1 >= WATCH_RETRY_DELAY,
            decreases self.failed_paths@.len() - i,
        {
            assert(all[i as int] == (
                self.failed_paths@[i as int].path@,
                self.failed_paths@[i as int].at,
            ));
            if self.failed_paths[i].path.same(p) {
                let at = self.failed_paths[i].at;
                if now < at || now - at < WATCH_RETRY_DELAY {
                    return false;
                }
            }
            i += 1;
        }
        true
    }

    /// Compares the watched directories with those that are to be watched, and plans what to
    /// change. A directory that failed is tried again after a while.
    pub fn sync_paths(&mut self, displayed: &Vec<DisplayedDirectory>, now: u64) -> (r: WatchPlan)
        requires
            old(self)@.wf(),
        ensures
            final(self)@.wf(),
            final(self)@ == synced(old(self)@, displayed@),
            path::path_views(r.remove@) == to_remove(old(self)@, displayed@),
            path::path_views(r.add@) == to_add(old(self)@, displayed@, now),
    {
        proof {
            syncing_notes_nothing_twice(self@, displayed@);
        }
        let wanted = desired_watch_paths(displayed);
        let shown = paths_of(displayed);
        self.keep_failed(&wanted);
        self.keep_known(&shown);
        self.note_identities(displayed);
        let (keep, remove) = split_wanted(&self.watched_paths, &wanted);
        self.watched_paths = keep;
        let ghost after = synced(old(self)@, displayed@);
        assert(self@ =~= after);
        let ghost all = path::path_views(wanted@);
        let ghost yes = |p: Seq<u8>|
            !path::has_path(after.watched, p) && may_try(after.failed, p, now);
        let mut add: Vec<FsPath> = Vec::new();
        let mut i: usize = 0;
        proof {
            reveal(Seq::filter);
            assert(path::path_views(add@) =~= all.take(0).filter(yes));
        }
        while i < wanted.len()
            invariant
                i <= wanted@.len(),
                self@ == after,
                all == path::path_views(wanted@),
                yes == (|p: Seq<u8>|
                    !path::has_path(after.watched, p) && may_try(after.failed, p, now)),
                path::path_views(add@) == all.take(i as int).filter(yes),
            decreases wanted@.len() - i,
        {
            proof {
                reveal(Seq::filter);
                assert(all.take(i + 1).drop_last() =~= all.take(i as int));
                assert(all.take(i + 1).last() == wanted@[i as int]@);
            }
            let watched = contains_path(&self.watched_paths, &wanted[i]);
            let tried = self.may_be_tried(&wanted[i], now);
            if !watched && tried {
                let ghost before = path::path_views(add@);
                let p = wanted[i].clone();
                let ghost v = p@;
                add.push(p);
                assert(path::path_views(add@) =~= before.push(v));
            }
            i += 1;
        }
        assert(all.take(i as int) =~= all);
        WatchPlan { remove, add }
    }

    /// Notes that a directory is watched.
    pub fn watch_succeeded(&mut self, p: &FsPath)
        requires
            old(self)@.wf(),
        ensures
            final(self)@.wf(),
            final(self)@ == (WatcherView {
                watched: path_list::pushed_unique(old(self)@.watched, p@),
                failed: old(self)@.failed.filter(
                    |f: (Seq<u8>, u64)| !path::same_path(f.0, p@),
                ),
                ..old(self)@
            }),
    {
        proof {
            lemma_kept_notes_distinct(
                self@.failed,
                |f: (Seq<u8>, u64)| !path::same_path(f.0, p@),
            );
            path_list::pushed_path_is_in_once(self@.watched, p@);
        }
        self.forget_failure(p);
        push_unique(&mut self.watched_paths, p.clone());
    }

    /// Forgets that a directory could not be watched.
    fn forget_failure(&mut self, p: &FsPath)
        ensures
            final(self)@ == (WatcherView {
                failed: old(self)@.failed.filter(
                    |f: (Seq<u8>, u64)| !path::same_path(f.0, p@),
                ),
                ..old(self)@
            }),
    {
        let ghost all = failed_views(self.failed_paths@);
        let ghost yes = |f: (Seq<u8>, u64)| !path::same_path(f.0, p@);
        let mut kept: Vec<FailedWatch> = Vec::new();
        let mut i: usize = 0;
        proof {
            reveal(Seq::filter);
            assert(failed_views(kept@) =~= all.take(0).filter(yes));
        }
        while i < self.failed_paths.len()
            invariant
                i <= self.failed_paths@.len(),
                self@ == old(self)@,
                all == failed_views(self.failed_paths@),
                yes == (|f: (Seq<u8>, u64)| !path::same_path(f.0, p@)),
                failed_views(kept@) == all.take(i as int).filter(yes),
            decreases self.failed_paths@.len() - i,
        {
            proof {
                reveal(Seq::filter);
                assert(all.take(i + 1).drop_last() =~= all.take(i as int));
                assert(all.take(i + 1).last() == (
                    self.failed_paths@[i as int].path@,
                    self.failed_paths@[i as int].at,
                ));
            }
            if !self.failed_paths[i].path.same(p) {
                let ghost before = failed_views(kept@);
                let f = FailedWatch {
                    path: self.failed_paths[i].path.clone(),
                    at: self.failed_paths[i].at,
                };
                let ghost v = (f.path@, f.at);
                kept.push(f);
                assert(failed_views(kept@) =~= before.push(v));
            }
            i += 1;
        }
        assert(all.take(i as int) =~= all);
        self.failed_paths = kept;
    }

    /// Notes that a directory could not be watched.
    pub fn watch_failed(&mut self, p: &FsPath, now: u64)
        requires
            old(self)@.wf(),
        ensures
            final(self)@.wf(),
            final(self)@ == (WatcherView {
                failed: old(self)@.failed.filter(
                    |f: (Seq<u8>, u64)| !path::same_path(f.0, p@),
                ).push((p@, now)),
                ..old(self)@
            }),
    {
        self.forget_failure(p);
        let ghost before = self@.failed;
        let f = FailedWatch { path: p.clone(), at: now };
        let ghost v = (f.path@, f.at);
        self.failed_paths.push(f);
        assert(self@.failed =~= before.push(v));
        proof {
            let all = old(self)@.failed;
            let others = |f: (Seq<u8>, u64)| !path::same_path(f.0, p@);
            lemma_kept_notes_distinct(all, others);
            assert forall|k: int| 0 <= k < before.len() implies !path::same_path(
                (#[trigger] before[k]).0,
                p@,
            ) by {
                lemma_kept(all, others, k);
            }
        }
    }
}

/// Whether a path is a directory or stands beside it.
pub open spec fn touches_parent(event_path: Seq<u8>, directory: Seq<u8>) -> bool {
    path::same_path(event_path, directory) || match (
        path::parent_of(event_path),
        path::parent_of(directory),
    ) {
        (Some(a), Some(b)) => path::same_path(a, b),
        (None, None) => true,
        _ => false,
    }
}

/// Whether any path of an event is a directory or stands beside it.
pub open spec fn any_touches(event_paths: Seq<Seq<u8>>, directory: Seq<u8>) -> bool {
    exists|i: int|
        0 <= i < event_paths.len() && touches_parent(#[trigger] event_paths[i], directory)
}

/// The displayed directories that are gone, may have been renamed by an event, and can be told
/// from others; with what tells them.
pub open spec fn lost_directories(
    event_paths: Seq<Seq<u8>>,
    displayed: Seq<DisplayedDirectory>,
    known: Seq<(Seq<u8>, DirectoryIdentity)>,
) -> Seq<(Seq<u8>, DirectoryIdentity)>
    decreases displayed.len(),
{
    if displayed.len() == 0 {
        Seq::empty()
    } else {
        let d = displayed.last();
        let rest = lost_directories(event_paths, displayed.drop_last(), known);
        if !d.is_dir && any_touches(event_paths, d.path@) && identity_of(known, d.path@) is Some {
            rest.push((d.path@, identity_of(known, d.path@)->0))
        } else {
            rest
        }
    }
}

/// Whether any path of an event is a directory or stands beside it.
fn event_touches(event_paths: &Vec<FsPath>, directory: &FsPath) -> (r: bool)
    ensures
        r == any_touches(path::path_views(event_paths@), directory@),
{
    let ghost views = path::path_views(event_paths@);
    let above = directory.parent();
    let mut i: usize = 0;
    while i < event_paths.len()
        invariant
            i <= event_paths@.len(),
            views == path::path_views(event_paths@),
            match above {
                Some(p) => path::parent_of(directory@) == Some(p@),
                None => path::parent_of(directory@) is None,
            },
            forall|k: int| 0 <= k < i ==> !touches_parent(#[trigger] views[k], directory@),
        decreases event_paths@.len() - i,
    {
        assert(views[i as int] == event_paths@[i as int]@);
        let beside = match (event_paths[i].parent(), &above) {
            (Some(a), Some(b)) => a.same(b),
            (None, None) => true,
            _ => false,
        };
        if beside || event_paths[i].same(directory) {
            return true;
        }
        i += 1;
    }
    false
}

impl DirectoryWatcher {
    /// The displayed directories that are gone and may have been renamed by an event.
    fn find_lost(&self, event: &WatchEvent, displayed: &Vec<DisplayedDirectory>) -> (r: Vec<
        KnownDirectory,
    >)
        ensures
            known_views(r@) == lost_directories(
                path::path_views(event.paths@),
                displayed@,
                self@.known,
            ),
    {
        let ghost paths = path::path_views(event.paths@);
        let mut out: Vec<KnownDirectory> = Vec::new();
        let mut i: usize = 0;
        assert(known_views(out@) =~= lost_directories(paths, displayed@.take(0), self@.known));
        while i < displayed.len()
            invariant
                i <= displayed@.len(),
                paths == path::path_views(event.paths@),
                known_views(out@) == lost_directories(
                    paths,
                    displayed@.take(i as int),
                    self@.known,
                ),
            decreases displayed@.len() - i,
        {
            proof {
                assert(displayed@.take(i + 1).drop_last() =~= displayed@.take(i as int));
                assert(displayed@.take(i + 1).last() == displayed@[i as int]);
            }
            if !displayed[i].is_dir && event_touches(&event.paths, &displayed[i].path) {
                let k = self.find_known(&displayed[i].path);
                if k < self.displayed_identities.len() {
                    let ghost before = known_views(out@);
                    assert(self@.known[k as int].1 == self.displayed_identities@[k as int].identity);
                    let d = KnownDirectory {
                        path: displayed[i].path.clone(),
                        identity: self.displayed_identities[k].identity,
                    };
                    let ghost v = (d.path@, d.identity);
                    out.push(d);
                    assert(known_views(out@) =~= before.push(v));
                }
            }
            i += 1;
        }
        assert(displayed@.take(i as int) =~= displayed@);
        out
    }

    /// Takes in an event: notes the directories that it concerns (all displayed ones where events
    /// were lost) and the renames that it tells, and returns the directories that are gone and
    /// have to be looked for under another name.
    pub fn note_event(
        &mut self,
        event: &WatchEvent,
        displayed: &Vec<DisplayedDirectory>,
        now: u64,
        update: &mut WatchUpdate,
    ) -> (r: Vec<KnownDirectory>)
        requires
            old(self)@.wf(),
        ensures
            final(self)@.wf(),
            ({
                let shown = displayed_paths(displayed@);
                let paths = path::path_views(event.paths@);
                let relevant = event.kind != WatchEventKind::Access;
                &&& final(self)@ == if relevant {
                    WatcherView {
                        waiting: marked(
                            old(self)@.waiting,
                            if event.rescan {
                                shown
                            } else {
                                affected(paths, shown)
                            },
                            now,
                        ),
                        ..old(self)@
                    }
                } else {
                    old(self)@
                }
                &&& rename_views(final(update).directory_renames@) == if relevant
                    && is_rename_pair(*event) {
                    renames_added(
                        rename_views(old(update).directory_renames@),
                        renamed_displayed(event.paths@[0]@, event.paths@[1]@, shown),
                    )
                } else {
                    rename_views(old(update).directory_renames@)
                }
                &&& final(update).errors == old(update).errors
                &&& known_views(r@) == if relevant {
                    lost_directories(paths, displayed@, old(self)@.known)
                } else {
                    Seq::empty()
                }
            }),
    {
        if !event_is_relevant(event) {
            let none: Vec<KnownDirectory> = Vec::new();
            assert(known_views(none@) =~= Seq::empty());
            return none;
        }
        let shown = paths_of(displayed);
        let dirs = if event.rescan {
            copy_paths(&shown)
        } else {
            affected_displayed_dirs(event, &shown)
        };
        self.debouncer.mark(&dirs, now);
        let renames = directory_rename_pairs(event, &shown);
        update.add_renames(renames);
        self.find_lost(event, displayed)
    }

    /// The directories that are due to be read again.
    pub fn take_due_refresh(&mut self, now: u64) -> (r: Option<Vec<FsPath>>)
        requires
            old(self)@.wf(),
        ensures
            final(self)@.wf(),
            match r {
                Some(dirs) => {
                    &&& is_due(old(self)@.waiting, now)
                    &&& sorted_from(path::path_views(dirs@), old(self)@.waiting.dirs)
                    &&& final(self)@.waiting.dirs.len() == 0
                    &&& final(self)@ == (WatcherView {
                        waiting: final(self)@.waiting,
                        ..old(self)@
                    })
                },
                None => !is_due(old(self)@.waiting, now) && final(self)@ == old(self)@,
            },
    {
        self.debouncer.take_due(now)
    }

    /// How long it is until something is due, and 0 once it is.
    pub fn time_until_refresh(&self, now: u64) -> (r: Option<u64>)
        ensures
            match r {
                Some(t) => due_at(self@.waiting) is Some && t == if due_at(self@.waiting)->0
                    >= now {
                    due_at(self@.waiting)->0 - now
                } else {
                    0
                },
                None => due_at(self@.waiting) is None,
            },
    {
        match self.debouncer.next_deadline() {
            Some(due) => if due >= now {
                Some(due - now)
            } else {
                Some(0)
            },
            None => None,
        }
    }
}

/// A directory that was found beside a lost one.
#[derive(Debug)]
pub struct SiblingRecord {
    pub path: FsPath,
    pub identity: Option<DirectoryIdentity>,
}

/// Whether a sibling is the lost directory under another name.
pub open spec fn is_found(s: SiblingRecord, old_path: Seq<u8>, id: DirectoryIdentity) -> bool {
    !path::same_path(s.path@, old_path) && s.identity == Some(id)
}

/// Finds a lost directory among its siblings: the first one with its identity.
pub fn find_renamed_sibling(
    old_path: &FsPath,
    expected_identity: DirectoryIdentity,
    siblings: &Vec<SiblingRecord>,
) -> (r: Option<FsPath>)
    ensures
        match r {
            Some(p) => exists|i: int|
                {
                    &&& 0 <= i < siblings@.len()
                    &&& is_found(#[trigger] siblings@[i], old_path@, expected_identity)
                    &&& p@ == siblings@[i].path@
                    &&& forall|k: int|
                        0 <= k < i ==> !is_found(
                            #[trigger] siblings@[k],
                            old_path@,
                            expected_identity,
                        )
                },
            None => forall|k: int|
                0 <= k < siblings@.len() ==> !is_found(
                    #[trigger] siblings@[k],
                    old_path@,
                    expected_identity,
                ),
        },
{
    let mut i: usize = 0;
    while i < siblings.len()
        invariant
            i <= siblings@.len(),
            forall|k: int|
                0 <= k < i ==> !is_found(#[trigger] siblings@[k], old_path@, expected_identity),
        decreases siblings@.len() - i,
    {
        let same_identity = match siblings[i].identity {
            Some(id) => id == expected_identity,
            None => false,
        };
        if same_identity && !siblings[i].path.same(old_path) {
            return Some(siblings[i].path.clone());
        }
        i += 1;
    }
    None
}

/// What is looked for under another name: a displayed directory exactly where it is no directory
/// any more, a path of the event is it or stands beside it, and its identity is known. One that
/// still exists is never looked for, and each that is comes with the identity that is known of it.
pub proof fn gone_directories_are_looked_for(
    event_paths: Seq<Seq<u8>>,
    displayed: Seq<DisplayedDirectory>,
    known: Seq<(Seq<u8>, DirectoryIdentity)>,
)
    requires
        distinct_notes(known),
    ensures
        forall|k: int|
            0 <= k < lost_directories(event_paths, displayed, known).len() ==> {
                let lost = #[trigger] lost_directories(event_paths, displayed, known)[k];
                &&& exists|i: int|
                    0 <= i < displayed.len() && (#[trigger] displayed[i]).path@ == lost.0
                        && !displayed[i].is_dir
                &&& exists|i: int|
                    0 <= i < known.len() && path::same_path((#[trigger] known[i]).0, lost.0)
                        && known[i].1 == lost.1
                &&& any_touches(event_paths, lost.0)
            },
        forall|i: int, j: int|
            0 <= i < displayed.len() && !displayed[i].is_dir && any_touches(
                event_paths,
                displayed[i].path@,
            ) && 0 <= j < known.len() && path::same_path(
                (#[trigger] known[j]).0,
                (#[trigger] displayed[i]).path@,
            ) ==> lost_directories(event_paths, displayed, known).contains(
                (displayed[i].path@, known[j].1),
            ),
    decreases displayed.len(),
{
    if displayed.len() > 0 {
        let d = displayed.last();
        let front = displayed.drop_last();
        gone_directories_are_looked_for(event_paths, front, known);
        let rest = lost_directories(event_paths, front, known);
        let all = lost_directories(event_paths, displayed, known);
        lemma_known_place(known, d.path@, 0);
        let at = known_place(known, d.path@, 0);
        lemma_known_place_found(known, d.path@, 0);
        assert forall|k: int| 0 <= k < all.len() implies {
            let lost = #[trigger] all[k];
            &&& exists|i: int|
                0 <= i < displayed.len() && (#[trigger] displayed[i]).path@ == lost.0
                    && !displayed[i].is_dir
            &&& exists|i: int|
                0 <= i < known.len() && path::same_path((#[trigger] known[i]).0, lost.0)
                    && known[i].1 == lost.1
            &&& any_touches(event_paths, lost.0)
        } by {
            if k < rest.len() {
                assert(all[k] == rest[k]);
                let i = choose|i: int|
                    0 <= i < front.len() && (#[trigger] front[i]).path@ == rest[k].0
                        && !front[i].is_dir;
                assert(displayed[i] == front[i]);
            } else {
                assert(displayed[displayed.len() - 1] == d);
                assert(path::same_path(known[at].0, d.path@));
            }
        }
        assert forall|i: int, j: int|
            0 <= i < displayed.len() && !displayed[i].is_dir && any_touches(
                event_paths,
                displayed[i].path@,
            ) && 0 <= j < known.len() && path::same_path(
                (#[trigger] known[j]).0,
                (#[trigger] displayed[i]).path@,
            ) implies all.contains((displayed[i].path@, known[j].1)) by {
            let v = (displayed[i].path@, known[j].1);
            if i < front.len() {
                assert(front[i] == displayed[i]);
                assert(rest.contains(v));
                let k = rest.index_of(v);
                assert(all[k] == v);
            } else {
                assert(at <= j);
                if at < j {
                    assert(path::same_path(known[at].0, known[j].0));
                }
                assert(all[rest.len() as int] == v);
            }
        }
    }
}

proof fn lemma_known_place_found(known: Seq<(Seq<u8>, DirectoryIdentity)>, p: Seq<u8>, i: int)
    requires
        0 <= i <= known.len(),
    ensures
        known_place(known, p, i) < known.len() ==> path::same_path(
            known[known_place(known, p, i)].0,
            p,
        ),
    decreases known.len() - i,
{
    if i < known.len() && !path::same_path(known[i].0, p) {
        lemma_known_place_found(known, p, i + 1);
    }
}

/// The directories to look for come in the order in which they are displayed.
pub proof fn lost_directories_keep_their_order(
    event_paths: Seq<Seq<u8>>,
    a: Seq<DisplayedDirectory>,
    b: Seq<DisplayedDirectory>,
    known: Seq<(Seq<u8>, DirectoryIdentity)>,
)
    ensures
        lost_directories(event_paths, a + b, known) == lost_directories(event_paths, a, known)
            + lost_directories(event_paths, b, known),
    decreases b.len(),
{
    if b.len() == 0 {
        assert(a + b =~= a);
        assert(lost_directories(event_paths, a, known) + lost_directories(event_paths, b, known)
            =~= lost_directories(event_paths, a, known));
    } else {
        lost_directories_keep_their_order(event_paths, a, b.drop_last(), known);
        assert((a + b).drop_last() =~= a + b.drop_last());
        assert((a + b).last() == b.last());
        assert(lost_directories(event_paths, a + b, known) =~= lost_directories(
            event_paths,
            a,
            known,
        ) + lost_directories(event_paths, b, known));
    }
}

/// An event touches a directory where one of its paths is the directory itself, or lies in the same
/// directory as it. What is inside the directory does not touch it.
pub proof fn event_touches_what_stands_beside(event_path: Seq<u8>, directory: Seq<u8>)
    ensures
        path::same_path(event_path, directory) ==> any_touches(seq![event_path], directory),
        path::parent_of(event_path) is Some && path::parent_of(directory) is Some
            && path::same_path(path::parent_of(event_path)->0, path::parent_of(directory)->0)
            ==> any_touches(seq![event_path], directory),
        path::parent_of(event_path) is Some && path::parent_of(directory) is Some
            && !path::same_path(path::parent_of(event_path)->0, path::parent_of(directory)->0)
            && !path::same_path(event_path, directory) ==> !any_touches(
            seq![event_path],
            directory,
        ),
        path::parent_of(event_path) is None && path::parent_of(directory) is None ==> any_touches(
            seq![event_path],
            directory,
        ),
        (path::parent_of(event_path) is None) != (path::parent_of(directory) is None)
            && !path::same_path(event_path, directory) ==> !any_touches(
            seq![event_path],
            directory,
        ),
        !any_touches(Seq::empty(), directory),
{
    assert(seq![event_path][0] == event_path);
}

/// An event concerns a directory where its path is the directory or lies directly in it.
pub proof fn event_concerns_what_holds_it(event_path: Seq<u8>, directory: Seq<u8>)
    ensures
        path::same_path(event_path, directory) ==> concerns(event_path, directory),
        path::parent_of(event_path) is Some && path::same_path(
            path::parent_of(event_path)->0,
            directory,
        ) ==> concerns(event_path, directory),
        !path::same_path(event_path, directory) && (path::parent_of(event_path) is None
            || !path::same_path(path::parent_of(event_path)->0, directory)) ==> !concerns(
            event_path,
            directory,
        ),
{
}

/// What is waiting is due 160 milliseconds after the last event, but no later than 500 milliseconds
/// after the first one.
pub proof fn quiet_time_is_waited_for(w: Waiting, first: u64, last: u64, now: u64)
    requires
        w.first == Some(first),
        w.last == Some(last),
        w.dirs.len() > 0,
        first <= last <= u64::MAX - 500_000_000,
    ensures
        is_due(w, now) <==> now >= last + 160_000_000 || now >= first + 500_000_000,
        due_at(w) is Some,
        due_at(w)->0 <= last + 160_000_000,
        due_at(w)->0 <= first + 500_000_000,
        due_at(w)->0 == last + 160_000_000 || due_at(w)->0 == first + 500_000_000,
{
}

/// Nothing is due while nothing waits.
pub proof fn nothing_waiting_is_never_due(w: Waiting, now: u64)
    requires
        waiting_in_order(w),
        w.dirs.len() == 0,
    ensures
        !is_due(w, now),
        due_at(w) is None,
{
}

/// Marking starts the wait with the first directory and notes the time of each event; what waited
/// already goes on waiting in its place, and only what was marked comes to it.
pub proof fn marking_notes_the_time(w: Waiting, dirs: Seq<Seq<u8>>, now: u64)
    requires
        waiting_in_order(w),
    ensures
        w.first is Some ==> marked(w, dirs, now).first == w.first,
        w.first is Some || dirs.len() > 0 ==> marked(w, dirs, now).last == Some(now),
        w.first is None && dirs.len() > 0 ==> marked(w, dirs, now).first == Some(now),
        w.first is None && dirs.len() == 0 ==> marked(w, dirs, now) == w,
        marked(w, dirs, now).dirs.len() >= w.dirs.len(),
        forall|i: int|
            0 <= i < w.dirs.len() ==> #[trigger] marked(w, dirs, now).dirs[i] == w.dirs[i],
        forall|i: int|
            w.dirs.len() <= i < marked(w, dirs, now).dirs.len() ==> dirs.contains(
                #[trigger] marked(w, dirs, now).dirs[i],
            ),
{
    path_list::all_pushed_paths_are_in_once(w.dirs, dirs);
    path_list::pushed_paths_stand_behind(w.dirs, dirs);
    if w.first is None && dirs.len() == 0 {
        assert(marked(w, dirs, now) =~= w);
    }
}

/// A renaming that an event tells is followed by every displayed directory that has the old path,
/// and by no other, to the new path.
pub proof fn renamed_directories_get_the_new_path(
    old_path: Seq<u8>,
    new_path: Seq<u8>,
    displayed: Seq<Seq<u8>>,
)
    ensures
        forall|i: int|
            0 <= i < displayed.len() && path::same_path(#[trigger] displayed[i], old_path)
                ==> renamed_displayed(old_path, new_path, displayed).contains(
                (displayed[i], new_path),
            ),
        forall|k: int|
            0 <= k < renamed_displayed(old_path, new_path, displayed).len() ==> {
                let r = #[trigger] renamed_displayed(old_path, new_path, displayed)[k];
                displayed.contains(r.0) && path::same_path(r.0, old_path) && r.1 == new_path
            },
    decreases displayed.len(),
{
    if displayed.len() > 0 {
        let front = displayed.drop_last();
        renamed_directories_get_the_new_path(old_path, new_path, front);
        let rest = renamed_displayed(old_path, new_path, front);
        let all = renamed_displayed(old_path, new_path, displayed);
        assert forall|i: int|
            0 <= i < displayed.len() && path::same_path(
                #[trigger] displayed[i],
                old_path,
            ) implies all.contains((displayed[i], new_path)) by {
            let v = (displayed[i], new_path);
            if i < front.len() {
                assert(front[i] == displayed[i]);
                let k = rest.index_of(v);
                assert(rest[k] == v);
                assert(all[k] == v);
            } else {
                assert(all[rest.len() as int] == v);
            }
        }
        assert forall|k: int| 0 <= k < all.len() implies {
            let r = #[trigger] all[k];
            displayed.contains(r.0) && path::same_path(r.0, old_path) && r.1 == new_path
        } by {
            if k < rest.len() {
                assert(all[k] == rest[k]);
                let j = front.index_of(rest[k].0);
                assert(front[j] == rest[k].0);
                assert(displayed[j] == all[k].0);
            } else {
                assert(displayed[displayed.len() - 1] == all[k].0);
            }
        }
    }
}

/// A renaming is noted once: a list that has it stays as it is, and any other gets it at its end.
pub proof fn renaming_is_noted_once(
    renames: Seq<(Seq<u8>, Seq<u8>)>,
    r: (Seq<u8>, Seq<u8>),
    i: int,
)
    requires
        0 <= i < renames.len(),
    ensures
        path::same_path(renames[i].0, r.0) && path::same_path(renames[i].1, r.1) ==> rename_added(
            renames,
            r,
        ) == renames,
        (forall|k: int|
            0 <= k < renames.len() ==> !path::same_path((#[trigger] renames[k]).0, r.0)
                || !path::same_path(renames[k].1, r.1)) ==> rename_added(renames, r)
            == renames.push(r),
        rename_added(Seq::empty(), r) == seq![r],
{
    let none = Seq::<(Seq<u8>, Seq<u8>)>::empty();
    assert(rename_added(none, r) =~= seq![r]);
}

/// Noting renamings one after the other is noting all of them.
pub proof fn renamings_are_noted_in_turn(
    renames: Seq<(Seq<u8>, Seq<u8>)>,
    more: Seq<(Seq<u8>, Seq<u8>)>,
    r: (Seq<u8>, Seq<u8>),
)
    ensures
        renames_added(renames, more.push(r)) == rename_added(renames_added(renames, more), r),
        renames_added(renames, Seq::empty()) == renames,
{
    assert(more.push(r).drop_last() =~= more);
}

/// Nothing is to be watched but displayed directories that exist and those right above displayed
/// ones.
pub proof fn nothing_else_is_watched(displayed: Seq<DisplayedDirectory>, k: int)
    requires
        0 <= k < desired(displayed).len(),
    ensures
        exists|i: int|
            0 <= i < displayed.len() && {
                ||| (#[trigger] displayed[i]).is_dir && desired(displayed)[k]
                    == displayed[i].path@
                ||| displayed[i].parent_is_dir && path::parent_of(displayed[i].path@) == Some(
                    desired(displayed)[k],
                )
            },
    decreases displayed.len(),
{
    if displayed.len() > 0 {
        let front = displayed.drop_last();
        let d = displayed.last();
        let rest = desired(front);
        let p = desired(displayed)[k];
        if k < rest.len() {
            nothing_else_is_watched(front, k);
            let i = choose|i: int|
                0 <= i < front.len() && {
                    ||| (#[trigger] front[i]).is_dir && rest[k] == front[i].path@
                    ||| front[i].parent_is_dir && path::parent_of(front[i].path@) == Some(rest[k])
                };
            assert(displayed[i] == front[i]);
            assert(p == rest[k]);
        } else {
            assert(displayed[displayed.len() - 1] == d);
        }
    }
}

/// A directory that could not be watched is tried again after five seconds, and not before. One that
/// never failed may be tried at any time.
pub proof fn failed_directory_is_left_alone(
    failed: Seq<(Seq<u8>, u64)>,
    p: Seq<u8>,
    now: u64,
    i: int,
)
    requires
        distinct_notes(failed),
        0 <= i < failed.len(),
        path::same_path(failed[i].0, p),
    ensures
        may_try(failed, p, now) <==> now >= failed[i].1 + 5_000_000_000,
        may_try(Seq::empty(), p, now),
{
    assert forall|k: int| 0 <= k < failed.len() && path::same_path(
        (#[trigger] failed[k]).0,
        p,
    ) implies k == i by {
        if k < i {
            assert(!path::same_path(failed[k].0, failed[i].0));
        } else if i < k {
            assert(!path::same_path(failed[i].0, failed[k].0));
        }
    }
}

/// What the plan does: every watched directory that is still to be watched stays, every other one is
/// to be removed, and one is to be added exactly where it is to be watched, is not, and may be tried.
pub proof fn plan_brings_the_watched_to_the_desired(
    w: WatcherView,
    displayed: Seq<DisplayedDirectory>,
    now: u64,
    p: Seq<u8>,
)
    ensures
        synced(w, displayed).watched.contains(p) <==> w.watched.contains(p) && path::has_path(
            desired(displayed),
            p,
        ),
        to_remove(w, displayed).contains(p) <==> w.watched.contains(p) && !path::has_path(
            desired(displayed),
            p,
        ),
        to_add(w, displayed, now).contains(p) <==> desired(displayed).contains(p)
            && !path::has_path(synced(w, displayed).watched, p) && may_try(
            synced(w, displayed).failed,
            p,
            now,
        ),
        forall|f: (Seq<u8>, u64)| #[trigger]
            synced(w, displayed).failed.contains(f) <==> w.failed.contains(f) && path::has_path(
                desired(displayed),
                f.0,
            ),
        synced(w, displayed).waiting == w.waiting,
{
    let wanted = desired(displayed);
    let after = synced(w, displayed);
    lemma_filtered(w.watched, |q: Seq<u8>| path::has_path(wanted, q));
    lemma_filtered(w.watched, |q: Seq<u8>| !path::has_path(wanted, q));
    lemma_filtered(
        wanted,
        |q: Seq<u8>| !path::has_path(after.watched, q) && may_try(after.failed, q, now),
    );
    lemma_filtered(w.failed, |f: (Seq<u8>, u64)| path::has_path(wanted, f.0));
}

/// A filtered list holds exactly what the list holds and the filter keeps.
proof fn lemma_filtered<A>(s: Seq<A>, keep: spec_fn(A) -> bool)
    ensures
        forall|x: A| #[trigger] s.filter(keep).contains(x) <==> s.contains(x) && keep(x),
    decreases s.len(),
{
    reveal(Seq::filter);
    if s.len() > 0 {
        let rest = s.drop_last();
        lemma_filtered(rest, keep);
        let t = rest.filter(keep);
        let u = s.filter(keep);
        assert forall|x: A| #[trigger] u.contains(x) <==> s.contains(x) && keep(x) by {
            if u.contains(x) {
                let k = u.index_of(x);
                if k < t.len() {
                    assert(t[k] == x);
                    assert(t.contains(x));
                    let j = rest.index_of(x);
                    assert(s[j] == x);
                } else {
                    assert(s[s.len() - 1] == x);
                }
            }
            if s.contains(x) && keep(x) {
                let j = s.index_of(x);
                if j < rest.len() {
                    assert(rest[j] == x);
                    assert(t.contains(x));
                    let k = t.index_of(x);
                    assert(u[k] == x);
                } else {
                    assert(u[t.len() as int] == x);
                }
            }
        }
    }
}

/// Once a displayed directory has been looked at, its identity is the one that was read last; what
/// was known of other directories stays.
pub proof fn identity_is_known_once_read(
    known: Seq<(Seq<u8>, DirectoryIdentity)>,
    p: Seq<u8>,
    id: DirectoryIdentity,
    other: Seq<u8>,
)
    ensures
        identity_of(known_with(known, p, id), p) == Some(id),
        !path::same_path(p, other) ==> identity_of(known_with(known, p, id), other) == identity_of(
            known,
            other,
        ),
{
    let k = known_place(known, p, 0);
    let after = known_with(known, p, id);
    lemma_known_place(known, p, 0);
    lemma_known_place_found(known, p, 0);
    lemma_known_place(after, p, 0);
    lemma_known_place_found(after, p, 0);
    assert(path::same_path(after[k].0, p));
    let q = known_place(after, p, 0);
    if q < k {
        assert(after[q].0 == known[q].0);
    }
    assert(q == k);
    lemma_known_place(known, other, 0);
    lemma_known_place_found(known, other, 0);
    lemma_known_place(after, other, 0);
    lemma_known_place_found(after, other, 0);
    if !path::same_path(p, other) {
        let a = known_place(known, other, 0);
        let b = known_place(after, other, 0);
        if a < known.len() {
            assert(a != k) by {
                if a == k {
                    assert(path::same_path(known[k].0, p));
                }
            }
            assert(after[a] == known[a]);
            if b < a {
                assert(b != k);
                assert(after[b].0 == known[b].0);
            }
            assert(a == b);
        } else {
            if b < after.len() {
                if b == k {
                    assert(path::same_path(after[k].0, p));
                } else {
                    assert(after[b].0 == known[b].0);
                }
            }
        }
    }
}

/// A sibling is the lost directory exactly where it has its identity and another path.
pub proof fn sibling_is_found_by_identity(s: SiblingRecord, old_path: Seq<u8>, id: DirectoryIdentity)
    ensures
        is_found(s, old_path, id) ==> s.identity is Some && s.identity->0.device == id.device
            && s.identity->0.inode == id.inode,
        s.identity == Some(id) && !path::same_path(s.path@, old_path) ==> is_found(
            s,
            old_path,
            id,
        ),
        path::same_path(s.path@, old_path) ==> !is_found(s, old_path, id),
{
}

/// Only an event of a renaming with two paths tells an old and a new path.
pub proof fn renaming_needs_two_paths(event: WatchEvent)
    ensures
        is_rename_pair(event) ==> event.paths@.len() == 2 && (event.kind
            == WatchEventKind::RenameBoth || event.kind == WatchEventKind::RenameAny),
        event.paths@.len() == 2 && event.kind == WatchEventKind::RenameBoth ==> is_rename_pair(
            event,
        ),
        event.paths@.len() == 2 && event.kind == WatchEventKind::RenameAny ==> is_rename_pair(
            event,
        ),
{
}

/// What is noted of directories is seen part by part: the old path of a rename and then the new
/// one, the path that could not be watched and when, the path and what stands there.
pub proof fn notes_are_seen_part_by_part(
    renames: Seq<DirectoryRename>,
    failed: Seq<FailedWatch>,
    known: Seq<KnownDirectory>,
    i: int,
)
    ensures
        rename_views(renames).len() == renames.len(),
        failed_views(failed).len() == failed.len(),
        known_views(known).len() == known.len(),
        0 <= i < renames.len() ==> rename_views(renames)[i].0 == renames[i].old_path@
            && rename_views(renames)[i].1 == renames[i].new_path@,
        0 <= i < failed.len() ==> failed_views(failed)[i].0 == failed[i].path@ && failed_views(
            failed,
        )[i].1 == failed[i].at,
        0 <= i < known.len() ==> known_views(known)[i].0 == known[i].path@ && known_views(
            known,
        )[i].1 == known[i].identity,
{
}

/// The directories that are due come in the order of paths, each of them once and no others.
pub proof fn due_directories_come_in_order(result: Seq<Seq<u8>>, dirs: Seq<Seq<u8>>)
    requires
        sorted_from(result, dirs),
    ensures
        result.len() == dirs.len(),
        forall|p: int| 0 <= p < dirs.len() ==> result.contains(#[trigger] dirs[p]),
        forall|k: int| 0 <= k < result.len() ==> dirs.contains(#[trigger] result[k]),
        forall|k: int, l: int|
            0 <= k < l < result.len() ==> !sort::key_before(
                path_list::components_key(path::components(#[trigger] result[l])),
                path_list::components_key(path::components(#[trigger] result[k])),
            ),
{
    let items = path_list::order_items(dirs);
    let order = choose|order: Seq<usize>|
        sort::is_stable_order(order, path_list::order_items(dirs), false) && result
            == #[trigger] sort::rearranged(dirs, order);
    sort::sorted_list_holds_the_same(dirs, order, items, false);
    assert forall|k: int| 0 <= k < result.len() implies dirs.contains(#[trigger] result[k]) by {
        assert(result[k] == dirs[order[k] as int]);
    }
    assert forall|k: int, l: int| 0 <= k < l < result.len() implies !sort::key_before(
        path_list::components_key(path::components(#[trigger] result[l])),
        path_list::components_key(path::components(#[trigger] result[k])),
    ) by {
        path_list::paths_are_ordered_by_components(dirs, order[k] as int);
        path_list::paths_are_ordered_by_components(dirs, order[l] as int);
        assert(result[k] == dirs[order[k] as int] && result[l] == dirs[order[l] as int]);
        assert(!items[order[k] as int].0 && !items[order[l] as int].0);
        assert(!sort::key_before(items[order[l] as int].1, items[order[k] as int].1));
    }
}

/// Once the directories that are shown have changed, the failures of wanted directories are
/// remembered and no others, and what is waiting goes on waiting.
pub proof fn nothing_else_is_remembered(w: WatcherView, displayed: Seq<DisplayedDirectory>, i: int)
    ensures
        synced(w, displayed).failed.len() <= w.failed.len(),
        0 <= i < synced(w, displayed).failed.len() ==> path::has_path(
            desired(displayed),
            synced(w, displayed).failed[i].0,
        ),
        0 <= i < w.failed.len() && path::has_path(desired(displayed), w.failed[i].0) ==> synced(
            w,
            displayed,
        ).failed.contains(w.failed[i]),
        synced(w, displayed).waiting == w.waiting,
{
    let kept = |f: (Seq<u8>, u64)| path::has_path(desired(displayed), f.0);
    assert(synced(w, displayed).failed == w.failed.filter(kept));
    if 0 <= i < w.failed.filter(kept).len() {
        assert(kept(w.failed.filter(kept)[i]));
    }
    if 0 <= i < w.failed.len() && kept(w.failed[i]) {
        assert(w.failed.filter(kept).contains(w.failed[i]));
    }
}

/// An event concerns a directory where any of its paths does.
pub proof fn any_path_of_an_event_concerns(a: Seq<Seq<u8>>, b: Seq<Seq<u8>>, x: Seq<u8>, directory: Seq<u8>)
    ensures
        any_concerns(a + b, directory) <==> any_concerns(a, directory) || any_concerns(b, directory),
        any_concerns(seq![x], directory) <==> concerns(x, directory),
        !any_concerns(Seq::<Seq<u8>>::empty(), directory),
{
    let all = a + b;
    if any_concerns(a, directory) {
        let i = choose|i: int| 0 <= i < a.len() && concerns(#[trigger] a[i], directory);
        assert(all[i] == a[i]);
    }
    if any_concerns(b, directory) {
        let i = choose|i: int| 0 <= i < b.len() && concerns(#[trigger] b[i], directory);
        assert(all[a.len() + i] == b[i]);
    }
    if any_concerns(all, directory) {
        let i = choose|i: int| 0 <= i < all.len() && concerns(#[trigger] all[i], directory);
        assert(all[i] == if i < a.len() { a[i] } else { b[i - a.len()] });
    }
    assert(seq![x][0] == x);
}

} // verus!
