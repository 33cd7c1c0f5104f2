//! A tab: the directory that it shows, what is selected there, and where it has been.

use vstd::prelude::*;

use crate::model::display_text;
use crate::model::fs;
use crate::model::fs::{read_dir, sort_entries, DirRecord, EntryView, FileEntry, SortColumn, SortOrder};
use crate::model::global_tags;
use crate::model::global_tags::sort_by_name;
use crate::path;
use crate::path::FsPath;
use crate::path_list;
use crate::path_list::copy_paths;
use crate::text;
use crate::ui::file_list;
use crate::ui::file_list::{
    entry_has_tag, CreateKind, FileListState, RenamingItem, Selection,
};

verus! {

/// A tab.
#[derive(Debug)]
pub struct TabState {
    pub current_path: FsPath,
    pub entries: Vec<FileEntry>,
    pub list_state: FileListState,
    /// The tag that entries must have to be shown.
    pub tag_filter: Option<String>,
    /// What was found with the tag anywhere, shown in place of the entries.
    pub tag_search_results: Option<Vec<FsPath>>,
    /// Where the tab has been.
    pub history: Vec<FsPath>,
    /// The place of the directory that is shown in the history.
    pub history_pos: usize,
}

/// What reloading came to.
#[derive(Debug)]
pub enum ReloadOutcome {
    Reloaded,
    CurrentDirectoryMissing,
    Failed(String),
}

/// Why a directory could not be read.
#[derive(Debug)]
pub struct ReadError {
    pub not_found: bool,
    /// Whether there is a directory at the path all the same.
    pub is_dir: bool,
    pub message: String,
}

/// What reading a directory gave.
pub type DirRead = Result<Vec<DirRecord>, ReadError>;

/// A tab by its parts.
#[verifier::ext_equal]
pub struct TabView {
    pub path: Seq<u8>,
    pub entries: Seq<EntryView>,
    pub selection: Selection,
    pub sort_col: SortColumn,
    pub sort_order: SortOrder,
    pub creating: Option<(CreateKind, Seq<char>, bool)>,
    pub renaming: Option<(Seq<u8>, Seq<char>, bool)>,
    pub tag_filter: Option<Seq<char>>,
    pub results: Option<Seq<Seq<u8>>>,
    pub history: Seq<Seq<u8>>,
    pub pos: int,
}

/// The paths of an optional list.
pub open spec fn optional_paths(p: Option<Vec<FsPath>>) -> Option<Seq<Seq<u8>>> {
    match p {
        Some(q) => Some(path::path_views(q@)),
        None => None,
    }
}

impl View for TabState {
    type V = TabView;

    open spec fn view(&self) -> TabView {
        TabView {
            path: self.current_path@,
            entries: fs::entry_views(self.entries@),
            selection: self.list_state.selection(),
            sort_col: self.list_state.sort_col,
            sort_order: self.list_state.sort_order,
            creating: file_list::creating_view(self.list_state.creating),
            renaming: file_list::renaming_view(self.list_state.renaming),
            tag_filter: text::optional_text(self.tag_filter),
            results: optional_paths(self.tag_search_results),
            history: path::path_views(self.history@),
            pos: self.history_pos as int,
        }
    }
}

impl TabView {
    /// Whether the directory that is shown is the one in the history.
    pub open spec fn wf(self) -> bool {
        &&& 0 <= self.pos < self.history.len()
        &&& self.history[self.pos] == self.path
    }

    /// The tab with another tag view: nothing is selected, typed or renamed in it.
    pub open spec fn with_tag_view(
        self,
        tag: Option<Seq<char>>,
        results: Option<Seq<Seq<u8>>>,
    ) -> TabView {
        TabView {
            tag_filter: tag,
            results,
            creating: None,
            renaming: None,
            selection: Selection { selected: Seq::empty(), anchor: None },
            ..self
        }
    }

    /// The tab at another directory, in place of the one in the history.
    pub open spec fn moved_to(self, path: Seq<u8>) -> TabView {
        TabView { path, history: self.history.update(self.pos, path), ..self }
    }
}

/// Whether an entry of the list has this path.
pub open spec fn lists(entries: Seq<EntryView>, p: Seq<u8>) -> bool {
    exists|i: int| 0 <= i < entries.len() && path::same_path((#[trigger] entries[i]).path, p)
}

/// Being the path of an entry of the list.
pub open spec fn listed_in(entries: Seq<EntryView>) -> spec_fn(Seq<u8>) -> bool {
    |p: Seq<u8>| lists(entries, p)
}

/// The tab once its directory has been read: the entries in their order, and of what was selected
/// that which is still there. A name that was typed for something that is gone is forgotten.
pub open spec fn reloaded(
    t: TabView,
    records: Seq<DirRecord>,
    show_hidden: bool,
    renamed_exists: bool,
) -> TabView {
    let entries = fs::sorted(fs::listed(records, show_hidden), t.sort_col, t.sort_order);
    TabView {
        entries,
        selection: Selection {
            selected: t.selection.selected.filter(listed_in(entries)),
            anchor: match t.selection.anchor {
                Some(a) => if lists(entries, a) {
                    Some(a)
                } else {
                    None
                },
                None => None,
            },
        },
        renaming: if renamed_exists {
            t.renaming
        } else {
            None
        },
        ..t
    }
}

/// The tab once reading its directory has given this: unchanged where it failed.
pub open spec fn after_reload(
    t: TabView,
    read: DirRead,
    show_hidden: bool,
    renamed_exists: bool,
) -> TabView {
    match read {
        Ok(records) => reloaded(t, records@, show_hidden, renamed_exists),
        Err(_) => t,
    }
}

/// The tab once reading the directory that it has gone to has given this: empty where it failed.
pub open spec fn after_move(
    t: TabView,
    read: DirRead,
    show_hidden: bool,
    renamed_exists: bool,
) -> TabView {
    match read {
        Ok(records) => reloaded(t, records@, show_hidden, renamed_exists),
        Err(_) => TabView {
            entries: Seq::empty(),
            selection: Selection { selected: Seq::empty(), anchor: None },
            ..t
        },
    }
}

/// A tab that has just been opened at a path, before it is read.
pub open spec fn opened(p: Seq<u8>) -> TabView {
    TabView {
        path: p,
        entries: Seq::empty(),
        selection: Selection { selected: Seq::empty(), anchor: None },
        sort_col: SortColumn::Name,
        sort_order: SortOrder::Ascending,
        creating: None,
        renaming: None,
        tag_filter: None,
        results: None,
        history: seq![p],
        pos: 0,
    }
}

/// A tab gone to a path, before that is read: what was ahead in the history is gone.
pub open spec fn gone_to(t: TabView, p: Seq<u8>) -> TabView {
    TabView {
        path: p,
        history: t.history.take(t.pos + 1).push(p),
        pos: t.pos + 1,
        ..t
    }.with_tag_view(None, None)
}

/// A tab at another place of its history, before that is read.
pub open spec fn gone_along(t: TabView, pos: int) -> TabView {
    TabView { path: t.history[pos], pos, ..t }.with_tag_view(None, None)
}

/// The paths that are shown, in their order: what was found with a tag, or the entries with the
/// tag of the filter.
pub open spec fn visible(t: TabView) -> Seq<Seq<u8>> {
    match t.results {
        Some(r) => r,
        None => filtered_paths(t.entries, t.tag_filter),
    }
}

/// The paths of the entries that a filter lets through.
pub open spec fn filtered_paths(entries: Seq<EntryView>, filter: Option<Seq<char>>) -> Seq<Seq<u8>>
    decreases entries.len(),
{
    if entries.len() == 0 {
        Seq::empty()
    } else {
        let rest = filtered_paths(entries.drop_last(), filter);
        if file_list::passes_filter(entries.last(), filter) {
            rest.push(entries.last().path)
        } else {
            rest
        }
    }
}

/// A path below a directory that has been renamed, as it is now; any other path as it is.
pub open spec fn remapped(p: Seq<u8>, from: Seq<u8>, to: Seq<u8>) -> Seq<u8> {
    match path::stripped(p, from) {
        Some(rest) => path::joined(to, rest),
        None => p,
    }
}

/// A tab whose directory has been renamed, before it is read there: what is selected and typed
/// goes with it.
pub open spec fn followed(t: TabView, from: Seq<u8>, to: Seq<u8>) -> TabView {
    TabView {
        selection: Selection {
            selected: t.selection.selected.map_values(|p: Seq<u8>| remapped(p, from, to)),
            anchor: match t.selection.anchor {
                Some(a) => Some(remapped(a, from, to)),
                None => None,
            },
        },
        renaming: match t.renaming {
            Some(r) => Some((remapped(r.0, from, to), r.1, r.2)),
            None => None,
        },
        ..t.moved_to(to)
    }
}

/// The innermost of the directories that a path is in which exists.
pub open spec fn nearest(ancestors: Seq<Seq<u8>>, exists_there: Seq<bool>, i: int) -> Option<
    Seq<u8>,
>
    decreases ancestors.len() - i,
{
    if i < 0 || i >= ancestors.len() {
        None
    } else if exists_there[i] {
        Some(ancestors[i])
    } else {
        nearest(ancestors, exists_there, i + 1)
    }
}

/// The innermost of the directories that a path is in which exists. For each of them, in the order
/// of `FsPath::ancestors`, it is given whether it exists.
pub fn nearest_existing_directory(path: &FsPath, exists_there: &Vec<bool>) -> (r: Option<FsPath>)
    requires
        exists_there@.len() == path::ancestors_of(path@).len(),
    ensures
        file_list::optional_path(r) == nearest(path::ancestors_of(path@), exists_there@, 0),
{
    let all = path.ancestors();
    let ghost views = path::ancestors_of(path@);
    let mut i: usize = 0;
    assert(path::path_views(all@).len() == all@.len());
    while i < all.len()
        invariant
            i <= all@.len(),
            views == path::path_views(all@),
            views == path::ancestors_of(path@),
            exists_there@.len() == all@.len(),
            nearest(views, exists_there@, 0) == nearest(views, exists_there@, i as int),
        decreases all@.len() - i,
    {
        if exists_there[i] {
            assert(views[i as int] == all@[i as int]@);
            return Some(all[i].clone());
        }
        i += 1;
    }
    None
}

/// A path below a directory that has been renamed, as it is now; any other path as it is.
pub fn remap_path_prefix(path: &FsPath, old_prefix: &FsPath, new_prefix: &FsPath) -> (r: FsPath)
    ensures
        r@ == remapped(path@, old_prefix@, new_prefix@),
{
    match path.strip_prefix(old_prefix) {
        Some(suffix) => new_prefix.join(&suffix),
        None => path.clone(),
    }
}

/// Remaps the paths of a list.
pub fn remap_paths(paths: &mut Vec<FsPath>, old_prefix: &FsPath, new_prefix: &FsPath)
    ensures
        path::path_views(final(paths)@) == path::path_views(old(paths)@).map_values(
            |p: Seq<u8>| remapped(p, old_prefix@, new_prefix@),
        ),
{
    let ghost all = path::path_views(paths@);
    let ghost f = |p: Seq<u8>| remapped(p, old_prefix@, new_prefix@);
    let mut i: usize = 0;
    while i < paths.len()
        invariant
            i <= paths@.len() == all.len(),
            f == (|p: Seq<u8>| remapped(p, old_prefix@, new_prefix@)),
            forall|k: int| 0 <= k < i ==> (#[trigger] paths@[k])@ == f(all[k]),
            forall|k: int| i <= k < paths@.len() ==> (#[trigger] paths@[k])@ == all[k],
        decreases paths@.len() - i,
    {
        let new = remap_path_prefix(&paths[i], old_prefix, new_prefix);
        paths.set(i, new);
        i += 1;
    }
    assert(path::path_views(paths@) =~= all.map_values(f));
}

/// Whether an entry of the list has this path.
pub fn entry_listed(entries: &Vec<FileEntry>, p: &FsPath) -> (r: bool)
    ensures
        r == lists(fs::entry_views(entries@), p@),
{
    let ghost views = fs::entry_views(entries@);
    let mut i: usize = 0;
    while i < entries.len()
        invariant
            i <= entries@.len(),
            views == fs::entry_views(entries@),
            forall|k: int| 0 <= k < i ==> !path::same_path((#[trigger] views[k]).path, p@),
        decreases entries@.len() - i,
    {
        assert(views[i as int] == entries@[i as int]@);
        if entries[i].path.same(p) {
            return true;
        }
        i += 1;
    }
    false
}

/// Of a list of paths those that entries have.
fn keep_listed(paths: &Vec<FsPath>, entries: &Vec<FileEntry>) -> (r: Vec<FsPath>)
    ensures
        path::path_views(r@) == path::path_views(paths@).filter(
            listed_in(fs::entry_views(entries@)),
        ),
{
    let ghost all = path::path_views(paths@);
    let ghost f = listed_in(fs::entry_views(entries@));
    let mut out: Vec<FsPath> = Vec::new();
    let mut i: usize = 0;
    proof {
        reveal(Seq::filter);
        assert(path::path_views(out@) =~= all.take(0).filter(f));
    }
    while i < paths.len()
        invariant
            i <= paths@.len(),
            all == path::path_views(paths@),
            f == listed_in(fs::entry_views(entries@)),
            path::path_views(out@) == all.take(i as int).filter(f),
        decreases paths@.len() - i,
    {
        proof {
            reveal(Seq::filter);
            assert(all.take(i + 1).drop_last() =~= all.take(i as int));
            assert(all.take(i + 1).last() == paths@[i as int]@);
        }
        if entry_listed(entries, &paths[i]) {
            let ghost before = path::path_views(out@);
            out.push(paths[i].clone());
            assert(path::path_views(out@) =~= before.push(paths@[i as int]@));
        }
        i += 1;
    }
    assert(all.take(i as int) =~= all);
    out
}

impl TabState {
    /// A new tab at a path, with what reading it gave.
    pub fn new(path: FsPath, read: &DirRead, show_hidden: bool) -> (r: TabState)
        ensures
            r@ == after_reload(opened(path@), *read, show_hidden, true),
            r@.wf(),
    {
        let mut history: Vec<FsPath> = Vec::new();
        history.push(path.clone());
        let mut tab = TabState {
            current_path: path,
            entries: Vec::new(),
            list_state: FileListState::default(),
            tag_filter: None,
            tag_search_results: None,
            history,
            history_pos: 0,
        };
        assert(tab@ =~= opened(path@));
        let _ = tab.reload(read, show_hidden, true);
        tab
    }

    /// Takes in what reading the directory gave. `renamed_exists` says whether what is being
    /// renamed is still there.
    pub fn reload(&mut self, read: &DirRead, show_hidden: bool, renamed_exists: bool) -> (r:
        ReloadOutcome)
        ensures
            final(self)@ == after_reload(old(self)@, *read, show_hidden, renamed_exists),
            match *read {
                Ok(_) => r is Reloaded,
                Err(e) => if e.not_found || !e.is_dir {
                    r is CurrentDirectoryMissing
                } else {
                    r matches ReloadOutcome::Failed(m) && m@ == e.message@
                },
            },
    {
        let ghost before = self@;
        match read {
            Ok(records) => {
                let mut entries = read_dir(records, show_hidden);
                sort_entries(&mut entries, self.list_state.sort_col, self.list_state.sort_order);
                self.list_state.selected = keep_listed(&self.list_state.selected, &entries);
                let lost = match &self.list_state.selection_anchor {
                    Some(a) => !entry_listed(&entries, a),
                    None => false,
                };
                if lost {
                    self.list_state.selection_anchor = None;
                }
                self.entries = entries;
                if !renamed_exists {
                    self.list_state.renaming = None;
                }
                assert(self@ =~= reloaded(before, records@, show_hidden, renamed_exists));
                ReloadOutcome::Reloaded
            },
            Err(e) => if e.not_found || !e.is_dir {
                ReloadOutcome::CurrentDirectoryMissing
            } else {
                ReloadOutcome::Failed(e.message.clone())
            },
        }
    }

    /// Takes in what reading the directory gave that the tab has gone to.
    fn reload_after_path_change(&mut self, read: &DirRead, show_hidden: bool, renamed_exists: bool)
        ensures
            final(self)@ == after_move(old(self)@, *read, show_hidden, renamed_exists),
    {
        let ghost before = self@;
        match self.reload(read, show_hidden, renamed_exists) {
            ReloadOutcome::Reloaded => {},
            _ => {
                self.entries = Vec::new();
                self.list_state.clear_selection();
                assert(self@ =~= after_move(before, *read, show_hidden, renamed_exists));
            },
        }
    }

    /// Goes to a path where there is a directory, with what reading it gave. Says whether it has
    /// gone there.
    pub fn navigate(&mut self, path: FsPath, is_dir: bool, read: &DirRead, show_hidden: bool) -> (r:
        bool)
        requires
            old(self)@.wf(),
        ensures
            r == is_dir,
            final(self)@ == if is_dir {
                after_move(gone_to(old(self)@, path@), *read, show_hidden, true)
            } else {
                old(self)@
            },
            final(self)@.wf(),
    {
        let ghost before = self@;
        let places: usize = self.history.len();
        assert(before.history.len() == places);
        if is_dir {
            let ghost p = path@;
            self.history.truncate(self.history_pos + 1);
            self.history.push(path.clone());
            assert(path::path_views(self.history@) =~= before.history.take(before.pos + 1).push(p));
            self.history_pos = self.history_pos + 1;
            self.current_path = path;
            self.set_tag_view(None, None);
            assert(self@ =~= gone_to(before, p));
            self.reload_after_path_change(read, show_hidden, true);
            true
        } else {
            false
        }
    }

    /// The paths that are shown, in their order.
    pub fn visible_entry_paths(&self) -> (r: Vec<FsPath>)
        ensures
            path::path_views(r@) == visible(self@),
    {
        match &self.tag_search_results {
            Some(results) => copy_paths(results),
            None => {
                let ghost all = fs::entry_views(self.entries@);
                let ghost f = text::optional_text(self.tag_filter);
                let mut out: Vec<FsPath> = Vec::new();
                let mut i: usize = 0;
                assert(path::path_views(out@) =~= filtered_paths(all.take(0), f));
                while i < self.entries.len()
                    invariant
                        i <= self.entries@.len(),
                        all == fs::entry_views(self.entries@),
                        f == text::optional_text(self.tag_filter),
                        path::path_views(out@) == filtered_paths(all.take(i as int), f),
                    decreases self.entries@.len() - i,
                {
                    proof {
                        assert(all.take(i + 1).drop_last() =~= all.take(i as int));
                        assert(all.take(i + 1).last() == self.entries@[i as int]@);
                    }
                    let shown = match &self.tag_filter {
                        Some(name) => entry_has_tag(&self.entries[i].tags, name.as_str()),
                        None => true,
                    };
                    if shown {
                        let ghost before = path::path_views(out@);
                        out.push(self.entries[i].path.clone());
                        assert(path::path_views(out@) =~= before.push(
                            self.entries@[i as int].path@,
                        ));
                    }
                    i += 1;
                }
                assert(all.take(i as int) =~= all);
                out
            },
        }
    }

    /// Shows another tag view. Nothing stays selected or typed.
    pub fn set_tag_view(&mut self, tag: Option<String>, search_results: Option<Vec<FsPath>>)
        ensures
            final(self)@ == old(self)@.with_tag_view(
                text::optional_text(tag),
                optional_paths(search_results),
            ),
    {
        self.tag_filter = tag;
        self.tag_search_results = search_results;
        self.list_state.renaming = None;
        self.list_state.creating = None;
        self.list_state.clear_selection();
    }

    /// Shows what has a tag: what a search found, and the entries here that have it, by file name.
    /// Without a tag everything is shown.
    pub fn filter_tag(&mut self, tag: Option<String>, found: Vec<FsPath>)
        ensures
            final(self)@ == old(self)@.with_tag_view(
                text::optional_text(tag),
                match text::optional_text(tag) {
                    Some(name) => Some(
                        global_tags::sorted_by_name(
                            path_list::all_pushed(
                                path::path_views(found@),
                                filtered_paths(old(self)@.entries, Some(name)),
                            ),
                        ),
                    ),
                    None => None,
                },
            ),
    {
        let results = match &tag {
            Some(name) => {
                let mut all = found;
                let ghost start = path::path_views(all@);
                let ghost views = fs::entry_views(self.entries@);
                let mut i: usize = 0;
                assert(filtered_paths(views.take(0), Some(name@)) =~= Seq::empty());
                while i < self.entries.len()
                    invariant
                        i <= self.entries@.len(),
                        views == fs::entry_views(self.entries@),
                        path::path_views(all@) == path_list::all_pushed(
                            start,
                            filtered_paths(views.take(i as int), Some(name@)),
                        ),
                    decreases self.entries@.len() - i,
                {
                    let ghost done = filtered_paths(views.take(i as int), Some(name@));
                    proof {
                        assert(views.take(i + 1).drop_last() =~= views.take(i as int));
                        assert(views.take(i + 1).last() == self.entries@[i as int]@);
                    }
                    if entry_has_tag(&self.entries[i].tags, name.as_str()) {
                        path_list::push_unique(&mut all, self.entries[i].path.clone());
                        proof {
                            let more = done.push(self.entries@[i as int].path@);
                            assert(more.drop_last() =~= done);
                        }
                    }
                    i += 1;
                }
                assert(views.take(i as int) =~= views);
                sort_by_name(&mut all);
                Some(all)
            },
            None => None,
        };
        self.set_tag_view(tag, results);
    }

    /// Whether there is somewhere to go back to.
    pub fn can_go_back(&self) -> (r: bool)
        ensures
            r == (self@.pos > 0),
    {
        self.history_pos > 0
    }

    /// Whether there is somewhere to go forward to.
    pub fn can_go_forward(&self) -> (r: bool)
        ensures
            r == (self@.pos + 1 < self@.history.len()),
    {
        assert(self@.history.len() == self.history@.len());
        self.history.len() > 0 && self.history_pos < self.history.len() - 1
    }

    /// The directory that going back goes to.
    pub fn back_path(&self) -> (r: Option<FsPath>)
        requires
            self@.wf(),
        ensures
            match r {
                Some(p) => self@.pos > 0 && p@ == self@.history[self@.pos - 1],
                None => self@.pos == 0,
            },
    {
        assert(self@.history.len() == self.history@.len());
        if self.history_pos > 0 {
            Some(self.history[self.history_pos - 1].clone())
        } else {
            None
        }
    }

    /// The directory that going forward goes to.
    pub fn forward_path(&self) -> (r: Option<FsPath>)
        requires
            self@.wf(),
        ensures
            match r {
                Some(p) => self@.pos + 1 < self@.history.len() && p@ == self@.history[self@.pos
                    + 1],
                None => self@.pos + 1 == self@.history.len(),
            },
    {
        assert(self@.history.len() == self.history@.len());
        if self.history_pos < self.history.len() - 1 {
            Some(self.history[self.history_pos + 1].clone())
        } else {
            None
        }
    }

    /// Goes back, with what reading the directory gave; at the start of the history it stays.
    pub fn go_back(&mut self, read: &DirRead, show_hidden: bool)
        requires
            old(self)@.wf(),
        ensures
            final(self)@ == if old(self)@.pos > 0 {
                after_move(gone_along(old(self)@, old(self)@.pos - 1), *read, show_hidden, true)
            } else {
                old(self)@
            },
            final(self)@.wf(),
    {
        let ghost before = self@;
        if let Some(p) = self.back_path() {
            self.history_pos = self.history_pos - 1;
            self.current_path = p;
            self.set_tag_view(None, None);
            assert(self@ =~= gone_along(before, before.pos - 1));
            self.reload_after_path_change(read, show_hidden, true);
        }
    }

    /// Goes forward, with what reading the directory gave; at the end of the history it stays.
    pub fn go_forward(&mut self, read: &DirRead, show_hidden: bool)
        requires
            old(self)@.wf(),
        ensures
            final(self)@ == if old(self)@.pos + 1 < old(self)@.history.len() {
                after_move(gone_along(old(self)@, old(self)@.pos + 1), *read, show_hidden, true)
            } else {
                old(self)@
            },
            final(self)@.wf(),
    {
        let ghost before = self@;
        let places: usize = self.history.len();
        assert(before.history.len() == places);
        if let Some(p) = self.forward_path() {
            self.history_pos = self.history_pos + 1;
            self.current_path = p;
            self.set_tag_view(None, None);
            assert(self@ =~= gone_along(before, before.pos + 1));
            self.reload_after_path_change(read, show_hidden, true);
        }
    }

    /// The name of the tab: that of its directory, and a slash for the root.
    pub fn name(&self) -> (r: String)
        ensures
            r@ == if path::file_name_of(self@.path) is Some {
                display_text::shown_name(self@.path)
            } else {
                "/"@
            },
    {
        match self.current_path.file_name() {
            Some(_) => display_text::file_name(&self.current_path),
            None => "/".to_owned(),
        }
    }

    /// Follows a directory that has been renamed, where it is the one that is shown and there is
    /// a directory at the new path, with what reading it gave. Says whether it has followed.
    pub fn follow_external_directory_rename(
        &mut self,
        old_path: &FsPath,
        new_path: &FsPath,
        new_is_dir: bool,
        read: &DirRead,
        show_hidden: bool,
        renamed_exists: bool,
    ) -> (r: bool)
        requires
            old(self)@.wf(),
        ensures
            r == (path::same_path(old(self)@.path, old_path@) && new_is_dir),
            final(self)@ == if r {
                after_move(
                    followed(old(self)@, old_path@, new_path@),
                    *read,
                    show_hidden,
                    renamed_exists,
                )
            } else {
                old(self)@
            },
            final(self)@.wf(),
    {
        let ghost before = self@;
        assert(before.history.len() == self.history@.len());
        if !self.current_path.same(old_path) || !new_is_dir {
            return false;
        }
        self.current_path = new_path.clone();
        self.history.set(self.history_pos, new_path.clone());
        assert(path::path_views(self.history@) =~= before.history.update(before.pos, new_path@));
        remap_paths(&mut self.list_state.selected, old_path, new_path);
        let anchor = match &self.list_state.selection_anchor {
            Some(a) => Some(remap_path_prefix(a, old_path, new_path)),
            None => None,
        };
        self.list_state.selection_anchor = anchor;
        let renaming = match &self.list_state.renaming {
            Some(r) => Some(
                RenamingItem {
                    path: remap_path_prefix(&r.path, old_path, new_path),
                    name: r.name.clone(),
                    needs_focus: r.needs_focus,
                },
            ),
            None => None,
        };
        self.list_state.renaming = renaming;
        assert(self@ =~= followed(before, old_path@, new_path@));
        self.reload_after_path_change(read, show_hidden, renamed_exists);
        true
    }

    /// Shows the innermost directory above that exists, where the one that is shown does not, with
    /// what reading it gave. Returns the two.
    pub fn recover_missing_directory(
        &mut self,
        is_dir: bool,
        ancestors_exist: &Vec<bool>,
        read: &DirRead,
        show_hidden: bool,
    ) -> (r: Option<(FsPath, FsPath)>)
        requires
            old(self)@.wf(),
            ancestors_exist@.len() == path::ancestors_of(old(self)@.path).len(),
        ensures
            pair_view(r) == recovery(old(self)@.path, is_dir, ancestors_exist@),
            final(self)@ == match recovery(old(self)@.path, is_dir, ancestors_exist@) {
                Some(p) => after_reload(
                    old(self)@.moved_to(p.1).with_tag_view(None, None),
                    *read,
                    show_hidden,
                    true,
                ),
                None => old(self)@,
            },
            final(self)@.wf(),
    {
        let ghost before = self@;
        assert(before.history.len() == self.history@.len());
        if is_dir {
            return None;
        }
        match nearest_existing_directory(&self.current_path, ancestors_exist) {
            Some(fallback) => {
                let old_path = self.current_path.clone();
                self.current_path = fallback.clone();
                self.history.set(self.history_pos, fallback.clone());
                assert(path::path_views(self.history@) =~= before.history.update(
                    before.pos,
                    fallback@,
                ));
                self.set_tag_view(None, None);
                assert(self@ =~= before.moved_to(fallback@).with_tag_view(None, None));
                let _ = self.reload(read, show_hidden, true);
                Some((old_path, fallback))
            },
            None => None,
        }
    }
}

/// A pair of paths by its views.
pub open spec fn pair_view(p: Option<(FsPath, FsPath)>) -> Option<(Seq<u8>, Seq<u8>)> {
    match p {
        Some(q) => Some((q.0@, q.1@)),
        None => None,
    }
}

/// Where a tab goes whose directory is missing: from it to the innermost directory above that
/// exists.
pub open spec fn recovery(p: Seq<u8>, is_dir: bool, ancestors_exist: Seq<bool>) -> Option<
    (Seq<u8>, Seq<u8>),
> {
    if is_dir {
        None
    } else {
        match nearest(path::ancestors_of(p), ancestors_exist, 0) {
            Some(f) => Some((p, f)),
            None => None,
        }
    }
}

/// Going back undoes going somewhere: the tab is where it was, at the same place of its history,
/// whatever reading the directories gave.
pub proof fn back_returns_to_where_it_was(
    t: TabView,
    p: Seq<u8>,
    there: DirRead,
    here: DirRead,
    show_hidden: bool,
)
    requires
        t.wf(),
    ensures
        ({
            let away = after_move(gone_to(t, p), there, show_hidden, true);
            let back = after_move(gone_along(away, away.pos - 1), here, show_hidden, true);
            &&& away.path == p
            &&& away.pos > 0
            &&& back.path == t.path
            &&& back.pos == t.pos
            &&& back.history.take(t.pos + 1) == t.history.take(t.pos + 1)
        }),
{
    let away = after_move(gone_to(t, p), there, show_hidden, true);
    let back = after_move(gone_along(away, away.pos - 1), here, show_hidden, true);
    assert(away.history[t.pos] == t.history[t.pos]);
    assert(back.history.take(t.pos + 1) =~= t.history.take(t.pos + 1));
}

/// Going forward undoes going back.
pub proof fn forward_undoes_back(
    t: TabView,
    first: DirRead,
    second: DirRead,
    show_hidden: bool,
)
    requires
        t.wf(),
        t.pos > 0,
    ensures
        ({
            let back = after_move(gone_along(t, t.pos - 1), first, show_hidden, true);
            let again = after_move(gone_along(back, back.pos + 1), second, show_hidden, true);
            again.path == t.path && again.pos == t.pos && again.history == t.history
        }),
{
}

/// After going somewhere there is nothing ahead in the history.
pub proof fn nothing_is_ahead_of_a_new_place(t: TabView, p: Seq<u8>)
    requires
        t.wf(),
    ensures
        gone_to(t, p).wf(),
        gone_to(t, p).pos + 1 == gone_to(t, p).history.len(),
{
}

/// Reloading keeps of what is selected exactly that which is still listed.
pub proof fn reloading_keeps_what_is_still_there(
    t: TabView,
    records: Seq<DirRecord>,
    show_hidden: bool,
    renamed_exists: bool,
    p: Seq<u8>,
)
    ensures
        reloaded(t, records, show_hidden, renamed_exists).selection.selected.contains(p) == (
        t.selection.selected.contains(p) && lists(
            reloaded(t, records, show_hidden, renamed_exists).entries,
            p,
        )),
        reloaded(t, records, show_hidden, renamed_exists).path == t.path,
        reloaded(t, records, show_hidden, renamed_exists).history == t.history,
{
    let after = reloaded(t, records, show_hidden, renamed_exists);
    let f = listed_in(after.entries);
    let kept = after.selection.selected;
    if t.selection.selected.contains(p) && lists(after.entries, p) {
        let i = choose|i: int| 0 <= i < t.selection.selected.len() && t.selection.selected[i] == p;
        t.selection.selected.lemma_filter_contains(f, i);
    }
    if kept.contains(p) {
        let k = choose|k: int| 0 <= k < kept.len() && kept[k] == p;
        t.selection.selected.lemma_filter_pred(f, k);
        lemma_filter_from(t.selection.selected, f, k);
    }
}

proof fn lemma_filter_from(s: Seq<Seq<u8>>, f: spec_fn(Seq<u8>) -> bool, k: int)
    requires
        0 <= k < s.filter(f).len(),
    ensures
        s.contains(s.filter(f)[k]),
    decreases s.len(),
{
    reveal(Seq::filter);
    if s.len() > 0 {
        let rest = s.drop_last();
        if k < rest.filter(f).len() {
            lemma_filter_from(rest, f, k);
            let j = choose|j: int| 0 <= j < rest.len() && rest[j] == rest.filter(f)[k];
            assert(s[j] == s.filter(f)[k]);
        } else {
            assert(s[s.len() - 1] == s.filter(f)[k]);
        }
    }
}

/// A path below a directory stays below it where the directory goes, and a path elsewhere stays
/// as it is.
pub proof fn only_what_is_inside_is_remapped(p: Seq<u8>, from: Seq<u8>, to: Seq<u8>)
    ensures
        !path::path_starts_with(p, from) ==> remapped(p, from, to) == p,
        path::path_starts_with(p, from) ==> remapped(p, from, to) == path::joined(
            to,
            path::stripped(p, from)->0,
        ),
{
}

/// A tab that goes somewhere is there, with the place behind where it was in its history and nothing
/// ahead of it. It shows no tag, no search and no selection, and stays sorted as it was.
pub proof fn going_somewhere_adds_to_the_history(t: TabView, p: Seq<u8>, i: int)
    requires
        t.wf(),
    ensures
        gone_to(t, p).path == p,
        gone_to(t, p).pos == t.pos + 1,
        gone_to(t, p).history.len() == t.pos + 2,
        gone_to(t, p).history.last() == p,
        0 <= i <= t.pos ==> gone_to(t, p).history[i] == t.history[i],
        gone_to(t, p).sort_col == t.sort_col && gone_to(t, p).sort_order == t.sort_order,
        gone_to(t, p).entries == t.entries,
        gone_to(t, p).selection.selected.len() == 0 && gone_to(t, p).selection.anchor is None,
        gone_to(t, p).tag_filter is None && gone_to(t, p).results is None,
        gone_to(t, p).creating is None && gone_to(t, p).renaming is None,
{
}

/// A tab that goes along its history is where the history says, and the history stays.
pub proof fn going_along_follows_the_history(t: TabView, pos: int)
    requires
        0 <= pos < t.history.len(),
    ensures
        gone_along(t, pos).path == t.history[pos],
        gone_along(t, pos).pos == pos,
        gone_along(t, pos).history == t.history,
        gone_along(t, pos).sort_col == t.sort_col && gone_along(t, pos).sort_order == t.sort_order,
        gone_along(t, pos).selection.selected.len() == 0 && gone_along(t, pos).selection.anchor
            is None,
        gone_along(t, pos).tag_filter is None && gone_along(t, pos).results is None,
        gone_along(t, pos).creating is None && gone_along(t, pos).renaming is None,
{
}

/// A new tab is at its path with nothing behind or ahead of it, sorted by name from the first on.
pub proof fn new_tab_is_at_its_path(p: Seq<u8>)
    ensures
        opened(p).wf(),
        opened(p).path == p,
        opened(p).history.len() == 1,
        opened(p).sort_col == SortColumn::Name,
        opened(p).sort_order == SortOrder::Ascending,
        opened(p).entries.len() == 0,
        opened(p).selection.selected.len() == 0 && opened(p).selection.anchor is None,
        opened(p).tag_filter is None && opened(p).results is None,
        opened(p).creating is None && opened(p).renaming is None,
{
}

/// Reading a directory again shows what is in it now, sorted as before; what is not listed any more
/// is neither selected nor where a range starts, and a renaming of what is gone is given up. Where
/// the reading fails, a tab that stays keeps what it shows, and one that has moved shows nothing.
pub proof fn reading_again_shows_what_is_there(
    t: TabView,
    read: DirRead,
    show_hidden: bool,
    renamed_exists: bool,
)
    ensures
        read is Ok ==> ({
            let after = after_reload(t, read, show_hidden, renamed_exists);
            &&& after == after_move(t, read, show_hidden, renamed_exists)
            &&& after.entries == fs::sorted(
                fs::listed(read->Ok_0@, show_hidden),
                t.sort_col,
                t.sort_order,
            )
            &&& after.selection.anchor is Some ==> after.selection.anchor == t.selection.anchor
                && exists|i: int|
                0 <= i < after.entries.len() && path::same_path(
                    (#[trigger] after.entries[i]).path,
                    after.selection.anchor->0,
                )
            &&& t.selection.anchor is Some && after.selection.anchor is None ==> forall|i: int|
                0 <= i < after.entries.len() ==> !path::same_path(
                    (#[trigger] after.entries[i]).path,
                    t.selection.anchor->0,
                )
            &&& renamed_exists ==> after.renaming == t.renaming
            &&& !renamed_exists ==> after.renaming is None
            &&& after.path == t.path && after.history == t.history && after.pos == t.pos
            &&& after.sort_col == t.sort_col && after.sort_order == t.sort_order
            &&& after.creating == t.creating && after.tag_filter == t.tag_filter && after.results
                == t.results
        }),
        read is Err ==> after_reload(t, read, show_hidden, renamed_exists) == t,
        read is Err ==> ({
            let after = after_move(t, read, show_hidden, renamed_exists);
            &&& after.entries.len() == 0 && after.selection.selected.len() == 0
                && after.selection.anchor is None
            &&& TabView { entries: t.entries, selection: t.selection, ..after } == t
        }),
{
}

/// A tab shows the paths of its entries that have the tag it is filtered by, in their order, or what
/// was found with a tag anywhere in place of them.
pub proof fn visible_paths_are_those_of_the_entries(
    t: TabView,
    a: Seq<EntryView>,
    b: Seq<EntryView>,
    e: EntryView,
    filter: Option<Seq<char>>,
)
    ensures
        t.results is Some ==> visible(t) == t.results->0,
        t.results is None ==> visible(t) == filtered_paths(t.entries, t.tag_filter),
        filtered_paths(a + b, filter) == filtered_paths(a, filter) + filtered_paths(b, filter),
        filter is None ==> filtered_paths(seq![e], filter) == seq![e.path],
        filter is Some && (exists|i: int|
            0 <= i < e.tags.len() && (#[trigger] e.tags[i]).0 == filter->0) ==> filtered_paths(
            seq![e],
            filter,
        ) == seq![e.path],
        filter is Some && (forall|i: int|
            0 <= i < e.tags.len() ==> (#[trigger] e.tags[i]).0 != filter->0) ==> filtered_paths(
            seq![e],
            filter,
        ).len() == 0,
    decreases b.len(),
{
    reveal_with_fuel(filtered_paths, 2);
    assert(seq![e].drop_last() =~= Seq::<EntryView>::empty());
    assert(file_list::passes_filter(e, filter) ==> filtered_paths(seq![e], filter) =~= seq![e.path]);
    if b.len() == 0 {
        assert(a + b =~= a);
        assert(filtered_paths(a, filter) + filtered_paths(b, filter) =~= filtered_paths(a, filter));
    } else {
        visible_paths_are_those_of_the_entries(t, a, b.drop_last(), e, filter);
        assert((a + b).drop_last() =~= a + b.drop_last());
        assert((a + b).last() == b.last());
        assert(filtered_paths(a + b, filter) =~= filtered_paths(a, filter) + filtered_paths(
            b,
            filter,
        ));
    }
}

/// A path inside a directory that has moved is at the same place inside of where it has moved to.
pub proof fn remapped_path_stays_at_its_place(p: Seq<u8>, from: Seq<u8>, to: Seq<u8>)
    requires
        path::path_starts_with(p, from),
        path::components(from).len() > 0,
    ensures
        path::components(remapped(p, from, to)) == path::components(to) + path::components(p).skip(
            path::components(from).len() as int,
        ),
{
    path::stripped_path_has_the_remaining_components(p, from);
    path::stripped_path_is_relative(p, from);
    path::joined_path_follows_the_base(to, path::stripped(p, from)->0);
}

/// A tab whose directory was renamed is at the new path, in its history too, and what is selected,
/// where a range starts and what is being renamed move along with it. The rest stays.
pub proof fn tab_follows_its_directory(t: TabView, from: Seq<u8>, to: Seq<u8>, i: int)
    requires
        t.wf(),
    ensures
        ({
            let f = followed(t, from, to);
            &&& f.path == to && f.pos == t.pos && f.history.len() == t.history.len()
            &&& f.history[t.pos] == to
            &&& 0 <= i < t.history.len() && i != t.pos ==> f.history[i] == t.history[i]
            &&& f.selection.selected.len() == t.selection.selected.len()
            &&& 0 <= i < t.selection.selected.len() ==> f.selection.selected[i] == remapped(
                t.selection.selected[i],
                from,
                to,
            )
            &&& f.selection.anchor is Some <==> t.selection.anchor is Some
            &&& t.selection.anchor is Some ==> f.selection.anchor->0 == remapped(
                t.selection.anchor->0,
                from,
                to,
            )
            &&& f.renaming is Some <==> t.renaming is Some
            &&& t.renaming is Some ==> f.renaming == Some(
                (remapped((t.renaming->0).0, from, to), (t.renaming->0).1, (t.renaming->0).2),
            )
            &&& f.entries == t.entries && f.sort_col == t.sort_col && f.sort_order == t.sort_order
                && f.creating == t.creating && f.tag_filter == t.tag_filter && f.results
                == t.results
        }),
{
}

/// Where a directory is gone, the nearest one above it that exists is shown; nothing changes where it
/// exists, or where none does.
pub proof fn nearest_existing_directory_is_shown(p: Seq<u8>, there: Seq<bool>, k: int)
    requires
        there.len() == path::ancestors_of(p).len(),
    ensures
        recovery(p, true, there) is None,
        0 <= k < there.len() && there[k] && (forall|i: int| 0 <= i < k ==> !#[trigger] there[i])
            ==> recovery(p, false, there) == Some((p, path::ancestors_of(p)[k])),
        (forall|i: int| 0 <= i < there.len() ==> !#[trigger] there[i]) ==> recovery(
            p,
            false,
            there,
        ) is None,
{
    lemma_nearest(path::ancestors_of(p), there, 0, k);
}

proof fn lemma_nearest(ancestors: Seq<Seq<u8>>, there: Seq<bool>, from: int, k: int)
    requires
        there.len() == ancestors.len(),
        0 <= from <= there.len(),
    ensures
        from <= k < there.len() && there[k] && (forall|i: int|
            from <= i < k ==> !#[trigger] there[i]) ==> nearest(ancestors, there, from) == Some(
            ancestors[k],
        ),
        (forall|i: int| from <= i < there.len() ==> !#[trigger] there[i]) ==> nearest(
            ancestors,
            there,
            from,
        ) is None,
    decreases ancestors.len() - from,
{
    if from < there.len() && !there[from] {
        lemma_nearest(ancestors, there, from + 1, k);
    }
}

/// A tab is seen part by part, and a pair of paths in its order.
pub proof fn tab_is_seen_part_by_part(t: TabState, a: FsPath, b: FsPath)
    ensures
        t@.path == t.current_path@,
        t@.entries.len() == t.entries@.len(),
        t@.sort_col == t.list_state.sort_col,
        t@.sort_order == t.list_state.sort_order,
        t@.history.len() == t.history@.len(),
        t@.pos == t.history_pos,
        t.list_state.creating is Some ==> t@.creating == Some(
            (
                (t.list_state.creating->0).kind,
                (t.list_state.creating->0).name@,
                (t.list_state.creating->0).needs_focus,
            ),
        ),
        t.list_state.creating is None ==> t@.creating is None,
        t.list_state.renaming is Some ==> t@.renaming == Some(
            (
                (t.list_state.renaming->0).path@,
                (t.list_state.renaming->0).name@,
                (t.list_state.renaming->0).needs_focus,
            ),
        ),
        t.list_state.renaming is None ==> t@.renaming is None,
        t@.tag_filter is Some <==> t.tag_filter is Some,
        t@.results is Some <==> t.tag_search_results is Some,
        pair_view(Some((a, b))) == Some((a@, b@)),
        pair_view(None) is None,
{
}

/// A path is listed where any of the entries has it.
pub proof fn any_entry_lists_the_path(a: Seq<EntryView>, b: Seq<EntryView>, x: EntryView, p: Seq<u8>)
    ensures
        lists(a + b, p) <==> lists(a, p) || lists(b, p),
        lists(seq![x], p) <==> path::same_path(x.path, p),
        !lists(Seq::<EntryView>::empty(), p),
{
    let all = a + b;
    if lists(a, p) {
        let i = choose|i: int| 0 <= i < a.len() && path::same_path((#[trigger] a[i]).path, p);
        assert(all[i] == a[i]);
    }
    if lists(b, p) {
        let i = choose|i: int| 0 <= i < b.len() && path::same_path((#[trigger] b[i]).path, p);
        assert(all[a.len() + i] == b[i]);
    }
    if lists(all, p) {
        let i = choose|i: int| 0 <= i < all.len() && path::same_path((#[trigger] all[i]).path, p);
        assert(all[i] == if i < a.len() { a[i] } else { b[i - a.len()] });
    }
    assert(seq![x][0] == x);
}

} // verus!
