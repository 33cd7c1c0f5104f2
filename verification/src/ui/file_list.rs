//! The file list: the selection, sorting by the headers, names being typed, and what the rows ask
//! for.

use vstd::prelude::*;

use crate::model::display_text;
use crate::model::fs;
use crate::model::fs::{EntryView, FileEntry, FileKind, SortColumn, SortOrder};
use crate::model::global_tags::GlobalTag;
use crate::model::tags;
use crate::model::tags::{Tag, TagColor, TagView};
use crate::path;
use crate::path::{find_spans, FsPath};
use crate::path_list;
use crate::path_list::{contains_path, copy_paths, position, push_unique};
use crate::text;
use crate::text::{chars_copy, chars_of, push_decimal, string_of, trim};

verus! {

/// What is to be created.
#[derive(Clone, Copy, Debug, PartialEq, Eq, Structural)]
pub enum CreateKind {
    File,
    Directory,
}

/// What a row or its menu asks for.
#[derive(Debug)]
pub enum FileListAction {
    Navigate(FsPath),
    OpenFile(FsPath),
    CopyPath(FsPath),
    AddBookmark(FsPath),
    RevealInFinder(FsPath),
    OpenInTerminal(FsPath),
    DragStarted(Vec<FsPath>),
    QuickLook(FsPath),
    Share(FsPath),
    SetTags(FsPath, Vec<Tag>),
    GetInfo(FsPath),
    StartCreating(CreateKind),
    CreateItem(CreateKind, String),
    StartRename(FsPath),
    /// The path and the new name.
    RenameItem(FsPath, String),
    CopyFiles(Vec<FsPath>),
    CutFiles(Vec<FsPath>),
    PasteHere,
    /// The paths and the directory that they go to.
    MoveItems(Vec<FsPath>, FsPath),
    DeleteFiles(Vec<FsPath>),
    /// The directory and the file in it.
    NavigateAndSelect(FsPath, FsPath),
    ClearTagFilter,
}

/// The name of something that is being created.
#[derive(Debug)]
pub struct CreatingItem {
    pub kind: CreateKind,
    pub name: String,
    pub needs_focus: bool,
}

/// The new name of something that is being renamed.
#[derive(Debug)]
pub struct RenamingItem {
    pub path: FsPath,
    pub name: String,
    pub needs_focus: bool,
}

/// The state of a file list.
#[derive(Debug)]
pub struct FileListState {
    /// The selected paths; the last one is the primary one.
    pub selected: Vec<FsPath>,
    /// Where a range starts.
    pub selection_anchor: Option<FsPath>,
    pub sort_col: SortColumn,
    pub sort_order: SortOrder,
    pub creating: Option<CreatingItem>,
    pub renaming: Option<RenamingItem>,
}

/// The name that something new is offered.
pub open spec fn offered_name(kind: CreateKind) -> Seq<char> {
    match kind {
        CreateKind::File => "untitled"@,
        CreateKind::Directory => "untitled folder"@,
    }
}

/// What is selected, and where a range starts.
#[verifier::ext_equal]
pub struct Selection {
    pub selected: Seq<Seq<u8>>,
    pub anchor: Option<Seq<u8>>,
}

/// What is being created: its kind, the name so far, and whether the field waits for the focus.
pub open spec fn creating_view(c: Option<CreatingItem>) -> Option<(CreateKind, Seq<char>, bool)> {
    match c {
        Some(i) => Some((i.kind, i.name@, i.needs_focus)),
        None => None,
    }
}

/// What is being renamed: its path, the name so far, and whether the field waits for the focus.
pub open spec fn renaming_view(c: Option<RenamingItem>) -> Option<(Seq<u8>, Seq<char>, bool)> {
    match c {
        Some(i) => Some((i.path@, i.name@, i.needs_focus)),
        None => None,
    }
}

/// The path of an optional path.
pub open spec fn optional_path(p: Option<FsPath>) -> Option<Seq<u8>> {
    match p {
        Some(q) => Some(q@),
        None => None,
    }
}

impl FileListState {
    /// What is selected.
    pub open spec fn selection(&self) -> Selection {
        Selection {
            selected: path::path_views(self.selected@),
            anchor: optional_path(self.selection_anchor),
        }
    }
}

/// One path selected alone.
pub open spec fn only(p: Seq<u8>) -> Selection {
    Selection { selected: seq![p], anchor: Some(p) }
}

/// A list with the item at a place moved to the end.
pub open spec fn moved_to_end(list: Seq<Seq<u8>>, k: int) -> Seq<Seq<u8>> {
    if 0 <= k < list.len() {
        list.remove(k).push(list[k])
    } else {
        list
    }
}

/// The selection once the range between two paths has been selected, with the second one as the
/// primary one. Where the first is not visible only the second is selected; where the second is
/// not, nothing changes.
pub open spec fn range_selected(
    sel: Selection,
    visible: Seq<Seq<u8>>,
    anchor: Seq<u8>,
    target: Seq<u8>,
    additive: bool,
) -> Selection {
    let a = path_list::place_of(visible, anchor, 0);
    let t = path_list::place_of(visible, target, 0);
    if a >= visible.len() {
        only(target)
    } else if t >= visible.len() {
        sel
    } else {
        let base = if additive {
            sel.selected
        } else {
            Seq::empty()
        };
        let range = if a <= t {
            visible.subrange(a, t + 1)
        } else {
            visible.subrange(t, a + 1)
        };
        let all = path_list::all_pushed(base, range);
        Selection { selected: moved_to_end(all, path_list::place_of(all, target, 0)), ..sel }
    }
}

/// The selection after a click: alone, or toggled with the command key, or as a range from the
/// anchor with the shift key (added to what is selected with both).
pub open spec fn clicked(
    sel: Selection,
    visible: Seq<Seq<u8>>,
    p: Seq<u8>,
    command: bool,
    shift: bool,
) -> Selection {
    if shift {
        let anchor = match sel.anchor {
            Some(a) => a,
            None => p,
        };
        Selection {
            anchor: Some(anchor),
            ..range_selected(sel, visible, anchor, p, command)
        }
    } else if command {
        let k = path_list::place_of(sel.selected, p, 0);
        if k < sel.selected.len() {
            Selection { selected: sel.selected.remove(k), anchor: Some(p) }
        } else {
            Selection { selected: sel.selected.push(p), anchor: Some(p) }
        }
    } else {
        only(p)
    }
}

/// The place of the primary selection among the visible paths.
pub open spec fn primary_place(sel: Selection, visible: Seq<Seq<u8>>) -> Option<int> {
    if sel.selected.len() > 0 && path_list::place_of(visible, sel.selected.last(), 0)
        < visible.len() {
        Some(path_list::place_of(visible, sel.selected.last(), 0))
    } else {
        None
    }
}

/// The place that an arrow key goes to: up or down from the primary selection as far as the list
/// goes, and to an end of the list where nothing visible is selected.
pub open spec fn next_place(current: Option<int>, count: int, delta: int) -> int {
    match current {
        Some(i) => if i + delta < 0 {
            0
        } else if i + delta > count - 1 {
            count - 1
        } else {
            i + delta
        },
        None => if delta < 0 {
            count - 1
        } else {
            0
        },
    }
}

/// The selection after an arrow key, alone or extended from the anchor.
pub open spec fn arrow_moved(
    sel: Selection,
    visible: Seq<Seq<u8>>,
    delta: int,
    extend: bool,
) -> Selection {
    if visible.len() == 0 {
        Selection { selected: Seq::empty(), anchor: None }
    } else {
        let current = primary_place(sel, visible);
        let next = visible[next_place(current, visible.len() as int, delta)];
        if extend {
            let anchor = match sel.anchor {
                Some(a) => a,
                None => match current {
                    Some(i) => visible[i],
                    None => next,
                },
            };
            Selection {
                anchor: Some(anchor),
                ..range_selected(sel, visible, anchor, next, false)
            }
        } else {
            only(next)
        }
    }
}

impl Default for FileListState {
    fn default() -> (r: FileListState)
        ensures
            r.selection() == (Selection { selected: Seq::empty(), anchor: None }),
            r.sort_col == SortColumn::Name,
            r.sort_order == SortOrder::Ascending,
            r.creating is None,
            r.renaming is None,
    {
        let r = FileListState {
            selected: Vec::new(),
            selection_anchor: None,
            sort_col: SortColumn::Name,
            sort_order: SortOrder::Ascending,
            creating: None,
            renaming: None,
        };
        assert(r.selection().selected =~= Seq::empty());
        r
    }
}

/// A list of one path.
fn one_path(p: FsPath) -> (r: Vec<FsPath>)
    ensures
        path::path_views(r@) == seq![p@],
{
    let mut out: Vec<FsPath> = Vec::new();
    let ghost v = p@;
    out.push(p);
    assert(path::path_views(out@) =~= seq![v]);
    out
}

impl FileListState {
    /// What a selection leaves alone.
    pub open spec fn same_besides_selection(&self, other: &FileListState) -> bool {
        &&& self.sort_col == other.sort_col
        &&& self.sort_order == other.sort_order
        &&& self.creating == other.creating
        &&& self.renaming == other.renaming
    }

    /// The path that was selected last.
    pub fn primary_selection(&self) -> (r: Option<&FsPath>)
        ensures
            match r {
                Some(p) => self.selection().selected.len() > 0 && p@ == self.selection().selected.last(),
                None => self.selection().selected.len() == 0,
            },
    {
        assert(self.selection().selected.len() == self.selected@.len());
        if self.selected.len() > 0 {
            Some(&self.selected[self.selected.len() - 1])
        } else {
            None
        }
    }

    /// Selects one path alone.
    pub fn select_only(&mut self, path: FsPath)
        ensures
            final(self).selection() == only(path@),
            final(self).same_besides_selection(old(self)),
    {
        let copy = path.clone();
        self.selected = one_path(path);
        self.selection_anchor = Some(copy);
    }

    /// Selects nothing.
    pub fn clear_selection(&mut self)
        ensures
            final(self).selection() == (Selection { selected: Seq::empty(), anchor: None }),
            final(self).same_besides_selection(old(self)),
    {
        self.selected = Vec::new();
        self.selection_anchor = None;
        assert(self.selection().selected =~= Seq::empty());
    }

    /// Selects all the paths given.
    pub fn select_all(&mut self, paths: &Vec<FsPath>)
        ensures
            final(self).selection() == (Selection {
                selected: path::path_views(paths@),
                anchor: if paths@.len() > 0 {
                    Some(path::path_views(paths@).last())
                } else {
                    None
                },
            }),
            final(self).same_besides_selection(old(self)),
    {
        self.selected = copy_paths(paths);
        self.selection_anchor = if paths.len() > 0 {
            Some(paths[paths.len() - 1].clone())
        } else {
            None
        };
    }

    /// Moves the primary selection up or down, alone or extended from the anchor.
    pub fn move_primary(&mut self, visible_paths: &Vec<FsPath>, delta: isize, extend: bool)
        ensures
            final(self).selection() == arrow_moved(
                old(self).selection(),
                path::path_views(visible_paths@),
                delta as int,
                extend,
            ),
            final(self).same_besides_selection(old(self)),
    {
        let ghost visible = path::path_views(visible_paths@);
        assert(visible.len() == visible_paths@.len());
        if visible_paths.len() == 0 {
            self.clear_selection();
            return ;
        }
        let n: usize = visible_paths.len();
        let current: Option<usize> = match self.primary_selection() {
            Some(p) => {
                let k = position(visible_paths, p);
                if k < n {
                    Some(k)
                } else {
                    None
                }
            },
            None => None,
        };
        let next: usize = match current {
            Some(i) => step_place(i, delta, n),
            None => if delta < 0 {
                n - 1
            } else {
                0
            },
        };
        assert(visible[next as int] == visible_paths@[next as int]@);
        if extend {
            let anchor = match &self.selection_anchor {
                Some(a) => a.clone(),
                None => match current {
                    Some(i) => {
                        assert(visible[i as int] == visible_paths@[i as int]@);
                        visible_paths[i].clone()
                    },
                    None => visible_paths[next].clone(),
                },
            };
            self.select_range(visible_paths, &anchor, &visible_paths[next], false);
            self.selection_anchor = Some(anchor);
        } else {
            self.select_only(visible_paths[next].clone());
        }
    }

    /// Takes in a click on a row.
    pub fn update_from_click(
        &mut self,
        visible_paths: &Vec<FsPath>,
        path: &FsPath,
        command: bool,
        shift: bool,
    )
        ensures
            final(self).selection() == clicked(
                old(self).selection(),
                path::path_views(visible_paths@),
                path@,
                command,
                shift,
            ),
            final(self).same_besides_selection(old(self)),
    {
        if shift {
            let anchor = match &self.selection_anchor {
                Some(a) => a.clone(),
                None => path.clone(),
            };
            self.select_range(visible_paths, &anchor, path, command);
            self.selection_anchor = Some(anchor);
        } else if command {
            let k = position(&self.selected, path);
            let ghost before = self.selection().selected;
            assert(before.len() == self.selected@.len());
            if k < self.selected.len() {
                let _ = self.selected.remove(k);
                assert(self.selection().selected =~= before.remove(k as int));
            } else {
                self.selected.push(path.clone());
                assert(self.selection().selected =~= before.push(path@));
            }
            self.selection_anchor = Some(path.clone());
        } else {
            self.select_only(path.clone());
        }
    }

    /// Selects the range between two paths.
    pub fn select_range(
        &mut self,
        visible_paths: &Vec<FsPath>,
        anchor: &FsPath,
        target: &FsPath,
        additive: bool,
    )
        ensures
            final(self).selection() == range_selected(
                old(self).selection(),
                path::path_views(visible_paths@),
                anchor@,
                target@,
                additive,
            ),
            final(self).same_besides_selection(old(self)),
    {
        let ghost visible = path::path_views(visible_paths@);
        assert(visible.len() == visible_paths@.len());
        let a = position(visible_paths, anchor);
        if a >= visible_paths.len() {
            self.select_only(target.clone());
            return ;
        }
        let t = position(visible_paths, target);
        if t >= visible_paths.len() {
            return ;
        }
        if !additive {
            self.selected = Vec::new();
            assert(self.selection().selected =~= Seq::empty());
        }
        let ghost base = self.selection().selected;
        let (start, end) = if a <= t {
            (a, t)
        } else {
            (t, a)
        };
        let ghost range = visible.subrange(start as int, end + 1);
        let stop: usize = end + 1;
        let mut i: usize = start;
        assert(range.take(0) =~= Seq::empty());
        let ghost frozen = *self;
        while i < stop
            invariant
                start <= i <= stop,
                stop == end + 1,
                stop <= visible_paths@.len(),
                visible == path::path_views(visible_paths@),
                range == visible.subrange(start as int, end + 1),
                self.selection().anchor == frozen.selection().anchor,
                self.same_besides_selection(&frozen),
                self.selection().selected == path_list::all_pushed(base, range.take(i - start)),
            decreases stop - i,
        {
            proof {
                assert(range.take(i - start + 1).drop_last() =~= range.take(i - start));
                assert(range.take(i - start + 1).last() == visible_paths@[i as int]@);
            }
            push_unique(&mut self.selected, visible_paths[i].clone());
            i += 1;
        }
        assert(range.take(i - start) =~= range);
        let k = position(&self.selected, target);
        assert(self.selection().selected.len() == self.selected@.len());
        if k < self.selected.len() {
            let ghost before = self.selection().selected;
            let moved = self.selected.remove(k);
            let ghost m = moved@;
            self.selected.push(moved);
            assert(self.selection().selected =~= before.remove(k as int).push(m));
        }
    }

    /// Takes in a click on a header: another column sorts upwards, the same one the other way.
    pub fn click_header(&mut self, col: SortColumn)
        ensures
            final(self).sort_col == col,
            final(self).sort_order == if old(self).sort_col == col && old(self).sort_order
                == SortOrder::Ascending {
                SortOrder::Descending
            } else {
                SortOrder::Ascending
            },
            final(self).selection() == old(self).selection(),
            final(self).creating == old(self).creating,
            final(self).renaming == old(self).renaming,
    {
        if self.sort_col == col {
            self.sort_order = match self.sort_order {
                SortOrder::Ascending => SortOrder::Descending,
                SortOrder::Descending => SortOrder::Ascending,
            };
        } else {
            self.sort_col = col;
            self.sort_order = SortOrder::Ascending;
        }
    }

    /// Starts to type the name of something new, from a name that is offered.
    pub fn start_creating(&mut self, kind: CreateKind)
        ensures
            final(self).creating matches Some(c) && c.kind == kind && c.name@ == offered_name(kind)
                && c.needs_focus,
            final(self).selection() == old(self).selection(),
            final(self).sort_col == old(self).sort_col,
            final(self).sort_order == old(self).sort_order,
            final(self).renaming == old(self).renaming,
    {
        let name = match kind {
            CreateKind::File => "untitled".to_owned(),
            CreateKind::Directory => "untitled folder".to_owned(),
        };
        self.creating = Some(CreatingItem { kind, name, needs_focus: true });
    }

    /// Starts to type the new name of a path, from the name that it has, and selects it alone.
    pub fn start_renaming(&mut self, path: FsPath)
        ensures
            final(self).renaming matches Some(r) && r.path@ == path@ && r.needs_focus && r.name@
                == display_text::shown_name(path@),
            final(self).selection() == only(path@),
            final(self).sort_col == old(self).sort_col,
            final(self).sort_order == old(self).sort_order,
            final(self).creating == old(self).creating,
    {
        let name = display_text::file_name(&path);
        self.select_only(path.clone());
        self.renaming = Some(RenamingItem { path, name, needs_focus: true });
    }

    /// Ends the typing of a new name: confirmed with more than white space it is created, and
    /// cancelled it is forgotten. Confirmed without a name it goes on, unless it is cancelled.
    pub fn finish_creating(&mut self, confirmed: bool, cancelled: bool) -> (r: Option<
        FileListAction,
    >)
        ensures
            match old(self).creating {
                Some(c) => {
                    let named = confirmed && text::trimmed(c.name@).len() > 0;
                    &&& match r {
                        Some(FileListAction::CreateItem(kind, name)) => named && kind == c.kind
                            && name@ == c.name@,
                        Some(_) => false,
                        None => !named,
                    }
                    &&& final(self).creating == if named || cancelled {
                        None
                    } else {
                        old(self).creating
                    }
                },
                None => r is None && final(self).creating is None,
            },
            final(self).selection() == old(self).selection(),
            final(self).sort_col == old(self).sort_col,
            final(self).sort_order == old(self).sort_order,
            final(self).renaming == old(self).renaming,
    {
        let item = match &self.creating {
            Some(c) => {
                let bare = trim(c.name.as_str());
                if confirmed && !bare.as_str().is_empty() {
                    Some((c.kind, c.name.clone()))
                } else {
                    None
                }
            },
            None => {
                return None;
            },
        };
        match item {
            Some((kind, name)) => {
                self.creating = None;
                Some(FileListAction::CreateItem(kind, name))
            },
            None => {
                if cancelled {
                    self.creating = None;
                }
                None
            },
        }
    }

    /// Ends the typing of another name: confirmed with more than white space it is renamed;
    /// confirmed or cancelled the typing is over.
    pub fn finish_renaming(&mut self, confirmed: bool, cancelled: bool) -> (r: Option<
        FileListAction,
    >)
        ensures
            match old(self).renaming {
                Some(c) => {
                    let named = confirmed && text::trimmed(c.name@).len() > 0;
                    &&& match r {
                        Some(FileListAction::RenameItem(path, name)) => named && path@ == c.path@
                            && name@ == c.name@,
                        Some(_) => false,
                        None => !named,
                    }
                    &&& final(self).renaming == if confirmed || cancelled {
                        None
                    } else {
                        old(self).renaming
                    }
                },
                None => r is None && final(self).renaming is None,
            },
            final(self).selection() == old(self).selection(),
            final(self).sort_col == old(self).sort_col,
            final(self).sort_order == old(self).sort_order,
            final(self).creating == old(self).creating,
    {
        let item = match &self.renaming {
            Some(c) => {
                let bare = trim(c.name.as_str());
                if confirmed && !bare.as_str().is_empty() {
                    Some((c.path.clone(), c.name.clone()))
                } else {
                    None
                }
            },
            None => {
                return None;
            },
        };
        if confirmed || cancelled {
            self.renaming = None;
        }
        match item {
            Some((path, name)) => Some(FileListAction::RenameItem(path, name)),
            None => None,
        }
    }

    /// What the return key asks for: to rename the one selected path, while nothing is being
    /// typed.
    pub fn rename_request(&self) -> (r: Option<FileListAction>)
        ensures
            match r {
                Some(FileListAction::StartRename(p)) => self.renaming is None
                    && self.creating is None && self.selection().selected.len() == 1 && p@
                    == self.selection().selected[0],
                Some(_) => false,
                None => !(self.renaming is None && self.creating is None
                    && self.selection().selected.len() == 1),
            },
    {
        assert(self.selection().selected.len() == self.selected@.len());
        if self.renaming.is_none() && self.creating.is_none() && self.selected.len() == 1 {
            Some(FileListAction::StartRename(self.selected[0].clone()))
        } else {
            None
        }
    }

    /// Whether a path is selected.
    pub fn is_selected(&self, path: &FsPath) -> (r: bool)
        ensures
            r == path::has_path(self.selection().selected, path@),
    {
        contains_path(&self.selected, path)
    }

    /// Starts to drag a row: a row that is not selected is selected alone, and what is selected
    /// is dragged.
    pub fn start_drag(&mut self, path: &FsPath) -> (r: FileListAction)
        ensures
            final(self).selection() == if path::has_path(old(self).selection().selected, path@) {
                old(self).selection()
            } else {
                only(path@)
            },
            final(self).same_besides_selection(old(self)),
            r matches FileListAction::DragStarted(paths) && path::path_views(paths@)
                == final(self).selection().selected,
    {
        if !self.is_selected(path) {
            self.select_only(path.clone());
        }
        FileListAction::DragStarted(copy_paths(&self.selected))
    }

    /// The paths that the menu of a row is about: all selected ones where the row is selected,
    /// and the row alone where it is not.
    pub fn action_paths(&self, path: &FsPath) -> (r: Vec<FsPath>)
        ensures
            path::path_views(r@) == if path::has_path(self.selection().selected, path@) {
                self.selection().selected
            } else {
                seq![path@]
            },
    {
        if self.is_selected(path) {
            copy_paths(&self.selected)
        } else {
            one_path(path.clone())
        }
    }
}

/// The place that is `delta` away, as far as the list goes.
fn step_place(i: usize, delta: isize, n: usize) -> (r: usize)
    requires
        i < n,
    ensures
        r == next_place(Some(i as int), n as int, delta as int),
{
    if delta < 0 {
        let back: usize = if delta == isize::MIN {
            isize::MAX as usize + 1
        } else {
            (-delta) as usize
        };
        if i >= back {
            i - back
        } else {
            0
        }
    } else {
        let ahead = delta as usize;
        if ahead > n - 1 - i {
            n - 1
        } else {
            i + ahead
        }
    }
}

proof fn lemma_moved_distinct(list: Seq<Seq<u8>>, k: int)
    requires
        path::distinct_paths(list),
        0 <= k < list.len(),
    ensures
        path::distinct_paths(moved_to_end(list, k)),
        path::distinct_paths(list.remove(k)),
{
    let t = list.remove(k);
    assert forall|i: int, j: int| 0 <= i < j < t.len() implies !path::same_path(
        #[trigger] t[i],
        #[trigger] t[j],
    ) by {
        let a = if i < k {
            i
        } else {
            i + 1
        };
        let b = if j < k {
            j
        } else {
            j + 1
        };
        assert(t[i] == list[a] && t[j] == list[b]);
    }
    let m = moved_to_end(list, k);
    assert forall|i: int, j: int| 0 <= i < j < m.len() implies !path::same_path(
        #[trigger] m[i],
        #[trigger] m[j],
    ) by {
        if j < t.len() {
            assert(m[i] == t[i] && m[j] == t[j]);
        } else {
            let a = if i < k {
                i
            } else {
                i + 1
            };
            assert(m[i] == list[a] && m[j] == list[k]);
        }
    }
}

proof fn lemma_one_distinct(p: Seq<u8>)
    ensures
        path::distinct_paths(seq![p]),
{
}

/// Whatever is clicked, no path is selected twice.
pub proof fn clicks_select_no_path_twice(
    sel: Selection,
    visible: Seq<Seq<u8>>,
    p: Seq<u8>,
    command: bool,
    shift: bool,
)
    requires
        path::distinct_paths(sel.selected),
    ensures
        path::distinct_paths(clicked(sel, visible, p, command, shift).selected),
{
    if shift {
        let anchor = match sel.anchor {
            Some(a) => a,
            None => p,
        };
        ranges_select_no_path_twice(sel, visible, anchor, p, command);
    } else if command {
        path_list::lemma_place_of(sel.selected, p, 0);
        let k = path_list::place_of(sel.selected, p, 0);
        if k < sel.selected.len() {
            lemma_moved_distinct(sel.selected, k);
        } else {
            path_list::pushed_path_is_in_once(sel.selected, p);
        }
    } else {
        lemma_one_distinct(p);
    }
}

/// Selecting a range selects no path twice.
pub proof fn ranges_select_no_path_twice(
    sel: Selection,
    visible: Seq<Seq<u8>>,
    anchor: Seq<u8>,
    target: Seq<u8>,
    additive: bool,
)
    requires
        path::distinct_paths(sel.selected),
    ensures
        path::distinct_paths(range_selected(sel, visible, anchor, target, additive).selected),
{
    let a = path_list::place_of(visible, anchor, 0);
    let t = path_list::place_of(visible, target, 0);
    path_list::lemma_place_of(visible, anchor, 0);
    path_list::lemma_place_of(visible, target, 0);
    if a >= visible.len() {
        lemma_one_distinct(target);
    } else if t < visible.len() {
        let base = if additive {
            sel.selected
        } else {
            Seq::empty()
        };
        let range = if a <= t {
            visible.subrange(a, t + 1)
        } else {
            visible.subrange(t, a + 1)
        };
        path_list::all_pushed_paths_are_in_once(base, range);
        let all = path_list::all_pushed(base, range);
        path_list::lemma_place_of(all, target, 0);
        let k = path_list::place_of(all, target, 0);
        if k < all.len() {
            lemma_moved_distinct(all, k);
        }
    }
}

/// Arrow keys select no path twice.
pub proof fn arrows_select_no_path_twice(
    sel: Selection,
    visible: Seq<Seq<u8>>,
    delta: int,
    extend: bool,
)
    requires
        path::distinct_paths(sel.selected),
    ensures
        path::distinct_paths(arrow_moved(sel, visible, delta, extend).selected),
{
    if visible.len() > 0 {
        let current = primary_place(sel, visible);
        let next = visible[next_place(current, visible.len() as int, delta)];
        lemma_one_distinct(next);
        if extend {
            let anchor = match sel.anchor {
                Some(a) => a,
                None => match current {
                    Some(i) => visible[i],
                    None => next,
                },
            };
            ranges_select_no_path_twice(sel, visible, anchor, next, false);
        }
    }
}

/// A range that is selected holds every path from the anchor to the target, ends with the target
/// as the primary selection, and leaves the anchor where it was.
pub proof fn range_is_complete(
    sel: Selection,
    visible: Seq<Seq<u8>>,
    anchor: Seq<u8>,
    target: Seq<u8>,
    additive: bool,
    i: int,
)
    requires
        path::distinct_paths(sel.selected),
        path_list::place_of(visible, anchor, 0) < visible.len(),
        path_list::place_of(visible, target, 0) < visible.len(),
        path_list::place_of(visible, anchor, 0) <= i <= path_list::place_of(visible, target, 0)
            || path_list::place_of(visible, target, 0) <= i <= path_list::place_of(
            visible,
            anchor,
            0,
        ),
    ensures
        path::has_path(
            range_selected(sel, visible, anchor, target, additive).selected,
            visible[i],
        ),
        range_selected(sel, visible, anchor, target, additive).selected.len() > 0,
        path::same_path(
            range_selected(sel, visible, anchor, target, additive).selected.last(),
            target,
        ),
        range_selected(sel, visible, anchor, target, additive).anchor == sel.anchor,
{
    let a = path_list::place_of(visible, anchor, 0);
    let t = path_list::place_of(visible, target, 0);
    path_list::lemma_place_of(visible, anchor, 0);
    path_list::lemma_place_of(visible, target, 0);
    let base = if additive {
        sel.selected
    } else {
        Seq::empty()
    };
    let range = if a <= t {
        visible.subrange(a, t + 1)
    } else {
        visible.subrange(t, a + 1)
    };
    let lo = if a <= t {
        a
    } else {
        t
    };
    path_list::all_pushed_paths_are_in_once(base, range);
    let all = path_list::all_pushed(base, range);
    assert(range[t - lo] == visible[t]);
    assert(path::has_path(all, range[t - lo]));
    lemma_has_same(all, visible[t], target);
    path_list::lemma_place_of(all, target, 0);
    let k = path_list::place_of(all, target, 0);
    let m = moved_to_end(all, k);
    assert(range[i - lo] == visible[i]);
    assert(path::has_path(all, range[i - lo]));
    let j = choose|j: int| 0 <= j < all.len() && path::same_path(all[j], visible[i]);
    if j < k {
        assert(m[j] == all[j]);
    } else if j > k {
        assert(m[j - 1] == all[j]);
    } else {
        assert(m[m.len() - 1] == all[k]);
    }
}

proof fn lemma_has_same(list: Seq<Seq<u8>>, p: Seq<u8>, q: Seq<u8>)
    requires
        path::has_path(list, p),
        path::same_path(p, q),
    ensures
        path::has_path(list, q),
{
    let i = choose|i: int| 0 <= i < list.len() && path::same_path(list[i], p);
    assert(path::same_path(list[i], q));
}

/// Toggling a row that is not selected selects it beside the others, and toggling it again gives
/// back the selection as it was.
pub proof fn toggling_twice_restores(sel: Selection, visible: Seq<Seq<u8>>, p: Seq<u8>)
    requires
        !path::has_path(sel.selected, p),
    ensures
        clicked(sel, visible, p, true, false).selected == sel.selected.push(p),
        clicked(clicked(sel, visible, p, true, false), visible, p, true, false).selected
            == sel.selected,
{
    path_list::lemma_place_of(sel.selected, p, 0);
    let once = clicked(sel, visible, p, true, false).selected;
    path_list::lemma_place_of(once, p, 0);
    let k = path_list::place_of(once, p, 0);
    assert(path::same_path(once[sel.selected.len() as int], p));
    assert(path::has_path(once, p));
    if k < sel.selected.len() {
        assert(once[k] == sel.selected[k]);
    }
    assert(once.remove(k) =~= sel.selected);
}

/// A step of the breadcrumbs: the path that it goes to and what it shows.
#[derive(Debug)]
pub struct Breadcrumb {
    pub path: FsPath,
    pub label: String,
}

/// The path of the first `n` components put one behind the other.
pub open spec fn accumulated(components: Seq<Seq<u8>>, n: int) -> Seq<u8>
    decreases n,
{
    if n <= 0 {
        Seq::empty()
    } else {
        path::joined(accumulated(components, n - 1), components[n - 1])
    }
}

/// Whether the breadcrumbs go from the root to the path, a component at a time. The first shows
/// as a slash.
pub open spec fn leads_to(crumbs: Seq<Breadcrumb>, p: Seq<u8>) -> bool {
    let c = path::components(p);
    &&& crumbs.len() == c.len()
    &&& forall|i: int|
        0 <= i < c.len() ==> {
            &&& (#[trigger] crumbs[i]).path@ == accumulated(c, i + 1)
            &&& crumbs[i].label@ == if i == 0 {
                "  /"@
            } else {
                display_text::shown(c[i])
            }
        }
}

/// The breadcrumbs of a path.
pub fn breadcrumbs(p: &FsPath) -> (r: Vec<Breadcrumb>)
    ensures
        leads_to(r@, p@),
{
    let spans = find_spans(p.as_bytes());
    let ghost c = path::components(p@);
    let mut out: Vec<Breadcrumb> = Vec::new();
    let mut so_far = FsPath::from_bytes(Vec::new());
    let mut i: usize = 0;
    proof {
        path::lemma_spans_bounds(p@);
        assert(path::span_views(spans@).len() == spans@.len());
        assert(so_far@ =~= accumulated(c, 0));
    }
    while i < spans.len()
        invariant
            i <= spans@.len(),
            c == path::components(p@),
            c.len() == spans@.len(),
            path::span_views(spans@) == path::spans(p@),
            forall|k: int|
                0 <= k < path::spans(p@).len() ==> 0 <= (#[trigger] path::spans(p@)[k]).0
                    < path::spans(p@)[k].1 <= p@.len(),
            out@.len() == i,
            so_far@ == accumulated(c, i as int),
            forall|k: int|
                0 <= k < i ==> (#[trigger] out@[k]).path@ == accumulated(c, k + 1)
                    && out@[k].label@ == if k == 0 {
                    "  /"@
                } else {
                    display_text::shown(c[k])
                },
        decreases spans@.len() - i,
    {
        let s = spans[i];
        proof {
            assert(path::span_views(spans@)[i as int] == (s.start as int, s.end as int));
            assert(path::spans(p@)[i as int] == (s.start as int, s.end as int));
            assert(c[i as int] == p@.subrange(s.start as int, s.end as int));
        }
        let part = path::slice_copy(p.as_bytes(), s.start, s.end);
        so_far = so_far.join_bytes(part.as_slice());
        let label = if i == 0 {
            "  /".to_owned()
        } else {
            display_text::os_str(part.as_slice())
        };
        out.push(Breadcrumb { path: so_far.clone(), label });
        i += 1;
    }
    out
}

/// Whether an entry has a tag of this name.
pub open spec fn has_tag(tags: Seq<TagView>, name: Seq<char>) -> bool {
    exists|i: int| 0 <= i < tags.len() && (#[trigger] tags[i]).0 == name
}

/// Whether an entry is shown under a tag filter.
pub open spec fn passes_filter(e: EntryView, filter: Option<Seq<char>>) -> bool {
    match filter {
        Some(name) => has_tag(e.tags, name),
        None => true,
    }
}

/// Whether an entry has a tag of this name.
pub fn entry_has_tag(tags: &Vec<Tag>, name: &str) -> (r: bool)
    ensures
        r == has_tag(tags::tag_views(tags@), name@),
{
    let wanted = name.to_owned();
    let ghost views = tags::tag_views(tags@);
    let mut i: usize = 0;
    while i < tags.len()
        invariant
            i <= tags@.len(),
            wanted@ == name@,
            views == tags::tag_views(tags@),
            forall|k: int| 0 <= k < i ==> (#[trigger] views[k]).0 != name@,
        decreases tags@.len() - i,
    {
        assert(views[i as int] == tags@[i as int]@);
        if tags[i].name == wanted {
            return true;
        }
        i += 1;
    }
    false
}

/// The places of the entries that are shown, in their order.
pub open spec fn shown_places(entries: Seq<EntryView>, filter: Option<Seq<char>>) -> Seq<usize>
    decreases entries.len(),
{
    if entries.len() == 0 {
        Seq::empty()
    } else {
        let rest = shown_places(entries.drop_last(), filter);
        if passes_filter(entries.last(), filter) {
            rest.push((entries.len() - 1) as usize)
        } else {
            rest
        }
    }
}

/// The places of the entries that are shown under a tag filter.
pub fn display_entries(entries: &Vec<FileEntry>, filter: &Option<String>) -> (r: Vec<usize>)
    ensures
        r@ == shown_places(fs::entry_views(entries@), text::optional_text(*filter)),
{
    let ghost all = fs::entry_views(entries@);
    let ghost f = text::optional_text(*filter);
    let mut out: Vec<usize> = Vec::new();
    let mut i: usize = 0;
    assert(out@ =~= shown_places(all.take(0), f));
    while i < entries.len()
        invariant
            i <= entries@.len(),
            all == fs::entry_views(entries@),
            f == text::optional_text(*filter),
            out@ == shown_places(all.take(i as int), f),
        decreases entries@.len() - i,
    {
        proof {
            assert(all.take(i + 1).drop_last() =~= all.take(i as int));
            assert(all.take(i + 1).last() == entries@[i as int]@);
        }
        let shown = match filter {
            Some(name) => entry_has_tag(&entries[i].tags, name.as_str()),
            None => true,
        };
        if shown {
            out.push(i);
        }
        i += 1;
    }
    assert(all.take(i as int) =~= all);
    out
}

/// Having another name.
pub open spec fn named_otherwise(name: Seq<char>) -> spec_fn(TagView) -> bool {
    |t: TagView| t.0 != name
}

/// The tags of an entry once a tag of the menu has been toggled: removed by name where it is
/// there, and added at the end where it is not.
pub open spec fn toggled(tags: Seq<TagView>, name: Seq<char>, color: u8) -> Seq<TagView> {
    if has_tag(tags, name) {
        tags.filter(named_otherwise(name))
    } else {
        tags.push((name, TagColor::of_number(color)))
    }
}

/// The tags of an entry once a tag of the menu has been toggled.
pub fn toggle_tag(tags: &Vec<Tag>, tag: &GlobalTag) -> (r: Vec<Tag>)
    ensures
        tags::tag_views(r@) == toggled(tags::tag_views(tags@), tag.name@, tag.color),
{
    let present = entry_has_tag(tags, tag.name.as_str());
    let ghost all = tags::tag_views(tags@);
    let ghost yes = named_otherwise(tag.name@);
    let mut out: Vec<Tag> = Vec::new();
    let mut i: usize = 0;
    proof {
        reveal(Seq::filter);
        assert(tags::tag_views(out@) =~= all.take(0).filter(yes));
        assert(tags::tag_views(out@) =~= all.take(0));
    }
    while i < tags.len()
        invariant
            i <= tags@.len(),
            all == tags::tag_views(tags@),
            yes == named_otherwise(tag.name@),
            present ==> tags::tag_views(out@) == all.take(i as int).filter(yes),
            !present ==> tags::tag_views(out@) == all.take(i as int),
        decreases tags@.len() - i,
    {
        proof {
            reveal(Seq::filter);
            assert(all.take(i + 1).drop_last() =~= all.take(i as int));
            assert(all.take(i + 1).last() == tags@[i as int]@);
        }
        if !present || tags[i].name != tag.name {
            let ghost before = tags::tag_views(out@);
            let t = tags[i].clone();
            let ghost v = t@;
            out.push(t);
            assert(tags::tag_views(out@) =~= before.push(v));
            assert(!present ==> tags::tag_views(out@) =~= all.take(i + 1));
        }
        i += 1;
    }
    assert(all.take(i as int) =~= all);
    if !present {
        let t = Tag { name: tag.name.clone(), color: TagColor::from_number(tag.color) };
        let ghost v = t@;
        out.push(t);
        assert(tags::tag_views(out@) =~= all.push(v));
    }
    out
}

/// Toggling a tag adds it where it was not, and leaves none of its name where it was.
pub proof fn toggled_tag_changes_sides(tags: Seq<TagView>, name: Seq<char>, color: u8)
    ensures
        has_tag(toggled(tags, name, color), name) == !has_tag(tags, name),
{
    let t = toggled(tags, name, color);
    if has_tag(tags, name) {
        let f = named_otherwise(name);
        assert forall|i: int| 0 <= i < t.len() implies (#[trigger] t[i]).0 != name by {
            tags.lemma_filter_pred(f, i);
        }
    } else {
        assert(t[tags.len() as int].0 == name);
    }
}

/// Whether a row is where dragged files would be dropped: a directory under the pointer that is
/// not itself being dragged.
pub fn is_drop_target(
    dragging: &Option<Vec<FsPath>>,
    kind: FileKind,
    hovered: bool,
    path: &FsPath,
) -> (r: bool)
    ensures
        r == (match *dragging {
            Some(d) => kind == FileKind::Directory && hovered && !path::has_path(
                path::path_views(d@),
                path@,
            ),
            None => false,
        }),
{
    match dragging {
        Some(d) => match kind {
            FileKind::Directory => hovered && !contains_path(d, path),
            _ => false,
        },
        None => false,
    }
}

/// What a double click on a row asks for: to go into a directory, to open anything else.
pub fn open_row(kind: FileKind, path: &FsPath) -> (r: FileListAction)
    ensures
        match r {
            FileListAction::Navigate(p) => kind == FileKind::Directory && p@ == path@,
            FileListAction::OpenFile(p) => kind != FileKind::Directory && p@ == path@,
            _ => false,
        },
{
    match kind {
        FileKind::Directory => FileListAction::Navigate(path.clone()),
        _ => FileListAction::OpenFile(path.clone()),
    }
}

/// What a double click on a search result asks for: to go into a directory, and to go to the
/// directory of anything else and select it there.
pub fn open_result(is_dir: bool, path: &FsPath) -> (r: FileListAction)
    ensures
        match r {
            FileListAction::Navigate(p) => is_dir && p@ == path@,
            FileListAction::NavigateAndSelect(dir, file) => !is_dir && file@ == path@ && dir@
                == match path::parent_of(path@) {
                Some(q) => q,
                None => path@,
            },
            _ => false,
        },
{
    if is_dir {
        FileListAction::Navigate(path.clone())
    } else {
        let dir = match path.parent() {
            Some(q) => q,
            None => path.clone(),
        };
        FileListAction::NavigateAndSelect(dir, path.clone())
    }
}

/// The heading of the files found with a tag.
pub fn tag_results_heading(tag: &str, count: usize) -> (r: String)
    ensures
        r@ == "  🏷  "@ + tag@ + " — "@ + text::decimal(count as nat) + " file"@ + if count == 1 {
            Seq::<char>::empty()
        } else {
            "s"@
        },
{
    let mut out = "  🏷  ".to_owned();
    out.push_str(tag);
    out.push_str(" — ");
    push_decimal(&mut out, count as u64);
    out.push_str(" file");
    if count != 1 {
        out.push_str("s");
    }
    assert(out@ =~= "  🏷  "@ + tag@ + " — "@ + text::decimal(count as nat) + " file"@ + if count
        == 1 {
        Seq::<char>::empty()
    } else {
        "s"@
    });
    out
}

/// What stands behind the last dot of a name, and the whole name where there is none.
pub open spec fn extension(name: Seq<char>) -> Seq<char>
    decreases name.len(),
{
    if name.len() == 0 {
        name
    } else if name.last() == '.' {
        Seq::empty()
    } else {
        extension(name.drop_last()).push(name.last())
    }
}

/// The icon of a file with an extension.
pub open spec fn icon_for(ext: Seq<char>) -> Seq<char> {
    if ext == "png"@ || ext == "jpg"@ || ext == "jpeg"@ || ext == "gif"@ || ext == "webp"@ || ext
        == "svg"@ || ext == "ico"@ {
        "🖼"@
    } else if ext == "mp4"@ || ext == "mov"@ || ext == "avi"@ || ext == "mkv"@ {
        "🎬"@
    } else if ext == "mp3"@ || ext == "wav"@ || ext == "flac"@ || ext == "aac"@ {
        "🎵"@
    } else if ext == "pdf"@ {
        "📕"@
    } else if ext == "zip"@ || ext == "tar"@ || ext == "gz"@ || ext == "bz2"@ || ext == "xz"@ || ext
        == "7z"@ {
        "🗜"@
    } else if ext == "md"@ || ext == "txt"@ || ext == "log"@ {
        "📝"@
    } else {
        "📄"@
    }
}

/// Whether a text is one of the given ones.
fn is_text(s: &String, other: &str) -> (r: bool)
    ensures
        r == (s@ == other@),
{
    *s == other.to_owned()
}

/// The icon of a file with an extension in lower case.
pub fn icon_of(ext: &String) -> (r: &'static str)
    ensures
        r@ == icon_for(ext@),
{
    if is_text(ext, "png") || is_text(ext, "jpg") || is_text(ext, "jpeg") || is_text(ext, "gif")
        || is_text(ext, "webp") || is_text(ext, "svg") || is_text(ext, "ico") {
        "🖼"
    } else if is_text(ext, "mp4") || is_text(ext, "mov") || is_text(ext, "avi") || is_text(
        ext,
        "mkv",
    ) {
        "🎬"
    } else if is_text(ext, "mp3") || is_text(ext, "wav") || is_text(ext, "flac") || is_text(
        ext,
        "aac",
    ) {
        "🎵"
    } else if is_text(ext, "pdf") {
        "📕"
    } else if is_text(ext, "zip") || is_text(ext, "tar") || is_text(ext, "gz") || is_text(
        ext,
        "bz2",
    ) || is_text(ext, "xz") || is_text(ext, "7z") {
        "🗜"
    } else if is_text(ext, "md") || is_text(ext, "txt") || is_text(ext, "log") {
        "📝"
    } else {
        "📄"
    }
}

/// What stands behind the last dot of a name, and the whole name where there is none.
pub fn name_extension(name: &str) -> (r: String)
    ensures
        r@ == extension(name@),
{
    let s = chars_of(name);
    let n = s.len();
    let mut i: usize = n;
    let ghost full = s@;
    assert(full.take(n as int) =~= full);
    assert(extension(full.take(i as int)) + full.skip(i as int) =~= extension(full));
    while i > 0 && s[i - 1] != '.'
        invariant
            i <= n == full.len(),
            full == s@,
            extension(full) == extension(full.take(i as int)) + full.skip(i as int),
        decreases i,
    {
        proof {
            assert(full.take(i as int).drop_last() =~= full.take(i - 1));
            assert(full.take(i as int).last() == full[i - 1]);
            assert(extension(full.take(i - 1)) + full.skip(i - 1) =~= extension(
                full.take(i - 1),
            ).push(full[i - 1]) + full.skip(i as int));
        }
        i = i - 1;
    }
    let tail = chars_copy(&s, i, n);
    proof {
        assert(tail@ =~= full.skip(i as int));
        if i > 0 {
            assert(full.take(i as int).last() == '.');
        } else {
            assert(full.take(0) =~= Seq::empty());
        }
        assert(extension(full.take(i as int)) =~= Seq::empty());
        assert(tail@ =~= extension(full));
    }
    string_of(tail.as_slice())
}

/// The icon of a file.
pub fn file_icon(name: &str) -> (r: &'static str)
    ensures
        r@ == icon_for(text::lowercase(extension(name@))),
{
    let ext = name_extension(name);
    let lower = ext.as_str().to_lowercase();
    icon_of(&lower)
}

/// The icon of a row.
pub fn row_icon(kind: FileKind, name: &str) -> (r: &'static str)
    ensures
        r@ == match kind {
            FileKind::Directory => "📁"@,
            FileKind::Symlink => "🔗"@,
            FileKind::File => icon_for(text::lowercase(extension(name@))),
        },
{
    match kind {
        FileKind::Directory => "📁",
        FileKind::Symlink => "🔗",
        FileKind::File => file_icon(name),
    }
}

/// The text of a row in the column of the names: what was cut says so.
pub fn row_text(icon: &str, name: &str, cut: bool) -> (r: String)
    ensures
        r@ == "  "@ + icon@ + "  "@ + name@ + if cut {
            " (cut)"@
        } else {
            Seq::<char>::empty()
        },
{
    let mut out = "  ".to_owned();
    out.push_str(icon);
    out.push_str("  ");
    out.push_str(name);
    if cut {
        out.push_str(" (cut)");
    }
    assert(out@ =~= "  "@ + icon@ + "  "@ + name@ + if cut {
        " (cut)"@
    } else {
        Seq::<char>::empty()
    });
    out
}

/// The text of a tag in the menu of a row, with a mark where the file has the tag.
pub fn tag_menu_text(name: &str, has_tag: bool) -> (r: String)
    ensures
        r@ == (if has_tag {
            "✓  "@
        } else {
            "    "@
        }) + name@,
{
    let mut out = if has_tag {
        "✓  ".to_owned()
    } else {
        "    ".to_owned()
    };
    out.push_str(name);
    out
}

impl FileListState {
    /// The text of a column's header, with the direction where the list is sorted by it.
    pub fn header_text(&self, label: &str, col: SortColumn) -> (r: String)
        ensures
            r@ == label@ + if self.sort_col != col {
                Seq::<char>::empty()
            } else if self.sort_order == SortOrder::Ascending {
                " ▲"@
            } else {
                " ▼"@
            },
    {
        let mut out = label.to_owned();
        if self.sort_col == col {
            if self.sort_order == SortOrder::Ascending {
                out.push_str(" ▲");
            } else {
                out.push_str(" ▼");
            }
        }
        assert(out@ =~= label@ + if self.sort_col != col {
            Seq::<char>::empty()
        } else if self.sort_order == SortOrder::Ascending {
            " ▲"@
        } else {
            " ▼"@
        });
        out
    }
}

/// A click selects what it hits and nothing else, and with the command key it takes what it hits into
/// the selection or out of it and leaves the rest in its order. Either way a range starts there next.
pub proof fn click_selects_what_it_hits(sel: Selection, visible: Seq<Seq<u8>>, p: Seq<u8>, k: int)
    ensures
        clicked(sel, visible, p, false, false).selected == seq![p],
        clicked(sel, visible, p, false, false).anchor == Some(p),
        clicked(sel, visible, p, true, false).anchor == Some(p),
        (forall|i: int|
            0 <= i < sel.selected.len() ==> !path::same_path(#[trigger] sel.selected[i], p))
            ==> clicked(sel, visible, p, true, false).selected == sel.selected.push(p),
        0 <= k < sel.selected.len() && path::distinct_paths(sel.selected) && path::same_path(
            sel.selected[k],
            p,
        ) ==> clicked(sel, visible, p, true, false).selected == sel.selected.remove(k),
{
    path_list::lemma_place_of(sel.selected, p, 0);
    let at = path_list::place_of(sel.selected, p, 0);
    if 0 <= k < sel.selected.len() && path::distinct_paths(sel.selected) && path::same_path(
        sel.selected[k],
        p,
    ) {
        if at < k {
            assert(!path::same_path(sel.selected[at], sel.selected[k]));
        }
        if k < at {
            assert(!path::same_path(sel.selected[k], p));
        }
        assert(at == k);
    }
}

/// A click with the shift key selects everything that is visible from where the range starts to what
/// it hits, in either direction, and nothing that is visible elsewhere unless it is added to the
/// selection. The start of the range stays.
pub proof fn shift_click_selects_the_range(
    sel: Selection,
    visible: Seq<Seq<u8>>,
    from: int,
    to: int,
    i: int,
    additive: bool,
)
    requires
        path::distinct_paths(visible),
        path::distinct_paths(sel.selected),
        0 <= from < visible.len(),
        0 <= to < visible.len(),
        0 <= i < visible.len(),
        sel.anchor == Some(visible[from]),
    ensures
        ({
            let after = clicked(sel, visible, visible[to], additive, true);
            &&& after.anchor == sel.anchor
            &&& (from <= i <= to || to <= i <= from) ==> path::has_path(after.selected, visible[i])
            &&& !additive && !(from <= i <= to || to <= i <= from) ==> !path::has_path(
                after.selected,
                visible[i],
            )
            &&& additive && path::has_path(sel.selected, visible[i]) ==> path::has_path(
                after.selected,
                visible[i],
            )
            &&& after.selected.len() > 0 && path::same_path(after.selected.last(), visible[to])
        }),
{
    let anchor = visible[from];
    let target = visible[to];
    lemma_visible_place(visible, from);
    lemma_visible_place(visible, to);
    let base = if additive {
        sel.selected
    } else {
        Seq::empty()
    };
    let range = if from <= to {
        visible.subrange(from, to + 1)
    } else {
        visible.subrange(to, from + 1)
    };
    let all = path_list::all_pushed(base, range);
    path_list::all_pushed_paths_are_in_once(base, range);
    path_list::pushed_paths_stand_behind(base, range);
    range_is_complete(sel, visible, anchor, target, additive, to);
    if from <= i <= to || to <= i <= from {
        range_is_complete(sel, visible, anchor, target, additive, i);
    }
    let at = path_list::place_of(all, target, 0);
    path_list::lemma_place_of(all, target, 0);
    let after = clicked(sel, visible, target, additive, true);
    assert(after.selected == moved_to_end(all, at));
    lemma_moved_holds(all, at, visible[i]);
    if !additive && !(from <= i <= to || to <= i <= from) {
        if path::has_path(all, visible[i]) {
            let q = choose|q: int| 0 <= q < all.len() && path::same_path(#[trigger] all[q], visible[i]);
            assert(range.contains(all[q]));
            let r = range.index_of(all[q]);
            let j = if from <= to {
                from + r
            } else {
                to + r
            };
            assert(visible[j] == range[r]);
            if i < j {
                assert(!path::same_path(visible[i], visible[j]));
            } else {
                assert(!path::same_path(visible[j], visible[i]));
            }
        }
    }
}

proof fn lemma_visible_place(visible: Seq<Seq<u8>>, i: int)
    requires
        path::distinct_paths(visible),
        0 <= i < visible.len(),
    ensures
        path_list::place_of(visible, visible[i], 0) == i,
{
    path_list::lemma_place_of(visible, visible[i], 0);
    let at = path_list::place_of(visible, visible[i], 0);
    assert(path::same_path(visible[i], visible[i]));
    if at < i {
        assert(!path::same_path(visible[at], visible[i]));
    }
}

/// Moving a path to the end of a list keeps what the list holds.
proof fn lemma_moved_holds(list: Seq<Seq<u8>>, k: int, p: Seq<u8>)
    ensures
        path::has_path(moved_to_end(list, k), p) <==> path::has_path(list, p),
{
    let t = moved_to_end(list, k);
    if 0 <= k < list.len() {
        if path::has_path(list, p) {
            let i = choose|i: int| 0 <= i < list.len() && path::same_path(#[trigger] list[i], p);
            if i < k {
                assert(t[i] == list[i]);
            } else if i == k {
                assert(t[t.len() - 1] == list[i]);
            } else {
                assert(t[i - 1] == list[i]);
            }
        }
        if path::has_path(t, p) {
            let i = choose|i: int| 0 <= i < t.len() && path::same_path(#[trigger] t[i], p);
            if i < k {
                assert(list[i] == t[i]);
            } else if i == t.len() - 1 {
                assert(list[k] == t[i]);
            } else {
                assert(list[i + 1] == t[i]);
            }
        }
    }
}

/// An arrow key selects what is so many rows further on from what is selected, and stops at the first
/// and the last row. With nothing selected, going down starts at the first row and going up at the
/// last.
pub proof fn arrow_goes_so_many_rows_on(sel: Selection, visible: Seq<Seq<u8>>, at: int, delta: int)
    requires
        path::distinct_paths(visible),
        0 <= at < visible.len(),
    ensures
        sel.selected.len() > 0 && path::same_path(sel.selected.last(), visible[at]) ==> ({
            let after = arrow_moved(sel, visible, delta, false);
            &&& after.selected.len() == 1 && after.anchor == Some(after.selected[0])
            &&& 0 <= at + delta < visible.len() ==> after.selected[0] == visible[at + delta]
            &&& at + delta < 0 ==> after.selected[0] == visible[0]
            &&& at + delta >= visible.len() ==> after.selected[0] == visible.last()
        }),
        sel.selected.len() == 0 && delta >= 0 ==> arrow_moved(sel, visible, delta, false).selected
            == seq![visible[0]],
        sel.selected.len() == 0 && delta < 0 ==> arrow_moved(sel, visible, delta, false).selected
            == seq![visible.last()],
        arrow_moved(sel, Seq::empty(), delta, false).selected.len() == 0,
{
    if sel.selected.len() > 0 && path::same_path(sel.selected.last(), visible[at]) {
        lemma_visible_place(visible, at);
        lemma_place_of_same(visible, sel.selected.last(), visible[at], 0);
    }
}

proof fn lemma_place_of_same(list: Seq<Seq<u8>>, p: Seq<u8>, q: Seq<u8>, i: int)
    requires
        path::same_path(p, q),
    ensures
        path_list::place_of(list, p, i) == path_list::place_of(list, q, i),
    decreases list.len() - i,
{
    if 0 <= i < list.len() {
        lemma_place_of_same(list, p, q, i + 1);
    }
}

/// An arrow key with the shift key selects from where the range starts to what is so many rows
/// further on.
pub proof fn arrow_extends_the_range(
    sel: Selection,
    visible: Seq<Seq<u8>>,
    from: int,
    at: int,
    delta: int,
    i: int,
)
    requires
        path::distinct_paths(visible),
        path::distinct_paths(sel.selected),
        0 <= from < visible.len(),
        0 <= at < visible.len(),
        0 <= at + delta < visible.len(),
        0 <= i < visible.len(),
        sel.anchor == Some(visible[from]),
        sel.selected.len() > 0,
        path::same_path(sel.selected.last(), visible[at]),
    ensures
        ({
            let after = arrow_moved(sel, visible, delta, true);
            &&& after.anchor == sel.anchor
            &&& path::has_path(after.selected, visible[i]) <==> (from <= i <= at + delta || at + delta
                <= i <= from)
        }),
{
    lemma_visible_place(visible, at);
    lemma_place_of_same(visible, sel.selected.last(), visible[at], 0);
    shift_click_selects_the_range(sel, visible, from, at + delta, i, false);
    let next = visible[at + delta];
    assert(primary_place(sel, visible) == Some(at));
    assert(arrow_moved(sel, visible, delta, true).selected == clicked(
        sel,
        visible,
        next,
        false,
        true,
    ).selected);
}

/// The steps of the breadcrumbs lead from the start of a path to the path itself, by one component
/// each; each shows the name of its component, and the first a slash.
pub proof fn breadcrumbs_lead_to_the_path(crumbs: Seq<Breadcrumb>, p: Seq<u8>, i: int)
    requires
        leads_to(crumbs, p),
        0 <= i < crumbs.len(),
    ensures
        crumbs.len() == path::components(p).len(),
        path::components(crumbs[i].path@) == path::components(p).take(i + 1),
        i > 0 ==> crumbs[i].label@ == display_text::shown(path::components(p)[i]),
        i == 0 ==> crumbs[i].label@ == "  /"@,
        path::same_path(crumbs.last().path@, p),
{
    let c = path::components(p);
    lemma_accumulated(p, i + 1);
    lemma_accumulated(p, c.len() as int);
    assert(c.take(c.len() as int) =~= c);
}

proof fn lemma_accumulated(p: Seq<u8>, n: int)
    requires
        0 <= n <= path::components(p).len(),
    ensures
        path::components(accumulated(path::components(p), n)) == path::components(p).take(n),
    decreases n,
{
    let c = path::components(p);
    if n == 0 {
        assert(path::components(Seq::<u8>::empty()) =~= c.take(0));
    } else {
        lemma_accumulated(p, n - 1);
        path::component_is_a_name(p, n - 1);
        let base = accumulated(c, n - 1);
        if c[n - 1] == path::root_component() {
            assert(n == 1);
            path::root_has_no_name();
            path::rooted_path_replaces_the_base(base, c[0]);
            assert(c.take(1) =~= seq![path::root_component()]);
        } else {
            if n == 1 {
                assert(base.len() == 0);
            }
            path::joined_name_is_the_last_component(base, c[n - 1]);
            assert(c.take(n) =~= c.take(n - 1).push(c[n - 1]));
        }
    }
}

/// The rows that are shown are those of the entries that have the tag, in their order, and of all
/// entries without a filter.
pub proof fn filtered_rows_have_the_tag(entries: Seq<EntryView>, filter: Option<Seq<char>>, k: int)
    requires
        entries.len() <= usize::MAX,
    ensures
        forall|a: int, b: int|
            0 <= a < b < shown_places(entries, filter).len() ==> (#[trigger] shown_places(
                entries,
                filter,
            )[a]) < (#[trigger] shown_places(entries, filter)[b]),
        forall|a: int|
            0 <= a < shown_places(entries, filter).len() ==> 0 <= (#[trigger] shown_places(
                entries,
                filter,
            )[a]) < entries.len(),
        0 <= k < entries.len() ==> (shown_places(entries, filter).contains(k as usize) <==> (filter
            is None || exists|i: int|
            0 <= i < entries[k].tags.len() && (#[trigger] entries[k].tags[i]).0 == filter->0)),
    decreases entries.len(),
{
    if entries.len() > 0 {
        let front = entries.drop_last();
        let n = entries.len() - 1;
        filtered_rows_have_the_tag(front, filter, k);
        let rest = shown_places(front, filter);
        let all = shown_places(entries, filter);
        assert(forall|a: int| 0 <= a < rest.len() ==> all[a] == rest[a]);
        if 0 <= k < n {
            assert(front[k] == entries[k]);
            if rest.contains(k as usize) {
                let a = rest.index_of(k as usize);
                assert(all[a] == k);
            }
            if all.contains(k as usize) {
                let a = all.index_of(k as usize);
                assert(a < rest.len());
                assert(rest[a] == k);
            }
        } else if k == n {
            if passes_filter(entries[k], filter) {
                assert(all[rest.len() as int] == k);
            }
            if all.contains(k as usize) {
                let a = all.index_of(k as usize);
                if a < rest.len() {
                    assert(rest[a] < n);
                }
            }
        }
    }
}

/// Toggling a tag takes away only tags of its name, and adds one of its name and colour at the end.
pub proof fn toggling_touches_only_the_tag(tags: Seq<TagView>, name: Seq<char>, color: u8, t: TagView)
    ensures
        t.0 != name ==> (toggled(tags, name, color).contains(t) <==> tags.contains(t)),
        (forall|i: int| 0 <= i < tags.len() ==> (#[trigger] tags[i]).0 != name) ==> toggled(
            tags,
            name,
            color,
        ) == tags + seq![(name, TagColor::of_number(color))],
        (exists|i: int| 0 <= i < tags.len() && (#[trigger] tags[i]).0 == name) ==> forall|i: int|
            0 <= i < toggled(tags, name, color).len() ==> (#[trigger] toggled(
                tags,
                name,
                color,
            )[i]).0 != name,
{
    let u = toggled(tags, name, color);
    toggled_tag_changes_sides(tags, name, color);
    if has_tag(tags, name) {
        let f = named_otherwise(name);
        if t.0 != name {
            if tags.contains(t) {
                let i = tags.index_of(t);
                tags.lemma_filter_contains(f, i);
            }
            if u.contains(t) {
                let i = u.index_of(t);
                tags.lemma_filter_contains_rev(f, t);
            }
        }
    } else {
        assert(u =~= tags + seq![(name, TagColor::of_number(color))]);
        if t.0 != name {
            if tags.contains(t) {
                let i = tags.index_of(t);
                assert(u[i] == t);
            }
            if u.contains(t) {
                let i = u.index_of(t);
                assert(tags[i] == t);
            }
        }
    }
}

/// The extension of a name is what stands behind its last dot, and the whole name where it has none.
pub proof fn extension_stands_behind_the_last_dot(front: Seq<char>, ext: Seq<char>)
    requires
        !ext.contains('.'),
    ensures
        extension(front + seq!['.'] + ext) == ext,
        extension(ext) == ext,
    decreases ext.len(),
{
    let s = front + seq!['.'] + ext;
    if ext.len() == 0 {
        assert(s.last() == '.');
        assert(extension(s) =~= ext);
    } else {
        let rest = ext.drop_last();
        assert(!rest.contains('.')) by {
            if rest.contains('.') {
                let i = rest.index_of('.');
                assert(ext[i] == '.');
            }
        }
        extension_stands_behind_the_last_dot(front, rest);
        assert(ext.contains(ext.last()));
        assert(s.last() == ext.last());
        assert(s.drop_last() =~= front + seq!['.'] + rest);
        assert(rest.push(ext.last()) =~= ext);
    }
}

/// What a new item is called at first depends on what it is.
pub proof fn new_items_are_untitled(kind: CreateKind)
    ensures
        kind == CreateKind::File ==> offered_name(kind) == "untitled"@,
        kind == CreateKind::Directory ==> offered_name(kind) == "untitled folder"@,
{
}

/// The picture of a file is that of its kind: pictures, films, sounds, documents, archives and texts
/// have their own, and any other file the plain one.
pub proof fn icons_are_by_extension(ext: Seq<char>)
    ensures
        ext == "png"@ || ext == "jpg"@ || ext == "jpeg"@ || ext == "gif"@ || ext == "webp"@ || ext
            == "svg"@ || ext == "ico"@ ==> icon_for(ext) == "🖼"@,
        !(ext == "png"@ || ext == "jpg"@ || ext == "jpeg"@ || ext == "gif"@ || ext == "webp"@ || ext
            == "svg"@ || ext == "ico"@ || ext == "mp4"@ || ext == "mov"@ || ext == "avi"@ || ext
            == "mkv"@ || ext == "mp3"@ || ext == "wav"@ || ext == "flac"@ || ext == "aac"@ || ext
            == "pdf"@ || ext == "zip"@ || ext == "tar"@ || ext == "gz"@ || ext == "bz2"@ || ext
            == "xz"@ || ext == "7z"@ || ext == "md"@ || ext == "txt"@ || ext == "log"@) ==> icon_for(
            ext,
        ) == "📄"@,
        icon_for("mp4"@) == "🎬"@ && icon_for("mov"@) == "🎬"@ && icon_for("avi"@) == "🎬"@
            && icon_for("mkv"@) == "🎬"@,
        icon_for("mp3"@) == "🎵"@ && icon_for("wav"@) == "🎵"@ && icon_for("flac"@) == "🎵"@
            && icon_for("aac"@) == "🎵"@,
        icon_for("pdf"@) == "📕"@,
        icon_for("zip"@) == "🗜"@ && icon_for("tar"@) == "🗜"@ && icon_for("gz"@) == "🗜"@
            && icon_for("bz2"@) == "🗜"@ && icon_for("xz"@) == "🗜"@ && icon_for("7z"@) == "🗜"@,
        icon_for("md"@) == "📝"@ && icon_for("txt"@) == "📝"@ && icon_for("log"@) == "📝"@,
{
    lemma_extensions_differ();
}

proof fn lemma_extensions_differ()
    ensures
        icon_for("mp4"@) == "🎬"@ && icon_for("mov"@) == "🎬"@ && icon_for("avi"@) == "🎬"@
            && icon_for("mkv"@) == "🎬"@,
        icon_for("mp3"@) == "🎵"@ && icon_for("wav"@) == "🎵"@ && icon_for("flac"@) == "🎵"@
            && icon_for("aac"@) == "🎵"@,
        icon_for("pdf"@) == "📕"@,
        icon_for("zip"@) == "🗜"@ && icon_for("tar"@) == "🗜"@ && icon_for("gz"@) == "🗜"@
            && icon_for("bz2"@) == "🗜"@ && icon_for("xz"@) == "🗜"@ && icon_for("7z"@) == "🗜"@,
        icon_for("md"@) == "📝"@ && icon_for("txt"@) == "📝"@ && icon_for("log"@) == "📝"@,
{
    reveal_strlit("png");
    reveal_strlit("jpg");
    reveal_strlit("jpeg");
    reveal_strlit("gif");
    reveal_strlit("webp");
    reveal_strlit("svg");
    reveal_strlit("ico");
    reveal_strlit("mp4");
    reveal_strlit("mov");
    reveal_strlit("avi");
    reveal_strlit("mkv");
    reveal_strlit("mp3");
    reveal_strlit("wav");
    reveal_strlit("flac");
    reveal_strlit("aac");
    reveal_strlit("pdf");
    reveal_strlit("zip");
    reveal_strlit("tar");
    reveal_strlit("gz");
    reveal_strlit("bz2");
    reveal_strlit("xz");
    reveal_strlit("7z");
    reveal_strlit("md");
    reveal_strlit("txt");
    reveal_strlit("log");
    assert("png"@[1] == 'n' && "jpg"@[0] == 'j' && "jpeg"@[0] == 'j' && "gif"@[1] == 'i'
        && "webp"@.len() == 4 && "svg"@[1] == 'v' && "ico"@[0] == 'i');
    assert("mp4"@[2] == '4' && "mov"@[1] == 'o' && "avi"@[1] == 'v' && "mkv"@[1] == 'k');
    assert("mp3"@[2] == '3' && "wav"@[0] == 'w' && "flac"@[0] == 'f' && "aac"@[1] == 'a');
    assert("pdf"@[1] == 'd' && "zip"@[0] == 'z' && "tar"@[0] == 't' && "gz"@.len() == 2
        && "bz2"@[0] == 'b' && "xz"@[0] == 'x' && "7z"@[0] == '7');
    assert("md"@[0] == 'm' && "txt"@[1] == 'x' && "log"@[0] == 'l');
    assert("gif"@[0] == 'g' && "svg"@[0] == 's' && "webp"@[0] == 'w' && "png"@[0] == 'p');
    assert("mp4"@[0] == 'm' && "mov"@[0] == 'm' && "avi"@[0] == 'a' && "mkv"@[0] == 'm');
    assert("mp4"@[1] == 'p' && "mp3"@[1] == 'p' && "mp3"@[0] == 'm' && "aac"@[0] == 'a');
    assert("pdf"@[0] == 'p' && "gz"@[0] == 'g' && "txt"@[0] == 't' && "tar"@[1] == 'a');
}

/// What selecting leaves alone is all else in the list.
pub proof fn the_rest_of_the_list_is_kept(a: FileListState, b: FileListState)
    ensures
        a.same_besides_selection(&b) <==> (a.sort_col == b.sort_col && a.sort_order == b.sort_order
            && a.creating == b.creating && a.renaming == b.renaming),
{
}

} // verus!
