//! What the actions of a file list do: what is asked of the tab and of the system, and what is
//! made of the replies.

use vstd::prelude::*;

use crate::browser::file_drag;
use crate::browser::file_drag::InternalFileDrop;
use crate::browser::tab;
use crate::browser::tab::{TabState, TabView};
use crate::model::bookmarks;
use crate::model::bookmarks::{BookmarkView, Bookmarks};
use crate::model::display_text;
use crate::model::tags;
use crate::model::tags::{Tag, TagView};
use crate::path;
use crate::path::FsPath;
use crate::path_list;
use crate::path_list::push_unique;
use crate::text;
use crate::text::{concat2, concat3, join_texts, push_text};
use crate::ui::file_list;
use crate::ui::file_list::{CreateKind, FileListAction};

verus! {

/// A piece of work that is asked of the system.
#[derive(Debug)]
pub enum FileWork {
    OpenFile(FsPath),
    CopyPath(FsPath),
    RevealInFinder(FsPath),
    OpenInTerminal(FsPath),
    Share(FsPath),
    GetInfo(FsPath),
    Trash(FsPath),
    SetTags(FsPath, Vec<Tag>),
}

/// A piece of work by its views.
pub enum WorkView {
    OpenFile(Seq<u8>),
    CopyPath(Seq<u8>),
    RevealInFinder(Seq<u8>),
    OpenInTerminal(Seq<u8>),
    Share(Seq<u8>),
    GetInfo(Seq<u8>),
    Trash(Seq<u8>),
    SetTags(Seq<u8>, Seq<TagView>),
}

impl View for FileWork {
    type V = WorkView;

    open spec fn view(&self) -> WorkView {
        match *self {
            FileWork::OpenFile(p) => WorkView::OpenFile(p@),
            FileWork::CopyPath(p) => WorkView::CopyPath(p@),
            FileWork::RevealInFinder(p) => WorkView::RevealInFinder(p@),
            FileWork::OpenInTerminal(p) => WorkView::OpenInTerminal(p@),
            FileWork::Share(p) => WorkView::Share(p@),
            FileWork::GetInfo(p) => WorkView::GetInfo(p@),
            FileWork::Trash(p) => WorkView::Trash(p@),
            FileWork::SetTags(p, t) => WorkView::SetTags(p@, tags::tag_views(t@)),
        }
    }
}

/// Work by its views.
pub open spec fn work_views(work: Seq<FileWork>) -> Seq<WorkView> {
    work.map_values(|w: FileWork| w@)
}

/// What actions ask of the tab, and the work that they ask of the system.
#[derive(Debug)]
pub struct FileActionOutcome {
    pub navigate_to: Option<FsPath>,
    pub select_after_nav: Option<FsPath>,
    pub quicklook_path: Option<FsPath>,
    pub clear_tag_filter: bool,
    pub drag_started: Option<Vec<FsPath>>,
    pub internal_drop: Option<InternalFileDrop>,
    pub work: Vec<FileWork>,
    /// Whether the bookmarks have to be saved.
    pub bookmarks_changed: bool,
}

/// What actions ask for, by its parts, with the bookmarks.
#[verifier::ext_equal]
pub struct OutcomeView {
    pub navigate_to: Option<Seq<u8>>,
    pub select_after_nav: Option<Seq<u8>>,
    pub quicklook_path: Option<Seq<u8>>,
    pub clear_tag_filter: bool,
    pub drag_started: Option<Seq<Seq<u8>>>,
    pub internal_drop: Option<(Seq<Seq<u8>>, Seq<u8>)>,
    pub work: Seq<WorkView>,
    pub bookmarks_changed: bool,
    pub bookmarks: Seq<BookmarkView>,
}

/// An outcome and the bookmarks by their parts.
pub open spec fn outcome_view(o: FileActionOutcome, b: Bookmarks) -> OutcomeView {
    OutcomeView {
        navigate_to: file_list::optional_path(o.navigate_to),
        select_after_nav: file_list::optional_path(o.select_after_nav),
        quicklook_path: file_list::optional_path(o.quicklook_path),
        clear_tag_filter: o.clear_tag_filter,
        drag_started: tab::optional_paths(o.drag_started),
        internal_drop: file_drag::drop_view(o.internal_drop),
        work: work_views(o.work@),
        bookmarks_changed: o.bookmarks_changed,
        bookmarks: b@,
    }
}

/// The outcome before any action.
pub open spec fn no_outcome(b: Seq<BookmarkView>) -> OutcomeView {
    OutcomeView {
        navigate_to: None,
        select_after_nav: None,
        quicklook_path: None,
        clear_tag_filter: false,
        drag_started: None,
        internal_drop: None,
        work: Seq::empty(),
        bookmarks_changed: false,
        bookmarks: b,
    }
}

/// Trashing each of some paths.
pub open spec fn trash_each(paths: Seq<Seq<u8>>) -> Seq<WorkView> {
    paths.map_values(|p: Seq<u8>| WorkView::Trash(p))
}

/// What an action adds to the outcome. Of several places to go to the last one counts, of several
/// drops the first one.
pub open spec fn outcome_after(o: OutcomeView, a: FileListAction) -> OutcomeView {
    match a {
        FileListAction::Navigate(p) => OutcomeView { navigate_to: Some(p@), ..o },
        FileListAction::NavigateAndSelect(dir, file) => OutcomeView {
            navigate_to: Some(dir@),
            select_after_nav: Some(file@),
            ..o
        },
        FileListAction::ClearTagFilter => OutcomeView { clear_tag_filter: true, ..o },
        FileListAction::OpenFile(p) => OutcomeView {
            work: o.work.push(WorkView::OpenFile(p@)),
            ..o
        },
        FileListAction::CopyPath(p) => OutcomeView {
            work: o.work.push(WorkView::CopyPath(p@)),
            ..o
        },
        FileListAction::AddBookmark(p) => if bookmarks::is_bookmarked(o.bookmarks, p@) {
            o
        } else {
            OutcomeView {
                bookmarks: o.bookmarks.push((bookmarks::bookmark_name(p@), p@)),
                bookmarks_changed: true,
                ..o
            }
        },
        FileListAction::RevealInFinder(p) => OutcomeView {
            work: o.work.push(WorkView::RevealInFinder(p@)),
            ..o
        },
        FileListAction::OpenInTerminal(p) => OutcomeView {
            work: o.work.push(WorkView::OpenInTerminal(p@)),
            ..o
        },
        FileListAction::DragStarted(paths) => OutcomeView {
            drag_started: Some(path::path_views(paths@)),
            ..o
        },
        FileListAction::QuickLook(p) => OutcomeView { quicklook_path: Some(p@), ..o },
        FileListAction::Share(p) => OutcomeView { work: o.work.push(WorkView::Share(p@)), ..o },
        FileListAction::GetInfo(p) => OutcomeView {
            work: o.work.push(WorkView::GetInfo(p@)),
            ..o
        },
        FileListAction::DeleteFiles(paths) => OutcomeView {
            work: o.work + trash_each(path::path_views(paths@)),
            ..o
        },
        FileListAction::MoveItems(paths, to) => if o.internal_drop is Some {
            o
        } else {
            OutcomeView { internal_drop: Some((path::path_views(paths@), to@)), ..o }
        },
        FileListAction::SetTags(p, t) => OutcomeView {
            work: o.work.push(WorkView::SetTags(p@, tags::tag_views(t@))),
            ..o
        },
        _ => o,
    }
}

/// What all actions ask for.
pub open spec fn outcome_of_all(o: OutcomeView, actions: Seq<FileListAction>) -> OutcomeView
    decreases actions.len(),
{
    if actions.len() == 0 {
        o
    } else {
        outcome_after(outcome_of_all(o, actions.drop_last()), actions.last())
    }
}

/// Adds a piece of work.
fn push_work(list: &mut Vec<FileWork>, w: FileWork)
    ensures
        work_views(final(list)@) == work_views(old(list)@).push(w@),
{
    let ghost before = work_views(list@);
    let ghost v = w@;
    list.push(w);
    assert(work_views(list@) =~= before.push(v));
}

/// Adds the trashing of each of some paths.
pub fn push_trash(list: &mut Vec<FileWork>, paths: &Vec<FsPath>)
    ensures
        work_views(final(list)@) == work_views(old(list)@) + trash_each(
            path::path_views(paths@),
        ),
{
    let ghost start = work_views(list@);
    let ghost all = trash_each(path::path_views(paths@));
    let mut i: usize = 0;
    assert(start + all.take(0) =~= start);
    while i < paths.len()
        invariant
            i <= paths@.len(),
            all == trash_each(path::path_views(paths@)),
            work_views(list@) == start + all.take(i as int),
        decreases paths@.len() - i,
    {
        assert(all[i as int] == WorkView::Trash(paths@[i as int]@));
        push_work(list, FileWork::Trash(paths[i].clone()));
        assert((start + all.take(i as int)).push(all[i as int]) =~= start + all.take(i + 1));
        i += 1;
    }
    assert(all.take(i as int) =~= all);
}

impl FileActionOutcome {
    /// The outcome before any action.
    fn nothing() -> (r: FileActionOutcome)
        ensures
            forall|b: Bookmarks| #[trigger] outcome_view(r, b) == no_outcome(b@),
    {
        let r = FileActionOutcome {
            navigate_to: None,
            select_after_nav: None,
            quicklook_path: None,
            clear_tag_filter: false,
            drag_started: None,
            internal_drop: None,
            work: Vec::new(),
            bookmarks_changed: false,
        };
        assert(work_views(r.work@) =~= Seq::empty());
        r
    }

    /// Takes in an action.
    pub fn add_action(&mut self, action: FileListAction, bookmarks: &mut Bookmarks)
        ensures
            outcome_view(*final(self), *final(bookmarks)) == outcome_after(
                outcome_view(*old(self), *old(bookmarks)),
                action,
            ),
    {
        match action {
            FileListAction::Navigate(p) => {
                self.navigate_to = Some(p);
            },
            FileListAction::NavigateAndSelect(dir, file) => {
                self.navigate_to = Some(dir);
                self.select_after_nav = Some(file);
            },
            FileListAction::ClearTagFilter => {
                self.clear_tag_filter = true;
            },
            FileListAction::OpenFile(p) => push_work(&mut self.work, FileWork::OpenFile(p)),
            FileListAction::CopyPath(p) => push_work(&mut self.work, FileWork::CopyPath(p)),
            FileListAction::AddBookmark(p) => {
                if bookmarks.add(p) {
                    self.bookmarks_changed = true;
                }
            },
            FileListAction::RevealInFinder(p) => push_work(
                &mut self.work,
                FileWork::RevealInFinder(p),
            ),
            FileListAction::OpenInTerminal(p) => push_work(
                &mut self.work,
                FileWork::OpenInTerminal(p),
            ),
            FileListAction::DragStarted(paths) => {
                self.drag_started = Some(paths);
            },
            FileListAction::QuickLook(p) => {
                self.quicklook_path = Some(p);
            },
            FileListAction::Share(p) => push_work(&mut self.work, FileWork::Share(p)),
            FileListAction::GetInfo(p) => push_work(&mut self.work, FileWork::GetInfo(p)),
            FileListAction::DeleteFiles(paths) => push_trash(&mut self.work, &paths),
            FileListAction::MoveItems(paths, to) => {
                if self.internal_drop.is_none() {
                    self.internal_drop = Some(InternalFileDrop { paths, destination: to });
                }
            },
            FileListAction::SetTags(p, t) => push_work(&mut self.work, FileWork::SetTags(p, t)),
            FileListAction::StartCreating(_) => {},
            FileListAction::CreateItem(_, _) => {},
            FileListAction::StartRename(_) => {},
            FileListAction::RenameItem(_, _) => {},
            FileListAction::CopyFiles(_) => {},
            FileListAction::CutFiles(_) => {},
            FileListAction::PasteHere => {},
        }
    }
}

/// Takes in the actions of a file list, in their order.
pub fn handle_file_actions(actions: Vec<FileListAction>, bookmarks: &mut Bookmarks) -> (r:
    FileActionOutcome)
    ensures
        outcome_view(r, *final(bookmarks)) == outcome_of_all(
            no_outcome(old(bookmarks)@),
            actions@,
        ),
{
    let ghost start = no_outcome(bookmarks@);
    let ghost all = actions@;
    let mut rest = actions;
    let mut out = FileActionOutcome::nothing();
    let ghost mut i: int = 0;
    assert(outcome_view(out, *bookmarks) == start);
    assert(all.take(0) =~= Seq::empty());
    while rest.len() > 0
        invariant
            0 <= i <= all.len(),
            rest@ == all.skip(i),
            outcome_view(out, *bookmarks) == outcome_of_all(start, all.take(i)),
        decreases rest@.len(),
    {
        let action = rest.remove(0);
        proof {
            assert(all.take(i + 1).drop_last() =~= all.take(i));
            assert(all.take(i + 1).last() == all[i]);
            assert(rest@ =~= all.skip(i + 1));
            i = i + 1;
        }
        out.add_action(action, bookmarks);
    }
    assert(all.take(i) =~= all);
    out
}

/// What work has come to: what is said of it, and the directories that it has changed.
#[derive(Debug)]
pub struct WorkReport {
    pub messages: Vec<String>,
    pub changed_dirs: Vec<FsPath>,
}

/// What work has come to, by its parts.
#[verifier::ext_equal]
pub struct ReportView {
    pub messages: Seq<Seq<char>>,
    pub changed_dirs: Seq<Seq<u8>>,
}

impl View for WorkReport {
    type V = ReportView;

    open spec fn view(&self) -> ReportView {
        ReportView {
            messages: text::text_views(self.messages@),
            changed_dirs: path::path_views(self.changed_dirs@),
        }
    }
}

/// The directories with the one that a path is in, where it is in one.
pub open spec fn with_parent(dirs: Seq<Seq<u8>>, p: Seq<u8>) -> Seq<Seq<u8>> {
    match path::parent_of(p) {
        Some(q) => path_list::pushed_unique(dirs, q),
        None => dirs,
    }
}

/// The names of tags.
pub open spec fn tag_names(t: Seq<TagView>) -> Seq<Seq<char>> {
    t.map_values(|x: TagView| x.0)
}

/// What is said of the tags that a file has been given.
pub open spec fn tags_text(p: Seq<u8>, t: Seq<TagView>) -> Seq<char> {
    if t.len() == 0 {
        "Removed all tags from "@ + display_text::shown_name(p)
    } else {
        display_text::shown_name(p) + ": "@ + text::joined_by(tag_names(t), ", "@)
    }
}

/// What work has come to after one more piece of it.
pub open spec fn report_after(r: ReportView, w: WorkView, result: Result<(), String>) -> ReportView {
    match w {
        WorkView::CopyPath(p) => ReportView {
            messages: r.messages.push("Copied: "@ + display_text::shown(p)),
            ..r
        },
        WorkView::Trash(p) => match result {
            Ok(_) => ReportView {
                messages: r.messages.push("Moved to Trash: "@ + display_text::shown_name(p)),
                changed_dirs: with_parent(r.changed_dirs, p),
            },
            Err(e) => ReportView {
                messages: r.messages.push(
                    "Trash failed for "@ + display_text::shown(p) + ": "@ + e@,
                ),
                ..r
            },
        },
        WorkView::SetTags(p, t) => ReportView {
            messages: r.messages.push(tags_text(p, t)),
            changed_dirs: with_parent(r.changed_dirs, p),
        },
        _ => r,
    }
}

/// What the first `n` pieces of work have come to.
pub open spec fn report_of(work: Seq<WorkView>, results: Seq<Result<(), String>>, n: int) -> ReportView
    decreases n,
{
    if n <= 0 {
        ReportView { messages: Seq::empty(), changed_dirs: Seq::empty() }
    } else {
        report_after(report_of(work, results, n - 1), work[n - 1], results[n - 1])
    }
}

/// The names of tags.
fn names_of(list: &Vec<Tag>) -> (r: Vec<String>)
    ensures
        text::text_views(r@) == tag_names(tags::tag_views(list@)),
{
    let ghost all = tag_names(tags::tag_views(list@));
    let mut out: Vec<String> = Vec::new();
    let mut i: usize = 0;
    assert(text::text_views(out@) =~= all.take(0));
    while i < list.len()
        invariant
            i <= list@.len(),
            all == tag_names(tags::tag_views(list@)),
            text::text_views(out@) == all.take(i as int),
        decreases list@.len() - i,
    {
        let ghost before = text::text_views(out@);
        out.push(list[i].name.clone());
        assert(all[i as int] == list@[i as int].name@);
        assert(text::text_views(out@) =~= before.push(list@[i as int].name@));
        i += 1;
        assert(text::text_views(out@) =~= all.take(i as int));
    }
    assert(all.take(i as int) =~= all);
    out
}

impl WorkReport {
    /// Nothing done.
    pub fn new() -> (r: WorkReport)
        ensures
            r@ == (ReportView { messages: Seq::empty(), changed_dirs: Seq::empty() }),
    {
        let r = WorkReport { messages: Vec::new(), changed_dirs: Vec::new() };
        assert(r@ =~= (ReportView { messages: Seq::empty(), changed_dirs: Seq::empty() }));
        r
    }

    /// Adds the directory that a path is in.
    fn add_parent(&mut self, p: &FsPath)
        ensures
            final(self)@ == (ReportView {
                changed_dirs: with_parent(old(self)@.changed_dirs, p@),
                ..old(self)@
            }),
    {
        match p.parent() {
            Some(q) => push_unique(&mut self.changed_dirs, q),
            None => {},
        }
    }

    /// Takes in what a piece of work came to.
    pub fn add_work(&mut self, work: &FileWork, result: &Result<(), String>)
        ensures
            final(self)@ == report_after(old(self)@, work@, *result),
    {
        match work {
            FileWork::CopyPath(p) => {
                let shown = display_text::path(p);
                push_text(&mut self.messages, concat2("Copied: ", shown.as_str()));
            },
            FileWork::Trash(p) => match result {
                Ok(_) => {
                    let name = display_text::file_name(p);
                    push_text(&mut self.messages, concat2("Moved to Trash: ", name.as_str()));
                    self.add_parent(p);
                },
                Err(e) => {
                    let shown = display_text::path(p);
                    let mut line = concat3("Trash failed for ", shown.as_str(), ": ");
                    line.push_str(e.as_str());
                    push_text(&mut self.messages, line);
                },
            },
            FileWork::SetTags(p, t) => {
                let name = display_text::file_name(p);
                assert(tags::tag_views(t@).len() == t@.len());
                let line = if t.len() == 0 {
                    concat2("Removed all tags from ", name.as_str())
                } else {
                    let names = names_of(t);
                    let mut line = concat2(name.as_str(), ": ");
                    line.push_str(join_texts(&names, ", ").as_str());
                    line
                };
                push_text(&mut self.messages, line);
                self.add_parent(p);
            },
            _ => {},
        }
    }
}

/// What work has come to, with the result of each piece of it.
pub fn finish_work(work: &Vec<FileWork>, results: &Vec<Result<(), String>>) -> (r: WorkReport)
    requires
        results@.len() == work@.len(),
    ensures
        r@ == report_of(work_views(work@), results@, work@.len() as int),
{
    let mut out = WorkReport::new();
    let ghost views = work_views(work@);
    let mut i: usize = 0;
    while i < work.len()
        invariant
            i <= work@.len() == results@.len(),
            views == work_views(work@),
            out@ == report_of(views, results@, i as int),
        decreases work@.len() - i,
    {
        assert(views[i as int] == work@[i as int]@);
        out.add_work(&work[i], &results[i]);
        i += 1;
    }
    out
}

/// What kind of action it is.
#[derive(Clone, Copy, Debug, PartialEq, Eq, Structural)]
pub enum ActionClass {
    Regular,
    /// Creating and renaming.
    Creating,
    Clipboard,
}

/// What kind of action it is.
pub open spec fn class_of(a: FileListAction) -> ActionClass {
    match a {
        FileListAction::StartCreating(_) => ActionClass::Creating,
        FileListAction::CreateItem(_, _) => ActionClass::Creating,
        FileListAction::StartRename(_) => ActionClass::Creating,
        FileListAction::RenameItem(_, _) => ActionClass::Creating,
        FileListAction::CopyFiles(_) => ActionClass::Clipboard,
        FileListAction::CutFiles(_) => ActionClass::Clipboard,
        FileListAction::PasteHere => ActionClass::Clipboard,
        _ => ActionClass::Regular,
    }
}

/// The actions of a kind, in their order.
pub open spec fn of_class(actions: Seq<FileListAction>, class: ActionClass) -> Seq<FileListAction>
    decreases actions.len(),
{
    if actions.len() == 0 {
        Seq::empty()
    } else {
        let rest = of_class(actions.drop_last(), class);
        if class_of(actions.last()) == class {
            rest.push(actions.last())
        } else {
            rest
        }
    }
}

/// Actions by their kind.
#[derive(Debug)]
pub struct SplitActions {
    pub regular: Vec<FileListAction>,
    pub creating: Vec<FileListAction>,
    pub clipboard: Vec<FileListAction>,
}

/// Splits actions by their kind, each in their order.
pub fn split_actions(actions: Vec<FileListAction>) -> (r: SplitActions)
    ensures
        r.regular@ == of_class(actions@, ActionClass::Regular),
        r.creating@ == of_class(actions@, ActionClass::Creating),
        r.clipboard@ == of_class(actions@, ActionClass::Clipboard),
{
    let ghost all = actions@;
    let mut rest = actions;
    let mut out = SplitActions {
        regular: Vec::new(),
        creating: Vec::new(),
        clipboard: Vec::new(),
    };
    let ghost mut i: int = 0;
    assert(all.take(0) =~= Seq::empty());
    while rest.len() > 0
        invariant
            0 <= i <= all.len(),
            rest@ == all.skip(i),
            out.regular@ == of_class(all.take(i), ActionClass::Regular),
            out.creating@ == of_class(all.take(i), ActionClass::Creating),
            out.clipboard@ == of_class(all.take(i), ActionClass::Clipboard),
        decreases rest@.len(),
    {
        let action = rest.remove(0);
        proof {
            assert(all.take(i + 1).drop_last() =~= all.take(i));
            assert(all.take(i + 1).last() == all[i]);
            assert(rest@ =~= all.skip(i + 1));
            i = i + 1;
        }
        match action {
            FileListAction::StartCreating(_)
            | FileListAction::CreateItem(_, _)
            | FileListAction::StartRename(_)
            | FileListAction::RenameItem(_, _) => out.creating.push(action),
            FileListAction::CopyFiles(_)
            | FileListAction::CutFiles(_)
            | FileListAction::PasteHere => out.clipboard.push(action),
            _ => out.regular.push(action),
        }
    }
    assert(all.take(i) =~= all);
    out
}

/// Work of creating and renaming.
#[derive(Debug)]
pub enum CreateWork {
    File(FsPath),
    Directory(FsPath),
    /// The path, and the path that it is to have.
    Rename(FsPath, FsPath),
}

/// Work of creating and renaming, by its views.
pub enum CreateView {
    File(Seq<u8>),
    Directory(Seq<u8>),
    Rename(Seq<u8>, Seq<u8>),
}

impl View for CreateWork {
    type V = CreateView;

    open spec fn view(&self) -> CreateView {
        match *self {
            CreateWork::File(p) => CreateView::File(p@),
            CreateWork::Directory(p) => CreateView::Directory(p@),
            CreateWork::Rename(p, q) => CreateView::Rename(p@, q@),
        }
    }
}

/// Work by its views.
pub open spec fn create_views(work: Seq<CreateWork>) -> Seq<CreateView> {
    work.map_values(|w: CreateWork| w@)
}

/// The path that something has once it is renamed.
pub open spec fn renamed_path(p: Seq<u8>, name: Seq<char>) -> Seq<u8> {
    path::joined(
        match path::parent_of(p) {
            Some(q) => q,
            None => p,
        },
        vstd::utf8::encode_utf8(name),
    )
}

/// What an action makes of the tab, and the work that it adds. A name that is left as it is shown
/// renames nothing: the bytes of the path stay as they are.
pub open spec fn creating_after(
    s: (TabView, Seq<CreateView>),
    a: FileListAction,
) -> (TabView, Seq<CreateView>) {
    let (t, work) = s;
    match a {
        FileListAction::StartCreating(kind) => (
            TabView { creating: Some((kind, file_list::offered_name(kind), true)), ..t },
            work,
        ),
        FileListAction::CreateItem(kind, name) => {
            let target = path::joined(t.path, vstd::utf8::encode_utf8(name@));
            (
                t,
                work.push(
                    match kind {
                        CreateKind::File => CreateView::File(target),
                        CreateKind::Directory => CreateView::Directory(target),
                    },
                ),
            )
        },
        FileListAction::StartRename(p) => (
            TabView {
                selection: file_list::only(p@),
                renaming: Some((p@, display_text::shown_name(p@), true)),
                ..t
            },
            work,
        ),
        FileListAction::RenameItem(p, name) => if name@ == display_text::shown_name(p@) {
            s
        } else {
            (t, work.push(CreateView::Rename(p@, renamed_path(p@, name@))))
        },
        _ => s,
    }
}

/// What all actions make of the tab, and the work that they ask for.
pub open spec fn creating_of_all(t: TabView, actions: Seq<FileListAction>) -> (
    TabView,
    Seq<CreateView>,
)
    decreases actions.len(),
{
    if actions.len() == 0 {
        (t, Seq::empty())
    } else {
        creating_after(creating_of_all(t, actions.drop_last()), actions.last())
    }
}

/// Adds a piece of work.
fn push_create(list: &mut Vec<CreateWork>, w: CreateWork)
    ensures
        create_views(final(list)@) == create_views(old(list)@).push(w@),
{
    let ghost before = create_views(list@);
    let ghost v = w@;
    list.push(w);
    assert(create_views(list@) =~= before.push(v));
}

/// Takes in an action of creating or renaming.
fn add_creating(tab: &mut TabState, work: &mut Vec<CreateWork>, action: FileListAction)
    ensures
        (final(tab)@, create_views(final(work)@)) == creating_after(
            (old(tab)@, create_views(old(work)@)),
            action,
        ),
{
    let ghost before = (tab@, create_views(work@));
    match action {
        FileListAction::StartCreating(kind) => {
            tab.list_state.start_creating(kind);
            assert(tab@ =~= creating_after(before, action).0);
        },
        FileListAction::CreateItem(kind, name) => {
            let target = tab.current_path.join(&FsPath::new(name.as_str()));
            match kind {
                CreateKind::File => push_create(work, CreateWork::File(target)),
                CreateKind::Directory => push_create(work, CreateWork::Directory(target)),
            }
        },
        FileListAction::StartRename(p) => {
            tab.list_state.start_renaming(p);
            assert(tab@ =~= creating_after(before, action).0);
        },
        FileListAction::RenameItem(p, name) => {
            let shown = display_text::file_name(&p);
            if name != shown {
                let base = match p.parent() {
                    Some(q) => q,
                    None => p.clone(),
                };
                let new = base.join(&FsPath::new(name.as_str()));
                push_create(work, CreateWork::Rename(p, new));
            }
        },
        _ => {},
    }
}

/// Takes in the actions of creating and renaming. Returns the work that they ask for.
pub fn handle_creating_actions(tab: &mut TabState, actions: Vec<FileListAction>) -> (r: Vec<
    CreateWork,
>)
    ensures
        (final(tab)@, create_views(r@)) == creating_of_all(old(tab)@, actions@),
        old(tab)@.wf() ==> final(tab)@.wf(),
{
    let ghost start = tab@;
    let ghost all = actions@;
    let mut rest = actions;
    let mut work: Vec<CreateWork> = Vec::new();
    let ghost mut i: int = 0;
    assert(create_views(work@) =~= Seq::empty());
    assert(all.take(0) =~= Seq::empty());
    while rest.len() > 0
        invariant
            0 <= i <= all.len(),
            rest@ == all.skip(i),
            (tab@, create_views(work@)) == creating_of_all(start, all.take(i)),
            start.wf() ==> tab@.wf(),
        decreases rest@.len(),
    {
        let action = rest.remove(0);
        proof {
            assert(all.take(i + 1).drop_last() =~= all.take(i));
            assert(all.take(i + 1).last() == all[i]);
            assert(rest@ =~= all.skip(i + 1));
            i = i + 1;
        }
        add_creating(tab, &mut work, action);
    }
    assert(all.take(i) =~= all);
    work
}

/// What creating and renaming came to.
#[derive(Debug)]
pub struct CreateReport {
    pub changed_dirs: Vec<FsPath>,
    /// What is to be selected.
    pub select_after: Option<FsPath>,
    pub messages: Vec<String>,
}

/// What creating and renaming came to, by its parts.
#[verifier::ext_equal]
pub struct CreateReportView {
    pub changed_dirs: Seq<Seq<u8>>,
    pub select_after: Option<Seq<u8>>,
    pub messages: Seq<Seq<char>>,
}

impl View for CreateReport {
    type V = CreateReportView;

    open spec fn view(&self) -> CreateReportView {
        CreateReportView {
            changed_dirs: path::path_views(self.changed_dirs@),
            select_after: file_list::optional_path(self.select_after),
            messages: text::text_views(self.messages@),
        }
    }
}

/// What it has come to after one more piece of work. What was to be created is selected whatever
/// came of it; what was renamed only where it worked.
pub open spec fn created_after(
    r: CreateReportView,
    w: CreateView,
    result: Result<(), String>,
    dir: Seq<u8>,
) -> CreateReportView {
    match w {
        CreateView::Rename(_, new) => match result {
            Ok(_) => CreateReportView {
                changed_dirs: path_list::pushed_unique(r.changed_dirs, dir),
                select_after: Some(new),
                ..r
            },
            Err(e) => CreateReportView {
                messages: r.messages.push("Rename failed: "@ + e@),
                ..r
            },
        },
        CreateView::File(p) => CreateReportView {
            changed_dirs: path_list::pushed_unique(r.changed_dirs, dir),
            select_after: Some(p),
            ..r
        },
        CreateView::Directory(p) => CreateReportView {
            changed_dirs: path_list::pushed_unique(r.changed_dirs, dir),
            select_after: Some(p),
            ..r
        },
    }
}

/// What the first `n` pieces of work have come to.
pub open spec fn created_of(
    work: Seq<CreateView>,
    results: Seq<Result<(), String>>,
    dir: Seq<u8>,
    n: int,
) -> CreateReportView
    decreases n,
{
    if n <= 0 {
        CreateReportView {
            changed_dirs: Seq::empty(),
            select_after: None,
            messages: Seq::empty(),
        }
    } else {
        created_after(created_of(work, results, dir, n - 1), work[n - 1], results[n - 1], dir)
    }
}

/// What creating and renaming in a directory came to, with the result of each piece of work.
pub fn finish_creating(
    work: &Vec<CreateWork>,
    results: &Vec<Result<(), String>>,
    dir: &FsPath,
) -> (r: CreateReport)
    requires
        results@.len() == work@.len(),
    ensures
        r@ == created_of(create_views(work@), results@, dir@, work@.len() as int),
{
    let mut out = CreateReport {
        changed_dirs: Vec::new(),
        select_after: None,
        messages: Vec::new(),
    };
    let ghost views = create_views(work@);
    let mut i: usize = 0;
    assert(out@ =~= created_of(views, results@, dir@, 0));
    while i < work.len()
        invariant
            i <= work@.len() == results@.len(),
            views == create_views(work@),
            out@ == created_of(views, results@, dir@, i as int),
        decreases work@.len() - i,
    {
        assert(views[i as int] == work@[i as int]@);
        match &work[i] {
            CreateWork::Rename(_, new) => match &results[i] {
                Ok(_) => {
                    push_unique(&mut out.changed_dirs, dir.clone());
                    out.select_after = Some(new.clone());
                },
                Err(e) => push_text(&mut out.messages, concat2("Rename failed: ", e.as_str())),
            },
            CreateWork::File(p) => {
                push_unique(&mut out.changed_dirs, dir.clone());
                out.select_after = Some(p.clone());
            },
            CreateWork::Directory(p) => {
                push_unique(&mut out.changed_dirs, dir.clone());
                out.select_after = Some(p.clone());
            },
        }
        i += 1;
        assert(out@ =~= created_of(views, results@, dir@, i as int));
    }
    out
}

/// Of a batch of actions only one drop counts, the first.
pub proof fn first_drop_counts(o: OutcomeView, a: FileListAction)
    requires
        o.internal_drop is Some,
    ensures
        outcome_after(o, a).internal_drop == o.internal_drop,
{
}

/// Confirming a name as it is shown renames nothing.
pub proof fn unchanged_name_renames_nothing(t: TabView, work: Seq<CreateView>, p: FsPath, name: String)
    requires
        name@ == display_text::shown_name(p@),
    ensures
        creating_after((t, work), FileListAction::RenameItem(p, name)) == (t, work),
{
}

/// No action is lost when actions are split by their kind.
pub proof fn split_loses_no_action(actions: Seq<FileListAction>)
    ensures
        of_class(actions, ActionClass::Regular).len() + of_class(
            actions,
            ActionClass::Creating,
        ).len() + of_class(actions, ActionClass::Clipboard).len() == actions.len(),
    decreases actions.len(),
{
    if actions.len() > 0 {
        split_loses_no_action(actions.drop_last());
    }
}

/// An action of the list does what it is called, to the path it names, and nothing else: work on a file
/// comes behind the work there is, going somewhere and looking at something are noted, and what is to
/// be deleted goes to the trash path by path.
pub proof fn actions_do_what_they_are_called(o: OutcomeView, p: FsPath, q: FsPath, paths: Vec<FsPath>)
    ensures
        outcome_after(o, FileListAction::Navigate(p)) == (OutcomeView {
            navigate_to: Some(p@),
            ..o
        }),
        outcome_after(o, FileListAction::NavigateAndSelect(p, q)) == (OutcomeView {
            navigate_to: Some(p@),
            select_after_nav: Some(q@),
            ..o
        }),
        outcome_after(o, FileListAction::OpenFile(p)).work == o.work + seq![WorkView::OpenFile(p@)],
        outcome_after(o, FileListAction::CopyPath(p)).work == o.work + seq![WorkView::CopyPath(p@)],
        outcome_after(o, FileListAction::RevealInFinder(p)).work == o.work + seq![
            WorkView::RevealInFinder(p@),
        ],
        outcome_after(o, FileListAction::OpenInTerminal(p)).work == o.work + seq![
            WorkView::OpenInTerminal(p@),
        ],
        outcome_after(o, FileListAction::Share(p)).work == o.work + seq![WorkView::Share(p@)],
        outcome_after(o, FileListAction::GetInfo(p)).work == o.work + seq![WorkView::GetInfo(p@)],
        outcome_after(o, FileListAction::QuickLook(p)) == (OutcomeView {
            quicklook_path: Some(p@),
            ..o
        }),
        outcome_after(o, FileListAction::ClearTagFilter) == (OutcomeView {
            clear_tag_filter: true,
            ..o
        }),
        outcome_after(o, FileListAction::DragStarted(paths)) == (OutcomeView {
            drag_started: Some(path::path_views(paths@)),
            ..o
        }),
        o.internal_drop is None ==> outcome_after(o, FileListAction::MoveItems(paths, q))
            == (OutcomeView { internal_drop: Some((path::path_views(paths@), q@)), ..o }),
        outcome_after(o, FileListAction::DeleteFiles(paths)).work.len() == o.work.len()
            + paths@.len(),
        forall|i: int|
            0 <= i < paths@.len() ==> #[trigger] outcome_after(
                o,
                FileListAction::DeleteFiles(paths),
            ).work[o.work.len() + i] == WorkView::Trash(paths@[i]@),
        outcome_after(o, FileListAction::DeleteFiles(paths)).work.take(o.work.len() as int)
            == o.work,
{
    assert(outcome_after(o, FileListAction::OpenFile(p)).work =~= o.work + seq![
        WorkView::OpenFile(p@),
    ]);
    assert(outcome_after(o, FileListAction::CopyPath(p)).work =~= o.work + seq![
        WorkView::CopyPath(p@),
    ]);
    assert(outcome_after(o, FileListAction::RevealInFinder(p)).work =~= o.work + seq![
        WorkView::RevealInFinder(p@),
    ]);
    assert(outcome_after(o, FileListAction::OpenInTerminal(p)).work =~= o.work + seq![
        WorkView::OpenInTerminal(p@),
    ]);
    assert(outcome_after(o, FileListAction::Share(p)).work =~= o.work + seq![WorkView::Share(p@)]);
    assert(outcome_after(o, FileListAction::GetInfo(p)).work =~= o.work + seq![
        WorkView::GetInfo(p@),
    ]);
    assert(outcome_after(o, FileListAction::DeleteFiles(paths)).work.take(o.work.len() as int)
        =~= o.work);
}

/// Work on a file changes nothing but the work that is to be done.
pub proof fn work_changes_nothing_else(o: OutcomeView, a: FileListAction)
    requires
        a is OpenFile || a is CopyPath || a is RevealInFinder || a is OpenInTerminal || a is Share
            || a is GetInfo || a is DeleteFiles || a is SetTags,
    ensures
        (OutcomeView { work: o.work, ..outcome_after(o, a) }) == o,
        a is SetTags ==> outcome_after(o, a).work == o.work.push(
            WorkView::SetTags(a->SetTags_0@, tags::tag_views(a->SetTags_1@)),
        ),
{
}

/// A path is bookmarked once: at the end of the bookmarks, and they are then to be saved.
pub proof fn bookmark_is_added_once(o: OutcomeView, p: FsPath)
    ensures
        bookmarks::is_bookmarked(o.bookmarks, p@) ==> outcome_after(
            o,
            FileListAction::AddBookmark(p),
        ) == o,
        !bookmarks::is_bookmarked(o.bookmarks, p@) ==> {
            let after = outcome_after(o, FileListAction::AddBookmark(p));
            &&& after.bookmarks == o.bookmarks + seq![(bookmarks::bookmark_name(p@), p@)]
            &&& after.bookmarks_changed
            &&& after.work == o.work
        },
{
    if !bookmarks::is_bookmarked(o.bookmarks, p@) {
        assert(outcome_after(o, FileListAction::AddBookmark(p)).bookmarks =~= o.bookmarks + seq![
            (bookmarks::bookmark_name(p@), p@),
        ]);
    }
}

/// Actions are carried out in their order, each on what the ones before it left.
pub proof fn actions_are_carried_out_in_turn(
    o: OutcomeView,
    a: Seq<FileListAction>,
    b: Seq<FileListAction>,
    one: FileListAction,
)
    ensures
        outcome_of_all(o, Seq::empty()) == o,
        outcome_of_all(o, seq![one]) == outcome_after(o, one),
        outcome_of_all(o, a + b) == outcome_of_all(outcome_of_all(o, a), b),
    decreases b.len(),
{
    reveal_with_fuel(outcome_of_all, 2);
    assert(seq![one].drop_last() =~= Seq::<FileListAction>::empty());
    if b.len() == 0 {
        assert(a + b =~= a);
    } else {
        actions_are_carried_out_in_turn(o, a, b.drop_last(), one);
        assert((a + b).drop_last() =~= a + b.drop_last());
        assert((a + b).last() == b.last());
    }
}

/// What is said of work: which path was copied, what went to the trash or why it did not, and which
/// tags a file has. The directory of what went to the trash, or got tags, is to be read again.
pub proof fn work_is_reported(
    r: ReportView,
    p: Seq<u8>,
    t: Seq<TagView>,
    result: Result<(), String>,
)
    ensures
        report_after(r, WorkView::CopyPath(p), result).messages == r.messages + seq![
            "Copied: "@ + display_text::shown(p),
        ],
        report_after(r, WorkView::CopyPath(p), result).changed_dirs == r.changed_dirs,
        result is Ok ==> report_after(r, WorkView::Trash(p), result).messages == r.messages + seq![
            "Moved to Trash: "@ + display_text::shown_name(p),
        ],
        result is Err ==> report_after(r, WorkView::Trash(p), result).messages == r.messages + seq![
            "Trash failed for "@ + display_text::shown(p) + ": "@ + result->Err_0@,
        ],
        result is Err ==> report_after(r, WorkView::Trash(p), result).changed_dirs
            == r.changed_dirs,
        result is Ok && path::parent_of(p) is Some ==> path::has_path(
            report_after(r, WorkView::Trash(p), result).changed_dirs,
            path::parent_of(p)->0,
        ),
        path::parent_of(p) is Some ==> path::has_path(
            report_after(r, WorkView::SetTags(p, t), result).changed_dirs,
            path::parent_of(p)->0,
        ),
        report_after(r, WorkView::SetTags(p, t), result).messages == r.messages + seq![
            tags_text(p, t),
        ],
        t.len() == 0 ==> tags_text(p, t) == "Removed all tags from "@ + display_text::shown_name(p),
        t.len() == 1 ==> tags_text(p, t) == display_text::shown_name(p) + ": "@ + t[0].0,
{
    assert(report_after(r, WorkView::CopyPath(p), result).messages =~= r.messages + seq![
        "Copied: "@ + display_text::shown(p),
    ]);
    assert(report_after(r, WorkView::SetTags(p, t), result).messages =~= r.messages + seq![
        tags_text(p, t),
    ]);
    match result {
        Ok(_) => {
            assert(report_after(r, WorkView::Trash(p), result).messages =~= r.messages + seq![
                "Moved to Trash: "@ + display_text::shown_name(p),
            ]);
        },
        Err(e) => {
            assert(report_after(r, WorkView::Trash(p), result).messages =~= r.messages + seq![
                "Trash failed for "@ + display_text::shown(p) + ": "@ + e@,
            ]);
        },
    }
    if path::parent_of(p) is Some {
        let q = path::parent_of(p)->0;
        let dirs = path_list::pushed_unique(r.changed_dirs, q);
        if !path::has_path(r.changed_dirs, q) {
            assert(path::same_path(dirs[r.changed_dirs.len() as int], q));
        }
        assert(path::has_path(dirs, q));
    }
    if t.len() == 1 {
        assert(tag_names(t)[0] == t[0].0);
    }
}

/// Work is reported in its order.
pub proof fn work_is_reported_in_turn(
    work: Seq<WorkView>,
    results: Seq<Result<(), String>>,
    n: int,
)
    requires
        0 <= n,
    ensures
        report_of(work, results, 0).messages.len() == 0,
        report_of(work, results, 0).changed_dirs.len() == 0,
        report_of(work, results, n + 1) == report_after(
            report_of(work, results, n),
            work[n],
            results[n],
        ),
{
}

/// Creating and renaming, and what has to do with the clipboard, are parted from the other actions;
/// each part keeps its order.
pub proof fn actions_are_parted_by_class(
    a: Seq<FileListAction>,
    b: Seq<FileListAction>,
    one: FileListAction,
    class: ActionClass,
)
    ensures
        of_class(a + b, class) == of_class(a, class) + of_class(b, class),
        class_of(one) == class ==> of_class(seq![one], class) == seq![one],
        class_of(one) != class ==> of_class(seq![one], class).len() == 0,
        class_of(one) == ActionClass::Creating <==> one is StartCreating || one is CreateItem
            || one is StartRename || one is RenameItem,
        class_of(one) == ActionClass::Clipboard <==> one is CopyFiles || one is CutFiles
            || one is PasteHere,
    decreases b.len(),
{
    reveal_with_fuel(of_class, 2);
    assert(seq![one].drop_last() =~= Seq::<FileListAction>::empty());
    assert(class_of(one) == class ==> of_class(seq![one], class) =~= seq![one]);
    if b.len() == 0 {
        assert(a + b =~= a);
        assert(of_class(a, class) + of_class(b, class) =~= of_class(a, class));
    } else {
        actions_are_parted_by_class(a, b.drop_last(), one, class);
        assert((a + b).drop_last() =~= a + b.drop_last());
        assert((a + b).last() == b.last());
        assert(of_class(a + b, class) =~= of_class(a, class) + of_class(b, class));
    }
}

/// A new name keeps a file in its directory.
pub proof fn renamed_file_stays_in_its_directory(base: Seq<u8>, old: Seq<u8>, name: Seq<char>)
    requires
        old.len() > 0,
        !old.contains(path::SLASH),
        old != path::here_component(),
        vstd::utf8::encode_utf8(name).len() > 0,
        !vstd::utf8::encode_utf8(name).contains(path::SLASH),
        vstd::utf8::encode_utf8(name) != path::here_component(),
    ensures
        path::components(renamed_path(path::joined(base, old), name)) == path::components(base).push(
            vstd::utf8::encode_utf8(name),
        ),
{
    path::parent_undoes_joining(base, old);
    path::joined_name_is_the_last_component(
        path::parent_of(path::joined(base, old))->0,
        vstd::utf8::encode_utf8(name),
    );
}

/// Creating starts with a name that is offered and makes a file or a directory of the given name in the
/// directory that is shown; renaming starts with the name as it is shown, with that file selected
/// alone, and gives it the new name.
pub proof fn items_are_made_where_they_are_asked_for(
    t: TabView,
    work: Seq<CreateView>,
    p: FsPath,
    name: String,
    kind: CreateKind,
)
    ensures
        creating_after((t, work), FileListAction::StartCreating(kind)) == (
            TabView { creating: Some((kind, file_list::offered_name(kind), true)), ..t },
            work,
        ),
        creating_after((t, work), FileListAction::CreateItem(CreateKind::File, name)) == (
            t,
            work + seq![CreateView::File(path::joined(t.path, vstd::utf8::encode_utf8(name@)))],
        ),
        creating_after((t, work), FileListAction::CreateItem(CreateKind::Directory, name)) == (
            t,
            work + seq![CreateView::Directory(path::joined(t.path, vstd::utf8::encode_utf8(name@)))],
        ),
        ({
            let after = creating_after((t, work), FileListAction::StartRename(p));
            &&& after.1 == work
            &&& after.0.selection.selected == seq![p@] && after.0.selection.anchor == Some(p@)
            &&& after.0.renaming == Some((p@, display_text::shown_name(p@), true))
            &&& after.0.creating == t.creating && after.0.path == t.path && after.0.entries
                == t.entries
        }),
        name@ != display_text::shown_name(p@) ==> creating_after(
            (t, work),
            FileListAction::RenameItem(p, name),
        ) == (t, work + seq![CreateView::Rename(p@, renamed_path(p@, name@))]),
{
    let target = path::joined(t.path, vstd::utf8::encode_utf8(name@));
    assert(work.push(CreateView::File(target)) =~= work + seq![CreateView::File(target)]);
    assert(work.push(CreateView::Directory(target)) =~= work + seq![CreateView::Directory(target)]);
    assert(work.push(CreateView::Rename(p@, renamed_path(p@, name@))) =~= work + seq![
        CreateView::Rename(p@, renamed_path(p@, name@)),
    ]);
}

/// What was made is to be selected and its directory read again. A renaming that failed is told of, and
/// changes nothing.
pub proof fn made_items_are_selected(
    r: CreateReportView,
    p: Seq<u8>,
    q: Seq<u8>,
    result: Result<(), String>,
    dir: Seq<u8>,
)
    ensures
        created_after(r, CreateView::File(p), result, dir).select_after == Some(p),
        created_after(r, CreateView::Directory(p), result, dir).select_after == Some(p),
        result is Ok ==> created_after(r, CreateView::Rename(p, q), result, dir).select_after
            == Some(q),
        result is Err ==> created_after(r, CreateView::Rename(p, q), result, dir)
            == (CreateReportView {
            messages: r.messages.push("Rename failed: "@ + result->Err_0@),
            ..r
        }),
        path::has_path(created_after(r, CreateView::File(p), result, dir).changed_dirs, dir),
        path::has_path(created_after(r, CreateView::Directory(p), result, dir).changed_dirs, dir),
        result is Ok ==> path::has_path(
            created_after(r, CreateView::Rename(p, q), result, dir).changed_dirs,
            dir,
        ),
        result is Ok ==> created_after(r, CreateView::Rename(p, q), result, dir).messages
            == r.messages,
{
    let dirs = path_list::pushed_unique(r.changed_dirs, dir);
    if !path::has_path(r.changed_dirs, dir) {
        assert(path::same_path(dirs[r.changed_dirs.len() as int], dir));
    }
    assert(path::has_path(dirs, dir));
}

/// Creating and renaming are carried out and reported in their order.
pub proof fn items_are_made_in_turn(
    t: TabView,
    actions: Seq<FileListAction>,
    a: FileListAction,
    work: Seq<CreateView>,
    results: Seq<Result<(), String>>,
    dir: Seq<u8>,
    n: int,
)
    requires
        0 <= n,
    ensures
        creating_of_all(t, Seq::empty()) == (t, Seq::<CreateView>::empty()),
        creating_of_all(t, actions.push(a)) == creating_after(creating_of_all(t, actions), a),
        created_of(work, results, dir, 0).changed_dirs.len() == 0,
        created_of(work, results, dir, 0).select_after is None,
        created_of(work, results, dir, n + 1) == created_after(
            created_of(work, results, dir, n),
            work[n],
            results[n],
            dir,
        ),
{
    assert(actions.push(a).drop_last() =~= actions);
}

/// What is to be done is seen as it is, and nothing is to be done at first.
pub proof fn work_is_seen_as_it_is(
    work: Seq<FileWork>,
    created: Seq<CreateWork>,
    i: int,
    bookmarks: Seq<BookmarkView>,
)
    ensures
        work_views(work).len() == work.len(),
        create_views(created).len() == created.len(),
        0 <= i < work.len() ==> match work[i] {
            FileWork::OpenFile(p) => work_views(work)[i] matches WorkView::OpenFile(q) && q == p@,
            FileWork::CopyPath(p) => work_views(work)[i] matches WorkView::CopyPath(q) && q == p@,
            FileWork::RevealInFinder(p) => work_views(work)[i] matches WorkView::RevealInFinder(q)
                && q == p@,
            FileWork::OpenInTerminal(p) => work_views(work)[i] matches WorkView::OpenInTerminal(q)
                && q == p@,
            FileWork::Share(p) => work_views(work)[i] matches WorkView::Share(q) && q == p@,
            FileWork::GetInfo(p) => work_views(work)[i] matches WorkView::GetInfo(q) && q == p@,
            FileWork::Trash(p) => work_views(work)[i] matches WorkView::Trash(q) && q == p@,
            FileWork::SetTags(p, t) => work_views(work)[i] matches WorkView::SetTags(q, u) && q
                == p@ && u.len() == t@.len(),
        },
        0 <= i < created.len() ==> match created[i] {
            CreateWork::File(p) => create_views(created)[i] matches CreateView::File(q) && q == p@,
            CreateWork::Directory(p) => create_views(created)[i] matches CreateView::Directory(q)
                && q == p@,
            CreateWork::Rename(p, q) => create_views(created)[i] matches CreateView::Rename(x, y)
                && x == p@ && y == q@,
        },
        no_outcome(bookmarks).navigate_to is None,
        no_outcome(bookmarks).select_after_nav is None,
        no_outcome(bookmarks).quicklook_path is None,
        !no_outcome(bookmarks).clear_tag_filter,
        no_outcome(bookmarks).drag_started is None,
        no_outcome(bookmarks).internal_drop is None,
        no_outcome(bookmarks).work.len() == 0,
        !no_outcome(bookmarks).bookmarks_changed,
        no_outcome(bookmarks).bookmarks == bookmarks,
{
}

/// What came of an action is seen part by part.
pub proof fn outcome_is_seen_part_by_part(o: FileActionOutcome, b: Bookmarks)
    ensures
        o.navigate_to is Some ==> outcome_view(o, b).navigate_to == Some((o.navigate_to->0)@),
        o.navigate_to is None ==> outcome_view(o, b).navigate_to is None,
        o.select_after_nav is Some ==> outcome_view(o, b).select_after_nav == Some(
            (o.select_after_nav->0)@,
        ),
        o.select_after_nav is None ==> outcome_view(o, b).select_after_nav is None,
        o.quicklook_path is Some ==> outcome_view(o, b).quicklook_path == Some(
            (o.quicklook_path->0)@,
        ),
        o.quicklook_path is None ==> outcome_view(o, b).quicklook_path is None,
        outcome_view(o, b).clear_tag_filter == o.clear_tag_filter,
        outcome_view(o, b).bookmarks_changed == o.bookmarks_changed,
        outcome_view(o, b).bookmarks == b@,
        outcome_view(o, b).drag_started is Some <==> o.drag_started is Some,
        outcome_view(o, b).internal_drop is Some <==> o.internal_drop is Some,
{
}

} // verus!
