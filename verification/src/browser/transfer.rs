//! Moving and copying files: what is refused, what it comes to, and which directories change.

use vstd::prelude::*;

use crate::model::display_text;
use crate::path;
use crate::path::FsPath;
use crate::path_list;
use crate::path_list::push_unique;
use crate::text;
use crate::text::{concat2, concat3, push_decimal};

verus! {

/// Whether files are copied or moved.
#[derive(Clone, Copy, Debug, PartialEq, Eq, Structural)]
pub enum ClipboardKind {
    Copy,
    Cut,
}

/// What is found out about a move before it is made. The canonical paths are missing where they
/// cannot be had.
#[derive(Debug)]
pub struct MoveFacts {
    /// Whether something is where the file would go.
    pub dest_exists: bool,
    pub source_is_dir: bool,
    pub canonical_source: Option<FsPath>,
    pub canonical_dest: Option<FsPath>,
    pub canonical_target: Option<FsPath>,
}

/// Why a move was not made.
#[derive(Debug)]
pub enum MoveError {
    NoFileName,
    /// The name of the file and the directory that it is in.
    SamePlace(String, String),
    IntoItself,
    /// The name of the file.
    AlreadyThere(String),
    /// What the file system said, and in which way.
    Io(FailureKind, String),
}

/// In which way the file system refused something.
#[derive(Clone, Copy, Debug, PartialEq, Eq, Structural)]
pub enum FailureKind {
    InvalidInput,
    AlreadyExists,
    Other,
}

impl MoveError {
    /// What is said of the error.
    pub open spec fn text(self) -> Seq<char> {
        match self {
            MoveError::NoFileName => "move is prohibited because the source has no file name"@,
            MoveError::SamePlace(name, dir) => "move is prohibited because '"@ + name@
                + "' is already in '"@ + dir@ + "'"@,
            MoveError::IntoItself =>
                "move is prohibited because a folder cannot be moved into itself or one of its subfolders"@,
            MoveError::AlreadyThere(name) =>
                "move is prohibited because the destination already contains '"@ + name@ + "'"@,
            MoveError::Io(_, e) => e@,
        }
    }

    /// What is said of the error.
    pub fn message(&self) -> (r: String)
        ensures
            r@ == self.text(),
    {
        match self {
            MoveError::NoFileName =>
                "move is prohibited because the source has no file name".to_owned(),
            MoveError::SamePlace(name, dir) => {
                let mut out = concat3(
                    "move is prohibited because '",
                    name.as_str(),
                    "' is already in '",
                );
                out.push_str(dir.as_str());
                out.push_str("'");
                out
            },
            MoveError::IntoItself =>
                "move is prohibited because a folder cannot be moved into itself or one of its subfolders".to_owned(),
            MoveError::AlreadyThere(name) => concat3(
                "move is prohibited because the destination already contains '",
                name.as_str(),
                "'",
            ),
            MoveError::Io(_, e) => e.clone(),
        }
    }
}

/// Where a file goes in a directory.
pub open spec fn destination(from: Seq<u8>, to_dir: Seq<u8>) -> Option<Seq<u8>> {
    match path::file_name_of(from) {
        Some(name) => Some(path::joined(to_dir, name)),
        None => None,
    }
}

/// Whether two canonical paths are there and the same.
pub open spec fn same_canonical(a: Option<FsPath>, b: Option<FsPath>) -> bool {
    match (a, b) {
        (Some(x), Some(y)) => path::same_path(x@, y@),
        _ => false,
    }
}

/// A canonical path, or the path itself where there is none.
pub open spec fn canonical_or(c: Option<FsPath>, p: Seq<u8>) -> Seq<u8> {
    match c {
        Some(x) => x@,
        None => p,
    }
}

/// Whether a move would leave the file where it is.
pub open spec fn stays_in_place(from: Seq<u8>, dest: Seq<u8>, facts: MoveFacts) -> bool {
    path::same_path(from, dest) || (facts.dest_exists && same_canonical(
        facts.canonical_source,
        facts.canonical_dest,
    ))
}

/// Whether a move would put a directory into itself.
pub open spec fn goes_into_itself(from: Seq<u8>, to_dir: Seq<u8>, facts: MoveFacts) -> bool {
    facts.source_is_dir && path::path_starts_with(
        canonical_or(facts.canonical_target, to_dir),
        canonical_or(facts.canonical_source, from),
    )
}

/// Where a file goes by a move that may be made.
pub open spec fn allowed_destination(from: Seq<u8>, to_dir: Seq<u8>, facts: MoveFacts) -> Option<
    Seq<u8>,
> {
    match destination(from, to_dir) {
        Some(dest) => if stays_in_place(from, dest, facts) || goes_into_itself(from, to_dir, facts)
            || facts.dest_exists {
            None
        } else {
            Some(dest)
        },
        None => None,
    }
}

/// Decides whether a move may be made, and where the file goes.
pub fn plan_move(from: &FsPath, to_dir: &FsPath, facts: &MoveFacts) -> (r: Result<
    FsPath,
    MoveError,
>)
    ensures
        match destination(from@, to_dir@) {
            None => r matches Err(MoveError::NoFileName),
            Some(dest) => if stays_in_place(from@, dest, *facts) {
                r matches Err(MoveError::SamePlace(name, dir)) && name@ == display_text::shown(
                    path::file_name_of(from@)->0,
                ) && dir@ == display_text::shown(to_dir@)
            } else if goes_into_itself(from@, to_dir@, *facts) {
                r matches Err(MoveError::IntoItself)
            } else if facts.dest_exists {
                r matches Err(MoveError::AlreadyThere(name)) && name@ == display_text::shown(
                    path::file_name_of(from@)->0,
                )
            } else {
                r matches Ok(p) && allowed_destination(from@, to_dir@, *facts) == Some(p@)
            },
        },
        r is Ok == allowed_destination(from@, to_dir@, *facts) is Some,
{
    let name = match from.file_name() {
        Some(n) => n,
        None => {
            return Err(MoveError::NoFileName);
        },
    };
    let dest = to_dir.join_bytes(name.as_slice());
    let same = match (&facts.canonical_source, &facts.canonical_dest) {
        (Some(a), Some(b)) => a.same(b),
        _ => false,
    };
    if from.same(&dest) || (facts.dest_exists && same) {
        return Err(
            MoveError::SamePlace(
                display_text::os_str(name.as_slice()),
                display_text::path(to_dir),
            ),
        );
    }
    if facts.source_is_dir {
        let target = match &facts.canonical_target {
            Some(t) => t.clone(),
            None => to_dir.clone(),
        };
        let source = match &facts.canonical_source {
            Some(t) => t.clone(),
            None => from.clone(),
        };
        if target.starts_with(&source) {
            return Err(MoveError::IntoItself);
        }
    }
    if facts.dest_exists {
        return Err(MoveError::AlreadyThere(display_text::os_str(name.as_slice())));
    }
    Ok(dest)
}

/// The steps of a move that may be made.
#[derive(Clone, Copy, Debug, PartialEq, Eq, Structural)]
pub enum MoveStep {
    Rename,
    /// Copy it, as it could not be renamed.
    Copy,
    RemoveTree,
    RemoveFile,
    Done,
    Failed,
}

/// The step after one that has been done or has failed: what cannot be renamed is copied, and then
/// removed where it was.
pub fn next_step(step: MoveStep, done: bool, source_is_dir: bool) -> (r: MoveStep)
    ensures
        r == (match step {
            MoveStep::Rename => if done {
                MoveStep::Done
            } else {
                MoveStep::Copy
            },
            MoveStep::Copy => if !done {
                MoveStep::Failed
            } else if source_is_dir {
                MoveStep::RemoveTree
            } else {
                MoveStep::RemoveFile
            },
            MoveStep::RemoveTree | MoveStep::RemoveFile => if done {
                MoveStep::Done
            } else {
                MoveStep::Failed
            },
            MoveStep::Done => MoveStep::Done,
            MoveStep::Failed => MoveStep::Failed,
        }),
{
    match step {
        MoveStep::Rename => if done {
            MoveStep::Done
        } else {
            MoveStep::Copy
        },
        MoveStep::Copy => if !done {
            MoveStep::Failed
        } else if source_is_dir {
            MoveStep::RemoveTree
        } else {
            MoveStep::RemoveFile
        },
        MoveStep::RemoveTree | MoveStep::RemoveFile => if done {
            MoveStep::Done
        } else {
            MoveStep::Failed
        },
        MoveStep::Done => MoveStep::Done,
        MoveStep::Failed => MoveStep::Failed,
    }
}

/// What is said of a move that was not made: prohibited, or failed where the file system refused
/// it for another reason than what was asked for or what is there already.
pub open spec fn move_error_text(from: Seq<u8>, error: MoveError) -> Seq<char> {
    (match error {
        MoveError::Io(FailureKind::Other, _) => "Move failed for "@,
        _ => "Move prohibited for "@,
    }) + display_text::shown(from) + ": "@ + error.text()
}

/// What is said of a move that was not made.
pub fn move_error_message(from: &FsPath, error: &MoveError) -> (r: String)
    ensures
        r@ == move_error_text(from@, *error),
{
    let front = match error {
        MoveError::Io(FailureKind::Other, _) => "Move failed for ",
        _ => "Move prohibited for ",
    };
    let shown = display_text::path(from);
    let mut out = concat3(front, shown.as_str(), ": ");
    out.push_str(error.message().as_str());
    out
}

/// What pasting came to.
#[derive(Debug)]
pub struct PasteOutcome {
    pub created: Vec<FsPath>,
    pub succeeded_sources: Vec<FsPath>,
    pub moved_sources: Vec<FsPath>,
    /// The sources that failed, with the errors.
    pub failed: Vec<(FsPath, String)>,
    pub destination_changed: bool,
}

/// What pasting came to, by its parts.
#[verifier::ext_equal]
pub struct PasteView {
    pub created: Seq<Seq<u8>>,
    pub succeeded: Seq<Seq<u8>>,
    pub moved: Seq<Seq<u8>>,
    pub failed: Seq<(Seq<u8>, Seq<char>)>,
    pub changed: bool,
}

/// Failures by their views.
pub open spec fn failed_views(failed: Seq<(FsPath, String)>) -> Seq<(Seq<u8>, Seq<char>)> {
    failed.map_values(|f: (FsPath, String)| (f.0@, f.1@))
}

impl View for PasteOutcome {
    type V = PasteView;

    open spec fn view(&self) -> PasteView {
        PasteView {
            created: path::path_views(self.created@),
            succeeded: path::path_views(self.succeeded_sources@),
            moved: path::path_views(self.moved_sources@),
            failed: failed_views(self.failed@),
            changed: self.destination_changed,
        }
    }
}

/// Nothing pasted.
pub open spec fn nothing_pasted() -> PasteView {
    PasteView {
        created: Seq::empty(),
        succeeded: Seq::empty(),
        moved: Seq::empty(),
        failed: Seq::empty(),
        changed: false,
    }
}

impl Default for PasteOutcome {
    fn default() -> (r: PasteOutcome)
        ensures
            r@ == nothing_pasted(),
    {
        let r = PasteOutcome {
            created: Vec::new(),
            succeeded_sources: Vec::new(),
            moved_sources: Vec::new(),
            failed: Vec::new(),
            destination_changed: false,
        };
        assert(r@ =~= nothing_pasted());
        r
    }
}

/// What was found out about one source, and what transferring it came to where that was tried.
#[derive(Debug)]
pub struct PasteReport {
    /// Whether something was where it would go.
    pub dest_existed: bool,
    pub result: Result<(), String>,
    /// Whether something is there afterwards.
    pub dest_exists: bool,
}

/// Why a source is not pasted into a directory, where it is not.
pub open spec fn paste_refusal(src: Seq<u8>, dest_dir: Seq<u8>, dest_existed: bool) -> Option<
    Seq<char>,
> {
    match destination(src, dest_dir) {
        None => Some("source has no file name"@),
        Some(dest) => if path::same_path(dest, src) {
            Some("source and destination are the same"@)
        } else if dest_existed {
            Some(display_text::shown(dest) + " already exists"@)
        } else {
            None
        },
    }
}

/// Decides whether a source is pasted into a directory: where it goes, or why not.
pub fn plan_paste(src: &FsPath, dest_dir: &FsPath, dest_existed: bool) -> (r: Result<
    FsPath,
    String,
>)
    ensures
        match r {
            Ok(dest) => destination(src@, dest_dir@) == Some(dest@) && paste_refusal(
                src@,
                dest_dir@,
                dest_existed,
            ) is None,
            Err(e) => paste_refusal(src@, dest_dir@, dest_existed) == Some(e@),
        },
{
    let name = match src.file_name() {
        Some(n) => n,
        None => {
            return Err("source has no file name".to_owned());
        },
    };
    let dest = dest_dir.join_bytes(name.as_slice());
    if dest.same(src) {
        return Err("source and destination are the same".to_owned());
    }
    if dest_existed {
        let shown = display_text::path(&dest);
        return Err(concat2(shown.as_str(), " already exists"));
    }
    Ok(dest)
}

/// What pasting has come to after one more source.
pub open spec fn pasted(
    o: PasteView,
    src: Seq<u8>,
    kind: ClipboardKind,
    dest_dir: Seq<u8>,
    report: PasteReport,
) -> PasteView {
    match paste_refusal(src, dest_dir, report.dest_existed) {
        Some(e) => PasteView { failed: o.failed.push((src, e)), ..o },
        None => {
            let dest = destination(src, dest_dir)->0;
            match report.result {
                Ok(_) => PasteView {
                    created: o.created.push(dest),
                    succeeded: o.succeeded.push(src),
                    moved: if kind == ClipboardKind::Cut {
                        o.moved.push(src)
                    } else {
                        o.moved
                    },
                    changed: true,
                    ..o
                },
                Err(e) => PasteView {
                    created: if report.dest_exists {
                        o.created.push(dest)
                    } else {
                        o.created
                    },
                    changed: o.changed || report.dest_exists,
                    failed: o.failed.push((src, e@)),
                    ..o
                },
            }
        },
    }
}

/// What pasting has come to after the first `n` sources.
pub open spec fn pasted_all(
    paths: Seq<Seq<u8>>,
    kind: ClipboardKind,
    dest_dir: Seq<u8>,
    reports: Seq<PasteReport>,
    n: int,
) -> PasteView
    decreases n,
{
    if n <= 0 {
        nothing_pasted()
    } else {
        pasted(
            pasted_all(paths, kind, dest_dir, reports, n - 1),
            paths[n - 1],
            kind,
            dest_dir,
            reports[n - 1],
        )
    }
}

/// Adds a path to a list.
fn push_path(list: &mut Vec<FsPath>, p: FsPath)
    ensures
        path::path_views(final(list)@) == path::path_views(old(list)@).push(p@),
{
    let ghost before = path::path_views(list@);
    let ghost v = p@;
    list.push(p);
    assert(path::path_views(list@) =~= before.push(v));
}

/// Adds a failure to a list.
fn push_failure(list: &mut Vec<(FsPath, String)>, p: FsPath, e: String)
    ensures
        failed_views(final(list)@) == failed_views(old(list)@).push((p@, e@)),
{
    let ghost before = failed_views(list@);
    let ghost v = (p@, e@);
    list.push((p, e));
    assert(failed_views(list@) =~= before.push(v));
}

impl PasteOutcome {
    /// Takes in what was found out about one source.
    pub fn record(
        &mut self,
        src: &FsPath,
        kind: ClipboardKind,
        dest_dir: &FsPath,
        report: &PasteReport,
    )
        ensures
            final(self)@ == pasted(old(self)@, src@, kind, dest_dir@, *report),
    {
        let ghost before = self@;
        match plan_paste(src, dest_dir, report.dest_existed) {
            Err(e) => {
                push_failure(&mut self.failed, src.clone(), e);
            },
            Ok(dest) => match &report.result {
                Ok(_) => {
                    self.destination_changed = true;
                    push_path(&mut self.created, dest);
                    push_path(&mut self.succeeded_sources, src.clone());
                    match kind {
                        ClipboardKind::Cut => push_path(&mut self.moved_sources, src.clone()),
                        ClipboardKind::Copy => {},
                    }
                },
                Err(e) => {
                    if report.dest_exists {
                        self.destination_changed = true;
                        push_path(&mut self.created, dest);
                    }
                    push_failure(&mut self.failed, src.clone(), e.clone());
                },
            },
        }
        assert(self@ =~= pasted(before, src@, kind, dest_dir@, *report));
    }
}

/// What pasting paths into a directory came to, with what was found out about each of them.
pub fn paste_paths(
    paths: &Vec<FsPath>,
    kind: ClipboardKind,
    dest_dir: &FsPath,
    reports: &Vec<PasteReport>,
) -> (r: PasteOutcome)
    requires
        reports@.len() == paths@.len(),
    ensures
        r@ == pasted_all(
            path::path_views(paths@),
            kind,
            dest_dir@,
            reports@,
            paths@.len() as int,
        ),
{
    let mut out = PasteOutcome::default();
    let ghost views = path::path_views(paths@);
    let mut i: usize = 0;
    while i < paths.len()
        invariant
            i <= paths@.len() == reports@.len(),
            views == path::path_views(paths@),
            out@ == pasted_all(views, kind, dest_dir@, reports@, i as int),
        decreases paths@.len() - i,
    {
        assert(views[i as int] == paths@[i as int]@);
        out.record(&paths[i], kind, dest_dir, &reports[i]);
        i += 1;
    }
    out
}

/// The directories that paths are in, in the order of the paths.
pub open spec fn parents_of(paths: Seq<Seq<u8>>) -> Seq<Seq<u8>>
    decreases paths.len(),
{
    if paths.len() == 0 {
        Seq::empty()
    } else {
        let rest = parents_of(paths.drop_last());
        match path::parent_of(paths.last()) {
            Some(p) => rest.push(p),
            None => rest,
        }
    }
}

/// Adds the directories that paths are in to a list, each once.
pub fn push_parents(list: &mut Vec<FsPath>, paths: &Vec<FsPath>)
    ensures
        path::path_views(final(list)@) == path_list::all_pushed(
            path::path_views(old(list)@),
            parents_of(path::path_views(paths@)),
        ),
{
    let ghost start = path::path_views(list@);
    let ghost views = path::path_views(paths@);
    let mut i: usize = 0;
    assert(views.take(0) =~= Seq::empty());
    while i < paths.len()
        invariant
            i <= paths@.len(),
            views == path::path_views(paths@),
            path::path_views(list@) == path_list::all_pushed(
                start,
                parents_of(views.take(i as int)),
            ),
        decreases paths@.len() - i,
    {
        proof {
            assert(views.take(i + 1).drop_last() =~= views.take(i as int));
            assert(views.take(i + 1).last() == paths@[i as int]@);
        }
        match paths[i].parent() {
            Some(p) => {
                let ghost v = p@;
                push_unique(list, p);
                proof {
                    let done = parents_of(views.take(i as int));
                    assert(done.push(v).drop_last() =~= done);
                }
            },
            None => {},
        }
        i += 1;
    }
    assert(views.take(i as int) =~= views);
}

/// The directories that pasting has changed, each once: the destination where it has, and those
/// that files were moved out of.
pub open spec fn paste_dirs(o: PasteView, dest_dir: Seq<u8>) -> Seq<Seq<u8>> {
    path_list::all_pushed(
        if o.changed {
            seq![dest_dir]
        } else {
            Seq::empty()
        },
        parents_of(o.moved),
    )
}

/// The directories that pasting has changed.
pub fn paste_reload_dirs(outcome: &PasteOutcome, dest_dir: &FsPath) -> (r: Vec<FsPath>)
    ensures
        path::path_views(r@) == paste_dirs(outcome@, dest_dir@),
{
    let mut dirs: Vec<FsPath> = Vec::new();
    assert(path::path_views(dirs@) =~= Seq::empty());
    if outcome.destination_changed {
        push_path(&mut dirs, dest_dir.clone());
        assert(path::path_views(dirs@) =~= seq![dest_dir@]);
    }
    push_parents(&mut dirs, &outcome.moved_sources);
    dirs
}

/// The directories to reload after files were dropped into a directory: that one in any case, and
/// those that have changed.
pub open spec fn drop_dirs(o: PasteView, dest_dir: Seq<u8>) -> Seq<Seq<u8>> {
    let dirs = paste_dirs(o, dest_dir);
    if dirs.len() > 0 && path::same_path(dirs[0], dest_dir) {
        seq![dest_dir] + dirs.skip(1)
    } else {
        seq![dest_dir] + dirs
    }
}

/// The directories to reload after files were dropped into a directory.
pub fn drop_reload_dirs(outcome: &PasteOutcome, dest_dir: &FsPath) -> (r: Vec<FsPath>)
    ensures
        path::path_views(r@) == drop_dirs(outcome@, dest_dir@),
{
    let mut dirs = paste_reload_dirs(outcome, dest_dir);
    let ghost all = path::path_views(dirs@);
    assert(all.len() == dirs@.len());
    if dirs.len() > 0 && dirs[0].same(dest_dir) {
        dirs.set(0, dest_dir.clone());
        assert(path::path_views(dirs@) =~= seq![dest_dir@] + all.skip(1));
    } else {
        dirs.insert(0, dest_dir.clone());
        assert(path::path_views(dirs@) =~= seq![dest_dir@] + all);
    }
    dirs
}

/// A count of items, with the verb before it.
pub open spec fn items_text(verb: Seq<char>, count: nat) -> Seq<char> {
    verb + " "@ + text::decimal(count) + " item"@ + if count == 1 {
        Seq::<char>::empty()
    } else {
        "s"@
    }
}

/// A count of items, with the verb before it.
pub fn items_message(verb: &str, count: usize) -> (r: String)
    ensures
        r@ == items_text(verb@, count as nat),
{
    let mut out = concat2(verb, " ");
    push_decimal(&mut out, count as u64);
    out.push_str(" item");
    if count != 1 {
        out.push_str("s");
    }
    assert(out@ =~= items_text(verb@, count as nat));
    out
}

/// What is said of failures, each with the same words before the path.
pub open spec fn failure_lines(front: Seq<char>, failed: Seq<(Seq<u8>, Seq<char>)>) -> Seq<
    Seq<char>,
> {
    failed.map_values(
        |f: (Seq<u8>, Seq<char>)| front + display_text::shown(f.0) + ": "@ + f.1,
    )
}

/// Adds what is said of failures to a list.
pub fn push_failure_lines(list: &mut Vec<String>, front: &str, failed: &Vec<(FsPath, String)>)
    ensures
        text::text_views(final(list)@) == text::text_views(old(list)@) + failure_lines(
            front@,
            failed_views(failed@),
        ),
{
    let ghost start = text::text_views(list@);
    let ghost all = failure_lines(front@, failed_views(failed@));
    let mut i: usize = 0;
    assert(start + all.take(0) =~= start);
    while i < failed.len()
        invariant
            i <= failed@.len(),
            all == failure_lines(front@, failed_views(failed@)),
            text::text_views(list@) == start + all.take(i as int),
        decreases failed@.len() - i,
    {
        let shown = display_text::path(&failed[i].0);
        let mut line = concat3(front, shown.as_str(), ": ");
        line.push_str(failed[i].1.as_str());
        let ghost before = text::text_views(list@);
        let ghost v = line@;
        list.push(line);
        proof {
            assert(text::text_views(list@) =~= before.push(v));
            assert(all[i as int] == v);
            assert(before.push(v) =~= start + all.take(i + 1));
        }
        i += 1;
    }
    assert(all.take(i as int) =~= all);
}

/// What is said of pasting: how many items were pasted or moved, where any were, and each failure.
pub open spec fn paste_lines(o: PasteView, kind: ClipboardKind) -> Seq<Seq<char>> {
    (if o.succeeded.len() > 0 {
        seq![
            items_text(
                if kind == ClipboardKind::Cut {
                    "Moved"@
                } else {
                    "Pasted"@
                },
                o.succeeded.len(),
            ),
        ]
    } else {
        Seq::empty()
    }) + failure_lines("Paste failed for "@, o.failed)
}

/// What is said of pasting.
pub fn paste_messages(outcome: &PasteOutcome, kind: ClipboardKind) -> (r: Vec<String>)
    ensures
        text::text_views(r@) == paste_lines(outcome@, kind),
{
    let mut out: Vec<String> = Vec::new();
    assert(outcome@.succeeded.len() == outcome.succeeded_sources@.len());
    assert(text::text_views(out@) =~= Seq::empty());
    if outcome.succeeded_sources.len() > 0 {
        let verb = match kind {
            ClipboardKind::Cut => "Moved",
            ClipboardKind::Copy => "Pasted",
        };
        out.push(items_message(verb, outcome.succeeded_sources.len()));
        assert(text::text_views(out@) =~= seq![
            items_text(
                if kind == ClipboardKind::Cut {
                    "Moved"@
                } else {
                    "Pasted"@
                },
                outcome@.succeeded.len(),
            ),
        ]);
    }
    push_failure_lines(&mut out, "Paste failed for ", &outcome.failed);
    out
}

/// What is said of files dropped into a directory: each failure.
pub fn drop_messages(outcome: &PasteOutcome) -> (r: Vec<String>)
    ensures
        text::text_views(r@) == failure_lines("Drop failed for "@, outcome@.failed),
{
    let mut out: Vec<String> = Vec::new();
    assert(text::text_views(out@) =~= Seq::empty());
    push_failure_lines(&mut out, "Drop failed for ", &outcome.failed);
    assert(Seq::<Seq<char>>::empty() + failure_lines("Drop failed for "@, outcome@.failed)
        =~= failure_lines("Drop failed for "@, outcome@.failed));
    out
}

/// Every source either succeeds or fails, and only what was cut counts as moved.
pub proof fn every_source_is_accounted_for(
    paths: Seq<Seq<u8>>,
    kind: ClipboardKind,
    dest_dir: Seq<u8>,
    reports: Seq<PasteReport>,
    n: int,
)
    requires
        0 <= n <= paths.len(),
    ensures
        ({
            let o = pasted_all(paths, kind, dest_dir, reports, n);
            &&& o.succeeded.len() + o.failed.len() == n
            &&& o.moved == if kind == ClipboardKind::Cut {
                o.succeeded
            } else {
                Seq::empty()
            }
            &&& o.succeeded.len() <= o.created.len() <= n
            &&& o.created.len() > 0 ==> o.changed
        }),
    decreases n,
{
    if n > 0 {
        every_source_is_accounted_for(paths, kind, dest_dir, reports, n - 1);
    }
}

/// Nothing is ever pasted over what is there: a source whose destination existed, or that is its
/// own destination, fails, and nothing counts as created or moved for it.
pub proof fn nothing_is_pasted_over(
    o: PasteView,
    src: Seq<u8>,
    kind: ClipboardKind,
    dest_dir: Seq<u8>,
    report: PasteReport,
)
    requires
        report.dest_existed || destination(src, dest_dir) == Some(src),
    ensures
        pasted(o, src, kind, dest_dir, report).created == o.created,
        pasted(o, src, kind, dest_dir, report).moved == o.moved,
        pasted(o, src, kind, dest_dir, report).changed == o.changed,
        pasted(o, src, kind, dest_dir, report).failed.len() == o.failed.len() + 1,
{
}

/// A move that may be made goes where nothing is, elsewhere than where the file is, and never puts
/// a directory into itself.
pub proof fn allowed_moves_are_safe(from: Seq<u8>, to_dir: Seq<u8>, facts: MoveFacts)
    requires
        allowed_destination(from, to_dir, facts) is Some,
    ensures
        !facts.dest_exists,
        !path::same_path(from, allowed_destination(from, to_dir, facts)->0),
        facts.source_is_dir ==> !path::path_starts_with(
            canonical_or(facts.canonical_target, to_dir),
            canonical_or(facts.canonical_source, from),
        ),
{
}

/// A file keeps its name where it goes, and what has no name goes nowhere.
pub proof fn file_keeps_its_name(base: Seq<u8>, name: Seq<u8>, to_dir: Seq<u8>)
    requires
        name.len() > 0,
        !name.contains(path::SLASH),
        name != path::here_component(),
        name != path::up_component(),
    ensures
        destination(path::joined(base, name), to_dir) == Some(path::joined(to_dir, name)),
        path::components(destination(path::joined(base, name), to_dir)->0) == path::components(
            to_dir,
        ).push(name),
        destination(seq![path::SLASH], to_dir) is None,
{
    path::parent_undoes_joining(base, name);
    path::joined_name_is_the_last_component(to_dir, name);
    path::root_has_no_name();
}

/// A move is refused only where the file has no name, would stay where it is, would go into itself, or
/// would go where something is; any other one may be made.
pub proof fn other_moves_are_allowed(from: Seq<u8>, to_dir: Seq<u8>, facts: MoveFacts)
    ensures
        allowed_destination(from, to_dir, facts) is Some ==> allowed_destination(
            from,
            to_dir,
            facts,
        ) == destination(from, to_dir),
        destination(from, to_dir) is Some && !facts.dest_exists && !path::same_path(
            from,
            destination(from, to_dir)->0,
        ) && !facts.source_is_dir ==> allowed_destination(from, to_dir, facts) is Some,
        destination(from, to_dir) is Some && !facts.dest_exists && !path::same_path(
            from,
            destination(from, to_dir)->0,
        ) && !path::path_starts_with(
            canonical_or(facts.canonical_target, to_dir),
            canonical_or(facts.canonical_source, from),
        ) ==> allowed_destination(from, to_dir, facts) is Some,
        destination(from, to_dir) is None ==> allowed_destination(from, to_dir, facts) is None,
        facts.canonical_source is Some ==> canonical_or(facts.canonical_source, from)
            == facts.canonical_source->0@,
        facts.canonical_source is None ==> canonical_or(facts.canonical_source, from) == from,
{
}

/// A directory is not put into itself nor into one of its own directories, but may go beside itself.
pub proof fn directory_does_not_go_into_itself(from: Seq<u8>, to_dir: Seq<u8>, facts: MoveFacts)
    requires
        facts.canonical_source is None,
        facts.canonical_target is None,
    ensures
        facts.source_is_dir && path::path_starts_with(to_dir, from) ==> goes_into_itself(
            from,
            to_dir,
            facts,
        ),
        !facts.source_is_dir ==> !goes_into_itself(from, to_dir, facts),
        path::parent_of(from) is Some && path::same_path(path::parent_of(from)->0, to_dir)
            ==> !goes_into_itself(from, to_dir, facts),
        path::same_path(from, to_dir) && facts.source_is_dir ==> goes_into_itself(
            from,
            to_dir,
            facts,
        ),
{
    path::starting_with_is_by_components(from, to_dir);
    path::starting_with_is_by_components(to_dir, from);
    path::parent_has_all_components_but_the_last(from);
}

/// A source stays in place where its destination is the path it has, in whatever spelling, or the same
/// file under another path.
pub proof fn same_file_stays_in_place(from: Seq<u8>, dest: Seq<u8>, facts: MoveFacts)
    ensures
        path::same_path(from, dest) ==> stays_in_place(from, dest, facts),
        facts.dest_exists && facts.canonical_source is Some && facts.canonical_dest is Some
            && path::same_path(facts.canonical_source->0@, facts.canonical_dest->0@)
            ==> stays_in_place(from, dest, facts),
        !path::same_path(from, dest) && !facts.dest_exists ==> !stays_in_place(from, dest, facts),
        !path::same_path(from, dest) && (facts.canonical_source is None || facts.canonical_dest
            is None) ==> !stays_in_place(from, dest, facts),
{
}

/// What is said of a move that was not made: that it is prohibited, or that it failed where the file
/// system did not do it, with the file and the reason.
pub proof fn refused_move_is_told(
    from: Seq<u8>,
    name: String,
    dir: String,
    said: String,
    kind: FailureKind,
)
    ensures
        move_error_text(from, MoveError::Io(FailureKind::Other, said)) == "Move failed for "@
            + display_text::shown(from) + ": "@ + said@,
        kind != FailureKind::Other ==> move_error_text(from, MoveError::Io(kind, said))
            == "Move prohibited for "@ + display_text::shown(from) + ": "@ + said@,
        move_error_text(from, MoveError::NoFileName) == "Move prohibited for "@
            + display_text::shown(from) + ": "@
            + "move is prohibited because the source has no file name"@,
        MoveError::SamePlace(name, dir).text() == "move is prohibited because '"@ + name@
            + "' is already in '"@ + dir@ + "'"@,
        MoveError::AlreadyThere(name).text()
            == "move is prohibited because the destination already contains '"@ + name@ + "'"@,
        MoveError::IntoItself.text()
            == "move is prohibited because a folder cannot be moved into itself or one of its subfolders"@,
{
}

/// A source that could be pasted is created at its destination and counts as done, and as moved where it
/// was cut. One that could not counts as failed, with the error; what it left half done counts as
/// created.
pub proof fn pasted_source_is_counted(
    o: PasteView,
    src: Seq<u8>,
    kind: ClipboardKind,
    dest_dir: Seq<u8>,
    report: PasteReport,
)
    requires
        destination(src, dest_dir) is Some,
        !path::same_path(destination(src, dest_dir)->0, src),
        !report.dest_existed,
    ensures
        ({
            let after = pasted(o, src, kind, dest_dir, report);
            let dest = destination(src, dest_dir)->0;
            &&& report.result is Ok ==> after.created == o.created.push(dest) && after.succeeded
                == o.succeeded.push(src) && after.failed == o.failed && after.changed
            &&& report.result is Ok && kind == ClipboardKind::Cut ==> after.moved == o.moved.push(src)
            &&& report.result is Err || kind == ClipboardKind::Copy ==> after.moved == o.moved
            &&& report.result is Err ==> after.succeeded == o.succeeded && after.failed
                == o.failed.push((src, report.result->Err_0@))
            &&& report.result is Err && report.dest_exists ==> after.created == o.created.push(dest)
                && after.changed
            &&& report.result is Err && !report.dest_exists ==> after.created == o.created
                && after.changed == o.changed
        }),
{
}

/// A source that is refused fails with the reason: it has no name, it is its own destination, or
/// something is there.
pub proof fn refused_source_fails_with_the_reason(
    o: PasteView,
    src: Seq<u8>,
    kind: ClipboardKind,
    dest_dir: Seq<u8>,
    report: PasteReport,
)
    ensures
        ({
            let after = pasted(o, src, kind, dest_dir, report);
            let dest = destination(src, dest_dir);
            &&& dest is None ==> after == (PasteView {
                failed: o.failed.push((src, "source has no file name"@)),
                ..o
            })
            &&& dest is Some && path::same_path(dest->0, src) ==> after == (PasteView {
                failed: o.failed.push((src, "source and destination are the same"@)),
                ..o
            })
            &&& dest is Some && !path::same_path(dest->0, src) && report.dest_existed ==> after
                == (PasteView {
                failed: o.failed.push((src, display_text::shown(dest->0) + " already exists"@)),
                ..o
            })
        }),
{
}

/// Sources are pasted in their order, from nothing on.
pub proof fn sources_are_pasted_in_turn(
    paths: Seq<Seq<u8>>,
    kind: ClipboardKind,
    dest_dir: Seq<u8>,
    reports: Seq<PasteReport>,
    n: int,
)
    requires
        0 <= n,
    ensures
        ({
            let none = pasted_all(paths, kind, dest_dir, reports, 0);
            &&& none.created.len() == 0 && none.succeeded.len() == 0 && none.moved.len() == 0
            &&& none.failed.len() == 0 && !none.changed
        }),
        pasted_all(paths, kind, dest_dir, reports, n + 1) == pasted(
            pasted_all(paths, kind, dest_dir, reports, n),
            paths[n],
            kind,
            dest_dir,
            reports[n],
        ),
{
}

/// The directories above some paths, in their order.
pub proof fn parents_keep_their_order(a: Seq<Seq<u8>>, b: Seq<Seq<u8>>, p: Seq<u8>)
    ensures
        parents_of(a + b) == parents_of(a) + parents_of(b),
        path::parent_of(p) is Some ==> parents_of(seq![p]) == seq![path::parent_of(p)->0],
        path::parent_of(p) is None ==> parents_of(seq![p]).len() == 0,
    decreases b.len(),
{
    reveal_with_fuel(parents_of, 2);
    assert(seq![p].drop_last() =~= Seq::<Seq<u8>>::empty());
    assert(path::parent_of(p) is Some ==> parents_of(seq![p]) =~= seq![path::parent_of(p)->0]);
    if b.len() == 0 {
        assert(a + b =~= a);
        assert(parents_of(a) + parents_of(b) =~= parents_of(a));
    } else {
        parents_keep_their_order(a, b.drop_last(), p);
        assert((a + b).drop_last() =~= a + b.drop_last());
        assert((a + b).last() == b.last());
        assert(parents_of(a + b) =~= parents_of(a) + parents_of(b));
    }
}

/// Pasting reads again the directory that it changed and those that something was moved out of, each
/// once, and no other.
pub proof fn pasting_reloads_what_changed(o: PasteView, dest_dir: Seq<u8>, i: int, k: int)
    ensures
        o.changed ==> path::has_path(paste_dirs(o, dest_dir), dest_dir),
        0 <= i < parents_of(o.moved).len() ==> path::has_path(
            paste_dirs(o, dest_dir),
            parents_of(o.moved)[i],
        ),
        path::distinct_paths(paste_dirs(o, dest_dir)),
        0 <= k < paste_dirs(o, dest_dir).len() ==> (o.changed && paste_dirs(o, dest_dir)[k]
            == dest_dir) || parents_of(o.moved).contains(paste_dirs(o, dest_dir)[k]),
        drop_dirs(o, dest_dir).len() > 0 && drop_dirs(o, dest_dir)[0] == dest_dir,
        o.changed ==> drop_dirs(o, dest_dir) == paste_dirs(o, dest_dir),
{
    let one = seq![dest_dir];
    let none = Seq::<Seq<u8>>::empty();
    let start = if o.changed {
        one
    } else {
        none
    };
    assert(path::same_path(one[0], dest_dir));
    assert(path::has_path(one, dest_dir));
    path_list::all_pushed_paths_are_in_once(start, parents_of(o.moved));
    path_list::pushed_paths_stand_behind(start, parents_of(o.moved));
    let dirs = paste_dirs(o, dest_dir);
    if o.changed {
        assert(dirs[0] == one[0]);
        assert(drop_dirs(o, dest_dir) =~= dirs);
    }
    if 0 <= k < dirs.len() && k < start.len() {
        assert(dirs[k] == start[k]);
    }
}

/// What is said of pasting: how many items were moved or pasted, where any were, and a line for each
/// that failed, with the reason.
pub proof fn pasting_is_told(o: PasteView, kind: ClipboardKind, i: int)
    ensures
        ({
            let lines = paste_lines(o, kind);
            let n = o.succeeded.len();
            let first: int = if n > 0 {
                1
            } else {
                0
            };
            &&& lines.len() == first + o.failed.len()
            &&& n > 0 && kind == ClipboardKind::Cut ==> lines[0] == items_text("Moved"@, n)
            &&& n > 0 && kind == ClipboardKind::Copy ==> lines[0] == items_text("Pasted"@, n)
            &&& 0 <= i < o.failed.len() ==> lines[first + i] == "Paste failed for "@
                + display_text::shown(o.failed[i].0) + ": "@ + o.failed[i].1
        }),
{
}

/// Items are counted, and one item is no items.
pub proof fn items_are_counted(verb: Seq<char>, n: nat)
    ensures
        n == 1 ==> items_text(verb, n) == verb + " "@ + text::decimal(1) + " item"@,
        n != 1 ==> items_text(verb, n) == verb + " "@ + text::decimal(n) + " item"@ + "s"@,
{
    if n == 1 {
        assert(items_text(verb, n) =~= verb + " "@ + text::decimal(1) + " item"@);
    }
}

/// What came of pasting is seen part by part.
pub proof fn what_was_pasted_is_seen_part_by_part(
    o: PasteOutcome,
    failed: Seq<(FsPath, String)>,
    i: int,
)
    ensures
        o@.created == path::path_views(o.created@),
        o@.succeeded == path::path_views(o.succeeded_sources@),
        o@.moved == path::path_views(o.moved_sources@),
        o@.changed == o.destination_changed,
        o@.failed.len() == o.failed@.len(),
        failed_views(failed).len() == failed.len(),
        0 <= i < failed.len() ==> failed_views(failed)[i].0 == (failed[i].0)@ && failed_views(
            failed,
        )[i].1 == (failed[i].1)@,
        nothing_pasted().created.len() == 0,
        nothing_pasted().succeeded.len() == 0,
        nothing_pasted().moved.len() == 0,
        nothing_pasted().failed.len() == 0,
        !nothing_pasted().changed,
{
}

} // verus!
