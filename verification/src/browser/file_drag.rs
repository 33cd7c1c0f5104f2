//! Files that are dragged: where a drop inside the window goes, and what a drag out of it came to.

use vstd::prelude::*;

use crate::browser::panes::PaneSide;
use crate::browser::tab;
use crate::browser::tab::remap_paths;
use crate::browser::transfer;
use crate::browser::transfer::{move_error_message, push_parents, MoveError};
use crate::model::display_text;
use crate::path;
use crate::path::FsPath;
use crate::path_list;
use crate::path_list::copy_paths;
use crate::text;
use crate::text::{concat2, push_decimal};

verus! {

/// Files that are being dragged, and the pane that they come from.
#[derive(Debug)]
pub struct FileDragState {
    pub paths: Vec<FsPath>,
    pub origin_pane: PaneSide,
}

/// A drop inside the window: files and the directory that they go to.
#[derive(Debug)]
pub struct InternalFileDrop {
    pub paths: Vec<FsPath>,
    pub destination: FsPath,
}

/// A drop by its views.
pub open spec fn drop_view(d: Option<InternalFileDrop>) -> Option<(Seq<Seq<u8>>, Seq<u8>)> {
    match d {
        Some(x) => Some((path::path_views(x.paths@), x.destination@)),
        None => None,
    }
}

/// What a drag out of the window came to.
#[derive(Clone, Copy, Debug, PartialEq, Eq, Structural)]
pub enum ExternalDragResult {
    Cancelled,
    Copy,
    Move,
    Other(usize),
}

/// What the number of a drag operation says.
pub open spec fn result_of(operation: usize) -> ExternalDragResult {
    if operation == 0 {
        ExternalDragResult::Cancelled
    } else if operation == 1 {
        ExternalDragResult::Copy
    } else if operation == 16 {
        ExternalDragResult::Move
    } else {
        ExternalDragResult::Other(operation)
    }
}

/// What the number of a drag operation says.
pub fn classify_external_drag_operation(operation: usize) -> (r: ExternalDragResult)
    ensures
        r == result_of(operation),
{
    match operation {
        0 => ExternalDragResult::Cancelled,
        1 => ExternalDragResult::Copy,
        16 => ExternalDragResult::Move,
        other => ExternalDragResult::Other(other),
    }
}

/// The directories that dragged files come from, each once.
pub open spec fn source_dirs(paths: Seq<Seq<u8>>) -> Seq<Seq<u8>> {
    path_list::each_once(transfer::parents_of(paths))
}

/// The directories that dragged files come from, each once.
pub fn external_drag_source_dirs(paths: &Vec<FsPath>) -> (r: Vec<FsPath>)
    ensures
        path::path_views(r@) == source_dirs(path::path_views(paths@)),
{
    let mut dirs: Vec<FsPath> = Vec::new();
    assert(path::path_views(dirs@) =~= Seq::empty());
    push_parents(&mut dirs, paths);
    dirs
}

/// Where files go that are dropped: to a directory that was pointed at, and else from one pane to
/// the directory that the other one shows.
pub open spec fn resolved(
    explicit: Option<(Seq<Seq<u8>>, Seq<u8>)>,
    drag: Option<(Seq<Seq<u8>>, PaneSide)>,
    hovered: Option<PaneSide>,
    left: Seq<u8>,
    right: Option<Seq<u8>>,
) -> Option<(Seq<Seq<u8>>, Seq<u8>)> {
    if explicit is Some {
        explicit
    } else {
        match (drag, hovered) {
            (Some(d), Some(h)) => if d.1 == h {
                None
            } else {
                match h {
                    PaneSide::Left => Some((d.0, left)),
                    PaneSide::Right => match right {
                        Some(r) => Some((d.0, r)),
                        None => None,
                    },
                }
            },
            _ => None,
        }
    }
}

/// A drag by its views.
pub open spec fn drag_view(d: Option<&FileDragState>) -> Option<(Seq<Seq<u8>>, PaneSide)> {
    match d {
        Some(x) => Some((path::path_views(x.paths@), x.origin_pane)),
        None => None,
    }
}

/// Decides where files go that are dropped.
pub fn resolve_internal_file_drop(
    explicit_target: Option<InternalFileDrop>,
    drag: Option<&FileDragState>,
    hovered_pane: Option<PaneSide>,
    left_directory: &FsPath,
    right_directory: Option<&FsPath>,
) -> (r: Option<InternalFileDrop>)
    ensures
        drop_view(r) == resolved(
            drop_view(explicit_target),
            drag_view(drag),
            hovered_pane,
            left_directory@,
            match right_directory {
                Some(d) => Some(d@),
                None => None,
            },
        ),
{
    if explicit_target.is_some() {
        return explicit_target;
    }
    let d = match drag {
        Some(d) => d,
        None => {
            return None;
        },
    };
    let destination = match (d.origin_pane, hovered_pane) {
        (PaneSide::Right, Some(PaneSide::Left)) => left_directory.clone(),
        (PaneSide::Left, Some(PaneSide::Right)) => match right_directory {
            Some(r) => r.clone(),
            None => {
                return None;
            },
        },
        _ => {
            return None;
        },
    };
    Some(InternalFileDrop { paths: copy_paths(&d.paths), destination })
}

/// The directories that a drop changes, each once: the destination, and those that the files come
/// from.
pub open spec fn drop_dirs(paths: Seq<Seq<u8>>, destination: Seq<u8>) -> Seq<Seq<u8>> {
    path_list::all_pushed(seq![destination], transfer::parents_of(paths))
}

/// The directories that a drop changes, each once.
pub fn internal_drop_reload_dirs(paths: &Vec<FsPath>, destination: &FsPath) -> (r: Vec<FsPath>)
    ensures
        path::path_views(r@) == drop_dirs(path::path_views(paths@), destination@),
{
    let mut dirs: Vec<FsPath> = Vec::new();
    dirs.push(destination.clone());
    assert(path::path_views(dirs@) =~= seq![destination@]);
    push_parents(&mut dirs, paths);
    dirs
}

/// What is said of a file that was dropped.
pub open spec fn drop_text(source: Seq<u8>, result: Result<FsPath, MoveError>) -> Seq<char> {
    match result {
        Ok(_) => "Moved: "@ + display_text::shown_name(source),
        Err(e) => transfer::move_error_text(source, e),
    }
}

/// What is said of a file that was dropped.
pub fn drop_message(source: &FsPath, result: &Result<FsPath, MoveError>) -> (r: String)
    ensures
        r@ == drop_text(source@, *result),
{
    match result {
        Ok(_) => {
            let name = display_text::file_name(source);
            concat2("Moved: ", name.as_str())
        },
        Err(e) => move_error_message(source, e),
    }
}

/// How dragged files are called: the name of one, and how many there are of more.
pub open spec fn drag_label_text(paths: Seq<Seq<u8>>) -> Seq<char> {
    if paths.len() == 1 {
        display_text::shown_name(paths[0])
    } else {
        text::decimal(paths.len()) + " items"@
    }
}

impl FileDragState {
    /// How the dragged files are called.
    pub fn label(&self) -> (r: String)
        ensures
            r@ == drag_label_text(path::path_views(self.paths@)),
    {
        let ghost views = path::path_views(self.paths@);
        assert(views.len() == self.paths@.len());
        if self.paths.len() == 1 {
            assert(views[0] == self.paths@[0]@);
            display_text::file_name(&self.paths[0])
        } else {
            let mut out: String = String::new();
            push_decimal(&mut out, self.paths.len() as u64);
            out.push_str(" items");
            assert(out@ =~= text::decimal(views.len()) + " items"@);
            out
        }
    }

    /// Follows a directory that has been renamed.
    pub fn follow_rename(&mut self, old_path: &FsPath, new_path: &FsPath)
        ensures
            path::path_views(final(self).paths@) == path::path_views(
                old(self).paths@,
            ).map_values(|p: Seq<u8>| tab::remapped(p, old_path@, new_path@)),
            final(self).origin_pane == old(self).origin_pane,
    {
        remap_paths(&mut self.paths, old_path, new_path);
    }
}

/// What is said when dragged files are no longer there.
pub open spec fn cancelled_text(missing: nat) -> Seq<char> {
    "Cancelled drag because "@ + text::decimal(missing) + " source item"@ + (if missing == 1 {
        Seq::<char>::empty()
    } else {
        "s"@
    }) + " no longer exist"@ + (if missing == 1 {
        "s"@
    } else {
        Seq::<char>::empty()
    })
}

/// What is said when dragged files are no longer there; nothing where all are.
pub fn cancelled_message(missing: usize) -> (r: Option<String>)
    ensures
        text::optional_text(r) == if missing == 0 {
            None
        } else {
            Some(cancelled_text(missing as nat))
        },
{
    if missing == 0 {
        return None;
    }
    let mut out = "Cancelled drag because ".to_owned();
    push_decimal(&mut out, missing as u64);
    out.push_str(" source item");
    if missing != 1 {
        out.push_str("s");
    }
    out.push_str(" no longer exist");
    if missing == 1 {
        out.push_str("s");
    }
    assert(out@ =~= cancelled_text(missing as nat));
    Some(out)
}

/// How long the other program has to finish a move before its directories are reloaded, in
/// nanoseconds.
pub const MOVE_SETTLE_TIME: u64 = 300_000_000;

/// The directories to reload after a drag out of the window, and when. Times are in nanoseconds.
#[derive(Debug)]
pub struct ExternalDragReload {
    pub pending: Option<(u64, Vec<FsPath>)>,
}

/// What is pending, by its views.
pub open spec fn pending_view(p: Option<(u64, Vec<FsPath>)>) -> Option<(u64, Seq<Seq<u8>>)> {
    match p {
        Some(x) => Some((x.0, path::path_views(x.1@))),
        None => None,
    }
}

impl ExternalDragReload {
    /// Takes in that a drag has ended. Only a move changes where the files came from, and those
    /// directories are reloaded a little later. Says whether it was one.
    pub fn drag_ended(&mut self, operation: usize, paths: Vec<FsPath>, now: u64) -> (r: bool)
        requires
            now + MOVE_SETTLE_TIME <= u64::MAX,
        ensures
            r == (result_of(operation) == ExternalDragResult::Move),
            pending_view(final(self).pending) == if r {
                Some(((now + MOVE_SETTLE_TIME) as u64, path::path_views(paths@)))
            } else {
                pending_view(old(self).pending)
            },
    {
        match classify_external_drag_operation(operation) {
            ExternalDragResult::Move => {
                self.pending = Some((now + MOVE_SETTLE_TIME, paths));
                true
            },
            _ => false,
        }
    }

    /// Takes the directories that are to be reloaded now.
    pub fn take_due(&mut self, now: u64) -> (r: Option<Vec<FsPath>>)
        ensures
            match pending_view(old(self).pending) {
                Some(p) => if now >= p.0 {
                    &&& r is Some
                    &&& path::path_views(r->0@) == source_dirs(p.1)
                    &&& final(self).pending is None
                } else {
                    r is None && pending_view(final(self).pending) == Some(p)
                },
                None => r is None && final(self).pending is None,
            },
    {
        let due = match &self.pending {
            Some(p) => now >= p.0,
            None => false,
        };
        if !due {
            return None;
        }
        let mut taken: Option<(u64, Vec<FsPath>)> = None;
        std::mem::swap(&mut self.pending, &mut taken);
        match taken {
            Some(p) => Some(external_drag_source_dirs(&p.1)),
            None => None,
        }
    }
}

/// The number of the next drag gesture: never 0.
pub fn next_gesture_id(id: u64) -> (r: u64)
    ensures
        r == if id == u64::MAX {
            1
        } else {
            (id + 1) as u64
        },
        r >= 1,
{
    if id == u64::MAX {
        1
    } else {
        id + 1
    }
}

/// A directory that was pointed at wins over the directory of the pane.
pub proof fn pointed_directory_wins(
    explicit: (Seq<Seq<u8>>, Seq<u8>),
    drag: Option<(Seq<Seq<u8>>, PaneSide)>,
    hovered: Option<PaneSide>,
    left: Seq<u8>,
    right: Option<Seq<u8>>,
)
    ensures
        resolved(Some(explicit), drag, hovered, left, right) == Some(explicit),
{
}

/// Files dropped on the pane that they come from stay where they are.
pub proof fn drop_on_own_pane_moves_nothing(
    paths: Seq<Seq<u8>>,
    side: PaneSide,
    left: Seq<u8>,
    right: Option<Seq<u8>>,
)
    ensures
        resolved(None, Some((paths, side)), Some(side), left, right) is None,
{
}

/// A drop reloads its destination and every directory that a file comes from, each once.
pub proof fn drop_reloads_each_directory_once(paths: Seq<Seq<u8>>, destination: Seq<u8>, i: int)
    requires
        0 <= i < paths.len(),
        path::parent_of(paths[i]) is Some,
    ensures
        path::distinct_paths(drop_dirs(paths, destination)),
        path::has_path(drop_dirs(paths, destination), destination),
        path::has_path(drop_dirs(paths, destination), path::parent_of(paths[i])->0),
{
    let start = seq![destination];
    assert(path::same_path(start[0], destination));
    assert(path::has_path(start, destination));
    path_list::all_pushed_paths_are_in_once(start, transfer::parents_of(paths));
    lemma_parent_in(paths, i);
    let parents = transfer::parents_of(paths);
    let k = choose|k: int| 0 <= k < parents.len() && parents[k] == path::parent_of(paths[i])->0;
    assert(path::has_path(drop_dirs(paths, destination), parents[k]));
}

proof fn lemma_parent_in(paths: Seq<Seq<u8>>, i: int)
    requires
        0 <= i < paths.len(),
        path::parent_of(paths[i]) is Some,
    ensures
        transfer::parents_of(paths).contains(path::parent_of(paths[i])->0),
    decreases paths.len(),
{
    let all = transfer::parents_of(paths);
    let rest = transfer::parents_of(paths.drop_last());
    if i == paths.len() - 1 {
        assert(all[all.len() - 1] == path::parent_of(paths[i])->0);
    } else {
        lemma_parent_in(paths.drop_last(), i);
        let k = choose|k: int| 0 <= k < rest.len() && rest[k] == path::parent_of(paths[i])->0;
        assert(all[k] == rest[k]);
    }
}

/// Files that are dropped on the other pane go to the directory that is shown there. Dropped nowhere,
/// or where there is no pane, they stay.
pub proof fn drop_on_the_other_pane_goes_there(
    paths: Seq<Seq<u8>>,
    left: Seq<u8>,
    right: Seq<u8>,
    drag: Option<(Seq<Seq<u8>>, PaneSide)>,
    hovered: Option<PaneSide>,
    other: Option<Seq<u8>>,
)
    ensures
        resolved(None, Some((paths, PaneSide::Left)), Some(PaneSide::Right), left, Some(right))
            == Some((paths, right)),
        resolved(None, Some((paths, PaneSide::Right)), Some(PaneSide::Left), left, other) == Some(
            (paths, left),
        ),
        resolved(None, Some((paths, PaneSide::Left)), Some(PaneSide::Right), left, None) is None,
        resolved(None, None, hovered, left, other) is None,
        resolved(None, drag, None, left, other) is None,
{
}

/// How a drag to another program ended is told by the number of its operation.
pub proof fn operations_have_their_numbers(operation: usize)
    ensures
        result_of(0) == ExternalDragResult::Cancelled,
        result_of(1) == ExternalDragResult::Copy,
        result_of(16) == ExternalDragResult::Move,
        operation != 0 && operation != 1 && operation != 16 ==> result_of(operation)
            == ExternalDragResult::Other(operation),
{
}

/// A drop reads again its destination first, and besides it only directories that a file comes from.
pub proof fn drop_reloads_nothing_else(paths: Seq<Seq<u8>>, destination: Seq<u8>, k: int)
    requires
        0 <= k < drop_dirs(paths, destination).len(),
    ensures
        drop_dirs(paths, destination)[0] == destination,
        k > 0 ==> transfer::parents_of(paths).contains(drop_dirs(paths, destination)[k]),
        forall|i: int|
            0 <= i < source_dirs(paths).len() ==> transfer::parents_of(paths).contains(
                #[trigger] source_dirs(paths)[i],
            ),
        path::distinct_paths(source_dirs(paths)),
        forall|i: int|
            0 <= i < transfer::parents_of(paths).len() ==> path::has_path(
                source_dirs(paths),
                #[trigger] transfer::parents_of(paths)[i],
            ),
{
    let start = seq![destination];
    let none = Seq::<Seq<u8>>::empty();
    path_list::pushed_paths_stand_behind(start, transfer::parents_of(paths));
    path_list::pushed_paths_stand_behind(none, transfer::parents_of(paths));
    path_list::all_pushed_paths_are_in_once(none, transfer::parents_of(paths));
    assert(drop_dirs(paths, destination)[0] == start[0]);
}

/// What is said of a dropped file: that it was moved, or why not.
pub proof fn drop_is_told(source: Seq<u8>, result: Result<FsPath, MoveError>)
    ensures
        result is Ok ==> drop_text(source, result) == "Moved: "@ + display_text::shown_name(source),
        result is Err ==> drop_text(source, result) == transfer::move_error_text(
            source,
            result->Err_0,
        ),
{
}

/// Dragged files are labelled by the name of the only one, or by how many there are.
pub proof fn dragged_files_are_labelled(paths: Seq<Seq<u8>>, missing: nat)
    ensures
        paths.len() == 1 ==> drag_label_text(paths) == display_text::shown_name(paths[0]),
        paths.len() != 1 ==> drag_label_text(paths) == text::decimal(paths.len()) + " items"@,
        missing == 1 ==> cancelled_text(missing) == "Cancelled drag because "@ + text::decimal(1)
            + " source item"@ + " no longer exist"@ + "s"@,
        missing != 1 ==> cancelled_text(missing) == "Cancelled drag because "@ + text::decimal(
            missing,
        ) + " source item"@ + "s"@ + " no longer exist"@,
        MOVE_SETTLE_TIME == 300_000_000,
{
    let none = Seq::<char>::empty();
    if missing == 1 {
        assert(cancelled_text(missing) =~= "Cancelled drag because "@ + text::decimal(1)
            + " source item"@ + " no longer exist"@ + "s"@);
    } else {
        assert(cancelled_text(missing) =~= "Cancelled drag because "@ + text::decimal(missing)
            + " source item"@ + "s"@ + " no longer exist"@);
    }
}

} // verus!
