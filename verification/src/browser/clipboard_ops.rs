//! Files on the clipboard: what was cut or copied here, and what pasting does with it.

use vstd::prelude::*;

use crate::browser::transfer;
use crate::browser::transfer::{items_message, ClipboardKind, PasteOutcome};
use crate::path;
use crate::path::FsPath;
use crate::path_list::{contains_path, copy_paths};
use crate::platform::clipboard::FileClipboard;
use crate::text;
use crate::text::concat2;

verus! {

/// What was cut or copied here, and the count of changes that the clipboard had then.
#[derive(Debug)]
pub struct ClipboardOp {
    pub kind: ClipboardKind,
    pub paths: Vec<FsPath>,
    pub change_count: i64,
}

/// What was cut or copied, by its parts.
#[verifier::ext_equal]
pub struct OpView {
    pub kind: ClipboardKind,
    pub paths: Seq<Seq<u8>>,
    pub change_count: i64,
}

impl View for ClipboardOp {
    type V = OpView;

    open spec fn view(&self) -> OpView {
        OpView {
            kind: self.kind,
            paths: path::path_views(self.paths@),
            change_count: self.change_count,
        }
    }
}

/// An optional operation by its parts.
pub open spec fn op_view(op: Option<ClipboardOp>) -> Option<OpView> {
    match op {
        Some(o) => Some(o@),
        None => None,
    }
}

/// Whether two lists hold the same paths in the same order, in any spelling.
pub open spec fn same_paths(a: Seq<Seq<u8>>, b: Seq<Seq<u8>>) -> bool {
    &&& a.len() == b.len()
    &&& forall|i: int| 0 <= i < a.len() ==> path::same_path(#[trigger] a[i], b[i])
}

/// Whether two lists hold the same paths in the same order.
pub fn paths_match(a: &Vec<FsPath>, b: &Vec<FsPath>) -> (r: bool)
    ensures
        r == same_paths(path::path_views(a@), path::path_views(b@)),
{
    let ghost x = path::path_views(a@);
    let ghost y = path::path_views(b@);
    assert(x.len() == a@.len() && y.len() == b@.len());
    if a.len() != b.len() {
        return false;
    }
    let mut i: usize = 0;
    while i < a.len()
        invariant
            i <= a@.len() == b@.len(),
            x == path::path_views(a@),
            y == path::path_views(b@),
            forall|k: int| 0 <= k < i ==> path::same_path(#[trigger] x[k], y[k]),
        decreases a@.len() - i,
    {
        assert(x[i as int] == a@[i as int]@ && y[i as int] == b@[i as int]@);
        if !a[i].same(&b[i]) {
            return false;
        }
        i += 1;
    }
    true
}

/// Whether the clipboard holds what was put there from here.
pub open spec fn is_ours(op: Option<OpView>, contents: FileClipboard) -> bool {
    match op {
        Some(o) => o.change_count == contents.change_count && same_paths(
            o.paths,
            path::path_views(contents.paths@),
        ),
        None => false,
    }
}

/// How the contents of the clipboard are pasted: what was cut here is moved, all else is copied.
pub open spec fn kind_of(op: Option<OpView>, contents: FileClipboard) -> ClipboardKind {
    match op {
        Some(o) => if is_ours(op, contents) {
            o.kind
        } else {
            ClipboardKind::Copy
        },
        None => ClipboardKind::Copy,
    }
}

/// How the contents of the clipboard are pasted, and whether they were put there from here.
pub fn paste_kind(op: &Option<ClipboardOp>, contents: &FileClipboard) -> (r: (ClipboardKind, bool))
    ensures
        r.0 == kind_of(op_view(*op), *contents),
        r.1 == is_ours(op_view(*op), *contents),
{
    match op {
        Some(o) => {
            if o.change_count == contents.change_count && paths_match(&o.paths, &contents.paths) {
                (o.kind, true)
            } else {
                (ClipboardKind::Copy, false)
            }
        },
        None => (ClipboardKind::Copy, false),
    }
}

/// What is to be done with the clipboard after pasting.
#[derive(Debug)]
pub enum ClipboardStep {
    Nothing,
    /// Empty it.
    Clear,
    /// Put these files on it.
    Write(Vec<FsPath>),
}

/// Not being among these paths.
pub open spec fn absent_from(paths: Seq<Seq<u8>>) -> spec_fn(Seq<u8>) -> bool {
    |p: Seq<u8>| !path::has_path(paths, p)
}

/// Of the paths of a list those that are not in another.
fn remaining(paths: &Vec<FsPath>, gone: &Vec<FsPath>) -> (r: Vec<FsPath>)
    ensures
        path::path_views(r@) == path::path_views(paths@).filter(
            absent_from(path::path_views(gone@)),
        ),
{
    let ghost all = path::path_views(paths@);
    let ghost f = absent_from(path::path_views(gone@));
    let mut out: Vec<FsPath> = Vec::new();
    let mut i: usize = 0;
    proof {
        reveal(Seq::filter);
        assert(path::path_views(out@) =~= all.take(0).filter(f));
    }
    while i < paths.len()
        invariant
            i <= paths@.len(),
            all == path::path_views(paths@),
            f == absent_from(path::path_views(gone@)),
            path::path_views(out@) == all.take(i as int).filter(f),
        decreases paths@.len() - i,
    {
        proof {
            reveal(Seq::filter);
            assert(all.take(i + 1).drop_last() =~= all.take(i as int));
            assert(all.take(i + 1).last() == paths@[i as int]@);
        }
        if !contains_path(gone, &paths[i]) {
            let ghost before = path::path_views(out@);
            out.push(paths[i].clone());
            assert(path::path_views(out@) =~= before.push(paths@[i as int]@));
        }
        i += 1;
    }
    assert(all.take(i as int) =~= all);
    out
}

/// What was cut and has not been moved by pasting.
pub open spec fn not_moved(op: OpView, o: transfer::PasteView) -> Seq<Seq<u8>> {
    op.paths.filter(absent_from(o.succeeded))
}

/// Takes in that the contents of the clipboard have been pasted: what was cut here and has been
/// moved is cut no longer, and what others put there was not put there from here.
pub fn after_paste(
    op: &mut Option<ClipboardOp>,
    kind: ClipboardKind,
    ours: bool,
    outcome: &PasteOutcome,
) -> (r: ClipboardStep)
    ensures
        if !ours {
            r is Nothing && *final(op) is None
        } else if kind == ClipboardKind::Cut && op_view(*old(op)) is Some {
            let left = not_moved(op_view(*old(op))->0, outcome@);
            if left.len() == 0 {
                r is Clear && *final(op) is None
            } else {
                &&& r matches ClipboardStep::Write(paths) && path::path_views(paths@) == left
                &&& op_view(*final(op)) == Some(
                    OpView { paths: left, ..op_view(*old(op))->0 },
                )
            }
        } else {
            r is Nothing && *final(op) == *old(op)
        },
{
    if !ours {
        *op = None;
        return ClipboardStep::Nothing;
    }
    match kind {
        ClipboardKind::Copy => {
            return ClipboardStep::Nothing;
        },
        ClipboardKind::Cut => {},
    }
    let mut taken: Option<ClipboardOp> = None;
    std::mem::swap(op, &mut taken);
    match taken {
        Some(o) => {
            let left = remaining(&o.paths, &outcome.succeeded_sources);
            assert(path::path_views(left@).len() == left@.len());
            if left.len() == 0 {
                ClipboardStep::Clear
            } else {
                let copy = copy_paths(&left);
                *op = Some(
                    ClipboardOp { kind: o.kind, paths: left, change_count: o.change_count },
                );
                ClipboardStep::Write(copy)
            }
        },
        None => ClipboardStep::Nothing,
    }
}

/// Takes in that what is left of what was cut has been put on the clipboard again, or could not be.
pub fn after_rewrite(op: &mut Option<ClipboardOp>, result: Result<i64, String>) -> (r: Option<
    String,
>)
    ensures
        match result {
            Ok(count) => r is None && op_view(*final(op)) == (match op_view(*old(op)) {
                Some(o) => Some(OpView { change_count: count, ..o }),
                None => None,
            }),
            Err(e) => *final(op) is None && text::optional_text(r) == Some(
                "Could not update remaining cut items: "@ + e@,
            ),
        },
{
    match result {
        Ok(count) => {
            let mut taken: Option<ClipboardOp> = None;
            std::mem::swap(op, &mut taken);
            match taken {
                Some(o) => {
                    *op = Some(ClipboardOp { kind: o.kind, paths: o.paths, change_count: count });
                },
                None => {},
            }
            None
        },
        Err(e) => {
            *op = None;
            Some(concat2("Could not update remaining cut items: ", e.as_str()))
        },
    }
}

/// What is said when there is nothing to put on the clipboard; nothing where there is.
pub fn refuse_empty(paths: &Vec<FsPath>) -> (r: Option<String>)
    ensures
        text::optional_text(r) == if paths@.len() == 0 {
            Some("No files selected"@)
        } else {
            None
        },
{
    if paths.len() == 0 {
        Some("No files selected".to_owned())
    } else {
        None
    }
}

/// Takes in that files have been put on the clipboard, or could not be. Returns what is said of it.
pub fn set_file_clipboard(
    op: &mut Option<ClipboardOp>,
    kind: ClipboardKind,
    paths: Vec<FsPath>,
    result: Result<i64, String>,
) -> (r: String)
    ensures
        match result {
            Ok(count) => {
                &&& op_view(*final(op)) == Some(
                    OpView { kind, paths: path::path_views(paths@), change_count: count },
                )
                &&& r@ == transfer::items_text(
                    if kind == ClipboardKind::Cut {
                        "Cut"@
                    } else {
                        "Copied"@
                    },
                    paths@.len(),
                )
            },
            Err(e) => *final(op) == *old(op) && r@ == "Clipboard failed: "@ + e@,
        },
{
    match result {
        Ok(count) => {
            let n = paths.len();
            *op = Some(ClipboardOp { kind, paths, change_count: count });
            let verb = match kind {
                ClipboardKind::Cut => "Cut",
                ClipboardKind::Copy => "Copied",
            };
            items_message(verb, n)
        },
        Err(e) => concat2("Clipboard failed: ", e.as_str()),
    }
}

/// Forgets what was cut or copied here once the clipboard has changed since.
pub fn forget_if_changed(op: &mut Option<ClipboardOp>, change_count: i64)
    ensures
        *final(op) == match *old(op) {
            Some(o) => if o.change_count == change_count {
                *old(op)
            } else {
                None
            },
            None => None,
        },
{
    let stale = match op {
        Some(o) => o.change_count != change_count,
        None => false,
    };
    if stale {
        *op = None;
    }
}

/// What is cut.
pub fn cut_paths(op: &Option<ClipboardOp>) -> (r: Vec<FsPath>)
    ensures
        path::path_views(r@) == match op_view(*op) {
            Some(o) => if o.kind == ClipboardKind::Cut {
                o.paths
            } else {
                Seq::empty()
            },
            None => Seq::empty(),
        },
{
    let none: Vec<FsPath> = Vec::new();
    assert(path::path_views(none@) =~= Seq::empty());
    match op {
        Some(o) => match o.kind {
            ClipboardKind::Cut => copy_paths(&o.paths),
            ClipboardKind::Copy => none,
        },
        None => none,
    }
}

/// What others put on the clipboard is copied, never moved.
pub proof fn foreign_files_are_only_copied(op: Option<OpView>, contents: FileClipboard)
    requires
        !is_ours(op, contents),
    ensures
        kind_of(op, contents) == ClipboardKind::Copy,
{
}

/// What was cut and could not be moved stays cut, and nothing else does.
pub proof fn failed_sources_stay_cut(op: OpView, o: transfer::PasteView, i: int)
    requires
        0 <= i < op.paths.len(),
    ensures
        not_moved(op, o).contains(op.paths[i]) == !path::has_path(o.succeeded, op.paths[i]),
{
    let f = absent_from(o.succeeded);
    let left = not_moved(op, o);
    if f(op.paths[i]) {
        op.paths.lemma_filter_contains(f, i);
    }
    if left.contains(op.paths[i]) {
        let k = choose|k: int| 0 <= k < left.len() && left[k] == op.paths[i];
        op.paths.lemma_filter_pred(f, k);
    }
}

/// What is on the clipboard counts as cut only where it was cut here: nothing has been put there since,
/// and it is the same files in the same order.
pub proof fn cut_files_are_moved_only_while_unchanged(op: OpView, contents: FileClipboard, i: int)
    ensures
        op.change_count != contents.change_count ==> kind_of(Some(op), contents)
            == ClipboardKind::Copy,
        op.paths.len() != contents.paths@.len() ==> kind_of(Some(op), contents)
            == ClipboardKind::Copy,
        0 <= i < op.paths.len() && i < contents.paths@.len() && !path::same_path(
            op.paths[i],
            contents.paths@[i]@,
        ) ==> kind_of(Some(op), contents) == ClipboardKind::Copy,
        op.change_count == contents.change_count && op.paths == path::path_views(contents.paths@)
            ==> kind_of(Some(op), contents) == op.kind,
        kind_of(None, contents) == ClipboardKind::Copy,
{
    let views = path::path_views(contents.paths@);
    assert(views.len() == contents.paths@.len());
    if 0 <= i < op.paths.len() && i < contents.paths@.len() && !path::same_path(
        op.paths[i],
        contents.paths@[i]@,
    ) {
        assert(views[i] == contents.paths@[i]@);
        if same_paths(op.paths, views) {
            assert(path::same_path(op.paths[i], views[i]));
        }
    }
}

/// What stays cut keeps its order.
pub proof fn what_stays_cut_keeps_its_order(
    a: Seq<Seq<u8>>,
    b: Seq<Seq<u8>>,
    op: OpView,
    o: transfer::PasteView,
)
    requires
        op.paths == a + b,
    ensures
        not_moved(op, o) == not_moved(OpView { paths: a, ..op }, o) + not_moved(
            OpView { paths: b, ..op },
            o,
        ),
{
    lemma_filter_joined(a, b, absent_from(o.succeeded));
}

proof fn lemma_filter_joined(a: Seq<Seq<u8>>, b: Seq<Seq<u8>>, f: spec_fn(Seq<u8>) -> bool)
    ensures
        (a + b).filter(f) == a.filter(f) + b.filter(f),
    decreases b.len(),
{
    reveal(Seq::filter);
    if b.len() == 0 {
        assert(a + b =~= a);
        assert(a.filter(f) + b.filter(f) =~= a.filter(f));
    } else {
        lemma_filter_joined(a, b.drop_last(), f);
        assert((a + b).drop_last() =~= a + b.drop_last());
        assert((a + b).last() == b.last());
        assert((a + b).filter(f) =~= a.filter(f) + b.filter(f));
    }
}

} // verus!
