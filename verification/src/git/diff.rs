//! Diffs of single files.

use vstd::prelude::*;

use crate::text::utf8_text;

verus! {

/// What a line of a diff is.
#[derive(Clone, Copy, Debug, PartialEq, Eq, Structural)]
pub enum DiffLineKind {
    Header,
    Added,
    Removed,
    Context,
}

/// A line of a diff.
#[derive(Debug)]
pub struct DiffLine {
    pub content: String,
    pub kind: DiffLineKind,
}

/// The diff of a file.
#[derive(Debug)]
pub struct FileDiff {
    pub path: String,
    pub staged: bool,
    pub lines: Vec<DiffLine>,
}

/// A line of a diff as it was printed: the sign before it and its bytes.
#[derive(Debug)]
pub struct DiffRecord {
    pub origin: char,
    pub content: Vec<u8>,
}

/// What the sign before a line says of it.
pub open spec fn kind_of(origin: char) -> DiffLineKind {
    if origin == '+' {
        DiffLineKind::Added
    } else if origin == '-' {
        DiffLineKind::Removed
    } else if origin == ' ' {
        DiffLineKind::Context
    } else {
        DiffLineKind::Header
    }
}

/// Whether a line shows what was printed; bytes that are no UTF-8 show as an empty line.
pub open spec fn shows_line(line: DiffLine, r: DiffRecord) -> bool {
    &&& line.kind == kind_of(r.origin)
    &&& line.content@ == if vstd::utf8::valid_utf8(r.content@) {
        vstd::utf8::decode_utf8(r.content@)
    } else {
        Seq::empty()
    }
}

/// Reads a line of a diff.
pub fn diff_line(record: &DiffRecord) -> (r: DiffLine)
    ensures
        shows_line(r, *record),
{
    let kind = match record.origin {
        '+' => DiffLineKind::Added,
        '-' => DiffLineKind::Removed,
        ' ' => DiffLineKind::Context,
        _ => DiffLineKind::Header,
    };
    let content = match utf8_text(record.content.as_slice()) {
        Some(t) => {
            proof {
                vstd::utf8::encode_utf8_valid_utf8(t@);
                vstd::utf8::encode_utf8_decode_utf8(t@);
            }
            t
        },
        None => {
            let none = String::new();
            assert(none@ =~= Seq::empty());
            none
        },
    };
    DiffLine { content, kind }
}

/// The diff of a file from the lines that were printed for it.
pub fn get_file_diff(path: &str, staged: bool, records: &Vec<DiffRecord>) -> (r: FileDiff)
    ensures
        r.path@ == path@,
        r.staged == staged,
        r.lines@.len() == records@.len(),
        forall|i: int| 0 <= i < records@.len() ==> shows_line(#[trigger] r.lines@[i], records@[i]),
{
    let mut out: Vec<DiffLine> = Vec::new();
    let mut i: usize = 0;
    while i < records.len()
        invariant
            i <= records@.len(),
            out@.len() == i,
            forall|k: int| 0 <= k < i ==> shows_line(#[trigger] out@[k], records@[k]),
        decreases records@.len() - i,
    {
        out.push(diff_line(&records[i]));
        i += 1;
    }
    FileDiff { path: path.to_owned(), staged, lines: out }
}

/// A line of a difference is shown as added behind a `+`, as removed behind a `-`, as unchanged behind
/// a space, and as a header behind anything else, with its text as it is.
pub proof fn diff_lines_are_shown_as_what_they_are(line: DiffLine, r: DiffRecord)
    requires
        shows_line(line, r),
    ensures
        line.kind == DiffLineKind::Added <==> r.origin == '+',
        line.kind == DiffLineKind::Removed <==> r.origin == '-',
        line.kind == DiffLineKind::Context <==> r.origin == ' ',
        vstd::utf8::valid_utf8(r.content@) ==> vstd::utf8::encode_utf8(line.content@) == r.content@,
        !vstd::utf8::valid_utf8(r.content@) ==> line.content@.len() == 0,
{
    if vstd::utf8::valid_utf8(r.content@) {
        vstd::utf8::decode_utf8_encode_utf8(r.content@);
    }
}

} // verus!
