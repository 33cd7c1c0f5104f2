//! What is shown of a repository: the status lists, the branches, the configuration.

use vstd::prelude::*;

use crate::text;
use crate::text::{chars_copy, chars_of, find_char, lines, string_of, text_lossy, trim};

verus! {

/// What happened to a file.
#[derive(Clone, Copy, Debug, PartialEq, Eq, Structural)]
pub enum FileStatus {
    Added,
    Modified,
    Deleted,
    Renamed,
    Untracked,
    TypeChange,
}

/// A line of a status list.
#[derive(Debug)]
pub struct StatusEntry {
    pub path: String,
    /// The earlier path of a renamed file.
    pub old_path: Option<String>,
    pub status: FileStatus,
}

/// The status of a repository.
#[derive(Debug)]
pub struct GitStatus {
    pub staged: Vec<StatusEntry>,
    pub unstaged: Vec<StatusEntry>,
    pub untracked: Vec<StatusEntry>,
    pub head_branch: Option<String>,
    pub is_detached: bool,
}

/// A branch.
#[derive(Debug)]
pub struct BranchInfo {
    pub name: String,
    pub is_head: bool,
    pub is_remote: bool,
    pub upstream: Option<String>,
}

/// A stash.
#[derive(Debug)]
pub struct StashEntry {
    pub index: usize,
    pub message: String,
}

/// The changes of one file, in the index and in the working directory.
#[derive(Clone, Copy, Debug, PartialEq, Eq, Structural)]
pub struct StatusFlags {
    pub index_new: bool,
    pub index_modified: bool,
    pub index_deleted: bool,
    pub index_renamed: bool,
    pub index_typechange: bool,
    pub wt_new: bool,
    pub wt_modified: bool,
    pub wt_deleted: bool,
    pub wt_renamed: bool,
    pub wt_typechange: bool,
}

/// The status of one file as it was found. The path is missing where it is no text.
#[derive(Debug)]
pub struct StatusRecord {
    pub path: Option<String>,
    pub flags: StatusFlags,
    /// The path that the file has in the last commit, where it is known.
    pub head_path: Option<String>,
}

/// A branch as it was found. The name is missing where it is no text.
#[derive(Debug)]
pub struct BranchRecord {
    pub name: Option<String>,
    pub is_head: bool,
    pub is_remote: bool,
    pub upstream: Option<String>,
}

/// A line of a status list by its parts.
pub type EntryView = (Seq<char>, Option<Seq<char>>, FileStatus);

/// Lines of a status list by their parts.
pub open spec fn entry_views(entries: Seq<StatusEntry>) -> Seq<EntryView> {
    entries.map_values(|e: StatusEntry| (e.path@, text::optional_text(e.old_path), e.status))
}

impl StatusFlags {
    /// Whether the index differs from the last commit.
    pub open spec fn in_index(self) -> bool {
        self.index_new || self.index_modified || self.index_deleted || self.index_renamed
            || self.index_typechange
    }

    /// Whether the file is new and not in the index.
    pub open spec fn is_untracked(self) -> bool {
        self.wt_new && !self.in_index()
    }

    /// What the index does to the file, where it does something.
    pub open spec fn staged_as(self) -> Option<FileStatus> {
        if !self.in_index() {
            None
        } else if self.index_new {
            Some(FileStatus::Added)
        } else if self.index_deleted {
            Some(FileStatus::Deleted)
        } else if self.index_renamed {
            Some(FileStatus::Renamed)
        } else if self.index_typechange {
            Some(FileStatus::TypeChange)
        } else {
            Some(FileStatus::Modified)
        }
    }

    /// What the working directory does to the file beyond the index, where it does something.
    pub open spec fn unstaged_as(self) -> Option<FileStatus> {
        if self.is_untracked() {
            None
        } else if self.wt_deleted {
            Some(FileStatus::Deleted)
        } else if self.wt_renamed {
            Some(FileStatus::Renamed)
        } else if self.wt_typechange {
            Some(FileStatus::TypeChange)
        } else if self.wt_modified {
            Some(FileStatus::Modified)
        } else {
            None
        }
    }

    /// Whether the file is new and not in the index.
    pub fn untracked(&self) -> (r: bool)
        ensures
            r == self.is_untracked(),
    {
        self.wt_new && !(self.index_new || self.index_modified || self.index_deleted
            || self.index_renamed || self.index_typechange)
    }

    /// What the index does to the file.
    pub fn staged(&self) -> (r: Option<FileStatus>)
        ensures
            r == self.staged_as(),
    {
        if self.index_new {
            Some(FileStatus::Added)
        } else if self.index_deleted {
            Some(FileStatus::Deleted)
        } else if self.index_renamed {
            Some(FileStatus::Renamed)
        } else if self.index_typechange {
            Some(FileStatus::TypeChange)
        } else if self.index_modified {
            Some(FileStatus::Modified)
        } else {
            None
        }
    }

    /// What the working directory does to the file beyond the index.
    pub fn unstaged(&self) -> (r: Option<FileStatus>)
        ensures
            r == self.unstaged_as(),
    {
        if self.untracked() {
            None
        } else if self.wt_deleted {
            Some(FileStatus::Deleted)
        } else if self.wt_renamed {
            Some(FileStatus::Renamed)
        } else if self.wt_typechange {
            Some(FileStatus::TypeChange)
        } else if self.wt_modified {
            Some(FileStatus::Modified)
        } else {
            None
        }
    }
}

/// The line of a file in the list of staged changes.
pub open spec fn staged_entry(r: StatusRecord) -> Option<EntryView> {
    if r.path is Some && r.flags.staged_as() is Some {
        Some(
            (
                r.path->0@,
                if r.flags.index_renamed {
                    text::optional_text(r.head_path)
                } else {
                    None
                },
                r.flags.staged_as()->0,
            ),
        )
    } else {
        None
    }
}

/// The line of a file in the list of changes that are not staged.
pub open spec fn unstaged_entry(r: StatusRecord) -> Option<EntryView> {
    if r.path is Some && r.flags.unstaged_as() is Some {
        Some((r.path->0@, None, r.flags.unstaged_as()->0))
    } else {
        None
    }
}

/// The line of a file in the list of untracked files.
pub open spec fn untracked_entry(r: StatusRecord) -> Option<EntryView> {
    if r.path is Some && r.flags.is_untracked() {
        Some((r.path->0@, None, FileStatus::Untracked))
    } else {
        None
    }
}

/// The list with one more line, where there is one.
pub open spec fn with_entry(list: Seq<EntryView>, e: Option<EntryView>) -> Seq<EntryView> {
    match e {
        Some(v) => list.push(v),
        None => list,
    }
}

/// The staged changes among the files, in their order.
pub open spec fn staged_list(records: Seq<StatusRecord>) -> Seq<EntryView>
    decreases records.len(),
{
    if records.len() == 0 {
        Seq::empty()
    } else {
        with_entry(staged_list(records.drop_last()), staged_entry(records.last()))
    }
}

/// The changes that are not staged among the files, in their order.
pub open spec fn unstaged_list(records: Seq<StatusRecord>) -> Seq<EntryView>
    decreases records.len(),
{
    if records.len() == 0 {
        Seq::empty()
    } else {
        with_entry(unstaged_list(records.drop_last()), unstaged_entry(records.last()))
    }
}

/// The untracked files among the files, in their order.
pub open spec fn untracked_list(records: Seq<StatusRecord>) -> Seq<EntryView>
    decreases records.len(),
{
    if records.len() == 0 {
        Seq::empty()
    } else {
        with_entry(untracked_list(records.drop_last()), untracked_entry(records.last()))
    }
}

/// Adds a line to a list.
fn push_entry(
    list: &mut Vec<StatusEntry>,
    path: &String,
    old_path: Option<String>,
    status: FileStatus,
)
    ensures
        entry_views(final(list)@) == entry_views(old(list)@).push(
            (path@, text::optional_text(old_path), status),
        ),
{
    let ghost before = entry_views(list@);
    let ghost v = (path@, text::optional_text(old_path), status);
    list.push(StatusEntry { path: path.clone(), old_path, status });
    assert(entry_views(list@) =~= before.push(v));
}

/// Sorts the files of a repository into the three lists.
pub fn load_status(
    records: &Vec<StatusRecord>,
    head_branch: Option<String>,
    is_detached: bool,
) -> (r: GitStatus)
    ensures
        entry_views(r.staged@) == staged_list(records@),
        entry_views(r.unstaged@) == unstaged_list(records@),
        entry_views(r.untracked@) == untracked_list(records@),
        r.head_branch == head_branch,
        r.is_detached == is_detached,
{
    let mut staged: Vec<StatusEntry> = Vec::new();
    let mut unstaged: Vec<StatusEntry> = Vec::new();
    let mut untracked: Vec<StatusEntry> = Vec::new();
    let mut i: usize = 0;
    proof {
        assert(entry_views(staged@) =~= staged_list(records@.take(0)));
        assert(entry_views(unstaged@) =~= unstaged_list(records@.take(0)));
        assert(entry_views(untracked@) =~= untracked_list(records@.take(0)));
    }
    while i < records.len()
        invariant
            i <= records@.len(),
            entry_views(staged@) == staged_list(records@.take(i as int)),
            entry_views(unstaged@) == unstaged_list(records@.take(i as int)),
            entry_views(untracked@) == untracked_list(records@.take(i as int)),
        decreases records@.len() - i,
    {
        proof {
            assert(records@.take(i + 1).drop_last() =~= records@.take(i as int));
            assert(records@.take(i + 1).last() == records@[i as int]);
        }
        let record = &records[i];
        i += 1;
        let path = match &record.path {
            Some(p) => p,
            None => {
                continue ;
            },
        };
        if record.flags.untracked() {
            push_entry(&mut untracked, path, None, FileStatus::Untracked);
            continue ;
        }
        if let Some(status) = record.flags.staged() {
            let old_path = if record.flags.index_renamed {
                match &record.head_path {
                    Some(p) => Some(p.clone()),
                    None => None,
                }
            } else {
                None
            };
            push_entry(&mut staged, path, old_path, status);
        }
        if let Some(status) = record.flags.unstaged() {
            push_entry(&mut unstaged, path, None, status);
        }
    }
    assert(records@.take(i as int) =~= records@);
    GitStatus { staged, unstaged, untracked, head_branch, is_detached }
}

/// A new file that is not in the index is untracked and in no other list.
pub proof fn untracked_file_is_in_one_list(r: StatusRecord)
    requires
        untracked_entry(r) is Some,
    ensures
        staged_entry(r) is None,
        unstaged_entry(r) is None,
{
}

/// Every change of a file with a name shows in a list.
pub proof fn no_change_is_lost(r: StatusRecord)
    requires
        r.path is Some,
        r.flags.in_index() || r.flags.wt_new || r.flags.wt_modified || r.flags.wt_deleted
            || r.flags.wt_renamed || r.flags.wt_typechange,
    ensures
        staged_entry(r) is Some || unstaged_entry(r) is Some || untracked_entry(r) is Some,
{
}

/// What is shown of a branch.
pub open spec fn shows_branch(b: BranchInfo, r: BranchRecord) -> bool {
    &&& r.name is Some && b.name@ == r.name->0@
    &&& b.is_head == r.is_head
    &&& b.is_remote == r.is_remote
    &&& text::optional_text(b.upstream) == text::optional_text(r.upstream)
}

/// The branches that have a name.
pub open spec fn named_branches(records: Seq<BranchRecord>) -> Seq<BranchRecord> {
    records.filter(|r: BranchRecord| r.name is Some)
}

/// The branches that have a name, in their order.
pub fn load_branches(records: &Vec<BranchRecord>) -> (r: Vec<BranchInfo>)
    ensures
        r@.len() == named_branches(records@).len(),
        forall|i: int|
            0 <= i < r@.len() ==> shows_branch(#[trigger] r@[i], named_branches(records@)[i]),
{
    let mut out: Vec<BranchInfo> = Vec::new();
    let mut i: usize = 0;
    proof {
        reveal(Seq::filter);
    }
    while i < records.len()
        invariant
            i <= records@.len(),
            out@.len() == named_branches(records@.take(i as int)).len(),
            forall|k: int|
                0 <= k < out@.len() ==> shows_branch(
                    #[trigger] out@[k],
                    named_branches(records@.take(i as int))[k],
                ),
        decreases records@.len() - i,
    {
        proof {
            reveal(Seq::filter);
            assert(records@.take(i + 1).drop_last() =~= records@.take(i as int));
            assert(records@.take(i + 1).last() == records@[i as int]);
        }
        let record = &records[i];
        i += 1;
        if let Some(name) = &record.name {
            let upstream = match &record.upstream {
                Some(u) => Some(u.clone()),
                None => None,
            };
            out.push(
                BranchInfo {
                    name: name.clone(),
                    is_head: record.is_head,
                    is_remote: record.is_remote,
                    upstream,
                },
            );
        }
    }
    assert(records@.take(i as int) =~= records@);
    out
}

/// A line of the configuration: what stands before the first `=`, trimmed, and what stands behind
/// it. A line without a key is none.
pub open spec fn config_entry(line: Seq<char>) -> Option<(Seq<char>, Seq<char>)> {
    let at = text::find_from(line, '=', 0);
    let key = text::trimmed(line.take(at));
    if key.len() == 0 {
        None
    } else if at < line.len() {
        Some((key, line.skip(at + 1)))
    } else {
        Some((key, Seq::empty()))
    }
}

/// The entries of the configuration, in the order of the lines.
pub open spec fn config_entries(lines: Seq<Seq<char>>) -> Seq<(Seq<char>, Seq<char>)>
    decreases lines.len(),
{
    if lines.len() == 0 {
        Seq::empty()
    } else {
        let rest = config_entries(lines.drop_last());
        match config_entry(lines.last()) {
            Some(e) => rest.push(e),
            None => rest,
        }
    }
}

/// Keys and values by their texts.
pub open spec fn pair_views(pairs: Seq<(String, String)>) -> Seq<(Seq<char>, Seq<char>)> {
    pairs.map_values(|p: (String, String)| (p.0@, p.1@))
}

/// Reads a line of the configuration.
pub fn parse_config_line(line: &str) -> (r: Option<(String, String)>)
    ensures
        match r {
            Some((k, v)) => config_entry(line@) == Some((k@, v@)),
            None => config_entry(line@) is None,
        },
{
    let s = chars_of(line);
    let n = s.len();
    let at = find_char(&s, '=', 0);
    let head = chars_copy(&s, 0, at);
    assert(head@ =~= line@.take(at as int));
    let key = trim(string_of(head.as_slice()).as_str());
    if key.as_str().is_empty() {
        return None;
    }
    if at < n {
        let tail = chars_copy(&s, at + 1, n);
        assert(tail@ =~= line@.skip(at + 1));
        Some((key, string_of(tail.as_slice())))
    } else {
        let none = String::new();
        assert(none@ =~= Seq::empty());
        Some((key, none))
    }
}

/// The entries of the configuration in the given text.
pub fn parse_git_config(output: &str) -> (r: Vec<(String, String)>)
    ensures
        pair_views(r@) == config_entries(text::lines_of(output@)),
{
    let all = lines(output);
    let ghost views = text::text_views(all@);
    let mut out: Vec<(String, String)> = Vec::new();
    let mut i: usize = 0;
    assert(pair_views(out@) =~= config_entries(views.take(0)));
    while i < all.len()
        invariant
            i <= all@.len(),
            views == text::text_views(all@),
            pair_views(out@) == config_entries(views.take(i as int)),
        decreases all@.len() - i,
    {
        proof {
            assert(views.take(i + 1).drop_last() =~= views.take(i as int));
            assert(views.take(i + 1).last() == all@[i as int]@);
        }
        let ghost before = pair_views(out@);
        if let Some((key, value)) = parse_config_line(all[i].as_str()) {
            let ghost p = (key@, value@);
            out.push((key, value));
            assert(pair_views(out@) =~= before.push(p));
        }
        i += 1;
    }
    assert(views.take(i as int) =~= views);
    out
}

/// The entries that a listing of the configuration printed; none where it failed.
pub fn load_git_config(success: bool, stdout: &[u8]) -> (r: Vec<(String, String)>)
    ensures
        pair_views(r@) == if success {
            config_entries(text::lines_of(text::lossy_text(stdout@)))
        } else {
            Seq::empty()
        },
{
    if success {
        let output = text_lossy(stdout);
        parse_git_config(output.as_str())
    } else {
        let none: Vec<(String, String)> = Vec::new();
        assert(pair_views(none@) =~= Seq::empty());
        none
    }
}

/// A file is untracked exactly where it is new in the working directory and the index knows nothing
/// of it.
pub proof fn untracked_files_are_new_to_the_index(f: StatusFlags)
    ensures
        f.is_untracked() ==> f.wt_new,
        f.is_untracked() ==> !f.index_new && !f.index_modified && !f.index_deleted
            && !f.index_renamed && !f.index_typechange,
        !f.is_untracked() && f.wt_new ==> f.index_new || f.index_modified || f.index_deleted
            || f.index_renamed || f.index_typechange,
{
}

/// A change that is not staged shows as what the working directory has of it: as a deletion, a
/// renaming or a change of the type only where there is one, and as a modification where that is
/// the only change. Of several the deletion counts, then the renaming, then the change of the type.
pub proof fn unstaged_change_is_named_by_its_flag(f: StatusFlags)
    ensures
        f.unstaged_as() == Some(FileStatus::Deleted) ==> f.wt_deleted,
        f.unstaged_as() == Some(FileStatus::Renamed) ==> f.wt_renamed && !f.wt_deleted,
        f.unstaged_as() == Some(FileStatus::TypeChange) ==> f.wt_typechange && !f.wt_deleted
            && !f.wt_renamed,
        f.unstaged_as() == Some(FileStatus::Modified) ==> f.wt_modified && !f.wt_deleted
            && !f.wt_renamed && !f.wt_typechange,
        f.unstaged_as() != Some(FileStatus::Added),
        f.unstaged_as() != Some(FileStatus::Untracked),
        f.unstaged_as() is Some <==> !f.is_untracked() && (f.wt_deleted || f.wt_renamed
            || f.wt_typechange || f.wt_modified),
{
}

/// A staged change shows as what the index has of it: as an addition, a deletion, a renaming or a
/// change of the type only where there is one, and as a modification where that is the only
/// change. Of several the addition counts, then the deletion, the renaming, the change of the type.
pub proof fn staged_change_is_named_by_its_flag(f: StatusFlags)
    ensures
        f.staged_as() == Some(FileStatus::Added) <==> f.index_new,
        f.staged_as() == Some(FileStatus::Deleted) ==> f.index_deleted,
        f.staged_as() == Some(FileStatus::Renamed) ==> f.index_renamed && !f.index_deleted,
        f.staged_as() == Some(FileStatus::TypeChange) ==> f.index_typechange && !f.index_deleted
            && !f.index_renamed,
        f.staged_as() == Some(FileStatus::Modified) ==> f.index_modified && !f.index_deleted
            && !f.index_renamed && !f.index_typechange,
        f.staged_as() != Some(FileStatus::Untracked),
        f.staged_as() is None <==> !(f.index_new || f.index_deleted || f.index_renamed
            || f.index_typechange || f.index_modified),
{
}

/// What one file gives in the three lists: a line with its own path, and in the list of staged
/// changes with the path before the renaming where the index renames it. A file whose path is no
/// text gives none.
pub proof fn a_file_is_listed_under_its_path(r: StatusRecord)
    ensures
        r.path is None ==> staged_list(seq![r]).len() == 0 && unstaged_list(seq![r]).len() == 0
            && untracked_list(seq![r]).len() == 0,
        staged_list(seq![r]).len() <= 1,
        unstaged_list(seq![r]).len() <= 1,
        untracked_list(seq![r]).len() <= 1,
        r.path is Some ==> (staged_list(seq![r]).len() == 1 <==> r.flags.staged_as() is Some),
        r.path is Some ==> (unstaged_list(seq![r]).len() == 1 <==> r.flags.unstaged_as() is Some),
        r.path is Some ==> (untracked_list(seq![r]).len() == 1 <==> r.flags.is_untracked()),
        staged_list(seq![r]).len() == 1 ==> staged_list(seq![r])[0].0 == r.path->0@
            && Some(staged_list(seq![r])[0].2) == r.flags.staged_as(),
        unstaged_list(seq![r]).len() == 1 ==> unstaged_list(seq![r])[0].0 == r.path->0@
            && unstaged_list(seq![r])[0].1 is None && Some(unstaged_list(seq![r])[0].2)
            == r.flags.unstaged_as(),
        untracked_list(seq![r]).len() == 1 ==> untracked_list(seq![r])[0].0 == r.path->0@
            && untracked_list(seq![r])[0].1 is None && untracked_list(seq![r])[0].2
            == FileStatus::Untracked,
        staged_list(seq![r]).len() == 1 && r.flags.index_renamed && r.head_path is Some
            ==> staged_list(seq![r])[0].1 == Some(r.head_path->0@),
        staged_list(seq![r]).len() == 1 && !(r.flags.index_renamed && r.head_path is Some)
            ==> staged_list(seq![r])[0].1 is None,
{
    reveal_with_fuel(staged_list, 2);
    reveal_with_fuel(unstaged_list, 2);
    reveal_with_fuel(untracked_list, 2);
    let one = seq![r];
    assert(one.drop_last() =~= Seq::<StatusRecord>::empty());
    assert(one.last() == r);
}

/// The lists go through the files from the first to the last: what further files give comes behind
/// what the first ones give.
pub proof fn lists_keep_the_order_of_the_files(a: Seq<StatusRecord>, b: Seq<StatusRecord>)
    ensures
        staged_list(a + b) == staged_list(a) + staged_list(b),
        unstaged_list(a + b) == unstaged_list(a) + unstaged_list(b),
        untracked_list(a + b) == untracked_list(a) + untracked_list(b),
    decreases b.len(),
{
    if b.len() == 0 {
        assert(a + b =~= a);
        assert(staged_list(a) + staged_list(b) =~= staged_list(a));
        assert(unstaged_list(a) + unstaged_list(b) =~= unstaged_list(a));
        assert(untracked_list(a) + untracked_list(b) =~= untracked_list(a));
    } else {
        let c = b.drop_last();
        lists_keep_the_order_of_the_files(a, c);
        assert((a + b).drop_last() =~= a + c);
        assert((a + b).last() == b.last());
        assert(staged_list(a + b) =~= staged_list(a) + staged_list(b));
        assert(unstaged_list(a + b) =~= unstaged_list(a) + unstaged_list(b));
        assert(untracked_list(a + b) =~= untracked_list(a) + untracked_list(b));
    }
}

/// A branch is shown with its own name and as what it is, and one without a name is not shown.
pub proof fn branches_are_shown_as_they_are(b: BranchInfo, r: BranchRecord)
    requires
        shows_branch(b, r),
    ensures
        r.name is Some && b.name@ == r.name->0@,
        b.is_head <==> r.is_head,
        b.is_remote <==> r.is_remote,
        b.upstream is Some <==> r.upstream is Some,
        r.upstream is Some ==> b.upstream->0@ == r.upstream->0@,
{
}

/// The branches with a name are shown in their order, those without one never.
pub proof fn named_branches_keep_their_order(a: Seq<BranchRecord>, b: Seq<BranchRecord>, r: BranchRecord)
    ensures
        named_branches(a + b) == named_branches(a) + named_branches(b),
        r.name is Some ==> named_branches(seq![r]) == seq![r],
        r.name is None ==> named_branches(seq![r]).len() == 0,
    decreases b.len(),
{
    reveal(Seq::filter);
    reveal_with_fuel(Seq::filter, 2);
    let one = seq![r];
    assert(one.drop_last() =~= Seq::<BranchRecord>::empty());
    assert(one.last() == r);
    assert(r.name is Some ==> named_branches(one) =~= one);
    if b.len() == 0 {
        assert(a + b =~= a);
        assert(named_branches(a) + named_branches(b) =~= named_branches(a));
    } else {
        named_branches_keep_their_order(a, b.drop_last(), r);
        assert((a + b).drop_last() =~= a + b.drop_last());
        assert((a + b).last() == b.last());
        assert(named_branches(a + b) =~= named_branches(a) + named_branches(b));
    }
}

/// A line `key=value` of the configuration gives the key and the value, whatever the value holds,
/// and a line without a `=` is a key alone. A key that is blank gives nothing.
pub proof fn config_line_is_cut_at_the_first_equals(key: Seq<char>, value: Seq<char>)
    requires
        !key.contains('='),
    ensures
        config_entry(key + seq!['='] + value) == if text::trimmed(key).len() == 0 {
            None
        } else {
            Some((text::trimmed(key), value))
        },
        config_entry(key) == if text::trimmed(key).len() == 0 {
            None
        } else {
            Some((text::trimmed(key), Seq::<char>::empty()))
        },
{
    let line = key + seq!['='] + value;
    assert(line[key.len() as int] == '=');
    assert forall|i: int| 0 <= i < key.len() implies line[i] != '=' by {
        assert(key.contains(key[i]));
    }
    text::lemma_find_from(line, '=', 0);
    text::lemma_find_from(key, '=', 0);
    let at = text::find_from(line, '=', 0);
    assert(at == key.len());
    assert(line.take(at) =~= key);
    assert(line.skip(at + 1) =~= value);
    let end = text::find_from(key, '=', 0);
    if end < key.len() {
        assert(key.contains(key[end]));
    }
    assert(key.take(key.len() as int) =~= key);
}

/// The configuration goes through its lines from the first to the last, and every line with a key
/// gives one entry.
pub proof fn config_entries_keep_their_order(
    a: Seq<Seq<char>>,
    b: Seq<Seq<char>>,
    line: Seq<char>,
)
    ensures
        config_entries(a + b) == config_entries(a) + config_entries(b),
        config_entry(line) is Some ==> config_entries(seq![line]) == seq![config_entry(line)->0],
        config_entry(line) is None ==> config_entries(seq![line]).len() == 0,
    decreases b.len(),
{
    reveal_with_fuel(config_entries, 2);
    let one = seq![line];
    assert(one.drop_last() =~= Seq::<Seq<char>>::empty());
    assert(one.last() == line);
    assert(config_entry(line) is Some ==> config_entries(one) =~= seq![config_entry(line)->0]);
    if b.len() == 0 {
        assert(a + b =~= a);
        assert(config_entries(a) + config_entries(b) =~= config_entries(a));
    } else {
        config_entries_keep_their_order(a, b.drop_last(), line);
        assert((a + b).drop_last() =~= a + b.drop_last());
        assert((a + b).last() == b.last());
        assert(config_entries(a + b) =~= config_entries(a) + config_entries(b));
    }
}

/// Files and settings are seen part by part: the path, where it was renamed from and what became of
/// it; the name and then the value.
pub proof fn files_and_settings_are_seen_part_by_part(
    entries: Seq<StatusEntry>,
    pairs: Seq<(String, String)>,
    i: int,
)
    ensures
        entry_views(entries).len() == entries.len(),
        pair_views(pairs).len() == pairs.len(),
        0 <= i < entries.len() ==> entry_views(entries)[i].0 == entries[i].path@ && (
        entries[i].old_path is None <==> entry_views(entries)[i].1 is None) && (
        entries[i].old_path is Some ==> entry_views(entries)[i].1 == Some(
            (entries[i].old_path->0)@,
        )) && entry_views(entries)[i].2 == entries[i].status,
        0 <= i < pairs.len() ==> pair_views(pairs)[i].0 == (pairs[i].0)@ && pair_views(pairs)[i].1
            == (pairs[i].1)@,
{
}

} // verus!
