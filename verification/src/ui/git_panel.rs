//! The git panel: its tabs, what its rows show, and what its buttons ask for.

use vstd::prelude::*;

use crate::git::diff::FileDiff;
use crate::git::graph::{CommitInfo, GraphRow, RefKind};
use crate::git::repo::{BranchInfo, FileStatus, GitStatus, StashEntry, StatusEntry};
use crate::text;
use crate::text::{chars_of, concat2, concat3, push_decimal, string_of, trim};
use crate::ui::terminal_panel;
use crate::ui::terminal_panel::Rgb;

verus! {

/// The tabs of the panel.
#[derive(Clone, Copy, Debug, PartialEq, Eq, Structural)]
pub enum GitTab {
    Graph,
    Status,
    Commit,
    Branches,
    Stash,
    PushPull,
    Config,
}

/// The state of the panel.
#[derive(Debug)]
pub struct GitPanelState {
    pub tab: GitTab,
    pub graph: Vec<GraphRow>,
    pub graph_selected: Option<usize>,
    pub status: Option<GitStatus>,
    pub diff: Option<FileDiff>,
    /// The file whose diff is shown, and whether it is the staged one.
    pub diff_file: Option<(String, bool)>,
    pub commit_msg: String,
    pub branches: Vec<BranchInfo>,
    pub new_branch_name: String,
    pub stashes: Vec<StashEntry>,
    pub remote_name: String,
    pub op_log: Vec<String>,
    pub config_global: Vec<(String, String)>,
    pub config_local: Vec<(String, String)>,
    pub config_loaded: bool,
}

/// What the panel asks for.
#[derive(Debug)]
pub enum GitPanelAction {
    Refresh,
    SwitchTab(GitTab),
    StageFile(String),
    UnstageFile(String),
    StageAll,
    UnstageAll,
    /// The path and whether the staged change is meant.
    SelectDiff(String, bool),
    Commit(String),
    CheckoutBranch(String),
    CreateBranch(String),
    DeleteBranch(String),
    StashSave,
    StashApply(usize),
    StashDrop(usize),
    Fetch,
    Pull,
    Push,
    TogglePosition,
    LoadConfig,
}

impl Default for GitPanelState {
    fn default() -> (r: GitPanelState)
        ensures
            r.tab == GitTab::Status,
            r.graph@.len() == 0,
            r.graph_selected is None,
            r.status is None,
            r.diff is None,
            r.diff_file is None,
            r.commit_msg@.len() == 0,
            r.branches@.len() == 0,
            r.new_branch_name@.len() == 0,
            r.stashes@.len() == 0,
            r.remote_name@ == "origin"@,
            r.op_log@.len() == 0,
            r.config_global@.len() == 0,
            r.config_local@.len() == 0,
            !r.config_loaded,
    {
        GitPanelState {
            tab: GitTab::Status,
            graph: Vec::new(),
            graph_selected: None,
            status: None,
            diff: None,
            diff_file: None,
            commit_msg: String::new(),
            branches: Vec::new(),
            new_branch_name: String::new(),
            stashes: Vec::new(),
            remote_name: "origin".to_owned(),
            op_log: Vec::new(),
            config_global: Vec::new(),
            config_local: Vec::new(),
            config_loaded: false,
        }
    }
}

/// The name of a tab.
pub open spec fn tab_name(tab: GitTab) -> Seq<char> {
    match tab {
        GitTab::Graph => "Graph"@,
        GitTab::Status => "Status"@,
        GitTab::Commit => "Commit"@,
        GitTab::Branches => "Branches"@,
        GitTab::Stash => "Stash"@,
        GitTab::PushPull => "Push/Pull"@,
        GitTab::Config => "Config"@,
    }
}

/// The label of a tab: the status tab counts the staged files where there are any.
pub fn tab_label(tab: GitTab, staged: usize) -> (r: String)
    ensures
        r@ == if tab == GitTab::Status && staged > 0 {
            "Status ("@ + text::decimal(staged as nat) + ")"@
        } else {
            tab_name(tab)
        },
{
    match tab {
        GitTab::Graph => "Graph".to_owned(),
        GitTab::Status => if staged > 0 {
            let mut out = "Status (".to_owned();
            push_decimal(&mut out, staged as u64);
            out.push_str(")");
            out
        } else {
            "Status".to_owned()
        },
        GitTab::Commit => "Commit".to_owned(),
        GitTab::Branches => "Branches".to_owned(),
        GitTab::Stash => "Stash".to_owned(),
        GitTab::PushPull => "Push/Pull".to_owned(),
        GitTab::Config => "Config".to_owned(),
    }
}

/// The color of a lane; the colors come round.
pub open spec fn lane_color_of(lane: int) -> Rgb {
    let n = lane % 7;
    if n == 0 {
        terminal_panel::rgb_of(100, 149, 237)
    } else if n == 1 {
        terminal_panel::rgb_of(80, 200, 120)
    } else if n == 2 {
        terminal_panel::rgb_of(255, 213, 79)
    } else if n == 3 {
        terminal_panel::rgb_of(240, 90, 90)
    } else if n == 4 {
        terminal_panel::rgb_of(180, 100, 220)
    } else if n == 5 {
        terminal_panel::rgb_of(255, 165, 0)
    } else {
        terminal_panel::rgb_of(64, 190, 190)
    }
}

/// The color of a lane.
pub fn lane_color(lane: usize) -> (r: Rgb)
    ensures
        r == lane_color_of(lane as int),
{
    match lane % 7 {
        0 => Rgb { r: 100, g: 149, b: 237 },
        1 => Rgb { r: 80, g: 200, b: 120 },
        2 => Rgb { r: 255, g: 213, b: 79 },
        3 => Rgb { r: 240, g: 90, b: 90 },
        4 => Rgb { r: 180, g: 100, b: 220 },
        5 => Rgb { r: 255, g: 165, b: 0 },
        _ => Rgb { r: 64, g: 190, b: 190 },
    }
}

/// The colors of a label: its ground and its text.
pub fn ref_colors(kind: RefKind) -> (r: (Rgb, Rgb))
    ensures
        r == (match kind {
            RefKind::Head => (
                terminal_panel::rgb_of(255, 213, 79),
                terminal_panel::rgb_of(0, 0, 0),
            ),
            RefKind::Local => (
                terminal_panel::rgb_of(80, 200, 120),
                terminal_panel::rgb_of(0, 0, 0),
            ),
            RefKind::Remote => (
                terminal_panel::rgb_of(100, 149, 237),
                terminal_panel::rgb_of(255, 255, 255),
            ),
            RefKind::Tag => (
                terminal_panel::rgb_of(240, 140, 60),
                terminal_panel::rgb_of(255, 255, 255),
            ),
        }),
{
    let black = Rgb { r: 0, g: 0, b: 0 };
    let white = Rgb { r: 255, g: 255, b: 255 };
    match kind {
        RefKind::Head => (Rgb { r: 255, g: 213, b: 79 }, black),
        RefKind::Local => (Rgb { r: 80, g: 200, b: 120 }, black),
        RefKind::Remote => (Rgb { r: 100, g: 149, b: 237 }, white),
        RefKind::Tag => (Rgb { r: 240, g: 140, b: 60 }, white),
    }
}

/// How long ago something was, in the largest unit that it fills.
pub open spec fn ago(diff: int) -> Seq<char> {
    if diff < 60 {
        "just now"@
    } else if diff < 3600 {
        text::decimal((diff / 60) as nat) + "m ago"@
    } else if diff < 86400 {
        text::decimal((diff / 3600) as nat) + "h ago"@
    } else if diff < 86400 * 30 {
        text::decimal((diff / 86400) as nat) + "d ago"@
    } else if diff < 86400 * 365 {
        text::decimal((diff / 2592000) as nat) + "mo ago"@
    } else {
        text::decimal((diff / 31536000) as nat) + "y ago"@
    }
}

/// A number with its unit.
fn counted(n: i64, unit: &str) -> (r: String)
    requires
        n >= 0,
    ensures
        r@ == text::decimal(n as nat) + unit@,
{
    let mut out: String = String::new();
    push_decimal(&mut out, n as u64);
    out.push_str(unit);
    assert(out@ =~= text::decimal(n as nat) + unit@);
    out
}

/// How long ago a moment was, both in seconds since the epoch.
pub fn relative_time(unix_ts: i64, now: i64) -> (r: String)
    requires
        i64::MIN <= now - unix_ts <= i64::MAX,
    ensures
        r@ == ago(now - unix_ts),
{
    let diff: i64 = now - unix_ts;
    if diff < 60 {
        "just now".to_owned()
    } else if diff < 3600 {
        counted(diff / 60, "m ago")
    } else if diff < 86400 {
        counted(diff / 3600, "h ago")
    } else if diff < 86400 * 30 {
        counted(diff / 86400, "d ago")
    } else if diff < 86400 * 365 {
        counted(diff / (86400 * 30), "mo ago")
    } else {
        counted(diff / (86400 * 365), "y ago")
    }
}

/// The text of a commit in the graph.
pub fn commit_text(commit: &CommitInfo, when: &str) -> (r: String)
    ensures
        r@ == commit.oid_short@ + " "@ + commit.message@ + " · "@ + commit.author@ + " · "@ + when@,
{
    let mut out = commit.oid_short.clone();
    out.push_str(" ");
    out.push_str(commit.message.as_str());
    out.push_str(" · ");
    out.push_str(commit.author.as_str());
    out.push_str(" · ");
    out.push_str(when);
    out
}

/// The letter of a status.
pub open spec fn symbol_of(status: FileStatus) -> Seq<char> {
    match status {
        FileStatus::Added => "A"@,
        FileStatus::Modified => "M"@,
        FileStatus::Deleted => "D"@,
        FileStatus::Renamed => "R"@,
        FileStatus::Untracked => "?"@,
        FileStatus::TypeChange => "T"@,
    }
}

/// The letter of a status.
pub fn status_symbol(status: FileStatus) -> (r: &'static str)
    ensures
        r@ == symbol_of(status),
{
    match status {
        FileStatus::Added => "A",
        FileStatus::Modified => "M",
        FileStatus::Deleted => "D",
        FileStatus::Renamed => "R",
        FileStatus::Untracked => "?",
        FileStatus::TypeChange => "T",
    }
}

/// A row of a status list.
#[derive(Debug)]
pub struct StatusRow {
    pub path: String,
    pub label: String,
    /// Whether its diff is the one that is shown.
    pub selected: bool,
}

/// A file whose diff is shown, by its view.
pub open spec fn diff_file_view(f: Option<(String, bool)>) -> Option<(Seq<char>, bool)> {
    match f {
        Some(x) => Some((x.0@, x.1)),
        None => None,
    }
}

/// The sign before the path of an entry. Untracked files always have a question mark.
pub open spec fn sign_of(e: StatusEntry, untracked: bool) -> Seq<char> {
    if untracked {
        "?"@
    } else {
        symbol_of(e.status)
    }
}

/// Whether a row shows an entry.
pub open spec fn row_shows(
    row: StatusRow,
    e: StatusEntry,
    untracked: bool,
    staged: bool,
    shown: Option<(Seq<char>, bool)>,
) -> bool {
    &&& row.path@ == e.path@
    &&& row.label@ == sign_of(e, untracked) + " "@ + e.path@
    &&& row.selected == (shown == Some((e.path@, staged)))
}

/// Whether rows show the entries of a list in their order.
pub open spec fn rows_show(
    rows: Seq<StatusRow>,
    entries: Seq<StatusEntry>,
    untracked: bool,
    staged: bool,
    shown: Option<(Seq<char>, bool)>,
) -> bool {
    &&& rows.len() == entries.len()
    &&& forall|i: int|
        0 <= i < rows.len() ==> #[trigger] row_shows(
            rows[i],
            entries[i],
            untracked,
            staged,
            shown,
        )
}

/// Adds the rows of a list.
fn push_rows(
    rows: &mut Vec<StatusRow>,
    entries: &Vec<StatusEntry>,
    untracked: bool,
    staged: bool,
    shown: &Option<(String, bool)>,
)
    ensures
        final(rows)@.len() == old(rows)@.len() + entries@.len(),
        final(rows)@.take(old(rows)@.len() as int) == old(rows)@,
        rows_show(
            final(rows)@.skip(old(rows)@.len() as int),
            entries@,
            untracked,
            staged,
            diff_file_view(*shown),
        ),
{
    let ghost before = rows@;
    let ghost n = rows@.len() as int;
    let ghost view = diff_file_view(*shown);
    let mut i: usize = 0;
    assert(rows@.skip(n) =~= Seq::empty());
    assert(entries@.take(0) =~= Seq::empty());
    while i < entries.len()
        invariant
            i <= entries@.len(),
            n == before.len(),
            view == diff_file_view(*shown),
            rows@.len() == n + i,
            rows@.take(n) == before,
            rows_show(rows@.skip(n), entries@.take(i as int), untracked, staged, view),
        decreases entries@.len() - i,
    {
        let e = &entries[i];
        let sign = if untracked {
            "?"
        } else {
            status_symbol(e.status)
        };
        let selected = match shown {
            Some(f) => f.0 == e.path && f.1 == staged,
            None => false,
        };
        let row = StatusRow {
            path: e.path.clone(),
            label: concat3(sign, " ", e.path.as_str()),
            selected,
        };
        let ghost earlier = rows@;
        let ghost r = row;
        rows.push(row);
        proof {
            assert(rows@.take(n) =~= before);
            assert(rows@.skip(n) =~= earlier.skip(n).push(r));
            let now = rows@.skip(n);
            let list = entries@.take(i + 1);
            assert forall|k: int| 0 <= k < now.len() implies #[trigger] row_shows(
                now[k],
                list[k],
                untracked,
                staged,
                view,
            ) by {
                if k < i {
                    assert(row_shows(
                        earlier.skip(n)[k],
                        entries@.take(i as int)[k],
                        untracked,
                        staged,
                        view,
                    ));
                }
            }
        }
        i += 1;
    }
    assert(entries@.take(i as int) =~= entries@);
}

/// The rows of the staged files.
pub fn staged_rows(status: &GitStatus, shown: &Option<(String, bool)>) -> (r: Vec<StatusRow>)
    ensures
        rows_show(r@, status.staged@, false, true, diff_file_view(*shown)),
{
    let mut rows: Vec<StatusRow> = Vec::new();
    push_rows(&mut rows, &status.staged, false, true, shown);
    assert(rows@.skip(0) =~= rows@);
    rows
}

/// The rows of the files that are not staged: the changed ones, and then the untracked ones.
pub fn unstaged_rows(status: &GitStatus, shown: &Option<(String, bool)>) -> (r: Vec<StatusRow>)
    ensures
        r@.len() == status.unstaged@.len() + status.untracked@.len(),
        rows_show(
            r@.take(status.unstaged@.len() as int),
            status.unstaged@,
            false,
            false,
            diff_file_view(*shown),
        ),
        rows_show(
            r@.skip(status.unstaged@.len() as int),
            status.untracked@,
            true,
            false,
            diff_file_view(*shown),
        ),
{
    let mut rows: Vec<StatusRow> = Vec::new();
    push_rows(&mut rows, &status.unstaged, false, false, shown);
    assert(rows@.skip(0) =~= rows@);
    push_rows(&mut rows, &status.untracked, true, false, shown);
    rows
}

/// The heading of a list with its length.
pub fn list_heading(title: &str, count: usize) -> (r: String)
    ensures
        r@ == title@ + " ("@ + text::decimal(count as nat) + ")"@,
{
    let mut out = concat2(title, " (");
    push_decimal(&mut out, count as u64);
    out.push_str(")");
    out
}

/// A text without the line ends at its end.
pub open spec fn without_line_ends(s: Seq<char>) -> Seq<char>
    decreases s.len(),
{
    if s.len() > 0 && s.last() == '\n' {
        without_line_ends(s.drop_last())
    } else {
        s
    }
}

/// What is shown of a line of a diff.
pub fn diff_line_text(content: &str) -> (r: String)
    ensures
        r@ == without_line_ends(content@),
{
    let mut chars = chars_of(content);
    while chars.len() > 0 && chars[chars.len() - 1] == '\n'
        invariant
            without_line_ends(chars@) == without_line_ends(content@),
        decreases chars@.len(),
    {
        let _ = chars.pop();
    }
    string_of(chars.as_slice())
}

/// The branches of one side, in their order.
pub open spec fn branches_of(branches: Seq<BranchInfo>, remote: bool) -> Seq<BranchInfo>
    decreases branches.len(),
{
    if branches.len() == 0 {
        Seq::empty()
    } else {
        let rest = branches_of(branches.drop_last(), remote);
        if branches.last().is_remote == remote {
            rest.push(branches.last())
        } else {
            rest
        }
    }
}

/// A row of the branch list.
#[derive(Debug)]
pub struct BranchRow {
    pub name: String,
    pub label: String,
    pub is_head: bool,
}

/// Whether a row shows a branch: the current local one with a star.
pub open spec fn shows_branch_row(row: BranchRow, b: BranchInfo) -> bool {
    &&& row.name@ == b.name@
    &&& row.is_head == (b.is_head && !b.is_remote)
    &&& row.label@ == if b.is_head && !b.is_remote {
        "* "@ + b.name@
    } else {
        "  "@ + b.name@
    }
}

/// The rows of the local branches or of the remote ones.
pub fn branch_rows(branches: &Vec<BranchInfo>, remote: bool) -> (r: Vec<BranchRow>)
    ensures
        r@.len() == branches_of(branches@, remote).len(),
        forall|i: int|
            0 <= i < r@.len() ==> #[trigger] shows_branch_row(
                r@[i],
                branches_of(branches@, remote)[i],
            ),
{
    let mut rows: Vec<BranchRow> = Vec::new();
    let mut i: usize = 0;
    assert(branches@.take(0) =~= Seq::empty());
    while i < branches.len()
        invariant
            i <= branches@.len(),
            rows@.len() == branches_of(branches@.take(i as int), remote).len(),
            forall|k: int|
                0 <= k < rows@.len() ==> #[trigger] shows_branch_row(
                    rows@[k],
                    branches_of(branches@.take(i as int), remote)[k],
                ),
        decreases branches@.len() - i,
    {
        proof {
            assert(branches@.take(i + 1).drop_last() =~= branches@.take(i as int));
            assert(branches@.take(i + 1).last() == branches@[i as int]);
        }
        let b = &branches[i];
        let ghost earlier = rows@;
        if b.is_remote == remote {
            let is_head = b.is_head && !b.is_remote;
            let label = if is_head {
                concat2("* ", b.name.as_str())
            } else {
                concat2("  ", b.name.as_str())
            };
            rows.push(BranchRow { name: b.name.clone(), label, is_head });
        }
        proof {
            let done = branches_of(branches@.take(i as int), remote);
            assert forall|k: int| 0 <= k < rows@.len() implies #[trigger] shows_branch_row(
                rows@[k],
                branches_of(branches@.take(i + 1), remote)[k],
            ) by {
                if k < earlier.len() {
                    assert(shows_branch_row(earlier[k], done[k]));
                }
            }
        }
        i += 1;
    }
    assert(branches@.take(i as int) =~= branches@);
    rows
}

/// The label of a stash.
pub fn stash_label(stash: &StashEntry) -> (r: String)
    ensures
        r@ == "["@ + text::decimal(stash.index as nat) + "] "@ + stash.message@,
{
    let mut out = "[".to_owned();
    push_decimal(&mut out, stash.index as u64);
    out.push_str("] ");
    out.push_str(stash.message.as_str());
    out
}

/// What the clicked buttons of the stash list ask for: first to apply, then to pop (which is to
/// apply and to drop), then to drop.
pub open spec fn stash_wishes(apply: Seq<usize>, pop: Seq<usize>, drop: Seq<usize>) -> Seq<
    (bool, usize),
> {
    apply.map_values(|i: usize| (true, i)) + popped(pop) + drop.map_values(|i: usize| (false, i))
}

/// To pop is to apply and to drop.
pub open spec fn popped(pop: Seq<usize>) -> Seq<(bool, usize)>
    decreases pop.len(),
{
    if pop.len() == 0 {
        Seq::empty()
    } else {
        popped(pop.drop_last()).push((true, pop.last())).push((false, pop.last()))
    }
}

/// An action on a stash: whether it is applied (or else dropped), and which.
pub open spec fn stash_wish(a: GitPanelAction) -> Option<(bool, usize)> {
    match a {
        GitPanelAction::StashApply(i) => Some((true, i)),
        GitPanelAction::StashDrop(i) => Some((false, i)),
        _ => None,
    }
}

/// Whether actions are exactly these on stashes.
pub open spec fn are_wishes(actions: Seq<GitPanelAction>, wishes: Seq<(bool, usize)>) -> bool {
    &&& actions.len() == wishes.len()
    &&& forall|i: int| 0 <= i < actions.len() ==> #[trigger] stash_wish(actions[i]) == Some(wishes[i])
}

/// What the clicked buttons of the stash list ask for.
pub fn stash_actions(apply: &Vec<usize>, pop: &Vec<usize>, drop: &Vec<usize>) -> (r: Vec<
    GitPanelAction,
>)
    ensures
        are_wishes(r@, stash_wishes(apply@, pop@, drop@)),
{
    let mut out: Vec<GitPanelAction> = Vec::new();
    let ghost first = apply@.map_values(|i: usize| (true, i));
    let ghost last = drop@.map_values(|i: usize| (false, i));
    let mut i: usize = 0;
    while i < apply.len()
        invariant
            i <= apply@.len(),
            first == apply@.map_values(|i: usize| (true, i)),
            are_wishes(out@, first.take(i as int)),
        decreases apply@.len() - i,
    {
        out.push(GitPanelAction::StashApply(apply[i]));
        i += 1;
    }
    assert(first.take(i as int) =~= first);
    let mut j: usize = 0;
    assert(pop@.take(0) =~= Seq::empty());
    assert(first + popped(pop@.take(0)) =~= first);
    while j < pop.len()
        invariant
            j <= pop@.len(),
            are_wishes(out@, first + popped(pop@.take(j as int))),
        decreases pop@.len() - j,
    {
        let ghost before = first + popped(pop@.take(j as int));
        proof {
            assert(pop@.take(j + 1).drop_last() =~= pop@.take(j as int));
            assert(pop@.take(j + 1).last() == pop@[j as int]);
            assert(first + popped(pop@.take(j + 1)) =~= before.push((true, pop@[j as int])).push(
                (false, pop@[j as int]),
            ));
        }
        out.push(GitPanelAction::StashApply(pop[j]));
        out.push(GitPanelAction::StashDrop(pop[j]));
        j += 1;
    }
    assert(pop@.take(j as int) =~= pop@);
    let mut k: usize = 0;
    let ghost front = first + popped(pop@);
    assert(front + last.take(0) =~= front);
    while k < drop.len()
        invariant
            k <= drop@.len(),
            last == drop@.map_values(|i: usize| (false, i)),
            are_wishes(out@, front + last.take(k as int)),
        decreases drop@.len() - k,
    {
        assert(front + last.take(k + 1) =~= (front + last.take(k as int)).push(
            (false, drop@[k as int]),
        ));
        out.push(GitPanelAction::StashDrop(drop[k]));
        k += 1;
    }
    assert(front + last.take(k as int) =~= stash_wishes(apply@, pop@, drop@));
    out
}

/// A pair of the configuration, as it is copied.
pub fn config_pair(key: &str, value: &str) -> (r: String)
    ensures
        r@ == key@ + "="@ + value@,
{
    concat3(key, "=", value)
}

/// A text of two parts that is a function of the status.
pub open spec fn branch_text(status: Option<GitStatus>) -> Seq<char> {
    match status {
        Some(s) => (match s.head_branch {
            Some(b) => b@,
            None => "(no branch)"@,
        }) + if s.is_detached {
            " (detached HEAD)"@
        } else {
            Seq::empty()
        },
        None => "(no branch)"@,
    }
}

impl GitPanelState {
    /// How many files are staged.
    pub open spec fn staged(self) -> nat {
        match self.status {
            Some(s) => s.staged@.len(),
            None => 0,
        }
    }

    /// Whether there is something to commit and a message for it.
    pub open spec fn may_commit(self) -> bool {
        text::trimmed(self.commit_msg@).len() > 0 && self.staged() > 0
    }

    /// How many files are staged.
    pub fn staged_count(&self) -> (r: usize)
        ensures
            r == self.staged(),
    {
        match &self.status {
            Some(s) => s.staged.len(),
            None => 0,
        }
    }

    /// Goes to a tab. The configuration is loaded where it has not been.
    pub fn select_tab(&mut self, tab: GitTab) -> (r: Vec<GitPanelAction>)
        ensures
            *final(self) == (GitPanelState { tab, ..*old(self) }),
            if tab == GitTab::Config && !old(self).config_loaded {
                r@ =~= seq![GitPanelAction::LoadConfig, GitPanelAction::SwitchTab(tab)]
            } else {
                r@ =~= seq![GitPanelAction::SwitchTab(tab)]
            },
    {
        let mut out: Vec<GitPanelAction> = Vec::new();
        if tab == GitTab::Config && !self.config_loaded {
            out.push(GitPanelAction::LoadConfig);
        }
        self.tab = tab;
        out.push(GitPanelAction::SwitchTab(tab));
        out
    }

    /// The line that names the branch.
    pub fn branch_line(&self) -> (r: String)
        ensures
            r@ == "Branch: "@ + branch_text(self.status),
    {
        let mut out = "Branch: ".to_owned();
        match &self.status {
            Some(s) => {
                match &s.head_branch {
                    Some(b) => out.push_str(b.as_str()),
                    None => out.push_str("(no branch)"),
                }
                if s.is_detached {
                    out.push_str(" (detached HEAD)");
                }
            },
            None => out.push_str("(no branch)"),
        }
        assert(out@ =~= "Branch: "@ + branch_text(self.status));
        out
    }

    /// Whether there is something to commit and a message for it.
    pub fn can_commit(&self) -> (r: bool)
        ensures
            r == self.may_commit(),
    {
        let bare = trim(self.commit_msg.as_str());
        !bare.as_str().is_empty() && self.staged_count() > 0
    }

    /// What is missing for a commit.
    pub fn commit_hint(&self) -> (r: Option<&'static str>)
        ensures
            match r {
                Some(t) => !self.may_commit() && t@ == if self.staged() == 0 {
                    "Nothing staged to commit."@
                } else {
                    "Enter a commit message."@
                },
                None => self.may_commit(),
            },
    {
        if self.can_commit() {
            None
        } else if self.staged_count() == 0 {
            Some("Nothing staged to commit.")
        } else {
            Some("Enter a commit message.")
        }
    }

    /// Takes the message for a commit, where one may be made.
    pub fn take_commit(&mut self) -> (r: Option<GitPanelAction>)
        ensures
            match r {
                Some(GitPanelAction::Commit(m)) => old(self).may_commit() && m@ == text::trimmed(
                    old(self).commit_msg@,
                ) && final(self).commit_msg@.len() == 0,
                Some(_) => false,
                None => !old(self).may_commit() && final(self).commit_msg@
                    == old(self).commit_msg@,
            },
            *final(self) == (GitPanelState {
                commit_msg: final(self).commit_msg,
                ..*old(self)
            }),
    {
        if self.can_commit() {
            let message = trim(self.commit_msg.as_str());
            self.commit_msg = String::new();
            Some(GitPanelAction::Commit(message))
        } else {
            None
        }
    }

    /// Takes the name of a new branch, where one has been typed.
    pub fn take_new_branch(&mut self) -> (r: Option<GitPanelAction>)
        ensures
            match r {
                Some(GitPanelAction::CreateBranch(m)) => text::trimmed(
                    old(self).new_branch_name@,
                ).len() > 0 && m@ == text::trimmed(old(self).new_branch_name@)
                    && final(self).new_branch_name@.len() == 0,
                Some(_) => false,
                None => text::trimmed(old(self).new_branch_name@).len() == 0
                    && final(self).new_branch_name@ == old(self).new_branch_name@,
            },
            *final(self) == (GitPanelState {
                new_branch_name: final(self).new_branch_name,
                ..*old(self)
            }),
    {
        let name = trim(self.new_branch_name.as_str());
        if name.as_str().is_empty() {
            None
        } else {
            self.new_branch_name = String::new();
            Some(GitPanelAction::CreateBranch(name))
        }
    }

    /// Forgets the configuration and asks for it again.
    pub fn reload_config(&mut self) -> (r: GitPanelAction)
        ensures
            r == GitPanelAction::LoadConfig,
            *final(self) == (GitPanelState { config_loaded: false, ..*old(self) }),
    {
        self.config_loaded = false;
        GitPanelAction::LoadConfig
    }

    /// Takes in what has been read anew of the repository.
    pub fn refresh(
        &mut self,
        status: Option<GitStatus>,
        branches: Vec<BranchInfo>,
        stashes: Vec<StashEntry>,
        graph: Vec<GraphRow>,
    )
        ensures
            *final(self) == (GitPanelState {
                status,
                branches,
                stashes,
                graph,
                diff: None,
                diff_file: None,
                ..*old(self)
            }),
    {
        self.status = status;
        self.branches = branches;
        self.stashes = stashes;
        self.graph = graph;
        self.diff = None;
        self.diff_file = None;
    }
}

/// How long ago something was is told in the largest unit that has passed at least once, rounded
/// down: minutes, hours, days, months of 30 days and years of 365. Under a minute it is just now.
pub proof fn time_is_told_in_the_largest_unit(minutes: nat, hours: nat, days: nat, rest: nat)
    ensures
        rest < 60 ==> ago(rest as int) == "just now"@,
        rest < 60 && 1 <= minutes < 60 ==> ago((60 * minutes + rest) as int) == text::decimal(minutes)
            + "m ago"@,
        rest < 3600 && 1 <= hours < 24 ==> ago((3600 * hours + rest) as int) == text::decimal(hours)
            + "h ago"@,
        rest < 86400 && 1 <= days < 30 ==> ago((86400 * days + rest) as int) == text::decimal(days)
            + "d ago"@,
{
}

/// Months are told from 30 days on, and years from 365 days on.
pub proof fn months_and_years_are_told(months: nat, years: nat, rest: nat)
    ensures
        rest < 2592000 && months >= 1 && 2592000 * months + rest < 31536000 ==> ago(
            (2592000 * months + rest) as int,
        ) == text::decimal(months) + "mo ago"@,
        rest < 31536000 && years >= 1 ==> ago((31536000 * years + rest) as int) == text::decimal(years)
            + "y ago"@,
{
}

/// Every kind of change has its own sign: the letter that its name starts with, and a question mark
/// for a file that is not tracked.
pub proof fn changes_have_their_signs(e: StatusEntry)
    ensures
        symbol_of(FileStatus::Added) == "A"@,
        symbol_of(FileStatus::Modified) == "M"@,
        symbol_of(FileStatus::Deleted) == "D"@,
        symbol_of(FileStatus::Renamed) == "R"@,
        symbol_of(FileStatus::TypeChange) == "T"@,
        symbol_of(FileStatus::Untracked) == "?"@,
        sign_of(e, false) == symbol_of(e.status),
        sign_of(e, true) == "?"@,
{
}

/// A row of a status list shows the path behind the sign of its change, and is marked exactly where
/// its own difference is shown: that of the same path, staged or not as the list is.
pub proof fn status_rows_show_path_and_sign(
    row: StatusRow,
    e: StatusEntry,
    untracked: bool,
    staged: bool,
    shown: Option<(Seq<char>, bool)>,
)
    requires
        row_shows(row, e, untracked, staged, shown),
    ensures
        row.path@ == e.path@,
        !untracked && e.status == FileStatus::Deleted ==> row.label@ == "D"@ + " "@ + e.path@,
        !untracked ==> row.label@ == symbol_of(e.status) + " "@ + e.path@,
        untracked ==> row.label@ == "?"@ + " "@ + e.path@,
        row.selected ==> shown == Some((e.path@, staged)),
        shown is None ==> !row.selected,
        shown == Some((e.path@, staged)) ==> row.selected,
        shown == Some((e.path@, !staged)) ==> !row.selected,
{
}

/// Lanes are drawn in seven colours in turn, and neighbouring lanes never in the same.
pub proof fn neighbouring_lanes_have_other_colors(lane: int, k: int)
    requires
        lane >= 0,
        1 <= k <= 6,
    ensures
        lane_color_of(lane) != lane_color_of(lane + k),
        lane_color_of(lane) == lane_color_of(lane + 7),
        lane_color_of(0) == (Rgb { r: 100, g: 149, b: 237 }),
        lane_color_of(1) == (Rgb { r: 80, g: 200, b: 120 }),
        lane_color_of(2) == (Rgb { r: 255, g: 213, b: 79 }),
        lane_color_of(3) == (Rgb { r: 240, g: 90, b: 90 }),
        lane_color_of(4) == (Rgb { r: 180, g: 100, b: 220 }),
        lane_color_of(5) == (Rgb { r: 255, g: 165, b: 0 }),
        lane_color_of(6) == (Rgb { r: 64, g: 190, b: 190 }),
{
}

/// Only the line ends at the end of a text are taken away.
pub proof fn only_line_ends_at_the_end_go(s: Seq<char>, n: nat)
    requires
        s.len() == 0 || s.last() != '\n',
    ensures
        without_line_ends(s + Seq::new(n, |i: int| '\n')) == s,
    decreases n,
{
    let t = s + Seq::new(n, |i: int| '\n');
    if n == 0 {
        assert(t =~= s);
    } else {
        only_line_ends_at_the_end_go(s, (n - 1) as nat);
        assert(t.drop_last() =~= s + Seq::new((n - 1) as nat, |i: int| '\n'));
        assert(t.last() == '\n');
    }
}

/// The branches are parted by where they are, each part in its order.
pub proof fn branches_are_parted_by_place(
    a: Seq<BranchInfo>,
    b: Seq<BranchInfo>,
    one: BranchInfo,
    remote: bool,
)
    ensures
        branches_of(a + b, remote) == branches_of(a, remote) + branches_of(b, remote),
        one.is_remote == remote ==> branches_of(seq![one], remote) == seq![one],
        one.is_remote != remote ==> branches_of(seq![one], remote).len() == 0,
    decreases b.len(),
{
    reveal_with_fuel(branches_of, 2);
    assert(seq![one].drop_last() =~= Seq::<BranchInfo>::empty());
    assert(one.is_remote == remote ==> branches_of(seq![one], remote) =~= seq![one]);
    if b.len() == 0 {
        assert(a + b =~= a);
        assert(branches_of(a, remote) + branches_of(b, remote) =~= branches_of(a, remote));
    } else {
        branches_are_parted_by_place(a, b.drop_last(), one, remote);
        assert((a + b).drop_last() =~= a + b.drop_last());
        assert((a + b).last() == b.last());
        assert(branches_of(a + b, remote) =~= branches_of(a, remote) + branches_of(b, remote));
    }
}

/// A row of a branch shows its name, behind a star where it is the one that is checked out here.
pub proof fn checked_out_branch_has_a_star(row: BranchRow, b: BranchInfo)
    requires
        shows_branch_row(row, b),
    ensures
        row.name@ == b.name@,
        row.is_head <==> b.is_head && !b.is_remote,
        b.is_head && !b.is_remote ==> row.label@ == "* "@ + b.name@,
        !b.is_head || b.is_remote ==> row.label@ == "  "@ + b.name@,
{
}

/// A stash that is popped is applied and then dropped; those to apply come before those to pop, and
/// those to drop come last.
pub proof fn popping_applies_and_drops(apply: Seq<usize>, pop: Seq<usize>, drop: Seq<usize>, i: usize)
    ensures
        stash_wishes(Seq::empty(), seq![i], Seq::empty()) == seq![(true, i), (false, i)],
        stash_wishes(seq![i], Seq::empty(), Seq::empty()) == seq![(true, i)],
        stash_wishes(Seq::empty(), Seq::empty(), seq![i]) == seq![(false, i)],
        stash_wishes(apply, pop, drop) == stash_wishes(apply, Seq::empty(), Seq::empty())
            + stash_wishes(Seq::empty(), pop, Seq::empty()) + stash_wishes(
            Seq::empty(),
            Seq::empty(),
            drop,
        ),
        stash_wishes(Seq::empty(), pop.push(i), Seq::empty()) == stash_wishes(
            Seq::empty(),
            pop,
            Seq::empty(),
        ) + seq![(true, i), (false, i)],
        stash_wishes(apply.push(i), Seq::empty(), Seq::empty()) == stash_wishes(
            apply,
            Seq::empty(),
            Seq::empty(),
        ) + seq![(true, i)],
        stash_wishes(Seq::empty(), Seq::empty(), drop.push(i)) == stash_wishes(
            Seq::empty(),
            Seq::empty(),
            drop,
        ) + seq![(false, i)],
{
    let none = Seq::<usize>::empty();
    reveal_with_fuel(popped, 2);
    assert(seq![i].drop_last() =~= none);
    assert(pop.push(i).drop_last() =~= pop);
    assert(stash_wishes(none, seq![i], none) =~= seq![(true, i), (false, i)]);
    assert(stash_wishes(seq![i], none, none) =~= seq![(true, i)]);
    assert(stash_wishes(none, none, seq![i]) =~= seq![(false, i)]);
    assert(stash_wishes(apply, pop, drop) =~= stash_wishes(apply, none, none) + stash_wishes(
        none,
        pop,
        none,
    ) + stash_wishes(none, none, drop));
    assert(stash_wishes(none, pop.push(i), none) =~= stash_wishes(none, pop, none) + seq![
        (true, i),
        (false, i),
    ]);
    assert(stash_wishes(apply.push(i), none, none) =~= stash_wishes(apply, none, none) + seq![
        (true, i),
    ]);
    assert(stash_wishes(none, none, drop.push(i)) =~= stash_wishes(none, none, drop) + seq![
        (false, i),
    ]);
}

/// Applying and dropping are the actions that a wish about a stash is made of, at the same place.
pub proof fn stash_wishes_are_actions(a: GitPanelAction, i: usize)
    ensures
        a is StashApply ==> stash_wish(a) == Some((true, a->StashApply_0)),
        a is StashDrop ==> stash_wish(a) == Some((false, a->StashDrop_0)),
        !(a is StashApply) && !(a is StashDrop) ==> stash_wish(a) is None,
{
}

/// The branch that is shown is the one of the head, with a word where the head is detached from it.
pub proof fn branch_of_the_head_is_shown(status: GitStatus)
    ensures
        status.head_branch is Some && !status.is_detached ==> branch_text(Some(status))
            == status.head_branch->0@,
        status.head_branch is Some && status.is_detached ==> branch_text(Some(status))
            == status.head_branch->0@ + " (detached HEAD)"@,
        status.head_branch is None && !status.is_detached ==> branch_text(Some(status))
            == "(no branch)"@,
        branch_text(None) == "(no branch)"@,
{
    if !status.is_detached {
        assert(branch_text(Some(status)) =~= match status.head_branch {
            Some(b) => b@,
            None => "(no branch)"@,
        });
    }
}

/// A commit needs a message with more than blanks in it and something that is staged.
pub proof fn commit_needs_message_and_changes(state: GitPanelState)
    ensures
        state.may_commit() ==> state.status is Some && state.status->0.staged@.len() > 0,
        (forall|i: int|
            0 <= i < state.commit_msg@.len() ==> text::white_space(
                #[trigger] state.commit_msg@[i],
            )) ==> !state.may_commit(),
        state.status is Some && state.status->0.staged@.len() > 0 && (exists|i: int|
            0 <= i < state.commit_msg@.len() && !text::white_space(#[trigger] state.commit_msg@[i]))
            ==> state.may_commit(),
{
    let m = state.commit_msg@;
    if forall|i: int| 0 <= i < m.len() ==> text::white_space(#[trigger] m[i]) {
        text::blanks_are_trimmed_away(m);
    }
    if exists|i: int| 0 <= i < m.len() && !text::white_space(#[trigger] m[i]) {
        let at = choose|i: int| 0 <= i < m.len() && !text::white_space(#[trigger] m[i]);
        text::trimming_takes_only_the_ends(m);
        let (i, j) = choose|i: int, j: int|
            {
                &&& 0 <= i <= j <= m.len()
                &&& text::trimmed(m) == #[trigger] m.subrange(i, j)
                &&& forall|k: int| 0 <= k < i ==> text::white_space(#[trigger] m[k])
                &&& forall|k: int| j <= k < m.len() ==> text::white_space(#[trigger] m[k])
            };
        assert(i <= at < j);
    }
}

/// Every part of the panel is called by its name.
pub proof fn parts_of_the_panel_have_names()
    ensures
        tab_name(GitTab::Graph) == "Graph"@,
        tab_name(GitTab::Status) == "Status"@,
        tab_name(GitTab::Commit) == "Commit"@,
        tab_name(GitTab::Branches) == "Branches"@,
        tab_name(GitTab::Stash) == "Stash"@,
        tab_name(GitTab::PushPull) == "Push/Pull"@,
        tab_name(GitTab::Config) == "Config"@,
{
}

} // verus!
