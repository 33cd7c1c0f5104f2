//! The commit graph: labels of the commits and the lanes that connect them.

use vstd::prelude::*;

use crate::text;
use crate::text::{chars_copy, chars_of, first_line, string_of, strip_prefix};

verus! {

/// How much of the history is shown.
pub const MAX_COMMITS: usize = 300;

/// What a label on a commit stands for.
#[derive(Clone, Copy, Debug, PartialEq, Eq, Structural)]
pub enum RefKind {
    Head,
    Local,
    Remote,
    Tag,
}

/// A label on a commit.
#[derive(Debug)]
pub struct RefLabel {
    pub name: String,
    pub kind: RefKind,
}

/// What is shown of a commit.
#[derive(Debug)]
pub struct CommitInfo {
    /// The first seven digits of the id.
    pub oid_short: String,
    /// The first line of the message.
    pub message: String,
    pub author: String,
    /// Seconds since the epoch.
    pub time: i64,
    pub refs: Vec<RefLabel>,
}

/// A row of the graph.
#[derive(Debug)]
pub struct GraphRow {
    pub commit: CommitInfo,
    /// The column of the commit.
    pub lane: usize,
    /// How many columns the row needs.
    pub lane_count: usize,
    /// Segments from the middle of the row to its bottom, as pairs of columns. They are also the
    /// upper half of the next row.
    pub lower_edges: Vec<(usize, usize)>,
}

/// A commit as it was found in the history.
#[derive(Debug)]
pub struct CommitRecord {
    /// The id in hexadecimal.
    pub oid: String,
    pub parents: Vec<String>,
    pub message: Option<String>,
    pub author: Option<String>,
    pub time: i64,
}

/// A reference that points at a commit.
#[derive(Debug)]
pub struct RefRecord {
    pub full_name: String,
    pub target: String,
}

/// A label by its name and kind.
pub type LabelView = (Seq<char>, RefKind);

/// The open lanes: which commit each waits for.
pub type Lanes = Seq<Option<Seq<char>>>;

/// A label as a pair.
pub open spec fn label_views(labels: Seq<RefLabel>) -> Seq<LabelView> {
    labels.map_values(|l: RefLabel| (l.name@, l.kind))
}

/// The lanes that a list of slots stands for.
pub open spec fn lanes_of(slots: Seq<Option<String>>) -> Lanes {
    slots.map_values(|s: Option<String>| text::optional_text(s))
}

/// Edges by their columns.
pub open spec fn edge_views(edges: Seq<(usize, usize)>) -> Seq<(int, int)> {
    edges.map_values(|e: (usize, usize)| (e.0 as int, e.1 as int))
}

/// The label that a full reference name gets, where it gets one.
pub open spec fn classified(full_name: Seq<char>) -> Option<LabelView> {
    if full_name == "HEAD"@ {
        None
    } else if text::behind(full_name, "refs/heads/"@) is Some {
        Some((text::behind(full_name, "refs/heads/"@)->0, RefKind::Local))
    } else if text::behind(full_name, "refs/remotes/"@) is Some {
        Some((text::behind(full_name, "refs/remotes/"@)->0, RefKind::Remote))
    } else if text::behind(full_name, "refs/tags/"@) is Some {
        Some((text::behind(full_name, "refs/tags/"@)->0, RefKind::Tag))
    } else {
        None
    }
}

/// The labels that the references put on a commit, in their order.
pub open spec fn reference_labels(references: Seq<RefRecord>, oid: Seq<char>) -> Seq<LabelView>
    decreases references.len(),
{
    if references.len() == 0 {
        Seq::empty()
    } else {
        let rest = reference_labels(references.drop_last(), oid);
        let last = references.last();
        if last.target@ == oid && classified(last.full_name@) is Some {
            rest.push(classified(last.full_name@)->0)
        } else {
            rest
        }
    }
}

/// All labels of a commit: those of the references, and HEAD behind them.
pub open spec fn commit_labels(
    references: Seq<RefRecord>,
    head: Option<Seq<char>>,
    oid: Seq<char>,
) -> Seq<LabelView> {
    if head == Some(oid) {
        reference_labels(references, oid).push(("HEAD"@, RefKind::Head))
    } else {
        reference_labels(references, oid)
    }
}

/// The first lane at or after `i` that holds `what`, and the number of lanes where none does.
pub open spec fn find_lane(lanes: Lanes, what: Option<Seq<char>>, i: int) -> int
    decreases lanes.len() - i,
{
    if i < 0 || i >= lanes.len() {
        lanes.len() as int
    } else if lanes[i] == what {
        i
    } else {
        find_lane(lanes, what, i + 1)
    }
}

/// The lane of a commit: the one that waits for it, else the first free one, else a new one.
pub open spec fn commit_lane(lanes: Lanes, oid: Seq<char>) -> int {
    let waiting = find_lane(lanes, Some(oid), 0);
    if waiting < lanes.len() {
        waiting
    } else {
        find_lane(lanes, None, 0)
    }
}

/// The lanes with one of them (or one more) holding `what`.
pub open spec fn with_lane(lanes: Lanes, lane: int, what: Option<Seq<char>>) -> Lanes {
    if lane < lanes.len() {
        lanes.update(lane, what)
    } else {
        lanes.push(what)
    }
}

/// The lanes once a commit has been reached: its lane is free.
pub open spec fn lanes_freed(lanes: Lanes, oid: Seq<char>) -> Lanes {
    with_lane(lanes, commit_lane(lanes, oid), None)
}

/// The edges of the first `n` lanes that pass a commit by.
pub open spec fn passing_edges(lanes: Lanes, n: int) -> Seq<(int, int)>
    decreases n,
{
    if n <= 0 {
        Seq::empty()
    } else if lanes[n - 1] is Some {
        passing_edges(lanes, n - 1).push((n - 1, n - 1))
    } else {
        passing_edges(lanes, n - 1)
    }
}

/// The lane that a parent goes to: the one that waits for it already; else the first parent
/// follows in the commit's lane and any other goes to the first free lane or a new one.
pub open spec fn parent_lane(lanes: Lanes, lane: int, parent: Seq<char>, first: bool) -> int {
    let waiting = find_lane(lanes, Some(parent), 0);
    if waiting < lanes.len() {
        waiting
    } else if first {
        lane
    } else {
        find_lane(lanes, None, 0)
    }
}

/// The lanes once the first `n` parents of a commit have theirs.
pub open spec fn lanes_with_parents(
    freed: Lanes,
    lane: int,
    parents: Seq<Seq<char>>,
    n: int,
) -> Lanes
    decreases n,
{
    if n <= 0 {
        freed
    } else {
        let before = lanes_with_parents(freed, lane, parents, n - 1);
        let to = parent_lane(before, lane, parents[n - 1], n == 1);
        with_lane(before, to, Some(parents[n - 1]))
    }
}

/// The edges from a commit to its first `n` parents.
pub open spec fn parent_edges(freed: Lanes, lane: int, parents: Seq<Seq<char>>, n: int) -> Seq<
    (int, int),
>
    decreases n,
{
    if n <= 0 {
        Seq::empty()
    } else {
        let before = lanes_with_parents(freed, lane, parents, n - 1);
        parent_edges(freed, lane, parents, n - 1).push(
            (lane, parent_lane(before, lane, parents[n - 1], n == 1)),
        )
    }
}

/// The lanes without the free ones at the end.
pub open spec fn lanes_trimmed(lanes: Lanes) -> Lanes
    decreases lanes.len(),
{
    if lanes.len() > 0 && lanes.last() is None {
        lanes_trimmed(lanes.drop_last())
    } else {
        lanes
    }
}

/// The lanes behind a commit.
pub open spec fn lanes_behind(lanes: Lanes, oid: Seq<char>, parents: Seq<Seq<char>>) -> Lanes {
    lanes_trimmed(
        lanes_with_parents(
            lanes_freed(lanes, oid),
            commit_lane(lanes, oid),
            parents,
            parents.len() as int,
        ),
    )
}

/// The edges below a commit.
pub open spec fn edges_below(lanes: Lanes, oid: Seq<char>, parents: Seq<Seq<char>>) -> Seq<
    (int, int),
> {
    let freed = lanes_freed(lanes, oid);
    passing_edges(freed, freed.len() as int) + parent_edges(
        freed,
        commit_lane(lanes, oid),
        parents,
        parents.len() as int,
    )
}

/// The columns that a row needs: up to the commit and up to the last lane in use.
pub open spec fn columns_needed(lanes: Lanes, oid: Seq<char>, parents: Seq<Seq<char>>) -> int {
    let width = lanes_behind(lanes, oid, parents).len() as int;
    let own = commit_lane(lanes, oid) + 1;
    if own >= width {
        own
    } else {
        width
    }
}

/// The lanes behind the first `n` commits.
pub open spec fn lanes_after(commits: Seq<CommitRecord>, n: int) -> Lanes
    decreases n,
{
    if n <= 0 {
        Seq::empty()
    } else {
        lanes_behind(
            lanes_after(commits, n - 1),
            commits[n - 1].oid@,
            text::text_views(commits[n - 1].parents@),
        )
    }
}

/// Whether a commit came up before the place `n`.
pub open spec fn seen_before(commits: Seq<CommitRecord>, n: int) -> bool {
    exists|j: int| 0 <= j < n && (#[trigger] commits[j]).oid@ == commits[n].oid@
}

/// Whether a row shows the commit at the place `n` of the history.
pub open spec fn row_shows(
    row: GraphRow,
    commits: Seq<CommitRecord>,
    references: Seq<RefRecord>,
    head: Option<Seq<char>>,
    n: int,
) -> bool {
    let c = commits[n];
    let lanes = lanes_after(commits, n);
    let parents = text::text_views(c.parents@);
    &&& row.commit.oid_short@ == c.oid@.take(
        if c.oid@.len() >= 7 {
            7
        } else {
            c.oid@.len() as int
        },
    )
    &&& row.commit.message@ == match c.message {
        Some(m) => text::first_line_of(m@),
        None => Seq::empty(),
    }
    &&& row.commit.author@ == match c.author {
        Some(a) => a@,
        None => "?"@,
    }
    &&& row.commit.time == c.time
    &&& label_views(row.commit.refs@) == if seen_before(commits, n) {
        Seq::empty()
    } else {
        commit_labels(references, head, c.oid@)
    }
    &&& row.lane == commit_lane(lanes, c.oid@)
    &&& row.lane_count == columns_needed(lanes, c.oid@, parents)
    &&& edge_views(row.lower_edges@) == edges_below(lanes, c.oid@, parents)
}

proof fn lemma_find_lane(lanes: Lanes, what: Option<Seq<char>>, i: int)
    requires
        0 <= i <= lanes.len(),
    ensures
        i <= find_lane(lanes, what, i) <= lanes.len(),
        find_lane(lanes, what, i) < lanes.len() ==> lanes[find_lane(lanes, what, i)] == what,
        forall|k: int| i <= k < find_lane(lanes, what, i) ==> lanes[k] != what,
    decreases lanes.len() - i,
{
    if i < lanes.len() && lanes[i] != what {
        lemma_find_lane(lanes, what, i + 1);
    }
}

/// The label that a full reference name gets.
pub fn classify_reference(full_name: &str) -> (r: Option<RefLabel>)
    ensures
        match r {
            Some(l) => classified(full_name@) == Some((l.name@, l.kind)),
            None => classified(full_name@) is None,
        },
{
    let head = "HEAD".to_owned();
    if full_name.to_owned() == head {
        return None;
    }
    if let Some(name) = strip_prefix(full_name, "refs/heads/") {
        return Some(RefLabel { name, kind: RefKind::Local });
    }
    if let Some(name) = strip_prefix(full_name, "refs/remotes/") {
        return Some(RefLabel { name, kind: RefKind::Remote });
    }
    if let Some(name) = strip_prefix(full_name, "refs/tags/") {
        return Some(RefLabel { name, kind: RefKind::Tag });
    }
    None
}

/// Collects the labels of a commit.
pub fn collect_labels(references: &Vec<RefRecord>, head: &Option<String>, oid: &String) -> (r: Vec<
    RefLabel,
>)
    ensures
        label_views(r@) == commit_labels(
            references@,
            text::optional_text(*head),
            oid@,
        ),
{
    let mut out: Vec<RefLabel> = Vec::new();
    let mut i: usize = 0;
    assert(label_views(out@) =~= reference_labels(references@.take(0), oid@));
    while i < references.len()
        invariant
            i <= references@.len(),
            label_views(out@) == reference_labels(references@.take(i as int), oid@),
        decreases references@.len() - i,
    {
        proof {
            assert(references@.take(i + 1).drop_last() =~= references@.take(i as int));
            assert(references@.take(i + 1).last() == references@[i as int]);
        }
        let ghost before = label_views(out@);
        if references[i].target == *oid {
            if let Some(label) = classify_reference(references[i].full_name.as_str()) {
                let ghost l = (label.name@, label.kind);
                out.push(label);
                assert(label_views(out@) =~= before.push(l));
            }
        }
        i += 1;
    }
    assert(references@.take(i as int) =~= references@);
    let at_head = match head {
        Some(h) => *h == *oid,
        None => false,
    };
    if at_head {
        let ghost before = label_views(out@);
        out.push(RefLabel { name: "HEAD".to_owned(), kind: RefKind::Head });
        assert(label_views(out@) =~= before.push(("HEAD"@, RefKind::Head)));
    }
    out
}

/// The first seven digits of an id.
pub fn short_id(oid: &str) -> (r: String)
    ensures
        r@ == oid@.take(
            if oid@.len() >= 7 {
                7
            } else {
                oid@.len() as int
            },
        ),
{
    let s = chars_of(oid);
    let n: usize = if s.len() >= 7 {
        7
    } else {
        s.len()
    };
    let head = chars_copy(&s, 0, n);
    assert(head@ =~= oid@.take(n as int));
    string_of(head.as_slice())
}

/// The first lane that waits for a commit, and the number of lanes where none does.
fn lane_waiting(slots: &Vec<Option<String>>, oid: &String) -> (r: usize)
    ensures
        r == find_lane(lanes_of(slots@), Some(oid@), 0),
{
    let ghost lanes = lanes_of(slots@);
    let mut i: usize = 0;
    while i < slots.len()
        invariant
            i <= slots@.len(),
            lanes == lanes_of(slots@),
            find_lane(lanes, Some(oid@), 0) == find_lane(lanes, Some(oid@), i as int),
        decreases slots@.len() - i,
    {
        let here = match &slots[i] {
            Some(t) => *t == *oid,
            None => false,
        };
        if here {
            return i;
        }
        i += 1;
    }
    i
}

/// The first free lane, and the number of lanes where none is.
fn lane_free(slots: &Vec<Option<String>>) -> (r: usize)
    ensures
        r == find_lane(lanes_of(slots@), None, 0),
{
    let ghost lanes = lanes_of(slots@);
    let mut i: usize = 0;
    while i < slots.len()
        invariant
            i <= slots@.len(),
            lanes == lanes_of(slots@),
            find_lane(lanes, None, 0) == find_lane(lanes, None, i as int),
        decreases slots@.len() - i,
    {
        if slots[i].is_none() {
            return i;
        }
        i += 1;
    }
    i
}

/// Lets a lane (or one more) hold something.
fn set_lane(slots: &mut Vec<Option<String>>, lane: usize, what: Option<String>)
    requires
        lane <= old(slots)@.len(),
    ensures
        lanes_of(final(slots)@) == with_lane(
            lanes_of(old(slots)@),
            lane as int,
            text::optional_text(what),
        ),
{
    let ghost before = lanes_of(slots@);
    let ghost v = text::optional_text(what);
    if lane < slots.len() {
        slots.set(lane, what);
        assert(lanes_of(slots@) =~= before.update(lane as int, v));
    } else {
        slots.push(what);
        assert(lanes_of(slots@) =~= before.push(v));
    }
}

/// What a commit does to the lanes: its lane, the columns of its row and the edges below it.
fn lay_out_commit(slots: &mut Vec<Option<String>>, oid: &String, parents: &Vec<String>) -> (r: (
    usize,
    usize,
    Vec<(usize, usize)>,
))
    ensures
        ({
            let lanes = lanes_of(old(slots)@);
            let up = text::text_views(parents@);
            &&& lanes_of(final(slots)@) == lanes_behind(lanes, oid@, up)
            &&& r.0 == commit_lane(lanes, oid@)
            &&& r.1 == columns_needed(lanes, oid@, up)
            &&& edge_views(r.2@) == edges_below(lanes, oid@, up)
        }),
{
    let ghost lanes = lanes_of(slots@);
    let ghost up = text::text_views(parents@);
    proof {
        lemma_find_lane(lanes, Some(oid@), 0);
        lemma_find_lane(lanes, None, 0);
    }
    let waiting = lane_waiting(slots, oid);
    let lane: usize = if waiting < slots.len() {
        waiting
    } else {
        lane_free(slots)
    };
    set_lane(slots, lane, None);
    let ghost freed = lanes_of(slots@);
    assert(freed == lanes_freed(lanes, oid@));
    let mut edges: Vec<(usize, usize)> = Vec::new();
    let mut i: usize = 0;
    assert(edge_views(edges@) =~= passing_edges(freed, 0));
    while i < slots.len()
        invariant
            i <= slots@.len(),
            freed == lanes_of(slots@),
            edge_views(edges@) == passing_edges(freed, i as int),
        decreases slots@.len() - i,
    {
        let ghost before = edge_views(edges@);
        if slots[i].is_some() {
            edges.push((i, i));
            assert(edge_views(edges@) =~= before.push((i as int, i as int)));
        }
        i += 1;
    }
    let ghost passing = edge_views(edges@);
    let mut k: usize = 0;
    assert(edge_views(edges@) =~= passing + parent_edges(freed, lane as int, up, 0));
    while k < parents.len()
        invariant
            k <= parents@.len(),
            up == text::text_views(parents@),
            lane < freed.len(),
            slots@.len() >= freed.len(),
            lanes_of(slots@) == lanes_with_parents(freed, lane as int, up, k as int),
            edge_views(edges@) == passing + parent_edges(freed, lane as int, up, k as int),
        decreases parents@.len() - k,
    {
        let ghost now = lanes_of(slots@);
        assert(now.len() == slots@.len());
        let ghost before = edge_views(edges@);
        assert(up[k as int] == parents@[k as int]@);
        proof {
            lemma_find_lane(now, Some(up[k as int]), 0);
            lemma_find_lane(now, None, 0);
        }
        let found = lane_waiting(slots, &parents[k]);
        let to: usize = if found < slots.len() {
            found
        } else if k == 0 {
            lane
        } else {
            lane_free(slots)
        };
        set_lane(slots, to, Some(parents[k].clone()));
        edges.push((lane, to));
        k += 1;
        proof {
            assert(lanes_of(slots@).len() == slots@.len());
            assert(now.len() >= freed.len());
            assert(edge_views(edges@) =~= before.push((lane as int, to as int)));
            assert(edge_views(edges@) =~= passing + parent_edges(
                freed,
                lane as int,
                up,
                k as int,
            ));
        }
    }
    let ghost full = lanes_of(slots@);
    while slots.len() > 0 && slots[slots.len() - 1].is_none()
        invariant
            lanes_trimmed(lanes_of(slots@)) == lanes_trimmed(full),
        decreases slots@.len(),
    {
        let ghost now = lanes_of(slots@);
        let _ = slots.pop();
        assert(lanes_of(slots@) =~= now.drop_last());
    }
    proof {
        assert(lanes_of(slots@).len() == slots@.len());
        if slots@.len() > 0 {
            assert(lanes_of(slots@).last() is Some);
        }
        assert(lanes_of(slots@) == lanes_trimmed(full));
    }
    let width: usize = slots.len();
    let count: usize = if lane >= width {
        lane + 1
    } else {
        width
    };
    (lane, count, edges)
}

/// Whether a commit came up before.
fn came_up_before(commits: &Vec<CommitRecord>, n: usize) -> (r: bool)
    requires
        n < commits@.len(),
    ensures
        r == seen_before(commits@, n as int),
{
    let mut j: usize = 0;
    while j < n
        invariant
            j <= n < commits@.len(),
            forall|k: int| 0 <= k < j ==> (#[trigger] commits@[k]).oid@ != commits@[n as int].oid@,
        decreases n - j,
    {
        if commits[j].oid == commits[n].oid {
            return true;
        }
        j += 1;
    }
    false
}

/// How many rows a history of so many commits gets.
pub open spec fn row_count(commits: nat, max_commits: usize) -> int {
    if commits <= max_commits {
        commits as int
    } else {
        max_commits as int
    }
}

/// Builds the rows of the graph from the commits of the history, newest first, and the
/// references: one row for each commit, up to `max_commits`.
pub fn build_graph(
    commits: &Vec<CommitRecord>,
    references: &Vec<RefRecord>,
    head: &Option<String>,
    max_commits: usize,
) -> (r: Vec<GraphRow>)
    ensures
        r@.len() == row_count(commits@.len(), max_commits),
        forall|n: int|
            0 <= n < r@.len() ==> row_shows(
                #[trigger] r@[n],
                commits@,
                references@,
                text::optional_text(*head),
                n,
            ),
{
    let ghost at = text::optional_text(*head);
    let mut rows: Vec<GraphRow> = Vec::new();
    let mut slots: Vec<Option<String>> = Vec::new();
    let mut n: usize = 0;
    assert(lanes_of(slots@) =~= lanes_after(commits@, 0));
    while n < commits.len() && n < max_commits
        invariant
            n <= commits@.len(),
            n <= max_commits,
            rows@.len() == n,
            at == text::optional_text(*head),
            lanes_of(slots@) == lanes_after(commits@, n as int),
            forall|k: int|
                0 <= k < n ==> row_shows(#[trigger] rows@[k], commits@, references@, at, k),
        decreases commits@.len() - n,
    {
        let c = &commits[n];
        let refs = if came_up_before(commits, n) {
            let none: Vec<RefLabel> = Vec::new();
            assert(label_views(none@) =~= Seq::empty());
            none
        } else {
            collect_labels(references, head, &c.oid)
        };
        let (lane, lane_count, lower_edges) = lay_out_commit(&mut slots, &c.oid, &c.parents);
        let message = match &c.message {
            Some(m) => first_line(m.as_str()),
            None => {
                let none = String::new();
                assert(none@ =~= Seq::empty());
                none
            },
        };
        let author = match &c.author {
            Some(a) => a.clone(),
            None => "?".to_owned(),
        };
        let commit = CommitInfo {
            oid_short: short_id(c.oid.as_str()),
            message,
            author,
            time: c.time,
            refs,
        };
        let row = GraphRow { commit, lane, lane_count, lower_edges };
        assert(row_shows(row, commits@, references@, at, n as int));
        rows.push(row);
        n += 1;
    }
    rows
}

/// Whether no two lanes wait for the same commit.
pub open spec fn lanes_distinct(lanes: Lanes) -> bool {
    forall|i: int, j: int|
        0 <= i < j < lanes.len() && (#[trigger] lanes[i]) is Some ==> lanes[i] != (
        #[trigger] lanes[j])
}

proof fn lemma_with_lane_distinct(lanes: Lanes, lane: int, parent: Seq<char>)
    requires
        lanes_distinct(lanes),
        0 <= lane <= lanes.len(),
        find_lane(lanes, Some(parent), 0) == lanes.len() || lane == find_lane(
            lanes,
            Some(parent),
            0,
        ),
    ensures
        lanes_distinct(with_lane(lanes, lane, Some(parent))),
{
    lemma_find_lane(lanes, Some(parent), 0);
    let t = with_lane(lanes, lane, Some(parent));
    if find_lane(lanes, Some(parent), 0) < lanes.len() {
        assert(t =~= lanes);
    } else {
        assert forall|i: int, j: int|
            0 <= i < j < t.len() && (#[trigger] t[i]) is Some implies t[i] != (
        #[trigger] t[j]) by {
            if i == lane {
                assert(lanes[j] != Some(parent));
            } else if j == lane {
                assert(lanes[i] != Some(parent));
            }
        }
    }
}

proof fn lemma_freed(lanes: Lanes, oid: Seq<char>)
    requires
        lanes_distinct(lanes),
    ensures
        0 <= commit_lane(lanes, oid) <= lanes.len(),
        commit_lane(lanes, oid) < lanes_freed(lanes, oid).len(),
        lanes_freed(lanes, oid).len() >= lanes.len(),
        lanes_distinct(lanes_freed(lanes, oid)),
        lanes_freed(lanes, oid)[commit_lane(lanes, oid)] is None,
        find_lane(lanes_freed(lanes, oid), Some(oid), 0) == lanes_freed(lanes, oid).len(),
{
    lemma_find_lane(lanes, Some(oid), 0);
    lemma_find_lane(lanes, None, 0);
    let f = lanes_freed(lanes, oid);
    lemma_find_lane(f, Some(oid), 0);
    let lane = commit_lane(lanes, oid);
    let p = find_lane(f, Some(oid), 0);
    if p < f.len() {
        assert(f[p] == Some(oid));
        assert(p != lane);
        assert(lanes[p] == Some(oid));
        if lane < p {
            assert(lanes[lane] == Some(oid));
            assert(lanes[lane] != lanes[p]);
        }
    }
}

proof fn lemma_parents(freed: Lanes, lane: int, parents: Seq<Seq<char>>, n: int)
    requires
        lanes_distinct(freed),
        0 <= lane < freed.len(),
        freed[lane] is None,
        0 <= n <= parents.len(),
    ensures
        ({
            let t = lanes_with_parents(freed, lane, parents, n);
            &&& lanes_distinct(t)
            &&& t.len() >= freed.len()
            &&& forall|i: int|
                0 <= i < freed.len() && (#[trigger] freed[i]) is Some ==> t[i] == freed[i]
            &&& forall|k: int|
                0 <= k < n ==> find_lane(t, Some(#[trigger] parents[k]), 0) < t.len()
            &&& parent_edges(freed, lane, parents, n).len() == n
            &&& forall|k: int|
                0 <= k < n ==> {
                    let e = #[trigger] parent_edges(freed, lane, parents, n)[k];
                    &&& e.0 == lane
                    &&& 0 <= e.1 < t.len()
                    &&& t[e.1] == Some(parents[k])
                }
        }),
    decreases n,
{
    if n > 0 {
        lemma_parents(freed, lane, parents, n - 1);
        let before = lanes_with_parents(freed, lane, parents, n - 1);
        let parent = parents[n - 1];
        let to = parent_lane(before, lane, parent, n == 1);
        let t = lanes_with_parents(freed, lane, parents, n);
        lemma_find_lane(before, Some(parent), 0);
        lemma_find_lane(before, None, 0);
        if find_lane(before, Some(parent), 0) == before.len() {
            if n == 1 {
                assert(before == freed);
            }
        }
        lemma_with_lane_distinct(before, to, parent);
        assert(t[to] == Some(parent));
        assert forall|i: int| 0 <= i < before.len() && before[i] is Some implies t[i]
            == #[trigger] before[i] by {
            if i == to {
                assert(before[i] == Some(parent));
            }
        }
        assert forall|k: int| 0 <= k < n implies find_lane(t, Some(#[trigger] parents[k]), 0)
            < t.len() by {
            lemma_find_lane(t, Some(parents[k]), 0);
            if k < n - 1 {
                lemma_find_lane(before, Some(parents[k]), 0);
                let q = find_lane(before, Some(parents[k]), 0);
                assert(before[q] == Some(parents[k]));
                assert(t[q] == Some(parents[k]));
            } else {
                assert(t[to] == Some(parents[k]));
            }
        }
        let es = parent_edges(freed, lane, parents, n);
        assert forall|k: int| 0 <= k < n implies {
            let e = #[trigger] es[k];
            &&& e.0 == lane
            &&& 0 <= e.1 < t.len()
            &&& t[e.1] == Some(parents[k])
        } by {
            if k < n - 1 {
                let e = parent_edges(freed, lane, parents, n - 1)[k];
                assert(es[k] == e);
                assert(before[e.1] == Some(parents[k]));
            }
        }
    }
}

proof fn lemma_trimmed(lanes: Lanes)
    ensures
        lanes_trimmed(lanes).len() <= lanes.len(),
        lanes_trimmed(lanes) == lanes.take(lanes_trimmed(lanes).len() as int),
        forall|i: int| lanes_trimmed(lanes).len() <= i < lanes.len() ==> lanes[i] is None,
    decreases lanes.len(),
{
    if lanes.len() > 0 && lanes.last() is None {
        let d = lanes.drop_last();
        lemma_trimmed(d);
        let t = lanes_trimmed(d);
        assert(t =~= lanes.take(t.len() as int));
        assert forall|i: int| t.len() <= i < lanes.len() implies lanes[i] is None by {
            if i < d.len() {
                assert(d[i] is None);
                assert(lanes[i] == d[i]);
            }
        }
    } else {
        assert(lanes =~= lanes.take(lanes.len() as int));
    }
}

proof fn lemma_passing(lanes: Lanes, n: int, k: int)
    requires
        0 <= n <= lanes.len(),
        0 <= k < passing_edges(lanes, n).len(),
    ensures
        ({
            let e = passing_edges(lanes, n)[k];
            0 <= e.0 < n && e.1 == e.0 && lanes[e.0] is Some
        }),
    decreases n,
{
    if n > 0 {
        let rest = passing_edges(lanes, n - 1);
        if k < rest.len() {
            lemma_passing(lanes, n - 1, k);
            assert(passing_edges(lanes, n)[k] == rest[k]);
        }
    }
}

/// However the history goes, no two lanes ever wait for the same commit.
pub proof fn lanes_stay_distinct(commits: Seq<CommitRecord>, n: int)
    requires
        0 <= n <= commits.len(),
    ensures
        lanes_distinct(lanes_after(commits, n)),
    decreases n,
{
    if n > 0 {
        lanes_stay_distinct(commits, n - 1);
        commit_leaves_lanes_in_order(
            lanes_after(commits, n - 1),
            commits[n - 1].oid@,
            text::text_views(commits[n - 1].parents@),
        );
    }
}

/// Behind a commit the lanes are still distinct, every parent has a lane that waits for it, and
/// every lane that waited for another commit still does.
pub proof fn commit_leaves_lanes_in_order(lanes: Lanes, oid: Seq<char>, parents: Seq<Seq<char>>)
    requires
        lanes_distinct(lanes),
    ensures
        lanes_distinct(lanes_behind(lanes, oid, parents)),
        forall|k: int|
            0 <= k < parents.len() ==> find_lane(
                lanes_behind(lanes, oid, parents),
                Some(#[trigger] parents[k]),
                0,
            ) < lanes_behind(lanes, oid, parents).len(),
        forall|i: int|
            0 <= i < lanes.len() && (#[trigger] lanes[i]) is Some && lanes[i] != Some(oid) ==> i
                < lanes_behind(lanes, oid, parents).len() && lanes_behind(lanes, oid, parents)[i]
                == lanes[i],
{
    lemma_freed(lanes, oid);
    let freed = lanes_freed(lanes, oid);
    let lane = commit_lane(lanes, oid);
    lemma_parents(freed, lane, parents, parents.len() as int);
    let full = lanes_with_parents(freed, lane, parents, parents.len() as int);
    lemma_trimmed(full);
    let t = lanes_trimmed(full);
    assert forall|i: int, j: int| 0 <= i < j < t.len() && (#[trigger] t[i]) is Some implies t[i]
        != (#[trigger] t[j]) by {
        assert(t[i] == full[i] && t[j] == full[j]);
    }
    assert forall|k: int| 0 <= k < parents.len() implies find_lane(
        t,
        Some(#[trigger] parents[k]),
        0,
    ) < t.len() by {
        lemma_find_lane(full, Some(parents[k]), 0);
        let q = find_lane(full, Some(parents[k]), 0);
        assert(full[q] is Some);
        assert(q < t.len());
        assert(t[q] == Some(parents[k]));
        lemma_find_lane(t, Some(parents[k]), 0);
    }
    assert forall|i: int|
        0 <= i < lanes.len() && (#[trigger] lanes[i]) is Some && lanes[i] != Some(oid) implies i
        < t.len() && t[i] == lanes[i] by {
        lemma_find_lane(lanes, Some(oid), 0);
        lemma_find_lane(lanes, None, 0);
        assert(i != lane);
        assert(freed[i] == lanes[i]);
        assert(full[i] == freed[i]);
    }
}

/// Every row has room for its commit and for all its edges, and every edge ends at a lane that
/// waits for a commit.
pub proof fn edges_fit_the_row(lanes: Lanes, oid: Seq<char>, parents: Seq<Seq<char>>, k: int)
    requires
        lanes_distinct(lanes),
        0 <= k < edges_below(lanes, oid, parents).len(),
    ensures
        ({
            let e = edges_below(lanes, oid, parents)[k];
            let behind = lanes_behind(lanes, oid, parents);
            &&& 0 <= e.0 < columns_needed(lanes, oid, parents)
            &&& 0 <= e.1 < columns_needed(lanes, oid, parents)
            &&& e.1 < behind.len() && behind[e.1] is Some
        }),
        commit_lane(lanes, oid) < columns_needed(lanes, oid, parents),
{
    lemma_freed(lanes, oid);
    let freed = lanes_freed(lanes, oid);
    let lane = commit_lane(lanes, oid);
    lemma_parents(freed, lane, parents, parents.len() as int);
    let full = lanes_with_parents(freed, lane, parents, parents.len() as int);
    lemma_trimmed(full);
    let t = lanes_trimmed(full);
    let passing = passing_edges(freed, freed.len() as int);
    let e = edges_below(lanes, oid, parents)[k];
    if k < passing.len() {
        lemma_passing(freed, freed.len() as int, k);
        assert(e == passing[k]);
        assert(full[e.0] == freed[e.0]);
    } else {
        let es = parent_edges(freed, lane, parents, parents.len() as int);
        assert(e == es[k - passing.len()]);
        assert(full[e.1] is Some);
    }
    assert(full[e.1] is Some);
    assert(e.1 < t.len());
    assert(t[e.1] == full[e.1]);
}

/// A commit that a lane waits for is put in that lane.
pub proof fn awaited_commit_takes_its_lane(lanes: Lanes, oid: Seq<char>, lane: int)
    requires
        lanes_distinct(lanes),
        0 <= lane < lanes.len(),
        lanes[lane] == Some(oid),
    ensures
        commit_lane(lanes, oid) == lane,
{
    lemma_find_lane(lanes, Some(oid), 0);
}

/// The edges below the commit at a place of the history.
pub open spec fn edges_at(commits: Seq<CommitRecord>, n: int) -> Seq<(int, int)> {
    edges_below(
        lanes_after(commits, n),
        commits[n].oid@,
        text::text_views(commits[n].parents@),
    )
}

/// The lane of the commit at a place of the history.
pub open spec fn lane_at(commits: Seq<CommitRecord>, n: int) -> int {
    commit_lane(lanes_after(commits, n), commits[n].oid@)
}

proof fn lemma_passes(lanes: Lanes, n: int, lane: int)
    requires
        0 <= lane < n <= lanes.len(),
        lanes[lane] is Some,
    ensures
        passing_edges(lanes, n).contains((lane, lane)),
    decreases n,
{
    let rest = passing_edges(lanes, n - 1);
    let all = passing_edges(lanes, n);
    if lane == n - 1 {
        assert(all == rest.push((lane, lane)));
        assert(all[rest.len() as int] == (lane, lane));
    } else {
        lemma_passes(lanes, n - 1, lane);
        let k = rest.index_of((lane, lane));
        assert(rest[k] == (lane, lane));
        assert(all[k] == (lane, lane));
    }
}

proof fn lemma_parent_edge(lanes: Lanes, oid: Seq<char>, parents: Seq<Seq<char>>, k: int) -> (to:
    int)
    requires
        lanes_distinct(lanes),
        0 <= k < parents.len(),
    ensures
        edges_below(lanes, oid, parents).contains((commit_lane(lanes, oid), to)),
        0 <= to < lanes_behind(lanes, oid, parents).len(),
        lanes_behind(lanes, oid, parents)[to] == Some(parents[k]),
{
    lemma_freed(lanes, oid);
    let freed = lanes_freed(lanes, oid);
    let lane = commit_lane(lanes, oid);
    let n = parents.len() as int;
    lemma_parents(freed, lane, parents, n);
    let full = lanes_with_parents(freed, lane, parents, n);
    lemma_trimmed(full);
    let passing = passing_edges(freed, freed.len() as int);
    let own = parent_edges(freed, lane, parents, n);
    let to = own[k].1;
    assert(edges_below(lanes, oid, parents)[passing.len() + k] == (lane, to));
    assert(full[to] == Some(parents[k]));
    to
}

proof fn lemma_lane_goes_on(lanes: Lanes, oid: Seq<char>, parents: Seq<Seq<char>>, lane: int)
    requires
        lanes_distinct(lanes),
        0 <= lane < lanes.len(),
        lanes[lane] is Some,
        lanes[lane] != Some(oid),
    ensures
        edges_below(lanes, oid, parents).contains((lane, lane)),
        lane < lanes_behind(lanes, oid, parents).len(),
        lanes_behind(lanes, oid, parents)[lane] == lanes[lane],
{
    commit_leaves_lanes_in_order(lanes, oid, parents);
    lemma_find_lane(lanes, Some(oid), 0);
    lemma_find_lane(lanes, None, 0);
    let freed = lanes_freed(lanes, oid);
    assert(lane != commit_lane(lanes, oid));
    assert(freed[lane] == lanes[lane]);
    lemma_passes(freed, freed.len() as int, lane);
    let passing = passing_edges(freed, freed.len() as int);
    let k = passing.index_of((lane, lane));
    assert(passing[k] == (lane, lane));
    assert(edges_below(lanes, oid, parents)[k] == (lane, lane));
}

/// A line from a commit leads to its parent: an edge from the commit ends in a lane that runs
/// straight down through every row in which the parent has not come up yet, and the parent is
/// put in that lane when it does.
pub proof fn edges_lead_to_the_parent(commits: Seq<CommitRecord>, child: int, k: int, below: int)
    requires
        0 <= child < below <= commits.len(),
        0 <= k < commits[child].parents@.len(),
        forall|r: int|
            child < r < below ==> (#[trigger] commits[r]).oid@ != commits[child].parents@[k]@,
    ensures
        exists|lane: int|
            {
                &&& #[trigger] edges_at(commits, child).contains((lane_at(commits, child), lane))
                &&& forall|r: int|
                    child < r < below ==> #[trigger] edges_at(commits, r).contains((lane, lane))
                &&& below < commits.len() && commits[below].oid@ == commits[child].parents@[k]@
                    ==> lane_at(commits, below) == lane
            },
{
    let parents = text::text_views(commits[child].parents@);
    let parent = parents[k];
    assert(parent == commits[child].parents@[k]@);
    lanes_stay_distinct(commits, child);
    let lane = lemma_parent_edge(lanes_after(commits, child), commits[child].oid@, parents, k);
    lemma_lane_reaches(commits, child, below, lane, parent);
    lanes_stay_distinct(commits, below);
    if below < commits.len() && commits[below].oid@ == parent {
        awaited_commit_takes_its_lane(lanes_after(commits, below), parent, lane);
    }
    assert(edges_at(commits, child).contains((lane_at(commits, child), lane)));
}

proof fn lemma_lane_reaches(
    commits: Seq<CommitRecord>,
    child: int,
    below: int,
    lane: int,
    parent: Seq<char>,
)
    requires
        0 <= child < below <= commits.len(),
        0 <= lane < lanes_after(commits, child + 1).len(),
        lanes_after(commits, child + 1)[lane] == Some(parent),
        forall|r: int| child < r < below ==> (#[trigger] commits[r]).oid@ != parent,
    ensures
        lane < lanes_after(commits, below).len(),
        lanes_after(commits, below)[lane] == Some(parent),
        forall|r: int|
            child < r < below ==> #[trigger] edges_at(commits, r).contains((lane, lane)),
    decreases below,
{
    if below > child + 1 {
        let r = below - 1;
        lemma_lane_reaches(commits, child, r, lane, parent);
        lanes_stay_distinct(commits, r);
        lemma_lane_goes_on(
            lanes_after(commits, r),
            commits[r].oid@,
            text::text_views(commits[r].parents@),
            lane,
        );
    }
}

/// A row shows its commit as it is: the author letter by letter and `?` only where none is known,
/// the time, and a beginning of the id that is seven digits long where the id is that long.
pub proof fn row_shows_what_the_commit_says(
    row: GraphRow,
    commits: Seq<CommitRecord>,
    references: Seq<RefRecord>,
    head: Option<Seq<char>>,
    n: int,
)
    requires
        0 <= n < commits.len(),
        row_shows(row, commits, references, head, n),
    ensures
        commits[n].author is Some ==> row.commit.author@.len() == commits[n].author->0@.len(),
        commits[n].author is Some ==> forall|i: int|
            0 <= i < row.commit.author@.len() ==> (#[trigger] row.commit.author@[i])
                == commits[n].author->0@[i],
        commits[n].author is None ==> row.commit.author@ == "?"@,
        row.commit.time == commits[n].time,
        row.commit.oid_short@.len() <= 7,
        row.commit.oid_short@.len() == 7 || row.commit.oid_short@ == commits[n].oid@,
        forall|i: int|
            0 <= i < row.commit.oid_short@.len() ==> i < commits[n].oid@.len() && (
            #[trigger] row.commit.oid_short@[i]) == commits[n].oid@[i],
{
    assert(commits[n].oid@.take(commits[n].oid@.len() as int) =~= commits[n].oid@);
}

/// A row shows the first line of the message: the beginning of the message up to the first line
/// feed and without a carriage return before it, or all of the message where there is no line feed.
pub proof fn row_shows_the_first_line(
    row: GraphRow,
    commits: Seq<CommitRecord>,
    references: Seq<RefRecord>,
    head: Option<Seq<char>>,
    n: int,
    line: Seq<char>,
    rest: Seq<char>,
)
    requires
        0 <= n < commits.len(),
        row_shows(row, commits, references, head, n),
        !line.contains('\n'),
    ensures
        commits[n].message is None ==> row.commit.message@.len() == 0,
        commits[n].message is Some && commits[n].message->0@ == line ==> row.commit.message@
            == line,
        commits[n].message is Some && commits[n].message->0@ == line + seq!['\n'] + rest && (
        line.len() == 0 || line.last() != '\r') ==> row.commit.message@ == line,
        commits[n].message is Some && commits[n].message->0@ == line + seq!['\n'] + rest
            && line.len() > 0 && line.last() == '\r' ==> row.commit.message@ == line.drop_last(),
{
    text::first_line_ends_at_the_line_feed(line, rest);
}

/// A reference shows as a label without the directory that it lies in, as what that directory says:
/// a branch, a branch of another repository, or a tag. HEAD and any other reference show no label.
pub proof fn reference_shows_as_what_it_is(name: Seq<char>)
    ensures
        classified("refs/heads/"@ + name) == Some((name, RefKind::Local)),
        classified("refs/remotes/"@ + name) == Some((name, RefKind::Remote)),
        classified("refs/tags/"@ + name) == Some((name, RefKind::Tag)),
        classified("HEAD"@) is None,
        match classified(name) {
            Some((n, RefKind::Local)) => name == "refs/heads/"@ + n,
            Some((n, RefKind::Remote)) => name == "refs/remotes/"@ + n,
            Some((n, RefKind::Tag)) => name == "refs/tags/"@ + n,
            Some((n, RefKind::Head)) => false,
            None => true,
        },
{
    reveal_strlit("refs/heads/");
    reveal_strlit("refs/remotes/");
    reveal_strlit("refs/tags/");
    reveal_strlit("HEAD");
    text::lemma_behind_joined("refs/heads/"@, name);
    text::lemma_behind_joined("refs/remotes/"@, name);
    text::lemma_behind_joined("refs/tags/"@, name);
    text::lemma_behind("refs/heads/"@, name);
    text::lemma_behind("refs/remotes/"@, name);
    text::lemma_behind("refs/tags/"@, name);
    let h = "refs/heads/"@ + name;
    let r = "refs/remotes/"@ + name;
    let t = "refs/tags/"@ + name;
    assert(h[5] == 'h' && r[5] == 'r' && t[5] == 't');
    text::lemma_behind("refs/heads/"@, r);
    text::lemma_behind("refs/heads/"@, t);
    text::lemma_behind("refs/remotes/"@, t);
    text::lemma_behind("refs/heads/"@, "HEAD"@);
    text::lemma_behind("refs/remotes/"@, "HEAD"@);
    text::lemma_behind("refs/tags/"@, "HEAD"@);
    assert(h[0] == 'r' && r[0] == 'r' && t[0] == 'r' && "HEAD"@[0] == 'H');
}

/// The labels of a commit are those of the references to it, in their order, and behind them HEAD
/// where the head is at the commit.
pub proof fn labels_come_from_the_references(
    a: Seq<RefRecord>,
    b: Seq<RefRecord>,
    r: RefRecord,
    oid: Seq<char>,
)
    ensures
        commit_labels(a + b, None, oid) == commit_labels(a, None, oid) + commit_labels(
            b,
            None,
            oid,
        ),
        r.target@ == oid && classified(r.full_name@) is Some ==> commit_labels(seq![r], None, oid)
            == seq![classified(r.full_name@)->0],
        r.target@ != oid || classified(r.full_name@) is None ==> commit_labels(
            seq![r],
            None,
            oid,
        ).len() == 0,
        commit_labels(a, Some(oid), oid) == commit_labels(a, None, oid) + seq![
            ("HEAD"@, RefKind::Head),
        ],
        forall|other: Seq<char>|
            other != oid ==> #[trigger] commit_labels(a, Some(other), oid) == commit_labels(
                a,
                None,
                oid,
            ),
    decreases b.len(),
{
    reveal_with_fuel(reference_labels, 2);
    let one = seq![r];
    assert(one.drop_last() =~= Seq::<RefRecord>::empty());
    assert(one.last() == r);
    assert(r.target@ == oid && classified(r.full_name@) is Some ==> commit_labels(one, None, oid)
        =~= seq![classified(r.full_name@)->0]);
    assert(commit_labels(a, Some(oid), oid) =~= commit_labels(a, None, oid) + seq![
        ("HEAD"@, RefKind::Head),
    ]);
    if b.len() == 0 {
        assert(a + b =~= a);
        assert(reference_labels(a, oid) + reference_labels(b, oid) =~= reference_labels(a, oid));
    } else {
        labels_come_from_the_references(a, b.drop_last(), r, oid);
        assert((a + b).drop_last() =~= a + b.drop_last());
        assert((a + b).last() == b.last());
        assert(reference_labels(a + b, oid) =~= reference_labels(a, oid) + reference_labels(
            b,
            oid,
        ));
    }
}

/// A row carries the labels of its commit, but not a second time where the commit comes up again.
pub proof fn row_carries_the_labels(
    row: GraphRow,
    commits: Seq<CommitRecord>,
    references: Seq<RefRecord>,
    head: Option<Seq<char>>,
    n: int,
)
    requires
        0 <= n < commits.len(),
        row_shows(row, commits, references, head, n),
    ensures
        (forall|j: int| 0 <= j < n ==> (#[trigger] commits[j]).oid@ != commits[n].oid@)
            ==> label_views(row.commit.refs@) == commit_labels(references, head, commits[n].oid@),
        (exists|j: int| 0 <= j < n && (#[trigger] commits[j]).oid@ == commits[n].oid@)
            ==> row.commit.refs@.len() == 0,
{
    assert(label_views(row.commit.refs@).len() == row.commit.refs@.len());
}

/// A commit that no lane waits for takes the leftmost free lane, or a new one at the right where
/// none is free.
pub proof fn new_commit_takes_the_leftmost_free_lane(lanes: Lanes, oid: Seq<char>)
    requires
        forall|i: int| 0 <= i < lanes.len() ==> (#[trigger] lanes[i]) != Some(oid),
    ensures
        0 <= commit_lane(lanes, oid) <= lanes.len(),
        commit_lane(lanes, oid) < lanes.len() ==> lanes[commit_lane(lanes, oid)] is None,
        forall|i: int| 0 <= i < commit_lane(lanes, oid) ==> (#[trigger] lanes[i]) is Some,
{
    lemma_find_lane(lanes, Some(oid), 0);
    lemma_find_lane(lanes, None, 0);
    let w = find_lane(lanes, Some(oid), 0);
    if w < lanes.len() {
        assert(lanes[w] != Some(oid));
    }
}

/// The first parent of a commit goes on in the lane of the commit, unless another lane waits for it
/// already: then it stays there.
pub proof fn first_parent_goes_straight_on(lanes: Lanes, oid: Seq<char>, parents: Seq<Seq<char>>)
    requires
        lanes_distinct(lanes),
        parents.len() > 0,
    ensures
        (forall|i: int|
            0 <= i < lanes.len() && i != commit_lane(lanes, oid) ==> (#[trigger] lanes[i]) != Some(
                parents[0],
            )) ==> commit_lane(lanes, oid) < lanes_behind(lanes, oid, parents).len()
            && lanes_behind(lanes, oid, parents)[commit_lane(lanes, oid)] == Some(parents[0]),
        forall|i: int|
            0 <= i < lanes.len() && i != commit_lane(lanes, oid) && (#[trigger] lanes[i]) == Some(
                parents[0],
            ) ==> i < lanes_behind(lanes, oid, parents).len() && lanes_behind(
                lanes,
                oid,
                parents,
            )[i] == Some(parents[0]),
{
    lemma_freed(lanes, oid);
    let freed = lanes_freed(lanes, oid);
    let lane = commit_lane(lanes, oid);
    let n = parents.len() as int;
    lemma_parents(freed, lane, parents, 1);
    lemma_parents(freed, lane, parents, n);
    let full = lanes_with_parents(freed, lane, parents, n);
    lemma_trimmed(full);
    lemma_find_lane(freed, Some(parents[0]), 0);
    let w = find_lane(freed, Some(parents[0]), 0);
    assert forall|i: int|
        0 <= i < lanes.len() && i != lane && (#[trigger] lanes[i]) == Some(parents[0]) implies i
        < lanes_behind(lanes, oid, parents).len() && lanes_behind(lanes, oid, parents)[i] == Some(
        parents[0],
    ) by {
        assert(freed[i] == lanes[i]);
        assert(full[i] == freed[i]);
    }
    if forall|i: int| 0 <= i < lanes.len() && i != lane ==> (#[trigger] lanes[i]) != Some(
        parents[0],
    ) {
        if w < freed.len() {
            assert(freed[w] == Some(parents[0]));
            assert(w != lane);
            assert(lanes[w] == freed[w]);
        }
        let one = lanes_with_parents(freed, lane, parents, 1);
        reveal_with_fuel(lanes_with_parents, 2);
        assert(one == with_lane(freed, lane, Some(parents[0])));
        lemma_lanes_grow(freed, lane, parents, 1, n);
        assert(full[lane] == one[lane]);
    }
}

proof fn lemma_lanes_grow(freed: Lanes, lane: int, parents: Seq<Seq<char>>, m: int, n: int)
    requires
        lanes_distinct(freed),
        0 <= lane < freed.len(),
        freed[lane] is None,
        1 <= m <= n <= parents.len(),
    ensures
        lanes_with_parents(freed, lane, parents, m).len() <= lanes_with_parents(
            freed,
            lane,
            parents,
            n,
        ).len(),
        forall|i: int|
            0 <= i < lanes_with_parents(freed, lane, parents, m).len() && (
            #[trigger] lanes_with_parents(freed, lane, parents, m)[i]) is Some
                ==> lanes_with_parents(freed, lane, parents, n)[i] == lanes_with_parents(
                freed,
                lane,
                parents,
                m,
            )[i],
    decreases n,
{
    if n > m {
        lemma_lanes_grow(freed, lane, parents, m, n - 1);
        lemma_parents(freed, lane, parents, n - 1);
        let before = lanes_with_parents(freed, lane, parents, n - 1);
        lemma_find_lane(before, Some(parents[n - 1]), 0);
        lemma_find_lane(before, None, 0);
    }
}

/// Every edge below a commit is a lane that passes it by, straight down, or leads from the commit
/// to one of its parents, in the order of the parents. There is one for each of both.
pub proof fn edges_are_passing_lanes_and_parents(
    lanes: Lanes,
    oid: Seq<char>,
    parents: Seq<Seq<char>>,
    k: int,
)
    requires
        lanes_distinct(lanes),
        0 <= k < edges_below(lanes, oid, parents).len(),
    ensures
        edges_below(lanes, oid, parents).len() >= parents.len(),
        k < edges_below(lanes, oid, parents).len() - parents.len() ==> {
            let e = edges_below(lanes, oid, parents)[k];
            e.0 == e.1 && 0 <= e.0 < lanes.len() && lanes[e.0] is Some && lanes[e.0] != Some(oid)
        },
        k >= edges_below(lanes, oid, parents).len() - parents.len() ==> {
            let e = edges_below(lanes, oid, parents)[k];
            let j = k - (edges_below(lanes, oid, parents).len() - parents.len());
            e.0 == commit_lane(lanes, oid) && e.1 < lanes_behind(lanes, oid, parents).len()
                && lanes_behind(lanes, oid, parents)[e.1] == Some(parents[j])
        },
{
    lemma_freed(lanes, oid);
    edges_fit_the_row(lanes, oid, parents, k);
    let freed = lanes_freed(lanes, oid);
    let lane = commit_lane(lanes, oid);
    let n = parents.len() as int;
    lemma_parents(freed, lane, parents, n);
    let full = lanes_with_parents(freed, lane, parents, n);
    lemma_trimmed(full);
    let passing = passing_edges(freed, freed.len() as int);
    if k < passing.len() {
        lemma_passing(freed, freed.len() as int, k);
        let e = passing[k];
        assert(edges_below(lanes, oid, parents)[k] == e);
        assert(e.0 != lane);
        assert(freed[e.0] == lanes[e.0]);
        lemma_find_lane(freed, Some(oid), 0);
        assert(freed[e.0] != Some(oid));
    } else {
        let own = parent_edges(freed, lane, parents, n);
        let e = own[k - passing.len()];
        assert(edges_below(lanes, oid, parents)[k] == e);
        assert(full[e.1] == Some(parents[k - passing.len()]));
    }
}

/// A row is no wider than it has to be: its last column is that of the commit, or that of a lane
/// that goes on below it. Behind a commit no free lane stays open at the right.
pub proof fn rows_are_no_wider_than_needed(lanes: Lanes, oid: Seq<char>, parents: Seq<Seq<char>>)
    ensures
        columns_needed(lanes, oid, parents) - 1 == commit_lane(lanes, oid) || {
            let last = columns_needed(lanes, oid, parents) - 1;
            last == lanes_behind(lanes, oid, parents).len() - 1 && last > commit_lane(lanes, oid)
                && lanes_behind(lanes, oid, parents)[last] is Some
        },
        lanes_behind(lanes, oid, parents).len() > 0 ==> lanes_behind(
            lanes,
            oid,
            parents,
        ).last() is Some,
        columns_needed(lanes, oid, parents) >= lanes_behind(lanes, oid, parents).len(),
{
    let full = lanes_with_parents(
        lanes_freed(lanes, oid),
        commit_lane(lanes, oid),
        parents,
        parents.len() as int,
    );
    lemma_trimmed_ends_in_use(full);
    lemma_find_lane(lanes, Some(oid), 0);
    lemma_find_lane(lanes, None, 0);
}

proof fn lemma_trimmed_ends_in_use(lanes: Lanes)
    ensures
        lanes_trimmed(lanes).len() > 0 ==> lanes_trimmed(lanes).last() is Some,
    decreases lanes.len(),
{
    if lanes.len() > 0 && lanes.last() is None {
        lemma_trimmed_ends_in_use(lanes.drop_last());
    }
}

/// The lanes are laid out from the first commit on: with no lane open before it, and behind each
/// commit with what it leaves.
pub proof fn lanes_start_empty(commits: Seq<CommitRecord>, n: int)
    requires
        0 <= n < commits.len(),
    ensures
        lanes_after(commits, 0).len() == 0,
        lanes_after(commits, n + 1) == lanes_behind(
            lanes_after(commits, n),
            commits[n].oid@,
            text::text_views(commits[n].parents@),
        ),
{
}

/// An edge is seen as the lane it comes from and then the lane it goes to, and there are as many rows
/// as commits, up to the number asked for.
pub proof fn edges_and_rows_are_seen_as_they_are(
    edges: Seq<(usize, usize)>,
    i: int,
    commits: nat,
    asked: usize,
)
    ensures
        edge_views(edges).len() == edges.len(),
        0 <= i < edges.len() ==> edge_views(edges)[i].0 == edges[i].0 && edge_views(edges)[i].1
            == edges[i].1,
        row_count(commits, asked) <= commits,
        row_count(commits, asked) <= asked,
        row_count(commits, asked) == commits || row_count(commits, asked) == asked,
{
}

} // verus!
