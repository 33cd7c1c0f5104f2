use file_explorer::browser::git_actions::{GitReply, GitTask};
use file_explorer::git::diff::{get_file_diff, DiffLineKind, DiffRecord};
use file_explorer::git::graph::{
    build_graph, classify_reference, collect_labels, short_id, CommitRecord, RefKind, RefRecord,
};
use file_explorer::git::operations::{
    branch_ref, choose_authentication, fetched_message, pull, push_refspec, pushed_message,
    Authentication, PullStep,
};
use file_explorer::git::repo::{
    load_branches, load_git_config, load_status, parse_git_config, BranchRecord, FileStatus,
    GitStatus, StashEntry, StatusEntry, StatusFlags, StatusRecord,
};
use file_explorer::ui::git_panel::{
    branch_rows, commit_text, config_pair, diff_line_text, lane_color, list_heading, ref_colors,
    relative_time, staged_rows, stash_actions, stash_label, status_symbol, tab_label,
    unstaged_rows, GitPanelAction, GitPanelState, GitTab,
};
use file_explorer::ui::terminal_panel::Rgb;

fn s(text: &str) -> String {
    text.to_string()
}

fn commit(oid: &str, parents: &[&str]) -> CommitRecord {
    CommitRecord {
        oid: s(oid),
        parents: parents.iter().map(|p| s(p)).collect(),
        message: Some(format!("work on {oid}\nmore about it")),
        author: None,
        time: 7,
    }
}

fn reference(full_name: &str, target: &str) -> RefRecord {
    RefRecord {
        full_name: s(full_name),
        target: s(target),
    }
}

#[test]
fn a_merge_opens_a_lane_and_its_end_closes_it() {
    let commits = vec![
        commit("merge00000", &["left", "right"]),
        commit("right", &["base"]),
        commit("left", &["base"]),
        commit("base", &[]),
        commit("other", &[]),
    ];
    let rows = build_graph(&commits, &Vec::new(), &None, 300);
    let lanes: Vec<usize> = rows.iter().map(|r| r.lane).collect();
    assert_eq!(lanes, vec![0, 1, 0, 1, 0]);
    let counts: Vec<usize> = rows.iter().map(|r| r.lane_count).collect();
    assert_eq!(counts, vec![2, 2, 2, 2, 1]);
    assert_eq!(build_graph(&commits, &Vec::new(), &None, 2).len(), 2);
    assert!(build_graph(&commits, &Vec::new(), &None, 0).is_empty());
    assert_eq!(rows[0].lower_edges, vec![(0, 0), (0, 1)]);
    assert_eq!(rows[1].lower_edges, vec![(0, 0), (1, 1)]);
    assert_eq!(rows[2].lower_edges, vec![(1, 1), (0, 1)]);
    assert!(rows[3].lower_edges.is_empty());
    assert_eq!(rows[0].commit.oid_short, "merge00");
    assert_eq!(rows[0].commit.message, "work on merge00000");
    assert_eq!(rows[0].commit.author, "?");
    assert_eq!(rows[0].commit.time, 7);
}

#[test]
fn references_label_their_commit() {
    let references = vec![
        reference("refs/heads/main", "aa"),
        reference("refs/remotes/origin/main", "aa"),
        reference("refs/tags/v1", "bb"),
        reference("refs/stash", "aa"),
        reference("HEAD", "aa"),
    ];
    let labels = collect_labels(&references, &Some(s("aa")), &s("aa"));
    let names: Vec<&str> = labels.iter().map(|l| l.name.as_str()).collect();
    assert_eq!(names, vec!["main", "origin/main", "HEAD"]);
    assert!(matches!(labels[0].kind, RefKind::Local));
    assert!(matches!(labels[1].kind, RefKind::Remote));
    assert!(matches!(labels[2].kind, RefKind::Head));
    assert!(matches!(
        classify_reference("refs/tags/v1").unwrap().kind,
        RefKind::Tag
    ));
    assert!(classify_reference("refs/stash").is_none());
    let rows = build_graph(&vec![commit("bb", &[])], &references, &Some(s("aa")), 300);
    assert_eq!(rows[0].commit.refs.len(), 1);
    assert_eq!(rows[0].commit.refs[0].name, "v1");
    assert_eq!(short_id("abc"), "abc");
}

fn flags() -> StatusFlags {
    StatusFlags {
        index_new: false,
        index_modified: false,
        index_deleted: false,
        index_renamed: false,
        index_typechange: false,
        wt_new: false,
        wt_modified: false,
        wt_deleted: false,
        wt_renamed: false,
        wt_typechange: false,
    }
}

fn status_record(path: &str, flags: StatusFlags) -> StatusRecord {
    StatusRecord {
        path: Some(s(path)),
        flags,
        head_path: Some(s("before")),
    }
}

#[test]
fn changes_are_sorted_by_where_they_are() {
    let mut nameless = status_record("x", flags());
    nameless.path = None;
    let records = vec![
        status_record("new", StatusFlags { wt_new: true, ..flags() }),
        status_record(
            "both",
            StatusFlags { index_modified: true, wt_deleted: true, ..flags() },
        ),
        status_record("renamed", StatusFlags { index_renamed: true, ..flags() }),
        status_record(
            "added",
            StatusFlags { index_new: true, wt_new: true, wt_typechange: true, ..flags() },
        ),
        nameless,
        status_record("gone", StatusFlags { index_deleted: true, ..flags() }),
        status_record("kind", StatusFlags { index_typechange: true, ..flags() }),
        status_record("moved", StatusFlags { wt_renamed: true, ..flags() }),
        status_record("same", flags()),
    ];
    let status = load_status(&records, Some(s("main")), true);
    let staged: Vec<(&str, &str)> = status
        .staged
        .iter()
        .map(|e| (e.path.as_str(), status_symbol(e.status)))
        .collect();
    assert_eq!(
        staged,
        vec![("both", "M"), ("renamed", "R"), ("added", "A"), ("gone", "D"), ("kind", "T")]
    );
    assert_eq!(status.staged[1].old_path, Some(s("before")));
    assert_eq!(status.staged[0].old_path, None);
    let unstaged: Vec<(&str, &str)> = status
        .unstaged
        .iter()
        .map(|e| (e.path.as_str(), status_symbol(e.status)))
        .collect();
    assert_eq!(unstaged, vec![("both", "D"), ("added", "T"), ("moved", "R")]);
    assert_eq!(status.untracked.len(), 1);
    assert!(matches!(status.untracked[0].status, FileStatus::Untracked));
    assert_eq!(status.head_branch.as_deref(), Some("main"));
    assert!(status.is_detached);
}

#[test]
fn branches_without_a_name_are_left_out() {
    let record = |name: Option<&str>, is_remote: bool| BranchRecord {
        name: name.map(s),
        is_head: name == Some("main"),
        is_remote,
        upstream: None,
    };
    let branches = load_branches(&vec![
        record(Some("main"), false),
        record(None, false),
        record(Some("origin/main"), true),
        record(Some("work"), false),
    ]);
    let local = branch_rows(&branches, false);
    assert_eq!(local.len(), 2);
    assert_eq!(local[0].label, "* main");
    assert_eq!(local[1].label, "  work");
    assert!(local[0].is_head && !local[1].is_head);
    let remote = branch_rows(&branches, true);
    assert_eq!(remote[0].label, "  origin/main");
}

#[test]
fn configuration_is_read_by_lines() {
    assert_eq!(
        parse_git_config("user.name=A=B\n  core.bare \n=x\r\nflag=\n"),
        vec![
            (s("user.name"), s("A=B")),
            (s("core.bare"), s("")),
            (s("flag"), s("")),
        ]
    );
    assert!(load_git_config(false, b"a=b").is_empty());
    assert_eq!(
        load_git_config(true, b"a=\xff"),
        vec![(s("a"), s("\u{fffd}"))]
    );
    assert_eq!(config_pair("a", "b"), "a=b");
}

#[test]
fn diffs_keep_their_lines() {
    let record = |origin: char, content: &[u8]| DiffRecord {
        origin,
        content: content.to_vec(),
    };
    let diff = get_file_diff(
        "f.txt",
        true,
        &vec![
            record('F', b"diff --git\n"),
            record('+', b"new\n\n"),
            record('-', b"old\n"),
            record(' ', b"\xff"),
            record('?', b"at\n"),
        ],
    );
    assert_eq!(diff.path, "f.txt");
    assert!(diff.staged);
    assert!(matches!(diff.lines[0].kind, DiffLineKind::Header));
    assert!(matches!(diff.lines[1].kind, DiffLineKind::Added));
    assert!(matches!(diff.lines[2].kind, DiffLineKind::Removed));
    assert!(matches!(diff.lines[3].kind, DiffLineKind::Context));
    assert!(matches!(diff.lines[4].kind, DiffLineKind::Header));
    assert_eq!(diff.lines[3].content, "");
    assert_eq!(diff_line_text(&diff.lines[1].content), "new");
}

#[test]
fn pulling_only_fast_forwards() {
    match pull(true, false, true, "main", "origin") {
        PullStep::FastForward { refname, report } => {
            assert_eq!(refname, "refs/heads/main");
            assert_eq!(report, "Fast-forwarded main from origin");
        }
        _ => panic!("the branch can be moved"),
    }
    match pull(true, false, false, "main", "origin") {
        PullStep::Done(m) => assert_eq!(m, "Pulled main from origin"),
        _ => panic!("there is no branch to move"),
    }
    match pull(false, true, true, "main", "origin") {
        PullStep::Done(m) => assert_eq!(m, "Already up to date."),
        _ => panic!("nothing is new"),
    }
    match pull(false, false, true, "main", "origin") {
        PullStep::Refused(m) => assert_eq!(m, "Cannot fast-forward; manual merge required."),
        _ => panic!("the histories differ"),
    }
    assert_eq!(push_refspec("w"), "refs/heads/w:refs/heads/w");
    assert_eq!(branch_ref("w"), "refs/heads/w");
    assert_eq!(fetched_message("origin"), "Fetched from origin");
    assert_eq!(pushed_message("w", "origin"), "Pushed w to origin");
}

#[test]
fn keys_come_before_defaults() {
    match choose_authentication(true, true, &Some(s("me"))) {
        Authentication::SshAgent(user) => assert_eq!(user, "me"),
        _ => panic!("keys are allowed"),
    }
    match choose_authentication(true, false, &None) {
        Authentication::SshAgent(user) => assert_eq!(user, "git"),
        _ => panic!("keys are allowed"),
    }
    assert!(matches!(
        choose_authentication(false, true, &None),
        Authentication::Default
    ));
    assert!(matches!(
        choose_authentication(false, false, &None),
        Authentication::Refused
    ));
}

#[test]
fn the_age_of_a_commit_is_rounded_down() {
    let ages = [
        (59, "just now"),
        (-5, "just now"),
        (60, "1m ago"),
        (3599, "59m ago"),
        (3600, "1h ago"),
        (86_399, "23h ago"),
        (86_400, "1d ago"),
        (2_591_999, "29d ago"),
        (2_592_000, "1mo ago"),
        (31_535_999, "12mo ago"),
        (31_536_000, "1y ago"),
        (100_000_000, "3y ago"),
    ];
    for (age, text) in ages {
        assert_eq!(relative_time(1_000_000, 1_000_000 + age), text);
    }
    let rows = build_graph(&vec![commit("0123456789", &[])], &Vec::new(), &None, 300);
    assert_eq!(
        commit_text(&rows[0].commit, "1h ago"),
        "0123456 work on 0123456789 · ? · 1h ago"
    );
}

#[test]
fn colors_repeat_over_the_lanes() {
    let rgb = |c: Rgb| (c.r, c.g, c.b);
    assert_eq!(rgb(lane_color(0)), (100, 149, 237));
    assert_eq!(rgb(lane_color(6)), (64, 190, 190));
    assert_eq!(rgb(lane_color(8)), rgb(lane_color(1)));
    let (back, front) = ref_colors(RefKind::Head);
    assert_eq!((rgb(back), rgb(front)), ((255, 213, 79), (0, 0, 0)));
    let (back, front) = ref_colors(RefKind::Tag);
    assert_eq!((rgb(back), rgb(front)), ((240, 140, 60), (255, 255, 255)));
}

fn entry(path: &str, status: FileStatus) -> StatusEntry {
    StatusEntry {
        path: s(path),
        old_path: None,
        status,
    }
}

fn status() -> GitStatus {
    GitStatus {
        staged: vec![entry("a", FileStatus::Added)],
        unstaged: vec![entry("b", FileStatus::Modified)],
        untracked: vec![entry("c", FileStatus::Untracked)],
        head_branch: Some(s("main")),
        is_detached: true,
    }
}

#[test]
fn the_panel_shows_its_rows() {
    let shown = Some((s("a"), true));
    let rows = staged_rows(&status(), &shown);
    assert_eq!((rows[0].label.as_str(), rows[0].selected), ("A a", true));
    let rows = unstaged_rows(&status(), &Some((s("c"), false)));
    assert_eq!(rows.len(), 2);
    assert_eq!((rows[0].label.as_str(), rows[0].selected), ("M b", false));
    assert_eq!((rows[1].label.as_str(), rows[1].selected), ("? c", true));
    assert_eq!(list_heading("STAGED", 3), "STAGED (3)");
    assert_eq!(tab_label(GitTab::Status, 2), "Status (2)");
    assert_eq!(tab_label(GitTab::Status, 0), "Status");
    assert_eq!(tab_label(GitTab::PushPull, 2), "Push/Pull");
    assert_eq!(
        stash_label(&StashEntry {
            index: 1,
            message: s("WIP")
        }),
        "[1] WIP"
    );
    let actions = stash_actions(&vec![0], &vec![1], &vec![2]);
    assert_eq!(actions.len(), 4);
    assert!(matches!(actions[0], GitPanelAction::StashApply(0)));
    assert!(matches!(actions[1], GitPanelAction::StashApply(1)));
    assert!(matches!(actions[2], GitPanelAction::StashDrop(1)));
    assert!(matches!(actions[3], GitPanelAction::StashDrop(2)));
}

#[test]
fn committing_needs_a_message_and_something_staged() {
    let mut state = GitPanelState::default();
    assert_eq!(state.branch_line(), "Branch: (no branch)");
    assert_eq!(state.commit_hint(), Some("Nothing staged to commit."));
    state.refresh(Some(status()), Vec::new(), Vec::new(), Vec::new());
    assert_eq!(state.staged_count(), 1);
    assert_eq!(state.branch_line(), "Branch: main (detached HEAD)");
    assert_eq!(state.commit_hint(), Some("Enter a commit message."));
    assert!(!state.can_commit());
    assert!(state.take_commit().is_none());
    state.commit_msg = s("  fix  ");
    assert!(state.can_commit() && state.commit_hint().is_none());
    assert!(matches!(state.take_commit(), Some(GitPanelAction::Commit(m)) if m == "fix"));
    assert_eq!(state.commit_msg, "");
    state.new_branch_name = s(" b ");
    assert!(matches!(state.take_new_branch(), Some(GitPanelAction::CreateBranch(b)) if b == "b"));
    assert!(state.take_new_branch().is_none());
    let actions = state.select_tab(GitTab::Config);
    assert!(matches!(actions[0], GitPanelAction::LoadConfig));
    assert_eq!(actions.len(), 2);
    state.config_loaded = true;
    assert_eq!(state.select_tab(GitTab::Config).len(), 1);
    assert!(matches!(state.reload_config(), GitPanelAction::LoadConfig));
    assert!(!state.config_loaded);
}

fn reply(result: Result<&str, &str>) -> GitReply {
    GitReply {
        result: result.map(s).map_err(s),
        diff: None,
        config_global: vec![(s("g"), s("1"))],
        config_local: Vec::new(),
    }
}

#[test]
fn done_and_failed_work_is_told() {
    let mut state = GitPanelState::default();
    state.status = Some(status());
    state.commit_msg = s("kept");
    let commit = state.task_for(GitPanelAction::Commit(s("m")));
    let failed = state.handle_git_actions(vec![(commit, reply(Err("no identity")))]);
    assert!(!failed.needs_refresh);
    assert_eq!(failed.messages, vec![s("Commit failed: no identity")]);
    assert_eq!(state.commit_msg, "kept");

    let push = state.task_for(GitPanelAction::Push);
    assert!(matches!(&push, GitTask::Push(r, b) if r == "origin" && b == "main"));
    let config = state.task_for(GitPanelAction::LoadConfig);
    let commit = state.task_for(GitPanelAction::Commit(s("m")));
    let checkout = state.task_for(GitPanelAction::CheckoutBranch(s("w")));
    let toggle = state.task_for(GitPanelAction::TogglePosition);
    let done = state.handle_git_actions(vec![
        (push, reply(Ok("Pushed main to origin"))),
        (config, reply(Ok(""))),
        (commit, reply(Ok(""))),
        (checkout, reply(Ok(""))),
        (toggle, reply(Ok(""))),
    ]);
    assert!(done.needs_refresh && done.needs_dir_reload && done.moves_panel);
    assert!(state.config_loaded);
    assert_eq!(state.config_global.len(), 1);
    assert_eq!(state.op_log, vec![s("push origin/main: Pushed main to origin")]);
    assert_eq!(state.commit_msg, "");
    assert_eq!(
        done.messages,
        vec![s("Committed."), s("Checked out 'w'")]
    );
}

#[test]
fn a_chosen_file_shows_its_diff() {
    let mut state = GitPanelState::default();
    let task = state.task_for(GitPanelAction::SelectDiff(s("f"), true));
    let mut r = reply(Ok(""));
    r.diff = Some(get_file_diff("f", true, &Vec::new()));
    let outcome = state.handle_git_actions(vec![(task, r)]);
    assert!(!outcome.needs_refresh && outcome.messages.is_empty());
    assert_eq!(state.diff_file, Some((s("f"), true)));
    assert!(state.diff.is_some());
}

#[test]
fn a_line_runs_from_a_commit_down_to_its_parent() {
    let commits = vec![
        commit("tip", &["middle", "base"]),
        commit("side", &["middle"]),
        commit("middle", &["low"]),
        commit("low", &["base"]),
        commit("base", &[]),
    ];
    let rows = build_graph(&commits, &Vec::new(), &None, 300);
    for (child, record) in commits.iter().enumerate() {
        for parent in &record.parents {
            let below = commits.iter().position(|c| &c.oid == parent).unwrap();
            let lane = rows[below].lane;
            assert!(rows[child].lower_edges.contains(&(rows[child].lane, lane)));
            for row in &rows[child + 1..below] {
                assert!(row.lower_edges.contains(&(lane, lane)));
            }
        }
    }
}
