use file_explorer::browser::pane::PaneState;
use file_explorer::browser::panes::{Browser, PaneSide};
use file_explorer::browser::repository::{start_directory, status_line, RepositoryWatch};
use file_explorer::browser::session_sync::{
    browser_session_snapshot, normalized_split_ratio, resolve_saved_directory,
    restore_browser_session, update_pending_session, RestoreFacts, SaveStep, SessionFacts,
    SessionSaver, EVEN_SPLIT_RATIO, MAX_RESTORED_TABS_PER_PANE, MAX_SPLIT_RATIO, MIN_SPLIT_RATIO,
    SESSION_SAVE_DEBOUNCE, SESSION_SAVE_RETRY,
};
use file_explorer::browser::tab::DirRead;
use file_explorer::browser::terminals::{change_directory, TerminalTabs};
use file_explorer::model::session::{
    accept_data, accept_version, plan_load, session_path, temporary_path, LoadStep, PaneSession,
    SavedPaneSide, SessionError, SessionFile, SessionState, TabSession, MAX_SESSION_BYTES,
    SESSION_VERSION,
};
use file_explorer::path::FsPath;

fn p(name: &str) -> FsPath {
    FsPath::new(name)
}

fn empty() -> DirRead {
    Ok(Vec::new())
}

fn saved_pane(tabs: &[&str], active_tab: usize) -> PaneSession {
    PaneSession {
        tabs: tabs.iter().map(|t| TabSession { path: p(t) }).collect(),
        active_tab,
    }
}

fn there(path: &str) -> RestoreFacts {
    RestoreFacts {
        is_dir: true,
        ancestors_exist: p(path).ancestors().iter().map(|_| true).collect(),
        read: empty(),
    }
}

fn example_session() -> SessionState {
    SessionState {
        version: SESSION_VERSION,
        left: saved_pane(&["/root/first", "/root/한글 folder"], 1),
        right: Some(saved_pane(&["/root/right"], 0)),
        focus: SavedPaneSide::Right,
        split_ratio: 0.37f32.to_bits(),
    }
}

#[test]
fn browser_session_restores_tab_order_active_tabs_and_layout() {
    let saved = example_session();
    let facts = SessionFacts {
        left: vec![there("/root/first"), there("/root/한글 folder")],
        right: vec![there("/root/right")],
        fallback_read: empty(),
    };

    let restored = restore_browser_session(Some(&saved), &p("/root"), &facts, false);

    let tabs: Vec<FsPath> = restored
        .browser
        .left
        .tabs
        .iter()
        .map(|tab| tab.current_path.clone())
        .collect();
    assert_eq!(tabs, vec![p("/root/first"), p("/root/한글 folder")]);
    assert_eq!(restored.browser.left.active_tab, 1);
    assert_eq!(restored.browser.right.as_ref().unwrap().active_tab, 0);
    assert_eq!(
        restored.browser.right.as_ref().unwrap().tabs[0].current_path,
        p("/root/right")
    );
    assert!(restored.browser.focus == PaneSide::Right);
    assert_eq!(f32::from_bits(restored.split_ratio), 0.37);
    assert!(browser_session_snapshot(&restored.browser, restored.split_ratio).same(&saved));
}

#[test]
fn browser_session_repairs_missing_paths_and_invalid_layout() {
    let saved = SessionState {
        version: SESSION_VERSION,
        left: saved_pane(&["/root/removed/nested"], 99),
        right: Some(saved_pane(&[], 22)),
        focus: SavedPaneSide::Right,
        split_ratio: f32::INFINITY.to_bits(),
    };
    let facts = SessionFacts {
        left: vec![RestoreFacts {
            is_dir: false,
            ancestors_exist: vec![false, true, true],
            read: empty(),
        }],
        right: Vec::new(),
        fallback_read: empty(),
    };

    let restored = restore_browser_session(Some(&saved), &p("/root"), &facts, false);

    assert_eq!(restored.browser.left.tabs.len(), 1);
    assert_eq!(restored.browser.left.tabs[0].current_path, p("/root"));
    assert_eq!(restored.browser.left.active_tab, 0);
    assert!(restored.browser.right.is_none());
    assert!(restored.browser.focus == PaneSide::Left);
    assert_eq!(f32::from_bits(restored.split_ratio), 0.5);
}

#[test]
fn session_snapshot_excludes_transient_selection_and_tag_state() {
    let mut browser = Browser {
        left: PaneState::new(p("/root"), &empty(), false),
        right: None,
        focus: PaneSide::Left,
    };
    let half = 0.5f32.to_bits();
    let before = browser_session_snapshot(&browser, half);

    browser
        .left
        .active_mut()
        .list_state
        .select_only(p("/root/selected.txt"));
    browser.left.active_mut().tag_filter = Some("Red".to_string());
    let after = browser_session_snapshot(&browser, half);

    assert!(before.same(&after));
}

#[test]
fn session_save_debounce_tracks_the_newest_layout_and_cancels_reverted_changes() {
    let browser = Browser {
        left: PaneState::new(p("/root"), &empty(), false),
        right: None,
        focus: PaneSide::Left,
    };
    let saved = browser_session_snapshot(&browser, 0.5f32.to_bits());
    let mut changed = saved.copy();
    changed.split_ratio = 0.6f32.to_bits();
    let start = 1_000_000_000;
    let mut pending = None;
    let last = Some(saved.copy());

    update_pending_session(&last, &mut pending, changed.copy(), start);
    assert_eq!(
        pending.as_ref().unwrap().deadline,
        start + SESSION_SAVE_DEBOUNCE,
    );

    let mut newest = changed;
    newest.split_ratio = 0.7f32.to_bits();
    let later = start + 100_000_000;
    update_pending_session(&last, &mut pending, newest.copy(), later);
    assert!(pending.as_ref().unwrap().snapshot.same(&newest));
    assert_eq!(
        pending.as_ref().unwrap().deadline,
        later + SESSION_SAVE_DEBOUNCE,
    );

    update_pending_session(&last, &mut pending, newest.copy(), later + 1);
    assert_eq!(
        pending.as_ref().unwrap().deadline,
        later + SESSION_SAVE_DEBOUNCE,
    );

    update_pending_session(&last, &mut pending, saved.copy(), later);
    assert!(pending.is_none());
}

#[test]
fn missing_file_has_no_session() {
    assert!(matches!(plan_load(SessionFile::Missing), LoadStep::NoSession));
    assert!(matches!(plan_load(SessionFile::Size(10)), LoadStep::Read));
    match plan_load(SessionFile::Size(MAX_SESSION_BYTES + 1)) {
        LoadStep::Fail(e) => assert_eq!(
            e.message(),
            "session file is too large (1048577 bytes)"
        ),
        _ => panic!("the file is too large"),
    }
    match plan_load(SessionFile::Failed("denied".to_string())) {
        LoadStep::Fail(SessionError::Io(e)) => assert_eq!(e, "denied"),
        _ => panic!("the file could not be read"),
    }
}

#[test]
fn unsupported_version_is_reported() {
    let mut session = example_session();
    session.version += 1;
    match accept_version(session) {
        Err(e) => assert_eq!(e.message(), "unsupported session version 2"),
        Ok(_) => panic!("the version is not supported"),
    }
    assert!(accept_version(example_session()).is_ok());
    assert!(accept_data(100).is_ok());
    assert!(matches!(
        accept_data(2_000_000),
        Err(SessionError::TooLarge(2_000_000))
    ));
    assert_eq!(SessionError::Json("bad".to_string()).message(), "bad");
}

#[test]
fn terminal_variant_uses_its_own_filename() {
    let path = session_path(&Some("/home/me".to_string()));
    assert_eq!(path.file_name_text(), Some("session-terminal.json".to_string()));
    assert_eq!(
        path,
        p("/home/me/.config/file-explorer/session-terminal.json")
    );
    assert_eq!(
        temporary_path(&path, 42),
        p("/home/me/.config/file-explorer/session-terminal.json.tmp-42")
    );
}

#[test]
fn split_ratios_are_brought_into_bounds() {
    let normal = |x: f32| f32::from_bits(normalized_split_ratio(x.to_bits()));
    assert_eq!(normal(0.5), 0.5);
    assert_eq!(normal(0.0), 0.15);
    assert_eq!(normal(-0.0), 0.15);
    assert_eq!(normal(-3.0), 0.15);
    assert_eq!(normal(0.1), 0.15);
    assert_eq!(normal(2.0), 0.85);
    assert_eq!(normal(f32::MAX), 0.85);
    assert_eq!(normal(f32::NAN), 0.5);
    assert_eq!(normal(f32::NEG_INFINITY), 0.5);
    assert_eq!(f32::from_bits(EVEN_SPLIT_RATIO), 0.5);
    assert_eq!(f32::from_bits(MIN_SPLIT_RATIO), 0.15);
    assert_eq!(f32::from_bits(MAX_SPLIT_RATIO), 0.85);
    for step in 0..2000u32 {
        let x = step as f32 / 1000.0 - 0.5;
        assert_eq!(normal(x), x.clamp(0.15, 0.85));
    }
}

#[test]
fn without_a_session_the_fallback_is_opened() {
    let facts = SessionFacts {
        left: Vec::new(),
        right: Vec::new(),
        fallback_read: empty(),
    };
    let restored = restore_browser_session(None, &p("/home"), &facts, false);
    assert_eq!(restored.browser.left.tabs[0].current_path, p("/home"));
    assert!(restored.browser.right.is_none());
    assert_eq!(restored.split_ratio, EVEN_SPLIT_RATIO);
    assert_eq!(
        resolve_saved_directory(&p("relative"), &p("/home"), true, &vec![true]),
        p("/home")
    );
}

#[test]
fn only_so_many_tabs_are_restored() {
    let names: Vec<String> = (0..100).map(|i| format!("/d{i}")).collect();
    let tabs: Vec<&str> = names.iter().map(|n| n.as_str()).collect();
    let saved = SessionState {
        version: SESSION_VERSION,
        left: saved_pane(&tabs, 80),
        right: None,
        focus: SavedPaneSide::Left,
        split_ratio: EVEN_SPLIT_RATIO,
    };
    let facts = SessionFacts {
        left: tabs.iter().map(|t| there(t)).collect(),
        right: Vec::new(),
        fallback_read: empty(),
    };
    let restored = restore_browser_session(Some(&saved), &p("/"), &facts, false);
    assert_eq!(restored.browser.left.tabs.len(), MAX_RESTORED_TABS_PER_PANE);
    assert_eq!(restored.browser.left.active_tab, 63);
}

#[test]
fn a_save_that_failed_is_tried_again() {
    let mut saver = SessionSaver::new(None, &example_session());
    match saver.update(example_session(), 0) {
        SaveStep::Wait(d) => assert_eq!(d, SESSION_SAVE_DEBOUNCE),
        _ => panic!("a change waits"),
    }
    let snapshot = match saver.update(example_session(), SESSION_SAVE_DEBOUNCE) {
        SaveStep::Save(s) => s,
        _ => panic!("the change is due"),
    };
    let after = saver.saved(snapshot, false, 1_000);
    assert!(after.report_error);
    assert_eq!(after.wait, Some(SESSION_SAVE_RETRY));
    let snapshot = match saver.update(example_session(), 1_000 + SESSION_SAVE_RETRY) {
        SaveStep::Save(s) => s,
        _ => panic!("the save is tried again"),
    };
    assert!(!saver.saved(snapshot, false, 0).report_error);
    let after = saver.saved(example_session(), true, 0);
    assert_eq!(after.wait, None);
    assert!(matches!(saver.update(example_session(), 5), SaveStep::Nothing));
    assert!(!saver.update_at_exit(&example_session()));
    let mut other = example_session();
    other.focus = SavedPaneSide::Left;
    assert!(saver.update_at_exit(&other));
    saver.saved_at_exit(other.copy());
    assert!(!saver.update_at_exit(&other));
    let kept = SessionSaver::new(Some(example_session()), &example_session());
    assert!(kept.last_saved.is_some());
}

#[test]
fn terminal_and_panes_follow_each_other() {
    let mut tabs = TerminalTabs::new();
    assert!(tabs.needs_first());
    tabs.toggle(false);
    assert!(!tabs.open);
    tabs.toggle(true);
    assert!(tabs.open);
    assert_eq!(tabs.sync(&p("/a")), None);
    assert_eq!(tabs.sync(&p("/a")), None);
    assert_eq!(tabs.sync(&p("/it's")), Some("cd '/it'\\''s'\r".to_string()));
    assert_eq!(tabs.directory_reported(p("/b"), true), Some(p("/b")));
    assert_eq!(tabs.sync(&p("/b")), None);
    assert_eq!(tabs.directory_reported(p("/gone"), false), None);
    tabs.add();
    assert_eq!((tabs.count, tabs.active), (2, 1));
    tabs.switch(0);
    assert_eq!(tabs.active, 0);
    tabs.switch(1);
    tabs.close(0);
    assert_eq!((tabs.count, tabs.active), (1, 0));
    tabs.close(0);
    assert!(!tabs.open);
    assert_eq!(change_directory(&p("/a b")), "cd '/a b'\r");
}

#[test]
fn the_panel_needs_a_repository() {
    let mut watch = RepositoryWatch::new();
    assert!(!watch.toggle());
    assert!(watch.needs_check(&p("/r")));
    assert!(!watch.checked(p("/r"), Some(p("/r"))));
    assert!(!watch.needs_check(&p("/r/")));
    assert!(watch.toggle());
    assert!(watch.panel_open);
    assert!(watch.checked(p("/r/s"), Some(p("/r"))));
    assert!(!watch.checked(p("/x"), None));
    assert!(!watch.panel_open);
}

#[test]
fn the_first_directory_and_the_bottom_line() {
    let home = Some("/home/me".to_string());
    assert_eq!(start_directory(Some(p("/last")), true, &home), p("/last"));
    assert_eq!(start_directory(Some(p("/last")), false, &home), p("/home/me"));
    assert_eq!(start_directory(None, true, &None), p("/"));
    assert_eq!(status_line(3, true), "3 items");
    assert_eq!(status_line(0, false), "0 items (hidden files excluded)");
}

#[test]
fn a_ratio_that_is_no_number_is_never_the_same() {
    let with = |ratio: f32| SessionState {
        split_ratio: ratio.to_bits(),
        ..example_session()
    };
    assert!(with(0.5).same(&with(0.5)));
    assert!(!with(0.5).same(&with(0.25)));
    assert!(with(0.0).same(&with(-0.0)));
    assert!(!with(f32::NAN).same(&with(f32::NAN)));
    assert!(with(f32::INFINITY).same(&with(f32::INFINITY)));
    assert!(!with(f32::INFINITY).same(&with(f32::NEG_INFINITY)));
}
