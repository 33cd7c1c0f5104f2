use file_explorer::browser::clipboard_ops::{
    after_paste, after_rewrite, cut_paths, forget_if_changed, paste_kind, refuse_empty,
    set_file_clipboard, ClipboardOp, ClipboardStep,
};
use file_explorer::browser::file_actions::{
    finish_creating, finish_work, handle_creating_actions, handle_file_actions, push_trash,
    split_actions, CreateWork, FileWork,
};
use file_explorer::browser::file_drag::{
    cancelled_message, classify_external_drag_operation, drop_message, external_drag_source_dirs,
    internal_drop_reload_dirs, next_gesture_id, resolve_internal_file_drop, ExternalDragReload,
    ExternalDragResult, FileDragState, InternalFileDrop, MOVE_SETTLE_TIME,
};
use file_explorer::browser::pane::{cycle_tab_index, PaneState, TabCycleDirection, TabFacts, TabRead};
use file_explorer::browser::panes::{Browser, PaneSide, TabDrag};
use file_explorer::browser::shortcuts::{
    file_list_owns_keyboard_commands, read_shortcuts, tab_cycle_key_event, take_tab_cycle_shortcut,
};
use file_explorer::browser::tab::{
    nearest_existing_directory, remap_path_prefix, DirRead, ReadError, ReloadOutcome, TabState,
};
use file_explorer::browser::transfer::{
    drop_messages, drop_reload_dirs, move_error_message, next_step, paste_messages, paste_paths,
    paste_reload_dirs, plan_move, plan_paste, ClipboardKind, FailureKind, MoveError, MoveFacts, MoveStep,
    PasteReport,
};
use file_explorer::input::{EventKind, InputEvent, Key, Modifiers};
use file_explorer::model::bookmarks::Bookmarks;
use file_explorer::model::fs::{DirRecord, EntryMeta};
use file_explorer::model::tags::{write_tags, Tag, TagColor, TagWrite};
use file_explorer::path::FsPath;
use file_explorer::path_list::push_unique;
use file_explorer::platform::clipboard::FileClipboard;
use file_explorer::ui::file_list::{CreateKind, FileListAction};
use file_explorer::ui::tab_bar::TabBarAction;

fn p(name: &str) -> FsPath {
    FsPath::new(name)
}

fn paths(names: &[&str]) -> Vec<FsPath> {
    names.iter().map(|name| FsPath::new(name)).collect()
}

fn record(dir: &str, name: &str) -> DirRecord {
    DirRecord {
        name: name.as_bytes().to_vec(),
        path: p(dir).join(&p(name)),
        meta: Some(EntryMeta {
            is_dir: false,
            is_symlink: false,
            is_file: true,
            len: 1,
            modified: None,
        }),
        tag_data: None,
    }
}

fn listing(dir: &str, names: &[&str]) -> DirRead {
    Ok(names.iter().map(|name| record(dir, name)).collect())
}

fn missing() -> DirRead {
    Err(ReadError {
        not_found: true,
        is_dir: false,
        message: "not found".to_string(),
    })
}

fn refused() -> DirRead {
    Err(ReadError {
        not_found: false,
        is_dir: true,
        message: "permission denied".to_string(),
    })
}

fn tab(dir: &str, names: &[&str]) -> TabState {
    TabState::new(p(dir), &listing(dir, names), false)
}

fn names(tab: &TabState) -> Vec<String> {
    tab.entries.iter().map(|e| e.name.clone()).collect()
}

#[test]
fn external_drag_operations_are_interpreted_exactly() {
    assert_eq!(
        classify_external_drag_operation(0),
        ExternalDragResult::Cancelled
    );
    assert_eq!(
        classify_external_drag_operation(1),
        ExternalDragResult::Copy
    );
    assert_eq!(
        classify_external_drag_operation(16),
        ExternalDragResult::Move
    );
    assert_eq!(
        classify_external_drag_operation(17),
        ExternalDragResult::Other(17)
    );
    assert_eq!(
        classify_external_drag_operation(4),
        ExternalDragResult::Other(4)
    );
}

#[test]
fn external_drag_source_directories_are_deduplicated() {
    let dragged = paths(&["/one/a.txt", "/one/b.txt", "/two/c.txt"]);
    assert_eq!(
        external_drag_source_dirs(&dragged),
        paths(&["/one", "/two"]),
    );
}

fn left_file_drag(paths: Vec<FsPath>) -> FileDragState {
    FileDragState {
        paths,
        origin_pane: PaneSide::Left,
    }
}

#[test]
fn hovered_folder_wins_over_opposite_pane_root() {
    let drag = left_file_drag(paths(&["/left/item.txt"]));
    let folder_drop = InternalFileDrop {
        paths: drag.paths.clone(),
        destination: p("/right/exact-folder"),
    };

    let resolved = resolve_internal_file_drop(
        Some(folder_drop),
        Some(&drag),
        Some(PaneSide::Right),
        &p("/left"),
        Some(&p("/right")),
    )
    .unwrap();

    assert_eq!(resolved.paths, drag.paths);
    assert_eq!(resolved.destination, p("/right/exact-folder"));
}

#[test]
fn sidebar_target_wins_over_pane_root_fallback() {
    let drag = left_file_drag(paths(&["/left/item.txt"]));
    let sidebar_drop = InternalFileDrop {
        paths: drag.paths.clone(),
        destination: p("/bookmarks/project"),
    };

    let resolved = resolve_internal_file_drop(
        Some(sidebar_drop),
        Some(&drag),
        Some(PaneSide::Right),
        &p("/left"),
        Some(&p("/right")),
    )
    .unwrap();

    assert_eq!(resolved.paths, drag.paths);
    assert_eq!(resolved.destination, p("/bookmarks/project"));
}

#[test]
fn opposite_pane_empty_space_uses_its_active_directory() {
    let drag = left_file_drag(paths(&["/left/item.txt"]));

    let resolved = resolve_internal_file_drop(
        None,
        Some(&drag),
        Some(PaneSide::Right),
        &p("/left"),
        Some(&p("/right/active-tab")),
    )
    .unwrap();

    assert_eq!(resolved.paths, drag.paths);
    assert_eq!(resolved.destination, p("/right/active-tab"));
}

#[test]
fn opposite_pane_fallback_also_works_right_to_left() {
    let drag = FileDragState {
        paths: paths(&["/right/item.txt"]),
        origin_pane: PaneSide::Right,
    };

    let resolved = resolve_internal_file_drop(
        None,
        Some(&drag),
        Some(PaneSide::Left),
        &p("/left/active-tab"),
        Some(&p("/right")),
    )
    .unwrap();

    assert_eq!(resolved.paths, drag.paths);
    assert_eq!(resolved.destination, p("/left/active-tab"));
}

#[test]
fn origin_pane_empty_space_does_not_move_files() {
    let drag = left_file_drag(paths(&["/left/item.txt"]));

    let resolved = resolve_internal_file_drop(
        None,
        Some(&drag),
        Some(PaneSide::Left),
        &p("/left"),
        Some(&p("/right")),
    );

    assert!(resolved.is_none());
}

#[test]
fn app_level_drag_uses_the_destination_tab_active_at_release() {
    let drag = left_file_drag(paths(&["/left/item.txt"]));
    let newly_active_destination = p("/right/second-tab");

    let resolved = resolve_internal_file_drop(
        None,
        Some(&drag),
        Some(PaneSide::Right),
        &p("/left"),
        Some(&newly_active_destination),
    )
    .unwrap();

    assert_eq!(resolved.paths, drag.paths);
    assert_eq!(resolved.destination, newly_active_destination);
}

#[test]
fn multi_selection_payload_and_all_changed_directories_are_preserved() {
    let dragged = paths(&[
        "/source-one/a.txt",
        "/source-one/b.txt",
        "/source-two/c.txt",
    ]);
    let drag = left_file_drag(dragged.clone());
    let destination = p("/destination/exact-folder");
    let resolved = resolve_internal_file_drop(
        None,
        Some(&drag),
        Some(PaneSide::Right),
        &p("/left"),
        Some(&destination),
    )
    .unwrap();

    assert_eq!(resolved.paths, dragged);
    assert_eq!(
        internal_drop_reload_dirs(&resolved.paths, &resolved.destination),
        vec![destination, p("/source-one"), p("/source-two")]
    );
}

#[test]
fn drag_started_is_returned_without_being_attached_to_a_tab() {
    let dragged = paths(&["/source/a.txt", "/source/b.txt"]);
    let mut bookmarks = Bookmarks::default();

    let outcome = handle_file_actions(
        vec![FileListAction::DragStarted(dragged.clone())],
        &mut bookmarks,
    );

    assert_eq!(outcome.drag_started, Some(dragged));
    assert!(outcome.internal_drop.is_none());
}

#[test]
fn one_action_batch_selects_only_one_explicit_drop() {
    let moved = paths(&["/source/item.txt"]);
    let first_destination = p("/destination/folder-row");
    let mut bookmarks = Bookmarks::default();

    let outcome = handle_file_actions(
        vec![
            FileListAction::MoveItems(moved.clone(), first_destination.clone()),
            FileListAction::MoveItems(moved.clone(), p("/destination/pane-root")),
        ],
        &mut bookmarks,
    );

    let drop = outcome.internal_drop.unwrap();
    assert_eq!(drop.paths, moved);
    assert_eq!(drop.destination, first_destination);
}

#[test]
fn file_shortcuts_are_blocked_by_text_or_terminal_focus() {
    assert!(file_list_owns_keyboard_commands(false, false));
    assert!(!file_list_owns_keyboard_commands(true, false));
    assert!(!file_list_owns_keyboard_commands(false, true));
    assert!(!file_list_owns_keyboard_commands(true, true));
}

fn modifiers(command: bool, shift: bool) -> Modifiers {
    Modifiers {
        alt: false,
        ctrl: false,
        shift,
        command,
    }
}

fn key_event(key: Key, physical_key: Option<Key>, repeat: bool, modifiers: Modifiers) -> InputEvent {
    InputEvent {
        place: 0,
        kind: EventKind::Key {
            key,
            physical_key,
            pressed: true,
            repeat,
            modifiers,
        },
    }
}

fn tab_cycle_event(key: Key, physical_key: Option<Key>, repeat: bool) -> InputEvent {
    key_event(key, physical_key, repeat, modifiers(true, true))
}

#[test]
fn tab_cycle_wraps_in_both_directions() {
    assert_eq!(cycle_tab_index(0, 4, TabCycleDirection::Previous), 3);
    assert_eq!(cycle_tab_index(3, 4, TabCycleDirection::Next), 0);
    assert_eq!(cycle_tab_index(2, 4, TabCycleDirection::Previous), 1);
    assert_eq!(cycle_tab_index(1, 4, TabCycleDirection::Next), 2);
}

#[test]
fn tab_cycle_is_stable_with_zero_or_one_tab() {
    assert_eq!(cycle_tab_index(0, 0, TabCycleDirection::Previous), 0);
    assert_eq!(cycle_tab_index(0, 1, TabCycleDirection::Next), 0);
}

#[test]
fn tab_cycle_accepts_logical_curly_and_physical_bracket_keys() {
    assert_eq!(
        tab_cycle_key_event(&tab_cycle_event(Key::OpenCurlyBracket, None, false)),
        Some((TabCycleDirection::Previous, false))
    );
    assert_eq!(
        tab_cycle_key_event(&tab_cycle_event(
            Key::Letter('A'),
            Some(Key::OpenBracket),
            false,
        )),
        Some((TabCycleDirection::Previous, false))
    );
    assert_eq!(
        tab_cycle_key_event(&tab_cycle_event(Key::CloseCurlyBracket, None, false)),
        Some((TabCycleDirection::Next, false))
    );
    assert_eq!(
        tab_cycle_key_event(&tab_cycle_event(
            Key::Letter('A'),
            Some(Key::CloseBracket),
            false,
        )),
        Some((TabCycleDirection::Next, false))
    );
}

#[test]
fn tab_cycle_requires_command_and_shift() {
    let event = key_event(Key::OpenCurlyBracket, None, false, modifiers(true, false));

    assert_eq!(tab_cycle_key_event(&event), None);
}

#[test]
fn tab_cycle_shortcut_is_consumed_before_terminal_input() {
    let mut events = vec![
        InputEvent {
            place: 0,
            kind: EventKind::Text("unrelated".to_string()),
        },
        tab_cycle_event(Key::CloseCurlyBracket, None, false),
    ];

    assert_eq!(
        take_tab_cycle_shortcut(&mut events),
        Some(TabCycleDirection::Next)
    );
    assert_eq!(events.len(), 1);
    assert!(matches!(&events[0].kind, EventKind::Text(text) if text == "unrelated"));
}

#[test]
fn repeated_tab_cycle_key_is_consumed_without_cycling() {
    let mut events = vec![tab_cycle_event(Key::OpenCurlyBracket, None, true)];

    assert_eq!(take_tab_cycle_shortcut(&mut events), None);
    assert!(events.is_empty());
}

#[test]
fn affected_directories_are_deduplicated() {
    let mut dirs = paths(&["/one"]);
    push_unique(&mut dirs, p("/one"));
    push_unique(&mut dirs, p("/two"));
    assert_eq!(dirs, paths(&["/one", "/two"]));
}

#[test]
fn changing_tag_view_clears_stale_selection() {
    let mut tab = tab("/root", &["selected.txt"]);
    tab.list_state.select_only(p("/root/selected.txt"));

    let result = p("/root/tagged.txt");
    tab.set_tag_view(Some("Red".to_string()), Some(vec![result.clone()]));

    assert!(tab.list_state.selected.is_empty());
    assert!(tab.list_state.selection_anchor.is_none());
    assert_eq!(tab.tag_filter.as_deref(), Some("Red"));
    assert_eq!(tab.visible_entry_paths(), vec![result]);
}

#[test]
fn external_directory_rename_follows_the_folder_and_selection() {
    let mut tab = tab("/root/old", &["selected.txt"]);
    tab.list_state.select_only(p("/root/old/selected.txt"));

    assert!(tab.follow_external_directory_rename(
        &p("/root/old"),
        &p("/root/new"),
        true,
        &listing("/root/new", &["selected.txt"]),
        false,
        true,
    ));
    assert_eq!(tab.current_path, p("/root/new"));
    let expected_selection = tab.current_path.join(&p("selected.txt"));
    assert_eq!(
        tab.list_state.primary_selection(),
        Some(&expected_selection),
    );
    assert_eq!(tab.entries.len(), 1);
}

#[test]
fn removed_current_directory_falls_back_to_existing_parent() {
    let mut tab = tab("/root/removed", &[]);

    assert!(matches!(
        tab.reload(&missing(), false, true),
        ReloadOutcome::CurrentDirectoryMissing,
    ));
    assert_eq!(
        tab.recover_missing_directory(
            false,
            &vec![true, true],
            &listing("/root", &["a"]),
            false
        ),
        Some((p("/root/removed"), p("/root"))),
    );
    assert_eq!(tab.current_path, p("/root"));
    assert!(tab.list_state.selected.is_empty());
}

fn report(dest_existed: bool, result: Result<(), String>, dest_exists: bool) -> PasteReport {
    PasteReport {
        dest_existed,
        result,
        dest_exists,
    }
}

#[test]
fn copies_multiple_files_without_overwriting() {
    let outcome = paste_paths(
        &paths(&["/source/first.txt", "/source/second.txt"]),
        ClipboardKind::Copy,
        &p("/destination"),
        &vec![report(false, Ok(()), true), report(false, Ok(()), true)],
    );

    assert_eq!(outcome.succeeded_sources.len(), 2);
    assert!(outcome.failed.is_empty());
    assert!(outcome.moved_sources.is_empty());
    assert_eq!(
        outcome.created,
        paths(&["/destination/first.txt", "/destination/second.txt"])
    );
}

#[test]
fn collision_is_reported_and_existing_file_is_unchanged() {
    let outcome = paste_paths(
        &paths(&["/source/same.txt"]),
        ClipboardKind::Copy,
        &p("/destination"),
        &vec![report(true, Ok(()), true)],
    );

    assert!(outcome.succeeded_sources.is_empty());
    assert_eq!(outcome.failed.len(), 1);
    assert_eq!(outcome.failed[0].1, "/destination/same.txt already exists");
    assert!(!outcome.destination_changed);
}

#[test]
fn cut_keeps_failed_source_and_moves_other_items() {
    let blocked = p("/source/blocked.txt");
    let movable = p("/source/movable.txt");
    let outcome = paste_paths(
        &vec![blocked.clone(), movable.clone()],
        ClipboardKind::Cut,
        &p("/destination"),
        &vec![report(true, Ok(()), true), report(false, Ok(()), true)],
    );

    assert_eq!(outcome.failed.len(), 1);
    assert_eq!(outcome.succeeded_sources, vec![movable.clone()]);
    assert_eq!(
        paste_reload_dirs(&outcome, &p("/destination")),
        paths(&["/destination", "/source"]),
    );

    let mut op = Some(ClipboardOp {
        kind: ClipboardKind::Cut,
        paths: vec![blocked.clone(), movable],
        change_count: 4,
    });
    match after_paste(&mut op, ClipboardKind::Cut, true, &outcome) {
        ClipboardStep::Write(left) => assert_eq!(left, vec![blocked.clone()]),
        _ => panic!("what failed was to stay cut"),
    }
    assert!(after_rewrite(&mut op, Ok(9)).is_none());
    assert_eq!(op.as_ref().unwrap().change_count, 9);
    assert_eq!(cut_paths(&op), vec![blocked]);
}

fn facts(dest_exists: bool, source_is_dir: bool) -> MoveFacts {
    MoveFacts {
        dest_exists,
        source_is_dir,
        canonical_source: None,
        canonical_dest: None,
        canonical_target: None,
    }
}

#[test]
fn moving_an_item_to_its_current_folder_is_prohibited() {
    let source = p("/root/LONG_NAME_AND_KOREAN_FIX_PLAN.md");
    let error = plan_move(&source, &p("/root"), &facts(true, false)).unwrap_err();

    assert!(matches!(error, MoveError::SamePlace(_, _)));
    assert!(move_error_message(&source, &error).starts_with("Move prohibited"));
    assert_eq!(
        error.message(),
        "move is prohibited because 'LONG_NAME_AND_KOREAN_FIX_PLAN.md' is already in '/root'"
    );
}

#[test]
fn internal_move_rejects_an_existing_destination() {
    let error = plan_move(&p("/source/same.txt"), &p("/destination"), &facts(true, false))
        .unwrap_err();

    assert!(matches!(error, MoveError::AlreadyThere(_)));
    assert_eq!(
        error.message(),
        "move is prohibited because the destination already contains 'same.txt'"
    );
}

#[test]
fn folder_cannot_be_moved_into_its_own_descendant() {
    let error = plan_move(&p("/root/folder"), &p("/root/folder/child"), &facts(false, true))
        .unwrap_err();

    assert!(matches!(error, MoveError::IntoItself));
    assert_eq!(
        error.message(),
        "move is prohibited because a folder cannot be moved into itself or one of its subfolders"
    );
}

#[test]
fn moves_go_by_the_canonical_paths() {
    let mut same = facts(true, false);
    same.canonical_source = Some(p("/real/a"));
    same.canonical_dest = Some(p("/real/a"));
    assert!(matches!(
        plan_move(&p("/link/a"), &p("/real"), &same),
        Err(MoveError::SamePlace(_, _))
    ));
    let mut inside = facts(false, true);
    inside.canonical_source = Some(p("/real/d"));
    inside.canonical_target = Some(p("/real/d/e"));
    assert!(matches!(
        plan_move(&p("/link/d"), &p("/other"), &inside),
        Err(MoveError::IntoItself)
    ));
    assert_eq!(
        plan_move(&p("/a/f"), &p("/b"), &facts(false, false)).unwrap(),
        p("/b/f")
    );
    assert!(matches!(
        plan_move(&p("/"), &p("/b"), &facts(false, false)),
        Err(MoveError::NoFileName)
    ));
    assert_eq!(
        move_error_message(
            &p("/a"),
            &MoveError::Io(FailureKind::Other, "disk full".to_string())
        ),
        "Move failed for /a: disk full"
    );
    assert_eq!(
        move_error_message(
            &p("/a"),
            &MoveError::Io(FailureKind::InvalidInput, "not a path".to_string())
        ),
        "Move prohibited for /a: not a path"
    );
    assert_eq!(
        move_error_message(
            &p("/a"),
            &MoveError::Io(FailureKind::AlreadyExists, "it is there".to_string())
        ),
        "Move prohibited for /a: it is there"
    );
}

#[test]
fn what_cannot_be_renamed_is_copied_and_removed() {
    assert_eq!(next_step(MoveStep::Rename, true, true), MoveStep::Done);
    assert_eq!(next_step(MoveStep::Rename, false, true), MoveStep::Copy);
    assert_eq!(next_step(MoveStep::Copy, true, true), MoveStep::RemoveTree);
    assert_eq!(next_step(MoveStep::Copy, true, false), MoveStep::RemoveFile);
    assert_eq!(next_step(MoveStep::Copy, false, false), MoveStep::Failed);
    assert_eq!(next_step(MoveStep::RemoveTree, true, true), MoveStep::Done);
}

#[test]
fn pasting_says_what_it_did() {
    let outcome = paste_paths(
        &paths(&["/s/a", "/s/b", "/d/c", "/s/e"]),
        ClipboardKind::Cut,
        &p("/d"),
        &vec![
            report(false, Ok(()), true),
            report(false, Ok(()), true),
            report(false, Ok(()), true),
            report(false, Err("no space".to_string()), true),
        ],
    );
    assert_eq!(
        paste_messages(&outcome, ClipboardKind::Cut),
        vec![
            "Moved 2 items".to_string(),
            "Paste failed for /d/c: source and destination are the same".to_string(),
            "Paste failed for /s/e: no space".to_string(),
        ]
    );
    assert_eq!(outcome.created, paths(&["/d/a", "/d/b", "/d/e"]));
    assert_eq!(drop_messages(&outcome).len(), 2);
    assert_eq!(drop_reload_dirs(&outcome, &p("/d")), paths(&["/d", "/s"]));
    assert_eq!(plan_paste(&p("/"), &p("/d"), false).unwrap_err(), "source has no file name");
}

#[test]
fn only_what_was_cut_here_is_moved() {
    let contents = FileClipboard {
        paths: paths(&["/a"]),
        change_count: 3,
    };
    let ours = Some(ClipboardOp {
        kind: ClipboardKind::Cut,
        paths: paths(&["/a"]),
        change_count: 3,
    });
    assert_eq!(paste_kind(&ours, &contents), (ClipboardKind::Cut, true));
    let stale = Some(ClipboardOp {
        kind: ClipboardKind::Cut,
        paths: paths(&["/a"]),
        change_count: 2,
    });
    assert_eq!(paste_kind(&stale, &contents), (ClipboardKind::Copy, false));
    assert_eq!(paste_kind(&None, &contents), (ClipboardKind::Copy, false));
    let mut op = stale;
    forget_if_changed(&mut op, 3);
    assert!(op.is_none());
}

#[test]
fn copying_to_the_clipboard_is_told() {
    let mut op = None;
    assert_eq!(refuse_empty(&Vec::new()), Some("No files selected".to_string()));
    assert!(refuse_empty(&paths(&["/a"])).is_none());
    assert_eq!(
        set_file_clipboard(&mut op, ClipboardKind::Copy, paths(&["/a"]), Ok(1)),
        "Copied 1 item"
    );
    assert_eq!(
        set_file_clipboard(&mut op, ClipboardKind::Cut, paths(&["/a", "/b"]), Ok(2)),
        "Cut 2 items"
    );
    assert_eq!(
        set_file_clipboard(&mut op, ClipboardKind::Cut, paths(&["/a"]), Err("busy".to_string())),
        "Clipboard failed: busy"
    );
    assert_eq!(op.as_ref().unwrap().change_count, 2);
    assert_eq!(
        after_rewrite(&mut op, Err("busy".to_string())),
        Some("Could not update remaining cut items: busy".to_string())
    );
    assert!(op.is_none());
}

#[test]
fn reloading_keeps_what_is_still_selected() {
    let mut tab = tab("/d", &["b", "a", ".hidden"]);
    assert_eq!(names(&tab), vec!["a", "b"]);
    tab.list_state.select_all(&paths(&["/d/a", "/d/b"]));
    assert!(matches!(
        tab.reload(&listing("/d", &["a", "c"]), true, true),
        ReloadOutcome::Reloaded
    ));
    assert_eq!(tab.list_state.selected, paths(&["/d/a"]));
    assert!(tab.list_state.selection_anchor.is_none());
    match tab.reload(&refused(), false, true) {
        ReloadOutcome::Failed(m) => assert_eq!(m, "permission denied"),
        _ => panic!("reading was refused"),
    }
    assert_eq!(names(&tab), vec!["a", "c"]);
}

#[test]
fn history_goes_back_and_forward_until_something_new() {
    let mut tab = tab("/", &[]);
    assert!(!tab.can_go_back());
    assert!(tab.navigate(p("/a"), true, &listing("/a", &["x"]), false));
    assert!(tab.navigate(p("/a/b"), true, &listing("/a/b", &[]), false));
    assert!(!tab.navigate(p("/nowhere"), false, &missing(), false));
    assert_eq!(tab.back_path(), Some(p("/a")));
    tab.go_back(&listing("/a", &["x"]), false);
    assert_eq!(tab.current_path, p("/a"));
    assert_eq!(names(&tab), vec!["x"]);
    assert_eq!(tab.forward_path(), Some(p("/a/b")));
    tab.go_forward(&listing("/a/b", &[]), false);
    assert_eq!(tab.current_path, p("/a/b"));
    assert!(!tab.can_go_forward());
    tab.go_back(&listing("/a", &["x"]), false);
    assert!(tab.navigate(p("/c"), true, &refused(), false));
    assert!(!tab.can_go_forward());
    assert!(tab.entries.is_empty());
    assert_eq!(tab.name(), "c");
}

#[test]
fn a_tag_shows_what_was_found_and_what_is_here() {
    let stored = match write_tags(&vec![Tag {
        name: "Red".to_string(),
        color: TagColor::Red,
    }]) {
        TagWrite::Store(bytes) => bytes,
        _ => panic!("tags were to be stored"),
    };
    let mut tagged = record("/d", "m");
    tagged.tag_data = Some(stored);
    let mut tab = TabState::new(p("/d"), &Ok(vec![tagged, record("/d", "k")]), false);
    tab.filter_tag(Some("Red".to_string()), paths(&["/else/z", "/d/m", "/else/b"]));
    assert_eq!(
        tab.visible_entry_paths(),
        paths(&["/else/b", "/d/m", "/else/z"])
    );
    tab.filter_tag(None, Vec::new());
    assert_eq!(tab.visible_entry_paths(), paths(&["/d/k", "/d/m"]));
}

#[test]
fn remapping_touches_only_what_is_inside() {
    assert_eq!(remap_path_prefix(&p("/a/b/c"), &p("/a/b"), &p("/x")), p("/x/c"));
    assert_eq!(remap_path_prefix(&p("/a/bc"), &p("/a/b"), &p("/x")), p("/a/bc"));
    assert_eq!(
        nearest_existing_directory(&p("/a/b/c"), &vec![false, true, true]),
        Some(p("/a"))
    );
    assert_eq!(nearest_existing_directory(&p("/"), &Vec::new()), None);
}

#[test]
fn tabs_open_beside_the_shown_one_and_close_in_place() {
    let mut pane = PaneState::new(p("/a"), &listing("/a", &[]), false);
    assert!(pane.close_tab(0));
    pane.new_tab(&listing("/a", &["x"]), false);
    assert_eq!(pane.active_tab, 1);
    pane.active_mut().current_path = p("/b");
    assert_eq!(pane.active().current_path, p("/b"));
    pane.add_tab(tab("/c", &[]));
    assert_eq!(pane.tab_names(), vec!["a", "b", "c"]);
    assert!(!pane.close_tab(2));
    assert_eq!(pane.active_tab, 1);
    assert_eq!(pane.take_tab(0).unwrap().current_path, p("/a"));
    assert_eq!(pane.active_tab, 0);
    assert!(pane.take_tab(0).is_none());
    let mut root = PaneState::new(p("/"), &listing("/", &[]), false);
    assert_eq!(root.tab_names(), vec!["/"]);
    root.reload_all(
        &vec![TabRead {
            read: listing("/", &["etc"]),
            renamed_exists: true,
        }],
        false,
    );
    assert_eq!(names(root.active()), vec!["etc"]);
}

fn browser(left: &[&str], right: &[&str]) -> Browser {
    let pane = |dirs: &[&str]| {
        let mut pane = PaneState::new(p(dirs[0]), &listing(dirs[0], &[]), false);
        for dir in &dirs[1..] {
            pane.add_tab(tab(dir, &[]));
        }
        pane
    };
    Browser {
        left: pane(left),
        right: if right.is_empty() {
            None
        } else {
            Some(pane(right))
        },
        focus: PaneSide::Left,
    }
}

fn dirs(pane: &PaneState) -> Vec<FsPath> {
    pane.tabs.iter().map(|t| t.current_path.clone()).collect()
}

#[test]
fn a_tab_that_does_not_move_may_be_any() {
    let drag = |from: PaneSide| TabDrag { from, tab_idx: 7 };
    let mut b = browser(&["/a", "/b"], &["/c"]);
    b.drop_tab(drag(PaneSide::Left), false, &listing("/a", &[]), false);
    b.drop_tab(drag(PaneSide::Right), true, &listing("/c", &[]), false);
    assert_eq!(dirs(&b.left), paths(&["/a", "/b"]));
    assert_eq!(dirs(b.right.as_ref().unwrap()), paths(&["/c"]));
    b.drop_tab(drag(PaneSide::Right), false, &listing("/c", &[]), false);
    assert_eq!(dirs(&b.left), paths(&["/a", "/b", "/c"]));
    assert!(b.right.is_none());
    b.drop_tab(drag(PaneSide::Right), false, &listing("/c", &[]), false);
    assert_eq!(dirs(&b.left), paths(&["/a", "/b", "/c"]));
    let mut one = browser(&["/a"], &[]);
    one.drop_tab(drag(PaneSide::Left), true, &listing("/a", &[]), false);
    assert_eq!(dirs(&one.left), paths(&["/a"]));
    assert_eq!(dirs(one.right.as_ref().unwrap()), paths(&["/a"]));
}

#[test]
fn tabs_move_from_side_to_side() {
    let mut b = browser(&["/a", "/b"], &[]);
    b.move_tab_to_right(0, &listing("/a", &[]), false);
    assert_eq!(b.focus, PaneSide::Right);
    assert_eq!(dirs(&b.left), paths(&["/b"]));
    assert_eq!(dirs(b.right.as_ref().unwrap()), paths(&["/a"]));
    b.move_tab_to_right(0, &listing("/b", &[]), false);
    assert_eq!(dirs(&b.left), paths(&["/b"]));
    assert_eq!(dirs(b.right.as_ref().unwrap()), paths(&["/a", "/b"]));
    b.drop_tab(
        TabDrag {
            from: PaneSide::Right,
            tab_idx: 0,
        },
        false,
        &listing("/a", &[]),
        false,
    );
    assert_eq!(dirs(&b.left), paths(&["/b", "/a"]));
    b.move_tab_to_left(0, &listing("/b", &[]), false);
    assert_eq!(dirs(&b.left), paths(&["/b", "/a", "/b"]));
    assert!(b.right.is_none());
    assert_eq!(b.focus, PaneSide::Left);
    assert_eq!(b.displayed_directories(), paths(&["/b", "/a"]));
}

#[test]
fn the_focus_stays_on_a_pane_that_is_there() {
    let mut b = browser(&["/a"], &["/r"]);
    b.switch_focus();
    assert_eq!(b.focus, PaneSide::Right);
    assert_eq!(b.focused_pane().active().current_path, p("/r"));
    b.focused_pane_mut().add_tab(tab("/s", &[]));
    b.cycle_tab(TabCycleDirection::Next);
    assert_eq!(b.focused_pane().active_tab, 0);
    b.switch_tab(1);
    b.switch_tab(7);
    assert_eq!(b.focused_pane().active_tab, 1);
    b.close_active_tab();
    b.close_active_tab();
    assert!(b.right.is_none());
    assert_eq!(b.focus, PaneSide::Left);
    b.close_active_tab();
    assert_eq!(b.left.tabs.len(), 1);
    b.switch_focus();
    assert_eq!(b.focus, PaneSide::Left);
    b.close_right();
    assert_eq!(b.focus, PaneSide::Left);
}

#[test]
fn tab_bars_act_on_their_side() {
    let mut b = browser(&["/a"], &["/r"]);
    b.handle_tab_action(PaneSide::Right, TabBarAction::New, &listing("/r", &[]), false);
    assert_eq!(b.focus, PaneSide::Right);
    assert_eq!(b.right.as_ref().unwrap().tabs.len(), 2);
    b.handle_tab_action(PaneSide::Right, TabBarAction::Switch(0), &missing(), false);
    assert_eq!(b.right.as_ref().unwrap().active_tab, 0);
    let drag = b.handle_tab_action(PaneSide::Left, TabBarAction::DragTab(0), &missing(), false);
    assert_eq!(
        drag.drag,
        Some(TabDrag {
            from: PaneSide::Left,
            tab_idx: 0
        })
    );
    assert!(!b
        .handle_tab_action(PaneSide::Right, TabBarAction::Close(1), &missing(), false)
        .remove_right);
    assert!(b
        .handle_tab_action(PaneSide::Right, TabBarAction::Close(0), &missing(), false)
        .remove_right);
    assert!(!b
        .handle_tab_action(PaneSide::Left, TabBarAction::Close(0), &missing(), false)
        .remove_right);
}

fn tab_facts(read: DirRead, is_dir: bool, above: Vec<bool>) -> TabFacts {
    TabFacts {
        read,
        renamed_exists: true,
        is_dir,
        ancestors_exist: above,
        fallback_read: listing("/", &["up"]),
    }
}

#[test]
fn reloading_moves_tabs_whose_directory_is_gone() {
    let mut b = browser(&["/gone", "/kept"], &["/gone", "/locked"]);
    let report = b.reload_tabs_in_dirs(
        &paths(&["/gone", "/locked"]),
        &vec![
            tab_facts(missing(), false, vec![true]),
            tab_facts(missing(), false, vec![true]),
        ],
        &vec![
            tab_facts(missing(), false, vec![true]),
            tab_facts(refused(), true, vec![true]),
        ],
        false,
    );
    assert_eq!(dirs(&b.left), paths(&["/", "/kept"]));
    assert_eq!(names(&b.left.tabs[0]), vec!["up"]);
    assert_eq!(dirs(b.right.as_ref().unwrap()), paths(&["/", "/locked"]));
    assert_eq!(
        report.messages,
        vec!["Folder moved or removed: /gone\nShowing: /".to_string()]
    );
    assert_eq!(
        report.errors,
        vec![(p("/locked"), "permission denied".to_string())]
    );
}

#[test]
fn every_tab_follows_a_rename() {
    let mut b = browser(&["/d/old", "/d/else"], &["/d/old"]);
    assert!(b.follow_external_directory_rename(
        &p("/d/old"),
        &p("/d/new"),
        true,
        &listing("/d/new", &["f"]),
        false,
        &vec![true, true],
        &vec![true],
    ));
    assert_eq!(dirs(&b.left), paths(&["/d/new", "/d/else"]));
    assert_eq!(dirs(b.right.as_ref().unwrap()), paths(&["/d/new"]));
    assert!(!b.follow_external_directory_rename(
        &p("/d/new"),
        &p("/d/newer"),
        false,
        &missing(),
        false,
        &vec![true, true],
        &vec![true],
    ));
}

#[test]
fn pasted_files_are_selected_where_they_are_shown() {
    let mut b = browser(&["/d"], &[]);
    b.select_paste_results(&paths(&["/d/a", "/d/b"]), &p("/d"));
    assert_eq!(b.left.active().list_state.selected, paths(&["/d/a", "/d/b"]));
    b.select_paste_results(&paths(&["/e/a"]), &p("/e"));
    assert_eq!(b.left.active().list_state.selected, paths(&["/d/a", "/d/b"]));
    b.reload_all(
        &vec![TabRead {
            read: listing("/d", &["b"]),
            renamed_exists: true,
        }],
        &Vec::new(),
        false,
    );
    assert_eq!(b.left.active().list_state.selected, paths(&["/d/b"]));
}

#[test]
fn only_the_tabs_that_show_a_directory_are_read_again() {
    let mut b = browser(&["/d", "/e"], &["/d"]);
    let reads = |names: &[&str]| -> Vec<TabRead> {
        names
            .iter()
            .map(|dir| TabRead {
                read: listing(dir, &["new"]),
                renamed_exists: true,
            })
            .collect()
    };
    b.reload_shown(&paths(&["/d"]), &reads(&["/d", "/e"]), &reads(&["/d"]), false);
    assert_eq!(b.left.tabs[0].entries.len(), 1);
    assert_eq!(b.left.tabs[0].entries[0].name, "new");
    assert!(b.left.tabs[1].entries.iter().all(|entry| entry.name != "new"));
    assert_eq!(b.right.as_ref().unwrap().tabs[0].entries[0].name, "new");
}

#[test]
fn actions_become_work_and_work_becomes_messages() {
    let mut bookmarks = Bookmarks::default();
    let outcome = handle_file_actions(
        vec![
            FileListAction::CopyPath(p("/d/a")),
            FileListAction::DeleteFiles(paths(&["/d/b", "/e/c"])),
            FileListAction::AddBookmark(p("/d")),
            FileListAction::AddBookmark(p("/d")),
            FileListAction::Navigate(p("/first")),
            FileListAction::NavigateAndSelect(p("/second"), p("/second/f")),
            FileListAction::SetTags(
                p("/d/a"),
                vec![
                    Tag {
                        name: "Red".to_string(),
                        color: TagColor::Red,
                    },
                    Tag {
                        name: "Work".to_string(),
                        color: TagColor::NoColor,
                    },
                ],
            ),
            FileListAction::SetTags(p("/d/z"), Vec::new()),
            FileListAction::QuickLook(p("/d/q")),
            FileListAction::ClearTagFilter,
            FileListAction::OpenFile(p("/d/o")),
        ],
        &mut bookmarks,
    );
    assert_eq!(bookmarks.items.len(), 1);
    assert!(outcome.bookmarks_changed && outcome.clear_tag_filter);
    assert_eq!(outcome.navigate_to, Some(p("/second")));
    assert_eq!(outcome.select_after_nav, Some(p("/second/f")));
    assert_eq!(outcome.quicklook_path, Some(p("/d/q")));
    assert_eq!(outcome.work.len(), 6);
    assert!(matches!(&outcome.work[5], FileWork::OpenFile(_)));
    let report = finish_work(
        &outcome.work,
        &vec![
            Ok(()),
            Ok(()),
            Err("locked".to_string()),
            Ok(()),
            Ok(()),
            Ok(()),
        ],
    );
    assert_eq!(
        report.messages,
        vec![
            "Copied: /d/a",
            "Moved to Trash: b",
            "Trash failed for /e/c: locked",
            "a: Red, Work",
            "Removed all tags from z",
        ]
    );
    assert_eq!(report.changed_dirs, paths(&["/d"]));
    let mut work = Vec::new();
    push_trash(&mut work, &paths(&["/x"]));
    assert!(matches!(&work[0], FileWork::Trash(q) if *q == p("/x")));
}

#[test]
fn creating_and_renaming_ask_for_their_work() {
    let mut tab = tab("/d", &[]);
    let work = handle_creating_actions(
        &mut tab,
        vec![
            FileListAction::StartCreating(CreateKind::Directory),
            FileListAction::CreateItem(CreateKind::File, "new.txt".to_string()),
            FileListAction::CreateItem(CreateKind::Directory, "dir".to_string()),
            FileListAction::RenameItem(p("/d/\u{1112}\u{1161}\u{11ab}"), "한".to_string()),
            FileListAction::RenameItem(p("/d/old"), "new".to_string()),
            FileListAction::StartRename(p("/d/x")),
        ],
    );
    assert_eq!(tab.list_state.creating.as_ref().unwrap().name, "untitled folder");
    assert_eq!(tab.list_state.renaming.as_ref().unwrap().name, "x");
    assert_eq!(work.len(), 3);
    assert!(matches!(&work[0], CreateWork::File(q) if *q == p("/d/new.txt")));
    assert!(matches!(&work[1], CreateWork::Directory(q) if *q == p("/d/dir")));
    assert!(
        matches!(&work[2], CreateWork::Rename(a, b) if *a == p("/d/old") && *b == p("/d/new"))
    );
    let report = finish_creating(
        &work,
        &vec![Ok(()), Err("exists".to_string()), Err("busy".to_string())],
        &p("/d"),
    );
    assert_eq!(report.changed_dirs, paths(&["/d"]));
    assert_eq!(report.select_after, Some(p("/d/dir")));
    assert_eq!(report.messages, vec!["Rename failed: busy"]);
}

#[test]
fn actions_are_split_by_their_kind() {
    let split = split_actions(vec![
        FileListAction::PasteHere,
        FileListAction::OpenFile(p("/a")),
        FileListAction::StartCreating(CreateKind::File),
        FileListAction::CopyFiles(paths(&["/a"])),
        FileListAction::ClearTagFilter,
    ]);
    assert_eq!(split.regular.len(), 2);
    assert_eq!(split.creating.len(), 1);
    assert_eq!(split.clipboard.len(), 2);
    assert!(matches!(split.clipboard[0], FileListAction::PasteHere));
}

#[test]
fn shortcuts_are_read_from_the_keys() {
    let press = |key| key_event(key, None, false, modifiers(true, false));
    let events = vec![press(Key::Letter('T')), press(Key::Digit(2)), press(Key::Digit(5))];
    let s = read_shortcuts(&events, modifiers(true, false), true);
    assert!(s.new_tab && !s.close_tab);
    assert_eq!(s.switch_tab, Some(4));
    let s = read_shortcuts(&events, modifiers(false, false), true);
    assert!(!s.new_tab);
    assert_eq!(s.switch_tab, None);

    let back = vec![key_event(Key::Backspace, None, false, modifiers(false, false))];
    assert!(read_shortcuts(&back, modifiers(false, false), true).go_back);
    assert!(read_shortcuts(&back, modifiers(true, false), true).delete_file);
    assert!(!read_shortcuts(&back, modifiers(false, false), false).go_back);

    let clip = vec![
        InputEvent { place: 0, kind: EventKind::Copy },
        InputEvent { place: 1, kind: EventKind::Paste("x".to_string()) },
    ];
    let s = read_shortcuts(&clip, modifiers(false, false), true);
    assert!(s.copy_file && s.paste_file && !s.cut_file);
    assert!(!read_shortcuts(&clip, modifiers(false, false), false).copy_file);
}

#[test]
fn drags_are_named_followed_and_cancelled() {
    let mut drag = left_file_drag(paths(&["/d/a"]));
    assert_eq!(drag.label(), "a");
    drag.follow_rename(&p("/d"), &p("/e"));
    assert_eq!(drag.paths, paths(&["/e/a"]));
    assert_eq!(left_file_drag(paths(&["/a", "/b"])).label(), "2 items");
    assert_eq!(cancelled_message(0), None);
    assert_eq!(
        cancelled_message(1).unwrap(),
        "Cancelled drag because 1 source item no longer exists"
    );
    assert_eq!(
        cancelled_message(3).unwrap(),
        "Cancelled drag because 3 source items no longer exist"
    );
    assert_eq!(drop_message(&p("/d/a"), &Ok(p("/e/a"))), "Moved: a");
    assert_eq!(
        drop_message(&p("/d/a"), &Err(MoveError::NoFileName)),
        "Move prohibited for /d/a: move is prohibited because the source has no file name"
    );
    assert_eq!(next_gesture_id(u64::MAX), 1);
    assert_eq!(next_gesture_id(1), 2);
}

#[test]
fn a_move_out_of_the_window_reloads_later() {
    let mut reload = ExternalDragReload { pending: None };
    assert!(!reload.drag_ended(1, paths(&["/d/a"]), 5));
    assert!(reload.take_due(u64::MAX).is_none());
    assert!(reload.drag_ended(16, paths(&["/d/a", "/d/b"]), 5));
    assert!(reload.take_due(5).is_none());
    assert_eq!(reload.take_due(5 + MOVE_SETTLE_TIME), Some(paths(&["/d"])));
    assert!(reload.take_due(u64::MAX).is_none());
}
