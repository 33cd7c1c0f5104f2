use file_explorer::model::fs_watch::{
    affected_displayed_dirs, desired_watch_paths, directory_rename_pairs, event_is_relevant,
    find_renamed_sibling, DirectoryIdentity, DirectoryRename, DirectoryWatcher, DisplayedDirectory,
    RefreshDebouncer, SiblingRecord, WatchEvent, WatchEventKind, WatchUpdate, MAX_BATCH_LATENCY,
    QUIET_PERIOD, WATCH_RETRY_DELAY,
};
use file_explorer::path::FsPath;

const MILLISECOND: u64 = 1_000_000;

fn paths(names: &[&str]) -> Vec<FsPath> {
    names.iter().map(|name| FsPath::new(name)).collect()
}

fn event(kind: WatchEventKind, names: &[&str]) -> WatchEvent {
    WatchEvent {
        kind,
        paths: paths(names),
        rescan: false,
    }
}

#[test]
fn child_event_affects_only_its_displayed_parent() {
    let displayed = paths(&["/one", "/two"]);
    let event = event(WatchEventKind::Other, &["/one/new.txt"]);

    assert_eq!(
        affected_displayed_dirs(&event, &displayed),
        vec![displayed[0].clone()]
    );
}

#[test]
fn nested_grandchild_does_not_refresh_a_non_recursive_view() {
    let displayed = paths(&["/one"]);
    let event = event(WatchEventKind::Other, &["/one/sub/new.txt"]);

    assert!(affected_displayed_dirs(&event, &displayed).is_empty());
}

#[test]
fn access_events_are_ignored() {
    let event = event(WatchEventKind::Access, &["/one/file.txt"]);
    assert!(!event_is_relevant(&event));
}

#[test]
fn close_after_write_event_is_relevant() {
    let event = event(WatchEventKind::CloseAfterWrite, &["/one/file.txt"]);
    assert!(event_is_relevant(&event));
}

#[test]
fn rescan_event_is_relevant_even_without_paths() {
    let event = WatchEvent {
        kind: WatchEventKind::Other,
        paths: Vec::new(),
        rescan: true,
    };
    assert!(event_is_relevant(&event));
    assert!(event.rescan);
}

#[test]
fn rename_dirties_both_displayed_parents() {
    let displayed = paths(&["/one", "/two"]);
    let event = event(
        WatchEventKind::RenameBoth,
        &["/one/file.txt", "/two/file.txt"],
    );
    let mut affected = affected_displayed_dirs(&event, &displayed);
    affected.sort_by(|a, b| a.bytes.cmp(&b.bytes));

    assert_eq!(affected, displayed);
}

#[test]
fn displayed_directory_rename_pair_is_extracted() {
    let displayed = paths(&["/parent/old"]);
    let event = event(WatchEventKind::RenameBoth, &["/parent/old", "/parent/new"]);

    let pairs: Vec<(FsPath, FsPath)> = directory_rename_pairs(&event, &displayed)
        .into_iter()
        .map(|r| (r.old_path, r.new_path))
        .collect();
    assert_eq!(
        pairs,
        vec![(FsPath::new("/parent/old"), FsPath::new("/parent/new"))]
    );
}

#[test]
fn renamed_sibling_is_found_by_directory_identity() {
    let identity = DirectoryIdentity {
        device: 1,
        inode: 7,
    };
    let other = DirectoryIdentity {
        device: 1,
        inode: 8,
    };
    let siblings = vec![
        SiblingRecord {
            path: FsPath::new("/root/other"),
            identity: Some(other),
        },
        SiblingRecord {
            path: FsPath::new("/root/new"),
            identity: Some(identity),
        },
    ];

    assert_eq!(
        find_renamed_sibling(&FsPath::new("/root/old"), identity, &siblings),
        Some(FsPath::new("/root/new"))
    );
    assert_eq!(
        find_renamed_sibling(&FsPath::new("/root/new"), identity, &siblings),
        None
    );
}

fn displayed(path: &str, is_dir: bool, parent_is_dir: bool) -> DisplayedDirectory {
    DisplayedDirectory {
        path: FsPath::new(path),
        is_dir,
        parent_is_dir,
        identity: None,
    }
}

#[test]
fn watch_paths_include_existing_directory_and_parent() {
    let paths = desired_watch_paths(&vec![displayed("/tmp/does-not-exist", false, true)]);
    assert!(paths.contains(&FsPath::new("/tmp")));
    assert_eq!(paths.len(), 1);
}

#[test]
fn debounce_coalesces_duplicates_after_quiet_period() {
    let start = 1_000 * MILLISECOND;
    let directory = FsPath::new("/one");
    let mut debounce = RefreshDebouncer::default();
    debounce.mark(&vec![directory.clone(), directory.clone()], start);

    assert!(debounce
        .take_due(start + QUIET_PERIOD - MILLISECOND)
        .is_none());
    assert_eq!(
        debounce.take_due(start + QUIET_PERIOD),
        Some(vec![directory])
    );
}

#[test]
fn debounce_has_a_maximum_latency_during_continuous_events() {
    let start = 1_000 * MILLISECOND;
    let mut debounce = RefreshDebouncer::default();
    debounce.mark(&paths(&["/one"]), start);
    debounce.mark(
        &paths(&["/two"]),
        start + MAX_BATCH_LATENCY - 10 * MILLISECOND,
    );

    assert!(debounce
        .take_due(start + MAX_BATCH_LATENCY - MILLISECOND)
        .is_none());
    assert_eq!(
        debounce.take_due(start + MAX_BATCH_LATENCY),
        Some(paths(&["/one", "/two"]))
    );
}

#[test]
fn a_directory_that_could_not_be_watched_is_tried_again_later() {
    let mut watcher = DirectoryWatcher::new();
    let shown = vec![displayed("/one", true, false)];
    let plan = watcher.sync_paths(&shown, 0);
    assert_eq!(plan.add, paths(&["/one"]));
    watcher.watch_failed(&plan.add[0], 0);
    assert!(watcher.sync_paths(&shown, WATCH_RETRY_DELAY - 1).add.is_empty());
    assert_eq!(watcher.sync_paths(&shown, WATCH_RETRY_DELAY).add, paths(&["/one"]));
    watcher.watch_succeeded(&FsPath::new("/one"));
    let plan = watcher.sync_paths(&Vec::new(), WATCH_RETRY_DELAY);
    assert_eq!(plan.remove, paths(&["/one"]));
}

#[test]
fn lost_events_refresh_everything_and_renames_are_told_once() {
    let mut watcher = DirectoryWatcher::new();
    let shown = vec![displayed("/p/old", true, true), displayed("/two", true, true)];
    let mut update = WatchUpdate::default();
    let rename = event(WatchEventKind::RenameBoth, &["/p/old", "/p/new"]);
    watcher.note_event(&rename, &shown, 0, &mut update);
    watcher.note_event(&rename, &shown, 0, &mut update);
    assert_eq!(update.directory_renames.len(), 1);
    let renamed: &DirectoryRename = &update.directory_renames[0];
    assert_eq!(renamed.new_path, FsPath::new("/p/new"));

    let mut lost = event(WatchEventKind::Other, &[]);
    lost.rescan = true;
    watcher.note_event(&lost, &shown, 0, &mut update);
    assert_eq!(watcher.time_until_refresh(0), Some(QUIET_PERIOD));
    let due = watcher.take_due_refresh(MAX_BATCH_LATENCY).unwrap();
    assert_eq!(due, paths(&["/p/old", "/two"]));
    assert!(watcher.time_until_refresh(0).is_none());
}

#[test]
fn a_directory_is_noted_once_however_it_is_spelled() {
    let mut watcher = DirectoryWatcher::new();
    watcher.watch_failed(&FsPath::new("/one"), 1);
    watcher.watch_failed(&FsPath::new("/one/"), 2);
    assert_eq!(watcher.failed_paths.len(), 1);
    assert_eq!(watcher.failed_paths[0].at, 2);
    watcher.watch_succeeded(&FsPath::new("/one"));
    watcher.watch_succeeded(&FsPath::new("/one/"));
    assert_eq!(watcher.watched_paths, paths(&["/one"]));
    assert!(watcher.failed_paths.is_empty());
}
