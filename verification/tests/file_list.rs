use file_explorer::model::fs::{FileEntry, FileKind, SortColumn, SortOrder};
use file_explorer::model::global_tags::GlobalTag;
use file_explorer::model::tags::{Tag, TagColor};
use file_explorer::path::FsPath;
use file_explorer::ui::file_list::{
    breadcrumbs, display_entries, entry_has_tag, file_icon, is_drop_target, open_result, open_row,
    tag_results_heading, toggle_tag, CreateKind, FileListAction, FileListState,
};

fn paths(names: &[&str]) -> Vec<FsPath> {
    names.iter().map(|name| FsPath::new(name)).collect()
}

#[test]
fn command_click_toggles_without_clearing_other_rows() {
    let visible = paths(&["a", "b", "c"]);
    let mut state = FileListState::default();
    state.update_from_click(&visible, &visible[0], false, false);
    state.update_from_click(&visible, &visible[2], true, false);
    assert_eq!(state.selected, paths(&["a", "c"]));

    state.update_from_click(&visible, &visible[0], true, false);
    assert_eq!(state.selected, paths(&["c"]));
}

#[test]
fn shift_click_selects_inclusive_range_and_tracks_primary() {
    let visible = paths(&["a", "b", "c", "d"]);
    let mut state = FileListState::default();
    state.update_from_click(&visible, &visible[1], false, false);
    state.update_from_click(&visible, &visible[3], false, true);

    assert_eq!(state.selected, paths(&["b", "c", "d"]));
    assert_eq!(state.primary_selection(), Some(&visible[3]));
    assert_eq!(state.selection_anchor, Some(visible[1].clone()));
}

#[test]
fn command_shift_click_adds_range() {
    let visible = paths(&["a", "b", "c", "d"]);
    let mut state = FileListState::default();
    state.update_from_click(&visible, &visible[0], false, false);
    state.update_from_click(&visible, &visible[2], true, false);
    state.update_from_click(&visible, &visible[3], true, true);

    assert_eq!(state.selected, paths(&["a", "c", "d"]));
}

#[test]
fn shift_arrow_extends_from_original_anchor() {
    let visible = paths(&["a", "b", "c", "d"]);
    let mut state = FileListState::default();
    state.select_only(visible[1].clone());
    state.move_primary(&visible, 1, true);
    state.move_primary(&visible, 1, true);

    assert_eq!(state.selected, paths(&["b", "c", "d"]));
    assert_eq!(state.selection_anchor, Some(visible[1].clone()));
}

#[test]
fn arrows_stop_at_the_ends_and_start_from_one() {
    let visible = paths(&["a", "b", "c"]);
    let mut state = FileListState::default();
    state.move_primary(&visible, -1, false);
    assert_eq!(state.selected, paths(&["c"]));
    state.move_primary(&visible, 1, false);
    assert_eq!(state.selected, paths(&["c"]));
    state.move_primary(&visible, isize::MIN, false);
    assert_eq!(state.selected, paths(&["a"]));
    state.move_primary(&Vec::new(), 1, false);
    assert!(state.selected.is_empty());
    assert!(state.selection_anchor.is_none());
}

#[test]
fn a_range_from_a_lost_anchor_selects_the_target() {
    let visible = paths(&["a", "b", "c"]);
    let mut state = FileListState::default();
    state.select_only(FsPath::new("gone"));
    state.update_from_click(&visible, &visible[1], false, true);
    assert_eq!(state.selected, paths(&["b"]));
    assert_eq!(state.selection_anchor, Some(FsPath::new("gone")));
}

#[test]
fn selecting_all_and_nothing() {
    let visible = paths(&["a", "b"]);
    let mut state = FileListState::default();
    state.select_all(&visible);
    assert_eq!(state.selected, visible);
    assert_eq!(state.selection_anchor, Some(FsPath::new("b")));
    state.clear_selection();
    assert!(state.primary_selection().is_none());
}

#[test]
fn headers_sort_upwards_first_and_then_downwards() {
    let mut state = FileListState::default();
    state.click_header(SortColumn::Size);
    assert_eq!((state.sort_col, state.sort_order), (SortColumn::Size, SortOrder::Ascending));
    state.click_header(SortColumn::Size);
    assert_eq!(state.sort_order, SortOrder::Descending);
    state.click_header(SortColumn::Name);
    assert_eq!((state.sort_col, state.sort_order), (SortColumn::Name, SortOrder::Ascending));
}

#[test]
fn a_blank_name_creates_nothing() {
    let mut state = FileListState::default();
    state.start_creating(CreateKind::File);
    assert_eq!(state.creating.as_ref().unwrap().name, "untitled");
    state.creating.as_mut().unwrap().name = "  ".to_string();
    assert!(state.finish_creating(true, false).is_none());
    assert!(state.creating.is_some());
    assert!(state.finish_creating(false, true).is_none());
    assert!(state.creating.is_none());

    state.start_creating(CreateKind::Directory);
    assert_eq!(state.creating.as_ref().unwrap().name, "untitled folder");
    match state.finish_creating(true, false) {
        Some(FileListAction::CreateItem(CreateKind::Directory, name)) => {
            assert_eq!(name, "untitled folder")
        }
        _ => panic!("a directory was to be created"),
    }
    assert!(state.creating.is_none());
}

#[test]
fn renaming_starts_from_the_name_and_ends_once() {
    let mut state = FileListState::default();
    assert!(state.rename_request().is_none());
    state.select_only(FsPath::new("/d/a.txt"));
    match state.rename_request() {
        Some(FileListAction::StartRename(p)) => state.start_renaming(p),
        _ => panic!("the selected file was to be renamed"),
    }
    assert_eq!(state.renaming.as_ref().unwrap().name, "a.txt");
    assert!(state.rename_request().is_none());
    state.renaming.as_mut().unwrap().name = "b.txt".to_string();
    match state.finish_renaming(true, false) {
        Some(FileListAction::RenameItem(p, name)) => {
            assert_eq!(p, FsPath::new("/d/a.txt"));
            assert_eq!(name, "b.txt");
        }
        _ => panic!("the file was to be renamed"),
    }
    assert!(state.renaming.is_none());
}

#[test]
fn a_drag_takes_the_selection_or_the_row() {
    let mut state = FileListState::default();
    state.select_all(&paths(&["a", "b"]));
    match state.start_drag(&FsPath::new("b")) {
        FileListAction::DragStarted(p) => assert_eq!(p, paths(&["a", "b"])),
        _ => panic!("a drag was to start"),
    }
    match state.start_drag(&FsPath::new("c")) {
        FileListAction::DragStarted(p) => assert_eq!(p, paths(&["c"])),
        _ => panic!("a drag was to start"),
    }
    assert_eq!(state.action_paths(&FsPath::new("x")), paths(&["x"]));
    assert_eq!(state.action_paths(&FsPath::new("c")), paths(&["c"]));
}

#[test]
fn breadcrumbs_lead_from_the_root() {
    let crumbs = breadcrumbs(&FsPath::new("/usr/local"));
    let labels: Vec<&str> = crumbs.iter().map(|c| c.label.as_str()).collect();
    assert_eq!(labels, vec!["  /", "usr", "local"]);
    assert_eq!(crumbs[2].path, FsPath::new("/usr/local"));
    assert_eq!(crumbs[1].path, FsPath::new("/usr"));
    assert_eq!(crumbs[0].path, FsPath::new("/"));
}

fn entry(name: &str, tags: Vec<Tag>) -> FileEntry {
    FileEntry {
        name: name.to_string(),
        path: FsPath::new(name),
        kind: FileKind::File,
        size: None,
        modified: None,
        tags,
    }
}

fn red() -> Tag {
    Tag {
        name: "Red".to_string(),
        color: TagColor::Red,
    }
}

#[test]
fn a_tag_filter_shows_what_has_the_tag() {
    let entries = vec![entry("a", vec![]), entry("b", vec![red()])];
    assert_eq!(display_entries(&entries, &None), vec![0, 1]);
    assert_eq!(display_entries(&entries, &Some("Red".to_string())), vec![1]);
    assert!(entry_has_tag(&entries[1].tags, "Red"));
    assert!(!entry_has_tag(&entries[1].tags, "red"));
}

#[test]
fn toggling_a_tag_adds_it_and_takes_it_away() {
    let tag = GlobalTag {
        name: "Red".to_string(),
        color: 6,
    };
    let with = toggle_tag(&Vec::new(), &tag);
    assert_eq!(with.len(), 1);
    assert_eq!(with[0], red());
    assert!(toggle_tag(&with, &tag).is_empty());
}

#[test]
fn rows_and_results_open_what_they_are() {
    let p = FsPath::new("/d/f");
    assert!(matches!(open_row(FileKind::Directory, &p), FileListAction::Navigate(_)));
    assert!(matches!(open_row(FileKind::Symlink, &p), FileListAction::OpenFile(_)));
    match open_result(false, &p) {
        FileListAction::NavigateAndSelect(dir, file) => {
            assert_eq!(dir, FsPath::new("/d"));
            assert_eq!(file, p);
        }
        _ => panic!("the directory of the result was to be shown"),
    }
    assert!(matches!(open_result(true, &p), FileListAction::Navigate(_)));
}

#[test]
fn only_directories_that_are_not_dragged_take_a_drop() {
    let dragging = Some(paths(&["/d/a"]));
    assert!(is_drop_target(&dragging, FileKind::Directory, true, &FsPath::new("/d/b")));
    assert!(!is_drop_target(&dragging, FileKind::Directory, true, &FsPath::new("/d/a")));
    assert!(!is_drop_target(&dragging, FileKind::File, true, &FsPath::new("/d/b")));
    assert!(!is_drop_target(&None, FileKind::Directory, true, &FsPath::new("/d/b")));
}

#[test]
fn icons_and_headings() {
    assert_eq!(file_icon("photo.PNG"), "🖼");
    assert_eq!(file_icon("archive.tar.gz"), "🗜");
    assert_eq!(file_icon("mp3"), "🎵");
    assert_eq!(file_icon("notes.md"), "📝");
    assert_eq!(file_icon("program"), "📄");
    assert_eq!(tag_results_heading("Red", 1), "  🏷  Red — 1 file");
    assert_eq!(tag_results_heading("Red", 12), "  🏷  Red — 12 files");
}
