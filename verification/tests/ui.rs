use file_explorer::model::config::{TerminalApp, Theme};
use file_explorer::model::fs::{FileKind, SortColumn};
use file_explorer::model::global_tags::{GlobalTag, GlobalTags};
use file_explorer::model::tags::{Tag, TagColor};
use file_explorer::model::themes::{CustomTheme, ThemeColor, ThemeColors};
use file_explorer::path::FsPath;
use file_explorer::path_list::{copy_paths, position, sort_paths};
use file_explorer::platform::clipboard::{
    existing_files, files_text, paths_in_text, read_objects, ClipboardObject,
};
use file_explorer::platform::opener::{
    cd_command, info_script, next_terminal, open_in_terminal, terminal_dir, trash_result, trash_script,
};
use file_explorer::text::{
    first_line, join_texts, lines, parse_u8, push_decimal, push_padded, replace_char, strip_prefix,
    trim, trim_end,
};
use file_explorer::ui::file_list::{
    breadcrumbs, file_icon, icon_of, is_drop_target, name_extension, open_result, open_row,
    row_icon, row_text, tag_menu_text, FileListState,
    tag_results_heading, toggle_tag, FileListAction,
};
use file_explorer::ui::prefs::{
    changed_look, initial_look, is_light, terminal_label, theme_label, Choices, Look,
};
use file_explorer::ui::search_overlay::{
    handle_keys, relative_display, result_directory, result_title, SearchAction, SearchKeys,
};
use file_explorer::ui::sidebar::{
    click_tag, drop_on_bookmark, drop_on_section, favorite_locations, home_directory,
    open_bookmark, SidebarAction, TagEditor,
};
use file_explorer::ui::tab_bar::{reveals_active, shows_close};
use file_explorer::ui::terminal_panel::{covered_cells, preedit_cells, tab_title};
use file_explorer::ui::toasts::{
    Fade, Toasts, FADE_DURATION, MAX_TOASTS, TOAST_DURATION,
};

fn p(name: &str) -> FsPath {
    FsPath::new(name)
}

fn paths(names: &[&str]) -> Vec<FsPath> {
    names.iter().map(|name| FsPath::new(name)).collect()
}

fn s(text: &str) -> String {
    text.to_string()
}

#[test]
fn toasts_fade_and_leave() {
    let mut toasts = Toasts::default();
    for i in 0..7u64 {
        toasts.push(format!("t{i}"), i);
    }
    assert_eq!(toasts.items.len(), MAX_TOASTS);
    assert_eq!(toasts.items[0].message, "t2");
    let t = &toasts.items[0];
    assert!(matches!(t.fade(2 + FADE_DURATION - 1), Fade::In(a) if a == FADE_DURATION - 1));
    assert!(matches!(t.fade(2 + FADE_DURATION), Fade::Full));
    assert!(matches!(t.fade(2 + TOAST_DURATION - 5), Fade::Out(5)));
    assert!(matches!(t.fade(2 + TOAST_DURATION + 5), Fade::Out(0)));
    assert!(!t.expired(2 + TOAST_DURATION - 1));
    toasts.remove_expired(3 + TOAST_DURATION);
    assert_eq!(toasts.items[0].message, "t4");
    assert_eq!(toasts.items.len(), 3);
}

#[test]
fn favorites_are_below_the_home_directory() {
    let home = Some(s("/home/me"));
    let places = favorite_locations(&home);
    assert_eq!(places.len(), 5);
    assert_eq!((places[0].name, &places[0].path), ("Home", &p("/home/me")));
    assert_eq!((places[2].name, &places[2].path), ("Downloads", &p("/home/me/Downloads")));
    assert_eq!((places[4].name, &places[4].path), ("Applications", &p("/Applications")));
    assert_eq!(home_directory(&None), p("/"));
}

#[test]
fn bookmarks_open_and_take_what_is_dropped() {
    assert!(matches!(open_bookmark(&p("/d"), true), SidebarAction::Navigate(_)));
    assert!(matches!(open_bookmark(&p("/f"), false), SidebarAction::OpenFile(_)));
    let dragged = paths(&["/a", "/b"]);
    match drop_on_bookmark(&dragged, &p("/d")) {
        SidebarAction::MoveFilesTo(files, to) => {
            assert_eq!(files, dragged);
            assert_eq!(to, p("/d"));
        }
        _ => panic!("files are moved"),
    }
    assert!(drop_on_section(&dragged, true).is_empty());
    let added = drop_on_section(&dragged, false);
    assert_eq!(added.len(), 2);
    assert!(matches!(&added[1], SidebarAction::AddBookmark(q) if *q == p("/b")));
}

#[test]
fn a_tag_is_shown_or_no_longer() {
    let red = GlobalTag { name: s("Red"), color: 6 };
    assert!(matches!(click_tag(&red, &None), SidebarAction::FilterTag(Some(t)) if t == "Red"));
    assert!(matches!(
        click_tag(&red, &Some(s("Red"))),
        SidebarAction::FilterTag(None)
    ));
}

#[test]
fn tags_are_made_edited_and_removed() {
    let mut tags = GlobalTags::seeded();
    let mut editor = TagEditor::default();
    assert!(editor.take_new_tag().is_none());
    editor.new_name = s("  Work ");
    let color = editor.new_color;
    match editor.take_new_tag() {
        Some(SidebarAction::CreateTag(name, c)) => assert_eq!((name.as_str(), c), ("Work", color)),
        _ => panic!("a tag is made"),
    }
    assert_eq!(editor.new_name, "");
    let made = editor.create_tag(&mut tags, s("Work"), 2);
    assert!(made.save);
    let again = editor.create_tag(&mut tags, s("Work"), 2);
    assert!(!again.save);
    assert!(again.message.is_some());
    editor.start_edit(&tags, 7);
    assert_eq!((editor.index, editor.name.as_str(), editor.color), (Some(7), "Work", 2));
    assert!(matches!(
        editor.edit_action(7, true, true, false),
        Some(SidebarAction::CancelEdit)
    ));
    assert!(editor.edit_action(7, false, false, false).is_none());
    editor.name = s(" Job ");
    match editor.edit_action(7, false, true, false) {
        Some(SidebarAction::CommitEdit(i, n, c)) => {
            assert_eq!((i, n.as_str(), c), (7, "Job", 2));
            assert!(editor.commit_edit(&mut tags, i, n, c).save);
        }
        _ => panic!("the edit is kept"),
    }
    assert_eq!(tags.items[7].name, "Job");
    assert!(editor.index.is_none());
    editor.start_edit(&tags, 0);
    editor.name = s("  ");
    assert!(matches!(
        editor.edit_action(0, false, false, true),
        Some(SidebarAction::CancelEdit)
    ));
    editor.cancel_edit();
    assert!(editor.index.is_none());
    editor.delete_tag(&mut tags, 7);
    assert_eq!(tags.items.len(), 7);
}

fn keys(escape: bool, enter: bool, up: bool, down: bool) -> SearchKeys {
    SearchKeys { escape, enter, up, down }
}

#[test]
fn the_found_entry_stays_in_range() {
    let results = paths(&["/r/a", "/r/b"]);
    let mut selected = 9;
    assert!(handle_keys(keys(false, false, false, false), &results, &mut selected).is_none());
    assert_eq!(selected, 1);
    handle_keys(keys(false, false, false, true), &results, &mut selected);
    assert_eq!(selected, 1);
    handle_keys(keys(false, false, true, false), &results, &mut selected);
    assert_eq!(selected, 0);
    assert!(matches!(
        handle_keys(keys(false, true, false, true), &results, &mut selected),
        Some(SearchAction::Navigate(q)) if q == p("/r/b")
    ));
    assert!(matches!(
        handle_keys(keys(true, true, false, false), &results, &mut selected),
        Some(SearchAction::Close)
    ));
    assert!(handle_keys(keys(false, true, false, true), &Vec::new(), &mut selected).is_none());
    assert_eq!(relative_display(&p("/r"), &p("/r/x/y")), "x/y");
    assert_eq!(relative_display(&p("/r"), &p("/r")), ".");
    assert_eq!(relative_display(&p("/r"), &p("/q")), "/q");
    assert_eq!(result_title(&p("/r/x"), true), "📁 x");
    assert_eq!(result_title(&p("/"), false), "📄 /");
    assert_eq!(result_directory(&p("/r/x"), true), p("/r/x"));
    assert_eq!(result_directory(&p("/r/x"), false), p("/r"));
}

#[test]
fn tabs_reveal_the_shown_one_when_it_changes() {
    assert!(!shows_close(1) && shows_close(2));
    assert!(reveals_active(None, 0, 1));
    assert!(!reveals_active(Some((0, 2)), 0, 2));
    assert!(reveals_active(Some((0, 2)), 1, 2));
    assert!(reveals_active(Some((1, 2)), 1, 3));
}

fn theme(id: &str, gray: u8) -> CustomTheme {
    let color = ThemeColor { r: gray, g: gray, b: gray };
    CustomTheme {
        id: s(id),
        name: s(id),
        description: String::new(),
        colors: ThemeColors {
            background: color,
            primary_text: color,
            secondary_text: color,
            accent: color,
        },
    }
}

fn choices() -> Choices {
    Choices {
        theme: Theme::System,
        custom_theme: None,
        show_hidden: false,
        terminal: TerminalApp::Auto,
    }
}

#[test]
fn preferences_change_only_by_a_new_choice() {
    let mut c = choices();
    assert!(!c.choose_theme(Theme::System).config_changed);
    assert!(c.choose_custom_theme("nord").config_changed);
    assert!(c.choose_theme(Theme::System).config_changed);
    assert!(c.custom_theme.is_none());
    assert!(!c.set_show_hidden(false).config_changed);
    assert!(c.set_show_hidden(true).config_changed);
    assert!(!c.choose_terminal(TerminalApp::Auto).config_changed);
    assert!(c.choose_terminal(TerminalApp::Warp).config_changed);
    assert_eq!(theme_label(Theme::Dark), "Dark");
    assert_eq!(terminal_label(TerminalApp::Terminal), "Terminal.app");
}

#[test]
fn the_look_follows_the_choice() {
    let themes = vec![theme("nord", 40), theme("day", 250)];
    assert!(matches!(initial_look(&choices(), &themes), Look::Plain(Theme::System)));
    let mut named = choices();
    named.choose_custom_theme("day");
    assert!(matches!(initial_look(&named, &themes), Look::Colors(c) if c.background.r == 250));
    assert!(matches!(changed_look(&choices(), &choices(), &themes), Look::Unchanged));
    assert!(matches!(
        changed_look(&choices(), &named, &themes),
        Look::Colors(c) if c.background.r == 250
    ));
    assert!(matches!(
        changed_look(&named, &choices(), &themes),
        Look::Plain(Theme::System)
    ));
    assert!(is_light(ThemeColor { r: 250, g: 250, b: 250 }));
    assert!(!is_light(ThemeColor { r: 40, g: 40, b: 40 }));
}

#[test]
fn commands_name_their_path() {
    assert_eq!(
        trash_script(&p("/a\"b\\c")),
        "tell application \"Finder\" to delete POSIX file \"/a\\\"b\\\\c\""
    );
    assert_eq!(
        info_script(&p("/a b")),
        "tell application \"Finder\" to open information window of (POSIX file \"/a b\" as alias)"
    );
    assert!(trash_result(true).is_ok());
    assert_eq!(
        trash_result(false),
        Err(s("Finder could not move the item to Trash"))
    );
    assert_eq!(terminal_dir(&p("/d/f"), false), p("/d"));
    assert_eq!(terminal_dir(&p("/d/f"), true), p("/d/f"));
    assert_eq!(terminal_dir(&p("/"), false), p("/"));
    assert_eq!(cd_command(&p("/a b")), "cd '/a b'");
    assert_eq!(
        open_in_terminal(TerminalApp::Auto),
        vec![
            TerminalApp::ITerm2,
            TerminalApp::Warp,
            TerminalApp::Terminal
        ]
    );
    assert_eq!(open_in_terminal(TerminalApp::Warp), vec![TerminalApp::Warp]);
    let auto = |tried, started| next_terminal(TerminalApp::Auto, tried, started);
    assert_eq!(auto(0, false), Some(TerminalApp::ITerm2));
    assert_eq!(auto(1, false), Some(TerminalApp::Warp));
    assert_eq!(auto(2, false), Some(TerminalApp::Terminal));
    assert_eq!(auto(3, false), None);
    assert_eq!(auto(1, true), None);
    assert_eq!(
        next_terminal(TerminalApp::Ghostty, 0, false),
        Some(TerminalApp::Ghostty)
    );
    assert_eq!(next_terminal(TerminalApp::Ghostty, 1, false), None);
}

#[test]
fn copied_files_are_read_back() {
    assert_eq!(files_text(&paths(&["/a", "/b c"])), "/a\n/b c");
    assert_eq!(paths_in_text("/a\n/b c\r\n"), paths(&["/a", "/b c"]));
    let object = |is_file: bool, path: Option<&str>| ClipboardObject {
        is_file,
        path: path.map(s),
    };
    let read = read_objects(
        &vec![
            object(true, Some("/a")),
            object(false, Some("/web")),
            object(true, None),
            object(true, Some("/a/")),
            object(true, Some("/b")),
        ],
        12,
    )
    .unwrap();
    assert_eq!(read.paths, paths(&["/a", "/b"]));
    assert_eq!(read.change_count, 12);
    let found = existing_files(&paths(&["/a", "/b"]), &vec![false, true]).unwrap();
    assert_eq!(found.paths, paths(&["/b"]));
    assert_eq!(found.change_count, 0);
    assert!(existing_files(&paths(&["/a"]), &vec![false]).is_err());
    assert!(existing_files(&Vec::new(), &Vec::new()).is_err());
    match read_objects(&vec![object(false, Some("/web"))], 0) {
        Err(m) => assert_eq!(m, "Clipboard does not contain files"),
        Ok(_) => panic!("no file is there"),
    }
}

#[test]
fn rows_open_and_take_drops() {
    assert!(matches!(open_row(FileKind::Directory, &p("/d")), FileListAction::Navigate(_)));
    assert!(matches!(open_row(FileKind::File, &p("/f")), FileListAction::OpenFile(_)));
    assert!(matches!(open_result(true, &p("/d")), FileListAction::Navigate(_)));
    let dragging = Some(paths(&["/a"]));
    assert!(is_drop_target(&dragging, FileKind::Directory, true, &p("/d")));
    assert!(!is_drop_target(&dragging, FileKind::Directory, true, &p("/a")));
    assert!(!is_drop_target(&dragging, FileKind::File, true, &p("/d")));
    assert!(!is_drop_target(&dragging, FileKind::Directory, false, &p("/d")));
    assert!(!is_drop_target(&None, FileKind::Directory, true, &p("/d")));
    let crumbs = breadcrumbs(&p("/a/b"));
    let labels: Vec<&str> = crumbs.iter().map(|c| c.label.as_str()).collect();
    assert_eq!(labels, vec!["  /", "a", "b"]);
    assert_eq!(crumbs[1].path, p("/a"));
    assert!(tag_results_heading("Red", 2).contains("Red"));
}

#[test]
fn toggling_a_tag_takes_it_in_and_out() {
    let red = GlobalTag { name: s("Red"), color: 6 };
    let none: Vec<Tag> = Vec::new();
    let with = toggle_tag(&none, &red);
    assert_eq!(with.len(), 1);
    assert_eq!((with[0].name.as_str(), with[0].color), ("Red", TagColor::Red));
    assert!(toggle_tag(&with, &red).is_empty());
}

#[test]
fn icons_go_by_the_extension() {
    assert_eq!(name_extension("a.TAR.Gz"), "Gz");
    assert_eq!(file_icon("main.RS"), icon_of(&s("rs")));
    assert_ne!(file_icon("main.rs"), file_icon("photo.png"));
    assert_eq!(file_icon("pdf"), "📕");
}

#[test]
fn paths_are_taken_apart_and_joined() {
    assert_eq!(p("/a//b/./c/").parent(), Some(p("/a/b")));
    assert_eq!(p("/").parent(), None);
    assert_eq!(p("a").parent(), Some(p("")));
    assert_eq!(p("/a/..").file_name_text(), None);
    assert_eq!(p("/a/b.txt").file_name_text(), Some(s("b.txt")));
    assert_eq!(p("/a").join(&p("/b")), p("/b"));
    assert_eq!(p("/a/").join(&p("b")), p("/a/b"));
    assert!(p("/a/b").starts_with(&p("/a")) && !p("/ab").starts_with(&p("/a")));
    assert_eq!(p("/a/b/c").strip_prefix(&p("/a")), Some(p("b/c")));
    assert_eq!(p("/a").strip_prefix(&p("/b")), None);
    assert!(p("/a").is_absolute() && !p("a").is_absolute());
    assert_eq!(p("/a/b").ancestors(), paths(&["/a", "/"]));
    assert_ne!(p("a"), p("./a"));
    let mut list = paths(&["/b", "/a/c", "/a"]);
    assert_eq!(position(&list, &p("/a/")), 2);
    sort_paths(&mut list);
    assert_eq!(copy_paths(&list), paths(&["/a", "/a/c", "/b"]));
    assert_eq!(FsPath::from_bytes(vec![47, 255]).to_text(), "/\u{fffd}");
}

#[test]
fn texts_are_cut_as_the_standard_library_cuts_them() {
    for text in ["", "a", "a\n", "a\r\nb", "\n\n", "a\n\nb\r", "  x \t", "\u{a0}x\u{3000}", "x\r\n"] {
        let expected: Vec<String> = text.lines().map(s).collect();
        assert_eq!(lines(text), expected);
        assert_eq!(first_line(text), text.lines().next().unwrap_or(""));
        assert_eq!(trim(text), text.trim());
        assert_eq!(trim_end(text), text.trim_end());
    }
    assert_eq!(strip_prefix("refs/heads/x", "refs/heads/"), Some(s("x")));
    assert_eq!(strip_prefix("refs", "refs/"), None);
    assert_eq!(replace_char("it's", '\'', "\\'"), "it\\'s");
    assert_eq!(join_texts(&vec![s("a"), s("b")], ", "), "a, b");
    for text in ["0", "255", "256", "+7", "-1", "", "+", "007", "1x", "0000000000001"] {
        assert_eq!(parse_u8(text), text.parse::<u8>().ok());
    }
    let mut out = s("n");
    push_decimal(&mut out, u64::MAX);
    push_padded(&mut out, 7, 3);
    push_padded(&mut out, 1234, 2);
    assert_eq!(out, format!("n{}0071234", u64::MAX));
}

#[test]
fn rows_headers_and_menus_are_labelled() {
    assert_eq!(row_icon(FileKind::Directory, "a.png"), "📁");
    assert_eq!(row_icon(FileKind::Symlink, "a.png"), "🔗");
    assert_eq!(row_icon(FileKind::File, "a.PNG"), "🖼");
    assert_eq!(row_text("📄", "a", true), "  📄  a (cut)");
    assert_eq!(row_text("📄", "a", false), "  📄  a");
    assert_eq!(tag_menu_text("Red", true), "✓  Red");
    assert_eq!(tag_menu_text("Red", false), "    Red");
    let mut state = FileListState::default();
    assert_eq!(state.header_text("Name", SortColumn::Name), "Name ▲");
    state.click_header(SortColumn::Name);
    assert_eq!(state.header_text("Name", SortColumn::Name), "Name ▼");
    assert_eq!(state.header_text("Size", SortColumn::Size), "Size");
    assert_eq!(tab_title(""), "zsh");
    assert_eq!(tab_title("\u{1112}\u{1161}\u{11ab}"), "한");
    assert_eq!((covered_cells(0), covered_cells(4)), (1, 4));
    assert_eq!(preedit_cells("한글"), 4);
}
