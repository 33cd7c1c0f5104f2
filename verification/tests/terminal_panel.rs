use file_explorer::input::{EventKind, ImeEvent, InputEvent, Key, Modifiers};
use file_explorer::terminal::cell::TermColor;
use file_explorer::terminal::grid::TerminalGrid;
use file_explorer::ui::terminal_input::{
    collect_terminal_input, ctrl_seq, is_ime_navigation_key, special_seq, TerminalImeState,
};
use file_explorer::ui::terminal_panel::{
    ansi16, default_bg, default_fg, display_row, extract_selection_text, indexed_color,
    preedit_cells, resolve_bg, resolve_fg, selection_contains_glyph, Rgb, TermSelection,
};

fn grid_with_output(text: &str) -> TerminalGrid {
    let mut grid = TerminalGrid::new(12, 2);
    for c in text.chars() {
        grid.put_char(c);
    }
    grid
}

fn events(kinds: Vec<EventKind>) -> Vec<InputEvent> {
    kinds
        .into_iter()
        .enumerate()
        .map(|(place, kind)| InputEvent { place, kind })
        .collect()
}

fn key(key: Key, ctrl: bool) -> EventKind {
    EventKind::Key {
        key,
        physical_key: None,
        pressed: true,
        repeat: false,
        modifiers: Modifiers {
            alt: false,
            ctrl,
            shift: false,
            command: false,
        },
    }
}

#[test]
fn selection_highlights_both_halves_and_copies_wide_glyph_once() {
    let grid = grid_with_output("한");
    let selection = TermSelection {
        start: Some((0, 0)),
        end: Some((0, 1)),
    };

    assert!(selection_contains_glyph(&selection, &grid.cells[0], 0, 0));
    assert!(selection_contains_glyph(&selection, &grid.cells[0], 0, 1));
    assert_eq!(extract_selection_text(&grid, &selection, 2, 0), "한");
}

#[test]
fn a_half_glyph_at_the_edge_is_selected_by_its_own_column() {
    let mut grid = grid_with_output("ab");
    let selection = TermSelection {
        start: Some((0, 0)),
        end: Some((0, 1)),
    };
    grid.cells[0][0].width = 0;
    grid.cells[0][2].width = 0;

    assert!(selection_contains_glyph(&selection, &grid.cells[0], 0, 0));
    assert!(!selection_contains_glyph(&selection, &grid.cells[0], 1, 0));
    assert!(!selection_contains_glyph(&selection, &grid.cells[0], 0, 3));
    assert!(selection_contains_glyph(&selection, &grid.cells[0], 0, 2));
}

#[test]
fn ime_sends_only_committed_hangul_to_the_pty() {
    let mut ime = TerminalImeState::default();
    let mut composing = events(vec![
        EventKind::Ime(ImeEvent::Enabled),
        EventKind::Text("ㅎ".to_string()),
        EventKind::Ime(ImeEvent::Preedit("하".to_string())),
        EventKind::Text("ㅏ".to_string()),
    ]);

    let bytes = collect_terminal_input(&mut composing, &mut ime);

    assert!(bytes.is_empty());
    assert!(composing.is_empty());
    assert!(ime.enabled);
    assert_eq!(ime.preedit, "하");

    // The raw final key can precede Commit in the same macOS frame. It
    // must not be forwarded in addition to the composed syllable.
    let mut committed = events(vec![
        EventKind::Text("ㄴ".to_string()),
        EventKind::Ime(ImeEvent::Commit("한".to_string())),
        EventKind::Ime(ImeEvent::Disabled),
    ]);

    let bytes = collect_terminal_input(&mut committed, &mut ime);

    assert_eq!(bytes, "한".as_bytes());
    assert!(committed.is_empty());
    assert!(!ime.enabled);
    assert!(ime.preedit.is_empty());
}

#[test]
fn ordinary_text_still_reaches_the_pty_outside_ime() {
    let mut ime = TerminalImeState::default();
    let mut events = events(vec![EventKind::Text("cargo run".to_string())]);

    let bytes = collect_terminal_input(&mut events, &mut ime);

    assert_eq!(bytes, b"cargo run");
    assert!(events.is_empty());
}

#[test]
fn keys_send_their_codes_and_others_stay() {
    assert_eq!(ctrl_seq(Key::Letter('C')), Some(3));
    assert_eq!(ctrl_seq(Key::Enter), None);
    assert_eq!(special_seq(Key::ArrowUp), Some(vec![27, 91, 65]));
    assert_eq!(special_seq(Key::Letter('A')), None);
    assert!(is_ime_navigation_key(Key::ArrowLeft));
    assert!(!is_ime_navigation_key(Key::Letter('A')));

    let mut ime = TerminalImeState::default();
    let mut queue = events(vec![
        key(Key::Letter('C'), true),
        EventKind::Other,
        EventKind::Copy,
        key(Key::ArrowUp, false),
    ]);
    let bytes = collect_terminal_input(&mut queue, &mut ime);
    assert_eq!(bytes, vec![3, 27, 91, 65]);
    assert_eq!(queue.len(), 2);
    assert!(matches!(queue[0].kind, EventKind::Other));
    assert!(matches!(queue[1].kind, EventKind::Copy));
}

#[test]
fn colors_come_from_the_palette() {
    assert_eq!(indexed_color(16), Rgb { r: 0, g: 0, b: 0 });
    assert_eq!(indexed_color(231), Rgb { r: 255, g: 255, b: 255 });
    assert_eq!(indexed_color(232), Rgb { r: 8, g: 8, b: 8 });
    assert_eq!(indexed_color(3), ansi16(3));
    assert_eq!(resolve_fg(TermColor::Default, false), default_fg());
    assert_eq!(resolve_bg(TermColor::Default), default_bg());
    assert_eq!(
        resolve_bg(TermColor::Rgb(1, 2, 3)),
        Rgb { r: 1, g: 2, b: 3 }
    );
    assert_eq!(resolve_fg(TermColor::Ansi(1), true), ansi16(9));
}

#[test]
fn a_selection_has_no_direction() {
    let forward = TermSelection {
        start: Some((0, 3)),
        end: Some((1, 2)),
    };
    let backward = TermSelection {
        start: Some((1, 2)),
        end: Some((0, 3)),
    };
    assert_eq!(forward.normalized(), backward.normalized());
    assert!(forward.contains(0, 9));
    assert!(!forward.contains(0, 2));
    assert!(backward.contains(1, 2));
    assert!(!backward.contains(1, 3));
    assert!(forward.is_active());
    let none = TermSelection { start: None, end: None };
    assert!(!none.is_active());
    assert!(none.normalized().is_none());
}

#[test]
fn scrolling_back_shows_what_has_gone() {
    let mut grid = TerminalGrid::new(4, 1);
    for c in "oldxnewx".chars() {
        grid.put_char(c);
    }
    assert_eq!(grid.scrollback.len(), 1);
    assert_eq!(display_row(&grid, 0, 0).unwrap()[0].ch, 'n');
    grid.scroll_back(3);
    assert_eq!(grid.visible_offset(), 1);
    assert_eq!(display_row(&grid, 0, grid.visible_offset()).unwrap()[0].ch, 'o');
    grid.scroll_forward(5);
    assert_eq!(grid.visible_offset(), 0);
    assert_eq!(preedit_cells("한"), 2);
    assert_eq!(preedit_cells("a"), 1);
}

#[test]
fn selected_rows_are_joined_without_their_trailing_space() {
    let mut grid = TerminalGrid::new(4, 2);
    for c in "ab".chars() {
        grid.put_char(c);
    }
    grid.apply_control(13);
    grid.apply_control(10);
    for c in "cd".chars() {
        grid.put_char(c);
    }
    let all = TermSelection {
        start: Some((0, 0)),
        end: Some((1, 3)),
    };
    assert_eq!(extract_selection_text(&grid, &all, 2, 0), "ab\ncd");
}
