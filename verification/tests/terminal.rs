use file_explorer::path::FsPath;
use file_explorer::terminal::cell::{display_width, limit_columns, TermColor, TerminalCell};
use file_explorer::terminal::grid::TerminalGrid;
use file_explorer::terminal::osc7::{hex_value, parse_osc7_path, percent_decode};
use file_explorer::terminal::performer::TermPerformer;
use file_explorer::terminal::stream::{EscapeParser, TermEvent};

fn feed(grid: &mut TerminalGrid, text: &str) {
    grid.feed_all(&mut EscapeParser::new(), text.as_bytes());
}

fn assert_no_orphan_continuations(grid: &TerminalGrid, row: usize) {
    for col in 0..grid.cols {
        let cell = &grid.cells[row][col];
        if cell.width == 0 {
            assert!(col > 0, "continuation cannot be the first cell");
            assert_eq!(grid.cells[row][col - 1].width, 2);
        }
        if cell.width == 2 {
            assert!(col + 1 < grid.cols, "wide lead must fit in the row");
            assert_eq!(grid.cells[row][col + 1].width, 0);
        }
    }
}

fn row_text(grid: &TerminalGrid, row: usize) -> String {
    grid.cells[row]
        .iter()
        .filter(|cell| !cell.is_continuation())
        .fold(String::new(), |mut text, cell| {
            text.push_str(&cell.glyph_text());
            text
        })
        .trim_end()
        .to_string()
}

#[test]
fn osc7_reports_and_drains_a_cwd_change() {
    let mut grid = TerminalGrid::new(80, 24);

    feed(&mut grid, "\x1b]7;file://localhost/tmp\x07");

    assert_eq!(grid.take_cwd_update(), Some(FsPath::new("/tmp")));
    assert_eq!(grid.take_cwd_update(), None);
}

#[test]
fn osc7_decodes_spaces_apostrophes_and_utf8_paths() {
    assert_eq!(
        parse_osc7_path("file://localhost/tmp/Jerry%27s%20%ED%95%9C%EA%B8%80"),
        Some(FsPath::new("/tmp/Jerry's 한글")),
    );
}

#[test]
fn ascii_advances_one_cell() {
    let mut grid = TerminalGrid::new(8, 2);
    grid.put_char('A');

    assert_eq!(grid.cursor_col, 1);
    assert_eq!(grid.cells[0][0].ch, 'A');
    assert_eq!(grid.cells[0][0].width, 1);
}

#[test]
fn precomposed_hangul_uses_two_cells() {
    let mut grid = TerminalGrid::new(8, 2);
    grid.put_char('한');

    assert_eq!(grid.cursor_col, 2);
    assert_eq!(grid.cells[0][0].ch, '한');
    assert_eq!(grid.cells[0][0].width, 2);
    assert_eq!(grid.cells[0][1].width, 0);
}

#[test]
fn nfd_hangul_composes_without_extra_columns() {
    let mut grid = TerminalGrid::new(8, 2);
    for c in "\u{1112}\u{1161}\u{11ab}".chars() {
        grid.put_char(c);
    }

    assert_eq!(grid.cursor_col, 2);
    assert_eq!(grid.cells[0][0].ch, '한');
    assert_eq!(grid.cells[0][0].width, 2);
    assert_eq!(grid.cells[0][1].width, 0);
}

#[test]
fn combining_marks_do_not_consume_a_column() {
    let mut grid = TerminalGrid::new(8, 2);
    grid.put_char('e');
    grid.put_char('\u{301}');
    grid.put_char('x');
    grid.put_char('\u{20dd}');

    assert_eq!(grid.cursor_col, 2);
    assert_eq!(grid.cells[0][0].ch, 'é');
    assert_eq!(grid.cells[0][1].ch, 'x');
    assert_eq!(grid.cells[0][1].combining, "\u{20dd}");
}

#[test]
fn wide_glyph_wraps_before_the_final_column() {
    let mut grid = TerminalGrid::new(4, 2);
    for c in "abc한".chars() {
        grid.put_char(c);
    }

    assert_eq!((grid.cursor_row, grid.cursor_col), (1, 2));
    assert_eq!(grid.cells[0][3].ch, ' ');
    assert_eq!(grid.cells[1][0].ch, '한');
    assert_eq!(grid.cells[1][0].width, 2);
    assert_eq!(grid.cells[1][1].width, 0);
}

#[test]
fn backspace_moves_physical_columns_and_edits_repair_wide_boundaries() {
    let mut grid = TerminalGrid::new(8, 2);
    grid.put_char('한');
    grid.put_char('A');

    grid.backspace_cursor();
    assert_eq!(grid.cursor_col, 2);
    grid.backspace_cursor();
    assert_eq!(grid.cursor_col, 1);

    grid.delete_chars(1);
    assert_eq!(grid.cells[0][0].ch, 'A');
    assert_no_orphan_continuations(&grid, 0);

    let mut insert_grid = TerminalGrid::new(8, 2);
    insert_grid.put_char('한');
    insert_grid.set_cursor_col(1);
    insert_grid.insert_chars(1);
    assert_eq!(insert_grid.cells[0][0].ch, ' ');
    assert_eq!(insert_grid.cells[0][1].ch, '한');
    assert_no_orphan_continuations(&insert_grid, 0);
}

#[test]
fn zsh_style_wide_erase_does_not_enter_the_prompt() {
    let mut grid = TerminalGrid::new(24, 2);
    let prompt_end = "/tmp/project $ ".chars().count();

    // Line editors erase a two-column glyph using physical-column cursor
    // controls. Each Backspace must move exactly one column, even when it
    // temporarily lands on a continuation cell.
    feed(&mut grid, "/tmp/project $ 한\u{8}\u{8}  \u{8}\u{8}");

    assert_eq!(grid.cursor_col, prompt_end);
    assert_eq!(row_text(&grid, 0), "/tmp/project $");
    assert_no_orphan_continuations(&grid, 0);
}

#[test]
fn resize_removes_a_wide_glyph_split_by_the_new_edge() {
    let mut grid = TerminalGrid::new(3, 2);
    grid.put_char('A');
    grid.put_char('한');
    grid.resize(2, 2);

    assert_eq!(grid.cells[0][0].ch, 'A');
    assert_eq!(grid.cells[0][1].ch, ' ');
    assert_no_orphan_continuations(&grid, 0);
}

#[test]
fn erase_expands_across_a_wide_glyph() {
    let mut grid = TerminalGrid::new(6, 2);
    grid.put_char('한');
    grid.put_char('A');

    grid.erase_range(0, 1, 2);

    assert_eq!(grid.cells[0][0].ch, ' ');
    assert_eq!(grid.cells[0][1].ch, ' ');
    assert_eq!(grid.cells[0][2].ch, 'A');
    assert_no_orphan_continuations(&grid, 0);
}

#[test]
fn scrollback_resize_repairs_a_wide_glyph_at_the_edge() {
    let mut grid = TerminalGrid::new(3, 1);
    for c in "A한X".chars() {
        grid.put_char(c);
    }
    assert_eq!(grid.scrollback.len(), 1);

    grid.resize(2, 1);

    assert_eq!(grid.scrollback[0][0].ch, 'A');
    assert_eq!(grid.scrollback[0][1].ch, ' ');
    for col in 0..grid.cols {
        assert_ne!(grid.scrollback[0][col].width, 0);
    }
}

#[test]
fn mixed_ascii_and_hangul_cursor_matches_terminal_columns() {
    let mut grid = TerminalGrid::new(10, 2);
    for c in "A한B".chars() {
        grid.put_char(c);
    }

    assert_eq!(grid.cursor_col, 4);
    assert_eq!(grid.cells[0][0].ch, 'A');
    assert_eq!(grid.cells[0][1].ch, '한');
    assert_eq!(grid.cells[0][2].width, 0);
    assert_eq!(grid.cells[0][3].ch, 'B');
}

#[test]
fn scrolled_lines_go_to_the_scrollback_in_order() {
    let mut grid = TerminalGrid::new(4, 2);
    feed(&mut grid, "one\r\ntwo\r\nsix\r\nten");
    assert_eq!(grid.scrollback.len(), 2);
    assert_eq!(grid.scrollback[0][0].ch, 'o');
    assert_eq!(grid.scrollback[1][0].ch, 't');
    assert_eq!(row_text(&grid, 0), "six");
    assert_eq!(row_text(&grid, 1), "ten");
}

#[test]
fn cursor_positioning_and_erasing_follow_the_sequences() {
    let mut grid = TerminalGrid::new(6, 3);
    feed(&mut grid, "abcdef\x1b[2;3Hxyz\x1b[1;1H\x1b[K");
    assert_eq!(row_text(&grid, 0), "");
    assert_eq!(row_text(&grid, 1), "  xyz");
    assert_eq!((grid.cursor_row, grid.cursor_col), (0, 0));
    feed(&mut grid, "\x1b[2J");
    assert_eq!(row_text(&grid, 1), "");
}

#[test]
fn inserted_and_deleted_lines_stay_in_the_scroll_region() {
    let mut grid = TerminalGrid::new(3, 4);
    feed(&mut grid, "a\r\nb\r\nc\r\nd\x1b[2;3r\x1b[2;1H\x1b[L");
    assert_eq!(row_text(&grid, 0), "a");
    assert_eq!(row_text(&grid, 1), "");
    assert_eq!(row_text(&grid, 2), "b");
    assert_eq!(row_text(&grid, 3), "d");
    feed(&mut grid, "\x1b[2;1H\x1b[M");
    assert_eq!(row_text(&grid, 1), "b");
    assert_eq!(row_text(&grid, 2), "");
    assert_eq!(row_text(&grid, 3), "d");
}

#[test]
fn renditions_are_kept_with_the_cells() {
    let mut grid = TerminalGrid::new(8, 1);
    feed(&mut grid, "\x1b[1;3;4;31;48;5;200mA\x1b[38;2;1;2;3mB\x1b[0mC");
    let a: &TerminalCell = &grid.cells[0][0];
    assert!(a.bold && a.italic && a.underline);
    assert_eq!(a.fg, TermColor::Ansi(1));
    assert_eq!(a.bg, TermColor::Indexed(200));
    assert_eq!(grid.cells[0][1].fg, TermColor::Rgb(1, 2, 3));
    let c: &TerminalCell = &grid.cells[0][2];
    assert!(!c.bold && !c.italic && !c.underline);
    assert_eq!(c.fg, TermColor::Default);
}

#[test]
fn the_same_directory_is_reported_once() {
    let mut grid = TerminalGrid::new(8, 1);
    feed(&mut grid, "\x1b]7;file://host/a%20b\x07");
    assert_eq!(grid.take_cwd_update(), Some(FsPath::new("/a b")));
    feed(&mut grid, "\x1b]7;file://host/a%20b\x07");
    assert_eq!(grid.take_cwd_update(), None);
    feed(&mut grid, "\x1b]0;title\x07");
    assert_eq!(grid.title, "title");
}

#[test]
fn percent_decoding_and_hexadecimal_digits() {
    assert_eq!(hex_value(48), Some(0));
    assert_eq!(hex_value(97), Some(10));
    assert_eq!(hex_value(70), Some(15));
    assert_eq!(hex_value(103), None);
    assert_eq!(percent_decode("a%2Fb".as_bytes()), "a/b".as_bytes().to_vec());
    assert_eq!(percent_decode("100%".as_bytes()), "100%".as_bytes().to_vec());
    assert_eq!(parse_osc7_path("http://localhost/tmp"), None);
}

#[test]
fn display_widths_are_zero_one_or_two() {
    assert_eq!(display_width('a'), 1);
    assert_eq!(display_width('한'), 2);
    assert_eq!(display_width('\u{301}'), 0);
    assert_eq!(limit_columns(Some(7)), 2);
    assert_eq!(limit_columns(None), 0);
}

#[test]
fn erasing_in_a_line_takes_the_side_that_is_asked_for() {
    let mut grid = TerminalGrid::new(5, 1);
    feed(&mut grid, "abcde\x1b[1;3H");
    grid.erase_in_line(1);
    assert_eq!(row_text(&grid, 0), "   de");
    grid.erase_in_line(2);
    assert_eq!(row_text(&grid, 0), "");
}

#[test]
fn resizing_keeps_the_cursor_on_the_screen() {
    let mut grid = TerminalGrid::new(10, 5);
    feed(&mut grid, "\x1b[5;10H");
    grid.resize(4, 2);
    assert_eq!((grid.cols, grid.rows), (4, 2));
    assert!(grid.cursor_row < 2 && grid.cursor_col < 4);
    assert_eq!(grid.cells.len(), 2);
    assert_eq!(grid.cells[0].len(), 4);
}

#[test]
fn a_grid_without_rows_refuses_what_would_need_the_next_row() {
    let mut narrow = TerminalGrid::new(0, 0);
    let mut performer = TermPerformer { grid: &mut narrow };
    assert!(!performer.try_print('a'));
    assert!(performer.try_print('\u{301}'));

    let mut flat = TerminalGrid::new(3, 0);
    flat.set_cursor_col(2);
    let mut performer = TermPerformer { grid: &mut flat };
    assert!(!performer.try_print('한'));
    assert!(performer.try_print('a'));
    assert_eq!(flat.cursor_col, 2);

    let mut grid = TerminalGrid::new(3, 1);
    assert!(TermPerformer { grid: &mut grid }.try_print('한'));
    assert_eq!(row_text(&grid, 0), "한");
}

#[test]
fn bytes_of_a_shell_reach_the_screen_in_any_pieces() {
    let bytes = "ab\x1b[31m한\x1b[0m\r\n\x1b]2;title\x07\x1b]7;file://host/tmp/a%20b\x07".as_bytes();
    let mut whole = TerminalGrid::new(10, 3);
    whole.feed_all(&mut EscapeParser::new(), bytes);
    assert_eq!(row_text(&whole, 0), "ab한");
    assert_eq!(whole.cells[0][2].fg, TermColor::Ansi(1));
    assert_eq!((whole.cursor_row, whole.cursor_col), (1, 0));
    assert_eq!(whole.title, "title");
    assert_eq!(whole.take_cwd_update(), Some(FsPath::new("/tmp/a b")));
    for cut in 0..bytes.len() {
        let mut grid = TerminalGrid::new(10, 3);
        let mut parser = EscapeParser::new();
        grid.feed_all(&mut parser, &bytes[..cut]);
        for byte in &bytes[cut..] {
            grid.feed(&mut parser, *byte);
        }
        assert_eq!(row_text(&grid, 0), "ab한");
        assert_eq!(grid.cells[0][2].fg, TermColor::Ansi(1));
        assert_eq!(grid.title, "title");
        assert_eq!(grid.cwd, Some(FsPath::new("/tmp/a b")));
    }
}

#[test]
fn what_a_shell_asks_for_is_shown_one_after_the_other() {
    let mut grid = TerminalGrid::new(4, 2);
    grid.show_all(&vec![
        TermEvent::Print('a'),
        TermEvent::Print('b'),
        TermEvent::Execute(b'\n'),
        TermEvent::Csi(vec![vec![1], vec![3]], 'H'),
        TermEvent::Print('c'),
        TermEvent::Csi(vec![vec![]], 'J'),
        TermEvent::Osc(vec![b"2".to_vec(), b"name".to_vec()]),
    ]);
    assert_eq!(row_text(&grid, 0), "abc");
    assert_eq!(grid.title, "name");

    let mut flat = TerminalGrid::new(4, 0);
    flat.show_all(&vec![
        TermEvent::Execute(b'\n'),
        TermEvent::Csi(vec![vec![2]], 'K'),
        TermEvent::Csi(vec![vec![1]], 'M'),
        TermEvent::Csi(vec![vec![1]], 'm'),
        TermEvent::Execute(b'\t'),
    ]);
    assert!(flat.cells.is_empty());
    assert_eq!(flat.cursor_col, 3);
    assert!(flat.cur_bold);
}
