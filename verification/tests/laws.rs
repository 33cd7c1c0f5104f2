use file_explorer::browser::git_actions::{GitReply, GitTask};
use file_explorer::browser::pane::{cycle_tab_index, PaneState, TabCycleDirection};
use file_explorer::browser::panes::{Browser, PaneSide};
use file_explorer::browser::session_sync::normalized_split_ratio;
use file_explorer::browser::transfer::{paste_paths, ClipboardKind, PasteReport};
use file_explorer::git::graph::{build_graph, CommitRecord, MAX_COMMITS};
use file_explorer::model::fs::{sort_entries, FileEntry, FileKind, SortColumn, SortOrder};
use file_explorer::path::FsPath;
use file_explorer::path_list::push_all_unique;
use file_explorer::terminal::cell::{display_width, TerminalCell};
use file_explorer::terminal::grid::{repair_cells, TerminalGrid};
use file_explorer::terminal::performer::TermPerformer;
use file_explorer::ui::file_list::FileListState;
use file_explorer::ui::git_panel::GitPanelState;

fn p(name: &str) -> FsPath {
    FsPath::new(name)
}

/// Numbers that look random and are the same in every run.
struct Numbers(u64);

impl Numbers {
    fn below(&mut self, limit: u64) -> u64 {
        self.0 = self
            .0
            .wrapping_mul(6_364_136_223_846_793_005)
            .wrapping_add(1_442_695_040_888_963_407);
        (self.0 >> 33) % limit
    }
}

#[test]
fn cycling_there_and_back_is_where_it_was() {
    for count in 1..6 {
        for active in 0..count {
            let next = cycle_tab_index(active, count, TabCycleDirection::Next);
            assert!(next < count);
            assert_eq!(cycle_tab_index(next, count, TabCycleDirection::Previous), active);
        }
    }
}

#[test]
fn switching_the_focus_twice_changes_nothing() {
    let pane = || PaneState::new(p("/"), &Ok(Vec::new()), false);
    let mut browser = Browser {
        left: pane(),
        right: Some(pane()),
        focus: PaneSide::Right,
    };
    browser.switch_focus();
    assert_eq!(browser.focus, PaneSide::Left);
    browser.switch_focus();
    assert_eq!(browser.focus, PaneSide::Right);
}

#[test]
fn a_panel_that_is_moved_twice_stays() {
    let reply = || GitReply {
        result: Ok(String::new()),
        diff: None,
        config_global: Vec::new(),
        config_local: Vec::new(),
    };
    let mut state = GitPanelState::default();
    let once = state.handle_git_actions(vec![(GitTask::TogglePosition, reply())]);
    assert!(once.moves_panel);
    let twice = state.handle_git_actions(vec![
        (GitTask::TogglePosition, reply()),
        (GitTask::TogglePosition, reply()),
    ]);
    assert!(!twice.moves_panel);
}

#[test]
fn a_normal_ratio_is_left_alone() {
    let mut numbers = Numbers(7);
    for _ in 0..5000 {
        let bits = numbers.below(1 << 32) as u32;
        let once = normalized_split_ratio(bits);
        assert_eq!(normalized_split_ratio(once), once);
        let value = f32::from_bits(bits);
        let expected = if value.is_finite() {
            value.clamp(0.15, 0.85)
        } else {
            0.5
        };
        assert_eq!(f32::from_bits(once), expected);
    }
}

#[test]
fn every_pasted_source_succeeds_or_fails() {
    let mut numbers = Numbers(3);
    for _ in 0..200 {
        let count = numbers.below(6) as usize;
        let paths: Vec<FsPath> = (0..count)
            .map(|i| p(&format!("/s{}/f{i}", numbers.below(2))))
            .collect();
        let reports: Vec<PasteReport> = (0..count)
            .map(|_| PasteReport {
                dest_existed: numbers.below(3) == 0,
                result: if numbers.below(2) == 0 {
                    Ok(())
                } else {
                    Err("failed".to_string())
                },
                dest_exists: numbers.below(2) == 0,
            })
            .collect();
        let outcome = paste_paths(&paths, ClipboardKind::Cut, &p("/s0"), &reports);
        assert_eq!(outcome.succeeded_sources.len() + outcome.failed.len(), count);
        assert_eq!(outcome.moved_sources, outcome.succeeded_sources);
    }
}

#[test]
fn edges_end_in_the_lanes_of_the_row() {
    let mut numbers = Numbers(11);
    for _ in 0..100 {
        let count = 1 + numbers.below(12);
        let commits: Vec<CommitRecord> = (0..count)
            .map(|i| {
                let below = count - i - 1;
                let mut parents = Vec::new();
                for _ in 0..numbers.below(4) {
                    if below > 0 {
                        parents.push(format!("c{}", i + 1 + numbers.below(below)));
                    }
                }
                CommitRecord {
                    oid: format!("c{i}"),
                    parents,
                    message: None,
                    author: None,
                    time: 0,
                }
            })
            .collect();
        let rows = build_graph(&commits, &Vec::new(), &None, MAX_COMMITS);
        assert_eq!(rows.len(), commits.len());
        for row in &rows {
            assert!(row.lane < row.lane_count);
            for (from, to) in &row.lower_edges {
                assert!(*from < row.lane_count && *to < row.lane_count);
            }
        }
    }
}

#[test]
fn sorting_again_changes_nothing() {
    let mut numbers = Numbers(5);
    let mut list: Vec<FileEntry> = (0..40)
        .map(|i| FileEntry {
            name: format!("{}{i}", ["b", "A", "a", "Ä"][numbers.below(4) as usize]),
            path: p(&format!("/{i}")),
            kind: [FileKind::File, FileKind::Directory, FileKind::Symlink]
                [numbers.below(3) as usize],
            size: Some(numbers.below(4)),
            modified: None,
            tags: Vec::new(),
        })
        .collect();
    for column in [SortColumn::Name, SortColumn::Size, SortColumn::Kind, SortColumn::Modified] {
        for order in [SortOrder::Ascending, SortOrder::Descending] {
            sort_entries(&mut list, column, order);
            let once: Vec<FsPath> = list.iter().map(|e| e.path.clone()).collect();
            sort_entries(&mut list, column, order);
            let twice: Vec<FsPath> = list.iter().map(|e| e.path.clone()).collect();
            assert_eq!(once, twice);
            assert_eq!(list.len(), 40);
            let directories = list.iter().filter(|e| e.kind == FileKind::Directory).count();
            assert!(list[..directories].iter().all(|e| e.kind == FileKind::Directory));
        }
    }
}

#[test]
fn no_path_is_selected_twice() {
    let mut numbers = Numbers(23);
    let visible: Vec<FsPath> = (0..8).map(|i| p(&format!("/{i}"))).collect();
    let mut state = FileListState::default();
    for _ in 0..2000 {
        let path = visible[numbers.below(8) as usize].clone();
        match numbers.below(4) {
            0 => state.move_primary(&visible, 1, numbers.below(2) == 0),
            1 => state.move_primary(&visible, -1, numbers.below(2) == 0),
            _ => {
                let command = numbers.below(2) == 0;
                state.update_from_click(&visible, &path, command, numbers.below(2) == 0)
            }
        }
        let mut once = Vec::new();
        push_all_unique(&mut once, &state.selected);
        assert_eq!(once, state.selected);
    }
}

fn tidy(row: &[TerminalCell]) -> bool {
    (0..row.len()).all(|col| match row[col].width {
        0 => col > 0 && row[col - 1].width == 2,
        1 => true,
        2 => col + 1 < row.len() && row[col + 1].width == 0,
        _ => false,
    })
}

#[test]
fn the_screen_stays_well_formed_whatever_is_written() {
    let mut numbers = Numbers(17);
    for _ in 0..60 {
        let cols = 1 + numbers.below(9) as usize;
        let rows = 1 + numbers.below(5) as usize;
        let mut grid = TerminalGrid::new(cols, rows);
        for _ in 0..120 {
            let mut performer = TermPerformer { grid: &mut grid };
            match numbers.below(8) {
                0..=3 => {
                    let glyphs = ['a', '한', '\u{301}', 'ㄱ', ' ', '\u{1161}', '😀'];
                    performer.print(glyphs[numbers.below(7) as usize]);
                }
                4 => performer.execute([8u8, 9, 10, 13, 7][numbers.below(5) as usize]),
                5 | 6 => {
                    let actions = "ABCDGHJKLMP@dfemrX";
                    let action = actions
                        .chars()
                        .nth(numbers.below(18) as usize)
                        .unwrap_or('A');
                    let params: Vec<Vec<u16>> = (0..numbers.below(3))
                        .map(|_| vec![numbers.below(7) as u16])
                        .collect();
                    performer.csi_dispatch(&params, action);
                }
                _ => {
                    let cols = 1 + numbers.below(9) as usize;
                    grid.resize(cols, 1 + numbers.below(5) as usize);
                }
            }
            assert_eq!(grid.cells.len(), grid.rows);
            assert!(grid.cells.iter().all(|row| row.len() == grid.cols && tidy(row)));
            assert!(grid.scrollback.iter().all(|row| row.len() == grid.cols && tidy(row)));
            assert!(grid.cursor_row < grid.rows && grid.cursor_col <= grid.cols);
        }
    }
}

#[test]
fn printing_and_erasing_move_by_columns() {
    let mut grid = TerminalGrid::new(20, 2);
    for c in ['a', '한', 'b', '글'] {
        let before = grid.cursor_col;
        grid.put_char(c);
        assert_eq!(grid.cursor_col, before + display_width(c));
    }
    for left in (0..6).rev() {
        grid.backspace_cursor();
        assert_eq!(grid.cursor_col, left);
    }
    grid.backspace_cursor();
    assert_eq!(grid.cursor_col, 0);
}

#[test]
fn a_repaired_row_needs_no_repair() {
    let mut numbers = Numbers(31);
    let blank = TerminalCell::default();
    for _ in 0..300 {
        let mut row: Vec<TerminalCell> = (0..numbers.below(8))
            .map(|_| {
                let mut cell = TerminalCell::default();
                cell.width = numbers.below(4) as u8;
                cell
            })
            .collect();
        repair_cells(&mut row, &blank);
        assert!(tidy(&row));
        let once: Vec<u8> = row.iter().map(|cell| cell.width).collect();
        repair_cells(&mut row, &blank);
        let twice: Vec<u8> = row.iter().map(|cell| cell.width).collect();
        assert_eq!(once, twice);
    }
}
