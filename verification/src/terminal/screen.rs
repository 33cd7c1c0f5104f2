//! The mathematical model of the terminal screen: what every operation makes of it, and what
//! holds of it whatever is sent.

use vstd::prelude::*;

use crate::terminal::cell;
use crate::terminal::cell::{CellView, Pen, TermColor};

verus! {

/// A screen: its size, its rows of cells, the cursor, the lines that scrolled out, and the
/// state that control sequences change.
#[verifier::ext_equal]
pub struct Screen {
    pub cols: int,
    pub rows: int,
    pub cells: Seq<Seq<CellView>>,
    pub cursor_row: int,
    pub cursor_col: int,
    pub scrollback: Seq<Seq<CellView>>,
    pub scroll_offset: int,
    pub title: Seq<char>,
    pub cwd: Option<Seq<u8>>,
    pub cwd_changed: bool,
    pub pen: Pen,
    pub scroll_top: int,
    pub scroll_bottom: int,
}

pub open spec fn min(a: int, b: int) -> int {
    if a <= b {
        a
    } else {
        b
    }
}

pub open spec fn max(a: int, b: int) -> int {
    if a >= b {
        a
    } else {
        b
    }
}

/// The last index of a range of this length, and 0 for an empty one.
pub open spec fn last_index(n: int) -> int {
    if n > 0 {
        n - 1
    } else {
        0
    }
}

/// A row of empty cells.
pub open spec fn blank_row(n: int, pen: Pen) -> Seq<CellView> {
    Seq::new(n as nat, |i: int| CellView::blank(pen))
}

/// Whether every wide glyph of a row has both its columns and every second column belongs to one.
#[verifier::opaque]
pub open spec fn tidy_row(s: Seq<CellView>) -> bool {
    forall|i: int|
        0 <= i < s.len() ==> {
            &&& 0 <= (#[trigger] s[i]).width <= 2
            &&& s[i].width == 2 ==> i + 1 < s.len() && s[i + 1] == CellView::filler(s[i].pen)
            &&& s[i].width == 0 ==> i > 0 && s[i - 1].width == 2
        }
}

/// What every operation keeps: the rows have the size of the screen and are tidy, the cursor is
/// on the screen or just behind its last column, and the scroll region is on the screen.
pub open spec fn well_formed(g: Screen) -> bool {
    &&& g.cols >= 0
    &&& g.rows >= 0
    &&& g.cells.len() == g.rows
    &&& forall|r: int|
        0 <= r < g.rows ==> (#[trigger] g.cells[r]).len() == g.cols && tidy_row(g.cells[r])
    &&& forall|r: int|
        0 <= r < g.scrollback.len() ==> (#[trigger] g.scrollback[r]).len() == g.cols && tidy_row(
            g.scrollback[r],
        )
    &&& 0 <= g.cursor_row <= last_index(g.rows)
    &&& 0 <= g.cursor_col <= g.cols
    &&& 0 <= g.scroll_top <= g.scroll_bottom <= last_index(g.rows)
}

/// A fresh screen.
pub open spec fn fresh_screen(cols: int, rows: int) -> Screen {
    Screen {
        cols,
        rows,
        cells: Seq::new(rows as nat, |r: int| blank_row(cols, Pen::plain())),
        cursor_row: 0,
        cursor_col: 0,
        scrollback: Seq::empty(),
        scroll_offset: 0,
        title: Seq::empty(),
        cwd: None,
        cwd_changed: false,
        pen: Pen::plain(),
        scroll_top: 0,
        scroll_bottom: last_index(rows),
    }
}

/// The column where the glyph that covers `col` starts.
pub open spec fn lead_col(row: Seq<CellView>, col: int) -> int {
    if row[col].width == 0 {
        col - 1
    } else {
        col
    }
}

/// A row whose glyph at `col` has been replaced by empty cells, in both its columns if it is wide.
pub open spec fn clear_glyph(row: Seq<CellView>, col: int, pen: Pen) -> Seq<CellView> {
    let lead = lead_col(row, col);
    if row[lead].width == 2 {
        row.update(lead, CellView::blank(pen)).update(lead + 1, CellView::blank(pen))
    } else {
        row.update(lead, CellView::blank(pen))
    }
}

/// A row into which a glyph of one or two columns has been written, over whatever it covers.
pub open spec fn write_glyph(row: Seq<CellView>, col: int, c: char, width: int, pen: Pen) -> Seq<
    CellView,
> {
    let glyph = CellView { ch: c, combining: Seq::empty(), width, pen };
    if width == 2 {
        clear_glyph(clear_glyph(row, col, pen), col + 1, pen).update(col, glyph).update(
            col + 1,
            CellView::filler(pen),
        )
    } else {
        clear_glyph(row, col, pen).update(col, glyph)
    }
}

/// The first `n` columns of a row; a wide glyph that loses its second column becomes empty.
pub open spec fn clip_row(row: Seq<CellView>, n: int, pen: Pen) -> Seq<CellView> {
    if 0 < n < row.len() && row[n - 1].width == 2 {
        row.take(n).update(n - 1, CellView::blank(pen))
    } else {
        row.take(n)
    }
}

/// A row brought to `n` columns: cut, or filled up with empty cells of the given pen.
pub open spec fn resize_row(row: Seq<CellView>, n: int, fill: Pen, pen: Pen) -> Seq<CellView> {
    if n <= row.len() {
        clip_row(row, n, pen)
    } else {
        row + blank_row(n - row.len(), fill)
    }
}

/// Sets every cell right, from the left: a wide glyph gets its second column or, where there is
/// no room, is emptied, and a second column without its first is emptied.
pub open spec fn repair(s: Seq<CellView>, pen: Pen) -> Seq<CellView>
    decreases s.len(),
{
    if s.len() == 0 {
        Seq::empty()
    } else if s[0].width == 2 {
        if s.len() >= 2 {
            seq![s[0], CellView::filler(s[0].pen)] + repair(s.skip(2), pen)
        } else {
            seq![CellView::blank(pen)]
        }
    } else if s[0].width == 0 {
        seq![CellView::blank(pen)] + repair(s.skip(1), pen)
    } else {
        seq![CellView { width: 1, ..s[0] }] + repair(s.skip(1), pen)
    }
}

/// The screen brought to another size. What fits is kept; new room is empty.
pub open spec fn resized(g: Screen, cols: int, rows: int) -> Screen {
    Screen {
        cols,
        rows,
        cells: Seq::new(
            rows as nat,
            |r: int|
                if r < g.rows {
                    resize_row(g.cells[r], cols, Pen::plain(), g.pen)
                } else {
                    blank_row(cols, Pen::plain())
                },
        ),
        scrollback: g.scrollback.map_values(
            |line: Seq<CellView>| resize_row(line, cols, g.pen, g.pen),
        ),
        cursor_row: min(g.cursor_row, last_index(rows)),
        cursor_col: min(g.cursor_col, last_index(cols)),
        scroll_top: 0,
        scroll_bottom: last_index(rows),
        ..g
    }
}

/// The cursor goes one row down; at the bottom of the scroll region the region scrolls up, and
/// its top line goes to the scrollback.
pub open spec fn advanced(g: Screen) -> Screen {
    if g.cursor_row >= g.scroll_bottom {
        Screen {
            scrollback: g.scrollback.push(g.cells[g.scroll_top]),
            cells: g.cells.remove(g.scroll_top).insert(g.scroll_bottom, blank_row(g.cols, g.pen)),
            ..g
        }
    } else {
        Screen { cursor_row: g.cursor_row + 1, ..g }
    }
}

/// Whether there is a glyph before the cursor in its row.
pub open spec fn has_previous(g: Screen) -> bool {
    g.cursor_row < g.rows && g.cols > 0 && g.cursor_col > 0
}

/// The column of the glyph before the cursor.
pub open spec fn previous_col(g: Screen) -> int {
    lead_col(g.cells[g.cursor_row], min(g.cursor_col, g.cols) - 1)
}

/// The screen with one row replaced.
pub open spec fn with_row(g: Screen, r: int, row: Seq<CellView>) -> Screen {
    Screen { cells: g.cells.update(r, row), ..g }
}

/// The screen after a scalar has joined the glyph before the cursor, where it does.
pub open spec fn attached(g: Screen, c: char) -> Option<Screen> {
    if !has_previous(g) {
        None
    } else {
        let row = g.cells[g.cursor_row];
        match row[previous_col(g)].absorb(c) {
            Some(cell) => Some(with_row(g, g.cursor_row, row.update(previous_col(g), cell))),
            None => None,
        }
    }
}

/// The columns that a glyph gets on a screen: on a screen of one column every glyph gets one.
pub open spec fn fitted_width(g: Screen, width: int) -> int {
    if g.cols == 1 {
        1
    } else {
        width
    }
}

/// Whether a glyph of this width goes to the next row first.
pub open spec fn wraps(g: Screen, width: int) -> bool {
    g.cursor_col >= g.cols || (fitted_width(g, width) == 2 && g.cursor_col + 2 > g.cols)
}

/// The screen after a glyph of `width` columns (1 or 2, or 0 for none) has been placed.
pub open spec fn placed(g: Screen, c: char, width: int) -> Screen {
    if width == 0 {
        g
    } else {
        let w = fitted_width(g, width);
        let h = if wraps(g, width) {
            advanced(Screen { cursor_col: 0, ..g })
        } else {
            g
        };
        if h.cursor_row >= h.rows || h.cursor_col >= h.cols {
            h
        } else {
            Screen {
                cursor_col: h.cursor_col + w,
                ..with_row(
                    h,
                    h.cursor_row,
                    write_glyph(h.cells[h.cursor_row], h.cursor_col, c, w, h.pen),
                )
            }
        }
    }
}

/// The screen after a character has been printed.
pub open spec fn printed(g: Screen, c: char) -> Screen {
    match attached(g, c) {
        Some(h) => h,
        None => placed(g, c, cell::glyph_width(c)),
    }
}

/// The cursor back to the first column of a wide glyph, where it stands on the second.
pub open spec fn snapped(g: Screen) -> Screen {
    if g.cursor_row < g.rows && g.cursor_col < g.cols
        && g.cells[g.cursor_row][g.cursor_col].width == 0 {
        Screen { cursor_col: g.cursor_col - 1, ..g }
    } else {
        g
    }
}

/// A row with the cells from `start` to `end` emptied, and with them every glyph that is partly
/// inside.
pub open spec fn erase_row(row: Seq<CellView>, start: int, end: int, pen: Pen) -> Seq<CellView> {
    let from = lead_col(row, start);
    let to = if end < row.len() && row[end].width == 0 {
        end + 1
    } else {
        end
    };
    Seq::new(
        row.len(),
        |i: int|
            if from <= i < to {
                CellView::blank(pen)
            } else {
                row[i]
            },
    )
}

/// The screen with a part of a row erased.
pub open spec fn erased(g: Screen, row: int, start: int, end: int) -> Screen {
    if row >= g.rows || start >= end || start >= g.cols {
        g
    } else {
        with_row(g, row, erase_row(g.cells[row], start, min(end, g.cols), g.pen))
    }
}

/// The screen with the glyphs on `count` columns at the cursor taken out; what stands to the
/// right moves up and the end of the row is empty.
pub open spec fn chars_deleted(g: Screen, count: int) -> Screen {
    if g.cursor_row >= g.rows || g.cursor_col >= g.cols {
        g
    } else {
        let h = snapped(g);
        let row = h.cells[h.cursor_row];
        let stop = min(h.cursor_col + count, h.cols);
        let end = if stop < h.cols && row[stop].width == 0 {
            stop + 1
        } else {
            stop
        };
        with_row(
            h,
            h.cursor_row,
            row.take(h.cursor_col) + row.skip(end) + blank_row(end - h.cursor_col, h.pen),
        )
    }
}

/// The screen with `count` empty cells put in at the cursor; what stands there moves to the right
/// and what leaves the row is lost.
pub open spec fn chars_inserted(g: Screen, count: int) -> Screen {
    if g.cursor_row >= g.rows || g.cursor_col >= g.cols {
        g
    } else {
        let h = snapped(g);
        let row = h.cells[h.cursor_row];
        with_row(
            h,
            h.cursor_row,
            clip_row(
                row.take(h.cursor_col) + blank_row(min(count, h.cols), h.pen) + row.skip(
                    h.cursor_col,
                ),
                h.cols,
                h.pen,
            ),
        )
    }
}

/// The screen with the rows from `from` to `to` emptied.
pub open spec fn rows_blanked(g: Screen, from: int, to: int) -> Screen {
    Screen {
        cells: Seq::new(
            g.cells.len(),
            |r: int|
                if from <= r < to {
                    blank_row(g.cols, g.pen)
                } else {
                    g.cells[r]
                },
        ),
        ..g
    }
}

/// Erase in display: 0 from the cursor to the end, 1 from the start to the cursor, 2 everything,
/// 3 everything and the scrollback.
pub open spec fn display_erased(g: Screen, mode: u16) -> Screen {
    if mode == 0 {
        rows_blanked(erased(g, g.cursor_row, g.cursor_col, g.cols), g.cursor_row + 1, g.rows)
    } else if mode == 1 {
        erased(
            rows_blanked(g, 0, g.cursor_row),
            g.cursor_row,
            0,
            min(g.cursor_col, last_index(g.cols)) + 1,
        )
    } else if mode == 2 {
        rows_blanked(g, 0, g.rows)
    } else if mode == 3 {
        Screen { scrollback: Seq::empty(), ..rows_blanked(g, 0, g.rows) }
    } else {
        g
    }
}

/// Erase in line: 0 from the cursor to the end, 1 from the start to the cursor, 2 the whole row.
pub open spec fn line_erased(g: Screen, mode: u16) -> Screen {
    if mode == 0 {
        erased(g, g.cursor_row, g.cursor_col, g.cols)
    } else if mode == 1 {
        erased(g, g.cursor_row, 0, min(g.cursor_col, last_index(g.cols)) + 1)
    } else if mode == 2 {
        with_row(g, g.cursor_row, blank_row(g.cols, g.pen))
    } else {
        g
    }
}

/// The rows after `n` empty lines have been put in at `at`; each pushes one out at `bottom`.
pub open spec fn lines_inserted(
    cells: Seq<Seq<CellView>>,
    at: int,
    bottom: int,
    empty: Seq<CellView>,
    n: int,
) -> Seq<Seq<CellView>>
    decreases n,
{
    if n <= 0 {
        cells
    } else {
        lines_inserted(cells, at, bottom, empty, n - 1).remove(bottom).insert(at, empty)
    }
}

/// The rows after `n` lines have been taken out at `at`; for each an empty one comes in at
/// `bottom`.
pub open spec fn lines_deleted(
    cells: Seq<Seq<CellView>>,
    at: int,
    bottom: int,
    empty: Seq<CellView>,
    n: int,
) -> Seq<Seq<CellView>>
    decreases n,
{
    if n <= 0 {
        cells
    } else {
        lines_deleted(cells, at, bottom, empty, n - 1).remove(at).insert(bottom, empty)
    }
}

/// The screen after a control character.
pub open spec fn executed(g: Screen, byte: u8) -> Screen {
    if byte == 13 {
        Screen { cursor_col: 0, ..g }
    } else if byte == 10 || byte == 11 || byte == 12 {
        advanced(g)
    } else if byte == 8 {
        Screen { cursor_col: last_index(min(g.cursor_col, g.cols)), ..g }
    } else if byte == 9 {
        Screen { cursor_col: min((g.cursor_col / 8 + 1) * 8, last_index(g.cols)), ..g }
    } else {
        g
    }
}

/// A colour given behind 38 or 48: `2;r;g;b` or `5;index`. With it comes how many parameters
/// it takes.
pub open spec fn extended_color(p: Seq<u16>, i: int) -> (Option<TermColor>, int) {
    if i + 1 < p.len() && p[i + 1] == 2 {
        if p.len() > i + 4 {
            (Some(TermColor::Rgb(p[i + 2] as u8, p[i + 3] as u8, p[i + 4] as u8)), 4)
        } else {
            (None, 0)
        }
    } else if i + 2 < p.len() && p[i + 1] == 5 {
        (Some(TermColor::Indexed(p[i + 2] as u8)), 2)
    } else {
        (None, 0)
    }
}

/// The pen after the rendition parameters from `i` on.
pub open spec fn rendition(pen: Pen, p: Seq<u16>, i: int) -> Pen
    decreases p.len() - i,
{
    if i < 0 || i >= p.len() {
        pen
    } else {
        let n = p[i];
        let ext = extended_color(p, i);
        if n == 0 {
            rendition(Pen::plain(), p, i + 1)
        } else if n == 1 {
            rendition(Pen { bold: true, ..pen }, p, i + 1)
        } else if n == 3 {
            rendition(Pen { italic: true, ..pen }, p, i + 1)
        } else if n == 4 {
            rendition(Pen { underline: true, ..pen }, p, i + 1)
        } else if n == 22 {
            rendition(Pen { bold: false, ..pen }, p, i + 1)
        } else if n == 23 {
            rendition(Pen { italic: false, ..pen }, p, i + 1)
        } else if n == 24 {
            rendition(Pen { underline: false, ..pen }, p, i + 1)
        } else if n == 39 {
            rendition(Pen { fg: TermColor::Default, ..pen }, p, i + 1)
        } else if n == 49 {
            rendition(Pen { bg: TermColor::Default, ..pen }, p, i + 1)
        } else if 30 <= n <= 37 {
            rendition(Pen { fg: TermColor::Ansi((n - 30) as u8), ..pen }, p, i + 1)
        } else if 40 <= n <= 47 {
            rendition(Pen { bg: TermColor::Ansi((n - 40) as u8), ..pen }, p, i + 1)
        } else if 90 <= n <= 97 {
            rendition(Pen { fg: TermColor::Ansi((n - 82) as u8), ..pen }, p, i + 1)
        } else if 100 <= n <= 107 {
            rendition(Pen { bg: TermColor::Ansi((n - 92) as u8), ..pen }, p, i + 1)
        } else if n == 38 && ext.0 is Some {
            rendition(Pen { fg: ext.0->0, ..pen }, p, i + 1 + ext.1)
        } else if n == 48 && ext.0 is Some {
            rendition(Pen { bg: ext.0->0, ..pen }, p, i + 1 + ext.1)
        } else {
            rendition(pen, p, i + 1)
        }
    }
}

/// The parameter at `i`, and 0 where it is missing.
pub open spec fn param(p: Seq<u16>, i: int) -> int {
    if i < p.len() {
        p[i] as int
    } else {
        0
    }
}

/// The screen with a new scroll region, where the region has at least two rows.
pub open spec fn region_set(g: Screen, p0: int, p1: int) -> Screen {
    let top = max(p0, 1) - 1;
    let bottom = if p1 == 0 {
        last_index(g.rows)
    } else {
        min(p1 - 1, last_index(g.rows))
    };
    if top < bottom {
        Screen { scroll_top: top, scroll_bottom: bottom, cursor_row: 0, cursor_col: 0, ..g }
    } else {
        Screen { cursor_row: 0, cursor_col: 0, ..g }
    }
}

/// Whether a control sequence can be carried out: those that replace lines need a row.
pub open spec fn csi_allowed(g: Screen, p: Seq<u16>, action: char) -> bool {
    g.rows > 0 || !(action == 'L' || action == 'M' || (action == 'K' && param(p, 0) == 2))
}

/// The screen after a control sequence with the parameters `p`.
pub open spec fn dispatched(g: Screen, p: Seq<u16>, action: char) -> Screen {
    let n = max(param(p, 0), 1);
    let m = max(param(p, 1), 1);
    if action == 'A' {
        Screen { cursor_row: max(max(g.cursor_row - n, 0), g.scroll_top), ..g }
    } else if action == 'B' || action == 'e' {
        Screen { cursor_row: min(g.cursor_row + n, g.scroll_bottom), ..g }
    } else if action == 'C' || action == 'a' {
        Screen { cursor_col: min(g.cursor_col + n, last_index(g.cols)), ..g }
    } else if action == 'D' {
        Screen { cursor_col: max(g.cursor_col - n, 0), ..g }
    } else if action == 'G' {
        Screen { cursor_col: min(n - 1, last_index(g.cols)), ..g }
    } else if action == 'd' {
        Screen { cursor_row: min(n - 1, last_index(g.rows)), ..g }
    } else if action == 'H' || action == 'f' {
        Screen {
            cursor_row: min(n - 1, last_index(g.rows)),
            cursor_col: min(m - 1, last_index(g.cols)),
            ..g
        }
    } else if action == 'J' {
        display_erased(g, param(p, 0) as u16)
    } else if action == 'K' {
        line_erased(g, param(p, 0) as u16)
    } else if action == 'L' {
        Screen {
            cells: lines_inserted(
                g.cells,
                g.cursor_row,
                g.scroll_bottom,
                blank_row(g.cols, g.pen),
                n,
            ),
            ..g
        }
    } else if action == 'M' {
        Screen {
            cells: lines_deleted(
                g.cells,
                g.cursor_row,
                g.scroll_bottom,
                blank_row(g.cols, g.pen),
                n,
            ),
            ..g
        }
    } else if action == 'P' {
        chars_deleted(g, n)
    } else if action == '@' {
        chars_inserted(g, n)
    } else if action == 'r' {
        region_set(g, param(p, 0), param(p, 1))
    } else if action == 'm' {
        if p.len() == 0 {
            Screen { pen: Pen::plain(), ..g }
        } else {
            Screen { pen: rendition(g.pen, p, 0), ..g }
        }
    } else {
        g
    }
}

/// What a tidy row says of one of its columns.
pub proof fn lemma_tidy_at(s: Seq<CellView>, i: int)
    requires
        tidy_row(s),
        0 <= i < s.len(),
    ensures
        0 <= s[i].width <= 2,
        s[i].width == 2 ==> i + 1 < s.len() && s[i + 1] == CellView::filler(s[i].pen),
        s[i].width == 0 ==> i > 0 && s[i - 1].width == 2,
{
    reveal(tidy_row);
}

/// Repairing a row keeps its length and leaves no wide glyph without its second column and no
/// second column without its glyph.
pub proof fn repaired_row_is_tidy(s: Seq<CellView>, pen: Pen)
    ensures
        repair(s, pen).len() == s.len(),
        tidy_row(repair(s, pen)),
    decreases s.len(),
{
    reveal(tidy_row);
    if s.len() == 0 {
    } else if s[0].width == 2 && s.len() >= 2 {
        repaired_row_is_tidy(s.skip(2), pen);
        let rest = repair(s.skip(2), pen);
        let r = repair(s, pen);
        assert(r[0] == s[0] && r[1] == CellView::filler(s[0].pen));
        assert forall|i: int| 0 <= i < r.len() implies {
            &&& 0 <= (#[trigger] r[i]).width <= 2
            &&& r[i].width == 2 ==> i + 1 < r.len() && r[i + 1] == CellView::filler(r[i].pen)
            &&& r[i].width == 0 ==> i > 0 && r[i - 1].width == 2
        } by {
            if i >= 2 {
                assert(r[i] == rest[i - 2]);
                if i + 1 < r.len() {
                    assert(r[i + 1] == rest[i - 1]);
                }
                if i > 2 {
                    assert(r[i - 1] == rest[i - 3]);
                }
            }
        }
    } else if s[0].width == 2 {
    } else {
        repaired_row_is_tidy(s.skip(1), pen);
        let rest = repair(s.skip(1), pen);
        let r = repair(s, pen);
        assert(r[0].width == 1);
        assert forall|i: int| 0 <= i < r.len() implies {
            &&& 0 <= (#[trigger] r[i]).width <= 2
            &&& r[i].width == 2 ==> i + 1 < r.len() && r[i + 1] == CellView::filler(r[i].pen)
            &&& r[i].width == 0 ==> i > 0 && r[i - 1].width == 2
        } by {
            if i >= 1 {
                assert(r[i] == rest[i - 1]);
                if i + 1 < r.len() {
                    assert(r[i + 1] == rest[i]);
                }
                if i > 1 {
                    assert(r[i - 1] == rest[i - 2]);
                }
            }
        }
    }
}

proof fn lemma_tidy_skip(s: Seq<CellView>, n: int)
    requires
        tidy_row(s),
        0 <= n <= s.len(),
        n < s.len() ==> s[n].width != 0,
    ensures
        tidy_row(s.skip(n)),
{
    reveal(tidy_row);
    let t = s.skip(n);
    assert forall|i: int| 0 <= i < t.len() implies {
        &&& 0 <= (#[trigger] t[i]).width <= 2
        &&& t[i].width == 2 ==> i + 1 < t.len() && t[i + 1] == CellView::filler(t[i].pen)
        &&& t[i].width == 0 ==> i > 0 && t[i - 1].width == 2
    } by {
        assert(t[i] == s[i + n]);
        if i + 1 < t.len() {
            assert(t[i + 1] == s[i + n + 1]);
        }
        if i > 0 {
            assert(t[i - 1] == s[i + n - 1]);
        }
    }
}

/// Repairing a row that is in order changes nothing.
pub proof fn tidy_row_needs_no_repair(s: Seq<CellView>, pen: Pen)
    requires
        tidy_row(s),
    ensures
        repair(s, pen) == s,
    decreases s.len(),
{
    reveal(tidy_row);
    if s.len() > 0 {
        if s[0].width == 2 {
            assert(s[1] == CellView::filler(s[0].pen));
            if s.len() > 2 {
                assert(s[2].width == 0 ==> s[1].width == 2);
            }
            lemma_tidy_skip(s, 2);
            tidy_row_needs_no_repair(s.skip(2), pen);
            assert(seq![s[0], CellView::filler(s[0].pen)] + s.skip(2) =~= s);
        } else {
            assert(s[0].width != 0);
            if s.len() > 1 {
                assert(s[1].width == 0 ==> s[0].width == 2);
            }
            lemma_tidy_skip(s, 1);
            tidy_row_needs_no_repair(s.skip(1), pen);
            assert(CellView { width: 1, ..s[0] } == s[0]);
            assert(seq![s[0]] + s.skip(1) =~= s);
        }
    }
}

/// Repairing a row twice is repairing it once.
pub proof fn repair_is_idempotent(s: Seq<CellView>, pen: Pen)
    ensures
        repair(repair(s, pen), pen) == repair(s, pen),
{
    repaired_row_is_tidy(s, pen);
    tidy_row_needs_no_repair(repair(s, pen), pen);
}

/// A tidy row that is cut off and repaired is the row clipped at the cut.
pub proof fn cut_and_repair_is_clip(s: Seq<CellView>, n: int, pen: Pen)
    requires
        tidy_row(s),
        0 <= n <= s.len(),
    ensures
        repair(s.take(n), pen) == clip_row(s, n, pen),
        tidy_row(clip_row(s, n, pen)),
    decreases s.len(),
{
    reveal(tidy_row);
    let t = s.take(n);
    if n == 0 {
        assert(t =~= Seq::empty());
    } else if s[0].width == 2 {
        assert(s[1] == CellView::filler(s[0].pen));
        if n == 1 {
            assert(clip_row(s, 1, pen) =~= seq![CellView::blank(pen)]);
        } else {
            if s.len() > 2 {
                assert(s[2].width == 0 ==> s[1].width == 2);
            }
            lemma_tidy_skip(s, 2);
            cut_and_repair_is_clip(s.skip(2), n - 2, pen);
            assert(t.skip(2) =~= s.skip(2).take(n - 2));
            assert(seq![s[0], CellView::filler(s[0].pen)] + clip_row(s.skip(2), n - 2, pen) =~= clip_row(
                s,
                n,
                pen,
            ));
        }
    } else {
        assert(s[0].width != 0);
        if s.len() > 1 {
            assert(s[1].width == 0 ==> s[0].width == 2);
        }
        lemma_tidy_skip(s, 1);
        cut_and_repair_is_clip(s.skip(1), n - 1, pen);
        assert(t.skip(1) =~= s.skip(1).take(n - 1));
        assert(CellView { width: 1, ..s[0] } == s[0]);
        assert(seq![s[0]] + clip_row(s.skip(1), n - 1, pen) =~= clip_row(s, n, pen));
    }
    repaired_row_is_tidy(t, pen);
}


/// A row of empty cells is tidy.
pub proof fn lemma_blank_row(n: int, pen: Pen)
    requires
        n >= 0,
    ensures
        blank_row(n, pen).len() == n,
        tidy_row(blank_row(n, pen)),
{
    reveal(tidy_row);
}

proof fn lemma_tidy_concat(a: Seq<CellView>, b: Seq<CellView>)
    requires
        tidy_row(a),
        tidy_row(b),
    ensures
        tidy_row(a + b),
{
    reveal(tidy_row);
    let s = a + b;
    assert forall|i: int| 0 <= i < s.len() implies {
        &&& 0 <= (#[trigger] s[i]).width <= 2
        &&& s[i].width == 2 ==> i + 1 < s.len() && s[i + 1] == CellView::filler(s[i].pen)
        &&& s[i].width == 0 ==> i > 0 && s[i - 1].width == 2
    } by {
        if i < a.len() {
            assert(s[i] == a[i]);
            if i + 1 < a.len() {
                assert(s[i + 1] == a[i + 1]);
            }
            if i > 0 {
                assert(s[i - 1] == a[i - 1]);
            }
        } else {
            let j = i - a.len();
            assert(s[i] == b[j]);
            if j + 1 < b.len() {
                assert(s[i + 1] == b[j + 1]);
            }
            if j > 0 {
                assert(s[i - 1] == b[j - 1]);
            }
        }
    }
}

proof fn lemma_tidy_take(s: Seq<CellView>, n: int)
    requires
        tidy_row(s),
        0 <= n <= s.len(),
        n < s.len() ==> s[n].width != 0,
    ensures
        tidy_row(s.take(n)),
{
    reveal(tidy_row);
    let t = s.take(n);
    assert forall|i: int| 0 <= i < t.len() implies {
        &&& 0 <= (#[trigger] t[i]).width <= 2
        &&& t[i].width == 2 ==> i + 1 < t.len() && t[i + 1] == CellView::filler(t[i].pen)
        &&& t[i].width == 0 ==> i > 0 && t[i - 1].width == 2
    } by {
        assert(t[i] == s[i]);
        if s[i].width == 2 {
            assert(s[i + 1].width == 0);
        }
        if i > 0 {
            assert(t[i - 1] == s[i - 1]);
        }
    }
}

/// Emptying a glyph keeps a row tidy; the column is empty afterwards.
pub proof fn cleared_glyph_keeps_row_tidy(row: Seq<CellView>, col: int, pen: Pen)
    requires
        tidy_row(row),
        0 <= col < row.len(),
    ensures
        clear_glyph(row, col, pen).len() == row.len(),
        tidy_row(clear_glyph(row, col, pen)),
        clear_glyph(row, col, pen)[col] == CellView::blank(pen),
{
    reveal(tidy_row);
    let lead = lead_col(row, col);
    let t = clear_glyph(row, col, pen);
    assert(row[col].width == 0 ==> row[col - 1].width == 2);
    assert(row[lead].width == 2 ==> row[lead + 1].width == 0);
    assert forall|i: int| 0 <= i < t.len() implies {
        &&& 0 <= (#[trigger] t[i]).width <= 2
        &&& t[i].width == 2 ==> i + 1 < t.len() && t[i + 1] == CellView::filler(t[i].pen)
        &&& t[i].width == 0 ==> i > 0 && t[i - 1].width == 2
    } by {
        assert(0 <= row[i].width <= 2);
        if row[i].width == 2 {
            assert(row[i + 1].width == 0);
        }
        if row[i].width == 0 {
            assert(row[i - 1].width == 2);
        }
    }
}

/// Writing a glyph over whatever stands in a row keeps the row tidy.
pub proof fn written_glyph_keeps_row_tidy(
    row: Seq<CellView>,
    col: int,
    c: char,
    width: int,
    pen: Pen,
)
    requires
        tidy_row(row),
        1 <= width <= 2,
        0 <= col,
        col + width <= row.len(),
    ensures
        write_glyph(row, col, c, width, pen).len() == row.len(),
        tidy_row(write_glyph(row, col, c, width, pen)),
{
    reveal(tidy_row);
    cleared_glyph_keeps_row_tidy(row, col, pen);
    let a = clear_glyph(row, col, pen);
    let t = write_glyph(row, col, c, width, pen);
    if width == 2 {
        cleared_glyph_keeps_row_tidy(a, col + 1, pen);
        let b = clear_glyph(a, col + 1, pen);
        assert(a[col + 1].width == 0 ==> a[col].width == 2);
        assert(b[col].width == 1);
        assert forall|i: int| 0 <= i < t.len() implies {
            &&& 0 <= (#[trigger] t[i]).width <= 2
            &&& t[i].width == 2 ==> i + 1 < t.len() && t[i + 1] == CellView::filler(t[i].pen)
            &&& t[i].width == 0 ==> i > 0 && t[i - 1].width == 2
        } by {
            assert(0 <= b[i].width <= 2);
            if b[i].width == 2 {
                assert(b[i + 1].width == 0);
            }
            if b[i].width == 0 {
                assert(b[i - 1].width == 2);
            }
        }
    } else {
        assert forall|i: int| 0 <= i < t.len() implies {
            &&& 0 <= (#[trigger] t[i]).width <= 2
            &&& t[i].width == 2 ==> i + 1 < t.len() && t[i + 1] == CellView::filler(t[i].pen)
            &&& t[i].width == 0 ==> i > 0 && t[i - 1].width == 2
        } by {
            assert(0 <= a[i].width <= 2);
            if a[i].width == 2 {
                assert(a[i + 1].width == 0);
            }
            if a[i].width == 0 {
                assert(a[i - 1].width == 2);
            }
        }
    }
}

/// Erasing a part of a row keeps it tidy: a glyph that is partly inside goes as a whole.
pub proof fn erased_row_is_tidy(row: Seq<CellView>, start: int, end: int, pen: Pen)
    requires
        tidy_row(row),
        0 <= start < end <= row.len(),
    ensures
        erase_row(row, start, end, pen).len() == row.len(),
        tidy_row(erase_row(row, start, end, pen)),
{
    reveal(tidy_row);
    let t = erase_row(row, start, end, pen);
    assert(row[start].width == 0 ==> row[start - 1].width == 2);
    assert forall|i: int| 0 <= i < t.len() implies {
        &&& 0 <= (#[trigger] t[i]).width <= 2
        &&& t[i].width == 2 ==> i + 1 < t.len() && t[i + 1] == CellView::filler(t[i].pen)
        &&& t[i].width == 0 ==> i > 0 && t[i - 1].width == 2
    } by {
        assert(0 <= row[i].width <= 2);
        if row[i].width == 2 {
            assert(row[i + 1].width == 0);
            assert(row[i + 1] == CellView::filler(row[i].pen));
        }
        if row[i].width == 0 {
            assert(row[i - 1].width == 2);
            assert(row[i] == CellView::filler(row[i - 1].pen));
        }
    }
}

/// A row brought to another length stays tidy.
pub proof fn resized_row_is_tidy(row: Seq<CellView>, n: int, fill: Pen, pen: Pen)
    requires
        tidy_row(row),
        0 <= n,
    ensures
        resize_row(row, n, fill, pen).len() == n,
        tidy_row(resize_row(row, n, fill, pen)),
{
    if n <= row.len() {
        cut_and_repair_is_clip(row, n, pen);
    } else {
        lemma_blank_row(n - row.len(), fill);
        lemma_tidy_concat(row, blank_row(n - row.len(), fill));
    }
}

/// A fresh screen is well formed.
pub proof fn fresh_screen_is_well_formed(cols: int, rows: int)
    requires
        cols >= 0,
        rows >= 0,
    ensures
        well_formed(fresh_screen(cols, rows)),
{
    lemma_blank_row(cols, Pen::plain());
}

/// Resizing keeps the screen well formed; no wide glyph is left split at the new edge, on the
/// screen or in the scrollback.
pub proof fn resizing_keeps_well_formed(g: Screen, cols: int, rows: int)
    requires
        well_formed(g),
        cols >= 0,
        rows >= 0,
    ensures
        well_formed(resized(g, cols, rows)),
{
    let h = resized(g, cols, rows);
    lemma_blank_row(cols, Pen::plain());
    assert forall|r: int| 0 <= r < h.rows implies (#[trigger] h.cells[r]).len() == h.cols
        && tidy_row(h.cells[r]) by {
        if r < g.rows {
            resized_row_is_tidy(g.cells[r], cols, Pen::plain(), g.pen);
        }
    }
    assert forall|r: int| 0 <= r < h.scrollback.len() implies (#[trigger] h.scrollback[r]).len()
        == h.cols && tidy_row(h.scrollback[r]) by {
        resized_row_is_tidy(g.scrollback[r], cols, g.pen, g.pen);
    }
}

/// Replacing a row by a tidy one of the same length keeps the screen well formed.
pub proof fn lemma_with_row(g: Screen, r: int, row: Seq<CellView>)
    requires
        well_formed(g),
        0 <= r < g.rows,
        row.len() == g.cols,
        tidy_row(row),
    ensures
        well_formed(with_row(g, r, row)),
{
}

/// Going down a row keeps the screen well formed, scrolling or not.
pub proof fn advancing_keeps_well_formed(g: Screen)
    requires
        well_formed(g),
        g.rows > 0,
    ensures
        well_formed(advanced(g)),
{
    let h = advanced(g);
    lemma_blank_row(g.cols, g.pen);
    if g.cursor_row >= g.scroll_bottom {
        let mid = g.cells.remove(g.scroll_top);
        assert forall|r: int| 0 <= r < mid.len() implies (#[trigger] mid[r]).len() == g.cols
            && tidy_row(mid[r]) by {
            if r < g.scroll_top {
                assert(mid[r] == g.cells[r]);
            } else {
                assert(mid[r] == g.cells[r + 1]);
            }
        }
        assert forall|r: int| 0 <= r < h.rows implies (#[trigger] h.cells[r]).len() == h.cols
            && tidy_row(h.cells[r]) by {
            if r < g.scroll_bottom {
                assert(h.cells[r] == mid[r]);
            } else if r > g.scroll_bottom {
                assert(h.cells[r] == mid[r - 1]);
            }
        }
        assert forall|r: int| 0 <= r < h.scrollback.len() implies (
        #[trigger] h.scrollback[r]).len() == h.cols && tidy_row(h.scrollback[r]) by {
            if r < g.scrollback.len() {
                assert(h.scrollback[r] == g.scrollback[r]);
            } else {
                assert(h.scrollback[r] == g.cells[g.scroll_top]);
            }
        }
    }
}

/// A line that scrolls out of the region is the newest line of the scrollback, and nothing that
/// was there is lost.
pub proof fn scrolled_line_is_kept(g: Screen)
    requires
        well_formed(g),
        g.rows > 0,
        g.cursor_row >= g.scroll_bottom,
    ensures
        advanced(g).scrollback == g.scrollback.push(g.cells[g.scroll_top]),
        advanced(g).cursor_row == g.cursor_row,
{
}

proof fn lemma_previous_col(g: Screen)
    requires
        well_formed(g),
        has_previous(g),
    ensures
        0 <= previous_col(g) < g.cols,
        g.cells[g.cursor_row][previous_col(g)].width != 0,
{
    reveal(tidy_row);
    let row = g.cells[g.cursor_row];
    let col = min(g.cursor_col, g.cols) - 1;
    assert(row[col].width == 0 ==> row[col - 1].width == 2);
}

/// A scalar that joins the glyph before the cursor takes no column: the cursor stays and every
/// row keeps its columns.
pub proof fn attaching_keeps_well_formed(g: Screen, c: char)
    requires
        well_formed(g),
        attached(g, c) is Some,
    ensures
        well_formed(attached(g, c)->0),
        attached(g, c)->0.cursor_col == g.cursor_col,
        attached(g, c)->0.cursor_row == g.cursor_row,
{
    reveal(tidy_row);
    lemma_previous_col(g);
    let row = g.cells[g.cursor_row];
    let k = previous_col(g);
    let cell = row[k].absorb(c)->0;
    assert(cell.width == row[k].width && cell.pen == row[k].pen);
    let t = row.update(k, cell);
    assert forall|i: int| 0 <= i < t.len() implies {
        &&& 0 <= (#[trigger] t[i]).width <= 2
        &&& t[i].width == 2 ==> i + 1 < t.len() && t[i + 1] == CellView::filler(t[i].pen)
        &&& t[i].width == 0 ==> i > 0 && t[i - 1].width == 2
    } by {
        assert(0 <= row[i].width <= 2);
        if row[i].width == 2 {
            assert(row[i + 1] == CellView::filler(row[i].pen));
        }
        if row[i].width == 0 {
            assert(row[i - 1].width == 2);
        }
    }
    lemma_with_row(g, g.cursor_row, t);
}

/// Placing a glyph keeps the screen well formed.
pub proof fn placing_keeps_well_formed(g: Screen, c: char, width: int)
    requires
        well_formed(g),
        0 <= width <= 2,
        g.rows > 0 || width == 0 || !wraps(g, width),
    ensures
        well_formed(placed(g, c, width)),
{
    if width != 0 {
        let w = fitted_width(g, width);
        let z = Screen { cursor_col: 0, ..g };
        if wraps(g, width) {
            assert(well_formed(z));
            advancing_keeps_well_formed(z);
        }
        let h = if wraps(g, width) {
            advanced(z)
        } else {
            g
        };
        if h.cursor_row < h.rows && h.cursor_col < h.cols {
            written_glyph_keeps_row_tidy(h.cells[h.cursor_row], h.cursor_col, c, w, h.pen);
            lemma_with_row(
                h,
                h.cursor_row,
                write_glyph(h.cells[h.cursor_row], h.cursor_col, c, w, h.pen),
            );
        }
    }
}

/// Whether a character can be printed: a screen without rows has no row to go to.
pub open spec fn print_allowed(g: Screen, c: char) -> bool {
    g.rows > 0 || cell::glyph_width(c) == 0 || !wraps(g, cell::glyph_width(c))
}

/// Printing keeps the screen well formed, whatever is printed.
pub proof fn printing_keeps_well_formed(g: Screen, c: char)
    requires
        well_formed(g),
        print_allowed(g, c),
    ensures
        well_formed(printed(g, c)),
{
    if attached(g, c) is Some {
        attaching_keeps_well_formed(g, c);
    } else {
        placing_keeps_well_formed(g, c, cell::glyph_width(c));
    }
}

/// A glyph of one or two columns that fits behind the cursor moves it by its columns.
pub proof fn printed_glyph_moves_cursor_by_its_width(g: Screen, c: char)
    requires
        well_formed(g),
        g.rows > 0,
        attached(g, c) is None,
        g.cols >= 2,
        !wraps(g, cell::glyph_width(c)),
    ensures
        printed(g, c).cursor_col == g.cursor_col + cell::glyph_width(c),
        printed(g, c).cursor_row == g.cursor_row,
{
}

/// Erasing keeps the screen well formed.
pub proof fn erasing_keeps_well_formed(g: Screen, row: int, start: int, end: int)
    requires
        well_formed(g),
        0 <= row,
        0 <= start,
    ensures
        well_formed(erased(g, row, start, end)),
{
    if !(row >= g.rows || start >= end || start >= g.cols) {
        erased_row_is_tidy(g.cells[row], start, min(end, g.cols), g.pen);
        lemma_with_row(g, row, erase_row(g.cells[row], start, min(end, g.cols), g.pen));
    }
}

/// Emptying whole rows keeps the screen well formed.
pub proof fn lemma_rows_blanked(g: Screen, from: int, to: int)
    requires
        well_formed(g),
    ensures
        well_formed(rows_blanked(g, from, to)),
{
    lemma_blank_row(g.cols, g.pen);
}

/// After snapping the cursor stands on the first column of a glyph.
pub proof fn lemma_snapped(g: Screen)
    requires
        well_formed(g),
        g.cursor_row < g.rows,
        g.cursor_col < g.cols,
    ensures
        well_formed(snapped(g)),
        0 <= snapped(g).cursor_col < g.cols,
        g.cells[g.cursor_row][snapped(g).cursor_col].width != 0,
{
    reveal(tidy_row);
    let row = g.cells[g.cursor_row];
    assert(row[g.cursor_col].width == 0 ==> row[g.cursor_col - 1].width == 2);
}

/// Deleting characters keeps the screen well formed.
pub proof fn deleting_chars_keeps_well_formed(g: Screen, count: int)
    requires
        well_formed(g),
        count >= 0,
    ensures
        well_formed(chars_deleted(g, count)),
{
    reveal(tidy_row);
    if g.cursor_row < g.rows && g.cursor_col < g.cols {
        lemma_snapped(g);
        let h = snapped(g);
        let row = h.cells[h.cursor_row];
        let col = h.cursor_col;
        let stop = min(col + count, h.cols);
        let end = if stop < h.cols && row[stop].width == 0 {
            stop + 1
        } else {
            stop
        };
        if end < h.cols && row[end].width == 0 {
            assert(row[end - 1].width == 2);
            assert(row[stop - 1].width == 2);
            assert(false);
        }
        lemma_tidy_take(row, col);
        lemma_tidy_skip(row, end);
        lemma_blank_row(end - col, h.pen);
        lemma_tidy_concat(row.take(col), row.skip(end));
        lemma_tidy_concat(row.take(col) + row.skip(end), blank_row(end - col, h.pen));
        lemma_with_row(
            h,
            h.cursor_row,
            row.take(col) + row.skip(end) + blank_row(end - col, h.pen),
        );
    }
}

/// A tidy row with empty cells put in before a glyph stays tidy.
pub proof fn lemma_inserted_tidy(row: Seq<CellView>, col: int, k: int, pen: Pen)
    requires
        tidy_row(row),
        0 <= col < row.len(),
        row[col].width != 0,
        k >= 0,
    ensures
        tidy_row(row.take(col) + blank_row(k, pen) + row.skip(col)),
        (row.take(col) + blank_row(k, pen) + row.skip(col)).len() == row.len() + k,
{
    lemma_tidy_take(row, col);
    lemma_tidy_skip(row, col);
    lemma_blank_row(k, pen);
    lemma_tidy_concat(row.take(col), blank_row(k, pen));
    lemma_tidy_concat(row.take(col) + blank_row(k, pen), row.skip(col));
}

/// Inserting characters keeps the screen well formed.
pub proof fn inserting_chars_keeps_well_formed(g: Screen, count: int)
    requires
        well_formed(g),
        count >= 0,
    ensures
        well_formed(chars_inserted(g, count)),
{
    if g.cursor_row < g.rows && g.cursor_col < g.cols {
        lemma_snapped(g);
        let h = snapped(g);
        let row = h.cells[h.cursor_row];
        let col = h.cursor_col;
        let k = min(count, h.cols);
        lemma_inserted_tidy(row, col, k, h.pen);
        let wide = row.take(col) + blank_row(k, h.pen) + row.skip(col);
        cut_and_repair_is_clip(wide, h.cols, h.pen);
        lemma_with_row(h, h.cursor_row, clip_row(wide, h.cols, h.pen));
    }
}

/// Erasing in the display keeps the screen well formed.
pub proof fn display_erasing_keeps_well_formed(g: Screen, mode: u16)
    requires
        well_formed(g),
    ensures
        well_formed(display_erased(g, mode)),
{
    erasing_keeps_well_formed(g, g.cursor_row, g.cursor_col, g.cols);
    lemma_rows_blanked(
        erased(g, g.cursor_row, g.cursor_col, g.cols),
        g.cursor_row + 1,
        g.rows,
    );
    lemma_rows_blanked(g, 0, g.cursor_row);
    erasing_keeps_well_formed(
        rows_blanked(g, 0, g.cursor_row),
        g.cursor_row,
        0,
        min(g.cursor_col, last_index(g.cols)) + 1,
    );
    lemma_rows_blanked(g, 0, g.rows);
}

/// Erasing in a line keeps the screen well formed.
pub proof fn line_erasing_keeps_well_formed(g: Screen, mode: u16)
    requires
        well_formed(g),
        g.rows > 0 || mode != 2,
    ensures
        well_formed(line_erased(g, mode)),
{
    erasing_keeps_well_formed(g, g.cursor_row, g.cursor_col, g.cols);
    erasing_keeps_well_formed(g, g.cursor_row, 0, min(g.cursor_col, last_index(g.cols)) + 1);
    lemma_blank_row(g.cols, g.pen);
    if mode == 2 {
        lemma_with_row(g, g.cursor_row, blank_row(g.cols, g.pen));
    }
}

proof fn lemma_rotate(
    cells: Seq<Seq<CellView>>,
    out: int,
    at: int,
    empty: Seq<CellView>,
    cols: int,
)
    requires
        0 <= out < cells.len(),
        0 <= at < cells.len(),
        forall|r: int|
            0 <= r < cells.len() ==> (#[trigger] cells[r]).len() == cols && tidy_row(cells[r]),
        empty.len() == cols,
        tidy_row(empty),
    ensures
        cells.remove(out).insert(at, empty).len() == cells.len(),
        forall|r: int|
            0 <= r < cells.len() ==> (#[trigger] cells.remove(out).insert(at, empty)[r]).len()
                == cols && tidy_row(cells.remove(out).insert(at, empty)[r]),
{
    let mid = cells.remove(out);
    let t = mid.insert(at, empty);
    assert forall|r: int| 0 <= r < mid.len() implies (#[trigger] mid[r]).len() == cols && tidy_row(
        mid[r],
    ) by {
        if r < out {
            assert(mid[r] == cells[r]);
        } else {
            assert(mid[r] == cells[r + 1]);
        }
    }
    assert forall|r: int| 0 <= r < t.len() implies (#[trigger] t[r]).len() == cols && tidy_row(
        t[r],
    ) by {
        if r < at {
            assert(t[r] == mid[r]);
        } else if r > at {
            assert(t[r] == mid[r - 1]);
        }
    }
}

/// Inserting and deleting lines keeps the number and the shape of the rows.
pub proof fn lemma_lines(
    cells: Seq<Seq<CellView>>,
    at: int,
    bottom: int,
    empty: Seq<CellView>,
    n: int,
    cols: int,
)
    requires
        0 <= bottom < cells.len(),
        0 <= at < cells.len(),
        forall|r: int|
            0 <= r < cells.len() ==> (#[trigger] cells[r]).len() == cols && tidy_row(cells[r]),
        empty.len() == cols,
        tidy_row(empty),
    ensures
        lines_inserted(cells, at, bottom, empty, n).len() == cells.len(),
        forall|r: int|
            0 <= r < cells.len() ==> (#[trigger] lines_inserted(cells, at, bottom, empty, n)[r]).len()
                == cols && tidy_row(lines_inserted(cells, at, bottom, empty, n)[r]),
        lines_deleted(cells, at, bottom, empty, n).len() == cells.len(),
        forall|r: int|
            0 <= r < cells.len() ==> (#[trigger] lines_deleted(cells, at, bottom, empty, n)[r]).len()
                == cols && tidy_row(lines_deleted(cells, at, bottom, empty, n)[r]),
    decreases n,
{
    if n > 0 {
        lemma_lines(cells, at, bottom, empty, n - 1, cols);
        lemma_rotate(lines_inserted(cells, at, bottom, empty, n - 1), bottom, at, empty, cols);
        lemma_rotate(lines_deleted(cells, at, bottom, empty, n - 1), at, bottom, empty, cols);
    }
}

/// A control character keeps the screen well formed.
pub proof fn executing_keeps_well_formed(g: Screen, byte: u8)
    requires
        well_formed(g),
        g.rows > 0 || !(10 <= byte <= 12),
    ensures
        well_formed(executed(g, byte)),
{
    if 10 <= byte <= 12 {
        advancing_keeps_well_formed(g);
    }
}

/// A control sequence keeps the screen well formed, whatever its parameters.
pub proof fn dispatching_keeps_well_formed(g: Screen, p: Seq<u16>, action: char)
    requires
        well_formed(g),
        csi_allowed(g, p, action),
    ensures
        well_formed(dispatched(g, p, action)),
{
    let n = max(param(p, 0), 1);
    lemma_blank_row(g.cols, g.pen);
    if action == 'J' {
        display_erasing_keeps_well_formed(g, param(p, 0) as u16);
    } else if action == 'K' {
        line_erasing_keeps_well_formed(g, param(p, 0) as u16);
    } else if action == 'L' || action == 'M' {
        lemma_lines(
            g.cells,
            g.cursor_row,
            g.scroll_bottom,
            blank_row(g.cols, g.pen),
            n,
            g.cols,
        );
    } else if action == 'P' {
        deleting_chars_keeps_well_formed(g, n);
    } else if action == '@' {
        inserting_chars_keeps_well_formed(g, n);
    }
}

/// Each backspace moves the cursor exactly one column to the left, also onto the second column of
/// a wide glyph, and stops at the first column.
pub proof fn backspace_moves_one_column(g: Screen)
    requires
        well_formed(g),
    ensures
        g.cursor_col > 0 ==> executed(g, 8).cursor_col == g.cursor_col - 1,
        g.cursor_col == 0 ==> executed(g, 8) == g,
        executed(g, 8).cells == g.cells,
{
}

} // verus!
