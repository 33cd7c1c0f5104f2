//! The terminal grid.

use std::collections::VecDeque;
use vstd::prelude::*;

use crate::path::FsPath;
use crate::terminal::cell;
use crate::terminal::cell::{display_width, CellView, Pen, TermColor, TerminalCell};
use crate::terminal::screen;
use crate::terminal::screen::Screen;
use unicode_normalization::char::compose;

verus! {

/// What a row of cells holds.
pub open spec fn row_view(row: Seq<TerminalCell>) -> Seq<CellView> {
    row.map_values(|c: TerminalCell| c@)
}

/// What rows of cells hold.
pub open spec fn rows_view(rows: Seq<Vec<TerminalCell>>) -> Seq<Seq<CellView>> {
    rows.map_values(|r: Vec<TerminalCell>| row_view(r@))
}

/// The terminal grid: the screen of a shell, with its cursor and its scrollback.
#[derive(Debug)]
pub struct TerminalGrid {
    pub cols: usize,
    pub rows: usize,
    pub cells: Vec<Vec<TerminalCell>>,
    pub cursor_row: usize,
    pub cursor_col: usize,
    pub scrollback: VecDeque<Vec<TerminalCell>>,
    pub scroll_offset: usize,
    pub title: String,
    pub cwd: Option<FsPath>,
    /// Whether the working directory has changed since it was last taken.
    pub cwd_changed: bool,
    /// The rendition of new characters.
    pub cur_fg: TermColor,
    pub cur_bg: TermColor,
    pub cur_bold: bool,
    pub cur_italic: bool,
    pub cur_underline: bool,
    /// The scroll region: its first and its last row.
    pub scroll_top: usize,
    pub scroll_bottom: usize,
}

impl View for TerminalGrid {
    type V = Screen;

    open spec fn view(&self) -> Screen {
        Screen {
            cols: self.cols as int,
            rows: self.rows as int,
            cells: rows_view(self.cells@),
            cursor_row: self.cursor_row as int,
            cursor_col: self.cursor_col as int,
            scrollback: rows_view(self.scrollback@),
            scroll_offset: self.scroll_offset as int,
            title: self.title@,
            cwd: match self.cwd {
                Some(p) => Some(p@),
                None => None,
            },
            cwd_changed: self.cwd_changed,
            pen: Pen {
                fg: self.cur_fg,
                bg: self.cur_bg,
                bold: self.cur_bold,
                italic: self.cur_italic,
                underline: self.cur_underline,
            },
            scroll_top: self.scroll_top as int,
            scroll_bottom: self.scroll_bottom as int,
        }
    }
}

/// A row of copies of one cell.
fn filled_row(cell: &TerminalCell, n: usize) -> (r: Vec<TerminalCell>)
    ensures
        row_view(r@) == Seq::new(n as nat, |i: int| cell@),
{
    let mut out: Vec<TerminalCell> = Vec::new();
    let mut i: usize = 0;
    while i < n
        invariant
            i <= n,
            row_view(out@) == Seq::new(i as nat, |k: int| cell@),
        decreases n - i,
    {
        let ghost before = row_view(out@);
        out.push(cell.clone());
        i += 1;
        assert(row_view(out@) =~= before.push(cell@));
        assert(row_view(out@) =~= Seq::new(i as nat, |k: int| cell@));
    }
    out
}

/// Appends copies of the cells of a row from `start` to `end`.
fn append_cells(out: &mut Vec<TerminalCell>, row: &Vec<TerminalCell>, start: usize, end: usize)
    requires
        start <= end <= row@.len(),
    ensures
        row_view(final(out)@) == row_view(old(out)@) + row_view(row@).subrange(
            start as int,
            end as int,
        ),
{
    let mut i: usize = start;
    let ghost first = row_view(out@);
    assert(row_view(out@) =~= first + row_view(row@).subrange(start as int, i as int));
    while i < end
        invariant
            start <= i <= end <= row@.len(),
            row_view(out@) == first + row_view(row@).subrange(start as int, i as int),
        decreases end - i,
    {
        let ghost before = row_view(out@);
        out.push(row[i].clone());
        i += 1;
        assert(row_view(out@) =~= before.push(row@[i - 1]@));
        assert(row_view(out@) =~= first + row_view(row@).subrange(start as int, i as int));
    }
}

/// Appends copies of one cell.
fn append_filled(out: &mut Vec<TerminalCell>, cell: &TerminalCell, n: usize)
    ensures
        row_view(final(out)@) == row_view(old(out)@) + Seq::new(n as nat, |i: int| cell@),
{
    let mut more = filled_row(cell, n);
    let ghost a = out@;
    let ghost b = more@;
    out.append(&mut more);
    assert(row_view(a + b) =~= row_view(a) + row_view(b));
}

/// Sets every cell of a row right.
pub fn repair_cells(cells: &mut Vec<TerminalCell>, blank: &TerminalCell)
    requires
        blank@ == CellView::blank(blank@.pen),
    ensures
        row_view(final(cells)@) == screen::repair(row_view(old(cells)@), blank@.pen),
{
    let ghost pen = blank@.pen;
    let ghost first = row_view(cells@);
    let n: usize = cells.len();
    let mut col: usize = 0;
    let ghost mut done: Seq<CellView> = Seq::empty();
    let ghost mut rest: Seq<CellView> = first;
    assert(done + rest =~= first);
    assert(done + screen::repair(rest, pen) =~= screen::repair(first, pen));
    while col < n
        invariant
            col <= n,
            cells@.len() == n,
            done.len() == col,
            rest.len() == n - col,
            blank@ == CellView::blank(pen),
            row_view(cells@) == done + rest,
            done + screen::repair(rest, pen) == screen::repair(first, pen),
        decreases n - col,
    {
        let ghost before = row_view(cells@);
        assert(before[col as int] == rest[0]);
        if cells[col].width == 2 {
            if n - col >= 2 {
                let mut filler = cells[col].clone();
                filler.ch = ' ';
                filler.combining = String::new();
                filler.width = 0;
                let ghost f = filler@;
                cells.set(col + 1, filler);
                proof {
                    assert(f =~= CellView::filler(rest[0].pen));
                    assert(row_view(cells@) =~= before.update(col + 1, f));
                    lemma_repaired_part(done, rest, seq![rest[0], f], pen);
                    assert(row_view(cells@) =~= (done + seq![rest[0], f]) + rest.skip(2));
                    done = done + seq![rest[0], f];
                    rest = rest.skip(2);
                }
                col += 2;
            } else {
                cells.set(col, blank.clone());
                proof {
                    assert(row_view(cells@) =~= before.update(col as int, blank@));
                    assert(rest.skip(1) =~= Seq::empty());
                    assert(seq![blank@] + screen::repair(rest.skip(1), pen) =~= seq![blank@]);
                    lemma_repaired_part(done, rest, seq![blank@], pen);
                    assert(row_view(cells@) =~= (done + seq![blank@]) + rest.skip(1));
                    done = done + seq![blank@];
                    rest = rest.skip(1);
                }
                col += 1;
            }
        } else {
            if cells[col].width == 0 {
                cells.set(col, blank.clone());
            } else {
                let mut fixed = cells[col].clone();
                fixed.width = 1;
                cells.set(col, fixed);
            }
            proof {
                let fixed = cells@[col as int]@;
                assert(row_view(cells@) =~= before.update(col as int, fixed));
                lemma_repaired_part(done, rest, seq![fixed], pen);
                assert(row_view(cells@) =~= (done + seq![fixed]) + rest.skip(1));
                done = done + seq![fixed];
                rest = rest.skip(1);
            }
            col += 1;
        }
    }
    assert(rest =~= Seq::empty());
    assert(done + Seq::<CellView>::empty() =~= done);
}

proof fn lemma_repaired_part(
    done: Seq<CellView>,
    rest: Seq<CellView>,
    part: Seq<CellView>,
    pen: Pen,
)
    requires
        screen::repair(rest, pen) == part + screen::repair(rest.skip(part.len() as int), pen),
    ensures
        done + screen::repair(rest, pen) == (done + part) + screen::repair(
            rest.skip(part.len() as int),
            pen,
        ),
{
    assert(done + (part + screen::repair(rest.skip(part.len() as int), pen)) =~= (done + part)
        + screen::repair(rest.skip(part.len() as int), pen));
}

/// Empties the glyph that covers a column of a row.
fn clear_cells(row: &mut Vec<TerminalCell>, col: usize, blank: &TerminalCell)
    requires
        screen::tidy_row(row_view(old(row)@)),
        col < old(row)@.len(),
        blank@ == CellView::blank(blank@.pen),
    ensures
        row_view(final(row)@) == screen::clear_glyph(row_view(old(row)@), col as int, blank@.pen),
        screen::tidy_row(row_view(final(row)@)),
        final(row)@.len() == old(row)@.len(),
{
    let ghost line = row_view(row@);
    let n: usize = row.len();
    proof {
        screen::cleared_glyph_keeps_row_tidy(line, col as int, blank@.pen);
        screen::lemma_tidy_at(line, col as int);
        if line[col as int].width == 0 {
            screen::lemma_tidy_at(line, col - 1);
        }
    }
    let lead: usize = if row[col].is_continuation() {
        col - 1
    } else {
        col
    };
    proof {
        screen::lemma_tidy_at(line, lead as int);
        assert(line.len() == n);
    }
    if row[lead].width == 2 {
        row.set(lead + 1, blank.clone());
    }
    row.set(lead, blank.clone());
    assert(row_view(row@) =~= screen::clear_glyph(line, col as int, blank@.pen));
}

/// Writes a glyph of one or two columns over whatever stands in a row.
fn write_cells(row: &mut Vec<TerminalCell>, col: usize, c: char, w: usize, blank: &TerminalCell)
    requires
        screen::tidy_row(row_view(old(row)@)),
        1 <= w <= 2,
        col + w <= old(row)@.len(),
        blank@ == CellView::blank(blank@.pen),
    ensures
        row_view(final(row)@) == screen::write_glyph(
            row_view(old(row)@),
            col as int,
            c,
            w as int,
            blank@.pen,
        ),
{
    let ghost line = row_view(row@);
    let n: usize = row.len();
    assert(col + w <= n);
    clear_cells(row, col, blank);
    if w == 2 {
        clear_cells(row, col + 1, blank);
    }
    let ghost cleared = row_view(row@);
    let mut glyph = blank.clone();
    glyph.ch = c;
    glyph.width = w as u8;
    let ghost v = glyph@;
    assert(v =~= CellView { ch: c, combining: Seq::empty(), width: w as int, pen: blank@.pen });
    row.set(col, glyph);
    assert(row_view(row@) =~= cleared.update(col as int, v));
    if w == 2 {
        let mut second = blank.clone();
        second.width = 0;
        let ghost f = second@;
        assert(f =~= CellView::filler(blank@.pen));
        row.set(col + 1, second);
        assert(row_view(row@) =~= cleared.update(col as int, v).update(col + 1, f));
    }
}

/// A copy of a row brought to another length, with no wide glyph split at its end.
pub fn resize_line(
    row: &Vec<TerminalCell>,
    cols: usize,
    fill: &TerminalCell,
    blank: &TerminalCell,
) -> (r: Vec<TerminalCell>)
    requires
        screen::tidy_row(row_view(row@)),
        fill@ == CellView::blank(fill@.pen),
        blank@ == CellView::blank(blank@.pen),
    ensures
        row_view(r@) == screen::resize_row(row_view(row@), cols as int, fill@.pen, blank@.pen),
{
    let n: usize = row.len();
    let mut out: Vec<TerminalCell> = Vec::new();
    let keep = smaller(cols, n);
    append_cells(&mut out, row, 0, keep);
    if n < cols {
        append_filled(&mut out, fill, cols - n);
    }
    proof {
        let v = row_view(row@);
        screen::resized_row_is_tidy(v, cols as int, fill@.pen, blank@.pen);
        if cols <= n {
            assert(row_view(out@) =~= v.take(cols as int));
            screen::cut_and_repair_is_clip(v, cols as int, blank@.pen);
        } else {
            assert(row_view(out@) =~= v + screen::blank_row(cols - n, fill@.pen));
            screen::tidy_row_needs_no_repair(row_view(out@), blank@.pen);
        }
    }
    repair_cells(&mut out, blank);
    out
}

/// The smaller of two numbers.
pub(crate) fn smaller(a: usize, b: usize) -> (r: usize)
    ensures
        r == screen::min(a as int, b as int),
{
    if a <= b {
        a
    } else {
        b
    }
}

/// The sum of two numbers, or the largest number where the sum is larger.
fn saturating_sum(a: usize, b: usize) -> (r: usize)
    ensures
        r == screen::min(a + b, usize::MAX as int),
{
    if b > usize::MAX - a {
        usize::MAX
    } else {
        a + b
    }
}

/// The last index of a range of this length, and 0 for an empty one.
pub(crate) fn last_of(n: usize) -> (r: usize)
    ensures
        r == screen::last_index(n as int),
{
    if n > 0 {
        n - 1
    } else {
        0
    }
}

impl TerminalGrid {
    /// Whether the grid is in order: see [`screen::well_formed`].
    pub open spec fn wf(&self) -> bool {
        screen::well_formed(self@)
    }

    /// A fresh grid.
    pub fn new(cols: usize, rows: usize) -> (r: TerminalGrid)
        ensures
            r@ == screen::fresh_screen(cols as int, rows as int),
            r.wf(),
    {
        let cell = TerminalCell::default();
        let mut cells: Vec<Vec<TerminalCell>> = Vec::new();
        let mut i: usize = 0;
        let ghost empty = screen::blank_row(cols as int, Pen::plain());
        while i < rows
            invariant
                i <= rows,
                cell@ == CellView::blank(Pen::plain()),
                empty == screen::blank_row(cols as int, Pen::plain()),
                rows_view(cells@) == Seq::new(i as nat, |k: int| empty),
            decreases rows - i,
        {
            let ghost before = rows_view(cells@);
            let row = filled_row(&cell, cols);
            assert(row_view(row@) =~= empty);
            cells.push(row);
            i += 1;
            assert(rows_view(cells@) =~= before.push(empty));
            assert(rows_view(cells@) =~= Seq::new(i as nat, |k: int| empty));
        }
        let r = TerminalGrid {
            cols,
            rows,
            cells,
            cursor_row: 0,
            cursor_col: 0,
            scrollback: VecDeque::new(),
            scroll_offset: 0,
            title: String::new(),
            cwd: None,
            cwd_changed: false,
            cur_fg: TermColor::Default,
            cur_bg: TermColor::Default,
            cur_bold: false,
            cur_italic: false,
            cur_underline: false,
            scroll_top: 0,
            scroll_bottom: last_of(rows),
        };
        proof {
            let f = screen::fresh_screen(cols as int, rows as int);
            assert(r@.cells =~= f.cells);
            assert(r@.scrollback =~= f.scrollback);
            assert(r@ =~= f);
            screen::fresh_screen_is_well_formed(cols as int, rows as int);
        }
        r
    }

    /// An empty cell of the current rendition.
    pub fn current_cell(&self) -> (r: TerminalCell)
        ensures
            r@ == CellView::blank(self@.pen),
    {
        let r = TerminalCell {
            ch: ' ',
            combining: String::new(),
            width: 1,
            fg: self.cur_fg,
            bg: self.cur_bg,
            bold: self.cur_bold,
            italic: self.cur_italic,
            underline: self.cur_underline,
        };
        assert(r@ =~= CellView::blank(self@.pen));
        r
    }

    /// Puts another row in the place of a row.
    fn set_row(&mut self, r: usize, row: Vec<TerminalCell>)
        requires
            r < old(self).cells@.len(),
        ensures
            final(self)@ == screen::with_row(old(self)@, r as int, row_view(row@)),
    {
        let ghost before = self.cells@;
        self.cells.set(r, row);
        assert(rows_view(self.cells@) =~= rows_view(before).update(r as int, row_view(row@)));
    }

    /// Sets every cell of a row right.
    pub fn repair_row(&mut self, row: usize)
        requires
            old(self).cells@.len() == old(self).rows,
        ensures
            final(self)@ == if row < old(self).rows {
                screen::with_row(
                    old(self)@,
                    row as int,
                    screen::repair(old(self)@.cells[row as int], old(self)@.pen),
                )
            } else {
                old(self)@
            },
    {
        if row >= self.rows {
            return ;
        }
        let blank = self.current_cell();
        let ghost before = self.cells@;
        repair_cells(&mut self.cells[row], &blank);
        assert(rows_view(self.cells@) =~= rows_view(before).update(
            row as int,
            screen::repair(row_view(before[row as int]@), blank@.pen),
        ));
        assert(self@ =~= screen::with_row(
            old(self)@,
            row as int,
            screen::repair(old(self)@.cells[row as int], old(self)@.pen),
        ));
    }

    /// Brings the grid to another size. What fits is kept; a wide glyph that the new edge splits
    /// is emptied, on the screen and in the scrollback.
    pub fn resize(&mut self, cols: usize, rows: usize)
        requires
            old(self).wf(),
        ensures
            final(self)@ == screen::resized(old(self)@, cols as int, rows as int),
            final(self).wf(),
    {
        let ghost g = self@;
        let ghost h = screen::resized(g, cols as int, rows as int);
        let plain = TerminalCell::default();
        let blank = self.current_cell();
        let mut cells: Vec<Vec<TerminalCell>> = Vec::new();
        let mut r: usize = 0;
        while r < rows
            invariant
                r <= rows,
                g == self@,
                h == screen::resized(g, cols as int, rows as int),
                screen::well_formed(g),
                plain@ == CellView::blank(Pen::plain()),
                blank@ == CellView::blank(g.pen),
                rows_view(cells@) == h.cells.take(r as int),
            decreases rows - r,
        {
            let ghost before = rows_view(cells@);
            let row = if r < self.cells.len() {
                assert(row_view(self.cells@[r as int]@) == g.cells[r as int]);
                resize_line(&self.cells[r], cols, &plain, &blank)
            } else {
                filled_row(&plain, cols)
            };
            assert(row_view(row@) =~= h.cells[r as int]);
            cells.push(row);
            r += 1;
            assert(rows_view(cells@) =~= before.push(h.cells[r - 1]));
            assert(rows_view(cells@) =~= h.cells.take(r as int));
        }
        assert(rows_view(cells@) =~= h.cells);
        let mut lines: VecDeque<Vec<TerminalCell>> = VecDeque::new();
        let mut k: usize = 0;
        let count: usize = self.scrollback.len();
        while k < count
            invariant
                k <= count,
                count == self.scrollback@.len(),
                g == self@,
                h == screen::resized(g, cols as int, rows as int),
                screen::well_formed(g),
                blank@ == CellView::blank(g.pen),
                rows_view(lines@) == h.scrollback.take(k as int),
            decreases count - k,
        {
            let ghost before = rows_view(lines@);
            assert(row_view(self.scrollback@[k as int]@) == g.scrollback[k as int]);
            let line = resize_line(&self.scrollback[k], cols, &blank, &blank);
            lines.push_back(line);
            k += 1;
            assert(rows_view(lines@) =~= before.push(h.scrollback[k - 1]));
            assert(rows_view(lines@) =~= h.scrollback.take(k as int));
        }
        assert(rows_view(lines@) =~= h.scrollback);
        self.cols = cols;
        self.rows = rows;
        self.cells = cells;
        self.scrollback = lines;
        self.cursor_row = smaller(self.cursor_row, last_of(rows));
        self.cursor_col = smaller(self.cursor_col, last_of(cols));
        self.scroll_top = 0;
        self.scroll_bottom = last_of(rows);
        proof {
            assert(self@ =~= h);
            screen::resizing_keeps_well_formed(g, cols as int, rows as int);
        }
    }

    /// The working directory, if it has changed since this was last asked.
    pub fn take_cwd_update(&mut self) -> (r: Option<FsPath>)
        ensures
            final(self)@ == (Screen { cwd_changed: false, ..old(self)@ }),
            match r {
                Some(p) => old(self).cwd_changed && old(self)@.cwd == Some(p@),
                None => !old(self).cwd_changed || old(self)@.cwd is None,
            },
    {
        if self.cwd_changed {
            self.cwd_changed = false;
            match &self.cwd {
                Some(p) => Some(p.clone()),
                None => None,
            }
        } else {
            None
        }
    }

    /// The row and column of the glyph before the cursor, where there is one.
    pub fn previous_lead_position(&self) -> (r: Option<(usize, usize)>)
        requires
            self.wf(),
        ensures
            match r {
                Some((row, col)) => screen::has_previous(self@) && row == self.cursor_row && col
                    == screen::previous_col(self@) && col < self.cols,
                None => !screen::has_previous(self@),
            },
    {
        if self.cursor_row >= self.rows || self.cols == 0 || self.cursor_col == 0 {
            return None;
        }
        let mut col: usize = smaller(self.cursor_col, self.cols) - 1;
        let ghost row = self@.cells[self.cursor_row as int];
        assert(row == row_view(self.cells@[self.cursor_row as int]@));
        proof {
            screen::lemma_tidy_at(row, col as int);
        }
        if col > 0 && self.cells[self.cursor_row][col].is_continuation() {
            col = col - 1;
        }
        Some((self.cursor_row, col))
    }

    /// Joins a scalar to the glyph before the cursor: a canonical sequence (such as the parts of a
    /// Hangul syllable) becomes one character, any other scalar without a width is kept with the
    /// glyph. Says whether it was joined.
    pub fn attach_to_previous(&mut self, c: char) -> (r: bool)
        requires
            old(self).wf(),
        ensures
            final(self).wf(),
            match screen::attached(old(self)@, c) {
                Some(g) => r && final(self)@ == g,
                None => !r && final(self)@ == old(self)@,
            },
    {
        let (row, col) = match self.previous_lead_position() {
            Some(at) => at,
            None => {
                return false;
            },
        };
        let ghost g = self@;
        let ghost line = self.cells@[row as int]@;
        assert(g.cells[row as int] == row_view(line));
        let composition = compose(self.cells[row][col].ch, c);
        let width = display_width(c);
        let mut cell = self.cells[row][col].clone();
        let joined = cell.absorb_scalar(c, composition, width);
        if joined {
            proof {
                screen::attaching_keeps_well_formed(g, c);
            }
            let ghost v = cell@;
            let ghost rows = self.cells@;
            self.cells[row].set(col, cell);
            proof {
                assert(row_view(self.cells@[row as int]@) =~= row_view(line).update(col as int, v));
                assert(rows_view(self.cells@) =~= rows_view(rows).update(
                    row as int,
                    row_view(line).update(col as int, v),
                ));
                assert(self@ =~= screen::attached(g, c)->0);
            }
        }
        joined
    }

    /// Empties the glyph that covers a column.
    pub fn clear_glyph_at(&mut self, row: usize, col: usize)
        requires
            old(self).wf(),
        ensures
            final(self).wf(),
            final(self)@ == if row < old(self).rows && col < old(self).cols {
                screen::with_row(
                    old(self)@,
                    row as int,
                    screen::clear_glyph(old(self)@.cells[row as int], col as int, old(self)@.pen),
                )
            } else {
                old(self)@
            },
    {
        if row >= self.rows || col >= self.cols {
            return ;
        }
        let ghost g = self@;
        let ghost rows = self.cells@;
        let ghost t = screen::clear_glyph(g.cells[row as int], col as int, g.pen);
        proof {
            screen::cleared_glyph_keeps_row_tidy(g.cells[row as int], col as int, g.pen);
            assert(g.cells[row as int] == row_view(rows[row as int]@));
        }
        let blank = self.current_cell();
        clear_cells(&mut self.cells[row], col, &blank);
        proof {
            assert(rows_view(self.cells@) =~= g.cells.update(row as int, t));
            screen::lemma_with_row(g, row as int, t);
        }
    }

    /// Puts the cursor back to the first column of a wide glyph, where it stands on the second.
    pub fn snap_cursor_from_continuation(&mut self)
        requires
            old(self).wf(),
        ensures
            final(self).wf(),
            final(self)@ == screen::snapped(old(self)@),
    {
        if self.cursor_row < self.rows && self.cursor_col < self.cols {
            let ghost row = self@.cells[self.cursor_row as int];
            assert(row == row_view(self.cells@[self.cursor_row as int]@));
            proof {
                screen::lemma_tidy_at(row, self.cursor_col as int);
            }
            if self.cells[self.cursor_row][self.cursor_col].is_continuation() {
                self.cursor_col = self.cursor_col - 1;
            }
        }
    }

    /// Takes the cursor one row down, scrolling at the bottom of the scroll region.
    pub fn advance_row(&mut self)
        requires
            old(self).wf(),
            old(self).rows > 0,
        ensures
            final(self).wf(),
            final(self)@ == screen::advanced(old(self)@),
    {
        let ghost g = self@;
        proof {
            screen::advancing_keeps_well_formed(g);
        }
        if self.cursor_row >= self.scroll_bottom {
            let blank = self.current_cell();
            let empty = filled_row(&blank, self.cols);
            assert(row_view(empty@) =~= screen::blank_row(g.cols, g.pen));
            let ghost rows = self.cells@;
            let ghost lines = self.scrollback@;
            let top = self.cells.remove(self.scroll_top);
            self.scrollback.push_back(top);
            self.cells.insert(self.scroll_bottom, empty);
            proof {
                assert(rows_view(self.cells@) =~= rows_view(rows).remove(g.scroll_top).insert(
                    g.scroll_bottom,
                    screen::blank_row(g.cols, g.pen),
                ));
                assert(rows_view(self.scrollback@) =~= rows_view(lines).push(
                    g.cells[g.scroll_top],
                ));
                assert(self@ =~= screen::advanced(g));
            }
        } else {
            self.cursor_row = self.cursor_row + 1;
        }
    }

    /// Writes a glyph of one or two columns over whatever stands there.
    fn write_glyph_at(&mut self, row: usize, col: usize, c: char, w: usize)
        requires
            old(self).wf(),
            row < old(self).rows,
            1 <= w <= 2,
            col + w <= old(self).cols,
        ensures
            final(self)@ == screen::with_row(
                old(self)@,
                row as int,
                screen::write_glyph(
                    old(self)@.cells[row as int],
                    col as int,
                    c,
                    w as int,
                    old(self)@.pen,
                ),
            ),
    {
        let ghost g = self@;
        let ghost rows = self.cells@;
        assert(g.cells[row as int] == row_view(rows[row as int]@));
        let blank = self.current_cell();
        write_cells(&mut self.cells[row], col, c, w, &blank);
        proof {
            let t = screen::write_glyph(g.cells[row as int], col as int, c, w as int, g.pen);
            assert(rows_view(self.cells@) =~= g.cells.update(row as int, t));
        }
    }

    /// Places a glyph of `width` columns at the cursor, or in the next row where it does not fit.
    pub fn place_glyph(&mut self, c: char, width: usize)
        requires
            old(self).wf(),
            width <= 2,
            old(self).rows > 0 || width == 0 || !screen::wraps(old(self)@, width as int),
        ensures
            final(self).wf(),
            final(self)@ == screen::placed(old(self)@, c, width as int),
    {
        let ghost g = self@;
        proof {
            screen::placing_keeps_well_formed(g, c, width as int);
        }
        if width == 0 {
            return ;
        }
        let w: usize = if self.cols == 1 {
            1
        } else {
            width
        };
        if self.cursor_col >= self.cols || (w == 2 && self.cols - self.cursor_col < 2) {
            self.cursor_col = 0;
            self.advance_row();
        }
        if self.cursor_row >= self.rows || self.cursor_col >= self.cols {
            return ;
        }
        self.write_glyph_at(self.cursor_row, self.cursor_col, c, w);
        self.cursor_col = self.cursor_col + w;
    }

    /// Prints a character.
    pub fn put_char(&mut self, c: char)
        requires
            old(self).wf(),
            screen::print_allowed(old(self)@, c),
        ensures
            final(self).wf(),
            final(self)@ == screen::printed(old(self)@, c),
    {
        if self.attach_to_previous(c) {
            return ;
        }
        self.place_glyph(c, display_width(c));
    }

    /// Moves the cursor one column to the left.
    pub fn backspace_cursor(&mut self)
        requires
            old(self).wf(),
        ensures
            final(self).wf(),
            final(self)@ == screen::executed(old(self)@, 8),
    {
        if self.cursor_col == 0 {
            return ;
        }
        self.cursor_col = smaller(self.cursor_col, self.cols) - 1;
    }

    /// Moves the cursor to the right, at most to the last column.
    pub fn cursor_forward(&mut self, count: usize)
        requires
            old(self).wf(),
        ensures
            final(self).wf(),
            final(self)@ == (Screen {
                cursor_col: screen::min(
                    old(self).cursor_col + count,
                    screen::last_index(old(self).cols as int),
                ),
                ..old(self)@
            }),
    {
        self.cursor_col = smaller(saturating_sum(self.cursor_col, count), last_of(self.cols));
    }

    /// Moves the cursor to the left, at most to the first column.
    pub fn cursor_backward(&mut self, count: usize)
        requires
            old(self).wf(),
        ensures
            final(self).wf(),
            final(self)@ == (Screen {
                cursor_col: screen::max(old(self).cursor_col - count, 0),
                ..old(self)@
            }),
    {
        self.cursor_col = if self.cursor_col >= count {
            self.cursor_col - count
        } else {
            0
        };
    }

    /// Moves the cursor to a column, at most to the last one.
    pub fn set_cursor_col(&mut self, col: usize)
        requires
            old(self).wf(),
        ensures
            final(self).wf(),
            final(self)@ == (Screen {
                cursor_col: screen::min(col as int, screen::last_index(old(self).cols as int)),
                ..old(self)@
            }),
    {
        self.cursor_col = smaller(col, last_of(self.cols));
    }

    /// Erases a part of a row, with every glyph that is partly inside.
    pub fn erase_range(&mut self, row: usize, start: usize, end: usize)
        requires
            old(self).wf(),
        ensures
            final(self).wf(),
            final(self)@ == screen::erased(old(self)@, row as int, start as int, end as int),
    {
        let ghost g = self@;
        proof {
            screen::erasing_keeps_well_formed(g, row as int, start as int, end as int);
        }
        if row >= self.rows || start >= end || start >= self.cols {
            return ;
        }
        let ghost line = g.cells[row as int];
        let ghost rows = self.cells@;
        assert(line == row_view(rows[row as int]@));
        let stop = smaller(end, self.cols);
        proof {
            screen::lemma_tidy_at(line, start as int);
        }
        let from: usize = if self.cells[row][start].is_continuation() {
            start - 1
        } else {
            start
        };
        let to: usize = if stop < self.cols && self.cells[row][stop].is_continuation() {
            stop + 1
        } else {
            stop
        };
        let blank = self.current_cell();
        let mut out: Vec<TerminalCell> = Vec::new();
        append_cells(&mut out, &self.cells[row], 0, from);
        append_filled(&mut out, &blank, to - from);
        append_cells(&mut out, &self.cells[row], to, self.cols);
        proof {
            let t = screen::erase_row(line, start as int, stop as int, g.pen);
            screen::erased_row_is_tidy(line, start as int, stop as int, g.pen);
            assert(row_view(out@) =~= t);
            screen::tidy_row_needs_no_repair(t, g.pen);
        }
        repair_cells(&mut out, &blank);
        self.set_row(row, out);
    }

    /// Takes out the glyphs on `count` columns at the cursor.
    pub fn delete_chars(&mut self, count: usize)
        requires
            old(self).wf(),
        ensures
            final(self).wf(),
            final(self)@ == screen::chars_deleted(old(self)@, count as int),
    {
        let ghost g = self@;
        proof {
            screen::deleting_chars_keeps_well_formed(g, count as int);
        }
        if self.cursor_row >= self.rows || self.cursor_col >= self.cols {
            return ;
        }
        self.snap_cursor_from_continuation();
        let ghost h = self@;
        let row = self.cursor_row;
        let col = self.cursor_col;
        let ghost line = h.cells[row as int];
        assert(line == row_view(self.cells@[row as int]@));
        let stop = smaller(saturating_sum(col, count), self.cols);
        let end: usize = if stop < self.cols && self.cells[row][stop].is_continuation() {
            stop + 1
        } else {
            stop
        };
        let blank = self.current_cell();
        let mut out: Vec<TerminalCell> = Vec::new();
        append_cells(&mut out, &self.cells[row], 0, col);
        append_cells(&mut out, &self.cells[row], end, self.cols);
        append_filled(&mut out, &blank, end - col);
        proof {
            let t = line.take(col as int) + line.skip(end as int) + screen::blank_row(
                end - col,
                h.pen,
            );
            assert(row_view(out@) =~= t);
            assert(screen::chars_deleted(g, count as int).cells[row as int] == t);
            screen::tidy_row_needs_no_repair(t, h.pen);
        }
        repair_cells(&mut out, &blank);
        self.set_row(row, out);
    }

    /// Puts in empty cells at the cursor.
    pub fn insert_chars(&mut self, count: usize)
        requires
            old(self).wf(),
        ensures
            final(self).wf(),
            final(self)@ == screen::chars_inserted(old(self)@, count as int),
    {
        let ghost g = self@;
        proof {
            screen::inserting_chars_keeps_well_formed(g, count as int);
        }
        if self.cursor_row >= self.rows || self.cursor_col >= self.cols {
            return ;
        }
        self.snap_cursor_from_continuation();
        let ghost h = self@;
        let row = self.cursor_row;
        let col = self.cursor_col;
        let ghost line = h.cells[row as int];
        assert(line == row_view(self.cells@[row as int]@));
        let k = smaller(count, self.cols);
        let blank = self.current_cell();
        let mut out: Vec<TerminalCell> = Vec::new();
        append_cells(&mut out, &self.cells[row], 0, col);
        append_filled(&mut out, &blank, smaller(k, self.cols - col));
        append_cells(
            &mut out,
            &self.cells[row],
            col,
            col + (self.cols - col - smaller(k, self.cols - col)),
        );
        proof {
            let wide = line.take(col as int) + screen::blank_row(k as int, h.pen) + line.skip(
                col as int,
            );
            screen::lemma_snapped(g);
            screen::lemma_inserted_tidy(line, col as int, k as int, h.pen);
            assert(row_view(out@) =~= wide.take(h.cols));
            screen::cut_and_repair_is_clip(wide, h.cols, h.pen);
        }
        repair_cells(&mut out, &blank);
        self.set_row(row, out);
    }

    /// Empties the rows from `from` to `to`.
    fn blank_rows(&mut self, from: usize, to: usize)
        requires
            old(self).wf(),
            to <= old(self).rows,
        ensures
            final(self).wf(),
            final(self)@ == screen::rows_blanked(old(self)@, from as int, to as int),
    {
        let ghost g = self@;
        proof {
            screen::lemma_rows_blanked(g, from as int, to as int);
            assert(screen::rows_blanked(g, from as int, from as int).cells =~= g.cells);
        }
        if from >= to {
            assert(screen::rows_blanked(g, from as int, to as int).cells =~= g.cells);
            return ;
        }
        let blank = self.current_cell();
        let mut r: usize = from;
        while r < to
            invariant
                from <= r <= to <= g.cells.len(),
                g.cols == self.cols,
                blank@ == CellView::blank(g.pen),
                self@ == screen::rows_blanked(g, from as int, r as int),
            decreases to - r,
        {
            let empty = filled_row(&blank, self.cols);
            assert(row_view(empty@) =~= screen::blank_row(g.cols, g.pen));
            assert(self.cells@.len() == self@.cells.len());
            self.set_row(r, empty);
            assert(self@.cells =~= screen::rows_blanked(g, from as int, r + 1).cells);
            r += 1;
        }
    }

    /// Erases in the display.
    pub fn erase_in_display(&mut self, mode: u16)
        requires
            old(self).wf(),
        ensures
            final(self).wf(),
            final(self)@ == screen::display_erased(old(self)@, mode),
    {
        match mode {
            0 => {
                self.erase_range(self.cursor_row, self.cursor_col, self.cols);
                let from = saturating_sum(self.cursor_row, 1);
                self.blank_rows(from, self.rows);
            },
            1 => {
                self.blank_rows(0, self.cursor_row);
                let end = saturating_sum(smaller(self.cursor_col, last_of(self.cols)), 1);
                self.erase_range(self.cursor_row, 0, end);
            },
            2 => {
                self.blank_rows(0, self.rows);
            },
            3 => {
                self.blank_rows(0, self.rows);
                self.scrollback.clear();
                proof {
                    assert(rows_view(self.scrollback@) =~= Seq::empty());
                    assert(self@ =~= screen::display_erased(old(self)@, mode));
                }
            },
            _ => {},
        }
    }

    /// Erases in the row of the cursor.
    pub fn erase_in_line(&mut self, mode: u16)
        requires
            old(self).wf(),
            old(self).rows > 0 || mode != 2,
        ensures
            final(self).wf(),
            final(self)@ == screen::line_erased(old(self)@, mode),
    {
        proof {
            screen::line_erasing_keeps_well_formed(self@, mode);
        }
        match mode {
            0 => {
                self.erase_range(self.cursor_row, self.cursor_col, self.cols);
            },
            1 => {
                let end = saturating_sum(smaller(self.cursor_col, last_of(self.cols)), 1);
                self.erase_range(self.cursor_row, 0, end);
            },
            2 => {
                let blank = self.current_cell();
                let empty = filled_row(&blank, self.cols);
                assert(row_view(empty@) =~= screen::blank_row(self@.cols, self@.pen));
                self.set_row(self.cursor_row, empty);
            },
            _ => {},
        }
    }

    /// Puts in empty lines at the cursor; each pushes one out at the bottom of the scroll region.
    pub fn insert_lines(&mut self, n: usize)
        requires
            old(self).wf(),
            old(self).rows > 0,
        ensures
            final(self).wf(),
            final(self)@ == (Screen {
                cells: screen::lines_inserted(
                    old(self)@.cells,
                    old(self)@.cursor_row,
                    old(self)@.scroll_bottom,
                    screen::blank_row(old(self)@.cols, old(self)@.pen),
                    n as int,
                ),
                ..old(self)@
            }),
    {
        let ghost g = self@;
        let ghost empty = screen::blank_row(g.cols, g.pen);
        proof {
            screen::lemma_blank_row(g.cols, g.pen);
        }
        let blank = self.current_cell();
        let mut i: usize = 0;
        while i < n
            invariant
                i <= n,
                screen::well_formed(g),
                g.rows > 0,
                empty == screen::blank_row(g.cols, g.pen),
                empty.len() == g.cols,
                screen::tidy_row(empty),
                blank@ == CellView::blank(g.pen),
                self@ == (Screen {
                    cells: screen::lines_inserted(
                        g.cells,
                        g.cursor_row,
                        g.scroll_bottom,
                        empty,
                        i as int,
                    ),
                    ..g
                }),
            decreases n - i,
        {
            proof {
                screen::lemma_lines(
                    g.cells,
                    g.cursor_row,
                    g.scroll_bottom,
                    empty,
                    i as int,
                    g.cols,
                );
            }
            let ghost rows = self.cells@;
            assert(rows_view(rows).len() == rows.len());
            let _ = self.cells.remove(self.scroll_bottom);
            let line = filled_row(&blank, self.cols);
            assert(row_view(line@) =~= empty);
            self.cells.insert(self.cursor_row, line);
            i += 1;
            proof {
                assert(rows_view(self.cells@) =~= rows_view(rows).remove(g.scroll_bottom).insert(
                    g.cursor_row,
                    empty,
                ));
            }
        }
        proof {
            screen::lemma_lines(
                g.cells,
                g.cursor_row,
                g.scroll_bottom,
                empty,
                n as int,
                g.cols,
            );
        }
    }

    /// Takes out lines at the cursor; for each an empty one comes in at the bottom of the scroll
    /// region.
    pub fn delete_lines(&mut self, n: usize)
        requires
            old(self).wf(),
            old(self).rows > 0,
        ensures
            final(self).wf(),
            final(self)@ == (Screen {
                cells: screen::lines_deleted(
                    old(self)@.cells,
                    old(self)@.cursor_row,
                    old(self)@.scroll_bottom,
                    screen::blank_row(old(self)@.cols, old(self)@.pen),
                    n as int,
                ),
                ..old(self)@
            }),
    {
        let ghost g = self@;
        let ghost empty = screen::blank_row(g.cols, g.pen);
        proof {
            screen::lemma_blank_row(g.cols, g.pen);
        }
        let blank = self.current_cell();
        let mut i: usize = 0;
        while i < n
            invariant
                i <= n,
                screen::well_formed(g),
                g.rows > 0,
                empty == screen::blank_row(g.cols, g.pen),
                empty.len() == g.cols,
                screen::tidy_row(empty),
                blank@ == CellView::blank(g.pen),
                self@ == (Screen {
                    cells: screen::lines_deleted(
                        g.cells,
                        g.cursor_row,
                        g.scroll_bottom,
                        empty,
                        i as int,
                    ),
                    ..g
                }),
            decreases n - i,
        {
            proof {
                screen::lemma_lines(
                    g.cells,
                    g.cursor_row,
                    g.scroll_bottom,
                    empty,
                    i as int,
                    g.cols,
                );
            }
            let ghost rows = self.cells@;
            assert(rows_view(rows).len() == rows.len());
            let _ = self.cells.remove(self.cursor_row);
            let line = filled_row(&blank, self.cols);
            assert(row_view(line@) =~= empty);
            self.cells.insert(self.scroll_bottom, line);
            i += 1;
            proof {
                assert(rows_view(self.cells@) =~= rows_view(rows).remove(g.cursor_row).insert(
                    g.scroll_bottom,
                    empty,
                ));
            }
        }
        proof {
            screen::lemma_lines(
                g.cells,
                g.cursor_row,
                g.scroll_bottom,
                empty,
                n as int,
                g.cols,
            );
        }
    }
}

} // verus!
