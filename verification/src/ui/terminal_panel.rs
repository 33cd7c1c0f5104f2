//! The terminal panel: colours, the selection, what is visible of the scrollback.

use unicode_width::UnicodeWidthStr;
use vstd::prelude::*;

use crate::model::display_text;
use crate::model::display_text::normalize;
use crate::terminal::cell::{CellView, TermColor, TerminalCell};
use crate::terminal::grid;
use crate::terminal::grid::TerminalGrid;
use crate::terminal::screen;
use crate::terminal::screen::Screen;
use crate::text;
use crate::text::{chars_of, join_texts, trim_end};

verus! {

/// A colour by its parts.
#[derive(Clone, Copy, Debug, PartialEq, Eq, Structural)]
pub struct Rgb {
    pub r: u8,
    pub g: u8,
    pub b: u8,
}

/// What the user does in the panel.
#[derive(Clone, Copy, Debug, PartialEq, Eq, Structural)]
pub enum TerminalPanelEvent {
    OpenInTerminal,
    NewTab,
    CloseTab(usize),
    SwitchTab(usize),
}

pub open spec fn rgb_of(r: u8, g: u8, b: u8) -> Rgb {
    Rgb { r, g, b }
}

fn rgb(r: u8, g: u8, b: u8) -> (c: Rgb)
    ensures
        c == rgb_of(r, g, b),
{
    Rgb { r, g, b }
}

/// The colour of text that has none of its own.
pub fn default_fg() -> (r: Rgb)
    ensures
        r == rgb_of(204, 204, 204),
{
    rgb(204, 204, 204)
}

/// The colour of the background where it has none of its own.
pub fn default_bg() -> (r: Rgb)
    ensures
        r == rgb_of(28, 28, 28),
{
    rgb(28, 28, 28)
}

/// The background of what is selected.
pub fn selection_bg() -> (r: Rgb)
    ensures
        r == rgb_of(48, 96, 160),
{
    rgb(48, 96, 160)
}

/// One part of a named colour: dark, half bright or full.
pub open spec fn ansi_part(n: u8, bit: u8) -> u8 {
    if n < 8 {
        if (n / bit) % 2 == 1 {
            187
        } else {
            0
        }
    } else if (n / bit) % 2 == 1 {
        255
    } else {
        85
    }
}

/// The sixteen named colours: bits for red, green and blue, and one for bright. Whatever is
/// beyond them is white.
pub open spec fn ansi_color(n: u8) -> Rgb {
    if n >= 15 {
        rgb_of(255, 255, 255)
    } else {
        rgb_of(ansi_part(n, 1), ansi_part(n, 2), ansi_part(n, 4))
    }
}

/// One step of the colour cube.
pub open spec fn cube_part(step: int) -> u8 {
    if step == 0 {
        0
    } else {
        (step * 40 + 55) as u8
    }
}

/// The 256 palette colours: the named ones, a cube of six steps, and a ramp of greys.
pub open spec fn palette_color(n: u8) -> Rgb {
    if n < 16 {
        ansi_color(n)
    } else if n < 232 {
        rgb_of(
            cube_part((n - 16) / 36),
            cube_part(((n - 16) / 6) % 6),
            cube_part((n - 16) % 6),
        )
    } else {
        let g = ((n - 232) * 10 + 8) as u8;
        rgb_of(g, g, g)
    }
}

/// The colour that text is drawn in; bold text in one of the eight dark colours is bright.
pub open spec fn text_color(c: TermColor, bold: bool) -> Rgb {
    match c {
        TermColor::Default => rgb_of(204, 204, 204),
        TermColor::Ansi(n) => ansi_color(
            if bold && n < 8 {
                (n + 8) as u8
            } else {
                n
            },
        ),
        TermColor::Indexed(n) => palette_color(n),
        TermColor::Rgb(r, g, b) => rgb_of(r, g, b),
    }
}

/// The colour that a background is drawn in.
pub open spec fn ground_color(c: TermColor) -> Rgb {
    match c {
        TermColor::Default => rgb_of(28, 28, 28),
        TermColor::Ansi(n) => ansi_color(n),
        TermColor::Indexed(n) => palette_color(n),
        TermColor::Rgb(r, g, b) => rgb_of(r, g, b),
    }
}

/// A named colour.
pub fn ansi16(n: u8) -> (r: Rgb)
    ensures
        r == ansi_color(n),
{
    match n {
        0 => rgb(0, 0, 0),
        1 => rgb(187, 0, 0),
        2 => rgb(0, 187, 0),
        3 => rgb(187, 187, 0),
        4 => rgb(0, 0, 187),
        5 => rgb(187, 0, 187),
        6 => rgb(0, 187, 187),
        7 => rgb(187, 187, 187),
        8 => rgb(85, 85, 85),
        9 => rgb(255, 85, 85),
        10 => rgb(85, 255, 85),
        11 => rgb(255, 255, 85),
        12 => rgb(85, 85, 255),
        13 => rgb(255, 85, 255),
        14 => rgb(85, 255, 255),
        _ => rgb(255, 255, 255),
    }
}

/// One step of the colour cube.
fn cube_step(step: u8) -> (r: u8)
    requires
        step < 6,
    ensures
        r == cube_part(step as int),
{
    if step == 0 {
        0
    } else {
        step * 40 + 55
    }
}

/// A palette colour.
pub fn indexed_color(n: u8) -> (r: Rgb)
    ensures
        r == palette_color(n),
{
    if n < 16 {
        return ansi16(n);
    }
    if n < 232 {
        let v: u8 = n - 16;
        return rgb(cube_step(v / 36), cube_step((v / 6) % 6), cube_step(v % 6));
    }
    let g: u8 = (n - 232) * 10 + 8;
    rgb(g, g, g)
}

/// The colour that text is drawn in.
pub fn resolve_fg(c: TermColor, bold: bool) -> (r: Rgb)
    ensures
        r == text_color(c, bold),
{
    match c {
        TermColor::Default => default_fg(),
        TermColor::Ansi(n) => ansi16(
            if bold && n < 8 {
                n + 8
            } else {
                n
            },
        ),
        TermColor::Indexed(n) => indexed_color(n),
        TermColor::Rgb(r, g, b) => rgb(r, g, b),
    }
}

/// The colour that a background is drawn in.
pub fn resolve_bg(c: TermColor) -> (r: Rgb)
    ensures
        r == ground_color(c),
{
    match c {
        TermColor::Default => default_bg(),
        TermColor::Ansi(n) => ansi16(n),
        TermColor::Indexed(n) => indexed_color(n),
        TermColor::Rgb(r, g, b) => rgb(r, g, b),
    }
}

/// What is selected in the terminal: two places as rows and columns of the view, in either order.
#[derive(Clone, Copy, Debug)]
pub struct TermSelection {
    pub start: Option<(usize, usize)>,
    pub end: Option<(usize, usize)>,
}

impl Default for TermSelection {
    fn default() -> (r: TermSelection)
        ensures
            r.start is None,
            r.end is None,
    {
        TermSelection { start: None, end: None }
    }
}

/// Whether one place comes before another or is the same.
pub open spec fn not_after(a: (usize, usize), b: (usize, usize)) -> bool {
    a.0 < b.0 || (a.0 == b.0 && a.1 <= b.1)
}

impl TermSelection {
    /// The first and the last place of the selection.
    pub open spec fn ordered(self) -> Option<((usize, usize), (usize, usize))> {
        match (self.start, self.end) {
            (Some(s), Some(e)) => if not_after(s, e) {
                Some((s, e))
            } else {
                Some((e, s))
            },
            _ => None,
        }
    }

    /// Whether a place lies between the first and the last place, with both.
    pub open spec fn covers(self, row: int, col: int) -> bool {
        match self.ordered() {
            Some((s, e)) => {
                &&& s.0 < row || (s.0 == row && s.1 <= col)
                &&& row < e.0 || (row == e.0 && col <= e.1)
            },
            None => false,
        }
    }

    /// Whether anything is selected.
    pub fn is_active(&self) -> (r: bool)
        ensures
            r == (self.start is Some && self.end is Some && self.start != self.end),
    {
        match (self.start, self.end) {
            (Some(s), Some(e)) => s.0 != e.0 || s.1 != e.1,
            _ => false,
        }
    }

    /// The first and the last place of the selection.
    pub fn normalized(&self) -> (r: Option<((usize, usize), (usize, usize))>)
        ensures
            r == self.ordered(),
            r matches Some(p) ==> not_after(p.0, p.1),
    {
        match (self.start, self.end) {
            (Some(s), Some(e)) => if s.0 < e.0 || (s.0 == e.0 && s.1 <= e.1) {
                Some((s, e))
            } else {
                Some((e, s))
            },
            _ => None,
        }
    }

    /// Whether a place is selected.
    pub fn contains(&self, row: usize, col: usize) -> (r: bool)
        ensures
            r == self.covers(row as int, col as int),
    {
        let ((sr, sc), (er, ec)) = match self.normalized() {
            Some(p) => p,
            None => {
                return false;
            },
        };
        if row < sr || row > er {
            return false;
        }
        if row == sr && row == er {
            return col >= sc && col <= ec;
        }
        if row == sr {
            return col >= sc;
        }
        if row == er {
            return col <= ec;
        }
        true
    }
}

/// The first column of the glyph at a column.
pub open spec fn glyph_start(cells: Seq<CellView>, col: int) -> int {
    if cells[col].width == 0 {
        screen::max(col - 1, 0)
    } else {
        col
    }
}

/// The column behind the glyph that starts at a column.
pub open spec fn glyph_end(cells: Seq<CellView>, start: int) -> int {
    screen::min(start + screen::max(cells[start].width, 1), cells.len() as int)
}

/// Whether any column of the glyph at a column is selected.
pub open spec fn glyph_selected(sel: TermSelection, cells: Seq<CellView>, row: int, col: int) -> bool {
    &&& 0 <= col < cells.len()
    &&& exists|c: int|
        glyph_start(cells, col) <= c < glyph_end(cells, glyph_start(cells, col))
            && #[trigger] sel.covers(row, c)
}

/// Whether the glyph at a column of a row is selected: a wide glyph is when either half is.
pub fn selection_contains_glyph(
    sel: &TermSelection,
    cells: &Vec<TerminalCell>,
    row: usize,
    col: usize,
) -> (r: bool)
    ensures
        r == glyph_selected(*sel, grid::row_view(cells@), row as int, col as int),
{
    if col >= cells.len() {
        return false;
    }
    let ghost v = grid::row_view(cells@);
    assert(v.len() == cells.len());
    let start: usize = if cells[col].is_continuation() && col > 0 {
        col - 1
    } else {
        col
    };
    let width: usize = covered_cells(cells[start].width as usize);
    let end: usize = if width <= cells.len() - start {
        start + width
    } else {
        cells.len()
    };
    assert(start == glyph_start(v, col as int) && end == glyph_end(v, start as int));
    let mut c: usize = start;
    while c < end
        invariant
            start <= c <= end,
            forall|k: int| start <= k < c ==> !#[trigger] sel.covers(row as int, k),
            col < v.len(),
            start == glyph_start(v, col as int),
            end == glyph_end(v, start as int),
            v == grid::row_view(cells@),
        decreases end - c,
    {
        if sel.contains(row, c) {
            return true;
        }
        c += 1;
    }
    false
}

/// Both halves of a wide glyph are drawn alike: selecting either selects both.
pub proof fn wide_glyph_is_selected_as_a_whole(
    sel: TermSelection,
    cells: Seq<CellView>,
    row: int,
    lead: int,
)
    requires
        screen::tidy_row(cells),
        0 <= lead < cells.len(),
        cells[lead].width == 2,
    ensures
        glyph_selected(sel, cells, row, lead) == glyph_selected(sel, cells, row, lead + 1),
{
    screen::lemma_tidy_at(cells, lead);
    assert(glyph_start(cells, lead + 1) == lead);
}

/// The line that is shown in a row of the view when it is scrolled `offset` lines back.
pub open spec fn shown_line(g: Screen, row: int, offset: int) -> Option<Seq<CellView>> {
    let all = g.scrollback + g.cells;
    let i = g.scrollback.len() - offset + row;
    if 0 <= i < all.len() {
        Some(all[i])
    } else {
        None
    }
}

/// The line that is shown in a row of the view.
pub fn display_row<'a>(grid: &'a TerminalGrid, disp_row: usize, offset: usize) -> (r: Option<
    &'a Vec<TerminalCell>,
>)
    ensures
        match r {
            Some(line) => shown_line(grid@, disp_row as int, offset as int) == Some(
                grid::row_view(line@),
            ),
            None => shown_line(grid@, disp_row as int, offset as int) is None,
        },
{
    let ghost g = grid@;
    if disp_row < offset {
        let back: usize = offset - disp_row;
        let n: usize = grid.scrollback.len();
        if back > n {
            return None;
        }
        assert(shown_line(g, disp_row as int, offset as int) == Some(
            g.scrollback[n - back],
        ));
        Some(&grid.scrollback[n - back])
    } else {
        let i: usize = disp_row - offset;
        if i < grid.cells.len() {
            assert(shown_line(g, disp_row as int, offset as int) == Some(g.cells[i as int]));
            Some(&grid.cells[i])
        } else {
            None
        }
    }
}

/// The text of a run of cells: the glyphs, each wide one once.
pub open spec fn glyphs_text(cells: Seq<CellView>) -> Seq<char>
    decreases cells.len(),
{
    if cells.len() == 0 {
        Seq::empty()
    } else {
        let rest = glyphs_text(cells.drop_last());
        let cell = cells.last();
        if cell.width == 0 {
            rest
        } else {
            rest + (seq![cell.ch] + cell.combining)
        }
    }
}

/// The text that is selected in a line, without the white space at its end. A selection that
/// starts in the second half of a wide glyph starts with that glyph.
pub open spec fn line_text(cells: Seq<CellView>, from: int, to: int) -> Seq<char> {
    let start = if from < cells.len() && cells[from].width == 0 && from > 0 {
        from - 1
    } else {
        from
    };
    if start < cells.len() && start <= to {
        text::end_trimmed(glyphs_text(cells.subrange(start, to + 1)))
    } else {
        Seq::empty()
    }
}

/// The selected text of a row of the view, where the row shows a line.
pub open spec fn row_text(
    g: Screen,
    s: (usize, usize),
    e: (usize, usize),
    row: int,
    offset: int,
) -> Option<Seq<char>> {
    match shown_line(g, row, offset) {
        Some(cells) => Some(
            line_text(
                cells,
                if row == s.0 {
                    screen::min(s.1 as int, cells.len() as int)
                } else {
                    0
                },
                if row == e.0 {
                    screen::min(e.1 as int, screen::last_index(cells.len() as int))
                } else {
                    screen::last_index(cells.len() as int)
                },
            ),
        ),
        None => None,
    }
}

/// The selected texts of the rows from the first one up to `end`.
pub open spec fn rows_text(
    g: Screen,
    s: (usize, usize),
    e: (usize, usize),
    end: int,
    offset: int,
) -> Seq<Seq<char>>
    decreases end - s.0,
{
    if end <= s.0 {
        Seq::empty()
    } else {
        let rest = rows_text(g, s, e, end - 1, offset);
        match row_text(g, s, e, end - 1, offset) {
            Some(t) => rest.push(t),
            None => rest,
        }
    }
}

/// The text that is selected: the lines of the selection, put together with line breaks.
pub open spec fn selected_text(g: Screen, sel: TermSelection, rows: int, offset: int) -> Seq<char> {
    match sel.ordered() {
        Some((s, e)) => {
            let last = (screen::min(e.0 as int, screen::last_index(rows)) as usize, e.1);
            text::joined_by(rows_text(g, s, last, last.0 + 1, offset), seq!['\n'])
        },
        None => Seq::empty(),
    }
}

/// The selected text of one line.
fn extract_line(cells: &Vec<TerminalCell>, from: usize, to: usize) -> (r: String)
    requires
        from <= cells@.len(),
        to <= screen::last_index(cells@.len() as int),
    ensures
        r@ == line_text(grid::row_view(cells@), from as int, to as int),
{
    let ghost v = grid::row_view(cells@);
    let mut start: usize = from;
    if start < cells.len() && cells[start].is_continuation() && start > 0 {
        start = start - 1;
    }
    if start < cells.len() && start <= to {
        let mut out: String = String::new();
        let mut i: usize = start;
        let n: usize = cells.len();
        assert(v.subrange(start as int, i as int) =~= Seq::empty());
        while i <= to
            invariant
                start <= i <= to + 1,
                to < n == cells@.len(),
                v == grid::row_view(cells@),
                out@ == glyphs_text(v.subrange(start as int, i as int)),
            decreases to + 1 - i,
        {
            proof {
                let w = v.subrange(start as int, i + 1);
                assert(w.drop_last() =~= v.subrange(start as int, i as int));
                assert(w.last() == cells@[i as int]@);
            }
            if !cells[i].is_continuation() {
                out.push_str(cells[i].glyph_text().as_str());
            }
            i += 1;
        }
        trim_end(out.as_str())
    } else {
        let r = String::new();
        assert(r@ =~= Seq::empty());
        r
    }
}

/// The text that is selected.
pub fn extract_selection_text(
    grid: &TerminalGrid,
    sel: &TermSelection,
    rows: usize,
    offset: usize,
) -> (r: String)
    ensures
        r@ == selected_text(grid@, *sel, rows as int, offset as int),
{
    let ((sr, sc), (er0, ec)) = match sel.normalized() {
        Some(p) => p,
        None => {
            let r = String::new();
            assert(r@ =~= Seq::empty());
            return r;
        },
    };
    let ghost g = grid@;
    let er = grid::smaller(er0, grid::last_of(rows));
    let ghost s = (sr, sc);
    let ghost e = (er, ec);
    let mut lines: Vec<String> = Vec::new();
    let mut row: usize = sr;
    let mut more = sr <= er;
    assert(text::text_views(lines@) =~= rows_text(g, s, e, row as int, offset as int));
    assert(!more ==> rows_text(g, s, e, er + 1, offset as int) =~= Seq::empty());
    while more
        invariant
            g == grid@,
            s == (sr, sc),
            e == (er, ec),
            more ==> sr <= row <= er,
            more ==> text::text_views(lines@) == rows_text(g, s, e, row as int, offset as int),
            !more ==> text::text_views(lines@) == rows_text(g, s, e, er + 1, offset as int),
        decreases (if more { er + 1 - row } else { 0 }),
    {
        let ghost before = text::text_views(lines@);
        match display_row(grid, row, offset) {
            Some(cells) => {
                let from = if row == sr {
                    grid::smaller(sc, cells.len())
                } else {
                    0
                };
                let to = if row == er {
                    grid::smaller(ec, grid::last_of(cells.len()))
                } else {
                    grid::last_of(cells.len())
                };
                let line = extract_line(cells, from, to);
                assert(grid::row_view(cells@).len() == cells@.len());
                let ghost t = line@;
                lines.push(line);
                assert(text::text_views(lines@) =~= before.push(t));
            },
            None => {},
        }
        assert(text::text_views(lines@) == rows_text(g, s, e, row + 1, offset as int));
        if row == er {
            more = false;
        } else {
            row += 1;
        }
    }
    proof {
        reveal_strlit("\n");
        assert("\n"@ =~= seq!['\n']);
    }
    join_texts(&lines, "\n")
}

impl TerminalGrid {
    /// Scrolls back, at most to the oldest line.
    pub fn scroll_back(&mut self, lines: usize)
        ensures
            final(self)@ == (Screen {
                scroll_offset: screen::min(
                    old(self)@.scroll_offset + lines,
                    old(self)@.scrollback.len() as int,
                ),
                ..old(self)@
            }),
    {
        let n: usize = self.scrollback.len();
        self.scroll_offset = if lines > usize::MAX - self.scroll_offset {
            n
        } else {
            grid::smaller(self.scroll_offset + lines, n)
        };
        assert(self@.scrollback.len() == n);
    }

    /// Scrolls forward, at most to the live screen.
    pub fn scroll_forward(&mut self, lines: usize)
        ensures
            final(self)@ == (Screen {
                scroll_offset: screen::max(old(self)@.scroll_offset - lines, 0),
                ..old(self)@
            }),
    {
        self.scroll_offset = if self.scroll_offset >= lines {
            self.scroll_offset - lines
        } else {
            0
        };
    }

    /// How far the view is scrolled back: never further than there are lines.
    pub fn visible_offset(&self) -> (r: usize)
        ensures
            r == screen::min(self@.scroll_offset, self@.scrollback.len() as int),
    {
        assert(self@.scrollback.len() == self.scrollback@.len());
        grid::smaller(self.scroll_offset, self.scrollback.len())
    }

    /// The column where the cursor is drawn, and how many columns it covers: on a wide glyph it
    /// covers both.
    pub fn cursor_shape(&self) -> (r: (usize, usize))
        requires
            self.wf(),
            self.rows > 0,
            self.cols > 0,
        ensures
            ({
                let row = self@.cells[self@.cursor_row];
                let col = screen::lead_col(
                    row,
                    screen::min(self@.cursor_col, screen::last_index(self@.cols)),
                );
                r.0 == col && r.1 == screen::max(row[col].width, 1)
            }),
    {
        let mut col = grid::smaller(self.cursor_col, grid::last_of(self.cols));
        let ghost row = self@.cells[self.cursor_row as int];
        proof {
            assert(row == grid::row_view(self.cells@[self.cursor_row as int]@));
            screen::lemma_tidy_at(row, col as int);
        }
        if self.cells[self.cursor_row][col].is_continuation() {
            col = col - 1;
        }
        let w = self.cells[self.cursor_row][col].width;
        if w >= 1 {
            (col, w as usize)
        } else {
            (col, 1)
        }
    }
}

/// What `UnicodeWidthStr::width` says of a text: its columns.
pub uninterp spec fn text_columns(s: Seq<char>) -> usize;

/// `UnicodeWidthStr::width` of the crate unicode-width: the columns of a text, a function of the
/// text alone.
#[verifier::external_body]
fn str_columns(s: &str) -> (r: usize)
    ensures
        r == text_columns(s@),
{
    UnicodeWidthStr::width(s)
}

/// The cells that a text of so many columns covers: at least one.
pub fn covered_cells(columns: usize) -> (r: usize)
    ensures
        r == screen::max(columns as int, 1),
{
    if columns >= 1 {
        columns
    } else {
        1
    }
}

/// The cells that the text of a composition covers.
pub fn preedit_cells(preedit: &str) -> (r: usize)
    ensures
        r == screen::max(text_columns(preedit@) as int, 1),
{
    let n = str_columns(preedit);
    covered_cells(n)
}

/// The title of a terminal's tab: what the shell gave it, or the name of the shell.
pub fn tab_title(title: &str) -> (r: String)
    ensures
        r@ == if title@.len() == 0 {
            "zsh"@
        } else {
            display_text::nfc(title@)
        },
{
    let chars = chars_of(title);
    if chars.len() == 0 {
        "zsh".to_owned()
    } else {
        normalize(title)
    }
}

/// The live screen is what is shown when nothing is scrolled back.
pub proof fn unscrolled_view_is_the_screen(g: Screen, row: int)
    requires
        0 <= row < g.cells.len(),
    ensures
        shown_line(g, row, 0) == Some(g.cells[row]),
{
}

/// Scrolled all the way back the first row shows the oldest line.
pub proof fn fully_scrolled_view_starts_at_the_oldest_line(g: Screen)
    requires
        g.scrollback.len() > 0,
    ensures
        shown_line(g, 0, g.scrollback.len() as int) == Some(g.scrollback[0]),
{
}

/// A selection covers the same places whichever end was set first.
pub proof fn selection_has_no_direction(sel: TermSelection, row: int, col: int)
    ensures
        sel.covers(row, col) == (TermSelection { start: sel.end, end: sel.start }).covers(row, col),
{
}

/// The sixteen named colours: black, red, green, yellow, blue, magenta, cyan and gray, and the bright
/// ones behind them. What is above them is white.
pub proof fn named_colors_are_drawn_as_they_are_called(n: u8)
    ensures
        n < 8 ==> ({
            let c = ansi_color(n);
            &&& c.r == 187 <==> n == 1 || n == 3 || n == 5 || n == 7
            &&& c.g == 187 <==> n == 2 || n == 3 || n == 6 || n == 7
            &&& c.b == 187 <==> n == 4 || n == 5 || n == 6 || n == 7
            &&& (c.r == 0 || c.r == 187) && (c.g == 0 || c.g == 187) && (c.b == 0 || c.b == 187)
        }),
        8 <= n < 16 ==> ({
            let c = ansi_color(n);
            let d = ansi_color((n - 8) as u8);
            &&& c.r == 255 <==> d.r == 187
            &&& c.g == 255 <==> d.g == 187
            &&& c.b == 255 <==> d.b == 187
            &&& (c.r == 85 || c.r == 255) && (c.g == 85 || c.g == 255) && (c.b == 85 || c.b == 255)
        }),
        n >= 16 ==> ansi_color(n) == (Rgb { r: 255, g: 255, b: 255 }),
{
    if n < 16 {
        assert(n == 0 || n == 1 || n == 2 || n == 3 || n == 4 || n == 5 || n == 6 || n == 7 || n == 8
            || n == 9 || n == 10 || n == 11 || n == 12 || n == 13 || n == 14 || n == 15);
        assert(n / 1 == n);
    }
}

/// The palette of 256 colours: the named ones first, then a cube of six steps of red, green and blue
/// each, of which the blue changes first, and at the end 24 grays from dark to light.
pub proof fn palette_is_a_cube_and_grays(r: u8, g: u8, b: u8, step: u8, n: u8)
    requires
        r < 6,
        g < 6,
        b < 6,
        step < 24,
    ensures
        n < 16 ==> palette_color(n) == ansi_color(n),
        ({
            let c = palette_color((16 + 36 * r + 6 * g + b) as u8);
            &&& r == 0 ==> c.r == 0
            &&& r > 0 ==> c.r == 55 + 40 * r
            &&& g == 0 ==> c.g == 0
            &&& g > 0 ==> c.g == 55 + 40 * g
            &&& b == 0 ==> c.b == 0
            &&& b > 0 ==> c.b == 55 + 40 * b
        }),
        ({
            let c = palette_color((232 + step) as u8);
            c.r == 8 + 10 * step && c.g == c.r && c.b == c.r
        }),
{
    let k = (16 + 36 * r + 6 * g + b) as u8;
    assert((k - 16) / 36 == r);
    assert(((k - 16) / 6) == 6 * r + g);
    assert((6 * r + g) % 6 == g);
    assert((k - 16) % 6 == b);
}

/// Text without a colour is light on dark ground, a bold text in one of the first eight colours is
/// drawn in the bright one, and a colour that is given by its parts is drawn as given.
pub proof fn bold_text_is_bright(n: u8, r: u8, g: u8, b: u8, bold: bool)
    ensures
        n < 8 ==> text_color(TermColor::Ansi(n), true) == ansi_color((n + 8) as u8),
        n < 8 ==> text_color(TermColor::Ansi(n), false) == ansi_color(n),
        n >= 8 ==> text_color(TermColor::Ansi(n), bold) == ansi_color(n),
        text_color(TermColor::Indexed(n), bold) == palette_color(n),
        text_color(TermColor::Rgb(r, g, b), bold) == (Rgb { r, g, b }),
        text_color(TermColor::Default, bold) == (Rgb { r: 204, g: 204, b: 204 }),
        ground_color(TermColor::Ansi(n)) == ansi_color(n),
        ground_color(TermColor::Indexed(n)) == palette_color(n),
        ground_color(TermColor::Rgb(r, g, b)) == (Rgb { r, g, b }),
        ground_color(TermColor::Default) == (Rgb { r: 28, g: 28, b: 28 }),
{
}

/// A selection covers the cells from one end to the other as they are read, with both ends: those of
/// one row between the two columns, and of several rows the rest of the first, all of those between,
/// and the start of the last.
pub proof fn selection_covers_what_is_read_between(
    first: (usize, usize),
    last: (usize, usize),
    row: int,
    col: int,
)
    requires
        first.0 < last.0 || (first.0 == last.0 && first.1 <= last.1),
    ensures
        ({
            let sel = TermSelection { start: Some(first), end: Some(last) };
            let back = TermSelection { start: Some(last), end: Some(first) };
            &&& first.0 == last.0 ==> (sel.covers(row, col) <==> row == first.0 && first.1 <= col
                <= last.1)
            &&& first.0 < last.0 && row == first.0 ==> (sel.covers(row, col) <==> col >= first.1)
            &&& first.0 < last.0 && row == last.0 ==> (sel.covers(row, col) <==> col <= last.1)
            &&& first.0 < row < last.0 ==> sel.covers(row, col)
            &&& row < first.0 || row > last.0 ==> !sel.covers(row, col)
            &&& back.covers(row, col) == sel.covers(row, col)
        }),
        !(TermSelection { start: None, end: Some(last) }).covers(row, col),
        !(TermSelection { start: Some(first), end: None }).covers(row, col),
{
}

/// The text of cells is that of their glyphs from left to right, each with what has joined it; the
/// second column of a wide glyph gives none.
pub proof fn text_of_cells_is_that_of_the_glyphs(
    a: Seq<CellView>,
    b: Seq<CellView>,
    cell: CellView,
)
    ensures
        glyphs_text(a + b) == glyphs_text(a) + glyphs_text(b),
        cell.width != 0 ==> glyphs_text(seq![cell]) == seq![cell.ch] + cell.combining,
        cell.width == 0 ==> glyphs_text(seq![cell]).len() == 0,
    decreases b.len(),
{
    reveal_with_fuel(glyphs_text, 2);
    assert(seq![cell].drop_last() =~= Seq::<CellView>::empty());
    assert(cell.width != 0 ==> glyphs_text(seq![cell]) =~= seq![cell.ch] + cell.combining);
    if b.len() == 0 {
        assert(a + b =~= a);
        assert(glyphs_text(a) + glyphs_text(b) =~= glyphs_text(a));
    } else {
        text_of_cells_is_that_of_the_glyphs(a, b.drop_last(), cell);
        assert((a + b).drop_last() =~= a + b.drop_last());
        assert((a + b).last() == b.last());
        assert(glyphs_text(a + b) =~= glyphs_text(a) + glyphs_text(b));
    }
}

/// What is copied of a line is the text of its glyphs from the one at the first column to the last
/// column, without the blanks at the end. A wide glyph that is hit on its second column is taken
/// with its first.
pub proof fn copied_line_is_the_text_between(cells: Seq<CellView>, from: int, to: int)
    requires
        screen::tidy_row(cells),
        0 <= from <= to < cells.len(),
    ensures
        cells[from].width != 0 ==> line_text(cells, from, to) == text::end_trimmed(
            glyphs_text(cells.subrange(from, to + 1)),
        ),
        cells[from].width == 0 ==> line_text(cells, from, to) == text::end_trimmed(
            glyphs_text(cells.subrange(from - 1, to + 1)),
        ),
{
    screen::lemma_tidy_at(cells, from);
}

/// What is copied of one row is the text between the two columns; of two rows, the end of the first
/// and, behind a line feed, the start of the second.
pub proof fn selected_rows_are_copied(
    g: Screen,
    row: usize,
    left: usize,
    right: usize,
    rows: int,
    offset: int,
)
    requires
        g.cols > 0,
        row < rows,
        rows <= usize::MAX,
        left < g.cols,
        right < g.cols,
        shown_line(g, row as int, offset) is Some,
        shown_line(g, row as int, offset)->0.len() == g.cols,
    ensures
        left <= right ==> selected_text(
            g,
            TermSelection { start: Some((row, left)), end: Some((row, right)) },
            rows,
            offset,
        ) == line_text(shown_line(g, row as int, offset)->0, left as int, right as int),
        row + 1 < rows && shown_line(g, row + 1, offset) is Some && shown_line(
            g,
            row + 1,
            offset,
        )->0.len() == g.cols ==> selected_text(
            g,
            TermSelection { start: Some((row, left)), end: Some(((row + 1) as usize, right)) },
            rows,
            offset,
        ) == line_text(shown_line(g, row as int, offset)->0, left as int, g.cols - 1) + seq!['\n']
            + line_text(shown_line(g, row + 1, offset)->0, 0, right as int),
{
    reveal_with_fuel(rows_text, 3);
    reveal_with_fuel(text::joined_by, 3);
    let s = (row, left);
    let line = shown_line(g, row as int, offset)->0;
    if left <= right {
        let e = (row, right);
        let t = rows_text(g, s, e, row + 1, offset);
        assert(t =~= seq![line_text(line, left as int, right as int)]);
    }
    if row + 1 < rows && shown_line(g, row + 1, offset) is Some && shown_line(
        g,
        row + 1,
        offset,
    )->0.len() == g.cols {
        let below = shown_line(g, row + 1, offset)->0;
        let e = ((row + 1) as usize, right);
        let t = rows_text(g, s, e, row + 2, offset);
        let one = line_text(line, left as int, g.cols - 1);
        let two = line_text(below, 0, right as int);
        assert(rows_text(g, s, e, row + 1, offset) =~= seq![one]);
        assert(t =~= seq![one, two]);
        assert(t.drop_last() =~= seq![one]);
    }
}

/// A row of the panel shows the screen, and scrolled back by some lines what stood so many lines
/// above it: first the screen from its top, before that the lines that scrolled out.
pub proof fn scrolled_view_shows_what_was_above(g: Screen, row: int, offset: int)
    requires
        0 <= row < g.rows,
        g.cells.len() == g.rows,
        0 <= offset <= g.scrollback.len(),
    ensures
        row >= offset ==> shown_line(g, row, offset) == Some(g.cells[row - offset]),
        row < offset ==> shown_line(g, row, offset) == Some(
            g.scrollback[g.scrollback.len() - offset + row],
        ),
{
}

} // verus!
