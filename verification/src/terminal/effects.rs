//! What is seen of each control: where the cursor goes, which cells change and which do not.

use vstd::prelude::*;

use crate::terminal::cell;
use crate::terminal::cell::{CellView, Pen, TermColor};
use crate::terminal::osc7;
use crate::terminal::performer;
use crate::terminal::screen;
use crate::terminal::screen::Screen;

verus! {

/// An empty cell is a space of one column in the given rendition, and the second column of a wide
/// glyph is a space of none. The plain rendition has no colour and no style.
pub proof fn empty_cells_are_spaces(pen: Pen)
    ensures
        CellView::blank(pen).ch == ' ',
        CellView::blank(pen).width == 1,
        CellView::blank(pen).pen == pen,
        CellView::blank(pen).combining.len() == 0,
        CellView::filler(pen).ch == ' ',
        CellView::filler(pen).width == 0,
        CellView::filler(pen).pen == pen,
        CellView::filler(pen).combining.len() == 0,
        Pen::plain().fg == TermColor::Default,
        Pen::plain().bg == TermColor::Default,
        !Pen::plain().bold,
        !Pen::plain().italic,
        !Pen::plain().underline,
{
}

/// A fresh screen has its size, is empty all over, and has the cursor at its upper left.
pub proof fn fresh_screen_is_empty(cols: int, rows: int, r: int, c: int)
    requires
        0 <= r < rows,
        0 <= c < cols,
    ensures
        ({
            let g = screen::fresh_screen(cols, rows);
            &&& g.cols == cols && g.rows == rows && g.cells.len() == rows
            &&& g.cells[r].len() == cols && g.cells[r][c] == CellView::blank(Pen::plain())
            &&& g.cursor_row == 0 && g.cursor_col == 0
            &&& g.scrollback.len() == 0 && g.scroll_offset == 0
            &&& g.title.len() == 0 && g.cwd is None && !g.cwd_changed
            &&& g.pen == Pen::plain()
            &&& g.scroll_top == 0 && g.scroll_bottom == rows - 1
        }),
{
}

/// `C` and `a` move the cursor right by the first parameter, or by one, but not beyond the last
/// column. Nothing else changes.
pub proof fn cursor_goes_right(g: Screen, p: Seq<u16>, action: char)
    requires
        screen::well_formed(g),
        action == 'C' || action == 'a',
    ensures
        ({
            let h = screen::dispatched(g, p, action);
            let n: int = if p.len() > 0 && p[0] > 0 {
                p[0] as int
            } else {
                1
            };
            &&& Screen { cursor_col: g.cursor_col, ..h } == g
            &&& g.cursor_col + n < g.cols ==> h.cursor_col == g.cursor_col + n
            &&& g.cursor_col + n >= g.cols && g.cols > 0 ==> h.cursor_col == g.cols - 1
            &&& g.cols == 0 ==> h.cursor_col == 0
        }),
{
}

/// `D` moves the cursor left by the first parameter, or by one, but not beyond the first column.
/// Nothing else changes, and the column never grows.
pub proof fn cursor_goes_left(g: Screen, p: Seq<u16>)
    requires
        screen::well_formed(g),
    ensures
        ({
            let h = screen::dispatched(g, p, 'D');
            let n: int = if p.len() > 0 && p[0] > 0 {
                p[0] as int
            } else {
                1
            };
            &&& Screen { cursor_col: g.cursor_col, ..h } == g
            &&& h.cursor_col <= g.cursor_col
            &&& n <= g.cursor_col ==> h.cursor_col == g.cursor_col - n
            &&& n >= g.cursor_col ==> h.cursor_col == 0
        }),
{
}

/// Going right and then left by as much comes back, where the right edge is not reached; and going
/// left and then right, where the left one is not.
pub proof fn going_back_returns(g: Screen, p: Seq<u16>)
    requires
        screen::well_formed(g),
        p.len() > 0,
        p[0] > 0,
    ensures
        g.cursor_col + p[0] < g.cols ==> screen::dispatched(
            screen::dispatched(g, p, 'C'),
            p,
            'D',
        ) == g,
        p[0] <= g.cursor_col < g.cols ==> screen::dispatched(
            screen::dispatched(g, p, 'D'),
            p,
            'C',
        ) == g,
        g.cursor_row + p[0] <= g.scroll_bottom && g.scroll_top <= g.cursor_row
            ==> screen::dispatched(screen::dispatched(g, p, 'B'), p, 'A') == g,
        g.cursor_row - p[0] >= g.scroll_top && g.cursor_row <= g.scroll_bottom
            ==> screen::dispatched(screen::dispatched(g, p, 'A'), p, 'B') == g,
{
}

/// `A` moves the cursor up by the first parameter, or by one, but not beyond the top of the scroll
/// region. Nothing else changes.
pub proof fn cursor_goes_up(g: Screen, p: Seq<u16>)
    requires
        screen::well_formed(g),
    ensures
        ({
            let h = screen::dispatched(g, p, 'A');
            let n: int = if p.len() > 0 && p[0] > 0 {
                p[0] as int
            } else {
                1
            };
            &&& Screen { cursor_row: g.cursor_row, ..h } == g
            &&& g.cursor_row - n >= g.scroll_top ==> h.cursor_row == g.cursor_row - n
            &&& g.cursor_row - n <= g.scroll_top ==> h.cursor_row == g.scroll_top
        }),
{
}

/// `B` and `e` move the cursor down by the first parameter, or by one, but not beyond the bottom of
/// the scroll region. Nothing else changes.
pub proof fn cursor_goes_down(g: Screen, p: Seq<u16>, action: char)
    requires
        screen::well_formed(g),
        action == 'B' || action == 'e',
    ensures
        ({
            let h = screen::dispatched(g, p, action);
            let n: int = if p.len() > 0 && p[0] > 0 {
                p[0] as int
            } else {
                1
            };
            &&& Screen { cursor_row: g.cursor_row, ..h } == g
            &&& g.cursor_row + n <= g.scroll_bottom ==> h.cursor_row == g.cursor_row + n
            &&& g.cursor_row + n >= g.scroll_bottom ==> h.cursor_row == g.scroll_bottom
        }),
{
}

/// `H` and `f` put the cursor into the row and the column that they name, counted from 1, `G` into
/// the column and `d` into the row. Beyond the screen it stops at the edge, and no parameter, or 0,
/// is the first. Nothing else changes.
pub proof fn cursor_goes_to_its_place(g: Screen, p: Seq<u16>, action: char)
    requires
        screen::well_formed(g),
        g.rows > 0,
        g.cols > 0,
    ensures
        ({
            let h = screen::dispatched(g, p, action);
            let n: int = if p.len() > 0 && p[0] > 0 {
                p[0] as int
            } else {
                1
            };
            let m: int = if p.len() > 1 && p[1] > 0 {
                p[1] as int
            } else {
                1
            };
            &&& action == 'H' || action == 'f' ==> {
                &&& Screen { cursor_row: g.cursor_row, cursor_col: g.cursor_col, ..h } == g
                &&& n <= g.rows ==> h.cursor_row == n - 1
                &&& n >= g.rows ==> h.cursor_row == g.rows - 1
                &&& m <= g.cols ==> h.cursor_col == m - 1
                &&& m >= g.cols ==> h.cursor_col == g.cols - 1
            }
            &&& action == 'G' ==> {
                &&& Screen { cursor_col: g.cursor_col, ..h } == g
                &&& n <= g.cols ==> h.cursor_col == n - 1
                &&& n >= g.cols ==> h.cursor_col == g.cols - 1
            }
            &&& action == 'd' ==> {
                &&& Screen { cursor_row: g.cursor_row, ..h } == g
                &&& n <= g.rows ==> h.cursor_row == n - 1
                &&& n >= g.rows ==> h.cursor_row == g.rows - 1
            }
        }),
{
}

/// A control sequence that is not known changes nothing.
pub proof fn unknown_sequence_changes_nothing(g: Screen, p: Seq<u16>, action: char)
    requires
        action != 'A' && action != 'B' && action != 'C' && action != 'D' && action != 'G' && action
            != 'H' && action != 'J' && action != 'K' && action != 'L' && action != 'M' && action
            != 'P',
        action != 'a' && action != 'd' && action != 'e' && action != 'f' && action != 'm' && action
            != 'r' && action != '@',
    ensures
        screen::dispatched(g, p, action) == g,
{
}

/// `r` makes the rows from the first to the second parameter the scroll region, counted from 1, and
/// the whole screen without parameters. It needs two rows at least, else the region stays. The
/// cursor goes to the upper left either way.
pub proof fn scroll_region_is_set(g: Screen, p: Seq<u16>)
    requires
        screen::well_formed(g),
        g.rows > 0,
    ensures
        ({
            let h = screen::dispatched(g, p, 'r');
            let first: int = if p.len() > 0 && p[0] > 0 {
                p[0] as int
            } else {
                1
            };
            let last: int = if p.len() > 1 && 0 < p[1] <= g.rows {
                p[1] as int
            } else {
                g.rows
            };
            &&& h.cursor_row == 0 && h.cursor_col == 0
            &&& first < last ==> h.scroll_top == first - 1 && h.scroll_bottom == last - 1
            &&& first >= last ==> h.scroll_top == g.scroll_top && h.scroll_bottom
                == g.scroll_bottom
            &&& Screen {
                cursor_row: g.cursor_row,
                cursor_col: g.cursor_col,
                scroll_top: g.scroll_top,
                scroll_bottom: g.scroll_bottom,
                ..h
            } == g
        }),
{
}

/// `K` empties the row of the cursor: from the cursor on without a parameter or with 0, up to and
/// with the cursor with 1, and all of it with 2. A wide glyph that is cut is emptied as a whole.
/// Nothing else changes, and any other parameter changes nothing at all.
pub proof fn line_is_erased(g: Screen, p: Seq<u16>, c: int)
    requires
        screen::well_formed(g),
        g.rows > 0,
        0 <= c < g.cols,
    ensures
        ({
            let h = screen::dispatched(g, p, 'K');
            let mode: int = if p.len() > 0 {
                p[0] as int
            } else {
                0
            };
            let old = g.cells[g.cursor_row];
            let new = h.cells[g.cursor_row];
            let col = if g.cursor_col < g.cols {
                g.cursor_col
            } else {
                g.cols - 1
            };
            &&& Screen { cells: g.cells, ..h } == g
            &&& h.cells.len() == g.cells.len()
            &&& forall|r: int|
                0 <= r < g.rows && r != g.cursor_row ==> #[trigger] h.cells[r] == g.cells[r]
            &&& mode == 0 && c >= g.cursor_col ==> new[c] == CellView::blank(g.pen)
            &&& mode == 0 && c < g.cursor_col && (c + 1 < g.cursor_col || g.cursor_col == g.cols
                || old[c + 1].width != 0) ==> new[c] == old[c]
            &&& mode == 1 && c <= col ==> new[c] == CellView::blank(g.pen)
            &&& mode == 1 && c > col && (c > col + 1 || old[c].width != 0) ==> new[c] == old[c]
            &&& mode == 2 ==> new[c] == CellView::blank(g.pen)
            &&& mode > 2 ==> h == g
        }),
{
    assert(p.len() > 0 ==> p[0] as int as u16 == p[0]);
}

/// `J` empties the screen: from the cursor on without a parameter or with 0, up to and with the
/// cursor with 1, and all of it with 2; with 3 the lines that scrolled out as well. The cursor stays
/// and so do all other cells. Any other parameter changes nothing at all.
pub proof fn display_is_erased(g: Screen, p: Seq<u16>, r: int, c: int)
    requires
        screen::well_formed(g),
        0 <= r < g.rows,
        0 <= c < g.cols,
    ensures
        ({
            let h = screen::dispatched(g, p, 'J');
            let mode: int = if p.len() > 0 {
                p[0] as int
            } else {
                0
            };
            let old = g.cells[r];
            let new = h.cells[r];
            let col = if g.cursor_col < g.cols {
                g.cursor_col
            } else {
                g.cols - 1
            };
            &&& mode != 3 ==> Screen { cells: g.cells, ..h } == g
            &&& mode == 3 ==> h.scrollback.len() == 0 && Screen {
                cells: g.cells,
                scrollback: g.scrollback,
                ..h
            } == g
            &&& mode == 0 && r < g.cursor_row ==> new[c] == old[c]
            &&& mode == 0 && r == g.cursor_row && c < g.cursor_col && (c + 1 < g.cursor_col
                || g.cursor_col == g.cols || old[c + 1].width != 0) ==> new[c] == old[c]
            &&& mode == 0 && (r > g.cursor_row || (r == g.cursor_row && c >= g.cursor_col))
                ==> new[c] == CellView::blank(g.pen)
            &&& mode == 1 && (r < g.cursor_row || (r == g.cursor_row && c <= col)) ==> new[c]
                == CellView::blank(g.pen)
            &&& mode == 1 && r == g.cursor_row && c > col && (c > col + 1 || old[c].width != 0)
                ==> new[c] == old[c]
            &&& mode == 1 && r > g.cursor_row ==> new[c] == old[c]
            &&& mode == 2 || mode == 3 ==> new[c] == CellView::blank(g.pen)
            &&& mode > 3 ==> h == g
        }),
{
    assert(p.len() > 0 ==> p[0] as int as u16 == p[0]);
}

proof fn lemma_lines_shift_down(
    cells: Seq<Seq<CellView>>,
    at: int,
    bottom: int,
    empty: Seq<CellView>,
    n: int,
    r: int,
)
    requires
        0 <= at <= bottom < cells.len(),
        0 <= n,
        0 <= r < cells.len(),
    ensures
        screen::lines_inserted(cells, at, bottom, empty, n).len() == cells.len(),
        screen::lines_inserted(cells, at, bottom, empty, n)[r] == if r < at || r > bottom {
            cells[r]
        } else if r < at + n {
            empty
        } else {
            cells[r - n]
        },
        screen::lines_deleted(cells, bottom, at, empty, n) == screen::lines_inserted(
            cells,
            at,
            bottom,
            empty,
            n,
        ),
    decreases n,
{
    if n > 0 {
        lemma_lines_shift_down(cells, at, bottom, empty, n - 1, r);
        if r > 0 {
            lemma_lines_shift_down(cells, at, bottom, empty, n - 1, r - 1);
        }
    }
}

proof fn lemma_lines_shift_up(
    cells: Seq<Seq<CellView>>,
    at: int,
    bottom: int,
    empty: Seq<CellView>,
    n: int,
    r: int,
)
    requires
        0 <= at <= bottom < cells.len(),
        0 <= n,
        0 <= r < cells.len(),
    ensures
        screen::lines_deleted(cells, at, bottom, empty, n).len() == cells.len(),
        screen::lines_deleted(cells, at, bottom, empty, n)[r] == if r < at || r > bottom {
            cells[r]
        } else if r + n > bottom {
            empty
        } else {
            cells[r + n]
        },
    decreases n,
{
    if n > 0 {
        lemma_lines_shift_up(cells, at, bottom, empty, n - 1, r);
        if r + 1 < cells.len() {
            lemma_lines_shift_up(cells, at, bottom, empty, n - 1, r + 1);
        }
    }
}

/// `L` puts in empty lines at the cursor: the lines from the cursor on move down, those that leave
/// the scroll region are lost, and what is above the cursor and below the region stays. `M` takes
/// lines out at the cursor: those below move up, and empty ones come in at the bottom of the region.
pub proof fn lines_move_within_the_region(g: Screen, p: Seq<u16>, r: int, c: int)
    requires
        screen::well_formed(g),
        0 <= r < g.rows,
        0 <= c < g.cols,
        g.cursor_row <= g.scroll_bottom,
    ensures
        ({
            let down = screen::dispatched(g, p, 'L');
            let up = screen::dispatched(g, p, 'M');
            let n: int = if p.len() > 0 && p[0] > 0 {
                p[0] as int
            } else {
                1
            };
            &&& Screen { cells: g.cells, ..down } == g
            &&& Screen { cells: g.cells, ..up } == g
            &&& r < g.cursor_row || r > g.scroll_bottom ==> down.cells[r] == g.cells[r]
                && up.cells[r] == g.cells[r]
            &&& g.cursor_row <= r <= g.scroll_bottom && r < g.cursor_row + n ==> down.cells[r][c]
                == CellView::blank(g.pen)
            &&& g.cursor_row + n <= r <= g.scroll_bottom ==> down.cells[r] == g.cells[r - n]
            &&& g.cursor_row <= r && r + n <= g.scroll_bottom ==> up.cells[r] == g.cells[r + n]
            &&& g.cursor_row <= r <= g.scroll_bottom && r + n > g.scroll_bottom
                ==> up.cells[r][c] == CellView::blank(g.pen)
        }),
{
    let n: int = if p.len() > 0 && p[0] > 0 {
        p[0] as int
    } else {
        1
    };
    let empty = screen::blank_row(g.cols, g.pen);
    assert(empty[c] == CellView::blank(g.pen));
    lemma_lines_shift_down(g.cells, g.cursor_row, g.scroll_bottom, empty, n, r);
    lemma_lines_shift_up(g.cells, g.cursor_row, g.scroll_bottom, empty, n, r);
}

/// With the cursor below the scroll region, `L` moves the lines from the bottom of the region to the
/// cursor up, and `M` moves them down.
pub proof fn lines_move_below_the_region(g: Screen, p: Seq<u16>, r: int)
    requires
        screen::well_formed(g),
        0 <= r < g.rows,
        g.cursor_row > g.scroll_bottom,
    ensures
        ({
            let up = screen::dispatched(g, p, 'L');
            let down = screen::dispatched(g, p, 'M');
            let n: int = if p.len() > 0 && p[0] > 0 {
                p[0] as int
            } else {
                1
            };
            &&& r < g.scroll_bottom || r > g.cursor_row ==> down.cells[r] == g.cells[r]
                && up.cells[r] == g.cells[r]
            &&& g.scroll_bottom <= r && r + n <= g.cursor_row ==> up.cells[r] == g.cells[r + n]
            &&& g.scroll_bottom + n <= r <= g.cursor_row ==> down.cells[r] == g.cells[r - n]
        }),
{
    let n: int = if p.len() > 0 && p[0] > 0 {
        p[0] as int
    } else {
        1
    };
    let empty = screen::blank_row(g.cols, g.pen);
    lemma_lines_shift_down(g.cells, g.scroll_bottom, g.cursor_row, empty, n, r);
    lemma_lines_shift_up(g.cells, g.scroll_bottom, g.cursor_row, empty, n, r);
    lemma_inserted_below(g.cells, g.cursor_row, g.scroll_bottom, empty, n);
}

proof fn lemma_inserted_below(
    cells: Seq<Seq<CellView>>,
    at: int,
    bottom: int,
    empty: Seq<CellView>,
    n: int,
)
    ensures
        screen::lines_inserted(cells, at, bottom, empty, n) == screen::lines_deleted(
            cells,
            bottom,
            at,
            empty,
            n,
        ),
    decreases n,
{
    if n > 0 {
        lemma_inserted_below(cells, at, bottom, empty, n - 1);
    }
}

/// `P` takes the glyphs on so many columns out of the row of the cursor, from the cursor on: what
/// stands to the right moves up to it, and the end of the row becomes empty. On the second column of
/// a wide glyph the cursor goes to the first, and a glyph that would be cut goes as a whole.
pub proof fn glyphs_are_taken_out(g: Screen, p: Seq<u16>, c: int)
    requires
        screen::well_formed(g),
        g.rows > 0,
        g.cursor_col < g.cols,
        0 <= c < g.cols,
    ensures
        ({
            let h = screen::dispatched(g, p, 'P');
            let n: int = if p.len() > 0 && p[0] > 0 {
                p[0] as int
            } else {
                1
            };
            let old = g.cells[g.cursor_row];
            let new = h.cells[g.cursor_row];
            let at = if old[g.cursor_col].width == 0 {
                g.cursor_col - 1
            } else {
                g.cursor_col
            };
            let gone: int = if at + n >= g.cols {
                g.cols - at
            } else if old[at + n].width == 0 {
                n + 1
            } else {
                n
            };
            &&& Screen { cells: g.cells, cursor_col: g.cursor_col, ..h } == g
            &&& h.cursor_col == at
            &&& forall|r: int|
                0 <= r < g.rows && r != g.cursor_row ==> #[trigger] h.cells[r] == g.cells[r]
            &&& new.len() == g.cols
            &&& c < at ==> new[c] == old[c]
            &&& at <= c < g.cols - gone ==> new[c] == old[c + gone]
            &&& g.cols - gone <= c ==> new[c] == CellView::blank(g.pen)
        }),
{
    screen::lemma_tidy_at(g.cells[g.cursor_row], g.cursor_col);
}

/// `@` puts so many empty cells into the row of the cursor, at the cursor: what stands there moves to
/// the right, and what leaves the row is lost. On the second column of a wide glyph the cursor goes
/// to the first, and a wide glyph that loses its second column becomes empty.
pub proof fn empty_cells_are_put_in(g: Screen, p: Seq<u16>, c: int)
    requires
        screen::well_formed(g),
        g.rows > 0,
        g.cursor_col < g.cols,
        0 <= c < g.cols,
    ensures
        ({
            let h = screen::dispatched(g, p, '@');
            let n: int = if p.len() > 0 && p[0] > 0 {
                p[0] as int
            } else {
                1
            };
            let old = g.cells[g.cursor_row];
            let new = h.cells[g.cursor_row];
            let at = if old[g.cursor_col].width == 0 {
                g.cursor_col - 1
            } else {
                g.cursor_col
            };
            &&& Screen { cells: g.cells, cursor_col: g.cursor_col, ..h } == g
            &&& h.cursor_col == at
            &&& forall|r: int|
                0 <= r < g.rows && r != g.cursor_row ==> #[trigger] h.cells[r] == g.cells[r]
            &&& new.len() == g.cols
            &&& c < at ==> new[c] == old[c]
            &&& at <= c < at + n ==> new[c] == CellView::blank(g.pen)
            &&& at + n <= c && (c + 1 < g.cols || old[c - n].width != 2) ==> new[c] == old[c - n]
            &&& at + n <= c && c + 1 == g.cols && old[c - n].width == 2 ==> new[c]
                == CellView::blank(g.pen)
        }),
{
    let old = g.cells[g.cursor_row];
    screen::lemma_tidy_at(old, g.cursor_col);
    let at = if old[g.cursor_col].width == 0 {
        g.cursor_col - 1
    } else {
        g.cursor_col
    };
    let n: int = if p.len() > 0 && p[0] > 0 {
        p[0] as int
    } else {
        1
    };
    if at > 0 {
        screen::lemma_tidy_at(old, at - 1);
    }
}

/// `m` without parameters makes the rendition plain. One parameter sets what it stands for and
/// leaves the rest: 0 nothing at all, 1 and 22 bold on and off, 3 and 23 italic, 4 and 24 the
/// underline, 30 to 37 and 90 to 97 the eight colours and the eight bright ones of the text, 40 to 47
/// and 100 to 107 those of the ground, and 39 and 49 take the colour away. Any other changes nothing.
pub proof fn rendition_is_set(g: Screen, n: u16)
    ensures
        screen::dispatched(g, Seq::empty(), 'm') == (Screen {
            pen: Pen {
                fg: TermColor::Default,
                bg: TermColor::Default,
                bold: false,
                italic: false,
                underline: false,
            },
            ..g
        }),
        ({
            let h = screen::dispatched(g, seq![n], 'm');
            let old = g.pen;
            let new = h.pen;
            &&& Screen { pen: g.pen, ..h } == g
            &&& n == 0 ==> h == screen::dispatched(g, Seq::empty(), 'm')
            &&& n == 1 ==> new.bold && Pen { bold: old.bold, ..new } == old
            &&& n == 22 ==> !new.bold && Pen { bold: old.bold, ..new } == old
            &&& n == 3 ==> new.italic && Pen { italic: old.italic, ..new } == old
            &&& n == 23 ==> !new.italic && Pen { italic: old.italic, ..new } == old
            &&& n == 4 ==> new.underline && Pen { underline: old.underline, ..new } == old
            &&& n == 24 ==> !new.underline && Pen { underline: old.underline, ..new } == old
            &&& n == 39 ==> new.fg == TermColor::Default && Pen { fg: old.fg, ..new } == old
            &&& n == 49 ==> new.bg == TermColor::Default && Pen { bg: old.bg, ..new } == old
            &&& 30 <= n <= 37 ==> new.fg == TermColor::Ansi((n - 30) as u8) && Pen {
                fg: old.fg,
                ..new
            } == old
            &&& 90 <= n <= 97 ==> new.fg == TermColor::Ansi((n - 90 + 8) as u8) && Pen {
                fg: old.fg,
                ..new
            } == old
            &&& 40 <= n <= 47 ==> new.bg == TermColor::Ansi((n - 40) as u8) && Pen {
                bg: old.bg,
                ..new
            } == old
            &&& 100 <= n <= 107 ==> new.bg == TermColor::Ansi((n - 100 + 8) as u8) && Pen {
                bg: old.bg,
                ..new
            } == old
            &&& !(n == 0 || n == 1 || n == 3 || n == 4 || n == 22 || n == 23 || n == 24 || n == 39
                || n == 49 || 30 <= n <= 37 || 40 <= n <= 47 || 90 <= n <= 97 || 100 <= n <= 107)
                ==> h == g
        }),
{
    let p = seq![n];
    reveal_with_fuel(screen::rendition, 2);
    assert(p.len() == 1 && p[0] == n);
}

/// A parameter of `m` that names no colour of its own takes effect before those behind it.
pub proof fn renditions_take_effect_in_turn(g: Screen, n: u16, rest: Seq<u16>)
    requires
        n != 38,
        n != 48,
        rest.len() > 0,
    ensures
        screen::dispatched(g, seq![n] + rest, 'm') == screen::dispatched(
            screen::dispatched(g, seq![n], 'm'),
            rest,
            'm',
        ),
{
    let p = seq![n] + rest;
    let one = seq![n];
    assert(p[0] == n && one[0] == n);
    lemma_colored(g, one, rest, pen_step(g.pen, one, 0).0);
}

/// What one parameter makes of a pen, with how many parameters it takes.
spec fn pen_step(pen: Pen, p: Seq<u16>, i: int) -> (Pen, int) {
    let n = p[i];
    let ext = screen::extended_color(p, i);
    if n == 0 {
        (Pen::plain(), 1)
    } else if n == 1 {
        (Pen { bold: true, ..pen }, 1)
    } else if n == 3 {
        (Pen { italic: true, ..pen }, 1)
    } else if n == 4 {
        (Pen { underline: true, ..pen }, 1)
    } else if n == 22 {
        (Pen { bold: false, ..pen }, 1)
    } else if n == 23 {
        (Pen { italic: false, ..pen }, 1)
    } else if n == 24 {
        (Pen { underline: false, ..pen }, 1)
    } else if n == 39 {
        (Pen { fg: TermColor::Default, ..pen }, 1)
    } else if n == 49 {
        (Pen { bg: TermColor::Default, ..pen }, 1)
    } else if 30 <= n <= 37 {
        (Pen { fg: TermColor::Ansi((n - 30) as u8), ..pen }, 1)
    } else if 40 <= n <= 47 {
        (Pen { bg: TermColor::Ansi((n - 40) as u8), ..pen }, 1)
    } else if 90 <= n <= 97 {
        (Pen { fg: TermColor::Ansi((n - 82) as u8), ..pen }, 1)
    } else if 100 <= n <= 107 {
        (Pen { bg: TermColor::Ansi((n - 92) as u8), ..pen }, 1)
    } else if n == 38 && ext.0 is Some {
        (Pen { fg: ext.0->0, ..pen }, 1 + ext.1)
    } else if n == 48 && ext.0 is Some {
        (Pen { bg: ext.0->0, ..pen }, 1 + ext.1)
    } else {
        (pen, 1)
    }
}

proof fn lemma_pen_step(pen: Pen, p: Seq<u16>, i: int)
    requires
        0 <= i < p.len(),
    ensures
        screen::rendition(pen, p, i) == screen::rendition(
            pen_step(pen, p, i).0,
            p,
            i + pen_step(pen, p, i).1,
        ),
        1 <= pen_step(pen, p, i).1 <= p.len() - i,
{
}

proof fn lemma_rendition_shift(pen: Pen, p: Seq<u16>, rest: Seq<u16>, k: int, i: int)
    requires
        0 <= k,
        0 <= i <= rest.len(),
        p.len() == rest.len() + k,
        forall|q: int| 0 <= q < rest.len() ==> p[q + k] == #[trigger] rest[q],
    ensures
        screen::rendition(pen, p, i + k) == screen::rendition(pen, rest, i),
    decreases rest.len() - i,
{
    if i < rest.len() {
        let j = i + k;
        assert(p[j] == rest[i]);
        assert(i + 1 < rest.len() ==> p[j + 1] == rest[i + 1]);
        assert(i + 2 < rest.len() ==> p[j + 2] == rest[i + 2]);
        assert(i + 3 < rest.len() ==> p[j + 3] == rest[i + 3]);
        assert(i + 4 < rest.len() ==> p[j + 4] == rest[i + 4]);
        assert(screen::extended_color(p, j) == screen::extended_color(rest, i));
        lemma_pen_step(pen, p, j);
        lemma_pen_step(pen, rest, i);
        let step = pen_step(pen, rest, i);
        lemma_rendition_shift(step.0, p, rest, k, i + step.1);
    }
}

/// Parameters that name one colour, with some behind them or none.
proof fn lemma_colored(g: Screen, front: Seq<u16>, rest: Seq<u16>, pen: Pen)
    requires
        front.len() > 0,
        rest.len() > 0,
        pen_step(g.pen, front, 0) == (pen, front.len() as int),
        pen_step(g.pen, front + rest, 0) == (pen, front.len() as int),
    ensures
        screen::dispatched(g, front, 'm') == (Screen { pen, ..g }),
        screen::dispatched(g, front + rest, 'm') == screen::dispatched(
            Screen { pen, ..g },
            rest,
            'm',
        ),
{
    let k = front.len() as int;
    lemma_pen_step(g.pen, front, 0);
    lemma_pen_step(g.pen, front + rest, 0);
    lemma_rendition_shift(pen, front + rest, rest, k, 0);
    assert(screen::rendition(pen, front, k) == pen);
}

/// `38;5;n` takes the colour `n` of the palette for the text and `48;5;n` for the ground; `38;2;r;g;b`
/// and `48;2;r;g;b` take the colour of those parts. What stands behind takes effect next.
pub proof fn extended_colors_are_set(g: Screen, n: u8, r: u8, gr: u8, b: u8, rest: Seq<u16>)
    requires
        rest.len() > 0,
    ensures
        screen::dispatched(g, seq![38u16, 5u16, n as u16] + rest, 'm') == screen::dispatched(
            Screen { pen: Pen { fg: TermColor::Indexed(n), ..g.pen }, ..g },
            rest,
            'm',
        ),
        screen::dispatched(g, seq![48u16, 5u16, n as u16] + rest, 'm') == screen::dispatched(
            Screen { pen: Pen { bg: TermColor::Indexed(n), ..g.pen }, ..g },
            rest,
            'm',
        ),
        screen::dispatched(g, seq![38u16, 2u16, r as u16, gr as u16, b as u16] + rest, 'm')
            == screen::dispatched(
            Screen { pen: Pen { fg: TermColor::Rgb(r, gr, b), ..g.pen }, ..g },
            rest,
            'm',
        ),
        screen::dispatched(g, seq![48u16, 2u16, r as u16, gr as u16, b as u16] + rest, 'm')
            == screen::dispatched(
            Screen { pen: Pen { bg: TermColor::Rgb(r, gr, b), ..g.pen }, ..g },
            rest,
            'm',
        ),
        screen::dispatched(g, seq![38u16, 5u16, n as u16], 'm').pen == (Pen {
            fg: TermColor::Indexed(n),
            ..g.pen
        }),
        screen::dispatched(g, seq![48u16, 5u16, n as u16], 'm').pen == (Pen {
            bg: TermColor::Indexed(n),
            ..g.pen
        }),
        screen::dispatched(g, seq![38u16, 2u16, r as u16, gr as u16, b as u16], 'm').pen == (Pen {
            fg: TermColor::Rgb(r, gr, b),
            ..g.pen
        }),
        screen::dispatched(g, seq![48u16, 2u16, r as u16, gr as u16, b as u16], 'm').pen == (Pen {
            bg: TermColor::Rgb(r, gr, b),
            ..g.pen
        }),
{
    let a = seq![38u16, 5u16, n as u16];
    let b1 = seq![48u16, 5u16, n as u16];
    let c = seq![38u16, 2u16, r as u16, gr as u16, b as u16];
    let d = seq![48u16, 2u16, r as u16, gr as u16, b as u16];
    assert((a + rest)[0] == 38 && (a + rest)[1] == 5 && (a + rest)[2] == n);
    assert((b1 + rest)[0] == 48 && (b1 + rest)[1] == 5 && (b1 + rest)[2] == n);
    assert((c + rest)[0] == 38 && (c + rest)[1] == 2 && (c + rest)[2] == r && (c + rest)[3] == gr
        && (c + rest)[4] == b);
    assert((d + rest)[0] == 48 && (d + rest)[1] == 2 && (d + rest)[2] == r && (d + rest)[3] == gr
        && (d + rest)[4] == b);
    lemma_colored(g, a, rest, Pen { fg: TermColor::Indexed(n), ..g.pen });
    lemma_colored(g, b1, rest, Pen { bg: TermColor::Indexed(n), ..g.pen });
    lemma_colored(g, c, rest, Pen { fg: TermColor::Rgb(r, gr, b), ..g.pen });
    lemma_colored(g, d, rest, Pen { bg: TermColor::Rgb(r, gr, b), ..g.pen });
}

/// A carriage return puts the cursor into the first column, a backspace one column to the left, and a
/// tab at the next column that is a multiple of eight, or at the last one. Nothing else changes; and
/// any other control character, but those of a new line, changes nothing at all.
pub proof fn control_characters_move_the_cursor(g: Screen, b: u8)
    requires
        screen::well_formed(g),
    ensures
        ({
            let h = screen::executed(g, b);
            &&& !(10 <= b <= 12) ==> Screen { cursor_col: g.cursor_col, ..h } == g
            &&& b == 13 ==> h.cursor_col == 0
            &&& b == 8 && g.cursor_col > 0 ==> h.cursor_col == g.cursor_col - 1
            &&& b == 8 && g.cursor_col == 0 ==> h.cursor_col == 0
            &&& b == 9 && h.cursor_col < g.cols - 1 ==> h.cursor_col % 8 == 0 && g.cursor_col
                < h.cursor_col <= g.cursor_col + 8
            &&& b == 9 && g.cols > 0 ==> h.cursor_col <= g.cols - 1 && (g.cursor_col < g.cols
                ==> h.cursor_col >= g.cursor_col)
            &&& b == 9 && g.cursor_col - g.cursor_col % 8 + 8 < g.cols ==> h.cursor_col
                == g.cursor_col - g.cursor_col % 8 + 8
            &&& b == 9 && g.cursor_col - g.cursor_col % 8 + 8 >= g.cols > 0 ==> h.cursor_col
                == g.cols - 1
            &&& b != 8 && b != 9 && b != 10 && b != 11 && b != 12 && b != 13 ==> h == g
        }),
{
}

/// A line feed moves the cursor one row down in its column. At the bottom of the scroll region, and
/// below it, the cursor stays and the lines of the region move up instead: the top one goes to the
/// end of the scrollback and an empty one comes in at the bottom. Rows outside the region stay.
pub proof fn line_feed_goes_down_or_scrolls(g: Screen, b: u8, r: int)
    requires
        screen::well_formed(g),
        g.rows > 0,
        10 <= b <= 12,
        0 <= r < g.rows,
    ensures
        ({
            let h = screen::executed(g, b);
            &&& g.cursor_row < g.scroll_bottom ==> h.cursor_row == g.cursor_row + 1 && Screen {
                cursor_row: g.cursor_row,
                ..h
            } == g
            &&& g.cursor_row >= g.scroll_bottom ==> {
                &&& Screen { cells: g.cells, scrollback: g.scrollback, ..h } == g
                &&& h.scrollback == g.scrollback.push(g.cells[g.scroll_top])
                &&& h.cells.len() == g.cells.len()
                &&& r < g.scroll_top || r > g.scroll_bottom ==> h.cells[r] == g.cells[r]
                &&& g.scroll_top <= r < g.scroll_bottom ==> h.cells[r] == g.cells[r + 1]
                &&& r == g.scroll_bottom ==> h.cells[r].len() == g.cols && forall|c: int|
                    0 <= c < g.cols ==> #[trigger] h.cells[r][c] == CellView::blank(g.pen)
            }
        }),
{
}

/// A glyph that does not join the one before it and has room in its row is written at the cursor, in
/// the rendition of the moment, and the cursor moves behind it. A wide glyph takes two columns. The
/// other cells of the row stay, but for the other half of a wide glyph that is written over.
pub proof fn glyph_is_written_at_the_cursor(g: Screen, c: char, at: int)
    requires
        screen::well_formed(g),
        g.rows > 0,
        screen::attached(g, c) is None,
        1 <= cell::glyph_width(c),
        g.cols >= 2,
        g.cursor_col + cell::glyph_width(c) <= g.cols,
        0 <= at < g.cols,
    ensures
        ({
            let h = screen::printed(g, c);
            let w = cell::glyph_width(c);
            let old = g.cells[g.cursor_row];
            let new = h.cells[g.cursor_row];
            &&& Screen { cells: g.cells, cursor_col: g.cursor_col, ..h } == g
            &&& h.cursor_col == g.cursor_col + w
            &&& forall|r: int|
                0 <= r < g.rows && r != g.cursor_row ==> #[trigger] h.cells[r] == g.cells[r]
            &&& new[g.cursor_col].ch == c && new[g.cursor_col].pen == g.pen && new[g.cursor_col].width
                == w && new[g.cursor_col].combining.len() == 0
            &&& w == 2 ==> new[g.cursor_col + 1] == CellView::filler(g.pen)
            &&& at < g.cursor_col - 1 || at > g.cursor_col + w ==> new[at] == old[at]
            &&& at == g.cursor_col - 1 && old[at].width != 2 ==> new[at] == old[at]
            &&& at == g.cursor_col - 1 && old[at].width == 2 ==> new[at] == CellView::blank(g.pen)
            &&& at == g.cursor_col + w && old[at].width != 0 ==> new[at] == old[at]
            &&& at == g.cursor_col + w && old[at].width == 0 ==> new[at] == CellView::blank(g.pen)
        }),
{
    let old = g.cells[g.cursor_row];
    let w = cell::glyph_width(c);
    let col = g.cursor_col;
    screen::lemma_tidy_at(old, col);
    if col > 0 {
        screen::lemma_tidy_at(old, col - 1);
    }
    if col + 1 < g.cols {
        screen::lemma_tidy_at(old, col + 1);
    }
    if col + 2 < g.cols {
        screen::lemma_tidy_at(old, col + 2);
    }
    let new = screen::printed(g, c).cells[g.cursor_row];
    assert(new == screen::write_glyph(old, col, c, w, g.pen));
}

/// A glyph that has no room left in its row goes to the next one: it is written as if a carriage
/// return and a line feed had come before it.
pub proof fn glyph_without_room_starts_a_new_line(g: Screen, c: char)
    requires
        screen::well_formed(g),
        g.rows > 0,
        screen::attached(g, c) is None,
        1 <= cell::glyph_width(c),
        g.cols >= 2,
        g.cursor_col + cell::glyph_width(c) > g.cols,
    ensures
        ({
            let below = screen::executed(screen::executed(g, 13), 10);
            let h = screen::printed(g, c);
            &&& h.cursor_row == below.cursor_row
            &&& h.cursor_col == cell::glyph_width(c)
            &&& h.scrollback == below.scrollback
            &&& h.cells[h.cursor_row][0].ch == c
            &&& forall|r: int|
                0 <= r < g.rows && r != h.cursor_row ==> #[trigger] h.cells[r] == below.cells[r]
        }),
{
    let below = screen::executed(screen::executed(g, 13), 10);
    screen::advancing_keeps_well_formed(Screen { cursor_col: 0, ..g });
    assert(screen::well_formed(below));
    let old = below.cells[below.cursor_row];
    screen::lemma_tidy_at(old, 0);
    screen::lemma_tidy_at(old, 1);
    assert(screen::printed(g, c).cells[below.cursor_row] == screen::write_glyph(
        old,
        0,
        c,
        cell::glyph_width(c),
        g.pen,
    ));
}

/// A character without columns that does not join the glyph before it is not shown.
pub proof fn character_without_columns_is_not_shown(g: Screen, c: char)
    requires
        screen::attached(g, c) is None,
        cell::glyph_width(c) == 0,
    ensures
        screen::printed(g, c) == g,
{
}

/// The columns of a character are those that the width table gives it, at most two, and none for a
/// control.
pub proof fn glyphs_take_at_most_two_columns(c: char)
    ensures
        cell::char_columns(c) is None ==> cell::glyph_width(c) == 0,
        cell::char_columns(c) is Some && cell::char_columns(c)->0 <= 2 ==> cell::glyph_width(c)
            == cell::char_columns(c)->0,
        cell::char_columns(c) is Some && cell::char_columns(c)->0 > 2 ==> cell::glyph_width(c) == 2,
{
}

/// A scalar joins the glyph before the cursor where the two compose and nothing has joined it yet, or
/// where the scalar takes no column: it is then kept behind the others. The glyph keeps its columns
/// and its rendition, every other cell stays, and so does the cursor.
pub proof fn scalar_joins_the_glyph_before(g: Screen, c: char, col: int)
    requires
        screen::well_formed(g),
        g.rows > 0,
        0 <= col < g.cursor_col,
        col == g.cursor_col - 1 || col == g.cursor_col - 2,
        g.cells[g.cursor_row][g.cursor_col - 1].width == 0 ==> col == g.cursor_col - 2,
        g.cells[g.cursor_row][g.cursor_col - 1].width != 0 ==> col == g.cursor_col - 1,
    ensures
        ({
            let h = screen::printed(g, c);
            let old = g.cells[g.cursor_row][col];
            let new = h.cells[g.cursor_row][col];
            let both = cell::composed(old.ch, c);
            &&& (screen::attached(g, c) is Some) <==> ((old.combining.len() == 0 && both is Some)
                || cell::glyph_width(c) == 0)
            &&& screen::attached(g, c) is Some ==> {
                &&& Screen { cells: g.cells, ..h } == g
                &&& forall|r: int|
                    0 <= r < g.rows && r != g.cursor_row ==> #[trigger] h.cells[r] == g.cells[r]
                &&& forall|k: int|
                    0 <= k < g.cols && k != col ==> #[trigger] h.cells[g.cursor_row][k]
                        == g.cells[g.cursor_row][k]
                &&& new.width == old.width && new.pen == old.pen
                &&& old.combining.len() == 0 && both is Some ==> new.ch == both->0
                    && new.combining.len() == 0
                &&& !(old.combining.len() == 0 && both is Some) ==> new.ch == old.ch
                    && new.combining == old.combining.push(c)
            }
        }),
{
    screen::lemma_tidy_at(g.cells[g.cursor_row], g.cursor_col - 1);
}

/// Nothing joins a glyph where there is none before the cursor.
pub proof fn nothing_joins_at_the_start(g: Screen, c: char)
    requires
        g.cursor_col == 0,
    ensures
        screen::attached(g, c) is None,
{
}

/// A screen that is brought to another size keeps what fits: each cell that is on both stays, but for
/// a wide glyph that loses its second column, and new room is empty. The cursor stays where it was or
/// goes to the edge, and the whole screen scrolls again. The rendition, the title and the directory
/// stay.
pub proof fn resized_screen_keeps_what_fits(g: Screen, cols: int, rows: int, r: int, c: int)
    requires
        screen::well_formed(g),
        0 < cols,
        0 < rows,
        0 <= r < rows,
        0 <= c < cols,
    ensures
        ({
            let h = screen::resized(g, cols, rows);
            &&& h.cols == cols && h.rows == rows && h.cells.len() == rows && h.cells[r].len() == cols
            &&& r < g.rows && c < g.cols && !(c == cols - 1 && c + 1 < g.cols
                && g.cells[r][c].width == 2) ==> h.cells[r][c] == g.cells[r][c]
            &&& r < g.rows && c < g.cols && c == cols - 1 && c + 1 < g.cols && g.cells[r][c].width
                == 2 ==> h.cells[r][c] == CellView::blank(g.pen)
            &&& r >= g.rows || c >= g.cols ==> h.cells[r][c] == CellView::blank(Pen::plain())
            &&& g.cursor_row < rows ==> h.cursor_row == g.cursor_row
            &&& g.cursor_row >= rows ==> h.cursor_row == rows - 1
            &&& g.cursor_col < cols ==> h.cursor_col == g.cursor_col
            &&& g.cursor_col >= cols ==> h.cursor_col == cols - 1
            &&& h.scroll_top == 0 && h.scroll_bottom == rows - 1
            &&& h.scrollback.len() == g.scrollback.len()
            &&& h.pen == g.pen && h.title == g.title && h.cwd == g.cwd && h.cwd_changed
                == g.cwd_changed && h.scroll_offset == g.scroll_offset
        }),
{
}

/// The lines that scrolled out keep what fits when the screen gets another size.
pub proof fn resized_scrollback_keeps_what_fits(g: Screen, cols: int, rows: int, r: int, c: int)
    requires
        screen::well_formed(g),
        0 <= cols,
        0 <= rows,
        0 <= r < g.scrollback.len(),
        0 <= c < cols,
    ensures
        ({
            let h = screen::resized(g, cols, rows);
            &&& h.scrollback.len() == g.scrollback.len() && h.scrollback[r].len() == cols
            &&& c < g.cols && !(c == cols - 1 && c + 1 < g.cols && g.scrollback[r][c].width == 2)
                ==> h.scrollback[r][c] == g.scrollback[r][c]
            &&& c >= g.cols ==> h.scrollback[r][c] == CellView::blank(g.pen)
        }),
{
}

/// The commands 0 and 2 set the title to the text that they carry, and change nothing else. Text that
/// is no UTF-8 is passed over.
pub proof fn title_is_set(g: Screen, kind: Seq<u8>, title: Seq<char>, more: Seq<Seq<u8>>)
    requires
        kind == seq![48u8] || kind == seq![50u8],
    ensures
        performer::commanded(g, seq![kind, vstd::utf8::encode_utf8(title)] + more) == (Screen {
            title,
            ..g
        }),
        forall|bad: Seq<u8>|
            !vstd::utf8::valid_utf8(bad) ==> performer::commanded(g, #[trigger] seq![kind, bad])
                == g,
        performer::commanded(g, seq![kind]) == g,
{
    let p = seq![kind, vstd::utf8::encode_utf8(title)] + more;
    vstd::utf8::encode_utf8_valid_utf8(title);
    vstd::utf8::encode_utf8_decode_utf8(title);
    assert(p[0] == kind && p[1] == vstd::utf8::encode_utf8(title));
}

/// The command 7 with a file URL notes the directory that it names as a new one, unless it is the one
/// that is known already. Nothing else changes. Any other command changes nothing at all.
pub proof fn directory_is_reported(g: Screen, kind: Seq<u8>, url: Seq<u8>)
    requires
        vstd::utf8::valid_utf8(url),
        osc7::url_path(url) is Some,
    ensures
        ({
            let h = performer::commanded(g, seq![kind, url]);
            let path = osc7::url_path(url)->0;
            &&& kind == seq![55u8] && (g.cwd is None || !crate::path::same_path(g.cwd->0, path))
                ==> h.cwd == Some(path) && h.cwd_changed && Screen {
                cwd: g.cwd,
                cwd_changed: g.cwd_changed,
                ..h
            } == g
            &&& kind == seq![55u8] && g.cwd is Some && crate::path::same_path(g.cwd->0, path) ==> h
                == g
            &&& kind != seq![55u8] && kind != seq![48u8] && kind != seq![50u8] ==> h == g
        }),
{
    let p = seq![kind, url];
    assert(p[0] == kind && p[1] == url);
    assert(seq![55u8][0] == 55 && seq![48u8][0] == 48 && seq![50u8][0] == 50);
}

/// A file URL names what stands from the first slash behind the host on; anything that does not start
/// with `file://`, or has no slash behind the host, names nothing.
pub proof fn file_url_names_a_path(host: Seq<u8>, rest: Seq<u8>)
    requires
        !host.contains(47u8),
    ensures
        osc7::url_path(
            seq![102u8, 105u8, 108u8, 101u8, 58u8, 47u8, 47u8] + host + seq![47u8] + rest,
        ) == Some(osc7::percent_decoded(seq![47u8] + rest)),
        osc7::url_path(seq![102u8, 105u8, 108u8, 101u8, 58u8, 47u8, 47u8] + host) is None,
        !seq![102u8, 105u8, 108u8, 101u8, 58u8, 47u8, 47u8].is_prefix_of(rest)
            ==> osc7::url_path(rest) is None,
{
    let scheme = seq![102u8, 105u8, 108u8, 101u8, 58u8, 47u8, 47u8];
    let u = scheme + host + seq![47u8] + rest;
    crate::path::lemma_segment_end(u, 7);
    let end = crate::path::segment_end(u, 7);
    let at = 7 + host.len();
    assert(u[at as int] == 47);
    if end < at {
        assert(u[end] == host[end - 7]);
        assert(host.contains(host[end - 7]));
    }
    assert(u.skip(at as int) =~= seq![47u8] + rest);
    assert(u.take(7) =~= scheme);
    let v = scheme + host;
    crate::path::lemma_segment_end(v, 7);
    let stop = crate::path::segment_end(v, 7);
    if stop < v.len() {
        assert(v[stop] == host[stop - 7]);
        assert(host.contains(host[stop - 7]));
    }
}

/// A percent sign with two hexadecimal digits, of either case, stands for the byte of that number;
/// any other byte stands for itself.
pub proof fn escapes_stand_for_their_byte(high: u8, low: u8, upper: bool, rest: Seq<u8>)
    requires
        high < 16,
        low < 16,
    ensures
        ({
            let digit = |v: u8|
                if v < 10 {
                    (48 + v) as u8
                } else if upper {
                    (65 + (v - 10)) as u8
                } else {
                    (97 + (v - 10)) as u8
                };
            osc7::percent_decoded(seq![37u8, digit(high), digit(low)] + rest) == seq![
                (high * 16 + low) as u8,
            ] + osc7::percent_decoded(rest)
        }),
        forall|b: u8|
            b != 37 ==> osc7::percent_decoded(#[trigger] seq![b] + rest) == seq![b]
                + osc7::percent_decoded(rest),
{
    let digit = |v: u8|
        if v < 10 {
            (48 + v) as u8
        } else if upper {
            (65 + (v - 10)) as u8
        } else {
            (97 + (v - 10)) as u8
        };
    let s = seq![37u8, digit(high), digit(low)] + rest;
    assert(osc7::hex_digit(digit(high)) == Some(high));
    assert(osc7::hex_digit(digit(low)) == Some(low));
    assert(s.skip(3) =~= rest);
    assert forall|b: u8| b != 37 implies osc7::percent_decoded(#[trigger] seq![b] + rest) == seq![b]
        + osc7::percent_decoded(rest) by {
        assert((seq![b] + rest).skip(1) =~= rest);
    }
}

/// In a row that is repaired every glyph that has its room stays, in its order; a wide glyph gets its
/// second cell, and what has lost its other half becomes empty.
pub proof fn halves_of_glyphs_are_cleared(x: CellView, y: CellView, rest: Seq<CellView>, pen: Pen)
    ensures
        x.width == 1 ==> screen::repair(seq![x] + rest, pen) == seq![x] + screen::repair(rest, pen),
        x.width == 0 ==> screen::repair(seq![x] + rest, pen) == seq![CellView::blank(pen)]
            + screen::repair(rest, pen),
        x.width == 2 ==> screen::repair(seq![x, y] + rest, pen) == seq![
            x,
            CellView::filler(x.pen),
        ] + screen::repair(rest, pen),
        x.width == 2 ==> screen::repair(seq![x], pen) == seq![CellView::blank(pen)],
{
    assert((seq![x] + rest).skip(1) =~= rest);
    assert((seq![x, y] + rest).skip(2) =~= rest);
    assert((seq![x] + rest)[0] == x && (seq![x, y] + rest)[0] == x && seq![x][0] == x);
}

/// On a screen of one column every glyph takes that column; on any other it takes its own width.
pub proof fn glyphs_fit_the_columns(g: Screen, width: int)
    ensures
        g.cols == 1 ==> screen::fitted_width(g, width) == 1,
        g.cols != 1 ==> screen::fitted_width(g, width) == width,
        g.cols == 1 && g.cursor_col == 0 ==> !screen::wraps(g, width),
        g.cols > 1 && g.cursor_col < g.cols && width == 1 ==> !screen::wraps(g, width),
        g.cols > 1 && g.cursor_col == g.cols - 1 && width == 2 ==> screen::wraps(g, width),
        g.cols > 1 && g.cursor_col + 2 <= g.cols && width == 2 ==> !screen::wraps(g, width),
        g.cursor_col >= g.cols ==> screen::wraps(g, width),
{
}

/// On a screen without rows no line can be inserted, deleted or erased, and no glyph can wrap; all
/// else can be asked of it.
pub proof fn without_rows_there_are_no_lines(g: Screen, p: Seq<u16>, action: char, c: char)
    requires
        g.rows == 0,
    ensures
        !screen::csi_allowed(g, p, 'L'),
        !screen::csi_allowed(g, p, 'M'),
        p.len() > 0 && p[0] == 2 ==> !screen::csi_allowed(g, p, 'K'),
        p.len() > 0 && p[0] != 2 ==> screen::csi_allowed(g, p, 'K'),
        p.len() == 0 ==> screen::csi_allowed(g, p, 'K'),
        action != 'L' && action != 'M' && action != 'K' ==> screen::csi_allowed(g, p, action),
        cell::glyph_width(c) == 0 ==> screen::print_allowed(g, c),
        cell::glyph_width(c) > 0 ==> (screen::print_allowed(g, c) <==> !screen::wraps(
            g,
            cell::glyph_width(c),
        )),
{
}

} // verus!
