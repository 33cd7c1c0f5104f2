//! Control characters and control sequences, carried out on a grid.

use vstd::prelude::*;

use crate::terminal::cell::{display_width, Pen, TermColor};
use crate::terminal::grid::{last_of, smaller, TerminalGrid};
use crate::terminal::osc7;
use crate::terminal::osc7::parse_osc7_path;
use crate::terminal::screen;
use crate::terminal::screen::Screen;
use crate::text::utf8_text;

verus! {

/// The first value of every parameter of a control sequence; sub-parameters are left out.
pub open spec fn leading_values(params: Seq<Vec<u16>>) -> Seq<u16> {
    params.map_values(|p: Vec<u16>| p@[0])
}

/// Whether every parameter has a value.
pub open spec fn all_valued(params: Seq<Vec<u16>>) -> bool {
    forall|i: int| 0 <= i < params.len() ==> (#[trigger] params[i])@.len() > 0
}

/// The bytes of the parameters of an operating system command.
pub open spec fn byte_params(params: Seq<Vec<u8>>) -> Seq<Seq<u8>> {
    params.map_values(|p: Vec<u8>| p@)
}

/// The screen after an operating system command: `0` and `2` set the title, `7` reports the
/// working directory. A title or a URL that is no UTF-8 is passed over.
pub open spec fn commanded(g: Screen, p: Seq<Seq<u8>>) -> Screen {
    if p.len() < 2 || !vstd::utf8::valid_utf8(p[1]) {
        g
    } else if p[0] == seq![48u8] || p[0] == seq![50u8] {
        Screen { title: vstd::utf8::decode_utf8(p[1]), ..g }
    } else if p[0] == seq![55u8] && osc7::url_path(p[1]) is Some {
        let path = osc7::url_path(p[1])->0;
        if g.cwd is Some && crate::path::same_path(g.cwd->0, path) {
            g
        } else {
            Screen { cwd: Some(path), cwd_changed: true, ..g }
        }
    } else {
        g
    }
}

/// The pen after the rendition parameters.
pub fn apply_rendition(start: Pen, p: &[u16]) -> (r: Pen)
    ensures
        r == screen::rendition(start, p@, 0),
{
    let mut pen = start;
    let mut i: usize = 0;
    while i < p.len()
        invariant
            screen::rendition(pen, p@, i as int) == screen::rendition(start, p@, 0),
        decreases p@.len() - i,
    {
        let n: u16 = p[i];
        if n == 0 {
            pen = plain();
        } else if n == 1 {
            pen.bold = true;
        } else if n == 3 {
            pen.italic = true;
        } else if n == 4 {
            pen.underline = true;
        } else if n == 22 {
            pen.bold = false;
        } else if n == 23 {
            pen.italic = false;
        } else if n == 24 {
            pen.underline = false;
        } else if n == 39 {
            pen.fg = TermColor::Default;
        } else if n == 49 {
            pen.bg = TermColor::Default;
        } else if 30 <= n && n <= 37 {
            pen.fg = TermColor::Ansi((n - 30) as u8);
        } else if 40 <= n && n <= 47 {
            pen.bg = TermColor::Ansi((n - 40) as u8);
        } else if 90 <= n && n <= 97 {
            pen.fg = TermColor::Ansi((n - 82) as u8);
        } else if 100 <= n && n <= 107 {
            pen.bg = TermColor::Ansi((n - 92) as u8);
        } else if n == 38 || n == 48 {
            let (color, used) = read_extended_color(p, i);
            if let Some(c) = color {
                if n == 38 {
                    pen.fg = c;
                } else {
                    pen.bg = c;
                }
                i += used;
            }
        }
        i += 1;
    }
    pen
}

/// The rendition of a fresh screen.
fn plain() -> (r: Pen)
    ensures
        r == Pen::plain(),
{
    Pen {
        fg: TermColor::Default,
        bg: TermColor::Default,
        bold: false,
        italic: false,
        underline: false,
    }
}

/// Reads the colour behind 38 or 48, and how many parameters it takes.
fn read_extended_color(p: &[u16], i: usize) -> (r: (Option<TermColor>, usize))
    requires
        i < p@.len(),
    ensures
        r.0 == screen::extended_color(p@, i as int).0,
        r.1 == screen::extended_color(p@, i as int).1,
        i + r.1 < p@.len(),
{
    let left: usize = p.len() - i;
    if left > 1 && p[i + 1] == 2 {
        if left > 4 {
            (
                Some(
                    TermColor::Rgb(
                        #[verifier::truncate]
                        (p[i + 2] as u8),
                        #[verifier::truncate]
                        (p[i + 3] as u8),
                        #[verifier::truncate]
                        (p[i + 4] as u8),
                    ),
                ),
                4,
            )
        } else {
            (None, 0)
        }
    } else if left > 2 && p[i + 1] == 5 {
        (
            Some(
                TermColor::Indexed(
                    #[verifier::truncate]
                    (p[i + 2] as u8),
                ),
            ),
            2,
        )
    } else {
        (None, 0)
    }
}

/// The larger of a parameter and 1.
fn at_least_one(p: u16) -> (r: usize)
    ensures
        r == screen::max(p as int, 1),
{
    if p >= 1 {
        p as usize
    } else {
        1
    }
}

/// Whether some bytes are one given byte.
fn is_byte(bytes: &Vec<u8>, b: u8) -> (r: bool)
    ensures
        r == (bytes@ == seq![b]),
{
    if bytes.len() == 1 && bytes[0] == b {
        assert(bytes@ =~= seq![b]);
        true
    } else {
        assert(bytes@ == seq![b] ==> bytes@.len() == 1 && bytes@[0] == b);
        false
    }
}

impl TerminalGrid {
    /// Sets the scroll region, where it has at least two rows, and takes the cursor home.
    pub fn set_scroll_region(&mut self, p0: u16, p1: u16)
        requires
            old(self).wf(),
        ensures
            final(self).wf(),
            final(self)@ == screen::region_set(old(self)@, p0 as int, p1 as int),
    {
        let top: usize = at_least_one(p0) - 1;
        let bottom: usize = if p1 == 0 {
            last_of(self.rows)
        } else {
            smaller((p1 - 1) as usize, last_of(self.rows))
        };
        if top < bottom {
            self.scroll_top = top;
            self.scroll_bottom = bottom;
        }
        self.cursor_row = 0;
        self.cursor_col = 0;
    }

    /// Changes the rendition of new characters.
    pub fn select_rendition(&mut self, p: &[u16])
        requires
            old(self).wf(),
        ensures
            final(self).wf(),
            final(self)@ == (Screen {
                pen: if p@.len() == 0 {
                    Pen::plain()
                } else {
                    screen::rendition(old(self)@.pen, p@, 0)
                },
                ..old(self)@
            }),
    {
        let pen = if p.len() == 0 {
            plain()
        } else {
            let start = Pen {
                fg: self.cur_fg,
                bg: self.cur_bg,
                bold: self.cur_bold,
                italic: self.cur_italic,
                underline: self.cur_underline,
            };
            apply_rendition(start, p)
        };
        self.cur_fg = pen.fg;
        self.cur_bg = pen.bg;
        self.cur_bold = pen.bold;
        self.cur_italic = pen.italic;
        self.cur_underline = pen.underline;
    }

    /// Carries out a control sequence.
    pub fn apply_sequence(&mut self, p: &[u16], action: char)
        requires
            old(self).wf(),
            screen::csi_allowed(old(self)@, p@, action),
        ensures
            final(self).wf(),
            final(self)@ == screen::dispatched(old(self)@, p@, action),
    {
        let p0: u16 = if p.len() > 0 {
            p[0]
        } else {
            0
        };
        let p1: u16 = if p.len() > 1 {
            p[1]
        } else {
            0
        };
        let n = at_least_one(p0);
        match action {
            'A' => {
                let up: usize = if self.cursor_row >= n {
                    self.cursor_row - n
                } else {
                    0
                };
                self.cursor_row = if up >= self.scroll_top {
                    up
                } else {
                    self.scroll_top
                };
            },
            'B' | 'e' => {
                self.cursor_row = if n > usize::MAX - self.cursor_row {
                    self.scroll_bottom
                } else {
                    smaller(self.cursor_row + n, self.scroll_bottom)
                };
            },
            'C' | 'a' => {
                self.cursor_forward(n);
            },
            'D' => {
                self.cursor_backward(n);
            },
            'G' => {
                self.set_cursor_col(n - 1);
            },
            'd' => {
                self.cursor_row = smaller(n - 1, last_of(self.rows));
            },
            'H' | 'f' => {
                self.cursor_row = smaller(n - 1, last_of(self.rows));
                self.set_cursor_col(at_least_one(p1) - 1);
            },
            'J' => {
                self.erase_in_display(p0);
            },
            'K' => {
                self.erase_in_line(p0);
            },
            'L' => {
                self.insert_lines(n);
            },
            'M' => {
                self.delete_lines(n);
            },
            'P' => {
                self.delete_chars(n);
            },
            '@' => {
                self.insert_chars(n);
            },
            'r' => {
                self.set_scroll_region(p0, p1);
            },
            'm' => {
                self.select_rendition(p);
            },
            _ => {},
        }
    }

    /// Carries out a control character.
    pub fn apply_control(&mut self, byte: u8)
        requires
            old(self).wf(),
            old(self).rows > 0 || !(10 <= byte <= 12),
        ensures
            final(self).wf(),
            final(self)@ == screen::executed(old(self)@, byte),
    {
        if byte == 13 {
            self.cursor_col = 0;
        } else if byte == 10 || byte == 11 || byte == 12 {
            self.advance_row();
        } else if byte == 8 {
            self.backspace_cursor();
        } else if byte == 9 {
            let next: usize = if self.cursor_col <= usize::MAX - 8 {
                (self.cursor_col / 8 + 1) * 8
            } else {
                usize::MAX
            };
            self.set_cursor_col(next);
        }
    }

    /// Carries out an operating system command.
    pub fn apply_command(&mut self, params: &[Vec<u8>])
        requires
            old(self).wf(),
        ensures
            final(self).wf(),
            final(self)@ == commanded(old(self)@, byte_params(params@)),
    {
        if params.len() < 2 {
            return ;
        }
        let ghost p = byte_params(params@);
        assert(p[0] == params@[0]@ && p[1] == params@[1]@);
        let text = match utf8_text(params[1].as_slice()) {
            Some(t) => t,
            None => {
                return ;
            },
        };
        proof {
            vstd::utf8::encode_utf8_valid_utf8(text@);
            vstd::utf8::encode_utf8_decode_utf8(text@);
        }
        if is_byte(&params[0], 48) || is_byte(&params[0], 50) {
            self.title = text;
        } else if is_byte(&params[0], 55) {
            if let Some(path) = parse_osc7_path(text.as_str()) {
                let known = match &self.cwd {
                    Some(c) => c.same(&path),
                    None => false,
                };
                if !known {
                    self.cwd = Some(path);
                    self.cwd_changed = true;
                }
            }
        }
    }
}

/// The first value of every parameter of a control sequence.
pub(crate) fn first_values(params: &[Vec<u16>]) -> (r: Vec<u16>)
    requires
        all_valued(params@),
    ensures
        r@ == leading_values(params@),
{
    let mut p: Vec<u16> = Vec::new();
    let mut i: usize = 0;
    while i < params.len()
        invariant
            i <= params@.len(),
            all_valued(params@),
            p@ == leading_values(params@).take(i as int),
        decreases params@.len() - i,
    {
        p.push(params[i][0]);
        i += 1;
        assert(p@ =~= leading_values(params@).take(i as int));
    }
    assert(p@ =~= leading_values(params@));
    p
}

impl TerminalGrid {
    /// Whether a character can be printed: in a grid without rows a glyph that does not fit behind
    /// the cursor has nowhere to go.
    pub fn can_print(&self, c: char) -> (r: bool)
        requires
            self.wf(),
        ensures
            r == screen::print_allowed(self@, c),
    {
        if self.rows > 0 {
            return true;
        }
        let width: usize = display_width(c);
        width == 0 || !(self.cursor_col >= self.cols || (width == 2 && self.cols > 1 && self.cols
            - self.cursor_col < 2))
    }

    /// Whether a control sequence can be carried out.
    pub fn can_dispatch(&self, p: &[u16], action: char) -> (r: bool)
        ensures
            r == screen::csi_allowed(self@, p@, action),
    {
        let mode: u16 = if p.len() > 0 {
            p[0]
        } else {
            0
        };
        self.rows > 0 || !(action == 'L' || action == 'M' || (action == 'K' && mode == 2))
    }
}

/// Carries out what a shell sends on a grid.
pub struct TermPerformer<'a> {
    pub grid: &'a mut TerminalGrid,
}

impl<'a> TermPerformer<'a> {
    /// Prints a character.
    pub fn print(&mut self, c: char)
        requires
            old(self).grid.wf(),
            screen::print_allowed(old(self).grid@, c),
        ensures
            final(self).grid.wf(),
            final(self).grid@ == screen::printed(old(self).grid@, c),
            *final(final(self).grid) == *final(old(self).grid),
    {
        self.grid.put_char(c);
    }

    /// Prints a character if it can be printed, and says whether it could: in a grid without
    /// rows a glyph that does not fit behind the cursor has nowhere to go.
    pub fn try_print(&mut self, c: char) -> (r: bool)
        requires
            old(self).grid.wf(),
        ensures
            final(self).grid.wf(),
            r == screen::print_allowed(old(self).grid@, c),
            final(self).grid@ == if r {
                screen::printed(old(self).grid@, c)
            } else {
                old(self).grid@
            },
            *final(final(self).grid) == *final(old(self).grid),
    {
        if !self.grid.can_print(c) {
            return false;
        }
        self.print(c);
        true
    }

    /// Carries out a control character.
    pub fn execute(&mut self, byte: u8)
        requires
            old(self).grid.wf(),
            old(self).grid.rows > 0 || !(10 <= byte <= 12),
        ensures
            final(self).grid.wf(),
            final(self).grid@ == screen::executed(old(self).grid@, byte),
            *final(final(self).grid) == *final(old(self).grid),
    {
        self.grid.apply_control(byte);
    }

    /// Carries out a control sequence.
    pub fn csi_dispatch(&mut self, params: &[Vec<u16>], action: char)
        requires
            old(self).grid.wf(),
            all_valued(params@),
            screen::csi_allowed(old(self).grid@, leading_values(params@), action),
        ensures
            final(self).grid.wf(),
            final(self).grid@ == screen::dispatched(
                old(self).grid@,
                leading_values(params@),
                action,
            ),
            *final(final(self).grid) == *final(old(self).grid),
    {
        let p = first_values(params);
        self.grid.apply_sequence(p.as_slice(), action);
    }

    /// Carries out an operating system command.
    pub fn osc_dispatch(&mut self, params: &[Vec<u8>])
        requires
            old(self).grid.wf(),
        ensures
            final(self).grid.wf(),
            final(self).grid@ == commanded(old(self).grid@, byte_params(params@)),
            *final(final(self).grid) == *final(old(self).grid),
    {
        self.grid.apply_command(params);
    }
}

/// Reporting the directory that is already known changes nothing.
pub proof fn repeated_report_changes_nothing(g: Screen, p: Seq<Seq<u8>>)
    requires
        p.len() >= 1,
        p[0] == seq![55u8],
    ensures
        commanded(commanded(g, p), p) == commanded(g, p),
{
    assert(seq![55u8][0] == 55u8);
    assert(seq![48u8][0] == 48u8 && seq![50u8][0] == 50u8);
}

} // verus!
