//! One cell of the terminal screen.

use unicode_normalization::char::compose;
use unicode_width::UnicodeWidthChar;
use vstd::prelude::*;

verus! {

/// A colour as the shell names it.
#[derive(Clone, Copy, Debug, PartialEq, Eq, Structural)]
pub enum TermColor {
    Default,
    /// One of the sixteen named colours.
    Ansi(u8),
    /// One of the 256 palette colours.
    Indexed(u8),
    Rgb(u8, u8, u8),
}

/// The rendition that a cell is drawn with.
#[derive(Clone, Copy, Debug, PartialEq, Eq, Structural)]
pub struct Pen {
    pub fg: TermColor,
    pub bg: TermColor,
    pub bold: bool,
    pub italic: bool,
    pub underline: bool,
}

impl Pen {
    /// The rendition of a fresh screen.
    pub open spec fn plain() -> Pen {
        Pen {
            fg: TermColor::Default,
            bg: TermColor::Default,
            bold: false,
            italic: false,
            underline: false,
        }
    }
}

/// One cell of the screen.
#[derive(Debug)]
pub struct TerminalCell {
    pub ch: char,
    /// Zero-width scalars that could not be composed with `ch`; they are drawn and copied with it.
    pub combining: String,
    /// Display width: 0 for the second column of a wide glyph, 1 for a normal glyph, 2 for the
    /// first column of a wide glyph.
    pub width: u8,
    pub fg: TermColor,
    pub bg: TermColor,
    pub bold: bool,
    pub italic: bool,
    pub underline: bool,
}

/// What a cell holds.
#[verifier::ext_equal]
pub struct CellView {
    pub ch: char,
    pub combining: Seq<char>,
    pub width: int,
    pub pen: Pen,
}

impl View for TerminalCell {
    type V = CellView;

    open spec fn view(&self) -> CellView {
        CellView {
            ch: self.ch,
            combining: self.combining@,
            width: self.width as int,
            pen: Pen {
                fg: self.fg,
                bg: self.bg,
                bold: self.bold,
                italic: self.italic,
                underline: self.underline,
            },
        }
    }
}

/// What `UnicodeWidthChar::width` says of a character: its columns, nothing for a control.
pub uninterp spec fn char_columns(c: char) -> Option<usize>;

/// `UnicodeWidthChar::width` of the crate unicode-width: the columns of a character, a function
/// of the character alone.
#[verifier::external_body]
fn columns(c: char) -> (r: Option<usize>)
    ensures
        r == char_columns(c),
{
    UnicodeWidthChar::width(c)
}

/// What `compose` makes of two characters: their canonical composition, where there is one.
pub uninterp spec fn composed(a: char, b: char) -> Option<char>;

/// `unicode_normalization::char::compose`: the canonical composition of two characters, a
/// function of the two alone.
pub assume_specification[ compose ](a: char, b: char) -> (r: Option<char>)
    ensures
        r == composed(a, b),
;

/// The columns that a character takes on the screen: at most two, none for a control.
pub open spec fn glyph_width(c: char) -> int {
    match char_columns(c) {
        Some(w) => if w >= 2 { 2 } else { w as int },
        None => 0,
    }
}

/// The columns that a character takes, from what the width table says of it.
pub fn limit_columns(columns: Option<usize>) -> (r: usize)
    ensures
        r == match columns {
            Some(w) => if w >= 2 { 2 } else { w as int },
            None => 0,
        },
{
    match columns {
        Some(w) => if w >= 2 { 2 } else { w },
        None => 0,
    }
}

/// The columns that a character takes on the screen.
pub fn display_width(c: char) -> (r: usize)
    ensures
        r == glyph_width(c),
        r <= 2,
{
    limit_columns(columns(c))
}

impl CellView {
    /// An empty cell drawn with a pen.
    pub open spec fn blank(pen: Pen) -> CellView {
        CellView { ch: ' ', combining: Seq::empty(), width: 1, pen }
    }

    /// The second column of a wide glyph drawn with a pen.
    pub open spec fn filler(pen: Pen) -> CellView {
        CellView { ch: ' ', combining: Seq::empty(), width: 0, pen }
    }

    /// How a scalar of so many columns joins this glyph, where it does: `composition` is what the
    /// two compose to.
    pub open spec fn absorb_with(
        self,
        c: char,
        composition: Option<char>,
        width: int,
    ) -> Option<CellView> {
        if self.combining.len() == 0 && composition is Some {
            Some(CellView { ch: composition->0, ..self })
        } else if width == 0 {
            Some(CellView { combining: self.combining.push(c), ..self })
        } else {
            None
        }
    }

    /// How a scalar joins this glyph, where it does.
    pub open spec fn absorb(self, c: char) -> Option<CellView> {
        self.absorb_with(c, composed(self.ch, c), glyph_width(c))
    }
}

impl Default for TerminalCell {
    fn default() -> (r: TerminalCell)
        ensures
            r@ == CellView::blank(Pen::plain()),
    {
        TerminalCell {
            ch: ' ',
            combining: String::new(),
            width: 1,
            fg: TermColor::Default,
            bg: TermColor::Default,
            bold: false,
            italic: false,
            underline: false,
        }
    }
}

impl Clone for TerminalCell {
    fn clone(&self) -> (r: TerminalCell)
        ensures
            r == *self,
    {
        TerminalCell {
            ch: self.ch,
            combining: self.combining.clone(),
            width: self.width,
            fg: self.fg,
            bg: self.bg,
            bold: self.bold,
            italic: self.italic,
            underline: self.underline,
        }
    }
}

impl TerminalCell {
    /// Whether this is the second column of a wide glyph.
    pub fn is_continuation(&self) -> (r: bool)
        ensures
            r == (self@.width == 0),
    {
        self.width == 0
    }

    /// The glyph with everything that is drawn on top of it.
    pub fn glyph_text(&self) -> (r: String)
        ensures
            r@ == seq![self@.ch] + self@.combining,
    {
        let mut text: String = String::new();
        text.push(self.ch);
        text.push_str(self.combining.as_str());
        assert(text@ =~= seq![self@.ch] + self@.combining);
        text
    }

    /// Joins a scalar to this glyph, given what the two compose to and the columns that the
    /// scalar takes by itself. Says whether it was joined.
    pub fn absorb_scalar(&mut self, c: char, composition: Option<char>, width: usize) -> (r: bool)
        ensures
            match old(self)@.absorb_with(c, composition, width as int) {
                Some(cell) => r && final(self)@ == cell,
                None => !r && final(self)@ == old(self)@,
            },
    {
        if self.combining.as_str().is_empty() {
            if let Some(ch) = composition {
                self.ch = ch;
                return true;
            }
        }
        if width == 0 {
            self.combining.push(c);
            return true;
        }
        false
    }
}

} // verus!
