//! What one character of the dump looks like.
use vstd::prelude::*;

verus! {

/// A colour that a dump can name: an entry of the palette, or a truecolour.
#[derive(Clone, Copy, Debug, PartialEq, Eq, Structural)]
pub enum Color {
    AnsiValue(u8),
    Rgb { r: u8, g: u8, b: u8 },
}

/// One character's appearance, as the dump described it.
///
/// `None` means whatever the terminal's default is, which is neither black nor
/// white: the pane was drawn against the user's own background.
///
/// It doubles as the running style while the dump is parsed, because SGR is a
/// state machine over exactly these fields.
#[derive(Clone, Copy, Debug, PartialEq, Eq, Structural)]
pub struct Cell {
    pub fg: Option<Color>,
    pub bg: Option<Color>,
    pub bold: bool,
    pub italic: bool,
    pub underline: bool,
    pub reverse: bool,
}

/// The look of a character that no escape has touched.
pub open spec fn plain_cell() -> Cell {
    Cell { fg: None, bg: None, bold: false, italic: false, underline: false, reverse: false }
}

impl Default for Cell {
    fn default() -> (r: Self)
        ensures
            r == plain_cell(),
    {
        Cell { fg: None, bg: None, bold: false, italic: false, underline: false, reverse: false }
    }
}

/// An untouched character has the terminal's own colours and no attribute.
pub proof fn law_a_plain_cell_has_nothing_on(c: Cell)
    ensures
        c == plain_cell() <==> c.fg is None && c.bg is None && !c.bold && !c.italic && !c.underline
            && !c.reverse,
{
}

} // verus!
