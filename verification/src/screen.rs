//! The screen: what is drawn of the state, as operations on a terminal.
use crate::app::{min, App, AppView, Mode};
use crate::cell::{plain_cell, Cell, Color};
use crate::keys::{
    law_events_keep_the_cursor_on_screen, law_events_never_change_the_text, Event, Reaction,
};
use crate::search::{find_hit, hit_at, lit, lit_with_cursor, match_at, Hit};
use crate::text::{chars_of, decimal, push_decimal};
use vstd::prelude::*;
use vstd::string::StringExecFns;

verus! {

broadcast use crate::text::lemma_chars_are_scalars;

/// A colour that the screen is drawn in.
#[derive(Clone, Copy, Debug, PartialEq, Eq, Structural)]
pub enum Ink {
    /// The terminal's default.
    Reset,
    Black,
    Blue,
    Cyan,
    DarkGrey,
    Grey,
    Magenta,
    White,
    Shade(Color),
}

/// One operation on the terminal.
#[derive(Clone, Copy, Debug, PartialEq, Eq, Structural)]
pub enum Op {
    /// To this column and row.
    MoveTo(u16, u16),
    /// All attributes and colours back to the terminal's default.
    ResetAttributes,
    /// The same, by the terminal's other name for it.
    ResetColor,
    ClearLine,
    Foreground(Ink),
    Background(Ink),
    Bold,
    Italic,
    Underlined,
    Reverse,
    Print(char),
}

// ---- a style ----
pub open spec fn one_if(on: bool, op: Op) -> Seq<Op> {
    if on {
        seq![op]
    } else {
        Seq::empty()
    }
}

/// A colour that a style sets; one that it leaves alone takes no operation.
pub open spec fn ink_ops(colour: Option<Color>, foreground: bool) -> Seq<Op> {
    match colour {
        Some(c) => if foreground {
            seq![Op::Foreground(Ink::Shade(c))]
        } else {
            seq![Op::Background(Ink::Shade(c))]
        },
        None => Seq::empty(),
    }
}

/// The operations that establish a style: a full reset, and then what is on.
pub open spec fn style_ops(cell: Cell) -> Seq<Op> {
    seq![Op::ResetAttributes, Op::ResetColor] + ink_ops(cell.fg, true) + ink_ops(cell.bg, false)
        + one_if(cell.bold, Op::Bold) + one_if(cell.italic, Op::Italic) + one_if(
        cell.underline,
        Op::Underlined,
    ) + one_if(cell.reverse, Op::Reverse)
}

fn push_if(out: &mut Vec<Op>, on: bool, op: Op)
    ensures
        final(out)@ == old(out)@ + one_if(on, op),
{
    if on {
        out.push(op);
    }
    assert(out@ == old(out)@ + one_if(on, op));
}

fn push_ink(out: &mut Vec<Op>, colour: Option<Color>, foreground: bool)
    ensures
        final(out)@ == old(out)@ + ink_ops(colour, foreground),
{
    if let Some(c) = colour {
        if foreground {
            out.push(Op::Foreground(Ink::Shade(c)));
        } else {
            out.push(Op::Background(Ink::Shade(c)));
        }
    }
    assert(out@ == old(out)@ + ink_ops(colour, foreground));
}

/// Establishes `cell` on the terminal, from a clean slate.
///
/// A full reset first, then only what is on. The whole style rather than the
/// difference from the previous one is a few more bytes on a colourful line, and
/// no attribute can be turned on and never turned off again.
pub fn write_style(out: &mut Vec<Op>, cell: Cell)
    ensures
        final(out)@ == old(out)@ + style_ops(cell),
{
    let mut ops: Vec<Op> = Vec::new();
    ops.push(Op::ResetAttributes);
    ops.push(Op::ResetColor);
    assert(ops@ == seq![Op::ResetAttributes, Op::ResetColor]);
    push_ink(&mut ops, cell.fg, true);
    push_ink(&mut ops, cell.bg, false);
    push_if(&mut ops, cell.bold, Op::Bold);
    push_if(&mut ops, cell.italic, Op::Italic);
    push_if(&mut ops, cell.underline, Op::Underlined);
    push_if(&mut ops, cell.reverse, Op::Reverse);
    out.append(&mut ops);
}

// ---- a character ----
/// The look of a cell that a match covers: black on yellow, and on bright yellow
/// where the match is the one under the cursor.
pub open spec fn highlighted(cell: Cell, hit: Hit) -> Cell {
    match hit {
        Hit::Miss => cell,
        Hit::Match => Cell {
            fg: Some(Color::AnsiValue(0)),
            bg: Some(Color::AnsiValue(3)),
            reverse: false,
            ..cell
        },
        Hit::Current => Cell {
            fg: Some(Color::AnsiValue(0)),
            bg: Some(Color::AnsiValue(11)),
            reverse: false,
            ..cell
        },
    }
}

/// The cell with its foreground and background exchanged, if `on`.
pub open spec fn inverted(cell: Cell, on: bool) -> Cell {
    Cell { reverse: cell.reverse != on, ..cell }
}

impl AppView {
    /// The cell that the dump gave a character; one without is plain.
    pub open spec fn cell_at(self, li: int, col: int) -> Cell {
        if 0 <= li < self.style.len() && 0 <= col < self.style[li].len() {
            self.style[li][col]
        } else {
            plain_cell()
        }
    }

    /// How a character takes part in the search.
    pub open spec fn hit(self, li: int, col: int) -> Hit {
        let cx = if li == self.cy {
            Some(self.cx)
        } else {
            None
        };
        hit_at(self.lines[li], self.last_query, cx, col)
    }

    /// The look of a character on screen: its cell, highlighted where a match covers
    /// it, and all of that inverted where it is selected.
    pub open spec fn look(self, li: int, col: int) -> Cell {
        inverted(highlighted(self.cell_at(li, col), self.hit(li, col)), self.selected((li, col)))
    }

    // ---- a row ----
    /// How many characters of a line are on screen.
    pub open spec fn shown_in(self, li: int) -> int {
        let end = min(self.left + self.cols, self.lines[li].len() as int);
        if end > self.left {
            end - self.left
        } else {
            0
        }
    }

    /// The look that the terminal has when the `n`-th character of a row is due:
    /// that of the character before it, and a plain one at the start of the row.
    pub open spec fn look_before(self, li: int, n: int) -> Cell {
        if n <= 0 {
            plain_cell()
        } else {
            self.look(li, self.left + n - 1)
        }
    }

    /// The operations for the first `n` characters on screen of a line: each is
    /// printed, and its style is established first where it is another than that of
    /// the character before it.
    pub open spec fn glyph_ops(self, li: int, n: int) -> Seq<Op>
        decreases n,
    {
        if n <= 0 {
            Seq::empty()
        } else {
            let col = self.left + n - 1;
            self.glyph_ops(li, n - 1) + (if self.look(li, col) != self.look_before(li, n - 1) {
                style_ops(self.look(li, col))
            } else {
                Seq::empty()
            }) + seq![Op::Print(self.lines[li][col])]
        }
    }

    /// The operations for a row of text. A row below the text is blank.
    pub open spec fn row_ops(self, r: int) -> Seq<Op> {
        let li = self.top + r;
        seq![
            Op::MoveTo(0, r as u16),
            Op::ResetAttributes,
            Op::ResetColor,
            Op::ClearLine,
        ] + (if li < self.lines.len() {
            self.glyph_ops(li, self.shown_in(li)) + seq![Op::ResetAttributes, Op::ResetColor]
        } else {
            Seq::empty()
        })
    }

    /// The operations for the first `n` rows.
    pub open spec fn rows_ops(self, n: int) -> Seq<Op>
        decreases n,
    {
        if n <= 0 {
            Seq::empty()
        } else {
            self.rows_ops(n - 1) + self.row_ops(n - 1)
        }
    }

    /// Whether there is a row of cells for every line on screen.
    pub open spec fn styled_on_screen(self) -> bool {
        self.lines.len() <= self.style.len() || self.top + self.rows <= self.style.len()
    }
}

/// Prints the characters.
pub open spec fn prints(s: Seq<char>) -> Seq<Op> {
    Seq::new(s.len(), |i: int| Op::Print(s[i]))
}

fn print_chars(out: &mut Vec<Op>, s: &str) -> (r: usize)
    ensures
        final(out)@ == old(out)@ + prints(s@),
        r == s@.len(),
{
    let chars = chars_of(s);
    let ghost start = out@;
    let mut i: usize = 0;
    assert(prints(chars@.take(0)) == Seq::<Op>::empty());
    assert(start + Seq::<Op>::empty() == start);
    while i < chars.len()
        invariant
            i <= chars@.len(),
            out@ == start + prints(chars@.take(i as int)),
        decreases chars@.len() - i,
    {
        out.push(Op::Print(chars[i]));
        proof {
            let printed = prints(chars@.take(i as int));
            assert(prints(chars@.take(i + 1)) == printed.push(Op::Print(chars@[i as int])));
            assert((start + printed).push(Op::Print(chars@[i as int])) == start + printed.push(
                Op::Print(chars@[i as int]),
            ));
        }
        i += 1;
    }
    assert(chars@.take(i as int) == s@);
    chars.len()
}

fn highlight(cell: Cell, hit: Hit) -> (r: Cell)
    ensures
        r == highlighted(cell, hit),
{
    let mut r: Cell = cell;
    match hit {
        Hit::Miss => {},
        Hit::Match => {
            r.fg = Some(Color::AnsiValue(0));
            r.bg = Some(Color::AnsiValue(3));
            r.reverse = false;
        },
        Hit::Current => {
            r.fg = Some(Color::AnsiValue(0));
            r.bg = Some(Color::AnsiValue(11));
            r.reverse = false;
        },
    }
    r
}

impl App {
    /// The look of a character on screen.
    fn look_at(&self, query: &Vec<char>, li: usize, col: usize) -> (r: Cell)
        requires
            li < self.lines@.len(),
            li < self.style@.len(),
            query@ == self.last_query@,
        ensures
            r == self@.look(li as int, col as int),
    {
        let styl = &self.style[li];
        let cell: Cell = if col < styl.len() { styl[col] } else { Cell::default() };
        let cx: Option<usize> = if li == self.cy { Some(self.cx) } else { None };
        let mut want: Cell = highlight(cell, find_hit(&self.lines[li], query, cx, col));
        want.reverse = want.reverse != self.in_selection(li, col);
        assert(self@.style[li as int] == styl@);
        assert(self@.lines[li as int] == self.lines@[li as int]@);
        want
    }

    /// Draws a row of text.
    fn draw_row(&self, out: &mut Vec<Op>, query: &Vec<char>, r: usize)
        requires
            r < self.rows,
            self@.styled_on_screen(),
            query@ == self.last_query@,
        ensures
            final(out)@ == old(out)@ + self@.row_ops(r as int),
    {
        let ghost start = out@;
        let ghost v = self@;
        out.push(Op::MoveTo(0, r as u16));
        out.push(Op::ResetAttributes);
        out.push(Op::ResetColor);
        out.push(Op::ClearLine);
        if self.top >= self.lines.len() || r >= self.lines.len() - self.top {
            assert(out@ == start + v.row_ops(r as int));
            return;
        }
        let li: usize = self.top + r;
        let line = &self.lines[li];
        assert(v.lines[li as int] == line@);
        let ghost head = out@;
        let room: usize = if self.left < line.len() { line.len() - self.left } else { 0 };
        let n: usize = if self.cols < room { self.cols } else { room };
        assert(n == v.shown_in(li as int));
        let mut applied: Cell = Cell::default();
        let mut k: usize = 0;
        assert(head + v.glyph_ops(li as int, 0) == head);
        while k < n
            invariant
                k <= n,
                v == self@,
                li < self.lines@.len(),
                li < self.style@.len(),
                query@ == self.last_query@,
                v.lines[li as int] == line@,
                n > 0 ==> self.left + n <= line@.len() <= usize::MAX,
                applied == v.look_before(li as int, k as int),
                out@ == head + v.glyph_ops(li as int, k as int),
            decreases n - k,
        {
            let col: usize = self.left + k;
            let want: Cell = self.look_at(query, li, col);
            let ghost done = v.glyph_ops(li as int, k as int);
            let ghost change = if want != applied {
                style_ops(want)
            } else {
                Seq::empty()
            };
            if want != applied {
                write_style(out, want);
                applied = want;
            }
            assert(out@ == head + done + change);
            out.push(Op::Print(line[col]));
            k += 1;
            assert(v.glyph_ops(li as int, k as int) == done + change + seq![Op::Print(line@[col as int])]);
            assert(out@ == head + (done + change + seq![Op::Print(line@[col as int])]));
        }
        out.push(Op::ResetAttributes);
        out.push(Op::ResetColor);
        assert(out@ == start + v.row_ops(r as int));
    }
}

// ---- the status bar ----
/// The name of a mode on the status bar.
pub open spec fn mode_label(mode: Mode) -> Seq<char> {
    match mode {
        Mode::VisualChar => " VISUAL "@,
        Mode::VisualLine => " V-LINE "@,
        _ => " NORMAL "@,
    }
}

/// The colour behind a mode's name.
pub open spec fn mode_ink(mode: Mode) -> Ink {
    match mode {
        Mode::VisualChar => Ink::Magenta,
        Mode::VisualLine => Ink::Magenta,
        _ => Ink::Blue,
    }
}

/// A field of the status bar.
pub open spec fn bar_field(fg: Ink, bg: Ink, text: Seq<char>) -> Seq<Op> {
    seq![Op::Foreground(fg), Op::Background(bg)] + prints(text)
}

/// The rest of the bar: spaces up to the right edge, where there is room.
pub open spec fn bar_fill(room: int) -> Seq<Op> {
    if room > 0 {
        seq![Op::Background(Ink::Reset)] + prints(Seq::new(room as nat, |i: int| ' '))
    } else {
        Seq::empty()
    }
}

impl AppView {
    /// The query prompt.
    pub open spec fn prompt(self) -> Seq<char> {
        " SEARCH /"@ + self.input + " "@
    }

    /// Where the cursor is, counted from one, and how many lines there are.
    pub open spec fn position(self) -> Seq<char> {
        " "@ + decimal((self.cy + 1) as nat) + ":"@ + decimal((self.cx + 1) as nat) + "/"@
            + decimal(self.lines.len()) + " "@
    }

    pub open spec fn message(self) -> Seq<char> {
        " "@ + self.msg + " "@
    }

    /// The fields of the status bar: the prompt while a query is typed, and
    /// otherwise the mode, the position and the message.
    pub open spec fn bar_fields(self) -> Seq<Op> {
        if self.mode == Mode::Search {
            bar_field(Ink::Black, Ink::Cyan, self.prompt())
        } else {
            bar_field(Ink::Black, mode_ink(self.mode), mode_label(self.mode)) + bar_field(
                Ink::White,
                Ink::DarkGrey,
                self.position(),
            ) + bar_field(Ink::Grey, Ink::Reset, self.message())
        }
    }

    /// How many columns the fields take.
    pub open spec fn bar_used(self) -> nat {
        if self.mode == Mode::Search {
            self.prompt().len()
        } else {
            mode_label(self.mode).len() + self.position().len() + self.message().len()
        }
    }

    pub open spec fn bar_ops(self) -> Seq<Op> {
        seq![Op::MoveTo(0, self.rows as u16), Op::ResetAttributes, Op::ResetColor]
            + self.bar_fields() + bar_fill(self.cols - self.bar_used()) + seq![Op::ResetColor]
    }

    /// Where the terminal's cursor goes in the end: behind the query while one is
    /// typed, within the screen, and otherwise to the cursor in the text.
    pub open spec fn cursor_op(self) -> Op {
        if self.mode == Mode::Search {
            let room = if self.cols > 0 {
                self.cols - 1
            } else {
                0
            };
            Op::MoveTo(min((9 + self.input.len()) as int, room) as u16, self.rows as u16)
        } else {
            Op::MoveTo((self.cx - self.left) as u16, (self.cy - self.top) as u16)
        }
    }

    /// The whole screen.
    pub open spec fn frame(self) -> Seq<Op> {
        self.rows_ops(self.rows) + self.bar_ops() + seq![self.cursor_op()]
    }

    /// Whether the state can be drawn: there are cells for the lines on screen, and
    /// the cursor, where it is shown in the text, is not above or left of it.
    pub open spec fn drawable(self) -> bool {
        &&& self.styled_on_screen()
        &&& self.mode == Mode::Search || (self.top <= self.cy && self.left <= self.cx)
    }
}

/// The sum of two widths; beyond what can be counted any width is as good as the
/// largest.
fn add_width(a: usize, b: usize) -> (r: usize)
    ensures
        r == min(a + b, usize::MAX as int),
{
    if b <= usize::MAX - a {
        a + b
    } else {
        usize::MAX
    }
}

/// Draws a field of the status bar and gives its width.
fn draw_field(out: &mut Vec<Op>, fg: Ink, bg: Ink, text: &str) -> (r: usize)
    ensures
        final(out)@ == old(out)@ + bar_field(fg, bg, text@),
        r == text@.len(),
{
    let ghost start = out@;
    out.push(Op::Foreground(fg));
    out.push(Op::Background(bg));
    let width: usize = print_chars(out, text);
    assert(out@ == start + bar_field(fg, bg, text@));
    width
}

/// Fills the rest of the bar.
fn draw_fill(out: &mut Vec<Op>, room: usize)
    ensures
        final(out)@ == old(out)@ + bar_fill(room as int),
{
    let ghost start = out@;
    if room == 0 {
        assert(out@ == start + bar_fill(0));
        return;
    }
    out.push(Op::Background(Ink::Reset));
    let ghost blanks = prints(Seq::new(room as nat, |i: int| ' '));
    let ghost head = out@;
    let mut i: usize = 0;
    assert(head + blanks.take(0) == head);
    while i < room
        invariant
            i <= room,
            blanks == prints(Seq::new(room as nat, |i: int| ' ')),
            out@ == head + blanks.take(i as int),
        decreases room - i,
    {
        out.push(Op::Print(' '));
        i += 1;
        assert(out@ == head + blanks.take(i as int));
    }
    assert(blanks.take(i as int) == blanks);
    assert(out@ == start + bar_fill(room as int));
}

impl App {
    fn draw_bar(&self, out: &mut Vec<Op>)
        ensures
            final(out)@ == old(out)@ + self@.bar_ops(),
    {
        let ghost start = out@;
        let ghost v = self@;
        out.push(Op::MoveTo(0, self.rows as u16));
        out.push(Op::ResetAttributes);
        out.push(Op::ResetColor);
        let ghost head = out@;
        let mut used: usize = 0;
        if self.mode == Mode::Search {
            let mut prompt: String = " SEARCH /".to_owned();
            prompt.append(self.input.as_str());
            prompt.append(" ");
            used = draw_field(out, Ink::Black, Ink::Cyan, prompt.as_str());
        } else {
            let (ink, label): (Ink, &str) = match self.mode {
                Mode::VisualChar => (Ink::Magenta, " VISUAL "),
                Mode::VisualLine => (Ink::Magenta, " V-LINE "),
                _ => (Ink::Blue, " NORMAL "),
            };
            let label_width: usize = draw_field(out, Ink::Black, ink, label);
            let mut pos: String = " ".to_owned();
            push_decimal(&mut pos, self.cy as u128 + 1);
            pos.append(":");
            push_decimal(&mut pos, self.cx as u128 + 1);
            pos.append("/");
            push_decimal(&mut pos, self.lines.len() as u128);
            pos.append(" ");
            assert(pos@ == v.position());
            let pos_width: usize = draw_field(out, Ink::White, Ink::DarkGrey, pos.as_str());
            let mut help: String = " ".to_owned();
            help.append(self.msg.as_str());
            help.append(" ");
            let help_width: usize = draw_field(out, Ink::Grey, Ink::Reset, help.as_str());
            used = add_width(add_width(label_width, pos_width), help_width);
        }
        assert(out@ == head + v.bar_fields());
        let room: usize = if used < self.cols { self.cols - used } else { 0 };
        draw_fill(out, room);
        assert(bar_fill(room as int) == bar_fill(v.cols - v.bar_used()));
        out.push(Op::ResetColor);
        assert(out@ == start + v.bar_ops());
    }
}

/// Draws the screen.
///
/// Every row begins with a reset, so a run of identically styled characters costs
/// one change of style, however long it is. The selection inverts whatever a
/// character already looks like rather than force one colour on it: one that is
/// already reversed comes back out of reverse inside the selection.
pub fn draw(app: &App) -> (out: Vec<Op>)
    requires
        app@.drawable(),
    ensures
        out@ == app@.frame(),
{
    let mut out: Vec<Op> = Vec::new();
    let ghost v = app@;
    let query = chars_of(app.last_query.as_str());
    let mut r: usize = 0;
    while r < app.rows
        invariant
            r <= app.rows,
            v == app@,
            v.styled_on_screen(),
            query@ == app.last_query@,
            out@ == v.rows_ops(r as int),
        decreases app.rows - r,
    {
        app.draw_row(&mut out, &query, r);
        r += 1;
    }
    app.draw_bar(&mut out);
    if app.mode == Mode::Search {
        let width: usize = add_width(9, chars_of(app.input.as_str()).len());
        let room: usize = if app.cols > 0 { app.cols - 1 } else { 0 };
        let x: usize = if width < room { width } else { room };
        out.push(Op::MoveTo(x as u16, app.rows as u16));
    } else {
        out.push(Op::MoveTo((app.cx - app.left) as u16, (app.cy - app.top) as u16));
    }
    assert(out@ == v.frame());
    out
}

// ---- laws ----
/// What a terminal prints the next character in.
pub struct Pen {
    pub fg: Ink,
    pub bg: Ink,
    pub bold: bool,
    pub italic: bool,
    pub underline: bool,
    pub reverse: bool,
}

/// The pen after a full reset.
pub open spec fn clean_pen() -> Pen {
    Pen {
        fg: Ink::Reset,
        bg: Ink::Reset,
        bold: false,
        italic: false,
        underline: false,
        reverse: false,
    }
}

/// The pen that a cell asks for.
pub open spec fn pen_of(cell: Cell) -> Pen {
    Pen {
        fg: match cell.fg {
            Some(c) => Ink::Shade(c),
            None => Ink::Reset,
        },
        bg: match cell.bg {
            Some(c) => Ink::Shade(c),
            None => Ink::Reset,
        },
        bold: cell.bold,
        italic: cell.italic,
        underline: cell.underline,
        reverse: cell.reverse,
    }
}

/// What an operation makes of the pen.
pub open spec fn pen_step(pen: Pen, op: Op) -> Pen {
    match op {
        Op::ResetAttributes => clean_pen(),
        Op::ResetColor => clean_pen(),
        Op::Foreground(ink) => Pen { fg: ink, ..pen },
        Op::Background(ink) => Pen { bg: ink, ..pen },
        Op::Bold => Pen { bold: true, ..pen },
        Op::Italic => Pen { italic: true, ..pen },
        Op::Underlined => Pen { underline: true, ..pen },
        Op::Reverse => Pen { reverse: true, ..pen },
        _ => pen,
    }
}

/// The pen after all the operations.
pub open spec fn pen_after(ops: Seq<Op>, pen: Pen) -> Pen
    decreases ops.len(),
{
    if ops.len() == 0 {
        pen
    } else {
        pen_step(pen_after(ops.drop_last(), pen), ops.last())
    }
}

/// The characters that the operations print, each with the pen it is printed in.
pub open spec fn printed(ops: Seq<Op>, pen: Pen) -> Seq<(char, Pen)>
    decreases ops.len(),
{
    if ops.len() == 0 {
        Seq::empty()
    } else {
        let before = printed(ops.drop_last(), pen);
        match ops.last() {
            Op::Print(c) => before.push((c, pen_after(ops.drop_last(), pen))),
            _ => before,
        }
    }
}

pub proof fn lemma_one_after_another(a: Seq<Op>, b: Seq<Op>, pen: Pen)
    ensures
        pen_after(a + b, pen) == pen_after(b, pen_after(a, pen)),
        printed(a + b, pen) == printed(a, pen) + printed(b, pen_after(a, pen)),
    decreases b.len(),
{
    if b.len() == 0 {
        assert(a + b == a);
        assert(printed(a, pen) + printed(b, pen_after(a, pen)) == printed(a, pen));
    } else {
        lemma_one_after_another(a, b.drop_last(), pen);
        assert((a + b).drop_last() == a + b.drop_last());
        assert((a + b).last() == b.last());
        assert(printed(a + b, pen) == printed(a, pen) + printed(b, pen_after(a, pen)));
    }
}

pub proof fn lemma_single(op: Op, pen: Pen)
    ensures
        pen_after(seq![op], pen) == pen_step(pen, op),
        !(op is Print) ==> printed(seq![op], pen) == Seq::<(char, Pen)>::empty(),
        op is Print ==> printed(seq![op], pen) == seq![(op->Print_0, pen)],
{
    let ops = seq![op];
    assert(ops.drop_last() == Seq::<Op>::empty());
    reveal_with_fuel(pen_after, 2);
    reveal_with_fuel(printed, 2);
    assert(printed(ops.drop_last(), pen) == Seq::<(char, Pen)>::empty());
    if op is Print {
        assert(printed(ops, pen) == seq![(op->Print_0, pen)]);
    }
}

/// One more part of a style that prints nothing.
proof fn lemma_silent(a: Seq<Op>, b: Seq<Op>, pen: Pen)
    requires
        printed(a, pen) == Seq::<(char, Pen)>::empty(),
        b.len() <= 1,
        b.len() == 1 ==> !(b[0] is Print),
    ensures
        printed(a + b, pen) == Seq::<(char, Pen)>::empty(),
        b.len() == 0 ==> pen_after(a + b, pen) == pen_after(a, pen),
        b.len() == 1 ==> pen_after(a + b, pen) == pen_step(pen_after(a, pen), b[0]),
{
    lemma_one_after_another(a, b, pen);
    if b.len() == 1 {
        lemma_single(b[0], pen_after(a, pen));
        assert(b == seq![b[0]]);
    }
}

/// Whatever the pen was, establishing a style leaves the pen that the style asks
/// for, and prints nothing: no attribute is left over from before.
pub proof fn law_a_style_starts_from_a_clean_slate(cell: Cell, pen: Pen)
    ensures
        pen_after(style_ops(cell), pen) == pen_of(cell),
        printed(style_ops(cell), pen) == Seq::<(char, Pen)>::empty(),
{
    let a = seq![Op::ResetAttributes];
    let b = a + seq![Op::ResetColor];
    lemma_single(Op::ResetAttributes, pen);
    lemma_silent(a, seq![Op::ResetColor], pen);
    assert(b == seq![Op::ResetAttributes, Op::ResetColor]);
    let c = b + ink_ops(cell.fg, true);
    lemma_silent(b, ink_ops(cell.fg, true), pen);
    let d = c + ink_ops(cell.bg, false);
    lemma_silent(c, ink_ops(cell.bg, false), pen);
    let e = d + one_if(cell.bold, Op::Bold);
    lemma_silent(d, one_if(cell.bold, Op::Bold), pen);
    let f = e + one_if(cell.italic, Op::Italic);
    lemma_silent(e, one_if(cell.italic, Op::Italic), pen);
    let g = f + one_if(cell.underline, Op::Underlined);
    lemma_silent(f, one_if(cell.underline, Op::Underlined), pen);
    lemma_silent(g, one_if(cell.reverse, Op::Reverse), pen);
}

impl AppView {
    /// The first `n` characters of a line that are on screen, each with its look.
    pub open spec fn seen(self, li: int, n: int) -> Seq<(char, Pen)> {
        Seq::new(
            n as nat,
            |k: int| (self.lines[li][self.left + k], pen_of(self.look(li, self.left + k))),
        )
    }
}

pub proof fn lemma_glyphs(v: AppView, li: int, n: int)
    requires
        0 <= n,
    ensures
        printed(v.glyph_ops(li, n), clean_pen()) == v.seen(li, n),
        pen_after(v.glyph_ops(li, n), clean_pen()) == pen_of(v.look_before(li, n)),
    decreases n,
{
    if n == 0 {
        assert(v.seen(li, 0) == Seq::<(char, Pen)>::empty());
    } else {
        let col = v.left + n - 1;
        let want = v.look(li, col);
        let before = v.glyph_ops(li, n - 1);
        let change = if want != v.look_before(li, n - 1) {
            style_ops(want)
        } else {
            Seq::empty()
        };
        let print = Op::Print(v.lines[li][col]);
        lemma_glyphs(v, li, n - 1);
        lemma_one_after_another(before, change, clean_pen());
        let pen = pen_after(before, clean_pen());
        law_a_style_starts_from_a_clean_slate(want, pen);
        assert(printed(before, clean_pen()) + Seq::<(char, Pen)>::empty() == v.seen(li, n - 1));
        assert(printed(Seq::<Op>::empty(), pen) == Seq::<(char, Pen)>::empty());
        lemma_one_after_another(before + change, seq![print], clean_pen());
        lemma_single(print, pen_of(want));
        assert(v.glyph_ops(li, n) == before + change + seq![print]);
        assert(v.seen(li, n) == v.seen(li, n - 1) + seq![(v.lines[li][col], pen_of(want))]);
    }
}

/// Every row shows its line: the characters of the line that the view holds, each
/// in its own look, whatever was drawn before; a row below the text shows nothing.
/// The row leaves a clean pen behind, so nothing runs into what is drawn next.
pub proof fn law_a_row_shows_its_line(v: AppView, r: int, pen: Pen)
    requires
        0 <= v.top + r,
    ensures
        printed(v.row_ops(r), pen) == if v.top + r < v.lines.len() {
            v.seen(v.top + r, v.shown_in(v.top + r))
        } else {
            Seq::empty()
        },
        pen_after(v.row_ops(r), pen) == clean_pen(),
        0 <= v.cols ==> v.shown_in(v.top + r) <= v.cols,
{
    let li = v.top + r;
    let none = Seq::<(char, Pen)>::empty();
    let a = seq![Op::MoveTo(0, r as u16)];
    let b = a + seq![Op::ResetAttributes];
    let c = b + seq![Op::ResetColor];
    let head = c + seq![Op::ClearLine];
    lemma_single(Op::MoveTo(0, r as u16), pen);
    lemma_silent(a, seq![Op::ResetAttributes], pen);
    lemma_silent(b, seq![Op::ResetColor], pen);
    lemma_silent(c, seq![Op::ClearLine], pen);
    assert(head == seq![
        Op::MoveTo(0, r as u16),
        Op::ResetAttributes,
        Op::ResetColor,
        Op::ClearLine,
    ]);
    if li < v.lines.len() {
        let n = v.shown_in(li);
        let glyphs = v.glyph_ops(li, n);
        let tail = seq![Op::ResetAttributes, Op::ResetColor];
        let last = pen_of(v.look_before(li, n));
        lemma_glyphs(v, li, n);
        lemma_single(Op::ResetAttributes, last);
        lemma_silent(seq![Op::ResetAttributes], seq![Op::ResetColor], last);
        assert(tail == seq![Op::ResetAttributes] + seq![Op::ResetColor]);
        lemma_one_after_another(glyphs, tail, clean_pen());
        lemma_one_after_another(head, glyphs + tail, pen);
        assert(v.seen(li, n) + none == v.seen(li, n));
        assert(none + v.seen(li, n) == v.seen(li, n));
    } else {
        assert(head + Seq::<Op>::empty() == head);
    }
}

pub proof fn lemma_prints(s: Seq<char>, pen: Pen)
    ensures
        printed(prints(s), pen).len() == s.len(),
        pen_after(prints(s), pen) == pen,
    decreases s.len(),
{
    if s.len() > 0 {
        let fewer = s.drop_last();
        lemma_prints(fewer, pen);
        assert(prints(s) == prints(fewer) + seq![Op::Print(s[s.len() - 1])]);
        lemma_one_after_another(prints(fewer), seq![Op::Print(s[s.len() - 1])], pen);
        lemma_single(Op::Print(s[s.len() - 1]), pen);
    }
}

proof fn lemma_field(fg: Ink, bg: Ink, text: Seq<char>, pen: Pen)
    ensures
        printed(bar_field(fg, bg, text), pen).len() == text.len(),
{
    let a = seq![Op::Foreground(fg)];
    let inks = a + seq![Op::Background(bg)];
    lemma_single(Op::Foreground(fg), pen);
    lemma_silent(a, seq![Op::Background(bg)], pen);
    assert(inks == seq![Op::Foreground(fg), Op::Background(bg)]);
    lemma_one_after_another(inks, prints(text), pen);
    lemma_prints(text, pen_after(inks, pen));
}

/// The status bar reaches from edge to edge: it prints as many characters as the
/// screen has columns, or as its fields need where that is more. It leaves a clean
/// pen behind.
pub proof fn law_the_bar_spans_the_screen(v: AppView, pen: Pen)
    requires
        0 <= v.cols,
    ensures
        printed(v.bar_ops(), pen).len() == if v.bar_used() < v.cols {
            v.cols
        } else {
            v.bar_used() as int
        },
        pen_after(v.bar_ops(), pen) == clean_pen(),
{
    let none = Seq::<(char, Pen)>::empty();
    let a = seq![Op::MoveTo(0, v.rows as u16)];
    let b = a + seq![Op::ResetAttributes];
    let head = b + seq![Op::ResetColor];
    lemma_single(Op::MoveTo(0, v.rows as u16), pen);
    lemma_silent(a, seq![Op::ResetAttributes], pen);
    lemma_silent(b, seq![Op::ResetColor], pen);
    assert(head == seq![Op::MoveTo(0, v.rows as u16), Op::ResetAttributes, Op::ResetColor]);
    let p1 = pen_after(head, pen);
    if v.mode == Mode::Search {
        lemma_field(Ink::Black, Ink::Cyan, v.prompt(), p1);
    } else {
        let first = bar_field(Ink::Black, mode_ink(v.mode), mode_label(v.mode));
        let second = bar_field(Ink::White, Ink::DarkGrey, v.position());
        let third = bar_field(Ink::Grey, Ink::Reset, v.message());
        lemma_field(Ink::Black, mode_ink(v.mode), mode_label(v.mode), p1);
        lemma_field(Ink::White, Ink::DarkGrey, v.position(), pen_after(first, p1));
        lemma_field(Ink::Grey, Ink::Reset, v.message(), pen_after(first + second, p1));
        lemma_one_after_another(first, second, p1);
        lemma_one_after_another(first + second, third, p1);
    }
    assert(printed(v.bar_fields(), p1).len() == v.bar_used());
    let body = head + v.bar_fields();
    let room = v.cols - v.bar_used();
    let fill = bar_fill(room);
    let p2 = pen_after(body, pen);
    lemma_one_after_another(head, v.bar_fields(), pen);
    lemma_one_after_another(body, fill, pen);
    if room > 0 {
        let blanks = Seq::new(room as nat, |i: int| ' ');
        lemma_single(Op::Background(Ink::Reset), p2);
        lemma_prints(blanks, pen_step(p2, Op::Background(Ink::Reset)));
        lemma_one_after_another(seq![Op::Background(Ink::Reset)], prints(blanks), p2);
    }
    let p3 = pen_after(body + fill, pen);
    lemma_single(Op::ResetColor, p3);
    lemma_one_after_another(body + fill, seq![Op::ResetColor], pen);
}

/// The selection inverts whatever a character already looks like, a match that is
/// lit or a cell that was reversed among it, and changes nothing else.
pub proof fn law_the_selection_inverts(v: AppView, li: int, col: int)
    ensures
        ({
            let unselected = AppView { mode: Mode::Normal, ..v }.look(li, col);
            v.look(li, col) == if v.selected((li, col)) {
                Cell { reverse: !unselected.reverse, ..unselected }
            } else {
                unselected
            }
        }),
{
}

/// Every column that a match covers is highlighted and no other one, and the
/// match under the cursor more brightly.
pub proof fn law_every_match_is_highlighted(v: AppView, li: int, col: int)
    requires
        !v.selected((li, col)),
    ensures
        !lit(v.lines[li], v.last_query, col) ==> v.look(li, col) == v.cell_at(li, col),
        lit(v.lines[li], v.last_query, col) ==> v.look(li, col).fg == Some(Color::AnsiValue(0))
            && v.look(li, col).bg == Some(
            Color::AnsiValue(
                if li == v.cy && lit_with_cursor(v.lines[li], v.last_query, v.cx, col) {
                    11
                } else {
                    3
                },
            ),
        ),
{
    let line = v.lines[li];
    if li == v.cy && lit_with_cursor(line, v.last_query, v.cx, col) {
        let start = choose|start: int| #[trigger]
            match_at(line, v.last_query, start) && start <= col < start + v.last_query.len()
                && start <= v.cx < start + v.last_query.len();
        assert(lit(line, v.last_query, col));
    }
}

/// A state can be drawn once the view is scrolled to the cursor, as long as the
/// text has its cells and the screen a row of text and a column.
pub proof fn law_a_scrolled_state_can_be_drawn(v: AppView)
    requires
        v.lines.len() <= v.style.len(),
        v.rows > 0,
        v.cols > 0,
    ensures
        v.visible().drawable(),
{
}

/// A state that can be drawn can be drawn after any event too, as long as the
/// screen keeps a row of text and a column. It goes on to accept every event.
pub proof fn law_events_keep_the_state_drawable(
    pre: AppView,
    ev: Event,
    post: AppView,
    r: Reaction,
    next: Event,
)
    requires
        pre.handled(ev, post, r),
        pre.drawable(),
        0 < pre.lines.len() <= pre.style.len(),
        post.rows > 0,
        post.cols > 0,
    ensures
        post.drawable(),
        0 < post.lines.len() <= post.style.len(),
        post.accepts(next),
{
    law_events_never_change_the_text(pre, ev, post, r);
    if !(r is Ignore) {
        law_events_keep_the_cursor_on_screen(pre, ev, post, r);
    }
}

} // verus!
