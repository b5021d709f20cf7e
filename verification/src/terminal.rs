//! A terminal that takes the operations in: what stands where on its screen once
//! the state is drawn.
use crate::app::{AppView, Mode};
use crate::cell::{plain_cell, Cell, Color};
use crate::search::{hit_at, Hit};
use crate::screen::{
    bar_field, bar_fill, clean_pen, ink_ops, law_a_row_shows_its_line, law_a_style_starts_from_a_clean_slate,
    law_the_bar_spans_the_screen, lemma_glyphs, lemma_one_after_another, lemma_prints, lemma_single,
    mode_ink, mode_label, one_if, pen_after, pen_of, pen_step, prints, style_ops, Ink, Op, Pen,
};
use crate::text::decimal;
use vstd::prelude::*;

verus! {

broadcast use crate::text::lemma_chars_are_scalars;

/// A column and a row of the screen.
pub type Spot = (int, int);

/// What a place on the screen shows: a character in a pen, or nothing.
pub type Shown = Option<(char, Pen)>;

/// Where an operation leaves the terminal's cursor: a character moves it one column
/// on.
pub open spec fn spot_step(spot: Spot, op: Op) -> Spot {
    match op {
        Op::MoveTo(x, y) => (x as int, y as int),
        Op::Print(_) => (spot.0 + 1, spot.1),
        _ => spot,
    }
}

pub open spec fn spot_after(ops: Seq<Op>, spot: Spot) -> Spot
    decreases ops.len(),
{
    if ops.len() == 0 {
        spot
    } else {
        spot_step(spot_after(ops.drop_last(), spot), ops.last())
    }
}

/// What the operations leave at the place `p`, where `was` stood: a character that
/// is printed there stands there, and a line that is cleared shows nothing.
pub open spec fn left_at(ops: Seq<Op>, spot: Spot, pen: Pen, was: Shown, p: Spot) -> Shown
    decreases ops.len(),
{
    if ops.len() == 0 {
        was
    } else {
        let before = ops.drop_last();
        let here = spot_after(before, spot);
        match ops.last() {
            Op::Print(c) if here == p => Some((c, pen_after(before, pen))),
            Op::ClearLine if here.1 == p.1 => None,
            _ => left_at(before, spot, pen, was, p),
        }
    }
}

proof fn lemma_in_turn(a: Seq<Op>, b: Seq<Op>, spot: Spot, pen: Pen, was: Shown, p: Spot)
    ensures
        spot_after(a + b, spot) == spot_after(b, spot_after(a, spot)),
        pen_after(a + b, pen) == pen_after(b, pen_after(a, pen)),
        left_at(a + b, spot, pen, was, p) == left_at(
            b,
            spot_after(a, spot),
            pen_after(a, pen),
            left_at(a, spot, pen, was, p),
            p,
        ),
    decreases b.len(),
{
    lemma_one_after_another(a, b, pen);
    if b.len() == 0 {
        assert(a + b == a);
    } else {
        let fewer = b.drop_last();
        lemma_in_turn(a, fewer, spot, pen, was, p);
        assert((a + b).drop_last() == a + fewer);
        assert((a + b).last() == b.last());
    }
}

proof fn lemma_one_op(op: Op, spot: Spot, pen: Pen, was: Shown, p: Spot)
    ensures
        spot_after(seq![op], spot) == spot_step(spot, op),
        pen_after(seq![op], pen) == pen_step(pen, op),
        left_at(seq![op], spot, pen, was, p) == match op {
            Op::Print(c) if spot == p => Some((c, pen)),
            Op::ClearLine if spot.1 == p.1 => None,
            _ => was,
        },
{
    let ops = seq![op];
    lemma_single(op, pen);
    assert(ops.drop_last() == Seq::<Op>::empty());
    assert(spot_after(ops.drop_last(), spot) == spot);
    assert(pen_after(ops.drop_last(), pen) == pen);
    assert(left_at(ops.drop_last(), spot, pen, was, p) == was);
}

/// Whether the operations leave the cursor and the screen alone: they touch the pen
/// at most.
pub open spec fn quiet(ops: Seq<Op>) -> bool {
    forall|i: int|
        0 <= i < ops.len() ==> !(#[trigger] ops[i] is MoveTo) && !(ops[i] is Print) && !(
        ops[i] is ClearLine)
}

proof fn lemma_quiet(ops: Seq<Op>, spot: Spot, pen: Pen, was: Shown, p: Spot)
    requires
        quiet(ops),
    ensures
        spot_after(ops, spot) == spot,
        left_at(ops, spot, pen, was, p) == was,
    decreases ops.len(),
{
    if ops.len() > 0 {
        let fewer = ops.drop_last();
        assert forall|i: int| 0 <= i < fewer.len() implies !(#[trigger] fewer[i] is MoveTo) && !(
        fewer[i] is Print) && !(fewer[i] is ClearLine) by {
            assert(fewer[i] == ops[i]);
        }
        assert(ops[ops.len() - 1] == ops.last());
        lemma_quiet(fewer, spot, pen, was, p);
    }
}

proof fn lemma_quiet_concat(a: Seq<Op>, b: Seq<Op>)
    requires
        quiet(a),
        quiet(b),
    ensures
        quiet(a + b),
{
    assert forall|i: int| 0 <= i < (a + b).len() implies !(#[trigger] (a + b)[i] is MoveTo) && !((a
        + b)[i] is Print) && !((a + b)[i] is ClearLine) by {
        if i < a.len() {
            assert((a + b)[i] == a[i]);
        } else {
            assert((a + b)[i] == b[i - a.len()]);
        }
    }
}

/// To establish a style is to set the pen and nothing else: it prints nothing,
/// clears nothing and moves nothing.
pub proof fn law_a_style_only_sets_the_pen(cell: Cell, pen: Pen)
    ensures
        quiet(style_ops(cell)),
        pen_after(style_ops(cell), pen) == (Pen {
            fg: match cell.fg {
                Some(c) => Ink::Shade(c),
                None => Ink::Reset,
            },
            bg: match cell.bg {
                Some(c) => Ink::Shade(c),
                None => Ink::Reset,
            },
            bold: cell.bold,
            italic: cell.italic,
            underline: cell.underline,
            reverse: cell.reverse,
        }),
{
    law_a_style_starts_from_a_clean_slate(cell, pen);
    let a = seq![Op::ResetAttributes, Op::ResetColor];
    let b = a + ink_ops(cell.fg, true);
    lemma_quiet_concat(a, ink_ops(cell.fg, true));
    let c = b + ink_ops(cell.bg, false);
    lemma_quiet_concat(b, ink_ops(cell.bg, false));
    let d = c + one_if(cell.bold, Op::Bold);
    lemma_quiet_concat(c, one_if(cell.bold, Op::Bold));
    let e = d + one_if(cell.italic, Op::Italic);
    lemma_quiet_concat(d, one_if(cell.italic, Op::Italic));
    let f = e + one_if(cell.underline, Op::Underlined);
    lemma_quiet_concat(e, one_if(cell.underline, Op::Underlined));
    lemma_quiet_concat(f, one_if(cell.reverse, Op::Reverse));
}

proof fn lemma_glyphs_in_place(v: AppView, li: int, n: int, y: int, was: Shown, p: Spot)
    requires
        0 <= n,
    ensures
        spot_after(v.glyph_ops(li, n), (0, y)) == (n, y),
        left_at(v.glyph_ops(li, n), (0, y), clean_pen(), was, p) == if p.1 == y && 0 <= p.0 < n {
            Some((v.lines[li][v.left + p.0], pen_of(v.look(li, v.left + p.0))))
        } else {
            was
        },
    decreases n,
{
    if n > 0 {
        let col = v.left + n - 1;
        let want = v.look(li, col);
        let before = v.glyph_ops(li, n - 1);
        let change = if want != v.look_before(li, n - 1) {
            style_ops(want)
        } else {
            Seq::empty()
        };
        let print = Op::Print(v.lines[li][col]);
        lemma_glyphs_in_place(v, li, n - 1, y, was, p);
        lemma_glyphs(v, li, n - 1);
        lemma_glyphs(v, li, n);
        let pen = pen_after(before, clean_pen());
        law_a_style_only_sets_the_pen(want, pen);
        let so_far = left_at(before, (0, y), clean_pen(), was, p);
        lemma_quiet(change, (n - 1, y), pen, so_far, p);
        lemma_in_turn(before, change, (0, y), clean_pen(), was, p);
        assert(pen_after(change, pen) == pen_of(want));
        lemma_in_turn(before + change, seq![print], (0, y), clean_pen(), was, p);
        lemma_one_op(print, (n - 1, y), pen_of(want), so_far, p);
        assert(v.glyph_ops(li, n) == before + change + seq![print]);
    }
}

/// What a place of the text area shows: the character of the text that lies there,
/// in its look, if there is one within the screen's columns, and otherwise nothing.
pub open spec fn text_at(v: AppView, p: Spot) -> Shown {
    let li = v.top + p.1;
    let col = v.left + p.0;
    if li < v.lines.len() && 0 <= p.0 < v.cols && col < v.lines[li].len() {
        Some((v.lines[li][col], pen_of(v.look(li, col))))
    } else {
        None
    }
}

/// A row shows every character of its line that lies within the view, each on that
/// row and as many columns from the edge as it lies from the view's left, in its own
/// look, and no other character: what stood on the row is gone. No other row is
/// touched.
pub proof fn law_a_row_shows_all_of_its_line_in_view(
    v: AppView,
    r: int,
    spot: Spot,
    pen: Pen,
    was: Shown,
    p: Spot,
)
    requires
        0 <= r < 0x1_0000,
        0 <= v.top,
        0 <= v.left,
    ensures
        left_at(v.row_ops(r), spot, pen, was, p) == if p.1 == r {
            text_at(v, p)
        } else {
            was
        },
        pen_after(v.row_ops(r), pen) == clean_pen(),
{
    let li = v.top + r;
    law_a_row_shows_its_line(v, r, pen);
    let go = Op::MoveTo(0, r as u16);
    let resets = seq![Op::ResetAttributes, Op::ResetColor];
    let head = seq![go] + resets + seq![Op::ClearLine];
    assert(head == seq![go, Op::ResetAttributes, Op::ResetColor, Op::ClearLine]);
    lemma_one_op(go, spot, pen, was, p);
    lemma_quiet(resets, (0, r), pen_after(seq![go], pen), was, p);
    lemma_in_turn(seq![go], resets, spot, pen, was, p);
    lemma_in_turn(seq![go] + resets, seq![Op::ClearLine], spot, pen, was, p);
    let p1 = pen_after(seq![go] + resets, pen);
    lemma_one_op(Op::ClearLine, (0, r), p1, was, p);
    let cleared = left_at(head, spot, pen, was, p);
    if li < v.lines.len() {
        let n = v.shown_in(li);
        let glyphs = v.glyph_ops(li, n);
        lemma_single(Op::ResetColor, pen_step(pen_after(seq![go], pen), Op::ResetAttributes));
        lemma_single(Op::ResetAttributes, pen_after(seq![go], pen));
        lemma_one_after_another(
            seq![Op::ResetAttributes],
            seq![Op::ResetColor],
            pen_after(seq![go], pen),
        );
        assert(resets == seq![Op::ResetAttributes] + seq![Op::ResetColor]);
        assert(pen_after(head, pen) == clean_pen());
        lemma_glyphs_in_place(v, li, n, r, cleared, p);
        let there = left_at(glyphs, (0, r), clean_pen(), cleared, p);
        lemma_in_turn(glyphs, resets, (0, r), clean_pen(), cleared, p);
        lemma_quiet(resets, (n, r), pen_after(glyphs, clean_pen()), there, p);
        lemma_in_turn(head, glyphs + resets, spot, pen, was, p);
    } else {
        assert(v.row_ops(r) == head);
    }
}

proof fn lemma_rows_in_place(v: AppView, n: int, spot: Spot, pen: Pen, was: Shown, p: Spot)
    requires
        0 <= n <= 0x1_0000,
        0 <= v.top,
        0 <= v.left,
    ensures
        left_at(v.rows_ops(n), spot, pen, was, p) == if 0 <= p.1 < n {
            text_at(v, p)
        } else {
            was
        },
    decreases n,
{
    if n > 0 {
        let before = v.rows_ops(n - 1);
        lemma_rows_in_place(v, n - 1, spot, pen, was, p);
        lemma_in_turn(before, v.row_ops(n - 1), spot, pen, was, p);
        law_a_row_shows_all_of_its_line_in_view(
            v,
            n - 1,
            spot_after(before, spot),
            pen_after(before, pen),
            left_at(before, spot, pen, was, p),
            p,
        );
    }
}

proof fn lemma_prints_in_place(s: Seq<char>, spot: Spot, pen: Pen, was: Shown, p: Spot)
    ensures
        spot_after(prints(s), spot) == (spot.0 + s.len(), spot.1),
        left_at(prints(s), spot, pen, was, p) == if p.1 == spot.1 && spot.0 <= p.0 < spot.0 + s.len() {
            Some((s[p.0 - spot.0], pen))
        } else {
            was
        },
    decreases s.len(),
{
    if s.len() > 0 {
        let fewer = s.drop_last();
        let print = Op::Print(s[s.len() - 1]);
        lemma_prints_in_place(fewer, spot, pen, was, p);
        lemma_prints(fewer, pen);
        assert(prints(s) == prints(fewer) + seq![print]);
        lemma_in_turn(prints(fewer), seq![print], spot, pen, was, p);
        lemma_one_op(
            print,
            spot_after(prints(fewer), spot),
            pen,
            left_at(prints(fewer), spot, pen, was, p),
            p,
        );
    }
}

/// The pen in which a field of the status bar is printed.
pub open spec fn bar_pen(fg: Ink, bg: Ink) -> Pen {
    Pen { fg, bg, bold: false, italic: false, underline: false, reverse: false }
}

/// A pen without attributes.
spec fn unadorned(pen: Pen) -> bool {
    pen == bar_pen(pen.fg, pen.bg)
}

proof fn lemma_field_in_place(
    fg: Ink,
    bg: Ink,
    text: Seq<char>,
    spot: Spot,
    pen: Pen,
    was: Shown,
    p: Spot,
)
    requires
        unadorned(pen),
    ensures
        spot_after(bar_field(fg, bg, text), spot) == (spot.0 + text.len(), spot.1),
        pen_after(bar_field(fg, bg, text), pen) == bar_pen(fg, bg),
        left_at(bar_field(fg, bg, text), spot, pen, was, p) == if p.1 == spot.1 && spot.0 <= p.0
            < spot.0 + text.len() {
            Some((text[p.0 - spot.0], bar_pen(fg, bg)))
        } else {
            was
        },
{
    let inks = seq![Op::Foreground(fg), Op::Background(bg)];
    assert(inks == seq![Op::Foreground(fg)] + seq![Op::Background(bg)]);
    lemma_one_after_another(seq![Op::Foreground(fg)], seq![Op::Background(bg)], pen);
    lemma_single(Op::Foreground(fg), pen);
    lemma_single(Op::Background(bg), pen_step(pen, Op::Foreground(fg)));
    lemma_quiet(inks, spot, pen, was, p);
    lemma_in_turn(inks, prints(text), spot, pen, was, p);
    lemma_prints_in_place(text, spot, bar_pen(fg, bg), was, p);
    lemma_prints(text, bar_pen(fg, bg));
}

/// What the status bar shows in a column: the prompt with the query while one is
/// typed, and otherwise the mode, the place of the cursor and the message. Spaces
/// fill it up to the edge. Behind that it leaves what was there.
pub open spec fn bar_at(v: AppView, x: int, was: Shown) -> Shown {
    if v.mode == Mode::Search {
        let prompt = " SEARCH /"@ + v.input + " "@;
        if 0 <= x < prompt.len() {
            Some((prompt[x], bar_pen(Ink::Black, Ink::Cyan)))
        } else if prompt.len() <= x < v.cols {
            Some((' ', bar_pen(Ink::Black, Ink::Reset)))
        } else {
            was
        }
    } else {
        let label = if v.mode == Mode::VisualChar {
            " VISUAL "@
        } else if v.mode == Mode::VisualLine {
            " V-LINE "@
        } else {
            " NORMAL "@
        };
        let back = if v.mode == Mode::Normal {
            Ink::Blue
        } else {
            Ink::Magenta
        };
        let place = " "@ + decimal((v.cy + 1) as nat) + ":"@ + decimal((v.cx + 1) as nat) + "/"@
            + decimal(v.lines.len()) + " "@;
        let message = " "@ + v.msg + " "@;
        let a = label.len() as int;
        let b = a + place.len();
        let c = b + message.len();
        if 0 <= x < a {
            Some((label[x], bar_pen(Ink::Black, back)))
        } else if a <= x < b {
            Some((place[x - a], bar_pen(Ink::White, Ink::DarkGrey)))
        } else if b <= x < c {
            Some((message[x - b], bar_pen(Ink::Grey, Ink::Reset)))
        } else if c <= x < v.cols {
            Some((' ', bar_pen(Ink::Grey, Ink::Reset)))
        } else {
            was
        }
    }
}

proof fn lemma_fields_in_place(v: AppView, y: int, was: Shown, p: Spot)
    requires
        0 <= v.cols,
    ensures
        ({
            let ops = v.bar_fields() + bar_fill(v.cols - v.bar_used());
            &&& spot_after(ops, (0, y)).1 == y
            &&& left_at(ops, (0, y), clean_pen(), was, p) == if p.1 == y {
                bar_at(v, p.0, was)
            } else {
                was
            }
        }),
{
    let start = (0int, y);
    let used = v.bar_used() as int;
    let last = if v.mode == Mode::Search {
        bar_pen(Ink::Black, Ink::Cyan)
    } else {
        bar_pen(Ink::Grey, Ink::Reset)
    };
    if v.mode == Mode::Search {
        lemma_field_in_place(Ink::Black, Ink::Cyan, v.prompt(), start, clean_pen(), was, p);
    } else {
        let (la, lb, lc) = (mode_label(v.mode), v.position(), v.message());
        let first = bar_field(Ink::Black, mode_ink(v.mode), la);
        let second = bar_field(Ink::White, Ink::DarkGrey, lb);
        let third = bar_field(Ink::Grey, Ink::Reset, lc);
        let a = la.len() as int;
        let b = a + lb.len();
        lemma_field_in_place(Ink::Black, mode_ink(v.mode), la, start, clean_pen(), was, p);
        let w1 = left_at(first, start, clean_pen(), was, p);
        lemma_field_in_place(
            Ink::White,
            Ink::DarkGrey,
            lb,
            (a, y),
            bar_pen(Ink::Black, mode_ink(v.mode)),
            w1,
            p,
        );
        lemma_in_turn(first, second, start, clean_pen(), was, p);
        let w2 = left_at(first + second, start, clean_pen(), was, p);
        lemma_field_in_place(
            Ink::Grey,
            Ink::Reset,
            lc,
            (b, y),
            bar_pen(Ink::White, Ink::DarkGrey),
            w2,
            p,
        );
        lemma_in_turn(first + second, third, start, clean_pen(), was, p);
    }
    let fields = v.bar_fields();
    assert(spot_after(fields, start) == (used, y));
    assert(pen_after(fields, clean_pen()) == last);
    let w = left_at(fields, start, clean_pen(), was, p);
    let room = v.cols - used;
    lemma_in_turn(fields, bar_fill(room), start, clean_pen(), was, p);
    if room > 0 {
        let blanks = Seq::new(room as nat, |i: int| ' ');
        let ink = Op::Background(Ink::Reset);
        lemma_one_op(ink, (used, y), last, w, p);
        lemma_in_turn(seq![ink], prints(blanks), (used, y), last, w, p);
        lemma_prints_in_place(blanks, (used, y), pen_step(last, ink), w, p);
    }
}

proof fn lemma_bar_in_place(v: AppView, spot: Spot, pen: Pen, was: Shown, p: Spot)
    requires
        0 <= v.rows < 0x1_0000,
        0 <= v.cols,
    ensures
        left_at(v.bar_ops(), spot, pen, was, p) == if p.1 == v.rows {
            bar_at(v, p.0, was)
        } else {
            was
        },
{
    let go = Op::MoveTo(0, v.rows as u16);
    let resets = seq![Op::ResetAttributes, Op::ResetColor];
    let head = seq![go] + resets;
    assert(head == seq![go, Op::ResetAttributes, Op::ResetColor]);
    lemma_one_op(go, spot, pen, was, p);
    let p1 = pen_after(seq![go], pen);
    lemma_quiet(resets, (0, v.rows), p1, was, p);
    lemma_in_turn(seq![go], resets, spot, pen, was, p);
    lemma_one_after_another(seq![Op::ResetAttributes], seq![Op::ResetColor], p1);
    lemma_single(Op::ResetAttributes, p1);
    lemma_single(Op::ResetColor, pen_step(p1, Op::ResetAttributes));
    assert(resets == seq![Op::ResetAttributes] + seq![Op::ResetColor]);
    assert(pen_after(head, pen) == clean_pen());
    let body = v.bar_fields() + bar_fill(v.cols - v.bar_used());
    lemma_fields_in_place(v, v.rows, was, p);
    lemma_in_turn(head, body, spot, pen, was, p);
    let end = seq![Op::ResetColor];
    assert(v.bar_ops() == head + body + end);
    lemma_in_turn(head + body, end, spot, pen, was, p);
    lemma_quiet(
        end,
        spot_after(head + body, spot),
        pen_after(head + body, pen),
        left_at(head + body, spot, pen, was, p),
        p,
    );
}

/// The screen shows the state, whatever it showed before. Every place of the text
/// area shows the character of the text that lies there in the view, in its look, or
/// nothing. The row below it shows the status bar. The rows further down are left
/// alone.
pub proof fn law_the_screen_shows_the_state(v: AppView, spot: Spot, pen: Pen, was: Shown, p: Spot)
    requires
        0 <= v.rows < 0x1_0000,
        0 <= v.cols,
        0 <= v.top,
        0 <= v.left,
    ensures
        left_at(v.frame(), spot, pen, was, p) == if 0 <= p.1 < v.rows {
            text_at(v, p)
        } else if p.1 == v.rows {
            bar_at(v, p.0, was)
        } else {
            was
        },
{
    let rows = v.rows_ops(v.rows);
    let bar = v.bar_ops();
    let end = seq![v.cursor_op()];
    lemma_rows_in_place(v, v.rows, spot, pen, was, p);
    lemma_in_turn(rows, bar, spot, pen, was, p);
    lemma_bar_in_place(
        v,
        spot_after(rows, spot),
        pen_after(rows, pen),
        left_at(rows, spot, pen, was, p),
        p,
    );
    lemma_in_turn(rows + bar, end, spot, pen, was, p);
    lemma_one_op(
        v.cursor_op(),
        spot_after(rows + bar, spot),
        pen_after(rows + bar, pen),
        left_at(rows + bar, spot, pen, was, p),
        p,
    );
}

/// In the end the terminal's cursor stands where the cursor is in the text, or,
/// while a query is typed, right behind it, but not beyond the edge. The pen is
/// clean.
pub proof fn law_the_terminals_cursor_is_the_cursor(v: AppView, spot: Spot, pen: Pen)
    requires
        0 <= v.rows < 0x1_0000,
        0 <= v.cols <= 0x1_0000,
        v.mode != Mode::Search ==> v.top <= v.cy < v.top + 0x1_0000 && v.left <= v.cx < v.left
            + 0x1_0000,
    ensures
        v.mode != Mode::Search ==> spot_after(v.frame(), spot) == (v.cx - v.left, v.cy - v.top),
        v.mode == Mode::Search ==> spot_after(v.frame(), spot).1 == v.rows,
        v.mode == Mode::Search && 9 + v.input.len() < v.cols ==> spot_after(v.frame(), spot).0 == 9
            + v.input.len(),
        v.mode == Mode::Search && 9 + v.input.len() >= v.cols > 0 ==> spot_after(v.frame(), spot).0
            == v.cols - 1,
        v.mode == Mode::Search && v.cols == 0 ==> spot_after(v.frame(), spot).0 == 0,
        pen_after(v.frame(), pen) == clean_pen(),
{
    let before = v.rows_ops(v.rows) + v.bar_ops();
    lemma_in_turn(before, seq![v.cursor_op()], spot, pen, None, spot);
    lemma_one_op(v.cursor_op(), spot_after(before, spot), pen_after(before, pen), None, spot);
    lemma_one_after_another(v.rows_ops(v.rows), v.bar_ops(), pen);
    law_the_bar_spans_the_screen(v, pen_after(v.rows_ops(v.rows), pen));
}

/// The look of a character is that of its cell in the dump, plain where it has none.
/// A match gives it black on yellow, and the one under the cursor black on bright
/// yellow. The selection inverts what comes of it. Bold, italic and underline are
/// the dump's in any case.
pub proof fn law_the_look_of_a_character(v: AppView, li: int, col: int)
    ensures
        ({
            let look = v.look(li, col);
            let cell = if 0 <= li < v.style.len() && 0 <= col < v.style[li].len() {
                v.style[li][col]
            } else {
                plain_cell()
            };
            let hit = hit_at(
                v.lines[li],
                v.last_query,
                if li == v.cy {
                    Some(v.cx)
                } else {
                    None
                },
                col,
            );
            &&& look.bold == cell.bold && look.italic == cell.italic && look.underline
                == cell.underline
            &&& hit == Hit::Miss ==> look.fg == cell.fg && look.bg == cell.bg && look.reverse == (
            cell.reverse != v.selected((li, col)))
            &&& hit != Hit::Miss ==> look.fg == Some(Color::AnsiValue(0)) && look.reverse
                == v.selected((li, col))
            &&& hit == Hit::Match ==> look.bg == Some(Color::AnsiValue(3))
            &&& hit == Hit::Current ==> look.bg == Some(Color::AnsiValue(11))
        }),
{
}

} // verus!
