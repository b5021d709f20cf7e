//! The state of copy-mode: the text, the cursor, the selection, the query.
use crate::cell::Cell;
use crate::dump::{dump, law_lines_hold_no_escapes, texts};
use crate::search::{
    find_step, is_match, law_a_search_goes_to_the_nearest_match, leads_to, occurs, precedes, Place,
};
use crate::seqs::{
    joined, law_joined_lines_come_apart_again, lemma_joined_holds, lemma_picked_range, picked, rows, split,
};
use crate::text::{chars_of, push_chars};
use vstd::prelude::*;
use vstd::string::StringExecFns;

verus! {

#[derive(Clone, Copy, Debug, PartialEq, Eq, Structural)]
pub enum Mode {
    Normal,
    VisualChar,
    VisualLine,
    Search,
}

pub struct App {
    /// The plain text. Selection, search and yank work on this.
    pub lines: Vec<Vec<char>>,
    /// The cells, parallel to the text. They are for rendering only.
    pub style: Vec<Vec<Cell>>,
    /// The cursor's line.
    pub cy: usize,
    /// The cursor's column: that of a character, or the one behind the last.
    pub cx: usize,
    /// The first line on screen.
    pub top: usize,
    /// The first column on screen.
    pub left: usize,
    /// How many lines of text fit on screen.
    pub rows: usize,
    /// How many columns fit on screen.
    pub cols: usize,
    pub mode: Mode,
    /// Where the selection was started.
    pub anchor: (usize, usize),
    pub last_query: String,
    /// The query while it is typed.
    pub input: String,
    pub msg: String,
    pub quit: bool,
}

/// The state as mathematical values.
#[verifier::ext_equal]
pub struct AppView {
    pub lines: Seq<Seq<char>>,
    pub style: Seq<Seq<Cell>>,
    pub cy: int,
    pub cx: int,
    pub top: int,
    pub left: int,
    pub rows: int,
    pub cols: int,
    pub mode: Mode,
    pub anchor: Place,
    pub last_query: Seq<char>,
    pub input: Seq<char>,
    pub msg: Seq<char>,
    pub quit: bool,
}

/// A line and a column as a place in the text.
pub open spec fn place(p: (usize, usize)) -> Place {
    (p.0 as int, p.1 as int)
}

/// The length of a line; a line that is not there has none.
pub open spec fn len_of_line(lines: Seq<Seq<char>>, li: int) -> int {
    if 0 <= li < lines.len() {
        lines[li].len() as int
    } else {
        0
    }
}

/// Whether a cursor can stand there: on a line of the text, on one of its
/// characters or right behind the last. An empty text has only its origin.
pub open spec fn in_text(lines: Seq<Seq<char>>, at: Place) -> bool {
    &&& 0 <= at.0
    &&& at.0 < lines.len() || at.0 == 0
    &&& 0 <= at.1 <= len_of_line(lines, at.0)
}

/// Whether one can count past the end of every line.
pub open spec fn lines_fit(lines: Seq<Seq<char>>) -> bool {
    forall|i: int| 0 <= i < lines.len() ==> (#[trigger] lines[i]).len() < usize::MAX
}

pub open spec fn min(a: int, b: int) -> int {
    if a <= b {
        a
    } else {
        b
    }
}

impl View for App {
    type V = AppView;

    open spec fn view(&self) -> AppView {
        AppView {
            lines: rows(self.lines@),
            style: rows(self.style@),
            cy: self.cy as int,
            cx: self.cx as int,
            top: self.top as int,
            left: self.left as int,
            rows: self.rows as int,
            cols: self.cols as int,
            mode: self.mode,
            anchor: place(self.anchor),
            last_query: self.last_query@,
            input: self.input@,
            msg: self.msg@,
            quit: self.quit,
        }
    }
}

/// Where a view of `span` units that starts at `first` has to start to show `at`:
/// it moves no further than it must.
pub open spec fn scrolled(at: int, first: int, span: int) -> int {
    let start = min(at, first);
    if at >= start + span {
        at + 1 - span
    } else {
        start
    }
}

impl AppView {
    /// Copy-mode as it starts on a text.
    pub open spec fn started(
        lines: Seq<Seq<char>>,
        style: Seq<Seq<Cell>>,
        cols: int,
        rows: int,
    ) -> AppView {
        AppView {
            lines,
            style,
            cy: if lines.len() > 0 {
                lines.len() - 1
            } else {
                0
            },
            cx: 0,
            top: 0,
            left: 0,
            rows,
            cols,
            mode: Mode::Normal,
            anchor: (0, 0),
            last_query: Seq::empty(),
            input: Seq::empty(),
            msg: "v/V select · y yank · / search · o nvim · q quit"@,
            quit: false,
        }
    }

    /// The cursor and the anchor are in the text.
    pub open spec fn wf(self) -> bool {
        &&& lines_fit(self.lines)
        &&& in_text(self.lines, self.cursor())
        &&& in_text(self.lines, self.anchor)
    }

    pub open spec fn cursor(self) -> Place {
        (self.cy, self.cx)
    }

    /// The state with the cursor brought back into its line.
    pub open spec fn clamped(self) -> AppView {
        AppView { cx: min(self.cx, len_of_line(self.lines, self.cy)), ..self }
    }

    /// The state with the view scrolled to the cursor.
    pub open spec fn visible(self) -> AppView {
        AppView {
            top: scrolled(self.cy, self.top, self.rows),
            left: scrolled(self.cx, self.left, self.cols),
            ..self
        }
    }

    /// The first and the last place of the selection.
    pub open spec fn selection(self) -> (Place, Place) {
        if precedes(self.cursor(), self.anchor) {
            (self.cursor(), self.anchor)
        } else {
            (self.anchor, self.cursor())
        }
    }

    pub open spec fn visual(self) -> bool {
        self.mode == Mode::VisualChar || self.mode == Mode::VisualLine
    }

    /// Whether a place is selected: by lines, if its line is one from the first to
    /// the last; by characters, if it is itself none before the first and none
    /// behind the last.
    pub open spec fn selected(self, at: Place) -> bool {
        let (first, last) = self.selection();
        match self.mode {
            Mode::VisualLine => first.0 <= at.0 <= last.0,
            Mode::VisualChar => !precedes(at, first) && !precedes(last, at),
            _ => false,
        }
    }

    /// The column that the selected part of a line starts at: the selection's first
    /// one on its first line, but not past its end, and `0` on the others.
    pub open spec fn part_start(self, li: int) -> int {
        if self.mode == Mode::VisualChar && li == self.selection().0.0 {
            min(self.selection().0.1, self.lines[li].len() as int)
        } else {
            0
        }
    }

    /// The column that the selected part of a line ends in front of: the one behind
    /// the selection's last on its last line, and the end of the line on the others.
    pub open spec fn part_end(self, li: int) -> int {
        if self.mode == Mode::VisualChar && li == self.selection().1.0 {
            min(self.selection().1.1 + 1, self.lines[li].len() as int)
        } else {
            self.lines[li].len() as int
        }
    }

    /// The selected part of a line.
    pub open spec fn selected_part(self, li: int) -> Seq<char> {
        self.lines[li].subrange(self.part_start(li), self.part_end(li))
    }

    /// What a yank copies: the selected part of every line that the selection
    /// touches, or, without a selection, the line of the cursor.
    pub open spec fn yanked(self) -> Seq<char> {
        let (first, last) = self.selection();
        if self.visual() {
            joined(
                Seq::new((last.0 - first.0 + 1) as nat, |k: int| self.selected_part(first.0 + k)),
            )
        } else if self.cy < self.lines.len() {
            self.lines[self.cy]
        } else {
            Seq::empty()
        }
    }

    /// Whether there is something to yank from: the selection, where there is one,
    /// starts and ends on lines of the text.
    pub open spec fn yankable(self) -> bool {
        self.visual() ==> self.anchor.0 < self.lines.len() && self.cy < self.lines.len()
    }

    /// Whether a search turns this state into `post`.
    ///
    /// Without a query, or without a line, nothing happens. Where the query occurs,
    /// the cursor goes to the match that the search leads to. Where it does not,
    /// only the message says so.
    pub open spec fn searched(self, forward: bool, post: AppView) -> bool {
        if self.last_query.len() == 0 || self.lines.len() == 0 {
            post == self
        } else if occurs(self.lines, self.last_query) {
            &&& leads_to(self.lines, self.last_query, forward, self.cursor(), post.cursor())
            &&& post == AppView { cy: post.cy, cx: post.cx, msg: "/"@ + self.last_query, ..self }
        } else {
            post == AppView { msg: "not found: "@ + self.last_query, ..self }
        }
    }
}

impl App {
    /// Copy-mode on this text. The cursor starts on the last line.
    pub fn new(lines: Vec<Vec<char>>, style: Vec<Vec<Cell>>, cols: usize, rows: usize) -> (r: Self)
        requires
            lines_fit(crate::seqs::rows(lines@)),
        ensures
            r@.wf(),
            r@ == AppView::started(
                crate::seqs::rows(lines@),
                crate::seqs::rows(style@),
                cols as int,
                rows as int,
            ),
            r@ == (AppView {
                lines: crate::seqs::rows(lines@),
                style: crate::seqs::rows(style@),
                cy: if lines@.len() > 0 {
                    lines@.len() - 1
                } else {
                    0
                },
                cx: 0,
                top: 0,
                left: 0,
                rows: rows as int,
                cols: cols as int,
                mode: Mode::Normal,
                anchor: (0, 0),
                last_query: Seq::empty(),
                input: Seq::empty(),
                msg: "v/V select · y yank · / search · o nvim · q quit"@,
                quit: false,
            }),
    {
        let cy: usize = if lines.len() > 0 { lines.len() - 1 } else { 0 };
        App {
            lines,
            style,
            cy,
            cx: 0,
            top: 0,
            left: 0,
            rows,
            cols,
            mode: Mode::Normal,
            anchor: (0, 0),
            last_query: String::new(),
            input: String::new(),
            msg: "v/V select · y yank · / search · o nvim · q quit".to_owned(),
            quit: false,
        }
    }

    pub fn line_len(&self, li: usize) -> (r: usize)
        ensures
            r == len_of_line(self@.lines, li as int),
    {
        if li < self.lines.len() {
            self.lines[li].len()
        } else {
            0
        }
    }

    pub fn clamp_cx(&mut self)
        ensures
            final(self)@ == old(self)@.clamped(),
    {
        let len: usize = self.line_len(self.cy);
        if self.cx > len {
            self.cx = len;
        }
    }

    /// Scrolls the cursor into view.
    pub fn ensure_visible(&mut self)
        requires
            old(self).rows > 0 || old(self).cy < usize::MAX,
            old(self).cols > 0 || old(self).cx < usize::MAX,
        ensures
            final(self)@ == old(self)@.visible(),
    {
        if self.cy < self.top {
            self.top = self.cy;
        }
        if self.cy - self.top >= self.rows {
            self.top = self.cy - self.rows + 1;
        }
        if self.cx < self.left {
            self.left = self.cx;
        }
        if self.cx - self.left >= self.cols {
            self.left = self.cx - self.cols + 1;
        }
    }

    /// The anchor and the cursor in the order of the text.
    pub fn sel_bounds(&self) -> (r: ((usize, usize), (usize, usize)))
        ensures
            (place(r.0), place(r.1)) == self@.selection(),
    {
        let a: (usize, usize) = self.anchor;
        if self.cy < a.0 || (self.cy == a.0 && self.cx < a.1) {
            ((self.cy, self.cx), a)
        } else {
            (a, (self.cy, self.cx))
        }
    }

    pub fn in_selection(&self, li: usize, col: usize) -> (r: bool)
        ensures
            r == self@.selected((li as int, col as int)),
    {
        let ((sl, sc), (el, ec)) = self.sel_bounds();
        match self.mode {
            Mode::VisualLine => li >= sl && li <= el,
            Mode::VisualChar => {
                if li < sl || li > el {
                    false
                } else if sl == el {
                    col >= sc && col <= ec
                } else if li == sl {
                    col >= sc
                } else if li == el {
                    col <= ec
                } else {
                    true
                }
            },
            _ => false,
        }
    }

    /// The text that a yank copies.
    pub fn extract(&self) -> (r: String)
        requires
            self@.yankable(),
        ensures
            r@ == self@.yanked(),
    {
        let mut out: String = String::new();
        if self.mode != Mode::VisualChar && self.mode != Mode::VisualLine {
            if self.cy < self.lines.len() {
                push_chars(&mut out, self.lines[self.cy].as_slice());
                assert(out@ == self@.lines[self.cy as int]);
            }
            return out;
        }
        let ((sl, sc), (el, ec)) = self.sel_bounds();
        let by_char: bool = self.mode == Mode::VisualChar;
        let ghost parts = Seq::new(
            (el - sl + 1) as nat,
            |k: int| self@.selected_part(sl + k),
        );
        let n: usize = self.lines.len();
        let mut li: usize = sl;
        assert(parts.take(0) == Seq::<Seq<char>>::empty());
        while li <= el
            invariant
                sl <= li <= el + 1,
                el < n == self.lines@.len(),
                self@.selection() == (place((sl, sc)), place((el, ec))),
                by_char == (self.mode == Mode::VisualChar),
                parts == Seq::new((el - sl + 1) as nat, |k: int| self@.selected_part(sl + k)),
                out@ == joined(parts.take(li - sl)),
            decreases el + 1 - li,
        {
            let line = &self.lines[li];
            let lo: usize = if !by_char || li != sl {
                0
            } else if sc < line.len() {
                sc
            } else {
                line.len()
            };
            let hi: usize = if by_char && li == el && ec < line.len() { ec + 1 } else { line.len() };
            let ghost more = parts.take(li - sl + 1);
            assert(more.drop_last() == parts.take(li - sl));
            assert(self@.lines[li as int] == line@);
            assert(more.last() == line@.subrange(lo as int, hi as int));
            if li > sl {
                out.push('\n');
            }
            push_chars(&mut out, vstd::slice::slice_subrange(line.as_slice(), lo, hi));
            li += 1;
        }
        assert(parts.take(li - sl) == parts);
        out
    }

    /// Steps to the next match, or to the previous one.
    ///
    /// Every match counts, a second one on the same line too, and the search goes
    /// on from the other end of the text.
    pub fn search(&mut self, forward: bool)
        requires
            old(self)@.cy < old(self)@.lines.len() || old(self)@.lines.len() == 0,
        ensures
            old(self)@.searched(forward, final(self)@),
            old(self)@.wf() ==> final(self)@.wf(),
    {
        if self.last_query.as_str().is_empty() || self.lines.len() == 0 {
            return;
        }
        let query = chars_of(self.last_query.as_str());
        match find_step(&self.lines, &query, forward, self.cy, self.cx) {
            Some((li, col)) => {
                assert(is_match(self@.lines, query@, (li as int, col as int)));
                self.cy = li;
                self.cx = col;
                let mut msg: String = "/".to_owned();
                msg.append(self.last_query.as_str());
                self.msg = msg;
            },
            None => {
                let mut msg: String = "not found: ".to_owned();
                msg.append(self.last_query.as_str());
                self.msg = msg;
            },
        }
    }

    /// The whole text, without any colour.
    pub fn plain_text(&self) -> (r: String)
        ensures
            r@ == joined(self@.lines),
    {
        let mut out: String = String::new();
        let mut li: usize = 0;
        assert(self@.lines.take(0) == Seq::<Seq<char>>::empty());
        while li < self.lines.len()
            invariant
                li <= self.lines@.len(),
                out@ == joined(self@.lines.take(li as int)),
            decreases self.lines@.len() - li,
        {
            let ghost more = self@.lines.take(li + 1);
            assert(more.drop_last() == self@.lines.take(li as int));
            assert(more.last() == self.lines@[li as int]@);
            if li > 0 {
                out.push('\n');
            }
            push_chars(&mut out, self.lines[li].as_slice());
            li += 1;
        }
        assert(self@.lines.take(li as int) == self@.lines);
        out
    }
}

// ---- laws ----
/// Scrolling puts the cursor on screen, wherever the view was, as long as the
/// screen has room for it.
pub proof fn law_the_cursor_is_on_screen(v: AppView)
    requires
        v.rows > 0,
        v.cols > 0,
    ensures
        v.visible().top <= v.cy < v.visible().top + v.rows,
        v.visible().left <= v.cx < v.visible().left + v.cols,
{
}

/// A view that shows the cursor already does not move.
pub proof fn law_a_visible_cursor_scrolls_nothing(v: AppView)
    requires
        v.top <= v.cy < v.top + v.rows,
        v.left <= v.cx < v.left + v.cols,
    ensures
        v.visible() == v,
{
}

/// A selection is the same from either end.
pub proof fn law_a_selection_has_no_direction(v: AppView, at: Place)
    ensures
        ({
            let turned = AppView { cy: v.anchor.0, cx: v.anchor.1, anchor: v.cursor(), ..v };
            turned.selection() == v.selection() && turned.selected(at) == v.selected(at)
        }),
{
}

/// What is yanked is what is selected: of every line, the yank takes the columns
/// that the screen shows as selected and no others.
pub proof fn law_what_is_yanked_is_what_is_selected(v: AppView, li: int, col: int)
    requires
        v.visual(),
        0 <= li < v.lines.len(),
        0 <= col < v.lines[li].len(),
    ensures
        v.selected((li, col)) <==> v.selection().0.0 <= li <= v.selection().1.0 && v.part_start(li)
            <= col < v.part_end(li),
{
}

proof fn lemma_yanked_holds(v: AppView, i: int)
    requires
        v.yankable(),
        0 <= v.cy && 0 <= v.cx,
        0 <= v.anchor.0 && 0 <= v.anchor.1,
        0 <= i < v.yanked().len(),
    ensures
        v.yanked()[i] == '\n' || exists|li: int, col: int|
            #![trigger v.lines[li][col]]
            0 <= li < v.lines.len() && 0 <= col < v.lines[li].len() && v.lines[li][col]
                == v.yanked()[i],
{
    let (first, last) = v.selection();
    if v.visual() {
        let parts = Seq::new(
            (last.0 - first.0 + 1) as nat,
            |k: int| v.selected_part(first.0 + k),
        );
        lemma_joined_holds(parts, i);
        if v.yanked()[i] != '\n' {
            let (k, c) = choose|k: int, c: int|
                #![trigger parts[k][c]]
                0 <= k < parts.len() && 0 <= c < parts[k].len() && parts[k][c] == joined(parts)[i];
            let li = first.0 + k;
            assert(v.lines[li][v.part_start(li) + c] == v.yanked()[i]);
        }
    } else {
        assert(v.lines[v.cy][i] == v.yanked()[i]);
    }
}

/// Copied text never carries escape codes, whatever the dump held.
pub proof fn law_copied_text_carries_no_escapes(text: Seq<char>, v: AppView, i: int)
    requires
        v.yankable(),
        0 <= v.cy && 0 <= v.cx,
        0 <= v.anchor.0 && 0 <= v.anchor.1,
        v.lines == texts(dump(text)),
        0 <= i < v.yanked().len(),
    ensures
        v.yanked()[i] != '\u{1b}',
        v.yanked()[i] != '\r',
{
    law_lines_hold_no_escapes(text);
    lemma_yanked_holds(v, i);
}

/// The plain text carries no escape codes either.
pub proof fn law_plain_text_carries_no_escapes(text: Seq<char>, i: int)
    requires
        0 <= i < joined(texts(dump(text))).len(),
    ensures
        joined(texts(dump(text)))[i] != '\u{1b}',
        joined(texts(dump(text)))[i] != '\r',
{
    law_lines_hold_no_escapes(text);
    lemma_joined_holds(texts(dump(text)), i);
}

/// The view of the state is the state, part by part.
pub proof fn law_the_view_is_the_state(app: App)
    ensures
        app@.lines.len() == app.lines@.len(),
        app@.style.len() == app.style@.len(),
        forall|i: int| 0 <= i < app.lines@.len() ==> #[trigger] app@.lines[i] == app.lines@[i]@,
        forall|i: int| 0 <= i < app.style@.len() ==> #[trigger] app@.style[i] == app.style@[i]@,
        app@.cy == app.cy && app@.cx == app.cx,
        app@.top == app.top && app@.left == app.left,
        app@.rows == app.rows && app@.cols == app.cols,
        app@.mode == app.mode,
        app@.anchor == (app.anchor.0 as int, app.anchor.1 as int),
        app@.last_query == app.last_query@,
        app@.input == app.input@,
        app@.msg == app.msg@,
        app@.quit == app.quit,
{
}

/// Clamping takes a column behind the end of its line to that end, leaves any other
/// where it is, and touches nothing else.
pub proof fn law_clamping_stops_at_the_end_of_the_line(v: AppView)
    requires
        0 <= v.cy,
    ensures
        v.clamped() == (AppView { cx: v.clamped().cx, ..v }),
        v.cy < v.lines.len() && v.cx <= v.lines[v.cy].len() ==> v.clamped().cx == v.cx,
        v.cy < v.lines.len() && v.cx > v.lines[v.cy].len() ==> v.clamped().cx
            == v.lines[v.cy].len(),
        v.cy >= v.lines.len() && v.cx >= 0 ==> v.clamped().cx == 0,
{
}

/// Scrolling moves the view and nothing else, and no further than it must: the
/// cursor ends up at the edge that it was beyond.
pub proof fn law_scrolling_moves_no_further_than_it_must(v: AppView)
    ensures
        v.visible() == (AppView { top: v.visible().top, left: v.visible().left, ..v }),
        v.rows > 0 && v.cy < v.top ==> v.visible().top == v.cy,
        v.rows > 0 && v.top <= v.cy < v.top + v.rows ==> v.visible().top == v.top,
        v.rows > 0 && v.cy >= v.top + v.rows ==> v.visible().top + v.rows - 1 == v.cy,
        v.rows == 0 ==> v.visible().top == v.cy + 1,
        v.cols > 0 && v.cx < v.left ==> v.visible().left == v.cx,
        v.cols > 0 && v.left <= v.cx < v.left + v.cols ==> v.visible().left == v.left,
        v.cols > 0 && v.cx >= v.left + v.cols ==> v.visible().left + v.cols - 1 == v.cx,
        v.cols == 0 ==> v.visible().left == v.cx + 1,
{
}

/// The selection runs between the anchor and the cursor, in the order of the text.
pub proof fn law_the_selection_runs_between_anchor_and_cursor(v: AppView)
    ensures
        ({
            let (first, last) = v.selection();
            &&& (first == v.anchor && last == (v.cy, v.cx)) || (first == (v.cy, v.cx) && last
                == v.anchor)
            &&& first.0 < last.0 || (first.0 == last.0 && first.1 <= last.1)
        }),
{
}

/// A line selection holds every column of the lines from the anchor's to the
/// cursor's, whichever is first. A character selection holds the places from the one
/// to the other, both ends too. Without a selection nothing is selected.
pub proof fn law_what_a_selection_holds(v: AppView, li: int, col: int)
    ensures
        v.mode == Mode::VisualLine ==> (v.selected((li, col)) <==> (v.anchor.0 <= li <= v.cy) || (v.cy
            <= li <= v.anchor.0)),
        v.mode == Mode::VisualChar ==> (v.selected((li, col)) <==> {
            let behind_anchor = v.anchor.0 < li || (v.anchor.0 == li && v.anchor.1 <= col);
            let before_anchor = li < v.anchor.0 || (li == v.anchor.0 && col <= v.anchor.1);
            let behind_cursor = v.cy < li || (v.cy == li && v.cx <= col);
            let before_cursor = li < v.cy || (li == v.cy && col <= v.cx);
            (behind_anchor && before_cursor) || (behind_cursor && before_anchor)
        }),
        v.mode == Mode::Normal || v.mode == Mode::Search ==> !v.selected((li, col)),
{
}

/// The selected characters of the lines that a selection touches, line by line.
pub open spec fn selected_lines(v: AppView) -> Seq<Seq<char>> {
    let first = v.selection().0.0;
    Seq::new(
        (v.selection().1.0 - first + 1) as nat,
        |k: int| picked(v.lines[first + k], |col: int| v.selected((first + k, col))),
    )
}

/// A yank takes, of every line that the selection touches, from the first to the
/// last, the selected characters and no others, with a line feed between each two
/// lines. In a text whose lines hold no line feed, as those of a dump do not, it
/// comes apart into these lines again. Without a selection it takes the line of the
/// cursor.
pub proof fn law_a_yank_takes_the_selected_characters(v: AppView)
    requires
        v.yankable(),
        0 <= v.cy && 0 <= v.cx,
        0 <= v.anchor.0 && 0 <= v.anchor.1,
    ensures
        v.mode == Mode::VisualChar || v.mode == Mode::VisualLine ==> v.yanked() == joined(
            selected_lines(v),
        ),
        (v.mode == Mode::VisualChar || v.mode == Mode::VisualLine) && (forall|i: int, j: int|
            #![trigger v.lines[i][j]]
            0 <= i < v.lines.len() && 0 <= j < v.lines[i].len() ==> v.lines[i][j] != '\n') ==> split(
            v.yanked(),
            |c: char| c == '\n',
        ) == selected_lines(v),
        v.mode != Mode::VisualChar && v.mode != Mode::VisualLine ==> v.yanked() == if v.cy
            < v.lines.len() {
            v.lines[v.cy]
        } else {
            Seq::empty()
        },
{
    if v.visual() {
        let (first, last) = v.selection();
        let parts = Seq::new(
            (last.0 - first.0 + 1) as nat,
            |k: int| v.selected_part(first.0 + k),
        );
        let lines = selected_lines(v);
        assert forall|k: int| 0 <= k < parts.len() implies #[trigger] parts[k] == lines[k] by {
            let li = first.0 + k;
            lemma_picked_range(
                v.lines[li],
                |col: int| v.selected((li, col)),
                v.part_start(li),
                v.part_end(li),
            );
        }
        assert(parts == lines);
        if forall|i: int, j: int|
            #![trigger v.lines[i][j]]
            0 <= i < v.lines.len() && 0 <= j < v.lines[i].len() ==> v.lines[i][j] != '\n' {
            assert forall|k: int, j: int|
                #![trigger parts[k][j]]
                0 <= k < parts.len() && 0 <= j < parts[k].len() implies parts[k][j] != '\n' by {
                let li = first.0 + k;
                assert(v.lines[li][v.part_start(li) + j] == parts[k][j]);
            }
            law_joined_lines_come_apart_again(parts);
        }
    }
}

/// A selection that was made upwards, or from right to left, is yanked as one that
/// was made the other way.
pub proof fn law_a_yank_has_no_direction(v: AppView)
    requires
        v.mode == Mode::VisualChar || v.mode == Mode::VisualLine,
    ensures
        (AppView { cy: v.anchor.0, cx: v.anchor.1, anchor: (v.cy, v.cx), ..v }).yanked()
            == v.yanked(),
{
    let turned = AppView { cy: v.anchor.0, cx: v.anchor.1, anchor: (v.cy, v.cx), ..v };
    let (first, last) = v.selection();
    assert(turned.selection() == v.selection());
    let n = (last.0 - first.0 + 1) as nat;
    assert(Seq::new(n, |k: int| turned.selected_part(first.0 + k)) == Seq::new(
        n,
        |k: int| v.selected_part(first.0 + k),
    ));
}

/// A search takes the cursor from where it is, whatever the screen shows and
/// whatever the mode, to the nearest match: ahead of it if there is one, and
/// otherwise the first one from the other end. It says what it looked for, and
/// touches nothing else.
pub proof fn law_a_search_steps_from_the_cursor(pre: AppView, forward: bool, post: AppView, m: Place)
    requires
        pre.searched(forward, post),
        is_match(pre.lines, pre.last_query, m),
    ensures
        ({
            let from = (pre.cy, pre.cx);
            let to = (post.cy, post.cx);
            &&& is_match(pre.lines, pre.last_query, to)
            &&& forward && precedes(from, m) ==> precedes(from, to) && !precedes(m, to)
            &&& !forward && precedes(m, from) ==> precedes(to, from) && !precedes(to, m)
            &&& forward && !precedes(from, to) ==> !precedes(from, m) && !precedes(m, to)
            &&& !forward && !precedes(to, from) ==> !precedes(m, from) && !precedes(to, m)
        }),
        post == (AppView { cy: post.cy, cx: post.cx, msg: "/"@ + pre.last_query, ..pre }),
{
    assert(occurs(pre.lines, pre.last_query));
    law_a_search_goes_to_the_nearest_match(
        pre.lines,
        pre.last_query,
        forward,
        pre.cursor(),
        post.cursor(),
        m,
    );
}

/// A search in vain moves nothing and says so. Without a query, or without a line,
/// it does not even say so.
pub proof fn law_a_search_in_vain_moves_nothing(pre: AppView, forward: bool, post: AppView)
    requires
        pre.searched(forward, post),
        forall|m: Place| !#[trigger] is_match(pre.lines, pre.last_query, m),
    ensures
        post == (AppView { msg: post.msg, ..pre }),
        pre.last_query.len() == 0 || pre.lines.len() == 0 ==> post.msg == pre.msg,
        pre.last_query.len() > 0 && pre.lines.len() > 0 ==> post.msg == "not found: "@
            + pre.last_query,
{
}

/// Copy-mode starts with the text and the screen as they are given, on the last line
/// of the text and at its start, however long it is, with nothing selected, asked or
/// searched for.
pub proof fn law_copy_mode_starts_on_the_last_line(
    lines: Seq<Seq<char>>,
    style: Seq<Seq<Cell>>,
    cols: int,
    rows: int,
)
    ensures
        ({
            let v = AppView::started(lines, style, cols, rows);
            &&& v.lines == lines && v.style == style && v.cols == cols && v.rows == rows
            &&& lines.len() > 0 ==> v.cy + 1 == lines.len()
            &&& lines.len() == 0 ==> v.cy == 0
            &&& v.cx == 0 && v.top == 0 && v.left == 0
            &&& v.mode == Mode::Normal && !v.quit
            &&& v.last_query.len() == 0 && v.input.len() == 0
        }),
{
}

/// A place has the line and the column that are given.
pub proof fn law_a_place_is_a_line_and_a_column(p: (usize, usize))
    ensures
        place(p).0 == p.0,
        place(p).1 == p.1,
{
}

/// What a state has to be like, and no more: its lines can be counted through, and
/// the cursor and the anchor are each on a line of the text, or on the first line of
/// an empty one, and not behind its end.
pub proof fn law_what_makes_a_state_sound(v: AppView)
    ensures
        v.wf() <==> {
            &&& forall|i: int| 0 <= i < v.lines.len() ==> (#[trigger] v.lines[i]).len() < usize::MAX
            &&& 0 <= v.cx && 0 <= v.cy && 0 <= v.anchor.0 && 0 <= v.anchor.1
            &&& v.lines.len() > 0 ==> v.cy < v.lines.len() && v.cx <= v.lines[v.cy].len()
            &&& v.lines.len() > 0 ==> v.anchor.0 < v.lines.len() && v.anchor.1
                <= v.lines[v.anchor.0].len()
            &&& v.lines.len() == 0 ==> v.cursor() == (0int, 0int) && v.anchor == (0int, 0int)
        },
        v.lines.len() > 0 && v.wf() ==> v.yankable(),
{
}

} // verus!
