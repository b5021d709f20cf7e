//! Keys: what each of them means, and what it does to the state.
use crate::app::{law_the_cursor_is_on_screen, len_of_line, min, App, AppView, Mode};
use crate::class::{next_word, prev_word, word_back, word_forward};
use crate::search::{hit_at, law_empty_query_lights_nothing, Hit};
use crossterm::event::KeyModifiers;
use vstd::prelude::*;

verus! {

/// A key, as far as copy-mode tells keys apart.
#[derive(Clone, Copy, Debug, PartialEq, Eq, Structural)]
pub enum KeyCode {
    Char(char),
    Backspace,
    Enter,
    Esc,
    Up,
    Down,
    Left,
    Right,
    Home,
    End,
    PageUp,
    PageDown,
    Other,
}

#[derive(Clone, Copy, Debug, PartialEq, Eq, Structural)]
pub enum KeyEventKind {
    Press,
    Repeat,
    Release,
}

/// What the terminal reports.
#[derive(Clone, Copy, Debug, PartialEq, Eq, Structural)]
pub enum Event {
    /// A key, with the bits of its modifiers.
    Key { code: KeyCode, modifiers: u8, kind: KeyEventKind },
    /// The screen has this many columns and rows now.
    Resize(u16, u16),
    Other,
}

/// What is left to do once the state has taken an event in.
#[derive(Debug, PartialEq, Eq)]
pub enum Reaction {
    /// Nothing. The screen is as it was.
    Ignore,
    /// Draw the screen.
    Redraw,
    /// Draw the screen, and copy this text in the end.
    Copy(String),
    /// Draw the screen, and open the editor on the text in the end.
    Edit,
}

/// What a key asks for outside the query prompt.
#[derive(Clone, Copy, Debug, PartialEq, Eq, Structural)]
pub enum Command {
    Quit,
    Leave,
    Down,
    Up,
    Left,
    Right,
    LineStart,
    LineEnd,
    Top,
    Bottom,
    WordForward,
    WordBack,
    PageDown,
    PageUp,
    HalfPageDown,
    HalfPageUp,
    SelectChars,
    SelectLines,
    AskQuery,
    NextMatch,
    PrevMatch,
    OpenEditor,
    Yank,
    Nothing,
}

/// The key table. Ctrl makes a difference to five letters only.
pub open spec fn meaning(key: KeyCode, ctrl: bool) -> Command {
    match key {
        KeyCode::Esc => Command::Leave,
        KeyCode::Down => Command::Down,
        KeyCode::Up => Command::Up,
        KeyCode::Left => Command::Left,
        KeyCode::Right => Command::Right,
        KeyCode::Home => Command::LineStart,
        KeyCode::End => Command::LineEnd,
        KeyCode::PageDown => Command::PageDown,
        KeyCode::PageUp => Command::PageUp,
        KeyCode::Enter => Command::Yank,
        KeyCode::Backspace => Command::Nothing,
        KeyCode::Other => Command::Nothing,
        KeyCode::Char(c) => letter_meaning(c, ctrl),
    }
}

pub open spec fn letter_meaning(c: char, ctrl: bool) -> Command {
    if c == 'q' {
        Command::Quit
    } else if c == 'j' {
        Command::Down
    } else if c == 'k' {
        Command::Up
    } else if c == 'h' {
        Command::Left
    } else if c == 'l' {
        Command::Right
    } else if c == '0' {
        Command::LineStart
    } else if c == '$' {
        Command::LineEnd
    } else if c == 'g' {
        Command::Top
    } else if c == 'G' {
        Command::Bottom
    } else if c == 'w' {
        Command::WordForward
    } else if c == 'b' {
        if ctrl {
            Command::PageUp
        } else {
            Command::WordBack
        }
    } else if c == 'v' {
        Command::SelectChars
    } else if c == 'V' {
        Command::SelectLines
    } else if c == '/' {
        Command::AskQuery
    } else if c == 'n' {
        Command::NextMatch
    } else if c == 'N' {
        Command::PrevMatch
    } else if c == 'o' {
        Command::OpenEditor
    } else if c == 'y' {
        Command::Yank
    } else if ctrl && c == 'c' {
        Command::Quit
    } else if ctrl && c == 'f' {
        Command::PageDown
    } else if ctrl && c == 'd' {
        Command::HalfPageDown
    } else if ctrl && c == 'u' {
        Command::HalfPageUp
    } else {
        Command::Nothing
    }
}

/// Whether the bits of a key's modifiers hold Ctrl.
pub open spec fn holds_control(modifiers: u8) -> bool {
    modifiers & 0x02 == 0x02
}

/// How many rows the text has on a screen of height `h`: the last row is the
/// status bar's, and one row of text there always is.
pub open spec fn text_rows(h: int) -> int {
    if h >= 2 {
        h - 1
    } else {
        1
    }
}

impl AppView {
    /// The last line.
    pub open spec fn bottom(self) -> int {
        if self.lines.len() > 0 {
            self.lines.len() - 1
        } else {
            0
        }
    }

    /// The state with the cursor on this line, or on the nearest one there is.
    pub open spec fn on_line(self, li: int) -> AppView {
        let cy = if li < 0 {
            0
        } else {
            min(li, self.bottom())
        };
        AppView { cy, ..self }.clamped()
    }

    /// The state with a selection of this kind started at the cursor, or, where
    /// there is one of this kind, without it.
    pub open spec fn toggled(self, mode: Mode) -> AppView {
        if self.mode == mode {
            AppView { mode: Mode::Normal, ..self }
        } else {
            AppView { mode, anchor: self.cursor(), ..self }
        }
    }

    /// What a command other than the two searches makes of the state.
    pub open spec fn commanded(self, command: Command) -> AppView {
        let line = self.lines[self.cy];
        match command {
            Command::Quit => AppView { quit: true, ..self },
            Command::Leave => if self.mode == Mode::Normal {
                AppView { quit: true, ..self }
            } else {
                AppView { mode: Mode::Normal, msg: Seq::empty(), ..self }
            },
            Command::Down => if self.cy < self.bottom() {
                self.on_line(self.cy + 1)
            } else {
                self
            },
            Command::Up => if self.cy > 0 {
                self.on_line(self.cy - 1)
            } else {
                self
            },
            Command::Left => AppView {
                cx: if self.cx > 0 {
                    self.cx - 1
                } else {
                    0
                },
                ..self
            },
            Command::Right => AppView {
                cx: min(self.cx + 1, len_of_line(self.lines, self.cy)),
                ..self
            },
            Command::LineStart => AppView { cx: 0, ..self },
            Command::LineEnd => AppView {
                cx: if len_of_line(self.lines, self.cy) > 0 {
                    len_of_line(self.lines, self.cy) - 1
                } else {
                    0
                },
                ..self
            },
            Command::Top => self.on_line(0),
            Command::Bottom => self.on_line(self.bottom()),
            Command::WordForward => AppView { cx: next_word(line, self.cx), ..self },
            Command::WordBack => AppView { cx: prev_word(line, self.cx), ..self },
            Command::PageDown => self.on_line(self.cy + self.rows),
            Command::PageUp => self.on_line(self.cy - self.rows),
            Command::HalfPageDown => self.on_line(self.cy + self.rows / 2),
            Command::HalfPageUp => self.on_line(self.cy - self.rows / 2),
            Command::SelectChars => self.toggled(Mode::VisualChar),
            Command::SelectLines => self.toggled(Mode::VisualLine),
            Command::AskQuery => AppView { mode: Mode::Search, input: Seq::empty(), ..self },
            Command::OpenEditor => AppView { quit: true, ..self },
            Command::Yank => AppView { quit: true, ..self },
            Command::NextMatch => self,
            Command::PrevMatch => self,
            Command::Nothing => self,
        }
    }

    /// What a key other than Enter makes of the state at the query prompt.
    pub open spec fn typed(self, key: KeyCode) -> AppView {
        match key {
            KeyCode::Char(c) => AppView { input: self.input.push(c), ..self },
            KeyCode::Backspace => AppView {
                input: if self.input.len() > 0 {
                    self.input.drop_last()
                } else {
                    self.input
                },
                ..self
            },
            KeyCode::Esc => AppView {
                input: Seq::empty(),
                mode: Mode::Normal,
                msg: "search cancelled"@,
                ..self
            },
            _ => self,
        }
    }

    /// The state once the query is entered and before the search for it.
    pub open spec fn asked(self) -> AppView {
        AppView { last_query: self.input, input: Seq::empty(), mode: Mode::Normal, ..self }
    }

    /// Whether a key turns this state into `post`, the view not yet scrolled.
    pub open spec fn pressed(self, key: KeyCode, ctrl: bool, post: AppView) -> bool {
        if self.mode == Mode::Search {
            if key == KeyCode::Enter {
                self.asked().searched(true, post)
            } else {
                post == self.typed(key)
            }
        } else if meaning(key, ctrl) == Command::NextMatch {
            self.searched(true, post)
        } else if meaning(key, ctrl) == Command::PrevMatch {
            self.searched(false, post)
        } else {
            post == self.commanded(meaning(key, ctrl))
        }
    }

    /// The state with the view where it is in another one.
    pub open spec fn scrolled_as(self, other: AppView) -> AppView {
        AppView { top: other.top, left: other.left, ..self }
    }

    /// Whether a key needs a line to work on: a step by words does, and so does a
    /// yank of a selection.
    pub open spec fn needs_line(self, key: KeyCode, ctrl: bool) -> bool {
        let command = meaning(key, ctrl);
        self.mode != Mode::Search && (command == Command::WordForward || command
            == Command::WordBack || (command == Command::Yank && self.visual()))
    }

    /// Whether there is a line wherever the event needs one.
    pub open spec fn accepts(self, ev: Event) -> bool {
        match ev {
            Event::Key { code, modifiers, kind } => kind == KeyEventKind::Release
                || self.lines.len() > 0 || !self.needs_line(code, holds_control(modifiers)),
            _ => true,
        }
    }

    /// Whether this is the reaction to a key.
    pub open spec fn reacts(self, key: KeyCode, ctrl: bool, r: Reaction) -> bool {
        let command = if self.mode == Mode::Search {
            Command::Nothing
        } else {
            meaning(key, ctrl)
        };
        if command == Command::OpenEditor {
            r is Edit
        } else if command == Command::Yank && self.yanked().len() > 0 {
            r matches Reaction::Copy(text) && text@ == self.yanked()
        } else {
            r is Redraw
        }
    }

    /// The state on a screen of this size.
    pub open spec fn resized(self, w: int, h: int) -> AppView {
        AppView { cols: w, rows: text_rows(h), ..self }.visible()
    }

    /// Whether an event turns this state into `post` and is answered by `r`.
    pub open spec fn handled(self, ev: Event, post: AppView, r: Reaction) -> bool {
        match ev {
            Event::Key { code, modifiers, kind } => if kind == KeyEventKind::Release {
                post == self && r is Ignore
            } else {
                let ctrl = holds_control(modifiers);
                &&& self.pressed(code, ctrl, post.scrolled_as(self))
                &&& post == post.scrolled_as(self).visible()
                &&& self.reacts(code, ctrl, r)
            },
            Event::Resize(w, h) => post == self.resized(w as int, h as int) && r is Redraw,
            Event::Other => post == self && r is Ignore,
        }
    }
}

/// `KeyModifiers::contains` of crossterm tells whether all bits of one set of
/// modifiers are in another; the bit of `KeyModifiers::CONTROL` is `0x02`.
#[verifier::external_body]
fn has_control(modifiers: u8) -> (r: bool)
    ensures
        r == holds_control(modifiers),
{
    KeyModifiers::from_bits_retain(modifiers).contains(KeyModifiers::CONTROL)
}

/// What a key asks for.
pub fn command_of(key: KeyCode, ctrl: bool) -> (r: Command)
    ensures
        r == meaning(key, ctrl),
{
    match key {
        KeyCode::Esc => Command::Leave,
        KeyCode::Down => Command::Down,
        KeyCode::Up => Command::Up,
        KeyCode::Left => Command::Left,
        KeyCode::Right => Command::Right,
        KeyCode::Home => Command::LineStart,
        KeyCode::End => Command::LineEnd,
        KeyCode::PageDown => Command::PageDown,
        KeyCode::PageUp => Command::PageUp,
        KeyCode::Enter => Command::Yank,
        KeyCode::Backspace => Command::Nothing,
        KeyCode::Other => Command::Nothing,
        KeyCode::Char(c) => match c {
            'q' => Command::Quit,
            'j' => Command::Down,
            'k' => Command::Up,
            'h' => Command::Left,
            'l' => Command::Right,
            '0' => Command::LineStart,
            '$' => Command::LineEnd,
            'g' => Command::Top,
            'G' => Command::Bottom,
            'w' => Command::WordForward,
            'b' => if ctrl { Command::PageUp } else { Command::WordBack },
            'v' => Command::SelectChars,
            'V' => Command::SelectLines,
            '/' => Command::AskQuery,
            'n' => Command::NextMatch,
            'N' => Command::PrevMatch,
            'o' => Command::OpenEditor,
            'y' => Command::Yank,
            'c' => if ctrl { Command::Quit } else { Command::Nothing },
            'f' => if ctrl { Command::PageDown } else { Command::Nothing },
            'd' => if ctrl { Command::HalfPageDown } else { Command::Nothing },
            'u' => if ctrl { Command::HalfPageUp } else { Command::Nothing },
            _ => Command::Nothing,
        },
    }
}

/// How many rows the text has on a screen of this height.
pub fn rows_for(h: u16) -> (r: usize)
    ensures
        r == text_rows(h as int),
{
    if h >= 2 {
        h as usize - 1
    } else {
        1
    }
}

impl App {
    fn last_line(&self) -> (r: usize)
        ensures
            r == self@.bottom(),
    {
        if self.lines.len() > 0 {
            self.lines.len() - 1
        } else {
            0
        }
    }

    /// Moves the cursor down by some lines, as far as there are any.
    fn down_by(&mut self, n: usize)
        requires
            old(self)@.wf(),
        ensures
            final(self)@ == old(self)@.on_line(old(self)@.cy + n),
    {
        let last: usize = self.last_line();
        self.cy = if n < last - self.cy { self.cy + n } else { last };
        self.clamp_cx();
    }

    /// Moves the cursor up by some lines, as far as there are any.
    fn up_by(&mut self, n: usize)
        requires
            old(self)@.wf(),
        ensures
            final(self)@ == old(self)@.on_line(old(self)@.cy - n),
    {
        self.cy = if n < self.cy { self.cy - n } else { 0 };
        self.clamp_cx();
    }

    fn toggle(&mut self, mode: Mode)
        ensures
            final(self)@ == old(self)@.toggled(mode),
    {
        if self.mode == mode {
            self.mode = Mode::Normal;
        } else {
            self.mode = mode;
            self.anchor = (self.cy, self.cx);
        }
    }

    /// Takes in a key at the query prompt.
    fn type_key(&mut self, key: KeyCode)
        requires
            old(self)@.wf(),
        ensures
            key == KeyCode::Enter ==> old(self)@.asked().searched(true, final(self)@),
            key != KeyCode::Enter ==> final(self)@ == old(self)@.typed(key),
            final(self)@.wf(),
    {
        match key {
            KeyCode::Char(c) => self.input.push(c),
            KeyCode::Backspace => {
                self.input.pop();
            },
            KeyCode::Enter => {
                self.last_query = self.input.clone();
                self.input = String::new();
                self.mode = Mode::Normal;
                self.search(true);
            },
            KeyCode::Esc => {
                self.input = String::new();
                self.mode = Mode::Normal;
                self.msg = "search cancelled".to_owned();
            },
            _ => {},
        }
    }

    /// Carries out a command.
    fn carry_out(&mut self, command: Command)
        requires
            old(self)@.wf(),
            command == Command::WordForward || command == Command::WordBack ==> old(
                self,
            )@.lines.len() > 0,
        ensures
            command == Command::NextMatch ==> old(self)@.searched(true, final(self)@),
            command == Command::PrevMatch ==> old(self)@.searched(false, final(self)@),
            command != Command::NextMatch && command != Command::PrevMatch ==> final(self)@ == old(
                self,
            )@.commanded(command),
            final(self)@.wf(),
    {
        match command {
            Command::Quit | Command::OpenEditor | Command::Yank => {
                self.quit = true;
            },
            Command::Leave => {
                if self.mode != Mode::Normal {
                    self.mode = Mode::Normal;
                    self.msg = String::new();
                } else {
                    self.quit = true;
                }
            },
            Command::Down => {
                if self.cy < self.last_line() {
                    self.down_by(1);
                }
            },
            Command::Up => {
                if self.cy > 0 {
                    self.up_by(1);
                }
            },
            Command::Left => {
                if self.cx > 0 {
                    self.cx -= 1;
                }
            },
            Command::Right => {
                if self.cx < self.line_len(self.cy) {
                    self.cx += 1;
                }
            },
            Command::LineStart => {
                self.cx = 0;
            },
            Command::LineEnd => {
                self.cx = self.line_len(self.cy);
                if self.cx > 0 {
                    self.cx -= 1;
                }
            },
            Command::Top => {
                self.cy = 0;
                self.clamp_cx();
            },
            Command::Bottom => {
                self.cy = self.last_line();
                self.clamp_cx();
            },
            Command::WordForward => {
                self.cx = word_forward(&self.lines[self.cy], self.cx);
            },
            Command::WordBack => {
                self.cx = word_back(&self.lines[self.cy], self.cx);
            },
            Command::PageDown => self.down_by(self.rows),
            Command::PageUp => self.up_by(self.rows),
            Command::HalfPageDown => self.down_by(self.rows / 2),
            Command::HalfPageUp => self.up_by(self.rows / 2),
            Command::SelectChars => self.toggle(Mode::VisualChar),
            Command::SelectLines => self.toggle(Mode::VisualLine),
            Command::AskQuery => {
                self.mode = Mode::Search;
                self.input = String::new();
            },
            Command::NextMatch => self.search(true),
            Command::PrevMatch => self.search(false),
            Command::Nothing => {},
        }
    }

    /// Takes in a key.
    fn press(&mut self, key: KeyCode, ctrl: bool) -> (r: Reaction)
        requires
            old(self)@.wf(),
            old(self)@.lines.len() > 0 || !old(self)@.needs_line(key, ctrl),
        ensures
            old(self)@.pressed(key, ctrl, final(self)@),
            old(self)@.reacts(key, ctrl, r),
            final(self)@ == final(self)@.scrolled_as(old(self)@),
            final(self)@.wf(),
    {
        if self.mode == Mode::Search {
            self.type_key(key);
            return Reaction::Redraw;
        }
        let command: Command = command_of(key, ctrl);
        let reaction: Reaction = match command {
            Command::Yank => {
                let text = self.extract();
                if text.as_str().is_empty() {
                    Reaction::Redraw
                } else {
                    Reaction::Copy(text)
                }
            },
            Command::OpenEditor => Reaction::Edit,
            _ => Reaction::Redraw,
        };
        self.carry_out(command);
        reaction
    }

    /// Scrolls the cursor, which is in the text, into view.
    fn follow_cursor(&mut self)
        requires
            old(self)@.wf(),
        ensures
            final(self)@ == old(self)@.visible(),
            final(self)@.wf(),
    {
        let n: usize = self.lines.len();
        assert(n > 0 ==> self@.lines[self.cy as int].len() < usize::MAX);
        self.ensure_visible();
    }

    /// Takes in an event.
    pub fn handle(&mut self, ev: Event) -> (r: Reaction)
        requires
            old(self)@.wf(),
            old(self)@.accepts(ev),
        ensures
            old(self)@.handled(ev, final(self)@, r),
            final(self)@.wf(),
    {
        match ev {
            Event::Key { code, modifiers, kind } => {
                if kind == KeyEventKind::Release {
                    return Reaction::Ignore;
                }
                let reaction = self.press(code, has_control(modifiers));
                let ghost before_scroll = self@;
                self.follow_cursor();
                assert(self@.scrolled_as(old(self)@) == before_scroll);
                reaction
            },
            Event::Resize(w, h) => {
                self.cols = w as usize;
                self.rows = rows_for(h);
                self.follow_cursor();
                Reaction::Redraw
            },
            Event::Other => Reaction::Ignore,
        }
    }
}

// ---- laws ----
/// No event changes the text or its colours.
pub proof fn law_events_never_change_the_text(pre: AppView, ev: Event, post: AppView, r: Reaction)
    requires
        pre.handled(ev, post, r),
    ensures
        post.lines == pre.lines,
        post.style == pre.style,
{
    if let Event::Key { code, modifiers, kind } = ev {
        let mid = post.scrolled_as(pre);
        assert(post.lines == mid.lines && post.style == mid.style);
    }
}

/// After every event that is answered by drawing, the cursor is on screen, as
/// long as the screen has a row of text and a column.
pub proof fn law_events_keep_the_cursor_on_screen(
    pre: AppView,
    ev: Event,
    post: AppView,
    r: Reaction,
)
    requires
        pre.handled(ev, post, r),
        !(r is Ignore),
        post.rows > 0,
        post.cols > 0,
    ensures
        post.top <= post.cy < post.top + post.rows,
        post.left <= post.cx < post.left + post.cols,
{
    if let Event::Key { code, modifiers, kind } = ev {
        let mid = post.scrolled_as(pre);
        assert(mid.rows == pre.rows);
        law_the_cursor_is_on_screen(mid);
    } else if let Event::Resize(w, h) = ev {
        law_the_cursor_is_on_screen(AppView { cols: w as int, rows: text_rows(h as int), ..pre });
    }
}

/// Entering an empty query clears the highlighting and moves nothing.
pub proof fn law_an_empty_query_clears_the_highlighting(
    pre: AppView,
    ctrl: bool,
    post: AppView,
    line: Seq<char>,
    cx: Option<int>,
    col: int,
)
    requires
        pre.mode == Mode::Search,
        pre.input.len() == 0,
        pre.pressed(KeyCode::Enter, ctrl, post),
    ensures
        post.cursor() == pre.cursor(),
        post.mode == Mode::Normal,
        hit_at(line, post.last_query, cx, col) == Hit::Miss,
{
    assert(post.last_query == Seq::<char>::empty());
    law_empty_query_lights_nothing(pre.lines, line, cx, col);
}

/// At the query prompt Backspace takes back what a character key typed.
pub proof fn law_backspace_undoes_typing(v: AppView, c: char)
    ensures
        v.typed(KeyCode::Char(c)).typed(KeyCode::Backspace) == v,
{
    assert(v.input.push(c).drop_last() == v.input);
}

/// A yank copies the selection, or the line of the cursor, and quits; it copies
/// nothing where that is empty.
pub proof fn law_a_yank_copies_and_quits(pre: AppView, ev: Event, post: AppView, r: Reaction)
    requires
        pre.mode != Mode::Search,
        ev matches Event::Key { code, modifiers, kind } && kind != KeyEventKind::Release && meaning(
            code,
            holds_control(modifiers),
        ) == Command::Yank,
        pre.handled(ev, post, r),
    ensures
        post.quit,
        pre.yanked().len() > 0 ==> (r matches Reaction::Copy(text) && text@ == pre.yanked()),
        pre.yanked().len() == 0 ==> r is Redraw,
{
}

/// A selection that is toggled twice is gone, and the cursor is where it was.
pub proof fn law_toggling_twice_ends_the_selection(v: AppView, mode: Mode)
    requires
        mode == Mode::VisualChar || mode == Mode::VisualLine,
        v.mode != mode,
    ensures
        v.toggled(mode).selection() == (v.cursor(), v.cursor()),
        v.toggled(mode).toggled(mode).mode == Mode::Normal,
        v.toggled(mode).toggled(mode).cursor() == v.cursor(),
{
}

} // verus!
