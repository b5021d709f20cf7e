//! What each key does, seen from outside: the state before it and the state after.
use crate::app::{law_a_search_in_vain_moves_nothing, law_a_search_steps_from_the_cursor, AppView, Mode};
use crate::class::{next_word, prev_word};
use crate::keys::{meaning, text_rows, Command, Event, KeyCode, KeyEventKind, Reaction};
use crate::search::{
    is_match, law_every_match_is_visited, law_search_has_one_answer, leads_to, occurs, precedes, reaches,
    Place,
};
use vstd::prelude::*;

verus! {

/// Whether the event is this key going down or repeating, with Ctrl or without.
pub open spec fn is_key(ev: Event, key: KeyCode, ctrl: bool) -> bool {
    match ev {
        Event::Key { code, modifiers, kind } => code == key && kind != KeyEventKind::Release && ctrl
            == (modifiers & 0x02 == 0x02),
        _ => false,
    }
}

/// A letter or another character key, with Ctrl or without.
pub open spec fn is_char(ev: Event, c: char) -> bool {
    is_key(ev, KeyCode::Char(c), true) || is_key(ev, KeyCode::Char(c), false)
}

/// A key that has a name, with Ctrl or without.
pub open spec fn is_named(ev: Event, key: KeyCode) -> bool {
    is_key(ev, key, true) || is_key(ev, key, false)
}

/// How long the line is; a line that is not there is empty.
pub open spec fn width(v: AppView, li: int) -> int {
    if 0 <= li < v.lines.len() {
        v.lines[li].len() as int
    } else {
        0
    }
}

/// The cursor on another line, in its column or, where the line is shorter, at its
/// end.
pub open spec fn to_line(v: AppView, li: int) -> AppView {
    AppView {
        cy: li,
        cx: if v.cx <= width(v, li) {
            v.cx
        } else {
            width(v, li)
        },
        ..v
    }
}

/// Whether the cursor is on a line of the text and not in front of its start; in an
/// empty text it is on the first line.
pub open spec fn on_text(v: AppView) -> bool {
    0 <= v.cx && 0 <= v.cy && (v.cy < v.lines.len() || v.cy == 0)
}

/// The key table, by what is asked for: each command has these keys and no others.
pub proof fn law_the_key_table(key: KeyCode, ctrl: bool)
    ensures
        ({
            let m = meaning(key, ctrl);
            let c = |c: char| key == KeyCode::Char(c);
            &&& m == Command::Quit <==> c('q') || (c('c') && ctrl)
            &&& m == Command::Leave <==> key == KeyCode::Esc
            &&& m == Command::Down <==> c('j') || key == KeyCode::Down
            &&& m == Command::Up <==> c('k') || key == KeyCode::Up
            &&& m == Command::Left <==> c('h') || key == KeyCode::Left
            &&& m == Command::Right <==> c('l') || key == KeyCode::Right
            &&& m == Command::LineStart <==> c('0') || key == KeyCode::Home
            &&& m == Command::LineEnd <==> c('$') || key == KeyCode::End
            &&& m == Command::Top <==> c('g')
            &&& m == Command::Bottom <==> c('G')
            &&& m == Command::WordForward <==> c('w')
            &&& m == Command::WordBack <==> c('b') && !ctrl
            &&& m == Command::PageDown <==> (c('f') && ctrl) || key == KeyCode::PageDown
            &&& m == Command::PageUp <==> (c('b') && ctrl) || key == KeyCode::PageUp
            &&& m == Command::HalfPageDown <==> c('d') && ctrl
            &&& m == Command::HalfPageUp <==> c('u') && ctrl
            &&& m == Command::SelectChars <==> c('v')
            &&& m == Command::SelectLines <==> c('V')
            &&& m == Command::AskQuery <==> c('/')
            &&& m == Command::NextMatch <==> c('n')
            &&& m == Command::PrevMatch <==> c('N')
            &&& m == Command::OpenEditor <==> c('o')
            &&& m == Command::Yank <==> c('y') || key == KeyCode::Enter
        }),
{
}

/// A key that is let go, and whatever is neither a key nor a new size, is ignored.
pub proof fn law_what_is_ignored_changes_nothing(
    pre: AppView,
    ev: Event,
    post: AppView,
    r: Reaction,
)
    requires
        pre.handled(ev, post, r),
        ev is Other || (ev matches Event::Key { code, modifiers, kind } && kind
            == KeyEventKind::Release),
    ensures
        post == pre,
        r is Ignore,
{
}

/// On a screen of another size the text has all its columns, and all its rows but
/// one, and never less than one row. Nothing else changes but the part of the text
/// that is shown.
pub proof fn law_a_new_size_is_taken_over(pre: AppView, w: u16, h: u16, post: AppView, r: Reaction)
    requires
        pre.handled(Event::Resize(w, h), post, r),
    ensures
        post == (AppView {
            cols: w as int,
            rows: if h < 2 {
                1
            } else {
                h - 1
            },
            ..pre
        }).visible(),
        r is Redraw,
        text_rows(h as int) == post.rows,
{
}

/// Up and down go one line, and stop at the first and at the last.
pub proof fn law_up_and_down_go_one_line(pre: AppView, ev: Event, post: AppView, r: Reaction)
    requires
        pre.handled(ev, post, r),
        pre.mode != Mode::Search,
        on_text(pre),
    ensures
        is_char(ev, 'j') || is_named(ev, KeyCode::Down) ==> r is Redraw && post == (if pre.cy + 1
            < pre.lines.len() {
            to_line(pre, pre.cy + 1)
        } else {
            pre
        }).visible(),
        is_char(ev, 'k') || is_named(ev, KeyCode::Up) ==> r is Redraw && post == (if pre.cy > 0 {
            to_line(pre, pre.cy - 1)
        } else {
            pre
        }).visible(),
{
}

/// Left and right go one column, and stop at the start of the line and behind its
/// end.
pub proof fn law_left_and_right_go_one_column(pre: AppView, ev: Event, post: AppView, r: Reaction)
    requires
        pre.handled(ev, post, r),
        pre.mode != Mode::Search,
        on_text(pre),
        pre.cx <= width(pre, pre.cy),
    ensures
        is_char(ev, 'h') || is_named(ev, KeyCode::Left) ==> r is Redraw && post == (if pre.cx > 0 {
            AppView { cx: pre.cx - 1, ..pre }
        } else {
            pre
        }).visible(),
        is_char(ev, 'l') || is_named(ev, KeyCode::Right) ==> r is Redraw && post == (if pre.cx
            < width(pre, pre.cy) {
            AppView { cx: pre.cx + 1, ..pre }
        } else {
            pre
        }).visible(),
{
}

/// The ends of a line are its first column and its last character, and those of the
/// text its first and its last line.
pub proof fn law_the_ends_of_line_and_text(pre: AppView, ev: Event, post: AppView, r: Reaction)
    requires
        pre.handled(ev, post, r),
        pre.mode != Mode::Search,
        on_text(pre),
    ensures
        is_char(ev, '0') || is_named(ev, KeyCode::Home) ==> r is Redraw && post == (AppView {
            cx: 0,
            ..pre
        }).visible(),
        is_char(ev, '$') || is_named(ev, KeyCode::End) ==> r is Redraw && post == (AppView {
            cx: if width(pre, pre.cy) == 0 {
                0
            } else {
                width(pre, pre.cy) - 1
            },
            ..pre
        }).visible(),
        is_char(ev, 'g') ==> r is Redraw && post == to_line(pre, 0).visible(),
        is_char(ev, 'G') ==> r is Redraw && post == to_line(
            pre,
            if pre.lines.len() == 0 {
                0
            } else {
                pre.lines.len() - 1
            },
        ).visible(),
{
}

/// The cursor some lines further down, or up where they are negative, as far as
/// there are any.
pub open spec fn lines_further(v: AppView, n: int) -> AppView {
    let last = if v.lines.len() == 0 {
        0
    } else {
        v.lines.len() - 1
    };
    to_line(
        v,
        if v.cy + n < 0 {
            0
        } else if v.cy + n > last {
            last
        } else {
            v.cy + n
        },
    )
}

proof fn lemma_lines_further(v: AppView, n: int)
    requires
        on_text(v),
    ensures
        v.on_line(v.cy + n) == lines_further(v, n),
{
}

/// A page is as many lines as the screen has rows of text, and half a page is half
/// of that.
pub proof fn law_pages_are_as_long_as_the_screen(pre: AppView, ev: Event, post: AppView, r: Reaction)
    requires
        pre.handled(ev, post, r),
        pre.mode != Mode::Search,
        on_text(pre),
        0 <= pre.rows,
    ensures
        is_named(ev, KeyCode::PageDown) || is_key(ev, KeyCode::Char('f'), true) ==> r is Redraw && post
            == lines_further(pre, pre.rows).visible(),
        is_named(ev, KeyCode::PageUp) || is_key(ev, KeyCode::Char('b'), true) ==> r is Redraw && post
            == lines_further(pre, -pre.rows).visible(),
        is_key(ev, KeyCode::Char('d'), true) ==> r is Redraw && post == lines_further(
            pre,
            pre.rows / 2,
        ).visible(),
        is_key(ev, KeyCode::Char('u'), true) ==> r is Redraw && post == lines_further(
            pre,
            -(pre.rows / 2),
        ).visible(),
{
    lemma_lines_further(pre, pre.rows);
    lemma_lines_further(pre, -pre.rows);
    lemma_lines_further(pre, pre.rows / 2);
    lemma_lines_further(pre, -(pre.rows / 2));
    if let Event::Key { code, modifiers, kind } = ev {
        if kind != KeyEventKind::Release {
            let mid = post.scrolled_as(pre);
            let command = meaning(code, modifiers & 0x02 == 0x02);
            assert(post == mid.visible());
            if command == Command::PageDown || command == Command::PageUp || command
                == Command::HalfPageDown || command == Command::HalfPageUp {
                assert(mid == pre.commanded(command));
            }
        }
    }
}

/// A step by words stays on the line and moves the cursor alone.
pub proof fn law_steps_by_words_stay_on_the_line(pre: AppView, ev: Event, post: AppView, r: Reaction)
    requires
        pre.handled(ev, post, r),
        pre.mode != Mode::Search,
        0 <= pre.cy < pre.lines.len(),
    ensures
        is_char(ev, 'w') ==> r is Redraw && post == (AppView {
            cx: next_word(pre.lines[pre.cy], pre.cx),
            ..pre
        }).visible(),
        is_key(ev, KeyCode::Char('b'), false) ==> r is Redraw && post == (AppView {
            cx: prev_word(pre.lines[pre.cy], pre.cx),
            ..pre
        }).visible(),
{
}

/// `v` and `V` start a selection at the cursor. Where there is one of their kind
/// they end it, and where there is one of the other kind they start anew.
pub proof fn law_a_selection_starts_at_the_cursor(pre: AppView, ev: Event, post: AppView, r: Reaction)
    requires
        pre.handled(ev, post, r),
        pre.mode != Mode::Search,
    ensures
        is_char(ev, 'v') ==> r is Redraw && post == (if pre.mode == Mode::VisualChar {
            AppView { mode: Mode::Normal, ..pre }
        } else {
            AppView { mode: Mode::VisualChar, anchor: (pre.cy, pre.cx), ..pre }
        }).visible(),
        is_char(ev, 'V') ==> r is Redraw && post == (if pre.mode == Mode::VisualLine {
            AppView { mode: Mode::Normal, ..pre }
        } else {
            AppView { mode: Mode::VisualLine, anchor: (pre.cy, pre.cx), ..pre }
        }).visible(),
{
}

/// `q` and Ctrl-c quit, Esc ends a selection and quits where there is none, `o`
/// quits to the editor, and `y` and Enter quit with what is yanked. Nothing else
/// that these keys leave behind has changed.
pub proof fn law_the_ways_out(pre: AppView, ev: Event, post: AppView, r: Reaction)
    requires
        pre.handled(ev, post, r),
        pre.mode != Mode::Search,
    ensures
        is_char(ev, 'q') || is_key(ev, KeyCode::Char('c'), true) ==> r is Redraw && post == (AppView {
            quit: true,
            ..pre
        }).visible(),
        is_named(ev, KeyCode::Esc) ==> r is Redraw && post == (if pre.mode == Mode::Normal {
            AppView { quit: true, ..pre }
        } else {
            AppView { mode: Mode::Normal, msg: Seq::empty(), ..pre }
        }).visible(),
        is_char(ev, 'o') ==> r is Edit && post == (AppView { quit: true, ..pre }).visible(),
        is_char(ev, 'y') || is_named(ev, KeyCode::Enter) ==> post == (AppView {
            quit: true,
            ..pre
        }).visible() && (pre.yanked().len() == 0 ==> r is Redraw) && (pre.yanked().len() > 0 ==> (
        r matches Reaction::Copy(text) && text@ == pre.yanked())),
{
}

/// A key that has no meaning does nothing but draw the screen.
pub proof fn law_other_keys_do_nothing(
    pre: AppView,
    ev: Event,
    key: KeyCode,
    ctrl: bool,
    post: AppView,
    r: Reaction,
)
    requires
        pre.handled(ev, post, r),
        pre.mode != Mode::Search,
        is_key(ev, key, ctrl),
        key == KeyCode::Backspace || key == KeyCode::Other || (key matches KeyCode::Char(c) && c != 'q'
            && c != 'j' && c != 'k' && c != 'h' && c != 'l' && c != '0' && c != '$' && c != 'g' && c
            != 'G' && c != 'w' && c != 'b' && c != 'v' && c != 'V' && c != '/' && c != 'n' && c != 'N'
            && c != 'o' && c != 'y' && !(ctrl && (c == 'c' || c == 'f' || c == 'd' || c == 'u'))),
    ensures
        post == pre.visible(),
        r is Redraw,
{
}

/// `/` opens the query prompt, empty.
pub proof fn law_a_query_is_asked_for(pre: AppView, ev: Event, post: AppView, r: Reaction)
    requires
        pre.handled(ev, post, r),
        pre.mode != Mode::Search,
        is_char(ev, '/'),
    ensures
        post == (AppView { mode: Mode::Search, input: Seq::empty(), ..pre }).visible(),
        r is Redraw,
{
}

/// At the query prompt every character key types its character, whatever it means
/// elsewhere, Backspace takes the last one away, Esc gives the query up, and no
/// other key but Enter does anything.
pub proof fn law_the_query_prompt(pre: AppView, ev: Event, c: char, post: AppView, r: Reaction)
    requires
        pre.handled(ev, post, r),
        pre.mode == Mode::Search,
    ensures
        ev is Key && (ev->kind != KeyEventKind::Release) ==> r is Redraw,
        is_char(ev, c) ==> post == (AppView { input: pre.input + seq![c], ..pre }).visible(),
        is_named(ev, KeyCode::Backspace) ==> post == (AppView {
            input: if pre.input.len() == 0 {
                pre.input
            } else {
                pre.input.take(pre.input.len() - 1)
            },
            ..pre
        }).visible(),
        is_named(ev, KeyCode::Esc) ==> post == (AppView {
            input: Seq::empty(),
            mode: Mode::Normal,
            msg: "search cancelled"@,
            ..pre
        }).visible(),
        is_named(ev, KeyCode::Up) || is_named(ev, KeyCode::Down) || is_named(ev, KeyCode::Left)
            || is_named(ev, KeyCode::Right) || is_named(ev, KeyCode::Home) || is_named(
            ev,
            KeyCode::End,
        ) || is_named(ev, KeyCode::PageUp) || is_named(ev, KeyCode::PageDown) || is_named(
            ev,
            KeyCode::Other,
        ) ==> post == pre.visible(),
{
    assert(pre.input.push(c) == pre.input + seq![c]);
    if pre.input.len() > 0 {
        assert(pre.input.drop_last() == pre.input.take(pre.input.len() - 1));
    }
}

/// The state in which Enter at the prompt starts to search: the query is what was
/// typed, and the prompt is closed.
pub open spec fn entered(v: AppView) -> AppView {
    AppView { last_query: v.input, input: Seq::empty(), mode: Mode::Normal, ..v }
}

/// Whether a key steps from one place to another in the direction given, of all
/// matches of the query to the nearest one: behind the cursor, or in front of it,
/// where there is one on that side, and otherwise the first one, or the last.
pub open spec fn steps_to_the_nearest(pre: AppView, forward: bool, post: AppView) -> bool {
    let from = (pre.cy, pre.cx);
    let to = (post.cy, post.cx);
    &&& is_match(pre.lines, pre.last_query, to)
    &&& forall|m: Place| #[trigger]
        is_match(pre.lines, pre.last_query, m) ==> {
            &&& forward && precedes(from, m) ==> precedes(from, to) && !precedes(m, to)
            &&& !forward && precedes(m, from) ==> precedes(to, from) && !precedes(to, m)
            &&& forward && !precedes(from, to) ==> !precedes(from, m) && !precedes(m, to)
            &&& !forward && !precedes(to, from) ==> !precedes(m, from) && !precedes(to, m)
        }
}

/// What a search leaves behind: where the query occurs, the cursor on the nearest
/// match, and where it does not, the cursor where it was. The message tells which,
/// the view follows the cursor, and nothing else has changed.
pub open spec fn is_search_of(pre: AppView, forward: bool, post: AppView) -> bool {
    &&& post == (AppView { cy: post.cy, cx: post.cx, msg: post.msg, ..pre }).visible()
    &&& (exists|m: Place| #[trigger] is_match(pre.lines, pre.last_query, m)) ==> steps_to_the_nearest(
        pre,
        forward,
        post,
    ) && post.msg == "/"@ + pre.last_query
    &&& (forall|m: Place| !#[trigger] is_match(pre.lines, pre.last_query, m)) ==> post.cy == pre.cy
        && post.cx == pre.cx && post.msg == if pre.last_query.len() > 0 && pre.lines.len() > 0 {
        "not found: "@ + pre.last_query
    } else {
        pre.msg
    }
}

proof fn lemma_a_search_is_one(pre: AppView, forward: bool, mid: AppView)
    requires
        pre.searched(forward, mid),
    ensures
        mid == (AppView { cy: mid.cy, cx: mid.cx, msg: mid.msg, ..pre }),
        is_search_of(pre, forward, mid.visible()),
{
    if exists|m: Place| #[trigger] is_match(pre.lines, pre.last_query, m) {
        let some = choose|m: Place| #[trigger] is_match(pre.lines, pre.last_query, m);
        law_a_search_steps_from_the_cursor(pre, forward, mid, some);
        assert forall|m: Place| #[trigger] is_match(pre.lines, pre.last_query, m) implies {
            let from = (pre.cy, pre.cx);
            let to = (mid.cy, mid.cx);
            &&& forward && precedes(from, m) ==> precedes(from, to) && !precedes(m, to)
            &&& !forward && precedes(m, from) ==> precedes(to, from) && !precedes(to, m)
            &&& forward && !precedes(from, to) ==> !precedes(from, m) && !precedes(m, to)
            &&& !forward && !precedes(to, from) ==> !precedes(m, from) && !precedes(to, m)
        } by {
            law_a_search_steps_from_the_cursor(pre, forward, mid, m);
        }
    } else {
        law_a_search_in_vain_moves_nothing(pre, forward, mid);
    }
}

/// `n` and `N` step from the cursor to the nearest match, in any mode but that of
/// the prompt and on a screen of any size; Enter at the prompt does the same with
/// the query that was typed.
pub proof fn law_search_keys_step_to_the_nearest_match(
    pre: AppView,
    ev: Event,
    post: AppView,
    r: Reaction,
)
    requires
        pre.handled(ev, post, r),
    ensures
        pre.mode != Mode::Search && is_char(ev, 'n') ==> r is Redraw && is_search_of(pre, true, post),
        pre.mode != Mode::Search && is_char(ev, 'N') ==> r is Redraw && is_search_of(pre, false, post),
        pre.mode == Mode::Search && is_named(ev, KeyCode::Enter) ==> r is Redraw && is_search_of(
            entered(pre),
            true,
            post,
        ),
{
    let mid = post.scrolled_as(pre);
    if pre.mode != Mode::Search && is_char(ev, 'n') {
        lemma_a_search_is_one(pre, true, mid);
    }
    if pre.mode != Mode::Search && is_char(ev, 'N') {
        lemma_a_search_is_one(pre, false, mid);
    }
    if pre.mode == Mode::Search && is_named(ev, KeyCode::Enter) {
        lemma_a_search_is_one(entered(pre), true, mid);
    }
}

/// Whether the states follow one another by the same key, pressed over and over.
pub open spec fn repeated(states: Seq<AppView>, answers: Seq<Reaction>, ev: Event) -> bool {
    &&& states.len() == answers.len() + 1
    &&& forall|i: int|
        0 <= i < answers.len() ==> (#[trigger] states[i]).handled(ev, states[i + 1], answers[i])
}

proof fn lemma_repeated_steps(
    states: Seq<AppView>,
    answers: Seq<Reaction>,
    ev: Event,
    forward: bool,
    i: int,
)
    requires
        repeated(states, answers, ev),
        states[0].mode != Mode::Search,
        is_char(ev, if forward { 'n' } else { 'N' }),
        occurs(states[0].lines, states[0].last_query),
        0 <= i < states.len(),
    ensures
        states[i].mode == states[0].mode,
        states[i].lines == states[0].lines,
        states[i].last_query == states[0].last_query,
        i + 1 < states.len() ==> leads_to(
            states[0].lines,
            states[0].last_query,
            forward,
            states[i].cursor(),
            states[i + 1].cursor(),
        ),
    decreases i,
{
    if i > 0 {
        lemma_repeated_steps(states, answers, ev, forward, i - 1);
        assert(states[i - 1].handled(ev, states[i - 1 + 1], answers[i - 1]));
        let mid = states[i].scrolled_as(states[i - 1]);
        assert(states[i - 1].searched(forward, mid));
        assert(states[i].mode == mid.mode);
    }
    if i + 1 < states.len() {
        assert(states[i].handled(ev, states[i + 1], answers[i]));
        let mid = states[i + 1].scrolled_as(states[i]);
        assert(states[i].searched(forward, mid));
        assert(mid.cursor() == states[i + 1].cursor());
    }
}

proof fn lemma_the_round_holds_what_is_reached(
    states: Seq<AppView>,
    answers: Seq<Reaction>,
    ev: Event,
    forward: bool,
    i: int,
    n: nat,
    m: Place,
) -> (j: int)
    requires
        repeated(states, answers, ev),
        states[0].mode != Mode::Search,
        is_char(ev, if forward { 'n' } else { 'N' }),
        occurs(states[0].lines, states[0].last_query),
        states.len() > 1,
        states[states.len() - 1].cursor() == states[0].cursor(),
        0 <= i < states.len() - 1,
        reaches(states[0].lines, states[0].last_query, forward, n, states[i].cursor(), m),
    ensures
        0 <= j < states.len() - 1,
        states[j].cursor() == m,
    decreases n,
{
    let (lines, query) = (states[0].lines, states[0].last_query);
    if n == 0 {
        i
    } else {
        let from = states[i].cursor();
        let mid = choose|mid: Place| #[trigger]
            leads_to(lines, query, forward, from, mid) && reaches(
                lines,
                query,
                forward,
                (n - 1) as nat,
                mid,
                m,
            );
        lemma_repeated_steps(states, answers, ev, forward, i);
        law_search_has_one_answer(lines, query, forward, from, mid, states[i + 1].cursor());
        let next = if i + 1 == states.len() - 1 {
            0
        } else {
            i + 1
        };
        assert(states[next].cursor() == mid);
        lemma_the_round_holds_what_is_reached(
            states,
            answers,
            ev,
            forward,
            next,
            (n - 1) as nat,
            m,
        )
    }
}

/// Pressing `n` over and over, or `N`, visits every match before it comes back to
/// where it began.
pub proof fn law_repeating_visits_every_match_before_it_returns(
    states: Seq<AppView>,
    answers: Seq<Reaction>,
    ev: Event,
    m: Place,
) -> (j: int)
    requires
        repeated(states, answers, ev),
        is_char(ev, 'n') || is_char(ev, 'N'),
        states[0].mode != Mode::Search,
        is_match(states[0].lines, states[0].last_query, m),
        states.len() > 1,
        (states[states.len() - 1].cy, states[states.len() - 1].cx) == (states[0].cy, states[0].cx),
    ensures
        0 <= j < states.len() - 1,
        (states[j].cy, states[j].cx) == m,
{
    let forward = is_char(ev, 'n');
    let n = law_every_match_is_visited(
        states[0].lines,
        states[0].last_query,
        forward,
        states[0].cursor(),
        m,
    );
    lemma_the_round_holds_what_is_reached(states, answers, ev, forward, 0, n, m)
}

/// On a text with a line every event is taken. Without one, only a step by words and
/// a yank of a selection are not.
pub proof fn law_every_event_is_taken_on_a_text(v: AppView, ev: Event)
    ensures
        v.lines.len() > 0 ==> v.accepts(ev),
        v.mode == Mode::Search ==> v.accepts(ev),
        !v.accepts(ev) ==> is_char(ev, 'w') || is_char(ev, 'b') || is_char(ev, 'y') || is_named(
            ev,
            KeyCode::Enter,
        ),
{
}

} // verus!
