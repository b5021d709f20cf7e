use lvim_zcopy::app::{App, Mode};
use lvim_zcopy::dump::parse;
use lvim_zcopy::keys::{command_of, rows_for, Command, Event, KeyCode, KeyEventKind, Reaction};

const CTRL: u8 = 0b10;

fn app(text: &str) -> App {
    let (lines, style) = parse(text);
    let mut app = App::new(lines, style, 80, 24);
    app.cy = 0;
    app
}

fn key(app: &mut App, code: KeyCode) -> Reaction {
    app.handle(Event::Key { code, modifiers: 0, kind: KeyEventKind::Press })
}

fn ctrl(app: &mut App, c: char) -> Reaction {
    app.handle(Event::Key { code: KeyCode::Char(c), modifiers: CTRL, kind: KeyEventKind::Press })
}

/// Types the keys and gives the reaction to the last.
fn keys(app: &mut App, typed: &str) -> Reaction {
    let mut last = Reaction::Ignore;
    for c in typed.chars() {
        last = key(app, KeyCode::Char(c));
    }
    last
}

fn at(app: &App) -> (usize, usize) {
    (app.cy, app.cx)
}

#[test]
fn the_cursor_starts_on_the_last_line() {
    let (lines, style) = parse("a\nb\nc");
    let app = App::new(lines, style, 80, 24);
    assert_eq!(at(&app), (2, 0));
    assert!(app.mode == Mode::Normal);
    assert!(!app.quit);
    assert_eq!(app.msg, "v/V select · y yank · / search · o nvim · q quit");
    let none = App::new(vec![], vec![], 80, 24);
    assert_eq!(at(&none), (0, 0));
}

#[test]
fn the_key_table() {
    let plain = [
        ('h', Command::Left),
        ('j', Command::Down),
        ('k', Command::Up),
        ('l', Command::Right),
        ('0', Command::LineStart),
        ('$', Command::LineEnd),
        ('g', Command::Top),
        ('G', Command::Bottom),
        ('w', Command::WordForward),
        ('b', Command::WordBack),
        ('/', Command::AskQuery),
        ('n', Command::NextMatch),
        ('N', Command::PrevMatch),
        ('v', Command::SelectChars),
        ('V', Command::SelectLines),
        ('y', Command::Yank),
        ('o', Command::OpenEditor),
        ('q', Command::Quit),
        ('c', Command::Nothing),
        ('f', Command::Nothing),
        ('d', Command::Nothing),
        ('u', Command::Nothing),
        ('x', Command::Nothing),
    ];
    for (c, command) in plain {
        assert_eq!(command_of(KeyCode::Char(c), false), command, "{c}");
    }
    let held = [
        ('f', Command::PageDown),
        ('b', Command::PageUp),
        ('d', Command::HalfPageDown),
        ('u', Command::HalfPageUp),
        ('c', Command::Quit),
        ('j', Command::Down),
        ('x', Command::Nothing),
    ];
    for (c, command) in held {
        assert_eq!(command_of(KeyCode::Char(c), true), command, "Ctrl-{c}");
    }
    let named = [
        (KeyCode::Up, Command::Up),
        (KeyCode::Down, Command::Down),
        (KeyCode::Left, Command::Left),
        (KeyCode::Right, Command::Right),
        (KeyCode::Home, Command::LineStart),
        (KeyCode::End, Command::LineEnd),
        (KeyCode::PageUp, Command::PageUp),
        (KeyCode::PageDown, Command::PageDown),
        (KeyCode::Enter, Command::Yank),
        (KeyCode::Esc, Command::Leave),
        (KeyCode::Backspace, Command::Nothing),
        (KeyCode::Other, Command::Nothing),
    ];
    for (code, command) in named {
        assert_eq!(command_of(code, false), command);
        assert_eq!(command_of(code, true), command);
    }
}

#[test]
fn the_cursor_stays_in_the_text() {
    let mut a = app("long line\nab\n\nx");
    assert_eq!(keys(&mut a, "h"), Reaction::Redraw);
    assert_eq!(at(&a), (0, 0));
    keys(&mut a, "k");
    assert_eq!(at(&a), (0, 0));
    keys(&mut a, "$");
    assert_eq!(at(&a), (0, 8));
    keys(&mut a, "ll");
    assert_eq!(at(&a), (0, 9));
    keys(&mut a, "j");
    assert_eq!(at(&a), (1, 2));
    keys(&mut a, "j");
    assert_eq!(at(&a), (2, 0));
    keys(&mut a, "$");
    assert_eq!(at(&a), (2, 0));
    keys(&mut a, "jjj");
    assert_eq!(at(&a), (3, 0));
    keys(&mut a, "l0");
    assert_eq!(at(&a), (3, 0));
    keys(&mut a, "g");
    assert_eq!(at(&a), (0, 0));
    keys(&mut a, "G");
    assert_eq!(at(&a), (3, 0));
    keys(&mut a, "gww");
    assert_eq!(at(&a), (0, 9));
    keys(&mut a, "b");
    assert_eq!(at(&a), (0, 5));
}

#[test]
fn pages_and_half_pages() {
    let text: Vec<String> = (0..100).map(|n| n.to_string()).collect();
    let mut a = app(&text.join("\n"));
    a.rows = 21;
    ctrl(&mut a, 'f');
    assert_eq!((a.cy, a.top), (21, 1));
    ctrl(&mut a, 'd');
    assert_eq!((a.cy, a.top), (31, 11));
    ctrl(&mut a, 'u');
    assert_eq!((a.cy, a.top), (21, 11));
    ctrl(&mut a, 'b');
    assert_eq!((a.cy, a.top), (0, 0));
    for _ in 0..9 {
        key(&mut a, KeyCode::PageDown);
    }
    assert_eq!((a.cy, a.top), (99, 79));
    for _ in 0..9 {
        key(&mut a, KeyCode::PageUp);
    }
    assert_eq!((a.cy, a.top), (0, 0));
}

#[test]
fn ctrl_is_told_from_the_other_modifiers() {
    let mut a = app("one two");
    a.cx = 4;
    // Shift and Alt are not Ctrl: this is the word motion.
    a.handle(Event::Key { code: KeyCode::Char('b'), modifiers: 0b101, kind: KeyEventKind::Press });
    assert_eq!(at(&a), (0, 0));
    a.handle(Event::Key { code: KeyCode::Char('c'), modifiers: 0b101, kind: KeyEventKind::Press });
    assert!(!a.quit);
    a.handle(Event::Key { code: KeyCode::Char('c'), modifiers: 0b111, kind: KeyEventKind::Press });
    assert!(a.quit);
}

#[test]
fn a_released_key_is_ignored() {
    let mut a = app("a\nb");
    let up = Event::Key {
        code: KeyCode::Char('j'),
        modifiers: 0,
        kind: KeyEventKind::Release,
    };
    assert_eq!(a.handle(up), Reaction::Ignore);
    assert_eq!(at(&a), (0, 0));
    assert_eq!(a.handle(Event::Other), Reaction::Ignore);
    let again = Event::Key {
        code: KeyCode::Char('j'),
        modifiers: 0,
        kind: KeyEventKind::Repeat,
    };
    assert_eq!(a.handle(again), Reaction::Redraw);
    assert_eq!(at(&a), (1, 0));
}

#[test]
fn a_resize_keeps_the_cursor_on_screen() {
    let mut a = app("0\n1\n2\n3\n4\n5\n6\n7\n8\nlonger than that");
    keys(&mut a, "G$");
    assert_eq!(a.handle(Event::Resize(6, 4)), Reaction::Redraw);
    assert_eq!((a.cols, a.rows), (6, 3));
    assert_eq!((a.top, a.left), (7, 10));
    assert_eq!(a.handle(Event::Resize(1, 1)), Reaction::Redraw);
    assert_eq!((a.cols, a.rows), (1, 1));
    assert_eq!((a.top, a.left), (9, 15));
    assert_eq!(rows_for(0), 1);
    assert_eq!(rows_for(1), 1);
    assert_eq!(rows_for(2), 1);
    assert_eq!(rows_for(24), 23);
    assert_eq!(rows_for(65535), 65534);
}

#[test]
fn a_yank_takes_the_line_or_the_selection() {
    let mut a = app("first\nsecond\nthird");
    keys(&mut a, "j");
    assert_eq!(keys(&mut a, "y"), Reaction::Copy("second".to_string()));
    assert!(a.quit);

    let mut a = app("first\nsecond\nthird");
    keys(&mut a, "llvll");
    assert_eq!(key(&mut a, KeyCode::Enter), Reaction::Copy("rst".to_string()));
    assert!(a.quit);

    let mut a = app("first\nsecond\nthird");
    keys(&mut a, "lllvjjh");
    assert_eq!(keys(&mut a, "y"), Reaction::Copy("st\nsecond\nthi".to_string()));

    let mut a = app("first\nsecond\nthird");
    keys(&mut a, "jVj");
    assert_eq!(keys(&mut a, "y"), Reaction::Copy("second\nthird".to_string()));
}

#[test]
fn an_empty_yank_copies_nothing_and_quits() {
    let mut a = app("\nx");
    assert_eq!(keys(&mut a, "y"), Reaction::Redraw);
    assert!(a.quit);
}

#[test]
fn a_selection_is_the_same_from_either_end() {
    let mut a = app("first\nsecond");
    keys(&mut a, "lvjll");
    let mut b = app("first\nsecond");
    keys(&mut b, "jlllvkhh");
    assert_eq!(a.extract(), "irst\nseco");
    assert_eq!(a.extract(), b.extract());
    assert_eq!(a.sel_bounds(), b.sel_bounds());
    for li in 0..2 {
        for col in 0..8 {
            assert_eq!(a.in_selection(li, col), b.in_selection(li, col));
        }
    }
}

#[test]
fn what_is_yanked_is_what_is_selected() {
    for typed in ["v", "vl", "lvj", "lvjj$", "V", "Vjj", "jlvk", "lllllvj"] {
        let mut a = app("first\n\nthird");
        keys(&mut a, typed);
        let ((sl, _), (el, _)) = a.sel_bounds();
        let mut parts = Vec::new();
        for (li, line) in a.lines.iter().enumerate() {
            let part: String = line
                .iter()
                .enumerate()
                .filter(|(col, _)| a.in_selection(li, *col))
                .map(|(_, c)| *c)
                .collect();
            if sl <= li && li <= el {
                parts.push(part);
            } else {
                assert_eq!(part, "");
            }
        }
        assert_eq!(a.extract(), parts.join("\n"), "{typed}");
    }
}

#[test]
fn selections_are_toggled() {
    let mut a = app("first\nsecond");
    keys(&mut a, "lv");
    assert!(a.mode == Mode::VisualChar);
    assert_eq!(a.anchor, (0, 1));
    keys(&mut a, "jv");
    assert!(a.mode == Mode::Normal);
    assert_eq!(at(&a), (1, 1));
    keys(&mut a, "v");
    keys(&mut a, "kV");
    assert!(a.mode == Mode::VisualLine);
    assert_eq!(a.anchor, (0, 1));
    assert!(!a.in_selection(1, 0));
    keys(&mut a, "V");
    assert!(a.mode == Mode::Normal);
    assert!(!a.in_selection(0, 1));
}

#[test]
fn escape_leaves_a_selection_and_then_quits() {
    let mut a = app("ab");
    keys(&mut a, "v");
    key(&mut a, KeyCode::Esc);
    assert!(a.mode == Mode::Normal && !a.quit);
    assert_eq!(a.msg, "");
    key(&mut a, KeyCode::Esc);
    assert!(a.quit);
    let mut a = app("ab");
    keys(&mut a, "vq");
    assert!(a.quit);
}

#[test]
fn a_query_is_typed_and_searched_for() {
    let mut a = app("one two one\none");
    keys(&mut a, "/onx");
    assert!(a.mode == Mode::Search);
    assert_eq!(a.input, "onx");
    key(&mut a, KeyCode::Backspace);
    keys(&mut a, "e");
    assert_eq!(a.input, "one");
    assert_eq!(key(&mut a, KeyCode::Enter), Reaction::Redraw);
    assert!(a.mode == Mode::Normal);
    assert_eq!(a.last_query, "one");
    assert_eq!(a.input, "");
    assert_eq!(at(&a), (0, 8));
    keys(&mut a, "n");
    assert_eq!(at(&a), (1, 0));
    keys(&mut a, "N");
    assert_eq!(at(&a), (0, 8));
    assert_eq!(a.msg, "/one");
}

#[test]
fn the_query_prompt_takes_every_character() {
    let mut a = app("ab");
    keys(&mut a, "/qyo");
    ctrl(&mut a, 'c');
    key(&mut a, KeyCode::Down);
    assert_eq!(a.input, "qyoc");
    assert!(!a.quit);
    key(&mut a, KeyCode::Esc);
    assert!(a.mode == Mode::Normal && !a.quit);
    assert_eq!(a.input, "");
    assert_eq!(a.msg, "search cancelled");
    keys(&mut a, "/");
    key(&mut a, KeyCode::Backspace);
    assert_eq!(a.input, "");
}

#[test]
fn an_empty_query_clears_the_last_one() {
    let mut a = app("one\none");
    keys(&mut a, "/one");
    key(&mut a, KeyCode::Enter);
    assert_eq!(at(&a), (1, 0));
    keys(&mut a, "/");
    key(&mut a, KeyCode::Enter);
    assert_eq!(a.last_query, "");
    assert_eq!(at(&a), (1, 0));
    keys(&mut a, "n");
    assert_eq!(at(&a), (1, 0));
}

#[test]
fn the_editor_is_asked_for() {
    let mut a = app("\x1b[31mab\x1b[0m\n\ncd");
    assert_eq!(keys(&mut a, "o"), Reaction::Edit);
    assert!(a.quit);
    assert_eq!(a.plain_text(), "ab\n\ncd");
}

#[test]
fn a_text_without_lines_can_be_moved_in() {
    let mut a = App::new(vec![], vec![], 80, 24);
    for c in "hjkl0$gGnNvV/".chars() {
        key(&mut a, KeyCode::Char(c));
    }
    key(&mut a, KeyCode::Enter);
    ctrl(&mut a, 'f');
    assert_eq!(at(&a), (0, 0));
    assert_eq!(a.extract(), "");
    assert_eq!(a.plain_text(), "");
    assert_eq!(a.line_len(0), 0);
}

#[test]
fn no_key_changes_the_text() {
    let mut a = app("\x1b[1mone\x1b[0m two\nthree");
    let (lines, style) = (a.lines.clone(), a.style.clone());
    keys(&mut a, "jkhl0$gGwbvV/x");
    key(&mut a, KeyCode::Enter);
    keys(&mut a, "nNoy");
    assert_eq!(a.lines, lines);
    assert_eq!(a.style, style);
}

#[test]
fn the_view_moves_no_further_than_it_must() {
    let mut a = app("0\n1\n2\n3\n4\n5\n6\n7\n8\n9");
    a.rows = 4;
    a.cols = 5;
    a.cy = 6;
    a.ensure_visible();
    assert_eq!(a.top, 3);
    a.cy = 4;
    a.ensure_visible();
    assert_eq!(a.top, 3);
    a.cy = 1;
    a.ensure_visible();
    assert_eq!(a.top, 1);
    a.cx = 12;
    a.ensure_visible();
    assert_eq!(a.left, 8);
    a.clamp_cx();
    assert_eq!(a.cx, 1);
    a.ensure_visible();
    assert_eq!(a.left, 1);
}

#[test]
fn a_selection_past_the_ends_of_its_lines_is_cut() {
    let mut a = app("first\nsecond");
    a.mode = Mode::VisualChar;
    a.anchor = (0, 40);
    a.cy = 1;
    a.cx = 50;
    assert_eq!(a.extract(), "\nsecond");
    a.cy = 0;
    assert_eq!(a.extract(), "");
    a.anchor = (0, 3);
    assert_eq!(a.extract(), "st");
    // A search minds neither the anchor nor the column.
    a.anchor = (9, 9);
    a.last_query = "con".to_string();
    a.search(true);
    assert_eq!(at(&a), (1, 2));
}
