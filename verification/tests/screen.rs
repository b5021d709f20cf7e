use lvim_zcopy::app::{App, Mode};
use lvim_zcopy::cell::{Cell, Color};
use lvim_zcopy::dump::parse;
use lvim_zcopy::keys::{Event, KeyCode, KeyEventKind};
use lvim_zcopy::screen::{draw, write_style, Ink, Op};

fn app(text: &str, cols: usize, rows: usize) -> App {
    let (lines, style) = parse(text);
    let mut app = App::new(lines, style, cols, rows);
    app.cy = 0;
    app
}

fn style_ops(cell: Cell) -> Vec<Op> {
    let mut out = Vec::new();
    write_style(&mut out, cell);
    out
}

/// The operations between one move of the terminal's cursor and the next.
fn part(ops: &[Op], x: u16, y: u16) -> Vec<Op> {
    let start = ops.iter().position(|op| *op == Op::MoveTo(x, y)).unwrap();
    let rest = &ops[start + 1..];
    let end = rest
        .iter()
        .position(|op| matches!(op, Op::MoveTo(_, _)))
        .unwrap_or(rest.len());
    rest[..end].to_vec()
}

fn printed(ops: &[Op]) -> String {
    ops.iter()
        .filter_map(|op| match op {
            Op::Print(c) => Some(*c),
            _ => None,
        })
        .collect()
}

#[test]
fn a_style_starts_with_a_reset() {
    assert_eq!(style_ops(Cell::default()), [Op::ResetAttributes, Op::ResetColor]);
    let full = Cell {
        fg: Some(Color::AnsiValue(1)),
        bg: Some(Color::Rgb { r: 1, g: 2, b: 3 }),
        bold: true,
        italic: true,
        underline: true,
        reverse: true,
    };
    assert_eq!(
        style_ops(full),
        [
            Op::ResetAttributes,
            Op::ResetColor,
            Op::Foreground(Ink::Shade(Color::AnsiValue(1))),
            Op::Background(Ink::Shade(Color::Rgb { r: 1, g: 2, b: 3 })),
            Op::Bold,
            Op::Italic,
            Op::Underlined,
            Op::Reverse,
        ]
    );
    // What was there stays in front.
    let mut out = vec![Op::Print('x')];
    write_style(&mut out, Cell::default());
    assert_eq!(out, [Op::Print('x'), Op::ResetAttributes, Op::ResetColor]);
}

#[test]
fn a_run_costs_one_change_of_style() {
    let a = app("ab\x1b[1mcd\x1b[0me", 10, 1);
    let row = part(&draw(&a), 0, 0);
    let mut want = vec![Op::ResetAttributes, Op::ResetColor, Op::ClearLine];
    want.extend([Op::Print('a'), Op::Print('b')]);
    want.extend([Op::ResetAttributes, Op::ResetColor, Op::Bold]);
    want.extend([Op::Print('c'), Op::Print('d')]);
    want.extend([Op::ResetAttributes, Op::ResetColor]);
    want.extend([Op::Print('e')]);
    want.extend([Op::ResetAttributes, Op::ResetColor]);
    assert_eq!(row, want);
}

#[test]
fn the_view_shows_its_part_of_the_text() {
    let mut a = app("0123456\nabcdefg\n\nxy", 3, 5);
    a.top = 1;
    a.left = 2;
    a.cy = 1;
    a.cx = 4;
    let ops = draw(&a);
    assert_eq!(printed(&part(&ops, 0, 0)), "cde");
    assert_eq!(printed(&part(&ops, 0, 1)), "");
    assert_eq!(printed(&part(&ops, 0, 2)), "");
    // Below the text there is nothing but a cleared line.
    assert_eq!(
        part(&ops, 0, 3),
        [Op::ResetAttributes, Op::ResetColor, Op::ClearLine]
    );
    assert_eq!(ops.last(), Some(&Op::MoveTo(2, 0)));
}

#[test]
fn the_selection_inverts() {
    let mut a = app("a\x1b[7mb\x1b[0mc", 10, 1);
    a.mode = Mode::VisualChar;
    a.anchor = (0, 0);
    a.cx = 1;
    let row = part(&draw(&a), 0, 0);
    let reverse = [Op::ResetAttributes, Op::ResetColor, Op::Reverse];
    let plain = [Op::ResetAttributes, Op::ResetColor];
    let mut want = vec![Op::ResetAttributes, Op::ResetColor, Op::ClearLine];
    want.extend(reverse);
    want.push(Op::Print('a'));
    // The cell that was reversed comes back out of reverse.
    want.extend(plain);
    want.push(Op::Print('b'));
    want.push(Op::Print('c'));
    want.extend(plain);
    assert_eq!(row, want);
}

#[test]
fn every_match_is_highlighted_and_the_current_one_more() {
    let mut a = app("fo fo\nfo", 10, 2);
    a.last_query = "fo".to_string();
    a.cx = 3;
    let ops = draw(&a);
    let lit = |n: u8| Cell {
        fg: Some(Color::AnsiValue(0)),
        bg: Some(Color::AnsiValue(n)),
        ..Cell::default()
    };
    let mut want = vec![Op::ResetAttributes, Op::ResetColor, Op::ClearLine];
    want.extend(style_ops(lit(3)));
    want.extend([Op::Print('f'), Op::Print('o')]);
    want.extend(style_ops(Cell::default()));
    want.push(Op::Print(' '));
    want.extend(style_ops(lit(11)));
    want.extend([Op::Print('f'), Op::Print('o')]);
    want.extend([Op::ResetAttributes, Op::ResetColor]);
    assert_eq!(part(&ops, 0, 0), want);
    assert!(part(&ops, 0, 1).contains(&Op::Background(Ink::Shade(Color::AnsiValue(3)))));
    // Without a query nothing is lit.
    a.last_query = String::new();
    let row = part(&draw(&a), 0, 0);
    assert!(!row.iter().any(|op| matches!(op, Op::Background(_))));
}

#[test]
fn a_selected_match_is_inverted_too() {
    let mut a = app("fo", 10, 1);
    a.last_query = "fo".to_string();
    a.mode = Mode::VisualLine;
    let row = part(&draw(&a), 0, 0);
    assert!(row.contains(&Op::Background(Ink::Shade(Color::AnsiValue(11)))));
    assert!(row.contains(&Op::Reverse));
}

#[test]
fn the_status_bar() {
    let mut a = app("one\ntwo", 40, 3);
    a.cy = 1;
    a.cx = 2;
    a.msg = "hello".to_string();
    let bar = part(&draw(&a), 0, 3);
    let mut want = vec![Op::ResetAttributes, Op::ResetColor];
    let text = |s: &str| s.chars().map(Op::Print).collect::<Vec<Op>>();
    want.extend([Op::Foreground(Ink::Black), Op::Background(Ink::Blue)]);
    want.extend(text(" NORMAL "));
    want.extend([Op::Foreground(Ink::White), Op::Background(Ink::DarkGrey)]);
    want.extend(text(" 2:3/2 "));
    want.extend([Op::Foreground(Ink::Grey), Op::Background(Ink::Reset)]);
    want.extend(text(" hello "));
    want.push(Op::Background(Ink::Reset));
    want.extend(text(&" ".repeat(40 - 22)));
    want.push(Op::ResetColor);
    assert_eq!(bar, want);
}

#[test]
fn the_status_bar_names_the_mode() {
    let mut a = app("one", 0, 1);
    a.cols = 5;
    a.mode = Mode::VisualChar;
    let bar = part(&draw(&a), 0, 1);
    assert!(printed(&bar).starts_with(" VISUAL  1:1/1 "));
    assert!(bar.contains(&Op::Background(Ink::Magenta)));
    a.mode = Mode::VisualLine;
    let bar = part(&draw(&a), 0, 1);
    assert!(printed(&bar).starts_with(" V-LINE "));
    assert!(bar.contains(&Op::Background(Ink::Magenta)));
}

#[test]
fn the_query_prompt() {
    let mut a = app("one", 30, 2);
    a.mode = Mode::Search;
    a.input = "дом".to_string();
    let ops = draw(&a);
    let bar = part(&ops, 0, 2);
    assert_eq!(printed(&bar), format!("{:<30}", " SEARCH /дом "));
    assert!(bar.contains(&Op::Background(Ink::Cyan)));
    // The terminal's cursor stands behind the query, counted in columns.
    assert_eq!(ops.last(), Some(&Op::MoveTo(12, 2)));
    // It never leaves the screen.
    a.cols = 5;
    assert_eq!(draw(&a).last(), Some(&Op::MoveTo(4, 2)));
    a.cols = 0;
    assert_eq!(draw(&a).last(), Some(&Op::MoveTo(0, 2)));
}

#[test]
fn the_bar_spans_the_screen() {
    for cols in [0, 1, 10, 20, 60, 200] {
        let mut a = app("one", 80, 1);
        a.cols = cols;
        a.msg = "m".to_string();
        a.mode = Mode::Search;
        assert_eq!(printed(&part(&draw(&a), 0, 1)).chars().count(), cols.max(10));
        if cols > 0 {
            a.mode = Mode::Normal;
            assert_eq!(printed(&part(&draw(&a), 0, 1)).chars().count(), cols.max(18));
        }
    }
}

#[test]
fn a_character_without_a_cell_is_plain() {
    let lines = vec!["ab".chars().collect()];
    let style = vec![vec![Cell { bold: true, ..Cell::default() }]];
    let mut a = App::new(lines, style, 10, 1);
    a.cx = 0;
    let row = part(&draw(&a), 0, 0);
    let mut want = vec![Op::ResetAttributes, Op::ResetColor, Op::ClearLine];
    want.extend([Op::ResetAttributes, Op::ResetColor, Op::Bold, Op::Print('a')]);
    want.extend([Op::ResetAttributes, Op::ResetColor, Op::Print('b')]);
    want.extend([Op::ResetAttributes, Op::ResetColor]);
    assert_eq!(row, want);
}

#[test]
fn every_state_can_be_drawn() {
    let text: Vec<String> = (0..40).map(|n| "word ".repeat(n)).collect();
    let mut a = app(&text.join("\n"), 7, 3);
    for c in "Gvkk$wbVjg/o$nNnG0lll".chars() {
        a.handle(Event::Key { code: KeyCode::Char(c), modifiers: 0, kind: KeyEventKind::Press });
        assert!(matches!(draw(&a).last(), Some(Op::MoveTo(x, y)) if *x < 7 && *y <= 3));
    }
    a.handle(Event::Resize(2, 1));
    assert!(matches!(draw(&a).last(), Some(Op::MoveTo(x, y)) if *x < 2 && *y <= 1));
}
