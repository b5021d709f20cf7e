use lvim_zcopy::cell::{Cell, Color};
use lvim_zcopy::dump::{load, paints_nothing, parse};

fn parse_dump(body: &str) -> (Vec<Vec<char>>, Vec<Vec<Cell>>) {
    load(body.as_bytes())
}

fn text(lines: &[Vec<char>]) -> Vec<String> {
    lines.iter().map(|l| l.iter().collect()).collect()
}

#[test]
fn trailing_blank_lines_are_trimmed_however_they_are_spelled() {
    // Empty, and padded out with spaces: both are dead space below the
    // output, and a pane dump produces both.
    let (lines, _) = parse_dump("text\n\n    \n\t\n\n");
    assert_eq!(lines.len(), 1, "got {lines:?}");
    assert_eq!(lines[0].iter().collect::<String>(), "text");
}

#[test]
fn a_coloured_bar_of_spaces_is_not_blank() {
    // A statusline is spaces with a background. Trimming it would delete
    // something the pane actually showed.
    let (lines, style) = parse_dump("text\n\x1b[48;5;236m      \x1b[0m\n");
    assert_eq!(lines.len(), 2, "the coloured bar was trimmed: {lines:?}");
    assert_eq!(style[1][0].bg, Some(Color::AnsiValue(236)));
    // Reverse and underline paint on a space too.
    let (lines, _) = parse_dump("text\n\x1b[7m   \x1b[0m\n");
    assert_eq!(lines.len(), 2, "a reversed bar was trimmed");
    let (lines, _) = parse_dump("text\n\x1b[4m   \x1b[0m\n");
    assert_eq!(lines.len(), 2, "an underlined bar was trimmed");
    // ...but a plain foreground on spaces is invisible, so it is blank.
    let (lines, _) = parse_dump("text\n\x1b[31m   \x1b[0m\n");
    assert_eq!(lines.len(), 1, "an invisible line was kept");
}

#[test]
fn the_dump_becomes_lines_with_a_colour_for_every_character() {
    let (lines, style) =
        parse_dump("\x1b[48;5;236m\x1b[38;5;203mred\x1b[0m plain\nsecond\n");

    assert_eq!(lines.len(), 2);
    assert_eq!(lines[0].iter().collect::<String>(), "red plain");
    assert_eq!(lines[1].iter().collect::<String>(), "second");
    // The escapes are gone from the text but not from the appearance.
    assert_eq!(style[0][0].bg, Some(Color::AnsiValue(236)));
    assert_eq!(style[0][0].fg, Some(Color::AnsiValue(203)));
    assert_eq!(style[0][4].bg, None, "the reset must end the background");
    for (l, s) in lines.iter().zip(style.iter()) {
        assert_eq!(l.len(), s.len());
    }
}

#[test]
fn an_empty_dump_is_one_empty_line() {
    for body in ["", "\n", "\n\n\n", "\x1b[31m", "\r"] {
        let (lines, style) = parse_dump(body);
        assert_eq!(lines, vec![Vec::<char>::new()], "{body:?}");
        assert_eq!(style, vec![Vec::<Cell>::new()]);
    }
    // The only line stays even if it is blank.
    let (lines, _) = parse_dump("   \n\n");
    assert_eq!(text(&lines), ["   "]);
}

#[test]
fn blank_lines_in_the_middle_stay() {
    let (lines, _) = parse_dump("a\n\n  \nb\n \n");
    assert_eq!(text(&lines), ["a", "", "  ", "b"]);
}

#[test]
fn white_space_beyond_ascii_is_blank_too() {
    let (lines, _) = parse_dump("a\n\u{a0}\u{2003}\u{3000}\n");
    assert_eq!(lines.len(), 1);
    let (lines, _) = parse_dump("a\n\u{200b}\n");
    assert_eq!(lines.len(), 2);
}

#[test]
fn escapes_that_set_no_style_are_ignored() {
    let (lines, style) = parse_dump("a\x1b[2;5Hb\x1b[?25lc\x1b[Kd\x1b(Be\x1b]0;title\x07f\x1b]8;;x\x1b\\g");
    // `ESC (` takes one character with it; the B behind it is text.
    assert_eq!(text(&lines), ["abcdBefg"]);
    assert!(style[0].iter().all(|c| *c == Cell::default()));
}

#[test]
fn an_escape_that_never_ends_takes_the_rest() {
    assert_eq!(text(&parse_dump("a\x1b[12").0), ["a"]);
    assert_eq!(text(&parse_dump("a\x1b[").0), ["a"]);
    assert_eq!(text(&parse_dump("a\x1b]0;b\nc").0), ["a"]);
    assert_eq!(text(&parse_dump("a\x1b]0;b\x1b").0), ["a"]);
    assert_eq!(text(&parse_dump("a\x1b").0), ["a"]);
    assert_eq!(text(&parse_dump("a\x1bMb").0), ["ab"]);
}

#[test]
fn a_bell_or_a_string_terminator_ends_a_command() {
    assert_eq!(text(&parse_dump("\x1b]0;t\x07x").0), ["x"]);
    assert_eq!(text(&parse_dump("\x1b]0;t\x1b\\x").0), ["x"]);
    // An escape that is no terminator is part of the command.
    assert_eq!(text(&parse_dump("\x1b]0;t\x1b[31m\x07x").0), ["x"]);
}

#[test]
fn private_markers_are_dropped_from_sgr() {
    let (_, style) = parse_dump("\x1b[?1;>4mx");
    assert!(style[0][0].bold && style[0][0].underline);
    // Nothing left but the markers means an empty list, which resets.
    let (_, style) = parse_dump("\x1b[1m\x1b[?mx");
    assert!(!style[0][0].bold);
}

#[test]
fn carriage_returns_are_dropped() {
    assert_eq!(text(&parse_dump("a\r\nb\rc").0), ["a", "bc"]);
}

#[test]
fn a_style_goes_on_over_line_ends() {
    let (_, style) = parse_dump("\x1b[32ma\nb");
    assert_eq!(style[1][0].fg, Some(Color::AnsiValue(2)));
}

#[test]
fn bytes_that_are_no_text_become_replacement_characters() {
    let (lines, style) = load(b"a\xffb\xc3");
    assert_eq!(text(&lines), ["a\u{fffd}b\u{fffd}"]);
    assert_eq!(style[0].len(), 4);
    // Valid UTF-8 is decoded as it is.
    assert_eq!(text(&load("дом λ 🦀".as_bytes()).0), ["дом λ 🦀"]);
}

#[test]
fn no_escape_is_left_in_the_text() {
    let (lines, _) = parse_dump("\x1b[1ma\x1b[0m\x1bZb\x1b]x\x07c\r\x1b\x1bd\ne");
    for c in lines.iter().flatten() {
        assert!(*c != '\x1b' && *c != '\n' && *c != '\r');
    }
}

#[test]
fn the_same_text_without_colours() {
    let plain = parse("one\ntwo").0;
    let coloured = parse("\x1b[1mone\x1b[44m\ntw\x1b[0mo").0;
    assert_eq!(plain, coloured);
}

#[test]
fn what_paints_on_a_space() {
    let plain = Cell::default();
    let sp = [' ', '\t'];
    assert!(paints_nothing(&[], &[]));
    assert!(paints_nothing(&sp, &[plain, plain]));
    assert!(paints_nothing(&sp, &[Cell { bold: true, italic: true, ..plain }]));
    assert!(paints_nothing(&sp, &[Cell { fg: Some(Color::AnsiValue(1)), ..plain }]));
    assert!(!paints_nothing(&sp, &[plain, Cell { bg: Some(Color::AnsiValue(1)), ..plain }]));
    assert!(!paints_nothing(&sp, &[Cell { reverse: true, ..plain }]));
    assert!(!paints_nothing(&sp, &[Cell { underline: true, ..plain }]));
    assert!(!paints_nothing(&[' ', 'x'], &[plain, plain]));
}
