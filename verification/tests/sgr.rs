use lvim_zcopy::cell::{Cell, Color};
use lvim_zcopy::sgr::{apply_sgr, extended_colour, parse_number, read_codes, sgr_color};

/// The style a run of SGR parameters leaves behind.
fn style(params: &[&str]) -> Cell {
    let mut cell = Cell::default();
    for p in params {
        apply_sgr(p, &mut cell);
    }
    cell
}

#[test]
fn backgrounds_are_read() {
    // The whole point: an editor paints its theme with the background.
    assert_eq!(style(&["41"]).bg, Some(Color::AnsiValue(1)));
    assert_eq!(style(&["104"]).bg, Some(Color::AnsiValue(12)));
    assert_eq!(style(&["48;5;236"]).bg, Some(Color::AnsiValue(236)));
    assert_eq!(
        style(&["48;2;40;44;52"]).bg,
        Some(Color::Rgb { r: 40, g: 44, b: 52 })
    );
    // ...and are given back.
    assert_eq!(style(&["41", "49"]).bg, None);
    assert_eq!(style(&["41", "0"]).bg, None);
}

#[test]
fn a_background_does_not_disturb_the_foreground() {
    let cell = style(&["38;5;203;48;5;236"]);
    assert_eq!(cell.fg, Some(Color::AnsiValue(203)));
    assert_eq!(cell.bg, Some(Color::AnsiValue(236)));
}

#[test]
fn the_colon_form_reads_the_same_as_the_semicolon_form() {
    // `38:2::R:G:B` carries an empty colour-space field. Read as a zero it
    // would be taken for the red component and every value would shift by
    // one: a wrong colour rather than a missing one.
    let semi = style(&["38;2;255;128;0"]);
    let colon = style(&["38:2::255:128:0"]);
    assert_eq!(colon.fg, semi.fg);
    assert_eq!(colon.fg, Some(Color::Rgb { r: 255, g: 128, b: 0 }));
    // The short colon form, without the empty slot.
    assert_eq!(style(&["48:5:236"]).bg, Some(Color::AnsiValue(236)));
}

#[test]
fn attributes_go_on_and_off() {
    let on = style(&["1;3;4;7"]);
    assert!(on.bold && on.italic && on.underline && on.reverse);
    let off = style(&["1;3;4;7", "22;23;24;27"]);
    assert!(!off.bold && !off.italic && !off.underline && !off.reverse);
    // A styled underline (`4:3` is curly) is still an underline.
    assert!(style(&["4:3"]).underline);
}

#[test]
fn a_reset_clears_everything() {
    let cell = style(&["1;4;38;5;9;48;5;236", "0"]);
    assert_eq!(cell, Cell::default());
    // An empty parameter list means 0.
    assert_eq!(style(&["1;41", ""]), Cell::default());
}

#[test]
fn a_truncated_colour_leaves_the_style_alone() {
    // Keeping the previous colour is the only safe answer: a guess here
    // paints the wrong colour for the rest of the line.
    let cell = style(&["31", "38;2;255"]);
    assert_eq!(cell.fg, Some(Color::AnsiValue(1)));
    assert!(extended_colour(&[Some(9)]).is_none());
}

#[test]
fn a_colour_says_how_many_fields_it_took() {
    assert_eq!(
        extended_colour(&[Some(5), Some(7), Some(1)]),
        Some((Color::AnsiValue(7), 2))
    );
    assert_eq!(
        extended_colour(&[None, Some(2), None, Some(1), Some(2), None, Some(3), Some(4)]),
        Some((Color::Rgb { r: 1, g: 2, b: 3 }, 7))
    );
    assert_eq!(extended_colour(&[]), None);
    assert_eq!(extended_colour(&[Some(2), Some(1), Some(2)]), None);
}

#[test]
fn components_out_of_range_are_brought_back() {
    assert_eq!(style(&["38;5;300"]).fg, Some(Color::AnsiValue(255)));
    assert_eq!(style(&["38;5;-3"]).fg, Some(Color::AnsiValue(0)));
    assert_eq!(
        style(&["38;2;-1;256;255"]).fg,
        Some(Color::Rgb { r: 0, g: 255, b: 255 })
    );
}

#[test]
fn a_truncated_colour_changes_nothing_at_all() {
    let before = style(&["31;44;1"]);
    for cut in ["38", "48", "38;5", "48;2", "38;2;255", "48:2::200:210", "38;9"] {
        assert_eq!(style(&["31;44;1", cut]), before, "{cut}");
    }
}

#[test]
fn the_values_of_a_truncated_colour_are_no_codes() {
    for cut in ["38;2;31", "48;2;41;1", "38;2;0", "38:2::7:31", "48;5"] {
        let before = style(&["32;44;3"]);
        assert_eq!(style(&["32;44;3", cut]), before, "{cut}");
    }
    // What stands in front of it still counts, and so does the next escape.
    let cell = style(&["32", "1;38;2;31"]);
    assert_eq!(cell.fg, Some(Color::AnsiValue(2)));
    assert!(cell.bold);
    assert_eq!(style(&["38;2;31", "31"]).fg, Some(Color::AnsiValue(1)));
}

#[test]
fn an_unknown_form_keeps_the_colour() {
    for list in ["38;9", "38;9;31", "38;31", "38;95", "38;9;38;5;7", "38;38;2;1;2;3", "38::9:31"] {
        assert_eq!(style(&["32", list]), style(&["32"]), "{list}");
    }
    for list in ["48;9", "48;9;41", "48;41", "48;105", "48;9;48;5;7", "48;48;2;1;2;3"] {
        assert_eq!(style(&["42", list]), style(&["42"]), "{list}");
    }
}

#[test]
fn an_unknown_form_hides_nothing_but_its_colour() {
    // Attributes are read behind it, and the other colour.
    let cell = style(&["32", "38;9;1;41;31;4"]);
    assert_eq!(cell.fg, Some(Color::AnsiValue(2)));
    assert_eq!(cell.bg, Some(Color::AnsiValue(1)));
    assert!(cell.bold && cell.underline);
    assert!(style(&["38;9;1"]).bold);
    assert!(style(&["38;1"]).bold);
    assert!(!style(&["1", "48;9;22"]).bold);
    assert_eq!(style(&["42", "48;38;5;3"]).fg, Some(Color::AnsiValue(3)));
    // Resets are read too, and what follows them is free again.
    assert_eq!(style(&["1;32;44", "38;9;0"]), Cell::default());
    assert_eq!(style(&["32", "38;9;39"]).fg, None);
    assert_eq!(style(&["32", "38;9;0;31"]).fg, Some(Color::AnsiValue(1)));
    assert_eq!(style(&["42", "48;9;49;41"]).bg, Some(Color::AnsiValue(1)));
    // The next escape has nothing to do with it.
    assert_eq!(style(&["32", "38;9", "31"]).fg, Some(Color::AnsiValue(1)));
}

#[test]
fn a_list_of_empty_fields_changes_nothing() {
    let before = style(&["1;41"]);
    assert_eq!(style(&["1;41", ";"]), before);
    assert_eq!(style(&["1;41", ":;"]), before);
    // One empty field among others is skipped.
    assert!(style(&[";1"]).bold);
}

#[test]
fn numbers_are_read_like_signed_integers() {
    let number = |s: &str| parse_number(&s.chars().collect::<Vec<char>>());
    assert_eq!(number("236"), Some(236));
    assert_eq!(number("007"), Some(7));
    assert_eq!(number("+5"), Some(5));
    assert_eq!(number("-5"), Some(-5));
    assert_eq!(number(""), None);
    assert_eq!(number("+"), None);
    assert_eq!(number("-"), None);
    assert_eq!(number("1x"), None);
    assert_eq!(number("--1"), None);
    assert_eq!(number("9223372036854775807"), Some(i64::MAX));
    assert_eq!(number("9223372036854775808"), None);
    assert_eq!(number("-9223372036854775808"), Some(i64::MIN));
    assert_eq!(number("-9223372036854775809"), None);
    assert_eq!(number("00000000000000000000000000000000000000000000041"), Some(41));
    assert_eq!(number("99999999999999999999999999999999999999999999999"), None);
    for s in ["", "0", "-0", "+12", "12 ", " 12", "1_2", "١", "18446744073709551616"] {
        assert_eq!(number(s), s.parse::<i64>().ok(), "{s}");
    }
}

#[test]
fn parameters_become_codes() {
    assert_eq!(read_codes(""), vec![Some(0)]);
    assert_eq!(read_codes("1"), vec![Some(1)]);
    assert_eq!(read_codes("38:2::1;x"), vec![Some(38), Some(2), None, Some(1), None]);
    assert_eq!(read_codes(";"), vec![None, None]);
}

#[test]
fn the_sixteen_colours() {
    assert_eq!(sgr_color(30), Some(Color::AnsiValue(0)));
    assert_eq!(sgr_color(37), Some(Color::AnsiValue(7)));
    assert_eq!(sgr_color(90), Some(Color::AnsiValue(8)));
    assert_eq!(sgr_color(97), Some(Color::AnsiValue(15)));
    for code in [29, 38, 89, 98, -30, i64::MAX, i64::MIN] {
        assert_eq!(sgr_color(code), None);
    }
    assert_eq!(style(&["31", "39"]).fg, None);
    assert_eq!(style(&["97"]).fg, Some(Color::AnsiValue(15)));
    assert_eq!(style(&["107"]).bg, Some(Color::AnsiValue(15)));
}

#[test]
fn a_colour_at_the_end_of_the_list_is_taken_whole() {
    let cell = style(&["48;5;7;1"]);
    assert_eq!(cell.bg, Some(Color::AnsiValue(7)));
    assert!(cell.bold);
}
