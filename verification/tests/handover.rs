use lvim_zcopy::app::App;
use lvim_zcopy::cell::Cell;
use lvim_zcopy::cli::{copied_note, dump_path, next_wait, plain_path, spans_path};
use lvim_zcopy::dump::parse;
use lvim_zcopy::text::{push_decimal, push_hex};

fn sidecar(text: &str) -> String {
    let (lines, style) = parse(text);
    App::new(lines, style, 80, 24).sidecar()
}

fn args(list: &[&str]) -> Vec<String> {
    list.iter().map(|s| s.to_string()).collect()
}

#[test]
fn a_plain_text_has_no_spans() {
    assert_eq!(sidecar("one\ntwo"), "");
    assert_eq!(sidecar(""), "");
}

#[test]
fn a_span_for_every_run() {
    assert_eq!(
        sidecar("a\x1b[31mbc\x1b[0md\x1b[1;3;4;7;48;2;1;171;255me\n"),
        "0\t1\t3\ti1\t-\t\n0\t4\t5\t-\t#01abff\tbiur\n"
    );
}

#[test]
fn spans_count_bytes() {
    // д takes two bytes, € three and 🦀 four.
    assert_eq!(
        sidecar("д\x1b[32mд€\x1b[33m🦀\x1b[0mx\nx\x1b[7mд"),
        "0\t2\t7\ti2\t-\t\n0\t7\t11\ti3\t-\t\n1\t1\t3\t-\t-\tr\n"
    );
}

#[test]
fn identical_neighbours_are_merged() {
    assert_eq!(
        sidecar("\x1b[31ma\x1b[39m\x1b[31mb\x1b[0;31mc"),
        "0\t0\t3\ti1\t-\t\n"
    );
    // A gap keeps two runs apart, and so does another style.
    assert_eq!(
        sidecar("\x1b[31ma\x1b[0m \x1b[31mb\x1b[1mc"),
        "0\t0\t1\ti1\t-\t\n0\t2\t3\ti1\t-\t\n0\t3\t4\ti1\t-\tb\n"
    );
}

#[test]
fn a_run_ends_with_its_line() {
    assert_eq!(
        sidecar("\x1b[44mab\n\ncd"),
        "0\t0\t2\t-\ti4\t\n2\t0\t2\t-\ti4\t\n"
    );
}

#[test]
fn spans_without_cells_are_left_out() {
    let lines = vec!["ab".chars().collect(), "c".chars().collect()];
    let style = vec![vec![Cell { bold: true, ..Cell::default() }]];
    assert_eq!(App::new(lines, style, 80, 24).sidecar(), "0\t0\t1\t-\t-\tb\n");
}

#[test]
fn the_first_argument_that_names_a_file() {
    assert_eq!(dump_path(&args(&["zcopy", "dump"])), Some(1));
    assert_eq!(dump_path(&args(&["zcopy", "+12", "+", "dump", "other"])), Some(3));
    assert_eq!(dump_path(&args(&["zcopy"])), None);
    assert_eq!(dump_path(&args(&[])), None);
    assert_eq!(dump_path(&args(&["zcopy", "+1"])), None);
    assert_eq!(dump_path(&args(&["zcopy", "", "dump"])), None);
    assert_eq!(dump_path(&args(&["zcopy", "a+b"])), Some(1));
}

#[test]
fn the_files_for_the_editor() {
    assert_eq!(plain_path(4321), "/tmp/lvim-zcopy-plain-4321.txt");
    assert_eq!(spans_path(4321), "/tmp/lvim-zcopy-plain-4321.spans");
}

#[test]
fn the_note_counts_characters() {
    assert_eq!(copied_note("дом"), "lvim-zcopy: copied 3 chars");
    assert_eq!(copied_note(""), "lvim-zcopy: copied 0 chars");
}

#[test]
fn numbers_are_written_out() {
    for n in [0u128, 9, 10, 99, 100, 65535, u64::MAX as u128, u128::MAX] {
        let mut out = String::from("x");
        push_decimal(&mut out, n);
        assert_eq!(out, format!("x{n}"));
    }
    for b in 0u8..=255 {
        let mut out = String::new();
        push_hex(&mut out, b);
        assert_eq!(out, format!("{b:02x}"));
    }
}

#[test]
fn the_wait_for_the_dump() {
    assert_eq!(next_wait(0, None), Some(25));
    assert_eq!(next_wait(0, Some(0)), Some(25));
    assert_eq!(next_wait(23, None), Some(25));
    assert_eq!(next_wait(24, None), None);
    assert_eq!(next_wait(24, Some(0)), None);
    assert_eq!(next_wait(0, Some(1)), None);
    assert_eq!(next_wait(u32::MAX, None), None);
}
