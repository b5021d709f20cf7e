use lvim_zcopy::app::App;
use lvim_zcopy::class::{is_word, word_back, word_forward};
use lvim_zcopy::dump::parse;
use lvim_zcopy::search::{find_hit, find_step, matches_at, Hit};

fn chars(s: &str) -> Vec<char> {
    s.chars().collect()
}

fn app(text: &str, query: &str) -> App {
    let (lines, style) = parse(text);
    let mut app = App::new(lines, style, 80, 24);
    app.cy = 0;
    app.last_query = query.to_string();
    app
}

#[test]
fn every_match_is_stepped_through() {
    let mut a = app("foo bar foo\nbar\nfoofoo", "foo");
    let mut seen = Vec::new();
    for _ in 0..5 {
        a.search(true);
        seen.push((a.cy, a.cx));
    }
    assert_eq!(seen, [(0, 8), (2, 0), (2, 3), (0, 0), (0, 8)]);
    assert_eq!(a.msg, "/foo");
}

#[test]
fn the_other_direction_visits_the_same_matches() {
    let mut a = app("foo bar foo\nbar\nfoofoo", "foo");
    let mut seen = Vec::new();
    for _ in 0..5 {
        a.search(false);
        seen.push((a.cy, a.cx));
    }
    assert_eq!(seen, [(2, 3), (2, 0), (0, 8), (0, 0), (2, 3)]);
}

#[test]
fn back_undoes_ahead() {
    let mut a = app("xx x\nx", "x");
    a.cx = 1;
    a.search(true);
    assert_eq!((a.cy, a.cx), (0, 3));
    a.search(false);
    assert_eq!((a.cy, a.cx), (0, 1));
}

#[test]
fn the_only_match_is_found_again() {
    let mut a = app("ab\ncd", "cd");
    a.search(true);
    assert_eq!((a.cy, a.cx), (1, 0));
    a.search(true);
    assert_eq!((a.cy, a.cx), (1, 0));
    a.search(false);
    assert_eq!((a.cy, a.cx), (1, 0));
}

#[test]
fn matches_may_overlap() {
    let mut a = app("aaa", "aa");
    a.search(true);
    assert_eq!(a.cx, 1);
    a.search(true);
    assert_eq!(a.cx, 0);
}

#[test]
fn columns_are_counted_and_not_bytes() {
    let mut a = app("дом и дом", "дом");
    a.search(true);
    assert_eq!((a.cy, a.cx), (0, 6));
}

#[test]
fn a_query_that_does_not_occur() {
    let mut a = app("ab\ncd", "zz");
    a.cx = 1;
    a.search(true);
    assert_eq!((a.cy, a.cx), (0, 1));
    assert_eq!(a.msg, "not found: zz");
    a.search(false);
    assert_eq!((a.cy, a.cx), (0, 1));
}

#[test]
fn without_a_query_nothing_happens() {
    let mut a = app("ab\ncd", "");
    let msg = a.msg.clone();
    a.search(true);
    assert_eq!((a.cy, a.cx), (0, 0));
    assert_eq!(a.msg, msg);
    // Nor does anything without a line.
    let mut a = App::new(vec![], vec![], 80, 24);
    a.last_query = "x".to_string();
    a.search(true);
    assert_eq!((a.cy, a.cx), (0, 0));
    assert_eq!(a.msg, msg);
}

#[test]
fn the_matcher() {
    let line = chars("abab");
    assert!(matches_at(&line, &chars("ab"), 0));
    assert!(!matches_at(&line, &chars("ab"), 1));
    assert!(matches_at(&line, &chars("ab"), 2));
    assert!(!matches_at(&line, &chars("ab"), 3));
    assert!(!matches_at(&line, &chars("ab"), 9));
    assert!(!matches_at(&line, &chars(""), 0));
    assert!(!matches_at(&line, &chars("ababa"), 0));
    assert!(!matches_at(&line, &chars("AB"), 0));
}

#[test]
fn a_step_from_behind_the_last_character() {
    let lines = vec![chars("ab"), chars("ab")];
    assert_eq!(find_step(&lines, &chars("b"), true, 0, 2), Some((1, 1)));
    assert_eq!(find_step(&lines, &chars("b"), false, 0, 2), Some((0, 1)));
    assert_eq!(find_step(&lines, &chars("a"), false, 0, 0), Some((1, 0)));
    assert_eq!(find_step(&lines, &chars("c"), true, 1, 0), None);
}

#[test]
fn what_is_lit() {
    let line = chars("xfoo foo");
    let query = chars("foo");
    let hits: Vec<Hit> = (0..8).map(|c| find_hit(&line, &query, Some(2), c)).collect();
    assert_eq!(hits, [Hit::Miss, Hit::Current, Hit::Current, Hit::Current, Hit::Miss, Hit::Match, Hit::Match, Hit::Match]);
    // The cursor is on another line.
    let hits: Vec<Hit> = (0..8).map(|c| find_hit(&line, &query, None, c)).collect();
    assert_eq!(hits, [Hit::Miss, Hit::Match, Hit::Match, Hit::Match, Hit::Miss, Hit::Match, Hit::Match, Hit::Match]);
    // An empty query lights nothing.
    assert_eq!(find_hit(&line, &chars(""), Some(0), 0), Hit::Miss);
    assert_eq!(find_hit(&line, &query, Some(9), 100), Hit::Miss);
}

#[test]
fn what_is_visited_is_what_is_lit() {
    let text = "aaba\nba ab\n\nabab";
    let a = app(text, "ab");
    let query = chars("ab");
    let mut visited = Vec::new();
    let (mut cy, mut cx) = (0, 0);
    for _ in 0..10 {
        let (li, c) = find_step(&a.lines, &query, true, cy, cx).unwrap();
        visited.push((li, c));
        (cy, cx) = (li, c);
    }
    for (li, line) in a.lines.iter().enumerate() {
        for col in 0..line.len() {
            let lit = find_hit(line, &query, None, col) != Hit::Miss;
            let covered = visited.iter().any(|&(l, c)| l == li && c <= col && col < c + 2);
            assert_eq!(lit, covered, "{li}:{col}");
        }
    }
}

#[test]
fn what_words_are_made_of() {
    for c in ['a', 'Z', '0', '9', '_', 'ж', 'é', '京', '²'] {
        assert!(is_word(c), "{c}");
    }
    for c in [' ', '-', '.', '/', '\t', '·', '—', '@', '[', '`', '{'] {
        assert!(!is_word(c), "{c}");
    }
}

#[test]
fn ascii_classes_are_as_stated() {
    for b in 0u8..128 {
        let c = b as char;
        assert_eq!(is_word(c), b.is_ascii_alphanumeric() || c == '_');
        let line = [c];
        let blank = lvim_zcopy::dump::paints_nothing(&line, &[]);
        assert_eq!(blank, (9..=13).contains(&b) || b == 32);
    }
}

#[test]
fn steps_by_words() {
    let line = chars("one  two_2, три");
    assert_eq!(word_forward(&line, 0), 5);
    assert_eq!(word_forward(&line, 3), 5);
    assert_eq!(word_forward(&line, 5), 12);
    assert_eq!(word_forward(&line, 12), 15);
    assert_eq!(word_forward(&line, 15), 15);
    assert_eq!(word_forward(&line, 99), 99);
    assert_eq!(word_back(&line, 15), 12);
    assert_eq!(word_back(&line, 12), 5);
    assert_eq!(word_back(&line, 7), 5);
    assert_eq!(word_back(&line, 5), 0);
    assert_eq!(word_back(&line, 0), 0);
    let blank = chars("  ");
    assert_eq!(word_forward(&blank, 0), 2);
    assert_eq!(word_back(&blank, 2), 0);
}

#[test]
fn white_space_is_as_stated() {
    for c in '\0'..=char::MAX {
        let stated = matches!(
            c as u32,
            0x09..=0x0d | 0x20 | 0x85 | 0xa0 | 0x1680 | 0x2000..=0x200a | 0x2028 | 0x2029 | 0x202f
                | 0x205f | 0x3000
        );
        assert_eq!(lvim_zcopy::dump::paints_nothing(&[c], &[]), stated, "{c:?}");
    }
}
