//! Classes of characters.
use vstd::prelude::*;

verus! {

/// Which characters beyond ASCII `char::is_alphanumeric` accepts.
pub uninterp spec fn unicode_alphanumeric(c: char) -> bool;

pub open spec fn is_ascii(c: char) -> bool {
    (c as int) < 0x80
}

pub open spec fn ascii_alphanumeric(c: char) -> bool {
    'a' <= c <= 'z' || 'A' <= c <= 'Z' || '0' <= c <= '9'
}

/// The characters with Unicode's White_Space property: tab to carriage return, the
/// space, the next line, and the spaces and separators beyond ASCII.
pub open spec fn space_char(c: char) -> bool {
    let n = c as int;
    ||| 0x09 <= n <= 0x0d
    ||| n == 0x20
    ||| n == 0x85
    ||| n == 0xa0
    ||| n == 0x1680
    ||| 0x2000 <= n <= 0x200a
    ||| n == 0x2028
    ||| n == 0x2029
    ||| n == 0x202f
    ||| n == 0x205f
    ||| n == 0x3000
}

pub open spec fn alphanumeric_char(c: char) -> bool {
    if is_ascii(c) {
        ascii_alphanumeric(c)
    } else {
        unicode_alphanumeric(c)
    }
}

/// The characters that words are made of.
pub open spec fn word_char(c: char) -> bool {
    alphanumeric_char(c) || c == '_'
}

/// `char::is_whitespace` tells whether a character has Unicode's White_Space
/// property.
pub assume_specification[ char::is_whitespace ](c: char) -> (r: bool)
    ensures
        r == space_char(c),
;

/// `char::is_alphanumeric` tells whether a character is alphabetic or numeric in
/// Unicode. Its answer within ASCII, the letters and the digits, is stated;
/// beyond ASCII it has a name.
pub assume_specification[ char::is_alphanumeric ](c: char) -> (r: bool)
    ensures
        is_ascii(c) ==> r == ascii_alphanumeric(c),
        !is_ascii(c) ==> r == unicode_alphanumeric(c),
;

/// Whether words are made of this character.
pub fn is_word(c: char) -> (r: bool)
    ensures
        r == word_char(c),
{
    c.is_alphanumeric() || c == '_'
}

/// Where the run of word characters (or of others) that starts at `i` ends.
pub open spec fn run_end(line: Seq<char>, i: int, word: bool) -> int
    decreases line.len() - i,
{
    if 0 <= i < line.len() && word_char(line[i]) == word {
        run_end(line, i + 1, word)
    } else {
        i
    }
}

/// Where the run of word characters (or of others) that ends at `i` starts.
pub open spec fn run_start(line: Seq<char>, i: int, word: bool) -> int
    decreases i,
{
    if 0 < i <= line.len() && word_char(line[i - 1]) == word {
        run_start(line, i - 1, word)
    } else {
        i
    }
}

/// Past the rest of the word at `i`, and past what stands between words.
pub open spec fn next_word(line: Seq<char>, i: int) -> int {
    run_end(line, run_end(line, i, true), false)
}

/// Back over what stands between words, and over the word in front of it.
pub open spec fn prev_word(line: Seq<char>, i: int) -> int {
    run_start(line, run_start(line, i, false), true)
}

fn skip_run(line: &Vec<char>, start: usize, word: bool) -> (r: usize)
    ensures
        r == run_end(line@, start as int, word),
        start <= line@.len() ==> r <= line@.len(),
{
    let mut i: usize = start;
    while i < line.len() && is_word(line[i]) == word
        invariant
            start <= i,
            start <= line@.len() ==> i <= line@.len(),
            run_end(line@, start as int, word) == run_end(line@, i as int, word),
        decreases line@.len() - i,
    {
        i += 1;
    }
    i
}

fn skip_run_back(line: &Vec<char>, end: usize, word: bool) -> (r: usize)
    requires
        end <= line@.len(),
    ensures
        r == run_start(line@, end as int, word),
        r <= end,
{
    let mut i: usize = end;
    while i > 0 && is_word(line[i - 1]) == word
        invariant
            i <= end <= line@.len(),
            run_start(line@, end as int, word) == run_start(line@, i as int, word),
        decreases i,
    {
        i -= 1;
    }
    i
}

/// The column that a step to the next word leads to.
pub fn word_forward(line: &Vec<char>, cx: usize) -> (r: usize)
    ensures
        r == next_word(line@, cx as int),
        cx <= line@.len() ==> r <= line@.len(),
{
    let end: usize = skip_run(line, cx, true);
    skip_run(line, end, false)
}

/// The column that a step to the previous word leads to.
pub fn word_back(line: &Vec<char>, cx: usize) -> (r: usize)
    requires
        cx <= line@.len(),
    ensures
        r == prev_word(line@, cx as int),
        r <= cx,
{
    let end: usize = skip_run_back(line, cx, false);
    skip_run_back(line, end, true)
}

// ---- laws ----
/// Whether a word starts at this column.
pub open spec fn starts_word(line: Seq<char>, i: int) -> bool {
    0 <= i < line.len() && word_char(line[i]) && (i == 0 || !word_char(line[i - 1]))
}

proof fn lemma_run_end(line: Seq<char>, i: int, word: bool)
    requires
        0 <= i <= line.len(),
    ensures
        i <= run_end(line, i, word) <= line.len(),
        forall|k: int| i <= k < run_end(line, i, word) ==> word_char(#[trigger] line[k]) == word,
        run_end(line, i, word) < line.len() ==> word_char(line[run_end(line, i, word)]) != word,
    decreases line.len() - i,
{
    if i < line.len() && word_char(line[i]) == word {
        lemma_run_end(line, i + 1, word);
    }
}

proof fn lemma_run_start(line: Seq<char>, i: int, word: bool)
    requires
        0 <= i <= line.len(),
    ensures
        0 <= run_start(line, i, word) <= i,
        forall|k: int| run_start(line, i, word) <= k < i ==> word_char(#[trigger] line[k]) == word,
        run_start(line, i, word) > 0 ==> word_char(line[run_start(line, i, word) - 1]) != word,
    decreases i,
{
    if i > 0 && word_char(line[i - 1]) == word {
        lemma_run_start(line, i - 1, word);
    }
}

/// A step forward goes to the nearest word that starts behind the cursor, or,
/// where none does, to the end of the line.
pub proof fn law_forward_to_the_next_word(line: Seq<char>, i: int)
    requires
        0 <= i <= line.len(),
    ensures
        i <= next_word(line, i) <= line.len(),
        i < line.len() ==> i < next_word(line, i),
        next_word(line, i) < line.len() ==> starts_word(line, next_word(line, i)),
        forall|k: int| i < k < next_word(line, i) ==> !#[trigger] starts_word(line, k),
{
    let mid = run_end(line, i, true);
    lemma_run_end(line, i, true);
    lemma_run_end(line, mid, false);
    assert forall|k: int| i < k < next_word(line, i) implies !#[trigger] starts_word(line, k) by {
        let (here, prior) = (line[k], line[k - 1]);
    }
}

/// A step back goes to the nearest word that starts in front of the cursor, or,
/// where none does, to the start of the line.
pub proof fn law_back_to_the_previous_word(line: Seq<char>, i: int)
    requires
        0 <= i <= line.len(),
    ensures
        0 <= prev_word(line, i) <= i,
        0 < i ==> prev_word(line, i) < i,
        0 < prev_word(line, i) ==> starts_word(line, prev_word(line, i)),
        forall|k: int| prev_word(line, i) < k < i ==> !#[trigger] starts_word(line, k),
{
    let mid = run_start(line, i, false);
    lemma_run_start(line, i, false);
    lemma_run_start(line, mid, true);
    assert forall|k: int| prev_word(line, i) < k < i implies !#[trigger] starts_word(line, k) by {
        let (here, prior) = (line[k], line[k - 1]);
    }
}

/// Words are made of letters, digits and underscores. In ASCII these are the ones
/// of its ranges and nothing else; beyond it, what Unicode calls alphanumeric.
pub proof fn law_what_words_are_made_of(c: char)
    ensures
        (c as int) < 0x80 ==> (word_char(c) <==> 'a' <= c <= 'z' || 'A' <= c <= 'Z' || '0' <= c
            <= '9' || c == '_'),
        (c as int) >= 0x80 ==> (word_char(c) <==> unicode_alphanumeric(c)),
{
}

/// Behind the end of the line there is no next word to step to.
pub proof fn law_no_word_behind_the_end(line: Seq<char>, i: int)
    requires
        i >= line.len(),
    ensures
        next_word(line, i) == i,
{
}

} // verus!
