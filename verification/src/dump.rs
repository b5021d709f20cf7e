//! The dump: bytes in, lines of characters and of cells out.
use crate::cell::{plain_cell, Cell};
use crate::class::space_char;
use crate::seqs::{
    after, law_without_separators_nothing_is_split, lemma_split_at_separator, lemma_split_nonempty, rows,
    split,
};
use crate::sgr::{apply_sgr, is_digit, is_separator, sgr};
use crate::text::chars_of;
use vstd::prelude::*;
use vstd::utf8::{
    decode_utf8, encode_utf8, encode_utf8_decode_utf8, encode_utf8_valid_utf8, valid_utf8,
};

verus! {

pub const ESC: char = '\u{1b}';

pub const BEL: char = '\u{7}';

/// A character with the style it was written in.
pub type Glyph = (char, Cell);

// ---- the escapes ----
/// The characters that end a control sequence.
pub open spec fn is_final(c: char) -> bool {
    0x40 <= c as int <= 0x7e
}

/// How many characters a control sequence holds in front of its final one.
pub open spec fn control_len(s: Seq<char>) -> nat
    decreases s.len(),
{
    if s.len() == 0 || is_final(s[0]) {
        0
    } else {
        1 + control_len(s.skip(1))
    }
}

/// Whether an operating system command ends here: at a bell, or at `ESC \`.
pub open spec fn ends_command(s: Seq<char>) -> bool {
    s.len() > 0 && (s[0] == BEL || (s[0] == ESC && s.len() > 1 && s[1] == '\\'))
}

/// How many characters an operating system command holds in front of its end.
pub open spec fn command_len(s: Seq<char>) -> nat
    decreases s.len(),
{
    if s.len() == 0 || ends_command(s) {
        0
    } else {
        1 + command_len(s.skip(1))
    }
}

/// The characters of a control sequence that count as SGR parameters. Private
/// markers (`?`, `>`) and whatever else stands there do not.
pub open spec fn sgr_params(s: Seq<char>) -> Seq<char> {
    s.filter(|c: char| is_digit(c) || is_separator(c))
}

/// The style after a control sequence, given without its `ESC [`.
pub open spec fn control_style(body: Seq<char>, st: Cell) -> Cell {
    let n = control_len(body);
    if n < body.len() && body[n as int] == 'm' {
        sgr(sgr_params(body.take(n as int)), st)
    } else {
        st
    }
}

/// What follows an operating system command, given without its `ESC ]`.
pub open spec fn after_command(body: Seq<char>) -> Seq<char> {
    let n = command_len(body);
    if n < body.len() && body[n as int] == ESC {
        after(body, n + 2)
    } else {
        after(body, n + 1)
    }
}

/// The characters that the dump shows, each with its style, line feeds among
/// them. `st` is the style that the text begins in.
///
/// An escape shows nothing. Of all of them only SGR changes the style. A carriage
/// return shows nothing either.
pub open spec fn shown(s: Seq<char>, st: Cell) -> Seq<Glyph>
    decreases s.len(),
{
    if s.len() == 0 {
        Seq::empty()
    } else if s[0] == ESC && s.len() > 1 && s[1] == '[' {
        let body = s.skip(2);
        shown(after(body, control_len(body) + 1), control_style(body, st))
    } else if s[0] == ESC && s.len() > 1 && s[1] == ']' {
        shown(after_command(s.skip(2)), st)
    } else if s[0] == ESC {
        shown(after(s, 2), st)
    } else if s[0] == '\r' {
        shown(s.skip(1), st)
    } else {
        seq![(s[0], st)] + shown(s.skip(1), st)
    }
}

// ---- the lines ----
/// The glyphs, line by line.
pub open spec fn glyph_lines(glyphs: Seq<Glyph>) -> Seq<Seq<Glyph>> {
    split(glyphs, |g: Glyph| g.0 == '\n')
}

pub open spec fn chars_in(line: Seq<Glyph>) -> Seq<char> {
    line.map_values(|g: Glyph| g.0)
}

pub open spec fn cells_in(line: Seq<Glyph>) -> Seq<Cell> {
    line.map_values(|g: Glyph| g.1)
}

/// Whether a cell shows something even on a space: a background, a reverse (which
/// turns the foreground into one), or an underline.
pub open spec fn paints_a_space(c: Cell) -> bool {
    c.bg is Some || c.reverse || c.underline
}

/// Whether a line leaves the screen as it found it.
pub open spec fn blank(line: Seq<char>, style: Seq<Cell>) -> bool {
    &&& forall|i: int| 0 <= i < line.len() ==> space_char(#[trigger] line[i])
    &&& forall|i: int| 0 <= i < style.len() ==> !paints_a_space(#[trigger] style[i])
}

pub open spec fn blank_line(line: Seq<Glyph>) -> bool {
    blank(chars_in(line), cells_in(line))
}

/// The lines without the blank ones at the end; the first one always stays.
pub open spec fn trimmed(lines: Seq<Seq<Glyph>>) -> Seq<Seq<Glyph>>
    decreases lines.len(),
{
    if lines.len() > 1 && blank_line(lines.last()) {
        trimmed(lines.drop_last())
    } else {
        lines
    }
}

/// The lines of a dump.
pub open spec fn dump(text: Seq<char>) -> Seq<Seq<Glyph>> {
    trimmed(glyph_lines(shown(text, plain_cell())))
}

/// The characters of each line.
pub open spec fn texts(lines: Seq<Seq<Glyph>>) -> Seq<Seq<char>> {
    lines.map_values(|l: Seq<Glyph>| chars_in(l))
}

/// The cells of each line.
pub open spec fn styles(lines: Seq<Seq<Glyph>>) -> Seq<Seq<Cell>> {
    lines.map_values(|l: Seq<Glyph>| cells_in(l))
}

/// Whether a line would leave the screen as it found it.
///
/// Every character is white space and no cell carries something that paints on a
/// space. Foreground and bold are invisible on a space and do not count.
pub fn paints_nothing(line: &[char], style: &[Cell]) -> (r: bool)
    ensures
        r == blank(line@, style@),
{
    let mut i: usize = 0;
    while i < line.len()
        invariant
            i <= line@.len(),
            forall|k: int| 0 <= k < i ==> space_char(#[trigger] line@[k]),
        decreases line@.len() - i,
    {
        if !line[i].is_whitespace() {
            assert(!space_char(line@[i as int]));
            return false;
        }
        i += 1;
    }
    let mut j: usize = 0;
    while j < style.len()
        invariant
            j <= style@.len(),
            forall|k: int| 0 <= k < j ==> !paints_a_space(#[trigger] style@[k]),
        decreases style@.len() - j,
    {
        let c: Cell = style[j];
        if c.bg.is_some() || c.reverse || c.underline {
            assert(paints_a_space(style@[j as int]));
            return false;
        }
        j += 1;
    }
    true
}

fn ends_control(c: char) -> (r: bool)
    ensures
        r == is_final(c),
{
    let u: u32 = c as u32;
    0x40 <= u && u <= 0x7e
}

/// Reads a control sequence whose body starts at `start`: gives the index of its
/// final character, or the length of the text where it has none, and the SGR
/// parameters in front of it.
fn scan_control(ch: &Vec<char>, start: usize) -> (r: (usize, String))
    requires
        start <= ch@.len(),
    ensures
        start <= r.0 <= ch@.len(),
        r.0 - start == control_len(ch@.skip(start as int)),
        r.0 < ch@.len() ==> is_final(ch@[r.0 as int]),
        r.1@ == sgr_params(ch@.skip(start as int).take(r.0 - start)),
{
    let ghost body = ch@.skip(start as int);
    let ghost keep = |c: char| is_digit(c) || is_separator(c);
    let mut params: String = String::new();
    let mut j: usize = start;
    proof {
        reveal(Seq::filter);
        assert(body.take(0).filter(keep) == Seq::<char>::empty());
    }
    while j < ch.len() && !ends_control(ch[j])
        invariant
            start <= j <= ch@.len(),
            body == ch@.skip(start as int),
            keep == |c: char| is_digit(c) || is_separator(c),
            control_len(body) == j - start + control_len(ch@.skip(j as int)),
            params@ == body.take(j - start).filter(keep),
        decreases ch@.len() - j,
    {
        let c: char = ch[j];
        proof {
            reveal(Seq::filter);
            assert(ch@.skip(j as int).skip(1) == ch@.skip(j + 1));
            assert(body.take(j + 1 - start).drop_last() == body.take(j - start));
        }
        if ('0' <= c && c <= '9') || c == ';' || c == ':' {
            params.push(c);
        }
        j += 1;
    }
    (j, params)
}

/// The index right behind an operating system command whose body starts at
/// `start`.
fn scan_command(ch: &Vec<char>, start: usize) -> (r: usize)
    requires
        start <= ch@.len(),
    ensures
        start <= r <= ch@.len(),
        ch@.skip(r as int) == after_command(ch@.skip(start as int)),
{
    let ghost body = ch@.skip(start as int);
    let mut j: usize = start;
    while j < ch.len() && !(ch[j] == BEL || (ch[j] == ESC && j + 1 < ch.len() && ch[j + 1] == '\\'))
        invariant
            start <= j <= ch@.len(),
            body == ch@.skip(start as int),
            command_len(body) == j - start + command_len(ch@.skip(j as int)),
        decreases ch@.len() - j,
    {
        assert(ch@.skip(j as int).skip(1) == ch@.skip(j + 1));
        j += 1;
    }
    assert(command_len(ch@.skip(j as int)) == 0);
    if j < ch.len() {
        if ch[j] == ESC {
            j += 1;
        }
        j += 1;
    }
    assert(ch@.skip(j as int) == after_command(body));
    j
}

/// Reads the text of a dump.
///
/// There is a line more than the text has line feeds, but for the blank lines at
/// the end: a dump ends in whatever was below the last output, and that is dead
/// space. Blank means blank on screen. Spaces with a background, a reverse or an
/// underline are a visible bar and stay.
pub fn parse(text: &str) -> (r: (Vec<Vec<char>>, Vec<Vec<Cell>>))
    ensures
        rows(r.0@) == texts(dump(text@)),
        rows(r.1@) == styles(dump(text@)),
{
    let ch = chars_of(text);
    let mut lines: Vec<Vec<char>> = Vec::new();
    let mut style: Vec<Vec<Cell>> = Vec::new();
    let mut cur_c: Vec<char> = Vec::new();
    let mut cur_s: Vec<Cell> = Vec::new();
    let mut st: Cell = Cell::default();
    let ghost mut done = Seq::<Glyph>::empty();
    let ghost all = shown(ch@, plain_cell());
    let mut i: usize = 0;
    proof {
        assert(ch@.skip(0) == ch@);
        assert(done + all == all);
        assert(glyph_lines(done) == seq![Seq::<Glyph>::empty()]);
        assert(chars_in(Seq::empty()) == cur_c@);
        assert(cells_in(Seq::empty()) == cur_s@);
        assert(texts(glyph_lines(done)) == rows(lines@).push(cur_c@));
        assert(styles(glyph_lines(done)) == rows(style@).push(cur_s@));
    }
    while i < ch.len()
        invariant
            i <= ch@.len(),
            all == done + shown(ch@.skip(i as int), st),
            texts(glyph_lines(done)) == rows(lines@).push(cur_c@),
            styles(glyph_lines(done)) == rows(style@).push(cur_s@),
        decreases ch@.len() - i,
    {
        let c: char = ch[i];
        let ghost here = ch@.skip(i as int);
        assert(here[0] == c);
        assert(here.skip(1) == ch@.skip(i + 1));
        if c == ESC {
            if i + 1 < ch.len() && ch[i + 1] == '[' {
                assert(here.skip(2) == ch@.skip(i + 2));
                let (j, params) = scan_control(&ch, i + 2);
                let ghost body = here.skip(2);
                if j < ch.len() {
                    assert(body[j - i - 2] == ch@[j as int]);
                    if ch[j] == 'm' {
                        apply_sgr(params.as_str(), &mut st);
                    }
                    i = j + 1;
                    assert(after(body, control_len(body) + 1) == ch@.skip(i as int));
                } else {
                    i = j;
                    assert(after(body, control_len(body) + 1) == ch@.skip(i as int));
                }
            } else if i + 1 < ch.len() && ch[i + 1] == ']' {
                assert(here.skip(2) == ch@.skip(i + 2));
                i = scan_command(&ch, i + 2);
            } else if i + 1 < ch.len() {
                assert(here.skip(2) == ch@.skip(i + 2));
                i += 2;
            } else {
                i += 1;
                assert(after(here, 2) == ch@.skip(i as int));
            }
        } else if c == '\r' {
            i += 1;
        } else {
            let ghost before = glyph_lines(done);
            let ghost next = done.push((c, st));
            proof {
                lemma_split_nonempty(done, |g: Glyph| g.0 == '\n');
                assert(next.drop_last() == done);
                assert(done + (seq![(c, st)] + shown(here.skip(1), st)) == next + shown(
                    here.skip(1),
                    st,
                ));
            }
            let ghost old_lines = lines@;
            let ghost old_style = style@;
            let ghost old_c = cur_c@;
            let ghost old_s = cur_s@;
            if c == '\n' {
                lines.push(cur_c);
                style.push(cur_s);
                cur_c = Vec::new();
                cur_s = Vec::new();
                proof {
                    assert(glyph_lines(next) == before.push(Seq::empty()));
                    assert(chars_in(Seq::empty()) == cur_c@);
                    assert(cells_in(Seq::empty()) == cur_s@);
                    assert(rows(lines@) == rows(old_lines).push(old_c));
                    assert(rows(style@) == rows(old_style).push(old_s));
                    assert(texts(glyph_lines(next)) == texts(before).push(cur_c@));
                    assert(styles(glyph_lines(next)) == styles(before).push(cur_s@));
                    assert(texts(glyph_lines(next)) == rows(lines@).push(cur_c@));
                    assert(styles(glyph_lines(next)) == rows(style@).push(cur_s@));
                }
            } else {
                cur_c.push(c);
                cur_s.push(st);
                proof {
                    assert(glyph_lines(next) == before.drop_last().push(before.last().push((c, st))));
                    assert(chars_in(before.last()) == texts(before).last());
                    assert(cells_in(before.last()) == styles(before).last());
                    assert(texts(before).drop_last() == rows(lines@));
                    assert(styles(before).drop_last() == rows(style@));
                    assert(chars_in(before.last().push((c, st))) == cur_c@);
                    assert(cells_in(before.last().push((c, st))) == cur_s@);
                    assert(texts(glyph_lines(next)) == texts(before).drop_last().push(cur_c@));
                    assert(styles(glyph_lines(next)) == styles(before).drop_last().push(cur_s@));
                }
            }
            proof {
                done = next;
            }
            i += 1;
        }
    }
    lines.push(cur_c);
    style.push(cur_s);
    let ghost mut kept = glyph_lines(done);
    proof {
        assert(shown(ch@.skip(i as int), st) == Seq::<Glyph>::empty());
        assert(all == done);
        lemma_split_nonempty(done, |g: Glyph| g.0 == '\n');
        assert(texts(kept) == rows(lines@));
        assert(styles(kept) == rows(style@));
    }
    while lines.len() > 1 && paints_nothing(
        lines[lines.len() - 1].as_slice(),
        style[lines.len() - 1].as_slice(),
    )
        invariant
            1 <= kept.len() == lines@.len() == style@.len(),
            texts(kept) == rows(lines@),
            styles(kept) == rows(style@),
            trimmed(kept) == dump(text@),
        decreases lines@.len(),
    {
        proof {
            let n = lines@.len() - 1;
            assert(chars_in(kept.last()) == texts(kept)[n] && texts(kept)[n] == rows(lines@)[n]);
            assert(cells_in(kept.last()) == styles(kept)[n] && styles(kept)[n] == rows(style@)[n]);
            assert(texts(kept.drop_last()) == texts(kept).drop_last());
            assert(styles(kept.drop_last()) == styles(kept).drop_last());
            assert(rows(lines@.drop_last()) == rows(lines@).drop_last());
            assert(rows(style@.drop_last()) == rows(style@).drop_last());
            kept = kept.drop_last();
        }
        lines.pop();
        style.pop();
    }
    proof {
        let n = lines@.len() - 1;
        assert(chars_in(kept.last()) == texts(kept)[n] && texts(kept)[n] == rows(lines@)[n]);
        assert(cells_in(kept.last()) == styles(kept)[n] && styles(kept)[n] == rows(style@)[n]);
    }
    (lines, style)
}

/// What `String::from_utf8_lossy` makes of bytes that are not valid UTF-8.
pub uninterp spec fn repaired(bytes: Seq<u8>) -> Seq<char>;

/// The text in the bytes of a dump.
pub open spec fn decoded(bytes: Seq<u8>) -> Seq<char> {
    if valid_utf8(bytes) {
        decode_utf8(bytes)
    } else {
        repaired(bytes)
    }
}

/// `String::from_utf8_lossy` gives the text that valid UTF-8 encodes. For other
/// bytes, in which it puts replacement characters, its result has a name.
#[verifier::external_body]
fn lossy_text(raw: &[u8]) -> (r: String)
    ensures
        valid_utf8(raw@) ==> r@ == decode_utf8(raw@),
        !valid_utf8(raw@) ==> r@ == repaired(raw@),
{
    String::from_utf8_lossy(raw).into_owned()
}

/// Parses the bytes of a dump, escapes and all, into plain characters and a
/// parallel map of cells.
pub fn load(raw: &[u8]) -> (r: (Vec<Vec<char>>, Vec<Vec<Cell>>))
    ensures
        rows(r.0@) == texts(dump(decoded(raw@))),
        rows(r.1@) == styles(dump(decoded(raw@))),
{
    let text = lossy_text(raw);
    parse(text.as_str())
}

// ---- laws ----
proof fn lemma_trimmed(lines: Seq<Seq<Glyph>>)
    requires
        lines.len() > 0,
    ensures
        1 <= trimmed(lines).len() <= lines.len(),
        trimmed(lines) == lines.take(trimmed(lines).len() as int),
        trimmed(lines).len() > 1 ==> !blank_line(trimmed(lines).last()),
        forall|i: int|
            trimmed(lines).len() <= i < lines.len() ==> blank_line(#[trigger] lines[i]),
    decreases lines.len(),
{
    if lines.len() > 1 && blank_line(lines.last()) {
        let fewer = lines.drop_last();
        lemma_trimmed(fewer);
        assert(trimmed(fewer) == lines.take(trimmed(lines).len() as int));
        assert forall|i: int| trimmed(lines).len() <= i < lines.len() implies blank_line(
            #[trigger] lines[i],
        ) by {
            if i < fewer.len() {
                assert(fewer[i] == lines[i]);
            }
        }
    } else {
        assert(lines.take(lines.len() as int) == lines);
    }
}

/// A dump has at least one line.
///
/// The blank lines at its end, and no others, are left out: what is left is the
/// beginning of all the lines, every line behind it is blank, and the last one
/// that is left is not, unless it is the only one.
pub proof fn law_blank_tail_is_trimmed(text: Seq<char>)
    ensures
        ({
            let all = glyph_lines(shown(text, plain_cell()));
            let kept = dump(text);
            &&& 1 <= kept.len() <= all.len()
            &&& kept == all.take(kept.len() as int)
            &&& forall|i: int| kept.len() <= i < all.len() ==> blank_line(#[trigger] all[i])
            &&& kept.len() > 1 ==> !blank_line(kept.last())
        }),
{
    let all = shown(text, plain_cell());
    lemma_split_nonempty(all, |g: Glyph| g.0 == '\n');
    lemma_trimmed(glyph_lines(all));
}

/// Spaces alone are blank whatever their foreground; with a background, a reverse
/// or an underline on any of them they are not.
pub proof fn law_a_bar_of_spaces_is_blank_unless_painted(line: Seq<char>, style: Seq<Cell>)
    requires
        forall|i: int| 0 <= i < line.len() ==> #[trigger] line[i] == ' ',
    ensures
        blank(line, style) <==> !exists|i: int|
            0 <= i < style.len() && paints_a_space(#[trigger] style[i]),
{
}

/// There is a cell for every character.
pub proof fn law_a_cell_for_every_character(text: Seq<char>)
    ensures
        texts(dump(text)).len() == styles(dump(text)).len(),
        forall|i: int|
            0 <= i < dump(text).len() ==> (#[trigger] texts(dump(text))[i]).len() == styles(
                dump(text),
            )[i].len(),
{
}

/// Whether a character is one that only steers the terminal.
pub open spec fn steers(c: char) -> bool {
    c == ESC || c == '\r'
}

proof fn lemma_shown_steers_nothing(s: Seq<char>, st: Cell)
    ensures
        forall|i: int| 0 <= i < shown(s, st).len() ==> !steers((#[trigger] shown(s, st)[i]).0),
    decreases s.len(),
{
    if s.len() == 0 {
    } else if s[0] == ESC && s.len() > 1 && s[1] == '[' {
        let body = s.skip(2);
        let next = after(body, control_len(body) + 1);
        lemma_shown_steers_nothing(next, control_style(body, st));
        assert(shown(s, st) == shown(next, control_style(body, st)));
    } else if s[0] == ESC && s.len() > 1 && s[1] == ']' {
        lemma_shown_steers_nothing(after_command(s.skip(2)), st);
        assert(shown(s, st) == shown(after_command(s.skip(2)), st));
    } else if s[0] == ESC {
        lemma_shown_steers_nothing(after(s, 2), st);
        assert(shown(s, st) == shown(after(s, 2), st));
    } else if s[0] == '\r' {
        lemma_shown_steers_nothing(s.skip(1), st);
        assert(shown(s, st) == shown(s.skip(1), st));
    } else {
        let rest = shown(s.skip(1), st);
        lemma_shown_steers_nothing(s.skip(1), st);
        assert forall|i: int| 0 <= i < shown(s, st).len() implies !steers(
            (#[trigger] shown(s, st)[i]).0,
        ) by {
            if i > 0 {
                assert(shown(s, st)[i] == rest[i - 1]);
            }
        }
    }
}

proof fn lemma_lines_hold_shown(glyphs: Seq<Glyph>)
    ensures
        forall|i: int, j: int|
            #![trigger glyph_lines(glyphs)[i][j]]
            0 <= i < glyph_lines(glyphs).len() && 0 <= j < glyph_lines(glyphs)[i].len()
                ==> glyph_lines(glyphs)[i][j].0 != '\n' && glyphs.contains(
                glyph_lines(glyphs)[i][j],
            ),
    decreases glyphs.len(),
{
    if glyphs.len() > 0 {
        let fewer = glyphs.drop_last();
        let before = glyph_lines(fewer);
        let lines = glyph_lines(glyphs);
        lemma_lines_hold_shown(fewer);
        lemma_split_nonempty(fewer, |g: Glyph| g.0 == '\n');
        assert forall|i: int, j: int|
            #![trigger lines[i][j]]
            0 <= i < lines.len() && 0 <= j < lines[i].len() implies lines[i][j].0 != '\n'
            && glyphs.contains(lines[i][j]) by {
            if i < before.len() && j < before[i].len() {
                assert(lines[i][j] == before[i][j]);
                let k = choose|k: int| 0 <= k < fewer.len() && fewer[k] == before[i][j];
                assert(glyphs[k] == lines[i][j]);
            } else {
                assert(lines[i][j] == glyphs.last());
                assert(glyphs[glyphs.len() - 1] == lines[i][j]);
            }
        }
    }
}

/// The lines hold plain text: no escape, no carriage return and no line feed is
/// in any of them.
pub proof fn law_lines_hold_no_escapes(text: Seq<char>)
    ensures
        forall|i: int, j: int|
            #![trigger texts(dump(text))[i][j]]
            0 <= i < texts(dump(text)).len() && 0 <= j < texts(dump(text))[i].len() ==> texts(
                dump(text),
            )[i][j] != '\n' && texts(dump(text))[i][j] != '\u{1b}' && texts(dump(text))[i][j] != '\r',
{
    let all = shown(text, plain_cell());
    let lines = glyph_lines(all);
    lemma_shown_steers_nothing(text, plain_cell());
    lemma_lines_hold_shown(all);
    law_blank_tail_is_trimmed(text);
    assert forall|i: int, j: int|
        #![trigger texts(dump(text))[i][j]]
        0 <= i < texts(dump(text)).len() && 0 <= j < texts(dump(text))[i].len() implies texts(
        dump(text),
    )[i][j] != '\n' && !steers(texts(dump(text))[i][j]) by {
        assert(dump(text)[i] == lines[i]);
        assert(texts(dump(text))[i][j] == lines[i][j].0);
        let k = choose|k: int| 0 <= k < all.len() && all[k] == lines[i][j];
        assert(!steers(all[k].0));
    }
}

/// The colours are a layer of their own: whatever style the text starts in, the
/// characters that it shows are the same.
pub proof fn law_style_never_changes_the_text(s: Seq<char>, a: Cell, b: Cell)
    ensures
        chars_in(shown(s, a)) == chars_in(shown(s, b)),
    decreases s.len(),
{
    if s.len() == 0 {
    } else if s[0] == ESC && s.len() > 1 && s[1] == '[' {
        let body = s.skip(2);
        law_style_never_changes_the_text(
            after(body, control_len(body) + 1),
            control_style(body, a),
            control_style(body, b),
        );
    } else if s[0] == ESC && s.len() > 1 && s[1] == ']' {
        law_style_never_changes_the_text(after_command(s.skip(2)), a, b);
    } else if s[0] == ESC {
        law_style_never_changes_the_text(after(s, 2), a, b);
    } else {
        law_style_never_changes_the_text(s.skip(1), a, b);
        if s[0] != '\r' {
            assert(chars_in(shown(s, a)) == seq![s[0]] + chars_in(shown(s.skip(1), a)));
            assert(chars_in(shown(s, b)) == seq![s[0]] + chars_in(shown(s.skip(1), b)));
        }
    }
}

proof fn lemma_control_len(params: Seq<char>, end: char, rest: Seq<char>)
    requires
        is_final(end),
        forall|i: int| 0 <= i < params.len() ==> !is_final(#[trigger] params[i]),
    ensures
        control_len(params.push(end) + rest) == params.len(),
    decreases params.len(),
{
    let body = params.push(end) + rest;
    if params.len() > 0 {
        assert(!is_final(params[0]));
        assert(body.skip(1) == params.skip(1).push(end) + rest);
        lemma_control_len(params.skip(1), end, rest);
    }
}

/// A control sequence shows nothing. One that ends in `m` hands its parameters to
/// SGR; any other, one that would move the cursor among them, is ignored.
pub proof fn law_control_sequences_show_nothing(
    params: Seq<char>,
    end: char,
    rest: Seq<char>,
    st: Cell,
)
    requires
        0x40 <= end as int <= 0x7e,
        forall|i: int|
            0 <= i < params.len() ==> !(0x40 <= (#[trigger] params[i]) as int <= 0x7e),
    ensures
        shown(seq!['\u{1b}', '['] + params.push(end) + rest, st) == if end == 'm' {
            shown(rest, sgr(sgr_params(params), st))
        } else {
            shown(rest, st)
        },
{
    let s = seq![ESC, '['] + params.push(end) + rest;
    let body = params.push(end) + rest;
    assert forall|i: int| 0 <= i < params.len() implies !is_final(#[trigger] params[i]) by {
        assert(!(0x40 <= params[i] as int <= 0x7e));
    }
    lemma_control_len(params, end, rest);
    assert(s.skip(2) == body);
    assert(after(body, params.len() + 1) == rest);
    assert(body.take(params.len() as int) == params);
}

/// Text without escapes and carriage returns is shown as it is, all of it in the
/// style that it starts in, and whatever follows is read as if it stood alone.
pub proof fn law_plain_text_is_shown_as_it_is(plain: Seq<char>, rest: Seq<char>, st: Cell)
    requires
        forall|i: int| 0 <= i < plain.len() ==> #[trigger] plain[i] != '\u{1b}' && plain[i] != '\r',
    ensures
        shown(plain + rest, st) == plain.map_values(|c: char| (c, st)) + shown(rest, st),
    decreases plain.len(),
{
    let glyphs = plain.map_values(|c: char| (c, st));
    if plain.len() == 0 {
        assert(plain + rest == rest);
        assert(glyphs + shown(rest, st) == shown(rest, st));
    } else {
        let fewer = plain.skip(1);
        assert(plain[0] != '\u{1b}' && plain[0] != '\r');
        assert forall|i: int| 0 <= i < fewer.len() implies #[trigger] fewer[i] != '\u{1b}'
            && fewer[i] != '\r' by {
            assert(fewer[i] == plain[i + 1]);
        }
        assert((plain + rest).skip(1) == fewer + rest);
        law_plain_text_is_shown_as_it_is(fewer, rest, st);
        assert(glyphs == seq![(plain[0], st)] + fewer.map_values(|c: char| (c, st)));
        assert(shown(plain + rest, st) == glyphs + shown(rest, st));
    }
}

proof fn lemma_command_len(body: Seq<char>, rest: Seq<char>)
    requires
        ends_command(rest),
        forall|i: int|
            0 <= i < body.len() ==> #[trigger] body[i] != BEL && !(body[i] == ESC && (body + rest)[i
                + 1] == '\\'),
    ensures
        command_len(body + rest) == body.len(),
    decreases body.len(),
{
    if body.len() == 0 {
        assert(body + rest == rest);
    } else {
        let fewer = body.skip(1);
        assert(body[0] != BEL && !(body[0] == ESC && (body + rest)[1] == '\\'));
        assert((body + rest).skip(1) == fewer + rest);
        assert forall|i: int| 0 <= i < fewer.len() implies #[trigger] fewer[i] != BEL && !(fewer[i]
            == ESC && (fewer + rest)[i + 1] == '\\') by {
            assert(fewer[i] == body[i + 1]);
            assert((fewer + rest)[i + 1] == (body + rest)[i + 2]);
        }
        lemma_command_len(fewer, rest);
    }
}

/// An operating system command shows nothing and changes no style, whether a bell
/// ends it or `ESC \` does, the first of either.
pub proof fn law_commands_show_nothing(body: Seq<char>, rest: Seq<char>, st: Cell)
    requires
        forall|i: int|
            0 <= i < body.len() ==> #[trigger] body[i] != '\u{7}' && !(body[i] == '\u{1b}' && i + 1
                < body.len() && body[i + 1] == '\\'),
    ensures
        shown(seq!['\u{1b}', ']'] + body + seq!['\u{7}'] + rest, st) == shown(rest, st),
        shown(seq!['\u{1b}', ']'] + body + seq!['\u{1b}', '\\'] + rest, st) == shown(rest, st),
{
    let bell = seq![BEL] + rest;
    let with_bell = seq![ESC, ']'] + body + seq![BEL] + rest;
    assert forall|i: int| 0 <= i < body.len() implies #[trigger] body[i] != BEL && !(body[i] == ESC
        && (body + bell)[i + 1] == '\\') by {
        if i + 1 == body.len() {
            assert((body + bell)[i + 1] == BEL);
        }
    }
    lemma_command_len(body, bell);
    assert(with_bell.skip(2) == body + bell);
    assert(after(with_bell.skip(2), body.len() + 1) == rest);
    let escape = seq![ESC, '\\'] + rest;
    let with_escape = seq![ESC, ']'] + body + seq![ESC, '\\'] + rest;
    assert forall|i: int| 0 <= i < body.len() implies #[trigger] body[i] != BEL && !(body[i] == ESC
        && (body + escape)[i + 1] == '\\') by {
        if i + 1 == body.len() {
            assert((body + escape)[i + 1] == ESC);
        }
    }
    lemma_command_len(body, escape);
    assert(with_escape.skip(2) == body + escape);
    assert(after(with_escape.skip(2), body.len() + 2) == rest);
}

/// Any other escape takes one character with it, and both show nothing.
pub proof fn law_short_escapes_show_nothing(c: char, rest: Seq<char>, st: Cell)
    requires
        c != '[',
        c != ']',
    ensures
        shown(seq!['\u{1b}', c] + rest, st) == shown(rest, st),
{
    assert(after(seq![ESC, c] + rest, 2) == rest);
}

/// A carriage return shows nothing and changes no style.
pub proof fn law_a_carriage_return_shows_nothing(rest: Seq<char>, st: Cell)
    ensures
        shown(seq!['\r'] + rest, st) == shown(rest, st),
{
    assert((seq!['\r'] + rest).skip(1) == rest);
}

proof fn lemma_no_final(body: Seq<char>)
    requires
        forall|i: int| 0 <= i < body.len() ==> !is_final(#[trigger] body[i]),
    ensures
        control_len(body) == body.len(),
    decreases body.len(),
{
    if body.len() > 0 {
        assert(!is_final(body[0]));
        lemma_no_final(body.skip(1));
    }
}

proof fn lemma_no_end(body: Seq<char>)
    requires
        forall|i: int|
            0 <= i < body.len() ==> #[trigger] body[i] != BEL && !(body[i] == ESC && i + 1
                < body.len() && body[i + 1] == '\\'),
    ensures
        command_len(body) == body.len(),
    decreases body.len(),
{
    if body.len() > 0 {
        let fewer = body.skip(1);
        assert(body[0] != BEL && !(body[0] == ESC && 1 < body.len() && body[1] == '\\'));
        assert forall|i: int| 0 <= i < fewer.len() implies #[trigger] fewer[i] != BEL && !(fewer[i]
            == ESC && i + 1 < fewer.len() && fewer[i + 1] == '\\') by {
            assert(fewer[i] == body[i + 1]);
        }
        lemma_no_end(fewer);
    }
}

/// An escape that the text cuts off shows nothing to the end: a control sequence
/// without a final character, a command without an end, and an `ESC` that is last.
pub proof fn law_an_escape_that_is_cut_off_shows_nothing(body: Seq<char>, st: Cell)
    ensures
        shown(seq!['\u{1b}'], st) == Seq::<Glyph>::empty(),
        (forall|i: int| 0 <= i < body.len() ==> !(0x40 <= (#[trigger] body[i]) as int <= 0x7e))
            ==> shown(seq!['\u{1b}', '['] + body, st) == Seq::<Glyph>::empty(),
        (forall|i: int|
            0 <= i < body.len() ==> #[trigger] body[i] != '\u{7}' && !(body[i] == '\u{1b}' && i + 1
                < body.len() && body[i + 1] == '\\')) ==> shown(seq!['\u{1b}', ']'] + body, st)
            == Seq::<Glyph>::empty(),
{
    let none = Seq::<char>::empty();
    assert(shown(none, st) == Seq::<Glyph>::empty());
    assert(after(seq![ESC], 2) == none);
    if forall|i: int| 0 <= i < body.len() ==> !(0x40 <= (#[trigger] body[i]) as int <= 0x7e) {
        assert forall|i: int| 0 <= i < body.len() implies !is_final(#[trigger] body[i]) by {
            assert(!(0x40 <= body[i] as int <= 0x7e));
        }
        lemma_no_final(body);
        assert((seq![ESC, '['] + body).skip(2) == body);
        assert(shown(none, control_style(body, st)) == Seq::<Glyph>::empty());
    }
    if forall|i: int|
        0 <= i < body.len() ==> #[trigger] body[i] != '\u{7}' && !(body[i] == '\u{1b}' && i + 1
            < body.len() && body[i + 1] == '\\') {
        lemma_no_end(body);
        assert((seq![ESC, ']'] + body).skip(2) == body);
    }
}

proof fn lemma_filter_concat(a: Seq<char>, b: Seq<char>, keep: spec_fn(char) -> bool)
    ensures
        (a + b).filter(keep) == a.filter(keep) + b.filter(keep),
    decreases b.len(),
{
    reveal(Seq::filter);
    if b.len() == 0 {
        assert(a + b == a);
        assert(a.filter(keep) + b.filter(keep) == a.filter(keep));
    } else {
        lemma_filter_concat(a, b.drop_last(), keep);
        assert((a + b).drop_last() == a + b.drop_last());
        assert((a + b).filter(keep) == a.filter(keep) + b.filter(keep));
    }
}

/// Of a control sequence, the digits, semicolons and colons count as parameters, in
/// their order, and nothing else does.
pub proof fn law_what_counts_as_a_parameter(a: Seq<char>, b: Seq<char>, c: char)
    ensures
        sgr_params(a + b) == sgr_params(a) + sgr_params(b),
        sgr_params(Seq::empty()) == Seq::<char>::empty(),
        '0' <= c <= '9' || c == ';' || c == ':' ==> sgr_params(seq![c]) == seq![c],
        !('0' <= c <= '9' || c == ';' || c == ':') ==> sgr_params(seq![c]) == Seq::<char>::empty(),
{
    let keep = |c: char| is_digit(c) || is_separator(c);
    lemma_filter_concat(a, b, keep);
    reveal(Seq::filter);
    assert(Seq::<char>::empty().filter(keep) == Seq::<char>::empty());
    assert(seq![c].drop_last() == Seq::<char>::empty());
    assert(seq![c].drop_last().filter(keep) == Seq::<char>::empty());
}

/// A line feed ends a line and starts the next; what holds none is one line.
pub proof fn law_line_feeds_cut_the_lines_apart(a: Seq<Glyph>, st: Cell, b: Seq<Glyph>)
    ensures
        glyph_lines(a.push(('\n', st)) + b) == glyph_lines(a) + glyph_lines(b),
        (forall|i: int| 0 <= i < a.len() ==> (#[trigger] a[i]).0 != '\n') ==> glyph_lines(a)
            == seq![a],
{
    let feed = |g: Glyph| g.0 == '\n';
    lemma_split_at_separator(a, ('\n', st), b, feed);
    if forall|i: int| 0 <= i < a.len() ==> (#[trigger] a[i]).0 != '\n' {
        law_without_separators_nothing_is_split(a, feed);
    }
}

/// A line is blank if and only if each of its characters is white space and none of
/// its cells has a background, whatever its colour, a reverse or an underline.
pub proof fn law_what_is_blank_on_screen(line: Seq<Glyph>)
    ensures
        blank_line(line) <==> forall|i: int|
            0 <= i < line.len() ==> space_char((#[trigger] line[i]).0) && line[i].1.bg is None
                && !line[i].1.reverse && !line[i].1.underline,
{
    let chars = chars_in(line);
    let cells = cells_in(line);
    if blank_line(line) {
        assert forall|i: int| 0 <= i < line.len() implies space_char((#[trigger] line[i]).0)
            && line[i].1.bg is None && !line[i].1.reverse && !line[i].1.underline by {
            assert(space_char(chars[i]) && !paints_a_space(cells[i]));
        }
    }
    if forall|i: int|
        0 <= i < line.len() ==> space_char((#[trigger] line[i]).0) && line[i].1.bg is None
            && !line[i].1.reverse && !line[i].1.underline {
        assert forall|i: int| 0 <= i < chars.len() implies space_char(#[trigger] chars[i]) by {
            assert(space_char(line[i].0));
        }
        assert forall|i: int| 0 <= i < cells.len() implies !paints_a_space(#[trigger] cells[i]) by {
            assert(line[i].1.bg is None);
        }
    }
}

/// The same of the characters and the cells of a line, however many of either there
/// are: a single character that is no white space, a single background of any
/// colour, palette or truecolour, a single reverse or underline makes it visible.
pub proof fn law_anything_visible_is_not_blank(line: Seq<char>, style: Seq<Cell>, k: int)
    ensures
        0 <= k < style.len() && style[k].bg is Some ==> !blank(line, style),
        0 <= k < style.len() && style[k].reverse ==> !blank(line, style),
        0 <= k < style.len() && style[k].underline ==> !blank(line, style),
        0 <= k < line.len() && !space_char(line[k]) ==> !blank(line, style),
        (forall|i: int| 0 <= i < line.len() ==> space_char(#[trigger] line[i])) && (forall|i: int|
            0 <= i < style.len() ==> (#[trigger] style[i]).bg is None && !style[i].reverse
                && !style[i].underline) ==> blank(line, style),
{
    if 0 <= k < style.len() && (style[k].bg is Some || style[k].reverse || style[k].underline) {
        assert(paints_a_space(style[k]));
    }
    if forall|i: int|
        0 <= i < style.len() ==> (#[trigger] style[i]).bg is None && !style[i].reverse
            && !style[i].underline {
        assert forall|i: int| 0 <= i < style.len() implies !paints_a_space(#[trigger] style[i]) by {
            assert(style[i].bg is None);
        }
    }
}

/// A line that shows anything is never trimmed, nor is any line in front of one: a
/// line with a character other than white space, or with a cell that has a
/// background of any colour, a reverse or an underline.
pub proof fn law_nothing_visible_is_trimmed(text: Seq<char>, i: int, k: int)
    requires
        ({
            let all = glyph_lines(shown(text, plain_cell()));
            &&& 0 <= i < all.len()
            &&& 0 <= k < all[i].len()
            &&& !space_char(all[i][k].0) || all[i][k].1.bg is Some || all[i][k].1.reverse
                || all[i][k].1.underline
        }),
    ensures
        i < dump(text).len(),
        dump(text)[i] == glyph_lines(shown(text, plain_cell()))[i],
{
    let all = glyph_lines(shown(text, plain_cell()));
    law_blank_tail_is_trimmed(text);
    law_what_is_blank_on_screen(all[i]);
    assert(!blank_line(all[i]));
    assert(dump(text)[i] == all.take(dump(text).len() as int)[i]);
}

/// Each line of text, and of cells, is that of the line's glyphs, one for one.
pub proof fn law_texts_and_styles_go_glyph_by_glyph(lines: Seq<Seq<Glyph>>, i: int, k: int)
    ensures
        texts(lines).len() == lines.len(),
        styles(lines).len() == lines.len(),
        0 <= i < lines.len() ==> texts(lines)[i].len() == lines[i].len() && styles(lines)[i].len()
            == lines[i].len(),
        0 <= i < lines.len() && 0 <= k < lines[i].len() ==> texts(lines)[i][k] == lines[i][k].0
            && styles(lines)[i][k] == lines[i][k].1,
{
}

/// Text that is encoded as UTF-8 is decoded to itself.
pub proof fn law_encoded_text_is_decoded_again(text: Seq<char>, bytes: Seq<u8>)
    ensures
        decoded(encode_utf8(text)) == text,
        valid_utf8(bytes) ==> decoded(bytes) == decode_utf8(bytes),
{
    encode_utf8_valid_utf8(text);
    encode_utf8_decode_utf8(text);
}

} // verus!
