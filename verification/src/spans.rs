//! The sidecar: the colours that travel beside the plain text.
//!
//! One record a line, `line TAB byte_start TAB byte_end TAB fg TAB bg TAB flags`.
//! Lines count from 0, `byte_end` is exclusive, offsets are bytes of UTF-8, colours
//! are `-`, `iN` or `#rrggbb`, and the flags are some of `biur`.
use crate::app::{App, AppView};
use crate::cell::{plain_cell, Cell, Color};
use crate::seqs::{law_without_separators_nothing_is_split, lemma_split_at_separator, picked, split};
use crate::text::{
    decimal, hex, hex_worth, law_decimal_is_worth_its_number, law_hex_is_worth_its_byte, push_decimal,
    push_hex,
};
use vstd::prelude::*;
use vstd::string::StringExecFns;
use vstd::utf8::{encode_scalar, encode_utf8};

verus! {

// ---- the runs of a line ----
/// A run of columns in one style, `end` exclusive.
pub struct Run {
    pub start: int,
    pub end: int,
    pub cell: Cell,
}

/// The runs of a line, plain ones left out: a column goes to the run that ends in
/// front of it if they look the same, and otherwise starts a run of its own.
pub open spec fn runs(cells: Seq<Cell>) -> Seq<Run>
    decreases cells.len(),
{
    if cells.len() == 0 {
        Seq::empty()
    } else {
        let before = runs(cells.drop_last());
        let n = cells.len() - 1;
        let cell = cells.last();
        if cell == plain_cell() {
            before
        } else if before.len() > 0 && before.last().end == n && before.last().cell == cell {
            before.drop_last().push(Run { start: before.last().start, end: n + 1, cell })
        } else {
            before.push(Run { start: n, end: n + 1, cell })
        }
    }
}

/// How many bytes of UTF-8 stand in front of a column.
pub open spec fn bytes_before(line: Seq<char>, col: int) -> nat {
    encode_utf8(line.take(col)).len()
}

// ---- the records ----
pub open spec fn colour_text(colour: Option<Color>) -> Seq<char> {
    match colour {
        None => seq!['-'],
        Some(Color::AnsiValue(n)) => seq!['i'] + decimal(n as nat),
        Some(Color::Rgb { r, g, b }) => seq!['#'] + hex(r) + hex(g) + hex(b),
    }
}

pub open spec fn flag(on: bool, c: char) -> Seq<char> {
    if on {
        seq![c]
    } else {
        Seq::empty()
    }
}

pub open spec fn flags_text(cell: Cell) -> Seq<char> {
    flag(cell.bold, 'b') + flag(cell.italic, 'i') + flag(cell.underline, 'u') + flag(
        cell.reverse,
        'r',
    )
}

/// The record of a range of bytes of a line.
pub open spec fn record(li: int, start: nat, end: nat, cell: Cell) -> Seq<char> {
    decimal(li as nat) + seq!['\t'] + decimal(start) + seq!['\t'] + decimal(end) + seq!['\t']
        + colour_text(cell.fg) + seq!['\t'] + colour_text(cell.bg) + seq!['\t'] + flags_text(cell)
        + seq!['\n']
}

/// The records of the runs of a line.
pub open spec fn records(li: int, line: Seq<char>, runs: Seq<Run>) -> Seq<char>
    decreases runs.len(),
{
    if runs.len() == 0 {
        Seq::empty()
    } else {
        let run = runs.last();
        records(li, line, runs.drop_last()) + record(
            li,
            bytes_before(line, run.start),
            bytes_before(line, run.end),
            run.cell,
        )
    }
}

impl AppView {
    /// The cells of a line's characters.
    pub open spec fn cells_of(self, li: int) -> Seq<Cell> {
        Seq::new(self.lines[li].len(), |col: int| self.cell_at(li, col))
    }

    /// The records of the first `n` lines.
    pub open spec fn sidecar_of(self, n: int) -> Seq<char>
        decreases n,
    {
        if n <= 0 {
            Seq::empty()
        } else {
            self.sidecar_of(n - 1) + records(
                n - 1,
                self.lines[n - 1],
                runs(self.cells_of(n - 1)),
            )
        }
    }

    /// The sidecar of the text.
    pub open spec fn sidecar_text(self) -> Seq<char> {
        self.sidecar_of(self.lines.len() as int)
    }
}

fn push_colour(out: &mut String, colour: Option<Color>)
    ensures
        final(out)@ == old(out)@ + colour_text(colour),
{
    let ghost start = out@;
    match colour {
        None => out.push('-'),
        Some(Color::AnsiValue(n)) => {
            out.push('i');
            push_decimal(out, n as u128);
        },
        Some(Color::Rgb { r, g, b }) => {
            out.push('#');
            push_hex(out, r);
            push_hex(out, g);
            push_hex(out, b);
        },
    }
    assert(out@ == start + colour_text(colour));
}

fn push_flag(out: &mut String, on: bool, c: char)
    ensures
        final(out)@ == old(out)@ + flag(on, c),
{
    let ghost start = out@;
    if on {
        out.push(c);
    }
    assert(out@ == start + flag(on, c));
}

fn push_flags(out: &mut String, cell: Cell)
    ensures
        final(out)@ == old(out)@ + flags_text(cell),
{
    let ghost start = out@;
    push_flag(out, cell.bold, 'b');
    push_flag(out, cell.italic, 'i');
    push_flag(out, cell.underline, 'u');
    push_flag(out, cell.reverse, 'r');
    assert(out@ == start + flags_text(cell));
}

fn push_one(out: &mut String, c: char)
    ensures
        final(out)@ == old(out)@ + seq![c],
{
    let ghost start = out@;
    out.push(c);
    assert(out@ == start + seq![c]);
}

fn push_record(out: &mut String, li: usize, start: u128, end: u128, cell: Cell)
    ensures
        final(out)@ == old(out)@ + record(li as int, start as nat, end as nat, cell),
{
    let mut rec: String = String::new();
    push_decimal(&mut rec, li as u128);
    assert(rec@ == decimal(li as nat));
    push_one(&mut rec, '\t');
    push_decimal(&mut rec, start);
    push_one(&mut rec, '\t');
    push_decimal(&mut rec, end);
    push_one(&mut rec, '\t');
    push_colour(&mut rec, cell.fg);
    push_one(&mut rec, '\t');
    push_colour(&mut rec, cell.bg);
    push_one(&mut rec, '\t');
    push_flags(&mut rec, cell);
    push_one(&mut rec, '\n');
    out.append(rec.as_str());
}

proof fn lemma_encode_push(s: Seq<char>, c: char)
    ensures
        encode_utf8(s.push(c)) == encode_utf8(s) + encode_scalar(c as u32),
    decreases s.len(),
{
    let longer = s.push(c);
    if s.len() == 0 {
        assert(longer.drop_first() == Seq::<char>::empty());
        assert(encode_utf8(longer.drop_first()) == Seq::<u8>::empty());
    } else {
        lemma_encode_push(s.drop_first(), c);
        assert(longer.drop_first() == s.drop_first().push(c));
    }
    assert(encode_utf8(longer) == encode_utf8(s) + encode_scalar(c as u32));
}

/// How many bytes of UTF-8 a character takes.
fn utf8_width(c: char) -> (r: u128)
    ensures
        r == encode_scalar(c as u32).len(),
        1 <= r <= 4,
{
    let u: u32 = c as u32;
    if u < 0x80 {
        1
    } else if u < 0x800 {
        2
    } else if u < 0x10000 {
        3
    } else {
        4
    }
}

impl App {
    /// Appends the records of a line.
    fn push_line(&self, out: &mut String, li: usize)
        requires
            li < self.lines@.len(),
        ensures
            final(out)@ == old(out)@ + records(
                li as int,
                self@.lines[li as int],
                runs(self@.cells_of(li as int)),
            ),
    {
        let ghost before = out@;
        let ghost v = self@;
        let line = &self.lines[li];
        let ghost cells = v.cells_of(li as int);
        assert(v.lines[li as int] == line@);
        let mut cur: Cell = Cell::default();
        let mut start: u128 = 0;
        let mut at: u128 = 0;
        let ghost mut closed = Seq::<Run>::empty();
        let ghost mut from: int = 0;
        let mut col: usize = 0;
        proof {
            assert(cells.take(0) == Seq::<Cell>::empty());
            assert(line@.take(0) == Seq::<char>::empty());
            assert(before + records(li as int, line@, closed) == before);
        }
        let n: usize = line.len();
        while col < n
            invariant
                col <= n == line@.len(),
                li < self.lines@.len(),
                v == self@,
                v.lines[li as int] == line@,
                cells == v.cells_of(li as int),
                at == bytes_before(line@, col as int),
                at <= 4 * col,
                start == bytes_before(line@, from),
                start <= at,
                out@ == before + records(li as int, line@, closed),
                cur == plain_cell() ==> runs(cells.take(col as int)) == closed,
                cur != plain_cell() ==> runs(cells.take(col as int)) == closed.push(
                    Run { start: from, end: col as int, cell: cur },
                ),
                cur == plain_cell() ==> closed.len() == 0 || closed.last().end < col,
            decreases n - col,
        {
            let cell: Cell = if li < self.style.len() && col < self.style[li].len() {
                self.style[li][col]
            } else {
                Cell::default()
            };
            let ghost seen = cells.take(col as int);
            let ghost more = cells.take(col + 1);
            proof {
                assert(more.drop_last() == seen);
                assert(li < self.style@.len() ==> v.style[li as int] == self.style@[li as int]@);
                assert(more.last() == cell);
                assert(line@.take(col + 1) == line@.take(col as int).push(line@[col as int]));
                lemma_encode_push(line@.take(col as int), line@[col as int]);
            }
            if cell != cur {
                if cur != Cell::default() {
                    push_record(out, li, start, at, cur);
                    proof {
                        let run = Run { start: from, end: col as int, cell: cur };
                        assert(closed.push(run).drop_last() == closed);
                        assert(out@ == before + records(li as int, line@, closed.push(run)));
                        closed = closed.push(run);
                    }
                }
                cur = cell;
                start = at;
                proof {
                    from = col as int;
                }
            } else {
                proof {
                    if cur != plain_cell() {
                        let run = Run { start: from, end: col as int, cell: cur };
                        assert(closed.push(run).drop_last() == closed);
                    }
                }
            }
            at = at + utf8_width(line[col]);
            col += 1;
        }
        if cur != Cell::default() {
            push_record(out, li, start, at, cur);
            proof {
                let run = Run { start: from, end: col as int, cell: cur };
                assert(closed.push(run).drop_last() == closed);
                assert(out@ == before + records(li as int, line@, closed.push(run)));
            }
        }
        assert(cells.take(col as int) == cells);
    }

    /// The colours of the text, as the sidecar holds them.
    pub fn sidecar(&self) -> (r: String)
        ensures
            r@ == self@.sidecar_text(),
    {
        let mut out: String = String::new();
        let mut li: usize = 0;
        while li < self.lines.len()
            invariant
                li <= self.lines@.len(),
                out@ == self@.sidecar_of(li as int),
            decreases self.lines@.len() - li,
        {
            self.push_line(&mut out, li);
            li += 1;
        }
        out
    }
}

// ---- laws ----
/// Whether a run is one of a line: not empty, within the line, not plain, and in
/// one style.
pub open spec fn is_run(cells: Seq<Cell>, run: Run) -> bool {
    &&& 0 <= run.start < run.end <= cells.len()
    &&& run.cell != plain_cell()
    &&& forall|k: int| run.start <= k < run.end ==> #[trigger] cells[k] == run.cell
}

/// The runs of a line come sorted and never overlap, and two that touch look
/// different: identical neighbours are merged.
pub open spec fn in_order(runs: Seq<Run>) -> bool {
    &&& forall|i: int, j: int|
        #![trigger runs[i], runs[j]]
        0 <= i < j < runs.len() ==> runs[i].end <= runs[j].start
    &&& forall|i: int, j: int|
        #![trigger runs[i], runs[j]]
        0 <= i < j < runs.len() && runs[i].end == runs[j].start ==> runs[i].cell != runs[j].cell
}

/// Whether a run covers a column.
pub open spec fn covers(run: Run, col: int) -> bool {
    run.start <= col < run.end
}

/// The runs of a line are runs of it, sorted, without overlap and merged, and
/// between them they cover every column that is not plain and no other one.
pub proof fn law_runs_cover_what_is_not_plain(cells: Seq<Cell>)
    ensures
        forall|i: int| 0 <= i < runs(cells).len() ==> is_run(cells, #[trigger] runs(cells)[i]),
        in_order(runs(cells)),
        forall|col: int|
            0 <= col < cells.len() ==> (#[trigger] cells[col] != plain_cell() <==> exists|i: int|
                0 <= i < runs(cells).len() && covers(#[trigger] runs(cells)[i], col)),
    decreases cells.len(),
{
    if cells.len() > 0 {
        let fewer = cells.drop_last();
        let before = runs(fewer);
        let all = runs(cells);
        let n = cells.len() - 1;
        law_runs_cover_what_is_not_plain(fewer);
        assert forall|i: int| 0 <= i < all.len() implies is_run(cells, #[trigger] all[i]) by {
            if i < before.len() {
                assert(is_run(fewer, before[i]));
                assert forall|k: int| all[i].start <= k < all[i].end implies #[trigger] cells[k]
                    == all[i].cell by {
                    if k < n {
                        assert(fewer[k] == cells[k]);
                    }
                }
            }
        }
        assert forall|i: int, j: int|
            #![trigger all[i], all[j]]
            0 <= i < j < all.len() implies all[i].end <= all[j].start && (all[i].end == all[j].start
            ==> all[i].cell != all[j].cell) by {
            assert(is_run(fewer, before[i]));
            if j < before.len() {
                assert(before[i].end <= before[j].start);
            }
        }
        assert forall|col: int| 0 <= col < cells.len() implies (#[trigger] cells[col]
            != plain_cell() <==> exists|i: int|
            0 <= i < all.len() && covers(#[trigger] all[i], col)) by {
            if col < n {
                assert(fewer[col] == cells[col]);
                if cells[col] != plain_cell() {
                    let i = choose|i: int|
                        0 <= i < before.len() && covers(#[trigger] before[i], col);
                    assert(covers(all[i], col));
                }
            } else if cells[col] != plain_cell() {
                assert(covers(all[all.len() - 1], col));
            }
            if exists|i: int| 0 <= i < all.len() && covers(#[trigger] all[i], col) {
                let i = choose|i: int| 0 <= i < all.len() && covers(#[trigger] all[i], col);
                assert(is_run(cells, all[i]));
            }
        }
    }
}

/// Counting in bytes keeps the order of the columns, so ranges of bytes are
/// sorted, apart and not empty as the runs are; every character takes one to four.
pub proof fn law_bytes_keep_the_order_of_columns(line: Seq<char>, a: int, b: int)
    requires
        0 <= a <= b <= line.len(),
    ensures
        bytes_before(line, a) + (b - a) <= bytes_before(line, b) <= bytes_before(line, a) + 4 * (b
            - a),
    decreases b - a,
{
    if a < b {
        law_bytes_keep_the_order_of_columns(line, a, b - 1);
        let c = line[b - 1];
        assert(line.take(b) == line.take(b - 1).push(c));
        lemma_encode_push(line.take(b - 1), c);
        assert(1 <= encode_scalar(c as u32).len() <= 4);
    }
}

proof fn lemma_width(c: char)
    ensures
        encode_scalar(c as u32).len() == if (c as int) < 0x80 {
            1int
        } else if (c as int) < 0x800 {
            2
        } else if (c as int) < 0x1_0000 {
            3
        } else {
            4
        },
{
}

/// Offsets are bytes of UTF-8: the first column is at 0, and each character takes
/// one byte in ASCII and two, three or four beyond it.
pub proof fn law_offsets_count_bytes(line: Seq<char>, col: int)
    requires
        0 <= col < line.len(),
    ensures
        bytes_before(line, 0) == 0,
        bytes_before(line, col + 1) == bytes_before(line, col) + if (line[col] as int) < 0x80 {
            1int
        } else if (line[col] as int) < 0x800 {
            2
        } else if (line[col] as int) < 0x1_0000 {
            3
        } else {
            4
        },
{
    assert(line.take(0) == Seq::<char>::empty());
    assert(line.take(col + 1) == line.take(col).push(line[col]));
    lemma_encode_push(line.take(col), line[col]);
    lemma_width(line[col]);
}

/// A colour is `-` where it is the terminal's, `i` and the number of an entry of the
/// palette, or `#` and the three bytes of a truecolour, each as two digits.
pub proof fn law_how_a_colour_is_spelled(n: u8, r: u8, g: u8, b: u8)
    ensures
        colour_text(None) == seq!['-'],
        ({
            let spelled = colour_text(Some(Color::AnsiValue(n)));
            spelled.len() > 1 && spelled[0] == 'i' && spelled.skip(1) == decimal(n as nat)
        }),
        ({
            let spelled = colour_text(Some(Color::Rgb { r, g, b }));
            &&& spelled.len() == 7
            &&& spelled[0] == '#'
            &&& 16 * hex_worth(spelled[1]) + hex_worth(spelled[2]) == r
            &&& 16 * hex_worth(spelled[3]) + hex_worth(spelled[4]) == g
            &&& 16 * hex_worth(spelled[5]) + hex_worth(spelled[6]) == b
            &&& forall|i: int|
                1 <= i < 7 ==> '0' <= #[trigger] spelled[i] <= '9' || 'a' <= spelled[i] <= 'f'
        }),
{
    law_decimal_is_worth_its_number(n as nat);
    law_hex_is_worth_its_byte(r);
    law_hex_is_worth_its_byte(g);
    law_hex_is_worth_its_byte(b);
    assert(colour_text(Some(Color::AnsiValue(n))).skip(1) == decimal(n as nat));
    let spelled = colour_text(Some(Color::Rgb { r, g, b }));
    assert(spelled[1] == hex(r)[0] && spelled[2] == hex(r)[1]);
    assert(spelled[3] == hex(g)[0] && spelled[4] == hex(g)[1]);
    assert(spelled[5] == hex(b)[0] && spelled[6] == hex(b)[1]);
}

/// The flags are those of `biur` whose attribute is on, in this order: bold, italic,
/// underline, reverse.
pub proof fn law_the_flags_are_what_is_on(cell: Cell)
    ensures
        flags_text(cell) == picked(
            seq!['b', 'i', 'u', 'r'],
            |k: int|
                (k == 0 && cell.bold) || (k == 1 && cell.italic) || (k == 2 && cell.underline) || (k
                    == 3 && cell.reverse),
        ),
{
    let all = seq!['b', 'i', 'u', 'r'];
    let on = |k: int|
        (k == 0 && cell.bold) || (k == 1 && cell.italic) || (k == 2 && cell.underline) || (k == 3
            && cell.reverse);
    let three = all.drop_last();
    let two = three.drop_last();
    let one = two.drop_last();
    assert(one.drop_last() == Seq::<char>::empty());
    assert(picked(one.drop_last(), on) == Seq::<char>::empty());
    assert(picked(one, on) == flag(cell.bold, 'b'));
    assert(picked(two, on) == flag(cell.bold, 'b') + flag(cell.italic, 'i'));
    assert(picked(three, on) == flag(cell.bold, 'b') + flag(cell.italic, 'i') + flag(
        cell.underline,
        'u',
    ));
    assert(picked(all, on) == flags_text(cell));
}

/// A field of a record: neither a tab nor a line feed is in it.
spec fn clean(s: Seq<char>) -> bool {
    forall|i: int| 0 <= i < s.len() ==> #[trigger] s[i] != '\t' && s[i] != '\n'
}

proof fn lemma_clean_decimal(n: nat)
    ensures
        clean(decimal(n)),
{
    law_decimal_is_worth_its_number(n);
    assert forall|i: int| 0 <= i < decimal(n).len() implies #[trigger] decimal(n)[i] != '\t'
        && decimal(n)[i] != '\n' by {
        assert('0' <= decimal(n)[i] <= '9');
    }
}

proof fn lemma_clean_colour(colour: Option<Color>)
    ensures
        clean(colour_text(colour)),
{
    let text = colour_text(colour);
    match colour {
        None => {},
        Some(Color::AnsiValue(n)) => {
            lemma_clean_decimal(n as nat);
            assert forall|i: int| 0 <= i < text.len() implies #[trigger] text[i] != '\t' && text[i]
                != '\n' by {
                if i > 0 {
                    assert(text[i] == decimal(n as nat)[i - 1]);
                }
            }
        },
        Some(Color::Rgb { r, g, b }) => {
            law_how_a_colour_is_spelled(0, r, g, b);
            assert forall|i: int| 0 <= i < text.len() implies #[trigger] text[i] != '\t' && text[i]
                != '\n' by {
                if i > 0 {
                    assert('0' <= text[i] <= '9' || 'a' <= text[i] <= 'f');
                }
            }
        },
    }
}

/// One more field behind a tab.
proof fn lemma_one_more_field(before: Seq<char>, fields: Seq<Seq<char>>, field: Seq<char>)
    requires
        split(before, |c: char| c == '\t') == fields,
        forall|i: int| 0 <= i < before.len() ==> #[trigger] before[i] != '\n',
        clean(field),
    ensures
        split(before + seq!['\t'] + field, |c: char| c == '\t') == fields.push(field),
        forall|i: int|
            0 <= i < (before + seq!['\t'] + field).len() ==> #[trigger] (before + seq!['\t']
                + field)[i] != '\n',
{
    let tab = |c: char| c == '\t';
    let whole = before + seq!['\t'] + field;
    assert forall|i: int| 0 <= i < field.len() implies !tab(#[trigger] field[i]) by {
        assert(field[i] != '\t');
    }
    law_without_separators_nothing_is_split(field, tab);
    lemma_split_at_separator(before, '\t', field, tab);
    assert(before.push('\t') + field == whole);
    assert(fields + seq![field] == fields.push(field));
    assert forall|i: int| 0 <= i < whole.len() implies #[trigger] whole[i] != '\n' by {
        if i < before.len() {
            assert(whole[i] == before[i]);
        } else if i > before.len() {
            assert(whole[i] == field[i - before.len() - 1]);
        }
    }
}

/// A record is a line of its own, and comes apart at its tabs into six fields: the
/// line, the first byte and the one behind the last, the two colours, and the flags.
pub proof fn law_a_record_is_six_fields(li: int, start: nat, end: nat, cell: Cell)
    ensures
        ({
            let whole = record(li, start, end, cell);
            let line = whole.drop_last();
            &&& whole.len() > 0
            &&& whole.last() == '\n'
            &&& forall|i: int| 0 <= i < line.len() ==> #[trigger] line[i] != '\n'
            &&& split(line, |c: char| c == '\t') == seq![
                decimal(li as nat),
                decimal(start),
                decimal(end),
                colour_text(cell.fg),
                colour_text(cell.bg),
                flags_text(cell),
            ]
        }),
{
    let tab = |c: char| c == '\t';
    let a = decimal(li as nat);
    lemma_clean_decimal(li as nat);
    lemma_clean_decimal(start);
    lemma_clean_decimal(end);
    lemma_clean_colour(cell.fg);
    lemma_clean_colour(cell.bg);
    assert forall|i: int| 0 <= i < a.len() implies !tab(#[trigger] a[i]) by {
        assert(a[i] != '\t');
    }
    law_without_separators_nothing_is_split(a, tab);
    lemma_one_more_field(a, seq![a], decimal(start));
    let b = a + seq!['\t'] + decimal(start);
    let fb = seq![a].push(decimal(start));
    lemma_one_more_field(b, fb, decimal(end));
    let c = b + seq!['\t'] + decimal(end);
    let fc = fb.push(decimal(end));
    lemma_one_more_field(c, fc, colour_text(cell.fg));
    let d = c + seq!['\t'] + colour_text(cell.fg);
    let fd = fc.push(colour_text(cell.fg));
    lemma_one_more_field(d, fd, colour_text(cell.bg));
    let e = d + seq!['\t'] + colour_text(cell.bg);
    let fe = fd.push(colour_text(cell.bg));
    lemma_one_more_field(e, fe, flags_text(cell));
    let f = e + seq!['\t'] + flags_text(cell);
    assert(record(li, start, end, cell) == f + seq!['\n']);
    assert(record(li, start, end, cell).drop_last() == f);
    assert(fe.push(flags_text(cell)) == seq![
        decimal(li as nat),
        decimal(start),
        decimal(end),
        colour_text(cell.fg),
        colour_text(cell.bg),
        flags_text(cell),
    ]);
}

/// Every run has its record, in the order of the runs, from the byte that its first
/// column starts at to the one that its end does.
pub proof fn law_a_record_for_every_run(li: int, line: Seq<char>, before: Seq<Run>, run: Run)
    ensures
        records(li, line, Seq::empty()) == Seq::<char>::empty(),
        records(li, line, before.push(run)) == records(li, line, before) + record(
            li,
            encode_utf8(line.take(run.start)).len(),
            encode_utf8(line.take(run.end)).len(),
            run.cell,
        ),
{
    assert(before.push(run).drop_last() == before);
}

proof fn lemma_earlier_lines(v: AppView, fewer: AppView, n: int)
    requires
        fewer.lines == v.lines.drop_last(),
        fewer.style == v.style,
        v.lines.len() > 0,
        n < v.lines.len(),
    ensures
        fewer.sidecar_of(n) == v.sidecar_of(n),
    decreases n,
{
    if n > 0 {
        lemma_earlier_lines(v, fewer, n - 1);
        assert(fewer.lines[n - 1] == v.lines[n - 1]);
        assert(fewer.cells_of(n - 1) == v.cells_of(n - 1));
    }
}

/// The sidecar holds the records of every line, one line after another, and of each
/// line those of the runs of its characters' cells. A character without a cell is
/// plain.
pub proof fn law_the_sidecar_goes_line_by_line(v: AppView)
    ensures
        v.lines.len() == 0 ==> v.sidecar_text() == Seq::<char>::empty(),
        v.lines.len() > 0 ==> ({
            let n = v.lines.len() - 1;
            let line = v.lines[n];
            let cells = Seq::new(
                line.len(),
                |col: int|
                    if n < v.style.len() && col < v.style[n].len() {
                        v.style[n][col]
                    } else {
                        plain_cell()
                    },
            );
            v.sidecar_text() == (AppView { lines: v.lines.drop_last(), ..v }).sidecar_text() + records(
                n,
                line,
                runs(cells),
            )
        }),
{
    if v.lines.len() > 0 {
        let fewer = AppView { lines: v.lines.drop_last(), ..v };
        let n = v.lines.len() - 1;
        lemma_earlier_lines(v, fewer, n);
        assert(v.cells_of(n) == Seq::new(
            v.lines[n].len(),
            |col: int|
                if n < v.style.len() && col < v.style[n].len() {
                    v.style[n][col]
                } else {
                    plain_cell()
                },
        ));
    }
}

} // verus!
