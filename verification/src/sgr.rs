//! SGR: the escape parameters that set the style of what follows.
use crate::cell::{plain_cell, Cell, Color};
use crate::seqs::{law_without_separators_nothing_is_split, lemma_split_at_separator, split};
use crate::text::{chars_of, decimal, law_decimal_is_worth_its_number, lemma_worth_push, worth};
use vstd::prelude::*;
use vstd::slice::slice_subrange;

verus! {

// ---- parameters to numbers ----
pub open spec fn is_separator(c: char) -> bool {
    c == ';' || c == ':'
}

pub open spec fn is_digit(c: char) -> bool {
    '0' <= c <= '9'
}

/// The parameter fields: both spellings separate them, `;` and `:`.
pub open spec fn fields(params: Seq<char>) -> Seq<Seq<char>> {
    split(params, |c: char| is_separator(c))
}

pub open spec fn all_digits(s: Seq<char>) -> bool {
    forall|i: int| 0 <= i < s.len() ==> is_digit(#[trigger] s[i])
}

/// The value of a run of decimal digits.
pub open spec fn magnitude(digits: Seq<char>) -> int
    decreases digits.len(),
{
    if digits.len() == 0 {
        0
    } else {
        10 * magnitude(digits.drop_last()) + (digits.last() as int - '0' as int)
    }
}

/// The number that a field spells: decimal digits, at least one, behind an
/// optional sign, within 64 bits. Anything else, the empty field among it,
/// spells none.
pub open spec fn number(field: Seq<char>) -> Option<i64> {
    let signed = field.len() > 0 && (field[0] == '+' || field[0] == '-');
    let digits = if signed {
        field.skip(1)
    } else {
        field
    };
    let value = if signed && field[0] == '-' {
        -magnitude(digits)
    } else {
        magnitude(digits)
    };
    if digits.len() > 0 && all_digits(digits) && i64::MIN <= value <= i64::MAX {
        Some(value as i64)
    } else {
        None
    }
}

/// The codes of a parameter list. An empty list means a single 0.
pub open spec fn codes(params: Seq<char>) -> Seq<Option<i64>> {
    if params.len() == 0 {
        seq![Some(0i64)]
    } else {
        fields(params).map_values(|f: Seq<char>| number(f))
    }
}

/// Reads a field as a number.
pub fn parse_number(field: &[char]) -> (r: Option<i64>)
    ensures
        r == number(field@),
{
    let signed: bool = field.len() > 0 && (field[0] == '+' || field[0] == '-');
    let negative: bool = signed && field[0] == '-';
    let start: usize = if signed { 1 } else { 0 };
    let ghost digits = if signed {
        field@.skip(1)
    } else {
        field@
    };
    if start == field.len() {
        return None;
    }
    let mut i: usize = start;
    let mut value: i128 = 0;
    assert(digits.take(0) == Seq::<char>::empty());
    while i < field.len()
        invariant
            start <= 1,
            start <= i <= field@.len(),
            digits.len() == field@.len() - start,
            forall|k: int| 0 <= k < digits.len() ==> digits[k] == #[trigger] field@[k + start],
            forall|k: int| 0 <= k < i - start ==> is_digit(#[trigger] digits[k]),
            0 <= value <= 0x1_0000_0000_0000_0000,
            value < 0x1_0000_0000_0000_0000 ==> value == magnitude(digits.take(i - start)),
            value == 0x1_0000_0000_0000_0000 ==> magnitude(digits.take(i - start))
                >= 0x1_0000_0000_0000_0000,
            digits == if signed { field@.skip(1) } else { field@ },
            signed == (field@.len() > 0 && (field@[0] == '+' || field@[0] == '-')),
            start == if signed { 1int } else { 0int },
        decreases field@.len() - i,
    {
        let c: char = field[i];
        assert(c == digits[i - start]);
        if c < '0' || '9' < c {
            assert(!is_digit(digits[i - start]));
            return None;
        }
        let digit: i128 = c as i128 - '0' as i128;
        let ghost seen = digits.take(i - start);
        let ghost more = digits.take(i - start + 1);
        assert(more.drop_last() == seen);
        let next: i128 = 10 * value + digit;
        value = if next < 0x1_0000_0000_0000_0000 { next } else { 0x1_0000_0000_0000_0000 };
        i += 1;
    }
    assert(digits.take(i - start) == digits);
    let result: i128 = if negative { -value } else { value };
    if -0x8000_0000_0000_0000 <= result && result <= 0x7fff_ffff_ffff_ffff {
        Some(result as i64)
    } else {
        None
    }
}

/// Reads a parameter list as codes.
pub fn read_codes(params: &str) -> (r: Vec<Option<i64>>)
    ensures
        r@ == codes(params@),
{
    let chars = chars_of(params);
    let mut r: Vec<Option<i64>> = Vec::new();
    if chars.len() == 0 {
        r.push(Some(0));
        return r;
    }
    let ghost sep = |c: char| is_separator(c);
    let mut field: Vec<char> = Vec::new();
    let mut i: usize = 0;
    assert(chars@.take(0) == Seq::<char>::empty());
    assert(r@ == Seq::<Option<i64>>::empty());
    assert(split(chars@.take(0), sep).drop_last().map_values(|f: Seq<char>| number(f)) == r@);
    while i < chars.len()
        invariant
            i <= chars@.len(),
            sep == |c: char| is_separator(c),
            split(chars@.take(i as int), sep).len() > 0,
            r@ == split(chars@.take(i as int), sep).drop_last().map_values(
                |f: Seq<char>| number(f),
            ),
            field@ == split(chars@.take(i as int), sep).last(),
        decreases chars@.len() - i,
    {
        let c: char = chars[i];
        let ghost before = split(chars@.take(i as int), sep);
        assert(chars@.take(i + 1).drop_last() == chars@.take(i as int));
        assert(chars@.take(i + 1).last() == c);
        if c == ';' || c == ':' {
            r.push(parse_number(field.as_slice()));
            assert(before.push(Seq::empty()).drop_last() == before);
            assert(before == before.drop_last().push(before.last()));
            field = Vec::new();
        } else {
            field.push(c);
            assert(before.drop_last().push(field@).drop_last() == before.drop_last());
        }
        i += 1;
    }
    assert(chars@.take(i as int) == params@);
    let ghost all = fields(params@);
    assert(all == all.drop_last().push(all.last()));
    r.push(parse_number(field.as_slice()));
    r
}

// ---- numbers to a style ----
/// The values that the fields hold. A field that spells no number does not count.
pub open spec fn given(codes: Seq<Option<i64>>) -> Seq<i64>
    decreases codes.len(),
{
    if codes.len() == 0 {
        Seq::empty()
    } else {
        match codes[0] {
            Some(v) => seq![v] + given(codes.skip(1)),
            None => given(codes.skip(1)),
        }
    }
}

/// How many fields hold the first `n` values.
pub open spec fn extent(codes: Seq<Option<i64>>, n: nat) -> nat
    decreases codes.len(),
{
    if n == 0 || codes.len() == 0 {
        0
    } else {
        match codes[0] {
            Some(_) => 1 + extent(codes.skip(1), (n - 1) as nat),
            None => 1 + extent(codes.skip(1), n),
        }
    }
}

/// A number brought into the range of a byte.
pub open spec fn to_byte(v: i64) -> u8 {
    if v < 0 {
        0u8
    } else if v > 255 {
        255u8
    } else {
        v as u8
    }
}

/// The colour that the values behind a 38 or a 48 name, and how many of them it
/// takes: `5 n` an entry of the palette, `2 r g b` a truecolour, and nothing else.
pub open spec fn named_colour(vals: Seq<i64>) -> Option<(Color, nat)> {
    if vals.len() >= 2 && vals[0] == 5 {
        Some((Color::AnsiValue(to_byte(vals[1])), 2))
    } else if vals.len() >= 4 && vals[0] == 2 {
        Some((Color::Rgb { r: to_byte(vals[1]), g: to_byte(vals[2]), b: to_byte(vals[3]) }, 4))
    } else {
        None
    }
}

/// The foreground colour of a code: 30 to 37 and, bright, 90 to 97.
pub open spec fn palette_colour(code: int) -> Option<Color> {
    if 30 <= code <= 37 {
        Some(Color::AnsiValue((code - 30) as u8))
    } else if 90 <= code <= 97 {
        Some(Color::AnsiValue((code - 90 + 8) as u8))
    } else {
        None
    }
}

/// What a single code, neither 38 nor 48, makes of a style.
pub open spec fn coded(code: i64, st: Cell) -> Cell {
    if code == 0 {
        plain_cell()
    } else if code == 1 || code == 22 {
        Cell { bold: code == 1, ..st }
    } else if code == 3 || code == 23 {
        Cell { italic: code == 3, ..st }
    } else if code == 4 || code == 24 {
        Cell { underline: code == 4, ..st }
    } else if code == 7 || code == 27 {
        Cell { reverse: code == 7, ..st }
    } else if palette_colour(code as int) is Some || code == 39 {
        Cell { fg: palette_colour(code as int), ..st }
    } else if palette_colour(code - 10) is Some || code == 49 {
        Cell { bg: palette_colour(code - 10), ..st }
    } else {
        st
    }
}

/// Whether the values behind a 38 or a 48 start a colour in a form that is not
/// known.
pub open spec fn unknown_form(vals: Seq<i64>) -> bool {
    vals.len() > 0 && vals[0] != 5 && vals[0] != 2
}

/// Which of a style's colours are held: no colour that is named takes the place of
/// one that is held.
#[derive(Clone, Copy, Debug, PartialEq, Eq, Structural)]
pub struct Held {
    pub fg: bool,
    pub bg: bool,
}

pub open spec fn nothing_held() -> Held {
    Held { fg: false, bg: false }
}

/// What is held behind a 38 or 48 whose colour has an unknown form: the foreground
/// or the background too.
pub open spec fn holding(held: Held, code: i64) -> Held {
    Held { fg: held.fg || code == 38, bg: held.bg || code == 48 }
}

/// What is still held behind a code: a reset lets go of what it resets.
pub open spec fn released(held: Held, code: i64) -> Held {
    Held { fg: held.fg && code != 0 && code != 39, bg: held.bg && code != 0 && code != 49 }
}

/// The style that follows `st`, but for the colours that are held.
pub open spec fn held_back(st: Cell, next: Cell, held: Held) -> Cell {
    Cell {
        fg: if held.fg {
            st.fg
        } else {
            next.fg
        },
        bg: if held.bg {
            st.bg
        } else {
            next.bg
        },
        ..next
    }
}

/// The style with the colour that is named behind a 38 or 48.
pub open spec fn painted(code: i64, colour: Color, st: Cell) -> Cell {
    if code == 38 {
        Cell { fg: Some(colour), ..st }
    } else {
        Cell { bg: Some(colour), ..st }
    }
}

/// What a list of values makes of a style, from the first to the last.
///
/// A 38 or 48 takes its colour from the values behind it. Where they end too early
/// to name one, the style stays as it is. Where they start a form that is not
/// known, they are read as codes, but the style keeps the colour it had: until a
/// reset, none of them can name another for it.
pub open spec fn styled_on(vals: Seq<i64>, st: Cell, held: Held) -> Cell
    decreases vals.len(),
{
    if vals.len() == 0 {
        st
    } else if vals[0] == 38 || vals[0] == 48 {
        match named_colour(vals.skip(1)) {
            Some((colour, n)) => styled_on(
                vals.skip(1 + n as int),
                held_back(st, painted(vals[0], colour, st), held),
                held,
            ),
            None => if unknown_form(vals.skip(1)) {
                styled_on(vals.skip(1), st, holding(held, vals[0]))
            } else {
                st
            },
        }
    } else {
        let still = released(held, vals[0]);
        styled_on(vals.skip(1), held_back(st, coded(vals[0], st), still), still)
    }
}

/// What a list of values makes of a style.
pub open spec fn styled(vals: Seq<i64>, st: Cell) -> Cell {
    styled_on(vals, st, nothing_held())
}

/// What an SGR escape with these parameters makes of a style.
pub open spec fn sgr(params: Seq<char>, st: Cell) -> Cell {
    styled(given(codes(params)), st)
}

/// The first `n` values out of the way leave the others.
proof fn lemma_extent(codes: Seq<Option<i64>>, n: nat)
    requires
        n <= given(codes).len(),
    ensures
        extent(codes, n) <= codes.len(),
        given(codes.skip(extent(codes, n) as int)) == given(codes).skip(n as int),
    decreases codes.len(),
{
    if n == 0 {
        assert(codes.skip(0) == codes);
        assert(given(codes).skip(0) == given(codes));
    } else if codes.len() > 0 {
        let rest = codes.skip(1);
        let m = if codes[0] is Some { (n - 1) as nat } else { n };
        lemma_extent(rest, m);
        assert(codes.skip(extent(codes, n) as int) == rest.skip(extent(rest, m) as int));
        if codes[0] is Some {
            assert(given(codes).skip(n as int) == given(rest).skip(m as int));
        }
    }
}

/// The foreground colour of a code.
pub fn sgr_color(code: i64) -> (r: Option<Color>)
    ensures
        r == palette_colour(code as int),
{
    if 30 <= code && code <= 37 {
        Some(Color::AnsiValue((code - 30) as u8))
    } else if 90 <= code && code <= 97 {
        Some(Color::AnsiValue((code - 90 + 8) as u8))
    } else {
        None
    }
}

/// A number brought into the range of a byte.
fn clamp_byte(v: i64) -> (r: u8)
    ensures
        r == to_byte(v),
{
    if v < 0 {
        0
    } else if v > 255 {
        255
    } else {
        v as u8
    }
}

/// The colour after a `38` or `48`, and how many fields it took.
///
/// Empty fields are skipped rather than counted, which is what makes the colon
/// form (`38:2::R:G:B`, with an empty colour-space slot) read the same as the
/// semicolon one.
///
/// `None` for anything else: a list that ends too early, or a form that is not
/// known. The style then keeps the colour it had, which is the only safe answer: a
/// guess here would paint the wrong one for the rest of the line.
pub fn extended_colour(rest: &[Option<i64>]) -> (r: Option<(Color, usize)>)
    ensures
        match named_colour(given(rest@)) {
            Some((colour, n)) => r matches Some((c, used)) && c == colour && used == extent(
                rest@,
                n,
            ),
            None => r is None,
        },
{
    let mut want: usize = 0;
    let mut vals: Vec<i64> = Vec::new();
    let ghost mut seen = Seq::<i64>::empty();
    let mut i: usize = 0;
    assert(rest@.skip(0) == rest@);
    assert(seen + given(rest@) == given(rest@));
    while i < rest.len()
        invariant
            i <= rest@.len(),
            given(rest@) == seen + given(rest@.skip(i as int)),
            want == 0 ==> seen.len() == 0 && vals@.len() == 0,
            want != 0 ==> seen.len() == 1 + vals@.len() && seen.skip(1) == vals@ && vals@.len()
                < want,
            want == 0 || (want == 1 && seen[0] == 5) || (want == 3 && seen[0] == 2),
            forall|n: nat|
                n > seen.len() ==> #[trigger] extent(rest@, n) == i + extent(
                    rest@.skip(i as int),
                    (n - seen.len()) as nat,
                ),
        decreases rest@.len() - i,
    {
        let ghost here = rest@.skip(i as int);
        assert(here.skip(1) == rest@.skip(i + 1));
        assert(here[0] == rest@[i as int]);
        match rest[i] {
            None => {},
            Some(v) => {
                let ghost known = seen;
                proof {
                    seen = seen.push(v);
                    assert(known + (seq![v] + given(here.skip(1))) == seen + given(here.skip(1)));
                    assert(given(rest@)[known.len() as int] == v);
                }
                if want == 0 {
                    if v == 5 {
                        want = 1;
                    } else if v == 2 {
                        want = 3;
                    } else {
                        return None;
                    }
                    assert(seen.skip(1) == vals@);
                } else {
                    vals.push(v);
                    assert(seen.skip(1) == vals@);
                    assert(forall|k: int| 0 <= k < vals@.len() ==> vals@[k] == given(rest@)[k + 1]) by {
                        assert(forall|k: int| 0 <= k < vals@.len() ==> vals@[k] == seen[k + 1]);
                    }
                    assert(given(rest@)[0] == seen[0]);
                    if vals.len() == want {
                        assert(extent(rest@, seen.len()) == i + extent(here, 1));
                        assert(extent(here.skip(1), 0) == 0);
                        let colour = if want == 1 {
                            Color::AnsiValue(clamp_byte(vals[0]))
                        } else {
                            Color::Rgb {
                                r: clamp_byte(vals[0]),
                                g: clamp_byte(vals[1]),
                                b: clamp_byte(vals[2]),
                            }
                        };
                        return Some((colour, i + 1));
                    }
                }
            },
        }
        i += 1;
    }
    assert(rest@.skip(i as int) == Seq::<Option<i64>>::empty());
    assert(given(rest@) == seen);
    None
}

/// The first value that the fields hold.
fn first_value(rest: &[Option<i64>]) -> (r: Option<i64>)
    ensures
        match r {
            Some(v) => given(rest@).len() > 0 && given(rest@)[0] == v,
            None => given(rest@).len() == 0,
        },
{
    let mut i: usize = 0;
    assert(rest@.skip(0) == rest@);
    while i < rest.len()
        invariant
            i <= rest@.len(),
            given(rest@) == given(rest@.skip(i as int)),
        decreases rest@.len() - i,
    {
        assert(rest@.skip(i as int).skip(1) == rest@.skip(i + 1));
        if let Some(v) = rest[i] {
            return Some(v);
        }
        i += 1;
    }
    None
}

/// What a code, neither 38 nor 48, makes of a style.
fn apply_code(code: i64, st: &mut Cell)
    ensures
        *final(st) == coded(code, *old(st)),
{
    if code == 0 {
        *st = Cell::default();
    } else if code == 1 || code == 22 {
        st.bold = code == 1;
    } else if code == 3 || code == 23 {
        st.italic = code == 3;
    } else if code == 4 || code == 24 {
        st.underline = code == 4;
    } else if code == 7 || code == 27 {
        st.reverse = code == 7;
    } else if (30 <= code && code <= 37) || (90 <= code && code <= 97) || code == 39 {
        st.fg = sgr_color(code);
    } else if (40 <= code && code <= 47) || (100 <= code && code <= 107) || code == 49 {
        st.bg = sgr_color(code - 10);
    }
}

/// Applies the parameters of an SGR escape to a style.
pub fn apply_sgr(params: &str, st: &mut Cell)
    ensures
        *final(st) == sgr(params@, *old(st)),
{
    let codes = read_codes(params);
    let ghost whole = sgr(params@, *st);
    let mut held: Held = Held { fg: false, bg: false };
    let mut k: usize = 0;
    assert(codes@.skip(0) == codes@);
    while k < codes.len()
        invariant
            k <= codes@.len(),
            styled_on(given(codes@.skip(k as int)), *st, held) == whole,
        decreases codes@.len() - k,
    {
        let ghost here = codes@.skip(k as int);
        let ghost rest = codes@.skip(k + 1);
        assert(here.skip(1) == rest);
        assert(here[0] == codes@[k as int]);
        match codes[k] {
            None => {},
            Some(code) => {
                assert(given(here).skip(1) == given(rest));
                if code == 38 || code == 48 {
                    let tail = slice_subrange(codes.as_slice(), k + 1, codes.len());
                    assert(tail@ == rest);
                    match extended_colour(tail) {
                        Some((colour, used)) => {
                            if code == 38 && !held.fg {
                                st.fg = Some(colour);
                            }
                            if code == 48 && !held.bg {
                                st.bg = Some(colour);
                            }
                            proof {
                                let n = (named_colour(given(rest))->0).1;
                                lemma_extent(rest, n);
                                assert(given(here).skip(1 + n as int) == given(rest).skip(n as int));
                                assert(codes@.skip(k + used + 1) == rest.skip(used as int));
                            }
                            k += used;
                        },
                        None => {
                            let unknown: bool = match first_value(tail) {
                                Some(form) => form != 5 && form != 2,
                                None => false,
                            };
                            if unknown {
                                held.fg = held.fg || code == 38;
                                held.bg = held.bg || code == 48;
                            } else {
                                k = codes.len() - 1;
                            }
                        },
                    }
                } else {
                    let before: Cell = *st;
                    apply_code(code, st);
                    held.fg = held.fg && code != 0 && code != 39;
                    held.bg = held.bg && code != 0 && code != 49;
                    if held.fg {
                        st.fg = before.fg;
                    }
                    if held.bg {
                        st.bg = before.bg;
                    }
                }
            },
        }
        k += 1;
    }
    assert(given(codes@.skip(k as int)) == Seq::<i64>::empty());
}

// ---- laws ----
/// The parameters with every colon written as a semicolon.
pub open spec fn with_semicolons(params: Seq<char>) -> Seq<char> {
    params.map_values(
        |c: char|
            if c == ':' {
                ';'
            } else {
                c
            },
    )
}

proof fn lemma_same_fields(params: Seq<char>)
    ensures
        fields(with_semicolons(params)) == fields(params),
    decreases params.len(),
{
    if params.len() > 0 {
        lemma_same_fields(params.drop_last());
        assert(with_semicolons(params).drop_last() == with_semicolons(params.drop_last()));
    } else {
        assert(with_semicolons(params) == params);
    }
}

/// The colon form reads the same as the semicolon form.
pub proof fn law_colons_read_as_semicolons(params: Seq<char>, st: Cell)
    ensures
        sgr(with_semicolons(params), st) == sgr(params, st),
{
    lemma_same_fields(params);
}

proof fn lemma_given_concat(a: Seq<Option<i64>>, b: Seq<Option<i64>>)
    ensures
        given(a + b) == given(a) + given(b),
    decreases a.len(),
{
    if a.len() == 0 {
        assert(a + b == b);
        assert(given(a) + given(b) == given(b));
    } else {
        lemma_given_concat(a.skip(1), b);
        assert((a + b).skip(1) == a.skip(1) + b);
        assert(given(a + b) == given(a) + given(b));
    }
}

/// A slot left empty between two separators, as in `38:2::R:G:B`, is skipped:
/// the parameters read as they do without it.
pub proof fn law_empty_slot_is_skipped(a: Seq<char>, x: char, y: char, b: Seq<char>, st: Cell)
    requires
        is_separator(x),
        is_separator(y),
    ensures
        sgr(a.push(x).push(y) + b, st) == sgr(a.push(x) + b, st),
{
    let sep = |c: char| is_separator(c);
    let num = |f: Seq<char>| number(f);
    lemma_split_at_separator(a, x, b, sep);
    lemma_split_at_separator(a.push(x), y, b, sep);
    assert(a.push(x).drop_last() == a);
    let left = split(a, sep).map_values(num);
    let right = split(b, sep).map_values(num);
    let gap = seq![None::<i64>];
    assert(number(Seq::<char>::empty()) is None);
    assert(split(a.push(x), sep) == split(a, sep).push(Seq::empty()));
    assert(codes(a.push(x) + b) == left + right);
    assert(codes(a.push(x).push(y) + b) == (left + gap) + right);
    lemma_given_concat(left, right);
    lemma_given_concat(left + gap, right);
    lemma_given_concat(left, gap);
    assert(given(gap.skip(1)) == Seq::<i64>::empty());
    assert(given(left) + given(gap) == given(left));
}

/// Whatever the style was, an empty parameter list resets it, and so does a 0.
pub proof fn law_reset_clears_everything(st: Cell)
    ensures
        sgr(Seq::empty(), st) == plain_cell(),
        sgr(seq!['0'], st) == plain_cell(),
{
    let zero = seq![Some(0i64)];
    assert(given(zero.skip(1)) == Seq::<i64>::empty());
    assert(given(zero) == seq![0i64]);
    assert(styled(seq![0i64].skip(1), plain_cell()) == plain_cell());
    assert(styled(given(zero), st) == plain_cell());
    let f = seq!['0'];
    assert(f.drop_last() == Seq::<char>::empty());
    assert(split(f.drop_last(), |c: char| is_separator(c)) == seq![Seq::<char>::empty()]);
    assert(fields(f) == seq![f]);
    assert(magnitude(f.drop_last()) == 0);
    assert(number(f) == Some(0i64));
    assert(codes(f) == zero);
}

/// A background code changes the background and nothing else.
pub proof fn law_background_code_keeps_the_rest(code: i64, st: Cell)
    requires
        40 <= code <= 47 || code == 49 || 100 <= code <= 107,
    ensures
        coded(code, st) == (Cell { bg: palette_colour(code - 10), ..st }),
{
}

/// A colour named behind a 38 becomes the foreground, and behind a 48 the
/// background; nothing else of the style changes.
pub proof fn law_named_colour_goes_to_its_own_side(vals: Seq<i64>, st: Cell)
    requires
        named_colour(vals) matches Some((_, n)) && n == vals.len(),
    ensures
        styled(seq![38i64] + vals, st) == (Cell { fg: Some((named_colour(vals)->0).0), ..st }),
        styled(seq![48i64] + vals, st) == (Cell { bg: Some((named_colour(vals)->0).0), ..st }),
{
    reveal_with_fuel(styled_on, 2);
    let fg = seq![38i64] + vals;
    let bg = seq![48i64] + vals;
    assert(fg.skip(1) == vals);
    assert(bg.skip(1) == vals);
    assert(fg.skip(1 + vals.len() as int) == Seq::<i64>::empty());
    assert(bg.skip(1 + vals.len() as int) == Seq::<i64>::empty());
}

/// A colour that ends too early leaves the style alone, whatever the values in it
/// are.
pub proof fn law_truncated_colour_leaves_the_style_alone(vals: Seq<i64>, st: Cell)
    requires
        vals.len() == 0 || (vals[0] == 5 && vals.len() < 2) || (vals[0] == 2 && vals.len() < 4),
    ensures
        styled(seq![38i64] + vals, st) == st,
        styled(seq![48i64] + vals, st) == st,
{
    assert((seq![38i64] + vals).skip(1) == vals);
    assert((seq![48i64] + vals).skip(1) == vals);
}

/// Whether a list of values, read as codes, resets a colour: all of the style, or
/// the colour by the code `own`.
pub open spec fn resets(vals: Seq<i64>, own: i64) -> bool
    decreases vals.len(),
{
    if vals.len() == 0 {
        false
    } else if vals[0] == 38 || vals[0] == 48 {
        match named_colour(vals.skip(1)) {
            Some((_, n)) => resets(vals.skip(1 + n as int), own),
            None => unknown_form(vals.skip(1)) && resets(vals.skip(1), own),
        }
    } else {
        vals[0] == 0 || vals[0] == own || resets(vals.skip(1), own)
    }
}

proof fn lemma_held_stays(vals: Seq<i64>, st: Cell, held: Held)
    ensures
        held.fg && !resets(vals, 39) ==> styled_on(vals, st, held).fg == st.fg,
        held.bg && !resets(vals, 49) ==> styled_on(vals, st, held).bg == st.bg,
    decreases vals.len(),
{
    if vals.len() > 0 {
        if vals[0] == 38 || vals[0] == 48 {
            match named_colour(vals.skip(1)) {
                Some((colour, n)) => {
                    let next = held_back(st, painted(vals[0], colour, st), held);
                    lemma_held_stays(vals.skip(1 + n as int), next, held);
                },
                None => {
                    lemma_held_stays(vals.skip(1), st, holding(held, vals[0]));
                },
            }
        } else {
            let still = released(held, vals[0]);
            lemma_held_stays(vals.skip(1), held_back(st, coded(vals[0], st), still), still);
        }
    }
}

/// A colour in an unknown form, behind a 38, leaves the foreground as it was, and
/// behind a 48 the background, whatever follows it, as long as that resets nothing.
pub proof fn law_unknown_form_keeps_the_colour(vals: Seq<i64>, st: Cell)
    requires
        vals.len() > 0,
        vals[0] != 5,
        vals[0] != 2,
    ensures
        !resets(vals, 39) ==> styled(seq![38i64] + vals, st).fg == st.fg,
        !resets(vals, 49) ==> styled(seq![48i64] + vals, st).bg == st.bg,
{
    assert((seq![38i64] + vals).skip(1) == vals);
    assert((seq![48i64] + vals).skip(1) == vals);
    lemma_held_stays(vals, st, holding(nothing_held(), 38));
    lemma_held_stays(vals, st, holding(nothing_held(), 48));
}

/// Whether two styles are the same but for their colours.
pub open spec fn same_attributes(a: Cell, b: Cell) -> bool {
    a == Cell { fg: a.fg, bg: a.bg, ..b }
}

proof fn lemma_holding_hides_one_colour(vals: Seq<i64>, a: Cell, b: Cell, ha: Held, hb: Held)
    requires
        same_attributes(a, b),
    ensures
        same_attributes(styled_on(vals, a, ha), styled_on(vals, b, hb)),
        a.fg == b.fg && ha.fg == hb.fg ==> styled_on(vals, a, ha).fg == styled_on(vals, b, hb).fg,
        a.bg == b.bg && ha.bg == hb.bg ==> styled_on(vals, a, ha).bg == styled_on(vals, b, hb).bg,
    decreases vals.len(),
{
    if vals.len() > 0 {
        let code = vals[0];
        if code == 38 || code == 48 {
            match named_colour(vals.skip(1)) {
                Some((colour, n)) => {
                    lemma_holding_hides_one_colour(
                        vals.skip(1 + n as int),
                        held_back(a, painted(code, colour, a), ha),
                        held_back(b, painted(code, colour, b), hb),
                        ha,
                        hb,
                    );
                },
                None => {
                    lemma_holding_hides_one_colour(
                        vals.skip(1),
                        a,
                        b,
                        holding(ha, code),
                        holding(hb, code),
                    );
                },
            }
        } else {
            lemma_holding_hides_one_colour(
                vals.skip(1),
                held_back(a, coded(code, a), released(ha, code)),
                held_back(b, coded(code, b), released(hb, code)),
                released(ha, code),
                released(hb, code),
            );
        }
    }
}

/// Apart from the colour that it keeps, a 38 or 48 with an unknown form makes no
/// difference: the values behind it are read as they are without it.
pub proof fn law_unknown_form_hides_nothing_else(vals: Seq<i64>, st: Cell)
    requires
        vals.len() > 0,
        vals[0] != 5,
        vals[0] != 2,
    ensures
        styled(seq![38i64] + vals, st) == (Cell {
            fg: styled(seq![38i64] + vals, st).fg,
            ..styled(vals, st)
        }),
        styled(seq![48i64] + vals, st) == (Cell {
            bg: styled(seq![48i64] + vals, st).bg,
            ..styled(vals, st)
        }),
{
    let free = nothing_held();
    assert((seq![38i64] + vals).skip(1) == vals);
    assert((seq![48i64] + vals).skip(1) == vals);
    lemma_holding_hides_one_colour(vals, st, st, holding(free, 38), free);
    lemma_holding_hides_one_colour(vals, st, st, holding(free, 48), free);
}

/// Every attribute that a code turns on, another code turns off again, and
/// neither touches anything else.
pub proof fn law_attributes_go_on_and_off(st: Cell)
    ensures
        coded(1, st) == (Cell { bold: true, ..st }),
        coded(22, coded(1, st)) == (Cell { bold: false, ..st }),
        coded(3, st) == (Cell { italic: true, ..st }),
        coded(23, coded(3, st)) == (Cell { italic: false, ..st }),
        coded(4, st) == (Cell { underline: true, ..st }),
        coded(24, coded(4, st)) == (Cell { underline: false, ..st }),
        coded(7, st) == (Cell { reverse: true, ..st }),
        coded(27, coded(7, st)) == (Cell { reverse: false, ..st }),
{
}

/// Every code changes what it is for, to what it says, and nothing else of the
/// style. Seen from each part of the style: only the codes that are listed for it
/// touch it. A 0 is listed for all of them.
pub proof fn law_a_code_changes_only_what_it_is_for(code: i64, st: Cell)
    requires
        code != 38,
        code != 48,
    ensures
        ({
            let r = styled(seq![code], st);
            &&& 30 <= code <= 37 ==> r.fg == Some(Color::AnsiValue((code - 30) as u8))
            &&& 90 <= code <= 97 ==> r.fg == Some(Color::AnsiValue((code - 82) as u8))
            &&& code == 39 || code == 0 ==> r.fg is None
            &&& !(30 <= code <= 37) && !(90 <= code <= 97) && code != 39 && code != 0 ==> r.fg
                == st.fg
            &&& 40 <= code <= 47 ==> r.bg == Some(Color::AnsiValue((code - 40) as u8))
            &&& 100 <= code <= 107 ==> r.bg == Some(Color::AnsiValue((code - 92) as u8))
            &&& code == 49 || code == 0 ==> r.bg is None
            &&& !(40 <= code <= 47) && !(100 <= code <= 107) && code != 49 && code != 0 ==> r.bg
                == st.bg
            &&& r.bold <==> code == 1 || (st.bold && code != 22 && code != 0)
            &&& r.italic <==> code == 3 || (st.italic && code != 23 && code != 0)
            &&& r.underline <==> code == 4 || (st.underline && code != 24 && code != 0)
            &&& r.reverse <==> code == 7 || (st.reverse && code != 27 && code != 0)
        }),
{
    reveal_with_fuel(styled_on, 2);
    assert(seq![code].skip(1) == Seq::<i64>::empty());
}

/// The foreground's colours and the background's are the same ones, ten codes
/// apart, and each has a code of its own.
pub proof fn law_palette_codes_name_sixteen_colours(code: int, other: int)
    ensures
        palette_colour(code) is Some <==> 30 <= code <= 37 || 90 <= code <= 97,
        30 <= code <= 37 ==> palette_colour(code) == Some(Color::AnsiValue((code - 30) as u8)),
        90 <= code <= 97 ==> palette_colour(code) == Some(Color::AnsiValue((code - 82) as u8)),
        palette_colour(code) is Some && palette_colour(code) == palette_colour(other) ==> code
            == other,
{
}

/// Codes take effect one after another, each on what the one before it left.
pub proof fn law_codes_take_effect_in_turn(code: i64, rest: Seq<i64>, st: Cell)
    requires
        code != 38,
        code != 48,
    ensures
        styled(seq![code] + rest, st) == styled(rest, styled(seq![code], st)),
        styled(Seq::empty(), st) == st,
{
    reveal_with_fuel(styled_on, 2);
    assert(seq![code].skip(1) == Seq::<i64>::empty());
    assert((seq![code] + rest).skip(1) == rest);
    assert(released(nothing_held(), code) == nothing_held());
}

/// A palette colour and a truecolour are taken with their values, and what stands
/// behind them is read as if it stood alone. Values beyond a byte are brought into
/// its range.
pub proof fn law_a_colour_takes_its_values(
    side: i64,
    x: i64,
    y: i64,
    z: i64,
    r: u8,
    g: u8,
    b: u8,
    rest: Seq<i64>,
    st: Cell,
)
    requires
        side == 38 || side == 48,
        r == (if x < 0 { 0 } else if x > 255 { 255 } else { x as int }),
        g == (if y < 0 { 0 } else if y > 255 { 255 } else { y as int }),
        b == (if z < 0 { 0 } else if z > 255 { 255 } else { z as int }),
    ensures
        side == 38 ==> styled(seq![side, 5, x] + rest, st) == styled(
            rest,
            Cell { fg: Some(Color::AnsiValue(r)), ..st },
        ),
        side == 48 ==> styled(seq![side, 5, x] + rest, st) == styled(
            rest,
            Cell { bg: Some(Color::AnsiValue(r)), ..st },
        ),
        side == 38 ==> styled(seq![side, 2, x, y, z] + rest, st) == styled(
            rest,
            Cell { fg: Some(Color::Rgb { r, g, b }), ..st },
        ),
        side == 48 ==> styled(seq![side, 2, x, y, z] + rest, st) == styled(
            rest,
            Cell { bg: Some(Color::Rgb { r, g, b }), ..st },
        ),
{
    let short = seq![side, 5, x] + rest;
    assert(short.skip(1)[0] == 5 && short.skip(1)[1] == x);
    assert(short.skip(3) == rest);
    let long = seq![side, 2, x, y, z] + rest;
    let tail = long.skip(1);
    assert(tail[0] == 2 && tail[1] == x && tail[2] == y && tail[3] == z);
    assert(long.skip(5) == rest);
}

/// Behind an unknown form no value but a reset changes the colour that is kept.
pub proof fn law_only_a_reset_ends_the_keeping(vals: Seq<i64>, st: Cell)
    requires
        vals.len() > 0,
        vals[0] != 5,
        vals[0] != 2,
    ensures
        (forall|i: int| 0 <= i < vals.len() ==> #[trigger] vals[i] != 0 && vals[i] != 39) ==> styled(
            seq![38i64] + vals,
            st,
        ).fg == st.fg,
        (forall|i: int| 0 <= i < vals.len() ==> #[trigger] vals[i] != 0 && vals[i] != 49) ==> styled(
            seq![48i64] + vals,
            st,
        ).bg == st.bg,
{
    law_unknown_form_keeps_the_colour(vals, st);
    if forall|i: int| 0 <= i < vals.len() ==> #[trigger] vals[i] != 0 && vals[i] != 39 {
        lemma_no_reset(vals, 39);
    }
    if forall|i: int| 0 <= i < vals.len() ==> #[trigger] vals[i] != 0 && vals[i] != 49 {
        lemma_no_reset(vals, 49);
    }
}

proof fn lemma_no_reset(vals: Seq<i64>, own: i64)
    requires
        forall|i: int| 0 <= i < vals.len() ==> #[trigger] vals[i] != 0 && vals[i] != own,
    ensures
        !resets(vals, own),
    decreases vals.len(),
{
    if vals.len() > 0 {
        assert(vals[0] != 0 && vals[0] != own);
        let n = match named_colour(vals.skip(1)) {
            Some((_, n)) => if vals[0] == 38 || vals[0] == 48 {
                n
            } else {
                0
            },
            None => 0,
        };
        let later = vals.skip(1 + n as int);
        assert forall|i: int| 0 <= i < later.len() implies #[trigger] later[i] != 0 && later[i]
            != own by {
            assert(later[i] == vals[i + 1 + n]);
        }
        lemma_no_reset(later, own);
    }
}

proof fn lemma_magnitude_is_worth(digits: Seq<char>)
    ensures
        magnitude(digits) == worth(digits),
    decreases digits.len(),
{
    if digits.len() > 0 {
        lemma_magnitude_is_worth(digits.drop_last());
        lemma_worth_push(digits.drop_last(), digits.last());
        assert(digits.drop_last().push(digits.last()) == digits);
    }
}

/// A field spells a number if and only if it is decimal digits, at least one, with
/// at most one sign in front, and what they are worth fits in 64 bits. It spells
/// that number.
pub proof fn law_a_field_spells_what_it_is_worth(field: Seq<char>, v: i64)
    ensures
        number(field) == Some(v) <==> {
            ||| {
                &&& field.len() > 0
                &&& forall|i: int| 0 <= i < field.len() ==> '0' <= #[trigger] field[i] <= '9'
                &&& worth(field) == v
            }
            ||| {
                &&& field.len() > 1
                &&& field[0] == '+' || field[0] == '-'
                &&& forall|i: int| 1 <= i < field.len() ==> '0' <= #[trigger] field[i] <= '9'
                &&& worth(field.skip(1)) == (if field[0] == '-' {
                    -v
                } else {
                    v as int
                })
            }
        },
{
    lemma_magnitude_is_worth(field);
    if field.len() > 0 {
        let tail = field.skip(1);
        lemma_magnitude_is_worth(tail);
        if forall|i: int| 1 <= i < field.len() ==> '0' <= #[trigger] field[i] <= '9' {
            assert forall|i: int| 0 <= i < tail.len() implies is_digit(#[trigger] tail[i]) by {
                assert(tail[i] == field[i + 1]);
            }
        }
        if all_digits(tail) {
            assert forall|i: int| 1 <= i < field.len() implies '0' <= #[trigger] field[i]
                <= '9' by {
                assert(is_digit(tail[i - 1]));
            }
        }
        if all_digits(field) {
            assert(is_digit(field[0]));
        }
    }
}

/// A separator, a semicolon or a colon, ends a field and starts the next. What
/// holds none is one field.
pub proof fn law_separators_cut_the_fields_apart(a: Seq<char>, x: char, b: Seq<char>)
    ensures
        x == ';' || x == ':' ==> fields(a.push(x) + b) == fields(a) + fields(b),
        (forall|i: int| 0 <= i < a.len() ==> #[trigger] a[i] != ';' && a[i] != ':') ==> fields(a)
            == seq![a],
{
    let sep = |c: char| is_separator(c);
    if x == ';' || x == ':' {
        lemma_split_at_separator(a, x, b, sep);
    }
    if forall|i: int| 0 <= i < a.len() ==> #[trigger] a[i] != ';' && a[i] != ':' {
        assert forall|i: int| 0 <= i < a.len() implies !sep(#[trigger] a[i]) by {
            assert(a[i] != ';' && a[i] != ':');
        }
        law_without_separators_nothing_is_split(a, sep);
    }
}

/// There is a code for every field, the number that it spells; without any
/// parameter there is a single 0.
pub proof fn law_a_code_for_every_field(params: Seq<char>)
    ensures
        params.len() == 0 ==> codes(params) == seq![Some(0i64)],
        params.len() > 0 ==> codes(params).len() == fields(params).len() && forall|i: int|
            0 <= i < fields(params).len() ==> #[trigger] codes(params)[i] == number(
                fields(params)[i],
            ),
{
}

/// Of the codes, those that are there count, in their order, and the others do not.
pub proof fn law_what_is_given_counts(a: Seq<Option<i64>>, b: Seq<Option<i64>>, v: i64)
    ensures
        given(Seq::empty()) == Seq::<i64>::empty(),
        given(seq![None::<i64>]) == Seq::<i64>::empty(),
        given(seq![Some(v)]) == seq![v],
        given(a + b) == given(a) + given(b),
{
    lemma_given_concat(a, b);
    assert(seq![None::<i64>].skip(1) == Seq::<Option<i64>>::empty());
    assert(seq![Some(v)].skip(1) == Seq::<Option<i64>>::empty());
    assert(given(seq![Some(v)]) == seq![v] + given(Seq::empty()));
    assert(seq![v] + Seq::<i64>::empty() == seq![v]);
}

/// A parameter list does to a style what the values that it gives do.
pub proof fn law_parameters_do_what_their_values_do(params: Seq<char>, st: Cell)
    ensures
        sgr(params, st) == styled(given(codes(params)), st),
{
}

/// The values in decimal, with a separator between each two.
pub open spec fn written(vals: Seq<i64>, sep: char) -> Seq<char>
    decreases vals.len(),
{
    if vals.len() == 0 {
        Seq::empty()
    } else if vals.len() == 1 {
        decimal(vals[0] as nat)
    } else {
        written(vals.drop_last(), sep).push(sep) + decimal(vals.last() as nat)
    }
}

proof fn lemma_written_value(v: i64)
    requires
        v >= 0,
    ensures
        fields(decimal(v as nat)) == seq![decimal(v as nat)],
        number(decimal(v as nat)) == Some(v),
        decimal(v as nat).len() > 0,
{
    let digits = decimal(v as nat);
    law_decimal_is_worth_its_number(v as nat);
    assert forall|i: int| 0 <= i < digits.len() implies #[trigger] digits[i] != ';' && digits[i]
        != ':' by {
        assert('0' <= digits[i] <= '9');
    }
    law_separators_cut_the_fields_apart(digits, ';', digits);
    law_a_field_spells_what_it_is_worth(digits, v);
}

proof fn lemma_written_fields(vals: Seq<i64>, sep: char)
    requires
        vals.len() > 0,
        sep == ';' || sep == ':',
        forall|i: int| 0 <= i < vals.len() ==> #[trigger] vals[i] >= 0,
    ensures
        written(vals, sep).len() > 0,
        fields(written(vals, sep)) == vals.map_values(|v: i64| decimal(v as nat)),
    decreases vals.len(),
{
    assert(vals[vals.len() - 1] >= 0);
    lemma_written_value(vals.last());
    let spelled = vals.map_values(|v: i64| decimal(v as nat));
    if vals.len() == 1 {
        assert(spelled == seq![decimal(vals[0] as nat)]);
    } else {
        let fewer = vals.drop_last();
        assert forall|i: int| 0 <= i < fewer.len() implies #[trigger] fewer[i] >= 0 by {
            assert(vals[i] >= 0);
        }
        lemma_written_fields(fewer, sep);
        law_separators_cut_the_fields_apart(written(fewer, sep), sep, decimal(vals.last() as nat));
        assert(fewer.map_values(|v: i64| decimal(v as nat)) + seq![decimal(vals.last() as nat)]
            == spelled);
    }
}

proof fn lemma_all_given(all: Seq<Option<i64>>, vals: Seq<i64>)
    requires
        all.len() == vals.len(),
        forall|i: int| 0 <= i < vals.len() ==> #[trigger] all[i] == Some(vals[i]),
    ensures
        given(all) == vals,
    decreases all.len(),
{
    if all.len() > 0 {
        assert(all[0] == Some(vals[0]));
        assert forall|i: int| 0 <= i < vals.skip(1).len() implies #[trigger] all.skip(1)[i] == Some(
            vals.skip(1)[i],
        ) by {
            assert(all[i + 1] == Some(vals[i + 1]));
        }
        lemma_all_given(all.skip(1), vals.skip(1));
        assert(seq![vals[0]] + vals.skip(1) == vals);
    }
}

/// Values that are written out are read back: a list of numbers in decimal, between
/// semicolons or between colons, does what the numbers do.
pub proof fn law_what_is_written_is_read_back(vals: Seq<i64>, sep: char, st: Cell)
    requires
        vals.len() > 0,
        sep == ';' || sep == ':',
        forall|i: int| 0 <= i < vals.len() ==> #[trigger] vals[i] >= 0,
    ensures
        given(codes(written(vals, sep))) == vals,
        sgr(written(vals, sep), st) == styled(vals, st),
{
    let all = codes(written(vals, sep));
    lemma_written_fields(vals, sep);
    assert forall|i: int| 0 <= i < vals.len() implies #[trigger] all[i] == Some(vals[i]) by {
        assert(vals[i] >= 0);
        lemma_written_value(vals[i]);
    }
    lemma_all_given(all, vals);
}

/// A colour takes exactly the fields up to the last of its values: that many fields
/// hold that many values, and the last of them is one.
pub proof fn law_a_colour_ends_with_its_last_value(codes: Seq<Option<i64>>, n: nat)
    requires
        0 < n <= given(codes).len(),
    ensures
        0 < extent(codes, n) <= codes.len(),
        given(codes.take(extent(codes, n) as int)) == given(codes).take(n as int),
        codes[extent(codes, n) - 1] is Some,
    decreases codes.len(),
{
    let rest = codes.skip(1);
    let taken = codes.take(extent(codes, n) as int);
    if codes[0] is None {
        law_a_colour_ends_with_its_last_value(rest, n);
        assert(taken.skip(1) == rest.take(extent(rest, n) as int));
    } else if n == 1 {
        assert(extent(rest, 0) == 0);
        assert(taken.skip(1) == Seq::<Option<i64>>::empty());
        assert(taken[0] == codes[0]);
        assert(given(taken.skip(1)) == Seq::<i64>::empty());
        assert(given(taken) == given(codes).take(1));
    } else {
        law_a_colour_ends_with_its_last_value(rest, (n - 1) as nat);
        assert(taken.skip(1) == rest.take(extent(rest, (n - 1) as nat) as int));
        assert(given(taken) == given(codes).take(n as int));
    }
}

/// Behind a 38 or 48 a 5 and a value, or a 2 and three, name a colour, and nothing
/// else does.
pub proof fn law_two_forms_name_a_colour(vals: Seq<i64>, k: int)
    ensures
        named_colour(vals) is Some <==> (vals.len() >= 2 && vals[0] == 5) || (vals.len() >= 4
            && vals[0] == 2),
        named_colour(vals) matches Some((c, n)) ==> n == (if vals[0] == 5 {
            2nat
        } else {
            4nat
        }) && (c is AnsiValue <==> vals[0] == 5),
        named_colour(vals) matches Some((Color::AnsiValue(p), _)) ==> 0 <= vals[1] <= 255 ==> p
            == vals[1],
        named_colour(vals) matches Some((Color::AnsiValue(p), _)) ==> vals[1] < 0 ==> p == 0,
        named_colour(vals) matches Some((Color::AnsiValue(p), _)) ==> vals[1] > 255 ==> p == 255,
        named_colour(vals) matches Some((Color::Rgb { r, g, b }, _)) ==> 1 <= k <= 3 ==> ({
            let p = if k == 1 { r } else if k == 2 { g } else { b };
            (0 <= vals[k] <= 255 ==> p == vals[k]) && (vals[k] < 0 ==> p == 0) && (vals[k] > 255
                ==> p == 255)
        }),
{
}

/// What is still held behind some codes.
spec fn held_after(codes: Seq<i64>, held: Held) -> Held
    decreases codes.len(),
{
    if codes.len() == 0 {
        held
    } else {
        held_after(codes.skip(1), released(held, codes[0]))
    }
}

proof fn lemma_codes_in_front(a: Seq<i64>, b: Seq<i64>, st: Cell, held: Held)
    requires
        forall|i: int| 0 <= i < a.len() ==> #[trigger] a[i] != 38 && a[i] != 48,
    ensures
        styled_on(a + b, st, held) == styled_on(b, styled_on(a, st, held), held_after(a, held)),
        held_after(a, held).fg ==> held.fg,
        held_after(a, held).bg ==> held.bg,
    decreases a.len(),
{
    if a.len() == 0 {
        assert(a + b == b);
    } else {
        assert(a[0] != 38 && a[0] != 48);
        let fewer = a.skip(1);
        assert forall|i: int| 0 <= i < fewer.len() implies #[trigger] fewer[i] != 38 && fewer[i]
            != 48 by {
            assert(fewer[i] == a[i + 1]);
        }
        let still = released(held, a[0]);
        assert((a + b).skip(1) == fewer + b);
        lemma_codes_in_front(fewer, b, held_back(st, coded(a[0], st), still), still);
    }
}

/// However many codes stand between an unknown form and a reset, the reset counts
/// and ends the keeping: what stands behind it is read as if it stood alone.
pub proof fn law_a_reset_ends_the_keeping(codes: Seq<i64>, rest: Seq<i64>, st: Cell)
    requires
        codes.len() > 0 ==> codes[0] != 5 && codes[0] != 2,
        forall|i: int| 0 <= i < codes.len() ==> #[trigger] codes[i] != 38 && codes[i] != 48,
    ensures
        styled(seq![38i64] + codes + seq![0i64] + rest, st) == styled(rest, plain_cell()),
        styled(seq![48i64] + codes + seq![0i64] + rest, st) == styled(rest, plain_cell()),
        styled(seq![38i64] + codes + seq![39i64] + rest, st) == styled(
            rest,
            Cell { fg: None, ..styled(codes, st) },
        ),
        styled(seq![48i64] + codes + seq![49i64] + rest, st) == styled(
            rest,
            Cell { bg: None, ..styled(codes, st) },
        ),
{
    lemma_a_reset_ends_the_keeping(38, codes, 0, rest, st);
    lemma_a_reset_ends_the_keeping(48, codes, 0, rest, st);
    lemma_a_reset_ends_the_keeping(38, codes, 39, rest, st);
    lemma_a_reset_ends_the_keeping(48, codes, 49, rest, st);
}

proof fn lemma_a_reset_ends_the_keeping(
    side: i64,
    codes: Seq<i64>,
    end: i64,
    rest: Seq<i64>,
    st: Cell,
)
    requires
        side == 38 || side == 48,
        end == 0 || end == if side == 38 { 39int } else { 49int },
        codes.len() > 0 ==> codes[0] != 5 && codes[0] != 2,
        forall|i: int| 0 <= i < codes.len() ==> #[trigger] codes[i] != 38 && codes[i] != 48,
    ensures
        styled(seq![side] + codes + seq![end] + rest, st) == styled(
            rest,
            if end == 0 {
                plain_cell()
            } else if side == 38 {
                Cell { fg: None, ..styled(codes, st) }
            } else {
                Cell { bg: None, ..styled(codes, st) }
            },
        ),
{
    let tail = seq![end] + rest;
    let all = seq![side] + codes + seq![end] + rest;
    let held = holding(nothing_held(), side);
    assert(all.skip(1) == codes + tail);
    assert(all.skip(1)[0] == if codes.len() > 0 {
        codes[0]
    } else {
        end
    });
    lemma_codes_in_front(codes, tail, st, held);
    lemma_holding_hides_one_colour(codes, st, st, held, nothing_held());
    let mid = styled_on(codes, st, held);
    assert(tail.skip(1) == rest);
    assert(released(held_after(codes, held), end) == nothing_held());
    assert(styled(all, st) == styled_on(tail, mid, held_after(codes, held)));
}

} // verus!
