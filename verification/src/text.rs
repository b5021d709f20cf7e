//! Characters and strings.
use vstd::prelude::*;

verus! {

/// `String::push` appends the character at the end.
pub assume_specification[ String::push ](s: &mut String, ch: char)
    ensures
        final(s)@ == old(s)@.push(ch),
;

/// `String::pop` takes the last character off, where there is one.
pub assume_specification[ String::pop ](s: &mut String) -> (r: Option<char>)
    ensures
        old(s)@.len() == 0 ==> r is None && final(s)@ == old(s)@,
        old(s)@.len() > 0 ==> r == Some(old(s)@.last()) && final(s)@ == old(s)@.drop_last(),
;

/// Whether a number is that of a character.
pub open spec fn is_scalar(n: int) -> bool {
    0 <= n <= 0xd7ff || 0xe000 <= n <= 0x10ffff
}

proof fn lemma_char_is_scalar(c: char)
    ensures
        is_scalar(c as int),
{
}

/// What a sequence of characters holds are characters.
pub broadcast proof fn lemma_chars_are_scalars(s: Seq<char>, i: int)
    ensures
        is_scalar(#[trigger] s[i] as int),
{
    lemma_char_is_scalar(s[i]);
}

/// The characters of a string.
pub fn chars_of(s: &str) -> (r: Vec<char>)
    ensures
        r@ == s@,
{
    let mut r: Vec<char> = Vec::new();
    for c in it: s.chars()
        invariant
            it.seq() == s@,
            r@ == s@.take(it.index() as int),
    {
        r.push(c);
    }
    assert(s@.take(s@.len() as int) == s@);
    r
}

/// Appends the characters to the string.
pub fn push_chars(out: &mut String, chars: &[char])
    ensures
        final(out)@ == old(out)@ + chars@,
{
    let ghost start = out@;
    let mut i: usize = 0;
    assert(start + chars@.take(0) == start);
    while i < chars.len()
        invariant
            i <= chars@.len(),
            out@ == start + chars@.take(i as int),
        decreases chars@.len() - i,
    {
        out.push(chars[i]);
        assert((start + chars@.take(i as int)).push(chars@[i as int]) == start + chars@.take(i + 1));
        i += 1;
    }
    assert(chars@.take(i as int) == chars@);
}

/// The character of a decimal digit.
pub open spec fn digit_char(d: int) -> char {
    ('0' as int + d) as char
}

/// A number in decimal.
pub open spec fn decimal(n: nat) -> Seq<char>
    decreases n,
{
    if n < 10 {
        seq![digit_char(n as int)]
    } else {
        decimal(n / 10).push(digit_char((n % 10) as int))
    }
}

/// Appends a number in decimal.
pub fn push_decimal(out: &mut String, n: u128)
    ensures
        final(out)@ == old(out)@ + decimal(n as nat),
    decreases n,
{
    if n < 10 {
        out.push(('0' as u8 + n as u8) as char);
    } else {
        push_decimal(out, n / 10);
        out.push(('0' as u8 + (n % 10) as u8) as char);
    }
}

/// The character of a hexadecimal digit, in lower case.
pub open spec fn hex_char(d: int) -> char {
    if d < 10 {
        digit_char(d)
    } else {
        ('a' as int + d - 10) as char
    }
}

/// A byte as two hexadecimal digits.
pub open spec fn hex(b: u8) -> Seq<char> {
    seq![hex_char(b as int / 16), hex_char(b as int % 16)]
}

fn hex_digit(d: u8) -> (r: char)
    requires
        d < 16,
    ensures
        r == hex_char(d as int),
{
    if d < 10 {
        ('0' as u8 + d) as char
    } else {
        ('a' as u8 + (d - 10)) as char
    }
}

/// Appends a byte as two hexadecimal digits.
pub fn push_hex(out: &mut String, b: u8)
    ensures
        final(out)@ == old(out)@ + hex(b),
{
    out.push(hex_digit(b / 16));
    out.push(hex_digit(b % 16));
}

// ---- laws ----
pub open spec fn ten_to(n: nat) -> nat
    decreases n,
{
    if n == 0 {
        1
    } else {
        10 * ten_to((n - 1) as nat)
    }
}

/// What a row of digits is worth: each digit by its place, the first the most.
pub open spec fn worth(digits: Seq<char>) -> int
    decreases digits.len(),
{
    if digits.len() == 0 {
        0
    } else {
        (digits[0] as int - '0' as int) * ten_to((digits.len() - 1) as nat) + worth(digits.skip(1))
    }
}

/// One more digit makes the others worth ten times as much.
pub proof fn lemma_worth_push(digits: Seq<char>, c: char)
    ensures
        worth(digits.push(c)) == 10 * worth(digits) + (c as int - '0' as int),
    decreases digits.len(),
{
    let more = digits.push(c);
    if digits.len() == 0 {
        assert(more.skip(1) == digits);
        assert(ten_to(0) == 1);
        assert(worth(more) == (c as int - '0' as int) * ten_to(0) + worth(more.skip(1)));
    } else {
        let d = digits[0] as int - '0' as int;
        let t = ten_to((digits.len() - 1) as nat) as int;
        lemma_worth_push(digits.skip(1), c);
        assert(more.skip(1) == digits.skip(1).push(c));
        assert(ten_to(digits.len()) == 10 * t);
        assert(d * (10 * t) == 10 * (d * t)) by (nonlinear_arith);
    }
}

/// A number in decimal is digits, at least one and no zero in front of others, and
/// they are worth the number.
pub proof fn law_decimal_is_worth_its_number(n: nat)
    ensures
        decimal(n).len() > 0,
        decimal(n).len() > 1 ==> decimal(n)[0] != '0',
        forall|i: int| 0 <= i < decimal(n).len() ==> '0' <= #[trigger] decimal(n)[i] <= '9',
        worth(decimal(n)) == n,
    decreases n,
{
    if n < 10 {
        let c = digit_char(n as int);
        lemma_worth_push(Seq::empty(), c);
        assert(Seq::<char>::empty().push(c) == decimal(n));
    } else {
        let c = digit_char((n % 10) as int);
        law_decimal_is_worth_its_number(n / 10);
        lemma_worth_push(decimal(n / 10), c);
        if decimal(n / 10).len() == 1 {
            assert(decimal(n / 10)[0] != '0') by {
                lemma_worth_push(Seq::empty(), decimal(n / 10)[0]);
                assert(Seq::<char>::empty().push(decimal(n / 10)[0]) == decimal(n / 10));
            }
        }
    }
}

/// The value of a hexadecimal digit in lower case.
pub open spec fn hex_worth(c: char) -> int {
    if c <= '9' {
        c as int - '0' as int
    } else {
        c as int - 'a' as int + 10
    }
}

/// A byte in hexadecimal is two digits, in lower case, and they are worth the byte.
pub proof fn law_hex_is_worth_its_byte(b: u8)
    ensures
        hex(b).len() == 2,
        forall|i: int|
            0 <= i < 2 ==> '0' <= #[trigger] hex(b)[i] <= '9' || 'a' <= hex(b)[i] <= 'f',
        16 * hex_worth(hex(b)[0]) + hex_worth(hex(b)[1]) == b,
{
}

} // verus!
