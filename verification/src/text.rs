//! Strings as sequences of characters: the small vocabulary the rest of the
//! crate states its contracts in.

use vstd::prelude::*;
use vstd::string::*;

verus! {

/// The view of an optional string.
pub open spec fn opt_view(s: Option<String>) -> Option<Seq<char>> {
    match s {
        Some(t) => Some(t@),
        None => None,
    }
}

/// A copy of an optional string.
pub fn clone_opt(s: &Option<String>) -> (r: Option<String>)
    ensures
        r == *s,
{
    match s {
        Some(t) => Some(t.clone()),
        None => None,
    }
}

/// `String::push` appends one character.
pub assume_specification[ String::push ](s: &mut String, c: char)
    ensures
        final(s)@ == old(s)@.push(c),
;

/// The characters of a string, in order.
pub fn chars_of(s: &str) -> (r: Vec<char>)
    ensures
        r@ == s@,
{
    broadcast use vstd::string::group_string_axioms;
    let mut out: Vec<char> = Vec::new();
    let chars = s.chars();
    for c in it: chars
        invariant
            it.seq() == s@,
            out@ == s@.take(it.index()),
    {
        out.push(c);
    }
    assert(s@.take(s@.len() as int) == s@);
    out
}

/// Whether two strings hold the same characters.
pub fn str_eq(a: &str, b: &str) -> (r: bool)
    ensures
        r == (a@ == b@),
{
    let x = a.to_owned();
    let y = b.to_owned();
    x == y
}

/// Whether two optional strings are both absent or hold the same
/// characters.
pub fn opt_str_eq(a: &Option<String>, b: &Option<String>) -> (r: bool)
    ensures
        r == (opt_view(*a) == opt_view(*b)),
{
    match a {
        Some(x) => match b {
            Some(y) => *x == *y,
            None => false,
        },
        None => b.is_none(),
    }
}

/// The character is one of the ten decimal digits.
pub open spec fn is_digit(c: char) -> bool {
    '0' <= c <= '9'
}

/// The value of a decimal digit.
pub open spec fn digit_value(c: char) -> int {
    c as int - '0' as int
}

/// The digit that stands for a number below ten.
pub open spec fn digit_char(d: int) -> char {
    (d + '0' as int) as char
}

/// Whether the character is a decimal digit.
pub fn char_is_digit(c: char) -> (b: bool)
    ensures
        b == is_digit(c),
{
    '0' <= c && c <= '9'
}

/// A number in decimal notation, without leading zeros.
pub open spec fn decimal(n: nat) -> Seq<char>
    decreases n,
{
    if n < 10 {
        seq![digit_char(n as int)]
    } else {
        decimal(n / 10).push(digit_char((n % 10) as int))
    }
}

/// A number in decimal notation, with zeros in front up to a width.
pub open spec fn zero_padded(n: nat, width: nat) -> Seq<char> {
    if decimal(n).len() >= width {
        decimal(n)
    } else {
        Seq::new((width - decimal(n).len()) as nat, |i: int| '0') + decimal(n)
    }
}

spec fn leading(m: nat) -> Seq<char> {
    if m == 0 {
        Seq::empty()
    } else {
        decimal(m)
    }
}

/// The digits of a number, the last digit first.
fn digits_reversed(n: u32) -> (r: Vec<char>)
    ensures
        r@.reverse() == decimal(n as nat),
        1 <= r@.len() <= 10,
{
    let mut rev: Vec<char> = Vec::new();
    let first: u8 = (n % 10) as u8;
    rev.push((first + 48u8) as char);
    let mut m: u32 = n / 10;
    let mut bound: u32 = 429_496_729;
    assert(rev@.reverse() =~= seq![digit_char((n % 10) as int)]);
    assert(decimal(n as nat) == leading(m as nat) + rev@.reverse());
    while m > 0
        invariant
            decimal(n as nat) == leading(m as nat) + rev@.reverse(),
            1 <= rev@.len() <= 10,
            m as int <= bound,
            rev@.len() == 1 ==> bound == 429_496_729,
            rev@.len() == 2 ==> bound == 42_949_672,
            rev@.len() == 3 ==> bound == 4_294_967,
            rev@.len() == 4 ==> bound == 429_496,
            rev@.len() == 5 ==> bound == 42_949,
            rev@.len() == 6 ==> bound == 4294,
            rev@.len() == 7 ==> bound == 429,
            rev@.len() == 8 ==> bound == 42,
            rev@.len() == 9 ==> bound == 4,
            rev@.len() == 10 ==> bound == 0,
        decreases m,
    {
        let ghost before = rev@;
        let d: u8 = (m % 10) as u8;
        let c = (d + 48u8) as char;
        rev.push(c);
        assert(c == digit_char((m % 10) as int));
        assert(rev@.reverse() =~= seq![c] + before.reverse());
        assert(leading(m as nat) == leading((m / 10) as nat).push(c));
        assert(leading((m / 10) as nat).push(c) + before.reverse() =~= leading((m / 10) as nat) + (
        seq![c] + before.reverse()));
        m = m / 10;
        bound = bound / 10;
    }
    rev
}

/// The number in decimal notation.
pub fn format_decimal(n: u32) -> (r: String)
    ensures
        r@ == decimal(n as nat),
{
    format_zero_padded(n, 0)
}

/// The number in decimal notation, with zeros in front where it has fewer
/// than `width` digits.
pub fn format_zero_padded(n: u32, width: usize) -> (r: String)
    ensures
        r@ == zero_padded(n as nat, width as nat),
{
    let rev = digits_reversed(n);
    let mut out = String::new();
    let mut pad: usize = 0;
    let want: usize = if width > rev.len() {
        width - rev.len()
    } else {
        0
    };
    while pad < want
        invariant
            pad <= want,
            out@ == Seq::new(pad as nat, |i: int| '0'),
        decreases want - pad,
    {
        out.push('0');
        pad = pad + 1;
        assert(out@ =~= Seq::new(pad as nat, |i: int| '0'));
    }
    let ghost zeros = out@;
    let mut i: usize = rev.len();
    while i > 0
        invariant
            i <= rev@.len(),
            out@ == zeros + rev@.reverse().take(rev@.len() - i),
        decreases i,
    {
        i = i - 1;
        out.push(rev[i]);
        assert(rev@.reverse().take(rev@.len() - i) =~= rev@.reverse().take(rev@.len() - i - 1).push(
            rev@[i as int],
        ));
        assert(out@ =~= zeros + rev@.reverse().take(rev@.len() - i));
    }
    assert(rev@.reverse().take(rev@.len() as int) =~= rev@.reverse());
    assert(rev@.reverse().len() == rev@.len());
    assert(out@ =~= zero_padded(n as nat, width as nat));
    out
}

/// Every character is a decimal digit.
pub open spec fn all_digits(s: Seq<char>) -> bool {
    forall|i: int| 0 <= i < s.len() ==> is_digit(#[trigger] s[i])
}

/// The number that a sequence of decimal digits stands for.
pub open spec fn digits_value(s: Seq<char>) -> nat
    decreases s.len(),
{
    if s.len() == 0 {
        0
    } else {
        (digits_value(s.drop_last()) * 10 + digit_value(s.last())) as nat
    }
}

/// The text without a plus sign in front.
pub open spec fn unsigned_part(s: Seq<char>) -> Seq<char> {
    if s.len() > 0 && s[0] == '+' {
        s.skip(1)
    } else {
        s
    }
}

/// Why a text is no number.
#[derive(Debug, Clone, Copy, PartialEq, Eq, Structural)]
pub enum ParseNumberError {
    /// The text is empty.
    Empty,
    /// The text holds something other than decimal digits behind an
    /// optional plus sign, or no digit at all.
    InvalidDigit,
    /// The number is too large.
    Overflow,
}

/// The number that a text stands for: decimal digits, with an optional plus
/// sign in front, that name a number of 32 bits.
pub open spec fn parsed_u32(s: Seq<char>) -> Result<u32, ParseNumberError> {
    let body = unsigned_part(s);
    if s.len() == 0 {
        Err(ParseNumberError::Empty)
    } else if body.len() == 0 || !all_digits(body) {
        Err(ParseNumberError::InvalidDigit)
    } else if digits_value(body) > u32::MAX {
        Err(ParseNumberError::Overflow)
    } else {
        Ok(digits_value(body) as u32)
    }
}

/// A sequence of digits stands for at least as much as any part of it from
/// the start.
proof fn lemma_digits_value_grows(s: Seq<char>, k: int)
    requires
        all_digits(s),
        0 <= k <= s.len(),
    ensures
        digits_value(s.take(k)) <= digits_value(s),
    decreases s.len(),
{
    if k == s.len() {
        assert(s.take(k) == s);
    } else {
        let rest = s.drop_last();
        assert(all_digits(rest)) by {
            assert forall|i: int| 0 <= i < rest.len() implies is_digit(#[trigger] rest[i]) by {
                assert(rest[i] == s[i]);
            }
        }
        lemma_digits_value_grows(rest, k);
        assert(rest.take(k) == s.take(k));
        assert(is_digit(s[s.len() - 1]));
    }
}

/// Reads a number of 32 bits in decimal notation.
pub fn parse_u32(s: &str) -> (r: Result<u32, ParseNumberError>)
    ensures
        r == parsed_u32(s@),
{
    let chars = chars_of(s);
    if chars.len() == 0 {
        return Err(ParseNumberError::Empty);
    }
    let start: usize = if chars[0] == '+' {
        1
    } else {
        0
    };
    let ghost body = unsigned_part(s@);
    assert(body == chars@.skip(start as int));
    if start == chars.len() {
        return Err(ParseNumberError::InvalidDigit);
    }
    let mut i: usize = start;
    while i < chars.len()
        invariant
            start <= i <= chars.len(),
            s@.len() > 0,
            body == unsigned_part(s@),
            body == chars@.skip(start as int),
            forall|j: int| 0 <= j < i - start ==> is_digit(#[trigger] body[j]),
        decreases chars.len() - i,
    {
        if !char_is_digit(chars[i]) {
            assert(body[i - start] == chars@[i as int]);
            return Err(ParseNumberError::InvalidDigit);
        }
        assert(body[i - start] == chars@[i as int]);
        i = i + 1;
    }
    assert(all_digits(body));
    let mut acc: u64 = 0;
    let mut i: usize = start;
    while i < chars.len()
        invariant
            start <= i <= chars.len(),
            start < chars.len(),
            s@.len() > 0,
            body == unsigned_part(s@),
            body == chars@.skip(start as int),
            all_digits(body),
            acc <= u32::MAX,
            acc as nat == digits_value(body.take(i - start)),
        decreases chars.len() - i,
    {
        let c = chars[i];
        assert(body[i - start] == c);
        assert(is_digit(body[i - start]));
        let d: u64 = (c as u32 - 48) as u64;
        assert(body.take(i - start + 1).drop_last() == body.take(i - start));
        assert(body.take(i - start + 1).last() == c);
        let next: u64 = acc * 10 + d;
        assert(next as nat == digits_value(body.take(i - start + 1)));
        if next > 0xffff_ffff {
            proof {
                lemma_digits_value_grows(body, i - start + 1);
            }
            return Err(ParseNumberError::Overflow);
        }
        acc = next;
        i = i + 1;
    }
    assert(body.take(body.len() as int) == body);
    Ok(acc as u32)
}

/// The character is white space: one of the characters to which Unicode
/// gives the property of that name.
pub open spec fn is_white_space(c: char) -> bool {
    let n = c as u32;
    ||| 0x09 <= n <= 0x0d
    ||| n == 0x20
    ||| n == 0x85
    ||| n == 0xa0
    ||| n == 0x1680
    ||| 0x2000 <= n <= 0x200a
    ||| n == 0x2028
    ||| n == 0x2029
    ||| n == 0x202f
    ||| n == 0x205f
    ||| n == 0x3000
}

/// Whether the character is white space.
pub fn char_is_white_space(c: char) -> (b: bool)
    ensures
        b == is_white_space(c),
{
    let n: u32 = c as u32;
    (0x09 <= n && n <= 0x0d) || n == 0x20 || n == 0x85 || n == 0xa0 || n == 0x1680 || (0x2000 <= n
        && n <= 0x200a) || n == 0x2028 || n == 0x2029 || n == 0x202f || n == 0x205f || n == 0x3000
}

/// The text without the white space at its start.
pub open spec fn trimmed_start(s: Seq<char>) -> Seq<char>
    decreases s.len(),
{
    if s.len() > 0 && is_white_space(s[0]) {
        trimmed_start(s.skip(1))
    } else {
        s
    }
}

/// The text without the white space at its end.
pub open spec fn trimmed_end(s: Seq<char>) -> Seq<char>
    decreases s.len(),
{
    if s.len() > 0 && is_white_space(s.last()) {
        trimmed_end(s.drop_last())
    } else {
        s
    }
}

/// The text without the white space at its start and its end.
pub open spec fn trimmed(s: Seq<char>) -> Seq<char> {
    trimmed_end(trimmed_start(s))
}

/// The text without the white space at its start and its end.
pub fn trim(s: &str) -> (r: String)
    ensures
        r@ == trimmed(s@),
{
    let chars = chars_of(s);
    let mut start: usize = 0;
    assert(chars@.skip(0) == chars@);
    while start < chars.len() && char_is_white_space(chars[start])
        invariant
            start <= chars@.len(),
            trimmed_start(chars@) == trimmed_start(chars@.skip(start as int)),
        decreases chars@.len() - start,
    {
        assert(chars@.skip(start as int)[0] == chars@[start as int]);
        assert(chars@.skip(start as int).skip(1) == chars@.skip(start + 1));
        start = start + 1;
    }
    let ghost body = chars@.skip(start as int);
    assert(trimmed_start(chars@) == body) by {
        if start < chars@.len() {
            assert(body[0] == chars@[start as int]);
        }
    }
    let mut end: usize = chars.len();
    assert(chars@.subrange(start as int, end as int) == body);
    while end > start && char_is_white_space(chars[end - 1])
        invariant
            start <= end <= chars@.len(),
            trimmed_end(body) == trimmed_end(chars@.subrange(start as int, end as int)),
        decreases end,
    {
        assert(chars@.subrange(start as int, end as int).last() == chars@[end - 1]);
        assert(chars@.subrange(start as int, end as int).drop_last() == chars@.subrange(
            start as int,
            end - 1,
        ));
        end = end - 1;
    }
    assert(trimmed_end(body) == chars@.subrange(start as int, end as int)) by {
        if end > start {
            assert(chars@.subrange(start as int, end as int).last() == chars@[end - 1]);
        }
    }
    slice_string(&chars, start, end)
}

/// The characters from position `from` up to position `to`, as a string.
pub fn slice_string(chars: &Vec<char>, from: usize, to: usize) -> (r: String)
    requires
        from <= to <= chars@.len(),
    ensures
        r@ == chars@.subrange(from as int, to as int),
{
    let mut out = String::new();
    let mut i: usize = from;
    while i < to
        invariant
            from <= i <= to <= chars@.len(),
            out@ == chars@.subrange(from as int, i as int),
        decreases to - i,
    {
        out.push(chars[i]);
        assert(chars@.subrange(from as int, i + 1) == chars@.subrange(from as int, i as int).push(
            chars@[i as int],
        ));
        i = i + 1;
    }
    out
}

/// The first position of a character among the characters.
pub fn find_char(chars: &Vec<char>, c: char) -> (r: Option<usize>)
    ensures
        match r {
            Some(i) => crate::lookup::first_position(chars@, c) == i,
            None => crate::lookup::first_position(chars@, c) == -1,
        },
{
    let mut i: usize = 0;
    while i < chars.len()
        invariant
            i <= chars@.len(),
            forall|j: int| 0 <= j < i ==> chars@[j] != c,
        decreases chars@.len() - i,
    {
        if chars[i] == c {
            proof {
                crate::lookup::lemma_first_position_is(chars@, c, i as int);
            }
            return Some(i);
        }
        i = i + 1;
    }
    proof {
        crate::lookup::lemma_first_position_is(chars@, c, -1);
    }
    None
}

} // verus!
