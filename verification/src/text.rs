//! Byte strings: comparison, and decimal numerals read and written.

use vstd::prelude::*;

verus! {

/// Whether two byte strings are equal.
pub fn bytes_eq(a: &[u8], b: &[u8]) -> (r: bool)
    ensures
        r == (a@ == b@),
{
    if a.len() != b.len() {
        return false;
    }
    let mut i: usize = 0;
    while i < a.len()
        invariant
            i <= a.len(),
            a.len() == b.len(),
            forall|j: int| 0 <= j < i ==> a[j] == b[j],
        decreases a.len() - i,
    {
        if a[i] != b[i] {
            return false;
        }
        i += 1;
    }
    assert(a@ =~= b@);
    true
}

/// A copy of a byte string.
pub fn bytes_to_vec(a: &[u8]) -> (v: Vec<u8>)
    ensures
        v@ == a@,
{
    let mut v: Vec<u8> = Vec::new();
    let mut i: usize = 0;
    while i < a.len()
        invariant
            i <= a.len(),
            v@ == a@.take(i as int),
        decreases a.len() - i,
    {
        v.push(a[i]);
        i += 1;
        assert(a@.take(i as int) =~= a@.take(i - 1).push(a[i - 1]));
    }
    assert(a@.take(a.len() as int) =~= a@);
    v
}

/// Appends `tail` to `buffer`.
pub fn append_bytes(buffer: &mut Vec<u8>, tail: &[u8])
    ensures
        final(buffer)@ == old(buffer)@ + tail@,
{
    let mut i: usize = 0;
    while i < tail.len()
        invariant
            i <= tail.len(),
            buffer@ == old(buffer)@ + tail@.take(i as int),
        decreases tail.len() - i,
    {
        buffer.push(tail[i]);
        i += 1;
        assert(tail@.take(i as int) =~= tail@.take(i - 1).push(tail[i - 1]));
        assert(buffer@ =~= old(buffer)@ + tail@.take(i as int));
    }
    assert(tail@.take(tail.len() as int) =~= tail@);
}

/// The ASCII decimal digits.
pub open spec fn is_digit(b: u8) -> bool {
    48 <= b <= 57
}

/// A nonempty run of decimal digits.
pub open spec fn is_numeral(s: Seq<u8>) -> bool {
    s.len() > 0 && forall|i: int| 0 <= i < s.len() ==> is_digit(#[trigger] s[i])
}

/// The number that a run of decimal digits denotes.
pub open spec fn numeral_value(s: Seq<u8>) -> nat
    decreases s.len(),
{
    if s.len() == 0 {
        0
    } else {
        (numeral_value(s.drop_last()) * 10 + (s.last() - 48)) as nat
    }
}

/// The number that `s` denotes, where `s` is a numeral and its value is at
/// most `max`.
pub open spec fn bounded_value(s: Seq<u8>, max: nat) -> Option<nat> {
    if is_numeral(s) && numeral_value(s) <= max {
        Some(numeral_value(s))
    } else {
        None
    }
}

/// The 32-bit integer that `s` denotes, where `s` is a numeral and its value
/// fits.
pub open spec fn number_value(s: Seq<u8>) -> Option<i32> {
    match bounded_value(s, i32::MAX as nat) {
        Some(v) => Some(v as i32),
        None => None,
    }
}

/// Reads an unsigned decimal numeral of a value up to `max`.
fn parse_bounded(s: &[u8], max: u64) -> (r: Option<u64>)
    requires
        max <= 0xffff_ffff,
    ensures
        match r {
            Some(v) => bounded_value(s@, max as nat) == Some(v as nat),
            None => bounded_value(s@, max as nat) is None,
        },
{
    if s.len() == 0 {
        return None;
    }
    let mut value: u64 = 0;
    let mut fits = true;
    let mut i: usize = 0;
    while i < s.len()
        invariant
            i <= s.len(),
            max <= 0xffff_ffff,
            forall|j: int| 0 <= j < i ==> is_digit(#[trigger] s[j]),
            fits ==> value == numeral_value(s@.take(i as int)) && value <= max,
            !fits ==> numeral_value(s@.take(i as int)) > max,
        decreases s.len() - i,
    {
        let b = s[i];
        if b < 48 || b > 57 {
            return None;
        }
        assert(s@.take(i + 1).drop_last() =~= s@.take(i as int));
        assert(s@.take(i + 1).last() == b);
        if fits {
            value = value * 10 + (b - 48) as u64;
            if value > max {
                fits = false;
            }
        }
        i += 1;
    }
    assert(s@.take(s.len() as int) =~= s@);
    if fits {
        Some(value)
    } else {
        None
    }
}

/// Reads an unsigned decimal numeral.
pub fn parse_number(s: &[u8]) -> (r: Option<i32>)
    ensures
        r == number_value(s@),
{
    match parse_bounded(s, 0x7fff_ffff) {
        Some(v) => Some(v as i32),
        None => None,
    }
}

/// The number of white-space bytes at the front of `s` from position `p`
/// on.
pub open spec fn spaces(s: Seq<u8>, p: int) -> nat
    decreases s.len() - p,
{
    if 0 <= p < s.len() && is_space(s[p]) {
        1 + spaces(s, p + 1)
    } else {
        0
    }
}

/// The number of white-space bytes at the end of `s`.
pub open spec fn rear_gap(s: Seq<u8>) -> nat
    decreases s.len(),
{
    if s.len() > 0 && is_space(s.last()) {
        1 + rear_gap(s.drop_last())
    } else {
        0
    }
}

/// Space, tab, line feed, vertical tab, form feed and carriage return.
pub open spec fn is_space(b: u8) -> bool {
    b == 32 || 9 <= b <= 13
}

/// `s` without the white space at its two ends.
pub open spec fn trimmed(s: Seq<u8>) -> Seq<u8> {
    if spaces(s, 0) >= s.len() {
        Seq::empty()
    } else {
        s.subrange(spaces(s, 0) as int, s.len() - rear_gap(s))
    }
}

/// The 32-bit integer that a line of input denotes: white space at the two
/// ends aside, a decimal numeral that a sign may precede, of a value that
/// fits.
pub open spec fn integer_value(line: Seq<u8>) -> Option<i32> {
    let t = trimmed(line);
    if t.len() > 0 && t[0] == '-' as u8 {
        match bounded_value(t.drop_first(), 0x8000_0000) {
            Some(v) => Some((-v) as i32),
            None => None,
        }
    } else if t.len() > 0 && t[0] == '+' as u8 {
        number_value(t.drop_first())
    } else {
        number_value(t)
    }
}

/// Whether `b` is white space.
pub fn space(b: u8) -> (r: bool)
    ensures
        r == is_space(b),
{
    b == 32 || (9 <= b && b <= 13)
}

/// A copy of `s[from..to]`.
pub(crate) fn bytes_part(s: &[u8], from: usize, to: usize) -> (v: Vec<u8>)
    requires
        from <= to <= s.len(),
    ensures
        v@ == s@.subrange(from as int, to as int),
{
    let mut v: Vec<u8> = Vec::new();
    let mut i: usize = from;
    while i < to
        invariant
            from <= i <= to <= s.len(),
            v@ == s@.subrange(from as int, i as int),
        decreases to - i,
    {
        v.push(s[i]);
        i += 1;
        assert(s@.subrange(from as int, i as int) =~= s@.subrange(from as int, i - 1).push(
            s[i - 1],
        ));
    }
    v
}

/// The bounds of `line` without the white space at its two ends.
fn trim(line: &[u8]) -> (bounds: (usize, usize))
    ensures
        bounds.0 <= bounds.1 <= line.len(),
        line@.subrange(bounds.0 as int, bounds.1 as int) == trimmed(line@),
{
    let mut from: usize = 0;
    while from < line.len() && space(line[from])
        invariant
            from <= line.len(),
            spaces(line@, 0) == from + spaces(line@, from as int),
        decreases line.len() - from,
    {
        from += 1;
    }
    if from >= line.len() {
        assert(line@.subrange(0, 0) =~= Seq::<u8>::empty());
        return (0, 0);
    }
    let mut to: usize = line.len();
    assert(line@.take(line.len() as int) =~= line@);
    while space(line[to - 1])
        invariant
            from < to <= line.len(),
            !is_space(line@[from as int]),
            rear_gap(line@) == (line.len() - to) + rear_gap(line@.take(to as int)),
        decreases to,
    {
        assert(line@.take(to as int).drop_last() =~= line@.take(to - 1));
        assert(line@.take(to as int).last() == line@[to - 1]);
        to -= 1;
    }
    assert(line@.take(to as int).last() == line@[to - 1]);
    (from, to)
}

/// Reads the integer that a line of input holds.
pub fn parse_integer(line: &[u8]) -> (r: Option<i32>)
    ensures
        r == integer_value(line@),
{
    let (from, to) = trim(line);
    let text = bytes_part(line, from, to);
    if text.len() > 0 && text[0] == '-' as u8 {
        let digits = bytes_part(text.as_slice(), 1, text.len());
        assert(digits@ =~= text@.drop_first());
        match parse_bounded(digits.as_slice(), 0x8000_0000) {
            Some(v) => Some((-(v as i64)) as i32),
            None => None,
        }
    } else if text.len() > 0 && text[0] == '+' as u8 {
        let digits = bytes_part(text.as_slice(), 1, text.len());
        assert(digits@ =~= text@.drop_first());
        parse_number(digits.as_slice())
    } else {
        parse_number(text.as_slice())
    }
}

/// `String::push`: appends one character to the end of a string.
#[verifier::external_body]
pub(crate) fn push_char(s: &mut String, c: char)
    ensures
        final(s)@ == old(s)@.push(c),
{
    s.push(c);
}

/// The character of a decimal digit.
pub open spec fn digit_char(d: nat) -> char {
    ((48 + d) as u8) as char
}

/// The decimal numeral of a natural number.
pub open spec fn decimal(n: nat) -> Seq<char>
    decreases n,
{
    if n < 10 {
        seq![digit_char(n)]
    } else {
        decimal(n / 10).push(digit_char(n % 10))
    }
}

/// The decimal numeral of an integer, with a minus sign where it is
/// negative.
pub open spec fn signed_decimal(x: int) -> Seq<char> {
    if x < 0 {
        seq!['-'] + decimal((-x) as nat)
    } else {
        decimal(x as nat)
    }
}

/// `n` spaces.
pub open spec fn blanks(n: int) -> Seq<char> {
    Seq::new(
        if n > 0 {
            n as nat
        } else {
            0
        },
        |i: int| ' ',
    )
}

/// `s` behind the spaces that bring it to `width` characters.
pub open spec fn padded_left(s: Seq<char>, width: nat) -> Seq<char> {
    blanks(width - s.len()) + s
}

/// `s` before the spaces that bring it to `width` characters.
pub open spec fn padded_right(s: Seq<char>, width: nat) -> Seq<char> {
    s + blanks(width - s.len())
}

/// Appends the decimal numeral of `n`.
pub fn push_decimal(s: &mut String, n: u64)
    ensures
        final(s)@ == old(s)@ + decimal(n as nat),
    decreases n,
{
    if n >= 10 {
        push_decimal(s, n / 10);
    }
    push_char(s, ((48 + n % 10) as u8) as char);
    assert(final(s)@ =~= old(s)@ + decimal(n as nat));
}

/// Appends the decimal numeral of `x`.
pub fn push_signed(s: &mut String, x: i32)
    ensures
        final(s)@ == old(s)@ + signed_decimal(x as int),
{
    if x < 0 {
        push_char(s, '-');
        push_decimal(s, (-(x as i64)) as u64);
        assert(final(s)@ =~= old(s)@ + signed_decimal(x as int));
    } else {
        push_decimal(s, x as u64);
    }
}

/// Appends `n` spaces.
pub fn push_blanks(s: &mut String, n: usize)
    ensures
        final(s)@ == old(s)@ + blanks(n as int),
{
    let mut i: usize = 0;
    assert(s@ =~= old(s)@ + blanks(0));
    while i < n
        invariant
            i <= n,
            s@ == old(s)@ + blanks(i as int),
        decreases n - i,
    {
        push_char(s, ' ');
        i += 1;
        assert(s@ =~= old(s)@ + blanks(i as int));
    }
}

} // verus!
