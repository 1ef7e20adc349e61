//! Numbers as text: decimal and hexadecimal digits, written and read.
use vstd::prelude::*;

use crate::text::chars_of;

verus! {

/// The character of a decimal digit.
pub open spec fn digit_char(d: nat) -> char {
    if d == 0 { '0' }
    else if d == 1 { '1' }
    else if d == 2 { '2' }
    else if d == 3 { '3' }
    else if d == 4 { '4' }
    else if d == 5 { '5' }
    else if d == 6 { '6' }
    else if d == 7 { '7' }
    else if d == 8 { '8' }
    else { '9' }
}

/// The decimal digits of a number, without leading zeros.
pub open spec fn decimal(n: nat) -> Seq<char>
    decreases n,
{
    if n < 10 {
        seq![digit_char(n)]
    } else {
        decimal(n / 10).push(digit_char(n % 10))
    }
}

/// The decimal digits of a number.
pub fn decimal_of(n: u64) -> (r: String)
    ensures
        r@ == decimal(n as nat),
    decreases n,
{
    let last: u8 = (n % 10) as u8;
    let mut s = if n < 10 {
        String::new()
    } else {
        decimal_of(n / 10)
    };
    let ghost head = s@;
    s.push((48u8 + last) as char);
    proof {
        if n < 10 {
            assert(head.push(digit_char(n as nat)) =~= seq![digit_char(n as nat)]);
        }
    }
    s
}

/// Whether the character is a decimal digit.
pub open spec fn is_digit(c: char) -> bool {
    '0' <= c <= '9'
}

/// The value of a decimal digit.
pub open spec fn digit_value(c: char) -> nat {
    (c as u32 - 48) as nat
}

/// Why a text is not an unsigned number of some size.
pub enum NumberError {
    Empty,
    InvalidDigit,
    TooLarge,
}

impl NumberError {
    /// The cause in words.
    pub open spec fn words(self) -> Seq<char> {
        match self {
            NumberError::Empty => "cannot parse integer from empty string"@,
            NumberError::InvalidDigit => "invalid digit found in string"@,
            NumberError::TooLarge => "number too large to fit in target type"@,
        }
    }

    /// The cause in words.
    pub fn message(&self) -> (r: String)
        ensures
            r@ == self.words(),
    {
        match self {
            NumberError::Empty => "cannot parse integer from empty string".to_owned(),
            NumberError::InvalidDigit => "invalid digit found in string".to_owned(),
            NumberError::TooLarge => "number too large to fit in target type".to_owned(),
        }
    }
}

/// The number that the digits of `s` append to `acc`, up to `max`; the first
/// character that is no digit, or that makes the number too large, decides.
pub open spec fn read_digits(s: Seq<char>, acc: nat, max: nat) -> Result<nat, NumberError>
    decreases s.len(),
{
    if s.len() == 0 {
        Ok(acc)
    } else if !is_digit(s[0]) {
        Err(NumberError::InvalidDigit)
    } else {
        let v = acc * 10 + digit_value(s[0]);
        if v > max {
            Err(NumberError::TooLarge)
        } else {
            read_digits(s.subrange(1, s.len() as int), v, max)
        }
    }
}

/// The unsigned number that `s` writes in decimal, with at most one `+` in front.
pub open spec fn read_unsigned(s: Seq<char>, max: nat) -> Result<nat, NumberError> {
    if s.len() == 0 {
        Err(NumberError::Empty)
    } else if s[0] == '+' && s.len() > 1 {
        read_digits(s.subrange(1, s.len() as int), 0, max)
    } else {
        read_digits(s, 0, max)
    }
}

/// The `u64` that `s` writes in decimal.
pub fn parse_u64(s: &str) -> (r: Result<u64, NumberError>)
    ensures
        match r {
            Ok(n) => read_unsigned(s@, u64::MAX as nat) == Ok::<nat, NumberError>(n as nat),
            Err(e) => read_unsigned(s@, u64::MAX as nat) == Err::<nat, NumberError>(e),
        },
{
    let v = chars_of(s);
    if v.len() == 0 {
        return Err(NumberError::Empty);
    }
    let mut i: usize = if v[0] == '+' && v.len() > 1 {
        1
    } else {
        0
    };
    let mut acc: u64 = 0;
    let ghost whole = read_unsigned(s@, u64::MAX as nat);
    assert(v@.subrange(0, v@.len() as int) =~= v@);
    while i < v.len()
        invariant
            i <= v@.len(),
            whole == read_digits(v@.subrange(i as int, v@.len() as int), acc as nat, u64::MAX as nat),
            whole == read_unsigned(s@, u64::MAX as nat),
        decreases v@.len() - i,
    {
        let ghost tail = v@.subrange(i as int, v@.len() as int);
        assert(tail.subrange(1, tail.len() as int) =~= v@.subrange(i + 1, v@.len() as int));
        let c: char = v[i];
        if !(c >= '0' && c <= '9') {
            return Err(NumberError::InvalidDigit);
        }
        let d: u64 = (c as u32 - 48) as u64;
        if acc > u64::MAX / 10 || acc * 10 > u64::MAX - d {
            return Err(NumberError::TooLarge);
        }
        acc = acc * 10 + d;
        i += 1;
    }
    Ok(acc)
}

/// A digit string is read back as the number it was written for.
pub proof fn decimal_reads_back(n: nat, max: nat)
    requires
        n <= max,
    ensures
        read_unsigned(decimal(n), max) == Ok::<nat, NumberError>(n),
{
    decimal_is_digits(n);
    lemma_read_decimal(n, Seq::empty(), max);
    assert(decimal(n) + Seq::<char>::empty() =~= decimal(n));
    reveal_with_fuel(read_digits, 2);
}

/// Every character of a decimal numeral is a digit, and there is at least one.
pub proof fn decimal_is_digits(n: nat)
    ensures
        decimal(n).len() > 0,
        forall|i: int| 0 <= i < decimal(n).len() ==> is_digit(#[trigger] decimal(n)[i]),
    decreases n,
{
    if n >= 10 {
        decimal_is_digits(n / 10);
    }
}

proof fn lemma_read_decimal(n: nat, rest: Seq<char>, max: nat)
    requires
        n <= max,
    ensures
        read_digits(decimal(n) + rest, 0, max) == read_digits(rest, n, max),
    decreases n,
{
    if n < 10 {
        let s = decimal(n) + rest;
        assert(s.subrange(1, s.len() as int) =~= rest);
        assert(s[0] == digit_char(n));
    } else {
        let d = digit_char(n % 10);
        let more = seq![d] + rest;
        assert(decimal(n) + rest =~= decimal(n / 10) + more);
        lemma_read_decimal(n / 10, more, max);
        assert(more.subrange(1, more.len() as int) =~= rest);
        assert(more[0] == d);
    }
}

/// The lower-case hexadecimal digit of a value below sixteen.
pub open spec fn hex_digit(d: int) -> char {
    if d < 10 {
        digit_char(d as nat)
    } else if d == 10 {
        'a'
    } else if d == 11 {
        'b'
    } else if d == 12 {
        'c'
    } else if d == 13 {
        'd'
    } else if d == 14 {
        'e'
    } else {
        'f'
    }
}

/// Two lower-case hexadecimal digits for each byte.
pub open spec fn hex(bytes: Seq<u8>) -> Seq<char>
    decreases bytes.len(),
{
    if bytes.len() == 0 {
        Seq::empty()
    } else {
        let b = bytes.last() as int;
        hex(bytes.drop_last()) + seq![hex_digit(b / 16), hex_digit(b % 16)]
    }
}

/// The hexadecimal digit of a number below 16.
pub fn hex_char(d: u8) -> (r: char)
    requires
        d < 16,
    ensures
        r == hex_digit(d as int),
{
    if d < 10 {
        (48u8 + d) as char
    } else {
        (87u8 + d) as char
    }
}

/// The bytes in lower-case hexadecimal.
pub fn hex_of(bytes: &Vec<u8>) -> (r: String)
    ensures
        r@ == hex(bytes@),
{
    let mut out = String::new();
    let mut i: usize = 0;
    while i < bytes.len()
        invariant
            i <= bytes@.len(),
            out@ == hex(bytes@.take(i as int)),
        decreases bytes@.len() - i,
    {
        let ghost before = out@;
        let b: u8 = bytes[i];
        out.push(hex_char(b / 16));
        out.push(hex_char(b % 16));
        assert(bytes@.take(i + 1).drop_last() =~= bytes@.take(i as int));
        assert(out@ =~= before + seq![hex_digit(b as int / 16), hex_digit(b as int % 16)]);
        i += 1;
    }
    assert(bytes@.take(i as int) =~= bytes@);
    out
}

/// Hexadecimal text has two digits for each byte.
pub proof fn hex_length(bytes: Seq<u8>)
    ensures
        hex(bytes).len() == 2 * bytes.len(),
    decreases bytes.len(),
{
    if bytes.len() > 0 {
        hex_length(bytes.drop_last());
    }
}

/// A number that is read is no larger than the largest that is let in.
pub proof fn read_numbers_fit(s: Seq<char>, max: nat)
    ensures
        read_unsigned(s, max) matches Ok(n) ==> n <= max,
{
    lemma_read_digits_fit(s, 0, max);
    if s.len() > 0 {
        lemma_read_digits_fit(s.subrange(1, s.len() as int), 0, max);
    }
}

proof fn lemma_read_digits_fit(s: Seq<char>, acc: nat, max: nat)
    requires
        acc <= max,
    ensures
        read_digits(s, acc, max) matches Ok(n) ==> n <= max,
    decreases s.len(),
{
    if s.len() > 0 && is_digit(s[0]) {
        let next = acc * 10 + digit_value(s[0]);
        if next <= max {
            lemma_read_digits_fit(s.subrange(1, s.len() as int), next as nat, max);
        }
    }
}

/// Bytes are written one after the other, and no two bytes are written alike.
pub proof fn bytes_are_written_one_after_the_other(a: Seq<u8>, b: Seq<u8>, x: u8, y: u8)
    ensures
        hex(a + b) == hex(a) + hex(b),
        hex(seq![x]) == hex(seq![y]) ==> x == y,
        hex(Seq::empty()) == Seq::<char>::empty(),
    decreases b.len(),
{
    reveal_with_fuel(hex, 2);
    assert(seq![x].drop_last() =~= Seq::<u8>::empty());
    assert(seq![y].drop_last() =~= Seq::<u8>::empty());
    if hex(seq![x]) == hex(seq![y]) {
        assert(hex(seq![x]) =~= seq![hex_digit(x as int / 16), hex_digit(x as int % 16)]);
        assert(hex(seq![y]) =~= seq![hex_digit(y as int / 16), hex_digit(y as int % 16)]);
        assert(hex(seq![x])[0] == hex_digit(x as int / 16));
        assert(hex(seq![x])[1] == hex_digit(x as int % 16));
        assert(hex(seq![y])[0] == hex_digit(y as int / 16));
        assert(hex(seq![y])[1] == hex_digit(y as int % 16));
    }
    if b.len() == 0 {
        assert(a + b =~= a);
        assert(hex(a) + hex(b) =~= hex(a));
    } else {
        bytes_are_written_one_after_the_other(a, b.drop_last(), x, y);
        assert((a + b).drop_last() =~= a + b.drop_last());
        assert(hex(a + b) =~= hex(a) + hex(b));
    }
}

/// What is no digit is no number, and neither is nothing; a plus sign in front is let
/// pass.
pub proof fn only_digits_are_read(s: Seq<char>, max: nat)
    ensures
        read_unsigned(Seq::empty(), max) is Err,
        read_digits(s, 0, max) is Ok ==> forall|i: int|
            0 <= i < s.len() ==> is_digit(#[trigger] s[i]),
        s.len() > 0 && s[0] != '+' ==> read_unsigned(seq!['+'] + s, max) == read_unsigned(s, max),
{
    lemma_only_digits(s, 0, max);
    let signed = seq!['+'] + s;
    assert(signed.subrange(1, signed.len() as int) =~= s);
}

proof fn lemma_only_digits(s: Seq<char>, acc: nat, max: nat)
    ensures
        read_digits(s, acc, max) is Ok ==> forall|i: int|
            0 <= i < s.len() ==> is_digit(#[trigger] s[i]),
    decreases s.len(),
{
    if s.len() > 0 && is_digit(s[0]) {
        let tail = s.subrange(1, s.len() as int);
        let v = acc * 10 + digit_value(s[0]);
        lemma_only_digits(tail, v as nat, max);
        if read_digits(s, acc, max) is Ok {
            assert forall|i: int| 0 <= i < s.len() implies is_digit(#[trigger] s[i]) by {
                if i > 0 {
                    assert(tail[i - 1] == s[i]);
                }
            }
        }
    }
}

} // verus!
