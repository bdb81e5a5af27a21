//! Decimal notation: reading integers from text and writing them.

use crate::text::{chars_of, trim};
use vstd::prelude::*;

verus! {

/// Why a text is not an integer of the wanted range.
#[derive(Clone, Copy, Debug, PartialEq, Eq, Structural)]
pub enum ParseIntError {
    /// There are no characters.
    Empty,
    /// A character is not a digit, or there is a sign with no digits.
    InvalidDigit,
    /// The digits stand for too large a number.
    PosOverflow,
}

impl ParseIntError {
    /// The error in words.
    pub open spec fn words(self) -> Seq<char> {
        match self {
            ParseIntError::Empty => "cannot parse integer from empty string"@,
            ParseIntError::InvalidDigit => "invalid digit found in string"@,
            ParseIntError::PosOverflow => "number too large to fit in target type"@,
        }
    }

    /// The error in words.
    pub fn message(&self) -> (r: String)
        ensures
            r@ == self.words(),
    {
        match self {
            ParseIntError::Empty => "cannot parse integer from empty string".to_owned(),
            ParseIntError::InvalidDigit => "invalid digit found in string".to_owned(),
            ParseIntError::PosOverflow => "number too large to fit in target type".to_owned(),
        }
    }
}

/// Whether a character is a decimal digit.
pub open spec fn is_digit(c: char) -> bool {
    '0' <= c <= '9'
}

/// Whether every character is a decimal digit.
pub open spec fn all_digits(s: Seq<char>) -> bool {
    forall|i: int| 0 <= i < s.len() ==> is_digit(#[trigger] s[i])
}

/// The number that a run of digits stands for.
pub open spec fn digits_value(s: Seq<char>) -> int
    decreases s.len(),
{
    if s.len() == 0 {
        0
    } else {
        digits_value(s.drop_last()) * 10 + (s.last() as int - '0' as int)
    }
}

/// Whether a run of digits at the start of the text stands for more than `max`.
pub open spec fn overflows(s: Seq<char>, max: int) -> bool {
    exists|k: int|
        0 <= k <= s.len() && all_digits(#[trigger] s.take(k)) && digits_value(s.take(k)) > max
}

/// What reading the digits of a number up to `max` gives. The first character that
/// cannot be taken decides the error.
pub open spec fn parsed_digits(s: Seq<char>, max: int) -> Result<int, ParseIntError> {
    if overflows(s, max) {
        Err(ParseIntError::PosOverflow)
    } else if s.len() == 0 || !all_digits(s) {
        Err(ParseIntError::InvalidDigit)
    } else {
        Ok(digits_value(s))
    }
}

/// What reading an integer from 0 to `max` gives: digits with an optional plus sign.
pub open spec fn parsed(s: Seq<char>, max: int) -> Result<int, ParseIntError> {
    if s.len() == 0 {
        Err(ParseIntError::Empty)
    } else if s[0] == '+' {
        parsed_digits(s.drop_first(), max)
    } else {
        parsed_digits(s, max)
    }
}

/// The integer from 0 to `max` that the text stands for, or the default.
pub open spec fn parsed_or(s: Seq<char>, max: int, default: int) -> int {
    match parsed(s, max) {
        Ok(v) => v,
        Err(_) => default,
    }
}

/// The value of a run of digits is not negative, and a longer run is worth at least
/// as much.
proof fn lemma_digits_grow(s: Seq<char>, k: int)
    requires
        all_digits(s),
        0 <= k <= s.len(),
    ensures
        0 <= digits_value(s.take(k)) <= digits_value(s),
    decreases s.len(),
{
    if k < s.len() {
        let rest = s.drop_last();
        assert(all_digits(rest)) by {
            assert forall|i: int| 0 <= i < rest.len() implies is_digit(#[trigger] rest[i]) by {
                assert(rest[i] == s[i]);
            }
        }
        lemma_digits_grow(rest, k);
        assert(rest.take(k) =~= s.take(k));
        assert(is_digit(s[s.len() - 1]));
    } else {
        assert(s.take(k) =~= s);
        if s.len() > 0 {
            let rest = s.drop_last();
            assert(all_digits(rest)) by {
                assert forall|i: int| 0 <= i < rest.len() implies is_digit(#[trigger] rest[i]) by {
                    assert(rest[i] == s[i]);
                }
            }
            lemma_digits_grow(rest, rest.len() as int);
            assert(rest.take(rest.len() as int) =~= rest);
            assert(is_digit(s[s.len() - 1]));
        }
    }
}

/// A run of digits overflows just where its value is too large.
pub proof fn digits_overflow_by_value(s: Seq<char>, max: int)
    requires
        all_digits(s),
    ensures
        overflows(s, max) == (digits_value(s) > max),
{
    if digits_value(s) > max {
        assert(s.take(s.len() as int) =~= s);
    }
    if overflows(s, max) {
        let k = choose|k: int|
            0 <= k <= s.len() && all_digits(#[trigger] s.take(k)) && digits_value(s.take(k)) > max;
        lemma_digits_grow(s, k);
    }
}

/// Reads the digits from position `from` on.
fn parse_digits(s: &Vec<char>, from: usize, max: u64) -> (r: Result<u64, ParseIntError>)
    requires
        from <= s.len(),
    ensures
        match r {
            Ok(v) => parsed_digits(s@.skip(from as int), max as int) == Ok::<int, ParseIntError>(
                v as int,
            ),
            Err(e) => parsed_digits(s@.skip(from as int), max as int) == Err::<int, ParseIntError>(
                e,
            ),
        },
{
    let ghost digits = s@.skip(from as int);
    let mut i: usize = from;
    let mut value: u64 = 0;
    while i < s.len()
        invariant
            from <= i <= s.len(),
            digits == s@.skip(from as int),
            all_digits(digits.take(i - from)),
            value == digits_value(digits.take(i - from)),
            value <= max,
        decreases s.len() - i,
    {
        let c: char = s[i];
        let ghost seen = digits.take(i - from);
        let ghost next = digits.take(i - from + 1);
        assert(next.drop_last() =~= seen);
        assert(next.last() == c);
        if !('0' <= c && c <= '9') {
            proof {
                assert(!is_digit(digits[i - from]));
                if overflows(digits, max as int) {
                    let k = choose|k: int|
                        0 <= k <= digits.len() && all_digits(#[trigger] digits.take(k))
                            && digits_value(digits.take(k)) > max;
                    if k > i - from {
                        assert(is_digit(digits.take(k)[i - from]));
                    } else {
                        lemma_digits_grow(seen, k);
                        assert(seen.take(k) =~= digits.take(k));
                    }
                }
            }
            return Err(ParseIntError::InvalidDigit);
        }
        let digit: u64 = c as u64 - '0' as u64;
        assert(all_digits(next)) by {
            assert forall|j: int| 0 <= j < next.len() implies is_digit(#[trigger] next[j]) by {
                if j < seen.len() {
                    assert(next[j] == seen[j]);
                }
            }
        }
        if value > max / 10 || (value == max / 10 && digit > max % 10) {
            assert(digits_value(next) > max);
            return Err(ParseIntError::PosOverflow);
        }
        value = value * 10 + digit;
        i = i + 1;
    }
    assert(digits.take(digits.len() as int) =~= digits);
    proof {
        digits_overflow_by_value(digits, max as int);
    }
    if from == s.len() {
        return Err(ParseIntError::InvalidDigit);
    }
    Ok(value)
}

/// Reads an integer from 0 to `max`.
pub fn parse_unsigned(s: &Vec<char>, max: u64) -> (r: Result<u64, ParseIntError>)
    ensures
        match r {
            Ok(v) => parsed(s@, max as int) == Ok::<int, ParseIntError>(v as int) && v <= max,
            Err(e) => parsed(s@, max as int) == Err::<int, ParseIntError>(e),
        },
{
    if s.len() == 0 {
        return Err(ParseIntError::Empty);
    }
    proof {
        assert(s@.skip(0) =~= s@);
        assert(s@.skip(1) =~= s@.drop_first());
        digits_fit(s@, max as int);
        digits_fit(s@.drop_first(), max as int);
    }
    if s[0] == '+' {
        parse_digits(s, 1, max)
    } else {
        parse_digits(s, 0, max)
    }
}

proof fn digits_fit(s: Seq<char>, max: int)
    ensures
        parsed_digits(s, max) matches Ok(v) ==> 0 <= v <= max,
{
    if all_digits(s) {
        lemma_digits_grow(s, 0);
        digits_overflow_by_value(s, max);
        assert(digits_value(s.take(0)) == 0);
    }
}

/// A number that was read is between 0 and `max`.
pub proof fn parsed_or_is_bounded(s: Seq<char>, max: int, default: int)
    requires
        0 <= default <= max,
    ensures
        0 <= parsed_or(s, max, default) <= max,
{
    digits_fit(s, max);
    if s.len() > 0 {
        digits_fit(s.drop_first(), max);
    }
}

/// Reads an integer from 0 to `max` out of a word, or takes the default.
pub fn parse_or(s: &Vec<char>, max: u64, default: u64) -> (r: u64)
    ensures
        r == parsed_or(s@, max as int, default as int),
{
    match parse_unsigned(s, max) {
        Ok(v) => v,
        Err(_) => default,
    }
}

/// What reading a 32-bit signed integer gives: digits with an optional sign.
pub open spec fn parsed_i32(s: Seq<char>) -> Option<int> {
    if s.len() > 0 && s[0] == '-' {
        match parsed_digits(s.drop_first(), 0x8000_0000) {
            Ok(v) => Some(-v),
            Err(_) => None,
        }
    } else {
        match parsed(s, 0x7fff_ffff) {
            Ok(v) => Some(v),
            Err(_) => None,
        }
    }
}

/// Reads a 32-bit signed integer.
pub fn parse_i32(s: &Vec<char>) -> (r: Option<i32>)
    ensures
        match r {
            Some(v) => parsed_i32(s@) == Some(v as int),
            None => parsed_i32(s@) is None,
        },
{
    if s.len() > 0 && s[0] == '-' {
        proof {
            assert(s@.skip(1) =~= s@.drop_first());
            digits_fit(s@.drop_first(), 0x8000_0000);
        }
        match parse_digits(s, 1, 0x8000_0000) {
            Ok(v) => Some((-(v as i64)) as i32),
            Err(_) => None,
        }
    } else {
        match parse_unsigned(s, 0x7fff_ffff) {
            Ok(v) => Some(v as i32),
            Err(_) => None,
        }
    }
}

/// The decimal digit of a number below ten.
pub open spec fn digit_char(d: nat) -> char {
    ('0' as nat + d) as char
}

/// A number in decimal notation.
pub open spec fn decimal(n: nat) -> Seq<char>
    decreases n,
{
    if n < 10 {
        seq![digit_char(n)]
    } else {
        decimal(n / 10).push(digit_char(n % 10))
    }
}

/// An integer in decimal notation.
pub open spec fn decimal_int(n: int) -> Seq<char> {
    if n < 0 {
        "-"@ + decimal((-n) as nat)
    } else {
        decimal(n as nat)
    }
}

fn digit_text(d: u64) -> (r: &'static str)
    requires
        d < 10,
    ensures
        r@ == seq![digit_char(d as nat)],
{
    proof {
        reveal_strlit("0");
        reveal_strlit("1");
        reveal_strlit("2");
        reveal_strlit("3");
        reveal_strlit("4");
        reveal_strlit("5");
        reveal_strlit("6");
        reveal_strlit("7");
        reveal_strlit("8");
        reveal_strlit("9");
    }
    match d {
        0 => "0",
        1 => "1",
        2 => "2",
        3 => "3",
        4 => "4",
        5 => "5",
        6 => "6",
        7 => "7",
        8 => "8",
        _ => "9",
    }
}

/// Writes a number in decimal notation.
pub fn decimal_text(n: u64) -> (r: String)
    ensures
        r@ == decimal(n as nat),
    decreases n,
{
    if n < 10 {
        digit_text(n).to_owned()
    } else {
        let mut r = decimal_text(n / 10);
        r.append(digit_text(n % 10));
        r
    }
}

/// Writes an integer in decimal notation.
pub fn decimal_int_text(n: i64) -> (r: String)
    ensures
        r@ == decimal_int(n as int),
{
    if n < 0 {
        let mut r = "-".to_owned();
        let rest = decimal_text((-(n + 1)) as u64 + 1);
        r.append(rest.as_str());
        r
    } else {
        decimal_text(n as u64)
    }
}

/// Reads the text of a small file: an integer with white space around it.
pub fn parse_trimmed_or(content: &str, max: u64, default: u64) -> (r: u64)
    ensures
        r == parsed_or(crate::text::trimmed(content@), max as int, default as int),
{
    parse_or(&trim(&chars_of(content)), max, default)
}

/// Decimal notation is made of digits that stand for the number.
pub proof fn decimal_stands_for(n: nat)
    ensures
        all_digits(decimal(n)),
        decimal(n).len() > 0,
        digits_value(decimal(n)) == n,
    decreases n,
{
    if n < 10 {
        assert(decimal(n).drop_last() =~= Seq::<char>::empty());
        assert(digits_value(decimal(n).drop_last()) == 0);
    } else {
        decimal_stands_for(n / 10);
        let s = decimal(n);
        assert(s.drop_last() =~= decimal(n / 10));
        assert forall|i: int| 0 <= i < s.len() implies is_digit(#[trigger] s[i]) by {
            if i < s.len() - 1 {
                assert(s[i] == decimal(n / 10)[i]);
            }
        }
    }
}

/// Reading what was written gives the number back.
pub proof fn decimal_reads_back(n: nat, max: int)
    requires
        n <= max,
    ensures
        parsed(decimal(n), max) == Ok::<int, ParseIntError>(n as int),
{
    decimal_stands_for(n);
    digits_overflow_by_value(decimal(n), max);
    assert(is_digit(decimal(n)[0]));
}

} // verus!
