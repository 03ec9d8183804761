use vstd::prelude::*;

use crate::text::chars_of;

verus! {

/// Why a text is not a decimal integer of the wanted type, as `str::parse`
/// reports it.
#[derive(Clone, Copy, Debug, PartialEq, Eq, Structural)]
pub enum NumberError {
    Empty,
    InvalidDigit,
    PosOverflow,
    NegOverflow,
}

/// The message that `ParseIntError` shows for each kind.
pub open spec fn number_error_text(e: NumberError) -> Seq<char> {
    match e {
        NumberError::Empty => "cannot parse integer from empty string"@,
        NumberError::InvalidDigit => "invalid digit found in string"@,
        NumberError::PosOverflow => "number too large to fit in target type"@,
        NumberError::NegOverflow => "number too small to fit in target type"@,
    }
}

impl NumberError {
    /// The message that `ParseIntError` shows for this kind.
    pub fn message(&self) -> (r: &'static str)
        ensures
            r@ == number_error_text(*self),
    {
        match self {
            NumberError::Empty => "cannot parse integer from empty string",
            NumberError::InvalidDigit => "invalid digit found in string",
            NumberError::PosOverflow => "number too large to fit in target type",
            NumberError::NegOverflow => "number too small to fit in target type",
        }
    }
}

/// An ASCII decimal digit.
pub open spec fn is_digit(c: char) -> bool {
    48 <= (c as u32) <= 57
}

/// The value of an ASCII decimal digit.
pub open spec fn digit_value(c: char) -> int {
    (c as u32) - 48
}

/// Reads `digits` left to right onto `acc` (subtracting them where `negative`):
/// the first character that is no digit is an invalid digit, and the first
/// digit that takes the value out of `lo..=hi` an overflow.
pub open spec fn scan_digits(digits: Seq<char>, acc: int, lo: int, hi: int, negative: bool) -> Result<
    int,
    NumberError,
>
    decreases digits.len(),
{
    if digits.len() == 0 {
        Ok(acc)
    } else if !is_digit(digits[0]) {
        Err(NumberError::InvalidDigit)
    } else {
        let next = if negative {
            acc * 10 - digit_value(digits[0])
        } else {
            acc * 10 + digit_value(digits[0])
        };
        if next > hi {
            Err(NumberError::PosOverflow)
        } else if next < lo {
            Err(NumberError::NegOverflow)
        } else {
            scan_digits(digits.drop_first(), next, lo, hi, negative)
        }
    }
}

/// What `str::parse` gives for an integer type of range `lo..=hi`: an optional
/// `+` (or `-` where the type is signed, `lo < 0`), then decimal digits, with
/// nothing else around them.
pub open spec fn parse_integer(s: Seq<char>, lo: int, hi: int) -> Result<int, NumberError> {
    if s.len() == 0 {
        Err(NumberError::Empty)
    } else if (s[0] == '+' || s[0] == '-') && s.len() == 1 {
        Err(NumberError::InvalidDigit)
    } else if s[0] == '+' {
        scan_digits(s.drop_first(), 0, lo, hi, false)
    } else if s[0] == '-' && lo < 0 {
        scan_digits(s.drop_first(), 0, lo, hi, true)
    } else {
        scan_digits(s, 0, lo, hi, false)
    }
}

/// Reads the digits of `chars` from position `from` on.
fn scan(chars: &Vec<char>, from: usize, lo: i128, hi: i128, negative: bool) -> (r: Result<
    i128,
    NumberError,
>)
    requires
        from <= chars.len(),
        -0x1_0000_0000_0000_0000_0000 <= lo <= 0 <= hi <= 0x1_0000_0000_0000_0000_0000,
    ensures
        scan_digits(chars@.skip(from as int), 0, lo as int, hi as int, negative) == (match r {
            Ok(v) => Ok(v as int),
            Err(e) => Err(e),
        }),
{
    let mut acc: i128 = 0;
    let mut k = from;
    while k < chars.len()
        invariant
            from <= k <= chars.len(),
            lo <= acc <= hi,
            -0x1_0000_0000_0000_0000_0000 <= lo <= 0 <= hi <= 0x1_0000_0000_0000_0000_0000,
            scan_digits(chars@.skip(from as int), 0, lo as int, hi as int, negative)
                == scan_digits(chars@.skip(k as int), acc as int, lo as int, hi as int, negative),
        decreases chars.len() - k,
    {
        let c = chars[k];
        assert(chars@.skip(k as int)[0] == c);
        assert(chars@.skip(k as int).drop_first() == chars@.skip(k + 1));
        let v = c as u32;
        if v < 48 || v > 57 {
            return Err(NumberError::InvalidDigit);
        }
        let d = (v - 48) as i128;
        let next = if negative {
            acc * 10 - d
        } else {
            acc * 10 + d
        };
        if next > hi {
            return Err(NumberError::PosOverflow);
        }
        if next < lo {
            return Err(NumberError::NegOverflow);
        }
        acc = next;
        k = k + 1;
    }
    assert(chars@.skip(k as int).len() == 0);
    Ok(acc)
}

/// Parses the text as `str::parse` parses an integer of range `lo..=hi`.
fn parse_in_range(s: &str, lo: i128, hi: i128) -> (r: Result<i128, NumberError>)
    requires
        -0x1_0000_0000_0000_0000_0000 <= lo <= 0 <= hi <= 0x1_0000_0000_0000_0000_0000,
    ensures
        parse_integer(s@, lo as int, hi as int) == (match r {
            Ok(v) => Ok(v as int),
            Err(e) => Err(e),
        }),
        r matches Ok(v) ==> lo <= v <= hi,
{
    let chars = chars_of(s);
    if chars.len() == 0 {
        return Err(NumberError::Empty);
    }
    let first = chars[0];
    assert(chars@.skip(1) == chars@.drop_first());
    assert(chars@.skip(0) == chars@);
    let r = if (first == '+' || first == '-') && chars.len() == 1 {
        Err(NumberError::InvalidDigit)
    } else if first == '+' {
        scan(&chars, 1, lo, hi, false)
    } else if first == '-' && lo < 0 {
        scan(&chars, 1, lo, hi, true)
    } else {
        scan(&chars, 0, lo, hi, false)
    };
    proof {
        lemma_scan_in_range(chars@.skip(if first == '+' || (first == '-' && lo < 0) { 1int } else { 0int }), 0, lo as int, hi as int, first == '-' && lo < 0);
    }
    r
}

/// A scan that succeeds ends within the range.
pub proof fn lemma_scan_in_range(digits: Seq<char>, acc: int, lo: int, hi: int, negative: bool)
    requires
        lo <= acc <= hi,
    ensures
        scan_digits(digits, acc, lo, hi, negative) matches Ok(v) ==> lo <= v <= hi,
    decreases digits.len(),
{
    if digits.len() > 0 && is_digit(digits[0]) {
        let next = if negative {
            acc * 10 - digit_value(digits[0])
        } else {
            acc * 10 + digit_value(digits[0])
        };
        if lo <= next <= hi {
            lemma_scan_in_range(digits.drop_first(), next, lo, hi, negative);
        }
    }
}

/// Parses a `usize` as `str::parse::<usize>` does.
pub fn parse_usize(s: &str) -> (r: Result<usize, NumberError>)
    ensures
        parse_integer(s@, 0, usize::MAX as int) == (match r {
            Ok(v) => Ok(v as int),
            Err(e) => Err(e),
        }),
{
    match parse_in_range(s, 0, usize::MAX as i128) {
        Ok(v) => Ok(v as usize),
        Err(e) => Err(e),
    }
}

/// Parses an `i64` as `str::parse::<i64>` does.
pub fn parse_i64(s: &str) -> (r: Result<i64, NumberError>)
    ensures
        parse_integer(s@, i64::MIN as int, i64::MAX as int) == (match r {
            Ok(v) => Ok(v as int),
            Err(e) => Err(e),
        }),
{
    match parse_in_range(s, i64::MIN as i128, i64::MAX as i128) {
        Ok(v) => Ok(v as i64),
        Err(e) => Err(e),
    }
}

} // verus!
