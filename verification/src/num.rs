//! Decimal and hexadecimal rendering of integers, and decimal parsing in the
//! manner of the standard library's `FromStr` for unsigned integers.

use vstd::prelude::*;

verus! {

/// The ASCII digit for a value below ten.
pub open spec fn dec_digit(d: nat) -> char {
    (('0' as u32) + d) as char
}

/// The lowercase hexadecimal digit for a value below sixteen.
pub open spec fn hex_digit(d: nat) -> char {
    if d < 10 {
        (('0' as u32) + d) as char
    } else {
        (('a' as u32) + d - 10) as char
    }
}

/// Decimal rendering of `n` without leading zeros (`format!("{}", n)`).
pub open spec fn dec_seq(n: nat) -> Seq<char>
    decreases n,
{
    if n < 10 {
        seq![dec_digit(n)]
    } else {
        dec_seq(n / 10).push(dec_digit(n % 10))
    }
}

/// The last `k` hexadecimal digits of `n`, zero-padded (`format!("{:0k$x}", n)`
/// when `n` has at most `k` digits).
pub open spec fn hex_fixed(n: nat, k: nat) -> Seq<char>
    decreases k,
{
    if k == 0 {
        Seq::empty()
    } else {
        hex_fixed(n / 16, (k - 1) as nat).push(hex_digit(n % 16))
    }
}

fn digit_char(d: u64) -> (c: char)
    requires
        d < 10,
    ensures
        c == dec_digit(d as nat),
{
    if d == 0 { '0' }
    else if d == 1 { '1' }
    else if d == 2 { '2' }
    else if d == 3 { '3' }
    else if d == 4 { '4' }
    else if d == 5 { '5' }
    else if d == 6 { '6' }
    else if d == 7 { '7' }
    else if d == 8 { '8' }
    else { '9' }
}

fn hex_char(d: u64) -> (c: char)
    requires
        d < 16,
    ensures
        c == hex_digit(d as nat),
{
    if d < 10 {
        digit_char(d)
    } else if d == 10 { 'a' }
    else if d == 11 { 'b' }
    else if d == 12 { 'c' }
    else if d == 13 { 'd' }
    else if d == 14 { 'e' }
    else { 'f' }
}

/// Decimal digits of `n`.
pub fn dec_chars(n: u64) -> (r: Vec<char>)
    ensures
        r@ == dec_seq(n as nat),
    decreases n,
{
    if n < 10 {
        let mut v: Vec<char> = Vec::new();
        v.push(digit_char(n));
        proof {
            assert(v@ =~= seq![dec_digit(n as nat)]);
        }
        v
    } else {
        let mut v = dec_chars(n / 10);
        v.push(digit_char(n % 10));
        v
    }
}

/// The `k` low hexadecimal digits of `n`, zero-padded.
pub fn hex_chars_fixed(n: u64, k: usize) -> (r: Vec<char>)
    ensures
        r@ == hex_fixed(n as nat, k as nat),
    decreases k,
{
    if k == 0 {
        let v: Vec<char> = Vec::new();
        proof {
            assert(v@ =~= Seq::<char>::empty());
        }
        v
    } else {
        let mut v = hex_chars_fixed(n / 16, k - 1);
        v.push(hex_char(n % 16));
        v
    }
}

/// Why a decimal parse failed, as `std::num::IntErrorKind` tells it.
#[derive(Debug, Clone, Copy, PartialEq, Eq, Structural)]
pub enum ParseUintError {
    /// The text was empty.
    Empty,
    /// A character other than an ASCII digit stood where a digit was due.
    InvalidDigit,
    /// The value does not fit in the target type.
    PosOverflow,
}

/// The text of a parse error, as `ParseIntError` displays it.
pub open spec fn parse_error_message(e: ParseUintError) -> Seq<char> {
    match e {
        ParseUintError::Empty => "cannot parse integer from empty string"@,
        ParseUintError::InvalidDigit => "invalid digit found in string"@,
        ParseUintError::PosOverflow => "number too large to fit in target type"@,
    }
}

impl ParseUintError {
    /// The text of the error.
    pub fn message(&self) -> (r: &'static str)
        ensures
            r@ == parse_error_message(*self),
    {
        match self {
            ParseUintError::Empty => "cannot parse integer from empty string",
            ParseUintError::InvalidDigit => "invalid digit found in string",
            ParseUintError::PosOverflow => "number too large to fit in target type",
        }
    }
}

/// Whether `c` is an ASCII decimal digit.
pub open spec fn is_dec_digit(c: char) -> bool {
    '0' <= c <= '9'
}

/// The value of an ASCII decimal digit.
pub open spec fn digit_value(c: char) -> nat {
    ((c as u32) - ('0' as u32)) as nat
}

/// Reads `digits` left to right onto `acc`, failing at the first character that
/// is not a digit, or as soon as the value passes `max`.
pub open spec fn parse_digits(acc: nat, digits: Seq<char>, max: nat) -> Result<nat, ParseUintError>
    decreases digits.len(),
{
    if digits.len() == 0 {
        Ok(acc)
    } else if !is_dec_digit(digits[0]) {
        Err(ParseUintError::InvalidDigit)
    } else if acc * 10 + digit_value(digits[0]) > max {
        Err(ParseUintError::PosOverflow)
    } else {
        parse_digits(acc * 10 + digit_value(digits[0]), digits.drop_first(), max)
    }
}

/// `str::parse` of an unsigned integer type whose largest value is `max`:
/// an optional leading `+`, then at least one ASCII digit.
pub open spec fn parse_uint_spec(s: Seq<char>, max: nat) -> Result<nat, ParseUintError> {
    if s.len() == 0 {
        Err(ParseUintError::Empty)
    } else if s.len() == 1 && (s[0] == '+' || s[0] == '-') {
        Err(ParseUintError::InvalidDigit)
    } else if s[0] == '+' {
        parse_digits(0, s.drop_first(), max)
    } else {
        parse_digits(0, s, max)
    }
}

proof fn lemma_parse_digits_bound(acc: nat, digits: Seq<char>, max: nat)
    requires
        acc <= max,
    ensures
        parse_digits(acc, digits, max) matches Ok(v) ==> v <= max,
    decreases digits.len(),
{
    if digits.len() > 0 && is_dec_digit(digits[0]) && acc * 10 + digit_value(digits[0]) <= max {
        lemma_parse_digits_bound(acc * 10 + digit_value(digits[0]), digits.drop_first(), max);
    }
}

/// A parsed value never exceeds `max`.
pub proof fn lemma_parse_uint_bound(s: Seq<char>, max: nat)
    ensures
        parse_uint_spec(s, max) matches Ok(v) ==> v <= max,
{
    lemma_parse_digits_bound(0, s, max);
    if s.len() > 0 {
        lemma_parse_digits_bound(0, s.drop_first(), max);
    }
}

/// Parses `s[start..]` as decimal digits onto zero.
fn parse_digits_from(s: &Vec<char>, start: usize, max: u64) -> (r: Result<u64, ParseUintError>)
    requires
        start <= s@.len(),
        max >= 9,
    ensures
        match parse_digits(0, s@.skip(start as int), max as nat) {
            Ok(v) => r == Ok::<u64, ParseUintError>(v as u64) && v <= max,
            Err(e) => r == Err::<u64, ParseUintError>(e),
        },
{
    let mut acc: u64 = 0;
    let mut i: usize = start;
    proof {
        lemma_parse_digits_bound(0, s@.skip(start as int), max as nat);
    }
    while i < s.len()
        invariant
            start <= i <= s@.len(),
            acc <= max,
            max >= 9,
            parse_digits(0, s@.skip(start as int), max as nat) == parse_digits(
                acc as nat,
                s@.skip(i as int),
                max as nat,
            ),
        decreases s@.len() - i,
    {
        let c = s[i];
        let ghost rest = s@.skip(i as int);
        proof {
            assert(rest[0] == c);
            assert(rest.drop_first() =~= s@.skip(i + 1));
        }
        if !('0' <= c && c <= '9') {
            return Err(ParseUintError::InvalidDigit);
        }
        let d = (c as u32 - '0' as u32) as u64;
        if acc > (max - d) / 10 {
            proof {
                assert(acc * 10 + d > max) by (nonlinear_arith)
                    requires
                        acc > (max - d) / 10,
                        d <= max,
                ;
            }
            return Err(ParseUintError::PosOverflow);
        }
        proof {
            assert(acc * 10 + d <= max) by (nonlinear_arith)
                requires
                    acc <= (max - d) / 10,
                    d <= max,
            ;
        }
        acc = acc * 10 + d;
        i = i + 1;
    }
    proof {
        assert(s@.skip(i as int).len() == 0);
    }
    Ok(acc)
}

/// `str::parse::<T>()` for an unsigned integer type `T` whose largest value is
/// `max`.
pub fn parse_uint(s: &Vec<char>, max: u64) -> (r: Result<u64, ParseUintError>)
    requires
        max >= 9,
    ensures
        match parse_uint_spec(s@, max as nat) {
            Ok(v) => r == Ok::<u64, ParseUintError>(v as u64) && v <= max,
            Err(e) => r == Err::<u64, ParseUintError>(e),
        },
{
    if s.len() == 0 {
        return Err(ParseUintError::Empty);
    }
    if s.len() == 1 && (s[0] == '+' || s[0] == '-') {
        return Err(ParseUintError::InvalidDigit);
    }
    if s[0] == '+' {
        proof {
            assert(s@.skip(1) =~= s@.drop_first());
        }
        parse_digits_from(s, 1, max)
    } else {
        proof {
            assert(s@.skip(0) =~= s@);
        }
        parse_digits_from(s, 0, max)
    }
}

} // verus!
