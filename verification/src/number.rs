//! Decimal numbers in text.
//!
//! A number is decimal digits, with nothing before, between or after.
//! It can also be read the way the standard library reads an unsigned
//! integer, which lets a `+` stand before the digits.

use vstd::prelude::*;
use vstd::string::StringExecFns;

verus! {

/// Why a text is not a number.
#[derive(Debug, Clone, Copy, PartialEq, Eq, Structural)]
pub enum NumberError {
    /// The text is empty.
    Empty,
    /// The text holds something other than digits after its sign.
    InvalidDigit,
    /// The digits denote a number above the largest that the target can
    /// hold.
    PosOverflow,
}

impl NumberError {
    /// What is wrong, in words.
    pub fn description(&self) -> (s: String)
        ensures
            s@ == match *self {
                NumberError::Empty => "cannot parse integer from empty string"@,
                NumberError::InvalidDigit => "invalid digit found in string"@,
                NumberError::PosOverflow => "number too large to fit in target type"@,
            },
    {
        match self {
            NumberError::Empty => String::from_str("cannot parse integer from empty string"),
            NumberError::InvalidDigit => String::from_str("invalid digit found in string"),
            NumberError::PosOverflow => String::from_str(
                "number too large to fit in target type",
            ),
        }
    }
}

/// Whether `c` is one of the digits `0` to `9`.
pub open spec fn is_digit(c: char) -> bool {
    48 <= c as u32 <= 57
}

/// The value of the digit `c`.
pub open spec fn digit_value(c: char) -> nat {
    if is_digit(c) {
        (c as u32 - 48) as nat
    } else {
        0
    }
}

/// The number that the digits `s` denote in base ten.
pub open spec fn decimal_value(s: Seq<char>) -> nat
    decreases s.len(),
{
    if s.len() == 0 {
        0
    } else {
        10 * decimal_value(s.drop_last()) + digit_value(s.last())
    }
}

/// How many digits `s` begins with.
pub open spec fn leading_digits(s: Seq<char>) -> nat
    decreases s.len(),
{
    if s.len() == 0 || !is_digit(s[0]) {
        0
    } else {
        1 + leading_digits(s.drop_first())
    }
}

/// The text of a number without its sign: a `+` that something follows
/// is dropped.
pub open spec fn unsigned_part(s: Seq<char>) -> Seq<char> {
    if s.len() > 1 && s[0] == '+' {
        s.drop_first()
    } else {
        s
    }
}

/// The number that the digits `s` denote, if `s` is made of digits
/// alone and the number is at most `max`.
///
/// The text is read from the left. It fails where the digits read so far
/// first denote a number above `max`, or, if that does not happen,
/// where a character is not a digit. There is no number in no text.
pub open spec fn parse_digits_spec(s: Seq<char>, max: nat) -> Result<nat, NumberError> {
    let run = s.take(leading_digits(s) as int);
    if s.len() == 0 {
        Err(NumberError::Empty)
    } else if decimal_value(run) > max {
        Err(NumberError::PosOverflow)
    } else if run.len() < s.len() {
        Err(NumberError::InvalidDigit)
    } else {
        Ok(decimal_value(s))
    }
}

/// The number that the text `s` denotes as the standard library reads
/// it, if it is one that is at most `max`: that of its digits, before
/// which a `+` may stand.
pub open spec fn parse_decimal_spec(s: Seq<char>, max: nat) -> Result<nat, NumberError> {
    parse_digits_spec(unsigned_part(s), max)
}

/// A text that begins with `n` digits, and ends or goes on with
/// something else, has `n` leading digits.
pub proof fn lemma_leading_digits(s: Seq<char>, n: nat)
    requires
        n <= s.len(),
        forall|i: int| 0 <= i < n ==> is_digit(#[trigger] s[i]),
        n == s.len() || !is_digit(s[n as int]),
    ensures
        leading_digits(s) == n,
    decreases n,
{
    if n > 0 {
        let rest = s.drop_first();
        assert forall|i: int| 0 <= i < n - 1 implies is_digit(#[trigger] rest[i]) by {
            assert(rest[i] == s[i + 1]);
        }
        lemma_leading_digits(rest, (n - 1) as nat);
    }
}

/// A text that begins with `n` digits has at least `n` leading digits.
pub proof fn lemma_leading_digits_at_least(s: Seq<char>, n: nat)
    requires
        n <= s.len(),
        forall|i: int| 0 <= i < n ==> is_digit(#[trigger] s[i]),
    ensures
        n <= leading_digits(s) <= s.len(),
    decreases s.len(),
{
    if s.len() > 0 && is_digit(s[0]) {
        let rest = s.drop_first();
        if n > 0 {
            assert forall|i: int| 0 <= i < n - 1 implies is_digit(#[trigger] rest[i]) by {
                assert(rest[i] == s[i + 1]);
            }
            lemma_leading_digits_at_least(rest, (n - 1) as nat);
        } else {
            lemma_leading_digits_at_least(rest, 0);
        }
    }
}

/// More digits do not denote a smaller number.
pub proof fn lemma_decimal_value_grows(s: Seq<char>, a: int, b: int)
    requires
        0 <= a <= b <= s.len(),
    ensures
        decimal_value(s.take(a)) <= decimal_value(s.take(b)),
    decreases b - a,
{
    if a < b {
        lemma_decimal_value_grows(s, a, b - 1);
        assert(s.take(b).drop_last() =~= s.take(b - 1));
    }
}

/// Reads the number that the characters of `text` from index `from` on
/// denote, if they are digits alone and the number is at most `max`.
pub fn parse_digits(text: &Vec<char>, from: usize, max: u64) -> (r: Result<u64, NumberError>)
    requires
        from <= text.len(),
    ensures
        match parse_digits_spec(text@.subrange(from as int, text.len() as int), max as nat) {
            Ok(n) => r == Ok::<u64, NumberError>(n as u64) && n <= max,
            Err(e) => r == Err::<u64, NumberError>(e),
        },
{
    let ghost digits = text@.subrange(from as int, text.len() as int);
    if from == text.len() {
        return Err(NumberError::Empty);
    }
    let mut acc: u64 = 0;
    let mut i: usize = from;
    assert(digits.take(0) =~= Seq::<char>::empty());
    while i < text.len()
        invariant
            from <= i <= text.len(),
            digits == text@.subrange(from as int, text.len() as int),
            digits.len() > 0,
            forall|j: int| 0 <= j < i - from ==> is_digit(#[trigger] digits[j]),
            acc == decimal_value(digits.take(i - from)),
            acc <= max,
        decreases text.len() - i,
    {
        let c = text[i];
        let code = c as u32;
        assert(c == digits[i - from]);
        if code < 48 || code > 57 {
            proof {
                lemma_leading_digits(digits, (i - from) as nat);
            }
            return Err(NumberError::InvalidDigit);
        }
        let d = (code - 48) as u64;
        assert(digits.take(i - from + 1).drop_last() =~= digits.take(i - from));
        if max < d || acc > (max - d) / 10 {
            proof {
                lemma_leading_digits_at_least(digits, (i - from + 1) as nat);
                lemma_decimal_value_grows(digits, i - from + 1, leading_digits(digits) as int);
            }
            return Err(NumberError::PosOverflow);
        }
        acc = acc * 10 + d;
        i = i + 1;
    }
    proof {
        lemma_leading_digits(digits, digits.len());
        assert(digits.take(digits.len() as int) =~= digits);
    }
    Ok(acc)
}

/// Reads the number that the characters of `text` from index `from` on
/// denote as the standard library reads it, if it is one that is at
/// most `max`.
pub fn parse_decimal(text: &Vec<char>, from: usize, max: u64) -> (r: Result<u64, NumberError>)
    requires
        from <= text.len(),
    ensures
        match parse_decimal_spec(text@.subrange(from as int, text.len() as int), max as nat) {
            Ok(n) => r == Ok::<u64, NumberError>(n as u64) && n <= max,
            Err(e) => r == Err::<u64, NumberError>(e),
        },
{
    let ghost s = text@.subrange(from as int, text.len() as int);
    let start = if text.len() - from > 1 && text[from] == '+' {
        from + 1
    } else {
        from
    };
    assert(unsigned_part(s) =~= text@.subrange(start as int, text.len() as int));
    parse_digits(text, start, max)
}

} // verus!
