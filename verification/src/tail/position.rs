//! Positions in a source, and where a seek should go.

use vstd::prelude::*;
use vstd::string::StringExecFns;
use crate::number::{parse_digits, parse_digits_spec, NumberError};
use crate::text::chars_of;

verus! {

/// A count of units (lines or bytes: the [`Mode`] says which) anchored at
/// one end of a source.
#[derive(Debug, Clone, Copy, PartialEq, Eq, Structural)]
pub enum Pos {
    /// Skip this many units from the start, and take the rest.
    FromStart(usize),
    /// Take this many units at the end.
    FromEnd(usize),
}

/// What a position counts.
#[derive(Debug, Clone, Copy, PartialEq, Eq, Structural)]
pub enum Mode {
    Lines(Pos),
    Bytes(Pos),
}

impl Mode {
    /// What the positions given on a command line count: bytes, where a
    /// position in bytes is given, and else lines.
    pub fn of(lines: Pos, bytes: Option<Pos>) -> (mode: Mode)
        ensures
            mode == match bytes {
                Some(pos) => Mode::Bytes(pos),
                None => Mode::Lines(lines),
            },
    {
        match bytes {
            Some(pos) => Mode::Bytes(pos),
            None => Mode::Lines(lines),
        }
    }
}

/// Where to seek: so many bytes after the start of a source, or a
/// displacement from its end.
#[derive(Debug, Clone, Copy, PartialEq, Eq, Structural)]
pub enum SeekPos {
    Start(u64),
    End(i64),
}

impl SeekPos {
    /// The absolute offset that this denotes in a source of `len` bytes.
    pub open spec fn absolute(self, len: nat) -> int {
        match self {
            SeekPos::Start(n) => n as int,
            SeekPos::End(d) => len + d,
        }
    }

    /// The absolute offset that this denotes in a source of `len`
    /// bytes, if it is one that `u64` holds.
    pub fn absolute_in(&self, len: u64) -> (r: Option<u64>)
        ensures
            r == if 0 <= self.absolute(len as nat) <= u64::MAX {
                Some(self.absolute(len as nat) as u64)
            } else {
                None
            },
    {
        match self {
            SeekPos::Start(n) => Some(*n),
            SeekPos::End(d) => {
                let at: i128 = len as i128 + *d as i128;
                if 0 <= at && at <= u64::MAX as i128 {
                    Some(at as u64)
                } else {
                    None
                }
            },
        }
    }
}

/// Why an argument is not a position.
#[derive(Debug)]
pub enum ParsePosError {
    /// The argument is empty.
    Empty,
    /// What follows the sign of the argument `arg` is not a number.
    Number { arg: String, kind: NumberError },
}

impl ParsePosError {
    /// The message of this error. For an argument that is not a number
    /// it is the argument, a colon, and what is wrong with the number.
    pub fn message(&self) -> (s: String)
        ensures
            s@ == match *self {
                ParsePosError::Empty => "Position arg can't be empty"@,
                ParsePosError::Number { arg, kind } => arg@ + ": "@ + match kind {
                    NumberError::Empty => "cannot parse integer from empty string"@,
                    NumberError::InvalidDigit => "invalid digit found in string"@,
                    NumberError::PosOverflow => "number too large to fit in target type"@,
                },
            },
    {
        match self {
            ParsePosError::Empty => String::from_str("Position arg can't be empty"),
            ParsePosError::Number { arg, kind } => {
                let what = kind.description();
                arg.clone().concat(": ").concat(what.as_str())
            },
        }
    }
}

/// The argument without its sign: a leading `+` or `-` is dropped.
pub open spec fn without_sign(arg: Seq<char>) -> Seq<char> {
    if arg.len() > 0 && (arg[0] == '+' || arg[0] == '-') {
        arg.drop_first()
    } else {
        arg
    }
}

/// The position that the number `n` after the sign of `arg` denotes.
///
/// After `+` the number is that of the first unit to take, counted from
/// one, so that one unit less is skipped; `+0` skips nothing, as `+1`
/// does. Otherwise the number is the count of units to take at the end.
pub open spec fn pos_of(arg: Seq<char>, n: nat) -> Pos {
    if arg.len() > 0 && arg[0] == '+' {
        Pos::FromStart(
            if n > 0 {
                (n - 1) as usize
            } else {
                0
            },
        )
    } else {
        Pos::FromEnd(n as usize)
    }
}

/// Reads a position: digits, which one `+` or one `-` may precede.
///
/// `+N` stands for what begins at unit `N`, counted from one; `N` and
/// `-N` stand for the last `N` units. What follows the sign has to be
/// digits alone: a second sign is no digit.
pub fn parse_pos(arg: &str) -> (r: Result<Pos, ParsePosError>)
    ensures
        arg@.len() == 0 ==> r matches Err(ParsePosError::Empty),
        arg@.len() > 0 ==> match parse_digits_spec(without_sign(arg@), usize::MAX as nat) {
            Ok(n) => r matches Ok(pos) && pos == pos_of(arg@, n),
            Err(e) => r matches Err(ParsePosError::Number { arg: a, kind }) && a@ == arg@ && kind
                == e,
        },
{
    let chars = chars_of(arg);
    if chars.len() == 0 {
        return Err(ParsePosError::Empty);
    }
    let first = chars[0];
    let from_start = first == '+';
    let from: usize = if first == '+' || first == '-' {
        1
    } else {
        0
    };
    assert(without_sign(arg@) =~= chars@.subrange(from as int, chars.len() as int));
    match parse_digits(&chars, from, usize::MAX as u64) {
        Err(kind) => Err(ParsePosError::Number { arg: String::from_str(arg), kind }),
        Ok(num) => {
            let num = num as usize;
            if from_start {
                Ok(
                    Pos::FromStart(
                        if num > 0 {
                            num - 1
                        } else {
                            0
                        },
                    ),
                )
            } else {
                Ok(Pos::FromEnd(num))
            }
        },
    }
}

} // verus!
