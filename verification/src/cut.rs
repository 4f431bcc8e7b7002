//! Selecting parts of a line: characters, bytes or fields, by lists of
//! positions.

use std::ops::Range;
use vstd::prelude::*;
use vstd::string::{StringExecFns, StringSliceAdditionalSpecFns};
use crate::number::{
    decimal_value,
    is_digit,
    leading_digits,
    lemma_decimal_value_grows,
    lemma_leading_digits,
    lemma_leading_digits_at_least,
};
use crate::text::{chars_of, decimal_digits, decimal_text, from_utf8_lossy, utf8_lossy};

verus! {

/// Ranges of positions, counted from zero, each with its end excluded.
pub type PositionList = Vec<Range<usize>>;

/// What to cut out of each line, and at which positions.
#[derive(Debug)]
pub enum Extract {
    Fields(PositionList),
    Bytes(PositionList),
    Chars(PositionList),
}

/// The position lists that a command line may give: one of them is
/// expected to be there.
#[derive(Debug)]
pub struct ArgsExtract {
    pub fields: Option<PositionList>,
    pub bytes: Option<PositionList>,
    pub chars: Option<PositionList>,
}

/// Why a text is not a list of positions.
#[derive(Debug, Clone, Copy, PartialEq, Eq, Structural)]
pub enum CutError {
    /// A position holds this character, which is no digit.
    InvalidChar(char),
    /// A position is zero or has no digits.
    NotPositive,
    /// A position is above the largest `usize`.
    TooLarge,
    /// A range does not go from a smaller number to a larger one.
    Descending { start: usize, end: usize },
    /// The list holds no position.
    EmptyList,
}

impl CutError {
    /// The message of this error.
    pub fn message(&self) -> (s: String)
        ensures
            s@ == match *self {
                CutError::InvalidChar(c) => "Invalid char "@.push(c),
                CutError::NotPositive => "Should be positive"@,
                CutError::TooLarge => "Position is too large"@,
                CutError::Descending { start, end } => "First number in range ("@
                    + decimal_digits(start as nat) + ") must be lower than second number ("@
                    + decimal_digits(end as nat) + ")"@,
                CutError::EmptyList => "empty pos list"@,
            },
    {
        match self {
            CutError::InvalidChar(c) => {
                let mut s = String::from_str("Invalid char ");
                s.push(*c);
                s
            },
            CutError::NotPositive => String::from_str("Should be positive"),
            CutError::TooLarge => String::from_str("Position is too large"),
            CutError::Descending { start, end } => {
                let first = decimal_text(*start as u64);
                let second = decimal_text(*end as u64);
                String::from_str("First number in range (").concat(first.as_str()).concat(
                    ") must be lower than second number (",
                ).concat(second.as_str()).concat(")")
            },
            CutError::EmptyList => String::from_str("empty pos list"),
        }
    }
}

/// A copy of `list`.
fn copy_list(list: &PositionList) -> (copy: PositionList)
    ensures
        copy@ == list@,
{
    let mut copy: PositionList = Vec::new();
    let mut i: usize = 0;
    while i < list.len()
        invariant
            i <= list.len(),
            copy@ == list@.take(i as int),
        decreases list.len() - i,
    {
        copy.push(Range { start: list[i].start, end: list[i].end });
        i = i + 1;
        assert(list@.take(i as int) =~= list@.take(i - 1).push(list@[i - 1]));
    }
    assert(list@.take(list.len() as int) =~= list@);
    copy
}

/// What to cut, from the lists that the command line gave: the fields
/// if there are any, else the characters, else the bytes.
pub fn build_extract(args: &ArgsExtract) -> (r: Result<Extract, CutError>)
    requires
        args.fields is Some || args.chars is Some || args.bytes is Some,
    ensures
        match r {
            Ok(Extract::Fields(list)) => args.fields is Some && list@ == args.fields->0@,
            Ok(Extract::Chars(list)) => args.fields is None && args.chars is Some && list@
                == args.chars->0@,
            Ok(Extract::Bytes(list)) => args.fields is None && args.chars is None
                && args.bytes is Some && list@ == args.bytes->0@,
            Err(_) => false,
        },
{
    match &args.fields {
        Some(fs) => Ok(Extract::Fields(copy_list(fs))),
        None => match &args.chars {
            Some(cs) => Ok(Extract::Chars(copy_list(cs))),
            None => match &args.bytes {
                Some(bs) => Ok(Extract::Bytes(copy_list(bs))),
                None => Err(CutError::EmptyList),
            },
        },
    }
}

/// The position that the text `s` denotes: a positive decimal number,
/// made of digits alone.
///
/// The text is read from the left. It fails where the digits read so far
/// first denote a number above the largest `usize`, or, if that does not
/// happen, at the first character that is no digit.
pub open spec fn position_spec(s: Seq<char>) -> Result<usize, CutError> {
    let run = s.take(leading_digits(s) as int);
    if decimal_value(run) > usize::MAX {
        Err(CutError::TooLarge)
    } else if run.len() < s.len() {
        Err(CutError::InvalidChar(s[run.len() as int]))
    } else if decimal_value(s) == 0 {
        Err(CutError::NotPositive)
    } else {
        Ok(decimal_value(s) as usize)
    }
}

/// Reads the position that `text[from..to]` denotes.
pub fn parse_position_in(text: &Vec<char>, from: usize, to: usize) -> (r: Result<usize, CutError>)
    requires
        from <= to <= text.len(),
    ensures
        r == position_spec(text@.subrange(from as int, to as int)),
        r matches Ok(n) ==> n > 0,
{
    let ghost s = text@.subrange(from as int, to as int);
    let mut result: usize = 0;
    let mut i: usize = from;
    assert(s.take(0) =~= Seq::<char>::empty());
    while i < to
        invariant
            from <= i <= to <= text.len(),
            s == text@.subrange(from as int, to as int),
            forall|j: int| 0 <= j < i - from ==> is_digit(#[trigger] s[j]),
            result == decimal_value(s.take(i - from)),
        decreases to - i,
    {
        let c = text[i];
        let code = c as u32;
        assert(c == s[i - from]);
        if code < 48 || code > 57 {
            proof {
                lemma_leading_digits(s, (i - from) as nat);
            }
            return Err(CutError::InvalidChar(c));
        }
        let val = (code - 48) as usize;
        assert(s.take(i - from + 1).drop_last() =~= s.take(i - from));
        if result > (usize::MAX - val) / 10 {
            proof {
                lemma_leading_digits_at_least(s, (i - from + 1) as nat);
                lemma_decimal_value_grows(s, i - from + 1, leading_digits(s) as int);
            }
            return Err(CutError::TooLarge);
        }
        result = result * 10 + val;
        i = i + 1;
    }
    proof {
        lemma_leading_digits(s, s.len());
        assert(s.take(s.len() as int) =~= s);
    }
    if result == 0 {
        return Err(CutError::NotPositive);
    }
    Ok(result)
}

/// Reads one position: a positive decimal number, made of digits alone.
pub fn parse_single_position(s: &str) -> (r: Result<usize, CutError>)
    ensures
        r == position_spec(s@),
        r matches Ok(n) ==> n > 0,
{
    let chars = chars_of(s);
    assert(chars@.subrange(0, chars.len() as int) =~= chars@);
    parse_position_in(&chars, 0, chars.len())
}

/// The index of the first `c` in `s`, or the length of `s` if it holds
/// none.
pub open spec fn find_char(s: Seq<char>, c: char) -> nat
    decreases s.len(),
{
    if s.len() == 0 || s[0] == c {
        0
    } else {
        1 + find_char(s.drop_first(), c)
    }
}

/// An index with `c` at it, or the end, and no `c` before it, is the
/// index of the first `c`.
pub proof fn lemma_find_char_is(s: Seq<char>, c: char, at: nat)
    requires
        at <= s.len(),
        forall|i: int| 0 <= i < at ==> s[i] != c,
        at < s.len() ==> s[at as int] == c,
    ensures
        find_char(s, c) == at,
    decreases at,
{
    if at > 0 {
        let rest = s.drop_first();
        assert forall|i: int| 0 <= i < at - 1 implies rest[i] != c by {
            assert(rest[i] == s[i + 1]);
        }
        lemma_find_char_is(rest, c, (at - 1) as nat);
    }
}

/// The range that the item `item` of a list denotes.
///
/// `N` stands for position `N` alone, and `N-M` for the positions from
/// `N` to `M`, where `N` is less than `M`. Positions are written counted
/// from one; the range counts them from zero and excludes its end.
pub open spec fn range_spec(item: Seq<char>) -> Result<Range<usize>, CutError> {
    let dash = find_char(item, '-') as int;
    if dash < item.len() {
        match position_spec(item.take(dash)) {
            Err(e) => Err(e),
            Ok(start) => match position_spec(item.skip(dash + 1)) {
                Err(e) => Err(e),
                Ok(end) => if start >= end {
                    Err(CutError::Descending { start, end })
                } else {
                    Ok(Range { start: (start - 1) as usize, end })
                },
            },
        }
    } else {
        match position_spec(item) {
            Err(e) => Err(e),
            Ok(start) => Ok(Range { start: (start - 1) as usize, end: start }),
        }
    }
}

/// The ranges that the list `s` denotes: its items, which commas
/// separate, each read as a range. The first item that is no range
/// decides the error.
pub open spec fn list_spec(s: Seq<char>) -> Result<Seq<Range<usize>>, CutError>
    decreases s.len(),
{
    let comma = find_char(s, ',') as int;
    match range_spec(s.take(comma)) {
        Err(e) => Err(e),
        Ok(range) => if comma < s.len() {
            match list_spec(s.skip(comma + 1)) {
                Err(e) => Err(e),
                Ok(rest) => Ok(seq![range] + rest),
            }
        } else {
            Ok(seq![range])
        },
    }
}

/// The index of the first `c` in `text[from..to]`, or `to`.
fn find_in(text: &Vec<char>, from: usize, to: usize, c: char) -> (at: usize)
    requires
        from <= to <= text.len(),
    ensures
        from <= at <= to,
        at - from == find_char(text@.subrange(from as int, to as int), c),
{
    let ghost s = text@.subrange(from as int, to as int);
    let mut at: usize = from;
    while at < to && text[at] != c
        invariant
            from <= at <= to <= text.len(),
            s == text@.subrange(from as int, to as int),
            forall|i: int| 0 <= i < at - from ==> s[i] != c,
        decreases to - at,
    {
        at = at + 1;
    }
    proof {
        lemma_find_char_is(s, c, (at - from) as nat);
    }
    at
}

/// Reads the range that `text[from..to]` denotes.
fn parse_range_in(text: &Vec<char>, from: usize, to: usize) -> (r: Result<Range<usize>, CutError>)
    requires
        from <= to <= text.len(),
    ensures
        r == range_spec(text@.subrange(from as int, to as int)),
        r matches Ok(range) ==> range.start < range.end,
{
    let ghost item = text@.subrange(from as int, to as int);
    let dash = find_in(text, from, to, '-');
    if dash < to {
        assert(item.take(dash - from) =~= text@.subrange(from as int, dash as int));
        assert(item.skip(dash - from + 1) =~= text@.subrange(dash + 1, to as int));
        let start = match parse_position_in(text, from, dash) {
            Ok(start) => start,
            Err(e) => {
                return Err(e);
            },
        };
        let end = match parse_position_in(text, dash + 1, to) {
            Ok(end) => end,
            Err(e) => {
                return Err(e);
            },
        };
        if start >= end {
            return Err(CutError::Descending { start, end });
        }
        Ok(Range { start: start - 1, end })
    } else {
        match parse_position_in(text, from, to) {
            Ok(start) => Ok(Range { start: start - 1, end: start }),
            Err(e) => Err(e),
        }
    }
}

/// Reads a list of positions: ranges `N` or `N-M`, which commas
/// separate.
pub fn parse_pos(pos: &str) -> (r: Result<PositionList, CutError>)
    ensures
        match list_spec(pos@) {
            Ok(list) => r matches Ok(ranges) && ranges@ == list,
            Err(e) => r matches Err(found) && found == e,
        },
        r matches Ok(ranges) ==> ranges.len() > 0 && ascending(ranges@),
{
    let text = chars_of(pos);
    let mut ranges: PositionList = Vec::new();
    let mut from: usize = 0;
    assert(text@.subrange(0, text.len() as int) =~= pos@);
    loop
        invariant
            from <= text.len(),
            text@ == pos@,
            ascending(ranges@),
            match list_spec(text@.subrange(from as int, text.len() as int)) {
                Ok(rest) => list_spec(pos@) == Ok::<Seq<Range<usize>>, CutError>(
                    ranges@ + rest,
                ),
                Err(e) => list_spec(pos@) == Err::<Seq<Range<usize>>, CutError>(e),
            },
        decreases text.len() - from,
    {
        let ghost s = text@.subrange(from as int, text.len() as int);
        let ghost before = ranges@;
        let comma = find_in(&text, from, text.len(), ',');
        assert(s.take(comma - from) =~= text@.subrange(from as int, comma as int));
        let range = match parse_range_in(&text, from, comma) {
            Ok(range) => range,
            Err(e) => {
                return Err(e);
            },
        };
        ranges.push(range);
        if comma == text.len() {
            assert(before + seq![range] =~= ranges@);
            return Ok(ranges);
        }
        assert(s.skip(comma - from + 1) =~= text@.subrange(comma + 1, text.len() as int));
        proof {
            match list_spec(text@.subrange(comma + 1, text.len() as int)) {
                Ok(rest) => {
                    assert(before + (seq![range] + rest) =~= ranges@ + rest);
                },
                Err(_) => {},
            }
        }
        from = comma + 1;
    }
}

/// The part of `s` that `range` covers: the positions of the range that
/// `s` has.
pub open spec fn clip<T>(s: Seq<T>, range: Range<usize>) -> Seq<T> {
    let from = if range.start <= s.len() {
        range.start as int
    } else {
        s.len() as int
    };
    let to = if range.end <= s.len() {
        range.end as int
    } else {
        s.len() as int
    };
    if from <= to {
        s.subrange(from, to)
    } else {
        Seq::empty()
    }
}

/// The parts of `s` that the ranges cover, one after the other in the
/// order of the ranges.
pub open spec fn select<T>(s: Seq<T>, ranges: Seq<Range<usize>>) -> Seq<T>
    decreases ranges.len(),
{
    if ranges.len() == 0 {
        Seq::empty()
    } else {
        select(s, ranges.drop_last()) + clip(s, ranges.last())
    }
}

/// Whether no range of `ranges` ends before it begins.
pub open spec fn ascending(ranges: Seq<Range<usize>>) -> bool {
    forall|i: int| 0 <= i < ranges.len() ==> (#[trigger] ranges[i]).start <= ranges[i].end
}

/// The texts of the parts of `bytes` that the ranges cover, each part
/// read as UTF-8 on its own, one after the other.
pub open spec fn select_lossy(bytes: Seq<u8>, ranges: Seq<Range<usize>>) -> Seq<char>
    decreases ranges.len(),
{
    if ranges.len() == 0 {
        Seq::empty()
    } else {
        select_lossy(bytes, ranges.drop_last()) + utf8_lossy(clip(bytes, ranges.last()))
    }
}

/// The characters of `line` at the positions of `char_pos`.
pub fn extract_chars(line: &str, char_pos: &[Range<usize>]) -> (result: String)
    requires
        ascending(char_pos@),
    ensures
        result@ == select(line@, char_pos@),
{
    let chars = chars_of(line);
    let mut result = String::new();
    let mut k: usize = 0;
    while k < char_pos.len()
        invariant
            k <= char_pos.len(),
            chars@ == line@,
            ascending(char_pos@),
            result@ == select(line@, char_pos@.take(k as int)),
        decreases char_pos.len() - k,
    {
        let start = char_pos[k].start;
        let end = char_pos[k].end;
        let ghost before = result@;
        let mut i: usize = start;
        while i < end && i < chars.len()
            invariant
                start <= i,
                chars@ == line@,
                i <= end,
                start <= chars.len() ==> i <= chars.len(),
                result@ == before + if start <= chars.len() {
                    chars@.subrange(start as int, i as int)
                } else {
                    Seq::empty()
                },
            decreases end - i,
        {
            result.push(chars[i]);
            i = i + 1;
            assert(chars@.subrange(start as int, i as int) =~= chars@.subrange(
                start as int,
                i - 1,
            ).push(chars[i - 1]));
        }
        k = k + 1;
        proof {
            assert(char_pos@.take(k as int).drop_last() =~= char_pos@.take(k - 1));
            assert(char_pos@.take(k as int).last() == char_pos@[k - 1]);
            assert(result@ =~= before + clip(line@, char_pos@[k - 1]));
        }
    }
    assert(char_pos@.take(char_pos.len() as int) =~= char_pos@);
    result
}

/// The bytes of `bytes` at the positions of `range`.
pub fn clip_bytes(bytes: &[u8], range: &Range<usize>) -> (part: Vec<u8>)
    requires
        range.start <= range.end,
    ensures
        part@ == clip(bytes@, *range),
{
    let mut part: Vec<u8> = Vec::new();
    let start = range.start;
    let mut i: usize = range.start;
    while i < range.end && i < bytes.len()
        invariant
            start == range.start,
            start <= i,
            start <= range.end,
            i <= range.end,
            start <= bytes.len() ==> i <= bytes.len(),
            part@ == if start <= bytes.len() {
                bytes@.subrange(start as int, i as int)
            } else {
                Seq::empty()
            },
        decreases range.end - i,
    {
        part.push(bytes[i]);
        i = i + 1;
        assert(bytes@.subrange(start as int, i as int) =~= bytes@.subrange(
            start as int,
            i - 1,
        ).push(bytes[i - 1]));
    }
    assert(part@ =~= clip(bytes@, *range));
    part
}

/// The text of the bytes of `line` at the positions of `byte_pos`. The
/// bytes of each range are read as UTF-8 on their own: a range that cuts
/// through a character yields the replacement character.
pub fn extract_bytes(line: &str, byte_pos: &[Range<usize>]) -> (result: String)
    requires
        ascending(byte_pos@),
    ensures
        result@ == select_lossy(line.spec_bytes(), byte_pos@),
{
    let bytes = line.as_bytes();
    let mut result = String::new();
    let mut k: usize = 0;
    while k < byte_pos.len()
        invariant
            k <= byte_pos.len(),
            bytes@ == line.spec_bytes(),
            ascending(byte_pos@),
            result@ == select_lossy(bytes@, byte_pos@.take(k as int)),
        decreases byte_pos.len() - k,
    {
        let subbytes = clip_bytes(bytes, &byte_pos[k]);
        let text = from_utf8_lossy(&subbytes);
        result.append(text.as_str());
        k = k + 1;
        proof {
            assert(byte_pos@.take(k as int).drop_last() =~= byte_pos@.take(k - 1));
            assert(byte_pos@.take(k as int).last() == byte_pos@[k - 1]);
        }
    }
    assert(byte_pos@.take(byte_pos.len() as int) =~= byte_pos@);
    result
}

/// The fields of `record` at the positions of `fields_pos`.
pub fn extract_fields(record: &Vec<String>, fields_pos: &[Range<usize>]) -> (result: Vec<String>)
    requires
        ascending(fields_pos@),
    ensures
        result@ == select(record@, fields_pos@),
{
    let mut result: Vec<String> = Vec::new();
    let mut k: usize = 0;
    while k < fields_pos.len()
        invariant
            k <= fields_pos.len(),
            ascending(fields_pos@),
            result@ == select(record@, fields_pos@.take(k as int)),
        decreases fields_pos.len() - k,
    {
        let start = fields_pos[k].start;
        let end = fields_pos[k].end;
        let ghost before = result@;
        let mut i: usize = start;
        while i < end && i < record.len()
            invariant
                start <= i,
                start <= end,
                i <= end,
                start <= record.len() ==> i <= record.len(),
                result@ == before + if start <= record.len() {
                    record@.subrange(start as int, i as int)
                } else {
                    Seq::empty()
                },
            decreases end - i,
        {
            result.push(record[i].clone());
            i = i + 1;
            assert(record@.subrange(start as int, i as int) =~= record@.subrange(
                start as int,
                i - 1,
            ).push(record[i - 1]));
        }
        k = k + 1;
        proof {
            assert(fields_pos@.take(k as int).drop_last() =~= fields_pos@.take(k - 1));
            assert(fields_pos@.take(k as int).last() == fields_pos@[k - 1]);
            assert(result@ =~= before + clip(record@, fields_pos@[k - 1]));
        }
    }
    assert(fields_pos@.take(fields_pos.len() as int) =~= fields_pos@);
    result
}

/// Reads a field delimiter: a text of exactly one byte, which is the
/// delimiter.
pub fn parse_delimiter(s: &str) -> (r: Result<u8, String>)
    ensures
        match r {
            Ok(b) => s.spec_bytes().len() == 1 && b == s.spec_bytes()[0],
            Err(msg) => s.spec_bytes().len() != 1 && msg@ == "must be a single byte"@,
        },
{
    let bytes = s.as_bytes();
    if bytes.len() == 1 {
        Ok(bytes[0])
    } else {
        Err(String::from_str("must be a single byte"))
    }
}

} // verus!
