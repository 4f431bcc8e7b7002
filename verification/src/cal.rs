//! Calendars: which month an argument names, and how a month is laid
//! out.

use vstd::prelude::*;
use vstd::string::StringExecFns;
use crate::number::{parse_decimal, parse_decimal_spec};
use crate::text::{chars_of, decimal_digits, decimal_text};

verus! {

/// Whether `char::is_numeric` holds of `c`: whether `c` is in one of the
/// general categories of Unicode for numbers.
pub uninterp spec fn numeric(c: char) -> bool;

/// `char::is_numeric`, whose result depends on the character alone and
/// is named `numeric`.
pub assume_specification[ char::is_numeric ](c: char) -> (r: bool)
    ensures
        r == numeric(c),
;

/// Why an argument names no month.
#[derive(Debug)]
pub enum MonthError {
    /// The argument is a number that is not from 1 to 12.
    OutOfRange(String),
    /// The argument begins the names of several months.
    Ambiguous(String),
    /// The argument begins the name of no month.
    Invalid(String),
}

impl MonthError {
    /// The message of this error, with the argument in double quotes.
    pub fn message(&self) -> (s: String)
        ensures
            s@ == match *self {
                MonthError::OutOfRange(arg) => "month \""@ + arg@
                    + "\" not in the range 1 through 12"@,
                MonthError::Ambiguous(arg) => "Ambigous month name \""@ + arg@ + "\""@,
                MonthError::Invalid(arg) => "Invalid month \""@ + arg@ + "\""@,
            },
    {
        match self {
            MonthError::OutOfRange(arg) => String::from_str("month \"").concat(
                arg.as_str(),
            ).concat("\" not in the range 1 through 12"),
            MonthError::Ambiguous(arg) => String::from_str("Ambigous month name \"").concat(
                arg.as_str(),
            ).concat("\""),
            MonthError::Invalid(arg) => String::from_str("Invalid month \"").concat(
                arg.as_str(),
            ).concat("\""),
        }
    }
}

/// The name of month `month`, from 1 to 12, in lower case.
pub open spec fn lower_month_name(month: int) -> Seq<char> {
    if month == 1 {
        "january"@
    } else if month == 2 {
        "february"@
    } else if month == 3 {
        "march"@
    } else if month == 4 {
        "april"@
    } else if month == 5 {
        "may"@
    } else if month == 6 {
        "june"@
    } else if month == 7 {
        "july"@
    } else if month == 8 {
        "august"@
    } else if month == 9 {
        "september"@
    } else if month == 10 {
        "october"@
    } else if month == 11 {
        "november"@
    } else {
        "december"@
    }
}

/// The name of month `month`, from 1 to 12, in lower case.
fn lower_name(month: u32) -> (name: &'static str)
    requires
        1 <= month <= 12,
    ensures
        name@ == lower_month_name(month as int),
{
    match month {
        1 => "january",
        2 => "february",
        3 => "march",
        4 => "april",
        5 => "may",
        6 => "june",
        7 => "july",
        8 => "august",
        9 => "september",
        10 => "october",
        11 => "november",
        _ => "december",
    }
}

/// Whether `s` begins with `prefix`.
pub open spec fn begins_with(s: Seq<char>, prefix: Seq<char>) -> bool {
    prefix.len() <= s.len() && s.take(prefix.len() as int) == prefix
}

/// Whether `arg` begins the lower-case name of month `month`.
pub open spec fn names_month(arg: Seq<char>, month: int) -> bool {
    begins_with(lower_month_name(month), arg)
}

/// How many of the months from 1 to `upto` have a name that `arg`
/// begins.
pub open spec fn months_named(arg: Seq<char>, upto: int) -> nat
    decreases upto,
{
    if upto <= 0 {
        0
    } else {
        months_named(arg, upto - 1) + if names_month(arg, upto) {
            1nat
        } else {
            0nat
        }
    }
}

/// Whether every character of `s` is numeric.
pub open spec fn all_numeric(s: Seq<char>) -> bool {
    forall|i: int| 0 <= i < s.len() ==> numeric(#[trigger] s[i])
}

/// Whether an argument made of numeric characters alone is a number
/// that `u32` holds. An argument with another character is not asked for
/// this.
pub open spec fn readable(arg: Seq<char>) -> bool {
    all_numeric(arg) ==> parse_decimal_spec(arg, u32::MAX as nat) is Ok
}

/// Whether `m` is the month that `arg` names: the month of that
/// number, or the one month whose lower-case name `arg` begins.
pub open spec fn is_month_of(arg: Seq<char>, m: int) -> bool {
    if all_numeric(arg) {
        1 <= m <= 12 && parse_decimal_spec(arg, u32::MAX as nat) == Ok::<
            nat,
            crate::number::NumberError,
        >(m as nat)
    } else {
        1 <= m <= 12 && names_month(arg, m) && months_named(arg, 12) == 1
    }
}

/// Whether `s` begins with `prefix`.
fn has_prefix(s: &Vec<char>, prefix: &Vec<char>) -> (r: bool)
    ensures
        r == begins_with(s@, prefix@),
{
    if prefix.len() > s.len() {
        return false;
    }
    let mut i: usize = 0;
    while i < prefix.len()
        invariant
            i <= prefix.len() <= s.len(),
            s@.take(i as int) == prefix@.take(i as int),
        decreases prefix.len() - i,
    {
        if s[i] != prefix[i] {
            assert(s@.take(prefix.len() as int)[i as int] != prefix@[i as int]);
            return false;
        }
        i = i + 1;
        assert(s@.take(i as int) =~= s@.take(i - 1).push(s@[i - 1]));
        assert(prefix@.take(i as int) =~= prefix@.take(i - 1).push(prefix@[i - 1]));
    }
    assert(prefix@.take(prefix.len() as int) =~= prefix@);
    true
}

/// Whether every character of `chars` is numeric.
fn only_numeric(chars: &Vec<char>) -> (r: bool)
    ensures
        r == all_numeric(chars@),
{
    let mut i: usize = 0;
    while i < chars.len()
        invariant
            i <= chars.len(),
            forall|j: int| 0 <= j < i ==> numeric(#[trigger] chars@[j]),
        decreases chars.len() - i,
    {
        if !chars[i].is_numeric() {
            return false;
        }
        i = i + 1;
    }
    true
}

/// The month that `arg` names.
///
/// An argument made of numeric characters alone is the number of the
/// month, which has to be from 1 to 12. Any other argument is the
/// beginning of the name of the month, in lower case, and has to fit one
/// month alone.
pub fn month_arg_parser(arg: &str) -> (r: Result<u32, MonthError>)
    requires
        readable(arg@),
    ensures
        match r {
            Ok(m) => is_month_of(arg@, m as int),
            Err(MonthError::OutOfRange(a)) => a@ == arg@ && all_numeric(arg@) && forall|m: int|
                !is_month_of(arg@, m),
            Err(MonthError::Ambiguous(a)) => a@ == arg@ && !all_numeric(arg@) && months_named(
                arg@,
                12,
            ) > 1,
            Err(MonthError::Invalid(a)) => a@ == arg@ && !all_numeric(arg@) && months_named(
                arg@,
                12,
            ) == 0,
        },
{
    let chars = chars_of(arg);
    if only_numeric(&chars) {
        assert(chars@.subrange(0, chars.len() as int) =~= chars@);
        match parse_decimal(&chars, 0, u32::MAX as u64) {
            Ok(month) => {
                if 1 <= month && month <= 12 {
                    return Ok(month as u32);
                }
                return Err(MonthError::OutOfRange(String::from_str(arg)));
            },
            Err(_) => {
                return Err(MonthError::OutOfRange(String::from_str(arg)));
            },
        }
    }
    let mut found: u32 = 0;
    let mut count: u32 = 0;
    let mut month: u32 = 1;
    while month <= 12
        invariant
            1 <= month <= 13,
            chars@ == arg@,
            count == months_named(arg@, month - 1),
            count <= month - 1,
            count > 0 ==> 1 <= found < month && names_month(arg@, found as int),
        decreases 13 - month,
    {
        let name = chars_of(lower_name(month));
        if has_prefix(&name, &chars) {
            found = month;
            count = count + 1;
        }
        month = month + 1;
    }
    if count == 1 {
        Ok(found)
    } else if count > 1 {
        Err(MonthError::Ambiguous(String::from_str(arg)))
    } else {
        Err(MonthError::Invalid(String::from_str(arg)))
    }
}

/// The month that `arg` names, for every argument: `None` stands for an
/// argument made of numeric characters alone that is no number that
/// `u32` holds, such as the empty argument.
pub fn try_month_arg_parser(arg: &str) -> (r: Option<Result<u32, MonthError>>)
    ensures
        r is Some <==> readable(arg@),
        r matches Some(Ok(m)) ==> is_month_of(arg@, m as int),
        r matches Some(Err(_)) ==> forall|m: int| !is_month_of(arg@, m),
{
    let chars = chars_of(arg);
    assert(chars@.subrange(0, chars.len() as int) =~= chars@);
    if only_numeric(&chars) && parse_decimal(&chars, 0, u32::MAX as u64).is_err() {
        return None;
    }
    let r = month_arg_parser(arg);
    proof {
        if r is Err && !all_numeric(arg@) {
            assert forall|m: int| !is_month_of(arg@, m) by {
                if months_named(arg@, 12) == 0 && 1 <= m <= 12 {
                    lemma_months_named_none(arg@, 12, m);
                }
            }
        }
    }
    Some(r)
}

/// Where no month up to `upto` has a name that `arg` begins, month `m`
/// has none, if it is one of them.
pub proof fn lemma_months_named_none(arg: Seq<char>, upto: int, m: int)
    requires
        months_named(arg, upto) == 0,
        1 <= m <= upto,
    ensures
        !names_month(arg, m),
    decreases upto,
{
    if m < upto {
        lemma_months_named_none(arg, upto - 1, m);
    }
}

/// A day of the calendar.
#[derive(Debug, Clone, Copy, PartialEq, Eq, Structural)]
pub struct Date {
    pub year: i32,
    pub month: u32,
    pub day: u32,
}

/// What to show: one month of a year, or a whole year.
#[derive(Debug, Clone, Copy, PartialEq, Eq, Structural)]
pub enum Period {
    Month(i32, u32),
    Year(i32),
}

/// What the command line asked for.
#[derive(Debug, Clone, Copy)]
pub struct CLIArgs {
    pub year: Option<i32>,
    pub month: Option<u32>,
    pub show_current_year: bool,
}

/// What one run is to show.
#[derive(Debug, Clone, Copy)]
pub struct Args {
    pub period: Period,
}

/// What to show for the arguments given, on the day `today`: the
/// current year if it is asked for, else the month given, of the year
/// given or of the current one, else the year given, else the current
/// month.
pub fn parse_args(cli_args: &CLIArgs, today: &Date) -> (r: Result<Args, MonthError>)
    ensures
        r matches Ok(args) && args.period == (if cli_args.show_current_year {
            Period::Year(today.year)
        } else {
            match (cli_args.year, cli_args.month) {
                (None, None) => Period::Month(today.year, today.month),
                (Some(year), None) => Period::Year(year),
                (None, Some(month)) => Period::Month(today.year, month),
                (Some(year), Some(month)) => Period::Month(year, month),
            }
        }),
{
    let period = if cli_args.show_current_year {
        Period::Year(today.year)
    } else {
        match (cli_args.year, cli_args.month) {
            (None, None) => Period::Month(today.year, today.month),
            (Some(year), None) => Period::Year(year),
            (None, Some(month)) => Period::Month(today.year, month),
            (Some(year), Some(month)) => Period::Month(year, month),
        }
    };
    Ok(Args { period })
}

/// The width of a month: two characters for each day of the week, and a
/// space between them.
pub const BLOCK_WIDTH: usize = 20;

/// The first year that has dates.
pub const MIN_YEAR: i32 = -262143;

/// The last year that has dates.
pub const MAX_YEAR: i32 = 262142;

/// The name of month `month`, from 1 to 12.
pub open spec fn month_name_text(month: int) -> Seq<char> {
    if month == 1 {
        "January"@
    } else if month == 2 {
        "February"@
    } else if month == 3 {
        "March"@
    } else if month == 4 {
        "April"@
    } else if month == 5 {
        "May"@
    } else if month == 6 {
        "June"@
    } else if month == 7 {
        "July"@
    } else if month == 8 {
        "August"@
    } else if month == 9 {
        "September"@
    } else if month == 10 {
        "October"@
    } else if month == 11 {
        "November"@
    } else {
        "December"@
    }
}

/// The name of month `month`, from 1 to 12.
pub fn month_name(month: u32) -> (name: &'static str)
    requires
        1 <= month <= 12,
    ensures
        name@ == month_name_text(month as int),
{
    match month {
        1 => "January",
        2 => "February",
        3 => "March",
        4 => "April",
        5 => "May",
        6 => "June",
        7 => "July",
        8 => "August",
        9 => "September",
        10 => "October",
        11 => "November",
        _ => "December",
    }
}

/// Whether `year` is a leap year of the Gregorian calendar, which is
/// taken to hold of all years.
pub open spec fn is_leap_year(year: int) -> bool {
    year % 4 == 0 && (year % 100 != 0 || year % 400 == 0)
}

/// How many days month `month` of `year` has.
pub open spec fn month_length(year: int, month: int) -> int {
    if month == 2 {
        if is_leap_year(year) {
            29
        } else {
            28
        }
    } else if month == 4 || month == 6 || month == 9 || month == 11 {
        30
    } else {
        31
    }
}

/// The day of the week of the first day of month `month` of `year`,
/// counted from 1 for Sunday, as `chrono` computes it.
pub uninterp spec fn weekday_from_sunday(year: int, month: int) -> int;

/// Whether month `month` of `year` is one that has dates.
pub open spec fn has_dates(year: int, month: int) -> bool {
    1 <= month <= 12 && MIN_YEAR <= year <= MAX_YEAR
}

/// `chrono::NaiveDate::from_ymd_opt` for the first day of a month, and
/// `weekday().number_from_sunday()` of that date. There is such a date
/// for the months 1 to 12 of the years from `MIN_YEAR` to `MAX_YEAR`. Its
/// day of the week is a number from 1, for Sunday, to 7, and is named
/// `weekday_from_sunday`.
#[verifier::external_body]
fn first_weekday(year: i32, month: u32) -> (r: Option<u32>)
    ensures
        r.is_some() == has_dates(year as int, month as int),
        r.is_some() ==> r.unwrap() == weekday_from_sunday(year as int, month as int),
        r.is_some() ==> 1 <= r.unwrap() && r.unwrap() <= 7,
{
    match chrono::NaiveDate::from_ymd_opt(year, month, 1) {
        Some(first) => Some(chrono::Datelike::weekday(&first).number_from_sunday()),
        None => None,
    }
}

/// `chrono::NaiveDate::from_ymd_opt` for the first day of a month, and
/// `num_days_in_month()` of that date. There is such a date for the
/// months 1 to 12 of the years from `MIN_YEAR` to `MAX_YEAR`, and the
/// month has the days that the Gregorian calendar gives it.
#[verifier::external_body]
fn days_in_month(year: i32, month: u32) -> (r: Option<u8>)
    ensures
        r.is_some() == has_dates(year as int, month as int),
        r.is_some() ==> r.unwrap() == month_length(year as int, month as int),
{
    match chrono::NaiveDate::from_ymd_opt(year, month, 1) {
        Some(first) => Some(chrono::Datelike::num_days_in_month(&first)),
        None => None,
    }
}

/// `text` between the codes that switch reverse video on and all styles
/// off.
pub open spec fn highlighted(text: Seq<char>) -> Seq<char> {
    "\u{1b}[7m"@ + text + "\u{1b}[0m"@
}

/// `ansi_term::Style::new().reverse().paint(text)`, written out: the
/// text after the code for reverse video and before the code that resets
/// all styles.
#[verifier::external_body]
fn reverse_video(text: &str) -> (s: String)
    ensures
        s@ == highlighted(text@),
{
    ansi_term::Style::new().reverse().paint(text).to_string()
}

/// `n` spaces.
pub open spec fn spaces(n: nat) -> Seq<char> {
    Seq::new(n, |i: int| ' ')
}

/// `text` in the middle of `width` characters: padded with spaces on
/// both sides, with the odd space on the right. A text that is wider
/// is left as it is.
pub open spec fn centered(text: Seq<char>, width: nat) -> Seq<char> {
    if text.len() >= width {
        text
    } else {
        spaces(((width - text.len()) / 2) as nat) + text + spaces(
            ((width - text.len()) - (width - text.len()) / 2) as nat,
        )
    }
}

/// `text` at the right of `width` characters. A text that is wider is
/// left as it is.
pub open spec fn right_aligned(text: Seq<char>, width: nat) -> Seq<char> {
    if text.len() >= width {
        text
    } else {
        spaces((width - text.len()) as nat) + text
    }
}

/// The digits of `n`, after a minus sign if it is negative.
pub open spec fn signed_digits(n: int) -> Seq<char> {
    if n < 0 {
        seq!['-'] + decimal_digits((-n) as nat)
    } else {
        decimal_digits(n as nat)
    }
}

/// What stands above a month: its name, and the year if it is to be
/// shown.
pub open spec fn month_label(year: int, month: int, print_year: bool) -> Seq<char> {
    if print_year {
        month_name_text(month) + seq![' '] + signed_digits(year)
    } else {
        month_name_text(month)
    }
}

/// The day of the month to highlight: that of `today` in its own month,
/// and none in any other.
pub open spec fn day_to_mark(year: int, month: int, today: Date) -> int {
    if year == today.year && month == today.month {
        today.day as int
    } else {
        u32::MAX as int
    }
}

/// Cell `k` of the 42 cells of a month, which begins with `filler`
/// empty cells and has `days` days: the number of the day in two
/// characters, highlighted if it is day `mark`, or two spaces.
pub open spec fn day_cell(k: int, filler: int, days: int, mark: int) -> Seq<char> {
    let day = k - filler + 1;
    if k < filler || day > days {
        seq![' ', ' ']
    } else if day == mark {
        highlighted(right_aligned(decimal_digits(day as nat), 2))
    } else {
        right_aligned(decimal_digits(day as nat), 2)
    }
}

/// The first `n` cells of week `week`, with a space between them.
pub open spec fn week_cells(week: int, n: int, filler: int, days: int, mark: int) -> Seq<char>
    decreases n,
{
    if n <= 0 {
        Seq::empty()
    } else if n == 1 {
        day_cell(7 * week, filler, days, mark)
    } else {
        week_cells(week, n - 1, filler, days, mark) + seq![' '] + day_cell(
            7 * week + n - 1,
            filler,
            days,
            mark,
        )
    }
}

/// The rows of a month whose first day is day `first_weekday` of the
/// week, counted from 1 for Sunday, and which has `days` days.
///
/// There are eight rows: the label in the middle of the width of the
/// month, the days of the week, and six weeks of seven cells each. Two
/// spaces end every row.
pub open spec fn month_rows(
    year: int,
    month: int,
    print_year: bool,
    today: Date,
    first_weekday: int,
    days: int,
) -> Seq<Seq<char>> {
    seq![
        centered(month_label(year, month, print_year), BLOCK_WIDTH as nat) + seq![' ', ' '],
        "Su Mo Tu We Th Fr Sa"@ + seq![' ', ' '],
    ] + Seq::new(
        6,
        |week: int|
            week_cells(week, 7, first_weekday - 1, days, day_to_mark(year, month, today)) + seq![
                ' ',
                ' ',
            ],
    )
}

/// Appends `n` spaces to `s`.
fn push_spaces(s: &mut String, n: usize)
    ensures
        final(s)@ == old(s)@ + spaces(n as nat),
{
    let mut i: usize = 0;
    assert(s@ =~= old(s)@ + spaces(0));
    while i < n
        invariant
            i <= n,
            s@ == old(s)@ + spaces(i as nat),
        decreases n - i,
    {
        s.push(' ');
        i = i + 1;
        assert(s@ =~= old(s)@ + spaces(i as nat));
    }
}

/// The digits of `n`, after a minus sign if it is negative.
pub fn signed_text(n: i32) -> (s: String)
    ensures
        s@ == signed_digits(n as int),
{
    if n < 0 {
        let digits = decimal_text((-(n as i64)) as u64);
        let mut s = String::new();
        s.push('-');
        s.append(digits.as_str());
        assert(s@ =~= signed_digits(n as int));
        s
    } else {
        decimal_text(n as u64)
    }
}

/// `text` in the middle of `width` characters.
pub fn center(text: &str, width: usize) -> (s: String)
    ensures
        s@ == centered(text@, width as nat),
{
    let len = text.unicode_len();
    if len >= width {
        return String::from_str(text);
    }
    let padding = width - len;
    let mut s = String::new();
    push_spaces(&mut s, padding / 2);
    s.append(text);
    push_spaces(&mut s, padding - padding / 2);
    assert(s@ =~= centered(text@, width as nat));
    s
}

/// `text` at the right of `width` characters.
pub fn align_right(text: &str, width: usize) -> (s: String)
    ensures
        s@ == right_aligned(text@, width as nat),
{
    let len = text.unicode_len();
    if len >= width {
        return String::from_str(text);
    }
    let mut s = String::new();
    push_spaces(&mut s, width - len);
    s.append(text);
    assert(s@ =~= right_aligned(text@, width as nat));
    s
}

/// Lays out a month whose first day is day `first_weekday` of the week,
/// counted from 1 for Sunday, and which has `days` days.
pub fn layout_month(
    year: i32,
    month: u32,
    print_year: bool,
    today: &Date,
    first_weekday: u32,
    days: u8,
) -> (rows: Vec<String>)
    requires
        1 <= month <= 12,
        1 <= first_weekday <= 7,
    ensures
        rows.deep_view() == month_rows(
            year as int,
            month as int,
            print_year,
            *today,
            first_weekday as int,
            days as int,
        ),
{
    let mut label = String::from_str(month_name(month));
    if print_year {
        label.push(' ');
        label.append(signed_text(year).as_str());
    }
    assert(label@ =~= month_label(year as int, month as int, print_year));
    let mut rows: Vec<String> = Vec::new();
    let mut head = center(label.as_str(), BLOCK_WIDTH);
    head.append("  ");
    rows.push(head);
    rows.push(String::from_str("Su Mo Tu We Th Fr Sa").concat("  "));
    proof {
        reveal_strlit("  ");
        assert("  "@ =~= seq![' ', ' ']);
    }
    let today_day: u32 = if year == today.year && month == today.month {
        today.day
    } else {
        u32::MAX
    };
    let filler = first_weekday - 1;
    let ghost mark = day_to_mark(year as int, month as int, *today);
    let ghost expected = month_rows(
        year as int,
        month as int,
        print_year,
        *today,
        first_weekday as int,
        days as int,
    );
    assert(rows.deep_view() =~= expected.take(2));
    let mut week: u32 = 0;
    while week < 6
        invariant
            week <= 6,
            filler == first_weekday - 1,
            filler <= 6,
            mark == today_day,
            "  "@ == seq![' ', ' '],
            rows.len() == 2 + week,
            rows.deep_view() == expected.take(2 + week),
            expected == month_rows(
                year as int,
                month as int,
                print_year,
                *today,
                first_weekday as int,
                days as int,
            ),
            mark == day_to_mark(year as int, month as int, *today),
        decreases 6 - week,
    {
        let mut row = String::new();
        let mut n: u32 = 0;
        while n < 7
            invariant
                n <= 7,
                week < 6,
                filler <= 6,
                mark == today_day,
                "  "@ == seq![' ', ' '],
                row@ == week_cells(week as int, n as int, filler as int, days as int, mark),
            decreases 7 - n,
        {
            if n > 0 {
                row.push(' ');
            }
            let k = 7 * week + n;
            if k < filler || k - filler + 1 > days as u32 {
                row.append("  ");
            } else {
                let day = k - filler + 1;
                let rendered = align_right(decimal_text(day as u64).as_str(), 2);
                if today_day == day {
                    row.append(reverse_video(rendered.as_str()).as_str());
                } else {
                    row.append(rendered.as_str());
                }
            }
            n = n + 1;
        }
        row.append("  ");
        let ghost before = rows.deep_view();
        rows.push(row);
        assert(rows.deep_view() =~= before.push(expected[2 + week]));
        assert(expected.take(3 + week) =~= expected.take(2 + week).push(expected[2 + week]));
        week = week + 1;
    }
    assert(expected.take(8) =~= expected);
    rows
}

/// The rows of month `month` of `year`, as it is laid out on the day
/// `today`.
pub open spec fn month_rows_of(year: int, month: int, print_year: bool, today: Date) -> Seq<
    Seq<char>,
> {
    month_rows(
        year,
        month,
        print_year,
        today,
        weekday_from_sunday(year, month),
        month_length(year, month),
    )
}

/// Lays out month `month` of `year`: eight rows, with the day `today`
/// highlighted if it falls in that month.
pub fn format_month(year: i32, month: u32, print_year: bool, today: &Date) -> (rows: Vec<String>)
    requires
        1 <= month <= 12,
        MIN_YEAR <= year <= MAX_YEAR,
    ensures
        rows.deep_view() == month_rows_of(year as int, month as int, print_year, *today),
{
    match (first_weekday(year, month), days_in_month(year, month)) {
        (Some(weekday), Some(days)) => layout_month(year, month, print_year, today, weekday, days),
        _ => Vec::new(),
    }
}

/// Row `row` of the block of three months that begins with month
/// `first`: the rows of the three months side by side.
pub open spec fn block_row(year: int, first: int, row: int, today: Date) -> Seq<char> {
    month_rows_of(year, first, false, today)[row] + month_rows_of(
        year,
        first + 1,
        false,
        today,
    )[row] + month_rows_of(year, first + 2, false, today)[row]
}

/// Line `i` of the 36 lines of a year: the year at the right of 32
/// characters, then four blocks of three months, eight rows each, with
/// an empty line between two blocks.
pub open spec fn year_line(year: int, i: int, today: Date) -> Seq<char> {
    if i == 0 {
        right_aligned(signed_digits(year), 32)
    } else if i % 9 == 0 {
        Seq::empty()
    } else {
        block_row(year, 3 * ((i - 1) / 9) + 1, (i - 1) % 9, today)
    }
}

/// The width at which the year stands to the right, above its months.
pub const YEAR_WIDTH: usize = BLOCK_WIDTH * 3 / 2 + 2;

/// Lays out the twelve months of `year`, three side by side, under the
/// year.
pub fn format_year(year: i32, today: &Date) -> (lines: Vec<String>)
    requires
        MIN_YEAR <= year <= MAX_YEAR,
    ensures
        lines.len() == 36,
        forall|i: int| 0 <= i < 36 ==> (#[trigger] lines[i])@ == year_line(year as int, i, *today),
{
    let mut lines: Vec<String> = Vec::new();
    lines.push(align_right(signed_text(year).as_str(), YEAR_WIDTH));
    let mut block: u32 = 0;
    while block < 4
        invariant
            block <= 4,
            MIN_YEAR <= year <= MAX_YEAR,
            lines.len() == 1 + 9 * block - (if block > 0 { 1int } else { 0int }),
            forall|i: int|
                0 <= i < lines.len() ==> (#[trigger] lines[i])@ == year_line(
                    year as int,
                    i,
                    *today,
                ),
        decreases 4 - block,
    {
        if block > 0 {
            lines.push(String::new());
        }
        let first = 3 * block + 1;
        let m1 = format_month(year, first, false, today);
        let m2 = format_month(year, first + 1, false, today);
        let m3 = format_month(year, first + 2, false, today);
        assert(m1.deep_view().len() == 8 && m2.deep_view().len() == 8 && m3.deep_view().len() == 8);
        let ghost base = lines.len() as int;
        assert(base == 9 * block + 1);
        let mut row: usize = 0;
        while row < 8
            invariant
                row <= 8,
                block < 4,
                first == 3 * block + 1,
                base == 9 * block + 1,
                lines.len() == base + row,
                m1.len() == 8 && m2.len() == 8 && m3.len() == 8,
                m1.deep_view() == month_rows_of(year as int, first as int, false, *today),
                m2.deep_view() == month_rows_of(year as int, first + 1, false, *today),
                m3.deep_view() == month_rows_of(year as int, first + 2, false, *today),
                forall|i: int|
                    0 <= i < lines.len() ==> (#[trigger] lines[i])@ == year_line(
                        year as int,
                        i,
                        *today,
                    ),
            decreases 8 - row,
        {
            let line = m1[row].clone().concat(m2[row].as_str()).concat(m3[row].as_str());
            proof {
                let i = base + row;
                assert(m1.deep_view()[row as int] == m1[row as int]@);
                assert(m2.deep_view()[row as int] == m2[row as int]@);
                assert(m3.deep_view()[row as int] == m3[row as int]@);
                assert((i - 1) / 9 == block && (i - 1) % 9 == row && i % 9 != 0);
                assert(line@ == year_line(year as int, i, *today));
            }
            lines.push(line);
            row = row + 1;
        }
        block = block + 1;
    }
    lines
}

} // verus!
