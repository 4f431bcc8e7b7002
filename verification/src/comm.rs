//! Comparing two sorted inputs line by line: which lines are in the
//! first alone, in the second alone, and in both.

use vstd::prelude::*;
use vstd::string::StringExecFns;
use crate::text::{chars_of, comes_before, compare, lemma_before_asymmetric, Order};

verus! {

/// An input named on the command line.
#[derive(Debug, PartialEq)]
pub enum CLIInput {
    StdIn,
    File(String),
}

/// The input that `value` names: standard input for a dash, and else
/// the file of that path.
pub fn parse_cli_input(value: &str) -> (input: CLIInput)
    ensures
        match input {
            CLIInput::StdIn => value@ == seq!['-'],
            CLIInput::File(path) => value@ != seq!['-'] && path@ == value@,
        },
{
    let chars = chars_of(value);
    if chars.len() == 1 && chars[0] == '-' {
        assert(chars@ =~= seq!['-']);
        CLIInput::StdIn
    } else {
        CLIInput::File(String::from_str(value))
    }
}

/// What one run compares, and what it shows.
#[derive(Debug)]
pub struct Args {
    pub file1: CLIInput,
    pub file2: CLIInput,
    /// Whether the lines of the first input alone are shown.
    pub show_col1: bool,
    /// Whether the lines of the second input alone are shown.
    pub show_col2: bool,
    /// Whether the lines of both inputs are shown.
    pub show_col3: bool,
    /// Whether lines are compared without regard to case.
    pub insensitive: bool,
    /// What separates the columns.
    pub delimiter: String,
}

/// Refuses two inputs that are both standard input.
pub fn check_inputs(args: &Args) -> (r: Result<(), String>)
    ensures
        match r {
            Ok(()) => !(args.file1 is StdIn && args.file2 is StdIn),
            Err(reason) => args.file1 is StdIn && args.file2 is StdIn && reason@
                == "Both input files cannot be STDIN (\"-\")"@,
        },
{
    match (&args.file1, &args.file2) {
        (CLIInput::StdIn, CLIInput::StdIn) => Err(
            String::from_str("Both input files cannot be STDIN (\"-\")"),
        ),
        _ => Ok(()),
    }
}

/// What `str::to_lowercase` makes of `s`: its lower case, as Unicode
/// defines it.
pub uninterp spec fn lowercase(s: Seq<char>) -> Seq<char>;

/// `str::to_lowercase`, whose result depends on the text alone and is
/// named `lowercase`.
#[verifier::external_body]
fn to_lowercase(s: &str) -> (lower: String)
    ensures
        lower@ == lowercase(s@),
{
    s.to_lowercase()
}

/// That by which a line is compared: the line, or with `insensitive`
/// its lower case.
pub open spec fn key(line: Seq<char>, insensitive: bool) -> Seq<char> {
    if insensitive {
        lowercase(line)
    } else {
        line
    }
}

/// Where a line is found.
#[derive(Debug, Clone, Copy, PartialEq, Eq, Structural)]
pub enum Column {
    /// In the first input alone.
    First,
    /// In the second input alone.
    Second,
    /// In both inputs.
    Both,
}

/// The lines of two inputs, each with the column where it belongs, in
/// the order in which they are met.
///
/// The lines at the head of the two inputs are compared. The one that
/// comes first in the order of texts is in its input alone; two lines
/// that compare equal are one line of both inputs, taken from the first.
/// An input that has ended counts as coming last.
pub open spec fn merged(a: Seq<String>, b: Seq<String>, insensitive: bool) -> Seq<
    (Column, Seq<char>),
>
    decreases a.len() + b.len(),
{
    if a.len() == 0 && b.len() == 0 {
        Seq::empty()
    } else if a.len() == 0 {
        seq![(Column::Second, b[0]@)] + merged(a, b.drop_first(), insensitive)
    } else if b.len() == 0 {
        seq![(Column::First, a[0]@)] + merged(a.drop_first(), b, insensitive)
    } else if comes_before(key(a[0]@, insensitive), key(b[0]@, insensitive), false) {
        seq![(Column::First, a[0]@)] + merged(a.drop_first(), b, insensitive)
    } else if comes_before(key(b[0]@, insensitive), key(a[0]@, insensitive), false) {
        seq![(Column::Second, b[0]@)] + merged(a, b.drop_first(), insensitive)
    } else {
        seq![(Column::Both, a[0]@)] + merged(a.drop_first(), b.drop_first(), insensitive)
    }
}

/// What stands before a line of the second column: the delimiter, if
/// the first column is shown.
pub open spec fn second_prefix(args: Args) -> Seq<char> {
    if args.show_col1 {
        args.delimiter@
    } else {
        Seq::empty()
    }
}

/// What stands before a line of the third column: what stands before
/// one of the second, and the delimiter, if the second column is shown.
pub open spec fn third_prefix(args: Args) -> Seq<char> {
    if args.show_col2 {
        second_prefix(args) + args.delimiter@
    } else {
        second_prefix(args)
    }
}

/// The lines written for `entries`: each line whose column is shown,
/// after what stands before its column.
pub open spec fn written(entries: Seq<(Column, Seq<char>)>, args: Args) -> Seq<Seq<char>>
    decreases entries.len(),
{
    if entries.len() == 0 {
        Seq::empty()
    } else {
        let rest = written(entries.drop_first(), args);
        match entries[0].0 {
            Column::First => if args.show_col1 {
                seq![entries[0].1] + rest
            } else {
                rest
            },
            Column::Second => if args.show_col2 {
                seq![second_prefix(args) + entries[0].1] + rest
            } else {
                rest
            },
            Column::Both => if args.show_col3 {
                seq![third_prefix(args) + entries[0].1] + rest
            } else {
                rest
            },
        }
    }
}

/// How line `s1` stands to line `s2` in the order of texts, as they
/// are or with `insensitive` in lower case.
pub fn compare_lines(s1: &str, s2: &str, insensitive: bool) -> (o: Order)
    ensures
        o is Before <==> comes_before(key(s1@, insensitive), key(s2@, insensitive), false),
        o is After <==> comes_before(key(s2@, insensitive), key(s1@, insensitive), false),
{
    if insensitive {
        let l1 = to_lowercase(s1);
        let l2 = to_lowercase(s2);
        let o = compare(l1.as_str(), l2.as_str(), false);
        proof {
            if o is Before {
                lemma_before_asymmetric(l1@, l2@, false);
            }
        }
        o
    } else {
        let o = compare(s1, s2, false);
        proof {
            if o is Before {
                lemma_before_asymmetric(s1@, s2@, false);
            }
        }
        o
    }
}

/// The lines to write for the inputs with the lines `lines1` and
/// `lines2`.
pub fn comm(lines1: &Vec<String>, lines2: &Vec<String>, args: &Args) -> (out: Vec<String>)
    ensures
        out.deep_view() == written(merged(lines1@, lines2@, args.insensitive), *args),
{
    let c2_prefix = if args.show_col1 {
        args.delimiter.clone()
    } else {
        String::new()
    };
    let c3_prefix = if args.show_col2 {
        c2_prefix.clone().concat(args.delimiter.as_str())
    } else {
        c2_prefix.clone()
    };
    let mut out: Vec<String> = Vec::new();
    let mut i: usize = 0;
    let mut j: usize = 0;
    let ghost all = written(merged(lines1@, lines2@, args.insensitive), *args);
    proof {
        assert(lines1@.skip(0) =~= lines1@);
        assert(lines2@.skip(0) =~= lines2@);
        assert(out.deep_view() + all =~= all);
    }
    while i < lines1.len() || j < lines2.len()
        invariant
            i <= lines1.len(),
            j <= lines2.len(),
            c2_prefix@ == second_prefix(*args),
            c3_prefix@ == third_prefix(*args),
            all == out.deep_view() + written(
                merged(lines1@.skip(i as int), lines2@.skip(j as int), args.insensitive),
                *args,
            ),
        decreases (lines1.len() - i) + (lines2.len() - j),
    {
        let ghost a = lines1@.skip(i as int);
        let ghost b = lines2@.skip(j as int);
        let ghost before = out.deep_view();
        let ghost entries = merged(a, b, args.insensitive);
        proof {
            if i < lines1.len() {
                assert(a[0] == lines1@[i as int]);
                assert(a.drop_first() =~= lines1@.skip(i + 1));
            }
            if j < lines2.len() {
                assert(b[0] == lines2@[j as int]);
                assert(b.drop_first() =~= lines2@.skip(j + 1));
            }
        }
        let ord = if i == lines1.len() {
            Order::After
        } else if j == lines2.len() {
            Order::Before
        } else {
            compare_lines(lines1[i].as_str(), lines2[j].as_str(), args.insensitive)
        };
        match ord {
            Order::Before => {
                if args.show_col1 {
                    out.push(lines1[i].clone());
                }
                i = i + 1;
            },
            Order::After => {
                if args.show_col2 {
                    out.push(c2_prefix.clone().concat(lines2[j].as_str()));
                }
                j = j + 1;
            },
            Order::Same => {
                if args.show_col3 {
                    out.push(c3_prefix.clone().concat(lines1[i].as_str()));
                }
                i = i + 1;
                j = j + 1;
            },
        }
        proof {
            let rest = written(entries.drop_first(), *args);
            assert(entries.len() > 0);
            assert(entries.drop_first() =~= merged(
                lines1@.skip(i as int),
                lines2@.skip(j as int),
                args.insensitive,
            ));
            assert(out.deep_view() + rest =~= before + written(entries, *args));
        }
    }
    assert(out.deep_view() + Seq::<Seq<char>>::empty() =~= out.deep_view());
    out
}

} // verus!
