//! Searching lines for a pattern: what to search, which lines match,
//! and how they are shown.
//!
//! Nothing here looks at the file system or reads a file. What was found
//! and read comes in as plain values.

use vstd::prelude::*;
use vstd::string::StringExecFns;
use crate::pattern::{match_each, Pattern};
use crate::text::{chars_of, decimal_digits, decimal_text};

verus! {

/// Where lines come from.
#[derive(Debug, PartialEq)]
pub enum Input {
    File(String),
    StdIn,
}

impl Input {
    /// How this input is written: a dash for standard input, and the
    /// path of a file.
    pub open spec fn label(self) -> Seq<char> {
        match self {
            Input::StdIn => seq!['-'],
            Input::File(path) => path@,
        }
    }

    /// How this input is written.
    pub fn to_text(&self) -> (s: String)
        ensures
            s@ == self.label(),
    {
        match self {
            Input::StdIn => {
                let mut s = String::new();
                s.push('-');
                assert(s@ =~= seq!['-']);
                s
            },
            Input::File(file) => file.clone(),
        }
    }
}

/// The input that an argument names: standard input for a dash, and
/// else the file of that path.
pub fn parse_input(filename: &str) -> (r: Result<Input, String>)
    ensures
        r matches Ok(input) && match input {
            Input::StdIn => filename@ == seq!['-'],
            Input::File(path) => filename@ != seq!['-'] && path@ == filename@,
        },
{
    let chars = chars_of(filename);
    if chars.len() == 1 && chars[0] == '-' {
        assert(chars@ =~= seq!['-']);
        Ok(Input::StdIn)
    } else {
        Ok(Input::File(String::from_str(filename)))
    }
}

/// What to find out about an input before it is searched.
#[derive(Debug, Clone, Copy, PartialEq, Eq, Structural)]
pub enum Probe {
    /// Nothing: standard input is searched as it is.
    Nothing,
    /// Whether the file is a directory.
    Metadata,
    /// What is under the path, all the way down.
    Walk,
}

/// What to find out about `input`: of a file, what it is, or with
/// `recursive` set what is under it; of standard input, nothing.
pub open spec fn probe_of(input: Input, recursive: bool) -> Probe {
    match input {
        Input::StdIn => Probe::Nothing,
        Input::File(_) => if recursive {
            Probe::Walk
        } else {
            Probe::Metadata
        },
    }
}

/// What to find out about `input` before it is searched.
pub fn probe_for(input: &Input, recursive: bool) -> (p: Probe)
    ensures
        p == probe_of(*input, recursive),
{
    match input {
        Input::StdIn => Probe::Nothing,
        Input::File(_) => if recursive {
            Probe::Walk
        } else {
            Probe::Metadata
        },
    }
}

/// One step of a walk under a path.
#[derive(Debug)]
pub enum WalkStep {
    /// The walk met an error, described here.
    Failed(String),
    /// The walk met an entry.
    Entry {
        /// Whether the entry is a regular file.
        is_file: bool,
        /// The path of the entry, if it is valid Unicode.
        path: Option<String>,
        /// How the entry is shown where its path is not.
        shown: String,
    },
}

/// What was found out about an input.
#[derive(Debug)]
pub enum Probed {
    Nothing,
    /// Whether the file is a directory, or why that is not known.
    Metadata(Result<bool, String>),
    /// The steps of the walk, in their order.
    Walk(Vec<WalkStep>),
}

impl Probed {
    /// Whether this is what `probe` asks for.
    pub open spec fn answers(self, probe: Probe) -> bool {
        match self {
            Probed::Nothing => probe is Nothing,
            Probed::Metadata(_) => probe is Metadata,
            Probed::Walk(_) => probe is Walk,
        }
    }
}

/// What is searched for a file that is not walked: the file, or the
/// reason why it is not searched.
pub open spec fn single(path: String, metadata: Result<bool, String>) -> Result<Input, Seq<char>> {
    match metadata {
        Err(reason) => Err(path@ + ": "@ + reason@),
        Ok(is_dir) => if is_dir {
            Err(path@ + " is a directory"@)
        } else {
            Ok(Input::File(path))
        },
    }
}

/// What is searched for the steps of a walk: each file, and the reason
/// why for each step that leads to nothing to search. An entry that is no
/// file is passed over.
pub open spec fn walked(steps: Seq<WalkStep>) -> Seq<Result<Input, Seq<char>>>
    decreases steps.len(),
{
    if steps.len() == 0 {
        Seq::empty()
    } else {
        let before = walked(steps.drop_last());
        match steps.last() {
            WalkStep::Failed(reason) => before.push(Err(reason@)),
            WalkStep::Entry { is_file, path, shown } => if !is_file {
                before
            } else {
                match path {
                    Some(path) => before.push(Ok(Input::File(path))),
                    None => before.push(
                        Err("Failed to convert dent path '"@ + shown@ + "' to string"@),
                    ),
                }
            },
        }
    }
}

/// What is searched for one input.
pub open spec fn found_for(input: Input, probed: Probed) -> Seq<Result<Input, Seq<char>>> {
    match (input, probed) {
        (Input::File(path), Probed::Metadata(metadata)) => seq![single(path, metadata)],
        (Input::File(_), Probed::Walk(steps)) => walked(steps@),
        _ => seq![Ok(input)],
    }
}

/// What is searched for the inputs `paths`, of which `probed` says what
/// was found out.
pub open spec fn found(paths: Seq<Input>, probed: Seq<Probed>) -> Seq<Result<Input, Seq<char>>>
    decreases paths.len(),
{
    if paths.len() == 0 || paths.len() != probed.len() {
        Seq::empty()
    } else {
        found(paths.drop_last(), probed.drop_last()) + found_for(paths.last(), probed.last())
    }
}

/// What a list of inputs or reasons says, with each reason as its text.
pub open spec fn said(results: Seq<Result<Input, String>>) -> Seq<Result<Input, Seq<char>>> {
    results.map_values(
        |r: Result<Input, String>|
            match r {
                Ok(input) => Ok(input),
                Err(reason) => Err(reason@),
            },
    )
}

/// What to search for the inputs `paths`, in their order: standard
/// input, each file that is no directory, and with `recursive` set each
/// file under each path. Where there is nothing to search for an input or
/// for a step of a walk, the reason stands in its place.
pub fn find_files(paths: &[Input], recursive: bool, probed: &[Probed]) -> (result: Vec<
    Result<Input, String>,
>)
    requires
        probed.len() == paths.len(),
        forall|i: int|
            0 <= i < paths.len() ==> (#[trigger] probed[i]).answers(probe_of(paths[i], recursive)),
    ensures
        said(result@) == found(paths@, probed@),
{
    let mut result: Vec<Result<Input, String>> = Vec::new();
    let mut k: usize = 0;
    assert(said(result@) =~= found(paths@.take(0), probed@.take(0)));
    while k < paths.len()
        invariant
            k <= paths.len(),
            probed.len() == paths.len(),
            said(result@) == found(paths@.take(k as int), probed@.take(k as int)),
        decreases paths.len() - k,
    {
        let ghost before = said(result@);
        proof {
            assert(paths@.take(k + 1).drop_last() =~= paths@.take(k as int));
            assert(probed@.take(k + 1).drop_last() =~= probed@.take(k as int));
            assert(paths@.take(k + 1).last() == paths@[k as int]);
            assert(probed@.take(k + 1).last() == probed@[k as int]);
        }
        match (&paths[k], &probed[k]) {
            (Input::File(path), Probed::Metadata(metadata)) => {
                let one: Result<Input, String> = match metadata {
                    Err(reason) => Err(
                        path.clone().concat(": ").concat(reason.as_str()),
                    ),
                    Ok(is_dir) => if *is_dir {
                        Err(path.clone().concat(" is a directory"))
                    } else {
                        Ok(Input::File(path.clone()))
                    },
                };
                result.push(one);
                assert(said(result@) =~= before + seq![single(*path, *metadata)]);
            },
            (Input::File(_), Probed::Walk(steps)) => {
                let mut i: usize = 0;
                assert(steps@.take(0) =~= Seq::<WalkStep>::empty());
                assert(said(result@) =~= before + walked(steps@.take(0)));
                while i < steps.len()
                    invariant
                        i <= steps.len(),
                        said(result@) == before + walked(steps@.take(i as int)),
                    decreases steps.len() - i,
                {
                    let ghost sofar = said(result@);
                    proof {
                        assert(steps@.take(i + 1).drop_last() =~= steps@.take(i as int));
                        assert(steps@.take(i + 1).last() == steps@[i as int]);
                    }
                    match &steps[i] {
                        WalkStep::Failed(reason) => {
                            result.push(Err(reason.clone()));
                            assert(said(result@) =~= sofar.push(Err(reason@)));
                        },
                        WalkStep::Entry { is_file, path, shown } => {
                            if *is_file {
                                match path {
                                    Some(path) => {
                                        result.push(Ok(Input::File(path.clone())));
                                        assert(said(result@) =~= sofar.push(
                                            Ok(Input::File(*path)),
                                        ));
                                    },
                                    None => {
                                        let reason = String::from_str(
                                            "Failed to convert dent path '",
                                        ).concat(shown.as_str()).concat("' to string");
                                        result.push(Err(reason));
                                        assert(said(result@) =~= sofar.push(Err(reason@)));
                                    },
                                }
                            }
                        },
                    }
                    i = i + 1;
                }
                assert(steps@.take(steps.len() as int) =~= steps@);
            },
            (input, _) => {
                let same = match input {
                    Input::StdIn => Input::StdIn,
                    Input::File(path) => Input::File(path.clone()),
                };
                result.push(Ok(same));
                assert(said(result@) =~= before + seq![Ok(*input)]);
            },
        }
        k = k + 1;
    }
    assert(paths@.take(paths.len() as int) =~= paths@);
    assert(probed@.take(probed.len() as int) =~= probed@);
    result
}

/// The lines among the first lines of `lines`, as many as there are
/// flags in `flags`, that are picked: those whose flag is set, or with
/// `invert` those whose flag is not.
pub open spec fn picked(lines: Seq<String>, flags: Seq<bool>, invert: bool) -> Seq<String>
    decreases flags.len(),
{
    if flags.len() == 0 || flags.len() > lines.len() {
        Seq::empty()
    } else {
        let before = picked(lines, flags.drop_last(), invert);
        if flags.last() != invert {
            before.push(lines[flags.len() - 1])
        } else {
            before
        }
    }
}

/// The lines of `lines` that are picked by `flags`.
pub fn pick_lines(lines: &Vec<String>, flags: &Vec<bool>, invert: bool) -> (result: Vec<String>)
    requires
        flags.len() == lines.len(),
    ensures
        result@ == picked(lines@, flags@, invert),
{
    let mut result: Vec<String> = Vec::new();
    let mut k: usize = 0;
    assert(flags@.take(0) =~= Seq::<bool>::empty());
    while k < lines.len()
        invariant
            k <= lines.len(),
            flags.len() == lines.len(),
            result@ == picked(lines@, flags@.take(k as int), invert),
        decreases lines.len() - k,
    {
        proof {
            assert(flags@.take(k + 1).drop_last() =~= flags@.take(k as int));
            assert(flags@.take(k + 1).last() == flags@[k as int]);
        }
        if flags[k] != invert {
            result.push(lines[k].clone());
        }
        k = k + 1;
    }
    assert(flags@.take(flags.len() as int) =~= flags@);
    result
}

/// The lines of `lines` in which `pattern` matches somewhere, or with
/// `invert` those in which it does not. There is no result for a pattern
/// that is no regular expression.
pub fn find_lines(lines: &Vec<String>, pattern: &Pattern, invert: bool) -> (r: Option<Vec<String>>)
    ensures
        r is Some <==> pattern.valid(),
        r matches Some(result) ==> result@ == picked(
            lines@,
            Seq::new(lines@.len(), |i: int| pattern.matches(lines[i]@)),
            invert,
        ),
{
    match match_each(pattern, lines) {
        Some(flags) => {
            assert(flags@ =~= Seq::new(lines@.len(), |i: int| pattern.matches(lines[i]@)));
            Some(pick_lines(lines, &flags, invert))
        },
        None => None,
    }
}

/// What one line says of a pattern that is no regular expression.
pub fn invalid_pattern(pattern: &str) -> (s: String)
    ensures
        s@ == "Invalid pattern \""@ + pattern@ + "\""@,
{
    String::from_str("Invalid pattern \"").concat(pattern).concat("\"")
}

/// What stands before each line of output for `input`: its name and a
/// colon where names are shown, and else nothing.
pub open spec fn prefix_of(input: Input, show_filenames: bool) -> Seq<char> {
    if show_filenames {
        input.label() + seq![':']
    } else {
        Seq::empty()
    }
}

/// The lines `lines`, one after the other, with `prefix` before each.
pub open spec fn prefixed(prefix: Seq<char>, lines: Seq<String>) -> Seq<char>
    decreases lines.len(),
{
    if lines.len() == 0 {
        Seq::empty()
    } else {
        prefixed(prefix, lines.drop_last()) + prefix + lines.last()@
    }
}

/// What is written for `input`, of which `filtered` are the lines that
/// were found: their number on a line of its own where lines are
/// counted, and else the lines themselves. The name of the input stands
/// before each line that is written, where names are shown.
pub fn format_found(input: &Input, show_filenames: bool, count: bool, filtered: &Vec<String>) -> (s:
    String)
    ensures
        s@ == if count {
            prefix_of(*input, show_filenames) + decimal_digits(filtered.len() as nat) + seq!['\n']
        } else {
            prefixed(prefix_of(*input, show_filenames), filtered@)
        },
{
    let mut prefix = String::new();
    if show_filenames {
        prefix.append(input.to_text().as_str());
        prefix.push(':');
    }
    assert(prefix@ =~= prefix_of(*input, show_filenames));
    if count {
        let mut s = prefix;
        s.append(decimal_text(filtered.len() as u64).as_str());
        s.push('\n');
        return s;
    }
    let mut s = String::new();
    let mut k: usize = 0;
    assert(filtered@.take(0) =~= Seq::<String>::empty());
    while k < filtered.len()
        invariant
            k <= filtered.len(),
            s@ == prefixed(prefix@, filtered@.take(k as int)),
        decreases filtered.len() - k,
    {
        proof {
            assert(filtered@.take(k + 1).drop_last() =~= filtered@.take(k as int));
            assert(filtered@.take(k + 1).last() == filtered@[k as int]);
        }
        s.append(prefix.as_str());
        s.append(filtered[k].as_str());
        k = k + 1;
    }
    assert(filtered@.take(filtered.len() as int) =~= filtered@);
    s
}

} // verus!
