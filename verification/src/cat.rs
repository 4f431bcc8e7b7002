//! What to concatenate, and how to number its lines.

use vstd::prelude::*;
use vstd::string::StringExecFns;

verus! {

/// The settings of one run.
#[derive(Debug)]
pub struct Config {
    files: Vec<String>,
    number_lines: bool,
    number_nonblank_lines: bool,
}

impl Config {
    /// The settings for the files and flags given. With no file given,
    /// the one input is standard input, written `-`.
    pub fn new(files: Option<Vec<String>>, number_lines: bool, number_nonblank_lines: bool) -> (c:
        Self)
        ensures
            c.files().deep_view() == match files {
                Some(given) => given.deep_view(),
                None => seq!["-"@],
            },
            c.number_lines() == number_lines,
            c.number_nonblank_lines() == number_nonblank_lines,
    {
        let files = match files {
            Some(given) => given,
            None => {
                let mut only: Vec<String> = Vec::new();
                only.push(String::from_str("-"));
                assert(only.deep_view() =~= seq!["-"@]);
                only
            },
        };
        Config { files, number_lines, number_nonblank_lines }
    }

    /// The inputs, in the order given.
    pub closed spec fn files(&self) -> Vec<String> {
        self.files
    }

    /// Whether every output line is numbered.
    pub closed spec fn number_lines(&self) -> bool {
        self.number_lines
    }

    /// Whether the output lines that are not empty are numbered.
    pub closed spec fn number_nonblank_lines(&self) -> bool {
        self.number_nonblank_lines
    }

    /// The inputs, in the order given.
    pub fn input_files(&self) -> (files: &Vec<String>)
        ensures
            *files == self.files(),
    {
        &self.files
    }

    /// Whether every output line is numbered.
    pub fn numbers_lines(&self) -> (b: bool)
        ensures
            b == self.number_lines(),
    {
        self.number_lines
    }

    /// Whether the output lines that are not empty are numbered.
    pub fn numbers_nonblank_lines(&self) -> (b: bool)
        ensures
            b == self.number_nonblank_lines(),
    {
        self.number_nonblank_lines
    }
}

} // verus!
