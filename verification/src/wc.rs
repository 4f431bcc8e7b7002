//! Counting lines, words, bytes and characters: what is counted.

use vstd::prelude::*;

verus! {

/// What to count.
#[derive(Debug, Clone, Copy, PartialEq, Eq, Structural)]
pub struct Flags {
    pub lines: bool,
    pub words: bool,
    pub bytes: bool,
    pub chars: bool,
}

/// What was counted in one input.
#[derive(Debug, Clone, Copy, PartialEq, Eq, Structural)]
pub struct FileInfo {
    pub num_lines: usize,
    pub num_words: usize,
    pub num_bytes: usize,
    pub num_chars: usize,
}

impl Default for FileInfo {
    fn default() -> (info: Self)
        ensures
            info == (FileInfo { num_lines: 0, num_words: 0, num_bytes: 0, num_chars: 0 }),
    {
        FileInfo { num_lines: 0, num_words: 0, num_bytes: 0, num_chars: 0 }
    }
}

/// What to count for the flags given: what they say, and lines, words
/// and bytes where they ask for nothing.
pub fn parse_args(flags: Flags) -> (r: Flags)
    ensures
        r == if !flags.lines && !flags.words && !flags.bytes && !flags.chars {
            Flags { lines: true, words: true, bytes: true, chars: false }
        } else {
            flags
        },
{
    if !flags.lines && !flags.words && !flags.bytes && !flags.chars {
        Flags { lines: true, words: true, bytes: true, chars: false }
    } else {
        flags
    }
}

} // verus!
