//! The head of an input: how much of what is read is written.
//!
//! The run reads and writes; the functions here say, for each piece
//! read, how much of it to write and whether to go on.

use vstd::prelude::*;
use vstd::string::StringExecFns;

verus! {

/// What to do with the bytes that are at hand.
#[derive(Debug, Clone, Copy, PartialEq, Eq, Structural)]
pub struct ByteStep {
    /// How many of them to write.
    pub write: usize,
    /// How many bytes are still to be written after that.
    pub remaining: usize,
    /// Whether this is the end.
    pub done: bool,
}

/// What to do with `available` bytes at hand, where `bytes` bytes are
/// still to be written: write as many as are asked for, and go on while
/// more are asked for and the input has not ended. No byte at hand is
/// the end of the input.
pub fn process_bytes(bytes: usize, available: usize) -> (step: ByteStep)
    ensures
        step.write == if bytes <= available {
            bytes
        } else {
            available
        },
        step.remaining == bytes - step.write,
        step.done == (available == 0 || bytes <= available),
{
    if available == 0 {
        ByteStep { write: 0, remaining: bytes, done: true }
    } else if bytes <= available {
        ByteStep { write: bytes, remaining: 0, done: true }
    } else {
        ByteStep { write: available, remaining: bytes - available, done: false }
    }
}

/// What to do with a line that was read.
#[derive(Debug, Clone, Copy, PartialEq, Eq, Structural)]
pub struct LineStep {
    /// Whether to write the line.
    pub write: bool,
    /// How many lines are still to be written after that.
    pub remaining: u64,
    /// Whether this is the end.
    pub done: bool,
}

/// What to do with a line of `bytes_read` bytes, where `lines` lines
/// are still to be written: write it, and go on while more are asked
/// for. A line of no bytes is the end of the input.
pub fn process_lines(lines: u64, bytes_read: usize) -> (step: LineStep)
    ensures
        step.write == (lines > 0 && bytes_read > 0),
        step.remaining == if step.write {
            (lines - 1) as u64
        } else {
            lines
        },
        step.done == (step.remaining == 0 || bytes_read == 0),
{
    if lines == 0 || bytes_read == 0 {
        LineStep { write: false, remaining: lines, done: true }
    } else {
        LineStep { write: true, remaining: lines - 1, done: lines == 1 }
    }
}

/// The bytes written of the pieces `pieces`, given by their lengths and
/// taken step by step, where `bytes` bytes are to be written.
pub open spec fn bytes_written(bytes: nat, pieces: Seq<usize>) -> nat
    decreases pieces.len(),
{
    if pieces.len() == 0 || pieces[0] == 0 {
        0
    } else if bytes <= pieces[0] {
        bytes
    } else {
        pieces[0] as nat + bytes_written((bytes - pieces[0]) as nat, pieces.drop_first())
    }
}

/// The sum of `pieces` up to the first that is zero.
pub open spec fn total_before_end(pieces: Seq<usize>) -> nat
    decreases pieces.len(),
{
    if pieces.len() == 0 || pieces[0] == 0 {
        0
    } else {
        pieces[0] as nat + total_before_end(pieces.drop_first())
    }
}

/// Step by step, as many bytes are written as are asked for, or all
/// that the input has if it has fewer.
pub proof fn lemma_bytes_written(bytes: nat, pieces: Seq<usize>)
    ensures
        bytes_written(bytes, pieces) == if bytes <= total_before_end(pieces) {
            bytes
        } else {
            total_before_end(pieces)
        },
    decreases pieces.len(),
{
    if pieces.len() > 0 && pieces[0] != 0 && bytes > pieces[0] {
        lemma_bytes_written((bytes - pieces[0]) as nat, pieces.drop_first());
    }
}

/// What stands before the content of file number `file_no`, counted
/// from zero, where several files are shown: its name between arrows,
/// after an empty line unless it is the first.
pub fn header(filename: &str, file_no: usize, multifile: bool) -> (s: String)
    ensures
        s@ == if !multifile {
            Seq::<char>::empty()
        } else if file_no > 0 {
            "\n==> "@ + filename@ + " <==\n"@
        } else {
            "==> "@ + filename@ + " <==\n"@
        },
{
    if !multifile {
        String::new()
    } else if file_no > 0 {
        String::from_str("\n==> ").concat(filename).concat(" <==\n")
    } else {
        String::from_str("==> ").concat(filename).concat(" <==\n")
    }
}

} // verus!
