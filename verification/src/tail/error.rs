//! What can go wrong while an offset is being resolved.

use vstd::prelude::*;
use vstd::string::StringExecFns;
use crate::stream::StreamError;

verus! {

/// Why no offset could be resolved.
///
/// The three first variants name the operation on the source that
/// failed, and carry the description that the source gave of the failure.
#[derive(Debug)]
pub enum TailError {
    /// The length of the source could not be determined.
    Probe(String),
    /// The read position could not be moved.
    Seek(String),
    /// The source could not be read.
    Read(String),
    /// A length or an offset does not fit the integer type that the
    /// platform uses for it.
    Overflow,
}

impl TailError {
    /// Whether the error comes from the source, rather than from the
    /// arithmetic on its offsets.
    pub open spec fn is_io(self) -> bool {
        !(self is Overflow)
    }

    /// The message of this error: the failed operation, then what the
    /// source said of it.
    pub fn message(&self) -> (s: String)
        ensures
            s@ == match *self {
                TailError::Probe(d) => "length probe failed: "@ + d@,
                TailError::Seek(d) => "seek failed: "@ + d@,
                TailError::Read(d) => "read failed: "@ + d@,
                TailError::Overflow => "offset out of range"@,
            },
    {
        match self {
            TailError::Probe(d) => String::from_str("length probe failed: ").concat(d.as_str()),
            TailError::Seek(d) => String::from_str("seek failed: ").concat(d.as_str()),
            TailError::Read(d) => String::from_str("read failed: ").concat(d.as_str()),
            TailError::Overflow => String::from_str("offset out of range"),
        }
    }
}

/// What a length probe hands on: the answer of the source, and where
/// the source failed, its description of the failure as that of the
/// probe.
pub fn probed<T>(answer: Result<T, StreamError>) -> (r: Result<T, TailError>)
    ensures
        match answer {
            Ok(value) => r == Ok::<T, TailError>(value),
            Err(e) => r == Err::<T, TailError>(TailError::Probe(e.description)),
        },
{
    match answer {
        Ok(value) => Ok(value),
        Err(e) => Err(TailError::Probe(e.description)),
    }
}

/// What a seek hands on: the answer of the source, and where the source
/// failed, its description of the failure as that of the seek.
pub fn sought<T>(answer: Result<T, StreamError>) -> (r: Result<T, TailError>)
    ensures
        match answer {
            Ok(value) => r == Ok::<T, TailError>(value),
            Err(e) => r == Err::<T, TailError>(TailError::Seek(e.description)),
        },
{
    match answer {
        Ok(value) => Ok(value),
        Err(e) => Err(TailError::Seek(e.description)),
    }
}

/// What a read hands on: the answer of the source, and where the source
/// failed, its description of the failure as that of the read.
pub fn was_read<T>(answer: Result<T, StreamError>) -> (r: Result<T, TailError>)
    ensures
        match answer {
            Ok(value) => r == Ok::<T, TailError>(value),
            Err(e) => r == Err::<T, TailError>(TailError::Read(e.description)),
        },
{
    match answer {
        Ok(value) => Ok(value),
        Err(e) => Err(TailError::Read(e.description)),
    }
}

} // verus!
