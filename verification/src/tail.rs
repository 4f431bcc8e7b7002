//! Where to start streaming the tail of a byte source.
//!
//! Given a source and a position (so many lines or bytes, counted from
//! the start or from the end), the functions of this module find the
//! offset from which the rest of the source is the requested tail. The
//! source may be of any size: it is scanned through a buffer of fixed
//! size, backward where the position is counted in lines from the end.

pub mod position;
pub mod offsets;
pub mod error;
pub mod backscan;
pub mod resolve;
pub mod header;
