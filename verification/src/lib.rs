//! The decisions of a set of small command-line tools, stated and
//! proved.
//!
//! The tools are the familiar ones: `tail`, `head`, `cut`, `cal`, `comm`,
//! `find`, `fortune`, `grep`, `ls`, `cat` and `wc`. Each module holds what
//! one tool computes and decides, with contracts that Verus checks. None
//! of them opens a file, walks a directory or asks for the time: what a
//! tool reads comes in as plain values, and what it writes goes out as
//! such.
//!
//! The heart of the library is [`tail`]: for a source of any size, it
//! finds the offset at which the last lines or bytes begin, reading the
//! source backward through a buffer of fixed size. The source is any
//! [`stream::ByteSource`].

pub mod cal;
pub mod cat;
pub mod comm;
pub mod cut;
pub mod find;
pub mod fortune;
pub mod grep;
pub mod head;
pub mod ls;
pub mod number;
pub mod pattern;
pub mod stream;
pub mod tail;
pub mod text;
pub mod wc;
