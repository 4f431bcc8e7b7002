//! Resolving a position to the offset to seek to.

use vstd::prelude::*;
use crate::stream::{ByteSource, StreamError};
use crate::tail::backscan::{BackScanner, BUF_SIZE};
use crate::tail::error::{probed, sought, was_read, TailError};
use crate::tail::offsets::{
    after_newline_from_end,
    bytes_offset,
    last_lines_start,
    lemma_skip_lines_bound,
    lemma_tail_offset_splits,
    lines_offset,
    skip_lines,
    tail_offset,
    NEWLINE,
};
use crate::tail::position::{Mode, Pos, SeekPos};

verus! {

/// Where to seek for a position counted in bytes, in a source of `len`
/// bytes: the count itself from the start, or its negative from the end,
/// no more than `len` either way.
pub open spec fn bytes_seek_target(len: nat, pos: Pos) -> SeekPos {
    match pos {
        Pos::FromStart(n) => SeekPos::Start(bytes_offset(len, pos) as u64),
        Pos::FromEnd(n) => SeekPos::End((bytes_offset(len, pos) - len) as i64),
    }
}

/// Whether a length or a displacement that the resolution of `pos`, in
/// bytes, goes through is out of range: the length for `usize`, the
/// displacement from the end for `i64`.
pub open spec fn bytes_overflow(len: nat, pos: Pos) -> bool {
    ||| len > usize::MAX
    ||| pos is FromEnd && len - bytes_offset(len, pos) > i64::MAX
}

/// Where to seek for a position counted in lines, in the content `s`:
/// the start of the line from the start, or the negative of the length
/// of the last lines from the end.
pub open spec fn lines_seek_target(s: Seq<u8>, pos: Pos) -> SeekPos {
    match pos {
        Pos::FromStart(n) => SeekPos::Start(lines_offset(s, pos) as u64),
        Pos::FromEnd(n) => SeekPos::End((lines_offset(s, pos) - s.len()) as i64),
    }
}

/// Whether a length, an offset or a displacement that the resolution of
/// `pos`, in lines, goes through is out of range: the offset from the
/// start and the length for `usize`, the displacement from the end for
/// `i64`. Taking no line from the end needs none of them.
pub open spec fn lines_overflow(s: Seq<u8>, pos: Pos) -> bool {
    match pos {
        Pos::FromStart(n) => lines_offset(s, pos) > usize::MAX,
        Pos::FromEnd(n) => n != 0 && (s.len() > usize::MAX || s.len() - lines_offset(s, pos)
            > i64::MAX),
    }
}

/// Where to seek for the tail that `mode` asks for.
pub open spec fn seek_target(s: Seq<u8>, mode: Mode) -> SeekPos {
    match mode {
        Mode::Lines(pos) => lines_seek_target(s, pos),
        Mode::Bytes(pos) => bytes_seek_target(s.len(), pos),
    }
}

/// Whether the resolution of `mode` meets a value out of range.
pub open spec fn seek_overflow(s: Seq<u8>, mode: Mode) -> bool {
    match mode {
        Mode::Lines(pos) => lines_overflow(s, pos),
        Mode::Bytes(pos) => bytes_overflow(s.len(), pos),
    }
}

/// Whether `r` is what the resolution of `mode` owes for a source with
/// the content `s`.
///
/// An offset is the one that the position denotes, and there is one
/// only where no value is out of range. Where one is, that is the
/// error, unless the source failed first. A source that is reliable does
/// not fail, so that the outcome is an offset or that error.
pub open spec fn resolves(r: Result<SeekPos, TailError>, s: Seq<u8>, mode: Mode, reliable: bool)
    -> bool {
    &&& match r {
        Ok(target) => {
            &&& !seek_overflow(s, mode)
            &&& target == seek_target(s, mode)
            &&& target.absolute(s.len()) == tail_offset(s, mode)
        },
        Err(e) => if e is Overflow {
            seek_overflow(s, mode)
        } else {
            !reliable
        },
    }
    &&& reliable && !seek_overflow(s, mode) ==> r is Ok
}

/// What the resolution of a position counted in bytes makes of the
/// answer to the length probe.
///
/// A failure of the probe is handed on as it is. A length is what the
/// count is clamped to, unless the length or the displacement from the
/// end is out of range.
pub fn bytes_target(probe: Result<u64, StreamError>, pos: &Pos) -> (r: Result<SeekPos, TailError>)
    ensures
        match probe {
            Err(e) => r == Err::<SeekPos, TailError>(TailError::Probe(e.description)),
            Ok(len) => r == if bytes_overflow(len as nat, *pos) {
                Err::<SeekPos, TailError>(TailError::Overflow)
            } else {
                Ok::<SeekPos, TailError>(bytes_seek_target(len as nat, *pos))
            },
        },
{
    let len = match probed(probe) {
        Ok(len) => len,
        Err(e) => {
            return Err(e);
        },
    };
    if len > usize::MAX as u64 {
        return Err(TailError::Overflow);
    }
    let len = len as usize;
    match pos {
        Pos::FromStart(offset) => {
            let clamped = if *offset < len {
                *offset
            } else {
                len
            };
            Ok(SeekPos::Start(clamped as u64))
        },
        Pos::FromEnd(offset) => {
            let clamped = if *offset < len {
                *offset
            } else {
                len
            };
            if clamped as u64 > i64::MAX as u64 {
                return Err(TailError::Overflow);
            }
            Ok(SeekPos::End(-(clamped as i64)))
        },
    }
}

/// Resolves a position counted in bytes.
///
/// The length of the source is probed, and the count is clamped to it.
pub fn bytes_seek_pos<FH: ByteSource>(pos: &Pos, fh: &mut FH) -> (r: Result<SeekPos, TailError>)
    ensures
        final(fh).content() == old(fh).content(),
        final(fh).reliable() == old(fh).reliable(),
        resolves(r, old(fh).content(), Mode::Bytes(*pos), old(fh).reliable()),
        r matches Err(e) ==> e is Overflow || e is Probe,
{
    let probe = fh.seek_end();
    bytes_target(probe, pos)
}

/// In the rest of `s` from `p` on, the start of a line is one byte
/// further than in the rest from `p + 1` on, with one line less to skip
/// if the byte at `p` is a newline.
proof fn lemma_skip_lines_step(s: Seq<u8>, p: int, n: nat)
    requires
        0 <= p < s.len(),
        n > 0,
    ensures
        skip_lines(s.subrange(p, s.len() as int), n) == 1 + skip_lines(
            s.subrange(p + 1, s.len() as int),
            if s[p] == NEWLINE {
                (n - 1) as nat
            } else {
                n
            },
        ),
{
    let rest = s.subrange(p, s.len() as int);
    assert(rest.drop_first() =~= s.subrange(p + 1, s.len() as int));
    assert(rest[0] == s[p]);
}

/// Resolves the skipping of `offset` lines, reading forward through a
/// buffer of `buf_size` bytes.
///
/// The source is read from its start until `offset` newlines have been
/// passed, or to its end if it has fewer.
pub fn lines_from_start<FH: ByteSource>(offset: usize, fh: &mut FH, buf_size: usize) -> (r: Result<
    SeekPos,
    TailError,
>)
    requires
        buf_size > 0,
    ensures
        final(fh).content() == old(fh).content(),
        final(fh).reliable() == old(fh).reliable(),
        resolves(r, old(fh).content(), Mode::Lines(Pos::FromStart(offset)), old(fh).reliable()),
{
    let ghost content = fh.content();
    if let Err(e) = sought(fh.seek_start(0)) {
        return Err(e);
    }
    let mut buf = vec![0u8; buf_size];
    let mut rem: usize = offset;
    let mut skip_byte: usize = 0;
    proof {
        assert(content.subrange(0, content.len() as int) =~= content);
        lemma_skip_lines_bound(content, offset as nat);
    }
    while rem > 0
        invariant
            content == old(fh).content(),
            fh.content() == content,
            fh.reliable() == old(fh).reliable(),
            buf.len() == buf_size,
            buf_size > 0,
            skip_byte <= content.len(),
            rem > 0 ==> fh.position() == skip_byte,
            skip_lines(content, offset as nat) == skip_byte + skip_lines(
                content.subrange(skip_byte as int, content.len() as int),
                rem as nat,
            ),
        ensures
            skip_lines(content, offset as nat) == skip_byte,
        decreases content.len() - skip_byte, rem,
    {
        let bytes_read = match was_read(fh.read(&mut buf, 0)) {
            Ok(n) => n,
            Err(e) => {
                return Err(e);
            },
        };
        if bytes_read == 0 {
            assert(content.subrange(skip_byte as int, content.len() as int).len() == 0);
            break ;
        }
        let ghost base = skip_byte;
        let mut i: usize = 0;
        while i < bytes_read && rem > 0
            invariant
                content == old(fh).content(),
                fh.content() == content,
                fh.reliable() == old(fh).reliable(),
                i <= bytes_read,
                bytes_read <= buf.len(),
                base + bytes_read <= content.len(),
                skip_byte == base + i,
                forall|j: int|
                    0 <= j < bytes_read ==> #[trigger] buf[j] == content[base + j],
                skip_lines(content, offset as nat) == skip_byte + skip_lines(
                    content.subrange(skip_byte as int, content.len() as int),
                    rem as nat,
                ),
            decreases bytes_read - i,
        {
            proof {
                lemma_skip_lines_step(content, skip_byte as int, rem as nat);
            }
            if skip_byte == usize::MAX {
                proof {
                    lemma_skip_lines_bound(
                        content.subrange(skip_byte + 1, content.len() as int),
                        if content[skip_byte as int] == NEWLINE {
                            (rem - 1) as nat
                        } else {
                            rem as nat
                        },
                    );
                }
                return Err(TailError::Overflow);
            }
            skip_byte = skip_byte + 1;
            if buf[i] == NEWLINE {
                rem = rem - 1;
            }
            i = i + 1;
        }
    }
    Ok(SeekPos::Start(skip_byte as u64))
}

/// What a backward scan that has ended makes of its outcome: the
/// failure that ended it, as it is, and else the displacement from the
/// end by the `need_bytes` bytes that were passed, unless that is out of
/// range.
pub fn end_target(failure: Option<TailError>, need_bytes: usize) -> (r: Result<SeekPos, TailError>)
    ensures
        match failure {
            Some(e) => r == Err::<SeekPos, TailError>(e),
            None => r == if need_bytes > i64::MAX {
                Err::<SeekPos, TailError>(TailError::Overflow)
            } else {
                Ok::<SeekPos, TailError>(SeekPos::End((-(need_bytes as int)) as i64))
            },
        },
{
    if let Some(e) = failure {
        return Err(e);
    }
    if need_bytes as u64 > i64::MAX as u64 {
        return Err(TailError::Overflow);
    }
    Ok(SeekPos::End(-(need_bytes as i64)))
}

/// Resolves the taking of the last `offset` lines, of which there is
/// one at least, reading backward through a buffer of `buf_size` bytes.
///
/// A newline that is the last byte of the source ends the last line, so
/// that one newline more than `offset` is looked for. The source is read
/// from its end until that many newlines have been met, or to its start
/// if it has fewer.
pub fn lines_from_end<FH: ByteSource>(offset: usize, fh: &mut FH, buf_size: usize) -> (r: Result<
    SeekPos,
    TailError,
>)
    requires
        buf_size > 0,
        offset > 0,
    ensures
        final(fh).content() == old(fh).content(),
        final(fh).reliable() == old(fh).reliable(),
        resolves(r, old(fh).content(), Mode::Lines(Pos::FromEnd(offset)), old(fh).reliable()),
{
    let ghost content = fh.content();
    let ghost released = *final(fh);
    let mut scanner = match BackScanner::new(fh, buf_size) {
        Ok(scanner) => scanner,
        Err(e) => {
            return Err(e);
        },
    };
    let mut need_bytes: usize = 0;
    let mut rem: u128 = offset as u128;
    match scanner.peek() {
        None => {},
        Some(Err(e)) => {
            return Err(e);
        },
        Some(Ok(byte)) => {
            if byte == NEWLINE {
                rem = rem + 1;
            }
        },
    }
    let mut failure: Option<TailError> = None;
    loop
        invariant_except_break
            scanner.wf(),
            rem > 0,
            failure is None,
            need_bytes + scanner.remaining().len() == content.len(),
            last_lines_start(content, offset as nat) == after_newline_from_end(
                scanner.remaining(),
                rem as nat,
            ),
        invariant
            content.len() <= usize::MAX,
            scanner.source() == content,
            scanner.fh.reliable() == old(fh).reliable(),
            *final(scanner.fh) == released,
        ensures
            match failure {
                Some(e) => (e is Seek || e is Read) && !old(fh).reliable(),
                None => need_bytes <= content.len() && last_lines_start(
                    content,
                    offset as nat,
                ) == content.len() - need_bytes,
            },
        decreases scanner.remaining().len(),
    {
        match scanner.next() {
            None => {
                break ;
            },
            Some(Err(e)) => {
                failure = Some(e);
                break ;
            },
            Some(Ok(byte)) => {
                if byte == NEWLINE {
                    rem = rem - 1;
                    if rem == 0 {
                        break ;
                    }
                }
                need_bytes = need_bytes + 1;
            },
        }
    }
    end_target(failure, need_bytes)
}

/// Resolves a position counted in lines, scanning through a buffer of
/// `buf_size` bytes.
///
/// Lines are skipped by reading forward, and taken from the end by
/// reading backward. Taking no line from the end needs no look at the
/// source.
pub fn lines_seek_pos_buffered<FH: ByteSource>(pos: &Pos, fh: &mut FH, buf_size: usize) -> (r:
    Result<SeekPos, TailError>)
    requires
        buf_size > 0,
    ensures
        final(fh).content() == old(fh).content(),
        final(fh).reliable() == old(fh).reliable(),
        resolves(r, old(fh).content(), Mode::Lines(*pos), old(fh).reliable()),
        *pos == Pos::FromEnd(0) ==> r == Ok::<SeekPos, TailError>(SeekPos::End(0)),
{
    match pos {
        Pos::FromStart(offset) => lines_from_start(*offset, fh, buf_size),
        Pos::FromEnd(offset) => {
            if *offset == 0 {
                Ok(SeekPos::End(0))
            } else {
                lines_from_end(*offset, fh, buf_size)
            }
        },
    }
}

/// Resolves a position counted in lines, scanning through a buffer of
/// [`BUF_SIZE`] bytes.
pub fn lines_seek_pos<FH: ByteSource>(pos: &Pos, fh: &mut FH) -> (r: Result<SeekPos, TailError>)
    ensures
        final(fh).content() == old(fh).content(),
        final(fh).reliable() == old(fh).reliable(),
        resolves(r, old(fh).content(), Mode::Lines(*pos), old(fh).reliable()),
        *pos == Pos::FromEnd(0) ==> r == Ok::<SeekPos, TailError>(SeekPos::End(0)),
{
    lines_seek_pos_buffered(pos, fh, BUF_SIZE)
}

/// Resolves the position of `mode` in `fh`: where to seek so that what
/// follows is the requested tail.
pub fn seek_pos<FH: ByteSource>(mode: &Mode, fh: &mut FH) -> (r: Result<SeekPos, TailError>)
    ensures
        final(fh).content() == old(fh).content(),
        final(fh).reliable() == old(fh).reliable(),
        resolves(r, old(fh).content(), *mode, old(fh).reliable()),
{
    match mode {
        Mode::Lines(pos) => lines_seek_pos(pos, fh),
        Mode::Bytes(pos) => bytes_seek_pos(pos, fh),
    }
}

/// Resolves the position of `mode` in `fh` to the offset, counted from
/// the start, at which the requested tail begins.
pub fn resolve_offset<FH: ByteSource>(mode: &Mode, fh: &mut FH) -> (r: Result<u64, TailError>)
    ensures
        final(fh).content() == old(fh).content(),
        final(fh).reliable() == old(fh).reliable(),
        match r {
            Ok(offset) => {
                &&& !seek_overflow(old(fh).content(), *mode)
                &&& offset == tail_offset(old(fh).content(), *mode)
                &&& offset <= old(fh).content().len()
            },
            Err(e) => if e is Overflow {
                seek_overflow(old(fh).content(), *mode)
            } else {
                !old(fh).reliable()
            },
        },
        old(fh).reliable() && !seek_overflow(old(fh).content(), *mode) ==> r is Ok,
{
    let target = match seek_pos(mode, fh) {
        Ok(target) => target,
        Err(e) => {
            return Err(e);
        },
    };
    let len = match probed(fh.seek_end()) {
        Ok(len) => len,
        Err(e) => {
            return Err(e);
        },
    };
    proof {
        lemma_tail_offset_splits(fh.content(), *mode);
    }
    match target.absolute_in(len) {
        Some(offset) => Ok(offset),
        None => Err(TailError::Overflow),
    }
}

} // verus!
