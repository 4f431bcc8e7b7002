//! Reading a source backward through a buffer of fixed size.

use vstd::arithmetic::div_mod::{
    lemma_mod_bound,
    lemma_mod_decreases,
    lemma_mod_is_zero,
    lemma_mod_sub_multiples_vanish,
    lemma_mod_subtraction,
    lemma_small_mod,
};
use vstd::prelude::*;
use crate::stream::ByteSource;
use crate::tail::error::{probed, sought, was_read, TailError};

verus! {

/// The buffer size that the resolver scans with.
pub const BUF_SIZE: usize = 4096;

/// A length less its last chunk is a whole number of chunks, whether that
/// chunk is the remainder of the length by the chunk size or, where the
/// remainder is zero, a full chunk.
pub proof fn lemma_chunk_alignment(len: nat, size: nat)
    requires
        size > 0,
    ensures
        len % size <= len,
        len % size < size,
        (len - len % size) % (size as int) == 0,
        len % size == 0 && len > 0 ==> len >= size && (len - size) % (size as int) == 0,
{
    lemma_mod_decreases(len, size);
    lemma_mod_bound(len as int, size as int);
    lemma_small_mod(len % size, size);
    lemma_mod_subtraction(len, len % size, size);
    if len % size == 0 && len > 0 {
        lemma_mod_is_zero(len, size);
        lemma_mod_sub_multiples_vanish(len as int, size as int);
    }
}

/// Whether the first `n` bytes of `buf` are those of `content` from
/// `offset` on.
pub open spec fn mirrors(buf: Seq<u8>, n: int, content: Seq<u8>, offset: int) -> bool {
    forall|i: int| 0 <= i < n ==> #[trigger] buf[i] == content[offset + i]
}

/// How many bytes of a content of `len` bytes a buffer of `size` bytes
/// holds of the chunk that begins at `offset`: all that follow, up to
/// the size of the buffer.
pub open spec fn chunk_len(len: int, offset: int, size: int) -> int {
    if len - offset < size {
        len - offset
    } else {
        size
    }
}

/// The length of the last chunk of a content of `len` bytes that is cut
/// into chunks of `size` bytes: what is left over, or, where nothing is
/// left over of a content that is not empty, a whole chunk.
pub open spec fn last_chunk_len(len: int, size: int) -> int {
    if len % size == 0 && len >= size {
        size
    } else {
        len % size
    }
}

/// Yields the bytes of a source last byte first.
///
/// The source is cut into chunks of the buffer's size, counted from its
/// start, so that only the last chunk may be shorter. One chunk at a time
/// is held in memory; the chunk before it is loaded when it has been
/// yielded whole.
pub struct BackScanner<'a, FH: ByteSource> {
    /// The source being scanned.
    pub fh: &'a mut FH,
    /// The chunk in memory.
    pub buf: Vec<u8>,
    /// How many bytes of the chunk are still to be yielded: they are
    /// `buf[..buf_pos]`.
    pub buf_pos: usize,
    /// The offset in the source at which the chunk begins.
    pub buf_offset_in_file: usize,
}

impl<'a, FH: ByteSource> BackScanner<'a, FH> {
    /// The content of the source being scanned.
    pub open spec fn source(&self) -> Seq<u8> {
        self.fh.content()
    }

    /// The chunk in memory begins at a multiple of the buffer's size, and
    /// what is left of it mirrors the source.
    pub open spec fn wf(&self) -> bool {
        &&& self.buf.len() > 0
        &&& self.buf_pos <= self.buf.len()
        &&& self.buf_offset_in_file % self.buf.len() == 0
        &&& self.buf_offset_in_file + self.buf_pos <= self.source().len()
        &&& mirrors(
            self.buf@,
            self.buf_pos as int,
            self.source(),
            self.buf_offset_in_file as int,
        )
    }

    /// The bytes still to be yielded, in the order of the source: the
    /// last of them comes next.
    pub open spec fn remaining(&self) -> Seq<u8> {
        self.source().subrange(0, self.buf_offset_in_file + self.buf_pos)
    }

    /// Starts a backward scan of `fh` through a buffer of `buf_size`
    /// bytes.
    ///
    /// Fails with `Probe` if the length of the source cannot be had, with
    /// `Overflow` if it does not fit `usize`, and with `Seek` or `Read`
    /// if the last chunk cannot be loaded.
    pub fn new(fh: &'a mut FH, buf_size: usize) -> (r: Result<Self, TailError>)
        requires
            buf_size > 0,
        ensures
            match r {
                Ok(s) => {
                    &&& s.wf()
                    &&& s.buf.len() == buf_size
                    &&& s.source() == old(fh).content()
                    &&& s.remaining() == old(fh).content()
                    &&& old(fh).content().len() <= usize::MAX
                    &&& s.buf_pos == last_chunk_len(
                        old(fh).content().len() as int,
                        buf_size as int,
                    )
                    &&& s.fh.reliable() == old(fh).reliable()
                    &&& *final(s.fh) == *final(fh)
                },
                Err(e) => {
                    &&& final(fh).content() == old(fh).content()
                    &&& final(fh).reliable() == old(fh).reliable()
                    &&& e is Overflow ==> old(fh).content().len() > usize::MAX
                    &&& old(fh).reliable() ==> e is Overflow
                },
            },
            old(fh).reliable() && old(fh).content().len() <= usize::MAX ==> r is Ok,
    {
        let file_len = match probed(fh.seek_end()) {
            Ok(len) => len,
            Err(e) => {
                return Err(e);
            },
        };
        if file_len > usize::MAX as u64 {
            return Err(TailError::Overflow);
        }
        let file_len = file_len as usize;
        proof {
            lemma_chunk_alignment(file_len as nat, buf_size as nat);
        }
        let mut last_chunk_len = file_len % buf_size;
        if last_chunk_len == 0 && file_len >= buf_size {
            last_chunk_len = buf_size;
        }
        let buf_offset_in_file = file_len - last_chunk_len;
        let buf = vec![0u8; buf_size];
        let mut scanner = BackScanner { fh, buf, buf_pos: 0, buf_offset_in_file };
        let loaded = scanner.fill_buf();
        Self::started(scanner, loaded)
    }

    /// What the start of a scan makes of the loading of the last chunk:
    /// the scanner, or the failure of the loading as it is, with the
    /// source given back as it stands.
    pub fn started(scanner: Self, loaded: Result<(), TailError>) -> (r: Result<Self, TailError>)
        ensures
            match loaded {
                Ok(()) => r matches Ok(s) && s == scanner && *final(s.fh) == *final(scanner.fh),
                Err(e) => r matches Err(handed) && handed == e && *final(scanner.fh)
                    == *old(scanner.fh),
            },
    {
        match loaded {
            Ok(()) => Ok(scanner),
            Err(e) => Err(e),
        }
    }

    /// Loads the chunk that begins at `buf_offset_in_file`: seeks there
    /// and reads until the buffer is full or the source is at its end.
    ///
    /// On failure nothing of the chunk counts as loaded.
    pub fn fill_buf(&mut self) -> (r: Result<(), TailError>)
        requires
            old(self).buf.len() > 0,
            old(self).buf_offset_in_file <= old(self).source().len(),
        ensures
            final(self).source() == old(self).source(),
            final(self).fh.reliable() == old(self).fh.reliable(),
            *final(final(self).fh) == *final(old(self).fh),
            final(self).buf.len() == old(self).buf.len(),
            final(self).buf_offset_in_file == old(self).buf_offset_in_file,
            old(self).fh.reliable() ==> r is Ok,
            match r {
                Ok(()) => {
                    &&& final(self).buf_pos == chunk_len(
                        old(self).source().len() as int,
                        old(self).buf_offset_in_file as int,
                        old(self).buf.len() as int,
                    )
                    &&& mirrors(
                        final(self).buf@,
                        final(self).buf_pos as int,
                        old(self).source(),
                        old(self).buf_offset_in_file as int,
                    )
                },
                Err(e) => final(self).buf_pos == 0 && (e is Seek || e is Read),
            },
    {
        self.buf_pos = 0;
        let mut buf_target: usize = 0;
        if let Err(e) = sought(self.fh.seek_start(self.buf_offset_in_file as u64)) {
            return Err(e);
        }
        loop
            invariant
                self.source() == old(self).source(),
                self.fh.reliable() == old(self).fh.reliable(),
                *final(self.fh) == *final(old(self).fh),
                self.buf.len() == old(self).buf.len(),
                self.buf_offset_in_file == old(self).buf_offset_in_file,
                self.buf_offset_in_file <= self.source().len(),
                self.buf_pos == 0,
                buf_target <= self.buf.len(),
                self.buf_offset_in_file + buf_target <= self.source().len(),
                self.fh.position() == self.buf_offset_in_file + buf_target,
                mirrors(
                    self.buf@,
                    buf_target as int,
                    self.source(),
                    self.buf_offset_in_file as int,
                ),
            ensures
                buf_target == self.buf.len() || self.buf_offset_in_file + buf_target
                    == self.source().len(),
            decreases self.buf.len() - buf_target,
        {
            let bytes_read = match was_read(self.fh.read(&mut self.buf, buf_target)) {
                Ok(n) => n,
                Err(e) => {
                    return Err(e);
                },
            };
            buf_target = buf_target + bytes_read;
            if buf_target == self.buf.len() || bytes_read == 0 {
                break ;
            }
        }
        self.buf_pos = buf_target;
        Ok(())
    }

    /// Looks at the byte that `next` would yield, without consuming it:
    /// the last of the remaining bytes, or `None` if none remains.
    ///
    /// Where the chunk in memory has been yielded whole, this loads the
    /// chunk before it, and reports a failure to do so.
    pub fn peek(&mut self) -> (r: Option<Result<u8, TailError>>)
        requires
            old(self).wf(),
        ensures
            final(self).wf(),
            final(self).source() == old(self).source(),
            final(self).remaining() == old(self).remaining(),
            final(self).buf.len() == old(self).buf.len(),
            final(self).fh.reliable() == old(self).fh.reliable(),
            *final(final(self).fh) == *final(old(self).fh),
            match r {
                None => old(self).remaining().len() == 0,
                Some(Ok(b)) => {
                    &&& old(self).remaining().len() > 0
                    &&& b == old(self).remaining().last()
                    &&& final(self).buf_pos > 0
                },
                Some(Err(e)) => {
                    &&& old(self).remaining().len() > 0
                    &&& e is Seek || e is Read
                    &&& !old(self).fh.reliable()
                },
            },
    {
        let loaded = if self.buf_pos == 0 && self.buf_offset_in_file > 0 {
            let size = self.buf.len();
            proof {
                lemma_chunk_alignment(self.buf_offset_in_file as nat, size as nat);
            }
            self.buf_offset_in_file = self.buf_offset_in_file - size;
            let loaded = self.fill_buf();
            if loaded.is_err() {
                self.buf_offset_in_file = self.buf_offset_in_file + size;
            }
            loaded
        } else {
            Ok(())
        };
        self.look(loaded)
    }

    /// What a look at the chunk in memory gives, after the loading
    /// that it may have taken: the failure of the loading as it is, and
    /// else the last byte of the chunk that is still to be yielded, if
    /// there is one.
    pub fn look(&self, loaded: Result<(), TailError>) -> (r: Option<Result<u8, TailError>>)
        requires
            self.buf_pos <= self.buf.len(),
        ensures
            match loaded {
                Err(e) => r == Some(Err::<u8, TailError>(e)),
                Ok(()) => r == if self.buf_pos > 0 {
                    Some(Ok::<u8, TailError>(self.buf[self.buf_pos - 1]))
                } else {
                    None
                },
            },
    {
        match loaded {
            Err(e) => Some(Err(e)),
            Ok(()) => {
                if self.buf_pos > 0 {
                    Some(Ok(self.buf[self.buf_pos - 1]))
                } else {
                    None
                }
            },
        }
    }

    /// Yields the next byte of the backward scan: the last of the
    /// remaining bytes, or `None` if none remains.
    pub fn next(&mut self) -> (r: Option<Result<u8, TailError>>)
        requires
            old(self).wf(),
        ensures
            final(self).wf(),
            final(self).source() == old(self).source(),
            final(self).buf.len() == old(self).buf.len(),
            final(self).fh.reliable() == old(self).fh.reliable(),
            *final(final(self).fh) == *final(old(self).fh),
            match r {
                None => {
                    &&& old(self).remaining().len() == 0
                    &&& final(self).remaining() == old(self).remaining()
                },
                Some(Ok(b)) => {
                    &&& old(self).remaining().len() > 0
                    &&& b == old(self).remaining().last()
                    &&& final(self).remaining() == old(self).remaining().drop_last()
                },
                Some(Err(e)) => {
                    &&& old(self).remaining().len() > 0
                    &&& final(self).remaining() == old(self).remaining()
                    &&& e is Seek || e is Read
                    &&& !old(self).fh.reliable()
                },
            },
    {
        let peeked = self.peek();
        let ghost before = self.remaining();
        let r = self.consume(peeked);
        assert(r is Some && r->0 is Ok ==> self.remaining() =~= before.drop_last());
        r
    }

    /// What `next` makes of a look at the next byte: it hands on what
    /// the look gave, a failure as it is, and where that is a byte, the
    /// byte is no longer to be yielded.
    pub fn consume(&mut self, peeked: Option<Result<u8, TailError>>) -> (r: Option<
        Result<u8, TailError>,
    >)
        requires
            peeked matches Some(Ok(_)) ==> old(self).buf_pos > 0,
        ensures
            r == peeked,
            final(self).buf_pos == if peeked matches Some(Ok(_)) {
                (old(self).buf_pos - 1) as usize
            } else {
                old(self).buf_pos
            },
            final(self).buf == old(self).buf,
            final(self).buf_offset_in_file == old(self).buf_offset_in_file,
            final(self).fh == old(self).fh,
    {
        match peeked {
            Some(Ok(byte)) => {
                self.buf_pos = self.buf_pos - 1;
                Some(Ok(byte))
            },
            other => other,
        }
    }

    /// Yields every remaining byte, last byte first.
    pub fn drain(&mut self) -> (r: Result<Vec<u8>, TailError>)
        requires
            old(self).wf(),
        ensures
            final(self).wf(),
            final(self).source() == old(self).source(),
            final(self).buf.len() == old(self).buf.len(),
            final(self).fh.reliable() == old(self).fh.reliable(),
            *final(final(self).fh) == *final(old(self).fh),
            match r {
                Ok(bytes) => {
                    &&& bytes@ == old(self).remaining().reverse()
                    &&& final(self).remaining().len() == 0
                },
                Err(e) => (e is Seek || e is Read) && !old(self).fh.reliable(),
            },
    {
        let mut bytes: Vec<u8> = Vec::new();
        let ghost all = self.remaining();
        loop
            invariant
                all == old(self).remaining(),
                self.wf(),
                self.source() == old(self).source(),
                self.buf.len() == old(self).buf.len(),
                self.fh.reliable() == old(self).fh.reliable(),
                *final(self.fh) == *final(old(self).fh),
                bytes.len() + self.remaining().len() == all.len(),
                self.remaining() == all.subrange(0, self.remaining().len() as int),
                forall|i: int|
                    0 <= i < bytes.len() ==> #[trigger] bytes[i] == all[all.len() - 1 - i],
            ensures
                self.remaining().len() == 0,
            decreases self.remaining().len(),
        {
            match self.next() {
                None => {
                    break ;
                },
                Some(Err(e)) => {
                    return Err(e);
                },
                Some(Ok(byte)) => {
                    bytes.push(byte);
                },
            }
        }
        assert(bytes@ =~= old(self).remaining().reverse());
        Ok(bytes)
    }
}

} // verus!
