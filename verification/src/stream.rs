//! Seekable, readable byte sources.
//!
//! The scanning code never touches a file directly. It works against
//! [`ByteSource`], which captures the two capabilities it needs: moving
//! the read position and reading forward from it. [`MemorySource`] is an
//! implementation over a buffer in memory.

use vstd::prelude::*;

verus! {

/// What went wrong in a seek or a read, as the source describes it.
#[derive(Debug)]
pub struct StreamError {
    pub description: String,
}

/// Whether `after` is `before` with `n` bytes of `content`, taken from
/// offset `pos` on, stored from index `start` on.
pub open spec fn stored(
    before: Seq<u8>,
    after: Seq<u8>,
    start: int,
    n: int,
    content: Seq<u8>,
    pos: int,
) -> bool {
    &&& after.len() == before.len()
    &&& forall|i: int|
        0 <= i < before.len() ==> #[trigger] after[i] == if start <= i < start + n {
            content[pos + i - start]
        } else {
            before[i]
        }
}

/// A seekable, readable source of bytes.
///
/// The model is a fixed sequence of bytes and a read position. Nothing
/// but the calls below moves the position, and nothing changes the bytes:
/// a source whose content is rewritten while it is being scanned is
/// outside this model.
///
/// An implementation states its model by defining the three functions
/// that follow. Where it defines none, nothing is known of its content
/// and position but that they exist, and its calls may fail.
pub trait ByteSource {
    /// Every byte of the source, first byte first.
    open spec fn content(&self) -> Seq<u8> {
        arbitrary()
    }

    /// The offset at which the next read starts.
    open spec fn position(&self) -> nat {
        arbitrary()
    }

    /// Whether seeks and reads on this source always succeed.
    open spec fn reliable(&self) -> bool {
        false
    }

    /// Moves the read position to the end and returns it: the length of
    /// the source.
    fn seek_end(&mut self) -> (r: Result<u64, StreamError>)
        ensures
            final(self).content() == old(self).content(),
            final(self).reliable() == old(self).reliable(),
            old(self).reliable() ==> r is Ok,
            r matches Ok(len) ==> len == old(self).content().len() && final(self).position()
                == len,
    ;

    /// Moves the read position to `offset` bytes from the start. The
    /// offset may lie beyond the end.
    fn seek_start(&mut self, offset: u64) -> (r: Result<(), StreamError>)
        ensures
            final(self).content() == old(self).content(),
            final(self).reliable() == old(self).reliable(),
            old(self).reliable() ==> r is Ok,
            r is Ok ==> final(self).position() == offset,
    ;

    /// Reads forward from the read position into `buf[start..]` and
    /// returns how many bytes were stored. The count may be smaller than
    /// the room in `buf`; it is zero only if there is no room or the
    /// position is at or beyond the end.
    fn read(&mut self, buf: &mut Vec<u8>, start: usize) -> (r: Result<usize, StreamError>)
        requires
            start <= old(buf).len(),
        ensures
            final(self).content() == old(self).content(),
            final(self).reliable() == old(self).reliable(),
            final(buf).len() == old(buf).len(),
            old(self).reliable() ==> r is Ok,
            r matches Ok(n) ==> {
                &&& n <= old(buf).len() - start
                &&& old(self).position() + n <= old(self).content().len() || n == 0
                &&& n == 0 <==> start == old(buf).len() || old(self).position() >= old(
                    self,
                ).content().len()
                &&& final(self).position() == old(self).position() + n
                &&& stored(
                    old(buf)@,
                    final(buf)@,
                    start as int,
                    n as int,
                    old(self).content(),
                    old(self).position() as int,
                )
            },
    ;
}

/// A byte source over a buffer in memory. Its calls never fail.
pub struct MemorySource {
    data: Vec<u8>,
    pos: u64,
}

impl MemorySource {
    /// A source over `data`, positioned at the start.
    pub fn new(data: Vec<u8>) -> (s: Self)
        ensures
            s.content() == data@,
            s.position() == 0,
            s.reliable(),
    {
        MemorySource { data, pos: 0 }
    }

    /// The read position.
    pub fn offset(&self) -> (p: u64)
        ensures
            p == self.position(),
    {
        self.pos
    }

    /// Gives the buffer back.
    pub fn into_inner(self) -> (data: Vec<u8>)
        ensures
            data@ == self.content(),
    {
        self.data
    }
}

impl ByteSource for MemorySource {
    closed spec fn content(&self) -> Seq<u8> {
        self.data@
    }

    closed spec fn position(&self) -> nat {
        self.pos as nat
    }

    open spec fn reliable(&self) -> bool {
        true
    }

    fn seek_end(&mut self) -> (r: Result<u64, StreamError>) {
        self.pos = self.data.len() as u64;
        Ok(self.pos)
    }

    fn seek_start(&mut self, offset: u64) -> (r: Result<(), StreamError>) {
        self.pos = offset;
        Ok(())
    }

    fn read(&mut self, buf: &mut Vec<u8>, start: usize) -> (r: Result<usize, StreamError>) {
        let len = self.data.len();
        if self.pos >= len as u64 {
            return Ok(0);
        }
        let from = self.pos as usize;
        let mut n: usize = 0;
        while start + n < buf.len() && from + n < len
            invariant
                len == self.data.len(),
                from == old(self).pos,
                from < len,
                start + n <= buf.len(),
                from + n <= len,
                start <= old(buf).len(),
                self.data == old(self).data,
                self.pos == old(self).pos,
                stored(old(buf)@, buf@, start as int, n as int, self.data@, from as int),
            decreases buf.len() - n,
        {
            buf.set(start + n, self.data[from + n]);
            n = n + 1;
        }
        self.pos = (from + n) as u64;
        Ok(n)
    }
}

} // verus!
