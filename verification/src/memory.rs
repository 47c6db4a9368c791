use crate::read::{ByteReader, MakeReader, ReadError};
use vstd::prelude::*;

verus! {

/// The least of three numbers.
pub open spec fn least(a: int, b: int, c: int) -> int {
    if a <= b && a <= c {
        a
    } else if b <= c {
        b
    } else {
        c
    }
}

/// Bytes in memory, read front to back. A cursor is a source that opens as itself; it
/// never fails.
pub struct Cursor {
    bytes: Vec<u8>,
    pos: usize,
    chunk: usize,
}

impl Cursor {
    #[verifier::type_invariant]
    spec fn wf(self) -> bool {
        self.pos <= self.bytes@.len() && self.chunk >= 1
    }

    /// The bytes that have not been read yet.
    pub closed spec fn view(&self) -> Seq<u8> {
        self.bytes@.skip(self.pos as int)
    }

    /// The most bytes that one read delivers.
    pub closed spec fn chunk(&self) -> usize {
        self.chunk
    }

    /// A cursor at the front of `bytes` that delivers as much as a buffer takes.
    pub fn new(bytes: Vec<u8>) -> (cursor: Self)
        ensures
            cursor@ == bytes@,
            cursor.chunk() == usize::MAX,
    {
        Cursor { bytes, pos: 0, chunk: usize::MAX }
    }

    /// A cursor at the front of `bytes` that delivers at most `chunk` bytes in one read
    /// (one byte where `chunk` is 0).
    pub fn with_chunk(bytes: Vec<u8>, chunk: usize) -> (cursor: Self)
        ensures
            cursor@ == bytes@,
            cursor.chunk() == if chunk == 0 {
                1
            } else {
                chunk
            },
    {
        Cursor { bytes, pos: 0, chunk: if chunk == 0 { 1 } else { chunk } }
    }
}

impl MakeReader for Cursor {
    type Reader = Cursor;

    open spec fn content(&self) -> Seq<u8> {
        self@
    }

    open spec fn faithful(&self) -> bool {
        true
    }

    open spec fn reliable(&self) -> bool {
        true
    }

    fn make_reader(self) -> (r: Result<Cursor, String>)
        ensures
            r == Ok::<Cursor, String>(self),
    {
        Ok(self)
    }
}

impl ByteReader for Cursor {
    open spec fn remaining(&self) -> Seq<u8> {
        self@
    }

    open spec fn faithful(&self) -> bool {
        true
    }

    open spec fn reliable(&self) -> bool {
        true
    }

    /// Delivers as many bytes as the buffer, the chunk and what is left allow.
    fn read(&mut self, buf: &mut [u8]) -> (r: Result<usize, ReadError>)
        ensures
            final(self).chunk() == old(self).chunk(),
            r matches Ok(n) && n == least(
                old(buf)@.len() as int,
                old(self).chunk() as int,
                old(self)@.len() as int,
            ),
    {
        proof {
            use_type_invariant(&*self);
        }
        let left: usize = self.bytes.len() - self.pos;
        let room: usize = if buf.len() < self.chunk { buf.len() } else { self.chunk };
        let n: usize = if room < left { room } else { left };
        let mut i: usize = 0;
        while i < n
            invariant
                i <= n,
                n <= buf@.len(),
                self.pos + n <= self.bytes.len(),
                self.pos == old(self).pos,
                self.bytes == old(self).bytes,
                self.chunk == old(self).chunk,
                buf@.len() == old(buf)@.len(),
                buf@.take(i as int) == old(self)@.take(i as int),
            decreases n - i,
        {
            buf[i] = self.bytes[self.pos + i];
            proof {
                assert(old(self)@.take(i + 1) == old(self)@.take(i as int).push(
                    old(self)@[i as int],
                ));
            }
            i += 1;
        }
        self.pos = self.pos + n;
        Ok(n)
    }
}

} // verus!
