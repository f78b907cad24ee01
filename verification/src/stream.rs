//! The in-memory byte stream the crate's traits are implemented for.

use vstd::prelude::*;

use crate::error::IoError;
use crate::reader::SafeRead;
use crate::writer::{write_at, SafeWrite};

verus! {

/// A growable in-memory byte buffer with a cursor, usable both as a source
/// of reads and as a sink of writes.
pub struct ByteCursor {
    buf: Vec<u8>,
    at: usize,
}

impl ByteCursor {
    /// The bytes the cursor ranges over.
    pub closed spec fn spec_data(&self) -> Seq<u8> {
        self.buf@
    }

    /// The cursor position; never past the end of the data.
    pub closed spec fn spec_pos(&self) -> nat {
        self.at as nat
    }

    /// The cursor starts within the stream and stays there.
    pub closed spec fn wf(&self) -> bool {
        self.at <= self.buf@.len()
    }

    /// Wraps a byte buffer; the cursor starts at the beginning.
    pub fn new(buf: Vec<u8>) -> (r: ByteCursor)
        ensures
            r.spec_data() == buf@,
            r.spec_pos() == 0,
            r.wf(),
    {
        ByteCursor { buf, at: 0 }
    }

    /// Hands the underlying buffer back.
    pub fn into_inner(self) -> (r: Vec<u8>)
        ensures
            r@ == self.spec_data(),
    {
        self.buf
    }

    /// Moves the cursor to an absolute offset.
    pub fn seek_to(&mut self, offset: usize) -> (r: Result<(), IoError>)
        ensures
            final(self).spec_data() == old(self).spec_data(),
            offset <= old(self).spec_data().len() ==> {
                &&& r == Ok::<(), IoError>(())
                &&& final(self).spec_pos() == offset
                &&& final(self).wf()
            },
            offset > old(self).spec_data().len() ==> {
                &&& r == Err::<(), IoError>(IoError::ShortRead)
                &&& *final(self) == *old(self)
            },
    {
        if offset <= self.buf.len() {
            self.at = offset;
            Ok(())
        } else {
            Err(IoError::ShortRead)
        }
    }
}

impl SafeRead for ByteCursor {
    closed spec fn data(&self) -> Seq<u8> {
        self.spec_data()
    }

    closed spec fn pos(&self) -> nat {
        self.spec_pos()
    }

    fn tell(&mut self) -> (r: Result<u64, IoError>) {
        Ok(self.at as u64)
    }

    fn len(&mut self) -> (r: Result<usize, IoError>) {
        Ok(self.buf.len())
    }

    fn read_u8(&mut self) -> (r: Result<u8, IoError>) {
        if self.at < self.buf.len() {
            let b = self.buf[self.at];
            self.at = self.at + 1;
            Ok(b)
        } else {
            Err(IoError::ShortRead)
        }
    }

    fn read_as_vec(&mut self, size: usize) -> (r: Result<Vec<u8>, IoError>) {
        if size <= self.buf.len() && self.at <= self.buf.len() - size {
            let end = self.at + size;
            let mut out: Vec<u8> = Vec::new();
            let mut j: usize = self.at;
            while j < end
                invariant
                    self.at <= j <= end,
                    end == self.at + size,
                    end <= self.buf@.len(),
                    out@ =~= self.buf@.subrange(self.at as int, j as int),
                decreases end - j,
            {
                out.push(self.buf[j]);
                j = j + 1;
            }
            self.at = end;
            Ok(out)
        } else {
            Err(IoError::ShortRead)
        }
    }
}

impl SafeWrite for ByteCursor {
    closed spec fn data(&self) -> Seq<u8> {
        self.spec_data()
    }

    closed spec fn pos(&self) -> nat {
        self.spec_pos()
    }

    fn tell(&mut self) -> (r: Result<u64, IoError>) {
        Ok(self.at as u64)
    }

    fn write_exact(&mut self, val: &[u8]) -> (r: Result<(), IoError>) {
        let ghost d0 = self.buf@;
        let ghost p0 = self.at as nat;
        let n = val.len();
        let mut i: usize = 0;
        while i < n
            invariant
                d0 == old(self).buf@,
                p0 == old(self).at as nat,
                p0 <= d0.len(),
                i <= n == val@.len(),
                self.at as nat == p0 + i,
                self.at <= self.buf@.len(),
                self.buf@ =~= write_at(d0, p0 as int, val@.take(i as int)),
            decreases n - i,
        {
            proof {
                assert(val@.take(i + 1) =~= val@.take(i as int).push(val@[i as int]));
            }
            if self.at < self.buf.len() {
                self.buf.set(self.at, val[i]);
                self.at = self.at + 1;
            } else {
                self.buf.push(val[i]);
                self.at = self.buf.len();
            }
            i = i + 1;
            proof {
                assert(self.buf@ =~= write_at(d0, p0 as int, val@.take(i as int)));
            }
        }
        proof {
            assert(val@.take(n as int) =~= val@);
        }
        Ok(())
    }
}

} // verus!
