//! Degenerate sources and sinks: always at end of input, always full of one
//! byte, always willing to accept and forget.

use vstd::prelude::*;

use crate::borrowed_buf::BorrowedCursor;
use crate::error::Error;
use crate::error::ErrorKind;
use crate::rw::BufRead;
use crate::rw::Read;
use crate::rw::Seek;
use crate::rw::SeekFrom;
use crate::rw::Write;

verus! {

/// Always at end of input when read; accepts and discards everything
/// written. The ghost history records what it was handed.
#[derive(Clone, Copy)]
pub struct Empty {
    pub accepted: Ghost<Seq<u8>>,
}

/// A value that is always at end of input for reads and swallows all
/// writes.
pub fn empty() -> (r: Empty)
    ensures
        r.accepted@ == Seq::<u8>::empty(),
{
    Empty { accepted: Ghost(Seq::empty()) }
}

impl Default for Empty {
    fn default() -> (r: Empty)
        ensures
            r.accepted@ == Seq::<u8>::empty(),
    {
        Empty { accepted: Ghost(Seq::empty()) }
    }
}

impl Read for Empty {
    /// An always-ended stream.
    open spec fn models_stream(&self) -> bool {
        true
    }

    fn read(&mut self, buf: &mut Vec<u8>) -> (r: Result<usize, Error>)
        ensures
            r == Ok::<usize, Error>(0usize),
            final(buf)@ == old(buf)@,
            *final(self) == *old(self),
    {
        proof {
            assert(buf@.skip(0) =~= buf@);
        }
        Ok(0)
    }

    fn read_buf(&mut self, cursor: &mut BorrowedCursor) -> (r: Result<(), Error>) {
        proof {
            assert(cursor.buf.data@.take(cursor.buf.filled as int) =~= old(cursor).buf.data@.take(old(cursor).buf.filled as int));
        }
        Ok(())
    }
}

impl BufRead for Empty {
    fn fill_buf(&mut self) -> (r: Result<Vec<u8>, Error>)
        ensures
            match r {
                Ok(w) => w@.len() == 0,
                Err(_) => false,
            },
    {
        proof {
            assert(self.resident() =~= self.stream().take(0));
        }
        Ok(Vec::new())
    }

    fn consume(&mut self, _amt: usize) {
        proof {
            assert(self.stream() =~= self.stream().skip(0));
            assert(self.resident() =~= self.resident().skip(0));
        }
    }
}

impl Seek for Empty {
    fn seek(&mut self, _pos: SeekFrom) -> (r: Result<u64, Error>)
        ensures
            r == Ok::<u64, Error>(0u64),
    {
        Ok(0)
    }

    fn stream_len(&mut self) -> (r: Result<u64, Error>)
        ensures
            r == Ok::<u64, Error>(0u64),
    {
        Ok(0)
    }

    fn stream_position(&mut self) -> (r: Result<u64, Error>)
        ensures
            r == Ok::<u64, Error>(0u64),
    {
        Ok(0)
    }
}

impl Write for Empty {
    /// What was handed over, remembered only as history.
    open spec fn sunk(&self) -> Seq<u8> {
        self.accepted@
    }

    fn write(&mut self, buf: &[u8]) -> (r: Result<usize, Error>)
        ensures
            r == Ok::<usize, Error>(buf@.len() as usize),
    {
        self.accepted = Ghost(self.accepted@ + buf@);
        proof {
            assert(buf@.take(buf@.len() as int) =~= buf@);
        }
        Ok(buf.len())
    }

    fn flush(&mut self) -> (r: Result<(), Error>)
        ensures
            r is Ok,
    {
        Ok(())
    }
}

/// An endless source of one repeated byte.
pub struct Repeat {
    pub byte: u8,
}

/// A source that yields `byte` forever.
pub fn repeat(byte: u8) -> (r: Repeat)
    ensures
        r.byte == byte,
{
    Repeat { byte }
}

impl Read for Repeat {
    fn read(&mut self, buf: &mut Vec<u8>) -> (r: Result<usize, Error>)
        ensures
            r == Ok::<usize, Error>(old(buf)@.len() as usize),
            final(buf)@ == Seq::new(old(buf)@.len(), |i: int| old(self).byte),
            *final(self) == *old(self),
    {
        let len = buf.len();
        let mut i: usize = 0;
        while i < len
            invariant
                0 <= i <= len,
                len == buf@.len(),
                forall|j: int| 0 <= j < i ==> buf@[j] == self.byte,
                forall|j: int| i <= j < len ==> buf@[j] == old(buf)@[j],
                *self == *old(self),
            decreases len - i,
        {
            buf[i] = self.byte;
            i = i + 1;
        }
        proof {
            assert(buf@ =~= Seq::new(old(buf)@.len(), |i: int| old(self).byte));
            assert(buf@.skip(len as int) =~= old(buf)@.skip(len as int));
        }
        Ok(len)
    }

    /// An endless source cannot be read to the end.
    fn read_to_end(&mut self, buf: &mut Vec<u8>) -> (r: Result<usize, Error>)
        ensures
            r is Err,
            final(buf)@ == old(buf)@,
    {
        proof {
            assert(buf@.take(old(buf)@.len() as int) =~= buf@);
        }
        Err(Error::new_simple(ErrorKind::OutOfMemory))
    }

    /// An endless source cannot be read to the end.
    fn read_to_string(&mut self, buf: &mut String) -> (r: Result<usize, Error>)
        ensures
            r is Err,
            final(buf)@ == old(buf)@,
    {
        Err(Error::new_simple(ErrorKind::OutOfMemory))
    }
}

/// Accepts and discards everything written. The ghost history records what
/// it was handed.
#[derive(Clone, Copy)]
pub struct Sink {
    pub accepted: Ghost<Seq<u8>>,
}

/// A sink that swallows every byte.
pub fn sink() -> (r: Sink)
    ensures
        r.accepted@ == Seq::<u8>::empty(),
{
    Sink { accepted: Ghost(Seq::empty()) }
}

impl Default for Sink {
    fn default() -> (r: Sink)
        ensures
            r.accepted@ == Seq::<u8>::empty(),
    {
        Sink { accepted: Ghost(Seq::empty()) }
    }
}

impl Write for Sink {
    /// What was handed over, remembered only as history.
    open spec fn sunk(&self) -> Seq<u8> {
        self.accepted@
    }

    fn write(&mut self, buf: &[u8]) -> (r: Result<usize, Error>)
        ensures
            r == Ok::<usize, Error>(buf@.len() as usize),
    {
        self.accepted = Ghost(self.accepted@ + buf@);
        proof {
            assert(buf@.take(buf@.len() as int) =~= buf@);
        }
        Ok(buf.len())
    }

    fn flush(&mut self) -> (r: Result<(), Error>)
        ensures
            r is Ok,
    {
        Ok(())
    }
}

} // verus!
