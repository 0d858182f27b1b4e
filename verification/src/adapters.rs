//! Adapters over sources: chaining, limiting, and walking by byte, chunk or
//! line.

use vstd::prelude::*;

use crate::borrowed_buf::BorrowedCursor;
use crate::error::Error;
use crate::rw::BufRead;
use crate::rw::Read;
use crate::rw::string_from_utf8;

verus! {

/// Two sources read one after the other.
pub struct Chain<T, U> {
    pub first: T,
    pub second: U,
    pub done_first: bool,
}

impl<T, U> Chain<T, U> {
    /// Read `first` until it ends, then `second`.
    pub fn new(first: T, second: U) -> (r: Chain<T, U>)
        ensures
            r.first == first,
            r.second == second,
            !r.done_first,
    {
        Chain { first, second, done_first: false }
    }

    pub fn into_inner(self) -> (r: (T, U))
        ensures
            r.0 == self.first,
            r.1 == self.second,
    {
        (self.first, self.second)
    }

    pub fn get_ref(&self) -> (r: (&T, &U))
        ensures
            *r.0 == self.first,
            *r.1 == self.second,
    {
        (&self.first, &self.second)
    }

    pub fn get_mut(&mut self) -> (r: (&mut T, &mut U)) {
        (&mut self.first, &mut self.second)
    }
}

impl<T: Read, U: Read> Read for Chain<T, U> {
    fn read(&mut self, buf: &mut Vec<u8>) -> (r: Result<usize, Error>) {
        if !self.done_first {
            match self.first.read(buf) {
                Ok(n) => {
                    if n == 0 && buf.len() > 0 {
                        proof {
                            assert(buf@.skip(0) =~= buf@);
                            assert(old(buf)@.skip(0) =~= old(buf)@);
                        }
                        self.done_first = true;
                    } else {
                        return Ok(n);
                    }
                },
                Err(e) => {
                    return Err(e);
                },
            }
        }
        self.second.read(buf)
    }

    fn read_buf(&mut self, cursor: &mut BorrowedCursor) -> (r: Result<(), Error>) {
        if cursor.capacity() == 0 {
            return Ok(());
        }
        if !self.done_first {
            let prev = cursor.written();
            match self.first.read_buf(cursor) {
                Ok(_) => (),
                Err(e) => {
                    return Err(e);
                },
            }
            if cursor.written() != prev {
                return Ok(());
            }
            self.done_first = true;
        }
        self.second.read_buf(cursor)
    }

    fn read_to_end(&mut self, buf: &mut Vec<u8>) -> (r: Result<usize, Error>) {
        let start_len = buf.len();
        if !self.done_first {
            match self.first.read_to_end(buf) {
                Ok(_) => (),
                Err(e) => {
                    return Err(e);
                },
            }
            self.done_first = true;
        }
        match self.second.read_to_end(buf) {
            Ok(_) => (),
            Err(e) => {
                return Err(e);
            },
        }
        proof {
            assert(buf@.take(start_len as int) =~= old(buf)@);
        }
        Ok(buf.len() - start_len)
    }
}

impl<T: BufRead, U: BufRead> BufRead for Chain<T, U> {
    fn fill_buf(&mut self) -> (r: Result<Vec<u8>, Error>) {
        if !self.done_first {
            match self.first.fill_buf() {
                Ok(w) => {
                    if w.len() == 0 {
                        self.done_first = true;
                    } else {
                        return Ok(w);
                    }
                },
                Err(e) => {
                    return Err(e);
                },
            }
        }
        self.second.fill_buf()
    }

    fn consume(&mut self, amt: usize) {
        if !self.done_first {
            self.first.consume(amt)
        } else {
            self.second.consume(amt)
        }
    }
}

/// A source cut off after a fixed number of bytes.
pub struct Take<T> {
    pub inner: T,
    pub limit: u64,
}

impl<T> Take<T> {
    /// How many more bytes this adapter will let through.
    pub fn limit(&self) -> (r: u64)
        ensures
            r == self.limit,
    {
        self.limit
    }

    pub fn set_limit(&mut self, limit: u64)
        ensures
            final(self).limit == limit,
            final(self).inner == old(self).inner,
    {
        self.limit = limit;
    }

    pub fn into_inner(self) -> (r: T)
        ensures
            r == self.inner,
    {
        self.inner
    }

    pub fn get_ref(&self) -> (r: &T)
        ensures
            *r == self.inner,
    {
        &self.inner
    }

    pub fn get_mut(&mut self) -> (r: &mut T) {
        &mut self.inner
    }
}

impl<T: Read> Read for Take<T> {
    /// Never hands out more than the limit; every byte read is charged
    /// against it.
    fn read(&mut self, buf: &mut Vec<u8>) -> (r: Result<usize, Error>)
        ensures
            old(self).limit == 0 ==> r == Ok::<usize, Error>(0usize) && *final(self) == *old(self)
                && final(buf)@ == old(buf)@,
            r matches Ok(n) ==> n <= old(self).limit && final(self).limit == old(self).limit - n,
            r is Err ==> final(self).limit == old(self).limit,
    {
        if self.limit == 0 {
            proof {
                assert(buf@.skip(0) =~= buf@);
            }
            return Ok(0);
        }
        let max: usize = if (buf.len() as u64) < self.limit {
            buf.len()
        } else {
            self.limit as usize
        };
        let mut tmp: Vec<u8> = vec![0u8; max];
        match self.inner.read(&mut tmp) {
            Ok(n) => {
                crate::rw::splice(buf, 0, tmp.as_slice(), n);
                self.limit = self.limit - (n as u64);
                Ok(n)
            },
            Err(e) => Err(e),
        }
    }

    fn read_buf(&mut self, cursor: &mut BorrowedCursor) -> (r: Result<(), Error>)
        ensures
            final(self).limit == old(self).limit - (final(cursor).buf.filled - old(
                cursor,
            ).buf.filled),
    {
        if self.limit == 0 {
            return Ok(());
        }
        let room = cursor.capacity();
        let max: usize = if (room as u64) < self.limit {
            room
        } else {
            self.limit as usize
        };
        let mut tmp: Vec<u8> = vec![0u8; max];
        match self.inner.read(&mut tmp) {
            Ok(n) => {
                cursor.append(vstd::slice::slice_subrange(tmp.as_slice(), 0, n));
                proof {
                    assert(final(cursor).buf.data@.take(old(cursor).buf.filled as int) =~= old(cursor).buf.data@.take(old(cursor).buf.filled as int));
                }
                self.limit = self.limit - (n as u64);
                Ok(())
            },
            Err(e) => Err(e),
        }
    }
}

impl<T: BufRead> BufRead for Take<T> {
    /// The window handed out never exceeds the limit.
    fn fill_buf(&mut self) -> (r: Result<Vec<u8>, Error>)
        ensures
            final(self).limit == old(self).limit,
            r matches Ok(w) ==> w@.len() <= old(self).limit,
    {
        if self.limit == 0 {
            return Ok(Vec::new());
        }
        match self.inner.fill_buf() {
            Ok(mut w) => {
                if (w.len() as u64) > self.limit {
                    w.truncate(self.limit as usize);
                }
                Ok(w)
            },
            Err(e) => Err(e),
        }
    }

    /// What is consumed is charged against the limit, clamped at it.
    fn consume(&mut self, amt: usize)
        ensures
            final(self).limit == if amt < old(self).limit {
                old(self).limit - amt
            } else {
                0int
            },
    {
        let capped: usize = if (amt as u64) < self.limit {
            amt
        } else {
            self.limit as usize
        };
        self.limit = self.limit - (capped as u64);
        self.inner.consume(capped);
    }
}

/// A source walked one byte at a time.
pub struct Bytes<R> {
    pub inner: R,
}

impl<R: Read> Bytes<R> {
    /// The next byte: `None` at end of input, interruption retried.
    pub fn next(&mut self) -> (r: Option<Result<u8, Error>>) {
        let mut fuel: u64 = crate::rw::RETRY_LIMIT;
        loop
            decreases fuel,
        {
            let mut tmp: Vec<u8> = vec![0u8; 1];
            match self.inner.read(&mut tmp) {
                Ok(0) => {
                    return None;
                },
                Ok(_) => {
                    return Some(Ok(tmp[0]));
                },
                Err(e) => {
                    if !e.is_interrupted() || fuel == 0 {
                        return Some(Err(e));
                    }
                    fuel = fuel - 1;
                },
            }
        }
    }
}

/// A buffered source walked in chunks separated by a delimiter byte.
pub struct Split<B> {
    pub buf: B,
    pub delim: u8,
}

impl<B: BufRead> Split<B> {
    /// The next chunk, its trailing delimiter removed; `None` at end of
    /// input. No chunk returned contains the delimiter.
    pub fn next(&mut self) -> (r: Option<Result<Vec<u8>, Error>>)
        ensures
            match r {
                Some(Ok(chunk)) => forall|i: int|
                    0 <= i < chunk@.len() ==> chunk@[i] != final(self).delim,
                _ => true,
            },
    {
        let mut chunk: Vec<u8> = Vec::new();
        let delim = self.delim;
        match self.buf.read_until(delim, &mut chunk) {
            Ok(0) => None,
            Ok(_) => {
                if chunk[chunk.len() - 1] == delim {
                    chunk.pop();
                }
                Some(Ok(chunk))
            },
            Err(e) => Some(Err(e)),
        }
    }
}

/// A buffered source walked line by line.
pub struct Lines<B> {
    pub buf: B,
}

impl<B: BufRead> Lines<B> {
    /// The next line, its trailing newline (and carriage return before it)
    /// removed; `None` at end of input.
    pub fn next(&mut self) -> (r: Option<Result<String, Error>>) {
        let mut bytes: Vec<u8> = Vec::new();
        match self.buf.read_until(10u8, &mut bytes) {
            Ok(0) => None,
            Ok(_) => {
                if bytes[bytes.len() - 1] == 10u8 {
                    bytes.pop();
                    if bytes.len() > 0 && bytes[bytes.len() - 1] == 13u8 {
                        bytes.pop();
                    }
                }
                match string_from_utf8(bytes) {
                    Some(s) => Some(Ok(s)),
                    None => Some(Err(Error::invalid_utf8())),
                }
            },
            Err(e) => Some(Err(e)),
        }
    }
}

} // verus!
