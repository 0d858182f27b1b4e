//! Random access over an in-memory block of bytes.
//!
//! A [`Cursor`] pairs a block with a position. Reads hand out the bytes
//! after the position; writes to a vector-backed cursor overwrite from the
//! position on, zero-padding any gap a seek left behind.

use vstd::prelude::*;

use crate::error::Error;
use crate::rw::splice;
use crate::rw::string_from_utf8;
use crate::rw::BufRead;
use crate::rw::Read;
use crate::rw::Seek;
use crate::rw::SeekFrom;
use crate::rw::Write;

verus! {

/// Something that is, underneath, a block of bytes.
pub trait ByteStore: Sized {
    /// The bytes held.
    spec fn byte_seq(&self) -> Seq<u8>;

    /// The bytes held, as a slice.
    fn byte_slice(&self) -> (r: &[u8])
        ensures
            r@ == self.byte_seq(),
    ;
}

impl ByteStore for Vec<u8> {
    open spec fn byte_seq(&self) -> Seq<u8> {
        self@
    }

    fn byte_slice(&self) -> (r: &[u8]) {
        self.as_slice()
    }
}

impl<'a> ByteStore for &'a [u8] {
    open spec fn byte_seq(&self) -> Seq<u8> {
        (*self)@
    }

    fn byte_slice(&self) -> (r: &[u8]) {
        *self
    }
}

/// A block of bytes with a read/write position.
#[derive(Clone)]
pub struct Cursor<T> {
    pub inner: T,
    pub pos: u64,
}

impl<T> Cursor<T> {
    /// Wrap `inner` with the position at the start.
    pub fn new(inner: T) -> (r: Cursor<T>)
        ensures
            r.inner == inner,
            r.pos == 0,
    {
        Cursor { pos: 0, inner }
    }

    pub fn into_inner(self) -> (r: T)
        ensures
            r == self.inner,
    {
        self.inner
    }

    pub fn get_ref(&self) -> (r: &T)
        ensures
            *r == self.inner,
    {
        &self.inner
    }

    pub fn get_mut(&mut self) -> (r: &mut T) {
        &mut self.inner
    }

    pub fn position(&self) -> (r: u64)
        ensures
            r == self.pos,
    {
        self.pos
    }

    pub fn set_position(&mut self, pos: u64)
        ensures
            final(self).pos == pos,
            final(self).inner == old(self).inner,
    {
        self.pos = pos;
    }
}

impl<T: ByteStore> Cursor<T> {
    /// The bytes after the position; a position past the end leaves none.
    pub open spec fn remaining(&self) -> Seq<u8> {
        if self.pos <= self.inner.byte_seq().len() {
            self.inner.byte_seq().skip(self.pos as int)
        } else {
            Seq::empty()
        }
    }

    /// The bytes after the position, as a slice.
    pub fn remaining_slice(&self) -> (r: &[u8])
        ensures
            r@ == self.remaining(),
    {
        let s = self.inner.byte_slice();
        let len = s.len();
        let start: usize = if self.pos <= (len as u64) {
            self.pos as usize
        } else {
            len
        };
        let r = vstd::slice::slice_subrange(s, start, len);
        proof {
            if self.pos > self.inner.byte_seq().len() {
                assert(r@ =~= Seq::<u8>::empty());
            }
        }
        r
    }

    /// Whether the position is at or past the end.
    pub fn is_empty(&self) -> (r: bool)
        ensures
            r == (self.remaining().len() == 0),
    {
        self.pos >= (self.inner.byte_slice().len() as u64)
    }
}

impl<T: ByteStore> Seek for Cursor<T> {
    /// The cursor's position is its own field.
    open spec fn positioned(&self) -> bool {
        true
    }

    open spec fn position_view(&self) -> int {
        self.pos as int
    }

    /// Position arithmetic that would leave `u64` is an error and moves
    /// nothing.
    fn seek(&mut self, pos: SeekFrom) -> (r: Result<u64, Error>)
        ensures
            final(self).inner == old(self).inner,
            match pos {
                SeekFrom::Start(n) => r == Ok::<u64, Error>(n) && final(self).pos == n,
                SeekFrom::End(n) => {
                    if 0 <= old(self).inner.byte_seq().len() + n <= u64::MAX {
                        &&& final(self).pos == old(self).inner.byte_seq().len() + n
                        &&& r == Ok::<u64, Error>((old(self).inner.byte_seq().len() + n) as u64)
                    } else {
                        &&& (r matches Err(e) && e.kind_spec() == crate::error::ErrorKind::InvalidInput)
                        &&& final(self).pos == old(self).pos
                    }
                },
                SeekFrom::Current(n) => {
                    if 0 <= old(self).pos + n <= u64::MAX {
                        &&& final(self).pos == old(self).pos + n
                        &&& r == Ok::<u64, Error>((old(self).pos + n) as u64)
                    } else {
                        &&& (r matches Err(e) && e.kind_spec() == crate::error::ErrorKind::InvalidInput)
                        &&& final(self).pos == old(self).pos
                    }
                },
            },
    {
        let (base_pos, offset): (u64, i64) = match pos {
            SeekFrom::Start(n) => {
                self.pos = n;
                return Ok(n);
            },
            SeekFrom::End(n) => (self.inner.byte_slice().len() as u64, n),
            SeekFrom::Current(n) => (self.pos, n),
        };
        match base_pos.checked_add_signed(offset) {
            Some(n) => {
                self.pos = n;
                Ok(n)
            },
            None => Err(Error::invalid_seek()),
        }
    }

    fn stream_len(&mut self) -> (r: Result<u64, Error>)
        ensures
            *final(self) == *old(self),
            r == Ok::<u64, Error>(old(self).inner.byte_seq().len() as u64),
    {
        Ok(self.inner.byte_slice().len() as u64)
    }

    fn stream_position(&mut self) -> (r: Result<u64, Error>)
        ensures
            *final(self) == *old(self),
            r == Ok::<u64, Error>(old(self).pos),
    {
        Ok(self.pos)
    }
}

impl<T: ByteStore> Read for Cursor<T> {
    /// The cursor's stream is whatever lies after its position.
    open spec fn models_stream(&self) -> bool {
        true
    }

    open spec fn stream(&self) -> Seq<u8> {
        self.remaining()
    }

    fn read(&mut self, buf: &mut Vec<u8>) -> (r: Result<usize, Error>)
        ensures
            final(self).inner == old(self).inner,
            ({
                let n = if old(buf)@.len() <= old(self).remaining().len() {
                    old(buf)@.len() as int
                } else {
                    old(self).remaining().len() as int
                };
                &&& r == Ok::<usize, Error>(n as usize)
                &&& final(buf)@ == old(self).remaining().take(n) + old(buf)@.skip(n)
                &&& final(self).remaining() == old(self).remaining().skip(n)
            }),
    {
        let rem = self.remaining_slice();
        let n = if buf.len() <= rem.len() {
            buf.len()
        } else {
            rem.len()
        };
        splice(buf, 0, rem, n);
        let total = self.inner.byte_slice().len();
        proof {
            if self.pos <= (total as u64) {
                assert(self.pos + n <= total);
            } else {
                assert(old(self).remaining().len() == 0);
                assert(n == 0);
            }
        }
        self.pos = self.pos + (n as u64);
        proof {
            assert(buf@ =~= old(self).remaining().take(n as int) + old(buf)@.skip(n as int));
            assert(self.remaining() =~= old(self).remaining().skip(n as int));
            assert(buf@.take(n as int) =~= old(self).stream().take(n as int));
            assert(self.stream() =~= old(self).stream().skip(n as int));
        }
        Ok(n)
    }

    /// The whole destination is owed. When the remaining bytes fall short
    /// the position still moves to the end, but the destination is left
    /// alone.
    fn read_exact(&mut self, buf: &mut Vec<u8>) -> (r: Result<(), Error>)
        ensures
            final(self).inner == old(self).inner,
            r is Ok <==> old(buf)@.len() <= old(self).remaining().len(),
            r is Ok ==> final(buf)@ == old(self).remaining().take(old(buf)@.len() as int)
                && final(self).remaining() == old(self).remaining().skip(old(buf)@.len() as int),
            r is Err ==> final(buf)@ == old(buf)@ && final(self).remaining().len() == 0,
    {
        let rem = self.remaining_slice();
        let rem_len = rem.len();
        if buf.len() > rem_len {
            let end = self.inner.byte_slice().len() as u64;
            self.pos = end;
            proof {
                assert(self.stream() =~= old(self).stream().skip(
                    old(self).stream().len() as int,
                ));
            }
            return Err(Error::read_exact_eof());
        }
        let n = buf.len();
        splice(buf, 0, rem, n);
        let total = self.inner.byte_slice().len();
        proof {
            if self.pos <= (total as u64) {
                assert(self.pos + n <= total);
            } else {
                assert(old(self).remaining().len() == 0);
                assert(n == 0);
            }
        }
        self.pos = self.pos + (n as u64);
        proof {
            assert(buf@ =~= old(self).remaining().take(n as int));
            assert(self.remaining() =~= old(self).remaining().skip(n as int));
            assert(buf@ =~= old(self).stream().take(n as int));
            assert(self.stream() =~= old(self).stream().skip(n as int));
        }
        Ok(())
    }

    fn read_to_end(&mut self, buf: &mut Vec<u8>) -> (r: Result<usize, Error>)
        ensures
            final(self).inner == old(self).inner,
            match r {
                Ok(n) => n == old(self).remaining().len() && final(buf)@ == old(buf)@ + old(
                    self,
                ).remaining() && final(self).remaining().len() == 0,
                Err(_) => final(buf)@ == old(buf)@ && *final(self) == *old(self),
            },
    {
        let rem = self.remaining_slice();
        let n = rem.len();
        match buf.try_reserve(n) {
            Ok(_) => (),
            Err(_) => {
                proof {
                    assert(buf@ =~= old(buf)@ + old(self).stream().take(0));
                    assert(self.stream() =~= old(self).stream().skip(0));
                }
                return Err(Error::new_simple(crate::error::ErrorKind::OutOfMemory));
            },
        }
        buf.extend_from_slice(rem);
        let total = self.inner.byte_slice().len();
        proof {
            if self.pos <= (total as u64) {
                assert(self.pos + n <= total);
            } else {
                assert(old(self).remaining().len() == 0);
                assert(n == 0);
            }
        }
        self.pos = self.pos + (n as u64);
        proof {
            assert(self.remaining() =~= Seq::<u8>::empty());
        }
        Ok(n)
    }

    /// The remaining bytes must be valid UTF-8 in full; otherwise nothing
    /// is appended and nothing moves.
    fn read_to_string(&mut self, buf: &mut String) -> (r: Result<usize, Error>)
        ensures
            final(self).inner == old(self).inner,
            match r {
                Ok(n) => {
                    &&& n == old(self).remaining().len()
                    &&& vstd::utf8::valid_utf8(old(self).remaining())
                    &&& final(buf)@ == old(buf)@ + vstd::utf8::decode_utf8(old(self).remaining())
                    &&& final(self).remaining().len() == 0
                },
                Err(_) => final(buf)@ == old(buf)@,
            },
    {
        let rem = self.remaining_slice();
        let n = rem.len();
        let copied = vstd::slice::slice_to_vec(rem);
        match string_from_utf8(copied) {
            Some(s) => {
                vstd::string::StringExecFns::append(buf, s.as_str());
                let total = self.inner.byte_slice().len();
                proof {
                    if self.pos <= (total as u64) {
                        assert(self.pos + n <= total);
                    } else {
                        assert(old(self).remaining().len() == 0);
                        assert(n == 0);
                    }
                }
                self.pos = self.pos + (n as u64);
                proof {
                    assert(self.remaining() =~= Seq::<u8>::empty());
                }
                Ok(n)
            },
            None => Err(Error::invalid_utf8()),
        }
    }
}

impl<T: ByteStore> BufRead for Cursor<T> {
    /// Everything after the position is resident.
    open spec fn resident(&self) -> Seq<u8> {
        self.remaining()
    }

    /// Everything remaining is already resident; no call reaches anything
    /// deeper.
    fn fill_buf(&mut self) -> (r: Result<Vec<u8>, Error>)
        ensures
            *final(self) == *old(self),
            match r {
                Ok(w) => w@ == old(self).remaining(),
                Err(_) => false,
            },
    {
        proof {
            assert(self.resident() =~= self.stream().take(self.resident().len() as int));
        }
        Ok(vstd::slice::slice_to_vec(self.remaining_slice()))
    }

    /// Move the position forward; it saturates rather than wrapping.
    fn consume(&mut self, amt: usize)
        ensures
            final(self).inner == old(self).inner,
            final(self).pos == if old(self).pos + amt <= u64::MAX {
                old(self).pos + amt
            } else {
                u64::MAX as int
            },
    {
        let total = self.inner.byte_slice().len();
        self.pos = match self.pos.checked_add(amt as u64) {
            Some(p) => p,
            None => u64::MAX,
        };
        proof {
            let k = if amt <= old(self).resident().len() {
                amt as int
            } else {
                old(self).resident().len() as int
            };
            if old(self).pos <= total as u64 {
                assert(self.remaining() =~= old(self).remaining().skip(k));
            } else {
                assert(old(self).remaining() =~= Seq::<u8>::empty());
                assert(self.remaining() =~= Seq::<u8>::empty());
            }
            assert(self.stream() =~= old(self).stream().skip(k));
            assert(self.resident() =~= old(self).resident().skip(k));
        }
    }
}

impl Write for Cursor<Vec<u8>> {
    /// The bytes the cursor has put behind its position: the block up to
    /// the position, plus the zero padding a past-the-end position implies.
    open spec fn sunk(&self) -> Seq<u8> {
        if self.pos <= self.inner@.len() {
            self.inner@.take(self.pos as int)
        } else {
            self.inner@ + Seq::new((self.pos - self.inner@.len()) as nat, |i: int| 0u8)
        }
    }

    /// Overwrite from the position on, growing the block as needed; a gap
    /// left by a seek past the end is zero-filled first. A position beyond
    /// the address range is an error.
    fn write(&mut self, buf: &[u8]) -> (r: Result<usize, Error>)
        ensures
            r is Ok ==> r == Ok::<usize, Error>(buf@.len() as usize) && final(self).pos == old(
                self,
            ).pos + buf@.len(),
    {
        let pos_u64 = self.pos;
        if pos_u64 > (usize::MAX as u64) {
            return Err(Error::invalid_seek());
        }
        let pos = pos_u64 as usize;
        if pos > self.inner.len() {
            // zero-fill the gap the position left
            self.inner.resize(pos, 0u8);
        }
        let n = buf.len();
        if n > usize::MAX - pos {
            return Err(Error::invalid_seek());
        }
        let mut i: usize = 0;
        while i < n
            invariant
                0 <= i <= n,
                n == buf@.len(),
                pos + n <= usize::MAX,
                pos <= self.inner@.len(),
                self.pos == old(self).pos,
                pos == self.pos,
                self.inner@.take(pos as int) == old(self).sunk(),
                forall|j: int| 0 <= j < i ==> self.inner@[pos + j] == buf@[j],
                self.inner@.len() >= pos + i,
                i < n ==> self.inner@.len() >= pos + i,
            decreases n - i,
        {
            if pos + i < self.inner.len() {
                self.inner[pos + i] = buf[i];
            } else {
                proof {
                    assert(self.inner@.len() == pos + i);
                }
                self.inner.push(buf[i]);
            }
            proof {
                assert(self.inner@.take(pos as int) =~= old(self).sunk());
            }
            i = i + 1;
        }
        self.pos = (pos as u64) + (n as u64);
        proof {
            assert(self.sunk() =~= old(self).sunk() + buf@);
            assert(buf@.take(n as int) =~= buf@);
        }
        Ok(n)
    }

    fn flush(&mut self) -> (r: Result<(), Error>)
        ensures
            *final(self) == *old(self),
            r is Ok,
    {
        Ok(())
    }
}

} // verus!
