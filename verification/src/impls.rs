//! The capability contracts on the primitive carriers: a byte slice as a
//! source, a byte vector as a sink.
//!
//! A `&[u8]` source consumes itself: reading moves the slice forward past
//! the bytes handed out, so the slice always holds exactly what is left.

use vstd::prelude::*;

use crate::error::Error;
use crate::rw::splice;
use crate::rw::BufRead;
use crate::rw::Read;
use crate::rw::Write;

verus! {

impl<'a> Read for &'a [u8] {
    /// The slice is its own stream: what it holds is what it will produce.
    open spec fn models_stream(&self) -> bool {
        true
    }

    open spec fn stream(&self) -> Seq<u8> {
        (*self)@
    }

    fn read(&mut self, buf: &mut Vec<u8>) -> (r: Result<usize, Error>)
        ensures
            ({
                let n = if old(buf)@.len() <= (*old(self))@.len() {
                    old(buf)@.len() as int
                } else {
                    (*old(self))@.len() as int
                };
                &&& r == Ok::<usize, Error>(n as usize)
                &&& final(buf)@ == (*old(self))@.take(n) + old(buf)@.skip(n)
                &&& (*final(self))@ == (*old(self))@.skip(n)
            }),
    {
        let here: &[u8] = *self;
        let amt = if buf.len() <= here.len() {
            buf.len()
        } else {
            here.len()
        };
        splice(buf, 0, here, amt);
        *self = vstd::slice::slice_subrange(here, amt, here.len());
        proof {
            assert(final(buf)@ =~= (*old(self))@.take(amt as int) + old(buf)@.skip(amt as int));
        }
        Ok(amt)
    }

    /// The whole destination is owed; a slice too short to cover it is an
    /// error, and is drained either way.
    fn read_exact(&mut self, buf: &mut Vec<u8>) -> (r: Result<(), Error>)
        ensures
            r is Ok <==> old(buf)@.len() <= (*old(self))@.len(),
            r is Ok ==> final(buf)@ == (*old(self))@.take(old(buf)@.len() as int)
                && (*final(self))@ == (*old(self))@.skip(old(buf)@.len() as int),
            r is Err ==> final(buf)@ == old(buf)@ && (*final(self))@.len() == 0,
    {
        let here: &[u8] = *self;
        if buf.len() > here.len() {
            *self = vstd::slice::slice_subrange(here, here.len(), here.len());
            proof {
                assert(self.stream() =~= old(self).stream().skip(
                    old(self).stream().len() as int,
                ));
            }
            return Err(Error::read_exact_eof());
        }
        let n = buf.len();
        splice(buf, 0, here, n);
        *self = vstd::slice::slice_subrange(here, n, here.len());
        proof {
            assert(buf@ =~= old(self).stream().take(n as int));
            assert(self.stream() =~= old(self).stream().skip(n as int));
        }
        Ok(())
    }

    fn read_to_end(&mut self, buf: &mut Vec<u8>) -> (r: Result<usize, Error>)
        ensures
            match r {
                Ok(n) => n == (*old(self))@.len() && final(buf)@ == old(buf)@ + (*old(self))@
                    && (*final(self))@.len() == 0,
                Err(_) => final(buf)@ == old(buf)@ && *final(self) == *old(self),
            },
    {
        let here: &[u8] = *self;
        let n = here.len();
        match buf.try_reserve(n) {
            Ok(_) => (),
            Err(_) => {
                proof {
                    assert(buf@ =~= old(buf)@ + old(self).stream().take(0));
                    assert(self.stream() =~= old(self).stream().skip(0));
                }
                return Err(Error::new_simple(crate::error::ErrorKind::OutOfMemory));
            },
        }
        buf.extend_from_slice(here);
        *self = vstd::slice::slice_subrange(here, n, n);
        proof {
            assert(self.stream() =~= old(self).stream().skip(n as int));
        }
        Ok(n)
    }
}

impl<'a> BufRead for &'a [u8] {
    /// Everything the slice holds is resident.
    open spec fn resident(&self) -> Seq<u8> {
        (*self)@
    }

    /// The whole remaining slice is the resident window; no call reaches
    /// anything deeper.
    fn fill_buf(&mut self) -> (r: Result<Vec<u8>, Error>)
        ensures
            *final(self) == *old(self),
            match r {
                Ok(w) => w@ == (*old(self))@,
                Err(_) => false,
            },
    {
        proof {
            assert(self.resident() =~= self.stream().take(self.resident().len() as int));
        }
        Ok(vstd::slice::slice_to_vec(*self))
    }

    /// Move past `amt` bytes; past the end is clamped, not an error.
    fn consume(&mut self, amt: usize)
        ensures
            (*final(self))@ == if amt <= (*old(self))@.len() {
                (*old(self))@.skip(amt as int)
            } else {
                Seq::<u8>::empty()
            },
    {
        let here: &[u8] = *self;
        let n = if amt <= here.len() {
            amt
        } else {
            here.len()
        };
        *self = vstd::slice::slice_subrange(here, n, here.len());
        proof {
            if amt > (*old(self))@.len() {
                assert((*final(self))@ =~= Seq::<u8>::empty());
            }
            assert(self.stream() =~= old(self).stream().skip(n as int));
            assert(self.resident() =~= old(self).resident().skip(n as int));
        }
    }
}

impl Write for Vec<u8> {
    /// A byte vector has accepted exactly what it holds.
    open spec fn sunk(&self) -> Seq<u8> {
        self@
    }

    /// Every byte offered is accepted, by appending.
    fn write(&mut self, buf: &[u8]) -> (r: Result<usize, Error>)
        ensures
            match r {
                Ok(n) => n == buf@.len() && final(self)@ == old(self)@ + buf@,
                Err(e) => e.kind_spec() == crate::error::ErrorKind::OutOfMemory && final(self)@
                    == old(self)@,
            },
    {
        match self.try_reserve(buf.len()) {
            Ok(_) => (),
            Err(_) => {
                return Err(Error::new_simple(crate::error::ErrorKind::OutOfMemory));
            },
        }
        self.extend_from_slice(buf);
        proof {
            assert(buf@.take(buf@.len() as int) =~= buf@);
        }
        Ok(buf.len())
    }

    fn flush(&mut self) -> (r: Result<(), Error>)
        ensures
            final(self)@ == old(self)@,
            r is Ok,
    {
        Ok(())
    }
}

} // verus!
