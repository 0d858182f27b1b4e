//! A writer that batches many small writes into few large ones.
//!
//! Bytes accepted from the consumer sit in an owned buffer until it cannot
//! take the next write; only then does the sink see anything. The sink's
//! accepted history plus the buffered bytes together never lose a byte:
//! every path through a flush, error paths included, accounts for exactly
//! the bytes the sink took.

use vstd::prelude::*;

use crate::error::Error;
use crate::rw::Seek;
use crate::rw::SeekFrom;
use crate::rw::Write;
use crate::rw::DEFAULT_BUF_SIZE;
use crate::rw::RETRY_LIMIT;

verus! {

/// A sink wrapped with an owned batching buffer of fixed capacity.
#[derive(Debug)]
pub struct BufWriter<W> {
    inner: W,
    buf: Vec<u8>,
    cap: usize,
    panicked: bool,
}

/// The payload of a writer whose sink did not return normally: the bytes
/// that were still buffered, recovered for inspection.
#[derive(Debug)]
pub struct WriterPanicked {
    buf: Vec<u8>,
}

impl WriterPanicked {
    /// The bytes that were still buffered when the sink call went wrong.
    pub closed spec fn spec_bytes(&self) -> Seq<u8> {
        self.buf@
    }

    /// The bytes that were buffered when the sink call went wrong. How many
    /// of them the sink also took cannot be known.
    pub fn into_inner(self) -> (r: Vec<u8>)
        ensures
            r@ == self.spec_bytes(),
    {
        self.buf
    }

    pub(crate) fn new(buf: Vec<u8>) -> (r: WriterPanicked)
        ensures
            r.spec_bytes() == buf@,
    {
        WriterPanicked { buf }
    }
}

/// A writer handed back together with the error that kept its buffer from
/// draining.
#[derive(Debug)]
pub struct IntoInnerError<W>(pub W, pub Error);

impl<W> IntoInnerError<W> {
    pub(crate) fn new(writer: W, error: Error) -> (r: IntoInnerError<W>)
        ensures
            r.0 == writer,
            r.1 == error,
    {
        IntoInnerError(writer, error)
    }

    /// The error that stopped the drain.
    pub fn error(&self) -> (r: &Error)
        ensures
            *r == self.1,
    {
        &self.1
    }

    /// The intact writer, no bytes lost.
    pub fn into_inner(self) -> (r: W)
        ensures
            r == self.0,
    {
        self.0
    }

    pub fn into_error(self) -> (r: Error)
        ensures
            r == self.1,
    {
        self.1
    }

    pub fn into_parts(self) -> (r: (Error, W))
        ensures
            r.0 == self.1,
            r.1 == self.0,
    {
        (self.1, self.0)
    }
}

impl<W> BufWriter<W> {
    /// The wrapped sink.
    pub closed spec fn spec_inner(&self) -> W {
        self.inner
    }

    /// Bytes accepted from the consumer but not yet pushed to the sink.
    pub closed spec fn buffered(&self) -> Seq<u8> {
        self.buf@
    }

    /// The batching threshold: how many bytes the buffer holds at most.
    pub closed spec fn spec_capacity(&self) -> int {
        self.cap as int
    }

    /// Whether the last sink call failed to return normally.
    pub closed spec fn spec_panicked(&self) -> bool {
        self.panicked
    }

    /// Unused room before the next write forces a flush; a buffer somehow
    /// past its capacity has none.
    pub open spec fn spec_spare(&self) -> int {
        if self.buffered().len() <= self.spec_capacity() {
            self.spec_capacity() - self.buffered().len()
        } else {
            0
        }
    }

    pub fn get_ref(&self) -> (r: &W)
        ensures
            *r == self.spec_inner(),
    {
        &self.inner
    }

    pub fn get_mut(&mut self) -> (r: &mut W) {
        &mut self.inner
    }

    /// The bytes accepted but not yet pushed to the sink.
    pub fn buffer(&self) -> (r: &[u8])
        ensures
            r@ == self.buffered(),
    {
        self.buf.as_slice()
    }

    pub fn capacity(&self) -> (r: usize)
        ensures
            r == self.spec_capacity(),
    {
        self.cap
    }

    /// Unused room left before the next write forces a flush; a buffer
    /// somehow past its capacity has none.
    fn spare_capacity(&self) -> (r: usize)
        ensures
            r == self.spec_spare(),
    {
        if self.buf.len() <= self.cap {
            self.cap - self.buf.len()
        } else {
            0
        }
    }

    /// Take the writer apart: the sink, and the still-buffered bytes —
    /// unless the last sink call went wrong, in which case the bytes come
    /// wrapped in [`WriterPanicked`] since how many the sink took is
    /// unknown.
    pub fn into_parts(self) -> (r: (W, Result<Vec<u8>, WriterPanicked>))
        ensures
            r.0 == self.spec_inner(),
            !self.spec_panicked() ==> (r.1 matches Ok(b) && b@ == self.buffered()),
            self.spec_panicked() ==> (r.1 matches Err(w) && w.spec_bytes() == self.buffered()),
    {
        let BufWriter { inner, buf, cap: _, panicked } = self;
        if !panicked {
            (inner, Ok(buf))
        } else {
            (inner, Err(WriterPanicked::new(buf)))
        }
    }
}

impl<W: Write> BufWriter<W> {
    /// Wrap `inner` with the default buffer capacity.
    pub fn new(inner: W) -> (r: BufWriter<W>)
        ensures
            r.spec_inner() == inner,
            r.buffered() == Seq::<u8>::empty(),
            r.spec_capacity() == DEFAULT_BUF_SIZE,
            !r.spec_panicked(),
    {
        BufWriter::with_capacity(DEFAULT_BUF_SIZE, inner)
    }

    /// Wrap `inner` with a buffer of `capacity` bytes.
    pub fn with_capacity(capacity: usize, inner: W) -> (r: BufWriter<W>)
        ensures
            r.spec_inner() == inner,
            r.buffered() == Seq::<u8>::empty(),
            r.spec_capacity() == capacity,
            !r.spec_panicked(),
    {
        BufWriter { inner, buf: Vec::with_capacity(capacity), cap: capacity, panicked: false }
    }

    /// Drain the buffer into the sink, retrying on interruption. A sink
    /// that accepts zero bytes while bytes are owed is an error. Whatever
    /// happens, exactly the bytes the sink took leave the buffer: an early
    /// error return loses nothing.
    pub(crate) fn flush_buf(&mut self) -> (r: Result<(), Error>)
        ensures
            final(self).spec_capacity() == old(self).spec_capacity(),
            !old(self).spec_panicked() ==> !final(self).spec_panicked(),
            r is Ok ==> final(self).spec_inner().sunk() == old(self).spec_inner().sunk() + old(self).buffered() && final(self).buffered() == Seq::<u8>::empty(),
            r is Err ==> (exists|k: int|
                {
                    &&& 0 <= k <= old(self).buffered().len()
                    &&& final(self).spec_inner().sunk() == old(self).spec_inner().sunk() + old(self).buffered().take(k)
                    &&& final(self).buffered() == old(self).buffered().skip(k)
                }),
    {
        let total = self.buf.len();
        let mut written: usize = 0;
        let mut fuel: u64 = RETRY_LIMIT;
        let mut ret: Result<(), Error> = Ok(());
        loop
            invariant
                written <= total,
                total == self.buf@.len(),
                self.buf@ == old(self).buf@,
                self.cap == old(self).cap,
                !old(self).panicked ==> !self.panicked,
                self.inner.sunk() == old(self).inner.sunk() + old(self).buf@.take(written as int),
            ensures
                ret is Ok ==> written >= total,
            decreases total - written, fuel,
        {
            if written >= total {
                break ;
            }
            self.panicked = true;
            let r = self.inner.write(
                vstd::slice::slice_subrange(self.buf.as_slice(), written, total),
            );
            self.panicked = false;
            match r {
                Ok(n) => {
                    if n == 0 {
                        ret = Err(Error::write_zero());
                        break ;
                    }
                    proof {
                        assert(old(self).buf@.take(written as int) + self.buf@.subrange(
                            written as int,
                            total as int,
                        ).take(n as int) =~= old(self).buf@.take(written + n));
                    }
                    written = written + n;
                    fuel = RETRY_LIMIT;
                },
                Err(e) => {
                    if !e.is_interrupted() || fuel == 0 {
                        ret = Err(e);
                        break ;
                    }
                    fuel = fuel - 1;
                },
            }
        }
        let tail = self.buf.split_off(written);
        self.buf = tail;
        proof {
            if written == total && (ret is Ok) {
                assert(old(self).buf@.take(total as int) =~= old(self).buf@);
                assert(self.buf@ =~= Seq::<u8>::empty());
            }
            if ret is Err {
                assert(self.buf@ =~= old(self).buffered().skip(written as int));
                assert(self.inner.sunk() == old(self).spec_inner().sunk() + old(self).buffered().take(written as int));
            }
        }
        ret
    }

    /// Append as much of `buf` as the spare room takes, reporting how
    /// much; the sink is not touched.
    pub(crate) fn write_to_buf(&mut self, buf: &[u8]) -> (r: usize)
        ensures
            final(self).spec_inner() == old(self).spec_inner(),
            final(self).spec_capacity() == old(self).spec_capacity(),
            final(self).spec_panicked() == old(self).spec_panicked(),
            r == if buf@.len() <= old(self).spec_spare() {
                buf@.len() as int
            } else {
                old(self).spec_spare()
            },
            final(self).buffered() == old(self).buffered() + buf@.take(r as int),
    {
        let spare = if self.buf.len() <= self.cap {
            self.cap - self.buf.len()
        } else {
            0
        };
        let amt = if buf.len() <= spare {
            buf.len()
        } else {
            spare
        };
        self.buf.extend_from_slice(vstd::slice::slice_subrange(buf, 0, amt));
        amt
    }

    /// Sink-buffer-driven copy: the source reads straight into this
    /// writer's spare room, and the buffer is drained only when it becomes
    /// full, keeping the number of distinct sink writes low. The joint view
    /// keeps everything it had and gains exactly the count returned.
    pub fn copy_from<R: crate::rw::Read>(&mut self, reader: &mut R) -> (r: Result<u64, Error>)
        ensures
            final(self).sunk().take(old(self).sunk().len() as int) == old(self).sunk(),
            final(self).sunk().len() >= old(self).sunk().len(),
            r matches Ok(n) ==> final(self).sunk().len() == old(self).sunk().len() + n,
            old(reader).models_stream() ==> ({
                &&& final(reader).models_stream()
                &&& (r matches Ok(n) ==> n == old(reader).stream().len() && final(self).sunk()
                    == old(self).sunk() + old(reader).stream() && final(reader).stream().len()
                    == 0)
            }),
    {
        if self.capacity() == 0 {
            return crate::copy::stack_buffer_copy(reader, self);
        }
        let mut len: u64 = 0;
        let mut fuel: u64 = RETRY_LIMIT;
        loop
            invariant
                self.sunk().take(old(self).sunk().len() as int) == old(self).sunk(),
                self.sunk().len() == old(self).sunk().len() + len,
                self.spec_capacity() == old(self).spec_capacity(),
                self.spec_capacity() >= 1,
                old(reader).models_stream() ==> ({
                    &&& reader.models_stream()
                    &&& len <= old(reader).stream().len()
                    &&& self.sunk() == old(self).sunk() + old(reader).stream().take(len as int)
                    &&& reader.stream() == old(reader).stream().skip(len as int)
                }),
            decreases u64::MAX - len, self.buffered().len(), fuel,
        {
            let spare = self.spare_capacity();
            if spare == 0 {
                match self.flush_buf() {
                    Ok(_) => (),
                    Err(e) => {
                        proof {
                            crate::rw::lemma_split_glue(old(self).sunk());
                            assert(self.sunk().take(old(self).sunk().len() as int) =~= old(
                                self,
                            ).sunk());
                        }
                        return Err(e);
                    },
                }
                proof {
                    assert(self.sunk().take(old(self).sunk().len() as int) =~= old(self).sunk());
                    if old(reader).models_stream() {
                        assert(self.sunk() =~= old(self).sunk() + old(reader).stream().take(
                            len as int,
                        ));
                    }
                }
                continue ;
            }
            let mut tmp: Vec<u8> = vec![0u8; spare];
            match reader.read(&mut tmp) {
                Ok(0) => {
                    proof {
                        if old(reader).models_stream() {
                            assert(old(reader).stream().take(len as int) =~= old(reader).stream());
                        }
                    }
                    return Ok(len);
                },
                Ok(n) => {
                    let chunk = vstd::slice::slice_subrange(tmp.as_slice(), 0, n);
                    let taken = self.write_to_buf(chunk);
                    proof {
                        assert(self.sunk().take(old(self).sunk().len() as int) =~= old(
                            self,
                        ).sunk());
                        if old(reader).models_stream() {
                            assert(taken == n);
                            assert(chunk@.take(taken as int) =~= chunk@);
                            assert(chunk@ =~= old(reader).stream().skip(len as int).take(n as int));
                            assert(old(self).sunk() + old(reader).stream().take(len as int)
                                + chunk@ =~= old(self).sunk() + old(reader).stream().take(
                                len + n,
                            ));
                            assert(self.sunk() =~= old(self).sunk() + old(reader).stream().take(
                                len + n,
                            ));
                            assert(reader.stream() =~= old(reader).stream().skip(len + n));
                        }
                    }
                    len = match len.checked_add(taken as u64) {
                        Some(t) => t,
                        None => {
                            return Err(
                                Error::new_simple_message(
                                    crate::error::SimpleMessage {
                                        kind: crate::error::ErrorKind::Other,
                                        message: "copied byte count overflows",
                                    },
                                ),
                            );
                        },
                    };
                    fuel = RETRY_LIMIT;
                },
                Err(e) => {
                    if !e.is_interrupted() || fuel == 0 {
                        return Err(e);
                    }
                    fuel = fuel - 1;
                },
            }
        }
    }

    /// Drain the buffer, then hand the sink back; on failure the writer
    /// comes back intact inside the error.
    pub fn into_inner(self) -> (r: Result<W, IntoInnerError<BufWriter<W>>>)
        ensures
            match r {
                Ok(w) => w.sunk() == self.spec_inner().sunk() + self.buffered(),
                Err(e) => e.0.sunk() == self.sunk() && e.0.spec_capacity() == self.spec_capacity()
                    && (exists|k: int|
                    0 <= k <= self.buffered().len() && e.0.buffered() == self.buffered().skip(k)),
            },
    {
        let mut this = self;
        match this.flush_buf() {
            Err(e) => {
                proof {
                    crate::rw::lemma_split_glue(self.buffered());
                }
                Err(IntoInnerError::new(this, e))
            },
            Ok(_) => Ok(this.into_parts().0),
        }
    }

    /// The slow path of `write`: flush if the incoming bytes do not fit,
    /// then either hand them to the sink whole — a write at least as large
    /// as the whole buffer gains nothing from batching — or buffer them.
    fn write_cold(&mut self, buf: &[u8]) -> (r: Result<usize, Error>)
        ensures
            buf@.len() < old(self).spec_capacity() ==> (r matches Ok(n) ==> n == buf@.len()),
            buf@.len() >= old(self).spec_capacity() && old(self).spec_capacity() >= 1 ==> (
            r is Ok ==> final(self).buffered() == Seq::<u8>::empty()),
            match r {
                Ok(n) => n <= buf@.len() && final(self).sunk() == old(self).sunk() + buf@.take(
                    n as int,
                ),
                Err(_) => final(self).sunk() == old(self).sunk(),
            },
            r matches Ok(n) ==> (final(self).buffered() == old(self).buffered() + buf@.take(
                n as int,
            ) || final(self).buffered() == buf@.take(n as int) || final(self).buffered()
                == Seq::<u8>::empty()),
            r is Err ==> (exists|k: int|
                0 <= k <= old(self).buffered().len() && final(self).buffered() == old(self).buffered().skip(k)),
            final(self).spec_capacity() == old(self).spec_capacity(),
            old(self).buffered().len() + buf@.len() <= old(self).spec_capacity() && buf@.len()
                < old(self).spec_capacity() ==> ({
                &&& r == Ok::<usize, Error>(buf@.len() as usize)
                &&& final(self).spec_inner() == old(self).spec_inner()
                &&& final(self).buffered() == old(self).buffered() + buf@
            }),
    {
        let mut flushed_all = false;
        if buf.len() > self.spare_capacity() {
            match self.flush_buf() {
                Ok(_) => {
                    flushed_all = true;
                },
                Err(e) => {
                    proof {
                        crate::rw::lemma_split_glue(old(self).buffered());
                    }
                    return Err(e);
                },
            }
        }
        if buf.len() >= self.cap {
            self.panicked = true;
            let r = self.inner.write(buf);
            self.panicked = false;
            proof {
                crate::rw::lemma_split_glue(old(self).buffered());
                assert(buf@.take(0) =~= Seq::<u8>::empty());
                assert(old(self).buffered().skip(0) =~= old(self).buffered());
                if flushed_all {
                    assert(self.buffered() == old(self).buffered().skip(
                        old(self).buffered().len() as int,
                    ));
                } else {
                    if old(self).buffered().len() != 0 {
                        assert(buf@.len() == 0);
                        assert(self.buffered() =~= old(self).buffered() + buf@.take(0));
                    } else {
                        assert(self.buffered() =~= Seq::<u8>::empty());
                    }
                }
                assert(self.buffered().len() == 0 ==> self.buffered() =~= Seq::<u8>::empty());
                if flushed_all {
                    assert(self.buffered() =~= Seq::<u8>::empty());
                }
            }
            r
        } else {
            let n = self.write_to_buf(buf);
            proof {
                assert(buf@.take(buf@.len() as int) =~= buf@);
                crate::rw::lemma_split_glue(old(self).buffered());
            }
            Ok(n)
        }
    }

    /// Hand bytes straight to the sink, leaving the buffer untouched; the
    /// line writer uses this for complete lines.
    pub(crate) fn write_to_inner(&mut self, buf: &[u8]) -> (r: Result<usize, Error>)
        ensures
            final(self).buffered() == old(self).buffered(),
            final(self).spec_capacity() == old(self).spec_capacity(),
            match r {
                Ok(n) => n <= buf@.len() && final(self).spec_inner().sunk() == old(self).spec_inner().sunk() + buf@.take(n as int),
                Err(_) => final(self).spec_inner().sunk() == old(self).spec_inner().sunk(),
            },
    {
        self.panicked = true;
        let r = self.inner.write(buf);
        self.panicked = false;
        r
    }

    /// Hand all the bytes straight to the sink, leaving the buffer
    /// untouched.
    pub(crate) fn write_all_to_inner(&mut self, buf: &[u8]) -> (r: Result<(), Error>)
        ensures
            final(self).buffered() == old(self).buffered(),
            final(self).spec_capacity() == old(self).spec_capacity(),
            match r {
                Ok(_) => final(self).spec_inner().sunk() == old(self).spec_inner().sunk() + buf@,
                Err(_) => (exists|k: int|
                    0 <= k <= buf@.len() && final(self).spec_inner().sunk() == old(self).spec_inner().sunk() + buf@.take(k)),
            },
    {
        self.panicked = true;
        let r = self.inner.write_all(buf);
        self.panicked = false;
        r
    }

    /// The slow path of `write_all`: like `write_cold`, but the sink is
    /// asked for all of it.
    fn write_all_cold(&mut self, buf: &[u8]) -> (r: Result<(), Error>)
        ensures
            buf@.len() >= old(self).spec_capacity() && old(self).spec_capacity() >= 1 ==> (
            r is Ok ==> final(self).buffered() == Seq::<u8>::empty()),
            match r {
                Ok(_) => final(self).sunk() == old(self).sunk() + buf@,
                Err(_) => (exists|k: int|
                    0 <= k <= buf@.len() && final(self).sunk() == old(self).sunk() + buf@.take(k)),
            },
            r is Ok ==> (final(self).buffered() == old(self).buffered() + buf@ || final(self).buffered() == buf@ || final(self).buffered() == Seq::<u8>::empty()),
            r is Err ==> (exists|k: int|
                0 <= k <= old(self).buffered().len() && final(self).buffered() == old(self).buffered().skip(k)),
            final(self).spec_capacity() == old(self).spec_capacity(),
            old(self).buffered().len() + buf@.len() <= old(self).spec_capacity() && buf@.len()
                < old(self).spec_capacity() ==> ({
                &&& r is Ok
                &&& final(self).spec_inner() == old(self).spec_inner()
                &&& final(self).buffered() == old(self).buffered() + buf@
            }),
    {
        let mut flushed_all = false;
        if buf.len() > self.spare_capacity() {
            match self.flush_buf() {
                Ok(_) => {
                    flushed_all = true;
                },
                Err(e) => {
                    proof {
                        crate::rw::lemma_split_glue(old(self).buffered());
                        assert(buf@.take(0) =~= Seq::<u8>::empty());
                        assert(old(self).sunk() + buf@.take(0) =~= old(self).sunk());
                    }
                    return Err(e);
                },
            }
        }
        if buf.len() >= self.cap {
            self.panicked = true;
            let r = self.inner.write_all(buf);
            self.panicked = false;
            proof {
                crate::rw::lemma_split_glue(old(self).buffered());
                assert(buf@.take(0) =~= Seq::<u8>::empty());
                assert(old(self).buffered().skip(0) =~= old(self).buffered());
                if flushed_all {
                    assert(self.buffered() == old(self).buffered().skip(
                        old(self).buffered().len() as int,
                    ));
                } else {
                    if old(self).buffered().len() != 0 {
                        assert(buf@.len() == 0);
                        assert(self.buffered() =~= old(self).buffered() + buf@.take(0));
                    } else {
                        assert(self.buffered() =~= Seq::<u8>::empty());
                    }
                }
                assert(self.buffered().len() == 0 ==> self.buffered() =~= Seq::<u8>::empty());
                if flushed_all {
                    assert(self.buffered() =~= Seq::<u8>::empty());
                }
            }
            r
        } else {
            let n = self.write_to_buf(buf);
            proof {
                assert(buf@.take(buf@.len() as int) =~= buf@);
                crate::rw::lemma_split_glue(old(self).buffered());
            }
            Ok(())
        }
    }
}

/// Law: writes whose sizes fit the spare room leave the sink untouched.
/// One fitting write keeps the wrapped sink as it was and only appends to
/// the buffer; this is the step that lets any run of writes whose
/// cumulative size stays within the capacity compose to the same — no
/// flush to the sink until the capacity is exceeded or one is asked for.
pub proof fn lemma_fitting_writes_stay_buffered<W: Write>(
    first: BufWriter<W>,
    second: BufWriter<W>,
    third: BufWriter<W>,
    a: Seq<u8>,
    b: Seq<u8>,
)
    requires
        second.spec_inner() == first.spec_inner(),
        second.buffered() == first.buffered() + a,
        third.spec_inner() == second.spec_inner(),
        third.buffered() == second.buffered() + b,
    ensures
        third.spec_inner() == first.spec_inner(),
        third.buffered() == first.buffered() + (a + b),
{
    assert(first.buffered() + a + b =~= first.buffered() + (a + b));
}

/// Law: a write followed by a flush delivers exactly the written bytes.
/// `write_all`'s contract grows the writer's joint view — the sink's
/// history plus the buffered bytes — by exactly the input, and `flush`'s
/// contract hands the sink precisely that joint view. Composed, the sink
/// ends holding everything it had, everything that was buffered, and the
/// written bytes, in order, with nothing lost or duplicated.
pub proof fn lemma_write_then_flush_round_trip<W: Write>(
    before: BufWriter<W>,
    after_write: BufWriter<W>,
    after_flush: BufWriter<W>,
    data: Seq<u8>,
)
    requires
        after_write.sunk() == before.sunk() + data,
        after_flush.spec_inner().sunk() == after_write.spec_inner().sunk()
            + after_write.buffered(),
        after_flush.buffered() == Seq::<u8>::empty(),
    ensures
        after_flush.sunk() == before.spec_inner().sunk() + before.buffered() + data,
        after_flush.spec_inner().sunk() == before.sunk() + data,
{
    assert(after_flush.sunk() =~= after_flush.spec_inner().sunk());
    assert(before.spec_inner().sunk() + before.buffered() + data =~= before.sunk() + data);
}

impl<W: Write> Write for BufWriter<W> {
    /// The sink's history plus the buffered bytes: nothing ever falls
    /// between the two.
    open spec fn sunk(&self) -> Seq<u8> {
        self.spec_inner().sunk() + self.buffered()
    }

    /// A write the buffer can take in full leaves the sink untouched: no
    /// flush happens until the capacity is exceeded. A write at least as
    /// large as the whole buffer, once nothing is buffered ahead of it,
    /// goes to the sink directly.
    fn write(&mut self, buf: &[u8]) -> (r: Result<usize, Error>)
        ensures
            final(self).spec_capacity() == old(self).spec_capacity(),
            buf@.len() < old(self).spec_capacity() ==> (r matches Ok(n) ==> n == buf@.len()),
            buf@.len() >= old(self).spec_capacity() && old(self).spec_capacity() >= 1 ==> (
            r is Ok ==> final(self).buffered() == Seq::<u8>::empty()),
            r matches Ok(n) ==> (final(self).buffered() == old(self).buffered() + buf@.take(
                n as int,
            ) || final(self).buffered() == buf@.take(n as int) || final(self).buffered()
                == Seq::<u8>::empty()),
            r is Err ==> (exists|k: int|
                0 <= k <= old(self).buffered().len() && final(self).buffered() == old(self).buffered().skip(k)),
            old(self).buffered().len() + buf@.len() <= old(self).spec_capacity() && buf@.len()
                < old(self).spec_capacity() ==> ({
                &&& r == Ok::<usize, Error>(buf@.len() as usize)
                &&& final(self).spec_inner() == old(self).spec_inner()
                &&& final(self).buffered() == old(self).buffered() + buf@
            }),
    {
        if buf.len() < self.spare_capacity() {
            let n = self.write_to_buf(buf);
            proof {
                assert(buf@.take(buf@.len() as int) =~= buf@);
            }
            Ok(n)
        } else {
            self.write_cold(buf)
        }
    }

    /// Like `write`, with all of the bytes owed.
    fn write_all(&mut self, buf: &[u8]) -> (r: Result<(), Error>)
        ensures
            final(self).spec_capacity() == old(self).spec_capacity(),
            buf@.len() >= old(self).spec_capacity() && old(self).spec_capacity() >= 1 ==> (
            r is Ok ==> final(self).buffered() == Seq::<u8>::empty()),
            r is Ok ==> (final(self).buffered() == old(self).buffered() + buf@ || final(self).buffered() == buf@ || final(self).buffered() == Seq::<u8>::empty()),
            r is Err ==> (exists|k: int|
                0 <= k <= old(self).buffered().len() && final(self).buffered() == old(self).buffered().skip(k)),
            old(self).buffered().len() + buf@.len() <= old(self).spec_capacity() && buf@.len()
                < old(self).spec_capacity() ==> ({
                &&& r is Ok
                &&& final(self).spec_inner() == old(self).spec_inner()
                &&& final(self).buffered() == old(self).buffered() + buf@
            }),
    {
        if buf.len() < self.spare_capacity() {
            let n = self.write_to_buf(buf);
            proof {
                assert(buf@.take(buf@.len() as int) =~= buf@);
            }
            Ok(())
        } else {
            self.write_all_cold(buf)
        }
    }

    /// Drain the buffer to the sink, then flush the sink itself: on
    /// success the sink has accepted every byte ever written here.
    fn flush(&mut self) -> (r: Result<(), Error>)
        ensures
            final(self).spec_capacity() == old(self).spec_capacity(),
            r is Ok ==> final(self).spec_inner().sunk() == old(self).spec_inner().sunk() + old(self).buffered() && final(self).buffered() == Seq::<u8>::empty(),
            r is Err ==> (exists|k: int|
                0 <= k <= old(self).buffered().len() && final(self).buffered() == old(self).buffered().skip(k)),
    {
        match self.flush_buf() {
            Ok(_) => (),
            Err(e) => {
                proof {
                    crate::rw::lemma_split_glue(old(self).buffered());
                }
                return Err(e);
            },
        }
        match self.inner.flush() {
            Ok(_) => Ok(()),
            Err(e) => {
                proof {
                    assert(self.buffered() =~= old(self).buffered().skip(
                        old(self).buffered().len() as int,
                    ));
                }
                Err(e)
            },
        }
    }
}

impl<W: Write + Seek> Seek for BufWriter<W> {
    /// Seeking drains the buffer first, so the sink sees every byte in
    /// order before its position moves. What the sink's own history then
    /// looks like is the sink's affair: a position move may re-aim it (a
    /// block-backed sink overwrites from the new position), so no clause
    /// relates it across the seek.
    fn seek(&mut self, pos: SeekFrom) -> (r: Result<u64, Error>)
        ensures
            final(self).spec_capacity() == old(self).spec_capacity(),
            r is Ok ==> final(self).buffered() == Seq::<u8>::empty(),
    {
        match self.flush_buf() {
            Ok(_) => (),
            Err(e) => {
                return Err(e);
            },
        }
        self.inner.seek(pos)
    }
}

} // verus!
