//! A reader that batches many small reads into few large ones.
//!
//! Reads are served from the resident window whenever bytes are there: the
//! wrapped source is touched only when the window is empty. A read at least
//! as large as the whole buffer bypasses it instead of paying for a copy.

use vstd::prelude::*;

use crate::buffer::Buffer;
use crate::error::Error;
use crate::rw::splice;
use crate::rw::BufRead;
use crate::rw::Read;
use crate::rw::Seek;
use crate::rw::SeekFrom;
use crate::rw::DEFAULT_BUF_SIZE;
use crate::rw::RETRY_LIMIT;

verus! {

/// A source wrapped with an owned refill buffer.
pub struct BufReader<R> {
    pub inner: R,
    pub buf: Buffer,
}

impl<R: Read> BufReader<R> {
    /// Wrap `inner` with the default buffer capacity.
    pub fn new(inner: R) -> (r: BufReader<R>)
        ensures
            r.inner == inner,
            r.buf.window().len() == 0,
            r.buf.spec_capacity() == DEFAULT_BUF_SIZE,
    {
        BufReader::with_capacity(DEFAULT_BUF_SIZE, inner)
    }

    /// Wrap `inner` with a buffer of `capacity` bytes.
    pub fn with_capacity(capacity: usize, inner: R) -> (r: BufReader<R>)
        ensures
            r.inner == inner,
            r.buf.window().len() == 0,
            r.buf.spec_capacity() == capacity,
    {
        BufReader { inner, buf: Buffer::with_capacity(capacity) }
    }
}

impl<R> BufReader<R> {
    pub fn get_ref(&self) -> (r: &R)
        ensures
            *r == self.inner,
    {
        &self.inner
    }

    pub fn get_mut(&mut self) -> (r: &mut R) {
        &mut self.inner
    }

    /// The resident window: bytes fetched from the source but not yet
    /// handed out.
    pub fn buffer(&self) -> (r: &[u8])
        ensures
            r@ == self.buf.window(),
    {
        self.buf.buffer()
    }

    pub fn capacity(&self) -> (r: usize)
        ensures
            r == self.buf.spec_capacity(),
    {
        self.buf.capacity()
    }

    pub fn into_inner(self) -> (r: R)
        ensures
            r == self.inner,
    {
        self.inner
    }

    /// The initialized high-water mark of the owned region.
    pub fn initialized(&self) -> (r: usize)
        ensures
            r == self.buf.spec_initialized(),
    {
        self.buf.initialized()
    }

    pub(crate) fn discard_buffer(&mut self)
        ensures
            final(self).inner == old(self).inner,
            final(self).buf.window().len() == 0,
            final(self).buf.spec_capacity() == old(self).buf.spec_capacity(),
    {
        self.buf.discard_buffer()
    }
}

impl<R: Read> Read for BufReader<R> {
    /// The reader models its stream when its source does and the buffer
    /// can hold at least one byte: resident bytes come first, the source's
    /// stream after them.
    open spec fn models_stream(&self) -> bool {
        self.inner.models_stream() && self.buf.spec_capacity() >= 1
    }

    open spec fn stream(&self) -> Seq<u8> {
        self.buf.window() + self.inner.stream()
    }

    /// Resident bytes are served without touching the source; a read at
    /// least as large as the buffer, arriving while the window is empty,
    /// bypasses the buffer entirely.
    fn read(&mut self, buf: &mut Vec<u8>) -> (r: Result<usize, Error>)
        ensures
            final(self).buf.spec_capacity() == old(self).buf.spec_capacity(),
            old(self).buf.window().len() > 0 ==> ({
                let k = if old(buf)@.len() <= old(self).buf.window().len() {
                    old(buf)@.len() as int
                } else {
                    old(self).buf.window().len() as int
                };
                &&& final(self).inner == old(self).inner
                &&& r == Ok::<usize, Error>(k as usize)
                &&& final(buf)@ == old(self).buf.window().take(k) + old(buf)@.skip(k)
                &&& final(self).buf.window() == old(self).buf.window().skip(k)
            }),
    {
        proof {
            use_type_invariant(&self.buf);
            self.buf.lemma_layout();
        }
        if self.buf.pos() == self.buf.filled() && buf.len() >= self.buf.capacity() {
            self.buf.discard_buffer();
            let r = self.inner.read(buf);
            proof {
                if old(self).models_stream() {
                    assert(old(self).stream() =~= old(self).inner.stream());
                    match r {
                        Ok(n) => {
                            assert(buf@.take(n as int) =~= old(self).stream().take(n as int));
                            assert(self.stream() =~= old(self).stream().skip(n as int));
                        },
                        Err(_) => {
                            assert(self.stream() =~= old(self).stream());
                        },
                    }
                }
            }
            return r;
        }
        match self.buf.fill_buf(&mut self.inner) {
            Ok(_) => (),
            Err(e) => {
                proof {
                    if old(self).models_stream() {
                        assert(self.stream() =~= old(self).stream());
                    }
                }
                return Err(e);
            },
        }
        proof {
            if old(self).models_stream() {
                crate::rw::lemma_split_glue(old(self).stream());
                assert(self.buf.window() =~= old(self).stream().take(
                    self.buf.window().len() as int,
                ));
                assert(self.inner.stream() =~= old(self).stream().skip(
                    self.buf.window().len() as int,
                ));
            }
        }
        let window_len = self.buf.window_len();
        let n = if buf.len() <= window_len {
            buf.len()
        } else {
            window_len
        };
        match self.buf.consume_with(n) {
            Some(claimed) => {
                splice(buf, 0, claimed.as_slice(), n);
                proof {
                    if old(self).buf.window().len() > 0 {
                        assert(buf@ =~= old(self).buf.window().take(n as int) + old(buf)@.skip(
                            n as int,
                        ));
                    }
                    if old(self).models_stream() {
                        assert(claimed@ =~= old(self).stream().take(n as int));
                        assert(buf@.take(n as int) =~= old(self).stream().take(n as int));
                        assert(self.stream() =~= old(self).stream().skip(n as int));
                        if n == 0 && old(buf)@.len() > 0 {
                            assert(window_len == 0);
                            assert(old(self).stream().len() == 0);
                        }
                    }
                }
                Ok(n)
            },
            None => {
                proof {
                    assert(false);
                }
                Ok(0)
            },
        }
    }

    /// Like `read`, through a cursor: resident bytes are appended without
    /// touching the source, and a cursor with room for the whole buffer
    /// bypasses it.
    fn read_buf(&mut self, cursor: &mut crate::borrowed_buf::BorrowedCursor) -> (r: Result<
        (),
        Error,
    >)
        ensures
            final(self).buf.spec_capacity() == old(self).buf.spec_capacity(),
            old(self).buf.window().len() > 0 ==> ({
                let k = if old(cursor).spec_capacity() <= old(self).buf.window().len() {
                    old(cursor).spec_capacity()
                } else {
                    old(self).buf.window().len() as int
                };
                &&& r is Ok
                &&& final(self).inner == old(self).inner
                &&& final(cursor).written_seq() == old(cursor).written_seq() + old(self).buf.window().take(k)
                &&& final(self).buf.window() == old(self).buf.window().skip(k)
            }),
    {
        proof {
            use_type_invariant(&self.buf);
            self.buf.lemma_layout();
        }
        if self.buf.pos() == self.buf.filled() && cursor.capacity() >= self.buf.capacity() {
            self.buf.discard_buffer();
            return self.inner.read_buf(cursor);
        }
        match self.buf.fill_buf(&mut self.inner) {
            Ok(_) => (),
            Err(e) => {
                return Err(e);
            },
        }
        let window_len = self.buf.window_len();
        let room = cursor.capacity();
        let n = if room <= window_len {
            room
        } else {
            window_len
        };
        match self.buf.consume_with(n) {
            Some(claimed) => {
                cursor.append(claimed.as_slice());
                proof {
                    assert(cursor.buf.data@.take(old(cursor).buf.filled as int) =~= old(cursor).buf.data@.take(old(cursor).buf.filled as int));
                }
                Ok(())
            },
            None => {
                proof {
                    assert(false);
                }
                Ok(())
            },
        }
    }

    /// Like `read_exact`, through a cursor: a cursor whose room the
    /// resident window covers is filled whole from it, with no source call
    /// at all.
    fn read_buf_exact(&mut self, cursor: &mut crate::borrowed_buf::BorrowedCursor) -> (r: Result<
        (),
        Error,
    >)
        ensures
            final(self).buf.spec_capacity() == old(self).buf.spec_capacity(),
            old(cursor).spec_capacity() <= old(self).buf.window().len() ==> ({
                &&& r is Ok
                &&& final(self).inner == old(self).inner
                &&& final(cursor).written_seq() == old(cursor).written_seq() + old(self).buf.window().take(old(cursor).spec_capacity())
                &&& final(self).buf.window() == old(self).buf.window().skip(
                    old(cursor).spec_capacity(),
                )
            }),
    {
        proof {
            use_type_invariant(&self.buf);
            self.buf.lemma_layout();
        }
        let room = cursor.capacity();
        match self.buf.consume_with(room) {
            Some(claimed) => {
                cursor.append(claimed.as_slice());
                proof {
                    assert(cursor.buf.data@.take(old(cursor).buf.filled as int) =~= old(cursor).buf.data@.take(old(cursor).buf.filled as int));
                }
                return Ok(());
            },
            None => (),
        }
        let mut fuel: u64 = RETRY_LIMIT;
        loop
            invariant
                cursor.wf(),
                cursor.start == old(cursor).start,
                cursor.buf.data@.len() == old(cursor).buf.data@.len(),
                cursor.buf.filled >= old(cursor).buf.filled,
                cursor.buf.data@.take(old(cursor).buf.filled as int) == old(cursor).buf.data@.take(old(cursor).buf.filled as int),
                old(cursor).spec_capacity() > old(self).buf.window().len(),
                self.buf.spec_capacity() == old(self).buf.spec_capacity(),
            decreases cursor.spec_capacity(), fuel,
        {
            if cursor.capacity() == 0 {
                return Ok(());
            }
            let prev = cursor.written();
            match self.read_buf(cursor) {
                Ok(_) => {
                    proof {
                        assert(cursor.buf.data@.take(old(cursor).buf.filled as int) =~= old(cursor).buf.data@.take(old(cursor).buf.filled as int));
                    }
                    if cursor.written() == prev {
                        return Err(Error::read_exact_eof());
                    }
                    fuel = RETRY_LIMIT;
                },
                Err(e) => {
                    proof {
                        assert(cursor.buf.data@.take(old(cursor).buf.filled as int) =~= old(cursor).buf.data@.take(old(cursor).buf.filled as int));
                    }
                    if !e.is_interrupted() || fuel == 0 {
                        return Err(e);
                    }
                    fuel = fuel - 1;
                },
            }
        }
    }

    /// A request no larger than the resident window is served whole from
    /// it, with no source call at all; only a larger one goes to the retry
    /// loop.
    fn read_exact(&mut self, buf: &mut Vec<u8>) -> (r: Result<(), Error>)
        ensures
            final(self).buf.spec_capacity() == old(self).buf.spec_capacity(),
            old(buf)@.len() <= old(self).buf.window().len() ==> ({
                &&& r is Ok
                &&& final(self).inner == old(self).inner
                &&& final(buf)@ == old(self).buf.window().take(old(buf)@.len() as int)
                &&& final(self).buf.window() == old(self).buf.window().skip(
                    old(buf)@.len() as int,
                )
            }),
    {
        proof {
            use_type_invariant(&self.buf);
            self.buf.lemma_layout();
        }
        let total = buf.len();
        match self.buf.consume_with(total) {
            Some(claimed) => {
                splice(buf, 0, claimed.as_slice(), total);
                proof {
                    assert(buf@ =~= old(self).buf.window().take(total as int));
                    if old(self).models_stream() {
                        assert(buf@ =~= old(self).stream().take(total as int));
                        assert(self.stream() =~= old(self).stream().skip(total as int));
                    }
                }
                return Ok(());
            },
            None => (),
        }
        let mut done: usize = 0;
        let mut fuel: u64 = RETRY_LIMIT;
        loop
            invariant
                done <= total,
                total == buf@.len(),
                total == old(buf)@.len(),
                old(buf)@.len() > old(self).buf.window().len(),
                self.buf.spec_capacity() == old(self).buf.spec_capacity(),
                old(self).models_stream() ==> ({
                    &&& self.models_stream()
                    &&& done <= old(self).stream().len()
                    &&& buf@.take(done as int) == old(self).stream().take(done as int)
                    &&& self.stream() == old(self).stream().skip(done as int)
                }),
            decreases total - done, fuel,
        {
            if done >= total {
                proof {
                    if old(self).models_stream() {
                        assert(buf@ =~= buf@.take(total as int));
                    }
                }
                return Ok(());
            }
            let want = total - done;
            let mut tmp: Vec<u8> = vec![0u8; want];
            match self.read(&mut tmp) {
                Ok(0) => {
                    return Err(Error::read_exact_eof());
                },
                Ok(n) => {
                    splice(buf, done, tmp.as_slice(), n);
                    proof {
                        if old(self).models_stream() {
                            assert(buf@.take(done + n) =~= old(self).stream().take(done + n));
                        }
                    }
                    done = done + n;
                    fuel = RETRY_LIMIT;
                },
                Err(e) => {
                    if !e.is_interrupted() || fuel == 0 {
                        return Err(e);
                    }
                    fuel = fuel - 1;
                },
            }
        }
    }

    /// The resident window is drained into `buf` first, then the source
    /// reads the rest directly.
    fn read_to_end(&mut self, buf: &mut Vec<u8>) -> (r: Result<usize, Error>)
        ensures
            final(self).buf.spec_capacity() == old(self).buf.spec_capacity(),
            r matches Ok(n) ==> ({
                &&& n >= old(self).buf.window().len()
                &&& final(buf)@.take(
                    old(buf)@.len() + old(self).buf.window().len() as int,
                ) == old(buf)@ + old(self).buf.window()
                &&& final(self).buf.window().len() == 0
            }),
    {
        let start_len = buf.len();
        let window_len = self.buf.window_len();
        match buf.try_reserve(window_len) {
            Ok(_) => (),
            Err(_) => {
                proof {
                    if old(self).models_stream() {
                        assert(buf@ =~= old(buf)@ + old(self).stream().take(0));
                        assert(self.stream() =~= old(self).stream().skip(0));
                    }
                }
                return Err(Error::new_simple(crate::error::ErrorKind::OutOfMemory));
            },
        }
        match self.buf.consume_with(window_len) {
            Some(claimed) => {
                buf.extend_from_slice(claimed.as_slice());
            },
            None => {
                proof {
                    assert(false);
                }
            },
        }
        self.buf.discard_buffer();
        proof {
            assert(buf@.take(start_len as int) =~= old(buf)@);
            assert(buf@.take(start_len + old(self).buf.window().len() as int) =~= old(buf)@
                + old(self).buf.window());
            if old(self).models_stream() {
                assert(buf@ =~= old(buf)@ + old(self).stream().take(
                    old(self).buf.window().len() as int,
                ));
                assert(self.inner.stream() =~= old(self).stream().skip(
                    old(self).buf.window().len() as int,
                ));
            }
        }
        let drained: Ghost<int> = Ghost(old(self).buf.window().len() as int);
        match self.inner.read_to_end(buf) {
            Ok(_) => (),
            Err(e) => {
                proof {
                    assert(buf@.take(start_len as int) =~= old(buf)@);
                    if old(self).models_stream() {
                        let (j2, k2) = choose|j2: int, k2: int|
                            0 <= j2 <= k2 <= old(self).stream().skip(drained@).len() && buf@
                                == (old(buf)@ + old(self).stream().take(drained@)) + old(
                                self,
                            ).stream().skip(drained@).take(j2) && self.inner.stream() == old(
                                self,
                            ).stream().skip(drained@).skip(k2);
                        assert(old(self).stream().take(drained@) + old(self).stream().skip(
                            drained@,
                        ).take(j2) =~= old(self).stream().take(drained@ + j2));
                        assert(buf@ =~= old(buf)@ + old(self).stream().take(drained@ + j2));
                        assert(self.stream() =~= old(self).stream().skip(drained@ + k2));
                    }
                }
                return Err(e);
            },
        }
        proof {
            assert(buf@.take(start_len as int) =~= old(buf)@);
            if old(self).models_stream() {
                assert(buf@ =~= old(buf)@ + old(self).stream());
                assert(self.stream() =~= Seq::<u8>::empty());
                assert(old(self).stream().len() == drained@ + old(self).stream().skip(
                    drained@,
                ).len());
            }
        }
        Ok(buf.len() - start_len)
    }
}

impl<R: Read> BufRead for BufReader<R> {
    /// The resident window itself.
    open spec fn resident(&self) -> Seq<u8> {
        self.buf.window()
    }

    /// While resident bytes remain, no source call happens at all; the
    /// window handed back is exactly what is resident after at most one
    /// refill.
    fn fill_buf(&mut self) -> (r: Result<Vec<u8>, Error>)
        ensures
            old(self).buf.window().len() > 0 ==> *final(self) == *old(self) && r is Ok,
            final(self).buf.spec_capacity() == old(self).buf.spec_capacity(),
            match r {
                Ok(w) => w@ == final(self).buf.window(),
                Err(_) => true,
            },
    {
        proof {
            use_type_invariant(&self.buf);
            self.buf.lemma_layout();
        }
        match self.buf.fill_buf(&mut self.inner) {
            Ok(_) => (),
            Err(e) => {
                proof {
                    if old(self).models_stream() {
                        assert(self.stream() =~= old(self).stream());
                    }
                }
                return Err(e);
            },
        }
        proof {
            if old(self).models_stream() {
                crate::rw::lemma_split_glue(old(self).stream());
                assert(self.buf.window() =~= old(self).stream().take(
                    self.buf.window().len() as int,
                ));
                assert(self.stream() =~= old(self).stream());
                assert(self.resident() =~= self.stream().take(self.resident().len() as int));
            }
        }
        Ok(vstd::slice::slice_to_vec(self.buf.buffer()))
    }

    fn consume(&mut self, amt: usize)
        ensures
            final(self).inner == old(self).inner,
            final(self).buf.window() == old(self).buf.window().skip(
                if amt <= old(self).buf.window().len() {
                    amt as int
                } else {
                    old(self).buf.window().len() as int
                },
            ),
    {
        proof {
            use_type_invariant(&self.buf);
            self.buf.lemma_layout();
        }
        self.buf.consume(amt);
        proof {
            if old(self).models_stream() {
                let k = if amt <= old(self).resident().len() {
                    amt as int
                } else {
                    old(self).resident().len() as int
                };
                assert(self.stream() =~= old(self).stream().skip(k));
                assert(self.resident() =~= old(self).resident().skip(k));
            }
        }
    }
}

impl<R: Read> BufReader<R> {
    /// Source-buffer-driven copy: whatever each refill stocks is written to
    /// the sink whole and then discarded, so no intermediate scratch buffer
    /// is needed. The sink keeps everything it had and gains exactly the
    /// count returned.
    pub fn copy_to<W: crate::rw::Write>(&mut self, to: &mut W) -> (r: Result<u64, Error>)
        ensures
            final(to).sunk().take(old(to).sunk().len() as int) == old(to).sunk(),
            final(to).sunk().len() >= old(to).sunk().len(),
            r matches Ok(n) ==> final(to).sunk().len() == old(to).sunk().len() + n,
            old(self).models_stream() ==> ({
                &&& final(self).models_stream()
                &&& (r matches Ok(n) ==> n == old(self).stream().len() && final(to).sunk()
                    == old(to).sunk() + old(self).stream() && final(self).stream().len() == 0)
            }),
    {
        let mut len: u64 = 0;
        let mut fuel: u64 = RETRY_LIMIT;
        loop
            invariant
                to.sunk().take(old(to).sunk().len() as int) == old(to).sunk(),
                to.sunk().len() == old(to).sunk().len() + len,
                old(self).models_stream() ==> ({
                    &&& self.models_stream()
                    &&& len <= old(self).stream().len()
                    &&& to.sunk() == old(to).sunk() + old(self).stream().take(len as int)
                    &&& self.stream() == old(self).stream().skip(len as int)
                }),
            decreases u64::MAX - len, fuel,
        {
            let window = match BufRead::fill_buf(self) {
                Ok(w) => w,
                Err(e) => {
                    if e.is_interrupted() && fuel > 0 {
                        fuel = fuel - 1;
                        continue ;
                    }
                    return Err(e);
                },
            };
            let n = window.len();
            if n == 0 {
                proof {
                    if old(self).models_stream() {
                        assert(old(self).stream().take(len as int) =~= old(self).stream());
                    }
                }
                return Ok(len);
            }
            match to.write_all(window.as_slice()) {
                Ok(_) => (),
                Err(e) => {
                    proof {
                        assert(to.sunk().take(old(to).sunk().len() as int) =~= old(to).sunk());
                    }
                    return Err(e);
                },
            }
            proof {
                assert(to.sunk().take(old(to).sunk().len() as int) =~= old(to).sunk());
            }
            BufRead::consume(self, n);
            proof {
                if old(self).models_stream() {
                    assert(to.sunk() =~= old(to).sunk() + old(self).stream().take(len + n));
                    assert(self.stream() =~= old(self).stream().skip(len + n));
                }
            }
            len = match len.checked_add(n as u64) {
                Some(t) => t,
                None => {
                    return Err(
                        Error::new_simple_message(
                            crate::error::SimpleMessage {
                                kind: crate::error::ErrorKind::Other,
                                message: "copied byte count overflows",
                            },
                        ),
                    );
                },
            };
            fuel = RETRY_LIMIT;
        }
    }
}

impl<R: Seek> BufReader<R> {
    /// Move relative to the logical position. A target inside the resident
    /// window is reached by sliding the window, without any source call; a
    /// target outside it falls back to a real seek.
    pub fn seek_relative(&mut self, offset: i64) -> (r: Result<(), Error>)
        ensures
            offset >= 0 && old(self).buf.spec_pos() + offset <= old(self).buf.spec_filled() ==> ({
                &&& r is Ok
                &&& final(self).inner == old(self).inner
                &&& final(self).buf.window() == old(self).buf.window().skip(offset as int)
            }),
            offset < 0 && offset > i64::MIN && -offset <= old(self).buf.spec_pos() ==> ({
                &&& r is Ok
                &&& final(self).inner == old(self).inner
                &&& final(self).buf.spec_pos() == old(self).buf.spec_pos() + offset
            }),
    {
        proof {
            use_type_invariant(&self.buf);
            self.buf.lemma_layout();
        }
        let pos = self.buf.pos() as u64;
        if offset < 0 {
            let mag: u64 = if offset == i64::MIN {
                0x8000_0000_0000_0000u64
            } else {
                (-offset) as u64
            };
            match pos.checked_sub(mag) {
                Some(_) => {
                    self.buf.unconsume(mag as usize);
                    return Ok(());
                },
                None => (),
            }
        } else {
            let remainder = (self.buf.filled() - self.buf.pos()) as u64;
            if (offset as u64) <= remainder {
                self.buf.consume(offset as usize);
                proof {
                    assert(self.buf.window() =~= old(self).buf.window().skip(offset as int));
                }
                return Ok(());
            }
        }
        match Seek::seek(self, SeekFrom::Current(offset)) {
            Ok(_) => Ok(()),
            Err(e) => Err(e),
        }
    }
}

impl<R: Seek> Seek for BufReader<R> {
    /// A seek always abandons the resident window. A relative seek is
    /// measured from the logical position: the source's position minus the
    /// bytes still resident, so the offset handed to the source is the
    /// requested one less that remainder.
    fn seek(&mut self, pos: SeekFrom) -> (r: Result<u64, Error>)
        ensures
            final(self).buf.spec_capacity() == old(self).buf.spec_capacity(),
            r is Ok ==> final(self).buf.window().len() == 0,
            old(self).inner.positioned() ==> ({
                &&& final(self).inner.positioned()
                &&& match r {
                    Ok(p) => p == final(self).inner.position_view() && (match pos {
                        SeekFrom::Start(n) => final(self).inner.position_view() == n,
                        SeekFrom::End(_) => true,
                        SeekFrom::Current(d) => final(self).inner.position_view() == old(self).inner.position_view() - old(self).buf.window().len() + d,
                    }),
                    Err(_) => true,
                }
            }),
    {
        let result: u64;
        match pos {
            SeekFrom::Current(n) => {
                let remainder = self.buf.window_len() as u64;
                match n.checked_sub_unsigned(remainder) {
                    Some(offset) => {
                        result = match self.inner.seek(SeekFrom::Current(offset)) {
                            Ok(v) => v,
                            Err(e) => {
                                return Err(e);
                            },
                        };
                    },
                    None => {
                        let back = match 0i64.checked_sub_unsigned(remainder) {
                            Some(b) => b,
                            None => {
                                return Err(Error::invalid_seek());
                            },
                        };
                        match self.inner.seek(SeekFrom::Current(back)) {
                            Ok(_) => (),
                            Err(e) => {
                                return Err(e);
                            },
                        }
                        self.buf.discard_buffer();
                        result = match self.inner.seek(SeekFrom::Current(n)) {
                            Ok(v) => v,
                            Err(e) => {
                                return Err(e);
                            },
                        };
                    },
                }
            },
            _ => {
                result = match self.inner.seek(pos) {
                    Ok(v) => v,
                    Err(e) => {
                        return Err(e);
                    },
                };
            },
        }
        self.buf.discard_buffer();
        Ok(result)
    }

    /// The logical position: the source's position minus the resident
    /// remainder. Disagreement between the two — a source claiming to
    /// stand before the bytes it already handed over — is a contract
    /// violation and surfaces as an error, never as a wrapped-around
    /// position.
    fn stream_position(&mut self) -> (r: Result<u64, Error>)
        ensures
            final(self).buf == old(self).buf,
            old(self).inner.positioned() ==> ({
                &&& final(self).inner.positioned()
                &&& final(self).inner.position_view() == old(self).inner.position_view()
                &&& (r matches Ok(p) ==> p == old(self).inner.position_view() - old(self).buf.window().len())
            }),
    {
        let remainder = self.buf.window_len() as u64;
        match self.inner.stream_position() {
            Ok(p) => match p.checked_sub(remainder) {
                Some(v) => Ok(v),
                None => Err(Error::invalid_seek()),
            },
            Err(e) => Err(e),
        }
    }

    fn seek_relative(&mut self, offset: i64) -> (r: Result<(), Error>) {
        BufReader::seek_relative(self, offset)
    }
}

} // verus!
