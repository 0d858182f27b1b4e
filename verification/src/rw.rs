//! The capability contracts every source and sink implements: `Read`,
//! `Write`, `Seek` and `BufRead`, with the generic retry helpers built on
//! them.
//!
//! `Write` carries a spec-level history, [`Write::sunk`]: the bytes the sink
//! has accepted so far. Every `write` extends it by exactly the accepted
//! prefix and every error leaves it alone, which is what makes loss-free
//! buffering provable for any sink.

use vstd::prelude::*;
use vstd::string::StringExecFns;

use crate::adapters::Bytes;
use crate::adapters::Lines;
use crate::adapters::Split;
use crate::adapters::Take;
use crate::borrowed_buf::BorrowedCursor;
use crate::error::Error;
use crate::error::ErrorKind;
use crate::error::SimpleMessage;
use crate::memchr::memchr;

verus! {

/// Positions a seek can be measured from.
#[derive(Copy, PartialEq, Eq, Clone, Debug, Structural)]
pub enum SeekFrom {
    Start(u64),
    End(i64),
    Current(i64),
}

/// Relies on `String::from_utf8`: it succeeds exactly on valid UTF-8 and
/// yields the decoded characters.
#[verifier::external_body]
pub(crate) fn string_from_utf8(v: Vec<u8>) -> (r: Option<String>)
    ensures
        match r {
            Some(s) => vstd::utf8::valid_utf8(v@) && s@ == vstd::utf8::decode_utf8(v@),
            None => !vstd::utf8::valid_utf8(v@),
        },
{
    match String::from_utf8(v) {
        Ok(s) => Some(s),
        Err(_) => None,
    }
}

/// Relies on `Vec::capacity`: how much room the vector's block already
/// has. Only the reading strategy looks at it; no contract depends on it.
#[verifier::external_body]
pub(crate) fn vec_capacity(v: &Vec<u8>) -> usize {
    v.capacity()
}

/// The default buffer capacity for general buffering: deliberately larger
/// than the 1024-byte line-buffering default.
pub const DEFAULT_BUF_SIZE: usize = 8192;

/// How much a probe read asks for when the destination has no spare room.
pub(crate) const PROBE_SIZE: usize = 32;

/// How many consecutive interruptions a retry loop absorbs before letting
/// the interruption surface. Interruption is ordinarily invisible to
/// callers; the budget only bounds a source or sink that does nothing but
/// get interrupted.
pub(crate) const RETRY_LIMIT: u64 = 0x1000_0000_0000_0000;

/// Splitting a byte sequence anywhere and gluing the parts gives it back.
pub(crate) proof fn lemma_split_glue(s: Seq<u8>)
    ensures
        forall|k: int| 0 <= k <= s.len() ==> s.take(k) + s.skip(k) =~= s,
{
    assert forall|k: int| 0 <= k <= s.len() implies s.take(k) + s.skip(k) =~= s by {
        assert(s.take(k) + s.skip(k) =~= s);
    }
}

/// Overwrite `dst[at .. at + n]` with the first `n` bytes of `src`.
pub(crate) fn splice(dst: &mut Vec<u8>, at: usize, src: &[u8], n: usize)
    requires
        n <= src@.len(),
        at + n <= old(dst)@.len(),
    ensures
        final(dst)@ == old(dst)@.take(at as int) + src@.take(n as int) + old(dst)@.skip(
            at + n,
        ),
        final(dst)@.len() == old(dst)@.len(),
{
    let mut i: usize = 0;
    let len = dst.len();
    while i < n
        invariant
            0 <= i <= n,
            n <= src@.len(),
            at + n <= len,
            len == dst@.len(),
            forall|j: int|
                0 <= j < len && !(at <= j < at + i) ==> dst@[j] == old(dst)@[j],
            forall|j: int| at <= j < at + i ==> dst@[j] == src@[j - at],
        decreases n - i,
    {
        dst[at + i] = src[i];
        i = i + 1;
    }
    proof {
        assert(dst@ =~= old(dst)@.take(at as int) + src@.take(n as int) + old(dst)@.skip(at + n));
    }
}

/// A source of bytes.
///
/// `read` fills a prefix of the destination and reports its length; it never
/// claims more bytes than the destination holds. What the bytes are is up to
/// the source: concrete sources state that in their own implementations.
pub trait Read: Sized {
    /// Whether this source models the bytes it has left to produce.
    /// A modeling source pins every read to its stream; one that does not
    /// promises only counts and untouched suffixes.
    open spec fn models_stream(&self) -> bool {
        false
    }

    /// The bytes this source has left to produce, when modeled.
    open spec fn stream(&self) -> Seq<u8> {
        Seq::empty()
    }

    /// Pull some bytes into the prefix of `buf`, returning how many. A
    /// modeling source hands out exactly its next bytes, and reports zero
    /// with room to fill only at the end of its stream.
    fn read(&mut self, buf: &mut Vec<u8>) -> (r: Result<usize, Error>)
        ensures
            final(buf)@.len() == old(buf)@.len(),
            match r {
                Ok(n) => n <= old(buf)@.len() && final(buf)@.skip(n as int) == old(buf)@.skip(
                    n as int,
                ),
                Err(_) => final(buf)@ == old(buf)@,
            },
            old(self).models_stream() ==> ({
                &&& final(self).models_stream()
                &&& match r {
                    Ok(n) => {
                        &&& n <= old(self).stream().len()
                        &&& final(buf)@.take(n as int) == old(self).stream().take(n as int)
                        &&& final(self).stream() == old(self).stream().skip(n as int)
                        &&& (n == 0 && old(buf)@.len() > 0 ==> old(self).stream().len() == 0)
                    },
                    Err(_) => final(self).stream() == old(self).stream(),
                }
            }),
    ;

    /// Pull some bytes into the unfilled part of a buffer through its
    /// cursor. The cursor only ever grows, its prefix stays, and the
    /// initialized watermark never goes down.
    fn read_buf(&mut self, cursor: &mut BorrowedCursor) -> (r: Result<(), Error>)
        requires
            old(cursor).wf(),
        ensures
            final(cursor).wf(),
            final(cursor).start == old(cursor).start,
            final(cursor).buf.data@.len() == old(cursor).buf.data@.len(),
            final(cursor).buf.filled >= old(cursor).buf.filled,
            final(cursor).buf.init >= old(cursor).buf.init,
            final(cursor).buf.data@.take(old(cursor).buf.filled as int) == old(cursor).buf.data@.take(old(cursor).buf.filled as int),
            r is Err ==> final(cursor).buf.filled == old(cursor).buf.filled,
            old(self).models_stream() ==> ({
                &&& final(self).models_stream()
                &&& match r {
                    Ok(_) => ({
                        let d = final(cursor).buf.filled - old(cursor).buf.filled;
                        &&& d <= old(self).stream().len()
                        &&& final(cursor).buf.data@.subrange(
                            old(cursor).buf.filled as int,
                            final(cursor).buf.filled as int,
                        ) == old(self).stream().take(d)
                        &&& final(self).stream() == old(self).stream().skip(d)
                        &&& (d == 0 && old(cursor).spec_capacity() > 0 ==> old(self).stream().len() == 0)
                    }),
                    Err(_) => final(self).stream() == old(self).stream(),
                }
            }),
    {
        let room = cursor.capacity();
        let mut tmp: Vec<u8> = vec![0u8; room];
        match self.read(&mut tmp) {
            Ok(n) => {
                cursor.append(vstd::slice::slice_subrange(tmp.as_slice(), 0, n));
                proof {
                    assert(final(cursor).buf.data@.take(old(cursor).buf.filled as int) =~= old(cursor).buf.data@.take(old(cursor).buf.filled as int));
                    if old(self).models_stream() {
                        assert(cursor.buf.data@.subrange(
                            old(cursor).buf.filled as int,
                            cursor.buf.filled as int,
                        ) =~= old(self).stream().take(n as int));
                    }
                }
                Ok(())
            },
            Err(e) => Err(e),
        }
    }

    /// Fill the cursor's whole remaining room, retrying on interruption; a
    /// source that stops producing first is an error.
    fn read_buf_exact(&mut self, cursor: &mut BorrowedCursor) -> (r: Result<(), Error>)
        requires
            old(cursor).wf(),
        ensures
            final(cursor).wf(),
            final(cursor).start == old(cursor).start,
            final(cursor).buf.data@.len() == old(cursor).buf.data@.len(),
            final(cursor).buf.filled >= old(cursor).buf.filled,
            final(cursor).buf.data@.take(old(cursor).buf.filled as int) == old(cursor).buf.data@.take(old(cursor).buf.filled as int),
            r is Ok ==> final(cursor).buf.filled == final(cursor).buf.data@.len(),
    {
        let mut fuel: u64 = RETRY_LIMIT;
        loop
            invariant
                cursor.wf(),
                cursor.start == old(cursor).start,
                cursor.buf.data@.len() == old(cursor).buf.data@.len(),
                cursor.buf.filled >= old(cursor).buf.filled,
                cursor.buf.data@.take(old(cursor).buf.filled as int) == old(cursor).buf.data@.take(old(cursor).buf.filled as int),
            decreases cursor.spec_capacity(), fuel,
        {
            if cursor.capacity() == 0 {
                return Ok(());
            }
            let prev = cursor.written();
            match self.read_buf(cursor) {
                Ok(_) => {
                    proof {
                        assert(cursor.buf.data@.take(old(cursor).buf.filled as int) =~= old(cursor).buf.data@.take(old(cursor).buf.filled as int));
                    }
                    if cursor.written() == prev {
                        return Err(Error::read_exact_eof());
                    }
                    fuel = RETRY_LIMIT;
                },
                Err(e) => {
                    proof {
                        assert(cursor.buf.data@.take(old(cursor).buf.filled as int) =~= old(cursor).buf.data@.take(old(cursor).buf.filled as int));
                    }
                    if !e.is_interrupted() || fuel == 0 {
                        return Err(e);
                    }
                    fuel = fuel - 1;
                },
            }
        }
    }

    /// Fill all of `buf`, retrying on interruption; end of input first is an
    /// error.
    fn read_exact(&mut self, buf: &mut Vec<u8>) -> (r: Result<(), Error>)
        ensures
            final(buf)@.len() == old(buf)@.len(),
            old(self).models_stream() ==> ({
                &&& final(self).models_stream()
                &&& match r {
                    Ok(_) => old(buf)@.len() <= old(self).stream().len() && final(buf)@ == old(self).stream().take(old(buf)@.len() as int) && final(self).stream() == old(self).stream().skip(old(buf)@.len() as int),
                    Err(_) => (exists|k: int|
                        0 <= k <= old(self).stream().len() && final(self).stream() == old(self).stream().skip(k)),
                }
            }),
    {
        let total = buf.len();
        let mut done: usize = 0;
        let mut fuel: u64 = RETRY_LIMIT;
        loop
            invariant
                done <= total,
                total == buf@.len(),
                total == old(buf)@.len(),
                old(self).models_stream() ==> ({
                    &&& self.models_stream()
                    &&& done <= old(self).stream().len()
                    &&& buf@.take(done as int) == old(self).stream().take(done as int)
                    &&& self.stream() == old(self).stream().skip(done as int)
                }),
            decreases total - done, fuel,
        {
            if done >= total {
                proof {
                    if old(self).models_stream() {
                        assert(buf@ =~= buf@.take(total as int));
                    }
                }
                return Ok(());
            }
            let want = total - done;
            let mut tmp: Vec<u8> = vec![0u8; want];
            match self.read(&mut tmp) {
                Ok(0) => {
                    return Err(Error::read_exact_eof());
                },
                Ok(n) => {
                    splice(buf, done, tmp.as_slice(), n);
                    proof {
                        if old(self).models_stream() {
                            assert(buf@.take(done + n) =~= old(self).stream().take(done + n));
                        }
                    }
                    done = done + n;
                    fuel = RETRY_LIMIT;
                },
                Err(e) => {
                    if !e.is_interrupted() || fuel == 0 {
                        return Err(e);
                    }
                    fuel = fuel - 1;
                },
            }
        }
    }

    /// Append everything the source has left to `buf`. Reads go through a
    /// scratch buffer sized to the spare room already allocated in `buf`,
    /// so a destination sized exactly right is not grown.
    fn read_to_end(&mut self, buf: &mut Vec<u8>) -> (r: Result<usize, Error>)
        ensures
            final(buf)@.take(old(buf)@.len() as int) == old(buf)@,
            final(buf)@.len() >= old(buf)@.len(),
            r matches Ok(n) ==> final(buf)@.len() == old(buf)@.len() + n,
            old(self).models_stream() ==> ({
                &&& final(self).models_stream()
                &&& match r {
                    Ok(n) => n == old(self).stream().len() && final(buf)@ == old(buf)@ + old(self).stream() && final(self).stream().len() == 0,
                    Err(_) => (exists|j: int, k: int|
                        0 <= j <= k <= old(self).stream().len() && final(buf)@ == old(buf)@ + old(self).stream().take(j) && final(self).stream() == old(self).stream().skip(k)),
                }
            }),
    {
        let start_len = buf.len();
        let mut done: usize = 0;
        let mut fuel: u64 = RETRY_LIMIT;
        loop
            invariant
                start_len + done == buf@.len(),
                buf@.take(start_len as int) == old(buf)@,
                start_len == old(buf)@.len(),
                old(self).models_stream() ==> ({
                    &&& self.models_stream()
                    &&& done <= old(self).stream().len()
                    &&& buf@.skip(start_len as int) == old(self).stream().take(done as int)
                    &&& self.stream() == old(self).stream().skip(done as int)
                }),
            decreases usize::MAX - done, fuel,
        {
            let room = vec_capacity(buf);
            let held = buf.len();
            let spare = if held <= room {
                room - held
            } else {
                0
            };
            let want = if spare < PROBE_SIZE {
                PROBE_SIZE
            } else {
                spare
            };
            let mut tmp: Vec<u8> = vec![0u8; want];
            match self.read(&mut tmp) {
                Ok(0) => {
                    proof {
                        if old(self).models_stream() {
                            assert(old(self).stream().take(done as int) =~= old(self).stream());
                            assert(buf@ =~= old(buf)@ + old(self).stream());
                        }
                    }
                    return Ok(done);
                },
                Ok(n) => {
                    match buf.try_reserve(n) {
                        Ok(_) => (),
                        Err(_) => {
                            proof {
                                if old(self).models_stream() {
                                    assert(buf@ =~= old(buf)@ + old(self).stream().take(
                                        done as int,
                                    ));
                                    assert(buf@ == old(buf)@ + old(self).stream().take(
                                        done as int,
                                    ));
                                    assert(self.stream() =~= old(self).stream().skip(done + n));
                                }
                            }
                            return Err(Error::new_simple(ErrorKind::OutOfMemory));
                        },
                    }
                    buf.extend_from_slice(vstd::slice::slice_subrange(tmp.as_slice(), 0, n));
                    proof {
                        assert(buf@.take(start_len as int) =~= old(buf)@);
                        if old(self).models_stream() {
                            assert(buf@.skip(start_len as int) =~= old(self).stream().take(
                                done + n,
                            ));
                        }
                    }
                    done = buf.len() - start_len;
                    fuel = RETRY_LIMIT;
                },
                Err(e) => {
                    if !e.is_interrupted() || fuel == 0 {
                        return Err(e);
                    }
                    fuel = fuel - 1;
                },
            }
        }
    }

    /// Append everything the source has left to `buf`, requiring it to be
    /// valid UTF-8; the count returned is in bytes.
    fn read_to_string(&mut self, buf: &mut String) -> (r: Result<usize, Error>)
        ensures
            match r {
                Ok(n) => (exists|bytes: Seq<u8>|
                    {
                        &&& vstd::utf8::valid_utf8(bytes)
                        &&& bytes.len() == n
                        &&& final(buf)@ == old(buf)@ + vstd::utf8::decode_utf8(bytes)
                    }),
                Err(_) => final(buf)@ == old(buf)@,
            },
    {
        let mut bytes: Vec<u8> = Vec::new();
        let n = match self.read_to_end(&mut bytes) {
            Ok(n) => n,
            Err(e) => {
                return Err(e);
            },
        };
        match string_from_utf8(bytes) {
            Some(s) => {
                buf.append(s.as_str());
                Ok(n)
            },
            None => Err(Error::invalid_utf8()),
        }
    }

    /// Limit this source to at most `limit` further bytes.
    fn take(self, limit: u64) -> (r: Take<Self>)
        ensures
            r.inner == self,
            r.limit == limit,
    {
        Take { inner: self, limit }
    }

    /// Walk the source a byte at a time.
    fn bytes(self) -> (r: Bytes<Self>)
        ensures
            r.inner == self,
    {
        Bytes { inner: self }
    }
}

/// One segment of a vectored write: a borrowed block of bytes.
#[derive(Clone, Copy)]
pub struct IoSlice<'a> {
    pub data: &'a [u8],
}

impl<'a> IoSlice<'a> {
    pub fn new(data: &'a [u8]) -> (r: IoSlice<'a>)
        ensures
            r.data == data,
    {
        IoSlice { data }
    }

    pub fn as_slice(&self) -> (r: &'a [u8])
        ensures
            r == self.data,
    {
        self.data
    }

    pub fn len(&self) -> (r: usize)
        ensures
            r == self.data@.len(),
    {
        self.data.len()
    }

    pub fn is_empty(&self) -> (r: bool)
        ensures
            r == (self.data@.len() == 0),
    {
        self.data.len() == 0
    }
}

/// The segments of a vectored write, joined in order.
pub open spec fn joined_slices(bufs: Seq<IoSlice>) -> Seq<u8>
    decreases bufs.len(),
{
    if bufs.len() == 0 {
        Seq::empty()
    } else {
        bufs[0].data@ + joined_slices(bufs.skip(1))
    }
}

/// Empty leading segments add nothing to the joined bytes.
pub(crate) proof fn lemma_joined_skip_empties(bufs: Seq<IoSlice>, idx: int)
    requires
        0 <= idx <= bufs.len(),
        forall|j: int| 0 <= j < idx ==> bufs[j].data@.len() == 0,
    ensures
        joined_slices(bufs) == joined_slices(bufs.skip(idx)),
    decreases idx,
{
    if idx > 0 {
        assert(bufs[0].data@ =~= Seq::<u8>::empty());
        assert(joined_slices(bufs) =~= joined_slices(bufs.skip(1)));
        lemma_joined_skip_empties(bufs.skip(1), idx - 1);
        assert(bufs.skip(1).skip(idx - 1) =~= bufs.skip(idx));
    } else {
        assert(bufs.skip(0) =~= bufs);
    }
}

/// A sink of bytes.
///
/// [`Write::sunk`] is the history of bytes the sink has accepted. A
/// successful `write` extends it by exactly the prefix it accepted, a failed
/// one leaves it alone, and `flush` moves no bytes at all — only down a
/// layer, which this history deliberately does not distinguish.
pub trait Write: Sized {
    /// The bytes this sink has accepted so far. A sink that does not say
    /// what it keeps has an empty history and so can be shown to accept
    /// nothing.
    open spec fn sunk(&self) -> Seq<u8> {
        Seq::empty()
    }

    /// Accept some prefix of `buf`, returning its length.
    fn write(&mut self, buf: &[u8]) -> (r: Result<usize, Error>)
        ensures
            match r {
                Ok(n) => n <= buf@.len() && final(self).sunk() == old(self).sunk() + buf@.take(
                    n as int,
                ),
                Err(_) => final(self).sunk() == old(self).sunk(),
            },
    ;

    /// Write from several segments as one logical operation. With no true
    /// vectored support underneath, the first non-empty segment is written;
    /// what the sink accepts is a prefix of the segments joined in order.
    fn write_vectored(&mut self, bufs: &[IoSlice<'_>]) -> (r: Result<usize, Error>)
        ensures
            match r {
                Ok(n) => n <= joined_slices(bufs@).len() && final(self).sunk() == old(self).sunk()
                    + joined_slices(bufs@).take(n as int),
                Err(_) => final(self).sunk() == old(self).sunk(),
            },
    {
        let len = bufs.len();
        let mut idx: usize = 0;
        while idx < len && bufs[idx].is_empty()
            invariant
                0 <= idx <= len,
                len == bufs@.len(),
                forall|j: int| 0 <= j < idx ==> bufs@[j].data@.len() == 0,
            decreases len - idx,
        {
            idx = idx + 1;
        }
        if idx == len {
            proof {
                lemma_joined_skip_empties(bufs@, len as int);
                assert(bufs@.skip(len as int) =~= Seq::<IoSlice>::empty());
                assert(joined_slices(bufs@).take(0) =~= Seq::<u8>::empty());
                assert(old(self).sunk() + joined_slices(bufs@).take(0) =~= old(self).sunk());
            }
            return Ok(0);
        }
        let r = self.write(bufs[idx].as_slice());
        proof {
            lemma_joined_skip_empties(bufs@, idx as int);
            match r {
                Ok(n) => {
                    assert(joined_slices(bufs@).take(n as int) =~= bufs@[idx as int].data@.take(
                        n as int,
                    ));
                },
                Err(_) => {},
            }
        }
        r
    }

    /// Push everything accepted so far down to the true destination.
    fn flush(&mut self) -> (r: Result<(), Error>)
        ensures
            final(self).sunk() == old(self).sunk(),
    ;

    /// Accept all of `buf`, retrying on interruption; a sink that accepts
    /// zero bytes while bytes are owed is an error.
    fn write_all(&mut self, buf: &[u8]) -> (r: Result<(), Error>)
        ensures
            match r {
                Ok(_) => final(self).sunk() == old(self).sunk() + buf@,
                Err(_) => (exists|k: int|
                    0 <= k <= buf@.len() && final(self).sunk() == old(self).sunk() + buf@.take(k)),
            },
    {
        let total = buf.len();
        let mut done: usize = 0;
        let mut fuel: u64 = RETRY_LIMIT;
        loop
            invariant
                done <= total,
                total == buf@.len(),
                self.sunk() == old(self).sunk() + buf@.take(done as int),
            decreases total - done, fuel,
        {
            if done >= total {
                proof {
                    assert(buf@.take(total as int) =~= buf@);
                }
                return Ok(());
            }
            match self.write(vstd::slice::slice_subrange(buf, done, total)) {
                Ok(n) => {
                    if n == 0 {
                        return Err(Error::write_all_eof());
                    }
                    proof {
                        assert(buf@.take(done as int) + buf@.subrange(
                            done as int,
                            total as int,
                        ).take(n as int) =~= buf@.take(done + n));
                    }
                    done = done + n;
                    fuel = RETRY_LIMIT;
                },
                Err(e) => {
                    if !e.is_interrupted() || fuel == 0 {
                        return Err(e);
                    }
                    fuel = fuel - 1;
                },
            }
        }
    }
}

/// Something with a movable read or write position.
///
/// A seeker may model its absolute position: [`Seek::position_view`] then
/// says where it stands, every successful seek reports exactly that
/// position, and a failed one moves nothing. A seeker that does not model
/// it promises only results, not positions.
pub trait Seek: Sized {
    /// Whether this seeker models its absolute position.
    open spec fn positioned(&self) -> bool {
        false
    }

    /// The absolute position from the start, when modeled.
    open spec fn position_view(&self) -> int {
        0
    }

    /// Move to the given position and report the resulting offset from the
    /// start.
    fn seek(&mut self, pos: SeekFrom) -> (r: Result<u64, Error>)
        ensures
            old(self).positioned() ==> ({
                &&& final(self).positioned()
                &&& match r {
                    Ok(p) => p == final(self).position_view() && (match pos {
                        SeekFrom::Start(n) => final(self).position_view() == n,
                        SeekFrom::End(_) => true,
                        SeekFrom::Current(d) => final(self).position_view() == old(self).position_view() + d,
                    }),
                    Err(_) => final(self).position_view() == old(self).position_view(),
                }
            }),
    ;

    /// Go back to the start.
    fn rewind(&mut self) -> (r: Result<(), Error>)
        ensures
            old(self).positioned() ==> final(self).positioned() && (r is Ok ==> final(self).position_view() == 0),
    {
        match self.seek(SeekFrom::Start(0)) {
            Ok(_) => Ok(()),
            Err(e) => Err(e),
        }
    }

    /// The total stream length, found by seeking to the end and back.
    fn stream_len(&mut self) -> (r: Result<u64, Error>)
        ensures
            old(self).positioned() ==> final(self).positioned() && (r is Ok ==> final(self).position_view() == old(self).position_view()),
    {
        let old_pos = match self.stream_position() {
            Ok(p) => p,
            Err(e) => {
                return Err(e);
            },
        };
        let len = match self.seek(SeekFrom::End(0)) {
            Ok(p) => p,
            Err(e) => {
                return Err(e);
            },
        };
        if old_pos != len {
            match self.seek(SeekFrom::Start(old_pos)) {
                Ok(_) => (),
                Err(e) => {
                    return Err(e);
                },
            }
        }
        Ok(len)
    }

    /// The current offset from the start.
    fn stream_position(&mut self) -> (r: Result<u64, Error>)
        ensures
            old(self).positioned() ==> ({
                &&& final(self).positioned()
                &&& final(self).position_view() == old(self).position_view()
                &&& (r matches Ok(p) ==> p == old(self).position_view())
            }),
    {
        self.seek(SeekFrom::Current(0))
    }

    /// Move relative to the current position.
    fn seek_relative(&mut self, offset: i64) -> (r: Result<(), Error>)
        ensures
            old(self).positioned() ==> final(self).positioned() && (r is Ok ==> final(self).position_view() == old(self).position_view() + offset),
    {
        match self.seek(SeekFrom::Current(offset)) {
            Ok(_) => Ok(()),
            Err(e) => Err(e),
        }
    }
}

/// A source that holds a window of bytes ready for inspection.
///
/// `fill_buf` hands out the resident window; `consume` tells the source how
/// much of it the caller is done with.
pub trait BufRead: Read {
    /// The bytes resident for inspection right now; a prefix of the
    /// stream, when the source models it.
    open spec fn resident(&self) -> Seq<u8> {
        Seq::empty()
    }

    /// The bytes resident right now, fetching more only if none are. A
    /// modeling source hands back exactly its resident prefix, consumes
    /// nothing, and holds back nothing: an empty window means the stream
    /// has ended.
    fn fill_buf(&mut self) -> (r: Result<Vec<u8>, Error>)
        ensures
            old(self).models_stream() ==> ({
                &&& final(self).models_stream()
                &&& match r {
                    Ok(w) => {
                        &&& final(self).stream() == old(self).stream()
                        &&& w@ == final(self).resident()
                        &&& final(self).resident().len() <= final(self).stream().len()
                        &&& final(self).resident() == final(self).stream().take(
                            final(self).resident().len() as int,
                        )
                        &&& (final(self).resident().len() == 0 ==> final(self).stream().len()
                            == 0)
                    },
                    Err(_) => final(self).stream() == old(self).stream(),
                }
            }),
    ;

    /// Mark `amt` bytes of the resident window as used; past the window's
    /// end is clamped.
    fn consume(&mut self, amt: usize)
        ensures
            old(self).models_stream() ==> ({
                let k = if amt <= old(self).resident().len() {
                    amt as int
                } else {
                    old(self).resident().len() as int
                };
                &&& final(self).models_stream()
                &&& final(self).stream() == old(self).stream().skip(k)
                &&& final(self).resident() == old(self).resident().skip(k)
            }),
    ;

    /// Whether any input is left.
    fn has_data_left(&mut self) -> (r: Result<bool, Error>) {
        match self.fill_buf() {
            Ok(w) => Ok(w.len() > 0),
            Err(e) => Err(e),
        }
    }

    /// Append bytes up to and including the first `byte` to `buf`; the
    /// count returned is how many were appended. Everything appended short
    /// of the last byte differs from `byte`.
    fn read_until(&mut self, byte: u8, buf: &mut Vec<u8>) -> (r: Result<usize, Error>)
        ensures
            old(buf)@.is_prefix_of(final(buf)@),
            match r {
                Ok(n) => final(buf)@.len() == old(buf)@.len() + n && (forall|i: int|
                    old(buf)@.len() <= i < final(buf)@.len() - 1 ==> final(buf)@[i] != byte),
                Err(_) => true,
            },
            old(self).models_stream() ==> ({
                &&& final(self).models_stream()
                &&& match r {
                    Ok(n) => {
                        &&& n <= old(self).stream().len()
                        &&& final(buf)@ == old(buf)@ + old(self).stream().take(n as int)
                        &&& final(self).stream() == old(self).stream().skip(n as int)
                        &&& ((n > 0 && old(self).stream()[n - 1] == byte) || final(self).stream().len() == 0)
                    },
                    Err(_) => (exists|k: int|
                        0 <= k <= old(self).stream().len() && final(self).stream() == old(self).stream().skip(k)),
                }
            }),
    {
        let start_len = buf.len();
        let mut done: usize = 0;
        let mut fuel: u64 = RETRY_LIMIT;
        loop
            invariant
                start_len + done == buf@.len(),
                buf@.take(start_len as int) == old(buf)@,
                start_len == old(buf)@.len(),
                forall|i: int| start_len <= i < buf@.len() ==> buf@[i] != byte,
                old(self).models_stream() ==> ({
                    &&& self.models_stream()
                    &&& done <= old(self).stream().len()
                    &&& buf@.skip(start_len as int) == old(self).stream().take(done as int)
                    &&& self.stream() == old(self).stream().skip(done as int)
                }),
            decreases usize::MAX - done, fuel,
        {
            let available = match self.fill_buf() {
                Ok(a) => a,
                Err(e) => {
                    if e.is_interrupted() && fuel > 0 {
                        fuel = fuel - 1;
                        continue ;
                    }
                    return Err(e);
                },
            };
            let avail_len = available.len();
            match memchr(byte, available.as_slice()) {
                Some(i) => {
                    match buf.try_reserve(i + 1) {
                        Ok(_) => (),
                        Err(_) => {
                            return Err(Error::new_simple(ErrorKind::OutOfMemory));
                        },
                    }
                    buf.extend_from_slice(
                        vstd::slice::slice_subrange(available.as_slice(), 0, i + 1),
                    );
                    self.consume(i + 1);
                    proof {
                        assert(buf@.take(start_len as int) =~= old(buf)@);
                        if old(self).models_stream() {
                            let pre = old(self).stream().skip(done as int);
                            assert(available@ =~= pre.take(avail_len as int));
                            assert(available@.take(i + 1) =~= pre.take(i + 1));
                            assert(old(self).stream().take(done as int) + pre.take(i + 1)
                                =~= old(self).stream().take(done + i + 1));
                            assert(buf@.skip(start_len as int) =~= old(self).stream().take(
                                done as int,
                            ) + pre.take(i + 1));
                            assert(buf@ =~= old(buf)@ + old(self).stream().take(done + i + 1));
                            assert(pre.skip(i + 1) =~= old(self).stream().skip(done + i + 1));
                        }
                    }
                    return Ok(buf.len() - start_len);
                },
                None => {
                    let used = available.len();
                    match buf.try_reserve(used) {
                        Ok(_) => (),
                        Err(_) => {
                            return Err(Error::new_simple(ErrorKind::OutOfMemory));
                        },
                    }
                    buf.extend_from_slice(available.as_slice());
                    self.consume(used);
                    proof {
                        assert(buf@.take(start_len as int) =~= old(buf)@);
                        if old(self).models_stream() {
                            assert(buf@.skip(start_len as int) =~= old(self).stream().take(
                                done + used,
                            ));
                            assert(self.stream() =~= old(self).stream().skip(done + used));
                        }
                    }
                    done = buf.len() - start_len;
                    fuel = RETRY_LIMIT;
                    if used == 0 {
                        proof {
                            if old(self).models_stream() {
                                assert(buf@ =~= old(buf)@ + old(self).stream().take(done as int));
                            }
                        }
                        return Ok(done);
                    }
                },
            }
        }
    }

    /// Discard bytes up to and including the first `byte`, returning how
    /// many went. A modeling source drops exactly its next bytes through
    /// the first delimiter, or everything when the delimiter never comes.
    fn skip_until(&mut self, byte: u8) -> (r: Result<usize, Error>)
        ensures
            old(self).models_stream() ==> ({
                &&& final(self).models_stream()
                &&& match r {
                    Ok(n) => {
                        &&& n <= old(self).stream().len()
                        &&& final(self).stream() == old(self).stream().skip(n as int)
                        &&& (forall|i: int| 0 <= i < n - 1 ==> old(self).stream()[i] != byte)
                        &&& ((n > 0 && old(self).stream()[n - 1] == byte) || final(self).stream().len() == 0)
                    },
                    Err(_) => (exists|k: int|
                        0 <= k <= old(self).stream().len() && final(self).stream() == old(self).stream().skip(k)),
                }
            }),
    {
        let mut read: usize = 0;
        let mut fuel: u64 = RETRY_LIMIT;
        loop
            invariant
                old(self).models_stream() ==> ({
                    &&& self.models_stream()
                    &&& read <= old(self).stream().len()
                    &&& self.stream() == old(self).stream().skip(read as int)
                    &&& (forall|i: int| 0 <= i < read ==> old(self).stream()[i] != byte)
                }),
            decreases usize::MAX - read, fuel,
        {
            let available = match self.fill_buf() {
                Ok(a) => a,
                Err(e) => {
                    if e.is_interrupted() && fuel > 0 {
                        fuel = fuel - 1;
                        continue ;
                    }
                    return Err(e);
                },
            };
            let avail_len = available.len();
            let (done, used) = match memchr(byte, available.as_slice()) {
                Some(i) => (true, i + 1),
                None => (false, available.len()),
            };
            self.consume(used);
            proof {
                if old(self).models_stream() {
                    let pre = old(self).stream().skip(read as int);
                    assert(available@ =~= pre.take(avail_len as int));
                    assert(self.stream() =~= old(self).stream().skip(read + used));
                    if done {
                        assert forall|i: int| read <= i < read + used - 1 implies old(
                            self,
                        ).stream()[i] != byte by {
                            assert(old(self).stream()[i] == available@[i - read]);
                        }
                        assert(old(self).stream()[read + used - 1] == available@[used - 1]);
                    } else {
                        assert forall|i: int| read <= i < read + used implies old(
                            self,
                        ).stream()[i] != byte by {
                            assert(old(self).stream()[i] == available@[i - read]);
                        }
                    }
                }
            }
            read = match read.checked_add(used) {
                Some(t) => t,
                None => {
                    return Err(
                        Error::new_simple_message(
                            SimpleMessage {
                                kind: ErrorKind::Other,
                                message: "skipped byte count overflows",
                            },
                        ),
                    );
                },
            };
            fuel = RETRY_LIMIT;
            if done || used == 0 {
                return Ok(read);
            }
        }
    }

    /// Append one line, up to and including the first newline, requiring
    /// valid UTF-8; the count returned is in bytes.
    fn read_line(&mut self, buf: &mut String) -> (r: Result<usize, Error>)
        ensures
            match r {
                Ok(n) => (exists|bytes: Seq<u8>|
                    {
                        &&& vstd::utf8::valid_utf8(bytes)
                        &&& bytes.len() == n
                        &&& final(buf)@ == old(buf)@ + vstd::utf8::decode_utf8(bytes)
                        &&& forall|i: int| 0 <= i < bytes.len() - 1 ==> bytes[i] != 10u8
                    }),
                Err(_) => final(buf)@ == old(buf)@,
            },
            old(self).models_stream() ==> ({
                &&& final(self).models_stream()
                &&& (r matches Ok(n) ==> ({
                    &&& n <= old(self).stream().len()
                    &&& vstd::utf8::valid_utf8(old(self).stream().take(n as int))
                    &&& final(buf)@ == old(buf)@ + vstd::utf8::decode_utf8(
                        old(self).stream().take(n as int),
                    )
                    &&& final(self).stream() == old(self).stream().skip(n as int)
                }))
            }),
    {
        let mut bytes: Vec<u8> = Vec::new();
        let n = match self.read_until(10u8, &mut bytes) {
            Ok(n) => n,
            Err(e) => {
                return Err(e);
            },
        };
        match string_from_utf8(bytes) {
            Some(s) => {
                buf.append(s.as_str());
                Ok(n)
            },
            None => Err(Error::invalid_utf8()),
        }
    }

    /// Walk the input in chunks separated by `byte`.
    fn split(self, byte: u8) -> (r: Split<Self>)
        ensures
            r.buf == self,
            r.delim == byte,
    {
        Split { buf: self, delim: byte }
    }

    /// Walk the input line by line.
    fn lines(self) -> (r: Lines<Self>)
        ensures
            r.buf == self,
    {
        Lines { buf: self }
    }
}

/// Read everything `reader` has left into a fresh string.
pub fn read_to_string<R: Read>(mut reader: R) -> (r: Result<String, Error>)
    ensures
        match r {
            Ok(s) => (exists|bytes: Seq<u8>|
                vstd::utf8::valid_utf8(bytes) && s@ == vstd::utf8::decode_utf8(bytes)),
            Err(_) => true,
        },
{
    let mut buf = String::new();
    match reader.read_to_string(&mut buf) {
        Ok(_) => Ok(buf),
        Err(e) => Err(e),
    }
}

} // verus!
