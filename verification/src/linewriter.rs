//! A writer that flushes at line boundaries.
//!
//! Writes are intercepted ahead of an ordinary [`BufWriter`]: everything up
//! to the last newline of an input goes to the sink at once, and only the
//! unterminated remainder is buffered. The buffer therefore never holds a
//! complete line with unrelated bytes accumulating after it: either it has
//! no newline at all, or it ends with one that an error kept from leaving.

use vstd::prelude::*;

use crate::bufwriter::BufWriter;
use crate::bufwriter::IntoInnerError;
use crate::error::Error;
use crate::memchr::memrchr;
use crate::rw::IoSlice;
use crate::rw::Write;

verus! {

/// No newline anywhere in `s`.
pub open spec fn has_no_newline(s: Seq<u8>) -> bool {
    forall|i: int| 0 <= i < s.len() ==> s[i] != 10u8
}

/// The shape a line writer's buffer always has: either no newline at all —
/// an incomplete trailing line — or complete lines ending in a newline,
/// held back only because a sink error interrupted their flush.
pub open spec fn line_clean_seq(s: Seq<u8>) -> bool {
    has_no_newline(s) || (s.len() > 0 && s[s.len() - 1] == 10u8)
}

/// Where the complete lines of `s` end: one past its last newline, or the
/// start when it has none.
pub open spec fn line_prefix_len(s: Seq<u8>) -> int {
    if has_no_newline(s) {
        0
    } else {
        (choose|i: int|
            0 <= i < s.len() && s[i] == 10u8 && (forall|j: int| i < j < s.len() ==> s[j] != 10u8))
            + 1
    }
}

/// The last newline is one of a kind, so finding it pins the prefix.
proof fn lemma_last_newline(s: Seq<u8>, i: int)
    requires
        0 <= i < s.len(),
        s[i] == 10u8,
        forall|j: int| i < j < s.len() ==> s[j] != 10u8,
    ensures
        line_prefix_len(s) == i + 1,
{
    assert(!has_no_newline(s));
    assert(exists|c: int|
        0 <= c < s.len() && s[c] == 10u8 && (forall|j: int| c < j < s.len() ==> s[j] != 10u8));
    let c = choose|c: int|
        0 <= c < s.len() && s[c] == 10u8 && (forall|j: int| c < j < s.len() ==> s[j] != 10u8);
    if c < i {
        assert(s[i] != 10u8);
    }
    if c > i {
        assert(s[c] != 10u8);
    }
}

/// Dropping a prefix keeps the buffer shape: the interior loses bytes only
/// from the front and the last byte stays the last byte.
proof fn lemma_clean_skip(s: Seq<u8>, k: int)
    requires
        0 <= k <= s.len(),
        line_clean_seq(s),
    ensures
        line_clean_seq(s.skip(k)),
{
    if s.skip(k).len() > 0 && !has_no_newline(s) {
        assert(s.skip(k)[s.skip(k).len() - 1] == s[s.len() - 1]);
    }
}

/// A sink wrapped so that buffered output is flushed up to the last
/// newline boundary.
#[derive(Debug)]
pub struct LineWriter<W> {
    inner: BufWriter<W>,
}

impl<W> LineWriter<W> {
    /// The buffered writer doing the byte work.
    pub closed spec fn spec_writer(&self) -> BufWriter<W> {
        self.inner
    }

    /// The behavioral invariant: the buffer holds at most one incomplete
    /// trailing line, unless an interrupted flush left complete lines
    /// ending in a newline.
    pub open spec fn line_clean(&self) -> bool {
        line_clean_seq(self.spec_writer().buffered())
    }

    pub fn get_ref(&self) -> (r: &W)
        ensures
            *r == self.spec_writer().spec_inner(),
    {
        self.inner.get_ref()
    }

    pub fn get_mut(&mut self) -> (r: &mut W) {
        self.inner.get_mut()
    }
}

impl<W: Write> LineWriter<W> {
    /// Wrap `inner` with the default line-buffer capacity.
    pub fn new(inner: W) -> (r: LineWriter<W>)
        ensures
            r.spec_writer().spec_inner() == inner,
            r.spec_writer().buffered() == Seq::<u8>::empty(),
            r.spec_writer().spec_capacity() == 1024,
            r.line_clean(),
    {
        LineWriter::with_capacity(1024, inner)
    }

    /// Wrap `inner` with a line buffer of `capacity` bytes.
    pub fn with_capacity(capacity: usize, inner: W) -> (r: LineWriter<W>)
        ensures
            r.spec_writer().spec_inner() == inner,
            r.spec_writer().buffered() == Seq::<u8>::empty(),
            r.spec_writer().spec_capacity() == capacity,
            r.line_clean(),
    {
        LineWriter { inner: BufWriter::with_capacity(capacity, inner) }
    }

    /// Drain the buffer, then hand the sink back; on failure the writer
    /// comes back intact inside the error.
    pub fn into_inner(self) -> (r: Result<W, IntoInnerError<LineWriter<W>>>)
        ensures
            match r {
                Ok(w) => w.sunk() == self.spec_writer().spec_inner().sunk()
                    + self.spec_writer().buffered(),
                Err(e) => e.0.sunk() == self.sunk() && e.0.spec_writer().spec_capacity()
                    == self.spec_writer().spec_capacity() && (self.line_clean()
                    ==> e.0.line_clean()),
            },
    {
        match self.inner.into_inner() {
            Ok(w) => Ok(w),
            Err(e) => {
                let (err, bw) = e.into_parts();
                proof {
                    if self.line_clean() {
                        let k = choose|k: int|
                            0 <= k <= self.spec_writer().buffered().len() && bw.buffered()
                                == self.spec_writer().buffered().skip(k);
                        lemma_clean_skip(self.spec_writer().buffered(), k);
                    }
                }
                Err(IntoInnerError::new(LineWriter { inner: bw }, err))
            },
        }
    }

    /// Flush only if the buffer ends in a newline: a previous write left
    /// complete lines behind, and they must go out before unterminated
    /// bytes pile up after them.
    fn flush_if_completed_line(&mut self) -> (r: Result<(), Error>)
        ensures
            final(self).spec_writer().spec_capacity() == old(self).spec_writer().spec_capacity(),
            final(self).spec_writer().sunk() == old(self).spec_writer().sunk(),
            old(self).line_clean() ==> final(self).line_clean(),
            old(self).line_clean() && r is Ok ==> has_no_newline(
                final(self).spec_writer().buffered(),
            ),
            (old(self).spec_writer().buffered().len() == 0 || old(
                self,
            ).spec_writer().buffered().last() != 10u8) ==> *final(self) == *old(self) && r is Ok,
    {
        let blen = self.inner.buffer().len();
        if blen == 0 {
            return Ok(());
        }
        let last = self.inner.buffer()[blen - 1];
        if last != 10 {
            return Ok(());
        }
        match self.inner.flush_buf() {
            Ok(_) => {
                proof {
                    crate::rw::lemma_split_glue(old(self).spec_writer().buffered());
                }
                Ok(())
            },
            Err(e) => {
                proof {
                    crate::rw::lemma_split_glue(old(self).spec_writer().buffered());
                    let k = choose|k: int|
                        0 <= k <= old(self).spec_writer().buffered().len()
                            && self.spec_writer().spec_inner().sunk() == old(
                            self,
                        ).spec_writer().spec_inner().sunk() + old(self).spec_writer().buffered().take(k)
                            && self.spec_writer().buffered() == old(
                            self,
                        ).spec_writer().buffered().skip(k);
                    if old(self).line_clean() {
                        lemma_clean_skip(old(self).spec_writer().buffered(), k);
                    }
                }
                Err(e)
            },
        }
    }
}

impl<W: Write> Write for LineWriter<W> {
    /// Everything its buffered writer's sink has accepted, plus what still
    /// waits behind it.
    open spec fn sunk(&self) -> Seq<u8> {
        self.spec_writer().sunk()
    }

    /// Split the input at its last newline: the complete lines go straight
    /// to the sink, only the unterminated remainder is buffered. If the
    /// sink takes the lines only partially, exactly that count is
    /// reported and nothing more is buffered on speculation.
    fn write(&mut self, buf: &[u8]) -> (r: Result<usize, Error>)
        ensures
            old(self).line_clean() ==> final(self).line_clean(),
            final(self).spec_writer().spec_capacity() == old(self).spec_writer().spec_capacity(),
            (has_no_newline(buf@) && has_no_newline(old(self).spec_writer().buffered())
                && old(self).spec_writer().buffered().len() + buf@.len() <= old(
                self,
            ).spec_writer().spec_capacity() && buf@.len() < old(self).spec_writer().spec_capacity())
                ==> ({
                &&& r == Ok::<usize, Error>(buf@.len() as usize)
                &&& final(self).spec_writer().spec_inner() == old(self).spec_writer().spec_inner()
                &&& final(self).spec_writer().buffered() == old(self).spec_writer().buffered()
                    + buf@
            }),
            !has_no_newline(buf@) ==> (match r {
                Ok(n) => ({
                    let plen = line_prefix_len(buf@);
                    &&& (n < plen ==> final(self).spec_writer().buffered() == Seq::<u8>::empty())
                    &&& (n >= plen ==> final(self).spec_writer().buffered() == buf@.subrange(
                        plen,
                        n as int,
                    ))
                    &&& final(self).spec_writer().spec_inner().sunk() == old(
                        self,
                    ).spec_writer().spec_inner().sunk() + old(self).spec_writer().buffered()
                        + buf@.take(
                        if n < plen {
                            n as int
                        } else {
                            plen
                        },
                    )
                }),
                Err(_) => true,
            }),
    {
        let blen = buf.len();
        let newline_idx = match memrchr(10u8, buf) {
            None => {
                match self.flush_if_completed_line() {
                    Ok(_) => (),
                    Err(e) => {
                        return Err(e);
                    },
                }
                let saved: Ghost<Seq<u8>> = Ghost(self.spec_writer().buffered());
                let r = Write::write(&mut self.inner, buf);
                proof {
                    if old(self).line_clean() {
                        if r is Err {
                            let k = choose|k: int|
                                0 <= k <= saved@.len() && self.spec_writer().buffered()
                                    == saved@.skip(k);
                            assert(has_no_newline(self.spec_writer().buffered()));
                        }
                    }
                }
                return r;
            },
            Some(i) => {
                proof {
                    lemma_last_newline(buf@, i as int);
                }
                i + 1
            },
        };
        match self.inner.flush_buf() {
            Ok(_) => (),
            Err(e) => {
                proof {
                    crate::rw::lemma_split_glue(old(self).spec_writer().buffered());
                    if old(self).line_clean() {
                        let k = choose|k: int|
                            0 <= k <= old(self).spec_writer().buffered().len()
                                && self.spec_writer().buffered() == old(
                                self,
                            ).spec_writer().buffered().skip(k);
                        lemma_clean_skip(old(self).spec_writer().buffered(), k);
                    }
                }
                return Err(e);
            },
        }
        let lines = vstd::slice::slice_subrange(buf, 0, newline_idx);
        let flushed = match self.inner.write_to_inner(lines) {
            Ok(n) => n,
            Err(e) => {
                proof {
                    crate::rw::lemma_split_glue(old(self).spec_writer().buffered());
                }
                return Err(e);
            },
        };
        if flushed == 0 {
            proof {
                crate::rw::lemma_split_glue(old(self).spec_writer().buffered());
                assert(lines@.take(0) =~= Seq::<u8>::empty());
                assert(buf@.take(0) =~= Seq::<u8>::empty());
                assert(self.sunk() =~= old(self).sunk() + buf@.take(0));
                assert(self.spec_writer().spec_inner().sunk() =~= old(
                    self,
                ).spec_writer().spec_inner().sunk() + old(self).spec_writer().buffered()
                    + buf@.take(0));
            }
            return Ok(0);
        }
        if flushed >= newline_idx {
            let tail = vstd::slice::slice_subrange(buf, flushed, blen);
            let buffered_amt = self.inner.write_to_buf(tail);
            proof {
                crate::rw::lemma_split_glue(old(self).spec_writer().buffered());
                assert(lines@.take(flushed as int) =~= buf@.take(flushed as int));
                assert(tail@.take(buffered_amt as int) =~= buf@.subrange(
                    flushed as int,
                    flushed + buffered_amt,
                ));
                assert(buf@.take(flushed as int) + buf@.subrange(
                    flushed as int,
                    flushed + buffered_amt,
                ) =~= buf@.take(flushed + buffered_amt));
                assert(self.sunk() =~= old(self).sunk() + buf@.take(flushed + buffered_amt));
                assert(self.spec_writer().buffered() =~= buf@.subrange(
                    newline_idx as int,
                    (flushed + buffered_amt) as int,
                ));
            }
            Ok(flushed + buffered_amt)
        } else {
            proof {
                crate::rw::lemma_split_glue(old(self).spec_writer().buffered());
                assert(lines@.take(flushed as int) =~= buf@.take(flushed as int));
                assert(self.sunk() =~= old(self).sunk() + buf@.take(flushed as int));
                assert(has_no_newline(self.spec_writer().buffered()));
                assert(self.spec_writer().buffered() =~= Seq::<u8>::empty());
            }
            Ok(flushed)
        }
    }

    /// The vectored form writes the first non-empty segment through the
    /// line-splitting `write`: what the sink accepts is a prefix of the
    /// segments joined in order, and the buffer keeps its line shape.
    fn write_vectored(&mut self, bufs: &[IoSlice<'_>]) -> (r: Result<usize, Error>)
        ensures
            old(self).line_clean() ==> final(self).line_clean(),
    {
        let len = bufs.len();
        let mut idx: usize = 0;
        while idx < len && bufs[idx].is_empty()
            invariant
                0 <= idx <= len,
                len == bufs@.len(),
                forall|j: int| 0 <= j < idx ==> bufs@[j].data@.len() == 0,
            decreases len - idx,
        {
            idx = idx + 1;
        }
        if idx == len {
            proof {
                crate::rw::lemma_joined_skip_empties(bufs@, len as int);
                assert(bufs@.skip(len as int) =~= Seq::<IoSlice>::empty());
                assert(crate::rw::joined_slices(bufs@).take(0) =~= Seq::<u8>::empty());
                assert(old(self).sunk() + crate::rw::joined_slices(bufs@).take(0) =~= old(
                    self,
                ).sunk());
            }
            return Ok(0);
        }
        let r = Write::write(self, bufs[idx].as_slice());
        proof {
            crate::rw::lemma_joined_skip_empties(bufs@, idx as int);
            match r {
                Ok(n) => {
                    assert(crate::rw::joined_slices(bufs@).take(n as int)
                        =~= bufs@[idx as int].data@.take(n as int));
                },
                Err(_) => {},
            }
        }
        r
    }

    fn flush(&mut self) -> (r: Result<(), Error>)
        ensures
            old(self).line_clean() ==> final(self).line_clean(),
            r is Ok ==> final(self).spec_writer().buffered() == Seq::<u8>::empty(),
    {
        let r = Write::flush(&mut self.inner);
        proof {
            if old(self).line_clean() && (r is Err) {
                let k = choose|k: int|
                    0 <= k <= old(self).spec_writer().buffered().len()
                        && self.spec_writer().buffered() == old(self).spec_writer().buffered().skip(
                        k,
                    );
                lemma_clean_skip(old(self).spec_writer().buffered(), k);
            }
        }
        r
    }

    /// Split the input at its last newline; the complete lines and then
    /// the remainder are each written in full. On success the buffer holds
    /// no newline at all: no complete line stays behind.
    #[verifier::rlimit(80)]
    fn write_all(&mut self, buf: &[u8]) -> (r: Result<(), Error>)
        ensures
            old(self).line_clean() ==> final(self).line_clean(),
            old(self).line_clean() && r is Ok ==> has_no_newline(
                final(self).spec_writer().buffered(),
            ),
            final(self).spec_writer().spec_capacity() == old(self).spec_writer().spec_capacity(),
            (has_no_newline(buf@) && has_no_newline(old(self).spec_writer().buffered())
                && old(self).spec_writer().buffered().len() + buf@.len() <= old(
                self,
            ).spec_writer().spec_capacity() && buf@.len() < old(self).spec_writer().spec_capacity())
                ==> ({
                &&& r is Ok
                &&& final(self).spec_writer().spec_inner() == old(self).spec_writer().spec_inner()
                &&& final(self).spec_writer().buffered() == old(self).spec_writer().buffered()
                    + buf@
            }),
            !has_no_newline(buf@) ==> (r is Ok ==> (final(self).spec_writer().buffered()
                == buf@.skip(line_prefix_len(buf@)) || final(self).spec_writer().buffered()
                == Seq::<u8>::empty())),
    {
        let blen = buf.len();
        match memrchr(10u8, buf) {
            None => {
                match self.flush_if_completed_line() {
                    Ok(_) => (),
                    Err(e) => {
                        proof {
                            assert(buf@.take(0) =~= Seq::<u8>::empty());
                            assert(self.sunk() =~= old(self).sunk() + buf@.take(0));
                        }
                        return Err(e);
                    },
                }
                let saved: Ghost<Seq<u8>> = Ghost(self.spec_writer().buffered());
                let r = Write::write_all(&mut self.inner, buf);
                proof {
                    if old(self).line_clean() {
                        if r is Err {
                            let k = choose|k: int|
                                0 <= k <= saved@.len() && self.spec_writer().buffered()
                                    == saved@.skip(k);
                            assert(has_no_newline(self.spec_writer().buffered()));
                        }
                    }
                }
                r
            },
            Some(i) => {
                proof {
                    lemma_last_newline(buf@, i as int);
                }
                let newline_idx = i + 1;
                let lines = vstd::slice::slice_subrange(buf, 0, newline_idx);
                if self.inner.buffer().len() == 0 {
                    match self.inner.write_all_to_inner(lines) {
                        Ok(_) => (),
                        Err(e) => {
                            proof {
                                let k = choose|k: int|
                                    0 <= k <= lines@.len()
                                        && self.spec_writer().spec_inner().sunk() == old(
                                        self,
                                    ).spec_writer().spec_inner().sunk() + lines@.take(k);
                                assert(lines@.take(k) =~= buf@.take(k));
                                assert(self.sunk() =~= old(self).sunk() + buf@.take(k));
                            }
                            return Err(e);
                        },
                    }
                } else {
                    match Write::write_all(&mut self.inner, lines) {
                        Ok(_) => (),
                        Err(e) => {
                            proof {
                                let k = choose|k: int|
                                    0 <= k <= lines@.len() && self.spec_writer().sunk() == old(
                                        self,
                                    ).spec_writer().sunk() + lines@.take(k);
                                assert(lines@.take(k) =~= buf@.take(k));
                                assert(self.sunk() =~= old(self).sunk() + buf@.take(k));
                                if old(self).line_clean() {
                                    let j = choose|j: int|
                                        0 <= j <= old(self).spec_writer().buffered().len()
                                            && self.spec_writer().buffered() == old(
                                            self,
                                        ).spec_writer().buffered().skip(j);
                                    lemma_clean_skip(old(self).spec_writer().buffered(), j);
                                }
                            }
                            return Err(e);
                        },
                    }
                    let pre_sunk: Ghost<Seq<u8>> = Ghost(self.sunk());
                    proof {
                        assert(lines@ =~= buf@.take(newline_idx as int));
                        assert(pre_sunk@ =~= old(self).sunk() + buf@.take(newline_idx as int));
                    }
                    let pre_flush: Ghost<Seq<u8>> = Ghost(self.spec_writer().buffered());
                    match self.inner.flush_buf() {
                        Ok(_) => (),
                        Err(e) => {
                            proof {
                                crate::rw::lemma_split_glue(pre_flush@);
                                assert(self.sunk() =~= pre_sunk@);
                                assert(self.sunk() =~= old(self).sunk() + buf@.take(
                                    newline_idx as int,
                                ));
                                let k = choose|k: int|
                                    0 <= k <= pre_flush@.len() && self.spec_writer().buffered()
                                        == pre_flush@.skip(k);
                                if pre_flush@.len() > 0 {
                                    assert(lines@[lines@.len() - 1] == 10u8);
                                    assert(pre_flush@[pre_flush@.len() - 1] == 10u8);
                                }
                                lemma_clean_skip(pre_flush@, k);
                            }
                            return Err(e);
                        },
                    }
                }
                proof {
                    assert(self.sunk() =~= old(self).sunk() + lines@);
                    assert(self.spec_writer().buffered() =~= Seq::<u8>::empty());
                }
                let pre_tail: Ghost<Seq<u8>> = Ghost(self.sunk());
                let tail = vstd::slice::slice_subrange(buf, newline_idx, blen);
                let r = Write::write_all(&mut self.inner, tail);
                proof {
                    let tail_view = buf@.subrange(newline_idx as int, blen as int);
                    assert(lines@ + tail_view =~= buf@);
                    if r is Ok {
                        assert(self.sunk() =~= old(self).sunk() + buf@);
                    } else {
                        let k = choose|k: int|
                            0 <= k <= tail_view.len() && self.sunk() == pre_tail@ + tail_view.take(
                                k,
                            );
                        assert(buf@.take(newline_idx + k) =~= lines@ + tail_view.take(k));
                        assert(self.sunk() =~= old(self).sunk() + buf@.take(newline_idx + k));
                        let k2 = choose|k2: int|
                            0 <= k2 <= Seq::<u8>::empty().len() && final(self).spec_writer().buffered() == Seq::<u8>::empty().skip(k2);
                        assert(final(self).spec_writer().buffered() =~= Seq::<u8>::empty());
                    }
                }
                r
            },
        }
    }
}

} // verus!
