//! A byte region that tracks, separately, how much of it holds logical data
//! (`filled`) and how much of it is known to hold defined values (`init`).
//!
//! A producer fills the region through a [`BorrowedCursor`], which gives it
//! access to the unfilled suffix only. Advancing the cursor never moves past
//! the initialized watermark, so a consumer of the filled prefix never sees
//! a byte that was not put there on purpose.

use vstd::prelude::*;

verus! {

/// A fixed-size byte region with a filled prefix and an initialized
/// watermark. The watermark only grows: clearing the buffer keeps it, which
/// is what saves re-zeroing the region on every refill.
pub struct BorrowedBuf {
    pub data: Vec<u8>,
    pub filled: usize,
    pub init: usize,
}

impl BorrowedBuf {
    /// The region size, the watermark and the filled prefix stand in order.
    pub open spec fn wf(&self) -> bool {
        self.filled <= self.init <= self.data@.len()
    }

    /// Total region size; it never changes.
    pub open spec fn spec_capacity(&self) -> int {
        self.data@.len() as int
    }

    /// The logically present bytes.
    pub open spec fn filled_seq(&self) -> Seq<u8> {
        self.data@.take(self.filled as int)
    }

    /// Wrap a region whose bytes all hold defined values.
    pub fn new(data: Vec<u8>) -> (r: BorrowedBuf)
        ensures
            r.wf(),
            r.data@ == data@,
            r.filled == 0,
            r.init == data@.len(),
    {
        let init = data.len();
        BorrowedBuf { data, filled: 0, init }
    }

    /// Wrap a region of which only the first `init` bytes are known to hold
    /// defined values. The caller vouches for the watermark; this is the
    /// hand-off point that lets an owner carry the watermark across refills.
    pub fn with_watermark(data: Vec<u8>, init: usize) -> (r: BorrowedBuf)
        requires
            init <= data@.len(),
        ensures
            r.wf(),
            r.data@ == data@,
            r.filled == 0,
            r.init == init,
    {
        BorrowedBuf { data, filled: 0, init }
    }

    pub fn capacity(&self) -> (r: usize)
        ensures
            r == self.spec_capacity(),
    {
        self.data.len()
    }

    pub fn len(&self) -> (r: usize)
        ensures
            r == self.filled,
    {
        self.filled
    }

    pub fn is_empty(&self) -> (r: bool)
        ensures
            r == (self.filled == 0),
    {
        self.filled == 0
    }

    pub fn init_len(&self) -> (r: usize)
        ensures
            r == self.init,
    {
        self.init
    }

    /// The filled prefix as a slice.
    pub fn filled(&self) -> (r: &[u8])
        requires
            self.wf(),
        ensures
            r@ == self.filled_seq(),
    {
        vstd::slice::slice_subrange(self.data.as_slice(), 0, self.filled)
    }

    /// Drop the logical contents but keep the initialized watermark.
    pub fn clear(&mut self)
        ensures
            final(self).data@ == old(self).data@,
            final(self).init == old(self).init,
            final(self).filled == 0,
    {
        self.filled = 0;
    }

    /// Raise the watermark to `n`. The caller vouches that the first `n`
    /// bytes hold defined values; the watermark never goes down.
    pub fn set_init(&mut self, n: usize)
        requires
            n <= old(self).data@.len(),
        ensures
            final(self).data@ == old(self).data@,
            final(self).filled == old(self).filled,
            final(self).init == if n > old(self).init {
                n as int
            } else {
                old(self).init as int
            },
    {
        if n > self.init {
            self.init = n;
        }
    }

    /// A cursor over the unfilled suffix. Exactly one cursor exists at a
    /// time because it takes the buffer with it; [`BorrowedCursor::finish`]
    /// gives the buffer back.
    pub fn unfilled(self) -> (r: BorrowedCursor)
        ensures
            r.buf == self,
            r.start == self.filled,
    {
        let start = self.filled;
        BorrowedCursor { buf: self, start }
    }

    /// Give the region back to its owner.
    pub fn into_inner(self) -> (r: Vec<u8>)
        ensures
            r@ == self.data@,
    {
        self.data
    }
}

/// Exclusive access to the unfilled suffix of a [`BorrowedBuf`]. `start`
/// remembers where the suffix began, so `written` can report how many bytes
/// this cursor put in.
pub struct BorrowedCursor {
    pub buf: BorrowedBuf,
    pub start: usize,
}

impl BorrowedCursor {
    pub open spec fn wf(&self) -> bool {
        self.buf.wf() && self.start <= self.buf.filled
    }

    /// Unfilled room left in the region.
    pub open spec fn spec_capacity(&self) -> int {
        self.buf.spec_capacity() - self.buf.filled
    }

    /// Bytes this cursor has produced so far.
    pub open spec fn written_seq(&self) -> Seq<u8> {
        self.buf.data@.subrange(self.start as int, self.buf.filled as int)
    }

    pub fn capacity(&self) -> (r: usize)
        requires
            self.wf(),
        ensures
            r == self.spec_capacity(),
    {
        self.buf.data.len() - self.buf.filled
    }

    pub fn written(&self) -> (r: usize)
        requires
            self.wf(),
        ensures
            r == self.buf.filled - self.start,
    {
        self.buf.filled - self.start
    }

    /// Count `n` freshly produced bytes as filled. The bytes must lie below
    /// the initialized watermark: advancing into bytes nobody defined is the
    /// contract violation this type exists to rule out.
    pub fn advance(&mut self, n: usize)
        requires
            old(self).wf(),
            old(self).buf.filled + n <= old(self).buf.init,
        ensures
            final(self).wf(),
            final(self).buf.data@ == old(self).buf.data@,
            final(self).buf.init == old(self).buf.init,
            final(self).buf.filled == old(self).buf.filled + n,
            final(self).start == old(self).start,
    {
        self.buf.filled = self.buf.filled + n;
    }

    /// Zero the suffix above the watermark, making every byte of the region
    /// defined, so that advances of any in-range length become legal.
    pub fn ensure_init(&mut self)
        requires
            old(self).wf(),
        ensures
            final(self).wf(),
            final(self).buf.data@ == old(self).buf.data@.take(old(self).buf.init as int)
                + Seq::new(
                (old(self).buf.data@.len() - old(self).buf.init) as nat,
                |i: int| 0u8,
            ),
            final(self).buf.init == old(self).buf.data@.len(),
            final(self).buf.filled == old(self).buf.filled,
            final(self).start == old(self).start,
    {
        let len = self.buf.data.len();
        let mut i = self.buf.init;
        while i < len
            invariant
                old(self).buf.init <= i <= len,
                len == self.buf.data@.len(),
                self.buf.filled == old(self).buf.filled,
                self.buf.init == old(self).buf.init,
                self.start == old(self).start,
                forall|j: int|
                    0 <= j < len && !(old(self).buf.init <= j < i) ==> self.buf.data@[j] == old(self).buf.data@[j],
                forall|j: int| old(self).buf.init <= j < i ==> self.buf.data@[j] == 0u8,
            decreases len - i,
        {
            self.buf.data[i] = 0;
            i = i + 1;
        }
        self.buf.init = len;
        proof {
            assert(self.buf.data@ =~= old(self).buf.data@.take(old(self).buf.init as int)
                + Seq::new((old(self).buf.data@.len() - old(self).buf.init) as nat, |i: int| 0u8));
        }
    }

    /// Raise the watermark by `n` bytes past the filled prefix. The caller
    /// vouches that those bytes hold defined values.
    pub fn set_init(&mut self, n: usize)
        requires
            old(self).wf(),
            old(self).buf.filled + n <= old(self).buf.spec_capacity(),
        ensures
            final(self).wf(),
            final(self).buf.data@ == old(self).buf.data@,
            final(self).buf.filled == old(self).buf.filled,
            final(self).start == old(self).start,
            final(self).buf.init == if old(self).buf.filled + n > old(self).buf.init {
                old(self).buf.filled + n
            } else {
                old(self).buf.init as int
            },
    {
        let cap = self.buf.data.len();
        let target = self.buf.filled + n;
        if target > self.buf.init {
            self.buf.init = target;
        }
    }

    /// Copy a fully defined slice in, raising `filled` and the watermark
    /// together.
    pub fn append(&mut self, s: &[u8])
        requires
            old(self).wf(),
            s@.len() <= old(self).spec_capacity(),
        ensures
            final(self).wf(),
            final(self).start == old(self).start,
            final(self).buf.filled == old(self).buf.filled + s@.len(),
            final(self).buf.data@ == old(self).buf.data@.take(old(self).buf.filled as int) + s@
                + old(self).buf.data@.skip(old(self).buf.filled + s@.len()),
            final(self).buf.init == if old(self).buf.filled + s@.len() > old(self).buf.init {
                old(self).buf.filled + s@.len()
            } else {
                old(self).buf.init as int
            },
            final(self).written_seq() == old(self).written_seq() + s@,
    {
        let base = self.buf.filled;
        let n = s.len();
        let cap = self.buf.data.len();
        let mut i: usize = 0;
        while i < n
            invariant
                0 <= i <= n,
                n == s@.len(),
                base == old(self).buf.filled,
                cap == self.buf.data@.len(),
                base + n <= cap,
                self.buf.filled == old(self).buf.filled,
                self.buf.init == old(self).buf.init,
                self.start == old(self).start,
                forall|j: int|
                    0 <= j < cap && !(base <= j < base + i) ==> self.buf.data@[j] == old(self).buf.data@[j],
                forall|j: int| base <= j < base + i ==> self.buf.data@[j] == s@[j - base],
            decreases n - i,
        {
            self.buf.data[base + i] = s[i];
            i = i + 1;
        }
        self.buf.filled = base + n;
        if self.buf.filled > self.buf.init {
            self.buf.init = self.buf.filled;
        }
        proof {
            assert(self.buf.data@ =~= old(self).buf.data@.take(base as int) + s@ + old(self).buf.data@.skip(base + n));
            assert(self.written_seq() =~= old(self).written_seq() + s@);
        }
    }

    /// Hand the underlying buffer back.
    pub fn finish(self) -> (r: BorrowedBuf)
        ensures
            r == self.buf,
    {
        self.buf
    }
}

} // verus!
