//! The buffering engine: an owned byte region with a resident window
//! `pos .. filled` of unread bytes and an initialized high-water mark that
//! survives refills, so the region is never re-zeroed.

use vstd::prelude::*;

use crate::borrowed_buf::BorrowedBuf;
use crate::error::Error;
use crate::rw::Read;

verus! {

/// The owned region behind a buffered reader.
pub struct Buffer {
    data: Vec<u8>,
    pos: usize,
    filled: usize,
    initialized: usize,
}

impl Buffer {
    /// The window sits inside the filled prefix, which sits below the
    /// watermark, which sits inside the region.
    #[verifier::type_invariant]
    pub(crate) closed spec fn inv(&self) -> bool {
        self.pos <= self.filled <= self.data@.len() && self.filled <= self.initialized
            <= self.data@.len()
    }

    /// The region size; it never changes.
    pub closed spec fn spec_capacity(&self) -> int {
        self.data@.len() as int
    }

    /// Offset of the next unread byte.
    pub closed spec fn spec_pos(&self) -> int {
        self.pos as int
    }

    /// End of the valid data.
    pub closed spec fn spec_filled(&self) -> int {
        self.filled as int
    }

    /// The initialized high-water mark.
    pub closed spec fn spec_initialized(&self) -> int {
        self.initialized as int
    }

    /// The resident window: valid bytes not yet consumed.
    pub closed spec fn window(&self) -> Seq<u8> {
        self.data@.subrange(self.pos as int, self.filled as int)
    }

    /// The window lies between the markers, whose order the type keeps.
    pub(crate) proof fn lemma_layout(&self)
        requires
            self.inv(),
        ensures
            0 <= self.spec_pos() <= self.spec_filled() <= self.spec_capacity(),
            self.spec_filled() <= self.spec_initialized() <= self.spec_capacity(),
            self.window().len() == self.spec_filled() - self.spec_pos(),
    {
    }

    /// An empty buffer over a region of `capacity` bytes, none of them
    /// counted as initialized yet.
    pub fn with_capacity(capacity: usize) -> (r: Buffer)
        ensures
            r.spec_capacity() == capacity,
            r.spec_pos() == 0,
            r.spec_filled() == 0,
            r.spec_initialized() == 0,
            r.window() == Seq::<u8>::empty(),
    {
        let r = Buffer { data: vec![0u8; capacity], pos: 0, filled: 0, initialized: 0 };
        proof {
            assert(r.window() =~= Seq::<u8>::empty());
        }
        r
    }

    /// The resident window as a slice.
    pub fn buffer(&self) -> (r: &[u8])
        ensures
            r@ == self.window(),
    {
        proof {
            use_type_invariant(&*self);
        }
        vstd::slice::slice_subrange(self.data.as_slice(), self.pos, self.filled)
    }

    pub fn capacity(&self) -> (r: usize)
        ensures
            r == self.spec_capacity(),
    {
        self.data.len()
    }

    pub fn filled(&self) -> (r: usize)
        ensures
            r == self.spec_filled(),
    {
        self.filled
    }

    pub fn pos(&self) -> (r: usize)
        ensures
            r == self.spec_pos(),
    {
        self.pos
    }

    pub fn initialized(&self) -> (r: usize)
        ensures
            r == self.spec_initialized(),
    {
        self.initialized
    }

    /// How many unread bytes are resident.
    pub fn window_len(&self) -> (r: usize)
        ensures
            r == self.window().len(),
    {
        proof {
            use_type_invariant(&*self);
        }
        self.filled - self.pos
    }

    /// Drop the resident window but keep the initialized watermark: the
    /// memory still holds defined values, so a later refill need not zero
    /// it.
    pub fn discard_buffer(&mut self)
        ensures
            final(self).spec_pos() == 0,
            final(self).spec_filled() == 0,
            final(self).spec_initialized() == old(self).spec_initialized(),
            final(self).spec_capacity() == old(self).spec_capacity(),
            final(self).window() == Seq::<u8>::empty(),
    {
        proof {
            use_type_invariant(&*self);
        }
        self.pos = 0;
        self.filled = 0;
        proof {
            assert(self.window() =~= Seq::<u8>::empty());
        }
    }

    /// Mark `amt` window bytes as read; consuming past the end is clamped,
    /// not an error.
    pub fn consume(&mut self, amt: usize)
        ensures
            final(self).spec_pos() == if amt < old(self).window().len() {
                old(self).spec_pos() + amt
            } else {
                old(self).spec_filled()
            },
            final(self).spec_filled() == old(self).spec_filled(),
            final(self).spec_initialized() == old(self).spec_initialized(),
            final(self).spec_capacity() == old(self).spec_capacity(),
            final(self).window() == old(self).window().skip(
                if amt <= old(self).window().len() {
                    amt as int
                } else {
                    old(self).window().len() as int
                },
            ),
    {
        proof {
            use_type_invariant(&*self);
        }
        if amt < self.filled - self.pos {
            self.pos = self.pos + amt;
        } else {
            self.pos = self.filled;
        }
        proof {
            if amt <= old(self).window().len() {
                assert(self.window() =~= old(self).window().skip(amt as int));
            } else {
                assert(self.window() =~= old(self).window().skip(
                    old(self).window().len() as int,
                ));
            }
        }
    }

    /// Serve a read of exactly `amt` bytes from the resident window alone:
    /// the claimed bytes come back and the window moves past them. `None`,
    /// with nothing changed, when fewer than `amt` bytes are resident —
    /// this is the fast path that keeps small reads from touching the
    /// source.
    pub fn consume_with(&mut self, amt: usize) -> (r: Option<Vec<u8>>)
        ensures
            final(self).spec_filled() == old(self).spec_filled(),
            final(self).spec_initialized() == old(self).spec_initialized(),
            final(self).spec_capacity() == old(self).spec_capacity(),
            match r {
                Some(claimed) => {
                    &&& amt <= old(self).window().len()
                    &&& claimed@ == old(self).window().take(amt as int)
                    &&& final(self).spec_pos() == old(self).spec_pos() + amt
                    &&& final(self).window() == old(self).window().skip(amt as int)
                },
                None => amt > old(self).window().len() && *final(self) == *old(self),
            },
    {
        proof {
            use_type_invariant(&*self);
        }
        if amt <= self.filled - self.pos {
            let claimed = vstd::slice::slice_to_vec(
                vstd::slice::slice_subrange(self.data.as_slice(), self.pos, self.pos + amt),
            );
            self.pos = self.pos + amt;
            proof {
                assert(claimed@ =~= old(self).window().take(amt as int));
                assert(self.window() =~= old(self).window().skip(amt as int));
            }
            Some(claimed)
        } else {
            None
        }
    }

    /// Move the window start backwards, saturating at the region start;
    /// lets a small backwards seek stay inside the resident window.
    pub fn unconsume(&mut self, amt: usize)
        ensures
            final(self).spec_pos() == if amt <= old(self).spec_pos() {
                old(self).spec_pos() - amt
            } else {
                0int
            },
            final(self).spec_filled() == old(self).spec_filled(),
            final(self).spec_initialized() == old(self).spec_initialized(),
            final(self).spec_capacity() == old(self).spec_capacity(),
    {
        proof {
            use_type_invariant(&*self);
        }
        if amt <= self.pos {
            self.pos = self.pos - amt;
        } else {
            self.pos = 0;
        }
    }

    /// Refill from `reader` — but only if the window is empty: resident
    /// bytes are never fetched twice, and while any remain the reader is
    /// not touched at all. On a refill the reader writes through a cursor
    /// seeded with the old watermark, and the watermark keeps whatever
    /// high-water mark the refill reached. A reader claiming more bytes
    /// than the cursor has room for cannot arise: every reader proves its
    /// count against the cursor's contract before this buffer trusts it.
    pub fn fill_buf<R: Read>(&mut self, reader: &mut R) -> (r: Result<(), Error>)
        ensures
            final(self).spec_capacity() == old(self).spec_capacity(),
            old(self).spec_pos() < old(self).spec_filled() ==> *final(self) == *old(self)
                && *final(reader) == *old(reader) && r is Ok,
            r is Ok && old(self).spec_pos() >= old(self).spec_filled() ==> final(self).spec_pos()
                == 0 && final(self).spec_initialized() >= old(self).spec_initialized(),
            r is Err ==> final(self).spec_pos() == old(self).spec_pos()
                && final(self).spec_filled() == old(self).spec_filled()
                && final(self).window() == old(self).window(),
            old(reader).models_stream() ==> ({
                &&& final(reader).models_stream()
                &&& (r is Err ==> final(reader).stream() == old(reader).stream())
                &&& (r is Ok && old(self).spec_pos() >= old(self).spec_filled()) ==> ({
                    &&& final(self).window().len() <= old(reader).stream().len()
                    &&& final(self).window() == old(reader).stream().take(
                        final(self).window().len() as int,
                    )
                    &&& final(reader).stream() == old(reader).stream().skip(
                        final(self).window().len() as int,
                    )
                    &&& (final(self).window().len() == 0 && old(self).spec_capacity() > 0
                        ==> old(reader).stream().len() == 0)
                })
            }),
    {
        proof {
            use_type_invariant(&*self);
        }
        if self.pos < self.filled {
            return Ok(());
        }
        let watermark = self.initialized;
        let saved_pos = self.pos;
        let saved_filled = self.filled;
        self.pos = 0;
        self.filled = 0;
        self.initialized = 0;
        let mut data: Vec<u8> = Vec::new();
        core::mem::swap(&mut data, &mut self.data);
        let bb = BorrowedBuf::with_watermark(data, watermark);
        let mut cur = bb.unfilled();
        let res = reader.read_buf(&mut cur);
        let done = cur.finish();
        let done_filled = done.len();
        let done_init = done.init_len();
        let mut data2 = done.into_inner();
        core::mem::swap(&mut data2, &mut self.data);
        match res {
            Ok(_) => {
                self.initialized = done_init;
                self.filled = done_filled;
                proof {
                    if old(reader).models_stream() {
                        assert(self.window() =~= old(reader).stream().take(
                            self.window().len() as int,
                        ));
                    }
                }
                Ok(())
            },
            Err(e) => {
                self.initialized = watermark;
                self.filled = saved_filled;
                self.pos = saved_pos;
                proof {
                    assert(self.window() =~= old(self).window());
                }
                Err(e)
            },
        }
    }
}

} // verus!
