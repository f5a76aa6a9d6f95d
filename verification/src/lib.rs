//! A circle buffer over a fixed, unmoving backing store.
//!
//! The buffer tracks an occupied region by a start offset and a length;
//! the region may wrap around the end of the backing store. Filling and
//! consuming only move the two cursors: the backing bytes never move.
//! The occupied bytes can be viewed as up to two contiguous slices
//! without copying, or as one logically contiguous region with a copy
//! only when the requested range crosses the wrap point.

use vstd::prelude::*;

mod laws;

pub use laws::lemma_canonical_empty;
pub use laws::lemma_capacity_invariant;
pub use laws::lemma_clear_idempotent;
pub use laws::lemma_round_trip;
pub use laws::lemma_zero_capacity;

verus! {

/// The `count` bytes of `b` that begin at offset `from` and wrap around
/// the end of `b`, in logical order: one contiguous run when it fits,
/// otherwise the run up to the end of `b` followed by the run that
/// wrapped to offset 0.
pub open spec fn ring_range(b: Seq<u8>, from: int, count: int) -> Seq<u8>
    recommends
        0 <= from <= b.len(),
        0 <= count,
        from + count <= 2 * b.len(),
{
    if from + count <= b.len() {
        b.subrange(from, from + count)
    } else {
        b.subrange(from, b.len() as int) + b.subrange(0, from + count - b.len())
    }
}

/// A circle buffer based on an unmoving underlying buffer.
///
/// The occupied bytes are the `len` bytes beginning at offset `start`,
/// read modulo the capacity of the backing store.
pub struct CircleBuffer {
    start: usize,
    len: usize,
    buf: Vec<u8>,
}

impl CircleBuffer {
    /// The contents of the backing store, in storage order.
    pub closed spec fn backing(self) -> Seq<u8> {
        self.buf@
    }

    /// The offset of the first occupied byte.
    pub closed spec fn spec_start(self) -> int {
        self.start as int
    }

    /// The number of occupied bytes.
    pub closed spec fn spec_len(self) -> int {
        self.len as int
    }

    /// The fixed size of the backing store.
    pub open spec fn spec_capacity(self) -> int {
        self.backing().len() as int
    }

    /// The cursor invariants: the occupied length never exceeds the
    /// capacity, an empty buffer is canonical (start offset 0), and the
    /// start offset stays inside the backing store.
    pub open spec fn wf(self) -> bool {
        &&& 0 <= self.spec_len() <= self.spec_capacity()
        &&& self.spec_len() == 0 ==> self.spec_start() == 0
        &&& 0 <= self.spec_start()
        &&& self.spec_start() < self.spec_capacity() || self.spec_start() == 0
    }

    /// The occupied bytes in logical order: `spec_len()` bytes starting
    /// at `spec_start()`, wrapping around the end of the backing store.
    pub open spec fn occ(self) -> Seq<u8> {
        ring_range(self.backing(), self.spec_start(), self.spec_len())
    }

    /// The offset right after the occupied region, wrapped into the
    /// backing store: the first offset of the fillable region.
    pub open spec fn fill_from(self) -> int {
        if self.spec_start() + self.spec_len() < self.spec_capacity() {
            self.spec_start() + self.spec_len()
        } else {
            self.spec_start() + self.spec_len() - self.spec_capacity()
        }
    }

    /// The offset right after the fillable region: the wrap point, or
    /// the start of the occupied region when the free space wraps.
    pub open spec fn fill_to(self) -> int {
        if self.fill_from() < self.spec_start() {
            self.spec_start()
        } else {
            self.spec_capacity()
        }
    }

    /// The relation `clear` establishes between the state before and the
    /// state after: empty cursors over an untouched backing store.
    pub open spec fn cleared_state(pre: CircleBuffer, post: CircleBuffer) -> bool {
        &&& post.spec_len() == 0
        &&& post.spec_start() == 0
        &&& post.backing() == pre.backing()
    }

    /// Make a circle buffer backed by a caller-provided buffer.
    pub fn new(buf: Vec<u8>) -> (r: CircleBuffer)
        ensures
            r.wf(),
            r.backing() == buf@,
            r.spec_start() == 0,
            r.spec_len() == 0,
    {
        CircleBuffer { start: 0, len: 0, buf }
    }

    /// Request a heap allocated circle buffer of a certain size.
    pub fn with_size(size: usize) -> (r: CircleBuffer)
        ensures
            r.wf(),
            r.spec_capacity() == size,
            r.backing() == Seq::new(size as nat, |i: int| 0u8),
            r.spec_start() == 0,
            r.spec_len() == 0,
    {
        let buf = vec![0u8; size];
        proof {
            assert(buf@ =~= Seq::new(size as nat, |i: int| 0u8));
        }
        CircleBuffer { start: 0, len: 0, buf }
    }

    /// Request the size of the underlying buffer. Doesn't change for the
    /// life of the circle buffer.
    pub fn size(&self) -> (r: usize)
        ensures
            r == self.spec_capacity(),
    {
        self.buf.len()
    }

    /// The current amount of meaningful data in the buffer. `fill` makes
    /// this go up, `consume` makes it go down.
    pub fn len(&self) -> (r: usize)
        requires
            self.wf(),
        ensures
            r == self.spec_len(),
            r == self.occ().len(),
    {
        self.len
    }

    /// The total amount of free space available for filling.
    pub fn available(&self) -> (r: usize)
        requires
            self.wf(),
        ensures
            r == self.spec_capacity() - self.spec_len(),
    {
        self.buf.len() - self.len
    }

    /// `len() == 0`
    pub fn is_empty(&self) -> (r: bool)
        ensures
            r <==> self.spec_len() == 0,
    {
        self.len == 0
    }

    /// `len() == size()`
    pub fn is_full(&self) -> (r: bool)
        ensures
            r <==> self.spec_len() == self.spec_capacity(),
    {
        self.len == self.buf.len()
    }

    /// Indicate that a certain amount of the buffer, starting right
    /// after the occupied region, has been filled with meaningful
    /// content. The bytes were placed there beforehand, normally by
    /// writing into `get_fillable_area`.
    pub fn fill(&mut self, amt: usize)
        requires
            old(self).wf(),
            old(self).spec_len() + amt <= old(self).spec_capacity(),
        ensures
            final(self).wf(),
            final(self).backing() == old(self).backing(),
            final(self).spec_start() == old(self).spec_start(),
            final(self).spec_len() == old(self).spec_len() + amt,
            final(self).occ() == ring_range(
                old(self).backing(),
                old(self).spec_start(),
                old(self).spec_len() + amt,
            ),
    {
        let cap = self.buf.len();
        assert(self.len + amt <= cap);
        self.len = self.len + amt;
    }

    /// Marks data as consumed. Advances the start cursor by `amt`,
    /// wrapping around the end of the backing store; if this results in
    /// the buffer being empty, moves the start cursor back to 0. Does
    /// not touch the underlying buffer.
    pub fn consume(&mut self, amt: usize)
        requires
            old(self).wf(),
            amt <= old(self).spec_len(),
        ensures
            final(self).wf(),
            final(self).backing() == old(self).backing(),
            final(self).spec_len() == old(self).spec_len() - amt,
            final(self).spec_start() == if old(self).spec_len() == amt {
                0int
            } else if old(self).spec_start() + amt < old(self).spec_capacity() {
                old(self).spec_start() + amt
            } else {
                old(self).spec_start() + amt - old(self).spec_capacity()
            },
            final(self).occ() == old(self).occ().skip(amt as int),
    {
        self.len = self.len - amt;
        if self.len == 0 {
            self.start = 0;
        } else {
            let cap = self.buf.len();
            if cap - self.start > amt {
                self.start = self.start + amt;
            } else {
                self.start = amt - (cap - self.start);
            }
        }
        proof {
            assert(final(self).occ() =~= old(self).occ().skip(amt as int));
        }
    }

    /// Returns the maximum amount of meaningful contiguous data: the
    /// occupied bytes up to the wrap point. Will never incur a copy.
    pub fn view_nocopy(&self) -> (r: &[u8])
        requires
            self.wf(),
        ensures
            r@ == self.occ().take(
                if self.spec_start() + self.spec_len() <= self.spec_capacity() {
                    self.spec_len()
                } else {
                    self.spec_capacity() - self.spec_start()
                },
            ),
            self.spec_start() + self.spec_len() <= self.spec_capacity() ==> r@ == self.occ(),
    {
        let view_end = if self.buf.len() - self.start >= self.len {
            self.start + self.len
        } else {
            self.buf.len()
        };
        let r = vstd::slice::slice_subrange(self.buf.as_slice(), self.start, view_end);
        proof {
            assert(r@ =~= self.occ().take(
                if self.spec_start() + self.spec_len() <= self.spec_capacity() {
                    self.spec_len()
                } else {
                    self.spec_capacity() - self.spec_start()
                },
            ));
        }
        r
    }

    /// View potentially non-contiguous data. Will never incur a copy.
    /// Returns (head, tail): head then tail concatenated are the first
    /// `amt` occupied bytes in logical order, and the tail is non-empty
    /// exactly when the requested range crosses the wrap point.
    pub fn view_parts(&self, amt: usize) -> (r: (&[u8], &[u8]))
        requires
            self.wf(),
            amt <= self.spec_len(),
        ensures
            r.0@ + r.1@ == self.occ().take(amt as int),
            self.spec_start() + amt <= self.spec_capacity() ==> r.0@ == self.backing().subrange(
                self.spec_start(),
                self.spec_start() + amt,
            ) && r.1@.len() == 0,
            self.spec_start() + amt > self.spec_capacity() ==> r.0@ == self.backing().subrange(
                self.spec_start(),
                self.spec_capacity(),
            ) && r.1@ == self.backing().subrange(
                0,
                self.spec_start() + amt - self.spec_capacity(),
            ),
            r.1@.len() > 0 <==> self.spec_start() + amt > self.spec_capacity(),
    {
        let s = self.buf.as_slice();
        if self.buf.len() - self.start >= amt {
            let head = vstd::slice::slice_subrange(s, self.start, self.start + amt);
            let tail = vstd::slice::slice_subrange(s, 0, 0);
            proof {
                assert(head@ + tail@ =~= self.occ().take(amt as int));
            }
            (head, tail)
        } else {
            let head = vstd::slice::slice_subrange(s, self.start, self.buf.len());
            let tail = vstd::slice::slice_subrange(s, 0, amt - (self.buf.len() - self.start));
            proof {
                assert(head@ + tail@ =~= self.occ().take(amt as int));
            }
            (head, tail)
        }
    }

    /// `view_parts` but mutable: head then tail concatenated are the
    /// first `amt` occupied bytes in logical order, as mutable regions
    /// of the backing store. Writes through them that keep each
    /// region's length replace exactly those occupied bytes and leave
    /// the rest of the buffer as it was.
    pub fn view_parts_mut(&mut self, amt: usize) -> (r: (&mut [u8], &mut [u8]))
        requires
            old(self).wf(),
            amt <= old(self).spec_len(),
        ensures
            r.0@ + r.1@ == old(self).occ().take(amt as int),
            final(self).spec_start() == old(self).spec_start(),
            final(self).spec_len() == old(self).spec_len(),
            old(self).spec_start() + amt <= old(self).spec_capacity() ==> r.0@ == old(self).backing().subrange(old(self).spec_start(), old(self).spec_start() + amt)
                && r.1@.len() == 0
                && final(self).backing()
                    == old(self).backing().take(old(self).spec_start())
                        + final(r.0)@
                        + old(self).backing().skip(old(self).spec_start() + amt),
            old(self).spec_start() + amt > old(self).spec_capacity() ==> r.0@ == old(self).backing().subrange(old(self).spec_start(), old(self).spec_capacity())
                && r.1@ == old(self).backing().subrange(
                    0,
                    old(self).spec_start() + amt - old(self).spec_capacity(),
                )
                && final(self).backing()
                    == final(r.1)@
                        + old(self).backing().subrange(
                            old(self).spec_start() + amt - old(self).spec_capacity(),
                            old(self).spec_start(),
                        )
                        + final(r.0)@,
            r.1@.len() > 0 <==> old(self).spec_start() + amt > old(self).spec_capacity(),
            final(r.0)@.len() == r.0@.len() && final(r.1)@.len() == r.1@.len() ==> final(self).wf() && final(self).occ()
                == final(r.0)@ + final(r.1)@ + old(self).occ().skip(amt as int),
    {
        if self.buf.len() - self.start >= amt {
            let view_end = self.start + amt;
            let s = self.buf.as_mut_slice();
            let (left, _after) = s.split_at_mut(view_end);
            let (_before, head) = left.split_at_mut(self.start);
            let tail: &mut [u8] = &mut [];
            proof {
                assert(head@ + tail@ =~= old(self).occ().take(amt as int));
            }
            (head, tail)
        } else {
            let rem = amt - (self.buf.len() - self.start);
            let s = self.buf.as_mut_slice();
            let (left, head) = s.split_at_mut(self.start);
            let (tail, _mid) = left.split_at_mut(rem);
            proof {
                assert(head@ + tail@ =~= old(self).occ().take(amt as int));
            }
            (head, tail)
        }
    }

    /// Returns the next contiguous unused area in the underlying
    /// buffer, as a mutable region the caller writes new bytes into;
    /// returns `None` if the buffer is full. There are potentially two
    /// separate contiguous unused areas at any one time: a caller that
    /// fills the returned one (and calls `fill`) can then get to the
    /// other one by asking again.
    ///
    /// Writes through the returned region land in the backing store;
    /// they leave the cursors and the occupied bytes as they were.
    pub fn get_fillable_area(&mut self) -> (r: Option<&mut [u8]>)
        requires
            old(self).wf(),
        ensures
            old(self).spec_len() == old(self).spec_capacity() ==> r is None
                && *final(self) == *old(self),
            old(self).spec_len() < old(self).spec_capacity() ==> r is Some
                && r.unwrap()@ == old(self).backing().subrange(old(self).fill_from(), old(self).fill_to())
                && final(self).spec_start() == old(self).spec_start()
                && final(self).spec_len() == old(self).spec_len()
                && final(self).backing()
                    == old(self).backing().take(old(self).fill_from())
                        + final(r.unwrap())@
                        + old(self).backing().skip(old(self).fill_to())
                && (final(r.unwrap())@.len() == old(self).fill_to() - old(self).fill_from()
                    ==> final(self).wf() && final(self).occ() == old(self).occ()),
    {
        if self.len == self.buf.len() {
            return None;
        }
        let end = if self.buf.len() - self.start > self.len {
            self.start + self.len
        } else {
            self.len - (self.buf.len() - self.start)
        };
        if end < self.start {
            let s = self.buf.as_mut_slice();
            let (left, _right) = s.split_at_mut(self.start);
            let (_l2, mid) = left.split_at_mut(end);
            Some(mid)
        } else {
            let s = self.buf.as_mut_slice();
            let (_left, right) = s.split_at_mut(end);
            Some(right)
        }
    }

    /// Copy data into the circle buffer right after the occupied
    /// region, possibly crossing the wrap point, and mark it filled.
    /// The caller must leave enough free space.
    pub fn extend(&mut self, data: &[u8])
        requires
            old(self).wf(),
            data@.len() <= old(self).spec_capacity() - old(self).spec_len(),
        ensures
            final(self).wf(),
            final(self).spec_capacity() == old(self).spec_capacity(),
            final(self).spec_start() == old(self).spec_start(),
            final(self).spec_len() == old(self).spec_len() + data@.len(),
            final(self).occ() == old(self).occ() + data@,
    {
        let ghost pre = *self;
        let cap = self.buf.len();
        let amt = data.len();
        let mut pos = if cap - self.start > self.len {
            self.start + self.len
        } else {
            self.len - (cap - self.start)
        };
        let mut i: usize = 0;
        while i < amt
            invariant
                pre.wf(),
                amt == data@.len(),
                i <= amt,
                amt <= pre.spec_len() + amt <= cap,
                cap == pre.spec_capacity(),
                self.spec_start() == pre.spec_start(),
                self.spec_len() == pre.spec_len(),
                self.spec_capacity() == cap,
                0 <= pos < cap || pos == 0,
                pos == if pre.spec_start() + pre.spec_len() + i < cap {
                    pre.spec_start() + pre.spec_len() + i
                } else {
                    pre.spec_start() + pre.spec_len() + i - cap
                },
                ring_range(self.backing(), pre.spec_start(), pre.spec_len() + i) == pre.occ()
                    + data@.take(i as int),
            decreases amt - i,
        {
            let ghost mid = *self;
            self.buf[pos] = data[i];
            proof {
                let s0 = pre.spec_start();
                let l0 = pre.spec_len();
                assert(self.backing() == mid.backing().update(pos as int, data@[i as int]));
                assert forall|m: int| 0 <= m < l0 + i + 1 implies #[trigger] ring_range(
                    self.backing(),
                    s0,
                    l0 + i + 1,
                )[m] == (pre.occ() + data@.take(i + 1))[m] by {
                    if m < l0 + i {
                        assert(ring_range(mid.backing(), s0, l0 + i)[m] == (pre.occ()
                            + data@.take(i as int))[m]);
                    }
                }
                assert(ring_range(self.backing(), pre.spec_start(), pre.spec_len() + i + 1)
                    =~= pre.occ() + data@.take(i + 1));
            }
            i = i + 1;
            pos = pos + 1;
            if pos == cap {
                pos = 0;
            }
        }
        self.len = self.len + amt;
        proof {
            assert(final(self).occ() =~= pre.occ() + data@);
        }
    }

    /// Allows a contiguous view of potentially non-contiguous
    /// underlying data: invokes the callback with the first `amt`
    /// occupied bytes as one slice. May incur a copy, but only when the
    /// requested range crosses the wrap point; copies are rare when the
    /// buffer is large relative to the requested amount.
    pub fn view<R, C: FnOnce(&[u8]) -> R>(&self, amt: usize, callback: C) -> (r: R)
        requires
            self.wf(),
            amt <= self.spec_len(),
            forall|s: &[u8]| s@ == self.occ().take(amt as int) ==> call_requires(callback, (s,)),
        ensures
            exists|s: &[u8]|
                s@ == self.occ().take(amt as int) && call_ensures(callback, (s,), r),
    {
        let (head, tail) = self.view_parts(amt);
        if tail.len() == 0 {
            proof {
                assert(head@ =~= self.occ().take(amt as int));
            }
            callback(head)
        } else {
            let mut view_buffer: Vec<u8> = Vec::new();
            let hl = head.len();
            let tl = tail.len();
            let mut i: usize = 0;
            while i < hl
                invariant
                    i <= hl,
                    hl == head@.len(),
                    view_buffer@ == head@.take(i as int),
                decreases hl - i,
            {
                view_buffer.push(head[i]);
                proof {
                    assert(view_buffer@ =~= head@.take(i + 1));
                }
                i = i + 1;
            }
            let mut j: usize = 0;
            while j < tl
                invariant
                    j <= tl,
                    hl == head@.len(),
                    tl == tail@.len(),
                    view_buffer@ == head@ + tail@.take(j as int),
                decreases tl - j,
            {
                view_buffer.push(tail[j]);
                proof {
                    assert(view_buffer@ =~= head@ + tail@.take(j + 1));
                }
                j = j + 1;
            }
            proof {
                assert(head@ =~= head@.take(hl as int));
                assert(view_buffer@ =~= self.occ().take(amt as int));
            }
            callback(view_buffer.as_slice())
        }
    }

    /// Allows a contiguous view of potentially non-contiguous data
    /// using a caller-provided scratch buffer, whose length is the
    /// amount viewed. May incur a copy into the scratch buffer — only
    /// when the viewed range crosses the wrap point — but will not
    /// allocate.
    pub fn view_provided<R, C: FnOnce(&[u8]) -> R>(&self, buf: &mut [u8], callback: C) -> (r: R)
        requires
            self.wf(),
            old(buf)@.len() <= self.spec_len(),
            forall|s: &[u8]|
                s@ == self.occ().take(old(buf)@.len() as int) ==> call_requires(callback, (s,)),
        ensures
            exists|s: &[u8]|
                s@ == self.occ().take(old(buf)@.len() as int) && call_ensures(callback, (s,), r),
            self.spec_start() + old(buf)@.len() <= self.spec_capacity() ==> final(buf)@ == old(buf)@,
            self.spec_start() + old(buf)@.len() > self.spec_capacity() ==> final(buf)@
                == self.occ().take(old(buf)@.len() as int),
    {
        let amt = buf.len();
        let (head, tail) = self.view_parts(amt);
        if tail.len() == 0 {
            proof {
                assert(head@ =~= self.occ().take(amt as int));
            }
            callback(head)
        } else {
            let hl = head.len();
            let tl = tail.len();
            let ghost buf0 = buf@;
            let mut i: usize = 0;
            while i < hl
                invariant
                    i <= hl,
                    hl == head@.len(),
                    buf@.len() == buf0.len(),
                    hl + tl == buf0.len(),
                    tl == tail@.len(),
                    forall|k: int| 0 <= k < i ==> buf@[k] == head@[k],
                decreases hl - i,
            {
                buf[i] = head[i];
                i = i + 1;
            }
            let mut j: usize = 0;
            while j < tl
                invariant
                    j <= tl,
                    hl == head@.len(),
                    tl == tail@.len(),
                    buf@.len() == buf0.len(),
                    hl + tl == buf0.len(),
                    buf0.len() == amt,
                    forall|k: int| 0 <= k < hl ==> buf@[k] == head@[k],
                    forall|k: int| 0 <= k < j ==> buf@[hl + k] == tail@[k],
                decreases tl - j,
            {
                buf[hl + j] = tail[j];
                j = j + 1;
            }
            proof {
                assert(buf@ =~= self.occ().take(amt as int));
            }
            callback(&*buf)
        }
    }

    /// `view_provided` but mutable. Changes made to the view slice are
    /// reflected in the circle buffer's own storage when the viewed
    /// range did not cross a wrap point, and only in the provided
    /// scratch buffer when it did.
    pub fn view_provided_mut<R, C: FnOnce(&mut [u8]) -> R>(
        &mut self,
        buf: &mut [u8],
        callback: C,
    ) -> (r: R)
        requires
            old(self).wf(),
            old(buf)@.len() <= old(self).spec_len(),
            forall|s: &mut [u8]|
                s@ == old(self).occ().take(old(buf)@.len() as int) ==> call_requires(
                    callback,
                    (s,),
                ),
        ensures
            old(self).spec_start() + old(buf)@.len() <= old(self).spec_capacity() ==> final(buf)@
                == old(buf)@ && final(self).spec_start() == old(self).spec_start() && final(self).spec_len() == old(self).spec_len() && exists|s: &mut [u8]|
                (s@ == old(self).occ().take(old(buf)@.len() as int) && call_ensures(
                    callback,
                    (s,),
                    r,
                ) && final(self).backing() == old(self).backing().take(old(self).spec_start())
                    + final(s)@ + old(self).backing().skip(
                    old(self).spec_start() + old(buf)@.len(),
                ) && (final(s)@.len() == old(buf)@.len() ==> final(self).wf() && final(self).occ()
                    == final(s)@ + old(self).occ().skip(old(buf)@.len() as int))),
            old(self).spec_start() + old(buf)@.len() > old(self).spec_capacity() ==> final(self).wf() && final(self).backing() == old(self).backing() && final(self).spec_start()
                == old(self).spec_start() && final(self).spec_len() == old(self).spec_len()
                && final(self).occ() == old(self).occ() && exists|s: &mut [u8]|
                (s@ == old(self).occ().take(old(buf)@.len() as int) && call_ensures(
                    callback,
                    (s,),
                    r,
                ) && final(buf)@ == final(s)@),
    {
        let amt = buf.len();
        let (head, tail) = self.view_parts_mut(amt);
        if tail.len() == 0 {
            proof {
                assert(head@ =~= old(self).occ().take(amt as int));
            }
            callback(head)
        } else {
            let hl = head.len();
            let tl = tail.len();
            let ghost buf0 = buf@;
            let mut i: usize = 0;
            while i < hl
                invariant
                    i <= hl,
                    hl == head@.len(),
                    buf@.len() == buf0.len(),
                    hl + tl == buf0.len(),
                    tl == tail@.len(),
                    forall|k: int| 0 <= k < i ==> buf@[k] == head@[k],
                decreases hl - i,
            {
                buf[i] = head[i];
                i = i + 1;
            }
            let mut j: usize = 0;
            while j < tl
                invariant
                    j <= tl,
                    hl == head@.len(),
                    tl == tail@.len(),
                    buf@.len() == buf0.len(),
                    hl + tl == buf0.len(),
                    buf0.len() == amt,
                    forall|k: int| 0 <= k < hl ==> buf@[k] == head@[k],
                    forall|k: int| 0 <= k < j ==> buf@[hl + k] == tail@[k],
                decreases tl - j,
            {
                buf[hl + j] = tail[j];
                j = j + 1;
            }
            proof {
                assert(buf@ =~= old(self).occ().take(amt as int));
            }
            callback(buf)
        }
    }

    /// Copy the first `min(len(), dest.len())` occupied bytes into the
    /// front of `dest` in logical order, mark them consumed, and return
    /// how many were copied. The rest of `dest` is left as it was.
    pub fn read_into(&mut self, dest: &mut [u8]) -> (amt: usize)
        requires
            old(self).wf(),
        ensures
            amt == if old(self).spec_len() <= old(dest)@.len() {
                old(self).spec_len()
            } else {
                old(dest)@.len() as int
            },
            final(dest)@ == old(self).occ().take(amt as int) + old(dest)@.skip(amt as int),
            final(self).wf(),
            final(self).backing() == old(self).backing(),
            final(self).spec_len() == old(self).spec_len() - amt,
            final(self).spec_start() == if old(self).spec_len() == amt {
                0int
            } else if old(self).spec_start() + amt < old(self).spec_capacity() {
                old(self).spec_start() + amt
            } else {
                old(self).spec_start() + amt - old(self).spec_capacity()
            },
            final(self).occ() == old(self).occ().skip(amt as int),
    {
        let amt = if self.len <= dest.len() {
            self.len
        } else {
            dest.len()
        };
        let ghost dest0 = dest@;
        let (head, tail) = self.view_parts(amt);
        let hl = head.len();
        let tl = tail.len();
        let mut i: usize = 0;
        while i < hl
            invariant
                i <= hl,
                hl == head@.len(),
                hl + tl == amt,
                dest@.len() == dest0.len(),
                amt <= dest0.len(),
                forall|k: int| 0 <= k < i ==> dest@[k] == head@[k],
                forall|k: int| amt <= k < dest0.len() ==> dest@[k] == dest0[k],
            decreases hl - i,
        {
            dest[i] = head[i];
            i = i + 1;
        }
        let mut j: usize = 0;
        while j < tl
            invariant
                j <= tl,
                hl == head@.len(),
                tl == tail@.len(),
                hl + tl == amt,
                dest@.len() == dest0.len(),
                amt <= dest0.len(),
                forall|k: int| 0 <= k < hl ==> dest@[k] == head@[k],
                forall|k: int| 0 <= k < j ==> dest@[hl + k] == tail@[k],
                forall|k: int| amt <= k < dest0.len() ==> dest@[k] == dest0[k],
            decreases tl - j,
        {
            dest[hl + j] = tail[j];
            j = j + 1;
        }
        proof {
            assert(dest@ =~= old(self).occ().take(amt as int) + dest0.skip(amt as int));
        }
        self.consume(amt);
        amt
    }

    /// Copy as much of `data` as fits into the free space, in logical
    /// order after the occupied bytes, and return how much was taken;
    /// report `None`, changing nothing, when the buffer is full.
    pub fn write_partial(&mut self, data: &[u8]) -> (r: Option<usize>)
        requires
            old(self).wf(),
        ensures
            old(self).spec_len() == old(self).spec_capacity() ==> r is None && *final(self)
                == *old(self),
            old(self).spec_len() < old(self).spec_capacity() ==> r is Some && r.unwrap() == (
            if data@.len() <= old(self).spec_capacity() - old(self).spec_len() {
                data@.len() as int
            } else {
                old(self).spec_capacity() - old(self).spec_len()
            }) && final(self).wf() && final(self).spec_capacity() == old(self).spec_capacity()
                && final(self).spec_start() == old(self).spec_start()
                && final(self).occ() == old(self).occ() + data@.take(r.unwrap() as int),
    {
        let avail = self.available();
        if avail == 0 {
            return None;
        }
        let amt = if data.len() <= avail {
            data.len()
        } else {
            avail
        };
        let part = vstd::slice::slice_subrange(data, 0, amt);
        self.extend(part);
        Some(amt)
    }

    /// Discard all information in the buffer and realign at the start
    /// point. This is a cheap operation that makes no modification to
    /// the underlying buffer.
    pub fn clear(&mut self)
        ensures
            final(self).wf(),
            CircleBuffer::cleared_state(*old(self), *final(self)),
            final(self).occ() == Seq::<u8>::empty(),
    {
        self.len = 0;
        self.start = 0;
        proof {
            assert(final(self).occ() =~= Seq::<u8>::empty());
        }
    }
}

impl Default for CircleBuffer {
    /// An easy way to get a heap allocated circle buffer, backed by
    /// 1 MiB on the heap.
    fn default() -> (r: CircleBuffer)
        ensures
            r.wf(),
            r.spec_capacity() == 1_048_576,
            r.spec_start() == 0,
            r.spec_len() == 0,
    {
        CircleBuffer::with_size(1_048_576)
    }
}

} // verus!
