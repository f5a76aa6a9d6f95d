//! Laws of the circle buffer: proof functions that state, over the spec
//! functions the method contracts use, the properties every well-formed
//! buffer and every sequence of operations keeps.

use vstd::prelude::*;

use crate::CircleBuffer;

verus! {

/// The occupied length always lies between 0 and the capacity: every
/// operation keeps `wf`, and under `wf` the occupied region never holds
/// more bytes than the backing store.
pub proof fn lemma_capacity_invariant(b: CircleBuffer)
    requires
        b.wf(),
    ensures
        0 <= b.occ().len() <= b.spec_capacity(),
        b.occ().len() == b.spec_len(),
{
}

/// An empty buffer is canonical: its start offset is 0, and its
/// fillable region spans exactly the full capacity.
pub proof fn lemma_canonical_empty(b: CircleBuffer)
    requires
        b.wf(),
        b.spec_len() == 0,
    ensures
        b.spec_start() == 0,
        b.fill_from() == 0,
        b.fill_to() == b.spec_capacity(),
{
}

/// Round trip: appending `data` to a buffer that held `before` leaves
/// the occupied region at `before + data`, so reading the occupied
/// bytes back in logical order ends with `data` exactly — whether or
/// not the appended bytes straddle the wrap point.
pub proof fn lemma_round_trip(pre: CircleBuffer, post: CircleBuffer, data: Seq<u8>)
    requires
        post.occ() == pre.occ() + data,
    ensures
        post.occ().len() == pre.occ().len() + data.len(),
        post.occ().skip(pre.occ().len() as int) == data,
        pre.occ().len() == 0 ==> post.occ().take(data.len() as int) == data,
{
    assert(post.occ().skip(pre.occ().len() as int) =~= data);
    if pre.occ().len() == 0 {
        assert(post.occ().take(data.len() as int) =~= data);
    }
}

/// Clearing is idempotent: a second `clear` relates the state to itself,
/// so every observable of the state after two clears equals the one
/// after a single clear.
pub proof fn lemma_clear_idempotent(a: CircleBuffer, b: CircleBuffer, c: CircleBuffer)
    requires
        CircleBuffer::cleared_state(a, b),
        CircleBuffer::cleared_state(b, c),
    ensures
        c.spec_len() == b.spec_len(),
        c.spec_start() == b.spec_start(),
        c.backing() == b.backing(),
        c.occ() == b.occ(),
{
    assert(c.occ() =~= b.occ());
}

/// A buffer of capacity 0 is simultaneously empty and full, and its
/// fillable region is empty.
pub proof fn lemma_zero_capacity(b: CircleBuffer)
    requires
        b.wf(),
        b.spec_capacity() == 0,
    ensures
        b.spec_len() == 0,
        b.spec_len() == b.spec_capacity(),
        b.occ() == Seq::<u8>::empty(),
        b.fill_to() - b.fill_from() == 0,
{
    assert(b.occ() =~= Seq::<u8>::empty());
}

} // verus!
