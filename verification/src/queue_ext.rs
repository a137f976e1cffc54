//! Trusted interface to crossbeam's `ArrayQueue`, the bounded FIFO that holds
//! completed records between the reader and the writer.
//!
//! `queue_contents` names the records the queue holds, oldest first, and
//! `queue_capacity` the bound it was created with. Each wrapper states, over
//! those names, what the corresponding `ArrayQueue` method does, as its source
//! shows: `new` makes an empty queue, `push_mut` appends at the tail or hands
//! the value back when full, `pop_mut` removes the head, `len` counts.

use vstd::prelude::*;
use crossbeam::queue::ArrayQueue;

verus! {

#[verifier::external_type_specification]
#[verifier::external_body]
#[verifier::reject_recursive_types(T)]
pub struct ExArrayQueue<T>(ArrayQueue<T>);

/// The records a queue holds, oldest (next to pop) first.
pub uninterp spec fn queue_contents(q: ArrayQueue<Vec<u8>>) -> Seq<Seq<u8>>;

/// The fixed capacity a queue was created with.
pub uninterp spec fn queue_capacity(q: ArrayQueue<Vec<u8>>) -> nat;

/// Relies on crossbeam's ArrayQueue::new: a fresh queue with the given
/// capacity holds nothing. It panics only on a zero capacity or one whose
/// successor has no power of two within the index type, both left out here.
#[verifier::external_body]
pub(crate) fn queue_new(cap: usize) -> (q: ArrayQueue<Vec<u8>>)
    requires
        1 <= cap <= usize::MAX / 2,
    ensures
        queue_contents(q) == Seq::<Seq<u8>>::empty(),
        queue_capacity(q) == cap as nat,
{
    ArrayQueue::new(cap)
}

/// Relies on crossbeam's ArrayQueue::push_mut: appends the value at the tail
/// when the queue is not full, and otherwise hands it back unchanged as the
/// error.
#[verifier::external_body]
pub(crate) fn queue_push(q: &mut ArrayQueue<Vec<u8>>, v: Vec<u8>) -> (r: Result<(), Vec<u8>>)
    ensures
        queue_capacity(*final(q)) == queue_capacity(*old(q)),
        queue_contents(*old(q)).len() < queue_capacity(*old(q)) ==> r is Ok,
        queue_contents(*old(q)).len() >= queue_capacity(*old(q)) ==> r is Err,
        r is Ok ==> queue_contents(*final(q)) == queue_contents(*old(q)).push(v@),
        r is Err ==> queue_contents(*final(q)) == queue_contents(*old(q)),
        r matches Err(w) ==> w@ == v@,
{
    q.push_mut(v)
}

/// Relies on crossbeam's ArrayQueue::pop_mut: removes and returns the value
/// at the head — the oldest pushed — or returns nothing when the queue is
/// empty.
#[verifier::external_body]
pub(crate) fn queue_pop(q: &mut ArrayQueue<Vec<u8>>) -> (r: Option<Vec<u8>>)
    ensures
        queue_capacity(*final(q)) == queue_capacity(*old(q)),
        queue_contents(*old(q)).len() == 0 ==> r is None,
        queue_contents(*old(q)).len() > 0 ==> r is Some,
        r is None ==> queue_contents(*final(q)) == queue_contents(*old(q)),
        r matches Some(v) ==> v@ == queue_contents(*old(q))[0]
            && queue_contents(*final(q)) == queue_contents(*old(q)).drop_first(),
{
    q.pop_mut()
}

/// Relies on crossbeam's ArrayQueue::len: the number of values the queue
/// currently holds.
#[verifier::external_body]
pub(crate) fn queue_len(q: &ArrayQueue<Vec<u8>>) -> (n: usize)
    ensures
        n as nat == queue_contents(*q).len(),
{
    q.len()
}

} // verus!
