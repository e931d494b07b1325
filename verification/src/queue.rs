//! The constraint work queue.
//!
//! The queue itself comes from the `concurrent_queue` crate; this module
//! declares that type to the verifier and wraps the few operations the
//! solver needs.  Two names describe a queue: `queue_contents` is the
//! sequence of items it holds, oldest first, and `queue_live` says that it
//! is an unbounded queue that has not been closed.  This crate only ever
//! builds unbounded queues and never closes one, so every queue it hands
//! out stays live.

use vstd::prelude::*;
use concurrent_queue::ConcurrentQueue;
use crate::constraint::Constraint;

verus! {

#[verifier::external_type_specification]
#[verifier::external_body]
#[verifier::reject_recursive_types(T)]
pub struct ExConcurrentQueue<T>(ConcurrentQueue<T>);

/// The items the queue holds, oldest (next to pop) first.
pub uninterp spec fn queue_contents(q: ConcurrentQueue<Constraint>) -> Seq<Constraint>;

/// The queue is unbounded and has not been closed, so pushes cannot fail.
pub uninterp spec fn queue_live(q: ConcurrentQueue<Constraint>) -> bool;

/// Relies on `ConcurrentQueue::unbounded`: a new queue with no capacity
/// bound, holding nothing, not closed.
#[verifier::external_body]
pub fn new_constraint_queue() -> (r: ConcurrentQueue<Constraint>)
    ensures
        queue_live(r),
        queue_contents(r) == Seq::<Constraint>::empty(),
{
    ConcurrentQueue::unbounded()
}

/// Relies on `ConcurrentQueue::push`: on an unbounded queue that is not
/// closed the item is appended at the tail and the call reports success.
#[verifier::external_body]
pub fn queue_push(q: &mut ConcurrentQueue<Constraint>, c: Constraint) -> (r: bool)
    ensures
        queue_live(*old(q)) ==> r && queue_live(*final(q)) && queue_contents(*final(q))
            == queue_contents(*old(q)).push(c),
{
    q.push(c).is_ok()
}

/// Relies on `ConcurrentQueue::pop`: removes and returns the oldest item;
/// popping from an empty queue reports failure and changes nothing.
#[verifier::external_body]
pub fn queue_pop(q: &mut ConcurrentQueue<Constraint>) -> (r: Option<Constraint>)
    ensures
        queue_live(*old(q)) ==> queue_live(*final(q)),
        queue_live(*old(q)) && queue_contents(*old(q)).len() == 0 ==> r is None
            && queue_contents(*final(q)) == queue_contents(*old(q)),
        queue_live(*old(q)) && queue_contents(*old(q)).len() > 0 ==> r == Some(
            queue_contents(*old(q))[0],
        ) && queue_contents(*final(q)) == queue_contents(*old(q)).drop_first(),
{
    match q.pop() {
        Ok(c) => Some(c),
        Err(_) => None,
    }
}

/// Relies on `ConcurrentQueue::is_empty`.
#[verifier::external_body]
pub fn queue_is_empty(q: &ConcurrentQueue<Constraint>) -> (r: bool)
    ensures
        queue_live(*q) ==> r == (queue_contents(*q).len() == 0),
{
    q.is_empty()
}

} // verus!
