//! Priority queues of `u64` items with `i64` priorities, from `priority-queue`.
use vstd::prelude::*;
use priority_queue::PriorityQueue;
use crate::bindings::graph::finite_with_len;

verus! {

#[verifier::external_type_specification]
#[verifier::external_body]
#[verifier::reject_recursive_types(I)]
#[verifier::reject_recursive_types(P)]
#[verifier::reject_recursive_types(H)]
pub struct ExPriorityQueue<I, P, H>(PriorityQueue<I, P, H>);

/// The items of a queue, each with its priority.
pub uninterp spec fn queue_items(q: PriorityQueue<u64, i64>) -> Map<u64, i64>;

/// The items of an empty queue.
pub open spec fn no_items() -> Map<u64, i64> {
    Map::empty()
}

/// `PriorityQueue::new`: an empty queue.
#[verifier::external_body]
pub fn queue_new() -> (r: PriorityQueue<u64, i64>)
    ensures
        queue_items(r) == no_items(),
{
    PriorityQueue::new()
}

/// `PriorityQueue::push`: inserts `item` with `priority`, or gives it that priority if
/// it is already in the queue; returns the priority it had.
#[verifier::external_body]
pub fn queue_push(q: &mut PriorityQueue<u64, i64>, item: u64, priority: i64) -> (r: Option<i64>)
    ensures
        queue_items(*final(q)) == queue_items(*old(q)).insert(item, priority),
        r == (if queue_items(*old(q)).contains_key(item) {
            Some(queue_items(*old(q))[item])
        } else {
            None::<i64>
        }),
{
    q.push(item, priority)
}

/// `PriorityQueue::change_priority`: gives `item` the priority `priority` if it is in
/// the queue, and returns the priority it had; otherwise changes nothing.
#[verifier::external_body]
pub fn queue_change_priority(q: &mut PriorityQueue<u64, i64>, item: u64, priority: i64) -> (r: Option<i64>)
    ensures
        queue_items(*final(q)) == (if queue_items(*old(q)).contains_key(item) {
            queue_items(*old(q)).insert(item, priority)
        } else {
            queue_items(*old(q))
        }),
        r == (if queue_items(*old(q)).contains_key(item) {
            Some(queue_items(*old(q))[item])
        } else {
            None::<i64>
        }),
{
    q.change_priority(&item, priority)
}

/// `PriorityQueue::pop`: removes an item of greatest priority and returns it with its
/// priority, or `None` if the queue is empty. Which of several items of equal
/// priority leaves is not stated.
#[verifier::external_body]
pub fn queue_pop(q: &mut PriorityQueue<u64, i64>) -> (r: Option<(u64, i64)>)
    ensures
        match r {
            Some((item, priority)) => {
                &&& queue_items(*old(q)).contains_key(item)
                &&& queue_items(*old(q))[item] == priority
                &&& forall|k: u64| #[trigger] queue_items(*old(q)).contains_key(k) ==> queue_items(*old(q))[k] <= priority
                &&& queue_items(*final(q)) == queue_items(*old(q)).remove(item)
            },
            None => queue_items(*old(q)).dom().is_empty() && queue_items(*final(q)) == queue_items(*old(q)),
        },
{
    q.pop()
}

/// `PriorityQueue::len`: the number of items.
#[verifier::external_body]
pub fn queue_len(q: &PriorityQueue<u64, i64>) -> (r: usize)
    ensures
        finite_with_len(queue_items(*q).dom(), r as nat),
{
    q.len()
}

} // verus!
