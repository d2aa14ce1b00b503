//! Trusted interface to the outside priority queue used by the flood-fill
//! traversals.
//!
//! The queue is modeled as a finite map from encoded items to their
//! priorities: `priority_queue::PriorityQueue` keys its entries by item,
//! so a push either inserts a new pair or replaces the priority of an
//! item already present, and a pop removes a pair whose priority is
//! greatest.

use vstd::prelude::*;

use std::collections::hash_map::RandomState;
use priority_queue::PriorityQueue;

verus! {

#[verifier::external_type_specification]
#[verifier::external_body]
#[verifier::reject_recursive_types(I)]
#[verifier::reject_recursive_types(P)]
#[verifier::reject_recursive_types(H)]
pub struct ExPriorityQueue<I, P, H>(PriorityQueue<I, P, H>);

/// The entries of the queue: a map from each item it holds to that item's
/// priority.
pub uninterp spec fn pq_contents(q: PriorityQueue<u64, u64, RandomState>) -> Map<u64, u64>;

/// Relies on priority_queue::PriorityQueue::new: creates an empty queue.
#[verifier::external_body]
pub(crate) fn pq_new() -> (q: PriorityQueue<u64, u64, RandomState>)
    ensures
        pq_contents(q) =~= Map::empty(),
{
    PriorityQueue::new()
}

/// Relies on priority_queue::PriorityQueue::push: inserts the
/// item-priority pair; if the item is already present, its priority is
/// replaced by the one given.
#[verifier::external_body]
pub(crate) fn pq_push(q: &mut PriorityQueue<u64, u64, RandomState>, item: u64, priority: u64)
    ensures
        pq_contents(*final(q)) == pq_contents(*old(q)).insert(item, priority),
{
    q.push(item, priority);
}

/// Relies on priority_queue::PriorityQueue::pop: removes and returns an
/// item with the greatest priority in the queue, or `None` when the queue
/// is empty.
#[verifier::external_body]
pub(crate) fn pq_pop(q: &mut PriorityQueue<u64, u64, RandomState>) -> (r: Option<(u64, u64)>)
    ensures
        match r {
            None => {
                &&& pq_contents(*old(q)) =~= Map::empty()
                &&& pq_contents(*final(q)) == pq_contents(*old(q))
            },
            Some(pair) => {
                &&& pq_contents(*old(q)).contains_pair(pair.0, pair.1)
                &&& forall|it: u64|
                    pq_contents(*old(q)).dom().contains(it) ==> pq_contents(*old(q))[it]
                        <= pair.1
                &&& pq_contents(*final(q)) == pq_contents(*old(q)).remove(pair.0)
            },
        },
{
    q.pop()
}

} // verus!
