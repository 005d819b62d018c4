//! The frontier of one search direction: entities keyed by their cost.
//!
//! The queue itself is `priority_queue::DoublePriorityQueue`. What it holds is
//! modelled as a map from an entity to its cost; the functions below state what
//! each of its operations does to that map. Which of several entities of equal
//! least cost leaves first is left open.

use priority_queue::DoublePriorityQueue;
use std::collections::hash_map::RandomState;
use std::hash::Hash;
use vstd::prelude::*;

verus! {

/// `priority_queue::DoublePriorityQueue`, of which nothing is known but what
/// the functions below state.
#[verifier::external_type_specification]
#[verifier::external_body]
#[verifier::reject_recursive_types(I)]
#[verifier::reject_recursive_types(P)]
#[verifier::reject_recursive_types(H)]
pub struct ExDoublePriorityQueue<I: Hash + Eq, P: Ord, H>(DoublePriorityQueue<I, P, H>);

/// The queue of one search direction.
pub type EntityQueue = DoublePriorityQueue<String, i64, RandomState>;

/// The entities that a queue holds, each with its cost.
pub uninterp spec fn frontier_entries(queue: EntityQueue) -> Map<Seq<char>, i64>;

/// The entries of a queue that holds nothing.
pub open spec fn no_entries() -> Map<Seq<char>, i64> {
    Map::empty()
}

/// Whether `entries` holds `entity` at `cost` and nothing at a lower cost.
pub open spec fn is_least(entries: Map<Seq<char>, i64>, entity: Seq<char>, cost: i64) -> bool {
    &&& entries.contains_key(entity)
    &&& entries[entity] == cost
    &&& forall|other: Seq<char>| #[trigger] entries.contains_key(other) ==> cost <= entries[other]
}

/// Whether `cost` is the least cost in `entries`.
pub open spec fn is_least_cost(entries: Map<Seq<char>, i64>, cost: i64) -> bool {
    exists|entity: Seq<char>| is_least(entries, entity, cost)
}

/// The entries after an entity was offered at a cost: it is entered if it was
/// absent, its cost is lowered if it was held at a higher one, and nothing
/// changes otherwise.
pub open spec fn offered(entries: Map<Seq<char>, i64>, entity: Seq<char>, cost: i64) -> Map<
    Seq<char>,
    i64,
> {
    if entries.contains_key(entity) && entries[entity] <= cost {
        entries
    } else {
        entries.insert(entity, cost)
    }
}

/// `DoublePriorityQueue::new`: the new queue holds nothing.
#[verifier::external_body]
pub(crate) fn frontier_new() -> (queue: EntityQueue)
    ensures
        frontier_entries(queue) == no_entries(),
{
    DoublePriorityQueue::new()
}

/// `DoublePriorityQueue::push`: the entity is entered at the given cost, which
/// replaces the cost it was held at before.
#[verifier::external_body]
pub(crate) fn frontier_push(queue: &mut EntityQueue, entity: String, cost: i64)
    ensures
        frontier_entries(*final(queue)) == frontier_entries(*old(queue)).insert(entity@, cost),
{
    queue.push(entity, cost);
}

/// `DoublePriorityQueue::push_decrease`: the entity is entered if the queue
/// did not hold it, and its cost is lowered if the queue held it at a higher
/// one.
#[verifier::external_body]
pub(crate) fn frontier_push_decrease(queue: &mut EntityQueue, entity: String, cost: i64)
    ensures
        frontier_entries(*final(queue)) == offered(frontier_entries(*old(queue)), entity@, cost),
{
    queue.push_decrease(entity, cost);
}

/// `DoublePriorityQueue::is_empty`: whether the queue holds nothing.
#[verifier::external_body]
pub(crate) fn frontier_is_empty(queue: &EntityQueue) -> (empty: bool)
    ensures
        empty == (frontier_entries(*queue) == no_entries()),
{
    queue.is_empty()
}

/// `DoublePriorityQueue::peek_min`, of which the cost is kept: the least cost
/// in the queue, or nothing if the queue holds nothing.
#[verifier::external_body]
pub(crate) fn frontier_least_cost(queue: &EntityQueue) -> (least: Option<i64>)
    ensures
        match least {
            Some(cost) => is_least_cost(frontier_entries(*queue), cost),
            None => frontier_entries(*queue) == no_entries(),
        },
{
    queue.peek_min().map(|(_, cost)| *cost)
}

/// `DoublePriorityQueue::pop_min`: an entity of least cost leaves the queue and
/// is returned with that cost; a queue that holds nothing stays as it is.
#[verifier::external_body]
pub(crate) fn frontier_pop_least(queue: &mut EntityQueue) -> (least: Option<(String, i64)>)
    ensures
        match least {
            Some((entity, cost)) => {
                &&& is_least(frontier_entries(*old(queue)), entity@, cost)
                &&& frontier_entries(*final(queue)) == frontier_entries(*old(queue)).remove(
                    entity@,
                )
            },
            None => {
                &&& frontier_entries(*old(queue)) == no_entries()
                &&& frontier_entries(*final(queue)) == no_entries()
            },
        },
{
    queue.pop_min()
}

} // verus!
