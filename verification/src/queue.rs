//! The queue of pending conditions: `priority_queue::PriorityQueue`, keyed
//! by packed condition identities and ordered by priority ranks.
//!
//! Verus does not look inside the queue. What it holds is named by
//! [`queue_entries`], and each operation the depot uses is given a contract
//! over that name.

use crate::qpriority::rank_le;
use priority_queue::PriorityQueue;
use vstd::prelude::*;

verus! {

/// `priority_queue::PriorityQueue`, made known as a type whose inside is
/// not looked into.
#[verifier::external_type_specification]
#[verifier::external_body]
#[verifier::reject_recursive_types(I)]
#[verifier::reject_recursive_types(P)]
#[verifier::reject_recursive_types(H)]
pub struct ExPriorityQueue<I, P, H>(PriorityQueue<I, P, H>);

/// The rank under which a priority is kept: the parts of the priority, each
/// counted down from its maximum, so that the greatest rank is the most urgent.
pub type Rank = (u32, u8, u32);

/// The queue of pending conditions.
pub type CondQueue = PriorityQueue<u128, Rank>;

/// The items a queue holds, each with its priority.
pub uninterp spec fn queue_entries(q: PriorityQueue<u128, (u32, u8, u32)>) -> Map<u128, (u32, u8, u32)>;

/// What an empty queue holds.
pub open spec fn no_entries() -> Map<u128, Rank> {
    Map::empty()
}

/// `PriorityQueue::new`.
///
/// Trusted: the new queue is empty.
#[verifier::external_body]
pub(crate) fn queue_new() -> (q: CondQueue)
    ensures
        queue_entries(q) == no_entries(),
{
    PriorityQueue::new()
}

/// `PriorityQueue::push`.
///
/// Trusted: the item is in the queue afterwards with the given priority,
/// whether or not it was there before; no other item is touched; the
/// item's former priority, if it had one, is returned.
#[verifier::external_body]
pub(crate) fn queue_push(
    q: &mut CondQueue,
    item: u128,
    priority: Rank,
) -> (r: Option<Rank>)
    ensures
        queue_entries(*final(q)) == queue_entries(*old(q)).insert(item, priority),
        r == if queue_entries(*old(q)).contains_key(item) {
            Some(queue_entries(*old(q))[item])
        } else {
            None
        },
{
    q.push(item, priority)
}

/// `PriorityQueue::peek`.
///
/// Trusted: an empty queue gives nothing; otherwise an item of the queue
/// comes back with its priority, and no item of the queue has a greater
/// one, tuples being ordered part by part from the left. Which of several
/// greatest items comes back is left open.
#[verifier::external_body]
pub(crate) fn queue_peek(q: &CondQueue) -> (r: Option<(u128, Rank)>)
    ensures
        r.is_none() <==> (forall|other: u128| !(#[trigger] queue_entries(*q).contains_key(other))),
        r matches Some((item, priority)) ==> queue_entries(*q).contains_key(item) && queue_entries(
            *q,
        )[item] == priority && forall|other: u128| #[trigger]
            queue_entries(*q).contains_key(other) ==> rank_le(queue_entries(*q)[other], priority),
{
    q.peek().map(|(item, priority)| (*item, *priority))
}

/// `PriorityQueue::change_priority`.
///
/// Trusted: an item of the queue gets the new priority and its former one
/// is returned; for an item that is not in the queue nothing changes and
/// nothing is returned.
#[verifier::external_body]
pub(crate) fn queue_change_priority(
    q: &mut CondQueue,
    item: u128,
    priority: Rank,
) -> (r: Option<Rank>)
    ensures
        queue_entries(*old(q)).contains_key(item) ==> queue_entries(*final(q)) == queue_entries(
            *old(q),
        ).insert(item, priority) && r == Some(queue_entries(*old(q))[item]),
        !queue_entries(*old(q)).contains_key(item) ==> queue_entries(*final(q)) == queue_entries(
            *old(q),
        ) && r.is_none(),
{
    q.change_priority(&item, priority)
}

/// `PriorityQueue::get_priority`.
///
/// Trusted: the priority of an item of the queue, nothing for any other item.
#[verifier::external_body]
pub(crate) fn queue_get_priority(q: &CondQueue, item: u128) -> (r: Option<Rank>)
    ensures
        r == if queue_entries(*q).contains_key(item) {
            Some(queue_entries(*q)[item])
        } else {
            None
        },
{
    q.get_priority(&item).copied()
}

} // verus!
