//! The queue of one side of an order book, kept by the `priority-queue` crate.
//!
//! An entry is the identifier of an order with a pair of numbers for its
//! priority. Pairs are compared as tuples are: by the first number, and by the
//! second where the first ones are equal. The entry with the greatest priority
//! comes out first.

use priority_queue::PriorityQueue;
use vstd::prelude::*;

verus! {

/// `priority_queue::PriorityQueue`, of which the verifier sees nothing but what
/// [`queue_contents`] names.
#[verifier::external_type_specification]
#[verifier::external_body]
#[verifier::reject_recursive_types(I)]
#[verifier::reject_recursive_types(P)]
#[verifier::reject_recursive_types(H)]
pub struct ExPriorityQueue<I, P, H>(PriorityQueue<I, P, H>);

/// What a queue holds: the priority of each identifier in it.
pub uninterp spec fn queue_contents(queue: PriorityQueue<u128, (i64, u64)>) -> Map<
    u128,
    (i64, u64),
>;

/// Whether priority `a` is greater than priority `b`.
pub open spec fn outranks(a: (i64, u64), b: (i64, u64)) -> bool {
    a.0 > b.0 || (a.0 == b.0 && a.1 > b.1)
}

/// Whether `id` stands in `contents` with `priority`, and nothing there has a
/// greater one.
pub open spec fn is_first(contents: Map<u128, (i64, u64)>, id: u128, priority: (i64, u64)) -> bool {
    &&& contents.contains_key(id)
    &&& contents[id] == priority
    &&& forall|other: u128| #[trigger]
        contents.contains_key(other) ==> !outranks(contents[other], priority)
}

/// `PriorityQueue::new`: a queue with nothing in it.
#[verifier::external_body]
pub(crate) fn new_queue() -> (queue: PriorityQueue<u128, (i64, u64)>)
    ensures
        queue_contents(queue).is_empty(),
{
    PriorityQueue::new()
}

/// `PriorityQueue::push`: enters the identifier with the priority, in place of
/// the priority that it had where it was in the queue already, and hands that
/// one back.
#[verifier::external_body]
pub(crate) fn push(
    queue: &mut PriorityQueue<u128, (i64, u64)>,
    id: u128,
    priority: (i64, u64),
) -> (replaced: Option<(i64, u64)>)
    ensures
        queue_contents(*final(queue)) == queue_contents(*old(queue)).insert(id, priority),
        replaced == queue_contents(*old(queue)).get(id),
{
    queue.push(id, priority)
}

/// `PriorityQueue::peek`: an entry that no other outranks, if there is any.
/// Which one of several with the same priority is left open.
#[verifier::external_body]
pub(crate) fn peek(queue: &PriorityQueue<u128, (i64, u64)>) -> (first: Option<(u128, (i64, u64))>)
    ensures
        first is None <==> queue_contents(*queue).is_empty(),
        first matches Some(entry) ==> is_first(queue_contents(*queue), entry.0, entry.1),
{
    queue.peek().map(|entry| (*entry.0, *entry.1))
}

/// `PriorityQueue::pop`: takes an entry out that no other outranks, if there is
/// any. Which one of several with the same priority is left open.
#[verifier::external_body]
pub(crate) fn pop(queue: &mut PriorityQueue<u128, (i64, u64)>) -> (first: Option<
    (u128, (i64, u64)),
>)
    ensures
        first is None <==> queue_contents(*old(queue)).is_empty(),
        first is None ==> queue_contents(*final(queue)) == queue_contents(*old(queue)),
        first matches Some(entry) ==> is_first(queue_contents(*old(queue)), entry.0, entry.1)
            && queue_contents(*final(queue)) == queue_contents(*old(queue)).remove(entry.0),
{
    queue.pop()
}

/// `PriorityQueue::remove`: takes the entry of the identifier out, if there is
/// one, and hands it back.
#[verifier::external_body]
pub(crate) fn remove(queue: &mut PriorityQueue<u128, (i64, u64)>, id: u128) -> (removed: Option<
    (u128, (i64, u64)),
>)
    ensures
        queue_contents(*final(queue)) == queue_contents(*old(queue)).remove(id),
        removed == (match queue_contents(*old(queue)).get(id) {
            Some(priority) => Some((id, priority)),
            None => None,
        }),
{
    queue.remove(&id)
}

} // verus!
