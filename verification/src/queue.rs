//! The priority queue behind the scheduler: the `priority_queue` crate's
//! `PriorityQueue`, keyed by event id and ordered by firing key.
//!
//! Nothing in this file is proved. Each item states what the outside code
//! does, as its source shows it, over [`queue_entries`]: the map from the
//! ids that the queue holds to their firing keys. A firing key is the pair of
//! an instant in nanoseconds and a sequence number; the queue holds it as
//! `Reverse((nanos, seq))`, so that its greatest priority is the least key.

use vstd::prelude::*;
use priority_queue::PriorityQueue;
use std::cmp::Reverse;

verus! {

/// `std::cmp::Reverse`, a wrapper that orders its values backwards.
#[verifier::external_type_specification]
#[verifier::external_body]
#[verifier::reject_recursive_types(T)]
pub struct ExReverse<T>(Reverse<T>);

/// `ahash::RandomState`, the hasher factory of the queue.
#[verifier::external_type_specification]
#[verifier::external_body]
pub struct ExRandomState(ahash::RandomState);

/// `priority_queue::PriorityQueue`, a heap of items that also finds each
/// item by its hash.
#[verifier::external_type_specification]
#[verifier::external_body]
#[verifier::reject_recursive_types(I)]
#[verifier::reject_recursive_types(P)]
#[verifier::reject_recursive_types(H)]
pub struct ExPriorityQueue<I, P, H>(PriorityQueue<I, P, H>);

/// What a queue holds: each id in it, with its firing key `(nanos, seq)`.
pub uninterp spec fn queue_entries(
    q: PriorityQueue<u64, Reverse<(u64, u64)>, ahash::RandomState>,
) -> Map<u64, (u64, u64)>;

/// The order of firing keys: by instant, then by sequence number. It is the
/// order that std documents for pairs of integers.
pub open spec fn key_le(a: (u64, u64), b: (u64, u64)) -> bool {
    a.0 < b.0 || (a.0 == b.0 && a.1 <= b.1)
}

/// `ahash::RandomState::new`: a hasher factory with keys of its own. Nothing
/// is claimed of it.
#[verifier::external_body]
pub(crate) fn fresh_hasher() -> (h: ahash::RandomState) {
    ahash::RandomState::new()
}

/// `PriorityQueue::with_hasher`: a queue that holds nothing.
#[verifier::external_body]
pub(crate) fn queue_with_hasher(h: ahash::RandomState) -> (q: PriorityQueue<
    u64,
    Reverse<(u64, u64)>,
    ahash::RandomState,
>)
    ensures
        forall|id: u64| !queue_entries(q).contains_key(id),
{
    PriorityQueue::with_hasher(h)
}

/// `PriorityQueue::push`: files `id` under the key `(nanos, seq)`, in place
/// of the key it had if it was in the queue already.
#[verifier::external_body]
pub(crate) fn queue_push(
    q: &mut PriorityQueue<u64, Reverse<(u64, u64)>, ahash::RandomState>,
    id: u64,
    nanos: u64,
    seq: u64,
)
    ensures
        queue_entries(*final(q)) == queue_entries(*old(q)).insert(id, (nanos, seq)),
{
    q.push(id, Reverse((nanos, seq)));
}

/// `PriorityQueue::remove`: takes `id` out of the queue, if it is there, and
/// leaves every other entry as it was.
#[verifier::external_body]
pub(crate) fn queue_remove(
    q: &mut PriorityQueue<u64, Reverse<(u64, u64)>, ahash::RandomState>,
    id: u64,
)
    ensures
        queue_entries(*final(q)) == queue_entries(*old(q)).remove(id),
{
    q.remove(&id);
}

/// `PriorityQueue::get_priority`: the key under which `id` is filed, if it is
/// in the queue.
#[verifier::external_body]
pub(crate) fn queue_key(
    q: &PriorityQueue<u64, Reverse<(u64, u64)>, ahash::RandomState>,
    id: u64,
) -> (key: Option<(u64, u64)>)
    ensures
        key.is_some() == queue_entries(*q).contains_key(id),
        key.is_some() ==> key.unwrap() == queue_entries(*q)[id],
{
    match q.get_priority(&id) {
        Some(Reverse(key)) => Some(*key),
        None => None,
    }
}

/// `PriorityQueue::change_priority`: files `id` under the key
/// `(nanos, seq)` if it is in the queue, and changes nothing if it is not.
#[verifier::external_body]
pub(crate) fn queue_rekey(
    q: &mut PriorityQueue<u64, Reverse<(u64, u64)>, ahash::RandomState>,
    id: u64,
    nanos: u64,
    seq: u64,
)
    ensures
        queue_entries(*old(q)).contains_key(id) ==> queue_entries(*final(q)) == queue_entries(
            *old(q),
        ).insert(id, (nanos, seq)),
        !queue_entries(*old(q)).contains_key(id) ==> queue_entries(*final(q)) == queue_entries(
            *old(q),
        ),
{
    q.change_priority(&id, Reverse((nanos, seq)));
}

/// `PriorityQueue::peek`: nothing if the queue is empty; else an id with its
/// key such that no key in the queue is less. Which one, among ids filed
/// under equal keys, is left open.
#[verifier::external_body]
pub(crate) fn queue_peek(q: &PriorityQueue<u64, Reverse<(u64, u64)>, ahash::RandomState>) -> (top:
    Option<(u64, u64, u64)>)
    ensures
        top.is_none() ==> forall|id: u64| !queue_entries(*q).contains_key(id),
        top.is_some() ==> queue_entries(*q).contains_key(top.unwrap().0),
        top.is_some() ==> queue_entries(*q)[top.unwrap().0] == (top.unwrap().1, top.unwrap().2),
        top.is_some() ==> forall|id: u64|
            queue_entries(*q).contains_key(id) ==> key_le(
                (top.unwrap().1, top.unwrap().2),
                #[trigger] queue_entries(*q)[id],
            ),
{
    match q.peek() {
        Some((id, Reverse((nanos, seq)))) => Some((*id, *nanos, *seq)),
        None => None,
    }
}

/// `PriorityQueue::pop`: nothing if the queue is empty; else it takes out and
/// returns an id with its key such that no key in the queue was less. Which
/// one, among ids filed under equal keys, is left open.
#[verifier::external_body]
pub(crate) fn queue_pop(q: &mut PriorityQueue<u64, Reverse<(u64, u64)>, ahash::RandomState>) -> (top:
    Option<(u64, u64, u64)>)
    ensures
        top.is_none() ==> forall|id: u64| !queue_entries(*old(q)).contains_key(id),
        top.is_none() ==> queue_entries(*final(q)) == queue_entries(*old(q)),
        top.is_some() ==> queue_entries(*old(q)).contains_key(top.unwrap().0),
        top.is_some() ==> queue_entries(*old(q))[top.unwrap().0] == (
            top.unwrap().1,
            top.unwrap().2,
        ),
        top.is_some() ==> forall|id: u64|
            queue_entries(*old(q)).contains_key(id) ==> key_le(
                (top.unwrap().1, top.unwrap().2),
                #[trigger] queue_entries(*old(q))[id],
            ),
        top.is_some() ==> queue_entries(*final(q)) == queue_entries(*old(q)).remove(
            top.unwrap().0,
        ),
{
    match q.pop() {
        Some((id, Reverse((nanos, seq)))) => Some((id, nanos, seq)),
        None => None,
    }
}

} // verus!
