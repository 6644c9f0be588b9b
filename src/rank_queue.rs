use priority_queue::PriorityQueue;
use vstd::prelude::*;

verus! {

#[verifier::external_type_specification]
#[verifier::external_body]
#[verifier::reject_recursive_types(I)]
#[verifier::reject_recursive_types(P)]
#[verifier::reject_recursive_types(H)]
pub struct ExPriorityQueue<I, P, H>(PriorityQueue<I, P, H>);

/// A rank: distance first, then cell index.
pub type Rank = (usize, usize);

/// A queue of entry positions, each ranked by its distance and cell.
pub type RankQueue = PriorityQueue<usize, Rank>;

/// Lexicographic order on ranks, the order std gives tuples.
pub open spec fn rank_le(a: Rank, b: Rank) -> bool {
    a.0 < b.0 || (a.0 == b.0 && a.1 <= b.1)
}

/// Strict lexicographic order on ranks.
pub open spec fn rank_lt(a: Rank, b: Rank) -> bool {
    a.0 < b.0 || (a.0 == b.0 && a.1 < b.1)
}

/// What a queue holds: each item with its priority.
pub uninterp spec fn queue_entries(q: RankQueue) -> Map<usize, Rank>;

/// Relies on `PriorityQueue::new`: the queue starts empty.
#[verifier::external_body]
pub(crate) fn queue_new() -> (r: RankQueue)
    ensures
        queue_entries(r).dom() == Set::<usize>::empty(),
{
    PriorityQueue::new()
}

/// Relies on `PriorityQueue::push`: the item is stored with the given
/// priority, and a priority it already had is handed back.
#[verifier::external_body]
pub(crate) fn queue_push(q: &mut RankQueue, item: usize, priority: Rank) -> (r: Option<Rank>)
    ensures
        queue_entries(*final(q)) == queue_entries(*old(q)).insert(item, priority),
        r == (if queue_entries(*old(q)).contains_key(item) {
            Some(queue_entries(*old(q))[item])
        } else {
            None::<Rank>
        }),
{
    q.push(item, priority)
}

/// Relies on `PriorityQueue::len`: the number of items held.
#[verifier::external_body]
pub(crate) fn queue_len(q: &RankQueue) -> (r: usize)
    ensures
        r == queue_entries(*q).len(),
{
    q.len()
}

/// Relies on `PriorityQueue::pop`: removes and returns an item with the
/// greatest priority, or returns `None` on an empty queue.
#[verifier::external_body]
pub(crate) fn queue_pop(q: &mut RankQueue) -> (r: Option<(usize, Rank)>)
    ensures
        r is None <==> queue_entries(*old(q)).dom() == Set::<usize>::empty(),
        r is None ==> queue_entries(*final(q)) == queue_entries(*old(q)),
        r matches Some((item, priority)) ==> {
            &&& queue_entries(*old(q)).contains_key(item)
            &&& queue_entries(*old(q))[item] == priority
            &&& queue_entries(*final(q)) == queue_entries(*old(q)).remove(item)
            &&& forall|j: usize| #[trigger] queue_entries(*old(q)).contains_key(j)
                ==> rank_le(queue_entries(*old(q))[j], priority)
        },
{
    q.pop()
}

} // verus!
