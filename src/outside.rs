//! The outside collections the bus relies on, and what it assumes of them.
use crossbeam::queue::SegQueue;
use sharded_slab::Slab;
use vstd::prelude::*;

verus! {

#[verifier::external_type_specification]
#[verifier::external_body]
#[verifier::reject_recursive_types(T)]
pub struct ExSegQueue<T>(SegQueue<T>);

/// A `Slab<u64>`, held out of Verus's sight: Verus refuses to declare the slab
/// type itself, whose configuration parameter is bound by an outside trait.
#[verifier::external_body]
pub struct SlotSlab {
    slab: Slab<u64>,
}

/// The values in a queue, front first.
pub uninterp spec fn queue_items(q: SegQueue<u64>) -> Seq<u64>;

/// The values in a slab, by key.
pub uninterp spec fn slab_items(s: SlotSlab) -> Map<usize, u64>;

/// Relies on `SegQueue::new`: a new queue is empty.
#[verifier::external_body]
pub(crate) fn queue_new() -> (r: SegQueue<u64>)
    ensures
        queue_items(r) == Seq::<u64>::empty(),
{
    SegQueue::new()
}

/// Relies on `SegQueue::push_mut`: the value goes to the back of the queue.
#[verifier::external_body]
pub(crate) fn queue_push(q: &mut SegQueue<u64>, v: u64)
    ensures
        queue_items(*final(q)) == queue_items(*old(q)).push(v),
{
    q.push_mut(v)
}

/// Relies on `SegQueue::pop_mut`: the front value is taken out, or `None` is
/// returned when the queue is empty.
#[verifier::external_body]
pub(crate) fn queue_pop(q: &mut SegQueue<u64>) -> (r: Option<u64>)
    ensures
        queue_items(*old(q)).len() == 0 ==> r is None && queue_items(*final(q)) == queue_items(
            *old(q),
        ),
        queue_items(*old(q)).len() > 0 ==> r == Some(queue_items(*old(q))[0]) && queue_items(
            *final(q),
        ) == queue_items(*old(q)).drop_first(),
{
    q.pop_mut()
}

/// Relies on `SegQueue::len`: the number of values in the queue.
#[verifier::external_body]
pub(crate) fn queue_len(q: &SegQueue<u64>) -> (r: usize)
    ensures
        r == queue_items(*q).len(),
{
    q.len()
}

/// Relies on `Slab::new`: a new slab is empty.
#[verifier::external_body]
pub(crate) fn slab_new() -> (r: SlotSlab)
    ensures
        slab_items(r).dom() == Set::<usize>::empty(),
{
    SlotSlab { slab: Slab::new() }
}

/// Relies on `Slab::insert`: the value is stored under a key that was free,
/// or, when the current thread's shard is full, nothing is stored and `None`
/// comes back.
#[verifier::external_body]
pub(crate) fn slab_insert(s: &mut SlotSlab, v: u64) -> (r: Option<usize>)
    ensures
        r is None ==> slab_items(*final(s)) == slab_items(*old(s)),
        r matches Some(k) ==> !slab_items(*old(s)).contains_key(k) && slab_items(*final(s))
            == slab_items(*old(s)).insert(k, v),
{
    s.slab.insert(v)
}

/// Relies on `Slab::get`: a value that comes back is the one stored under the
/// key; nothing comes back for a key that holds nothing.
#[verifier::external_body]
pub(crate) fn slab_get(s: &SlotSlab, k: usize) -> (r: Option<u64>)
    ensures
        !slab_items(*s).contains_key(k) ==> r is None,
        r matches Some(v) ==> slab_items(*s).contains_key(k) && slab_items(*s)[k] == v,
{
    s.slab.get(k).map(|e| *e)
}

} // verus!
