//! The per-message-type receivers: a queue of pending messages and the list of
//! subscriptions that each pending message goes to.
use crate::list::List;
use crate::outside::{queue_items, queue_len, queue_new, queue_pop, queue_push};
use crate::untyped::DynType;
use crate::TypeKey;
use crossbeam::queue::SegQueue;
use vstd::prelude::*;

verus! {

/// One call that a scheduling pass asks for: the handler in slot `slot`,
/// through the descriptor `handler`, is to handle the message `msg`.
#[derive(Clone, Copy, Debug, PartialEq, Eq, Structural)]
pub struct Delivery {
    pub slot: usize,
    pub handler: DynType,
    pub msg: u64,
}

/// The calls for one message: one per subscription, in subscription order.
pub open spec fn fan_out(msg: u64, subs: Seq<(usize, DynType)>) -> Seq<Delivery> {
    subs.map_values(|s: (usize, DynType)| Delivery { slot: s.0, handler: s.1, msg })
}

/// The calls for the messages `msgs`, message by message in order.
pub open spec fn deliveries(msgs: Seq<u64>, subs: Seq<(usize, DynType)>) -> Seq<Delivery>
    decreases msgs.len(),
{
    if msgs.len() == 0 {
        Seq::empty()
    } else {
        deliveries(msgs.drop_last(), subs) + fan_out(msgs.last(), subs)
    }
}

/// The pending messages of one message type and the subscriptions to it.
pub struct Receiver {
    key: TypeKey,
    queue: SegQueue<u64>,
    handlers: List<(usize, DynType)>,
    waker: bool,
}

impl Receiver {
    /// The message type served.
    pub closed spec fn key(&self) -> TypeKey {
        self.key
    }

    /// The messages waiting for a pass, oldest first.
    pub closed spec fn pending(&self) -> Seq<u64> {
        queue_items(self.queue)
    }

    /// The subscriptions, in the order they were made.
    pub closed spec fn subscribers(&self) -> Seq<(usize, DynType)> {
        self.handlers@
    }

    /// Whether the scheduler asked to be woken by the next message.
    pub closed spec fn wake_interest(&self) -> bool {
        self.waker
    }

    /// A receiver for the message type `key`, with nothing pending and no
    /// subscription.
    pub fn new(key: TypeKey) -> (r: Self)
        ensures
            r.key() == key,
            r.pending() == Seq::<u64>::empty(),
            r.subscribers() == Seq::<(usize, DynType)>::empty(),
            !r.wake_interest(),
    {
        Receiver { key, queue: queue_new(), handlers: List::new(), waker: false }
    }

    /// Queues `msg` for the next pass. Returns whether the scheduler had asked
    /// to be woken; that request is used up.
    pub fn enqueue(&mut self, msg: u64) -> (wake: bool)
        ensures
            final(self).key() == old(self).key(),
            final(self).subscribers() == old(self).subscribers(),
            final(self).pending() == old(self).pending().push(msg),
            wake == old(self).wake_interest(),
            !final(self).wake_interest(),
    {
        queue_push(&mut self.queue, msg);
        let wake = self.waker;
        self.waker = false;
        wake
    }

    /// Queues `msg` with asynchronous intent: there is no backpressure, so this
    /// queues at once, as `enqueue` does.
    pub fn enqueue_async(&mut self, msg: u64) -> (wake: bool)
        ensures
            final(self).key() == old(self).key(),
            final(self).subscribers() == old(self).subscribers(),
            final(self).pending() == old(self).pending().push(msg),
            wake == old(self).wake_interest(),
            !final(self).wake_interest(),
    {
        self.enqueue(msg)
    }

    /// Adds the subscription of the handler in slot `index`, called through
    /// `dtype`, after the others.
    pub fn register(&mut self, index: usize, dtype: DynType)
        ensures
            final(self).key() == old(self).key(),
            final(self).subscribers() == old(self).subscribers().push((index, dtype)),
            final(self).pending() == old(self).pending(),
            final(self).wake_interest() == old(self).wake_interest(),
    {
        self.handlers.append((index, dtype));
    }

    /// One pass. With no subscription, nothing is taken and the number of
    /// waiting messages comes back. Otherwise every pending message, oldest
    /// first, is handed to every subscription in order: the calls are added to
    /// `out`, the queue is left empty, the scheduler's wake request is
    /// recorded, and 0 comes back.
    pub fn process(&mut self, out: &mut Vec<Delivery>) -> (backlog: usize)
        ensures
            final(self).key() == old(self).key(),
            final(self).subscribers() == old(self).subscribers(),
            old(self).subscribers().len() == 0 ==> {
                &&& final(self).pending() == old(self).pending()
                &&& final(self).wake_interest() == old(self).wake_interest()
                &&& final(out)@ == old(out)@
                &&& backlog == old(self).pending().len()
            },
            old(self).subscribers().len() > 0 ==> {
                &&& final(self).pending() == Seq::<u64>::empty()
                &&& final(self).wake_interest()
                &&& final(out)@ == old(out)@ + deliveries(
                    old(self).pending(),
                    old(self).subscribers(),
                )
                &&& backlog == 0
            },
    {
        if self.handlers.is_empty() {
            return queue_len(&self.queue);
        }
        let ghost msgs = self.pending();
        let ghost subs = self.subscribers();
        let ghost mut done: int = 0;
        loop
            invariant
                0 <= done <= msgs.len(),
                self.key == old(self).key,
                self.waker == old(self).waker,
                self.handlers@ == subs,
                subs == old(self).subscribers(),
                msgs == old(self).pending(),
                queue_items(self.queue) == msgs.subrange(done, msgs.len() as int),
                out@ == old(out)@ + deliveries(msgs.subrange(0, done), subs),
            ensures
                self.key == old(self).key,
                self.waker == old(self).waker,
                self.handlers@ == subs,
                queue_items(self.queue) == Seq::<u64>::empty(),
                out@ == old(out)@ + deliveries(msgs, subs),
            decreases msgs.len() - done,
        {
            match queue_pop(&mut self.queue) {
                None => {
                    assert(msgs.subrange(0, done) =~= msgs);
                    assert(queue_items(self.queue) =~= Seq::<u64>::empty());
                    break ;
                },
                Some(m) => {
                    let ghost start = out@;
                    let mut it = self.handlers.iter();
                    let ghost mut j: int = 0;
                    loop
                        invariant
                            0 <= j <= subs.len(),
                            self.handlers@ == subs,
                            it@ == subs.subrange(j, subs.len() as int),
                            out@ == start + fan_out(m, subs.subrange(0, j)),
                        ensures
                            out@ == start + fan_out(m, subs),
                        decreases subs.len() - j,
                    {
                        match it.next() {
                            None => {
                                assert(subs.subrange(0, j) =~= subs);
                                break ;
                            },
                            Some(s) => {
                                out.push(Delivery { slot: s.0, handler: s.1, msg: m });
                                proof {
                                    assert(fan_out(m, subs.subrange(0, j + 1)) =~= fan_out(
                                        m,
                                        subs.subrange(0, j),
                                    ).push(Delivery { slot: s.0, handler: s.1, msg: m }));
                                    j = j + 1;
                                }
                                assert(it@ =~= subs.subrange(j, subs.len() as int));
                            },
                        }
                    }
                    proof {
                        let next = msgs.subrange(0, done + 1);
                        assert(next.drop_last() =~= msgs.subrange(0, done));
                        assert(next.last() == m);
                        assert(out@ =~= old(out)@ + deliveries(next, subs));
                        done = done + 1;
                    }
                    assert(queue_items(self.queue) =~= msgs.subrange(done, msgs.len() as int));
                },
            }
        }
        self.waker = true;
        0
    }
}

/// A receiver behind the uniform face that the bus holds for every message
/// type.
pub struct Shim {
    inner: Receiver,
}

impl Shim {
    /// The receiver behind the face.
    pub closed spec fn module(&self) -> Receiver {
        self.inner
    }

    /// A face over a new receiver for the message type `key`.
    pub fn new(key: TypeKey) -> (r: Self)
        ensures
            r.module().key() == key,
            r.module().pending() == Seq::<u64>::empty(),
            r.module().subscribers() == Seq::<(usize, DynType)>::empty(),
            !r.module().wake_interest(),
    {
        Shim { inner: Receiver::new(key) }
    }

    /// The receiver behind the face.
    pub fn cast_to_module(&self) -> (r: &Receiver)
        ensures
            *r == self.module(),
    {
        &self.inner
    }

    /// Adds a subscription; see `Receiver::register`.
    pub fn register(&mut self, index: usize, dtype: DynType)
        ensures
            final(self).module().key() == old(self).module().key(),
            final(self).module().subscribers() == old(self).module().subscribers().push(
                (index, dtype),
            ),
            final(self).module().pending() == old(self).module().pending(),
            final(self).module().wake_interest() == old(self).module().wake_interest(),
    {
        self.inner.register(index, dtype);
    }

    /// Queues `msg`, which must be of the receiver's type `key`.
    pub fn broadcast_dyn(&mut self, key: TypeKey, msg: u64) -> (wake: bool)
        requires
            key == old(self).module().key(),
        ensures
            final(self).module().key() == old(self).module().key(),
            final(self).module().subscribers() == old(self).module().subscribers(),
            final(self).module().pending() == old(self).module().pending().push(msg),
            wake == old(self).module().wake_interest(),
            !final(self).module().wake_interest(),
    {
        self.inner.enqueue(msg)
    }

    /// Queues `msg` with asynchronous intent; see `Receiver::enqueue_async`.
    pub fn broadcast(&mut self, msg: u64) -> (wake: bool)
        ensures
            final(self).module().key() == old(self).module().key(),
            final(self).module().subscribers() == old(self).module().subscribers(),
            final(self).module().pending() == old(self).module().pending().push(msg),
            wake == old(self).module().wake_interest(),
            !final(self).module().wake_interest(),
    {
        self.inner.enqueue_async(msg)
    }

    /// Queues `msg` at once; see `Receiver::enqueue`.
    pub fn broadcast_sync(&mut self, msg: u64) -> (wake: bool)
        ensures
            final(self).module().key() == old(self).module().key(),
            final(self).module().subscribers() == old(self).module().subscribers(),
            final(self).module().pending() == old(self).module().pending().push(msg),
            wake == old(self).module().wake_interest(),
            !final(self).module().wake_interest(),
    {
        self.inner.enqueue(msg)
    }

    /// One pass over the receiver; see `Receiver::process`.
    pub fn process(&mut self, out: &mut Vec<Delivery>) -> (backlog: usize)
        ensures
            final(self).module().key() == old(self).module().key(),
            final(self).module().subscribers() == old(self).module().subscribers(),
            old(self).module().subscribers().len() == 0 ==> {
                &&& final(self).module().pending() == old(self).module().pending()
                &&& final(self).module().wake_interest() == old(self).module().wake_interest()
                &&& final(out)@ == old(out)@
                &&& backlog == old(self).module().pending().len()
            },
            old(self).module().subscribers().len() > 0 ==> {
                &&& final(self).module().pending() == Seq::<u64>::empty()
                &&& final(self).module().wake_interest()
                &&& final(out)@ == old(out)@ + deliveries(
                    old(self).module().pending(),
                    old(self).module().subscribers(),
                )
                &&& backlog == 0
            },
    {
        self.inner.process(out)
    }
}

} // verus!
