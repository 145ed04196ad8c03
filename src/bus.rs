//! The bus core: the store of handler instances, one receiver per message
//! type, and the scheduling pass over all of them.
//!
//! The core works on plain values: a message type is a `TypeKey`, a message is
//! a `u64` handle chosen by the caller, and a handler instance is known by the
//! slot id the store gave it. A pass returns the calls to make, in order; the
//! caller makes them, and messages sent from inside a call are queued for a
//! later pass.
use crate::hash_map::{bucket_of, HashMap};
use crate::outside::{slab_get, slab_insert, slab_items, slab_new, SlotSlab};
use crate::receiver::{deliveries, Delivery, Receiver, Shim};
use crate::untyped::{DynType, Untyped};
use crate::TypeKey;
use vstd::prelude::*;

verus! {

/// What became of a sent message.
#[derive(Clone, Copy, Debug, PartialEq, Eq, Structural)]
pub enum SendOutcome {
    /// No handler ever subscribed to the message's type: it was dropped.
    Unhandled,
    /// The message waits for the next pass. `wake` says whether the scheduler
    /// had asked to be woken by it.
    Queued { wake: bool },
}

/// A subscription fits when its descriptor names the receiver's message type
/// and the type of the instance in its slot.
pub open spec fn sub_fits(
    instances: Map<usize, TypeKey>,
    key: TypeKey,
    s: (usize, DynType),
) -> bool {
    &&& s.1.msg_type_id == key
    &&& instances.contains_key(s.0)
    &&& instances[s.0] == s.1.type_id
}

/// The calls of one pass over `shims`, receiver by receiver in order.
pub open spec fn pass(shims: Seq<Shim>) -> Seq<Delivery>
    decreases shims.len(),
{
    if shims.len() == 0 {
        Seq::empty()
    } else {
        pass(shims.drop_last()) + deliveries(
            shims.last().module().pending(),
            shims.last().module().subscribers(),
        )
    }
}

/// What queuing the message `msg` on the receiver of `key` makes of the bus
/// `before`: that receiver's queue gains `msg` at the back and its wake
/// request is used up; nothing else changes.
pub open spec fn queued(before: BusInner, after: BusInner, key: TypeKey, msg: u64) -> bool {
    &&& after.wf()
    &&& after.instances() == before.instances()
    &&& forall|k: TypeKey|
        #[trigger] after.has_route(k) == before.has_route(k) && after.index_of(k)
            == before.index_of(k)
    &&& after.shims().len() == before.shims().len()
    &&& after.route(key).key() == key
    &&& after.route(key).subscribers() == before.route(key).subscribers()
    &&& after.route(key).pending() == before.route(key).pending().push(msg)
    &&& !after.route(key).wake_interest()
    &&& forall|i: int|
        0 <= i < before.shims().len() && i != before.index_of(key) ==> #[trigger] after.shims()[i]
            == before.shims()[i]
}

/// What a scheduling pass makes of the bus `before`: every queue is empty and
/// every receiver has asked to be woken; nothing else changes.
pub open spec fn polled(before: BusInner, after: BusInner) -> bool {
    &&& after.wf()
    &&& after.instances() == before.instances()
    &&& forall|k: TypeKey|
        #[trigger] after.has_route(k) == before.has_route(k) && after.index_of(k)
            == before.index_of(k)
    &&& after.shims().len() == before.shims().len()
    &&& forall|i: int|
        0 <= i < after.shims().len() ==> {
            let m = (#[trigger] after.shims()[i]).module();
            &&& m.key() == before.shims()[i].module().key()
            &&& m.subscribers() == before.shims()[i].module().subscribers()
            &&& m.pending() == Seq::<u64>::empty()
            &&& m.wake_interest()
        }
}

/// The root of one bus.
pub struct BusInner {
    registry: SlotSlab,
    receivers: HashMap<usize>,
    shims: Vec<Shim>,
}

impl BusInner {
    /// The registered handler instances: slot id to the key of their type.
    pub closed spec fn instances(&self) -> Map<usize, TypeKey> {
        slab_items(self.registry)
    }

    /// The receivers, in the order of their creation.
    pub closed spec fn shims(&self) -> Seq<Shim> {
        self.shims@
    }

    /// Whether messages of type `key` have a receiver.
    pub closed spec fn has_route(&self, key: TypeKey) -> bool {
        self.receivers.items_of(key).len() > 0
    }

    /// The position among `shims()` of the receiver of `key`.
    pub closed spec fn index_of(&self, key: TypeKey) -> int {
        self.receivers.items_of(key)[0] as int
    }

    /// The receiver of messages of type `key`.
    pub open spec fn route(&self, key: TypeKey) -> Receiver {
        self.shims()[self.index_of(key)].module()
    }

    /// The receiver at position `i` is routed to by its key alone, has a
    /// subscription, and each of its subscriptions fits.
    closed spec fn shim_ok(&self, i: int) -> bool {
        let m = self.shims@[i].module();
        &&& self.receivers.items_of(m.key()).len() == 1
        &&& self.receivers.items_of(m.key())[0] as int == i
        &&& m.subscribers().len() > 0
        &&& forall|j: int|
            0 <= j < m.subscribers().len() ==> sub_fits(
                self.instances(),
                m.key(),
                #[trigger] m.subscribers()[j],
            )
    }

    /// At most one receiver per key, each where the map says, and every
    /// receiver well placed.
    pub closed spec fn wf(&self) -> bool {
        &&& self.receivers.wf()
        &&& forall|k: TypeKey| #![trigger self.receivers.items_of(k)]
            self.receivers.items_of(k).len() <= 1 && (self.receivers.items_of(k).len() == 1 ==> {
                &&& self.receivers.items_of(k)[0] < self.shims@.len()
                &&& self.shims@[self.receivers.items_of(k)[0] as int].module().key() == k
            })
        &&& forall|i: int| 0 <= i < self.shims@.len() ==> #[trigger] self.shim_ok(i)
    }

    /// The receiver of a routed key is one of the receivers.
    pub proof fn lemma_route_in_range(&self, key: TypeKey)
        requires
            self.wf(),
            self.has_route(key),
        ensures
            0 <= self.index_of(key) < self.shims().len(),
            self.route(key).key() == key,
    {
        assert(self.receivers.items_of(key).len() <= 1);
    }

    /// Under the invariant every receiver is the route of its own key, so no
    /// two receivers serve one key; it has a subscription, and each of its
    /// subscriptions names its key.
    pub proof fn lemma_receivers_are_routes(&self)
        requires
            self.wf(),
        ensures
            forall|i: int|
                0 <= i < self.shims().len() ==> {
                    let m = (#[trigger] self.shims()[i]).module();
                    &&& self.has_route(m.key())
                    &&& self.index_of(m.key()) == i
                    &&& m.subscribers().len() > 0
                    &&& forall|j: int|
                        0 <= j < m.subscribers().len() ==> (
                        #[trigger] m.subscribers()[j]).1.msg_type_id == m.key()
                },
            forall|i: int, j: int|
                0 <= i < self.shims().len() && 0 <= j < self.shims().len() && #[trigger] self.shims()[i].module().key()
                    == #[trigger] self.shims()[j].module().key() ==> i == j,
    {
        assert forall|i: int| 0 <= i < self.shims().len() implies {
            let m = (#[trigger] self.shims()[i]).module();
            &&& self.has_route(m.key())
            &&& self.index_of(m.key()) == i
            &&& m.subscribers().len() > 0
            &&& forall|j: int|
                0 <= j < m.subscribers().len() ==> (#[trigger] m.subscribers()[j]).1.msg_type_id
                    == m.key()
        } by {
            assert(self.shim_ok(i));
            let m = self.shims@[i].module();
            assert forall|j: int| 0 <= j < m.subscribers().len() implies (
            #[trigger] m.subscribers()[j]).1.msg_type_id == m.key() by {
                assert(sub_fits(self.instances(), m.key(), m.subscribers()[j]));
            }
        }
        assert forall|i: int, j: int|
            0 <= i < self.shims().len() && 0 <= j < self.shims().len() && #[trigger] self.shims()[i].module().key()
                == #[trigger] self.shims()[j].module().key() implies i == j by {
            assert(self.shim_ok(i));
            assert(self.shim_ok(j));
        }
    }

    /// No subscription names a message type that has no receiver.
    pub proof fn lemma_subscriptions_avoid(&self, key: TypeKey)
        requires
            self.wf(),
            !self.has_route(key),
        ensures
            forall|i: int, j: int|
                0 <= i < self.shims().len() && 0 <= j < self.shims()[i].module().subscribers().len()
                    ==> (#[trigger] self.shims()[i].module().subscribers()[j]).1.msg_type_id != key,
    {
        assert forall|i: int, j: int|
            0 <= i < self.shims().len() && 0 <= j < self.shims()[i].module().subscribers().len()
                implies (#[trigger] self.shims()[i].module().subscribers()[j]).1.msg_type_id
            != key by {
            assert(self.shim_ok(i));
            let m = self.shims@[i].module();
            assert(sub_fits(self.instances(), m.key(), m.subscribers()[j]));
            assert(self.has_route(m.key()));
        }
    }

    /// A bus with no handler and no receiver.
    pub fn new() -> (r: Self)
        ensures
            r.wf(),
            r.instances().dom() == Set::<usize>::empty(),
            r.shims() == Seq::<Shim>::empty(),
            forall|k: TypeKey| !r.has_route(k),
    {
        let r = BusInner { registry: slab_new(), receivers: HashMap::new(), shims: Vec::new() };
        assert forall|k: TypeKey| #[trigger] r.receivers.items_of(k).len() == 0 by {
            assert(r.receivers.buckets()[bucket_of(k)].len() == 0);
        }
        r
    }

    /// Stores a handler instance of the type `type_id` and returns its entry,
    /// through which it subscribes. `None` when the store has no room left
    /// for the current thread; nothing is stored then.
    pub fn register(&mut self, type_id: TypeKey) -> (r: Option<Entry>)
        requires
            old(self).wf(),
        ensures
            final(self).wf(),
            final(self).shims() == old(self).shims(),
            forall|k: TypeKey|
                #[trigger] final(self).has_route(k) == old(self).has_route(k)
                    && final(self).index_of(k) == old(self).index_of(k),
            r is None ==> final(self).instances() == old(self).instances(),
            r matches Some(e) ==> {
                &&& e.type_id == type_id
                &&& !old(self).instances().contains_key(e.id)
                &&& final(self).instances() == old(self).instances().insert(e.id, type_id)
            },
    {
        let r = match slab_insert(&mut self.registry, type_id) {
            None => None,
            Some(id) => Some(Entry { id, type_id }),
        };
        assert forall|i: int| 0 <= i < self.shims@.len() implies #[trigger] self.shim_ok(i) by {
            assert(old(self).shim_ok(i));
        }
        r
    }

    /// The record of the instance in slot `id`, for checking a descriptor
    /// before a call. `None` for a slot that holds nothing; the store may also
    /// answer `None` when too many readers hold the slot at once.
    pub fn instance(&self, id: usize) -> (r: Option<Untyped>)
        ensures
            !self.instances().contains_key(id) ==> r is None,
            r matches Some(u) ==> self.instances().contains_key(id) && u.type_id()
                == self.instances()[id],
    {
        match slab_get(&self.registry, id) {
            None => None,
            Some(t) => Some(Untyped::new(t)),
        }
    }

    /// Sends the message `msg` of type `key`: it is queued on the receiver of
    /// `key`, or dropped when there is none.
    pub fn send(&mut self, key: TypeKey, msg: u64) -> (r: SendOutcome)
        requires
            old(self).wf(),
        ensures
            final(self).wf(),
            final(self).instances() == old(self).instances(),
            final(self).shims().len() == old(self).shims().len(),
            forall|k: TypeKey|
                #[trigger] final(self).has_route(k) == old(self).has_route(k)
                    && final(self).index_of(k) == old(self).index_of(k),
            !old(self).has_route(key) ==> r == SendOutcome::Unhandled && final(self).shims()
                == old(self).shims(),
            old(self).has_route(key) ==> r == (SendOutcome::Queued {
                wake: old(self).route(key).wake_interest(),
            }) && queued(*old(self), *final(self), key, msg),
    {
        match self.receivers.get(key) {
            None => SendOutcome::Unhandled,
            Some(idx) => {
                let i = *idx;
                assert(self.receivers.items_of(key).len() == 1);
                let wake = self.shims[i].broadcast_sync(msg);
                assert forall|j: int| 0 <= j < self.shims@.len() implies #[trigger] self.shim_ok(
                    j,
                ) by {
                    assert(old(self).shim_ok(j));
                    if j == i {
                        assert(self.shims@[j].module().subscribers()
                            == old(self).shims@[j].module().subscribers());
                    }
                }
                SendOutcome::Queued { wake }
            },
        }
    }

    /// Sends with asynchronous intent. Queues are unbounded, so this queues at
    /// once, as `send` does.
    pub fn send_async(&mut self, key: TypeKey, msg: u64) -> (r: SendOutcome)
        requires
            old(self).wf(),
        ensures
            final(self).wf(),
            final(self).instances() == old(self).instances(),
            final(self).shims().len() == old(self).shims().len(),
            forall|k: TypeKey|
                #[trigger] final(self).has_route(k) == old(self).has_route(k)
                    && final(self).index_of(k) == old(self).index_of(k),
            !old(self).has_route(key) ==> r == SendOutcome::Unhandled && final(self).shims()
                == old(self).shims(),
            old(self).has_route(key) ==> r == (SendOutcome::Queued {
                wake: old(self).route(key).wake_interest(),
            }) && queued(*old(self), *final(self), key, msg),
    {
        self.send(key, msg)
    }

    /// One scheduling pass: every receiver, in order of creation, hands each
    /// pending message to each of its subscriptions. Returns the calls to
    /// make, in order; every queue is then empty and every receiver has asked
    /// to be woken by its next message. Every receiver has a subscription, so
    /// none is left holding a backlog.
    pub fn poll(&mut self) -> (r: Vec<Delivery>)
        requires
            old(self).wf(),
        ensures
            final(self).wf(),
            final(self).instances() == old(self).instances(),
            forall|k: TypeKey|
                #[trigger] final(self).has_route(k) == old(self).has_route(k)
                    && final(self).index_of(k) == old(self).index_of(k),
            polled(*old(self), *final(self)),
            r@ == pass(old(self).shims()),
    {
        let mut out: Vec<Delivery> = Vec::new();
        let n = self.shims.len();
        let mut i: usize = 0;
        while i < n
            invariant
                old(self).wf(),
                i <= n,
                n == self.shims@.len(),
                n == old(self).shims@.len(),
                self.registry == old(self).registry,
                self.receivers == old(self).receivers,
                forall|j: int|
                    0 <= j < n ==> {
                        let m = (#[trigger] self.shims@[j]).module();
                        &&& m.key() == old(self).shims@[j].module().key()
                        &&& m.subscribers() == old(self).shims@[j].module().subscribers()
                    },
                forall|j: int|
                    0 <= j < i ==> {
                        let m = (#[trigger] self.shims@[j]).module();
                        &&& m.pending() == Seq::<u64>::empty()
                        &&& m.wake_interest()
                    },
                forall|j: int| i <= j < n ==> #[trigger] self.shims@[j] == old(self).shims@[j],
                out@ == pass(old(self).shims@.take(i as int)),
            decreases n - i,
        {
            assert(old(self).shim_ok(i as int));
            self.shims[i].process(&mut out);
            proof {
                let next = old(self).shims@.take(i + 1);
                assert(next.drop_last() =~= old(self).shims@.take(i as int));
            }
            i = i + 1;
        }
        assert(old(self).shims@.take(n as int) =~= old(self).shims@);
        assert forall|j: int| 0 <= j < self.shims@.len() implies #[trigger] self.shim_ok(j) by {
            assert(old(self).shim_ok(j));
        }
        out
    }
}

/// What a subscription of the instance in slot `id`, of type `type_id`, to
/// messages of type `key` makes of the bus `before`: the receiver of `key`,
/// made if there was none, gains the subscription at the end of its list, and
/// nothing else changes.
pub open spec fn subscribed(
    before: BusInner,
    after: BusInner,
    id: usize,
    type_id: TypeKey,
    key: TypeKey,
) -> bool {
    let had = before.has_route(key);
    &&& after.wf()
    &&& after.instances() == before.instances()
    &&& after.has_route(key)
    &&& after.route(key).key() == key
    &&& after.route(key).subscribers() == (if had {
        before.route(key).subscribers()
    } else {
        Seq::empty()
    }).push((id, DynType { msg_type_id: key, type_id }))
    &&& after.route(key).pending() == (if had {
        before.route(key).pending()
    } else {
        Seq::empty()
    })
    &&& after.route(key).wake_interest() == (had && before.route(key).wake_interest())
    &&& forall|k: TypeKey|
        k != key ==> #[trigger] after.has_route(k) == before.has_route(k) && (before.has_route(k)
            ==> after.route(k) == before.route(k) && after.index_of(k) == before.index_of(k))
    &&& after.shims().len() == before.shims().len() + (if had {
        0int
    } else {
        1int
    })
    &&& after.index_of(key) == (if had {
        before.index_of(key)
    } else {
        before.shims().len() as int
    })
    &&& forall|i: int|
        0 <= i < before.shims().len() && !(had && i == before.index_of(key)) ==> #[trigger] after.shims()[i]
            == before.shims()[i]
}

/// A registered handler instance: its slot id and the key of its type.
pub struct Entry {
    pub id: usize,
    pub type_id: TypeKey,
}

impl Entry {
    /// Subscribes the instance to messages of type `msg_type`, making the
    /// receiver of that type first if there is none. Returns the entry, for
    /// further subscriptions.
    pub fn subscribe(self, bus: &mut BusInner, msg_type: TypeKey) -> (r: Entry)
        requires
            old(bus).wf(),
            old(bus).instances().contains_key(self.id),
            old(bus).instances()[self.id] == self.type_id,
        ensures
            r == self,
            subscribed(*old(bus), *final(bus), self.id, self.type_id, msg_type),
    {
        let ghost had = bus.has_route(msg_type);
        if bus.receivers.get(msg_type).is_none() {
            let idx = bus.shims.len();
            bus.shims.push(Shim::new(msg_type));
            bus.receivers.insert(msg_type, idx);
        }
        assert(bus.receivers.items_of(msg_type).len() == 1);
        let i = match bus.receivers.get(msg_type) {
            Some(idx) => *idx,
            None => 0,
        };
        let ghost mid = bus.shims@;
        assert(i == bus.receivers.items_of(msg_type)[0]);
        assert(had ==> bus.receivers == old(bus).receivers);
        bus.shims[i].register(self.id, DynType::new(msg_type, self.type_id));
        assert forall|j: int| 0 <= j < bus.shims@.len() implies #[trigger] bus.shim_ok(j) by {
            let m = bus.shims@[j].module();
            if j != i {
                assert(j < old(bus).shims@.len());
                assert(old(bus).shim_ok(j));
                assert(bus.shims@[j] == mid[j]);
                assert(mid[j] == old(bus).shims@[j]);
                if m.key() == msg_type {
                    assert(old(bus).receivers.items_of(msg_type) == seq![j as usize]);
                    assert(had);
                }
                assert(bus.receivers.items_of(m.key()) == old(bus).receivers.items_of(m.key()));
            } else {
                if had {
                    assert(old(bus).shim_ok(j));
                }
                assert(m.key() == msg_type);
                assert(bus.receivers.items_of(m.key()) =~= seq![j as usize]);
                assert forall|t: int| 0 <= t < m.subscribers().len() implies sub_fits(
                    bus.instances(),
                    m.key(),
                    #[trigger] m.subscribers()[t],
                ) by {
                    if t < m.subscribers().len() - 1 {
                        assert(m.subscribers()[t] == mid[j].module().subscribers()[t]);
                        assert(had);
                    }
                }
            }
        }
        assert forall|k: TypeKey| #![trigger bus.receivers.items_of(k)]
            bus.receivers.items_of(k).len() <= 1 && (bus.receivers.items_of(k).len() == 1 ==> {
                &&& bus.receivers.items_of(k)[0] < bus.shims@.len()
                &&& bus.shims@[bus.receivers.items_of(k)[0] as int].module().key() == k
            }) by {
            assert(old(bus).receivers.items_of(k).len() <= 1);
        }
        assert forall|k: TypeKey|
            k != msg_type implies #[trigger] bus.has_route(k) == old(bus).has_route(k) && (old(
                bus,
            ).has_route(k) ==> bus.route(k) == old(bus).route(k) && bus.index_of(k) == old(
                bus,
            ).index_of(k)) by {
            assert(old(bus).receivers.items_of(k).len() <= 1);
        }
        assert forall|j: int|
            0 <= j < old(bus).shims@.len() && !(had && j == old(bus).index_of(msg_type))
                implies #[trigger] bus.shims@[j] == old(bus).shims@[j] by {
            assert(j != i);
            assert(bus.shims@[j] == mid[j]);
        }
        self
    }
}

} // verus!
