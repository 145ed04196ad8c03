//! Properties of the bus that span several operations.
use crate::bus::{pass, polled, queued, subscribed, BusInner};
use crate::receiver::{deliveries, fan_out, Delivery, Shim};
use crate::untyped::DynType;
use crate::TypeKey;
use vstd::prelude::*;

verus! {

/// Within one receiver the calls go message by message in the order the
/// messages were sent, and for each message subscription by subscription in
/// the order the subscriptions were made: the call for the `i`-th message and
/// the `j`-th subscription stands at `i * subs.len() + j`.
pub proof fn lemma_delivery_order(msgs: Seq<u64>, subs: Seq<(usize, DynType)>)
    ensures
        deliveries(msgs, subs).len() == msgs.len() * subs.len(),
        forall|i: int, j: int|
            0 <= i < msgs.len() && 0 <= j < subs.len() ==> #[trigger] deliveries(msgs, subs)[i
                * subs.len() + j] == (Delivery { slot: subs[j].0, handler: subs[j].1, msg: msgs[i] }),
    decreases msgs.len(),
{
    if msgs.len() > 0 {
        let prev = msgs.drop_last();
        lemma_delivery_order(prev, subs);
        let n = subs.len();
        let d = deliveries(msgs, subs);
        assert(d == deliveries(prev, subs) + fan_out(msgs.last(), subs));
        assert(prev.len() * n + n == msgs.len() * n) by (nonlinear_arith)
            requires
                prev.len() + 1 == msgs.len(),
        ;
        assert forall|i: int, j: int| 0 <= i < msgs.len() && 0 <= j < n implies #[trigger] d[i
            * n + j] == (Delivery { slot: subs[j].0, handler: subs[j].1, msg: msgs[i] }) by {
            if i < prev.len() {
                assert(i * n + j < prev.len() * n) by (nonlinear_arith)
                    requires
                        i < prev.len(),
                        0 <= j < n,
                ;
                assert(0 <= i * n) by (nonlinear_arith)
                    requires
                        0 <= i,
                        0 <= n,
                ;
                assert(msgs[i] == prev[i]);
            } else {
                assert(i == prev.len());
            }
        }
    }
}

/// The calls for messages over subscriptions that all name other message
/// types than `key` name other types than `key` too.
proof fn lemma_deliveries_avoid(msgs: Seq<u64>, subs: Seq<(usize, DynType)>, key: TypeKey)
    requires
        forall|j: int| 0 <= j < subs.len() ==> (#[trigger] subs[j]).1.msg_type_id != key,
    ensures
        forall|t: int|
            0 <= t < deliveries(msgs, subs).len() ==> (#[trigger] deliveries(msgs, subs)[t]).handler.msg_type_id
                != key,
    decreases msgs.len(),
{
    if msgs.len() > 0 {
        let prev = deliveries(msgs.drop_last(), subs);
        let tail = fan_out(msgs.last(), subs);
        lemma_deliveries_avoid(msgs.drop_last(), subs, key);
        assert forall|t: int| 0 <= t < (prev + tail).len() implies (#[trigger] (prev
            + tail)[t]).handler.msg_type_id != key by {
            if t >= prev.len() {
                assert(tail[t - prev.len()].handler == subs[t - prev.len()].1);
            }
        }
    }
}

/// A pass over receivers whose subscriptions all name other message types
/// than `key` asks for no call with a message of type `key`.
proof fn lemma_pass_avoids(shims: Seq<Shim>, key: TypeKey)
    requires
        forall|i: int, j: int|
            0 <= i < shims.len() && 0 <= j < shims[i].module().subscribers().len()
                ==> (#[trigger] shims[i].module().subscribers()[j]).1.msg_type_id != key,
    ensures
        forall|t: int|
            0 <= t < pass(shims).len() ==> (#[trigger] pass(shims)[t]).handler.msg_type_id != key,
    decreases shims.len(),
{
    if shims.len() > 0 {
        let prev = shims.drop_last();
        assert forall|i: int, j: int|
            0 <= i < prev.len() && 0 <= j < prev[i].module().subscribers().len() implies (
            #[trigger] prev[i].module().subscribers()[j]).1.msg_type_id != key by {
            assert(prev[i] == shims[i]);
        }
        lemma_pass_avoids(prev, key);
        let last = shims.last().module();
        assert forall|j: int| 0 <= j < last.subscribers().len() implies (
        #[trigger] last.subscribers()[j]).1.msg_type_id != key by {
            assert(shims[shims.len() - 1].module().subscribers()[j] == last.subscribers()[j]);
        }
        lemma_deliveries_avoid(last.pending(), last.subscribers(), key);
        let a = pass(prev);
        let b = deliveries(last.pending(), last.subscribers());
        assert forall|t: int| 0 <= t < (a + b).len() implies (#[trigger] (a
            + b)[t]).handler.msg_type_id != key by {
            if t >= a.len() {
                assert(b[t - a.len()].handler.msg_type_id != key);
            }
        }
    }
}

/// The calls among `ds` that carry messages of type `key`, in order.
pub open spec fn calls_of(ds: Seq<Delivery>, key: TypeKey) -> Seq<Delivery> {
    ds.filter(|d: Delivery| d.handler.msg_type_id == key)
}

/// Keeping the calls of one type keeps all of a sequence whose calls are all
/// of that type.
proof fn lemma_calls_of_all(ds: Seq<Delivery>, key: TypeKey)
    requires
        forall|t: int| 0 <= t < ds.len() ==> (#[trigger] ds[t]).handler.msg_type_id == key,
    ensures
        calls_of(ds, key) == ds,
    decreases ds.len(),
{
    reveal_with_fuel(Seq::filter, 1);
    if ds.len() > 0 {
        lemma_calls_of_all(ds.drop_last(), key);
        assert(ds.drop_last().push(ds.last()) =~= ds);
    }
}

/// Keeping the calls of one type keeps none of a sequence whose calls are
/// all of other types.
proof fn lemma_calls_of_none(ds: Seq<Delivery>, key: TypeKey)
    requires
        forall|t: int| 0 <= t < ds.len() ==> (#[trigger] ds[t]).handler.msg_type_id != key,
    ensures
        calls_of(ds, key) == Seq::<Delivery>::empty(),
    decreases ds.len(),
{
    reveal_with_fuel(Seq::filter, 1);
    if ds.len() > 0 {
        lemma_calls_of_none(ds.drop_last(), key);
    }
}

/// The calls for messages over subscriptions that all name the type `key`
/// name `key` too.
proof fn lemma_deliveries_of_type(msgs: Seq<u64>, subs: Seq<(usize, DynType)>, key: TypeKey)
    requires
        forall|j: int| 0 <= j < subs.len() ==> (#[trigger] subs[j]).1.msg_type_id == key,
    ensures
        forall|t: int|
            0 <= t < deliveries(msgs, subs).len() ==> (#[trigger] deliveries(msgs, subs)[t]).handler.msg_type_id
                == key,
    decreases msgs.len(),
{
    if msgs.len() > 0 {
        let prev = deliveries(msgs.drop_last(), subs);
        let tail = fan_out(msgs.last(), subs);
        lemma_deliveries_of_type(msgs.drop_last(), subs, key);
        assert forall|t: int| 0 <= t < (prev + tail).len() implies (#[trigger] (prev
            + tail)[t]).handler.msg_type_id == key by {
            if t >= prev.len() {
                assert(tail[t - prev.len()].handler == subs[t - prev.len()].1);
            }
        }
    }
}

/// Over receivers each of whose subscriptions names the receiver's own type,
/// with the receiver at `idx` the only one of type `key`, the calls of type
/// `key` in a pass are those of that receiver.
proof fn lemma_pass_calls_of(shims: Seq<Shim>, key: TypeKey, idx: int)
    requires
        0 <= idx < shims.len(),
        shims[idx].module().key() == key,
        forall|i: int| 0 <= i < shims.len() && i != idx ==> (#[trigger] shims[i]).module().key() != key,
        forall|i: int, j: int|
            0 <= i < shims.len() && 0 <= j < shims[i].module().subscribers().len()
                ==> (#[trigger] shims[i].module().subscribers()[j]).1.msg_type_id
                == shims[i].module().key(),
    ensures
        calls_of(pass(shims), key) == deliveries(
            shims[idx].module().pending(),
            shims[idx].module().subscribers(),
        ),
    decreases shims.len(),
{
    let prev = shims.drop_last();
    let last = shims.last().module();
    let lk = last.key();
    let p = |d: Delivery| d.handler.msg_type_id == key;
    assert forall|j: int| 0 <= j < last.subscribers().len() implies (
    #[trigger] last.subscribers()[j]).1.msg_type_id == lk by {
        assert(shims[shims.len() - 1].module().subscribers()[j] == last.subscribers()[j]);
    }
    lemma_deliveries_of_type(last.pending(), last.subscribers(), lk);
    let tail = deliveries(last.pending(), last.subscribers());
    Seq::filter_distributes_over_add(pass(prev), tail, p);
    if idx < shims.len() - 1 {
        assert(prev[idx] == shims[idx]);
        assert forall|i: int| 0 <= i < prev.len() && i != idx implies (
        #[trigger] prev[i]).module().key() != key by {
            assert(prev[i] == shims[i]);
        }
        assert forall|i: int, j: int|
            0 <= i < prev.len() && 0 <= j < prev[i].module().subscribers().len() implies (
            #[trigger] prev[i].module().subscribers()[j]).1.msg_type_id
                == prev[i].module().key() by {
            assert(prev[i] == shims[i]);
        }
        lemma_pass_calls_of(prev, key, idx);
        assert(lk != key);
        lemma_calls_of_none(tail, key);
        assert(calls_of(pass(prev), key) + calls_of(tail, key) =~= calls_of(pass(prev), key));
    } else {
        assert forall|i: int, j: int|
            0 <= i < prev.len() && 0 <= j < prev[i].module().subscribers().len() implies (
            #[trigger] prev[i].module().subscribers()[j]).1.msg_type_id != key by {
            assert(prev[i] == shims[i]);
            assert(shims[i].module().key() != key);
        }
        lemma_pass_avoids(prev, key);
        lemma_calls_of_none(pass(prev), key);
        lemma_calls_of_all(tail, key);
        assert(calls_of(pass(prev), key) + calls_of(tail, key) =~= tail);
    }
}

/// In one scheduling pass the calls that carry messages of a routed type
/// `key` are exactly that type's receiver's: its pending messages in send
/// order, each handed to every subscription in subscription order. Calls for
/// other types never come in between as far as `key` is concerned, and no
/// other receiver adds a call of type `key`.
pub proof fn lemma_pass_per_type(bus: BusInner, key: TypeKey)
    requires
        bus.wf(),
        bus.has_route(key),
    ensures
        calls_of(pass(bus.shims()), key) == deliveries(
            bus.route(key).pending(),
            bus.route(key).subscribers(),
        ),
{
    bus.lemma_route_in_range(key);
    bus.lemma_receivers_are_routes();
    let shims = bus.shims();
    let idx = bus.index_of(key);
    assert(shims[idx].module().key() == key);
    assert forall|i: int| 0 <= i < shims.len() && i != idx implies (
    #[trigger] shims[i]).module().key() != key by {
        assert(shims[i].module().key() == shims[i].module().key());
    }
    assert forall|i: int, j: int|
        0 <= i < shims.len() && 0 <= j < shims[i].module().subscribers().len() implies (
        #[trigger] shims[i].module().subscribers()[j]).1.msg_type_id
            == shims[i].module().key() by {
        let m = shims[i].module();
        assert(m.subscribers()[j].1.msg_type_id == m.key());
    }
    lemma_pass_calls_of(shims, key, idx);
}

/// Messages of a type that no handler subscribed to are never handed to any
/// handler: no call of a scheduling pass carries that type.
pub proof fn lemma_unsubscribed_type_never_delivered(bus: BusInner, key: TypeKey)
    requires
        bus.wf(),
        !bus.has_route(key),
    ensures
        forall|t: int|
            0 <= t < pass(bus.shims()).len() ==> (#[trigger] pass(bus.shims())[t]).handler.msg_type_id
                != key,
{
    bus.lemma_subscriptions_avoid(key);
    lemma_pass_avoids(bus.shims(), key);
}

/// A pass over receivers of which only the one at `idx` has anything
/// pending, the single message `msg`, asks for the calls of `msg` to that
/// receiver's subscriptions and nothing else.
proof fn lemma_pass_of_single(shims: Seq<Shim>, idx: int, msg: u64)
    requires
        0 <= idx < shims.len(),
        shims[idx].module().pending() == seq![msg],
        forall|i: int|
            0 <= i < shims.len() && i != idx ==> (#[trigger] shims[i]).module().pending()
                == Seq::<u64>::empty(),
    ensures
        pass(shims) == fan_out(msg, shims[idx].module().subscribers()),
    decreases shims.len(),
{
    let prev = shims.drop_last();
    let last = shims.last().module();
    let empty = Seq::<u64>::empty();
    if idx < shims.len() - 1 {
        assert(prev[idx] == shims[idx]);
        assert forall|i: int| 0 <= i < prev.len() && i != idx implies (
        #[trigger] prev[i]).module().pending() == empty by {
            assert(prev[i] == shims[i]);
        }
        lemma_pass_of_single(prev, idx, msg);
        assert(last.pending() == empty);
        assert(deliveries(empty, last.subscribers()) == Seq::<Delivery>::empty());
        assert(pass(shims) =~= fan_out(msg, shims[idx].module().subscribers()));
    } else {
        lemma_pass_of_nothing(prev);
        let one = seq![msg];
        assert(one.drop_last() =~= empty);
        assert(deliveries(empty, last.subscribers()) == Seq::<Delivery>::empty());
        assert(pass(shims) =~= fan_out(msg, shims[idx].module().subscribers()));
    }
}

/// A pass over receivers with nothing pending asks for no call.
proof fn lemma_pass_of_nothing(shims: Seq<Shim>)
    requires
        forall|i: int| 0 <= i < shims.len() ==> (#[trigger] shims[i]).module().pending()
            == Seq::<u64>::empty(),
    ensures
        pass(shims) == Seq::<Delivery>::empty(),
    decreases shims.len(),
{
    if shims.len() > 0 {
        let prev = shims.drop_last();
        assert forall|i: int| 0 <= i < prev.len() implies (#[trigger] prev[i]).module().pending()
            == Seq::<u64>::empty() by {
            assert(prev[i] == shims[i]);
        }
        lemma_pass_of_nothing(prev);
        assert(shims.last().module().pending() == Seq::<u64>::empty());
        assert(pass(shims) =~= Seq::<Delivery>::empty());
    }
}

/// A message sent while the calls of a pass are being made, from inside a
/// handler or elsewhere, is not among those calls: the pass handed them all
/// out before. The next pass hands it to every subscriber of its type, in
/// subscription order, and asks for nothing else.
pub proof fn lemma_send_during_dispatch_goes_to_next_pass(
    before: BusInner,
    after_pass: BusInner,
    after_send: BusInner,
    key: TypeKey,
    msg: u64,
)
    requires
        before.wf(),
        polled(before, after_pass),
        after_pass.has_route(key),
        queued(after_pass, after_send, key, msg),
    ensures
        pass(after_send.shims()) == fan_out(msg, after_send.route(key).subscribers()),
{
    after_pass.lemma_route_in_range(key);
    let idx = after_pass.index_of(key);
    let shims = after_send.shims();
    assert(after_send.has_route(key) == after_pass.has_route(key));
    assert(after_pass.shims()[idx].module().pending() == Seq::<u64>::empty());
    assert(shims[idx].module().pending() =~= seq![msg]);
    assert forall|i: int| 0 <= i < shims.len() && i != idx implies (
    #[trigger] shims[i]).module().pending() == Seq::<u64>::empty() by {
        assert(shims[i] == after_pass.shims()[i]);
        assert(after_pass.shims()[i].module().pending() == Seq::<u64>::empty());
    }
    lemma_pass_of_single(shims, idx, msg);
}

/// Two first subscriptions to a message type that had no receiver, one after
/// the other, are both kept: the first makes the one receiver of the type,
/// the second finds it and adds no other, and the receiver lists both, in
/// order.
pub proof fn lemma_first_subscriptions_both_kept(
    b0: BusInner,
    b1: BusInner,
    b2: BusInner,
    id1: usize,
    type1: TypeKey,
    id2: usize,
    type2: TypeKey,
    key: TypeKey,
)
    requires
        b0.wf(),
        !b0.has_route(key),
        subscribed(b0, b1, id1, type1, key),
        subscribed(b1, b2, id2, type2, key),
    ensures
        b2.has_route(key),
        b2.shims().len() == b0.shims().len() + 1,
        forall|i: int|
            0 <= i < b2.shims().len() && (#[trigger] b2.shims()[i]).module().key() == key ==> i
                == b2.index_of(key),
        b2.route(key).subscribers() == seq![
            (id1, DynType { msg_type_id: key, type_id: type1 }),
            (id2, DynType { msg_type_id: key, type_id: type2 }),
        ],
{
    b2.lemma_receivers_are_routes();
    assert(b1.route(key).subscribers() =~= seq![
        (id1, DynType { msg_type_id: key, type_id: type1 }),
    ]);
    assert(b2.route(key).subscribers() =~= seq![
        (id1, DynType { msg_type_id: key, type_id: type1 }),
        (id2, DynType { msg_type_id: key, type_id: type2 }),
    ]);
}

} // verus!
