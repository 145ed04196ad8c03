use msg_bus::bus::{BusInner, SendOutcome};
use msg_bus::receiver::{Delivery, Receiver, Shim};
use msg_bus::untyped::{DynType, Untyped};
use std::any::TypeId;
use std::collections::hash_map::DefaultHasher;
use std::hash::{Hash, Hasher};

fn key_of<T: 'static>() -> u64 {
    let mut h = DefaultHasher::new();
    TypeId::of::<T>().hash(&mut h);
    h.finish()
}

struct H;
struct H1;
struct H2;

fn delivery(slot: usize, msg_type: u64, handler_type: u64, msg: u64) -> Delivery {
    Delivery { slot, handler: DynType::new(msg_type, handler_type), msg }
}

#[test]
fn test_mbus() {
    let mut bus = BusInner::new();
    let e = bus.register(key_of::<H>()).unwrap();
    let e = e.subscribe(&mut bus, key_of::<u16>());
    assert_eq!(bus.send(key_of::<u16>(), 1), SendOutcome::Queued { wake: false });
    assert_eq!(bus.poll(), vec![delivery(e.id, key_of::<u16>(), key_of::<H>(), 1)]);
    assert!(bus.poll().is_empty());
}

#[test]
fn unsigned_message_reaches_its_handler_once() {
    let mut bus = BusInner::new();
    let h = bus.register(key_of::<H>()).unwrap().subscribe(&mut bus, key_of::<u32>());
    bus.send(key_of::<u32>(), 7);
    let calls = bus.poll();
    assert_eq!(calls, vec![delivery(h.id, key_of::<u32>(), key_of::<H>(), 7)]);
}

#[test]
fn two_handlers_called_in_subscription_order() {
    let mut bus = BusInner::new();
    let h1 = bus.register(key_of::<H1>()).unwrap().subscribe(&mut bus, key_of::<i32>());
    let h2 = bus.register(key_of::<H2>()).unwrap().subscribe(&mut bus, key_of::<i32>());
    assert_ne!(h1.id, h2.id);
    bus.send(key_of::<i32>(), 5);
    let calls = bus.poll();
    assert_eq!(
        calls,
        vec![
            delivery(h1.id, key_of::<i32>(), key_of::<H1>(), 5),
            delivery(h2.id, key_of::<i32>(), key_of::<H2>(), 5),
        ]
    );
}

#[test]
fn message_without_subscribers_is_dropped() {
    let mut bus = BusInner::new();
    bus.register(key_of::<H>()).unwrap().subscribe(&mut bus, key_of::<u32>());
    assert_eq!(bus.send(key_of::<f32>(), 32), SendOutcome::Unhandled);
    assert!(bus.poll().is_empty());
}

#[test]
fn send_on_empty_bus_is_dropped() {
    let mut bus = BusInner::new();
    assert_eq!(bus.send(key_of::<u8>(), 1), SendOutcome::Unhandled);
    assert_eq!(bus.send_async(key_of::<u8>(), 2), SendOutcome::Unhandled);
    assert!(bus.poll().is_empty());
}

#[test]
fn messages_before_a_pass_arrive_in_send_order() {
    let mut bus = BusInner::new();
    let h1 = bus.register(key_of::<H1>()).unwrap().subscribe(&mut bus, key_of::<u64>());
    let h2 = bus.register(key_of::<H2>()).unwrap().subscribe(&mut bus, key_of::<u64>());
    bus.send(key_of::<u64>(), 1);
    bus.send(key_of::<u64>(), 2);
    bus.send_async(key_of::<u64>(), 3);
    let k = key_of::<u64>();
    let calls = bus.poll();
    assert_eq!(
        calls,
        vec![
            delivery(h1.id, k, key_of::<H1>(), 1),
            delivery(h2.id, k, key_of::<H2>(), 1),
            delivery(h1.id, k, key_of::<H1>(), 2),
            delivery(h2.id, k, key_of::<H2>(), 2),
            delivery(h1.id, k, key_of::<H1>(), 3),
            delivery(h2.id, k, key_of::<H2>(), 3),
        ]
    );
}

#[test]
fn send_during_dispatch_waits_for_next_pass() {
    let mut bus = BusInner::new();
    let h = bus
        .register(key_of::<H>())
        .unwrap()
        .subscribe(&mut bus, key_of::<u16>())
        .subscribe(&mut bus, key_of::<u32>());
    bus.send(key_of::<u16>(), 10);
    let first = bus.poll();
    assert_eq!(first, vec![delivery(h.id, key_of::<u16>(), key_of::<H>(), 10)]);
    // the u16 handler sends a u32 while its call is made
    assert_eq!(bus.send(key_of::<u32>(), 11), SendOutcome::Queued { wake: true });
    let second = bus.poll();
    assert_eq!(second, vec![delivery(h.id, key_of::<u32>(), key_of::<H>(), 11)]);
}

#[test]
fn subscribing_to_a_routed_type_adds_no_receiver() {
    let mut bus = BusInner::new();
    let a = bus.register(key_of::<H1>()).unwrap().subscribe(&mut bus, key_of::<u8>());
    let b = bus.register(key_of::<H2>()).unwrap().subscribe(&mut bus, key_of::<u16>());
    let c = bus.register(key_of::<H>()).unwrap().subscribe(&mut bus, key_of::<u8>());
    bus.send(key_of::<u8>(), 1);
    bus.send(key_of::<u16>(), 2);
    let calls = bus.poll();
    assert_eq!(calls.len(), 3);
    let u8_calls: Vec<Delivery> =
        calls.iter().copied().filter(|d| d.handler.msg_type_id == key_of::<u8>()).collect();
    assert_eq!(
        u8_calls,
        vec![
            delivery(a.id, key_of::<u8>(), key_of::<H1>(), 1),
            delivery(c.id, key_of::<u8>(), key_of::<H>(), 1),
        ]
    );
    assert!(calls.contains(&delivery(b.id, key_of::<u16>(), key_of::<H2>(), 2)));
}

#[test]
fn first_subscriptions_to_a_new_type_are_both_kept() {
    let mut bus = BusInner::new();
    let a = bus.register(key_of::<H1>()).unwrap();
    let b = bus.register(key_of::<H2>()).unwrap();
    let a = a.subscribe(&mut bus, key_of::<i64>());
    let b = b.subscribe(&mut bus, key_of::<i64>());
    bus.send(key_of::<i64>(), 4);
    let calls = bus.poll();
    assert_eq!(
        calls,
        vec![
            delivery(a.id, key_of::<i64>(), key_of::<H1>(), 4),
            delivery(b.id, key_of::<i64>(), key_of::<H2>(), 4),
        ]
    );
}

#[test]
fn wake_request_is_used_once() {
    let mut bus = BusInner::new();
    bus.register(key_of::<H>()).unwrap().subscribe(&mut bus, key_of::<u8>());
    assert_eq!(bus.send(key_of::<u8>(), 1), SendOutcome::Queued { wake: false });
    bus.poll();
    assert_eq!(bus.send(key_of::<u8>(), 2), SendOutcome::Queued { wake: true });
    assert_eq!(bus.send(key_of::<u8>(), 3), SendOutcome::Queued { wake: false });
}

#[test]
fn receiver_without_subscribers_keeps_backlog() {
    let mut r = Receiver::new(9);
    assert!(!r.enqueue(1));
    r.enqueue_async(2);
    let mut out = Vec::new();
    assert_eq!(r.process(&mut out), 2);
    assert!(out.is_empty());
    r.register(0, DynType::new(9, 3));
    assert_eq!(r.process(&mut out), 0);
    assert_eq!(out, vec![delivery(0, 9, 3, 1), delivery(0, 9, 3, 2)]);
}

#[test]
fn shim_forwards_to_its_receiver() {
    let mut s = Shim::new(4);
    s.register(7, DynType::new(4, 8));
    s.broadcast_sync(1);
    s.broadcast(2);
    s.broadcast_dyn(4, 3);
    let mut out = Vec::new();
    assert_eq!(s.process(&mut out), 0);
    assert_eq!(out, vec![delivery(7, 4, 8, 1), delivery(7, 4, 8, 2), delivery(7, 4, 8, 3)]);
    let _ = s.cast_to_module();
}

#[test]
fn descriptor_checks_both_types() {
    let d = DynType::new(1, 2);
    assert!(d.fits(&Untyped::new(2), 1));
    assert!(!d.fits(&Untyped::new(3), 1));
    assert!(!d.fits(&Untyped::new(2), 5));
    assert_eq!(d.dyn_handler(&Untyped::new(2), 1), (1, 2));
    assert_eq!(Untyped::new(6).handler_type(), 6);
}

#[test]
fn registered_ids_are_distinct() {
    let mut bus = BusInner::new();
    let a = bus.register(1).unwrap();
    let b = bus.register(1).unwrap();
    let c = bus.register(2).unwrap();
    assert_ne!(a.id, b.id);
    assert_ne!(b.id, c.id);
    assert_ne!(a.id, c.id);
    assert_eq!(c.type_id, 2);
}

#[test]
fn instance_records_the_registered_type() {
    let mut bus = BusInner::new();
    let e = bus.register(42).unwrap();
    let u = bus.instance(e.id).unwrap();
    assert_eq!(u.handler_type(), 42);
    assert!(DynType::new(7, 42).fits(&u, 7));
    assert_eq!(DynType::new(7, 42).dyn_handler(&u, 7), (7, 42));
    assert!(bus.instance(e.id.wrapping_add(1)).is_none());
}
