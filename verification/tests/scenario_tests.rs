use babus::Bus;
use babus::ClientDomain;
use babus::Waiter;

#[test]
fn get_slot_twice_same_slot() {
    // Resolving the same name twice yields handles to the same slot:
    // a write through one is visible through the other.
    let mut bus = Bus::new();
    let cd = ClientDomain::open_or_create(&mut bus, "d");
    let s1 = cd.get_slot(&mut bus, "s");
    let s2 = cd.get_slot(&mut bus, "s");
    assert_eq!(s1.slot, s2.slot);

    s1.write(&mut bus, &[1, 2, 3]);
    assert_eq!(s2.read(&bus).copy_to_vec(), vec![1, 2, 3]);

    // A different name resolves to a different slot.
    let s3 = cd.get_slot(&mut bus, "t");
    assert_ne!(s1.slot, s3.slot);
}

#[test]
fn open_or_create_idempotent() {
    // N opens behave as one create and N-1 attaches: all handles observe
    // the same slot state.
    let mut bus = Bus::new();
    let d1 = ClientDomain::open_or_create(&mut bus, "dom");
    let s = d1.get_slot(&mut bus, "slot");
    s.write(&mut bus, &[9, 9]);

    let d2 = ClientDomain::open_or_create(&mut bus, "dom");
    let d3 = ClientDomain::open_or_create(&mut bus, "dom");
    assert_eq!(d1.domain, d2.domain);
    assert_eq!(d2.domain, d3.domain);

    let s2 = d3.get_slot(&mut bus, "slot");
    assert_eq!(s2.slot, s.slot);
    assert_eq!(s2.read(&bus).copy_to_vec(), vec![9, 9]);

    // Distinct names make distinct domains.
    let other = ClientDomain::open_or_create(&mut bus, "dom-b");
    assert_ne!(other.domain, d1.domain);
}

#[test]
fn round_trip_empty_and_large() {
    // Any payload round-trips, including the empty one and one large
    // enough to force the slot's storage to grow and then shrink.
    let mut bus = Bus::new();
    let cd = ClientDomain::open_or_create(&mut bus, "d");
    let s = cd.get_slot(&mut bus, "s");

    // A fresh slot reads as empty.
    assert_eq!(s.read(&bus).length(), 0);

    let big: Vec<u8> = (0..100_000u32).map(|i| (i % 251) as u8).collect();
    s.write(&mut bus, &big);
    assert_eq!(s.read(&bus).copy_to_vec(), big);

    s.write(&mut bus, &[]);
    assert_eq!(s.read(&bus).copy_to_vec(), Vec::<u8>::new());
    assert_eq!(s.read(&bus).length(), 0);

    s.write(&mut bus, &[7]);
    assert_eq!(s.read(&bus).copy_to_vec(), vec![7]);
}

#[test]
fn broadcast_wakes_both_waiters() {
    let mut bus = Bus::new();
    let cd = ClientDomain::open_or_create(&mut bus, "d");
    let s = cd.get_slot(&mut bus, "s");
    let w1 = Waiter::allocate(&mut bus, &cd);
    let w2 = Waiter::allocate(&mut bus, &cd);
    w1.subscribe_to(&mut bus, &s, false);
    w2.subscribe_to(&mut bus, &s, false);

    s.write(&mut bus, &[1]);

    assert!(w1.wait_exclusive(&bus));
    assert!(w2.wait_exclusive(&bus));

    let v1 = w1.for_each_new_slot(&mut bus);
    let v2 = w2.for_each_new_slot(&mut bus);
    assert_eq!(v1.len(), 1);
    assert_eq!(v2.len(), 1);
    assert_eq!(v1[0].data(), &vec![1]);
    assert_eq!(v2[0].data(), &vec![1]);
}

#[test]
fn exclusive_wakes_exactly_one_waiter() {
    let mut bus = Bus::new();
    let cd = ClientDomain::open_or_create(&mut bus, "d");
    let s = cd.get_slot(&mut bus, "s");
    let w1 = Waiter::allocate(&mut bus, &cd);
    let w2 = Waiter::allocate(&mut bus, &cd);
    w1.subscribe_to(&mut bus, &s, true);
    w2.subscribe_to(&mut bus, &s, true);

    s.write(&mut bus, &[1]);

    let r1 = w1.wait_exclusive(&bus);
    let r2 = w2.wait_exclusive(&bus);
    assert_eq!(
        [r1, r2].iter().filter(|r| **r).count(),
        1,
        "exactly one exclusive waiter wakes per write"
    );
    // The documented tie-break: the lowest waiter id wakes.
    assert!(r1);
    assert!(!r2);
}

#[test]
fn coalescing_three_rapid_writes() {
    // Three writes before the waiter drains: one wake, one changed-slot
    // notification, carrying only the latest payload.
    let mut bus = Bus::new();
    let cd = ClientDomain::open_or_create(&mut bus, "d");
    let s = cd.get_slot(&mut bus, "s");
    let w = Waiter::allocate(&mut bus, &cd);
    w.subscribe_to(&mut bus, &s, false);

    s.write(&mut bus, &[1]);
    s.write(&mut bus, &[2]);
    s.write(&mut bus, &[3]);

    assert!(w.wait_exclusive(&bus));
    let views = w.for_each_new_slot(&mut bus);
    assert_eq!(views.len(), 1, "the slot is reported changed exactly once");
    assert_eq!(views[0].data(), &vec![3], "only the latest of the three writes");

    // Drained: a further wait would block until the next write.
    assert!(!w.wait_exclusive(&bus));
}

#[test]
fn hello_and_integer_round_trip() {
    let mut bus = Bus::new();
    let cd = ClientDomain::open_or_create(&mut bus, "d1");
    let cs = cd.get_slot(&mut bus, "s1");

    cs.write(&mut bus, &[0x68, 0x65, 0x6c, 0x6c, 0x6f]);

    // A reader coming through its own handles sees the same bytes.
    let cd_r = ClientDomain::open_or_create(&mut bus, "d1");
    let cs_r = cd_r.get_slot(&mut bus, "s1");
    assert_eq!(cs_r.read(&bus).copy_to_vec(), vec![0x68, 0x65, 0x6c, 0x6c, 0x6f]);

    cs.write(&mut bus, &42u64.to_le_bytes());
    let clv = cs_r.read(&bus);
    assert_eq!(clv.length(), 8);
    assert_eq!(u64::from_le_bytes(clv.copy_to_vec().try_into().unwrap()), 42u64);
}

#[test]
fn ten_writes_one_notification() {
    // Ten sequential writes with no draining in between: the final read
    // returns the last value, and a drain afterwards reports the slot
    // changed exactly once.
    let mut bus = Bus::new();
    let cd = ClientDomain::open_or_create(&mut bus, "d");
    let s = cd.get_slot(&mut bus, "s");
    let w = Waiter::allocate(&mut bus, &cd);
    w.subscribe_to(&mut bus, &s, false);

    for i in 0u64..10u64 {
        s.write(&mut bus, &i.to_le_bytes());
    }

    assert_eq!(u64::from_le_bytes(s.read(&bus).copy_to_vec().try_into().unwrap()), 9u64);

    assert!(w.wait_exclusive(&bus));
    let mut views = w.for_each_new_slot(&mut bus);
    assert_eq!(views.len(), 1);
    let only = views.remove(0);
    assert_eq!(u64::from_le_bytes(only.copy_to_vec().try_into().unwrap()), 9u64);
}

#[test]
fn drain_reports_each_changed_slot_once() {
    // Two changed slots out of three subscribed: the drain hands back
    // exactly those two, each once, and consumes the wakes.
    let mut bus = Bus::new();
    let cd = ClientDomain::open_or_create(&mut bus, "d");
    let sa = cd.get_slot(&mut bus, "a");
    let sb = cd.get_slot(&mut bus, "b");
    let sc = cd.get_slot(&mut bus, "c");
    let w = Waiter::allocate(&mut bus, &cd);
    w.subscribe_to(&mut bus, &sa, false);
    w.subscribe_to(&mut bus, &sb, false);
    w.subscribe_to(&mut bus, &sc, false);

    sa.write(&mut bus, &[10]);
    sc.write(&mut bus, &[30]);

    let views = w.for_each_new_slot(&mut bus);
    let mut slots: Vec<usize> = views.iter().map(|v| v.slot).collect();
    slots.sort();
    assert_eq!(slots, vec![sa.slot, sc.slot]);
    assert!(!w.wait_exclusive(&bus));
}

#[test]
fn unsubscribe_stops_wakes() {
    let mut bus = Bus::new();
    let cd = ClientDomain::open_or_create(&mut bus, "d");
    let s = cd.get_slot(&mut bus, "s");
    let w = Waiter::allocate(&mut bus, &cd);
    w.subscribe_to(&mut bus, &s, false);
    w.unsubscribe_from(&mut bus, &s);

    s.write(&mut bus, &[1]);
    assert!(!w.wait_exclusive(&bus));

    // Unsubscribing again, or from a slot never subscribed to, is a no-op.
    w.unsubscribe_from(&mut bus, &s);
    let t = cd.get_slot(&mut bus, "t");
    w.unsubscribe_from(&mut bus, &t);
    assert!(!w.wait_exclusive(&bus));
}

#[test]
fn resubscribe_overwrites_mode() {
    // Re-subscribing with a different mode overwrites the mode: after the
    // switch to exclusive, a second broadcast waiter still wakes, and the
    // switched waiter takes the single exclusive wake.
    let mut bus = Bus::new();
    let cd = ClientDomain::open_or_create(&mut bus, "d");
    let s = cd.get_slot(&mut bus, "s");
    let w1 = Waiter::allocate(&mut bus, &cd);
    let w2 = Waiter::allocate(&mut bus, &cd);
    w1.subscribe_to(&mut bus, &s, false);
    w1.subscribe_to(&mut bus, &s, true);
    w2.subscribe_to(&mut bus, &s, false);

    s.write(&mut bus, &[5]);
    assert!(w1.wait_exclusive(&bus));
    assert!(w2.wait_exclusive(&bus));
}

#[test]
fn freed_waiter_no_longer_counts() {
    // Freeing removes all subscriptions: the freed waiter is no wake
    // target any more, so an exclusive wake goes to the remaining one.
    let mut bus = Bus::new();
    let cd = ClientDomain::open_or_create(&mut bus, "d");
    let s = cd.get_slot(&mut bus, "s");
    let w1 = Waiter::allocate(&mut bus, &cd);
    let w2 = Waiter::allocate(&mut bus, &cd);
    w1.subscribe_to(&mut bus, &s, true);
    w2.subscribe_to(&mut bus, &s, true);

    w1.free(&mut bus);
    s.write(&mut bus, &[1]);
    assert!(w2.wait_exclusive(&bus));
}
