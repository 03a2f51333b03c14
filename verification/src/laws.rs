//! Laws of the bus, proved over the model transforms that the operation
//! contracts in [`crate::bus`] are stated with.

use vstd::prelude::*;

use crate::bus::SubEntry;
use crate::model::DomainModel;
use crate::model::WaiterModel;
use crate::model::attach_more;
use crate::model::has_domain;
use crate::model::has_slot;
use crate::model::is_bcast_target;
use crate::model::is_excl_sub;
use crate::model::is_excl_target;
use crate::model::lemma_domain_id_unique;
use crate::model::lemma_excl_target_exists;
use crate::model::lemma_excl_target_unique;
use crate::model::lemma_slot_id_unique;
use crate::model::new_domain;
use crate::model::new_slot;
use crate::model::spec_get_slot;
use crate::model::spec_get_slot_id;
use crate::model::spec_open;
use crate::model::spec_open_id;
use crate::model::spec_subscribe;
use crate::model::spec_unsubscribe;
use crate::model::spec_wake_all;
use crate::model::spec_write;
use crate::model::wake1;
use crate::model::wakes;
use crate::model::wf_bus;
use crate::model::wf_domain;

verus! {

/// Resolving a slot name twice hands back the same slot id, and the second
/// resolution changes nothing: both handles refer to the same underlying
/// slot, so a write through one is visible through the other.
pub proof fn lemma_get_slot_idempotent(d: DomainModel, n: Seq<char>)
    requires
        wf_domain(d),
    ensures
        spec_get_slot(spec_get_slot(d, n), n) == spec_get_slot(d, n),
        spec_get_slot_id(spec_get_slot(d, n), n) == spec_get_slot_id(d, n),
        wf_domain(spec_get_slot(d, n)),
{
    let d1 = spec_get_slot(d, n);
    if has_slot(d, n) {
        let i = crate::model::slot_id(d, n);
        assert(0 <= i < d.slots.len() && d.slots[i].name == n);
        assert(d1 == d);
    } else {
        let i = d.slots.len() as int;
        assert(d1.slots == d.slots.push(new_slot(n)));
        assert(d1.slots[i].name == n);
        assert forall|p: int, q: int|
            0 <= p < q < d1.slots.len() implies d1.slots[p].name != d1.slots[q].name by {
            if q < i {
                assert(d1.slots[p] == d.slots[p] && d1.slots[q] == d.slots[q]);
            } else {
                assert(q == i);
                assert(d1.slots[p] == d.slots[p]);
                assert(!(d.slots[p].name == n));
            }
        }
        assert(wf_domain(d1));
        lemma_slot_id_unique(d1, n, i);
        assert(spec_get_slot(d1, n) == d1);
        assert(spec_get_slot_id(d1, n) == i);
    }
}

/// Latest value wins, and nothing else moves: after a write of `bytes` to
/// slot `s`, that slot holds exactly `bytes` (so a view acquired after the
/// write returns them in full, never a prefix or a mix), its version moved
/// up by one, and every other slot is untouched.
pub proof fn lemma_write_read_round_trip(d: DomainModel, s: int, bytes: Seq<u8>)
    requires
        wf_domain(d),
        0 <= s < d.slots.len(),
    ensures
        spec_write(d, s, bytes).slots[s].payload == bytes,
        spec_write(d, s, bytes).slots[s].name == d.slots[s].name,
        spec_write(d, s, bytes).slots[s].version == d.slots[s].version + 1,
        forall|t: int|
            0 <= t < d.slots.len() && t != s ==> spec_write(d, s, bytes).slots[t] == d.slots[t],
{
}

/// Opening the same name again attaches to the very domain the first open
/// produced: the same id comes back, and nothing but the attachment count
/// of that domain changes, so every handle opened under one name observes
/// the same slot state.
pub proof fn lemma_open_or_create_idempotent(b: Seq<DomainModel>, n: Seq<char>)
    requires
        wf_bus(b),
    ensures
        spec_open_id(spec_open(b, n), n) == spec_open_id(b, n),
        spec_open(spec_open(b, n), n) == spec_open(b, n).update(
            spec_open_id(b, n),
            attach_more(spec_open(b, n)[spec_open_id(b, n)]),
        ),
        spec_open(b, n)[spec_open_id(b, n)].name == n,
        wf_bus(spec_open(b, n)),
{
    let b1 = spec_open(b, n);
    let i = spec_open_id(b, n);
    if has_domain(b, n) {
        let j = crate::model::domain_id(b, n);
        assert(0 <= j < b.len() && b[j].name == n);
        assert(b1 == b.update(j, attach_more(b[j])));
        assert forall|p: int, q: int| 0 <= p < q < b1.len() implies b1[p].name != b1[q].name by {
            assert(b1[p].name == b[p].name && b1[q].name == b[q].name);
        }
        assert forall|p: int| 0 <= p < b1.len() implies wf_domain(#[trigger] b1[p]) by {
            assert(wf_domain(b[p]));
            if p == j {
                assert(b1[p].slots == b[p].slots && b1[p].waiters == b[p].waiters);
            }
        }
        assert(wf_bus(b1));
        lemma_domain_id_unique(b1, n, j);
    } else {
        assert(b1 == b.push(new_domain(n)));
        assert(i == b.len() as int);
        assert(b1[i].name == n);
        assert forall|p: int, q: int| 0 <= p < q < b1.len() implies b1[p].name != b1[q].name by {
            if q < i {
                assert(b1[p] == b[p] && b1[q] == b[q]);
            } else {
                assert(q == i);
                assert(b1[p] == b[p]);
                assert(!(b[p].name == n));
            }
        }
        assert forall|p: int| 0 <= p < b1.len() implies wf_domain(#[trigger] b1[p]) by {
            if p < i {
                assert(b1[p] == b[p]);
            }
        }
        assert(wf_bus(b1));
        lemma_domain_id_unique(b1, n, i);
    }
}

/// One write wakes every alive broadcast subscriber of the written slot:
/// with two broadcast waiters subscribed, both come out ready.
pub proof fn lemma_broadcast_wakes_all(ws: Seq<WaiterModel>, s: int, w: int)
    requires
        is_bcast_target(ws, s, w),
    ensures
        spec_wake_all(ws, s)[w].subs[s].pending,
{
    assert(wakes(ws, s, w));
    assert(spec_wake_all(ws, s)[w] == wake1(ws[w], s));
}

/// One write hands out exactly one exclusive wake: if any alive
/// exclusive-mode subscriber exists, precisely one of them (the one with
/// the lowest waiter id) is woken, and every other exclusive subscriber is
/// left exactly as it was.
pub proof fn lemma_exclusive_wakes_exactly_one(ws: Seq<WaiterModel>, s: int)
    requires
        exists|w: int| is_excl_sub(ws, s, w),
    ensures
        exists|w: int| #[trigger] is_excl_target(ws, s, w),
        forall|w1: int, w2: int|
            is_excl_target(ws, s, w1) && is_excl_target(ws, s, w2) ==> w1 == w2,
        forall|w: int| #[trigger] is_excl_target(ws, s, w) ==> spec_wake_all(ws, s)[w].subs[s].pending,
        forall|w: int|
            is_excl_sub(ws, s, w) && !is_excl_target(ws, s, w) ==> spec_wake_all(ws, s)[w] == ws[w],
{
    let w0 = choose|w: int| is_excl_sub(ws, s, w);
    lemma_excl_target_exists(ws, s, w0);
    assert forall|w1: int, w2: int|
        is_excl_target(ws, s, w1) && is_excl_target(ws, s, w2) implies w1 == w2 by {
        lemma_excl_target_unique(ws, s, w1, w2);
    }
    assert forall|w: int| #[trigger] is_excl_target(ws, s, w) implies spec_wake_all(
        ws,
        s,
    )[w].subs[s].pending by {
        assert(wakes(ws, s, w));
        assert(spec_wake_all(ws, s)[w] == wake1(ws[w], s));
    }
    assert forall|w: int|
        is_excl_sub(ws, s, w) && !is_excl_target(ws, s, w) implies spec_wake_all(ws, s)[w]
        == ws[w] by {
        assert(!is_bcast_target(ws, s, w));
        assert(!wakes(ws, s, w));
    }
}

/// Writes coalesce: a second write to the same slot before the waiters
/// drain leaves the waiters exactly as one write would, and the slot holds
/// only the latest payload. So three rapid writes produce one wake and one
/// changed-slot notification carrying the last of the three.
pub proof fn lemma_writes_coalesce(d: DomainModel, s: int, b1: Seq<u8>, b2: Seq<u8>)
    requires
        wf_domain(d),
        0 <= s < d.slots.len(),
    ensures
        spec_write(spec_write(d, s, b1), s, b2).waiters == spec_write(d, s, b2).waiters,
        spec_write(spec_write(d, s, b1), s, b2).slots[s].payload == b2,
        spec_write(spec_write(d, s, b1), s, b2).slots[s].version == d.slots[s].version + 2,
{
    let ws = d.waiters;
    let ws1 = spec_wake_all(ws, s);
    assert(spec_write(d, s, b1).waiters == ws1);
    assert(ws1.len() == ws.len());
    assert forall|j: int| 0 <= j < ws.len() implies #[trigger] ws1[j].alive == ws[j].alive
        && ws1[j].subs.len() == ws[j].subs.len() && (forall|t: int|
        0 <= t < ws[j].subs.len() ==> #[trigger] ws1[j].subs[t].mode == ws[j].subs[t].mode) by {
        if wakes(ws, s, j) {
            assert(ws1[j] == wake1(ws[j], s));
        }
    }
    assert forall|j: int|
        #![trigger is_excl_sub(ws1, s, j)]
        #![trigger is_bcast_target(ws1, s, j)]
        true implies (is_excl_sub(ws1, s, j) == is_excl_sub(ws, s, j)) && (is_bcast_target(
        ws1,
        s,
        j,
    ) == is_bcast_target(ws, s, j)) by {
        if 0 <= j < ws.len() {
            assert(ws1[j].alive == ws[j].alive);
        }
    }
    assert forall|j: int|
        #![trigger is_excl_target(ws1, s, j)]
        true implies is_excl_target(ws1, s, j) == is_excl_target(ws, s, j) by {
        assert(is_excl_sub(ws1, s, j) == is_excl_sub(ws, s, j));
        if is_excl_target(ws1, s, j) {
            assert forall|p: int| 0 <= p < j implies !is_excl_sub(ws, s, p) by {
                assert(!is_excl_sub(ws1, s, p));
            }
            assert(is_excl_target(ws, s, j));
        }
        if is_excl_target(ws, s, j) {
            assert forall|p: int| 0 <= p < j implies !is_excl_sub(ws1, s, p) by {
                assert(!is_excl_sub(ws, s, p));
            }
            assert(is_excl_target(ws1, s, j));
        }
    }
    assert forall|j: int| 0 <= j < ws.len() implies #[trigger] spec_wake_all(ws1, s)[j]
        == ws1[j] by {
        if wakes(ws1, s, j) {
            assert(wakes(ws, s, j));
            assert(ws1[j] == wake1(ws[j], s));
            assert(wake1(ws1[j], s).subs =~= ws1[j].subs);
            assert(wake1(ws1[j], s) =~~= ws1[j]);
        }
    }
    assert(spec_wake_all(ws1, s) =~= ws1);
    assert(spec_write(spec_write(d, s, b1), s, b2).waiters == spec_wake_all(ws1, s));
    assert(spec_write(d, s, b2).waiters == spec_wake_all(ws, s));
}

/// Subscribing is an idempotent add: subscribing the same slot again with
/// the same mode leaves the subscription set as it was.
pub proof fn lemma_subscribe_idempotent(subs: Seq<SubEntry>, s: int, excl: bool)
    requires
        0 <= s,
    ensures
        spec_subscribe(spec_subscribe(subs, s, excl), s, excl) == spec_subscribe(subs, s, excl),
{
    let a = spec_subscribe(subs, s, excl);
    assert(a.len() >= s + 1);
    assert(crate::model::grown(a, s + 1) == a);
    assert(spec_subscribe(a, s, excl) =~= a);
}

/// Unsubscribing is idempotent, and a no-op on a slot the waiter never
/// subscribed to.
pub proof fn lemma_unsubscribe_idempotent(subs: Seq<SubEntry>, s: int)
    ensures
        spec_unsubscribe(spec_unsubscribe(subs, s), s) == spec_unsubscribe(subs, s),
{
    assert(spec_unsubscribe(spec_unsubscribe(subs, s), s) =~= spec_unsubscribe(subs, s));
}

} // verus!
