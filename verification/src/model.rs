//! The mathematical model of the bus.
//!
//! Each executable structure in [`crate::bus`] has a ghost counterpart here,
//! and every operation's contract pins the new state down as a spec-level
//! transform of the old one. The laws in [`crate::laws`] are proved over
//! these transforms alone.

use vstd::prelude::*;

use crate::bus::SubEntry;
use crate::bus::SubMode;

verus! {

/// A slot: a named latest-value cell with a monotonically increasing
/// version counter.
#[verifier::ext_equal]
pub ghost struct SlotModel {
    pub name: Seq<char>,
    pub payload: Seq<u8>,
    pub version: nat,
}

/// A waiter: alive until freed, with a subscription table indexed by slot
/// id. Entry `s` records the wake mode for slot `s` and whether that slot
/// has a wake this waiter has not drained yet.
#[verifier::ext_equal]
pub ghost struct WaiterModel {
    pub alive: bool,
    pub subs: Seq<SubEntry>,
}

/// A domain: a named arena holding a slot table, the waiters allocated
/// against it, and the number of open attachments.
#[verifier::ext_equal]
pub ghost struct DomainModel {
    pub name: Seq<char>,
    pub attached: nat,
    pub slots: Seq<SlotModel>,
    pub waiters: Seq<WaiterModel>,
}

/// Well-formedness of a domain: slot names are unique within it, and no
/// waiter's subscription table runs past the slot table.
pub open spec fn wf_domain(d: DomainModel) -> bool {
    &&& forall|i: int, j: int|
        0 <= i < j < d.slots.len() ==> d.slots[i].name != d.slots[j].name
    &&& forall|w: int|
        0 <= w < d.waiters.len() ==> #[trigger] d.waiters[w].subs.len() <= d.slots.len()
}

/// Well-formedness of the whole bus: domain names are unique and every
/// domain is well formed.
pub open spec fn wf_bus(b: Seq<DomainModel>) -> bool {
    &&& forall|i: int, j: int| 0 <= i < j < b.len() ==> b[i].name != b[j].name
    &&& forall|i: int| 0 <= i < b.len() ==> wf_domain(#[trigger] b[i])
}

/// Whether some domain of the bus carries this name.
pub open spec fn has_domain(b: Seq<DomainModel>, n: Seq<char>) -> bool {
    exists|i: int| 0 <= i < b.len() && b[i].name == n
}

/// The id of the domain carrying this name (well defined on a well-formed
/// bus where `has_domain` holds, since names are unique).
pub open spec fn domain_id(b: Seq<DomainModel>, n: Seq<char>) -> int {
    choose|i: int| 0 <= i < b.len() && b[i].name == n
}

/// A freshly created domain: one attachment, no slots, no waiters.
pub open spec fn new_domain(n: Seq<char>) -> DomainModel {
    DomainModel { name: n, attached: 1, slots: Seq::empty(), waiters: Seq::empty() }
}

/// The same domain with one more open attachment.
pub open spec fn attach_more(d: DomainModel) -> DomainModel {
    DomainModel { attached: d.attached + 1, ..d }
}

/// The same domain with one attachment released. The slot table survives:
/// the backing arena outlives any single attachment.
pub open spec fn detach_one(d: DomainModel) -> DomainModel {
    DomainModel { attached: (d.attached - 1) as nat, ..d }
}

/// Opening a named domain: attach to it if present, create it otherwise.
pub open spec fn spec_open(b: Seq<DomainModel>, n: Seq<char>) -> Seq<DomainModel> {
    if has_domain(b, n) {
        b.update(domain_id(b, n), attach_more(b[domain_id(b, n)]))
    } else {
        b.push(new_domain(n))
    }
}

/// The id that opening a named domain hands back.
pub open spec fn spec_open_id(b: Seq<DomainModel>, n: Seq<char>) -> int {
    if has_domain(b, n) {
        domain_id(b, n)
    } else {
        b.len() as int
    }
}

/// Attaching must not overflow the attachment counter; only this machine
/// limit restricts how often a domain can be opened.
pub open spec fn can_attach(b: Seq<DomainModel>, n: Seq<char>) -> bool {
    has_domain(b, n) ==> b[domain_id(b, n)].attached < u64::MAX
}

/// Whether some slot of the domain carries this name.
pub open spec fn has_slot(d: DomainModel, n: Seq<char>) -> bool {
    exists|i: int| 0 <= i < d.slots.len() && d.slots[i].name == n
}

/// The id of the slot carrying this name (well defined on a well-formed
/// domain where `has_slot` holds, since slot names are unique).
pub open spec fn slot_id(d: DomainModel, n: Seq<char>) -> int {
    choose|i: int| 0 <= i < d.slots.len() && d.slots[i].name == n
}

/// A freshly created slot: empty payload, version zero.
pub open spec fn new_slot(n: Seq<char>) -> SlotModel {
    SlotModel { name: n, payload: Seq::empty(), version: 0 }
}

/// Resolving a named slot: the domain unchanged if the slot exists, else
/// with the slot's storage created at the end of the table.
pub open spec fn spec_get_slot(d: DomainModel, n: Seq<char>) -> DomainModel {
    if has_slot(d, n) {
        d
    } else {
        DomainModel { slots: d.slots.push(new_slot(n)), ..d }
    }
}

/// The id that resolving a named slot hands back.
pub open spec fn spec_get_slot_id(d: DomainModel, n: Seq<char>) -> int {
    if has_slot(d, n) {
        slot_id(d, n)
    } else {
        d.slots.len() as int
    }
}

/// Waiter `w` is alive and subscribed to slot `s` in broadcast mode.
pub open spec fn is_bcast_target(ws: Seq<WaiterModel>, s: int, w: int) -> bool {
    &&& 0 <= w < ws.len()
    &&& ws[w].alive
    &&& 0 <= s < ws[w].subs.len()
    &&& ws[w].subs[s].mode is Broadcast
}

/// Waiter `w` is alive and subscribed to slot `s` in exclusive mode.
pub open spec fn is_excl_sub(ws: Seq<WaiterModel>, s: int, w: int) -> bool {
    &&& 0 <= w < ws.len()
    &&& ws[w].alive
    &&& 0 <= s < ws[w].subs.len()
    &&& ws[w].subs[s].mode is Exclusive
}

/// The one exclusive subscriber a write to `s` wakes: the alive
/// exclusive-mode subscriber with the lowest waiter id. This tie-break is
/// this library's documented policy.
pub open spec fn is_excl_target(ws: Seq<WaiterModel>, s: int, w: int) -> bool {
    &&& is_excl_sub(ws, s, w)
    &&& forall|j: int| 0 <= j < w ==> !is_excl_sub(ws, s, j)
}

/// Whether a write to slot `s` wakes waiter `w`.
pub open spec fn wakes(ws: Seq<WaiterModel>, s: int, w: int) -> bool {
    is_bcast_target(ws, s, w) || is_excl_target(ws, s, w)
}

/// One waiter after a wake for slot `s`: the slot's entry turns pending;
/// a wake that finds it already pending coalesces with it.
pub open spec fn wake1(m: WaiterModel, s: int) -> WaiterModel {
    WaiterModel { subs: m.subs.update(s, SubEntry { mode: m.subs[s].mode, pending: true }), ..m }
}

/// All waiters after the wakes a write to slot `s` sends out.
pub open spec fn spec_wake_all(ws: Seq<WaiterModel>, s: int) -> Seq<WaiterModel> {
    Seq::new(ws.len(), |w: int| if wakes(ws, s, w) { wake1(ws[w], s) } else { ws[w] })
}

/// A write to slot `s`: the payload is replaced (latest value wins), the
/// version counter moves up by one, and the subscribed waiters are woken
/// according to their wake modes. Nothing else of the domain changes.
pub open spec fn spec_write(d: DomainModel, s: int, bytes: Seq<u8>) -> DomainModel {
    DomainModel {
        slots: d.slots.update(
            s,
            SlotModel { name: d.slots[s].name, payload: bytes, version: d.slots[s].version + 1 },
        ),
        waiters: spec_wake_all(d.waiters, s),
        ..d
    }
}

/// A subscription table extended with unsubscribed entries up to length `n`.
pub open spec fn grown(subs: Seq<SubEntry>, n: int) -> Seq<SubEntry> {
    if subs.len() >= n {
        subs
    } else {
        subs + Seq::new(
            (n - subs.len()) as nat,
            |i: int| SubEntry { mode: SubMode::Unsubscribed, pending: false },
        )
    }
}

/// Subscribing to slot `s`: the table covers `s`, and entry `s` takes the
/// requested mode. Re-subscribing overwrites the mode and keeps an
/// undrained wake pending.
pub open spec fn spec_subscribe(subs: Seq<SubEntry>, s: int, excl: bool) -> Seq<SubEntry> {
    let g = grown(subs, s + 1);
    g.update(
        s,
        SubEntry {
            mode: if excl {
                SubMode::Exclusive
            } else {
                SubMode::Broadcast
            },
            pending: g[s].pending,
        },
    )
}

/// Unsubscribing from slot `s`: entry `s` turns unsubscribed with no wake
/// pending; a slot never subscribed to is left alone.
pub open spec fn spec_unsubscribe(subs: Seq<SubEntry>, s: int) -> Seq<SubEntry> {
    if 0 <= s < subs.len() {
        subs.update(s, SubEntry { mode: SubMode::Unsubscribed, pending: false })
    } else {
        subs
    }
}

/// Whether a waiter holds at least one undrained wake: exactly when a
/// blocking wait on it returns rather than suspends.
pub open spec fn ready(m: WaiterModel) -> bool {
    exists|s: int| 0 <= s < m.subs.len() && m.subs[s].pending
}

/// A subscription table after a drain: every wake consumed, modes kept.
pub open spec fn drained(subs: Seq<SubEntry>) -> Seq<SubEntry> {
    Seq::new(subs.len(), |i: int| SubEntry { mode: subs[i].mode, pending: false })
}

/// A freshly allocated waiter: alive, with no subscriptions.
pub open spec fn new_waiter() -> WaiterModel {
    WaiterModel { alive: true, subs: Seq::empty() }
}

/// The domain with a freshly allocated waiter appended.
pub open spec fn with_new_waiter(d: DomainModel) -> DomainModel {
    DomainModel { waiters: d.waiters.push(new_waiter()), ..d }
}

/// The domain with waiter `w` replaced.
pub open spec fn with_waiter(d: DomainModel, w: int, m: WaiterModel) -> DomainModel {
    DomainModel { waiters: d.waiters.update(w, m), ..d }
}

/// On a well-formed bus, a domain carrying a name is the one `domain_id`
/// picks: names are unique.
pub proof fn lemma_domain_id_unique(b: Seq<DomainModel>, n: Seq<char>, i: int)
    requires
        wf_bus(b),
        0 <= i < b.len(),
        b[i].name == n,
    ensures
        has_domain(b, n),
        domain_id(b, n) == i,
{
    assert(has_domain(b, n));
    let j = domain_id(b, n);
    assert(0 <= j < b.len() && b[j].name == n);
    if i < j {
        assert(b[i].name != b[j].name);
    } else if j < i {
        assert(b[j].name != b[i].name);
    }
}

/// In a well-formed domain, a slot carrying a name is the one `slot_id`
/// picks: slot names are unique within a domain.
pub proof fn lemma_slot_id_unique(d: DomainModel, n: Seq<char>, i: int)
    requires
        wf_domain(d),
        0 <= i < d.slots.len(),
        d.slots[i].name == n,
    ensures
        has_slot(d, n),
        slot_id(d, n) == i,
{
    assert(has_slot(d, n));
    let j = slot_id(d, n);
    assert(0 <= j < d.slots.len() && d.slots[j].name == n);
    if i < j {
        assert(d.slots[i].name != d.slots[j].name);
    } else if j < i {
        assert(d.slots[j].name != d.slots[i].name);
    }
}

/// If any alive exclusive-mode subscriber of slot `s` exists, some waiter
/// is the write's exclusive target.
pub proof fn lemma_excl_target_exists(ws: Seq<WaiterModel>, s: int, w: int)
    requires
        is_excl_sub(ws, s, w),
    ensures
        exists|t: int| is_excl_target(ws, s, t),
    decreases w,
{
    if forall|j: int| 0 <= j < w ==> !is_excl_sub(ws, s, j) {
        assert(is_excl_target(ws, s, w));
    } else {
        let j = choose|j: int| 0 <= j < w && is_excl_sub(ws, s, j);
        lemma_excl_target_exists(ws, s, j);
    }
}

/// At most one waiter is the exclusive target of a write.
pub proof fn lemma_excl_target_unique(ws: Seq<WaiterModel>, s: int, w1: int, w2: int)
    requires
        is_excl_target(ws, s, w1),
        is_excl_target(ws, s, w2),
    ensures
        w1 == w2,
{
    if w1 < w2 {
        assert(!is_excl_sub(ws, s, w1));
    } else if w2 < w1 {
        assert(!is_excl_sub(ws, s, w2));
    }
}

} // verus!
