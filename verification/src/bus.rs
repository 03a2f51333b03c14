//! The executable bus: domains, slots, waiters and locked views.
//!
//! All state lives in one [`Bus`] value. Handles ([`ClientDomain`],
//! [`ClientSlot`], [`Waiter`]) are opaque ids into it, as the cross-process
//! engine's handles are opaque pointers into the shared arena. Every
//! operation takes the bus and performs one atomic, linearized step on it;
//! the contracts state each step as a transform from [`crate::model`].

use vstd::prelude::*;
use vstd::slice::slice_to_vec;

use crate::model::DomainModel;
use crate::model::SlotModel;
use crate::model::WaiterModel;
use crate::model::attach_more;
use crate::model::can_attach;
use crate::model::detach_one;
use crate::model::drained;
use crate::model::has_domain;
use crate::model::has_slot;
use crate::model::is_excl_sub;
use crate::model::is_excl_target;
use crate::model::lemma_domain_id_unique;
use crate::model::lemma_slot_id_unique;
use crate::model::new_domain;
use crate::model::new_slot;
use crate::model::new_waiter;
use crate::model::ready;
use crate::model::spec_get_slot;
use crate::model::spec_get_slot_id;
use crate::model::spec_open;
use crate::model::spec_open_id;
use crate::model::spec_subscribe;
use crate::model::spec_unsubscribe;
use crate::model::spec_wake_all;
use crate::model::spec_write;
use crate::model::wake1;
use crate::model::wakes;
use crate::model::wf_bus;
use crate::model::wf_domain;
use crate::model::with_new_waiter;
use crate::model::with_waiter;

verus! {

/// The wake mode a waiter holds for one slot.
///
/// `Broadcast`: every such waiter wakes on each write to the slot.
/// `Exclusive`: exactly one such waiter wakes per write, for load-shared
/// consumption; this library wakes the one with the lowest waiter id.
#[derive(Clone, Copy, PartialEq, Eq, Structural, Debug)]
pub enum SubMode {
    Unsubscribed,
    Broadcast,
    Exclusive,
}

/// One entry of a waiter's subscription table: the wake mode for a slot and
/// whether the slot has an undrained wake for this waiter.
#[derive(Clone, Copy, PartialEq, Eq, Structural, Debug)]
pub struct SubEntry {
    pub mode: SubMode,
    pub pending: bool,
}

/// A slot: a named cell holding the latest payload written to it and a
/// version counter incremented on every write.
pub struct SlotState {
    name: String,
    payload: Vec<u8>,
    version: u64,
}

impl View for SlotState {
    type V = SlotModel;

    closed spec fn view(&self) -> SlotModel {
        SlotModel { name: self.name@, payload: self.payload@, version: self.version as nat }
    }
}

/// A waiter's state inside its domain.
pub struct WaiterState {
    alive: bool,
    subs: Vec<SubEntry>,
}

impl View for WaiterState {
    type V = WaiterModel;

    closed spec fn view(&self) -> WaiterModel {
        WaiterModel { alive: self.alive, subs: self.subs@ }
    }
}

impl WaiterState {
    /// Whether any subscribed slot holds an undrained wake: exactly the
    /// condition under which a blocking wait returns.
    fn any_pending(&self) -> (r: bool)
        ensures
            r == ready(self@),
    {
        let n = self.subs.len();
        let mut i: usize = 0;
        while i < n
            invariant
                n == self.subs.len(),
                i <= n,
                forall|j: int| 0 <= j < i ==> !self.subs@[j].pending,
            decreases n - i,
        {
            if self.subs[i].pending {
                return true;
            }
            i += 1;
        }
        false
    }

    /// Grows the subscription table to cover slot `s` and records the
    /// requested wake mode there, keeping any undrained wake.
    fn subscribe(&mut self, s: usize, excl: bool)
        requires
            s < usize::MAX,
        ensures
            final(self)@.alive == old(self)@.alive,
            final(self)@.subs == spec_subscribe(old(self)@.subs, s as int, excl),
    {
        while self.subs.len() <= s
            invariant
                s < usize::MAX,
                self.alive == old(self).alive,
                old(self).subs@.len() <= self.subs@.len(),
                self.subs@.len() <= s + 1 || self.subs@.len() == old(self).subs@.len(),
                forall|j: int| 0 <= j < old(self).subs@.len() ==> self.subs@[j] == old(self).subs@[j],
                forall|j: int|
                    old(self).subs@.len() <= j < self.subs@.len() ==> self.subs@[j] == (SubEntry {
                        mode: SubMode::Unsubscribed,
                        pending: false,
                    }),
            decreases s + 1 - self.subs.len(),
        {
            self.subs.push(SubEntry { mode: SubMode::Unsubscribed, pending: false });
        }
        proof {
            assert(self.subs@ =~= crate::model::grown(old(self).subs@, s + 1));
        }
        let p = self.subs[s].pending;
        self.subs[s] = SubEntry {
            mode: if excl {
                SubMode::Exclusive
            } else {
                SubMode::Broadcast
            },
            pending: p,
        };
        proof {
            assert(self@.subs =~= spec_subscribe(old(self)@.subs, s as int, excl));
        }
    }

    /// Drops the subscription to slot `s`, discarding any undrained wake
    /// for it; a no-op on a slot the waiter never subscribed to.
    fn unsubscribe(&mut self, s: usize)
        ensures
            final(self)@.alive == old(self)@.alive,
            final(self)@.subs == spec_unsubscribe(old(self)@.subs, s as int),
    {
        if s < self.subs.len() {
            self.subs[s] = SubEntry { mode: SubMode::Unsubscribed, pending: false };
        }
        proof {
            assert(self@.subs =~= spec_unsubscribe(old(self)@.subs, s as int));
        }
    }

    /// Reaction of one waiter to a write to slot `s`: a broadcast
    /// subscriber takes a wake; an exclusive subscriber takes the write's
    /// single exclusive wake if it is still on offer (`may_take`), and
    /// reports that it did.
    fn note_write(&mut self, s: usize, may_take: bool) -> (took: bool)
        ensures
            took == (old(self)@.alive && (s as int) < old(self)@.subs.len()
                && old(self)@.subs[s as int].mode is Exclusive && may_take),
            final(self)@ == (if old(self)@.alive && (s as int) < old(self)@.subs.len()
                && (old(self)@.subs[s as int].mode is Broadcast || (
                old(self)@.subs[s as int].mode is Exclusive && may_take)) {
                wake1(old(self)@, s as int)
            } else {
                old(self)@
            }),
    {
        if self.alive && s < self.subs.len() {
            let e = self.subs[s];
            match e.mode {
                SubMode::Broadcast => {
                    self.subs[s] = SubEntry { mode: e.mode, pending: true };
                    proof {
                        assert(self@.subs =~= wake1(old(self)@, s as int).subs);
                    }
                    false
                },
                SubMode::Exclusive => {
                    if may_take {
                        self.subs[s] = SubEntry { mode: e.mode, pending: true };
                        proof {
                            assert(self@.subs =~= wake1(old(self)@, s as int).subs);
                        }
                        true
                    } else {
                        false
                    }
                },
                SubMode::Unsubscribed => false,
            }
        } else {
            false
        }
    }
}

/// A domain: a named arena owning a slot table and the waiters allocated
/// against it, with a count of open attachments.
pub struct DomainState {
    name: String,
    attached: u64,
    slots: Vec<SlotState>,
    waiters: Vec<WaiterState>,
}

impl View for DomainState {
    type V = DomainModel;

    closed spec fn view(&self) -> DomainModel {
        DomainModel {
            name: self.name@,
            attached: self.attached as nat,
            slots: Seq::new(self.slots@.len(), |i: int| self.slots@[i]@),
            waiters: Seq::new(self.waiters@.len(), |i: int| self.waiters@[i]@),
        }
    }
}

impl DomainState {
    /// The id of the slot carrying this name, if the domain has one.
    fn find_slot(&self, name: &String) -> (r: Option<usize>)
        ensures
            match r {
                Some(i) => (i as int) < self@.slots.len() && self@.slots[i as int].name == name@,
                None => !has_slot(self@, name@),
            },
    {
        let n = self.slots.len();
        let mut i: usize = 0;
        while i < n
            invariant
                n == self.slots.len(),
                i <= n,
                forall|j: int| 0 <= j < i ==> self@.slots[j].name != name@,
            decreases n - i,
        {
            if self.slots[i].name == *name {
                return Some(i);
            }
            i += 1;
        }
        None
    }

    /// Resolves a named slot, creating its storage on first use, and hands
    /// back its id.
    fn resolve_slot(&mut self, name: String) -> (i: usize)
        requires
            wf_domain(old(self)@),
        ensures
            final(self)@ == spec_get_slot(old(self)@, name@),
            i as int == spec_get_slot_id(old(self)@, name@),
            (i as int) < final(self)@.slots.len(),
            wf_domain(final(self)@),
    {
        match self.find_slot(&name) {
            Some(i) => {
                proof {
                    lemma_slot_id_unique(self@, name@, i as int);
                }
                i
            },
            None => {
                let i = self.slots.len();
                self.slots.push(SlotState { name, payload: Vec::new(), version: 0 });
                proof {
                    assert(self@.slots =~= old(self)@.slots.push(new_slot(name@)));
                    assert(self@ =~~= spec_get_slot(old(self)@, name@));
                    assert forall|w: int| 0 <= w < self@.waiters.len() implies #[trigger] self@
                        .waiters[w].subs.len() <= self@.slots.len() by {
                        assert(self@.waiters[w] == old(self)@.waiters[w]);
                    }
                }
                i
            },
        }
    }

    /// A write to slot `s`: replaces the payload, moves the version up,
    /// and wakes the subscribed waiters according to their modes.
    fn do_write(&mut self, s: usize, data: &[u8])
        requires
            wf_domain(old(self)@),
            (s as int) < old(self)@.slots.len(),
            old(self)@.slots[s as int].version < u64::MAX,
        ensures
            final(self)@ == spec_write(old(self)@, s as int, data@),
            wf_domain(final(self)@),
    {
        let ghost d0 = old(self)@;
        let sl = &mut self.slots[s];
        sl.payload = slice_to_vec(data);
        sl.version = sl.version + 1;
        proof {
            assert(self@.slots =~= spec_write(d0, s as int, data@).slots);
            assert(self@.waiters =~= d0.waiters);
        }
        let n = self.waiters.len();
        let mut w: usize = 0;
        let mut granted = false;
        while w < n
            invariant
                n == self.waiters.len(),
                w <= n,
                self@.slots == spec_write(d0, s as int, data@).slots,
                self@.name == d0.name,
                self@.attached == d0.attached,
                self@.waiters.len() == d0.waiters.len(),
                forall|k: int|
                    0 <= k < w ==> self@.waiters[k] == (if wakes(d0.waiters, s as int, k) {
                        wake1(d0.waiters[k], s as int)
                    } else {
                        d0.waiters[k]
                    }),
                forall|k: int| w <= k < n ==> self@.waiters[k] == d0.waiters[k],
                granted == exists|j: int| 0 <= j < w && is_excl_sub(d0.waiters, s as int, j),
            decreases n - w,
        {
            let ghost prev = self@.waiters;
            let wr = &mut self.waiters[w];
            let took = wr.note_write(s, !granted);
            proof {
                if took {
                    assert(is_excl_sub(d0.waiters, s as int, w as int));
                    assert(is_excl_target(d0.waiters, s as int, w as int));
                }
                assert forall|k: int| 0 <= k < w + 1 implies self@.waiters[k] == (if wakes(
                    d0.waiters,
                    s as int,
                    k,
                ) {
                    wake1(d0.waiters[k], s as int)
                } else {
                    d0.waiters[k]
                }) by {
                    if k < w {
                        assert(self@.waiters[k] == prev[k]);
                    } else {
                        if wakes(d0.waiters, s as int, w as int) {
                            assert(self@.waiters[w as int] == wake1(
                                d0.waiters[w as int],
                                s as int,
                            ));
                        } else {
                            if is_excl_sub(d0.waiters, s as int, w as int) && !granted {
                                assert(is_excl_target(d0.waiters, s as int, w as int));
                            }
                            assert(self@.waiters[w as int] == d0.waiters[w as int]);
                        }
                    }
                }
                assert forall|k: int| w + 1 <= k < n implies self@.waiters[k] == d0.waiters[k] by {
                    assert(self@.waiters[k] == prev[k]);
                }
            }
            granted = granted || took;
            w += 1;
        }
        proof {
            assert(self@.waiters =~= spec_wake_all(d0.waiters, s as int));
            assert(self@ =~~= spec_write(d0, s as int, data@));
            assert forall|k: int| 0 <= k < self@.waiters.len() implies #[trigger] self@
                .waiters[k].subs.len() <= self@.slots.len() by {
                assert(d0.waiters[k].subs.len() <= d0.slots.len());
            }
        }
    }

    /// Drains waiter `w`: consumes every undrained wake it holds and hands
    /// back one locked view per changed slot, each carrying that slot's
    /// current payload. Views come in ascending slot order, so each changed
    /// slot is delivered exactly once per drain.
    fn drain_waiter(&mut self, w: usize) -> (views: Vec<C_LockedView>)
        requires
            wf_domain(old(self)@),
            (w as int) < old(self)@.waiters.len(),
        ensures
            final(self)@ == with_waiter(
                old(self)@,
                w as int,
                WaiterModel {
                    alive: old(self)@.waiters[w as int].alive,
                    subs: drained(old(self)@.waiters[w as int].subs),
                },
            ),
            wf_domain(final(self)@),
            forall|k: int|
                0 <= k < views@.len() ==> {
                    let s = #[trigger] views@[k].slot as int;
                    &&& 0 <= s < old(self)@.waiters[w as int].subs.len()
                    &&& old(self)@.waiters[w as int].subs[s].pending
                    &&& views@[k].data@ == old(self)@.slots[s].payload
                    &&& views@[k].len == old(self)@.slots[s].payload.len()
                },
            forall|s: int|
                0 <= s < old(self)@.waiters[w as int].subs.len() && old(
                    self,
                )@.waiters[w as int].subs[s].pending ==> exists|k: int|
                    0 <= k < views@.len() && #[trigger] views@[k].slot as int == s,
            forall|k1: int, k2: int|
                0 <= k1 < k2 < views@.len() ==> views@[k1].slot < views@[k2].slot,
    {
        let ghost d0 = old(self)@;
        let ghost subs0 = old(self)@.waiters[w as int].subs;
        let n = self.waiters[w].subs.len();
        let mut views: Vec<C_LockedView> = Vec::new();
        let mut s: usize = 0;
        while s < n
            invariant
                wf_domain(d0),
                (w as int) < self.waiters@.len(),
                self.waiters@.len() == d0.waiters.len(),
                n == subs0.len(),
                n == self.waiters@[w as int]@.subs.len(),
                s <= n,
                self@.slots == d0.slots,
                self@.name == d0.name,
                self@.attached == d0.attached,
                subs0.len() <= d0.slots.len(),
                forall|k: int| 0 <= k < d0.waiters.len() && k != w ==> self@.waiters[k] == d0.waiters[k],
                self@.waiters[w as int].alive == d0.waiters[w as int].alive,
                forall|j: int|
                    0 <= j < s ==> self@.waiters[w as int].subs[j] == (SubEntry {
                        mode: subs0[j].mode,
                        pending: false,
                    }),
                forall|j: int| s <= j < n ==> self@.waiters[w as int].subs[j] == subs0[j],
                forall|k: int|
                    0 <= k < views@.len() ==> {
                        let t = #[trigger] views@[k].slot as int;
                        &&& 0 <= t < s
                        &&& subs0[t].pending
                        &&& views@[k].data@ == d0.slots[t].payload
                        &&& views@[k].len == d0.slots[t].payload.len()
                    },
                forall|t: int|
                    0 <= t < s && subs0[t].pending ==> exists|k: int|
                        0 <= k < views@.len() && #[trigger] views@[k].slot as int == t,
                forall|k1: int, k2: int|
                    0 <= k1 < k2 < views@.len() ==> views@[k1].slot < views@[k2].slot,
            decreases n - s,
        {
            let ghost views0 = views@;
            let e = self.waiters[w].subs[s];
            if e.pending {
                let payload = slice_to_vec(self.slots[s].payload.as_slice());
                let len = payload.len();
                views.push(C_LockedView { data: payload, len, slot: s });
                let wr = &mut self.waiters[w];
                wr.subs[s] = SubEntry { mode: e.mode, pending: false };
            }
            proof {
                assert forall|t: int| 0 <= t < s + 1 && subs0[t].pending implies exists|k: int|
                    0 <= k < views@.len() && #[trigger] views@[k].slot as int == t by {
                    if t < s {
                        let k0 = choose|k: int|
                            0 <= k < views0.len() && #[trigger] views0[k].slot as int == t;
                        assert(views@[k0].slot as int == t);
                    } else {
                        assert(views@[views@.len() - 1].slot as int == t);
                    }
                }
            }
            s += 1;
        }
        proof {
            assert(self@.waiters[w as int].subs =~= drained(subs0));
            assert(self@ =~~= with_waiter(
                d0,
                w as int,
                WaiterModel { alive: d0.waiters[w as int].alive, subs: drained(subs0) },
            ));
            assert forall|k: int| 0 <= k < self@.waiters.len() implies #[trigger] self@
                .waiters[k].subs.len() <= self@.slots.len() by {
                assert(d0.waiters[k].subs.len() <= d0.slots.len());
            }
        }
        views
    }
}

/// The bus: every domain that has been opened, in creation order. In the
/// cross-process engine this state lives in shared memory and every access
/// runs under the arena's locks; here each operation takes the whole bus
/// and is one atomic, linearized step.
pub struct Bus {
    domains: Vec<DomainState>,
}

impl View for Bus {
    type V = Seq<DomainModel>;

    closed spec fn view(&self) -> Seq<DomainModel> {
        Seq::new(self.domains@.len(), |i: int| self.domains@[i]@)
    }
}

impl Bus {
    /// A bus with no domains yet.
    pub fn new() -> (b: Bus)
        ensures
            b@ == Seq::<DomainModel>::empty(),
    {
        let b = Bus { domains: Vec::new() };
        proof {
            assert(b@ =~= Seq::<DomainModel>::empty());
        }
        b
    }

    /// Well-formedness of the whole bus state.
    pub open spec fn wf(&self) -> bool {
        wf_bus(self@)
    }

    /// The id of the domain carrying this name, if the bus has one.
    fn find_domain(&self, name: &String) -> (r: Option<usize>)
        ensures
            match r {
                Some(i) => (i as int) < self@.len() && self@[i as int].name == name@,
                None => !has_domain(self@, name@),
            },
    {
        let n = self.domains.len();
        let mut i: usize = 0;
        while i < n
            invariant
                n == self.domains.len(),
                i <= n,
                forall|j: int| 0 <= j < i ==> self@[j].name != name@,
            decreases n - i,
        {
            if self.domains[i].name == *name {
                return Some(i);
            }
            i += 1;
        }
        None
    }
}

/// A handle to an open domain: an id into the bus. One handle stands for
/// one attachment; it is consumed by `close` and cannot be used after.
pub struct ClientDomain {
    pub domain: usize,
}

impl ClientDomain {
    /// Whether the handle refers to a domain of this bus state.
    pub open spec fn valid(self, b: Seq<DomainModel>) -> bool {
        (self.domain as int) < b.len()
    }

    /// Opens the domain carrying `name`: attaches to it if it exists,
    /// creates it first if not. Every handle opened under one name refers
    /// to the same domain and observes the same slot state.
    pub fn open_or_create(bus: &mut Bus, name: &str) -> (h: ClientDomain)
        requires
            old(bus).wf(),
            can_attach(old(bus)@, name@),
            !name@.contains('\0'),
        ensures
            final(bus).wf(),
            final(bus)@ == spec_open(old(bus)@, name@),
            h.domain as int == spec_open_id(old(bus)@, name@),
            h.valid(final(bus)@),
    {
        let key = name.to_owned();
        match bus.find_domain(&key) {
            Some(i) => {
                proof {
                    lemma_domain_id_unique(bus@, name@, i as int);
                }
                let d = &mut bus.domains[i];
                d.attached = d.attached + 1;
                proof {
                    assert(bus@[i as int] =~~= attach_more(old(bus)@[i as int]));
                    assert(bus@ =~~= spec_open(old(bus)@, name@));
                }
                ClientDomain { domain: i }
            },
            None => {
                let i = bus.domains.len();
                bus.domains.push(
                    DomainState { name: key, attached: 1, slots: Vec::new(), waiters: Vec::new() },
                );
                proof {
                    assert(bus@[i as int] =~~= new_domain(name@));
                    assert(bus@ =~~= spec_open(old(bus)@, name@));
                }
                ClientDomain { domain: i }
            },
        }
    }

    /// Releases this handle's attachment. The domain's slots, waiters and
    /// other attachments survive: the arena's lifetime is independent of
    /// any single attachment. Consuming the handle makes a second close
    /// through it impossible.
    pub fn close(self, bus: &mut Bus)
        requires
            old(bus).wf(),
            self.valid(old(bus)@),
            old(bus)@[self.domain as int].attached >= 1,
        ensures
            final(bus).wf(),
            final(bus)@ == old(bus)@.update(self.domain as int, detach_one(old(bus)@[self.domain as int])),
    {
        let d = &mut bus.domains[self.domain];
        d.attached = d.attached - 1;
        proof {
            assert(bus@[self.domain as int] =~~= detach_one(old(bus)@[self.domain as int]));
            assert(bus@ =~~= old(bus)@.update(
                self.domain as int,
                detach_one(old(bus)@[self.domain as int]),
            ));
        }
    }

    /// Resolves the slot carrying `name` inside this domain, creating its
    /// storage on first use. Resolving the same name again returns a
    /// handle to the same slot and changes nothing.
    pub fn get_slot(&self, bus: &mut Bus, name: &str) -> (s: ClientSlot)
        requires
            old(bus).wf(),
            self.valid(old(bus)@),
            !name@.contains('\0'),
        ensures
            final(bus).wf(),
            final(bus)@ == old(bus)@.update(
                self.domain as int,
                spec_get_slot(old(bus)@[self.domain as int], name@),
            ),
            s.domain == self.domain,
            s.slot as int == spec_get_slot_id(old(bus)@[self.domain as int], name@),
            s.valid(final(bus)@),
    {
        let key = name.to_owned();
        let d = &mut bus.domains[self.domain];
        proof {
            assert(wf_domain(old(bus)@[self.domain as int]));
        }
        let i = d.resolve_slot(key);
        proof {
            assert(bus@ =~~= old(bus)@.update(
                self.domain as int,
                spec_get_slot(old(bus)@[self.domain as int], name@),
            ));
        }
        ClientSlot { domain: self.domain, slot: i }
    }
}

/// A handle to a slot: the id of its domain and its id within it.
pub struct ClientSlot {
    pub domain: usize,
    pub slot: usize,
}

impl ClientSlot {
    /// Whether the handle refers to a slot of this bus state.
    pub open spec fn valid(self, b: Seq<DomainModel>) -> bool {
        &&& (self.domain as int) < b.len()
        &&& (self.slot as int) < b[self.domain as int].slots.len()
    }

    /// Writes `data` into the slot: the payload is replaced whole (latest
    /// value wins), the version counter moves up, and every subscribed
    /// waiter is signalled according to its wake mode.
    pub fn write(&self, bus: &mut Bus, data: &[u8])
        requires
            old(bus).wf(),
            self.valid(old(bus)@),
            old(bus)@[self.domain as int].slots[self.slot as int].version < u64::MAX,
        ensures
            final(bus).wf(),
            final(bus)@ == old(bus)@.update(
                self.domain as int,
                spec_write(old(bus)@[self.domain as int], self.slot as int, data@),
            ),
    {
        let d = &mut bus.domains[self.domain];
        d.do_write(self.slot, data);
        proof {
            assert(bus@ =~~= old(bus)@.update(
                self.domain as int,
                spec_write(old(bus)@[self.domain as int], self.slot as int, data@),
            ));
        }
    }

    /// Acquires a locked view over the slot's current payload. The view
    /// carries exactly the bytes the slot holds at acquisition: a write is
    /// never observed torn, because writes and reads of a slot are
    /// linearized.
    pub fn read(&self, bus: &Bus) -> (v: C_LockedView)
        requires
            bus.wf(),
            self.valid(bus@),
        ensures
            v.slot == self.slot,
            v.data@ == bus@[self.domain as int].slots[self.slot as int].payload,
            v.len == bus@[self.domain as int].slots[self.slot as int].payload.len(),
    {
        let payload = slice_to_vec(bus.domains[self.domain].slots[self.slot].payload.as_slice());
        let len = payload.len();
        C_LockedView { data: payload, len, slot: self.slot }
    }
}

/// The boundary record of a locked view over a slot's payload: the
/// observed bytes, their length, and the slot the view was taken over. In
/// the cross-process engine the record carries a data pointer and the lock
/// handle to release; here the observed bytes stand in for the pointer,
/// and there is no lock to hand back, since every bus operation is already
/// one linearized step.
#[allow(non_camel_case_types)]
pub struct C_LockedView {
    pub data: Vec<u8>,
    pub len: usize,
    pub slot: usize,
}

impl C_LockedView {
    /// The bytes the view observed.
    pub fn data(&self) -> (r: &Vec<u8>)
        ensures
            r@ == self.data@,
    {
        &self.data
    }

    /// The observed payload length.
    pub fn length(&self) -> (r: usize)
        ensures
            r == self.len,
    {
        self.len
    }

    /// Consumes the view and hands its bytes out as an owned buffer, for
    /// callers that want the payload to outlive the view.
    pub fn copy_to_vec(self) -> (r: Vec<u8>)
        ensures
            r@ == self.data@,
    {
        self.data
    }
}

/// A handle to a waiter: the id of its domain and its id within it. One
/// handle stands for one allocation; it is consumed by `free` and cannot
/// be used after.
pub struct Waiter {
    pub domain: usize,
    pub waiter: usize,
}

impl Waiter {
    /// Whether the handle refers to a live waiter of this bus state.
    pub open spec fn valid(self, b: Seq<DomainModel>) -> bool {
        &&& (self.domain as int) < b.len()
        &&& (self.waiter as int) < b[self.domain as int].waiters.len()
    }

    /// The waiter this handle refers to.
    pub open spec fn model(self, b: Seq<DomainModel>) -> WaiterModel {
        b[self.domain as int].waiters[self.waiter as int]
    }

    /// Allocates a waiter against the domain, with no subscriptions yet.
    pub fn allocate(bus: &mut Bus, domain: &ClientDomain) -> (w: Waiter)
        requires
            old(bus).wf(),
            domain.valid(old(bus)@),
        ensures
            final(bus).wf(),
            final(bus)@ == old(bus)@.update(
                domain.domain as int,
                with_new_waiter(old(bus)@[domain.domain as int]),
            ),
            w.domain == domain.domain,
            w.waiter as int == old(bus)@[domain.domain as int].waiters.len(),
            w.valid(final(bus)@),
            w.model(final(bus)@) == new_waiter(),
    {
        let d = &mut bus.domains[domain.domain];
        let i = d.waiters.len();
        d.waiters.push(WaiterState { alive: true, subs: Vec::new() });
        proof {
            assert(bus@[domain.domain as int].waiters =~= old(bus)@[domain.domain as int].waiters.push(
                new_waiter(),
            ));
            assert(bus@[domain.domain as int] =~~= with_new_waiter(old(bus)@[domain.domain as int]));
            assert(bus@ =~~= old(bus)@.update(
                domain.domain as int,
                with_new_waiter(old(bus)@[domain.domain as int]),
            ));
        }
        Waiter { domain: domain.domain, waiter: i }
    }

    /// Frees the waiter: all its subscriptions are removed first, so no
    /// write can signal it afterwards. Consuming the handle makes any
    /// later use through it impossible.
    pub fn free(self, bus: &mut Bus)
        requires
            old(bus).wf(),
            self.valid(old(bus)@),
        ensures
            final(bus).wf(),
            final(bus)@ == old(bus)@.update(
                self.domain as int,
                with_waiter(
                    old(bus)@[self.domain as int],
                    self.waiter as int,
                    WaiterModel { alive: false, subs: Seq::empty() },
                ),
            ),
    {
        let d = &mut bus.domains[self.domain];
        let wr = &mut d.waiters[self.waiter];
        wr.alive = false;
        wr.subs = Vec::new();
        proof {
            assert(bus@[self.domain as int].waiters =~= old(bus)@[self.domain as int].waiters.update(
                self.waiter as int,
                WaiterModel { alive: false, subs: Seq::empty() },
            ));
            assert(bus@[self.domain as int] =~~= with_waiter(
                old(bus)@[self.domain as int],
                self.waiter as int,
                WaiterModel { alive: false, subs: Seq::empty() },
            ));
            assert(bus@ =~~= old(bus)@.update(
                self.domain as int,
                with_waiter(
                    old(bus)@[self.domain as int],
                    self.waiter as int,
                    WaiterModel { alive: false, subs: Seq::empty() },
                ),
            ));
        }
    }

    /// Subscribes the waiter to a slot of its domain with the requested
    /// wake mode: idempotent, and re-subscribing overwrites the mode.
    pub fn subscribe_to(&self, bus: &mut Bus, slot: &ClientSlot, wake_exclusively: bool)
        requires
            old(bus).wf(),
            self.valid(old(bus)@),
            slot.valid(old(bus)@),
            slot.domain == self.domain,
            self.model(old(bus)@).alive,
        ensures
            final(bus).wf(),
            final(bus)@ == old(bus)@.update(
                self.domain as int,
                with_waiter(
                    old(bus)@[self.domain as int],
                    self.waiter as int,
                    WaiterModel {
                        alive: true,
                        subs: spec_subscribe(
                            self.model(old(bus)@).subs,
                            slot.slot as int,
                            wake_exclusively,
                        ),
                    },
                ),
            ),
    {
        let d = &mut bus.domains[self.domain];
        let nslots = d.slots.len();
        proof {
            assert((slot.slot as int) < old(bus)@[self.domain as int].slots.len());
            assert(old(bus)@[self.domain as int].slots.len() == nslots as int);
            assert(slot.slot < nslots);
        }
        let wr = &mut d.waiters[self.waiter];
        wr.subscribe(slot.slot, wake_exclusively);
        proof {
            let m = WaiterModel {
                alive: true,
                subs: spec_subscribe(self.model(old(bus)@).subs, slot.slot as int, wake_exclusively),
            };
            assert(bus@[self.domain as int].waiters =~= old(bus)@[self.domain as int].waiters.update(
                self.waiter as int,
                m,
            ));
            assert(bus@[self.domain as int] =~~= with_waiter(
                old(bus)@[self.domain as int],
                self.waiter as int,
                m,
            ));
            assert(bus@ =~~= old(bus)@.update(
                self.domain as int,
                with_waiter(old(bus)@[self.domain as int], self.waiter as int, m),
            ));
            assert(crate::model::grown(self.model(old(bus)@).subs, slot.slot as int + 1).len()
                <= bus@[self.domain as int].slots.len());
        }
    }

    /// Unsubscribes the waiter from a slot: idempotent, a no-op if it was
    /// not subscribed, and without effect on any other waiter.
    pub fn unsubscribe_from(&self, bus: &mut Bus, slot: &ClientSlot)
        requires
            old(bus).wf(),
            self.valid(old(bus)@),
            slot.domain == self.domain,
        ensures
            final(bus).wf(),
            final(bus)@ == old(bus)@.update(
                self.domain as int,
                with_waiter(
                    old(bus)@[self.domain as int],
                    self.waiter as int,
                    WaiterModel {
                        alive: self.model(old(bus)@).alive,
                        subs: spec_unsubscribe(self.model(old(bus)@).subs, slot.slot as int),
                    },
                ),
            ),
    {
        let d = &mut bus.domains[self.domain];
        let wr = &mut d.waiters[self.waiter];
        wr.unsubscribe(slot.slot);
        proof {
            let m = WaiterModel {
                alive: self.model(old(bus)@).alive,
                subs: spec_unsubscribe(self.model(old(bus)@).subs, slot.slot as int),
            };
            assert(bus@[self.domain as int].waiters =~= old(bus)@[self.domain as int].waiters.update(
                self.waiter as int,
                m,
            ));
            assert(bus@[self.domain as int] =~~= with_waiter(
                old(bus)@[self.domain as int],
                self.waiter as int,
                m,
            ));
            assert(bus@ =~~= old(bus)@.update(
                self.domain as int,
                with_waiter(old(bus)@[self.domain as int], self.waiter as int, m),
            ));
        }
    }

    /// The blocking wait, as one atomic step: reports whether a subscribed
    /// slot holds a write this waiter has not drained yet. `true` is
    /// exactly the condition under which the engine's blocking call
    /// returns (at once, with no missed-wakeup window, if the write came
    /// before the call); on `false` the engine would suspend until a
    /// qualifying write arrives.
    pub fn wait_exclusive(&self, bus: &Bus) -> (r: bool)
        requires
            bus.wf(),
            self.valid(bus@),
        ensures
            r == ready(self.model(bus@)),
    {
        bus.domains[self.domain].waiters[self.waiter].any_pending()
    }

    /// Drains the set of slots that changed since this waiter's last
    /// drain: every undrained wake is consumed, and one locked view per
    /// changed slot is handed back, each carrying that slot's current
    /// payload. Views come in ascending slot order; each changed slot is
    /// delivered exactly once per drain cycle.
    pub fn for_each_new_slot(&self, bus: &mut Bus) -> (views: Vec<C_LockedView>)
        requires
            old(bus).wf(),
            self.valid(old(bus)@),
        ensures
            final(bus).wf(),
            final(bus)@ == old(bus)@.update(
                self.domain as int,
                with_waiter(
                    old(bus)@[self.domain as int],
                    self.waiter as int,
                    WaiterModel {
                        alive: self.model(old(bus)@).alive,
                        subs: drained(self.model(old(bus)@).subs),
                    },
                ),
            ),
            forall|k: int|
                0 <= k < views@.len() ==> {
                    let s = #[trigger] views@[k].slot as int;
                    &&& 0 <= s < self.model(old(bus)@).subs.len()
                    &&& self.model(old(bus)@).subs[s].pending
                    &&& views@[k].data@ == old(bus)@[self.domain as int].slots[s].payload
                    &&& views@[k].len == old(bus)@[self.domain as int].slots[s].payload.len()
                },
            forall|s: int|
                0 <= s < self.model(old(bus)@).subs.len() && self.model(old(bus)@).subs[s].pending
                    ==> exists|k: int| 0 <= k < views@.len() && #[trigger] views@[k].slot as int == s,
            forall|k1: int, k2: int|
                0 <= k1 < k2 < views@.len() ==> views@[k1].slot < views@[k2].slot,
    {
        let d = &mut bus.domains[self.domain];
        let views = d.drain_waiter(self.waiter);
        proof {
            assert(bus@ =~~= old(bus)@.update(
                self.domain as int,
                with_waiter(
                    old(bus)@[self.domain as int],
                    self.waiter as int,
                    WaiterModel {
                        alive: self.model(old(bus)@).alive,
                        subs: drained(self.model(old(bus)@).subs),
                    },
                ),
            ));
        }
        views
    }
}

} // verus!
