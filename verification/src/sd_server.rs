//! The service discovery server: one offer state machine per announced
//! service, driven by interface, service and timer events, and the offer
//! message of a service.
use crate::sd_entries::{ServiceEntry, ServiceEntryType};
use crate::sd_messages::{AddEntryError, SDMessage};
use crate::sd_options::{SDOption, SDOptionTransportProto};
use crate::someip_codec::SomeIpPacket;
use crate::sd_server_sm::{sm_faults, sm_step, starts_initial_wait, Phase, SDServerStateMachine, SMAction, SMEvent, SMModel};
use vstd::prelude::*;

verus! {

/// The address of a service's endpoint.
#[derive(Debug, Clone, Copy, PartialEq, Eq, Structural)]
pub enum ServiceAddr {
    V4(u32),
    V6(u128),
}

/// What the server announces of a service.
#[derive(Debug, Clone, Copy, PartialEq, Eq, Structural)]
pub struct Service {
    pub major_version: u8,
    pub minor_version: u32,
    pub addr: ServiceAddr,
    pub port: u16,
    pub proto: SDOptionTransportProto,
}

/// The timings of the offer state machines, in milliseconds.
#[derive(Debug, Clone, Copy, PartialEq, Eq, Structural)]
pub struct Timings {
    pub initial_delay_min: u64,
    pub initial_delay_max: u64,
    pub repetitions_max: u32,
    pub repetition_base_delay: u64,
    pub cyclic_offer_delay: u64,
}

/// A service the server knows, with its state machine.
pub struct SlotModel {
    pub service_id: u16,
    pub sm: SMModel,
    pub service: Service,
}

struct Slot {
    service_id: u16,
    sm: SDServerStateMachine,
    service: Service,
}

impl Slot {
    spec fn model(&self) -> SlotModel {
        SlotModel { service_id: self.service_id, sm: self.sm@, service: self.service }
    }
}

/// The services a server announces, in the order it learnt of them.
pub struct SDServer {
    timings: Timings,
    slots: Vec<Slot>,
}

impl View for SDServer {
    type V = Seq<SlotModel>;

    closed spec fn view(&self) -> Seq<SlotModel> {
        self.slots@.map_values(|s: Slot| s.model())
    }
}

/// The state machine of a service the server has just learnt of.
pub open spec fn fresh_sm(t: Timings) -> SMModel {
    SMModel {
        phase: Phase::NotReady,
        interface_status: false,
        service_status: false,
        initial_delay_min: t.initial_delay_min,
        initial_delay_max: t.initial_delay_max,
        repetitions_max: t.repetitions_max,
        repetitions_base_delay: t.repetition_base_delay,
        cyclic_announce_delay: t.cyclic_offer_delay,
    }
}

/// One service's step on an event, with `d` the initial delay should it
/// enter the initial wait; its actions are tagged with its service id.
pub open spec fn slot_step(s: SlotModel, e: SMEvent, d: u64) -> (SlotModel, Seq<(u16, SMAction)>) {
    let (m, acts) = sm_step(s.sm, e, d);
    (SlotModel { sm: m, ..s }, acts.map_values(|a: SMAction| (s.service_id, a)))
}

/// Every service's step on an event, in order, with `ds[k]` the initial
/// delay of the `k`-th; the actions are put together in the same order.
pub open spec fn broadcast(slots: Seq<SlotModel>, e: SMEvent, ds: Seq<u64>) -> (Seq<SlotModel>, Seq<(u16, SMAction)>)
    decreases slots.len(),
{
    if slots.len() == 0 {
        (Seq::empty(), Seq::empty())
    } else {
        let (p, ap) = broadcast(slots.drop_last(), e, ds.drop_last());
        let (s, a) = slot_step(slots.last(), e, ds.last());
        (p.push(s), ap + a)
    }
}

/// Whether a service's initial delay lies in its range when the event makes
/// it enter the initial wait.
pub open spec fn delay_ok(s: SlotModel, e: SMEvent, d: u64) -> bool {
    starts_initial_wait(s.sm, e) ==> s.sm.initial_delay_min <= d < s.sm.initial_delay_max
}

/// Whether the event needs an initial delay of a service whose delay range is
/// empty.
pub open spec fn empty_delay_range(s: SlotModel, e: SMEvent) -> bool {
    starts_initial_wait(s.sm, e) && s.sm.initial_delay_min >= s.sm.initial_delay_max
}

/// Whether the `i`-th service is the first with this id.
pub open spec fn is_first_slot(slots: Seq<SlotModel>, service_id: u16, i: int) -> bool {
    &&& 0 <= i < slots.len()
    &&& slots[i].service_id == service_id
    &&& forall|j: int| 0 <= j < i ==> slots[j].service_id != service_id
}

/// Whether no service has this id.
pub open spec fn no_slot(slots: Seq<SlotModel>, service_id: u16) -> bool {
    forall|j: int| 0 <= j < slots.len() ==> slots[j].service_id != service_id
}

/// The index of the first service with this id, if any.
pub open spec fn slot_index(slots: Seq<SlotModel>, service_id: u16) -> Option<int> {
    if exists|i: int| is_first_slot(slots, service_id, i) {
        Some(choose|i: int| is_first_slot(slots, service_id, i))
    } else {
        None
    }
}

/// What a service status event does: a known service's machine hears
/// whether the service is enabled (what it announces stays as it was); an
/// unknown service is added with a fresh machine that hears it. `d` is the
/// initial delay should the machine enter the initial wait.
pub open spec fn service_status_step(
    slots: Seq<SlotModel>,
    t: Timings,
    service_id: u16,
    service: Service,
    enabled: bool,
    d: u64,
) -> (Seq<SlotModel>, Seq<(u16, SMAction)>) {
    let e = SMEvent::ServiceConfiguration(enabled);
    match slot_index(slots, service_id) {
        Some(i) => {
            let (s, a) = slot_step(slots[i], e, d);
            (slots.update(i, s), a)
        },
        None => {
            let (s, a) = slot_step(SlotModel { service_id, sm: fresh_sm(t), service }, e, d);
            (slots.push(s), a)
        },
    }
}

/// What a timer event does: the machine of the service with this id hears
/// the timeout; a timeout for an unknown service is ignored.
pub open spec fn timeout_step(slots: Seq<SlotModel>, timer_id: u32, service_id: u16) -> (Seq<SlotModel>, Seq<(u16, SMAction)>) {
    match slot_index(slots, service_id) {
        Some(i) => {
            let (s, a) = slot_step(slots[i], SMEvent::Timeout(timer_id), 0);
            (slots.update(i, s), a)
        },
        None => (slots, Seq::empty()),
    }
}

/// Whether no two services share an id.
pub open spec fn ids_distinct(slots: Seq<SlotModel>) -> bool {
    forall|i: int, j: int| 0 <= i < j < slots.len() ==> slots[i].service_id != slots[j].service_id
}

proof fn lemma_slot_index(slots: Seq<SlotModel>, service_id: u16)
    ensures
        slot_index(slots, service_id) matches Some(i) ==> is_first_slot(slots, service_id, i),
        slot_index(slots, service_id) is None ==> no_slot(slots, service_id),
{
    if !(exists|i: int| is_first_slot(slots, service_id, i)) {
        assert forall|j: int| 0 <= j < slots.len() implies slots[j].service_id != service_id by {
            if slots[j].service_id == service_id {
                lemma_first_of(slots, service_id, j);
            }
        }
    }
}

/// A service with this id at `j` means there is a first one.
proof fn lemma_first_of(slots: Seq<SlotModel>, service_id: u16, j: int)
    requires
        0 <= j < slots.len(),
        slots[j].service_id == service_id,
    ensures
        exists|i: int| is_first_slot(slots, service_id, i),
    decreases j,
{
    if forall|k: int| 0 <= k < j ==> slots[k].service_id != service_id {
        assert(is_first_slot(slots, service_id, j));
    } else {
        let k = choose|k: int| 0 <= k < j && slots[k].service_id == service_id;
        lemma_first_of(slots, service_id, k);
    }
}

proof fn lemma_first_slot_unique(slots: Seq<SlotModel>, service_id: u16, i: int)
    requires
        is_first_slot(slots, service_id, i),
    ensures
        slot_index(slots, service_id) == Some(i),
{
    let c = choose|k: int| is_first_slot(slots, service_id, k);
    assert(is_first_slot(slots, service_id, c));
    if c < i {
        assert(slots[c].service_id != service_id);
    } else if c > i {
        assert(slots[i].service_id != service_id);
    }
}

proof fn lemma_broadcast_len(slots: Seq<SlotModel>, e: SMEvent, ds: Seq<u64>)
    ensures
        broadcast(slots, e, ds).0.len() == slots.len(),
    decreases slots.len(),
{
    if slots.len() > 0 {
        lemma_broadcast_len(slots.drop_last(), e, ds.drop_last());
    }
}

impl SDServer {
    /// A server that knows no service yet.
    pub fn new(timings: Timings) -> (s: Self)
        ensures
            s@ == Seq::<SlotModel>::empty(),
            s.timings() == timings,
    {
        let s = SDServer { timings, slots: Vec::new() };
        assert(s@ =~= Seq::<SlotModel>::empty());
        s
    }

    /// The timings given to the state machines of new services.
    pub closed spec fn timings(&self) -> Timings {
        self.timings
    }

    /// The index of the first service with this id, if any.
    fn find(&self, service_id: u16) -> (r: Option<usize>)
        ensures
            match r {
                Some(i) => is_first_slot(self@, service_id, i as int),
                None => no_slot(self@, service_id),
            },
    {
        let mut i: usize = 0;
        while i < self.slots.len()
            invariant
                i <= self.slots@.len(),
                forall|j: int| 0 <= j < i ==> self@[j].service_id != service_id,
            decreases self.slots@.len() - i,
        {
            if self.slots[i].service_id == service_id {
                return Some(i);
            }
            i = i + 1;
        }
        None
    }

    /// What the server announces of the service with this id, if it knows it.
    pub fn service(&self, service_id: u16) -> (r: Option<Service>)
        ensures
            forall|i: int| is_first_slot(self@, service_id, i) ==> r == Some(self@[i].service),
            no_slot(self@, service_id) ==> r is None,
    {
        match self.find(service_id) {
            Some(i) => Some(self.slots[i].service),
            None => None,
        }
    }

    /// Whether the event needs the initial delay of some service whose delay
    /// range is empty (no delay can then be drawn).
    pub fn needs_empty_delay_range(&self, e: SMEvent) -> (r: bool)
        ensures
            r == exists|k: int| 0 <= k < self@.len() && #[trigger] empty_delay_range(self@[k], e),
    {
        let mut i: usize = 0;
        while i < self.slots.len()
            invariant
                i <= self.slots@.len(),
                forall|k: int| 0 <= k < i ==> !empty_delay_range(#[trigger] self@[k], e),
            decreases self.slots@.len() - i,
        {
            if self.slots[i].sm.needs_empty_delay_range(e) {
                assert(empty_delay_range(self@[i as int], e));
                return true;
            }
            i = i + 1;
        }
        false
    }

    /// Hands the event to every service's machine, in order, and returns the
    /// actions, each tagged with its service's id. A service that enters the
    /// initial wait draws its initial delay at random in its range.
    fn broadcast_event(&mut self, e: SMEvent) -> (r: Vec<(u16, SMAction)>)
        requires
            forall|k: int| 0 <= k < old(self)@.len() ==> !sm_faults(#[trigger] old(self)@[k].sm, e),
            forall|k: int| 0 <= k < old(self)@.len() ==> !empty_delay_range(#[trigger] old(self)@[k], e),
        ensures
            final(self).timings() == old(self).timings(),
            exists|ds: Seq<u64>|
                ds.len() == old(self)@.len() && (forall|k: int|
                    0 <= k < ds.len() ==> delay_ok(old(self)@[k], e, #[trigger] ds[k])) && (final(self)@, r@)
                    == broadcast(old(self)@, e, ds),
    {
        let ghost orig = self@;
        let mut rest: Vec<Slot> = Vec::new();
        core::mem::swap(&mut rest, &mut self.slots);
        let mut done: Vec<Slot> = Vec::new();
        let mut actions: Vec<(u16, SMAction)> = Vec::new();
        let ghost mut ds: Seq<u64> = Seq::empty();
        let n = rest.len();
        let mut i: usize = 0;
        assert(rest@.map_values(|s: Slot| s.model()) =~= orig.subrange(0, orig.len() as int));
        assert(orig.take(0) =~= Seq::<SlotModel>::empty());
        while i < n
            invariant
                n == orig.len(),
                i <= n,
                rest@.len() == n - i,
                forall|k: int| 0 <= k < rest@.len() ==> #[trigger] rest@[k].model() == orig[i + k],
                ds.len() == i,
                forall|k: int| 0 <= k < i ==> delay_ok(orig[k], e, #[trigger] ds[k]),
                forall|k: int| 0 <= k < orig.len() ==> !sm_faults(#[trigger] orig[k].sm, e),
                forall|k: int| 0 <= k < orig.len() ==> !empty_delay_range(#[trigger] orig[k], e),
                (done@.map_values(|s: Slot| s.model()), actions@) == broadcast(orig.take(i as int), e, ds),
                self.timings == old(self).timings,
            decreases n - i,
        {
            let ghost before_rest = rest@;
            let slot = rest.remove(0);
            assert(slot.model() == orig[i as int]);
            assert forall|k: int| 0 <= k < rest@.len() implies #[trigger] rest@[k].model() == orig[i + 1 + k] by {
                assert(rest@[k] == before_rest[k + 1]);
                assert(before_rest[k + 1].model() == orig[i + (k + 1)]);
            }
            let ghost m = slot.sm@;
            let (sm, acts) = slot.sm.next(e);
            let ghost d: u64 = if starts_initial_wait(m, e) {
                choose|d: u64| m.initial_delay_min <= d < m.initial_delay_max && (sm@, acts@) == sm_step(m, e, d)
            } else {
                0
            };
            let ghost before = actions@;
            let mut j: usize = 0;
            while j < acts.len()
                invariant
                    j <= acts@.len(),
                    actions@ == before + acts@.take(j as int).map_values(|a: SMAction| (slot.service_id, a)),
                decreases acts@.len() - j,
            {
                actions.push((slot.service_id, acts[j]));
                assert(acts@.take(j + 1) =~= acts@.take(j as int).push(acts@[j as int]));
                assert(actions@ =~= before + acts@.take(j + 1).map_values(|a: SMAction| (slot.service_id, a)));
                j = j + 1;
            }
            assert(acts@.take(j as int) =~= acts@);
            let new_slot = Slot { service_id: slot.service_id, sm, service: slot.service };
            let ghost prev_done = done@;
            done.push(new_slot);
            proof {
                let ds2 = ds.push(d);
                assert(orig.take(i + 1).drop_last() =~= orig.take(i as int));
                assert(ds2.drop_last() =~= ds);
                assert(orig.take(i + 1).last() == orig[i as int]);
                assert(done@.map_values(|s: Slot| s.model()) =~= prev_done.map_values(|s: Slot| s.model()).push(new_slot.model()));
                assert(new_slot.model() == slot_step(orig[i as int], e, d).0);
                ds = ds2;
            }
            i = i + 1;
        }
        self.slots = done;
        assert(orig.take(n as int) =~= orig);
        assert(self@ =~= done@.map_values(|s: Slot| s.model()));
        assert((self@, actions@) == broadcast(orig, e, ds));
        actions
    }

    /// The actions of one machine, each tagged with the service id.
    fn tagged(service_id: u16, acts: &Vec<SMAction>) -> (r: Vec<(u16, SMAction)>)
        ensures
            r@ == acts@.map_values(|a: SMAction| (service_id, a)),
    {
        let mut out: Vec<(u16, SMAction)> = Vec::new();
        let mut j: usize = 0;
        while j < acts.len()
            invariant
                j <= acts@.len(),
                out@ == acts@.take(j as int).map_values(|a: SMAction| (service_id, a)),
            decreases acts@.len() - j,
        {
            out.push((service_id, acts[j]));
            assert(acts@.take(j + 1) =~= acts@.take(j as int).push(acts@[j as int]));
            assert(out@ =~= acts@.take(j + 1).map_values(|a: SMAction| (service_id, a)));
            j = j + 1;
        }
        assert(acts@.take(j as int) =~= acts@);
        out
    }

    /// Whether the event, handed to the machine of the service with this id,
    /// would need an initial delay from an empty range.
    pub fn slot_needs_empty_delay_range(&self, service_id: u16, e: SMEvent) -> (r: bool)
        ensures
            r == (slot_index(self@, service_id) matches Some(i) && empty_delay_range(self@[i], e)),
    {
        proof {
            lemma_slot_index(self@, service_id);
        }
        match self.find(service_id) {
            Some(i) => {
                proof {
                    lemma_first_slot_unique(self@, service_id, i as int);
                }
                self.slots[i].sm.needs_empty_delay_range(e)
            },
            None => false,
        }
    }

    /// Whether the machine of the service with this id cannot proceed on a
    /// timeout of this timer.
    pub fn timeout_faults(&self, timer_id: u32, service_id: u16) -> (r: bool)
        ensures
            r == (slot_index(self@, service_id) matches Some(i) && sm_faults(self@[i].sm, SMEvent::Timeout(timer_id))),
    {
        proof {
            lemma_slot_index(self@, service_id);
        }
        match self.find(service_id) {
            Some(i) => {
                proof {
                    lemma_first_slot_unique(self@, service_id, i as int);
                }
                self.slots[i].sm.faults_on(SMEvent::Timeout(timer_id))
            },
            None => false,
        }
    }

    /// A service was enabled or disabled: see `service_status_step`. A machine
    /// that enters the initial wait draws its initial delay at random in its
    /// range.
    pub fn on_service_status(&mut self, service_id: u16, service: Service, enabled: bool) -> (r: Vec<(u16, SMAction)>)
        requires
            !(slot_index(old(self)@, service_id) matches Some(i) && empty_delay_range(
                old(self)@[i],
                SMEvent::ServiceConfiguration(enabled),
            )),
        ensures
            final(self).timings() == old(self).timings(),
            exists|d: u64|
                (slot_index(old(self)@, service_id) matches Some(i) ==> delay_ok(
                    old(self)@[i],
                    SMEvent::ServiceConfiguration(enabled),
                    d,
                )) && (final(self)@, r@) == #[trigger] service_status_step(
                    old(self)@,
                    old(self).timings(),
                    service_id,
                    service,
                    enabled,
                    d,
                ),
    {
        let e = SMEvent::ServiceConfiguration(enabled);
        let ghost orig = self@;
        proof {
            lemma_slot_index(orig, service_id);
        }
        match self.find(service_id) {
            Some(i) => {
                proof {
                    lemma_first_slot_unique(orig, service_id, i as int);
                }
                let slot = self.slots.remove(i);
                let ghost m = slot.sm@;
                assert(slot.model() == orig[i as int]);
                let (sm, acts) = slot.sm.next(e);
                let ghost d: u64 = if starts_initial_wait(m, e) {
                    choose|d: u64| m.initial_delay_min <= d < m.initial_delay_max && (sm@, acts@) == sm_step(m, e, d)
                } else {
                    0
                };
                let out = Self::tagged(slot.service_id, &acts);
                let new_slot = Slot { service_id: slot.service_id, sm, service: slot.service };
                self.slots.insert(i, new_slot);
                assert(self@ =~= orig.update(i as int, new_slot.model()));
                assert((self@, out@) == service_status_step(orig, self.timings, service_id, service, enabled, d));
                assert(delay_ok(orig[i as int], e, d));
                assert(slot_index(orig, service_id) == Some(i as int));
                assert(old(self).timings() == self.timings && old(self)@ == orig);
                assert((slot_index(old(self)@, service_id) matches Some(k) ==> delay_ok(old(self)@[k], e, d)) && (self@, out@)
                    == service_status_step(old(self)@, old(self).timings(), service_id, service, enabled, d));
                out
            },
            None => {
                let t = self.timings;
                let fresh = SDServerStateMachine::new(
                    t.initial_delay_min,
                    t.initial_delay_max,
                    t.repetitions_max,
                    t.repetition_base_delay,
                    t.cyclic_offer_delay,
                );
                let (sm, acts) = fresh.next(e);
                let out = Self::tagged(service_id, &acts);
                let new_slot = Slot { service_id, sm, service };
                self.slots.push(new_slot);
                assert(self@ =~= orig.push(new_slot.model()));
                assert((self@, out@) == service_status_step(orig, self.timings, service_id, service, enabled, 0));
                assert(old(self).timings() == self.timings && old(self)@ == orig);
                assert((slot_index(old(self)@, service_id) matches Some(k) ==> delay_ok(old(self)@[k], e, 0)) && (self@, out@)
                    == service_status_step(old(self)@, old(self).timings(), service_id, service, enabled, 0));
                out
            },
        }
    }

    /// A timer of the service with this id expired: see `timeout_step`.
    pub fn on_timeout(&mut self, timer_id: u32, service_id: u16) -> (r: Vec<(u16, SMAction)>)
        requires
            !(slot_index(old(self)@, service_id) matches Some(i) && sm_faults(old(self)@[i].sm, SMEvent::Timeout(timer_id))),
        ensures
            final(self).timings() == old(self).timings(),
            (final(self)@, r@) == timeout_step(old(self)@, timer_id, service_id),
    {
        let e = SMEvent::Timeout(timer_id);
        let ghost orig = self@;
        proof {
            lemma_slot_index(orig, service_id);
        }
        match self.find(service_id) {
            Some(i) => {
                proof {
                    lemma_first_slot_unique(orig, service_id, i as int);
                }
                let slot = self.slots.remove(i);
                assert(slot.model() == orig[i as int]);
                let (sm, acts) = slot.sm.next(e);
                let out = Self::tagged(slot.service_id, &acts);
                let new_slot = Slot { service_id: slot.service_id, sm, service: slot.service };
                self.slots.insert(i, new_slot);
                assert(self@ =~= orig.update(i as int, new_slot.model()));
                out
            },
            None => Vec::new(),
        }
    }

    /// The interface went up or down: every service's machine hears it.
    pub fn on_interface_status(&mut self, enabled: bool) -> (r: Vec<(u16, SMAction)>)
        requires
            forall|k: int|
                0 <= k < old(self)@.len() ==> !empty_delay_range(#[trigger] old(self)@[k], SMEvent::IfStatusChanged(enabled)),
        ensures
            final(self).timings() == old(self).timings(),
            exists|ds: Seq<u64>|
                ds.len() == old(self)@.len() && (forall|k: int|
                    0 <= k < ds.len() ==> delay_ok(old(self)@[k], SMEvent::IfStatusChanged(enabled), #[trigger] ds[k]))
                    && (final(self)@, r@) == broadcast(old(self)@, SMEvent::IfStatusChanged(enabled), ds),
    {
        self.broadcast_event(SMEvent::IfStatusChanged(enabled))
    }
}

/// The packet that offers a service: a message with the service's endpoint
/// as its only option, the reboot and explicit-initial-data-control flags
/// set, and an offer entry for the service and its version that refers to a
/// run of one option at index 0. An option run must end before the last
/// option, so with a single option the entry is refused and the result is
/// always `NotFound`.
pub fn offer_packet(service_id: u16, service: &Service) -> (r: Result<SomeIpPacket, AddEntryError>)
    ensures
        r == Err::<SomeIpPacket, AddEntryError>(AddEntryError::NotFound),
{
    let mut options: Vec<SDOption> = Vec::new();
    let addr_option = match service.addr {
        ServiceAddr::V4(addr) => SDOption::Ipv4Endpoint { addr, transport: service.proto, port: service.port },
        ServiceAddr::V6(addr) => SDOption::Ipv6Endpoint { addr, transport: service.proto, port: service.port },
    };
    options.push(addr_option);
    let mut message = SDMessage::default();
    message.set_options(options);
    let mut entry = ServiceEntry::default();
    entry.set_service_entry_type(ServiceEntryType::Offer);
    entry.set_service_id(service_id);
    entry.set_major_version(service.major_version);
    entry.set_minor_version(service.minor_version);
    match message.add_entry(entry, 0, 1, 0, 0) {
        Ok(()) => {
            message.set_exp_initial_data_control(true);
            message.set_reboot(true);
            Ok(message.into_packet())
        },
        Err(e) => Err(e),
    }
}

/// When the interface goes down, every service's machine is back to not
/// ready, whatever the delays; the services and their ids stay as they were.
pub proof fn law_interface_down_stops_all(slots: Seq<SlotModel>, ds: Seq<u64>)
    ensures
        broadcast(slots, SMEvent::IfStatusChanged(false), ds).0.len() == slots.len(),
        forall|k: int|
            0 <= k < slots.len() ==> (#[trigger] broadcast(slots, SMEvent::IfStatusChanged(false), ds).0[k]).sm.phase
                == Phase::NotReady,
        forall|k: int|
            0 <= k < slots.len() ==> (#[trigger] broadcast(slots, SMEvent::IfStatusChanged(false), ds).0[k]).service_id
                == slots[k].service_id,
    decreases slots.len(),
{
    let e = SMEvent::IfStatusChanged(false);
    lemma_broadcast_len(slots, e, ds);
    if slots.len() > 0 {
        law_interface_down_stops_all(slots.drop_last(), ds.drop_last());
        let b = broadcast(slots, e, ds).0;
        let p = broadcast(slots.drop_last(), e, ds.drop_last()).0;
        assert forall|k: int| 0 <= k < slots.len() implies (#[trigger] b[k]).sm.phase == Phase::NotReady && b[k].service_id
            == slots[k].service_id by {
            if k < slots.len() - 1 {
                assert(b[k] == p[k]);
                assert(slots.drop_last()[k] == slots[k]);
            }
        }
    }
}

/// Service status events keep service ids distinct: a service is added only
/// when no service has its id.
pub proof fn law_service_ids_stay_distinct(
    slots: Seq<SlotModel>,
    t: Timings,
    service_id: u16,
    service: Service,
    enabled: bool,
    d: u64,
)
    requires
        ids_distinct(slots),
    ensures
        ids_distinct(service_status_step(slots, t, service_id, service, enabled, d).0),
{
    lemma_slot_index(slots, service_id);
    let r = service_status_step(slots, t, service_id, service, enabled, d).0;
    assert forall|i: int, j: int| 0 <= i < j < r.len() implies r[i].service_id != r[j].service_id by {
        if slot_index(slots, service_id) is None && j == slots.len() {
            assert(r[i] == slots[i]);
        } else {
            assert(r[i].service_id == slots[i].service_id);
            assert(r[j].service_id == slots[j].service_id);
        }
    }
}

} // verus!
