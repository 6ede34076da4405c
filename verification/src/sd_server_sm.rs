//! The offer side of service discovery as a state machine: from state and
//! event to the next state and the timer and offer actions to perform.
use vstd::prelude::*;

verus! {

/// Events that drive the state machine.
#[derive(Debug, Clone, Copy, PartialEq, Eq, Structural)]
pub enum SMEvent {
    /// The network interface went up (`true`) or down.
    IfStatusChanged(bool),
    /// The service was enabled (`true`) or disabled.
    ServiceConfiguration(bool),
    /// The timer with this id expired.
    Timeout(u32),
    /// A client looks for the service.
    FindService,
}

/// Actions that the owner of the state machine performs for it.
#[derive(Debug, Clone, Copy, PartialEq, Eq, Structural)]
pub enum SMAction {
    /// Start the timer with this id to expire after this many milliseconds.
    SetTimer(u32, u64),
    /// Stop the timer with this id.
    ClearTimer(u32),
    /// Send an offer of the service.
    SendOffer,
}

/// Hooks that a state may run when it is entered or left.
pub trait State: Sized {
    /// Runs when the state is entered; by default it does nothing.
    fn on_entry(&mut self)
        ensures
            *final(self) == *old(self),
    {
    }

    /// Runs when the state is left; by default it does nothing.
    fn on_exit(&mut self)
        ensures
            *final(self) == *old(self),
    {
    }
}

/// Not offering: the interface or the service is down.
#[derive(Debug, Default)]
pub struct NotReady {}

impl State for NotReady {

}

/// Waiting the initial delay before the first offer.
#[derive(Debug, Default)]
pub struct InitialWaitPhase {}

impl State for InitialWaitPhase {

}

/// Offering repeatedly; `run` counts the offers made in this phase.
#[derive(Debug, Default)]
pub struct RepetitionPhase {
    run: u32,
}

impl State for RepetitionPhase {

}

/// Offering cyclically.
#[derive(Debug, Default)]
pub struct MainPhase {}

impl State for MainPhase {

}

/// The statuses and timings the states share; delays in milliseconds.
struct SMData {
    interface_status: bool,
    service_status: bool,
    initial_delay_min: u64,
    initial_delay_max: u64,
    repetitions_max: u32,
    repetitions_base_delay: u64,
    cyclic_announce_delay: u64,
}

/// A state together with the shared data.
pub struct Data<S> {
    state: S,
    inner: SMData,
}

/// The state machine.
pub enum SDServerStateMachine {
    NotReady(Data<NotReady>),
    InitialWaitPhase(Data<InitialWaitPhase>),
    RepetitionPhase(Data<RepetitionPhase>),
    MainPhase(Data<MainPhase>),
}

/// Which state the machine is in; the repetition phase with its count.
#[derive(Debug, Clone, Copy, PartialEq, Eq, Structural)]
pub enum Phase {
    NotReady,
    InitialWait,
    Repetition(u32),
    Main,
}

/// What the state machine holds.
pub struct SMModel {
    pub phase: Phase,
    pub interface_status: bool,
    pub service_status: bool,
    pub initial_delay_min: u64,
    pub initial_delay_max: u64,
    pub repetitions_max: u32,
    pub repetitions_base_delay: u64,
    pub cyclic_announce_delay: u64,
}

/// The events on which the machine cannot proceed: a timeout while not
/// ready, and a timeout whose id is not that of the running phase (1 in the
/// repetition phase, 2 in the main phase); also a repetition count that
/// cannot grow.
pub open spec fn sm_faults(m: SMModel, e: SMEvent) -> bool {
    match (m.phase, e) {
        (Phase::NotReady, SMEvent::Timeout(_)) => true,
        (Phase::Repetition(run), SMEvent::Timeout(t)) => t != 1 || run == u32::MAX,
        (Phase::Main, SMEvent::Timeout(t)) => t != 2,
        _ => false,
    }
}

/// Whether the event moves the machine from not ready to the initial wait.
pub open spec fn starts_initial_wait(m: SMModel, e: SMEvent) -> bool {
    m.phase == Phase::NotReady && match e {
        SMEvent::IfStatusChanged(b) => b && m.service_status,
        SMEvent::ServiceConfiguration(b) => b && m.interface_status,
        _ => false,
    }
}

/// The next state and the actions, with `delay` the initial delay to use if
/// the machine enters the initial wait.
pub open spec fn sm_step(m: SMModel, e: SMEvent, delay: u64) -> (SMModel, Seq<SMAction>) {
    let m_if = |b: bool| SMModel { interface_status: b, ..m };
    let m_sv = |b: bool| SMModel { service_status: b, ..m };
    match m.phase {
        Phase::NotReady => match e {
            SMEvent::IfStatusChanged(b) => if b && m.service_status {
                (SMModel { phase: Phase::InitialWait, ..m_if(b) }, seq![SMAction::SetTimer(0, delay)])
            } else {
                (m_if(b), Seq::empty())
            },
            SMEvent::ServiceConfiguration(b) => if b && m.interface_status {
                (SMModel { phase: Phase::InitialWait, ..m_sv(b) }, seq![SMAction::SetTimer(0, delay)])
            } else {
                (m_sv(b), Seq::empty())
            },
            _ => (m, Seq::empty()),
        },
        Phase::InitialWait => match e {
            SMEvent::IfStatusChanged(b) => if b && m.service_status {
                (m_if(b), Seq::empty())
            } else {
                (SMModel { phase: Phase::NotReady, ..m_if(b) }, seq![SMAction::ClearTimer(0)])
            },
            SMEvent::ServiceConfiguration(b) => if b && m.interface_status {
                (m_sv(b), Seq::empty())
            } else {
                (SMModel { phase: Phase::NotReady, ..m_sv(b) }, seq![SMAction::ClearTimer(0)])
            },
            SMEvent::Timeout(t) => if t == 0 {
                (
                    SMModel { phase: Phase::Repetition(0), ..m },
                    seq![SMAction::SetTimer(1, m.repetitions_base_delay)],
                )
            } else {
                (m, Seq::empty())
            },
            SMEvent::FindService => (m, Seq::empty()),
        },
        Phase::Repetition(run) => match e {
            SMEvent::IfStatusChanged(b) => if !b {
                (SMModel { phase: Phase::NotReady, ..m_if(b) }, Seq::empty())
            } else {
                (m_if(b), Seq::empty())
            },
            SMEvent::ServiceConfiguration(b) => if !b {
                (SMModel { phase: Phase::NotReady, ..m_sv(b) }, Seq::empty())
            } else {
                (m_sv(b), Seq::empty())
            },
            SMEvent::Timeout(_) => if run + 1 > m.repetitions_max {
                (
                    SMModel { phase: Phase::Main, ..m },
                    seq![SMAction::SendOffer, SMAction::SetTimer(2, m.cyclic_announce_delay)],
                )
            } else {
                (
                    SMModel { phase: Phase::Repetition((run + 1) as u32), ..m },
                    seq![SMAction::SendOffer, SMAction::SetTimer(1, m.repetitions_base_delay)],
                )
            },
            SMEvent::FindService => (
                m,
                seq![
                    SMAction::ClearTimer(1),
                    SMAction::SendOffer,
                    SMAction::SetTimer(1, m.repetitions_base_delay),
                ],
            ),
        },
        Phase::Main => match e {
            SMEvent::IfStatusChanged(b) => if !b {
                (SMModel { phase: Phase::NotReady, ..m_if(b) }, Seq::empty())
            } else {
                (m_if(b), Seq::empty())
            },
            SMEvent::ServiceConfiguration(b) => if !b {
                (SMModel { phase: Phase::NotReady, ..m_sv(b) }, Seq::empty())
            } else {
                (m_sv(b), Seq::empty())
            },
            SMEvent::Timeout(_) => (
                m,
                seq![SMAction::SendOffer, SMAction::SetTimer(2, m.cyclic_announce_delay)],
            ),
            SMEvent::FindService => (
                m,
                seq![
                    SMAction::ClearTimer(2),
                    SMAction::SendOffer,
                    SMAction::SetTimer(2, m.repetitions_base_delay),
                ],
            ),
        },
    }
}

#[verifier::external_body]
/// Calls `rand::Rng::gen_range` on `rand::thread_rng()` with the range
/// `lo..hi`; its documentation says the value lies in the range and that an
/// empty range panics. Nothing else is stated: the value is random.
fn random_between(lo: u64, hi: u64) -> (r: u64)
    requires
        lo < hi,
    ensures
        lo <= r < hi,
{
    rand::Rng::gen_range(&mut rand::thread_rng(), lo..hi)
}

impl SMData {
    spec fn model(&self, phase: Phase) -> SMModel {
        SMModel {
            phase,
            interface_status: self.interface_status,
            service_status: self.service_status,
            initial_delay_min: self.initial_delay_min,
            initial_delay_max: self.initial_delay_max,
            repetitions_max: self.repetitions_max,
            repetitions_base_delay: self.repetitions_base_delay,
            cyclic_announce_delay: self.cyclic_announce_delay,
        }
    }

    /// A random initial delay between the minimum (included) and the maximum
    /// (excluded).
    fn get_initial_delay(&self) -> (r: u64)
        requires
            self.initial_delay_min < self.initial_delay_max,
        ensures
            self.initial_delay_min <= r < self.initial_delay_max,
    {
        random_between(self.initial_delay_min, self.initial_delay_max)
    }
}

impl View for SDServerStateMachine {
    type V = SMModel;

    closed spec fn view(&self) -> SMModel {
        match self {
            SDServerStateMachine::NotReady(d) => d.inner.model(Phase::NotReady),
            SDServerStateMachine::InitialWaitPhase(d) => d.inner.model(Phase::InitialWait),
            SDServerStateMachine::RepetitionPhase(d) => d.inner.model(Phase::Repetition(d.state.run)),
            SDServerStateMachine::MainPhase(d) => d.inner.model(Phase::Main),
        }
    }
}

fn enter_not_ready(inner: SMData) -> (r: Data<NotReady>)
    ensures
        r.inner == inner,
{
    let mut state = NotReady {};
    state.on_entry();
    Data { state, inner }
}

fn enter_initial_wait(inner: SMData) -> (r: Data<InitialWaitPhase>)
    ensures
        r.inner == inner,
{
    let mut state = InitialWaitPhase {};
    state.on_entry();
    Data { state, inner }
}

fn enter_repetition(inner: SMData) -> (r: Data<RepetitionPhase>)
    ensures
        r.inner == inner,
        r.state.run == 0,
{
    let mut state = RepetitionPhase { run: 0 };
    state.on_entry();
    Data { state, inner }
}

fn enter_main(inner: SMData) -> (r: Data<MainPhase>)
    ensures
        r.inner == inner,
{
    let mut state = MainPhase {};
    state.on_entry();
    Data { state, inner }
}

impl SDServerStateMachine {
    /// A machine that is not ready, with interface and service down and the
    /// given timings (in milliseconds).
    pub fn new(
        initial_delay_min: u64,
        initial_delay_max: u64,
        repetitions_max: u32,
        repetitions_base_delay: u64,
        cyclic_announce_delay: u64,
    ) -> (sm: Self)
        ensures
            sm@ == (SMModel {
                phase: Phase::NotReady,
                interface_status: false,
                service_status: false,
                initial_delay_min,
                initial_delay_max,
                repetitions_max,
                repetitions_base_delay,
                cyclic_announce_delay,
            }),
    {
        SDServerStateMachine::NotReady(
            Data {
                state: NotReady {},
                inner: SMData {
                    interface_status: false,
                    service_status: false,
                    initial_delay_min,
                    initial_delay_max,
                    repetitions_max,
                    repetitions_base_delay,
                    cyclic_announce_delay,
                },
            },
        )
    }

    /// Which state the machine is in.
    pub fn phase(&self) -> (r: Phase)
        ensures
            r == self@.phase,
    {
        match self {
            SDServerStateMachine::NotReady(_) => Phase::NotReady,
            SDServerStateMachine::InitialWaitPhase(_) => Phase::InitialWait,
            SDServerStateMachine::RepetitionPhase(d) => Phase::Repetition(d.state.run),
            SDServerStateMachine::MainPhase(_) => Phase::Main,
        }
    }

    /// Whether the machine cannot proceed on the event (see `sm_faults`).
    pub fn faults_on(&self, event: SMEvent) -> (r: bool)
        ensures
            r == sm_faults(self@, event),
    {
        match (self, event) {
            (SDServerStateMachine::NotReady(_), SMEvent::Timeout(_)) => true,
            (SDServerStateMachine::RepetitionPhase(d), SMEvent::Timeout(t)) => t != 1 || d.state.run == u32::MAX,
            (SDServerStateMachine::MainPhase(_), SMEvent::Timeout(t)) => t != 2,
            _ => false,
        }
    }

    /// Whether the event makes the machine enter the initial wait while its
    /// range of initial delays is empty, so that no delay can be drawn.
    pub fn needs_empty_delay_range(&self, event: SMEvent) -> (r: bool)
        ensures
            r == (starts_initial_wait(self@, event) && self@.initial_delay_min >= self@.initial_delay_max),
    {
        match (self, event) {
            (SDServerStateMachine::NotReady(d), SMEvent::IfStatusChanged(b)) => b && d.inner.service_status
                && d.inner.initial_delay_min >= d.inner.initial_delay_max,
            (SDServerStateMachine::NotReady(d), SMEvent::ServiceConfiguration(b)) => b && d.inner.interface_status
                && d.inner.initial_delay_min >= d.inner.initial_delay_max,
            _ => false,
        }
    }

    /// Handles an event, with `delay` as the initial delay should the machine
    /// enter the initial wait; returns the next state and the actions.
    pub fn next_with_delay(self, event: SMEvent, delay: u64) -> (r: (SDServerStateMachine, Vec<SMAction>))
        requires
            !sm_faults(self@, event),
        ensures
            (r.0@, r.1@) == sm_step(self@, event, delay),
    {
        let ghost m = self@;
        let mut actions: Vec<SMAction> = Vec::new();
        let next = match self {
            SDServerStateMachine::NotReady(mut d) => match event {
                SMEvent::IfStatusChanged(if_enabled) => {
                    d.inner.interface_status = if_enabled;
                    if d.inner.interface_status && d.inner.service_status {
                        actions.push(SMAction::SetTimer(0, delay));
                        d.state.on_exit();
                        SDServerStateMachine::InitialWaitPhase(enter_initial_wait(d.inner))
                    } else {
                        SDServerStateMachine::NotReady(d)
                    }
                },
                SMEvent::ServiceConfiguration(enabled) => {
                    d.inner.service_status = enabled;
                    if d.inner.interface_status && d.inner.service_status {
                        actions.push(SMAction::SetTimer(0, delay));
                        d.state.on_exit();
                        SDServerStateMachine::InitialWaitPhase(enter_initial_wait(d.inner))
                    } else {
                        SDServerStateMachine::NotReady(d)
                    }
                },
                _ => SDServerStateMachine::NotReady(d),
            },
            SDServerStateMachine::InitialWaitPhase(mut d) => match event {
                SMEvent::IfStatusChanged(if_enabled) => {
                    d.inner.interface_status = if_enabled;
                    if d.inner.interface_status && d.inner.service_status {
                        SDServerStateMachine::InitialWaitPhase(d)
                    } else {
                        actions.push(SMAction::ClearTimer(0));
                        d.state.on_exit();
                        SDServerStateMachine::NotReady(enter_not_ready(d.inner))
                    }
                },
                SMEvent::ServiceConfiguration(enabled) => {
                    d.inner.service_status = enabled;
                    if d.inner.interface_status && d.inner.service_status {
                        SDServerStateMachine::InitialWaitPhase(d)
                    } else {
                        actions.push(SMAction::ClearTimer(0));
                        d.state.on_exit();
                        SDServerStateMachine::NotReady(enter_not_ready(d.inner))
                    }
                },
                SMEvent::Timeout(tid) => {
                    if tid == 0 {
                        actions.push(SMAction::SetTimer(1, d.inner.repetitions_base_delay));
                        d.state.on_exit();
                        SDServerStateMachine::RepetitionPhase(enter_repetition(d.inner))
                    } else {
                        SDServerStateMachine::InitialWaitPhase(d)
                    }
                },
                SMEvent::FindService => SDServerStateMachine::InitialWaitPhase(d),
            },
            SDServerStateMachine::RepetitionPhase(mut d) => match event {
                SMEvent::IfStatusChanged(if_enabled) => {
                    d.inner.interface_status = if_enabled;
                    if !if_enabled {
                        d.state.on_exit();
                        SDServerStateMachine::NotReady(enter_not_ready(d.inner))
                    } else {
                        SDServerStateMachine::RepetitionPhase(d)
                    }
                },
                SMEvent::ServiceConfiguration(enabled) => {
                    d.inner.service_status = enabled;
                    if !enabled {
                        d.state.on_exit();
                        SDServerStateMachine::NotReady(enter_not_ready(d.inner))
                    } else {
                        SDServerStateMachine::RepetitionPhase(d)
                    }
                },
                SMEvent::Timeout(_) => {
                    actions.push(SMAction::SendOffer);
                    d.state.run = d.state.run + 1;
                    if d.state.run > d.inner.repetitions_max {
                        actions.push(SMAction::SetTimer(2, d.inner.cyclic_announce_delay));
                        d.state.on_exit();
                        SDServerStateMachine::MainPhase(enter_main(d.inner))
                    } else {
                        actions.push(SMAction::SetTimer(1, d.inner.repetitions_base_delay));
                        SDServerStateMachine::RepetitionPhase(d)
                    }
                },
                SMEvent::FindService => {
                    actions.push(SMAction::ClearTimer(1));
                    actions.push(SMAction::SendOffer);
                    actions.push(SMAction::SetTimer(1, d.inner.repetitions_base_delay));
                    SDServerStateMachine::RepetitionPhase(d)
                },
            },
            SDServerStateMachine::MainPhase(mut d) => match event {
                SMEvent::IfStatusChanged(if_enabled) => {
                    d.inner.interface_status = if_enabled;
                    if !if_enabled {
                        d.state.on_exit();
                        SDServerStateMachine::NotReady(enter_not_ready(d.inner))
                    } else {
                        SDServerStateMachine::MainPhase(d)
                    }
                },
                SMEvent::ServiceConfiguration(enabled) => {
                    d.inner.service_status = enabled;
                    if !enabled {
                        d.state.on_exit();
                        SDServerStateMachine::NotReady(enter_not_ready(d.inner))
                    } else {
                        SDServerStateMachine::MainPhase(d)
                    }
                },
                SMEvent::Timeout(_) => {
                    actions.push(SMAction::SendOffer);
                    actions.push(SMAction::SetTimer(2, d.inner.cyclic_announce_delay));
                    SDServerStateMachine::MainPhase(d)
                },
                SMEvent::FindService => {
                    actions.push(SMAction::ClearTimer(2));
                    actions.push(SMAction::SendOffer);
                    actions.push(SMAction::SetTimer(2, d.inner.repetitions_base_delay));
                    SDServerStateMachine::MainPhase(d)
                },
            },
        };
        assert(actions@ =~= sm_step(m, event, delay).1);
        (next, actions)
    }

    /// Handles an event; should the machine enter the initial wait, the
    /// initial delay is drawn at random between the minimum (included) and the
    /// maximum (excluded).
    pub fn next(self, event: SMEvent) -> (r: (SDServerStateMachine, Vec<SMAction>))
        requires
            !sm_faults(self@, event),
            starts_initial_wait(self@, event) ==> self@.initial_delay_min < self@.initial_delay_max,
        ensures
            starts_initial_wait(self@, event) ==> exists|delay: u64|
                self@.initial_delay_min <= delay < self@.initial_delay_max
                    && (r.0@, r.1@) == sm_step(self@, event, delay),
            !starts_initial_wait(self@, event) ==> (r.0@, r.1@) == sm_step(self@, event, 0),
    {
        let starts = match (&self, event) {
            (SDServerStateMachine::NotReady(d), SMEvent::IfStatusChanged(b)) => b && d.inner.service_status,
            (SDServerStateMachine::NotReady(d), SMEvent::ServiceConfiguration(b)) => b && d.inner.interface_status,
            _ => false,
        };
        if starts {
            let delay = match &self {
                SDServerStateMachine::NotReady(d) => d.inner.get_initial_delay(),
                _ => 0,
            };
            let ghost m = self@;
            let r = self.next_with_delay(event, delay);
            assert(m.initial_delay_min <= delay < m.initial_delay_max && (r.0@, r.1@) == sm_step(m, event, delay));
            r
        } else {
            self.next_with_delay(event, 0)
        }
    }
}

/// What holds in every state the machine reaches: outside the not-ready
/// state both the interface and the service are up, and the repetition count
/// never exceeds the maximum.
pub open spec fn sm_invariant(m: SMModel) -> bool {
    &&& m.phase != Phase::NotReady ==> m.interface_status && m.service_status
    &&& m.phase matches Phase::Repetition(run) ==> run <= m.repetitions_max
}

/// A new machine satisfies the invariant, and every step keeps it: outside
/// the not-ready state the interface and the service are up, and the
/// repetition count stays within its maximum.
pub proof fn law_sm_invariant(m: SMModel, e: SMEvent, delay: u64)
    requires
        sm_invariant(m),
        !sm_faults(m, e),
    ensures
        sm_invariant(sm_step(m, e, delay).0),
        m.phase == Phase::NotReady && !m.interface_status && !m.service_status ==> sm_invariant(m),
{
}

/// The initial delay matters only on the step that enters the initial wait,
/// and that step sets timer 0 to it.
pub proof fn law_sm_initial_delay(m: SMModel, e: SMEvent, d1: u64, d2: u64)
    ensures
        !starts_initial_wait(m, e) ==> sm_step(m, e, d1) == sm_step(m, e, d2),
        starts_initial_wait(m, e) ==> sm_step(m, e, d1).0.phase == Phase::InitialWait
            && sm_step(m, e, d1).1 == seq![SMAction::SetTimer(0, d1)],
{
}

/// An interface or service that goes down always brings the machine back to
/// the not-ready state.
pub proof fn law_sm_down_means_not_ready(m: SMModel, e: SMEvent, delay: u64)
    requires
        e == SMEvent::IfStatusChanged(false) || e == SMEvent::ServiceConfiguration(false),
    ensures
        sm_step(m, e, delay).0.phase == Phase::NotReady,
{
}

/// The machine after `k` timeouts of timer `t`, each handled in turn.
pub open spec fn after_timeouts(m: SMModel, t: u32, k: nat) -> SMModel
    decreases k,
{
    if k == 0 {
        m
    } else {
        sm_step(after_timeouts(m, t, (k - 1) as nat), SMEvent::Timeout(t), 0).0
    }
}

proof fn lemma_repetitions(m: SMModel, j: nat)
    requires
        m.phase == Phase::Repetition(0),
        j <= m.repetitions_max,
    ensures
        after_timeouts(m, 1, j) == (SMModel { phase: Phase::Repetition(j as u32), ..m }),
    decreases j,
{
    if j > 0 {
        lemma_repetitions(m, (j - 1) as nat);
    }
}

/// The run of repetitions: the timeout of timer 0 ends the initial wait and
/// starts the repetition phase with timer 1; then, for `k` from 1 to the
/// maximum, the `k`-th timeout of timer 1 sends an offer and starts timer 1
/// again, and the machine counts `k` repetitions; the timeout after those
/// sends an offer, starts timer 2 with the cyclic delay and enters the main
/// phase. No step of the run faults, and the statuses stay as they were.
/// (With a maximum of `u32::MAX` the count cannot pass it: that last step
/// is left out.)
pub proof fn law_sm_repetitions(m: SMModel, k: nat)
    requires
        m.phase == Phase::InitialWait,
        1 <= k <= m.repetitions_max + 1,
        k - 1 < u32::MAX,
    ensures
        ({
            let (r, acts) = sm_step(m, SMEvent::Timeout(0), 0);
            &&& !sm_faults(m, SMEvent::Timeout(0))
            &&& r == (SMModel { phase: Phase::Repetition(0), ..m })
            &&& acts == seq![SMAction::SetTimer(1, m.repetitions_base_delay)]
        }),
        ({
            let r = sm_step(m, SMEvent::Timeout(0), 0).0;
            let before = after_timeouts(r, 1, (k - 1) as nat);
            let (next, acts) = sm_step(before, SMEvent::Timeout(1), 0);
            &&& !sm_faults(before, SMEvent::Timeout(1))
            &&& next.interface_status == m.interface_status
            &&& next.service_status == m.service_status
            &&& k <= m.repetitions_max ==> next.phase == Phase::Repetition(k as u32) && acts == seq![
                SMAction::SendOffer,
                SMAction::SetTimer(1, m.repetitions_base_delay),
            ]
            &&& k == m.repetitions_max + 1 ==> next.phase == Phase::Main && acts == seq![
                SMAction::SendOffer,
                SMAction::SetTimer(2, m.cyclic_announce_delay),
            ]
        }),
{
    let r = sm_step(m, SMEvent::Timeout(0), 0).0;
    lemma_repetitions(r, (k - 1) as nat);
    let before = after_timeouts(r, 1, (k - 1) as nat);
    assert(before.phase == Phase::Repetition((k - 1) as u32));
    assert(((k - 1) as u32) + 1 == k);
}

/// The machine after a run of events, each handled in turn with the initial
/// delay of the same index.
pub open spec fn after_events(m: SMModel, es: Seq<SMEvent>, ds: Seq<u64>) -> SMModel
    decreases es.len(),
{
    if es.len() == 0 {
        m
    } else {
        sm_step(after_events(m, es.drop_last(), ds.drop_last()), es.last(), ds.last()).0
    }
}

/// Whether no event of the run faults the machine.
pub open spec fn runs_clean(m: SMModel, es: Seq<SMEvent>, ds: Seq<u64>) -> bool
    decreases es.len(),
{
    es.len() == 0 || (runs_clean(m, es.drop_last(), ds.drop_last()) && !sm_faults(
        after_events(m, es.drop_last(), ds.drop_last()),
        es.last(),
    ))
}

/// The value of the last interface event of a run; `false` if there is none.
pub open spec fn last_interface_status(es: Seq<SMEvent>) -> bool
    decreases es.len(),
{
    if es.len() == 0 {
        false
    } else {
        match es.last() {
            SMEvent::IfStatusChanged(b) => b,
            _ => last_interface_status(es.drop_last()),
        }
    }
}

/// The value of the last service event of a run; `false` if there is none.
pub open spec fn last_service_status(es: Seq<SMEvent>) -> bool
    decreases es.len(),
{
    if es.len() == 0 {
        false
    } else {
        match es.last() {
            SMEvent::ServiceConfiguration(b) => b,
            _ => last_service_status(es.drop_last()),
        }
    }
}

/// What a new machine is after any run of events that does not fault it,
/// whatever the delays: its interface and service statuses are those of the
/// last events of their kinds (down when there was none), its timings are
/// those it was made with, and it is offering (in the initial wait, the
/// repetition or the main phase) only when both statuses are up.
pub proof fn law_sm_reachable(
    initial_delay_min: u64,
    initial_delay_max: u64,
    repetitions_max: u32,
    repetitions_base_delay: u64,
    cyclic_announce_delay: u64,
    es: Seq<SMEvent>,
    ds: Seq<u64>,
)
    requires
        ds.len() == es.len(),
        runs_clean(
            SMModel {
                phase: Phase::NotReady,
                interface_status: false,
                service_status: false,
                initial_delay_min,
                initial_delay_max,
                repetitions_max,
                repetitions_base_delay,
                cyclic_announce_delay,
            },
            es,
            ds,
        ),
    ensures
        ({
            let m0 = SMModel {
                phase: Phase::NotReady,
                interface_status: false,
                service_status: false,
                initial_delay_min,
                initial_delay_max,
                repetitions_max,
                repetitions_base_delay,
                cyclic_announce_delay,
            };
            let m = after_events(m0, es, ds);
            &&& m.interface_status == last_interface_status(es)
            &&& m.service_status == last_service_status(es)
            &&& m.initial_delay_min == initial_delay_min && m.initial_delay_max == initial_delay_max
            &&& m.repetitions_max == repetitions_max && m.repetitions_base_delay == repetitions_base_delay
            &&& m.cyclic_announce_delay == cyclic_announce_delay
            &&& m.phase != Phase::NotReady ==> m.interface_status && m.service_status
            &&& sm_invariant(m)
        }),
    decreases es.len(),
{
    if es.len() > 0 {
        law_sm_reachable(
            initial_delay_min,
            initial_delay_max,
            repetitions_max,
            repetitions_base_delay,
            cyclic_announce_delay,
            es.drop_last(),
            ds.drop_last(),
        );
        let m0 = SMModel {
            phase: Phase::NotReady,
            interface_status: false,
            service_status: false,
            initial_delay_min,
            initial_delay_max,
            repetitions_max,
            repetitions_base_delay,
            cyclic_announce_delay,
        };
        let p = after_events(m0, es.drop_last(), ds.drop_last());
        law_sm_invariant(p, es.last(), ds.last());
    }
}

/// In the main phase every timeout of the cyclic timer (timer 2) sends an
/// offer and starts the cyclic timer again with the cyclic delay; the machine
/// stays as it is, whatever the delay given.
pub proof fn law_sm_main_cyclic_offer(m: SMModel, delay: u64)
    requires
        m.phase == Phase::Main,
    ensures
        !sm_faults(m, SMEvent::Timeout(2)),
        sm_step(m, SMEvent::Timeout(2), delay) == (m, seq![
            SMAction::SendOffer,
            SMAction::SetTimer(2, m.cyclic_announce_delay),
        ]),
{
}

/// A find is answered with an offer in both offering phases: the timer of
/// the phase (1 in the repetition phase, 2 in the main phase) is stopped, an
/// offer is sent, and the timer starts again with the repetition base delay;
/// the machine stays as it is. Before offering (not ready, initial wait) a
/// find changes nothing and sends nothing.
pub proof fn law_sm_find_answered(m: SMModel, delay: u64)
    ensures
        !sm_faults(m, SMEvent::FindService),
        m.phase is Repetition ==> sm_step(m, SMEvent::FindService, delay) == (m, seq![
            SMAction::ClearTimer(1),
            SMAction::SendOffer,
            SMAction::SetTimer(1, m.repetitions_base_delay),
        ]),
        m.phase == Phase::Main ==> sm_step(m, SMEvent::FindService, delay) == (m, seq![
            SMAction::ClearTimer(2),
            SMAction::SendOffer,
            SMAction::SetTimer(2, m.repetitions_base_delay),
        ]),
        (m.phase == Phase::NotReady || m.phase == Phase::InitialWait) ==> sm_step(m, SMEvent::FindService, delay)
            == (m, Seq::<SMAction>::empty()),
{
}

} // verus!
