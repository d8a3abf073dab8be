//! Adapters: the only place protocols (or time) exist.
//!
//! An adapter translates `Command`s outward and produces `Event`s inward. The
//! scheduler and the clock are *just adapters*. Adapters return the events they
//! produce rather than holding a bus reference, which keeps ownership simple and
//! dispatch deterministic.

use vstd::prelude::*;

use crate::adapters::clock::{clock_moved, ClockV};
use crate::ids::{ActionId, DeviceId};
use crate::model::{event_views, CapabilityState, Command, CommandV, Event, EventV, Millis};
use crate::table::{Key, Table};

pub mod clock;
pub mod interfaces;
pub mod matter;
pub mod matter_bridge;
pub mod matter_device;
pub mod mock;
pub mod mock_northbound;
pub mod plugin;
pub mod rest_api;
pub mod scheduler;
pub mod virtual_device;
pub mod zigbee2mqtt;
pub mod zwavejs;

pub use clock::ClockAdapter;
pub use mock::MockDeviceAdapter;
pub use mock_northbound::MockNorthbound;
pub use scheduler::SchedulerAdapter;
pub use virtual_device::VirtualDeviceAdapter;

verus! {

/// The level that a percentage stands for: `0..=100` onto `0..=254`, to nearest.
pub open spec fn level_of(pct: int) -> int {
    (if pct < 100 { pct } else { 100 } * 254 + 50) / 100
}

/// The percentage that a level stands for: `0..=254` onto `0..=100`, to nearest.
pub open spec fn pct_of(raw: int) -> int {
    (if raw < 254 { raw } else { 254 } * 100 + 127) / 254
}

/// Scale a percentage to the `0..=254` level that both zigbee2mqtt brightness and
/// Matter LevelControl use. Rounds to nearest and clamps the input to 100.
pub fn pct_to_level(pct: u8) -> (r: u64)
    ensures
        r == level_of(pct as int),
        r <= 254,
{
    let p: u64 = if pct < 100 { pct as u64 } else { 100 };
    (p * 254 + 50) / 100
}

/// Inverse of [`pct_to_level`]: a `0..=254` level back to a percentage.
pub fn level_to_pct(raw: u64) -> (r: u8)
    ensures
        r == pct_of(raw as int),
        r <= 100,
{
    let p: u64 = if raw < 254 { raw } else { 254 };
    ((p * 100 + 127) / 254) as u8
}

/// A percentage survives the way to a level and back.
pub proof fn percentage_survives_level(pct: int)
    requires
        0 <= pct <= 100,
    ensures
        pct_of(level_of(pct)) == pct,
        0 <= level_of(pct) <= 254,
{
}

/// The result of attempting to dispatch one command. Splitting failure into
/// transient and permanent lets the engine retry a network blip but give up
/// immediately on a misconfiguration.
#[derive(Debug, PartialEq)]
pub enum DispatchOutcome {
    /// Applied; here are any events produced synchronously (a state echo).
    Done(Vec<Event>),
    /// Failed, but retrying may help (radio busy, momentary network loss).
    Transient(String),
    /// Failed in a way retrying cannot fix (unsupported command, no route).
    Permanent(String),
}

/// [`DispatchOutcome`] with its events and text as mathematical values.
pub enum OutcomeV {
    Done(Seq<EventV>),
    Transient(Seq<char>),
    Permanent(Seq<char>),
}

impl View for DispatchOutcome {
    type V = OutcomeV;

    open spec fn view(&self) -> OutcomeV {
        match *self {
            DispatchOutcome::Done(evs) => OutcomeV::Done(event_views(evs@)),
            DispatchOutcome::Transient(reason) => OutcomeV::Transient(reason@),
            DispatchOutcome::Permanent(reason) => OutcomeV::Permanent(reason@),
        }
    }
}

impl DispatchOutcome {
    /// Convenience for "succeeded, produced no events".
    pub fn ok() -> (r: Self)
        ensures
            r@ == OutcomeV::Done(Seq::empty()),
    {
        let evs: Vec<Event> = Vec::new();
        assert(event_views(evs@) =~= Seq::empty());
        DispatchOutcome::Done(evs)
    }

    /// Succeeded, and one event came of it.
    pub fn echo(event: Event) -> (r: Self)
        ensures
            r@ == OutcomeV::Done(seq![event@]),
    {
        let mut evs: Vec<Event> = Vec::new();
        evs.push(event);
        assert(event_views(evs@) =~= seq![event@]);
        DispatchOutcome::Done(evs)
    }

    /// Failed for good, for this reason.
    pub fn permanent(reason: &str) -> (r: Self)
        ensures
            r@ == OutcomeV::Permanent(reason@),
    {
        DispatchOutcome::Permanent(reason.to_owned())
    }
}

/// Whether an event is the elapse of a timer. Those are the scheduler's alone.
pub open spec fn is_timer_event(e: EventV) -> bool {
    e is TimerElapsed
}

/// What a dispatch may answer: anything, but for timer events.
pub open spec fn is_reply(out: OutcomeV) -> bool {
    match out {
        OutcomeV::Done(evs) => forall|i: int| 0 <= i < evs.len() ==> !is_timer_event(#[trigger] evs[i]),
        _ => true,
    }
}

/// One call on an adapter, with its answer.
pub enum Call {
    Dispatch { command: CommandV, now: Millis, outcome: OutcomeV },
    Tick { now: Millis, events: Seq<EventV> },
    Fold { device: DeviceId, state: CapabilityState },
}

/// A log with one more entry. Who keeps no log still keeps none.
pub open spec fn noted<A>(log: Option<Seq<A>>, entry: A) -> Option<Seq<A>> {
    match log {
        Some(entries) => Some(entries.push(entry)),
        None => None,
    }
}

/// A log with more entries.
pub open spec fn noted_all<A>(log: Option<Seq<A>>, more: Seq<A>) -> Option<Seq<A>> {
    match log {
        Some(entries) => Some(entries + more),
        None => None,
    }
}

/// A device adapter. The specification functions let an implementation say what can be
/// known of it from outside. Each has a default that says nothing, but for `wakes`: its
/// default is one fixed value that nobody knows, and an implementation that does not give
/// its own owes that value in `next_wake`. Nothing can be proved from it.
pub trait Adapter {
    /// Every dispatch and tick so far, with its answer, where the adapter keeps count.
    open spec fn heard(&self) -> Option<Seq<Call>> {
        None
    }

    /// Which answers it gives, whatever came before.
    open spec fn manner(&self) -> spec_fn(Call) -> bool {
        |call: Call| true
    }

    /// When it next needs a tick, in ms from `now`.
    open spec fn wakes(&self, now: Millis) -> Option<Millis> {
        arbitrary()
    }

    /// The clock that it is, if it is one. A clock ticks as [`ClockAdapter`] does.
    open spec fn clock(&self) -> Option<ClockV> {
        None
    }

    /// Translate a command into protocol action. The elapse of a timer is the
    /// scheduler's to report, on `tick`: no dispatch answers with one.
    fn dispatch(&mut self, cmd: &Command, now: Millis) -> (out: DispatchOutcome)
        ensures
            is_reply(out@),
            final(self).heard() == noted(
                old(self).heard(),
                Call::Dispatch { command: cmd@, now, outcome: out@ },
            ),
            final(self).manner() == old(self).manner(),
            old(self).manner()(Call::Dispatch { command: cmd@, now, outcome: out@ }),
            final(self).clock() == old(self).clock(),
    ;

    /// Called when virtual time advances (and once at boot). The scheduler fires
    /// due timers here; the clock publishes the current time and sun state.
    fn tick(&mut self, now: Millis) -> (out: Vec<Event>)
        ensures
            final(self).heard() == noted(
                old(self).heard(),
                Call::Tick { now, events: event_views(out@) },
            ),
            final(self).manner() == old(self).manner(),
            old(self).manner()(Call::Tick { now, events: event_views(out@) }),
            clock_moved(old(self).clock(), now, final(self).clock(), event_views(out@)),
    ;

    /// When, in ms from `now`, this adapter will next need a `tick` for reasons of
    /// its own: the scheduler's soonest timer, the clock's next minute. `None`
    /// means that only external I/O will produce events from it.
    fn next_wake(&self, now: Millis) -> (out: Option<Millis>)
        ensures
            out == self.wakes(now),
    ;
}

/// An adapter whose consumer is upstream: it mirrors engine state outward
/// (`state_folded`) and turns consumer input into inbound events (`tick`). It binds
/// no devices, so it is never a dispatch target.
pub trait NorthboundAdapter {
    /// Every tick and fold so far, where the adapter keeps count.
    open spec fn heard(&self) -> Option<Seq<Call>> {
        None
    }

    /// When it next needs a tick, in ms from `now`. The default is one fixed value that
    /// nobody knows.
    open spec fn wakes(&self, now: Millis) -> Option<Millis> {
        arbitrary()
    }

    /// What [`Adapter::tick`] is to a device adapter.
    fn tick(&mut self, now: Millis) -> (out: Vec<Event>)
        ensures
            final(self).heard() == noted(
                old(self).heard(),
                Call::Tick { now, events: event_views(out@) },
            ),
    ;

    /// What [`Adapter::next_wake`] is to a device adapter.
    fn next_wake(&self, now: Millis) -> (out: Option<Millis>)
        ensures
            out == self.wakes(now),
    ;

    /// Device feedback was folded into the state store.
    fn state_folded(&mut self, device: DeviceId, state: &CapabilityState)
        ensures
            final(self).heard() == noted(old(self).heard(), Call::Fold { device, state: *state }),
    ;
}

/// One raw event string of one device.
#[derive(Debug)]
pub struct ActionKey {
    pub device: DeviceId,
    pub raw: String,
}

impl View for ActionKey {
    type V = (DeviceId, Seq<char>);

    open spec fn view(&self) -> (DeviceId, Seq<char>) {
        (self.device, self.raw@)
    }
}

impl Key for ActionKey {
    fn same(&self, other: &Self) -> (b: bool) {
        self.device == other.device && self.raw == other.raw
    }

    fn dup(&self) -> (r: Self) {
        ActionKey { device: self.device, raw: self.raw.clone() }
    }
}

/// The declared events of an adapter's devices: the identity of each raw string.
pub type Actions = Map<(DeviceId, Seq<char>), ActionId>;

/// The first `n` declared events. Of two with the same device and raw string the
/// later counts.
pub open spec fn declared_actions(events: Seq<(DeviceId, String, ActionId)>, n: nat) -> Actions
    decreases n,
{
    if n == 0 {
        Map::empty()
    } else {
        declared_actions(events, (n - 1) as nat).insert(
            (events[n - 1].0, events[n - 1].1@),
            events[n - 1].2,
        )
    }
}

pub(crate) fn index_actions(events: Vec<(DeviceId, String, ActionId)>) -> (r: Table<
    ActionKey,
    ActionId,
>)
    ensures
        r@ == declared_actions(events@, events@.len()),
{
    let mut index: Table<ActionKey, ActionId> = Table::new();
    let mut i: usize = 0;
    while i < events.len()
        invariant
            i <= events@.len(),
            index@ == declared_actions(events@, i as nat),
        decreases events@.len() - i,
    {
        let e = &events[i];
        index.insert(ActionKey { device: e.0, raw: e.1.clone() }, e.2);
        i += 1;
    }
    index
}

/// The event that a raw string of a device stands for, if it is declared.
pub open spec fn action_event(actions: Actions, device: DeviceId, raw: Seq<char>) -> Seq<EventV> {
    if actions.contains_key((device, raw)) {
        seq![EventV::Action { device, action: actions[(device, raw)] }]
    } else {
        Seq::empty()
    }
}

/// The report of one capability's state.
pub open spec fn state_event(device: DeviceId, state: CapabilityState) -> Seq<EventV> {
    seq![EventV::StateReported { device, state }]
}

/// Report a capability's state.
pub(crate) fn push_state(events: &mut Vec<Event>, device: DeviceId, state: CapabilityState)
    ensures
        event_views(final(events)@) == event_views(old(events)@).push(
            EventV::StateReported { device, state },
        ),
{
    let ghost was = events@;
    events.push(Event::StateReported { device, state });
    assert(event_views(events@) =~= event_views(was).push(EventV::StateReported { device, state }));
}

/// Report an event, if it is declared.
pub(crate) fn push_action(
    events: &mut Vec<Event>,
    actions: &Table<ActionKey, ActionId>,
    device: DeviceId,
    raw: &String,
)
    ensures
        event_views(final(events)@) == event_views(old(events)@) + action_event(
            actions@,
            device,
            raw@,
        ),
{
    let ghost was = events@;
    match actions.get(&ActionKey { device, raw: raw.clone() }) {
        Some(id) => {
            events.push(Event::Action { device, action: *id });
            assert(event_views(events@) =~= event_views(was) + action_event(
                actions@,
                device,
                raw@,
            ));
        },
        None => {
            assert(event_views(was) + Seq::<EventV>::empty() =~= event_views(was));
        },
    }
}

/// What passes between an adapter and its transport: something sent, with the error it
/// met if any, or what a poll brought in.
pub enum Traffic<M, R> {
    Sent { message: M, error: Option<Seq<char>> },
    Polled { items: Seq<R> },
}

/// The error of a send, if it met one.
pub open spec fn error_of(answer: Result<(), String>) -> Option<Seq<char>> {
    match answer {
        Ok(_) => None,
        Err(e) => Some(e@),
    }
}

/// What a send comes to: done, or worth another try.
pub open spec fn send_reply(error: Option<Seq<char>>) -> OutcomeV {
    match error {
        None => OutcomeV::Done(Seq::empty()),
        Some(e) => OutcomeV::Transient(e),
    }
}

/// What a transport's answer means: sent, or worth another try.
pub fn sent(answer: Result<(), String>) -> (r: DispatchOutcome)
    ensures
        r@ == send_reply(error_of(answer)),
{
    match answer {
        Ok(_) => DispatchOutcome::ok(),
        Err(e) => DispatchOutcome::Transient(e),
    }
}

/// Something boxed, held so that it keeps its identity where its type is known by a
/// trait alone.
pub(crate) struct Held<T: ?Sized> {
    pub(crate) inner: Box<T>,
}

} // verus!
