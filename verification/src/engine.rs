//! The runtime: a single-threaded, ordered event loop.
//!
//! ```text
//! inject event -> queue (depth 0)
//!   while queue non-empty:
//!     pop (event, depth)
//!     if depth > max_cascade_depth -> drop + notify observers, continue  (backstop)
//!     if it is an internal retry timer -> re-dispatch that command, continue
//!     fold device/state feedback into the state store
//!     for each rule: trigger matches && condition is true -> commands
//!     dispatch commands (device adapters, scheduler, or scene expansion)
//!       done      -> produced events re-enter at depth+1
//!       transient -> schedule a retry (a future timer), or give up if exhausted
//!       permanent -> give up immediately
//!       give up   -> notify observers and emit a CommandFailed event (depth+1)
//! ```
//!
//! **Causal depth** is how the loop fails safe against feedback cascades: each
//! event carries the number of dispatch hops that produced it. Externally injected
//! events and timer fires are depth 0; anything a command produces is one deeper.
//! A genuine loop is bounded instead of hanging the single-threaded loop.
//!
//! What the loop does is stated in [`crate::causality`]; the contracts here say
//! that the engine does exactly that.

use std::collections::VecDeque;
use std::mem::swap;
use vstd::prelude::*;

use crate::adapters::clock::{clock_moved, ClockV};
use crate::adapters::scheduler::{
    elapsed, is_due_list, is_soonest, soonest_timer, timers_after,
};
use crate::adapters::{
    is_reply, noted, noted_all, Adapter, Call, DispatchOutcome, Held, NorthboundAdapter,
    SchedulerAdapter,
};
use crate::causality::{
    adapter_added, adapters_in_step, after_tick, announced, armed, armed_all, as_report, at_depth,
    attended, backoff_after, bare, between, calls_for, calls_in, calls_on, can_answer, can_tick,
    chained, clamped, clock_of_place, clocks_in_step, considered, core_ok, covers,
    dispatch_all_frame, dispatch_frame, dispatched, dispatched_all, ends_in, enqueued, expands,
    explicit, fanned, find_rule, folded, folds, fresh, gave_up, grown, handed_over, in_step,
    is_announced, lemma_filter_one_each, lemma_more_levels, lemma_rule_of_timer, lemma_timer_of,
    lemma_without, member_ends_in, northbound_in_step, observers_in_step, one_timer_each,
    other_than, power_of_two, queue_ok, ran, ran_dry, requested_command, retries_ok, retry_set,
    reverted, reverted_keys, route, rule_of_timer, ruled, scenes_end, settled_answer, stepped,
    still_holds, synced, ticked, told, told_all, waited_out, wiring_ok, without, Core, Logs, Mirror,
    Notice, Party, Place, Verdict, Wiring,
};
use crate::ids::{AdapterIdx, DeviceId, RuleId, SceneId};
use crate::model::{
    clone_commands, command_views, event_views, CapabilityKind, CapabilityState, Command, CommandV,
    Desired, Event, EventV, Millis, TimerKey,
};
use crate::nesting::{all_end, scene_ends, scene_lists};
use crate::observe::Observer;
use crate::rule::{Rule, Truth};
use crate::state::{known_bool, lists_known, StateStore};
use crate::table::{lemma_filter_all, Key, Table};
use crate::text::{cat2, decimal_text, starts_with};

verus! {

const DEFAULT_MAX_CASCADE_DEPTH: u32 = 32;

/// How transient failures are retried. Backoff is exponential in the base delay.
#[derive(Clone, Copy, Debug)]
pub struct RetryPolicy {
    /// Total dispatch attempts before giving up (including the first).
    pub max_attempts: u32,
    /// Delay before the 2nd attempt; doubles each subsequent attempt.
    pub base_backoff: Millis,
}

impl Default for RetryPolicy {
    fn default() -> (r: Self)
        ensures
            r.max_attempts == 3,
            r.base_backoff == 1000,
    {
        RetryPolicy { max_attempts: 3, base_backoff: 1000 }
    }
}

impl RetryPolicy {
    /// Backoff after the given attempt (counted from 1) has failed.
    pub fn backoff(&self, failed_attempt: u32) -> (r: Millis)
        ensures
            r == backoff_after(*self, failed_attempt),
    {
        let doublings: u32 = if failed_attempt > 16 {
            15
        } else if failed_attempt == 0 {
            0
        } else {
            failed_attempt - 1
        };
        let mut factor: u64 = 1;
        let mut i: u32 = 0;
        proof {
            lemma_power_of_two_bound(doublings as nat);
        }
        while i < doublings
            invariant
                i <= doublings <= 15,
                factor == power_of_two(i as nat),
                factor <= 32768,
                i == 0 ==> factor == 1,
                factor * power_of_two((doublings - i) as nat) == power_of_two(doublings as nat),
                power_of_two(doublings as nat) <= 32768,
            decreases doublings - i,
        {
            proof {
                lemma_power_of_two_grows((doublings - i - 1) as nat);
                let p = power_of_two((doublings - i - 1) as nat);
                assert(power_of_two((doublings - i) as nat) == 2 * p);
                assert(factor * (2 * p) == (2 * factor) * p) by (nonlinear_arith);
                assert(2 * factor <= (2 * factor) * p) by (nonlinear_arith)
                    requires
                        p >= 1,
                ;
            }
            factor = factor * 2;
            i += 1;
        }
        match self.base_backoff.checked_mul(factor) {
            Some(d) => d,
            None => u64::MAX,
        }
    }
}

proof fn lemma_power_of_two_bound(n: nat)
    requires
        n <= 15,
    ensures
        power_of_two(n) <= 32768,
{
    reveal_with_fuel(power_of_two, 17);
}

proof fn lemma_power_of_two_grows(n: nat)
    ensures
        power_of_two(n) >= 1,
    decreases n,
{
    if n > 0 {
        lemma_power_of_two_grows((n - 1) as nat);
    }
}

struct PendingRetry {
    command: Command,
    attempt: u32,
}

/// A rule waiting out its `for` duration, with the timer that ends the wait.
struct PendingFor {
    rule: RuleId,
    key: TimerKey,
}

/// One observer notification.
enum Signal<'a> {
    DispatchFailed { command: &'a Command, reason: &'a str, transient: bool, attempt: u32 },
    RetryScheduled { command: &'a Command, next_attempt: u32, delay: Millis },
    CommandFailed { command: &'a Command, reason: &'a str, attempts: u32 },
    CascadeDropped { event: &'a Event, depth: u32 },
    EventReceived { event: &'a Event, depth: u32 },
    StateFolded { device: DeviceId, state: &'a CapabilityState },
    RuleConsidered { rule: RuleId, truth: Truth, fired: bool },
    CommandDispatched { command: &'a Command, depth: u32 },
    SceneExpanded { scene: SceneId, count: usize },
}

impl<'a> Signal<'a> {
    spec fn notice(self) -> Notice {
        match self {
            Signal::DispatchFailed { command, reason, transient, attempt } => {
                Notice::DispatchFailed { command: command@, reason: reason@, transient, attempt }
            },
            Signal::RetryScheduled { command, next_attempt, delay } => Notice::RetryScheduled {
                command: command@,
                next_attempt,
                delay,
            },
            Signal::CommandFailed { command, reason, attempts } => Notice::CommandFailed {
                command: command@,
                reason: reason@,
                attempts,
            },
            Signal::CascadeDropped { event, depth } => Notice::CascadeDropped {
                event: event@,
                depth,
            },
            Signal::EventReceived { event, depth } => Notice::EventReceived {
                event: event@,
                depth,
            },
            Signal::StateFolded { device, state } => Notice::StateFolded { device, state: *state },
            Signal::RuleConsidered { rule, truth, fired } => Notice::RuleConsidered {
                rule,
                truth,
                fired,
            },
            Signal::CommandDispatched { command, depth } => Notice::CommandDispatched {
                command: command@,
                depth,
            },
            Signal::SceneExpanded { scene, count } => Notice::SceneExpanded {
                scene,
                count: count as nat,
            },
        }
    }
}

fn push_one<T>(v: &mut Vec<T>, x: T)
    ensures
        final(v)@.len() == old(v)@.len() + 1,
        forall|i: int| 0 <= i < old(v)@.len() ==> #[trigger] final(v)@[i] == old(v)@[i],
        final(v)@[old(v)@.len() as int] == x,
{
    v.push(x);
}

// ------------------------------------------------------------ the outside

pub(crate) fn hold_adapter<T: Adapter + ?Sized>(inner: Box<T>) -> (r: Held<T>)
    ensures
        r.inner == inner,
        r.inner.heard() == inner.heard(),
        r.inner.manner() == inner.manner(),
        r.inner.clock() == inner.clock(),
        forall|now: Millis| #[trigger] r.inner.wakes(now) == inner.wakes(now),
{
    Held { inner }
}

pub(crate) fn hold_northbound<T: NorthboundAdapter + ?Sized>(inner: Box<T>) -> (r: Held<T>)
    ensures
        r.inner == inner,
        r.inner.heard() == inner.heard(),
        forall|now: Millis| #[trigger] r.inner.wakes(now) == inner.wakes(now),
{
    Held { inner }
}

fn hold_observer<T: Observer + ?Sized>(inner: Box<T>) -> (r: Held<T>)
    ensures
        r.inner == inner,
        r.inner.heard() == inner.heard(),
{
    Held { inner }
}

spec fn adapter_logs(v: Seq<Held<dyn Adapter>>) -> Seq<Option<Seq<Call>>> {
    Seq::new(v.len(), |i: int| v[i].inner.heard())
}

spec fn manners(v: Seq<Held<dyn Adapter>>) -> Seq<spec_fn(Call) -> bool> {
    Seq::new(v.len(), |i: int| v[i].inner.manner())
}

spec fn adapter_clocks(v: Seq<Held<dyn Adapter>>) -> Seq<Option<ClockV>> {
    Seq::new(v.len(), |i: int| v[i].inner.clock())
}

spec fn adapter_wakes(v: Seq<Held<dyn Adapter>>, now: Millis) -> Seq<Option<Millis>> {
    Seq::new(v.len(), |i: int| v[i].inner.wakes(now))
}

spec fn northbound_logs(v: Seq<Held<dyn NorthboundAdapter>>) -> Seq<Option<Seq<Call>>> {
    Seq::new(v.len(), |i: int| v[i].inner.heard())
}

spec fn northbound_wakes(v: Seq<Held<dyn NorthboundAdapter>>, now: Millis) -> Seq<Option<Millis>> {
    Seq::new(v.len(), |i: int| v[i].inner.wakes(now))
}

spec fn observer_logs(v: Seq<Held<dyn Observer>>) -> Seq<Option<Seq<Notice>>> {
    Seq::new(v.len(), |i: int| v[i].inner.heard())
}

/// Hand a command to one adapter and hear its answer.
fn ask_one(adapters: &mut Vec<Held<dyn Adapter>>, i: usize, cmd: &Command, now: Millis) -> (out:
    DispatchOutcome)
    requires
        i < old(adapters)@.len(),
    ensures
        is_reply(out@),
        manners(old(adapters)@)[i as int](
            Call::Dispatch { command: cmd@, now, outcome: out@ },
        ),
        manners(final(adapters)@) == manners(old(adapters)@),
        adapter_clocks(final(adapters)@) == adapter_clocks(old(adapters)@),
        adapter_logs(final(adapters)@) == adapter_logs(old(adapters)@).update(
            i as int,
            noted(
                adapter_logs(old(adapters)@)[i as int],
                Call::Dispatch { command: cmd@, now, outcome: out@ },
            ),
        ),
{
    let ghost was = adapters@;
    let out = adapters[i].inner.dispatch(cmd, now);
    proof {
        assert(manners(adapters@) =~= manners(was));
        assert(adapter_clocks(adapters@) =~= adapter_clocks(was));
        assert(adapter_logs(adapters@) =~= adapter_logs(was).update(
            i as int,
            noted(
                adapter_logs(was)[i as int],
                Call::Dispatch { command: cmd@, now, outcome: out@ },
            ),
        ));
    }
    out
}

/// Logs after each of their owners was ticked.
spec fn ticked_logs(
    logs: Seq<Option<Seq<Call>>>,
    now: Millis,
    parts: Seq<Seq<EventV>>,
) -> Seq<Option<Seq<Call>>> {
    Seq::new(
        logs.len(),
        |j: int|
            if j < parts.len() {
                noted(logs[j], Call::Tick { now, events: parts[j] })
            } else {
                logs[j]
            },
    )
}

/// Tick every adapter, in order, and gather what they produce.
fn tick_south(adapters: &mut Vec<Held<dyn Adapter>>, now: Millis, produced: &mut Vec<Event>) -> (r:
    Ghost<Seq<Seq<EventV>>>)
    ensures
        r@.len() == old(adapters)@.len(),
        manners(final(adapters)@) == manners(old(adapters)@),
        adapter_logs(final(adapters)@) == ticked_logs(adapter_logs(old(adapters)@), now, r@),
        forall|i: int|
            0 <= i < r@.len() ==> manners(old(adapters)@)[i](
                Call::Tick { now, events: #[trigger] r@[i] },
            ),
        forall|i: int|
            0 <= i < r@.len() ==> clock_moved(
                adapter_clocks(old(adapters)@)[i],
                now,
                #[trigger] adapter_clocks(final(adapters)@)[i],
                r@[i],
            ),
        event_views(final(produced)@) == event_views(old(produced)@) + chained(r@),
{
    let ghost was = adapters@;
    let ghost had = event_views(produced@);
    let ghost mut parts: Seq<Seq<EventV>> = Seq::empty();
    let n: usize = adapters.len();
    let mut i: usize = 0;
    assert(ticked_logs(adapter_logs(was), now, parts) =~= adapter_logs(was));
    assert(had + chained(parts) =~= had);
    while i < n
        invariant
            i <= n == adapters@.len() == was.len(),
            parts.len() == i,
            manners(adapters@) == manners(was),
            adapter_logs(adapters@) == ticked_logs(adapter_logs(was), now, parts),
            forall|j: int|
                0 <= j < i ==> manners(was)[j](Call::Tick { now, events: #[trigger] parts[j] }),
            forall|j: int|
                0 <= j < i ==> clock_moved(
                    adapter_clocks(was)[j],
                    now,
                    #[trigger] adapter_clocks(adapters@)[j],
                    parts[j],
                ),
            forall|j: int|
                i <= j < n ==> #[trigger] adapter_clocks(adapters@)[j] == adapter_clocks(was)[j],
            event_views(produced@) == had + chained(parts),
        decreases n - i,
    {
        let ghost before = adapters@;
        let ghost so_far = produced@;
        assert(manners(before)[i as int] == manners(was)[i as int]);
        assert(adapter_clocks(before)[i as int] == adapter_clocks(was)[i as int]);
        let mut more = adapters[i].inner.tick(now);
        let ghost added = event_views(more@);
        produced.append(&mut more);
        proof {
            let next = parts.push(added);
            assert(manners(adapters@) =~= manners(before));
            assert(adapter_logs(before)[i as int] == adapter_logs(was)[i as int]);
            assert forall|j: int| 0 <= j < n implies #[trigger] adapter_logs(adapters@)[j]
                == ticked_logs(adapter_logs(was), now, next)[j] by {
                if j != i {
                    assert(adapters@[j] == before[j]);
                    assert(adapter_logs(before)[j] == ticked_logs(
                        adapter_logs(was),
                        now,
                        parts,
                    )[j]);
                }
            }
            assert(adapter_logs(adapters@) =~= ticked_logs(adapter_logs(was), now, next));
            assert forall|j: int| 0 <= j < n && j != i implies #[trigger] adapter_clocks(
                adapters@,
            )[j] == adapter_clocks(before)[j] by {
                assert(adapters@[j] == before[j]);
            }
            assert(next.drop_last() =~= parts);
            assert(event_views(produced@) =~= event_views(so_far) + added);
            assert(had + chained(parts) + added =~= had + chained(next));
            parts = next;
        }
        i += 1;
    }
    Ghost(parts)
}

/// Tick every northbound adapter, in order, and gather what they produce.
fn tick_north(
    northbound: &mut Vec<Held<dyn NorthboundAdapter>>,
    now: Millis,
    produced: &mut Vec<Event>,
) -> (r: Ghost<Seq<Seq<EventV>>>)
    ensures
        r@.len() == old(northbound)@.len(),
        northbound_logs(final(northbound)@) == ticked_logs(
            northbound_logs(old(northbound)@),
            now,
            r@,
        ),
        event_views(final(produced)@) == event_views(old(produced)@) + chained(r@),
{
    let ghost was = northbound@;
    let ghost had = event_views(produced@);
    let ghost mut parts: Seq<Seq<EventV>> = Seq::empty();
    let n: usize = northbound.len();
    let mut i: usize = 0;
    assert(ticked_logs(northbound_logs(was), now, parts) =~= northbound_logs(was));
    assert(had + chained(parts) =~= had);
    while i < n
        invariant
            i <= n == northbound@.len() == was.len(),
            parts.len() == i,
            northbound_logs(northbound@) == ticked_logs(northbound_logs(was), now, parts),
            event_views(produced@) == had + chained(parts),
        decreases n - i,
    {
        let ghost before = northbound@;
        let ghost so_far = produced@;
        let mut more = northbound[i].inner.tick(now);
        let ghost added = event_views(more@);
        produced.append(&mut more);
        proof {
            let next = parts.push(added);
            assert(northbound_logs(before)[i as int] == northbound_logs(was)[i as int]);
            assert forall|j: int| 0 <= j < n implies #[trigger] northbound_logs(northbound@)[j]
                == ticked_logs(northbound_logs(was), now, next)[j] by {
                if j != i {
                    assert(northbound@[j] == before[j]);
                    assert(northbound_logs(before)[j] == ticked_logs(
                        northbound_logs(was),
                        now,
                        parts,
                    )[j]);
                }
            }
            assert(northbound_logs(northbound@) =~= ticked_logs(northbound_logs(was), now, next));
            assert(next.drop_last() =~= parts);
            assert(event_views(produced@) =~= event_views(so_far) + added);
            assert(had + chained(parts) + added =~= had + chained(next));
            parts = next;
        }
        i += 1;
    }
    Ghost(parts)
}

/// Mirror one state into every northbound adapter, in order.
fn mirror(
    northbound: &mut Vec<Held<dyn NorthboundAdapter>>,
    device: DeviceId,
    state: &CapabilityState,
)
    ensures
        final(northbound)@.len() == old(northbound)@.len(),
        northbound_logs(final(northbound)@) == northbound_logs(old(northbound)@).map_values(
            |log: Option<Seq<Call>>| noted(log, Call::Fold { device, state: *state }),
        ),
{
    let ghost was = northbound@;
    let ghost call = Call::Fold { device, state: *state };
    let n: usize = northbound.len();
    let mut i: usize = 0;
    while i < n
        invariant
            i <= n == northbound@.len() == was.len(),
            call == (Call::Fold { device, state: *state }),
            forall|j: int|
                0 <= j < n ==> #[trigger] northbound_logs(northbound@)[j] == if j < i {
                    noted(northbound_logs(was)[j], call)
                } else {
                    northbound_logs(was)[j]
                },
        decreases n - i,
    {
        let ghost before = northbound@;
        northbound[i].inner.state_folded(device, state);
        proof {
            assert(northbound_logs(before)[i as int] == northbound_logs(was)[i as int]);
            assert forall|j: int| 0 <= j < n implies #[trigger] northbound_logs(northbound@)[j]
                == if j < i + 1 {
                noted(northbound_logs(was)[j], call)
            } else {
                northbound_logs(was)[j]
            } by {
                if j != i {
                    assert(northbound@[j] == before[j]);
                    assert(northbound_logs(before)[j] == northbound_logs(northbound@)[j]);
                }
            }
        }
        i += 1;
    }
    assert(northbound_logs(northbound@) =~= northbound_logs(was).map_values(
        |log: Option<Seq<Call>>| noted(log, Call::Fold { device, state: *state }),
    ));
}

/// The registered observers.
struct Observers {
    /// In registration order.
    list: Vec<Held<dyn Observer>>,
    /// The order of all calls: which observer, and what it was told.
    calls: Ghost<Seq<(nat, Notice)>>,
}

impl Observers {
    /// Tell one of them.
    fn tell(&mut self, i: usize, signal: &Signal)
        requires
            i < old(self).list@.len(),
        ensures
            final(self).list@.len() == old(self).list@.len(),
            final(self).calls@ == old(self).calls@.push((i as nat, signal.notice())),
            observer_logs(final(self).list@) == observer_logs(old(self).list@).update(
                i as int,
                noted(observer_logs(old(self).list@)[i as int], signal.notice()),
            ),
    {
        let ghost was = self.list@;
        match signal {
            Signal::DispatchFailed { command, reason, transient, attempt } => {
                self.list[i].inner.dispatch_failed(command, reason, *transient, *attempt);
            },
            Signal::RetryScheduled { command, next_attempt, delay } => {
                self.list[i].inner.retry_scheduled(command, *next_attempt, *delay);
            },
            Signal::CommandFailed { command, reason, attempts } => {
                self.list[i].inner.command_failed(command, reason, *attempts);
            },
            Signal::CascadeDropped { event, depth } => {
                self.list[i].inner.cascade_dropped(event, *depth);
            },
            Signal::EventReceived { event, depth } => {
                self.list[i].inner.event_received(event, *depth);
            },
            Signal::StateFolded { device, state } => {
                self.list[i].inner.state_folded(*device, state);
            },
            Signal::RuleConsidered { rule, truth, fired } => {
                self.list[i].inner.rule_considered(*rule, *truth, *fired);
            },
            Signal::CommandDispatched { command, depth } => {
                self.list[i].inner.command_dispatched(command, *depth);
            },
            Signal::SceneExpanded { scene, count } => {
                self.list[i].inner.scene_expanded(*scene, *count);
            },
        }
        proof {
            self.calls@ = self.calls@.push((i as nat, signal.notice()));
            assert(observer_logs(self.list@) =~= observer_logs(was).update(
                i as int,
                noted(observer_logs(was)[i as int], signal.notice()),
            ));
        }
    }
}

/// Fan one notification out to every registered observer, in order.
fn notify(observers: &mut Observers, signal: &Signal)
    ensures
        final(observers).list@.len() == old(observers).list@.len(),
        final(observers).calls@ == old(observers).calls@ + fanned(
            signal.notice(),
            old(observers).list@.len(),
        ),
        observer_logs(final(observers).list@) == observer_logs(old(observers).list@).map_values(
            |log: Option<Seq<Notice>>| noted(log, signal.notice()),
        ),
{
    let ghost before = observers.calls@;
    let ghost was = observer_logs(observers.list@);
    let n: usize = observers.list.len();
    let mut i: usize = 0;
    assert(before + fanned(signal.notice(), 0) =~= before);
    while i < n
        invariant
            i <= n == observers.list@.len() == was.len(),
            observers.calls@ == before + fanned(signal.notice(), i as nat),
            forall|j: int|
                0 <= j < n ==> #[trigger] observer_logs(observers.list@)[j] == if j < i {
                    noted(was[j], signal.notice())
                } else {
                    was[j]
                },
        decreases n - i,
    {
        observers.tell(i, signal);
        assert(observers.calls@ =~= before + fanned(signal.notice(), (i + 1) as nat));
        i += 1;
    }
    assert(observer_logs(observers.list@) =~= was.map_values(
        |log: Option<Seq<Notice>>| noted(log, signal.notice()),
    ));
}

/// Everything outside the loop, and the trace of what passed between them: the device
/// adapters from index 1 on, the northbound adapters and the observers.
struct Outside {
    adapters: Vec<Held<dyn Adapter>>,
    /// Northbound adapters. Held separately from `adapters` because they are driven
    /// on both paths: `tick` and `next_wake` like an adapter *and* `state_folded`
    /// like an observer. They are never a dispatch target.
    northbound: Vec<Held<dyn NorthboundAdapter>>,
    observers: Observers,
    places: Ghost<Seq<Place>>,
    mirrors: Ghost<Seq<Mirror>>,
    joined: Ghost<Seq<nat>>,
    briefed: Ghost<Seq<Option<Seq<Notice>>>>,
    trace: Ghost<Seq<Notice>>,
}

/// What an outside is made of, but for its trace and logs.
struct Roster {
    places: Seq<Place>,
    mirrors: Seq<Mirror>,
    joined: Seq<nat>,
    briefed: Seq<Option<Seq<Notice>>>,
}

impl Outside {
    spec fn roster(&self) -> Roster {
        Roster {
            places: self.places@,
            mirrors: self.mirrors@,
            joined: self.joined@,
            briefed: self.briefed@,
        }
    }

    #[verifier::type_invariant]
    spec fn tied(&self) -> bool {
        &&& self.places@.len() == self.adapters@.len()
        &&& forall|i: int|
            0 <= i < self.places@.len() ==> (#[trigger] self.places@[i]).manner == manners(
                self.adapters@,
            )[i]
        &&& self.joined@.len() == self.observers.list@.len()
        &&& attended(self.observers.calls@, self.joined@, self.trace@)
        &&& adapters_in_step(self.places@, adapter_logs(self.adapters@), self.trace@)
        &&& clocks_in_step(self.places@, adapter_clocks(self.adapters@), self.trace@)
        &&& northbound_in_step(self.mirrors@, northbound_logs(self.northbound@), self.trace@)
        &&& observers_in_step(
            self.joined@,
            self.briefed@,
            observer_logs(self.observers.list@),
            self.trace@,
        )
    }

    fn new() -> (r: Self)
        ensures
            r.roster() == (Roster {
                places: Seq::empty(),
                mirrors: Seq::empty(),
                joined: Seq::empty(),
                briefed: Seq::empty(),
            }),
            r.trace@ == Seq::<Notice>::empty(),
            r.observers.calls@ == Seq::<(nat, Notice)>::empty(),
    {
        Outside {
            adapters: Vec::new(),
            northbound: Vec::new(),
            observers: Observers { list: Vec::new(), calls: Ghost(Seq::empty()) },
            places: Ghost(Seq::empty()),
            mirrors: Ghost(Seq::empty()),
            joined: Ghost(Seq::empty()),
            briefed: Ghost(Seq::empty()),
            trace: Ghost(Seq::empty()),
        }
    }

    /// One more adapter.
    fn with_adapter(self, held: Held<dyn Adapter>) -> (r: Self)
        ensures
            r.trace@ == self.trace@,
            r.observers.calls@ == self.observers.calls@,
            r.roster() == (Roster {
                places: self.places@.push(
                    Place {
                        joined: self.trace@.len(),
                        before: held.inner.heard(),
                        manner: held.inner.manner(),
                        clock: held.inner.clock(),
                    },
                ),
                ..self.roster()
            }),
            r.adapters@.len() == self.adapters@.len() + 1,
            r.adapters@[self.adapters@.len() as int] == held,
            forall|i: int|
                0 <= i < self.adapters@.len() ==> #[trigger] r.adapters@[i] == self.adapters@[i],
            r.northbound == self.northbound,
    {
        proof {
            use_type_invariant(&self);
        }
        let Outside {
            mut adapters,
            northbound,
            observers,
            places,
            mirrors,
            joined,
            briefed,
            trace,
        } = self;
        let ghost place = Place {
            joined: trace@.len(),
            before: held.inner.heard(),
            manner: held.inner.manner(),
            clock: held.inner.clock(),
        };
        let ghost was = adapters@;
        push_one(&mut adapters, held);
        proof {
            let last = was.len() as int;
            assert(adapters@[last].inner.heard() == place.before);
            assert(adapters@[last].inner.manner() == place.manner);
            assert(adapters@[last].inner.clock() == place.clock);
            assert(trace@.skip(trace@.len() as int) =~= Seq::empty());
            let grown_places = places@.push(place);
            assert forall|i: int| 0 <= i < grown_places.len() implies (
            #[trigger] grown_places[i]).manner == manners(adapters@)[i] by {
                if i < last {
                    assert(places@[i].manner == manners(was)[i]);
                    assert(adapters@[i] == was[i]);
                }
            }
            assert forall|i: int| 0 <= i < adapters@.len() implies #[trigger] adapter_logs(
                adapters@,
            )[i] == noted_all(
                grown_places[i].before,
                calls_on(
                    Party::Adapter((i + 1) as nat),
                    trace@.skip(grown_places[i].joined as int),
                ),
            ) by {
                if i < last {
                    assert(adapters@[i] == was[i]);
                    assert(adapter_logs(was)[i] == adapter_logs(adapters@)[i]);
                } else {
                    lemma_nothing_noted(place.before);
                }
            }
            assert forall|i: int| 0 <= i < adapters@.len() implies #[trigger] adapter_clocks(
                adapters@,
            )[i] == clock_of_place(grown_places, i, trace@) by {
                if i < last {
                    assert(adapters@[i] == was[i]);
                    assert(adapter_clocks(was)[i] == adapter_clocks(adapters@)[i]);
                    assert(places@[i] == grown_places[i]);
                }
            }
        }
        Outside {
            adapters,
            northbound,
            observers,
            places: Ghost(places@.push(place)),
            mirrors,
            joined,
            briefed,
            trace,
        }
    }

    /// One more northbound adapter.
    fn with_northbound(self, held: Held<dyn NorthboundAdapter>) -> (r: Self)
        ensures
            r.trace@ == self.trace@,
            r.observers.calls@ == self.observers.calls@,
            r.roster() == (Roster {
                mirrors: self.mirrors@.push(
                    Mirror { joined: self.trace@.len(), before: held.inner.heard() },
                ),
                ..self.roster()
            }),
            r.northbound@.len() == self.northbound@.len() + 1,
            r.northbound@[self.northbound@.len() as int] == held,
            forall|i: int|
                0 <= i < self.northbound@.len() ==> #[trigger] r.northbound@[i]
                    == self.northbound@[i],
            r.adapters == self.adapters,
    {
        proof {
            use_type_invariant(&self);
        }
        let Outside {
            adapters,
            mut northbound,
            observers,
            places,
            mirrors,
            joined,
            briefed,
            trace,
        } = self;
        let ghost seat = Mirror { joined: trace@.len(), before: held.inner.heard() };
        let ghost was = northbound@;
        push_one(&mut northbound, held);
        proof {
            let last = was.len() as int;
            assert(northbound@[last].inner.heard() == seat.before);
            assert(trace@.skip(trace@.len() as int) =~= Seq::empty());
            let more = mirrors@.push(seat);
            assert forall|i: int| 0 <= i < northbound@.len() implies #[trigger] northbound_logs(
                northbound@,
            )[i] == noted_all(
                more[i].before,
                calls_on(Party::Northbound(i as nat), trace@.skip(more[i].joined as int)),
            ) by {
                if i < last {
                    assert(northbound@[i] == was[i]);
                    assert(northbound_logs(was)[i] == northbound_logs(northbound@)[i]);
                } else {
                    lemma_nothing_noted(seat.before);
                }
            }
        }
        Outside {
            adapters,
            northbound,
            observers,
            places,
            mirrors: Ghost(mirrors@.push(seat)),
            joined,
            briefed,
            trace,
        }
    }

    /// One more observer.
    fn with_observer(self, held: Held<dyn Observer>) -> (r: Self)
        ensures
            r.trace@ == self.trace@,
            r.observers.calls@ == self.observers.calls@,
            r.roster() == (Roster {
                joined: self.joined@.push(self.trace@.len()),
                briefed: self.briefed@.push(held.inner.heard()),
                ..self.roster()
            }),
            r.adapters == self.adapters,
            r.northbound == self.northbound,
    {
        proof {
            use_type_invariant(&self);
            lemma_calls_before_joining(self.joined@, self.trace@, self.trace@.len());
        }
        let Outside {
            adapters,
            northbound,
            mut observers,
            places,
            mirrors,
            joined,
            briefed,
            trace,
        } = self;
        let ghost before = held.inner.heard();
        let ghost was = observers.list@;
        push_one(&mut observers.list, held);
        proof {
            let last = was.len() as int;
            assert(observers.list@[last].inner.heard() == before);
            assert(trace@.skip(trace@.len() as int) =~= Seq::empty());
            reveal(Seq::filter);
            let j = joined@.push(trace@.len());
            let b = briefed@.push(before);
            assert forall|i: int| 0 <= i < observers.list@.len() implies #[trigger] observer_logs(
                observers.list@,
            )[i] == noted_all(b[i], announced(trace@.skip(j[i] as int))) by {
                if i < last {
                    assert(observers.list@[i] == was[i]);
                    assert(observer_logs(was)[i] == observer_logs(observers.list@)[i]);
                } else {
                    lemma_nothing_noted(before);
                }
            }
        }
        Outside {
            adapters,
            northbound,
            observers,
            places,
            mirrors,
            joined: Ghost(joined@.push(trace@.len())),
            briefed: Ghost(briefed@.push(before)),
            trace,
        }
    }

    /// Everyone who is to hear of it is told: the observers, and of a folded state the
    /// northbound adapters too.
    fn told(self, signal: &Signal) -> (r: Self)
        ensures
            r.trace@ == self.trace@.push(signal.notice()),
            r.roster() == self.roster(),
            r.adapters@.len() == self.adapters@.len(),
            r.northbound@.len() == self.northbound@.len(),
    {
        proof {
            use_type_invariant(&self);
        }
        let Outside {
            adapters,
            mut northbound,
            mut observers,
            places,
            mirrors,
            joined,
            briefed,
            trace,
        } = self;
        let ghost n = signal.notice();
        let ghost mirrored = northbound_logs(northbound@);
        notify(&mut observers, signal);
        if let Signal::StateFolded { device, state } = signal {
            mirror(&mut northbound, *device, state);
        }
        proof {
            assert(trace@.push(n).drop_last() =~= trace@);
            lemma_filter_all(joined@, |j: nat| j <= trace@.len());
            lemma_adapters_unheard(places@, adapter_logs(adapters@), trace@, n);
            lemma_clocks_unmoved(places@, adapter_clocks(adapters@), trace@, n);
            assert forall|i: int| 0 <= i < mirrored.len() implies (#[trigger] northbound_logs(
                northbound@,
            )[i] == noted_all(mirrored[i], calls_in(n, Party::Northbound(i as nat)))
                || northbound_logs(northbound@)[i] == mirrored[i] && calls_in(
                n,
                Party::Northbound(i as nat),
            ).len() == 0) by {
                if let Notice::StateFolded { device, state } = n {
                    lemma_one_noted(mirrored[i], Call::Fold { device, state });
                }
            }
            lemma_northbound_noted(
                mirrors@,
                mirrored,
                northbound_logs(northbound@),
                trace@,
                n,
            );
            lemma_observers_noted(
                joined@,
                briefed@,
                observer_logs(self.observers.list@),
                observer_logs(observers.list@),
                trace@,
                n,
            );
        }
        Outside {
            adapters,
            northbound,
            observers,
            places,
            mirrors,
            joined,
            briefed,
            trace: Ghost(trace@.push(n)),
        }
    }

    /// An adapter is handed a command and answers.
    fn asked(self, idx: AdapterIdx, cmd: &Command, now: Millis) -> (r: (Self, DispatchOutcome))
        requires
            0 < idx <= self.adapters@.len(),
        ensures
            is_reply(r.1@),
            (self.places@[idx - 1].manner)(Call::Dispatch { command: cmd@, now, outcome: r.1@ }),
            r.0.trace@ == self.trace@.push(
                Notice::Answered { adapter: idx, command: cmd@, now, outcome: r.1@ },
            ),
            r.0.roster() == self.roster(),
            r.0.adapters@.len() == self.adapters@.len(),
            r.0.northbound@.len() == self.northbound@.len(),
    {
        proof {
            use_type_invariant(&self);
        }
        let Outside {
            mut adapters,
            northbound,
            observers,
            places,
            mirrors,
            joined,
            briefed,
            trace,
        } = self;
        let ghost before = adapter_logs(adapters@);
        let ghost gave = manners(adapters@);
        let out = ask_one(&mut adapters, idx - 1, cmd, now);
        let ghost n = Notice::Answered { adapter: idx, command: cmd@, now, outcome: out@ };
        proof {
            assert(places@[idx - 1].manner == gave[idx - 1]);
            assert(adapters@.len() == adapter_logs(adapters@).len());
            assert(trace@.push(n).drop_last() =~= trace@);
            assert forall|i: int| 0 <= i < before.len() implies #[trigger] adapter_logs(
                adapters@,
            )[i] == noted_all(before[i], calls_in(n, Party::Adapter((i + 1) as nat))) by {
                if i == idx - 1 {
                    lemma_one_noted(
                        before[i],
                        Call::Dispatch { command: cmd@, now, outcome: out@ },
                    );
                } else {
                    lemma_nothing_noted(before[i]);
                }
            }
            lemma_adapters_noted(places@, before, adapter_logs(adapters@), trace@, n);
            lemma_clocks_unmoved(places@, adapter_clocks(adapters@), trace@, n);
            lemma_northbound_noted(
                mirrors@,
                northbound_logs(northbound@),
                northbound_logs(northbound@),
                trace@,
                n,
            );
            lemma_observers_noted(
                joined@,
                briefed@,
                observer_logs(observers.list@),
                observer_logs(observers.list@),
                trace@,
                n,
            );
        }
        (
            Outside {
                adapters,
                northbound,
                observers,
                places,
                mirrors,
                joined,
                briefed,
                trace: Ghost(trace@.push(n)),
            },
            out,
        )
    }

    /// The scheduler, which is nobody's adapter, was handed a device command.
    fn scheduler_asked(self, Ghost(n): Ghost<Notice>) -> (r: Self)
        requires
            n matches Notice::Answered { adapter, .. } && adapter == 0,
        ensures
            r.trace@ == self.trace@.push(n),
            r.roster() == self.roster(),
            r.adapters@.len() == self.adapters@.len(),
            r.northbound@.len() == self.northbound@.len(),
    {
        proof {
            use_type_invariant(&self);
            assert(self.trace@.push(n).drop_last() =~= self.trace@);
            lemma_adapters_unheard(self.places@, adapter_logs(self.adapters@), self.trace@, n);
            lemma_clocks_unmoved(self.places@, adapter_clocks(self.adapters@), self.trace@, n);
            lemma_northbound_noted(
                self.mirrors@,
                northbound_logs(self.northbound@),
                northbound_logs(self.northbound@),
                self.trace@,
                n,
            );
            lemma_observers_noted(
                self.joined@,
                self.briefed@,
                observer_logs(self.observers.list@),
                observer_logs(self.observers.list@),
                self.trace@,
                n,
            );
        }
        let Outside {
            adapters,
            northbound,
            observers,
            places,
            mirrors,
            joined,
            briefed,
            trace,
        } = self;
        Outside {
            adapters,
            northbound,
            observers,
            places,
            mirrors,
            joined,
            briefed,
            trace: Ghost(trace@.push(n)),
        }
    }

    /// Every adapter is ticked, then every northbound adapter; what they produce goes
    /// behind the timers that have fired.
    fn ticked(self, now: Millis, fired: Vec<Event>) -> (r: (
        Self,
        Vec<Event>,
        Ghost<Seq<Seq<EventV>>>,
        Ghost<Seq<Seq<EventV>>>,
        Ghost<Seq<Option<ClockV>>>,
    ))
        ensures
            r.2@.len() == self.places@.len(),
            r.4@.len() == self.places@.len(),
            forall|i: int|
                0 <= i < r.4@.len() ==> clock_moved(
                    clock_of_place(self.places@, i, self.trace@),
                    now,
                    #[trigger] r.4@[i],
                    r.2@[i],
                ),
            r.3@.len() == self.northbound@.len(),
            forall|i: int|
                0 <= i < r.2@.len() ==> (self.places@[i].manner)(
                    Call::Tick { now, events: #[trigger] r.2@[i] },
                ),
            event_views(r.1@) == event_views(fired@) + chained(r.2@) + chained(r.3@),
            r.0.trace@ == self.trace@.push(
                Notice::Ticked {
                    now,
                    timers: event_views(fired@),
                    adapters: r.2@,
                    clocks: r.4@,
                    northbound: r.3@,
                },
            ),
            r.0.roster() == self.roster(),
            r.0.adapters@.len() == self.adapters@.len(),
            r.0.northbound@.len() == self.northbound@.len(),
    {
        proof {
            use_type_invariant(&self);
        }
        let Outside {
            mut adapters,
            mut northbound,
            observers,
            places,
            mirrors,
            joined,
            briefed,
            trace,
        } = self;
        let ghost south_before = adapter_logs(adapters@);
        let ghost clocks_before = adapter_clocks(adapters@);
        let ghost north_before = northbound_logs(northbound@);
        let ghost gave = manners(adapters@);
        let mut produced = fired;
        let south = tick_south(&mut adapters, now, &mut produced);
        let north = tick_north(&mut northbound, now, &mut produced);
        let ghost n = Notice::Ticked {
            now,
            timers: event_views(fired@),
            adapters: south@,
            clocks: adapter_clocks(adapters@),
            northbound: north@,
        };
        let ghost clocks = adapter_clocks(adapters@);
        proof {
            assert(adapter_logs(adapters@).len() == adapters@.len());
            assert(clocks.len() == places@.len());
            assert forall|i: int| 0 <= i < clocks.len() implies clock_moved(
                clock_of_place(places@, i, trace@),
                now,
                #[trigger] clocks[i],
                south@[i],
            ) by {
                assert(clocks_before[i] == clock_of_place(places@, i, trace@));
            }
            assert forall|i: int| 0 <= i < clocks.len() implies #[trigger] clocks[i]
                == clock_of_place(places@, i, trace@.push(n)) by {
                assert(places@[i].joined <= trace@.len());
                let from = places@[i].joined as int;
                assert(trace@.push(n).skip(from) =~= trace@.skip(from).push(n));
            }
            assert forall|i: int| 0 <= i < south@.len() implies (places@[i].manner)(
                Call::Tick { now, events: #[trigger] south@[i] },
            ) by {
                assert(places@[i].manner == gave[i]);
            }
            assert(adapter_logs(adapters@).len() == adapters@.len());
            assert(northbound_logs(northbound@).len() == northbound@.len());
            assert(trace@.push(n).drop_last() =~= trace@);
            assert forall|i: int| 0 <= i < south_before.len() implies #[trigger] adapter_logs(
                adapters@,
            )[i] == noted_all(south_before[i], calls_in(n, Party::Adapter((i + 1) as nat))) by {
                lemma_one_noted(south_before[i], Call::Tick { now, events: south@[i] });
            }
            lemma_adapters_noted(places@, south_before, adapter_logs(adapters@), trace@, n);
            assert forall|i: int| 0 <= i < north_before.len() implies #[trigger] northbound_logs(
                northbound@,
            )[i] == noted_all(north_before[i], calls_in(n, Party::Northbound(i as nat))) by {
                lemma_one_noted(north_before[i], Call::Tick { now, events: north@[i] });
            }
            lemma_northbound_noted(
                mirrors@,
                north_before,
                northbound_logs(northbound@),
                trace@,
                n,
            );
            lemma_observers_noted(
                joined@,
                briefed@,
                observer_logs(observers.list@),
                observer_logs(observers.list@),
                trace@,
                n,
            );
        }
        (
            Outside {
                adapters,
                northbound,
                observers,
                places,
                mirrors,
                joined,
                briefed,
                trace: Ghost(trace@.push(n)),
            },
            produced,
            south,
            north,
            Ghost(clocks),
        )
    }

    /// Some states are replayed into every northbound adapter.
    fn synced(self, states: Vec<(DeviceId, CapabilityState)>) -> (r: Self)
        ensures
            r.trace@ == self.trace@.push(Notice::Synced { states: states@ }),
            r.roster() == self.roster(),
            r.adapters@.len() == self.adapters@.len(),
            r.northbound@.len() == self.northbound@.len(),
    {
        proof {
            use_type_invariant(&self);
        }
        let Outside {
            adapters,
            mut northbound,
            observers,
            places,
            mirrors,
            joined,
            briefed,
            trace,
        } = self;
        let ghost before = northbound_logs(northbound@);
        let mut i: usize = 0;
        assert forall|k: int| 0 <= k < before.len() implies #[trigger] northbound_logs(
            northbound@,
        )[k] == noted_all(before[k], folds(states@.take(0))) by {
            assert(folds(states@.take(0)) =~= Seq::empty());
            lemma_nothing_noted(before[k]);
        }
        while i < states.len()
            invariant
                i <= states@.len(),
                northbound@.len() == before.len(),
                forall|k: int|
                    0 <= k < before.len() ==> #[trigger] northbound_logs(northbound@)[k]
                        == noted_all(before[k], folds(states@.take(i as int))),
            decreases states@.len() - i,
        {
            let ghost mid = northbound_logs(northbound@);
            let (device, state) = states[i];
            mirror(&mut northbound, device, &state);
            proof {
                let call = Call::Fold { device, state };
                let done = folds(states@.take(i as int));
                assert(folds(states@.take(i + 1)) =~= done.push(call));
                assert forall|k: int| 0 <= k < before.len() implies #[trigger] northbound_logs(
                    northbound@,
                )[k] == noted_all(before[k], folds(states@.take(i + 1))) by {
                    assert(mid[k] == noted_all(before[k], done));
                    if before[k] is Some {
                        assert((before[k]->0 + done).push(call) =~= before[k]->0 + done.push(call));
                    }
                }
            }
            i += 1;
        }
        let ghost n = Notice::Synced { states: states@ };
        proof {
            assert(states@.take(i as int) =~= states@);
            assert(trace@.push(n).drop_last() =~= trace@);
            lemma_adapters_unheard(places@, adapter_logs(adapters@), trace@, n);
            lemma_clocks_unmoved(places@, adapter_clocks(adapters@), trace@, n);
            lemma_northbound_noted(
                mirrors@,
                before,
                northbound_logs(northbound@),
                trace@,
                n,
            );
            lemma_observers_noted(
                joined@,
                briefed@,
                observer_logs(observers.list@),
                observer_logs(observers.list@),
                trace@,
                n,
            );
        }
        Outside {
            adapters,
            northbound,
            observers,
            places,
            mirrors,
            joined,
            briefed,
            trace: Ghost(trace@.push(n)),
        }
    }
}

proof fn lemma_nothing_noted<A>(log: Option<Seq<A>>)
    ensures
        noted_all(log, Seq::empty()) == log,
{
    if log is Some {
        assert(log->0 + Seq::<A>::empty() =~= log->0);
    }
}

proof fn lemma_one_noted<A>(log: Option<Seq<A>>, entry: A)
    ensures
        noted_all(log, seq![entry]) == noted(log, entry),
{
    if log is Some {
        assert(log->0 + seq![entry] =~= log->0.push(entry));
    }
}

/// Whoever has heard everything of a trace and then hears its next entry has heard
/// everything.
proof fn lemma_calls_noted(
    who: Party,
    before: Option<Seq<Call>>,
    from: nat,
    trace: Seq<Notice>,
    n: Notice,
)
    requires
        from <= trace.len(),
    ensures
        noted_all(before, calls_on(who, trace.push(n).skip(from as int))) == noted_all(
            noted_all(before, calls_on(who, trace.skip(from as int))),
            calls_in(n, who),
        ),
{
    let t = trace.skip(from as int);
    assert(trace.push(n).skip(from as int) =~= t.push(n));
    assert(t.push(n).drop_last() =~= t);
    if before is Some {
        assert(before->0 + (calls_on(who, t) + calls_in(n, who)) =~= before->0 + calls_on(who, t)
            + calls_in(n, who));
    }
}

proof fn lemma_adapters_noted(
    places: Seq<Place>,
    before: Seq<Option<Seq<Call>>>,
    after: Seq<Option<Seq<Call>>>,
    trace: Seq<Notice>,
    n: Notice,
)
    requires
        adapters_in_step(places, before, trace),
        after.len() == before.len(),
        forall|i: int|
            0 <= i < before.len() ==> #[trigger] after[i] == noted_all(
                before[i],
                calls_in(n, Party::Adapter((i + 1) as nat)),
            ),
    ensures
        adapters_in_step(places, after, trace.push(n)),
{
    assert forall|i: int| 0 <= i < after.len() implies #[trigger] after[i] == noted_all(
        places[i].before,
        calls_on(Party::Adapter((i + 1) as nat), trace.push(n).skip(places[i].joined as int)),
    ) by {
        let h = before[i];
        let p = places[i];
        assert(p.joined <= trace.len());
        lemma_calls_noted(
            Party::Adapter((i + 1) as nat),
            places[i].before,
            places[i].joined,
            trace,
            n,
        );
    }
    assert(trace.push(n).len() == trace.len() + 1);
}

/// What no adapter hears leaves them all in step.
proof fn lemma_adapters_unheard(
    places: Seq<Place>,
    heard: Seq<Option<Seq<Call>>>,
    trace: Seq<Notice>,
    n: Notice,
)
    requires
        adapters_in_step(places, heard, trace),
        forall|i: int|
            0 <= i < heard.len() ==> #[trigger] calls_in(n, Party::Adapter((i + 1) as nat)).len()
                == 0,
    ensures
        adapters_in_step(places, heard, trace.push(n)),
{
    assert forall|i: int| 0 <= i < heard.len() implies #[trigger] heard[i] == noted_all(
        heard[i],
        calls_in(n, Party::Adapter((i + 1) as nat)),
    ) by {
        assert(calls_in(n, Party::Adapter((i + 1) as nat)) =~= Seq::empty());
        lemma_nothing_noted(heard[i]);
    }
    lemma_adapters_noted(places, heard, heard, trace, n);
}

/// What is no tick leaves every clock as it was.
proof fn lemma_clocks_unmoved(
    places: Seq<Place>,
    clocks: Seq<Option<ClockV>>,
    trace: Seq<Notice>,
    n: Notice,
)
    requires
        clocks_in_step(places, clocks, trace),
        forall|i: int| 0 <= i < places.len() ==> (#[trigger] places[i]).joined <= trace.len(),
        !(n is Ticked),
    ensures
        clocks_in_step(places, clocks, trace.push(n)),
{
    assert forall|i: int| 0 <= i < clocks.len() implies #[trigger] clocks[i] == clock_of_place(
        places,
        i,
        trace.push(n),
    ) by {
        let from = places[i].joined as int;
        assert(trace.push(n).skip(from) =~= trace.skip(from).push(n));
        assert(trace.skip(from).push(n).drop_last() =~= trace.skip(from));
    }
}

proof fn lemma_northbound_noted(
    mirrors: Seq<Mirror>,
    before: Seq<Option<Seq<Call>>>,
    after: Seq<Option<Seq<Call>>>,
    trace: Seq<Notice>,
    n: Notice,
)
    requires
        northbound_in_step(mirrors, before, trace),
        after.len() == before.len(),
        forall|i: int|
            0 <= i < before.len() ==> (#[trigger] after[i] == noted_all(
                before[i],
                calls_in(n, Party::Northbound(i as nat)),
            ) || after[i] == before[i] && calls_in(n, Party::Northbound(i as nat)).len() == 0),
    ensures
        northbound_in_step(mirrors, after, trace.push(n)),
{
    assert forall|i: int| 0 <= i < after.len() implies #[trigger] after[i] == noted_all(
        mirrors[i].before,
        calls_on(Party::Northbound(i as nat), trace.push(n).skip(mirrors[i].joined as int)),
    ) by {
        let h = before[i];
        let m = mirrors[i];
        assert(m.joined <= trace.len());
        if calls_in(n, Party::Northbound(i as nat)).len() == 0 {
            assert(calls_in(n, Party::Northbound(i as nat)) =~= Seq::empty());
            lemma_nothing_noted(h);
        }
        lemma_calls_noted(
            Party::Northbound(i as nat),
            mirrors[i].before,
            mirrors[i].joined,
            trace,
            n,
        );
    }
    assert(trace.push(n).len() == trace.len() + 1);
}

proof fn lemma_observers_noted(
    joined: Seq<nat>,
    briefed: Seq<Option<Seq<Notice>>>,
    before: Seq<Option<Seq<Notice>>>,
    after: Seq<Option<Seq<Notice>>>,
    trace: Seq<Notice>,
    n: Notice,
)
    requires
        observers_in_step(joined, briefed, before, trace),
        after.len() == before.len(),
        forall|i: int|
            0 <= i < before.len() ==> #[trigger] after[i] == if is_announced(n) {
                noted(before[i], n)
            } else {
                before[i]
            },
    ensures
        observers_in_step(joined, briefed, after, trace.push(n)),
{
    assert forall|i: int| 0 <= i < after.len() implies #[trigger] after[i] == noted_all(
        briefed[i],
        announced(trace.push(n).skip(joined[i] as int)),
    ) by {
        let h = before[i];
        let from = joined[i];
        assert(from <= trace.len());
        let t = trace.skip(from as int);
        assert(trace.push(n).skip(from as int) =~= t.push(n));
        assert(t.push(n).drop_last() =~= t);
        reveal(Seq::filter);
        if briefed[i] is Some {
            assert(briefed[i]->0 + announced(t).push(n) =~= (briefed[i]->0 + announced(t)).push(n));
        }
    }
    assert(trace.push(n).len() == trace.len() + 1);
}

/// Whoever joins later has not been called for what came before.
proof fn lemma_calls_before_joining(joined: Seq<nat>, trace: Seq<Notice>, at: nat)
    requires
        trace.len() <= at,
    ensures
        calls_for(joined.push(at), trace) == calls_for(joined, trace),
    decreases trace.len(),
{
    if trace.len() > 0 {
        lemma_calls_before_joining(joined, trace.drop_last(), at);
        reveal(Seq::filter);
        assert(joined.push(at).drop_last() =~= joined);
    }
}

pub struct Engine {
    now: Millis,
    /// Each entry is `(event, causal_depth)`.
    queue: VecDeque<(Event, u32)>,
    state: StateStore,
    rules: Vec<Rule>,
    /// Adapter 0: "time is an adapter".
    scheduler: SchedulerAdapter,
    /// Adapters 1 and up, northbound adapters and observers.
    outside: Outside,
    device_to_adapter: Table<DeviceId, AdapterIdx>,
    scenes: Table<SceneId, Vec<Command>>,
    retry: RetryPolicy,
    retries: Table<TimerKey, PendingRetry>,
    retry_counter: u64,
    /// Live `for` timers, at most one per rule.
    pending_for: Vec<PendingFor>,
    for_counter: u64,
    max_cascade_depth: u32,
}

spec fn queue_view(q: Seq<(Event, u32)>) -> Seq<(EventV, u32)> {
    q.map_values(|e: (Event, u32)| (e.0@, e.1))
}

spec fn retries_view(m: Map<Seq<char>, PendingRetry>) -> Map<Seq<char>, (CommandV, u32)> {
    m.map_values(|p: PendingRetry| (p.command@, p.attempt))
}

spec fn waiting_view(s: Seq<PendingFor>) -> Seq<(RuleId, Seq<char>)> {
    s.map_values(|p: PendingFor| (p.rule, p.key@))
}

impl Engine {
    /// What the loop changes.
    pub closed spec fn current(&self) -> Core {
        Core {
            queue: queue_view(self.queue@),
            known: self.state@,
            timers: self.scheduler@,
            retries: retries_view(self.retries@),
            retry_counter: self.retry_counter,
            waiting: waiting_view(self.pending_for@),
            for_counter: self.for_counter,
            trace: self.outside.trace@,
        }
    }

    /// What the loop does not change.
    pub closed spec fn wiring(&self) -> Wiring {
        Wiring {
            now: self.now,
            rules: self.rules@,
            scenes: scene_lists(self.scenes@),
            bound: self.device_to_adapter@,
            adapters: self.outside.adapters@.len() + 1,
            places: self.outside.places@,
            northbound: self.outside.northbound@.len(),
            mirrors: self.outside.mirrors@,
            joined: self.outside.joined@,
            briefed: self.outside.briefed@,
            retry: self.retry,
            max_depth: self.max_cascade_depth,
        }
    }

    /// What the adapters from index 1 on, the northbound adapters and the observers have
    /// heard: their own account.
    pub closed spec fn logs(&self) -> Logs {
        Logs {
            adapters: adapter_logs(self.outside.adapters@),
            clocks: adapter_clocks(self.outside.adapters@),
            northbound: northbound_logs(self.outside.northbound@),
            observers: observer_logs(self.outside.observers.list@),
        }
    }

    /// The order of all calls on observers: which one, and what it was told.
    pub closed spec fn calls(&self) -> Seq<(nat, Notice)> {
        self.outside.observers.calls@
    }

    /// When each adapter from index 1 on, and then each northbound adapter, next needs
    /// a tick.
    pub closed spec fn wakes(&self) -> Seq<Option<Millis>> {
        adapter_wakes(self.outside.adapters@, self.now) + northbound_wakes(
            self.outside.northbound@,
            self.now,
        )
    }

    /// The engine is between two runs of its loop, and everyone outside has heard what
    /// its trace says.
    pub open spec fn wf(&self) -> bool {
        &&& wiring_ok(self.wiring())
        &&& core_ok(self.wiring(), self.current())
        &&& self.current().queue.len() == 0
        &&& self.wakes().len() + 1 == self.wiring().adapters + self.wiring().northbound
        &&& in_step(self.wiring(), self.logs(), self.current().trace)
        &&& attended(self.calls(), self.wiring().joined, self.current().trace)
    }

    pub fn new() -> (r: Self)
        ensures
            r.wf(),
            r.current() == fresh(),
            r.wiring() == bare(),
    {
        let r = Engine {
            now: 0,
            queue: VecDeque::new(),
            state: StateStore::default(),
            rules: Vec::new(),
            scheduler: SchedulerAdapter::default(),
            outside: Outside::new(),
            device_to_adapter: Table::new(),
            scenes: Table::new(),
            retry: RetryPolicy::default(),
            retries: Table::new(),
            retry_counter: 0,
            pending_for: Vec::new(),
            for_counter: 0,
            max_cascade_depth: DEFAULT_MAX_CASCADE_DEPTH,
        };
        proof {
            assert(queue_view(r.queue@) =~= Seq::empty());
            assert(waiting_view(r.pending_for@) =~= Seq::empty());
            assert(r.wiring().scenes =~= Map::empty());
            assert(r.current().retries =~= Map::empty());
        }
        proof {
            use_type_invariant(&r.outside);
        }
        r
    }

    // --- wiring ----------------------------------------------------------------

    /// Add a device adapter. It stands at the index that is returned; the adapters
    /// added before keep theirs.
    pub fn add_adapter(&mut self, adapter: Box<dyn Adapter>) -> (r: AdapterIdx)
        requires
            old(self).wf(),
            old(self).wiring().adapters < usize::MAX,
        ensures
            final(self).wf(),
            final(self).current() == old(self).current(),
            adapter_added(
                old(self).wiring(),
                final(self).wiring(),
                r,
                Place {
                    joined: old(self).current().trace.len(),
                    before: adapter.heard(),
                    manner: adapter.manner(),
                    clock: adapter.clock(),
                },
            ),
            forall|i: int|
                0 <= i < old(self).wiring().places.len() ==> #[trigger] final(self).wakes()[i]
                    == old(self).wakes()[i],
            final(self).wakes()[old(self).wiring().places.len() as int] == adapter.wakes(
                old(self).wiring().now,
            ),
    {
        let held = hold_adapter(adapter);
        self.add_held_adapter(held)
    }

    pub(crate) fn add_held_adapter(&mut self, held: Held<dyn Adapter>) -> (r: AdapterIdx)
        requires
            old(self).wf(),
            old(self).wiring().adapters < usize::MAX,
        ensures
            final(self).wf(),
            final(self).current() == old(self).current(),
            adapter_added(
                old(self).wiring(),
                final(self).wiring(),
                r,
                Place {
                    joined: old(self).current().trace.len(),
                    before: held.inner.heard(),
                    manner: held.inner.manner(),
                    clock: held.inner.clock(),
                },
            ),
            forall|i: int|
                0 <= i < old(self).wiring().places.len() ==> #[trigger] final(self).wakes()[i]
                    == old(self).wakes()[i],
            final(self).wakes()[old(self).wiring().places.len() as int] == held.inner.wakes(
                old(self).wiring().now,
            ),
    {
        let idx: usize = self.outside.adapters.len();
        let outside = self.take_outside();
        proof {
            use_type_invariant(&outside);
        }
        self.outside = outside.with_adapter(held);
        proof {
            use_type_invariant(&self.outside);
            assert(self.wiring().bound == old(self).wiring().bound);
            assert(self.wiring().adapters == old(self).wiring().adapters + 1);
            assert(self.wiring().places.len() + 1 == self.wiring().adapters);
            assert(wiring_ok(self.wiring()));
            assert(core_ok(self.wiring(), self.current()));
            assert(self.wakes().len() == old(self).wakes().len() + 1);
            assert(in_step(self.wiring(), self.logs(), self.current().trace));
        }
        idx + 1
    }

    /// Register a northbound adapter. It is ticked (and its `next_wake` honored)
    /// like an adapter and fed `state_folded` like an observer, but binds no devices
    /// and is never a dispatch target.
    pub fn add_northbound(&mut self, adapter: Box<dyn NorthboundAdapter>)
        requires
            old(self).wf(),
        ensures
            final(self).wf(),
            final(self).current() == old(self).current(),
            final(self).wiring() == (Wiring {
                northbound: old(self).wiring().northbound + 1,
                mirrors: old(self).wiring().mirrors.push(
                    Mirror {
                        joined: old(self).current().trace.len(),
                        before: adapter.heard(),
                    },
                ),
                ..old(self).wiring()
            }),
            forall|i: int|
                0 <= i < old(self).wakes().len() ==> #[trigger] final(self).wakes()[i]
                    == old(self).wakes()[i],
            final(self).wakes()[old(self).wakes().len() as int] == adapter.wakes(
                old(self).wiring().now,
            ),
    {
        let held = hold_northbound(adapter);
        self.add_held_northbound(held);
    }

    pub(crate) fn add_held_northbound(&mut self, held: Held<dyn NorthboundAdapter>)
        requires
            old(self).wf(),
        ensures
            final(self).wf(),
            final(self).current() == old(self).current(),
            final(self).wiring() == (Wiring {
                northbound: old(self).wiring().northbound + 1,
                mirrors: old(self).wiring().mirrors.push(
                    Mirror {
                        joined: old(self).current().trace.len(),
                        before: held.inner.heard(),
                    },
                ),
                ..old(self).wiring()
            }),
            forall|i: int|
                0 <= i < old(self).wakes().len() ==> #[trigger] final(self).wakes()[i]
                    == old(self).wakes()[i],
            final(self).wakes()[old(self).wakes().len() as int] == held.inner.wakes(
                old(self).wiring().now,
            ),
    {
        let outside = self.take_outside();
        self.outside = outside.with_northbound(held);
        proof {
            use_type_invariant(&self.outside);
        }
    }

    pub fn bind_device(&mut self, device: DeviceId, adapter: AdapterIdx)
        requires
            old(self).wf(),
            adapter < old(self).wiring().adapters,
        ensures
            final(self).wf(),
            final(self).current() == old(self).current(),
            final(self).wiring() == (Wiring {
                bound: old(self).wiring().bound.insert(device, adapter),
                ..old(self).wiring()
            }),
    {
        self.device_to_adapter.insert(device, adapter);
    }

    pub fn add_rule(&mut self, rule: Rule)
        requires
            old(self).wf(),
        ensures
            final(self).wf(),
            final(self).current() == old(self).current(),
            final(self).wiring() == (Wiring {
                rules: old(self).wiring().rules.push(rule),
                ..old(self).wiring()
            }),
    {
        self.rules.push(rule);
    }

    pub fn add_scene(&mut self, scene: SceneId, commands: Vec<Command>)
        requires
            old(self).wf(),
        ensures
            final(self).wf(),
            final(self).current() == old(self).current(),
            final(self).wiring() == (Wiring {
                scenes: old(self).wiring().scenes.insert(scene, command_views(commands@)),
                ..old(self).wiring()
            }),
    {
        self.scenes.insert(scene, commands);
        assert(self.wiring().scenes =~= old(self).wiring().scenes.insert(
            scene,
            command_views(commands@),
        ));
    }

    /// Register an observer. Several may coexist and are notified in registration
    /// order.
    pub fn add_observer(&mut self, observer: Box<dyn Observer>)
        requires
            old(self).wf(),
        ensures
            final(self).wf(),
            final(self).current() == old(self).current(),
            final(self).calls() == old(self).calls(),
            final(self).wakes() == old(self).wakes(),
            final(self).wiring() == (Wiring {
                joined: old(self).wiring().joined.push(old(self).current().trace.len()),
                briefed: old(self).wiring().briefed.push(observer.heard()),
                ..old(self).wiring()
            }),
    {
        let held = hold_observer(observer);
        let outside = self.take_outside();
        self.outside = outside.with_observer(held);
        proof {
            use_type_invariant(&self.outside);
        }
    }

    /// Take the outside out, to put a changed one back.
    fn take_outside(&mut self) -> (r: Outside)
        ensures
            r == old(self).outside,
            *final(self) == (Engine { outside: final(self).outside, ..*old(self) }),
    {
        let mut taken = Outside::new();
        swap(&mut self.outside, &mut taken);
        taken
    }

    pub fn set_retry_policy(&mut self, policy: RetryPolicy)
        requires
            old(self).wf(),
        ensures
            final(self).wf(),
            final(self).current() == old(self).current(),
            final(self).wiring() == (Wiring { retry: policy, ..old(self).wiring() }),
    {
        self.retry = policy;
    }

    /// Maximum causal cascade depth before an event is dropped as a runaway
    /// feedback loop. The default (32) is far above any legitimate chain.
    ///
    /// An event's depth is counted up to `u32::MAX`, so an event that deep is dropped
    /// whatever the maximum.
    pub fn set_max_cascade_depth(&mut self, depth: u32)
        requires
            old(self).wf(),
        ensures
            final(self).wf(),
            final(self).current() == old(self).current(),
            final(self).wiring() == (Wiring {
                max_depth: if depth == u32::MAX {
                    (u32::MAX - 1) as u32
                } else {
                    depth
                },
                ..old(self).wiring()
            }),
    {
        self.max_cascade_depth = if depth == u32::MAX {
            u32::MAX - 1
        } else {
            depth
        };
    }

    // --- small steps -----------------------------------------------------------

    fn tell(&mut self, signal: Signal)
        ensures
            final(self).wiring() == old(self).wiring(),
            final(self).current() == told(old(self).current(), signal.notice()),
    {
        let outside = self.take_outside();
        self.outside = outside.told(&signal);
    }

    /// Hand a timer command to the scheduler.
    fn schedule(&mut self, cmd: &Command)
        ensures
            final(self).wiring() == old(self).wiring(),
            final(self).current() == (Core {
                timers: timers_after(old(self).current().timers, cmd@, old(self).wiring().now),
                ..old(self).current()
            }),
    {
        let now: Millis = self.now;
        let _ = self.scheduler.dispatch(cmd, now);
    }

    /// Hand a device command to an adapter and hear its answer.
    fn ask(&mut self, idx: AdapterIdx, cmd: &Command) -> (out: DispatchOutcome)
        requires
            idx < old(self).wiring().adapters,
            cmd@.target() is Some,
        ensures
            is_reply(out@),
            can_answer(old(self).wiring(), idx, cmd@, out@),
            final(self).wiring() == old(self).wiring(),
            final(self).current() == told(
                old(self).current(),
                Notice::Answered {
                    adapter: idx,
                    command: cmd@,
                    now: old(self).wiring().now,
                    outcome: out@,
                },
            ),
    {
        let now: Millis = self.now;
        if idx == 0 {
            let out = self.scheduler.dispatch(cmd, now);
            let outside = self.take_outside();
            self.outside = outside.scheduler_asked(
                Ghost(Notice::Answered { adapter: idx, command: cmd@, now, outcome: out@ }),
            );
            out
        } else {
            let outside = self.take_outside();
            let (outside, out) = outside.asked(idx, cmd, now);
            self.outside = outside;
            out
        }
    }

    fn enqueue(&mut self, ev: Event, depth: u32)
        ensures
            final(self).wiring() == old(self).wiring(),
            final(self).current() == enqueued(old(self).current(), seq![ev@], depth),
    {
        self.queue.push_back((ev, depth));
        assert(self.current().queue =~= old(self).current().queue + at_depth(seq![ev@], depth));
    }

    fn enqueue_all(&mut self, evs: Vec<Event>, depth: u32)
        ensures
            final(self).wiring() == old(self).wiring(),
            final(self).current() == enqueued(old(self).current(), event_views(evs@), depth),
    {
        let ghost before = self.current();
        let ghost all = event_views(evs@);
        let mut evs = evs;
        let mut rest: Vec<Event> = Vec::new();
        // Reverse, so that popping takes the events in their order.
        while evs.len() > 0
            invariant
                event_views(evs@) + event_views(rest@).reverse() == all,
            decreases evs@.len(),
        {
            let ghost was = evs@;
            let ghost was_rest = rest@;
            match evs.pop() {
                Some(e) => {
                    rest.push(e);
                    assert(event_views(was) =~= event_views(evs@).push(e@));
                    assert(event_views(rest@) =~= event_views(was_rest).push(e@));
                    assert(event_views(rest@).reverse() =~= seq![e@] + event_views(
                        was_rest,
                    ).reverse());
                    assert(event_views(evs@) + event_views(rest@).reverse() =~= event_views(was)
                        + event_views(was_rest).reverse());
                },
                None => {},
            }
        }
        assert(event_views(rest@).reverse() =~= all);
        assert(self.current().queue =~= enqueued(before, Seq::empty(), depth).queue);
        let ghost mut done: Seq<EventV> = Seq::empty();
        while rest.len() > 0
            invariant
                self.wiring() == old(self).wiring(),
                self.current() == enqueued(before, done, depth),
                done + event_views(rest@).reverse() == all,
            decreases rest@.len(),
        {
            let ghost was = rest@;
            match rest.pop() {
                Some(e) => {
                    assert(event_views(was) =~= event_views(rest@).push(e@));
                    assert(event_views(was).reverse() =~= seq![e@] + event_views(rest@).reverse());
                    let ghost q = self.queue@;
                    self.queue.push_back((e, depth));
                    proof {
                        assert(queue_view(self.queue@) =~= queue_view(q).push((e@, depth)));
                        assert(at_depth(done.push(e@), depth) =~= at_depth(done, depth).push(
                            (e@, depth),
                        ));
                        assert(self.current().queue =~= enqueued(before, done.push(e@), depth).queue);
                        assert(done.push(e@) + event_views(rest@).reverse() =~= done + event_views(
                            was,
                        ).reverse());
                        done = done.push(e@);
                    }
                },
                None => {},
            }
        }
        assert(done =~= all);
    }

    // --- dispatch --------------------------------------------------------------

    /// Perform state-aware transformations for commands that have implicit effects
    /// based on current device state: a toggle becomes an explicit on or off, and a
    /// relative brightness an absolute one. While the state is unknown the command
    /// is left as it is, for the device to interpret.
    fn resolve_implicit_state_command(&self, cmd: Command) -> (r: Command)
        ensures
            r@ == explicit(self.current().known, cmd@),
    {
        match cmd {
            Command::ToggleSwitch { device } => match self.state.switch_is(device) {
                Some(on) => Command::SetSwitch { device, on: !on },
                None => cmd,
            },
            Command::DecreaseBrightness { device, value } => match self.state.num_value(
                device,
                CapabilityKind::Brightness,
            ) {
                Some(level) => {
                    let lowered: i64 = if level < 0 {
                        0
                    } else {
                        level - value as i64
                    };
                    Command::SetBrightness {
                        device,
                        value: clamp_percent(lowered),
                        transition: None,
                    }
                },
                None => cmd,
            },
            Command::IncreaseBrightness { device, value } => match self.state.num_value(
                device,
                CapabilityKind::Brightness,
            ) {
                Some(level) => {
                    let raised: i64 = if level > 100 {
                        100
                    } else {
                        level + value as i64
                    };
                    Command::SetBrightness {
                        device,
                        value: clamp_percent(raised),
                        transition: None,
                    }
                },
                None => cmd,
            },
            _ => cmd,
        }
    }

    /// Dispatch one command. `depth` is the causal depth of the event that produced
    /// it; events this command yields enter the queue at `depth + 1`.
    fn dispatch_at(
        &mut self,
        cmd: Command,
        attempt: u32,
        depth: u32,
        Ghost(fuel): Ghost<nat>,
    )
        requires
            wiring_ok(old(self).wiring()),
            retries_ok(old(self).wiring(), old(self).current().retries),
            covers(old(self).wiring().scenes, cmd@, fuel),
            depth <= old(self).wiring().max_depth,
        ensures
            final(self).wiring() == old(self).wiring(),
            dispatched(
                old(self).wiring(),
                fuel,
                old(self).current(),
                cmd@,
                attempt,
                depth,
                final(self).current(),
            ),
        decreases fuel, 0int,
    {
        let ghost w = self.wiring();
        let cmd = self.resolve_implicit_state_command(cmd);
        self.tell(Signal::CommandDispatched { command: &cmd, depth });
        let ghost c = self.current();

        match &cmd {
            Command::ActivateScene { scene } => {
                // Scenes have no special runtime semantics: expand to fresh commands
                // at the same causal depth.
                let scene = *scene;
                let found: Option<Vec<Command>> = match self.scenes.get(&scene) {
                    Some(cmds) => if scene_ends(&self.scenes, scene) {
                        Some(clone_commands(cmds))
                    } else {
                        // It activates itself, and would never be done.
                        None
                    },
                    None => None,
                };
                if let Some(cmds) = found {
                    assert(expands(w.scenes, scene));
                    assert(w.scenes[scene] == command_views(cmds@));
                    self.tell(Signal::SceneExpanded { scene, count: cmds.len() });
                    assert forall|i: int| 0 <= i < command_views(cmds@).len() implies covers(
                        w.scenes,
                        #[trigger] command_views(cmds@)[i],
                        (fuel - 1) as nat,
                    ) by {
                        assert(member_ends_in(w.scenes, w.scenes[scene][i], (fuel - 1) as nat));
                    }
                    self.dispatch_list(cmds, depth, Ghost((fuel - 1) as nat));
                }
                return ;
            },
            Command::ScheduleTimer { .. } => {
                // Scheduler commands are routed internally and never fail.
                self.schedule(&cmd);
                return ;
            },
            Command::CancelTimer { .. } => {
                self.schedule(&cmd);
                return ;
            },
            _ => {},
        }
        // Device-targeted command: route to the bound adapter.
        let target: Option<AdapterIdx> = match cmd.target_device() {
            Some(d) => match self.device_to_adapter.get(&d) {
                Some(idx) => Some(*idx),
                None => None,
            },
            None => None,
        };
        assert(target == route(w, cmd@));
        match target {
            Some(idx) => {
                let outcome = self.ask(idx, &cmd);
                let ghost out = outcome@;
                let ghost sent = cmd@;
                self.handle_outcome(outcome, cmd, attempt, depth);
                assert(handed_over(w, c, sent, attempt, depth, out, self.current()));
            },
            None => {
                // Device command with no bound adapter: a permanent misconfiguration,
                // which fails loudly.
                let outcome = DispatchOutcome::permanent("no adapter bound for target device");
                let ghost out = outcome@;
                let ghost sent = cmd@;
                self.handle_outcome(outcome, cmd, attempt, depth);
                assert(handed_over(w, c, sent, attempt, depth, out, self.current()));
            },
        }
    }

    /// Dispatch several commands in order.
    fn dispatch_list(
        &mut self,
        cmds: Vec<Command>,
        depth: u32,
        Ghost(fuel): Ghost<nat>,
    )
        requires
            wiring_ok(old(self).wiring()),
            retries_ok(old(self).wiring(), old(self).current().retries),
            forall|i: int|
                0 <= i < command_views(cmds@).len() ==> covers(
                    old(self).wiring().scenes,
                    #[trigger] command_views(cmds@)[i],
                    fuel,
                ),
            depth <= old(self).wiring().max_depth,
        ensures
            final(self).wiring() == old(self).wiring(),
            dispatched_all(
                old(self).wiring(),
                fuel,
                old(self).current(),
                command_views(cmds@),
                depth,
                final(self).current(),
            ),
        decreases fuel, 1int,
    {
        let ghost w = self.wiring();
        let ghost pre = self.current();
        let ghost all = command_views(cmds@);
        let mut i: usize = 0;
        assert(all.take(0) =~= Seq::empty());
        while i < cmds.len()
            invariant
                i <= cmds@.len(),
                all == command_views(cmds@),
                self.wiring() == w,
                wiring_ok(w),
                retries_ok(w, pre.retries),
                retries_ok(w, self.current().retries),
                forall|j: int| 0 <= j < all.len() ==> covers(w.scenes, #[trigger] all[j], fuel),
                depth <= w.max_depth,
                dispatched_all(w, fuel, pre, all.take(i as int), depth, self.current()),
            decreases cmds@.len() - i,
        {
            let ghost mid = self.current();
            assert(all[i as int] == cmds@[i as int]@);
            let cmd = cmds[i].clone();
            self.dispatch_at(cmd, 1, depth, Ghost(fuel));
            proof {
                dispatch_frame(w, fuel, mid, all[i as int], 1, depth, self.current());
                let upto = all.take(i + 1);
                assert(upto.drop_last() =~= all.take(i as int));
                assert(upto.last() == all[i as int]);
                assert(between(mid));
                assert(dispatched_all(w, fuel, pre, upto, depth, self.current()));
            }
            i += 1;
        }
        assert(all.take(i as int) =~= all);
    }

    fn handle_outcome(&mut self, outcome: DispatchOutcome, cmd: Command, attempt: u32, depth: u32)
        requires
            wiring_ok(old(self).wiring()),
            depth <= old(self).wiring().max_depth,
        ensures
            final(self).wiring() == old(self).wiring(),
            final(self).current() == settled_answer(
                old(self).wiring(),
                old(self).current(),
                outcome@,
                cmd@,
                attempt,
                depth,
            ),
    {
        match outcome {
            DispatchOutcome::Done(evs) => self.enqueue_all(evs, depth + 1),
            DispatchOutcome::Transient(reason) => {
                self.tell(
                    Signal::DispatchFailed {
                        command: &cmd,
                        reason: reason.as_str(),
                        transient: true,
                        attempt,
                    },
                );
                if attempt < self.retry.max_attempts {
                    self.schedule_retry(cmd, attempt);
                } else {
                    self.give_up(cmd, reason, attempt, depth);
                }
            },
            DispatchOutcome::Permanent(reason) => {
                self.tell(
                    Signal::DispatchFailed {
                        command: &cmd,
                        reason: reason.as_str(),
                        transient: false,
                        attempt,
                    },
                );
                self.give_up(cmd, reason, attempt, depth);
            },
        }
    }

    fn schedule_retry(&mut self, cmd: Command, failed_attempt: u32)
        requires
            wiring_ok(old(self).wiring()),
            failed_attempt < u32::MAX,
        ensures
            final(self).wiring() == old(self).wiring(),
            final(self).current() == retry_set(
                old(self).wiring(),
                old(self).current(),
                cmd@,
                failed_attempt,
            ),
    {
        let ghost pre = self.current();
        let next_attempt: u32 = failed_attempt + 1;
        let delay: Millis = self.retry.backoff(failed_attempt);
        self.retry_counter = self.retry_counter.wrapping_add(1);
        let number = decimal_text(self.retry_counter);
        let key = TimerKey(cat2("__retry:", number.as_str()));
        let sched = Command::ScheduleTimer { key: key.clone(), after: delay };
        self.tell(Signal::RetryScheduled { command: &cmd, next_attempt, delay });
        let ghost before = self.retries@;
        let pending = PendingRetry { command: cmd, attempt: next_attempt };
        self.retries.insert(key, pending);
        assert(retries_view(before.insert(key@, pending)) =~= retries_view(before).insert(
            key@,
            (cmd@, next_attempt),
        ));
        // Route through the scheduler so the retry is a normal future event.
        self.schedule(&sched);
    }

    fn give_up(&mut self, cmd: Command, reason: String, attempts: u32, depth: u32)
        requires
            depth < u32::MAX,
        ensures
            final(self).wiring() == old(self).wiring(),
            final(self).current() == gave_up(old(self).current(), cmd@, reason@, attempts, depth),
    {
        self.tell(
            Signal::CommandFailed { command: &cmd, reason: reason.as_str(), attempts },
        );
        self.enqueue(Event::CommandFailed { command: cmd, reason, attempts }, depth + 1);
    }
}

impl Engine {
    // --- `for` timers ----------------------------------------------------------

    /// Where the first rule with an id stands.
    fn rule_index(&self, id: RuleId) -> (r: Option<usize>)
        ensures
            match r {
                Some(i) => i < self.wiring().rules.len() && find_rule(self.wiring().rules, id)
                    == Some(self.wiring().rules[i as int]),
                None => find_rule(self.wiring().rules, id) is None,
            },
    {
        let mut i: usize = 0;
        assert(self.rules@.skip(0) =~= self.rules@);
        while i < self.rules.len()
            invariant
                i <= self.rules@.len(),
                find_rule(self.rules@, id) == find_rule(self.rules@.skip(i as int), id),
            decreases self.rules@.len() - i,
        {
            if self.rules[i].id == id {
                return Some(i);
            }
            assert(self.rules@.skip(i as int).drop_first() =~= self.rules@.skip(i + 1));
            i += 1;
        }
        None
    }

    fn predicate_of(&self, id: RuleId) -> (r: bool)
        ensures
            r == still_holds(self.wiring().rules, self.current().known, id),
    {
        match self.rule_index(id) {
            Some(i) => self.rules[i].trigger.predicate_holds(&self.state),
            None => false,
        }
    }

    /// (Re)start a rule's `for` timer: cancel any timer already pending for this
    /// rule, then schedule a new one under a generated key.
    fn arm_for_timer(&mut self, rule: RuleId, after: Millis)
        requires
            one_timer_each(old(self).current().waiting),
        ensures
            final(self).wiring() == old(self).wiring(),
            final(self).current() == armed(
                old(self).current(),
                rule,
                after,
                old(self).wiring().now,
            ),
            one_timer_each(final(self).current().waiting),
    {
        let ghost pre = self.current();
        let n: usize = self.pending_for.len();
        let mut i: usize = 0;
        while i < n && self.pending_for[i].rule != rule
            invariant
                i <= n == self.pending_for@.len(),
                pre == self.current(),
                forall|j: int| 0 <= j < i ==> (#[trigger] pre.waiting[j]).0 != rule,
            decreases n - i,
        {
            assert(pre.waiting[i as int].0 == self.pending_for@[i as int].rule);
            i += 1;
        }
        proof {
            if i < n {
                assert(pre.waiting[i as int].0 == self.pending_for@[i as int].rule);
            }
            lemma_timer_of(pre.waiting, rule, i as int);
            lemma_without(pre.waiting, rule, i as int);
            lemma_filter_one_each(pre.waiting, other_than(rule));
        }
        if i < n {
            let ghost was = self.pending_for@;
            let prev = self.pending_for.remove(i);
            assert(waiting_view(was.remove(i as int)) =~= waiting_view(was).remove(i as int));
            self.schedule(&Command::CancelTimer { key: prev.key });
        }
        self.for_counter = self.for_counter.wrapping_add(1);
        let number = decimal_text(self.for_counter);
        let key = TimerKey(cat2("__for:", number.as_str()));
        let ghost was = self.pending_for@;
        let sched = Command::ScheduleTimer { key: key.clone(), after };
        self.pending_for.push(PendingFor { rule, key });
        assert(waiting_view(self.pending_for@) =~= waiting_view(was).push((rule, key@)));
        self.schedule(&sched);
        proof {
            let left = without(pre.waiting, rule);
            let now_waiting = self.current().waiting;
            assert(now_waiting == left.push((rule, key@)));
            assert forall|a: int, b: int| 0 <= a < b < now_waiting.len() implies (
            #[trigger] now_waiting[a]).0 != (#[trigger] now_waiting[b]).0 by {
                if b == left.len() {
                    assert(now_waiting[a] == left[a]);
                    let z = if a < i { a } else { a + 1 };
                    if i < n {
                        assert(left[a] == pre.waiting[z]);
                        assert(pre.waiting[i as int].0 == rule);
                        assert(z != i);
                    } else {
                        assert(left[a] == pre.waiting[a]);
                    }
                } else {
                    assert(now_waiting[a] == left[a] && now_waiting[b] == left[b]);
                }
            }
        }
    }

    /// Cancel every pending `for` timer whose trigger predicate no longer holds
    /// against the current store: the auto-cancel that makes "sustained" safe.
    fn cancel_reverted_for_timers(&mut self)
        requires
            one_timer_each(old(self).current().waiting),
        ensures
            final(self).wiring() == old(self).wiring(),
            final(self).current() == reverted(old(self).wiring(), old(self).current()),
            one_timer_each(final(self).current().waiting),
    {
        let ghost w = self.wiring();
        let ghost pre = self.current();
        let ghost keep = |e: (RuleId, Seq<char>)| still_holds(w.rules, pre.known, e.0);
        let mut all: Vec<PendingFor> = Vec::new();
        core::mem::swap(&mut all, &mut self.pending_for);
        assert(waiting_view(self.pending_for@) =~= Seq::empty());
        let ghost bare = Core { waiting: Seq::empty(), ..pre };
        let mut i: usize = 0;
        assert(pre.waiting.take(0).filter(keep) =~= Seq::empty()) by {
            reveal(Seq::filter);
        }
        assert(pre.timers.remove_keys(dropped(pre.waiting, keep, 0)) =~= pre.timers);
        while i < all.len()
            invariant
                i <= all@.len(),
                pre.waiting == waiting_view(all@),
                self.wiring() == w,
                keep == (|e: (RuleId, Seq<char>)| still_holds(w.rules, pre.known, e.0)),
                self.current() == (Core {
                    waiting: pre.waiting.take(i as int).filter(keep),
                    timers: pre.timers.remove_keys(dropped(pre.waiting, keep, i as int)),
                    ..pre
                }),
            decreases all@.len() - i,
        {
            let entry = &all[i];
            assert(pre.waiting[i as int] == (entry.rule, entry.key@));
            assert(pre.waiting.take(i + 1).drop_last() =~= pre.waiting.take(i as int));
            assert(pre.waiting.take(i + 1).last() == pre.waiting[i as int]);
            let ghost was = self.pending_for@;
            if self.predicate_of(entry.rule) {
                self.pending_for.push(PendingFor { rule: entry.rule, key: entry.key.clone() });
                proof {
                    reveal(Seq::filter);
                    assert(waiting_view(self.pending_for@) =~= waiting_view(was).push(
                        (entry.rule, entry.key@),
                    ));
                    assert(dropped(pre.waiting, keep, i + 1) =~= dropped(
                        pre.waiting,
                        keep,
                        i as int,
                    ));
                }
            } else {
                self.schedule(&Command::CancelTimer { key: entry.key.clone() });
                proof {
                    reveal(Seq::filter);
                    assert forall|k: Seq<char>| #[trigger] dropped(pre.waiting, keep, i + 1).contains(
                        k,
                    ) <==> dropped(pre.waiting, keep, i as int).contains(k) || k == entry.key@ by {
                        assert(pre.waiting[i as int].1 == entry.key@);
                    }
                    assert(pre.timers.remove_keys(dropped(pre.waiting, keep, i + 1))
                        =~= pre.timers.remove_keys(dropped(pre.waiting, keep, i as int)).remove(
                        entry.key@,
                    ));
                }
            }
            i += 1;
        }
        proof {
            assert(pre.waiting.take(i as int) =~= pre.waiting);
            assert(dropped(pre.waiting, keep, i as int) =~= reverted_keys(w, pre));
            lemma_filter_one_each(pre.waiting, keep);
        }
    }

    /// A `for` timer elapsed: re-verify the rule's predicate still holds, then
    /// dispatch its commands.
    fn fire_elapsed_for(
        &mut self,
        key: &TimerKey,
    ) -> (fuel: Ghost<nat>)
        requires
            wiring_ok(old(self).wiring()),
            retries_ok(old(self).wiring(), old(self).current().retries),
            one_timer_each(old(self).current().waiting),
        ensures
            final(self).wiring() == old(self).wiring(),
            waited_out(
                old(self).wiring(),
                fuel@,
                old(self).current(),
                key@,
                final(self).current(),
            ),
    {
        let ghost w = self.wiring();
        let ghost pre = self.current();
        let n: usize = self.pending_for.len();
        let mut i: usize = 0;
        while i < n && !self.pending_for[i].key.same(key)
            invariant
                i <= n == self.pending_for@.len(),
                pre == self.current(),
                forall|j: int| 0 <= j < i ==> (#[trigger] pre.waiting[j]).1 != key@,
            decreases n - i,
        {
            assert(pre.waiting[i as int].1 == self.pending_for@[i as int].key@);
            i += 1;
        }
        proof {
            if i < n {
                assert(pre.waiting[i as int].1 == self.pending_for@[i as int].key@);
            }
            lemma_rule_of_timer(pre.waiting, key@, i as int);
        }
        if i == n {
            // A stale timer: already cancelled or superseded.
            return Ghost(0);
        }
        let ghost was = self.pending_for@;
        let rule_id = self.pending_for[i].rule;
        assert(pre.waiting[i as int].0 == rule_id);
        proof {
            lemma_without(pre.waiting, rule_id, i as int);
        }
        self.pending_for.remove(i);
        assert(waiting_view(was.remove(i as int)) =~= waiting_view(was).remove(i as int));
        match self.rule_index(rule_id) {
            None => Ghost(0),
            Some(r) => {
                if self.rules[r].trigger.predicate_holds(&self.state) {
                    let commands = clone_commands(&self.rules[r].commands);
                    let ghost views = command_views(commands@);
                    let ghost fuel = levels_for(w.scenes, views);
                    proof {
                        lemma_levels_for(w.scenes, views);
                    }
                    self.dispatch_list(commands, 0, Ghost(fuel));
                    Ghost(fuel)
                } else {
                    Ghost(0)
                }
            },
        }
    }

    // --- one turn --------------------------------------------------------------

    /// Fold device feedback into the disposable state store, and fan the change to
    /// observers *and* northbound adapters.
    fn fold_state(&mut self, device: DeviceId, state: &CapabilityState)
        ensures
            final(self).wiring() == old(self).wiring(),
            final(self).current() == (Core {
                known: crate::state::reported(old(self).current().known, device, *state),
                ..told(old(self).current(), Notice::StateFolded { device, state: *state })
            }),
    {
        self.fan_state_folded(device, state);
        self.state.set(device, *state);
    }

    /// Deliver a folded state change to every observer *and* every northbound
    /// adapter: the single seam that keeps their mirrors in sync with the store.
    fn fan_state_folded(&mut self, device: DeviceId, state: &CapabilityState)
        ensures
            final(self).wiring() == old(self).wiring(),
            final(self).current() == told(
                old(self).current(),
                Notice::StateFolded { device, state: *state },
            ),
    {
        self.tell(Signal::StateFolded { device, state });
    }

    /// Translate a consumer-requested intent into the `Command` that achieves it,
    /// kept in one place so every northbound adapter speaks pure intent. Requests
    /// carry no transition.
    ///
    /// `None` for capability states that are reports only: requesting those is a
    /// harmless no-op.
    pub fn command_for_requested_change(device: DeviceId, desired: &Desired) -> (r: Option<Command>)
        ensures
            match r {
                Some(cmd) => requested_command(device, desired@) == Some(cmd@),
                None => requested_command(device, desired@) is None,
            },
    {
        match desired {
            Desired::State(CapabilityState::Switch(on)) => Some(
                Command::SetSwitch { device, on: *on },
            ),
            Desired::State(CapabilityState::Brightness(value)) => Some(
                Command::SetBrightness { device, value: *value, transition: None },
            ),
            Desired::State(CapabilityState::Color { r, g, b }) => Some(
                Command::SetColor { device, r: *r, g: *g, b: *b, transition: None },
            ),
            Desired::State(CapabilityState::ColorTemperature(mireds)) => Some(
                Command::SetColorTemperature { device, mireds: *mireds, transition: None },
            ),
            Desired::State(_) => None,
            Desired::Toggle => Some(Command::ToggleSwitch { device }),
            Desired::AdjustBrightness(delta) => {
                let wide: i16 = *delta as i16;
                if wide < 0 {
                    Some(Command::DecreaseBrightness { device, value: (-wide) as u8 })
                } else {
                    Some(Command::IncreaseBrightness { device, value: wide as u8 })
                }
            },
            Desired::SendIr(code) => Some(Command::SendIrCode { device, code: code.clone() }),
        }
    }

    /// Process one ordinary event: fold it, run it past the rules, start the waits
    /// and dispatch the commands that come of it.
    ///
    /// A `for`-qualified rule that fires does not dispatch at once: it (re)starts a
    /// sustained timer.
    fn apply_rules(
        &mut self,
        ev: Event,
        depth: u32,
    ) -> (fuel: Ghost<nat>)
        requires
            wiring_ok(old(self).wiring()),
            retries_ok(old(self).wiring(), old(self).current().retries),
            one_timer_each(old(self).current().waiting),
            depth <= old(self).wiring().max_depth,
        ensures
            final(self).wiring() == old(self).wiring(),
            ruled(
                old(self).wiring(),
                fuel@,
                old(self).current(),
                ev@,
                depth,
                final(self).current(),
            ),
            one_timer_each(final(self).current().waiting),
            retries_ok(final(self).wiring(), final(self).current().retries),
            grown(old(self).current().queue, final(self).current().queue, depth + 1),
    {
        let ghost w = self.wiring();
        let ghost pre = self.current();
        // The prior value of a reported capability, before folding, so that edge
        // triggers can see the transition.
        let prior: Option<CapabilityState> = match &ev {
            Event::StateReported { device, state } => match self.state.get(*device, state.kind()) {
                Some(s) => Some(*s),
                None => None,
            },
            _ => None,
        };
        if let Event::StateReported { device, state } = &ev {
            self.fold_state(*device, state);
            // Against the freshly folded store and before matching, so a report that
            // both ends one rule's wait and starts another's is handled in order.
            self.cancel_reverted_for_timers();
        }
        let ghost c1 = self.current();
        assert(c1 == folded(w, pre, ev@));
        let ghost empty = Verdict {
            notices: Seq::empty(),
            arms: Seq::empty(),
            commands: Seq::empty(),
        };
        let mut commands: Vec<Command> = Vec::new();
        let mut arm_for: Vec<(RuleId, Millis)> = Vec::new();
        let mut i: usize = 0;
        assert(command_views(commands@) =~= Seq::empty());
        assert(c1.trace + Seq::<Notice>::empty() =~= c1.trace);
        while i < self.rules.len()
            invariant
                i <= self.rules@.len(),
                self.wiring() == w,
                wiring_ok(w),
                self.current() == told_all(
                    c1,
                    considered(w.rules, i as nat, ev@, prior, c1.known).notices,
                ),
                command_views(commands@) == considered(
                    w.rules,
                    i as nat,
                    ev@,
                    prior,
                    c1.known,
                ).commands,
                arm_for@ == considered(w.rules, i as nat, ev@, prior, c1.known).arms,
            decreases self.rules@.len() - i,
        {
            let ghost v = considered(w.rules, i as nat, ev@, prior, c1.known);
            if self.rules[i].trigger.matches(&ev, prior.as_ref()) {
                let rule = self.rules[i].id;
                let truth = self.rules[i].condition.eval(&self.state);
                let fired = truth.is_true();
                self.tell(Signal::RuleConsidered { rule, truth, fired });
                assert((c1.trace + v.notices).push(Notice::RuleConsidered { rule, truth, fired })
                    =~= c1.trace + v.notices.push(Notice::RuleConsidered { rule, truth, fired }));
                if fired {
                    match self.rules[i].for_duration {
                        Some(d) => arm_for.push((rule, d)),
                        None => {
                            let ghost was = commands@;
                            let mut more = clone_commands(&self.rules[i].commands);
                            let ghost added = more@;
                            commands.append(&mut more);
                            assert(command_views(commands@) =~= command_views(was) + command_views(
                                added,
                            ));
                        },
                    }
                }
            }
            i += 1;
        }
        let ghost v = considered(w.rules, w.rules.len(), ev@, prior, c1.known);
        let ghost c2 = self.current();
        let mut j: usize = 0;
        assert(v.arms.take(0) =~= Seq::empty());
        while j < arm_for.len()
            invariant
                j <= arm_for@.len(),
                self.wiring() == w,
                wiring_ok(w),
                arm_for@ == v.arms,
                one_timer_each(self.current().waiting),
                self.current() == armed_all(c2, v.arms.take(j as int), w.now),
                self.current().queue == c2.queue,
                self.current().retries == c2.retries,
            decreases arm_for@.len() - j,
        {
            let (rule, d) = arm_for[j];
            self.arm_for_timer(rule, d);
            assert(v.arms.take(j + 1).drop_last() =~= v.arms.take(j as int));
            assert(v.arms.take(j + 1).last() == v.arms[j as int]);
            j += 1;
        }
        assert(v.arms.take(j as int) =~= v.arms);
        let ghost c3 = self.current();
        let ghost fuel = levels_for(w.scenes, v.commands);
        proof {
            lemma_levels_for(w.scenes, v.commands);
        }
        self.dispatch_list(commands, depth, Ghost(fuel));
        proof {
            dispatch_all_frame(w, fuel, c3, v.commands, depth, self.current());
        }
        Ghost(fuel)
    }

    /// Process the event at the front of the queue.
    fn step(&mut self)
        requires
            wiring_ok(old(self).wiring()),
            core_ok(old(self).wiring(), old(self).current()),
            old(self).current().queue.len() > 0,
        ensures
            final(self).wiring() == old(self).wiring(),
            core_ok(final(self).wiring(), final(self).current()),
            exists|fuel: nat|
                stepped(old(self).wiring(), fuel, old(self).current(), final(self).current()),
            grown(
                old(self).current().queue.drop_first(),
                final(self).current().queue,
                old(self).current().queue[0].1 + 1,
            ),
            old(self).current().queue[0].1 > old(self).wiring().max_depth
                ==> final(self).current().queue == old(self).current().queue.drop_first(),
    {
        let ghost w = self.wiring();
        let ghost pre = self.current();
        let ghost whole = self.queue@;
        if let Some((raw, depth)) = self.queue.pop_front() {
            let ghost rest = Core { queue: pre.queue.drop_first(), ..pre };
            assert(pre.queue[0] == (raw@, depth));
            assert(self.current().queue =~= rest.queue);
            assert(queue_ok(w, pre.queue));
            // Backstop: refuse to follow a cascade past the configured depth.
            if depth > self.max_cascade_depth {
                self.tell(Signal::CascadeDropped { event: &raw, depth });
                proof {
                    crate::causality::every_turn_nears_the_end(
                        w,
                        pre.queue,
                        self.current().queue,
                    );
                    assert(stepped(w, 0, pre, self.current()));
                }
                return ;
            }
            self.tell(Signal::EventReceived { event: &raw, depth });
            let ghost c = self.current();
            let ghost event = raw@;
            let ev = match raw {
                Event::OccupancyChanged { device, occupied } => Event::StateReported {
                    device,
                    state: CapabilityState::Occupancy(occupied),
                },
                other => other,
            };
            assert(ev@ == as_report(event));
            let ghost mut fuel: nat = 0;

            // Internal retry timers re-issue a command rather than acting as a
            // user-visible trigger. A retry is time-gated, so it restarts the causal
            // chain at depth 0; so does a rule that waited out its duration.
            let intercepted: bool = match &ev {
                Event::TimerElapsed { key } => {
                    assert(depth == 0) by {
                        assert(pre.queue[0].1 > 0 ==> !crate::adapters::is_timer_event(
                            pre.queue[0].0,
                        ));
                    }
                    let ghost kept = self.retries@;
                    match self.retries.remove(key) {
                        Some(pending) => {
                            assert(retries_view(kept).contains_key(key@));
                            assert(retries_view(kept.remove(key@)) =~= retries_view(kept).remove(
                                key@,
                            ));
                            let ghost c1 = self.current();
                            self.dispatch_at(
                                pending.command,
                                pending.attempt,
                                0,
                                Ghost(0),
                            );
                            proof {
                                dispatch_frame(
                                    w,
                                    0,
                                    c1,
                                    c.retries[key@].0,
                                    c.retries[key@].1,
                                    0,
                                    self.current(),
                                );
                            }
                            true
                        },
                        None => {
                            assert(kept.remove(key@) =~= kept);
                            if starts_with(key.0.as_str(), "__for:") {
                                let f = self.fire_elapsed_for(key);
                                proof {
                                    fuel = f@;
                                    lemma_waited_out_frame(w, fuel, c, key@, self.current());
                                }
                                true
                            } else {
                                false
                            }
                        },
                    }
                },
                _ => false,
            };
            if !intercepted {
                match ev {
                    // A request is deliberately *not* folded into the store and *not*
                    // run through rule matching: it is an intent to act, and reality
                    // arrives later as the device's own echo.
                    Event::RequestedChange { device, desired } => {
                        match Self::command_for_requested_change(device, &desired) {
                            Some(cmd) => {
                                let ghost sent = cmd@;
                                self.dispatch_at(cmd, 1, depth, Ghost(0));
                                proof {
                                    dispatch_frame(w, 0, c, sent, 1, depth, self.current());
                                }
                            },
                            None => {},
                        }
                    },
                    Event::RequestedScene { scene } => {
                        let cmd = Command::ActivateScene { scene };
                        let ghost sent = cmd@;
                        proof {
                            fuel = levels_of(w.scenes, sent);
                            lemma_levels_of(w.scenes, sent);
                        }
                        self.dispatch_at(cmd, 1, depth, Ghost(fuel));
                        proof {
                            dispatch_frame(w, fuel, c, sent, 1, depth, self.current());
                        }
                    },
                    other => {
                        let f = self.apply_rules(other, depth);
                        proof {
                            fuel = f@;
                        }
                    },
                }
            }
            proof {
                crate::causality::every_turn_nears_the_end(w, pre.queue, self.current().queue);
                assert(stepped(w, fuel, pre, self.current()));
                crate::replay::turn_frame(w, fuel, pre, self.current());
            }
        }
    }

    fn drain(&mut self)
        requires
            wiring_ok(old(self).wiring()),
            core_ok(old(self).wiring(), old(self).current()),
        ensures
            final(self).wiring() == old(self).wiring(),
            core_ok(final(self).wiring(), final(self).current()),
            ran_dry(old(self).wiring(), old(self).current(), final(self).current()),
    {
        let ghost w = self.wiring();
        let ghost pre = self.current();
        let ghost mut n: nat = 0;
        while self.queue.len() > 0
            invariant
                self.wiring() == w,
                wiring_ok(w),
                core_ok(w, self.current()),
                ran(w, n, pre, self.current()),
            decreases
                    crate::causality::hops_left(w, self.current().queue),
                    crate::causality::in_front(self.current().queue),
        {
            let ghost mid = self.current();
            self.step();
            proof {
                let fuel = choose|fuel: nat| stepped(w, fuel, mid, self.current());
                assert(stepped(w, fuel, mid, self.current()));
                n = n + 1;
                assert(ran(w, n, pre, self.current()));
                crate::causality::every_turn_nears_the_end(w, mid.queue, self.current().queue);
            }
        }
        assert(self.current().queue.len() == 0);
    }

    /// Tick every adapter and enqueue what they produce at depth 0.
    fn tick_adapters(&mut self)
        requires
            wiring_ok(old(self).wiring()),
            core_ok(old(self).wiring(), old(self).current()),
            old(self).current().queue.len() == 0,
        ensures
            final(self).wiring() == old(self).wiring(),
            core_ok(final(self).wiring(), final(self).current()),
            ticked(old(self).wiring(), old(self).current(), final(self).current()),
    {
        let ghost w = self.wiring();
        let ghost pre = self.current();
        let now: Millis = self.now;
        let fired: Vec<Event> = self.scheduler.tick(now);
        let ghost keys = choose|keys: Seq<Seq<char>>|
            is_due_list(pre.timers, now, keys) && event_views(fired@) == #[trigger] elapsed(keys);
        let outside = self.take_outside();
        let (outside, produced, south, north, clocks) = outside.ticked(now, fired);
        self.outside = outside;
        self.enqueue_all(produced, 0);
        assert(can_tick(w, pre.trace, south@, clocks@));
        assert(self.current() == after_tick(w, pre, keys, south@, clocks@, north@));
    }

    // --- driving the loop ------------------------------------------------------

    /// Whether no scene activates itself, directly or through others. One that does is
    /// never expanded.
    pub fn scenes_terminate(&self) -> (r: bool)
        ensures
            r == scenes_end(self.wiring()),
    {
        assert(self.wiring().scenes == scene_lists(self.scenes@));
        all_end(&self.scenes)
    }

    pub fn now(&self) -> (r: Millis)
        ensures
            r == self.wiring().now,
    {
        self.now
    }

    pub fn switch_state(&self, device: DeviceId) -> (r: Option<bool>)
        ensures
            r == known_bool(self.current().known, device, CapabilityKind::Switch),
    {
        self.state.switch_is(device)
    }

    /// Smallest delay (ms from the current virtual `now`) after which some adapter
    /// needs a `tick` on its own initiative. A host blocks at most this long before
    /// calling `advance`. `None` means no adapter has any scheduled work.
    ///
    /// It is the soonest of the scheduler's soonest timer and of the next wake of every
    /// adapter and every northbound adapter.
    pub fn next_wake_delay(&self) -> (r: Option<Millis>)
        requires
            self.wf(),
        ensures
            r == soonest_of(
                soonest_timer(self.current().timers, self.wiring().now),
                self.wakes(),
            ),
            is_soonest(
                self.current().timers,
                self.wiring().now,
                soonest_timer(self.current().timers, self.wiring().now),
            ),
    {
        let now: Millis = self.now;
        let timer = self.scheduler.next_wake(now);
        let ghost south = adapter_wakes(self.outside.adapters@, now);
        let ghost north = northbound_wakes(self.outside.northbound@, now);
        let ghost all = self.wakes();
        let mut best = timer;
        let n: usize = self.outside.adapters.len();
        let mut i: usize = 0;
        assert(all.take(0) =~= Seq::empty());
        while i < n
            invariant
                i <= n == self.outside.adapters@.len(),
                now == self.now,
                all == self.wakes(),
                south == adapter_wakes(self.outside.adapters@, now),
                best == soonest_of(timer, all.take(i as int)),
            decreases n - i,
        {
            let answer = self.outside.adapters[i].inner.next_wake(now);
            best = soonest(best, answer);
            proof {
                assert(all[i as int] == south[i as int]);
                assert(all.take(i + 1).drop_last() =~= all.take(i as int));
                assert(all.take(i + 1).last() == answer);
            }
            i += 1;
        }
        let m: usize = self.outside.northbound.len();
        let mut k: usize = 0;
        while k < m
            invariant
                k <= m == self.outside.northbound@.len(),
                n == self.outside.adapters@.len(),
                now == self.now,
                all == self.wakes(),
                north == northbound_wakes(self.outside.northbound@, now),
                best == soonest_of(timer, all.take(n + k)),
            decreases m - k,
        {
            let answer = self.outside.northbound[k].inner.next_wake(now);
            best = soonest(best, answer);
            proof {
                assert(all[n + k] == north[k as int]);
                assert(all.take(n + k + 1).drop_last() =~= all.take(n + k));
                assert(all.take(n + k + 1).last() == answer);
            }
            k += 1;
        }
        assert(all.take(n + m) =~= all);
        best
    }

    /// Boot phase: tick every adapter once so initial state (notably the clock's
    /// time and sun snapshot) is in the store before any event is processed. Call
    /// after wiring is complete.
    pub fn start(&mut self)
        requires
            old(self).wf(),
        ensures
            final(self).wf(),
            final(self).wiring() == old(self).wiring(),
            exists|mid: Core, dry: Core|
                ticked(old(self).wiring(), old(self).current(), mid) && #[trigger] ran_dry(
                    old(self).wiring(),
                    mid,
                    dry,
                ) && synced(old(self).wiring(), dry, final(self).current()),
    {
        let ghost w = self.wiring();
        self.tick_adapters();
        let ghost mid = self.current();
        self.drain();
        let ghost dry = self.current();
        self.sync_northbound_startup_state();
        assert(ran_dry(w, mid, dry));
        proof {
            use_type_invariant(&self.outside);
        }
    }

    /// Replay the current state store into every northbound adapter, so a freshly
    /// built projection reflects engine truth at boot instead of protocol defaults.
    /// Ordinary observers already witnessed each fold as it happened.
    fn sync_northbound_startup_state(&mut self)
        ensures
            final(self).wiring() == old(self).wiring(),
            synced(old(self).wiring(), old(self).current(), final(self).current()),
    {
        if self.outside.northbound.len() == 0 {
            return ;
        }
        let snapshot = self.state.snapshot();
        proof {
            assert(snapshot@ == crate::state::snapshot_of(self.state.order(), self.state@));
            assert(lists_known(snapshot@, self.state@));
        }
        let outside = self.take_outside();
        self.outside = outside.synced(snapshot);
        assert(self.current() == told(
            old(self).current(),
            Notice::Synced { states: snapshot@ },
        ));
    }

    /// Inject an inbound event (as an adapter would) and run to quiescence.
    pub fn inject(&mut self, event: Event)
        requires
            old(self).wf(),
        ensures
            final(self).wf(),
            final(self).wiring() == old(self).wiring(),
            ran_dry(
                old(self).wiring(),
                enqueued(old(self).current(), seq![event@], 0),
                final(self).current(),
            ),
    {
        self.enqueue(event, 0);
        self.drain();
        proof {
            use_type_invariant(&self.outside);
        }
    }

    /// Advance virtual time, firing any due timers, then run to quiescence.
    pub fn advance(&mut self, dt: Millis)
        requires
            old(self).wf(),
            old(self).wiring().now + dt <= u64::MAX,
        ensures
            final(self).wf(),
            final(self).wiring() == (Wiring {
                now: (old(self).wiring().now + dt) as u64,
                ..old(self).wiring()
            }),
            exists|mid: Core|
                ticked(final(self).wiring(), old(self).current(), mid) && #[trigger] ran_dry(
                    final(self).wiring(),
                    mid,
                    final(self).current(),
                ),
    {
        self.now = self.now + dt;
        self.tick_adapters();
        let ghost mid = self.current();
        self.drain();
        assert(ran_dry(self.wiring(), mid, self.current()));
        proof {
            use_type_invariant(&self.outside);
        }
    }
}

impl Default for Engine {
    fn default() -> (r: Self)
        ensures
            r.wf(),
            r.current() == fresh(),
            r.wiring() == bare(),
    {
        Engine::new()
    }
}

/// The sooner of two wakes, if there is any.
pub open spec fn sooner(a: Option<Millis>, b: Option<Millis>) -> Option<Millis> {
    match (a, b) {
        (Some(x), Some(y)) => Some(if y < x { y } else { x }),
        (Some(x), None) => Some(x),
        (None, y) => y,
    }
}

/// The soonest of one wake and some others.
pub open spec fn soonest_of(first: Option<Millis>, others: Seq<Option<Millis>>) -> Option<Millis>
    decreases others.len(),
{
    if others.len() == 0 {
        first
    } else {
        sooner(soonest_of(first, others.drop_last()), others.last())
    }
}

/// The soonest wake is one of those asked for, and none is sooner.
pub proof fn soonest_is_the_least(first: Option<Millis>, others: Seq<Option<Millis>>)
    ensures
        soonest_of(first, others) is None <==> first is None && forall|i: int|
            0 <= i < others.len() ==> #[trigger] others[i] is None,
        soonest_of(first, others) == first || others.contains(soonest_of(first, others)),
        first is Some ==> soonest_of(first, others)->0 <= first->0,
        forall|i: int|
            0 <= i < others.len() && #[trigger] others[i] is Some ==> soonest_of(first, others)->0
                <= others[i]->0,
    decreases others.len(),
{
    if others.len() > 0 {
        let before = others.drop_last();
        soonest_is_the_least(first, before);
        let was = soonest_of(first, before);
        let last = others.last();
        assert(others[others.len() - 1] == last);
        if before.contains(was) {
            let j = before.index_of(was);
            assert(others[j] == was);
        }
        assert forall|i: int| 0 <= i < others.len() && #[trigger] others[i] is Some implies
            soonest_of(first, others)->0 <= others[i]->0 by {
            if i < before.len() {
                assert(before[i] == others[i]);
            }
        }
        if soonest_of(first, others) is None {
            assert forall|i: int| 0 <= i < others.len() implies #[trigger] others[i] is None by {
                if i < before.len() {
                    assert(before[i] == others[i]);
                }
            }
        } else if first is None {
            if was is Some {
                let i = choose|i: int| 0 <= i < before.len() && #[trigger] before[i] is Some;
                assert(others[i] is Some);
            } else {
                assert(last is Some);
            }
        }
    }
}

pub fn soonest(a: Option<Millis>, b: Option<Millis>) -> (r: Option<Millis>)
    ensures
        r == sooner(a, b),
{
    match (a, b) {
        (Some(x), Some(y)) => Some(if y < x { y } else { x }),
        (Some(x), None) => Some(x),
        (None, y) => y,
    }
}

/// The timers of the first `n` waiting rules that are not kept.
spec fn dropped(
    waiting: Seq<(RuleId, Seq<char>)>,
    keep: spec_fn((RuleId, Seq<char>)) -> bool,
    n: int,
) -> Set<Seq<char>> {
    Set::new(
        |k: Seq<char>|
            exists|i: int| 0 <= i < n && (#[trigger] waiting[i]).1 == k && !keep(waiting[i]),
    )
}

/// How many levels it takes to expand whatever a command activates.
spec fn levels_of(scenes: Map<SceneId, Seq<CommandV>>, cmd: CommandV) -> nat {
    choose|levels: nat| #[trigger] covers(scenes, cmd, levels)
}

proof fn lemma_levels_of(scenes: Map<SceneId, Seq<CommandV>>, cmd: CommandV)
    ensures
        covers(scenes, cmd, levels_of(scenes, cmd)),
{
    match cmd {
        CommandV::ActivateScene { scene } => {
            if expands(scenes, scene) {
                let levels = choose|levels: nat| #[trigger] ends_in(scenes, scene, levels);
                assert(covers(scenes, cmd, levels));
            } else {
                assert(covers(scenes, cmd, 0));
            }
        },
        _ => {
            assert(covers(scenes, cmd, 0));
        },
    }
}

/// How many levels are enough for some commands.
spec fn levels_for(scenes: Map<SceneId, Seq<CommandV>>, cmds: Seq<CommandV>) -> nat
    decreases cmds.len(),
{
    if cmds.len() == 0 {
        0
    } else {
        let rest = levels_for(scenes, cmds.drop_first());
        let first = levels_of(scenes, cmds[0]);
        if first > rest {
            first
        } else {
            rest
        }
    }
}

proof fn lemma_levels_for(scenes: Map<SceneId, Seq<CommandV>>, cmds: Seq<CommandV>)
    ensures
        forall|i: int|
            0 <= i < cmds.len() ==> covers(scenes, #[trigger] cmds[i], levels_for(scenes, cmds)),
    decreases cmds.len(),
{
    if cmds.len() > 0 {
        let rest = cmds.drop_first();
        let all = levels_for(scenes, cmds);
        lemma_levels_for(scenes, rest);
        lemma_levels_of(scenes, cmds[0]);
        assert forall|i: int| 0 <= i < cmds.len() implies covers(
            scenes,
            #[trigger] cmds[i],
            all,
        ) by {
            let enough = if i == 0 {
                levels_of(scenes, cmds[0])
            } else {
                assert(rest[i - 1] == cmds[i]);
                levels_for(scenes, rest)
            };
            match cmds[i] {
                CommandV::ActivateScene { scene } => {
                    if expands(scenes, scene) {
                        lemma_more_levels(scenes, scene, enough, all);
                    }
                },
                _ => {},
            }
        }
    }
}

proof fn lemma_waited_out_frame(w: Wiring, fuel: nat, c: Core, key: Seq<char>, post: Core)
    requires
        waited_out(w, fuel, c, key, post),
        retries_ok(w, c.retries),
        one_timer_each(c.waiting),
    ensures
        grown(c.queue, post.queue, 1),
        retries_ok(w, post.retries),
        one_timer_each(post.waiting),
{
    match rule_of_timer(c.waiting, key) {
        None => {},
        Some(id) => {
            let c1 = Core { waiting: without(c.waiting, id), ..c };
            lemma_filter_one_each(c.waiting, other_than(id));
            match find_rule(w.rules, id) {
                None => {},
                Some(rule) => {
                    if rule.trigger.sustained(c1.known) {
                        dispatch_all_frame(w, fuel, c1, command_views(rule.commands@), 0, post);
                    }
                },
            }
        },
    }
}

fn clamp_percent(level: i64) -> (r: u8)
    ensures
        r == clamped(level as int),
{
    if level < 0 {
        0
    } else if level > 100 {
        100
    } else {
        level as u8
    }
}

} // verus!
