//! What the event loop does, as mathematics.
//!
//! [`Core`] is everything the loop changes and [`Wiring`] everything it does not.
//! One turn of the loop is the relation [`stepped`]: it leaves open only what the
//! device adapters answer, and writes each answer into the trace. Everything
//! observers are told is in the trace as well.

use vstd::prelude::*;

use crate::adapters::scheduler::{deadline, elapsed, is_due_list, timers_left, Timers};
use crate::adapters::clock::{clock_moved, ClockV};
use crate::adapters::{is_reply, is_timer_event, noted_all, Call, OutcomeV};
use crate::engine::RetryPolicy;
use crate::ids::{AdapterIdx, DeviceId, RuleId, SceneId};
use crate::model::{
    command_views, CapabilityKind, CapabilityState, CommandV, DesiredV, EventV, Millis,
};
use crate::rule::{Rule, Truth};
use crate::state::{
    kinds_agree, known_bool, known_int, known_state, lists_known, reported, Known,
};
use crate::table::lemma_filter_all;
use crate::text::{decimal, has_prefix};

verus! {

/// One thing that the outside saw of the loop, or that the loop saw of it.
pub enum Notice {
    EventReceived { event: EventV, depth: u32 },
    CascadeDropped { event: EventV, depth: u32 },
    StateFolded { device: DeviceId, state: CapabilityState },
    RuleConsidered { rule: RuleId, truth: Truth, fired: bool },
    CommandDispatched { command: CommandV, depth: u32 },
    SceneExpanded { scene: SceneId, count: nat },
    /// A device adapter was handed a command and gave this answer.
    Answered { adapter: AdapterIdx, command: CommandV, now: Millis, outcome: OutcomeV },
    DispatchFailed { command: CommandV, reason: Seq<char>, transient: bool, attempt: u32 },
    RetryScheduled { command: CommandV, next_attempt: u32, delay: Millis },
    CommandFailed { command: CommandV, reason: Seq<char>, attempts: u32 },
    /// Due timers fired, and every adapter was ticked, then every northbound adapter: the
    /// events that each produced.
    Ticked {
        now: Millis,
        timers: Seq<EventV>,
        adapters: Seq<Seq<EventV>>,
        /// Those of the adapters that are clocks, as the tick left them.
        clocks: Seq<Option<ClockV>>,
        northbound: Seq<Seq<EventV>>,
    },
    /// These states were replayed into the northbound adapters.
    Synced { states: Seq<(DeviceId, CapabilityState)> },
}

/// Everything the loop changes.
pub struct Core {
    /// Events to process, each with its causal depth.
    pub queue: Seq<(EventV, u32)>,
    pub known: Known,
    pub timers: Timers,
    /// Commands to dispatch again when a timer elapses, with the attempt's number.
    pub retries: Map<Seq<char>, (CommandV, u32)>,
    pub retry_counter: u64,
    /// Rules that wait out their `for` duration, each with its timer.
    pub waiting: Seq<(RuleId, Seq<char>)>,
    pub for_counter: u64,
    pub trace: Seq<Notice>,
}

/// An adapter's place in the engine.
pub struct Place {
    /// How long the trace was when the adapter was added.
    pub joined: nat,
    /// What the adapter had heard by then.
    pub before: Option<Seq<Call>>,
    /// Which answers it gives.
    pub manner: spec_fn(Call) -> bool,
    /// The clock that it was by then, if it is one.
    pub clock: Option<ClockV>,
}

/// A northbound adapter's place in the engine.
pub struct Mirror {
    /// How long the trace was when the adapter was added.
    pub joined: nat,
    /// What the adapter had heard by then.
    pub before: Option<Seq<Call>>,
}

/// Everything the loop reads and does not change.
pub struct Wiring {
    pub now: Millis,
    pub rules: Seq<Rule>,
    pub scenes: Map<SceneId, Seq<CommandV>>,
    pub bound: Map<DeviceId, AdapterIdx>,
    /// How many adapters there are, the scheduler among them.
    pub adapters: nat,
    /// What stands at each index from 1 on.
    pub places: Seq<Place>,
    pub northbound: nat,
    pub mirrors: Seq<Mirror>,
    /// For each observer, how long the trace was when it was registered.
    pub joined: Seq<nat>,
    /// For each observer, what it had heard by then.
    pub briefed: Seq<Option<Seq<Notice>>>,
    pub retry: RetryPolicy,
    pub max_depth: u32,
}

/// Where the loop begins: nothing has happened yet.
pub open spec fn fresh() -> Core {
    Core {
        queue: Seq::empty(),
        known: Known::empty(),
        timers: Timers::empty(),
        retries: Map::empty(),
        retry_counter: 0,
        waiting: Seq::empty(),
        for_counter: 0,
        trace: Seq::empty(),
    }
}

/// An engine with nothing but its scheduler.
pub open spec fn bare() -> Wiring {
    Wiring {
        now: 0,
        rules: Seq::empty(),
        scenes: Map::empty(),
        bound: Map::empty(),
        adapters: 1,
        places: Seq::empty(),
        northbound: 0,
        mirrors: Seq::empty(),
        joined: Seq::empty(),
        briefed: Seq::empty(),
        retry: RetryPolicy { max_attempts: 3, base_backoff: 1000 },
        max_depth: 32,
    }
}

/// An adapter was added: it has the next index, and the others keep theirs.
pub open spec fn adapter_added(
    before: Wiring,
    after: Wiring,
    idx: AdapterIdx,
    place: Place,
) -> bool {
    &&& idx == before.adapters
    &&& after == (Wiring {
        adapters: before.adapters + 1,
        places: before.places.push(place),
        ..before
    })
}

// ------------------------------------------------------------ small pieces

pub open spec fn told(c: Core, n: Notice) -> Core {
    Core { trace: c.trace.push(n), ..c }
}

pub open spec fn told_all(c: Core, ns: Seq<Notice>) -> Core {
    Core { trace: c.trace + ns, ..c }
}

/// Whether observers are told of it. What passes between the loop and its adapters
/// is in the trace, and no observer hears of it.
pub open spec fn is_announced(n: Notice) -> bool {
    !(n is Answered || n is Ticked || n is Synced)
}

/// The part of a trace that observers are told of.
pub open spec fn announced(trace: Seq<Notice>) -> Seq<Notice> {
    trace.filter(|n: Notice| is_announced(n))
}

/// One notice, told to the first `count` observers in their order.
pub open spec fn fanned(n: Notice, count: nat) -> Seq<(nat, Notice)> {
    Seq::new(count, |i: int| (i as nat, n))
}

/// How many observers were registered when the trace had this length.
pub open spec fn present(joined: Seq<nat>, at: nat) -> nat {
    joined.filter(|j: nat| j <= at).len()
}

/// Every call on an observer that a trace leads to: each announcement goes to all the
/// observers there are by then, in registration order, before the next one.
pub open spec fn calls_for(joined: Seq<nat>, trace: Seq<Notice>) -> Seq<(nat, Notice)>
    decreases trace.len(),
{
    if trace.len() == 0 {
        Seq::empty()
    } else {
        let earlier = calls_for(joined, trace.drop_last());
        if is_announced(trace.last()) {
            earlier + fanned(trace.last(), present(joined, (trace.len() - 1) as nat))
        } else {
            earlier
        }
    }
}

/// What one observer has been told.
pub open spec fn heard(calls: Seq<(nat, Notice)>, observer: nat) -> Seq<Notice> {
    calls.filter(|c: (nat, Notice)| c.0 == observer).map_values(|c: (nat, Notice)| c.1)
}

/// The observers were registered one after the other, and have been called for
/// exactly what the trace announces.
pub open spec fn attended(
    calls: Seq<(nat, Notice)>,
    joined: Seq<nat>,
    trace: Seq<Notice>,
) -> bool {
    &&& forall|i: int, j: int| 0 <= i < j < joined.len() ==> joined[i] <= joined[j]
    &&& forall|i: int| 0 <= i < joined.len() ==> #[trigger] joined[i] <= trace.len()
    &&& calls == calls_for(joined, trace)
}

/// Who is called.
pub enum Party {
    Adapter(nat),
    Northbound(nat),
}

/// The calls on a party that one notice stands for.
pub open spec fn calls_in(n: Notice, who: Party) -> Seq<Call> {
    match who {
        Party::Adapter(idx) => match n {
            Notice::Answered { adapter, command, now, outcome } => if adapter as nat == idx {
                seq![Call::Dispatch { command, now, outcome }]
            } else {
                Seq::empty()
            },
            Notice::Ticked { now, adapters, .. } => seq![
                Call::Tick { now, events: adapters[idx - 1] },
            ],
            _ => Seq::empty(),
        },
        Party::Northbound(k) => match n {
            Notice::StateFolded { device, state } => seq![Call::Fold { device, state }],
            Notice::Ticked { now, northbound, .. } => seq![
                Call::Tick { now, events: northbound[k as int] },
            ],
            Notice::Synced { states } => folds(states),
            _ => Seq::empty(),
        },
    }
}

/// States, folded one after the other.
pub open spec fn folds(states: Seq<(DeviceId, CapabilityState)>) -> Seq<Call> {
    states.map_values(|s: (DeviceId, CapabilityState)| Call::Fold { device: s.0, state: s.1 })
}

/// The calls on a party that a trace stands for.
pub open spec fn calls_on(who: Party, trace: Seq<Notice>) -> Seq<Call>
    decreases trace.len(),
{
    if trace.len() == 0 {
        Seq::empty()
    } else {
        calls_on(who, trace.drop_last()) + calls_in(trace.last(), who)
    }
}

/// What the adapters, the northbound adapters and the observers themselves have heard.
pub struct Logs {
    pub adapters: Seq<Option<Seq<Call>>>,
    /// Those of the adapters that are clocks, as they stand.
    pub clocks: Seq<Option<ClockV>>,
    pub northbound: Seq<Option<Seq<Call>>>,
    pub observers: Seq<Option<Seq<Notice>>>,
}

/// Everyone outside has heard exactly what the trace says, since they were added.
pub open spec fn in_step(w: Wiring, logs: Logs, trace: Seq<Notice>) -> bool {
    &&& adapters_in_step(w.places, logs.adapters, trace)
    &&& clocks_in_step(w.places, logs.clocks, trace)
    &&& northbound_in_step(w.mirrors, logs.northbound, trace)
    &&& observers_in_step(w.joined, w.briefed, logs.observers, trace)
}

pub open spec fn adapters_in_step(
    places: Seq<Place>,
    heard: Seq<Option<Seq<Call>>>,
    trace: Seq<Notice>,
) -> bool {
    &&& heard.len() == places.len()
    &&& forall|i: int| 0 <= i < places.len() ==> (#[trigger] places[i]).joined <= trace.len()
    &&& forall|i: int|
        0 <= i < heard.len() ==> #[trigger] heard[i] == noted_all(
            places[i].before,
            calls_on(Party::Adapter((i + 1) as nat), trace.skip(places[i].joined as int)),
        )
}

/// An adapter's clock after a trace, from what it was before.
pub open spec fn clock_after(start: Option<ClockV>, i: int, trace: Seq<Notice>) -> Option<ClockV>
    decreases trace.len(),
{
    if trace.len() == 0 {
        start
    } else {
        match trace.last() {
            Notice::Ticked { clocks, .. } => clocks[i],
            _ => clock_after(start, i, trace.drop_last()),
        }
    }
}

/// The clock that an adapter now is, if it is one.
pub open spec fn clock_of_place(places: Seq<Place>, i: int, trace: Seq<Notice>) -> Option<ClockV> {
    clock_after(places[i].clock, i, trace.skip(places[i].joined as int))
}

pub open spec fn clocks_in_step(
    places: Seq<Place>,
    clocks: Seq<Option<ClockV>>,
    trace: Seq<Notice>,
) -> bool {
    &&& clocks.len() == places.len()
    &&& forall|i: int|
        0 <= i < clocks.len() ==> #[trigger] clocks[i] == clock_of_place(places, i, trace)
}

pub open spec fn northbound_in_step(
    mirrors: Seq<Mirror>,
    heard: Seq<Option<Seq<Call>>>,
    trace: Seq<Notice>,
) -> bool {
    &&& heard.len() == mirrors.len()
    &&& forall|i: int| 0 <= i < mirrors.len() ==> (#[trigger] mirrors[i]).joined <= trace.len()
    &&& forall|i: int|
        0 <= i < heard.len() ==> #[trigger] heard[i] == noted_all(
            mirrors[i].before,
            calls_on(Party::Northbound(i as nat), trace.skip(mirrors[i].joined as int)),
        )
}

pub open spec fn observers_in_step(
    joined: Seq<nat>,
    briefed: Seq<Option<Seq<Notice>>>,
    heard: Seq<Option<Seq<Notice>>>,
    trace: Seq<Notice>,
) -> bool {
    &&& heard.len() == joined.len()
    &&& briefed.len() == joined.len()
    &&& forall|i: int| 0 <= i < joined.len() ==> #[trigger] joined[i] <= trace.len()
    &&& forall|i: int|
        0 <= i < heard.len() ==> #[trigger] heard[i] == noted_all(
            briefed[i],
            announced(trace.skip(joined[i] as int)),
        )
}

/// Events paired with one causal depth.
pub open spec fn at_depth(evs: Seq<EventV>, depth: u32) -> Seq<(EventV, u32)> {
    evs.map_values(|e: EventV| (e, depth))
}

pub open spec fn enqueued(c: Core, evs: Seq<EventV>, depth: u32) -> Core {
    Core { queue: c.queue + at_depth(evs, depth), ..c }
}

pub open spec fn retry_prefix() -> Seq<char> {
    "__retry:"@
}

pub open spec fn for_prefix() -> Seq<char> {
    "__for:"@
}

pub open spec fn next_count(n: u64) -> u64 {
    if n == u64::MAX {
        0
    } else {
        (n + 1) as u64
    }
}

/// A presence report is a state report of the device's occupancy.
pub open spec fn as_report(ev: EventV) -> EventV {
    match ev {
        EventV::OccupancyChanged { device, occupied } => EventV::StateReported {
            device,
            state: CapabilityState::Occupancy(occupied),
        },
        _ => ev,
    }
}

/// A level inside `0..=100`.
pub open spec fn clamped(level: int) -> u8 {
    if level < 0 {
        0
    } else if level > 100 {
        100
    } else {
        level as u8
    }
}

/// A command that depends on the current state, made explicit where that state is
/// known.
pub open spec fn explicit(known: Known, cmd: CommandV) -> CommandV {
    match cmd {
        CommandV::ToggleSwitch { device } => match known_bool(
            known,
            device,
            CapabilityKind::Switch,
        ) {
            Some(on) => CommandV::SetSwitch { device, on: !on },
            None => cmd,
        },
        CommandV::DecreaseBrightness { device, value } => match known_int(
            known,
            device,
            CapabilityKind::Brightness,
        ) {
            Some(level) => CommandV::SetBrightness {
                device,
                value: clamped(level - value),
                transition: None,
            },
            None => cmd,
        },
        CommandV::IncreaseBrightness { device, value } => match known_int(
            known,
            device,
            CapabilityKind::Brightness,
        ) {
            Some(level) => CommandV::SetBrightness {
                device,
                value: clamped(level + value),
                transition: None,
            },
            None => cmd,
        },
        _ => cmd,
    }
}

/// The command that achieves what a consumer asks for. States that are reports
/// only have none.
pub open spec fn requested_command(device: DeviceId, desired: DesiredV) -> Option<CommandV> {
    match desired {
        DesiredV::State(CapabilityState::Switch(on)) => Some(CommandV::SetSwitch { device, on }),
        DesiredV::State(CapabilityState::Brightness(value)) => Some(
            CommandV::SetBrightness { device, value, transition: None },
        ),
        DesiredV::State(CapabilityState::Color { r, g, b }) => Some(
            CommandV::SetColor { device, r, g, b, transition: None },
        ),
        DesiredV::State(CapabilityState::ColorTemperature(mireds)) => Some(
            CommandV::SetColorTemperature { device, mireds, transition: None },
        ),
        DesiredV::State(_) => None,
        DesiredV::Toggle => Some(CommandV::ToggleSwitch { device }),
        DesiredV::AdjustBrightness(delta) => if delta < 0 {
            Some(CommandV::DecreaseBrightness { device, value: (-delta) as u8 })
        } else {
            Some(CommandV::IncreaseBrightness { device, value: delta as u8 })
        },
        DesiredV::SendIr(code) => Some(CommandV::SendIrCode { device, code }),
    }
}

pub open spec fn power_of_two(n: nat) -> nat
    decreases n,
{
    if n == 0 {
        1
    } else {
        2 * power_of_two((n - 1) as nat)
    }
}

/// How long to wait after an attempt has failed: the base delay, doubled with each
/// attempt after the first, at most fifteen times.
pub open spec fn backoff_after(retry: RetryPolicy, failed_attempt: u32) -> Millis {
    let doublings: nat = if failed_attempt > 16 {
        15
    } else if failed_attempt == 0 {
        0
    } else {
        (failed_attempt - 1) as nat
    };
    let delay = retry.base_backoff * power_of_two(doublings);
    if delay > u64::MAX {
        u64::MAX
    } else {
        delay as u64
    }
}

/// The first rule with an id.
pub open spec fn find_rule(rules: Seq<Rule>, id: RuleId) -> Option<Rule>
    decreases rules.len(),
{
    if rules.len() == 0 {
        None
    } else if rules[0].id == id {
        Some(rules[0])
    } else {
        find_rule(rules.drop_first(), id)
    }
}

/// The timer on which a rule waits.
pub open spec fn timer_of(waiting: Seq<(RuleId, Seq<char>)>, rule: RuleId) -> Option<Seq<char>>
    decreases waiting.len(),
{
    if waiting.len() == 0 {
        None
    } else if waiting[0].0 == rule {
        Some(waiting[0].1)
    } else {
        timer_of(waiting.drop_first(), rule)
    }
}

/// The rule that waits on a timer.
pub open spec fn rule_of_timer(waiting: Seq<(RuleId, Seq<char>)>, key: Seq<char>) -> Option<RuleId>
    decreases waiting.len(),
{
    if waiting.len() == 0 {
        None
    } else if waiting[0].1 == key {
        Some(waiting[0].0)
    } else {
        rule_of_timer(waiting.drop_first(), key)
    }
}

/// Everyone who waits but for one rule.
pub open spec fn without(waiting: Seq<(RuleId, Seq<char>)>, rule: RuleId) -> Seq<
    (RuleId, Seq<char>),
> {
    waiting.filter(other_than(rule))
}

/// Whoever is not this rule.
pub open spec fn other_than(rule: RuleId) -> spec_fn((RuleId, Seq<char>)) -> bool {
    |e: (RuleId, Seq<char>)| e.0 != rule
}

// ------------------------------------------------------------ `for` timers

/// A rule starts to wait out its duration, anew if it waited already.
pub open spec fn armed(c: Core, rule: RuleId, after: Millis, now: Millis) -> Core {
    let count = next_count(c.for_counter);
    let key = for_prefix() + decimal(count as nat);
    let cancelled = match timer_of(c.waiting, rule) {
        Some(prev) => c.timers.remove(prev),
        None => c.timers,
    };
    Core {
        timers: cancelled.insert(key, deadline(now, after)),
        waiting: without(c.waiting, rule).push((rule, key)),
        for_counter: count,
        ..c
    }
}

pub open spec fn armed_all(c: Core, arms: Seq<(RuleId, Millis)>, now: Millis) -> Core
    decreases arms.len(),
{
    if arms.len() == 0 {
        c
    } else {
        let before = armed_all(c, arms.drop_last(), now);
        armed(before, arms.last().0, arms.last().1, now)
    }
}

/// Whether a waiting rule's predicate still holds.
pub open spec fn still_holds(rules: Seq<Rule>, known: Known, rule: RuleId) -> bool {
    match find_rule(rules, rule) {
        Some(r) => r.trigger.sustained(known),
        None => false,
    }
}

/// Rules whose predicate no longer holds stop waiting, and their timers are
/// cancelled.
pub open spec fn reverted(w: Wiring, c: Core) -> Core {
    Core {
        waiting: c.waiting.filter(|e: (RuleId, Seq<char>)| still_holds(w.rules, c.known, e.0)),
        timers: c.timers.remove_keys(reverted_keys(w, c)),
        ..c
    }
}

/// The timers of the rules whose predicate no longer holds.
pub open spec fn reverted_keys(w: Wiring, c: Core) -> Set<Seq<char>> {
    Set::new(
        |k: Seq<char>|
            exists|i: int|
                0 <= i < c.waiting.len() && (#[trigger] c.waiting[i]).1 == k && !still_holds(
                    w.rules,
                    c.known,
                    c.waiting[i].0,
                ),
    )
}

// ------------------------------------------------------------ dispatch

/// A command has failed for good: observers hear of it, and the bus.
pub open spec fn gave_up(
    c: Core,
    cmd: CommandV,
    reason: Seq<char>,
    attempts: u32,
    depth: u32,
) -> Core {
    enqueued(
        told(c, Notice::CommandFailed { command: cmd, reason, attempts }),
        seq![EventV::CommandFailed { command: cmd, reason, attempts }],
        (depth + 1) as u32,
    )
}

/// A command will be dispatched again after the backoff.
pub open spec fn retry_set(w: Wiring, c: Core, cmd: CommandV, failed_attempt: u32) -> Core {
    let count = next_count(c.retry_counter);
    let key = retry_prefix() + decimal(count as nat);
    let delay = backoff_after(w.retry, failed_attempt);
    let next_attempt = (failed_attempt + 1) as u32;
    Core {
        retries: c.retries.insert(key, (cmd, next_attempt)),
        retry_counter: count,
        timers: c.timers.insert(key, deadline(w.now, delay)),
        ..told(c, Notice::RetryScheduled { command: cmd, next_attempt, delay })
    }
}

/// What becomes of an answer.
pub open spec fn settled_answer(
    w: Wiring,
    c: Core,
    out: OutcomeV,
    cmd: CommandV,
    attempt: u32,
    depth: u32,
) -> Core {
    match out {
        OutcomeV::Done(evs) => enqueued(c, evs, (depth + 1) as u32),
        OutcomeV::Transient(reason) => {
            let heard = told(
                c,
                Notice::DispatchFailed { command: cmd, reason, transient: true, attempt },
            );
            if attempt < w.retry.max_attempts {
                retry_set(w, heard, cmd, attempt)
            } else {
                gave_up(heard, cmd, reason, attempt, depth)
            }
        },
        OutcomeV::Permanent(reason) => gave_up(
            told(c, Notice::DispatchFailed { command: cmd, reason, transient: false, attempt }),
            cmd,
            reason,
            attempt,
            depth,
        ),
    }
}

/// Where a device command goes: the adapter its device is bound to.
pub open spec fn route(w: Wiring, cmd: CommandV) -> Option<AdapterIdx> {
    match cmd.target() {
        Some(device) => if w.bound.contains_key(device) {
            Some(w.bound[device])
        } else {
            None
        },
        None => None,
    }
}

/// Whether the adapter at an index can give this answer. The scheduler has nothing to
/// say to a device command.
pub open spec fn can_answer(w: Wiring, idx: AdapterIdx, cmd: CommandV, out: OutcomeV) -> bool {
    if idx == 0 {
        out == OutcomeV::Done(Seq::empty())
    } else {
        (w.places[idx - 1].manner)(Call::Dispatch { command: cmd, now: w.now, outcome: out })
    }
}

/// One device command is handed to its adapter, which gives some answer. A command
/// without an adapter fails for good.
pub open spec fn handed_over(
    w: Wiring,
    c: Core,
    cmd: CommandV,
    attempt: u32,
    depth: u32,
    out: OutcomeV,
    post: Core,
) -> bool {
    match route(w, cmd) {
        Some(idx) => {
            &&& is_reply(out)
            &&& can_answer(w, idx, cmd, out)
            &&& post == settled_answer(
                w,
                told(
                    c,
                    Notice::Answered { adapter: idx, command: cmd, now: w.now, outcome: out },
                ),
                out,
                cmd,
                attempt,
                depth,
            )
        },
        None => post == settled_answer(
            w,
            c,
            OutcomeV::Permanent("no adapter bound for target device"@),
            cmd,
            attempt,
            depth,
        ),
    }
}

/// One command is dispatched, scenes nested at most `fuel` deep. A scene that is not
/// there, or whose expansion would never end, expands to nothing.
pub open spec fn dispatched(
    w: Wiring,
    fuel: nat,
    pre: Core,
    cmd: CommandV,
    attempt: u32,
    depth: u32,
    post: Core,
) -> bool
    decreases fuel, 0int,
{
    let cmd = explicit(pre.known, cmd);
    let c = told(pre, Notice::CommandDispatched { command: cmd, depth });
    match cmd {
        CommandV::ActivateScene { scene } => if expands(w.scenes, scene) {
            &&& fuel > 0
            &&& dispatched_all(
                w,
                (fuel - 1) as nat,
                told(c, Notice::SceneExpanded { scene, count: w.scenes[scene].len() }),
                w.scenes[scene],
                depth,
                post,
            )
        } else {
            post == c
        },
        CommandV::ScheduleTimer { key, after } => post == (Core {
            timers: c.timers.insert(key, deadline(w.now, after)),
            ..c
        }),
        CommandV::CancelTimer { key } => post == (Core { timers: c.timers.remove(key), ..c }),
        _ => exists|out: OutcomeV| #[trigger] handed_over(w, c, cmd, attempt, depth, out, post),
    }
}

/// Names a state that the loop passes through.
pub open spec fn between(c: Core) -> bool {
    true
}

/// Several commands are dispatched, one after the other.
pub open spec fn dispatched_all(
    w: Wiring,
    fuel: nat,
    pre: Core,
    cmds: Seq<CommandV>,
    depth: u32,
    post: Core,
) -> bool
    decreases fuel, cmds.len() + 1,
{
    if cmds.len() == 0 {
        post == pre
    } else {
        exists|mid: Core| #[trigger]
            between(mid) && dispatched_all(w, fuel, pre, cmds.drop_last(), depth, mid)
                && dispatched(w, fuel, mid, cmds.last(), 1, depth, post)
    }
}

// ------------------------------------------------------------ one turn

/// What the rules make of an event: who is told, who starts to wait, and which
/// commands come of it.
pub struct Verdict {
    pub notices: Seq<Notice>,
    pub arms: Seq<(RuleId, Millis)>,
    pub commands: Seq<CommandV>,
}

/// The verdict of the first `n` rules.
pub open spec fn considered(
    rules: Seq<Rule>,
    n: nat,
    ev: EventV,
    prior: Option<CapabilityState>,
    known: Known,
) -> Verdict
    decreases n,
{
    if n == 0 || n > rules.len() {
        Verdict { notices: Seq::empty(), arms: Seq::empty(), commands: Seq::empty() }
    } else {
        let v = considered(rules, (n - 1) as nat, ev, prior, known);
        let rule = rules[n - 1];
        if !rule.trigger.fires(ev, prior) {
            v
        } else {
            let truth = rule.condition.truth(known);
            let fired = truth == Truth::True;
            Verdict {
                notices: v.notices.push(Notice::RuleConsidered { rule: rule.id, truth, fired }),
                arms: if fired && rule.for_duration is Some {
                    v.arms.push((rule.id, rule.for_duration->0))
                } else {
                    v.arms
                },
                commands: if fired && rule.for_duration is None {
                    v.commands + command_views(rule.commands@)
                } else {
                    v.commands
                },
            }
        }
    }
}

/// What was known of the capability that an event reports.
pub open spec fn prior_of(known: Known, ev: EventV) -> Option<CapabilityState> {
    match ev {
        EventV::StateReported { device, state } => known_state(known, device, state.spec_kind()),
        _ => None,
    }
}

/// A state report is folded into what is known, and the rules that it makes stop
/// waiting do. Any other event folds nothing.
pub open spec fn folded(w: Wiring, c: Core, ev: EventV) -> Core {
    match ev {
        EventV::StateReported { device, state } => reverted(
            w,
            Core {
                known: reported(c.known, device, state),
                ..told(c, Notice::StateFolded { device, state })
            },
        ),
        _ => c,
    }
}

/// An ordinary event is folded and run past the rules.
pub open spec fn ruled(w: Wiring, fuel: nat, c: Core, ev: EventV, depth: u32, post: Core) -> bool {
    let prior = prior_of(c.known, ev);
    let c1 = folded(w, c, ev);
    let v = considered(w.rules, w.rules.len(), ev, prior, c1.known);
    let c2 = armed_all(told_all(c1, v.notices), v.arms, w.now);
    dispatched_all(w, fuel, c2, v.commands, depth, post)
}

/// A rule has waited out its duration: if its predicate still holds, it fires.
pub open spec fn waited_out(w: Wiring, fuel: nat, c: Core, key: Seq<char>, post: Core) -> bool {
    match rule_of_timer(c.waiting, key) {
        None => post == c,
        Some(id) => {
            let c1 = Core { waiting: without(c.waiting, id), ..c };
            match find_rule(w.rules, id) {
                None => post == c1,
                Some(rule) => if rule.trigger.sustained(c1.known) {
                    dispatched_all(w, fuel, c1, command_views(rule.commands@), 0, post)
                } else {
                    post == c1
                },
            }
        },
    }
}

/// The event at the front of the queue is processed.
pub open spec fn stepped(w: Wiring, fuel: nat, pre: Core, post: Core) -> bool {
    let raw = pre.queue[0].0;
    let depth = pre.queue[0].1;
    let rest = Core { queue: pre.queue.drop_first(), ..pre };
    let ev = as_report(raw);
    let c = told(rest, Notice::EventReceived { event: raw, depth });
    &&& pre.queue.len() > 0
    &&& if depth > w.max_depth {
        post == told(rest, Notice::CascadeDropped { event: raw, depth })
    } else {
        match ev {
            EventV::TimerElapsed { key } => if c.retries.contains_key(key) {
                dispatched(
                    w,
                    fuel,
                    Core { retries: c.retries.remove(key), ..c },
                    c.retries[key].0,
                    c.retries[key].1,
                    0,
                    post,
                )
            } else if has_prefix(key, for_prefix()) {
                waited_out(w, fuel, c, key, post)
            } else {
                ruled(w, fuel, c, ev, depth, post)
            },
            EventV::RequestedChange { device, desired } => match requested_command(
                device,
                desired,
            ) {
                Some(cmd) => dispatched(w, fuel, c, cmd, 1, depth, post),
                None => post == c,
            },
            EventV::RequestedScene { scene } => dispatched(
                w,
                fuel,
                c,
                CommandV::ActivateScene { scene },
                1,
                depth,
                post,
            ),
            _ => ruled(w, fuel, c, ev, depth, post),
        }
    }
}

/// The loop runs for `n` turns.
pub open spec fn ran(w: Wiring, n: nat, pre: Core, post: Core) -> bool
    decreases n,
{
    if n == 0 {
        post == pre
    } else {
        exists|mid: Core, fuel: nat|
            ran(w, (n - 1) as nat, pre, mid) && #[trigger] stepped(w, fuel, mid, post)
    }
}

/// The loop runs to quiescence: until no event is left.
pub open spec fn ran_dry(w: Wiring, pre: Core, post: Core) -> bool {
    post.queue.len() == 0 && exists|n: nat| #[trigger] ran(w, n, pre, post)
}

/// Every adapter was ticked: the due timers fire first, in their order, and whatever
/// the adapters and then the northbound adapters produce follows, all of it at depth 0.
pub open spec fn ticked(w: Wiring, pre: Core, post: Core) -> bool {
    exists|
        keys: Seq<Seq<char>>,
        south: Seq<Seq<EventV>>,
        clocks: Seq<Option<ClockV>>,
        north: Seq<Seq<EventV>>,
    |
        is_due_list(pre.timers, w.now, keys) && can_tick(w, pre.trace, south, clocks)
            && north.len() == w.northbound && post == #[trigger] after_tick(
            w,
            pre,
            keys,
            south,
            clocks,
            north,
        )
}

/// Whether the adapters can each produce these events on a tick, and those of them that
/// are clocks be left like this.
pub open spec fn can_tick(
    w: Wiring,
    trace: Seq<Notice>,
    south: Seq<Seq<EventV>>,
    clocks: Seq<Option<ClockV>>,
) -> bool {
    &&& south.len() == w.places.len()
    &&& clocks.len() == w.places.len()
    &&& forall|i: int|
        0 <= i < south.len() ==> (w.places[i].manner)(
            Call::Tick { now: w.now, events: #[trigger] south[i] },
        )
    &&& forall|i: int|
        0 <= i < clocks.len() ==> clock_moved(
            clock_of_place(w.places, i, trace),
            w.now,
            #[trigger] clocks[i],
            south[i],
        )
}

/// Some lists, one behind the other.
pub open spec fn chained(parts: Seq<Seq<EventV>>) -> Seq<EventV>
    decreases parts.len(),
{
    if parts.len() == 0 {
        Seq::empty()
    } else {
        chained(parts.drop_last()) + parts.last()
    }
}

pub open spec fn after_tick(
    w: Wiring,
    pre: Core,
    keys: Seq<Seq<char>>,
    south: Seq<Seq<EventV>>,
    clocks: Seq<Option<ClockV>>,
    north: Seq<Seq<EventV>>,
) -> Core {
    enqueued(
        told(
            Core { timers: timers_left(pre.timers, w.now), ..pre },
            Notice::Ticked {
                now: w.now,
                timers: elapsed(keys),
                adapters: south,
                clocks,
                northbound: north,
            },
        ),
        elapsed(keys) + chained(south) + chained(north),
        0,
    )
}

/// The northbound adapters are handed everything that is known, if there are any.
pub open spec fn synced(w: Wiring, pre: Core, post: Core) -> bool {
    if w.northbound == 0 {
        post == pre
    } else {
        exists|states: Seq<(DeviceId, CapabilityState)>| #[trigger]
            lists_known(states, pre.known) && post == told(pre, Notice::Synced { states })
    }
}

// ------------------------------------------------------------ invariants

/// Whether the expansion of a scene ends within so many levels of scenes that activate
/// scenes.
pub open spec fn ends_in(scenes: Map<SceneId, Seq<CommandV>>, scene: SceneId, levels: nat) -> bool
    decreases levels, 0int,
{
    levels > 0 && forall|i: int|
        0 <= i < scenes[scene].len() ==> member_ends_in(
            scenes,
            #[trigger] scenes[scene][i],
            (levels - 1) as nat,
        )
}

/// The same of one command: only a scene that is there is expanded.
pub open spec fn member_ends_in(
    scenes: Map<SceneId, Seq<CommandV>>,
    cmd: CommandV,
    levels: nat,
) -> bool
    decreases levels, 1int,
{
    match cmd {
        CommandV::ActivateScene { scene } => scenes.contains_key(scene) ==> ends_in(
            scenes,
            scene,
            levels,
        ),
        _ => true,
    }
}

/// Whether the expansion of a scene ends: it does not activate itself, directly or
/// through others.
pub open spec fn ends(scenes: Map<SceneId, Seq<CommandV>>, scene: SceneId) -> bool {
    exists|levels: nat| #[trigger] ends_in(scenes, scene, levels)
}

/// Whether a scene is expanded when it is activated: it is there, and its expansion ends.
pub open spec fn expands(scenes: Map<SceneId, Seq<CommandV>>, scene: SceneId) -> bool {
    scenes.contains_key(scene) && ends(scenes, scene)
}

/// No scene activates itself, directly or through others.
pub open spec fn scenes_end(w: Wiring) -> bool {
    forall|s: SceneId| #[trigger] w.scenes.contains_key(s) ==> ends(w.scenes, s)
}

/// Whether so many levels are enough to expand whatever a command activates.
pub open spec fn covers(scenes: Map<SceneId, Seq<CommandV>>, cmd: CommandV, levels: nat) -> bool {
    match cmd {
        CommandV::ActivateScene { scene } => expands(scenes, scene) ==> ends_in(
            scenes,
            scene,
            levels,
        ),
        _ => true,
    }
}

pub proof fn lemma_more_levels(
    scenes: Map<SceneId, Seq<CommandV>>,
    scene: SceneId,
    few: nat,
    many: nat,
)
    requires
        ends_in(scenes, scene, few),
        few <= many,
    ensures
        ends_in(scenes, scene, many),
    decreases few,
{
    assert forall|i: int| 0 <= i < scenes[scene].len() implies member_ends_in(
        scenes,
        #[trigger] scenes[scene][i],
        (many - 1) as nat,
    ) by {
        assert(member_ends_in(scenes, scenes[scene][i], (few - 1) as nat));
        match scenes[scene][i] {
            CommandV::ActivateScene { scene: inner } => {
                if scenes.contains_key(inner) {
                    lemma_more_levels(scenes, inner, (few - 1) as nat, (many - 1) as nat);
                }
            },
            _ => {},
        }
    }
}

pub open spec fn wiring_ok(w: Wiring) -> bool {
    &&& w.max_depth < u32::MAX
    &&& w.adapters == w.places.len() + 1
    &&& w.northbound == w.mirrors.len()
    &&& forall|d: DeviceId| #[trigger] w.bound.contains_key(d) ==> w.bound[d] < w.adapters
}

/// Events wait in order of causal depth, no two of them more than one apart, and
/// timer events only at depth 0.
pub open spec fn queue_ok(w: Wiring, q: Seq<(EventV, u32)>) -> bool {
    &&& forall|i: int| 0 <= i < q.len() ==> (#[trigger] q[i]).1 <= w.max_depth + 1
    &&& forall|i: int|
        0 <= i < q.len() ==> q[0].1 <= (#[trigger] q[i]).1 && q[i].1 <= q[0].1 + 1
    &&& forall|i: int, j: int| 0 <= i < j < q.len() ==> (#[trigger] q[i]).1 <= (#[trigger] q[j]).1
    &&& forall|i: int| 0 <= i < q.len() && (#[trigger] q[i]).1 > 0 ==> !is_timer_event(q[i].0)
}

pub open spec fn core_ok(w: Wiring, c: Core) -> bool {
    &&& queue_ok(w, c.queue)
    &&& retries_ok(w, c.retries)
    &&& one_timer_each(c.waiting)
    &&& kinds_agree(c.known)
}

/// What waits to be retried is a device command, with attempts left.
pub open spec fn retries_ok(w: Wiring, retries: Map<Seq<char>, (CommandV, u32)>) -> bool {
    forall|k: Seq<char>| #[trigger]
        retries.contains_key(k) ==> retries[k].0.target() is Some
}

/// No rule waits on two timers.
pub open spec fn one_timer_each(waiting: Seq<(RuleId, Seq<char>)>) -> bool {
    forall|i: int, j: int|
        0 <= i < j < waiting.len() ==> (#[trigger] waiting[i]).0 != (#[trigger] waiting[j]).0
}

/// `b` is `a` with events of one depth added, none of them a timer event.
pub open spec fn grown(a: Seq<(EventV, u32)>, b: Seq<(EventV, u32)>, depth: int) -> bool {
    &&& a.len() <= b.len()
    &&& forall|i: int| 0 <= i < a.len() ==> #[trigger] b[i] == a[i]
    &&& forall|i: int|
        a.len() <= i < b.len() ==> (#[trigger] b[i]).1 == depth && !is_timer_event(b[i].0)
}

/// A trace goes on from another, and nobody was ticked meanwhile.
pub open spec fn goes_on(a: Seq<Notice>, b: Seq<Notice>) -> bool {
    &&& a.is_prefix_of(b)
    &&& forall|k: int| a.len() <= k < b.len() ==> !((#[trigger] b[k]) is Ticked)
}

pub proof fn lemma_goes_on(a: Seq<Notice>, b: Seq<Notice>, c: Seq<Notice>)
    requires
        goes_on(a, b),
        goes_on(b, c),
    ensures
        goes_on(a, c),
{
    assert(a =~= c.subrange(0, a.len() as int));
    assert forall|k: int| a.len() <= k < c.len() implies !((#[trigger] c[k]) is Ticked) by {
        if k < b.len() {
            assert(c.subrange(0, b.len() as int)[k] == c[k]);
            assert(b[k] == c[k]);
        }
    }
}

/// Whether a notice is one that dispatching a command leaves.
pub open spec fn is_dispatching(n: Notice) -> bool {
    n is CommandDispatched || n is SceneExpanded || n is Answered || n is DispatchFailed
        || n is RetryScheduled || n is CommandFailed
}

/// A trace goes on from another, by nothing but the dispatch of commands.
pub open spec fn dispatching(a: Seq<Notice>, b: Seq<Notice>) -> bool {
    &&& a.is_prefix_of(b)
    &&& forall|k: int| a.len() <= k < b.len() ==> is_dispatching(#[trigger] b[k])
}

pub proof fn lemma_dispatching(a: Seq<Notice>, b: Seq<Notice>, c: Seq<Notice>)
    requires
        dispatching(a, b),
        dispatching(b, c),
    ensures
        dispatching(a, c),
{
    assert(a =~= c.subrange(0, a.len() as int));
    assert forall|k: int| a.len() <= k < c.len() implies is_dispatching(#[trigger] c[k]) by {
        if k < b.len() {
            assert(c.subrange(0, b.len() as int)[k] == c[k]);
            assert(b[k] == c[k]);
        }
    }
}

/// What a dispatch leaves alone, and how it adds to the queue: it folds nothing
/// into what is known, lets every waiting rule wait, and puts new events one causal
/// hop deeper.
pub proof fn dispatch_frame(
    w: Wiring,
    fuel: nat,
    pre: Core,
    cmd: CommandV,
    attempt: u32,
    depth: u32,
    post: Core,
)
    requires
        dispatched(w, fuel, pre, cmd, attempt, depth, post),
        depth < u32::MAX,
        retries_ok(w, pre.retries),
    ensures
        post.known == pre.known,
        post.waiting == pre.waiting,
        post.for_counter == pre.for_counter,
        grown(pre.queue, post.queue, depth + 1),
        retries_ok(w, post.retries),
        dispatching(pre.trace, post.trace),
    decreases fuel, 0int,
{
    let ex = explicit(pre.known, cmd);
    let c = told(pre, Notice::CommandDispatched { command: ex, depth });
    assert(dispatching(pre.trace, c.trace));
    match ex {
        CommandV::ActivateScene { scene } => {
            if expands(w.scenes, scene) {
                let c1 = told(c, Notice::SceneExpanded { scene, count: w.scenes[scene].len() });
                assert(dispatching(c.trace, c1.trace));
                lemma_dispatching(pre.trace, c.trace, c1.trace);
                dispatch_all_frame(w, (fuel - 1) as nat, c1, w.scenes[scene], depth, post);
                lemma_dispatching(pre.trace, c1.trace, post.trace);
            }
        },
        CommandV::ScheduleTimer { .. } => {},
        CommandV::CancelTimer { .. } => {},
        _ => {
            let out = choose|out: OutcomeV| #[trigger]
                handed_over(w, c, ex, attempt, depth, out, post);
            assert(ex.target() is Some);
            match route(w, ex) {
                Some(idx) => {
                    let c1 = told(
                        c,
                        Notice::Answered {
                            adapter: idx,
                            command: ex,
                            now: w.now,
                            outcome: out,
                        },
                    );
                    assert(dispatching(c.trace, c1.trace));
                    lemma_dispatching(pre.trace, c.trace, c1.trace);
                    answer_frame(w, c1, out, ex, attempt, depth);
                    lemma_dispatching(pre.trace, c1.trace, post.trace);
                },
                None => {
                    answer_frame(
                        w,
                        c,
                        OutcomeV::Permanent("no adapter bound for target device"@),
                        ex,
                        attempt,
                        depth,
                    );
                    lemma_dispatching(pre.trace, c.trace, post.trace);
                },
            }
        },
    }
}

proof fn answer_frame(
    w: Wiring,
    c: Core,
    out: OutcomeV,
    cmd: CommandV,
    attempt: u32,
    depth: u32,
)
    requires
        is_reply(out),
        depth < u32::MAX,
        cmd.target() is Some,
        retries_ok(w, c.retries),
    ensures
        ({
            let post = settled_answer(w, c, out, cmd, attempt, depth);
            &&& post.known == c.known
            &&& post.waiting == c.waiting
            &&& post.for_counter == c.for_counter
            &&& grown(c.queue, post.queue, depth + 1)
            &&& retries_ok(w, post.retries)
            &&& dispatching(c.trace, post.trace)
        }),
{
    let post = settled_answer(w, c, out, cmd, attempt, depth);
    match out {
        OutcomeV::Done(evs) => {
            assert forall|i: int| c.queue.len() <= i < post.queue.len() implies (
            #[trigger] post.queue[i]).1 == depth + 1 && !is_timer_event(post.queue[i].0) by {
                assert(post.queue[i] == at_depth(evs, (depth + 1) as u32)[i - c.queue.len()]);
                assert(!is_timer_event(evs[i - c.queue.len()]));
            }
        },
        _ => {},
    }
}

/// [`dispatch_frame`] of several commands.
pub proof fn dispatch_all_frame(
    w: Wiring,
    fuel: nat,
    pre: Core,
    cmds: Seq<CommandV>,
    depth: u32,
    post: Core,
)
    requires
        dispatched_all(w, fuel, pre, cmds, depth, post),
        depth < u32::MAX,
        retries_ok(w, pre.retries),
    ensures
        post.known == pre.known,
        post.waiting == pre.waiting,
        post.for_counter == pre.for_counter,
        grown(pre.queue, post.queue, depth + 1),
        retries_ok(w, post.retries),
        dispatching(pre.trace, post.trace),
    decreases fuel, cmds.len() + 1,
{
    if cmds.len() > 0 {
        let mid = choose|mid: Core| #[trigger]
            between(mid) && dispatched_all(w, fuel, pre, cmds.drop_last(), depth, mid)
                && dispatched(w, fuel, mid, cmds.last(), 1, depth, post);
        dispatch_all_frame(w, fuel, pre, cmds.drop_last(), depth, mid);
        dispatch_frame(w, fuel, mid, cmds.last(), 1, depth, post);
        lemma_dispatching(pre.trace, mid.trace, post.trace);
    }
}

// ------------------------------------------------------------ every run ends

/// How many of the events have a depth.
pub open spec fn count_at(q: Seq<(EventV, u32)>, depth: u32) -> nat
    decreases q.len(),
{
    if q.len() == 0 {
        0
    } else {
        (if q[0].1 == depth {
            1nat
        } else {
            0nat
        }) + count_at(q.drop_first(), depth)
    }
}

/// How many depths the front of the queue is from the end of any cascade.
pub open spec fn hops_left(w: Wiring, q: Seq<(EventV, u32)>) -> int {
    if q.len() == 0 {
        0
    } else {
        w.max_depth + 2 - q[0].1
    }
}

/// How many events share the front's depth.
pub open spec fn in_front(q: Seq<(EventV, u32)>) -> nat {
    if q.len() == 0 {
        0
    } else {
        count_at(q, q[0].1)
    }
}

proof fn lemma_count_grown(a: Seq<(EventV, u32)>, b: Seq<(EventV, u32)>, grown_at: int, depth: u32)
    requires
        grown(a, b, grown_at),
        depth != grown_at,
    ensures
        count_at(b, depth) == count_at(a, depth),
    decreases b.len(),
{
    if a.len() > 0 {
        assert(b[0] == a[0]);
        assert(grown(a.drop_first(), b.drop_first(), grown_at)) by {
            let a1 = a.drop_first();
            let b1 = b.drop_first();
            assert forall|i: int| 0 <= i < a1.len() implies #[trigger] b1[i] == a1[i] by {
                assert(b[i + 1] == a[i + 1]);
            }
            assert forall|i: int| a1.len() <= i < b1.len() implies (#[trigger] b1[i]).1 == grown_at
                && !is_timer_event(b1[i].0) by {
                assert(b[i + 1].1 == grown_at);
            }
        }
        lemma_count_grown(a.drop_first(), b.drop_first(), grown_at, depth);
    } else if b.len() > 0 {
        assert(b[0].1 == grown_at);
        let b1 = b.drop_first();
        assert forall|i: int| a.len() <= i < b1.len() implies (#[trigger] b1[i]).1 == grown_at
            && !is_timer_event(b1[i].0) by {
            assert(b[i + 1].1 == grown_at);
        }
        lemma_count_grown(a, b1, grown_at, depth);
    }
}

/// A turn of the loop keeps the queue in order and brings the run nearer its end:
/// either the front's depth has grown, or fewer events share it.
pub proof fn every_turn_nears_the_end(w: Wiring, q: Seq<(EventV, u32)>, after: Seq<(EventV, u32)>)
    requires
        w.max_depth < u32::MAX,
        queue_ok(w, q),
        q.len() > 0,
        grown(q.drop_first(), after, q[0].1 + 1),
        q[0].1 > w.max_depth ==> after == q.drop_first(),
    ensures
        queue_ok(w, after),
        hops_left(w, after) < hops_left(w, q) || hops_left(w, after) == hops_left(w, q) && in_front(
            after,
        ) < in_front(q),
        hops_left(w, after) >= 0,
{
    let d = q[0].1;
    let rest = q.drop_first();
    assert forall|i: int| 0 <= i < rest.len() implies #[trigger] rest[i] == q[i + 1] by {}
    assert forall|i: int| 0 <= i < after.len() implies d <= (#[trigger] after[i]).1 && after[i].1 <= d
        + 1 && after[i].1 <= w.max_depth + 1 by {
        if i < rest.len() {
            assert(after[i] == rest[i]);
        }
    }
    assert forall|i: int, j: int| 0 <= i < j < after.len() implies (#[trigger] after[i]).1 <= (
    #[trigger] after[j]).1 by {
        if j < rest.len() {
            assert(after[i] == rest[i] && after[j] == rest[j]);
        } else {
            assert(after[j].1 == d + 1);
        }
    }
    assert forall|i: int| 0 <= i < after.len() && (#[trigger] after[i]).1 > 0 implies !is_timer_event(
        after[i].0,
    ) by {
        if i < rest.len() {
            assert(after[i] == rest[i]);
        }
    }
    if after.len() > 0 && after[0].1 == d {
        lemma_count_grown(rest, after, d + 1, d);
    }
}

// ------------------------------------------------------------ bookkeeping

pub proof fn lemma_timer_of(waiting: Seq<(RuleId, Seq<char>)>, rule: RuleId, i: int)
    requires
        0 <= i <= waiting.len(),
        forall|j: int| 0 <= j < i ==> (#[trigger] waiting[j]).0 != rule,
        i < waiting.len() ==> waiting[i].0 == rule,
    ensures
        timer_of(waiting, rule) == if i < waiting.len() {
            Some(waiting[i].1)
        } else {
            None
        },
    decreases i,
{
    if i > 0 {
        let rest = waiting.drop_first();
        assert forall|j: int| 0 <= j < i - 1 implies (#[trigger] rest[j]).0 != rule by {
            assert(rest[j] == waiting[j + 1]);
        }
        lemma_timer_of(rest, rule, i - 1);
    }
}

pub proof fn lemma_rule_of_timer(waiting: Seq<(RuleId, Seq<char>)>, key: Seq<char>, i: int)
    requires
        0 <= i <= waiting.len(),
        forall|j: int| 0 <= j < i ==> (#[trigger] waiting[j]).1 != key,
        i < waiting.len() ==> waiting[i].1 == key,
    ensures
        rule_of_timer(waiting, key) == if i < waiting.len() {
            Some(waiting[i].0)
        } else {
            None
        },
    decreases i,
{
    if i > 0 {
        let rest = waiting.drop_first();
        assert forall|j: int| 0 <= j < i - 1 implies (#[trigger] rest[j]).1 != key by {
            assert(rest[j] == waiting[j + 1]);
        }
        lemma_rule_of_timer(rest, key, i - 1);
    }
}

/// Whoever does not wait is not missed, and whoever waits does so once.
pub proof fn lemma_without(waiting: Seq<(RuleId, Seq<char>)>, rule: RuleId, i: int)
    requires
        one_timer_each(waiting),
        0 <= i <= waiting.len(),
        i < waiting.len() ==> waiting[i].0 == rule,
        i == waiting.len() ==> forall|j: int|
            0 <= j < waiting.len() ==> (#[trigger] waiting[j]).0 != rule,
    ensures
        without(waiting, rule) == if i < waiting.len() {
            waiting.remove(i)
        } else {
            waiting
        },
{
    let keep = other_than(rule);
    if i < waiting.len() {
        let a = waiting.subrange(0, i);
        let b = waiting.subrange(i + 1, waiting.len() as int);
        let m = seq![waiting[i]];
        assert(waiting =~= a + m + b);
        assert forall|j: int| 0 <= j < a.len() implies keep(#[trigger] a[j]) by {
            assert(a[j] == waiting[j]);
        }
        assert forall|j: int| 0 <= j < b.len() implies keep(#[trigger] b[j]) by {
            assert(b[j] == waiting[i + 1 + j]);
        }
        lemma_filter_all(a, keep);
        lemma_filter_all(b, keep);
        Seq::filter_distributes_over_add(a + m, b, keep);
        Seq::filter_distributes_over_add(a, m, keep);
        reveal_with_fuel(Seq::filter, 2);
        assert(m.drop_last() =~= Seq::empty());
        assert(m.filter(keep) =~= Seq::empty());
        assert(waiting.remove(i) =~= a + b);
        assert(a + Seq::empty() + b =~= a + b);
    } else {
        lemma_filter_all(waiting, keep);
    }
}

/// Filtering keeps every rule to one timer.
pub proof fn lemma_filter_one_each(
    waiting: Seq<(RuleId, Seq<char>)>,
    keep: spec_fn((RuleId, Seq<char>)) -> bool,
)
    requires
        one_timer_each(waiting),
    ensures
        one_timer_each(waiting.filter(keep)),
        forall|i: int|
            0 <= i < waiting.filter(keep).len() ==> waiting.contains(
                #[trigger] waiting.filter(keep)[i],
            ),
    decreases waiting.len(),
{
    reveal(Seq::filter);
    if waiting.len() > 0 {
        let init = waiting.drop_last();
        assert forall|i: int, j: int| 0 <= i < j < init.len() implies (#[trigger] init[i]).0 != (
        #[trigger] init[j]).0 by {
            assert(init[i] == waiting[i] && init[j] == waiting[j]);
        }
        lemma_filter_one_each(init, keep);
        let f = waiting.filter(keep);
        let fi = init.filter(keep);
        assert forall|i: int| 0 <= i < fi.len() implies (#[trigger] fi[i]).0 != waiting.last().0
            && waiting.contains(fi[i]) by {
            let q = choose|q: int| 0 <= q < init.len() && init[q] == fi[i];
            assert(waiting[q] == fi[i]);
            assert(waiting[waiting.len() - 1].0 != waiting[q].0);
        }
        assert(waiting.contains(waiting[waiting.len() - 1]));
    }
}

} // verus!
