//! What the event loop does with commands, requests, failures and time.

use vstd::prelude::*;

use crate::adapters::clock::ClockV;
use crate::adapters::mock::{echoed, echoing};
use crate::adapters::scheduler::{elapsed, is_due_list, is_soonest, timers_after, Timers};
use crate::adapters::{Call, OutcomeV};
use crate::causality::{
    after_tick, armed, armed_all, as_report, at_depth, backoff_after, between, can_tick, chained,
    considered, core_ok, dispatched, ends_in, enqueued, expands, explicit, folded, handed_over,
    ruled, settled_answer, stepped, ticked, told, told_all, waited_out, wiring_ok, Core, Notice,
    Wiring,
};
use crate::engine::RetryPolicy;
use crate::ids::{DeviceId, RuleId, SceneId};
use crate::model::{
    command_views, CapabilityKind, CapabilityState, CommandV, DesiredV, EventV, Millis,
};
use crate::replay::{is_ordinary, known_after, one_by_one, turn_frame};
use crate::rule::{Rule, Truth};
use crate::state::{known_state, reported, Known};
use crate::text::{has_prefix, text_lt};

verus! {

// ------------------------------------------------------------ what reaches an adapter

/// From one state of the loop to another, a command was dispatched: first it was announced,
/// and if its device is bound to an adapter, that adapter was then handed it, at the
/// engine's time.
pub open spec fn reaches(w: Wiring, pre: Core, post: Core, cmd: CommandV, depth: u32) -> bool {
    let n = pre.trace.len() as int;
    &&& post.trace.len() > n
    &&& post.trace[n] == (Notice::CommandDispatched { command: cmd, depth })
    &&& cmd.target() is Some && w.bound.contains_key(cmd.target()->0) ==> {
        &&& post.trace.len() > n + 1
        &&& post.trace[n + 1] is Answered
        &&& post.trace[n + 1]->Answered_adapter == w.bound[cmd.target()->0]
        &&& post.trace[n + 1]->Answered_command == cmd
        &&& post.trace[n + 1]->Answered_now == w.now
    }
}

proof fn lemma_reaches(
    w: Wiring,
    fuel: nat,
    pre: Core,
    cmd: CommandV,
    attempt: u32,
    depth: u32,
    post: Core,
    ex: CommandV,
)
    requires
        dispatched(w, fuel, pre, cmd, attempt, depth, post),
        ex == explicit(pre.known, cmd),
        ex.target() is Some,
    ensures
        reaches(w, pre, post, ex, depth),
{
    let n = pre.trace.len() as int;
    let c = told(pre, Notice::CommandDispatched { command: ex, depth });
    let out = choose|out: OutcomeV| #[trigger] handed_over(w, c, ex, attempt, depth, out, post);
    assert(handed_over(w, c, ex, attempt, depth, out, post));
    assert(c.trace[n] == (Notice::CommandDispatched { command: ex, depth }));
    if w.bound.contains_key(ex.target()->0) {
        let idx = w.bound[ex.target()->0];
        let a = Notice::Answered { adapter: idx, command: ex, now: w.now, outcome: out };
        let c1 = told(c, a);
        assert(c1.trace[n] == c.trace[n]);
        assert(c1.trace[n + 1] == a);
        lemma_settled_trace(w, c1, out, ex, attempt, depth);
    } else {
        lemma_settled_trace(
            w,
            c,
            OutcomeV::Permanent("no adapter bound for target device"@),
            ex,
            attempt,
            depth,
        );
    }
}

/// Whatever becomes of an answer, the trace before it stays.
proof fn lemma_settled_trace(
    w: Wiring,
    c: Core,
    out: OutcomeV,
    cmd: CommandV,
    attempt: u32,
    depth: u32,
)
    ensures
        ({
            let post = settled_answer(w, c, out, cmd, attempt, depth);
            &&& post.trace.len() >= c.trace.len()
            &&& forall|i: int| 0 <= i < c.trace.len() ==> #[trigger] post.trace[i] == c.trace[i]
        }),
{
}

/// A command that says outright what a device is to do reaches the device's adapter as it
/// is.
pub proof fn outright_commands_reach_as_they_are(
    w: Wiring,
    fuel: nat,
    pre: Core,
    cmd: CommandV,
    attempt: u32,
    depth: u32,
    post: Core,
)
    requires
        dispatched(w, fuel, pre, cmd, attempt, depth, post),
        cmd is SetSwitch || cmd is SetBrightness || cmd is SetColor || cmd is SetColorTemperature
            || cmd is SendIrCode,
    ensures
        reaches(w, pre, post, cmd, depth),
{
    lemma_reaches(w, fuel, pre, cmd, attempt, depth, post, cmd);
}

/// A toggle asks a switch that is known to be on to go off, and one that is known to be off
/// to go on. Only of a switch that is not known is it left to the device.
pub proof fn toggles_turn_switches_around(
    w: Wiring,
    fuel: nat,
    pre: Core,
    device: DeviceId,
    attempt: u32,
    depth: u32,
    post: Core,
)
    requires
        dispatched(w, fuel, pre, CommandV::ToggleSwitch { device }, attempt, depth, post),
    ensures
        known_state(pre.known, device, CapabilityKind::Switch) == Some(CapabilityState::Switch(true))
            ==> reaches(w, pre, post, CommandV::SetSwitch { device, on: false }, depth),
        known_state(pre.known, device, CapabilityKind::Switch) == Some(
            CapabilityState::Switch(false),
        ) ==> reaches(w, pre, post, CommandV::SetSwitch { device, on: true }, depth),
        known_state(pre.known, device, CapabilityKind::Switch) is None ==> reaches(
            w,
            pre,
            post,
            CommandV::ToggleSwitch { device },
            depth,
        ),
{
    let ex = explicit(pre.known, CommandV::ToggleSwitch { device });
    lemma_reaches(w, fuel, pre, CommandV::ToggleSwitch { device }, attempt, depth, post, ex);
}

/// A lamp that is told to dim gets dimmer, by as much as it was told, and goes no lower than
/// dark.
pub proof fn dimming_makes_dimmer(
    w: Wiring,
    fuel: nat,
    pre: Core,
    device: DeviceId,
    value: u8,
    attempt: u32,
    depth: u32,
    post: Core,
    level: u8,
)
    requires
        dispatched(
            w,
            fuel,
            pre,
            CommandV::DecreaseBrightness { device, value },
            attempt,
            depth,
            post,
        ),
        known_state(pre.known, device, CapabilityKind::Brightness) == Some(
            CapabilityState::Brightness(level),
        ),
        level <= 100,
    ensures
        exists|to: u8|
            {
                &&& #[trigger] reaches(
                    w,
                    pre,
                    post,
                    CommandV::SetBrightness { device, value: to, transition: None },
                    depth,
                )
                &&& to <= level
                &&& level >= value ==> level - to == value
                &&& level < value ==> to == 0
            },
{
    let to: u8 = if level >= value {
        (level - value) as u8
    } else {
        0
    };
    let cmd = CommandV::DecreaseBrightness { device, value };
    let ex = CommandV::SetBrightness { device, value: to, transition: None };
    assert(explicit(pre.known, cmd) == ex);
    lemma_reaches(w, fuel, pre, cmd, attempt, depth, post, ex);
}

/// A lamp that is told to brighten gets brighter, by as much as it was told, and goes no
/// higher than full.
pub proof fn brightening_makes_brighter(
    w: Wiring,
    fuel: nat,
    pre: Core,
    device: DeviceId,
    value: u8,
    attempt: u32,
    depth: u32,
    post: Core,
    level: u8,
)
    requires
        dispatched(
            w,
            fuel,
            pre,
            CommandV::IncreaseBrightness { device, value },
            attempt,
            depth,
            post,
        ),
        known_state(pre.known, device, CapabilityKind::Brightness) == Some(
            CapabilityState::Brightness(level),
        ),
        level <= 100,
    ensures
        exists|to: u8|
            {
                &&& #[trigger] reaches(
                    w,
                    pre,
                    post,
                    CommandV::SetBrightness { device, value: to, transition: None },
                    depth,
                )
                &&& to >= level
                &&& level + value <= 100 ==> to - level == value
                &&& level + value > 100 ==> to == 100
            },
{
    let to: u8 = if level + value <= 100 {
        (level + value) as u8
    } else {
        100
    };
    let cmd = CommandV::IncreaseBrightness { device, value };
    let ex = CommandV::SetBrightness { device, value: to, transition: None };
    assert(explicit(pre.known, cmd) == ex);
    lemma_reaches(w, fuel, pre, cmd, attempt, depth, post, ex);
}

/// Where nothing is cut off, dimming by as much as was brightened restores the level, and
/// the other way around.
pub proof fn dimming_undoes_brightening(known: Known, device: DeviceId, level: u8, value: u8)
    requires
        level <= 100,
        known_state(known, device, CapabilityKind::Brightness) == Some(
            CapabilityState::Brightness(level),
        ),
    ensures
        level + value <= 100 ==> explicit(
            reported(known, device, CapabilityState::Brightness((level + value) as u8)),
            CommandV::DecreaseBrightness { device, value },
        ) == (CommandV::SetBrightness { device, value: level, transition: None }),
        level >= value ==> explicit(
            reported(known, device, CapabilityState::Brightness((level - value) as u8)),
            CommandV::IncreaseBrightness { device, value },
        ) == (CommandV::SetBrightness { device, value: level, transition: None }),
{
}

/// While the level of a lamp is not known, how to dim or brighten it is left to the device.
pub proof fn unknown_levels_are_left_to_the_device(
    w: Wiring,
    fuel: nat,
    pre: Core,
    cmd: CommandV,
    attempt: u32,
    depth: u32,
    post: Core,
)
    requires
        dispatched(w, fuel, pre, cmd, attempt, depth, post),
        cmd is DecreaseBrightness || cmd is IncreaseBrightness,
        known_state(pre.known, cmd.target()->0, CapabilityKind::Brightness) is None,
    ensures
        reaches(w, pre, post, cmd, depth),
{
    lemma_reaches(w, fuel, pre, cmd, attempt, depth, post, cmd);
}

// ------------------------------------------------------------ requests

/// A request that was processed led to this command, right after it was received.
pub open spec fn leads_to(
    w: Wiring,
    fuel: nat,
    pre: Core,
    post: Core,
    event: EventV,
    depth: u32,
    cmd: CommandV,
) -> bool {
    exists|c: Core|
        {
            &&& #[trigger] between(c)
            &&& c.known == pre.known
            &&& c.trace == pre.trace.push(Notice::EventReceived { event, depth })
            &&& c.queue == pre.queue.drop_first()
            &&& dispatched(w, fuel, c, cmd, 1, depth, post)
        }
}

/// What a consumer asks for is what the device is told: to take exactly the state that was
/// asked for, to turn its switch around, to get brighter or dimmer by so much, or to send
/// exactly the code.
pub proof fn requests_become_the_command_that_grants_them(
    w: Wiring,
    fuel: nat,
    pre: Core,
    post: Core,
    device: DeviceId,
    desired: DesiredV,
)
    requires
        stepped(w, fuel, pre, post),
        pre.queue[0].0 == (EventV::RequestedChange { device, desired }),
        pre.queue[0].1 <= w.max_depth,
    ensures
        ({
            let (event, depth) = pre.queue[0];
            match desired {
                DesiredV::State(CapabilityState::Switch(on)) => leads_to(
                    w,
                    fuel,
                    pre,
                    post,
                    event,
                    depth,
                    CommandV::SetSwitch { device, on },
                ),
                DesiredV::State(CapabilityState::Brightness(value)) => leads_to(
                    w,
                    fuel,
                    pre,
                    post,
                    event,
                    depth,
                    CommandV::SetBrightness { device, value, transition: None },
                ),
                DesiredV::State(CapabilityState::Color { r, g, b }) => leads_to(
                    w,
                    fuel,
                    pre,
                    post,
                    event,
                    depth,
                    CommandV::SetColor { device, r, g, b, transition: None },
                ),
                DesiredV::State(CapabilityState::ColorTemperature(mireds)) => leads_to(
                    w,
                    fuel,
                    pre,
                    post,
                    event,
                    depth,
                    CommandV::SetColorTemperature { device, mireds, transition: None },
                ),
                DesiredV::Toggle => leads_to(
                    w,
                    fuel,
                    pre,
                    post,
                    event,
                    depth,
                    CommandV::ToggleSwitch { device },
                ),
                DesiredV::SendIr(code) => leads_to(
                    w,
                    fuel,
                    pre,
                    post,
                    event,
                    depth,
                    CommandV::SendIrCode { device, code },
                ),
                // What only a sensor can say cannot be asked for.
                DesiredV::State(_) => post.trace == pre.trace.push(
                    Notice::EventReceived { event, depth },
                ) && post.queue == pre.queue.drop_first() && post.known == pre.known,
                DesiredV::AdjustBrightness(delta) => if delta >= 0 {
                    leads_to(
                        w,
                        fuel,
                        pre,
                        post,
                        event,
                        depth,
                        CommandV::IncreaseBrightness { device, value: delta as u8 },
                    )
                } else {
                    leads_to(
                        w,
                        fuel,
                        pre,
                        post,
                        event,
                        depth,
                        CommandV::DecreaseBrightness { device, value: (-delta) as u8 },
                    )
                },
            }
        }),
{
    let (event, depth) = pre.queue[0];
    let rest = Core { queue: pre.queue.drop_first(), ..pre };
    let c = told(rest, Notice::EventReceived { event, depth });
    assert(between(c));
}

/// A request to change the brightness by so much moves the known level by just that, up for
/// a positive number and down for a negative one, and stops at dark and at full.
pub proof fn adjustments_move_the_level_by_as_much(
    w: Wiring,
    fuel: nat,
    pre: Core,
    post: Core,
    device: DeviceId,
    delta: i8,
    level: u8,
)
    requires
        stepped(w, fuel, pre, post),
        pre.queue[0].0 == (EventV::RequestedChange {
            device,
            desired: DesiredV::AdjustBrightness(delta),
        }),
        pre.queue[0].1 <= w.max_depth,
        known_state(pre.known, device, CapabilityKind::Brightness) == Some(
            CapabilityState::Brightness(level),
        ),
        level <= 100,
    ensures
        ({
            let (event, depth) = pre.queue[0];
            exists|c: Core, to: u8|
                {
                    &&& #[trigger] reaches(
                        w,
                        c,
                        post,
                        CommandV::SetBrightness { device, value: to, transition: None },
                        depth,
                    )
                    &&& c.trace == pre.trace.push(Notice::EventReceived { event, depth })
                    &&& 0 <= level + delta <= 100 ==> to == level + delta
                    &&& level + delta < 0 ==> to == 0
                    &&& level + delta > 100 ==> to == 100
                }
        }),
{
    let (event, depth) = pre.queue[0];
    let rest = Core { queue: pre.queue.drop_first(), ..pre };
    let c = told(rest, Notice::EventReceived { event, depth });
    let to: u8 = if level + delta < 0 {
        0
    } else if level + delta > 100 {
        100
    } else {
        (level + delta) as u8
    };
    let cmd: CommandV = if delta < 0 {
        CommandV::DecreaseBrightness { device, value: (-delta) as u8 }
    } else {
        CommandV::IncreaseBrightness { device, value: delta as u8 }
    };
    let ex = CommandV::SetBrightness { device, value: to, transition: None };
    assert(dispatched(w, fuel, c, cmd, 1, depth, post));
    assert(explicit(c.known, cmd) == ex);
    lemma_reaches(w, fuel, c, cmd, 1, depth, post, ex);
}

/// A request for a scene activates that scene.
pub proof fn scene_requests_activate_the_scene(
    w: Wiring,
    fuel: nat,
    pre: Core,
    post: Core,
    scene: SceneId,
)
    requires
        stepped(w, fuel, pre, post),
        pre.queue[0].0 == (EventV::RequestedScene { scene }),
        pre.queue[0].1 <= w.max_depth,
    ensures
        leads_to(
            w,
            fuel,
            pre,
            post,
            pre.queue[0].0,
            pre.queue[0].1,
            CommandV::ActivateScene { scene },
        ),
{
    let (event, depth) = pre.queue[0];
    let rest = Core { queue: pre.queue.drop_first(), ..pre };
    let c = told(rest, Notice::EventReceived { event, depth });
    assert(between(c));
}

/// To activate a scene is to dispatch its members, one after the other and at the same
/// depth, after the observers were told how many there are.
pub proof fn scenes_dispatch_their_members(
    w: Wiring,
    fuel: nat,
    pre: Core,
    scene: SceneId,
    attempt: u32,
    depth: u32,
    post: Core,
)
    requires
        dispatched(w, fuel, pre, CommandV::ActivateScene { scene }, attempt, depth, post),
        expands(w.scenes, scene),
    ensures
        fuel > 0,
        exists|states: Seq<Core>|
            {
                &&& #[trigger] one_by_one(
                    w,
                    (fuel - 1) as nat,
                    states,
                    w.scenes[scene],
                    depth,
                )
                &&& states.last() == post
                &&& states[0].known == pre.known
                &&& states[0].queue == pre.queue
                &&& states[0].timers == pre.timers
                &&& states[0].trace == pre.trace.push(
                    Notice::CommandDispatched {
                        command: CommandV::ActivateScene { scene },
                        depth,
                    },
                ).push(Notice::SceneExpanded { scene, count: w.scenes[scene].len() })
            },
{
    let c = told(
        pre,
        Notice::CommandDispatched { command: CommandV::ActivateScene { scene }, depth },
    );
    let c1 = told(c, Notice::SceneExpanded { scene, count: w.scenes[scene].len() });
    let states = crate::replay::lemma_one_by_one(
        w,
        (fuel - 1) as nat,
        c1,
        w.scenes[scene],
        depth,
        post,
    );
}

// ------------------------------------------------------------ answers and failures

/// What a device produces when it obeys waits behind everything else, one causal hop deeper,
/// and in its order.
pub proof fn obeyed_commands_leave_their_events(
    w: Wiring,
    c: Core,
    evs: Seq<EventV>,
    cmd: CommandV,
    attempt: u32,
    depth: u32,
)
    requires
        depth < u32::MAX,
    ensures
        ({
            let post = settled_answer(w, c, OutcomeV::Done(evs), cmd, attempt, depth);
            &&& post.queue.len() == c.queue.len() + evs.len()
            &&& forall|i: int| 0 <= i < c.queue.len() ==> #[trigger] post.queue[i] == c.queue[i]
            &&& forall|i: int|
                0 <= i < evs.len() ==> #[trigger] post.queue[c.queue.len() + i] == (
                    evs[i],
                    (depth + 1) as u32,
                )
            &&& post.trace == c.trace
            &&& post.timers == c.timers
            &&& post.retries == c.retries
        }),
{
}

/// A command that failed for now is tried again: it is kept with the next attempt's number,
/// under a timer that fires once the backoff is over, and observers hear of the failure and
/// of the retry.
pub proof fn transient_failures_are_retried(
    w: Wiring,
    c: Core,
    reason: Seq<char>,
    cmd: CommandV,
    attempt: u32,
    depth: u32,
)
    requires
        attempt < w.retry.max_attempts,
        w.now + backoff_after(w.retry, attempt) <= u64::MAX,
    ensures
        ({
            let post = settled_answer(w, c, OutcomeV::Transient(reason), cmd, attempt, depth);
            let delay = backoff_after(w.retry, attempt);
            &&& post.queue == c.queue
            &&& post.known == c.known
            &&& post.trace == c.trace.push(
                Notice::DispatchFailed { command: cmd, reason, transient: true, attempt },
            ).push(
                Notice::RetryScheduled { command: cmd, next_attempt: (attempt + 1) as u32, delay },
            )
            &&& exists|key: Seq<char>|
                {
                    &&& has_prefix(key, "__retry:"@)
                    &&& #[trigger] post.retries.contains_key(key)
                    &&& post.retries == c.retries.insert(key, (cmd, (attempt + 1) as u32))
                    &&& post.timers == c.timers.insert(key, (w.now + delay) as u64)
                }
        }),
{
    let post = settled_answer(w, c, OutcomeV::Transient(reason), cmd, attempt, depth);
    let count = crate::causality::next_count(c.retry_counter);
    let key = crate::causality::retry_prefix() + crate::text::decimal(count as nat);
    assert(has_prefix(key, "__retry:"@)) by {
        assert(key.take("__retry:"@.len() as int) =~= "__retry:"@);
    }
    assert(post.retries.contains_key(key));
}

/// A command that cannot succeed is given up at once, whatever attempts are left: observers
/// hear of it, and an event says which command failed, why, and after how many attempts.
pub proof fn permanent_failures_are_given_up(
    w: Wiring,
    c: Core,
    reason: Seq<char>,
    cmd: CommandV,
    attempt: u32,
    depth: u32,
)
    requires
        depth < u32::MAX,
    ensures
        ({
            let post = settled_answer(w, c, OutcomeV::Permanent(reason), cmd, attempt, depth);
            &&& post.retries == c.retries
            &&& post.timers == c.timers
            &&& post.queue == c.queue.push(
                (
                    EventV::CommandFailed { command: cmd, reason, attempts: attempt },
                    (depth + 1) as u32,
                ),
            )
            &&& post.trace == c.trace.push(
                Notice::DispatchFailed { command: cmd, reason, transient: false, attempt },
            ).push(Notice::CommandFailed { command: cmd, reason, attempts: attempt })
        }),
{
    let post = settled_answer(w, c, OutcomeV::Permanent(reason), cmd, attempt, depth);
    assert(post.queue =~= c.queue.push(
        (EventV::CommandFailed { command: cmd, reason, attempts: attempt }, (depth + 1) as u32),
    ));
}

/// Once the attempts are used up, a failure for now is a failure for good, and observers
/// hear of both.
pub proof fn the_last_attempt_is_told(
    w: Wiring,
    c: Core,
    reason: Seq<char>,
    cmd: CommandV,
    attempt: u32,
    depth: u32,
)
    requires
        attempt >= w.retry.max_attempts,
    ensures
        settled_answer(w, c, OutcomeV::Transient(reason), cmd, attempt, depth).trace
            == c.trace.push(
            Notice::DispatchFailed { command: cmd, reason, transient: true, attempt },
        ).push(Notice::CommandFailed { command: cmd, reason, attempts: attempt }),
{
}

/// A command for a device that no adapter serves fails for good, and says so.
pub proof fn unserved_devices_fail_for_good(
    w: Wiring,
    fuel: nat,
    pre: Core,
    cmd: CommandV,
    attempt: u32,
    depth: u32,
    post: Core,
)
    requires
        dispatched(w, fuel, pre, cmd, attempt, depth, post),
        cmd is SetSwitch || cmd is SetBrightness || cmd is SetColor || cmd is SetColorTemperature
            || cmd is SendIrCode,
        !w.bound.contains_key(cmd.target()->0),
        depth < u32::MAX,
    ensures
        post.queue == pre.queue.push(
            (
                EventV::CommandFailed {
                    command: cmd,
                    reason: "no adapter bound for target device"@,
                    attempts: attempt,
                },
                (depth + 1) as u32,
            ),
        ),
        post.retries == pre.retries,
{
    let c = told(pre, Notice::CommandDispatched { command: cmd, depth });
    let out = choose|out: OutcomeV| #[trigger] handed_over(w, c, cmd, attempt, depth, out, post);
    assert(handed_over(w, c, cmd, attempt, depth, out, post));
    permanent_failures_are_given_up(
        w,
        c,
        "no adapter bound for target device"@,
        cmd,
        attempt,
        depth,
    );
}

/// When the timer of a retry fires, exactly the command that was kept is dispatched again,
/// as the attempt that it was kept for, at depth 0, and it is no longer kept.
pub proof fn retries_dispatch_what_was_kept(
    w: Wiring,
    fuel: nat,
    pre: Core,
    post: Core,
    key: Seq<char>,
)
    requires
        stepped(w, fuel, pre, post),
        pre.queue[0].0 == (EventV::TimerElapsed { key }),
        pre.queue[0].1 <= w.max_depth,
        pre.retries.contains_key(key),
    ensures
        exists|c: Core|
            {
                &&& #[trigger] between(c)
                &&& c.retries == pre.retries.remove(key)
                &&& c.known == pre.known
                &&& c.trace == pre.trace.push(
                    Notice::EventReceived { event: pre.queue[0].0, depth: pre.queue[0].1 },
                )
                &&& dispatched(w, fuel, c, pre.retries[key].0, pre.retries[key].1, 0, post)
            },
{
    let (event, depth) = pre.queue[0];
    let rest = Core { queue: pre.queue.drop_first(), ..pre };
    let c = told(rest, Notice::EventReceived { event, depth });
    let c1 = Core { retries: c.retries.remove(key), ..c };
    assert(between(c1));
}

/// The wait before a retry is the base delay after the first attempt, and never shrinks from
/// one attempt to the next.
pub proof fn backoff_never_shrinks(retry: RetryPolicy, attempt: u32)
    requires
        1 <= attempt < u32::MAX,
    ensures
        backoff_after(retry, 1) == retry.base_backoff,
        backoff_after(retry, attempt) <= backoff_after(retry, (attempt + 1) as u32),
{
    let a: nat = if attempt > 16 {
        15
    } else {
        (attempt - 1) as nat
    };
    let b: nat = if attempt + 1 > 16 {
        15
    } else {
        attempt as nat
    };
    assert(crate::causality::power_of_two(0) == 1);
    assert(retry.base_backoff * 1 == retry.base_backoff);
    if b == a + 1 {
        assert(crate::causality::power_of_two(b) == 2 * crate::causality::power_of_two(a));
    }
    let p = crate::causality::power_of_two(a);
    let q = crate::causality::power_of_two(b);
    assert(p <= q);
    assert(retry.base_backoff * p <= retry.base_backoff * q) by (nonlinear_arith)
        requires
            p <= q,
            retry.base_backoff >= 0,
    ;
}

// ------------------------------------------------------------ reports and waits

/// A presence sensor's report is the report of the device's occupancy.
pub proof fn presence_is_occupancy(device: DeviceId, occupied: bool, ev: EventV)
    ensures
        as_report(EventV::OccupancyChanged { device, occupied }) == (EventV::StateReported {
            device,
            state: CapabilityState::Occupancy(occupied),
        }),
        !(ev is OccupancyChanged) ==> as_report(ev) == ev,
{
}

/// Where one rule that matches must first wait out a duration, it starts to wait: under a
/// timer of its own that fires once the duration is over, and under no other.
pub proof fn rules_wait_out_their_duration(
    w: Wiring,
    fuel: nat,
    pre: Core,
    post: Core,
    rule: Rule,
    duration: Millis,
)
    requires
        wiring_ok(w),
        core_ok(w, pre),
        stepped(w, fuel, pre, post),
        pre.queue[0].1 <= w.max_depth,
        is_ordinary(pre, as_report(pre.queue[0].0)),
        w.rules == seq![rule],
        ({
            let ev = as_report(pre.queue[0].0);
            rule.trigger.fires(ev, crate::causality::prior_of(pre.known, ev))
                && rule.condition.truth(known_after(pre.known, ev)) == Truth::True
        }),
        rule.for_duration == Some(duration),
        w.now + duration <= u64::MAX,
    ensures
        exists|key: Seq<char>|
            {
                &&& has_prefix(key, "__for:"@)
                &&& #[trigger] post.waiting.contains((rule.id, key))
                &&& post.timers.contains_key(key)
                &&& post.timers[key] == w.now + duration
            },
        forall|i: int|
            0 <= i < post.waiting.len() - 1 ==> (#[trigger] post.waiting[i]).0 != rule.id,
{
    let (raw, depth) = pre.queue[0];
    let ev = as_report(raw);
    let prior = crate::causality::prior_of(pre.known, ev);
    let rest = Core { queue: pre.queue.drop_first(), ..pre };
    let c = told(rest, Notice::EventReceived { event: raw, depth });
    let c1 = folded(w, c, ev);
    let v = considered(w.rules, w.rules.len(), ev, prior, c1.known);
    let c2 = told_all(c1, v.notices);
    let c3 = armed_all(c2, v.arms, w.now);
    assert(ruled(w, fuel, c, ev, depth, post));
    reveal_with_fuel(considered, 2);
    assert(w.rules[0] == rule);
    assert(v.arms =~= seq![(rule.id, duration)]);
    assert(v.commands =~= Seq::empty());
    assert(post == c3);
    assert(seq![(rule.id, duration)].drop_last() =~= Seq::empty());
    reveal_with_fuel(armed_all, 2);
    assert(c3 == armed(c2, rule.id, duration, w.now));
    let count = crate::causality::next_count(c2.for_counter);
    let key = crate::causality::for_prefix() + crate::text::decimal(count as nat);
    assert(has_prefix(key, "__for:"@)) by {
        assert(key.take("__for:"@.len() as int) =~= "__for:"@);
    }
    let left = crate::causality::without(c2.waiting, rule.id);
    assert(post.waiting == left.push((rule.id, key)));
    assert(post.waiting[left.len() as int] == (rule.id, key));
    assert(post.waiting.contains((rule.id, key)));
    assert(post.timers.contains_key(key) && post.timers[key] == w.now + duration);
    assert forall|i: int| 0 <= i < post.waiting.len() - 1 implies (#[trigger] post.waiting[i]).0
        != rule.id by {
        crate::replay::lemma_filter_passes(
            c2.waiting,
            crate::causality::other_than(rule.id),
            i,
        );
    }
}

/// The rules that start to wait are exactly those that the event fires, whose condition is
/// true, and that have a duration: each for just that long.
pub proof fn rules_with_a_duration_wait(
    rules: Seq<Rule>,
    n: nat,
    ev: EventV,
    prior: Option<CapabilityState>,
    known: Known,
    id: RuleId,
    duration: Millis,
)
    requires
        n <= rules.len(),
    ensures
        considered(rules, n, ev, prior, known).arms.contains((id, duration)) <==> exists|i: int|
            {
                &&& 0 <= i < n
                &&& (#[trigger] rules[i]).id == id
                &&& rules[i].trigger.fires(ev, prior)
                &&& rules[i].condition.truth(known) == Truth::True
                &&& rules[i].for_duration == Some(duration)
            },
    decreases n,
{
    if n > 0 {
        let m = (n - 1) as nat;
        rules_with_a_duration_wait(rules, m, ev, prior, known, id, duration);
        let before = considered(rules, m, ev, prior, known).arms;
        let all = considered(rules, n, ev, prior, known).arms;
        let r = rules[n - 1];
        if r.trigger.fires(ev, prior) && r.condition.truth(known) == Truth::True && r.for_duration
            is Some {
            assert(all == before.push((r.id, r.for_duration->0)));
            if before.contains((id, duration)) {
                let j = choose|j: int| 0 <= j < before.len() && before[j] == (id, duration);
                assert(all[j] == (id, duration));
            }
            if (r.id, r.for_duration->0) == (id, duration) {
                assert(all[before.len() as int] == (id, duration));
            }
            if all.contains((id, duration)) {
                let j = choose|j: int| 0 <= j < all.len() && all[j] == (id, duration);
                if j < before.len() {
                    assert(before[j] == (id, duration));
                }
            }
        } else {
            assert(all == before);
        }
    }
}

/// A rule that starts to wait gives up the timer that it waited on before. Nobody else's
/// timer is touched, and everybody else goes on waiting.
pub proof fn rules_wait_anew(
    c: Core,
    rule: RuleId,
    duration: Millis,
    now: Millis,
    prev: Seq<char>,
    other: (RuleId, Seq<char>),
)
    requires
        now + duration <= u64::MAX,
    ensures
        exists|key: Seq<char>|
            {
                &&& has_prefix(key, "__for:"@)
                &&& #[trigger] armed(c, rule, duration, now).waiting.contains((rule, key))
                &&& armed(c, rule, duration, now).timers.contains_key(key)
                &&& armed(c, rule, duration, now).timers[key] == now + duration
                &&& crate::causality::timer_of(c.waiting, rule) == Some(prev) && prev != key
                    ==> !armed(c, rule, duration, now).timers.contains_key(prev)
                &&& forall|k: Seq<char>|
                    k != key && crate::causality::timer_of(c.waiting, rule) != Some(k) ==> (
                    #[trigger] armed(c, rule, duration, now).timers.contains_key(k)
                        <==> c.timers.contains_key(k))
            },
        other.0 != rule && c.waiting.contains(other) ==> armed(
            c,
            rule,
            duration,
            now,
        ).waiting.contains(other),
{
    let post = armed(c, rule, duration, now);
    let count = crate::causality::next_count(c.for_counter);
    let key = crate::causality::for_prefix() + crate::text::decimal(count as nat);
    assert(has_prefix(key, "__for:"@)) by {
        assert(key.take("__for:"@.len() as int) =~= "__for:"@);
    }
    let left = crate::causality::without(c.waiting, rule);
    assert(post.waiting[left.len() as int] == (rule, key));
    assert(post.waiting.contains((rule, key)));
    if other.0 != rule && c.waiting.contains(other) {
        lemma_filter_keeps(c.waiting, crate::causality::other_than(rule), other);
        let j = choose|j: int| 0 <= j < left.len() && left[j] == other;
        assert(post.waiting[j] == other);
    }
}

/// What passes a filter is kept by it.
proof fn lemma_filter_keeps<A>(s: Seq<A>, keep: spec_fn(A) -> bool, x: A)
    requires
        s.contains(x),
        keep(x),
    ensures
        s.filter(keep).contains(x),
    decreases s.len(),
{
    reveal(Seq::filter);
    if s.len() > 0 {
        let rest = s.drop_last();
        if s.last() == x {
            let all = s.filter(keep);
            assert(all[all.len() - 1] == x);
        } else {
            let j = choose|j: int| 0 <= j < s.len() && s[j] == x;
            assert(rest[j] == x);
            lemma_filter_keeps(rest, keep, x);
            let i = choose|i: int| 0 <= i < rest.filter(keep).len() && rest.filter(keep)[i] == x;
            assert(s.filter(keep)[i] == x);
        }
    }
}

/// A report is announced and becomes what is known. A rule that waits goes on waiting exactly
/// if what it waits on is still so; one that no longer waits loses its timer.
pub proof fn reports_decide_who_goes_on_waiting(
    w: Wiring,
    c: Core,
    device: DeviceId,
    state: CapabilityState,
    i: int,
    rule: Rule,
)
    requires
        0 <= i < c.waiting.len(),
        crate::causality::find_rule(w.rules, c.waiting[i].0) == Some(rule),
    ensures
        ({
            let after = folded(w, c, EventV::StateReported { device, state });
            &&& after.known == reported(c.known, device, state)
            &&& after.trace == c.trace.push(Notice::StateFolded { device, state })
            &&& rule.trigger.sustained(after.known) ==> after.waiting.contains(c.waiting[i])
            &&& !rule.trigger.sustained(after.known) ==> !after.waiting.contains(c.waiting[i])
                && !after.timers.contains_key(c.waiting[i].1)
        }),
{
    let after = folded(w, c, EventV::StateReported { device, state });
    let mid = Core {
        known: reported(c.known, device, state),
        ..told(c, Notice::StateFolded { device, state })
    };
    let keep = |e: (RuleId, Seq<char>)| crate::causality::still_holds(w.rules, mid.known, e.0);
    assert(after.waiting == mid.waiting.filter(keep));
    if rule.trigger.sustained(after.known) {
        lemma_filter_keeps(mid.waiting, keep, c.waiting[i]);
    } else {
        assert(crate::causality::reverted_keys(w, mid).contains(c.waiting[i].1));
        if after.waiting.contains(c.waiting[i]) {
            let j = choose|j: int| 0 <= j < after.waiting.len() && after.waiting[j] == c.waiting[i];
            crate::replay::lemma_filter_passes(mid.waiting, keep, j);
        }
    }
}

/// A timer that belongs only to rules that go on waiting, or to no rule, is left alone.
pub proof fn reports_leave_other_timers_alone(
    w: Wiring,
    c: Core,
    device: DeviceId,
    state: CapabilityState,
    key: Seq<char>,
)
    requires
        forall|i: int|
            0 <= i < c.waiting.len() && (#[trigger] c.waiting[i]).1 == key
                ==> crate::causality::still_holds(
                w.rules,
                reported(c.known, device, state),
                c.waiting[i].0,
            ),
    ensures
        ({
            let after = folded(w, c, EventV::StateReported { device, state });
            &&& after.timers.contains_key(key) <==> c.timers.contains_key(key)
            &&& c.timers.contains_key(key) ==> after.timers[key] == c.timers[key]
            &&& after.retries == c.retries
            &&& after.queue == c.queue
        }),
{
}

/// A rule is found under its number, where no two share one.
pub proof fn rules_are_found_by_number(rules: Seq<Rule>, i: int)
    requires
        0 <= i < rules.len(),
        forall|j: int, k: int|
            0 <= j < k < rules.len() ==> (#[trigger] rules[j]).id != (#[trigger] rules[k]).id,
    ensures
        crate::causality::find_rule(rules, rules[i].id) == Some(rules[i]),
    decreases rules.len(),
{
    if i > 0 {
        let rest = rules.drop_first();
        assert(rules[0].id != rules[i].id);
        assert(rest[i - 1] == rules[i]);
        rules_are_found_by_number(rest, i - 1);
    }
}

/// A rule that has waited out its duration acts, if what it waited on is still so: its
/// commands are dispatched one by one. Otherwise nothing comes of it. Either way it waits no
/// more.
pub proof fn waited_out_rules_act_if_it_is_still_so(
    w: Wiring,
    fuel: nat,
    pre: Core,
    post: Core,
    key: Seq<char>,
    rule: Rule,
)
    requires
        stepped(w, fuel, pre, post),
        pre.queue[0].0 == (EventV::TimerElapsed { key }),
        pre.queue[0].1 <= w.max_depth,
        !pre.retries.contains_key(key),
        has_prefix(key, "__for:"@),
        crate::causality::rule_of_timer(pre.waiting, key) == Some(rule.id),
        crate::causality::find_rule(w.rules, rule.id) == Some(rule),
    ensures
        rule.trigger.sustained(pre.known) ==> exists|states: Seq<Core>|
            {
                &&& #[trigger] one_by_one(
                    w,
                    fuel,
                    states,
                    command_views(rule.commands@),
                    0,
                )
                &&& states.last() == post
                &&& states[0].known == pre.known
                &&& states[0].waiting == crate::causality::without(pre.waiting, rule.id)
            },
        !rule.trigger.sustained(pre.known) ==> post.trace == pre.trace.push(
            Notice::EventReceived { event: pre.queue[0].0, depth: pre.queue[0].1 },
        ) && post.queue == pre.queue.drop_first() && post.waiting
            == crate::causality::without(pre.waiting, rule.id),
{
    let (event, depth) = pre.queue[0];
    let rest = Core { queue: pre.queue.drop_first(), ..pre };
    let c = told(rest, Notice::EventReceived { event, depth });
    let c1 = Core { waiting: crate::causality::without(c.waiting, rule.id), ..c };
    assert(waited_out(w, fuel, c, key, post));
    if rule.trigger.sustained(pre.known) {
        let states = crate::replay::lemma_one_by_one(
            w,
            fuel,
            c1,
            command_views(rule.commands@),
            0,
            post,
        );
    }
}

/// Past the maximum depth an event is not processed, and up to it every event is: the first
/// thing that is said of it tells which.
pub proof fn depth_decides_whether_an_event_is_processed(
    w: Wiring,
    fuel: nat,
    pre: Core,
    post: Core,
)
    requires
        wiring_ok(w),
        core_ok(w, pre),
        stepped(w, fuel, pre, post),
    ensures
        ({
            let (event, depth) = pre.queue[0];
            let first = post.trace[pre.trace.len() as int];
            &&& depth > w.max_depth ==> first == (Notice::CascadeDropped { event, depth })
            &&& depth <= w.max_depth ==> first == (Notice::EventReceived { event, depth })
        }),
{
    let (event, depth) = pre.queue[0];
    let n = pre.trace.len() as int;
    if depth <= w.max_depth {
        let rest = Core { queue: pre.queue.drop_first(), ..pre };
        let c = told(rest, Notice::EventReceived { event, depth });
        turn_frame(w, fuel, pre, post);
        crate::replay::lemma_turn_goes_on(w, fuel, pre, post);
        assert(c.trace[n] == (Notice::EventReceived { event, depth }));
        assert(post.trace.subrange(0, c.trace.len() as int)[n] == post.trace[n]);
    }
}

// ------------------------------------------------------------ time

/// A timer that is started now for so long is due from then on, and not a moment before.
pub proof fn timers_fire_when_their_time_is_over(
    timers: Timers,
    key: Seq<char>,
    after: Millis,
    now: Millis,
    then: Millis,
    keys: Seq<Seq<char>>,
)
    requires
        now + after <= u64::MAX,
        is_due_list(
            timers_after(timers, CommandV::ScheduleTimer { key, after }, now),
            then,
            keys,
        ),
    ensures
        keys.contains(key) <==> then >= now + after,
{
}

/// A cancelled timer never fires, and cancelling leaves every other timer as it was.
pub proof fn cancelled_timers_never_fire(
    timers: Timers,
    key: Seq<char>,
    now: Millis,
    then: Millis,
    keys: Seq<Seq<char>>,
    other: Seq<char>,
)
    requires
        is_due_list(timers_after(timers, CommandV::CancelTimer { key }, now), then, keys),
    ensures
        !keys.contains(key),
        other != key ==> (keys.contains(other) <==> timers.contains_key(other) && timers[other]
            <= then),
{
}

/// Timers that are due fire in the order of their times, the earlier first, and those of the
/// same time in the order of their keys; none fires twice.
pub proof fn earlier_timers_fire_first(
    timers: Timers,
    now: Millis,
    keys: Seq<Seq<char>>,
    i: int,
    j: int,
)
    requires
        is_due_list(timers, now, keys),
        0 <= i < j < keys.len(),
    ensures
        timers[keys[i]] <= timers[keys[j]] <= now,
        timers[keys[i]] == timers[keys[j]] ==> text_lt(keys[i], keys[j]),
        keys[i] != keys[j],
{
    assert(keys.contains(keys[j]));
    crate::text::text_order_is_total(keys[i], keys[j]);
}

/// A command to start or cancel a timer does just that, at the engine's time.
pub proof fn timer_commands_reach_the_scheduler(
    w: Wiring,
    fuel: nat,
    pre: Core,
    cmd: CommandV,
    attempt: u32,
    depth: u32,
    post: Core,
    key: Seq<char>,
    after: Millis,
)
    requires
        dispatched(w, fuel, pre, cmd, attempt, depth, post),
    ensures
        cmd == (CommandV::ScheduleTimer { key, after }) && w.now + after <= u64::MAX ==> post.timers
            == pre.timers.insert(key, (w.now + after) as u64),
        cmd == (CommandV::CancelTimer { key }) ==> post.timers == pre.timers.remove(key),
        cmd is ScheduleTimer || cmd is CancelTimer ==> post.queue == pre.queue && post.known
            == pre.known && post.trace == pre.trace.push(
            Notice::CommandDispatched { command: cmd, depth },
        ),
{
}

/// When time has moved on, the timers that are due fire first, the earliest before the
/// others, and everything that a tick produces waits at depth 0.
pub proof fn due_timers_come_first(w: Wiring, pre: Core, post: Core)
    requires
        ticked(w, pre, post),
    ensures
        exists|keys: Seq<Seq<char>>|
            {
                &&& #[trigger] is_due_list(pre.timers, w.now, keys)
                &&& forall|k: Seq<char>| #[trigger]
                    post.timers.contains_key(k) <==> pre.timers.contains_key(k) && pre.timers[k]
                        > w.now
                &&& post.queue.len() >= pre.queue.len() + keys.len()
                &&& forall|i: int|
                    0 <= i < keys.len() ==> #[trigger] post.queue[pre.queue.len() + i] == (
                        EventV::TimerElapsed { key: keys[i] },
                        0u32,
                    )
                &&& forall|i: int|
                    pre.queue.len() <= i < post.queue.len() ==> (#[trigger] post.queue[i]).1 == 0
            },
        post.known == pre.known,
{
    let (keys, south, clocks, north) = choose|
        keys: Seq<Seq<char>>,
        south: Seq<Seq<EventV>>,
        clocks: Seq<Option<ClockV>>,
        north: Seq<Seq<EventV>>,
    |
        is_due_list(pre.timers, w.now, keys) && can_tick(w, pre.trace, south, clocks)
            && north.len() == w.northbound && post == #[trigger] after_tick(
            w,
            pre,
            keys,
            south,
            clocks,
            north,
        );
    let events = elapsed(keys) + chained(south) + chained(north);
    assert(post.queue == pre.queue + at_depth(events, 0));
    assert forall|i: int| 0 <= i < keys.len() implies #[trigger] post.queue[pre.queue.len() + i]
        == (EventV::TimerElapsed { key: keys[i] }, 0u32) by {
        assert(events[i] == elapsed(keys)[i]);
    }
    assert(is_due_list(pre.timers, w.now, keys));
}

/// The next wake for a timer is as far off as the timer: nobody has to wake before the
/// soonest one, and nobody may sleep past it.
pub proof fn the_next_timer_is_not_slept_through(
    timers: Timers,
    now: Millis,
    delay: Option<Millis>,
    key: Seq<char>,
)
    requires
        is_soonest(timers, now, delay),
        timers.contains_key(key),
    ensures
        delay is Some,
        timers[key] >= now ==> now + delay->0 <= timers[key],
        timers[key] <= now ==> delay == Some(0u64),
        exists|k: Seq<char>| #[trigger]
            timers.contains_key(k) && (timers[k] == now + delay->0 || timers[k] <= now && delay->0
                == 0),
{
    let k = choose|k: Seq<char>| #[trigger]
        timers.contains_key(k) && delay->0 == crate::adapters::scheduler::remaining(timers[k], now);
    assert(timers.contains_key(k));
}

// ------------------------------------------------------------ stand-ins

/// A stand-in device reports the state that it was told to take, and says nothing to any
/// other command nor to the passing of time.
pub proof fn stand_ins_report_what_they_were_told(
    device: DeviceId,
    on: bool,
    value: u8,
    g: u8,
    b: u8,
    mireds: u16,
    transition: Option<Millis>,
    now: Millis,
    outcome: OutcomeV,
    events: Seq<EventV>,
)
    ensures
        echoed(CommandV::SetSwitch { device, on }) == OutcomeV::Done(
            seq![EventV::StateReported { device, state: CapabilityState::Switch(on) }],
        ),
        echoed(CommandV::SetBrightness { device, value, transition }) == OutcomeV::Done(
            seq![EventV::StateReported { device, state: CapabilityState::Brightness(value) }],
        ),
        echoed(CommandV::SetColor { device, r: value, g, b, transition }) == OutcomeV::Done(
            seq![
                EventV::StateReported {
                    device,
                    state: CapabilityState::Color { r: value, g, b },
                },
            ],
        ),
        echoed(CommandV::SetColorTemperature { device, mireds, transition }) == OutcomeV::Done(
            seq![
                EventV::StateReported {
                    device,
                    state: CapabilityState::ColorTemperature(mireds),
                },
            ],
        ),
        echoed(CommandV::ToggleSwitch { device }) == OutcomeV::Done(Seq::empty()),
        echoing()(
            Call::Dispatch { command: CommandV::SetSwitch { device, on }, now, outcome },
        ) <==> outcome == OutcomeV::Done(
            seq![EventV::StateReported { device, state: CapabilityState::Switch(on) }],
        ),
        echoing()(Call::Tick { now, events }) <==> events.len() == 0,
{
    if events.len() == 0 {
        assert(events =~= Seq::empty());
    }
}

// ------------------------------------------------------------ the beginning

/// A new engine knows nothing, has nothing to do, and starts at time zero: three attempts, a
/// second of backoff, thirty-two causal hops.
pub proof fn new_engines_know_nothing()
    ensures
        crate::causality::fresh().queue.len() == 0,
        forall|device: DeviceId, kind: CapabilityKind|
            #[trigger] known_state(crate::causality::fresh().known, device, kind) is None,
        forall|k: Seq<char>| !#[trigger] crate::causality::fresh().timers.contains_key(k),
        crate::causality::fresh().waiting.len() == 0,
        crate::causality::fresh().trace.len() == 0,
        crate::causality::bare().now == 0,
        crate::causality::bare().rules.len() == 0,
        crate::causality::bare().retry.max_attempts == 3,
        crate::causality::bare().retry.base_backoff == 1000,
        crate::causality::bare().max_depth == 32,
{
}

/// An injected event waits behind what is queued already, at the depth that it is given.
pub proof fn events_wait_in_line(c: Core, ev: EventV, depth: u32)
    ensures
        enqueued(c, seq![ev], depth).queue == c.queue.push((ev, depth)),
        enqueued(c, seq![ev], depth).known == c.known,
{
    assert(enqueued(c, seq![ev], depth).queue =~= c.queue.push((ev, depth)));
}

/// Of two wakes the sooner one counts.
pub proof fn the_sooner_wake_counts(a: Millis, b: Millis)
    ensures
        a <= b ==> crate::engine::sooner(Some(a), Some(b)) == Some(a)
            && crate::engine::sooner(Some(b), Some(a)) == Some(a),
        crate::engine::sooner(Some(a), None) == Some(a),
        crate::engine::sooner(None, Some(a)) == Some(a),
        crate::engine::sooner(None, None) is None,
{
}

/// A scene that is not there, or that would never end, is announced and comes to nothing.
pub proof fn endless_scenes_come_to_nothing(
    w: Wiring,
    fuel: nat,
    pre: Core,
    scene: SceneId,
    attempt: u32,
    depth: u32,
    post: Core,
)
    requires
        dispatched(w, fuel, pre, CommandV::ActivateScene { scene }, attempt, depth, post),
        !expands(w.scenes, scene),
    ensures
        post.trace == pre.trace.push(
            Notice::CommandDispatched { command: CommandV::ActivateScene { scene }, depth },
        ),
        post.queue == pre.queue,
        post.known == pre.known,
        post.timers == pre.timers,
{
}

/// A scene that is not there is not expanded; one that activates no other is.
pub proof fn plain_scenes_are_expanded(scenes: Map<SceneId, Seq<CommandV>>, scene: SceneId)
    ensures
        !scenes.contains_key(scene) ==> !expands(scenes, scene),
        scenes.contains_key(scene) && (forall|i: int|
            0 <= i < scenes[scene].len() ==> !(#[trigger] scenes[scene][i] is ActivateScene))
            ==> expands(scenes, scene),
{
    if scenes.contains_key(scene) && (forall|i: int|
        0 <= i < scenes[scene].len() ==> !(#[trigger] scenes[scene][i] is ActivateScene)) {
        assert(ends_in(scenes, scene, 1));
    }
}

/// A scene that activates itself would never end.
pub proof fn scenes_must_not_activate_themselves(
    scenes: Map<SceneId, Seq<CommandV>>,
    scene: SceneId,
    i: int,
)
    requires
        scenes.contains_key(scene),
        0 <= i < scenes[scene].len(),
        scenes[scene][i] == (CommandV::ActivateScene { scene }),
    ensures
        !expands(scenes, scene),
{
    assert forall|levels: nat| !#[trigger] ends_in(scenes, scene, levels) by {
        lemma_never_ends(scenes, scene, i, levels);
    }
}

proof fn lemma_never_ends(
    scenes: Map<SceneId, Seq<CommandV>>,
    scene: SceneId,
    i: int,
    levels: nat,
)
    requires
        scenes.contains_key(scene),
        0 <= i < scenes[scene].len(),
        scenes[scene][i] == (CommandV::ActivateScene { scene }),
    ensures
        !ends_in(scenes, scene, levels),
    decreases levels,
{
    if ends_in(scenes, scene, levels) {
        lemma_never_ends(scenes, scene, i, (levels - 1) as nat);
        assert(crate::causality::member_ends_in(scenes, scenes[scene][i], (levels - 1) as nat));
    }
}

/// A timer on which no rule waits any more comes to nothing.
pub proof fn stale_waits_come_to_nothing(
    w: Wiring,
    fuel: nat,
    pre: Core,
    post: Core,
    key: Seq<char>,
)
    requires
        stepped(w, fuel, pre, post),
        pre.queue[0].0 == (EventV::TimerElapsed { key }),
        pre.queue[0].1 <= w.max_depth,
        !pre.retries.contains_key(key),
        has_prefix(key, "__for:"@),
        forall|i: int| 0 <= i < pre.waiting.len() ==> (#[trigger] pre.waiting[i]).1 != key,
    ensures
        post.trace == pre.trace.push(
            Notice::EventReceived { event: pre.queue[0].0, depth: pre.queue[0].1 },
        ),
        post.queue == pre.queue.drop_first(),
        post.known == pre.known,
        post.waiting == pre.waiting,
{
    lemma_nobody_waits(pre.waiting, key);
}

proof fn lemma_nobody_waits(waiting: Seq<(RuleId, Seq<char>)>, key: Seq<char>)
    requires
        forall|i: int| 0 <= i < waiting.len() ==> (#[trigger] waiting[i]).1 != key,
    ensures
        crate::causality::rule_of_timer(waiting, key) is None,
    decreases waiting.len(),
{
    if waiting.len() > 0 {
        let rest = waiting.drop_first();
        assert(waiting[0].1 != key);
        assert forall|i: int| 0 <= i < rest.len() implies (#[trigger] rest[i]).1 != key by {
            assert(rest[i] == waiting[i + 1]);
        }
        lemma_nobody_waits(rest, key);
    }
}

/// Behind the timers come what the devices' adapters produced on a tick and then what the
/// consumers ask for, each in the order of the adapters.
pub proof fn adapters_come_before_consumers(w: Wiring, pre: Core, post: Core)
    requires
        ticked(w, pre, post),
        w.places.len() == 1,
        w.northbound == 1,
    ensures
        post.trace.len() == pre.trace.len() + 1,
        post.trace.last() is Ticked,
        post.trace.last()->Ticked_now == w.now,
        ({
            let timers = post.trace.last()->Ticked_timers;
            let south = post.trace.last()->Ticked_adapters[0];
            let north = post.trace.last()->Ticked_northbound[0];
            let n = pre.queue.len() as int;
            &&& post.queue.len() == n + timers.len() + south.len() + north.len()
            &&& forall|i: int|
                0 <= i < timers.len() ==> (#[trigger] timers[i], 0u32) == post.queue[n + i]
            &&& forall|i: int|
                0 <= i < south.len() ==> (#[trigger] south[i], 0u32) == post.queue[n + timers.len()
                    + i]
            &&& forall|i: int|
                0 <= i < north.len() ==> (#[trigger] north[i], 0u32) == post.queue[n + timers.len()
                    + south.len() + i]
        }),
{
    let (keys, south, clocks, north) = choose|
        keys: Seq<Seq<char>>,
        south: Seq<Seq<EventV>>,
        clocks: Seq<Option<ClockV>>,
        north: Seq<Seq<EventV>>,
    |
        is_due_list(pre.timers, w.now, keys) && can_tick(w, pre.trace, south, clocks)
            && north.len() == w.northbound && post == #[trigger] after_tick(
            w,
            pre,
            keys,
            south,
            clocks,
            north,
        );
    reveal_with_fuel(chained, 2);
    assert(south.drop_last().len() == 0 && north.drop_last().len() == 0);
    assert(chained(south) =~= south[0]);
    assert(chained(north) =~= north[0]);
    assert(post.queue == pre.queue + at_depth(elapsed(keys) + south[0] + north[0], 0));
}

} // verus!
