//! Laws of the event loop: what every turn keeps, and why replay is deterministic.

use vstd::prelude::*;

use crate::adapters::clock::ClockV;
use crate::adapters::scheduler::{elapsed, is_due_list};
use crate::adapters::mock::{commanded_state, echoed, echoing};
use crate::adapters::{is_timer_event, noted_all, Call, OutcomeV};
use crate::causality::{
    adapter_added, after_tick, announced, armed, armed_all, as_report, at_depth, attended,
    backoff_after, between, calls_for, calls_in, calls_on, can_tick, chained, clock_after,
    clock_of_place, considered, core_ok, dispatch_all_frame, dispatch_frame, dispatched,
    dispatched_all, dispatching, every_turn_nears_the_end, expands, explicit, fanned, find_rule,
    folded, folds, for_prefix, goes_on, grown, handed_over, heard, in_step, is_announced,
    is_dispatching, lemma_filter_one_each, lemma_goes_on, one_timer_each, other_than, power_of_two,
    present, prior_of, queue_ok, ran, ran_dry, requested_command, retries_ok, route, rule_of_timer,
    ruled, settled_answer, stepped, still_holds, synced, ticked, told, told_all, waited_out,
    wiring_ok, without, Core, Logs, Notice, Party, Place, Wiring,
};
use crate::engine::RetryPolicy;
use crate::ids::{AdapterIdx, DeviceId, RuleId};
use crate::model::{command_views, CapabilityKind, CapabilityState, CommandV, EventV, Millis};
use crate::rule::{Rule, Truth};
use crate::state::{
    kinds_agree, known_bool, lists_known, reported, snapshot_of, Known, StateKey,
};
use crate::table::lemma_filter_all;
use crate::text::has_prefix;

verus! {

// ------------------------------------------------------------ what every turn keeps

proof fn lemma_armed_keeps(c: Core, rule: RuleId, after: Millis, now: Millis)
    requires
        one_timer_each(c.waiting),
    ensures
        one_timer_each(armed(c, rule, after, now).waiting),
{
    let left = without(c.waiting, rule);
    lemma_filter_one_each(c.waiting, other_than(rule));
    let all = armed(c, rule, after, now).waiting;
    assert forall|i: int, j: int| 0 <= i < j < all.len() implies (#[trigger] all[i]).0 != (
    #[trigger] all[j]).0 by {
        assert(all[i] == left[i]);
        if j == left.len() {
            lemma_filter_passes(c.waiting, other_than(rule), i);
        } else {
            assert(all[j] == left[j]);
        }
    }
}

pub(crate) proof fn lemma_filter_passes<A>(s: Seq<A>, keep: spec_fn(A) -> bool, i: int)
    requires
        0 <= i < s.filter(keep).len(),
    ensures
        keep(s.filter(keep)[i]),
    decreases s.len(),
{
    reveal(Seq::filter);
    if s.len() > 0 {
        let init = s.drop_last().filter(keep);
        if i < init.len() {
            lemma_filter_passes(s.drop_last(), keep, i);
        }
    }
}

proof fn lemma_armed_all_keeps(c: Core, arms: Seq<(RuleId, Millis)>, now: Millis)
    requires
        one_timer_each(c.waiting),
    ensures
        ({
            let post = armed_all(c, arms, now);
            &&& one_timer_each(post.waiting)
            &&& post.queue == c.queue
            &&& post.retries == c.retries
            &&& post.known == c.known
            &&& post.trace == c.trace
        }),
    decreases arms.len(),
{
    if arms.len() > 0 {
        lemma_armed_all_keeps(c, arms.drop_last(), now);
        lemma_armed_keeps(
            armed_all(c, arms.drop_last(), now),
            arms.last().0,
            arms.last().1,
            now,
        );
    }
}

/// After the first notice of a turn that processes its event, the trace goes on from it.
pub(crate) proof fn lemma_turn_goes_on(w: Wiring, fuel: nat, pre: Core, post: Core)
    requires
        wiring_ok(w),
        core_ok(w, pre),
        stepped(w, fuel, pre, post),
        pre.queue[0].1 <= w.max_depth,
    ensures
        pre.trace.push(
            Notice::EventReceived { event: pre.queue[0].0, depth: pre.queue[0].1 },
        ).is_prefix_of(post.trace),
{
    let raw = pre.queue[0].0;
    let depth = pre.queue[0].1;
    let rest = Core { queue: pre.queue.drop_first(), ..pre };
    let ev = as_report(raw);
    let c = told(rest, Notice::EventReceived { event: raw, depth });
    assert(queue_ok(w, pre.queue));
    match ev {
        EventV::TimerElapsed { key } => {
            assert(depth == 0) by {
                assert(pre.queue[0].1 > 0 ==> !is_timer_event(pre.queue[0].0));
            }
            if c.retries.contains_key(key) {
                let c1 = Core { retries: c.retries.remove(key), ..c };
                dispatch_frame(w, fuel, c1, c.retries[key].0, c.retries[key].1, 0, post);
            } else if has_prefix(key, crate::causality::for_prefix()) {
                lemma_waited_out(w, fuel, c, key, post);
            } else {
                lemma_ruled(w, fuel, c, ev, depth, post);
            }
        },
        EventV::RequestedChange { device, desired } => {
            match requested_command(device, desired) {
                Some(cmd) => dispatch_frame(w, fuel, c, cmd, 1, depth, post),
                None => {},
            }
        },
        EventV::RequestedScene { scene } => {
            dispatch_frame(w, fuel, c, CommandV::ActivateScene { scene }, 1, depth, post);
        },
        _ => lemma_ruled(w, fuel, c, ev, depth, post),
    }
}

/// One turn of the loop takes the front event off the queue and puts whatever it
/// causes behind the others, one causal hop deeper. It keeps at most one pending
/// wait per rule, and the trace only grows.
pub proof fn turn_frame(w: Wiring, fuel: nat, pre: Core, post: Core)
    requires
        wiring_ok(w),
        core_ok(w, pre),
        stepped(w, fuel, pre, post),
    ensures
        grown(pre.queue.drop_first(), post.queue, pre.queue[0].1 + 1),
        pre.queue[0].1 > w.max_depth ==> post.queue == pre.queue.drop_first(),
        core_ok(w, post),
        goes_on(pre.trace, post.trace),
        pre.trace.len() < post.trace.len(),
{
    let raw = pre.queue[0].0;
    let depth = pre.queue[0].1;
    let rest = Core { queue: pre.queue.drop_first(), ..pre };
    let ev = as_report(raw);
    let c = told(rest, Notice::EventReceived { event: raw, depth });
    assert(queue_ok(w, pre.queue));
    if depth <= w.max_depth {
        match ev {
            EventV::TimerElapsed { key } => {
                assert(depth == 0) by {
                    assert(pre.queue[0].1 > 0 ==> !is_timer_event(pre.queue[0].0));
                }
                if c.retries.contains_key(key) {
                    let c1 = Core { retries: c.retries.remove(key), ..c };
                    dispatch_frame(w, fuel, c1, c.retries[key].0, c.retries[key].1, 0, post);
                } else if has_prefix(key, crate::causality::for_prefix()) {
                    lemma_waited_out(w, fuel, c, key, post);
                } else {
                    lemma_ruled(w, fuel, c, ev, depth, post);
                }
            },
            EventV::RequestedChange { device, desired } => {
                match requested_command(device, desired) {
                    Some(cmd) => dispatch_frame(w, fuel, c, cmd, 1, depth, post),
                    None => {},
                }
            },
            EventV::RequestedScene { scene } => {
                dispatch_frame(w, fuel, c, CommandV::ActivateScene { scene }, 1, depth, post);
            },
            _ => lemma_ruled(w, fuel, c, ev, depth, post),
        }
        assert(goes_on(pre.trace, c.trace));
        lemma_goes_on(pre.trace, c.trace, post.trace);
    }
    every_turn_nears_the_end(w, pre.queue, post.queue);
}

proof fn lemma_waited_out(w: Wiring, fuel: nat, c: Core, key: Seq<char>, post: Core)
    requires
        waited_out(w, fuel, c, key, post),
        retries_ok(w, c.retries),
        one_timer_each(c.waiting),
    ensures
        grown(c.queue, post.queue, 1),
        retries_ok(w, post.retries),
        one_timer_each(post.waiting),
        dispatching(c.trace, post.trace),
        post.known == c.known,
{
    match rule_of_timer(c.waiting, key) {
        None => {},
        Some(id) => {
            let c1 = Core { waiting: without(c.waiting, id), ..c };
            lemma_filter_one_each(c.waiting, other_than(id));
            match find_rule(w.rules, id) {
                None => {},
                Some(rule) => {
                    if rule.trigger.sustained(c1.known) {
                        dispatch_all_frame(w, fuel, c1, command_views(rule.commands@), 0, post);
                    }
                },
            }
        },
    }
}

proof fn lemma_only_considered(
    rules: Seq<Rule>,
    n: nat,
    ev: EventV,
    prior: Option<CapabilityState>,
    known: Known,
)
    ensures
        forall|i: int|
            0 <= i < considered(rules, n, ev, prior, known).notices.len() ==> (#[trigger]
            considered(rules, n, ev, prior, known).notices[i]) is RuleConsidered,
    decreases n,
{
    if n > 0 && n <= rules.len() {
        lemma_only_considered(rules, (n - 1) as nat, ev, prior, known);
    }
}

proof fn lemma_ruled(w: Wiring, fuel: nat, c: Core, ev: EventV, depth: u32, post: Core)
    requires
        ruled(w, fuel, c, ev, depth, post),
        depth < u32::MAX,
        retries_ok(w, c.retries),
        one_timer_each(c.waiting),
    ensures
        grown(c.queue, post.queue, depth + 1),
        retries_ok(w, post.retries),
        one_timer_each(post.waiting),
        goes_on(c.trace, post.trace),
        post.known == folded(w, c, ev).known,
{
    let prior = prior_of(c.known, ev);
    let c1 = folded(w, c, ev);
    match ev {
        EventV::StateReported { device, state } => {
            let mid = Core {
                known: reported(c.known, device, state),
                ..told(c, Notice::StateFolded { device, state })
            };
            lemma_filter_one_each(
                mid.waiting,
                |e: (RuleId, Seq<char>)| still_holds(w.rules, mid.known, e.0),
            );
        },
        _ => {},
    }
    let v = considered(w.rules, w.rules.len(), ev, prior, c1.known);
    let c2 = told_all(c1, v.notices);
    lemma_armed_all_keeps(c2, v.arms, w.now);
    let c3 = armed_all(c2, v.arms, w.now);
    dispatch_all_frame(w, fuel, c3, v.commands, depth, post);
    lemma_only_considered(w.rules, w.rules.len(), ev, prior, c1.known);
    assert(goes_on(c1.trace, c2.trace));
    assert(goes_on(c.trace, c1.trace));
    lemma_goes_on(c.trace, c1.trace, c2.trace);
    lemma_goes_on(c.trace, c2.trace, post.trace);
}

/// A consumer's request never becomes state by itself: what is known is left as it
/// was, and changes only when a device reports.
pub proof fn request_is_not_a_report(w: Wiring, fuel: nat, pre: Core, post: Core)
    requires
        wiring_ok(w),
        core_ok(w, pre),
        stepped(w, fuel, pre, post),
        pre.queue[0].0 is RequestedChange || pre.queue[0].0 is RequestedScene,
    ensures
        post.known == pre.known,
        post.waiting == pre.waiting,
{
    let raw = pre.queue[0].0;
    let depth = pre.queue[0].1;
    let rest = Core { queue: pre.queue.drop_first(), ..pre };
    let c = told(rest, Notice::EventReceived { event: raw, depth });
    if depth <= w.max_depth {
        match raw {
            EventV::RequestedChange { device, desired } => {
                match requested_command(device, desired) {
                    Some(cmd) => dispatch_frame(w, fuel, c, cmd, 1, depth, post),
                    None => {},
                }
            },
            EventV::RequestedScene { scene } => {
                dispatch_frame(w, fuel, c, CommandV::ActivateScene { scene }, 1, depth, post);
            },
            _ => {},
        }
    }
}

/// What is known changes by state reports alone, and then by exactly the report.
pub proof fn only_reports_change_state(w: Wiring, fuel: nat, pre: Core, post: Core)
    requires
        wiring_ok(w),
        core_ok(w, pre),
        stepped(w, fuel, pre, post),
    ensures
        post.known == match as_report(pre.queue[0].0) {
            EventV::StateReported { device, state } => if pre.queue[0].1 <= w.max_depth {
                reported(pre.known, device, state)
            } else {
                pre.known
            },
            _ => pre.known,
        },
{
    let raw = pre.queue[0].0;
    let depth = pre.queue[0].1;
    let rest = Core { queue: pre.queue.drop_first(), ..pre };
    let ev = as_report(raw);
    let c = told(rest, Notice::EventReceived { event: raw, depth });
    if depth <= w.max_depth {
        match ev {
            EventV::TimerElapsed { key } => {
                if c.retries.contains_key(key) {
                    let c1 = Core { retries: c.retries.remove(key), ..c };
                    dispatch_frame(w, fuel, c1, c.retries[key].0, c.retries[key].1, 0, post);
                } else if has_prefix(key, crate::causality::for_prefix()) {
                    lemma_waited_out(w, fuel, c, key, post);
                } else {
                    lemma_ruled(w, fuel, c, ev, depth, post);
                }
            },
            EventV::RequestedChange { .. } => request_is_not_a_report(w, fuel, pre, post),
            EventV::RequestedScene { .. } => request_is_not_a_report(w, fuel, pre, post),
            _ => lemma_ruled(w, fuel, c, ev, depth, post),
        }
    }
}

/// Past the configured depth an event has no effect: it is dropped, observers hear
/// of it, and nothing comes of it.
pub proof fn cascades_are_cut(w: Wiring, fuel: nat, pre: Core, post: Core)
    requires
        stepped(w, fuel, pre, post),
        pre.queue[0].1 > w.max_depth,
    ensures
        post.known == pre.known,
        post.timers == pre.timers,
        post.retries == pre.retries,
        post.waiting == pre.waiting,
        post.queue == pre.queue.drop_first(),
        post.trace.last() is CascadeDropped,
{
}

/// A report leaves no rule waiting on a predicate that no longer holds.
pub proof fn reverted_waits_are_cancelled(
    w: Wiring,
    c: Core,
    device: DeviceId,
    state: CapabilityState,
    i: int,
)
    requires
        0 <= i < folded(w, c, EventV::StateReported { device, state }).waiting.len(),
    ensures
        ({
            let after = folded(w, c, EventV::StateReported { device, state });
            still_holds(w.rules, after.known, after.waiting[i].0)
        }),
{
    let mid = Core {
        known: reported(c.known, device, state),
        ..told(c, Notice::StateFolded { device, state })
    };
    lemma_filter_passes(
        mid.waiting,
        |e: (RuleId, Seq<char>)| still_holds(w.rules, mid.known, e.0),
        i,
    );
}

// ------------------------------------------------------------ commands made explicit

/// A toggle is dispatched as such only while the switch is unknown, and where it is
/// known it asks for the opposite.
pub proof fn toggle_is_explicit(known: Known, device: DeviceId)
    ensures
        explicit(known, CommandV::ToggleSwitch { device }) == match known_bool(
            known,
            device,
            CapabilityKind::Switch,
        ) {
            Some(on) => CommandV::SetSwitch { device, on: !on },
            None => CommandV::ToggleSwitch { device },
        },
{
}

/// Two toggles of a device that obeys bring its switch back to where it was.
pub proof fn two_toggles_cancel(known: Known, device: DeviceId, on: bool)
    requires
        known_bool(known, device, CapabilityKind::Switch) == Some(on),
    ensures
        explicit(known, CommandV::ToggleSwitch { device }) == (CommandV::SetSwitch {
            device,
            on: !on,
        }),
        explicit(
            reported(known, device, CapabilityState::Switch(!on)),
            CommandV::ToggleSwitch { device },
        ) == (CommandV::SetSwitch { device, on }),
{
}

/// A relative brightness never leaves `0..=100` once the level is known.
pub proof fn adjusted_brightness_is_a_percentage(known: Known, device: DeviceId, value: u8)
    ensures
        ({
            let down = explicit(known, CommandV::DecreaseBrightness { device, value });
            let up = explicit(known, CommandV::IncreaseBrightness { device, value });
            &&& down is SetBrightness ==> down->SetBrightness_value <= 100
            &&& up is SetBrightness ==> up->SetBrightness_value <= 100
        }),
{
}

/// Only a condition that is true lets a rule act: where no rule that an event triggers
/// has one, the rules emit no command and none starts to wait. A condition that reads
/// what was never reported is not true.
pub proof fn only_true_conditions_fire(
    rules: Seq<Rule>,
    n: nat,
    ev: EventV,
    prior: Option<CapabilityState>,
    known: Known,
)
    requires
        n <= rules.len(),
        forall|i: int|
            0 <= i < n && (#[trigger] rules[i]).trigger.fires(ev, prior)
                ==> rules[i].condition.truth(known) != Truth::True,
    ensures
        considered(rules, n, ev, prior, known).commands.len() == 0,
        considered(rules, n, ev, prior, known).arms.len() == 0,
    decreases n,
{
    if n > 0 {
        only_true_conditions_fire(rules, (n - 1) as nat, ev, prior, known);
    }
}

// ------------------------------------------------------------ retries

/// The first wait is the base delay, and each further one twice the last, up to
/// the sixteenth attempt, as long as it can be represented.
pub proof fn backoff_doubles(retry: RetryPolicy, attempt: u32)
    requires
        1 <= attempt < 16,
        retry.base_backoff * power_of_two(attempt as nat) <= u64::MAX,
    ensures
        backoff_after(retry, 1) == retry.base_backoff,
        backoff_after(retry, (attempt + 1) as u32) == 2 * backoff_after(retry, attempt),
{
    let p = power_of_two((attempt - 1) as nat);
    assert(power_of_two(attempt as nat) == 2 * p);
    assert(retry.base_backoff * (2 * p) == 2 * (retry.base_backoff * p)) by (nonlinear_arith);
    assert(power_of_two(0) == 1);
    assert(retry.base_backoff * 1 == retry.base_backoff);
    assert(retry.base_backoff * p >= 0) by (nonlinear_arith)
        requires
            retry.base_backoff >= 0,
            p >= 0,
    ;
}

/// A command whose last allowed attempt failed is given up, and never retried.
pub proof fn last_attempt_gives_up(
    w: Wiring,
    c: Core,
    reason: Seq<char>,
    cmd: CommandV,
    attempt: u32,
    depth: u32,
)
    requires
        attempt >= w.retry.max_attempts,
    ensures
        ({
            let post = settled_answer(w, c, OutcomeV::Transient(reason), cmd, attempt, depth);
            &&& post.retries == c.retries
            &&& post.timers == c.timers
            &&& post.queue == c.queue.push(
                (EventV::CommandFailed { command: cmd, reason, attempts: attempt }, (depth + 1)
                    as u32),
            )
        }),
{
    let post = settled_answer(w, c, OutcomeV::Transient(reason), cmd, attempt, depth);
    assert(post.queue =~= c.queue.push(
        (EventV::CommandFailed { command: cmd, reason, attempts: attempt }, (depth + 1) as u32),
    ));
}

/// What a device that becomes whatever it is told is told to be comes back as its own
/// report, one causal hop deeper.
pub proof fn echoing_devices_report_back(
    w: Wiring,
    fuel: nat,
    pre: Core,
    cmd: CommandV,
    attempt: u32,
    depth: u32,
    post: Core,
    idx: AdapterIdx,
)
    requires
        dispatched(w, fuel, pre, cmd, attempt, depth, post),
        commanded_state(cmd) is Some,
        route(w, cmd) == Some(idx),
        0 < idx <= w.places.len(),
        w.places[idx - 1].manner == echoing(),
    ensures
        ({
            let (device, state) = commanded_state(cmd)->0;
            post.queue == pre.queue.push(
                (EventV::StateReported { device, state }, (depth + 1) as u32),
            )
        }),
{
    let (device, state) = commanded_state(cmd)->0;
    let c = told(pre, Notice::CommandDispatched { command: cmd, depth });
    let out = choose|out: OutcomeV| #[trigger] handed_over(w, c, cmd, attempt, depth, out, post);
    assert(out == echoed(cmd));
    assert(post.queue =~= pre.queue.push(
        (EventV::StateReported { device, state }, (depth + 1) as u32),
    ));
}

// ------------------------------------------------------------ determinism

/// The answers that device adapters gave, in order.
pub open spec fn answers(trace: Seq<Notice>) -> Seq<Notice> {
    trace.filter(is_answer())
}

pub open spec fn is_answer() -> spec_fn(Notice) -> bool {
    |n: Notice| n is Answered
}

proof fn lemma_answers_prefix(a: Seq<Notice>, b: Seq<Notice>)
    requires
        a.is_prefix_of(b),
    ensures
        answers(a).is_prefix_of(answers(b)),
{
    let t = b.skip(a.len() as int);
    assert(b =~= a + t);
    Seq::filter_distributes_over_add(a, t, is_answer());
    assert(answers(b) =~= answers(a) + t.filter(is_answer()));
}

proof fn lemma_answers_push(a: Seq<Notice>, n: Notice)
    ensures
        answers(a.push(n)) == if n is Answered {
            answers(a).push(n)
        } else {
            answers(a)
        },
{
    reveal(Seq::filter);
    assert(a.push(n).drop_last() =~= a);
}

proof fn lemma_trace_grows(
    w: Wiring,
    fuel: nat,
    pre: Core,
    cmd: CommandV,
    attempt: u32,
    depth: u32,
    post: Core,
)
    requires
        dispatched(w, fuel, pre, cmd, attempt, depth, post),
    ensures
        pre.trace.is_prefix_of(post.trace),
    decreases fuel, 0int,
{
    let ex = explicit(pre.known, cmd);
    let c = told(pre, Notice::CommandDispatched { command: ex, depth });
    match ex {
        CommandV::ActivateScene { scene } => {
            if expands(w.scenes, scene) {
                let c1 = told(c, Notice::SceneExpanded { scene, count: w.scenes[scene].len() });
                lemma_trace_grows_all(w, (fuel - 1) as nat, c1, w.scenes[scene], depth, post);
            }
        },
        CommandV::ScheduleTimer { .. } => {},
        CommandV::CancelTimer { .. } => {},
        _ => {
            let out = choose|out: OutcomeV| #[trigger]
                handed_over(w, c, ex, attempt, depth, out, post);
        },
    }
}

proof fn lemma_trace_grows_all(
    w: Wiring,
    fuel: nat,
    pre: Core,
    cmds: Seq<CommandV>,
    depth: u32,
    post: Core,
)
    requires
        dispatched_all(w, fuel, pre, cmds, depth, post),
    ensures
        pre.trace.is_prefix_of(post.trace),
    decreases fuel, cmds.len() + 1,
{
    if cmds.len() > 0 {
        let mid = choose|mid: Core| #[trigger]
            between(mid) && dispatched_all(w, fuel, pre, cmds.drop_last(), depth, mid)
                && dispatched(w, fuel, mid, cmds.last(), 1, depth, post);
        lemma_trace_grows_all(w, fuel, pre, cmds.drop_last(), depth, mid);
        lemma_trace_grows(w, fuel, mid, cmds.last(), 1, depth, post);
    }
}

proof fn lemma_same_dispatch(
    w: Wiring,
    f: nat,
    g: nat,
    pre: Core,
    cmd: CommandV,
    attempt: u32,
    depth: u32,
    a: Core,
    b: Core,
    t: Seq<Notice>,
)
    requires
        dispatched(w, f, pre, cmd, attempt, depth, a),
        dispatched(w, g, pre, cmd, attempt, depth, b),
        answers(a.trace).is_prefix_of(t),
        answers(b.trace).is_prefix_of(t),
    ensures
        a == b,
    decreases f, 0int,
{
    let ex = explicit(pre.known, cmd);
    let c = told(pre, Notice::CommandDispatched { command: ex, depth });
    match ex {
        CommandV::ActivateScene { scene } => {
            if expands(w.scenes, scene) {
                let c1 = told(c, Notice::SceneExpanded { scene, count: w.scenes[scene].len() });
                lemma_same_dispatch_all(
                    w,
                    (f - 1) as nat,
                    (g - 1) as nat,
                    c1,
                    w.scenes[scene],
                    depth,
                    a,
                    b,
                    t,
                );
            }
        },
        CommandV::ScheduleTimer { .. } => {},
        CommandV::CancelTimer { .. } => {},
        _ => {
            let x = choose|out: OutcomeV| #[trigger]
                handed_over(w, c, ex, attempt, depth, out, a);
            let y = choose|out: OutcomeV| #[trigger]
                handed_over(w, c, ex, attempt, depth, out, b);
            match route(w, ex) {
                Some(idx) => {
                    let nx = Notice::Answered { adapter: idx, command: ex, now: w.now, outcome: x };
                    let ny = Notice::Answered { adapter: idx, command: ex, now: w.now, outcome: y };
                    let cx = told(c, nx);
                    let cy = told(c, ny);
                    assert(cx.trace.is_prefix_of(a.trace));
                    assert(cy.trace.is_prefix_of(b.trace));
                    lemma_answers_prefix(cx.trace, a.trace);
                    lemma_answers_prefix(cy.trace, b.trace);
                    lemma_answers_push(c.trace, nx);
                    lemma_answers_push(c.trace, ny);
                    let k = answers(c.trace).len() as int;
                    assert(answers(cx.trace)[k] == nx && answers(cy.trace)[k] == ny);
                    assert(answers(a.trace).subrange(0, k + 1)[k] == nx);
                    assert(answers(b.trace).subrange(0, k + 1)[k] == ny);
                    assert(t.subrange(0, answers(a.trace).len() as int)[k] == nx);
                    assert(t.subrange(0, answers(b.trace).len() as int)[k] == ny);
                },
                None => {},
            }
        },
    }
}

proof fn lemma_same_dispatch_all(
    w: Wiring,
    f: nat,
    g: nat,
    pre: Core,
    cmds: Seq<CommandV>,
    depth: u32,
    a: Core,
    b: Core,
    t: Seq<Notice>,
)
    requires
        dispatched_all(w, f, pre, cmds, depth, a),
        dispatched_all(w, g, pre, cmds, depth, b),
        answers(a.trace).is_prefix_of(t),
        answers(b.trace).is_prefix_of(t),
    ensures
        a == b,
    decreases f, cmds.len() + 1,
{
    if cmds.len() > 0 {
        let x = choose|mid: Core| #[trigger]
            between(mid) && dispatched_all(w, f, pre, cmds.drop_last(), depth, mid) && dispatched(
                w,
                f,
                mid,
                cmds.last(),
                1,
                depth,
                a,
            );
        let y = choose|mid: Core| #[trigger]
            between(mid) && dispatched_all(w, g, pre, cmds.drop_last(), depth, mid) && dispatched(
                w,
                g,
                mid,
                cmds.last(),
                1,
                depth,
                b,
            );
        lemma_trace_grows(w, f, x, cmds.last(), 1, depth, a);
        lemma_trace_grows(w, g, y, cmds.last(), 1, depth, b);
        lemma_answers_prefix(x.trace, a.trace);
        lemma_answers_prefix(y.trace, b.trace);
        lemma_same_dispatch_all(w, f, g, pre, cmds.drop_last(), depth, x, y, t);
        lemma_same_dispatch(w, f, g, x, cmds.last(), 1, depth, a, b, t);
    }
}

/// One turn of the loop is determined by the state it starts from and the answers
/// the adapters give.
pub proof fn turn_is_deterministic(
    w: Wiring,
    f: nat,
    g: nat,
    pre: Core,
    a: Core,
    b: Core,
    t: Seq<Notice>,
)
    requires
        stepped(w, f, pre, a),
        stepped(w, g, pre, b),
        answers(a.trace).is_prefix_of(t),
        answers(b.trace).is_prefix_of(t),
    ensures
        a == b,
{
    let raw = pre.queue[0].0;
    let depth = pre.queue[0].1;
    let rest = Core { queue: pre.queue.drop_first(), ..pre };
    let ev = as_report(raw);
    let c = told(rest, Notice::EventReceived { event: raw, depth });
    if depth <= w.max_depth {
        let prior = prior_of(c.known, ev);
        let c1 = folded(w, c, ev);
        let v = considered(w.rules, w.rules.len(), ev, prior, c1.known);
        let c2 = armed_all(told_all(c1, v.notices), v.arms, w.now);
        match ev {
            EventV::TimerElapsed { key } => {
                if c.retries.contains_key(key) {
                    lemma_same_dispatch(
                        w,
                        f,
                        g,
                        Core { retries: c.retries.remove(key), ..c },
                        c.retries[key].0,
                        c.retries[key].1,
                        0,
                        a,
                        b,
                        t,
                    );
                } else if has_prefix(key, crate::causality::for_prefix()) {
                    match rule_of_timer(c.waiting, key) {
                        None => {},
                        Some(id) => {
                            let c3 = Core { waiting: without(c.waiting, id), ..c };
                            match find_rule(w.rules, id) {
                                None => {},
                                Some(rule) => {
                                    if rule.trigger.sustained(c3.known) {
                                        lemma_same_dispatch_all(
                                            w,
                                            f,
                                            g,
                                            c3,
                                            command_views(rule.commands@),
                                            0,
                                            a,
                                            b,
                                            t,
                                        );
                                    }
                                },
                            }
                        },
                    }
                } else {
                    lemma_same_dispatch_all(w, f, g, c2, v.commands, depth, a, b, t);
                }
            },
            EventV::RequestedChange { device, desired } => {
                match requested_command(device, desired) {
                    Some(cmd) => lemma_same_dispatch(w, f, g, c, cmd, 1, depth, a, b, t),
                    None => {},
                }
            },
            EventV::RequestedScene { scene } => {
                lemma_same_dispatch(
                    w,
                    f,
                    g,
                    c,
                    CommandV::ActivateScene { scene },
                    1,
                    depth,
                    a,
                    b,
                    t,
                );
            },
            _ => lemma_same_dispatch_all(w, f, g, c2, v.commands, depth, a, b, t),
        }
    }
}

proof fn lemma_ran_keeps(w: Wiring, n: nat, pre: Core, post: Core)
    requires
        wiring_ok(w),
        core_ok(w, pre),
        ran(w, n, pre, post),
    ensures
        core_ok(w, post),
        goes_on(pre.trace, post.trace),
    decreases n,
{
    if n > 0 {
        let (mid, fuel) = choose|mid: Core, fuel: nat|
            ran(w, (n - 1) as nat, pre, mid) && #[trigger] stepped(w, fuel, mid, post);
        lemma_ran_keeps(w, (n - 1) as nat, pre, mid);
        turn_frame(w, fuel, mid, post);
        lemma_goes_on(pre.trace, mid.trace, post.trace);
    }
}

proof fn lemma_same_run(w: Wiring, n: nat, pre: Core, a: Core, b: Core, t: Seq<Notice>)
    requires
        wiring_ok(w),
        core_ok(w, pre),
        ran(w, n, pre, a),
        ran(w, n, pre, b),
        answers(a.trace).is_prefix_of(t),
        answers(b.trace).is_prefix_of(t),
    ensures
        a == b,
    decreases n,
{
    if n > 0 {
        let (x, f) = choose|m: Core, fuel: nat|
            ran(w, (n - 1) as nat, pre, m) && #[trigger] stepped(w, fuel, m, a);
        let (y, g) = choose|m: Core, fuel: nat|
            ran(w, (n - 1) as nat, pre, m) && #[trigger] stepped(w, fuel, m, b);
        lemma_ran_keeps(w, (n - 1) as nat, pre, x);
        lemma_ran_keeps(w, (n - 1) as nat, pre, y);
        turn_frame(w, f, x, a);
        turn_frame(w, g, y, b);
        lemma_answers_prefix(x.trace, a.trace);
        lemma_answers_prefix(y.trace, b.trace);
        lemma_same_run(w, (n - 1) as nat, pre, x, y, t);
        turn_is_deterministic(w, f, g, x, a, b, t);
    }
}

/// The state after the first `k` turns of a run.
proof fn lemma_ran_prefix_trace(w: Wiring, n: nat, k: nat, pre: Core, post: Core) -> (mid: Core)
    requires
        wiring_ok(w),
        core_ok(w, pre),
        ran(w, n, pre, post),
        k <= n,
    ensures
        ran(w, k, pre, mid),
        k == n ==> mid == post,
        k < n ==> mid.queue.len() > 0,
        mid.trace.is_prefix_of(post.trace),
    decreases n,
{
    if k == n {
        post
    } else {
        let (m, fuel) = choose|m: Core, fuel: nat|
            ran(w, (n - 1) as nat, pre, m) && #[trigger] stepped(w, fuel, m, post);
        lemma_ran_keeps(w, (n - 1) as nat, pre, m);
        turn_frame(w, fuel, m, post);
        let mid = lemma_ran_prefix_trace(w, (n - 1) as nat, k, pre, m);
        mid
    }
}

/// Replay is deterministic: from one state, with the same answers from the
/// adapters, the loop runs dry in one state only, having shown the outside one and
/// the same trace.
pub proof fn replay_is_deterministic(w: Wiring, pre: Core, a: Core, b: Core)
    requires
        wiring_ok(w),
        core_ok(w, pre),
        ran_dry(w, pre, a),
        ran_dry(w, pre, b),
        answers(a.trace) == answers(b.trace),
    ensures
        a == b,
{
    let n = choose|n: nat| #[trigger] ran(w, n, pre, a);
    let m = choose|m: nat| #[trigger] ran(w, m, pre, b);
    let t = answers(a.trace);
    if n <= m {
        let mid = lemma_ran_prefix_trace(w, m, n, pre, b);
        lemma_answers_prefix(mid.trace, b.trace);
        lemma_same_run(w, n, pre, a, mid, t);
    } else {
        let mid = lemma_ran_prefix_trace(w, n, m, pre, a);
        lemma_answers_prefix(mid.trace, a.trace);
        lemma_same_run(w, m, pre, b, mid, t);
    }
}

// ------------------------------------------------------------ what observers hear

proof fn lemma_present(joined: Seq<nat>, at: nat, i: int)
    requires
        forall|i: int, j: int| 0 <= i < j < joined.len() ==> joined[i] <= joined[j],
        0 <= i < joined.len(),
    ensures
        i < present(joined, at) <==> joined[i] <= at,
    decreases joined.len(),
{
    reveal(Seq::filter);
    let keep = |j: nat| j <= at;
    if joined.last() <= at {
        assert forall|k: int| 0 <= k < joined.len() implies keep(#[trigger] joined[k]) by {
            if k + 1 < joined.len() {
                assert(joined[k] <= joined[joined.len() - 1]);
            }
        }
        lemma_filter_all(joined, keep);
    } else {
        let init = joined.drop_last();
        init.lemma_filter_len(keep);
        if i < init.len() {
            lemma_present(init, at, i);
        }
    }
}

proof fn lemma_heard_add(a: Seq<(nat, Notice)>, b: Seq<(nat, Notice)>, i: nat)
    ensures
        heard(a + b, i) == heard(a, i) + heard(b, i),
{
    Seq::filter_distributes_over_add(a, b, |c: (nat, Notice)| c.0 == i);
    assert(heard(a + b, i) =~= heard(a, i) + heard(b, i));
}

proof fn lemma_heard_fanned(n: Notice, count: nat, i: nat)
    ensures
        heard(fanned(n, count), i) == if i < count {
            seq![n]
        } else {
            Seq::empty()
        },
    decreases count,
{
    reveal(Seq::filter);
    if count > 0 {
        lemma_heard_fanned(n, (count - 1) as nat, i);
        assert(fanned(n, count).drop_last() =~= fanned(n, (count - 1) as nat));
    }
    assert(heard(fanned(n, count), i) =~= if i < count {
        seq![n]
    } else {
        Seq::empty()
    });
}

proof fn lemma_heard(joined: Seq<nat>, trace: Seq<Notice>, i: nat)
    requires
        forall|i: int, j: int| 0 <= i < j < joined.len() ==> joined[i] <= joined[j],
        i < joined.len(),
    ensures
        heard(calls_for(joined, trace), i) == if joined[i as int] <= trace.len() {
            announced(trace.skip(joined[i as int] as int))
        } else {
            Seq::empty()
        },
    decreases trace.len(),
{
    reveal(Seq::filter);
    let from = joined[i as int] as int;
    if trace.len() == 0 {
        assert(heard(calls_for(joined, trace), i) =~= Seq::empty());
    } else {
        let earlier = trace.drop_last();
        let n = trace.last();
        let count = present(joined, earlier.len());
        lemma_heard(joined, earlier, i);
        lemma_present(joined, earlier.len(), i as int);
        lemma_heard_add(calls_for(joined, earlier), fanned(n, count), i);
        lemma_heard_fanned(n, count, i);
        if from <= earlier.len() {
            assert(trace.skip(from).drop_last() =~= earlier.skip(from));
            assert(trace.skip(from).last() == n);
        }
        assert(heard(calls_for(joined, trace), i) =~= if from <= trace.len() {
            announced(trace.skip(from))
        } else {
            Seq::empty()
        });
    }
}

/// The order of all calls on observers agrees with what each observer itself has heard.
pub proof fn call_order_is_what_was_heard(
    w: Wiring,
    logs: Logs,
    calls: Seq<(nat, Notice)>,
    trace: Seq<Notice>,
    observer: nat,
)
    requires
        attended(calls, w.joined, trace),
        in_step(w, logs, trace),
        observer < w.joined.len(),
    ensures
        logs.observers[observer as int] == noted_all(
            w.briefed[observer as int],
            heard(calls, observer),
        ),
{
    lemma_heard(w.joined, trace, observer);
    let log = logs.observers[observer as int];
}

proof fn lemma_calls_on_add(who: Party, a: Seq<Notice>, b: Seq<Notice>)
    ensures
        calls_on(who, a + b) == calls_on(who, a) + calls_on(who, b),
    decreases b.len(),
{
    if b.len() == 0 {
        assert(a + b =~= a);
        assert(calls_on(who, a) + Seq::<Call>::empty() =~= calls_on(who, a));
    } else {
        lemma_calls_on_add(who, a, b.drop_last());
        assert((a + b).drop_last() =~= a + b.drop_last());
        assert(calls_on(who, a) + (calls_on(who, b.drop_last()) + calls_in(b.last(), who))
            =~= calls_on(who, a) + calls_on(who, b.drop_last()) + calls_in(b.last(), who));
    }
}

proof fn lemma_noted_more(
    who: Party,
    before: Option<Seq<Call>>,
    from: nat,
    old_trace: Seq<Notice>,
    new_trace: Seq<Notice>,
)
    requires
        from <= old_trace.len(),
        old_trace.is_prefix_of(new_trace),
    ensures
        noted_all(before, calls_on(who, new_trace.skip(from as int))) == noted_all(
            noted_all(before, calls_on(who, old_trace.skip(from as int))),
            calls_on(who, new_trace.skip(old_trace.len() as int)),
        ),
{
    let had = old_trace.skip(from as int);
    let more = new_trace.skip(old_trace.len() as int);
    assert(new_trace.skip(from as int) =~= had + more);
    lemma_calls_on_add(who, had, more);
    if before is Some {
        assert(before->0 + (calls_on(who, had) + calls_on(who, more)) =~= before->0 + calls_on(
            who,
            had,
        ) + calls_on(who, more));
    }
}

/// What a run of the loop announces, every observer hears, in order, behind what it
/// had heard before; and it hears nothing else.
pub proof fn observers_hear_every_announcement(
    w: Wiring,
    pre: Core,
    post: Core,
    before: Logs,
    after: Logs,
    observer: int,
)
    requires
        wiring_ok(w),
        core_ok(w, pre),
        ran_dry(w, pre, post),
        in_step(w, before, pre.trace),
        in_step(w, after, post.trace),
        0 <= observer < w.joined.len(),
    ensures
        pre.trace.is_prefix_of(post.trace),
        after.observers[observer] == noted_all(
            before.observers[observer],
            announced(post.trace.skip(pre.trace.len() as int)),
        ),
{
    let n = choose|n: nat| #[trigger] ran(w, n, pre, post);
    lemma_ran_keeps(w, n, pre, post);
    lemma_observer_hears(w, before, after, pre.trace, post.trace, observer);
}

/// Every command that a run of the loop dispatches to an adapter, that adapter hears,
/// at the engine's time and in order; it hears nothing else, and what it answers is what
/// the loop goes by.
pub proof fn adapters_hear_every_command(
    w: Wiring,
    pre: Core,
    post: Core,
    before: Logs,
    after: Logs,
    i: int,
)
    requires
        wiring_ok(w),
        core_ok(w, pre),
        ran_dry(w, pre, post),
        in_step(w, before, pre.trace),
        in_step(w, after, post.trace),
        0 <= i < w.places.len(),
    ensures
        pre.trace.is_prefix_of(post.trace),
        after.adapters[i] == noted_all(
            before.adapters[i],
            calls_on(
                Party::Adapter((i + 1) as nat),
                post.trace.skip(pre.trace.len() as int),
            ),
        ),
{
    let n = choose|n: nat| #[trigger] ran(w, n, pre, post);
    lemma_ran_keeps(w, n, pre, post);
    let place = w.places[i];
    let then = before.adapters[i];
    let now = after.adapters[i];
    lemma_noted_more(
        Party::Adapter((i + 1) as nat),
        place.before,
        place.joined,
        pre.trace,
        post.trace,
    );
}

/// Every state that a run of the loop folds, every northbound adapter is handed, in
/// order, and nothing else.
pub proof fn mirrors_hear_every_fold(
    w: Wiring,
    pre: Core,
    post: Core,
    before: Logs,
    after: Logs,
    i: int,
)
    requires
        wiring_ok(w),
        core_ok(w, pre),
        ran_dry(w, pre, post),
        in_step(w, before, pre.trace),
        in_step(w, after, post.trace),
        0 <= i < w.mirrors.len(),
    ensures
        pre.trace.is_prefix_of(post.trace),
        after.northbound[i] == noted_all(
            before.northbound[i],
            calls_on(
                Party::Northbound(i as nat),
                post.trace.skip(pre.trace.len() as int),
            ),
        ),
{
    let n = choose|n: nat| #[trigger] ran(w, n, pre, post);
    lemma_ran_keeps(w, n, pre, post);
    let mirror = w.mirrors[i];
    let then = before.northbound[i];
    let now = after.northbound[i];
    lemma_noted_more(
        Party::Northbound(i as nat),
        mirror.before,
        mirror.joined,
        pre.trace,
        post.trace,
    );
}

/// Only a tick moves a clock: a run of the loop leaves every clock as it was.
pub proof fn runs_move_no_clock(w: Wiring, pre: Core, post: Core, i: int)
    requires
        wiring_ok(w),
        core_ok(w, pre),
        ran_dry(w, pre, post),
        0 <= i < w.places.len(),
        w.places[i].joined <= pre.trace.len(),
    ensures
        clock_of_place(w.places, i, post.trace) == clock_of_place(w.places, i, pre.trace),
{
    let n = choose|n: nat| #[trigger] ran(w, n, pre, post);
    lemma_ran_keeps(w, n, pre, post);
    let from = w.places[i].joined as int;
    lemma_clock_stays(
        w.places[i].clock,
        i,
        pre.trace.skip(from),
        post.trace.skip(pre.trace.len() as int),
    );
    assert(post.trace.skip(from) =~= pre.trace.skip(from) + post.trace.skip(
        pre.trace.len() as int,
    ));
}

proof fn lemma_clock_stays(start: Option<ClockV>, i: int, a: Seq<Notice>, b: Seq<Notice>)
    requires
        forall|k: int| 0 <= k < b.len() ==> !((#[trigger] b[k]) is Ticked),
    ensures
        clock_after(start, i, a + b) == clock_after(start, i, a),
    decreases b.len(),
{
    if b.len() == 0 {
        assert(a + b =~= a);
    } else {
        lemma_clock_stays(start, i, a, b.drop_last());
        assert((a + b).drop_last() =~= a + b.drop_last());
        assert((a + b).last() == b[b.len() - 1]);
    }
}

/// Once the northbound adapters are brought up to date, the last state that each was
/// handed of any known capability is the one that is known: it is handed over, and
/// no other capability's state comes with the same device and kind.
pub proof fn mirrors_start_from_the_truth(
    states: Seq<(DeviceId, CapabilityState)>,
    known: Known,
    device: DeviceId,
    kind: CapabilityKind,
)
    requires
        lists_known(states, known),
        known.contains_key(StateKey(device, kind)),
        kinds_agree(known),
    ensures
        states.contains((device, known[StateKey(device, kind)])),
        forall|i: int|
            0 <= i < states.len() && (#[trigger] states[i]).0 == device && states[i].1.spec_kind()
                == kind ==> states[i].1 == known[StateKey(device, kind)],
{
    let order = choose|order: Seq<StateKey>|
        order.no_duplicates() && (forall|k: StateKey| #[trigger]
            known.contains_key(k) <==> order.contains(k)) && states == #[trigger] snapshot_of(
            order,
            known,
        );
    let key = StateKey(device, kind);
    assert(order.contains(key));
    let at = choose|at: int| 0 <= at < order.len() && order[at] == key;
    assert(states[at] == (device, known[key]));
    assert forall|i: int|
        0 <= i < states.len() && (#[trigger] states[i]).0 == device && states[i].1.spec_kind()
            == kind implies states[i].1 == known[key] by {
        assert(order.contains(order[i]));
        assert(known.contains_key(order[i]));
    }
}

// ------------------------------------------------------------ the rules in a turn

/// Whether an event is run past the rules: it is no request, and no timer of the engine's
/// own.
pub open spec fn is_ordinary(c: Core, ev: EventV) -> bool {
    match ev {
        EventV::TimerElapsed { key } => !c.retries.contains_key(key) && !has_prefix(
            key,
            for_prefix(),
        ),
        EventV::RequestedChange { .. } => false,
        EventV::RequestedScene { .. } => false,
        _ => true,
    }
}

/// What is known once an event is folded in.
pub open spec fn known_after(known: Known, ev: EventV) -> Known {
    match ev {
        EventV::StateReported { device, state } => reported(known, device, state),
        _ => known,
    }
}

/// The rules whose trigger an event matches, in their order.
pub open spec fn matching(rules: Seq<Rule>, ev: EventV, prior: Option<CapabilityState>) -> Seq<
    Rule,
> {
    rules.filter(|r: Rule| r.trigger.fires(ev, prior))
}

/// What is said of a rule that matches.
pub open spec fn verdict_on(rule: Rule, known: Known) -> Notice {
    let truth = rule.condition.truth(known);
    Notice::RuleConsidered { rule: rule.id, truth, fired: truth == Truth::True }
}

/// Whether a rule that matches acts at once: its condition is true, and it need not wait.
pub open spec fn acts_at_once(rule: Rule, known: Known) -> bool {
    rule.condition.truth(known) == Truth::True && rule.for_duration is None
}

/// The commands of some rules, rule by rule.
pub open spec fn commands_of(rules: Seq<Rule>) -> Seq<CommandV>
    decreases rules.len(),
{
    if rules.len() == 0 {
        Seq::empty()
    } else {
        commands_of(rules.drop_last()) + command_views(rules.last().commands@)
    }
}

/// Commands are dispatched one after the other, from the first state to the last.
pub open spec fn one_by_one(
    w: Wiring,
    fuel: nat,
    states: Seq<Core>,
    cmds: Seq<CommandV>,
    depth: u32,
) -> bool {
    &&& states.len() == cmds.len() + 1
    &&& forall|i: int|
        0 <= i < cmds.len() ==> dispatched(
            w,
            fuel,
            states[i],
            #[trigger] cmds[i],
            1,
            depth,
            states[i + 1],
        )
}

/// What a trace says of rules.
pub open spec fn verdicts_in(trace: Seq<Notice>) -> Seq<Notice> {
    trace.filter(|n: Notice| n is RuleConsidered)
}

proof fn lemma_considered(
    rules: Seq<Rule>,
    n: nat,
    ev: EventV,
    prior: Option<CapabilityState>,
    known: Known,
)
    requires
        n <= rules.len(),
    ensures
        ({
            let v = considered(rules, n, ev, prior, known);
            let m = matching(rules.take(n as int), ev, prior);
            &&& v.notices == m.map_values(|r: Rule| verdict_on(r, known))
            &&& v.commands == commands_of(m.filter(|r: Rule| acts_at_once(r, known)))
        }),
    decreases n,
{
    reveal(Seq::filter);
    let m = matching(rules.take(n as int), ev, prior);
    let acting = |r: Rule| acts_at_once(r, known);
    if n == 0 {
        assert(m =~= Seq::empty());
        assert(considered(rules, n, ev, prior, known).notices =~= m.map_values(
            |r: Rule| verdict_on(r, known),
        ));
    } else {
        let rule = rules[n - 1];
        let before = matching(rules.take(n - 1), ev, prior);
        lemma_considered(rules, (n - 1) as nat, ev, prior, known);
        assert(rules.take(n as int).drop_last() =~= rules.take(n - 1));
        assert(rules.take(n as int).last() == rule);
        if rule.trigger.fires(ev, prior) {
            assert(m == before.push(rule));
            assert(before.push(rule).drop_last() =~= before);
            assert(considered(rules, n, ev, prior, known).notices =~= m.map_values(
                |r: Rule| verdict_on(r, known),
            ));
            if acts_at_once(rule, known) {
                assert(m.filter(acting) == before.filter(acting).push(rule));
                assert(before.filter(acting).push(rule).drop_last() =~= before.filter(acting));
            } else {
                assert(m.filter(acting) == before.filter(acting));
            }
        }
    }
}

pub(crate) proof fn lemma_one_by_one(
    w: Wiring,
    fuel: nat,
    pre: Core,
    cmds: Seq<CommandV>,
    depth: u32,
    post: Core,
) -> (states: Seq<Core>)
    requires
        dispatched_all(w, fuel, pre, cmds, depth, post),
    ensures
        one_by_one(w, fuel, states, cmds, depth),
        states[0] == pre,
        states.last() == post,
    decreases cmds.len(),
{
    if cmds.len() == 0 {
        seq![pre]
    } else {
        let mid = choose|mid: Core| #[trigger]
            between(mid) && dispatched_all(w, fuel, pre, cmds.drop_last(), depth, mid)
                && dispatched(w, fuel, mid, cmds.last(), 1, depth, post);
        let before = lemma_one_by_one(w, fuel, pre, cmds.drop_last(), depth, mid);
        let states = before.push(post);
        assert forall|i: int| 0 <= i < cmds.len() implies dispatched(
            w,
            fuel,
            states[i],
            #[trigger] cmds[i],
            1,
            depth,
            states[i + 1],
        ) by {
            if i < cmds.len() - 1 {
                assert(cmds.drop_last()[i] == cmds[i]);
                assert(states[i] == before[i] && states[i + 1] == before[i + 1]);
            } else {
                assert(states[i] == before[i]);
                assert(before[i] == before.last());
            }
        }
        states
    }
}

/// A filter keeps nothing of what never passes it.
proof fn lemma_filter_none<A>(s: Seq<A>, keep: spec_fn(A) -> bool)
    requires
        forall|i: int| 0 <= i < s.len() ==> !keep(#[trigger] s[i]),
    ensures
        s.filter(keep) == Seq::<A>::empty(),
    decreases s.len(),
{
    reveal(Seq::filter);
    if s.len() > 0 {
        lemma_filter_none(s.drop_last(), keep);
    }
}

/// An ordinary event that is processed is folded in, and then run past the rules:
/// - exactly the rules whose trigger it matches, given what was known before it, are
///   considered, in their order, each with the truth of its condition given what is known
///   with it;
/// - exactly those of them whose condition is true, and that need not wait, have their
///   commands dispatched, rule by rule and command by command, at the event's depth;
/// - and each observer hears it so.
pub proof fn turns_run_the_matching_rules(
    w: Wiring,
    fuel: nat,
    pre: Core,
    post: Core,
    before: Logs,
    after: Logs,
)
    requires
        wiring_ok(w),
        core_ok(w, pre),
        stepped(w, fuel, pre, post),
        pre.queue[0].1 <= w.max_depth,
        is_ordinary(pre, as_report(pre.queue[0].0)),
        in_step(w, before, pre.trace),
        in_step(w, after, post.trace),
    ensures
        ({
            let (raw, depth) = pre.queue[0];
            let ev = as_report(raw);
            let known = known_after(pre.known, ev);
            let matched = matching(w.rules, ev, prior_of(pre.known, ev));
            let verdicts = matched.map_values(|r: Rule| verdict_on(r, known));
            let cmds = commands_of(matched.filter(|r: Rule| acts_at_once(r, known)));
            let more = post.trace.skip(pre.trace.len() as int);
            &&& post.known == known
            &&& verdicts_in(more) == verdicts
            &&& exists|states: Seq<Core>| #[trigger]
                one_by_one(w, fuel, states, cmds, depth) && states.last() == post
                    && states[0].known == known && verdicts_in(
                    states[0].trace.skip(pre.trace.len() as int),
                ) == verdicts
            &&& forall|i: int|
                0 <= i < w.joined.len() ==> #[trigger] after.observers[i] == noted_all(
                    before.observers[i],
                    announced(more),
                )
            &&& verdicts_in(announced(more)) == verdicts
        }),
{
    let more = post.trace.skip(pre.trace.len() as int);
    turn_frame(w, fuel, pre, post);
    lemma_turn_verdicts(w, fuel, pre, post);
    lemma_announced_verdicts(more);
    assert forall|i: int| 0 <= i < w.joined.len() implies #[trigger] after.observers[i]
        == noted_all(before.observers[i], announced(more)) by {
        lemma_observer_hears(w, before, after, pre.trace, post.trace, i);
    }
}

/// The traces of a turn, up to where commands are dispatched and to its end.
proof fn lemma_turn_parts(w: Wiring, fuel: nat, pre: Core, post: Core) -> (start: Core)
    requires
        wiring_ok(w),
        core_ok(w, pre),
        stepped(w, fuel, pre, post),
        pre.queue[0].1 <= w.max_depth,
        is_ordinary(pre, as_report(pre.queue[0].0)),
    ensures
        ({
            let (raw, depth) = pre.queue[0];
            let ev = as_report(raw);
            let known = known_after(pre.known, ev);
            let v = considered(w.rules, w.rules.len(), ev, prior_of(pre.known, ev), known);
            &&& start.known == known
            &&& post.known == known
            &&& start.trace == pre.trace.push(Notice::EventReceived { event: raw, depth })
                + fold_notices(ev) + v.notices
            &&& dispatched_all(w, fuel, start, v.commands, depth, post)
            &&& dispatching(start.trace, post.trace)
        }),
{
    let (raw, depth) = pre.queue[0];
    let ev = as_report(raw);
    let prior = prior_of(pre.known, ev);
    let rest = Core { queue: pre.queue.drop_first(), ..pre };
    let c = told(rest, Notice::EventReceived { event: raw, depth });
    let c1 = folded(w, c, ev);
    let v = considered(w.rules, w.rules.len(), ev, prior, c1.known);
    let c2 = told_all(c1, v.notices);
    let c3 = armed_all(c2, v.arms, w.now);
    assert(ruled(w, fuel, c, ev, depth, post));
    match ev {
        EventV::StateReported { device, state } => {
            let mid = Core {
                known: reported(c.known, device, state),
                ..told(c, Notice::StateFolded { device, state })
            };
            lemma_filter_one_each(
                mid.waiting,
                |e: (RuleId, Seq<char>)| still_holds(w.rules, mid.known, e.0),
            );
        },
        _ => {},
    }
    lemma_armed_all_keeps(c2, v.arms, w.now);
    dispatch_all_frame(w, fuel, c3, v.commands, depth, post);
    assert(c3.trace =~= pre.trace.push(Notice::EventReceived { event: raw, depth })
        + fold_notices(ev) + v.notices);
    c3
}

/// What is said of the fold of an event.
spec fn fold_notices(ev: EventV) -> Seq<Notice> {
    match ev {
        EventV::StateReported { device, state } => seq![Notice::StateFolded { device, state }],
        _ => Seq::empty(),
    }
}

proof fn lemma_turn_verdicts(w: Wiring, fuel: nat, pre: Core, post: Core)
    requires
        wiring_ok(w),
        core_ok(w, pre),
        stepped(w, fuel, pre, post),
        pre.queue[0].1 <= w.max_depth,
        is_ordinary(pre, as_report(pre.queue[0].0)),
    ensures
        ({
            let (raw, depth) = pre.queue[0];
            let ev = as_report(raw);
            let known = known_after(pre.known, ev);
            let matched = matching(w.rules, ev, prior_of(pre.known, ev));
            let verdicts = matched.map_values(|r: Rule| verdict_on(r, known));
            let cmds = commands_of(matched.filter(|r: Rule| acts_at_once(r, known)));
            &&& post.known == known
            &&& verdicts_in(post.trace.skip(pre.trace.len() as int)) == verdicts
            &&& exists|states: Seq<Core>| #[trigger]
                one_by_one(w, fuel, states, cmds, depth) && states.last() == post
                    && states[0].known == known && verdicts_in(
                    states[0].trace.skip(pre.trace.len() as int),
                ) == verdicts
        }),
{
    let (raw, depth) = pre.queue[0];
    let ev = as_report(raw);
    let known = known_after(pre.known, ev);
    let prior = prior_of(pre.known, ev);
    let cmds = commands_of(
        matching(w.rules, ev, prior).filter(|r: Rule| acts_at_once(r, known)),
    );
    let is_verdict = |n: Notice| n is RuleConsidered;
    let v = considered(w.rules, w.rules.len(), ev, prior, known);
    let start = lemma_turn_parts(w, fuel, pre, post);
    lemma_considered(w.rules, w.rules.len(), ev, prior, known);
    assert(w.rules.take(w.rules.len() as int) =~= w.rules);
    let states = lemma_one_by_one(w, fuel, start, v.commands, depth, post);
    let from = pre.trace.len() as int;
    let head = seq![Notice::EventReceived { event: raw, depth }] + fold_notices(ev);
    lemma_filter_none(head, is_verdict);
    lemma_only_considered(w.rules, w.rules.len(), ev, prior, known);
    lemma_filter_all(v.notices, is_verdict);
    let so_far = start.trace.skip(from);
    assert(so_far =~= head + v.notices);
    Seq::filter_distributes_over_add(head, v.notices, is_verdict);
    assert(verdicts_in(so_far) =~= v.notices);
    let tail = post.trace.skip(start.trace.len() as int);
    assert forall|i: int| 0 <= i < tail.len() implies !is_verdict(#[trigger] tail[i]) by {
        assert(is_dispatching(post.trace[start.trace.len() + i]));
    }
    lemma_filter_none(tail, is_verdict);
    assert(post.trace =~= start.trace + tail);
    assert(post.trace.skip(from) =~= so_far + tail);
    Seq::filter_distributes_over_add(so_far, tail, is_verdict);
    assert(verdicts_in(post.trace.skip(from)) =~= v.notices);
    assert(one_by_one(w, fuel, states, cmds, depth));
}

/// Verdicts are announced.
proof fn lemma_announced_verdicts(trace: Seq<Notice>)
    ensures
        verdicts_in(announced(trace)) == verdicts_in(trace),
    decreases trace.len(),
{
    reveal(Seq::filter);
    if trace.len() > 0 {
        lemma_announced_verdicts(trace.drop_last());
        let earlier = announced(trace.drop_last());
        assert(earlier.push(trace.last()).drop_last() =~= earlier);
    }
}

proof fn lemma_observer_hears(
    w: Wiring,
    before: Logs,
    after: Logs,
    old_trace: Seq<Notice>,
    new_trace: Seq<Notice>,
    observer: int,
)
    requires
        old_trace.is_prefix_of(new_trace),
        in_step(w, before, old_trace),
        in_step(w, after, new_trace),
        0 <= observer < w.joined.len(),
    ensures
        after.observers[observer] == noted_all(
            before.observers[observer],
            announced(new_trace.skip(old_trace.len() as int)),
        ),
{
    let from = w.joined[observer] as int;
    let had = old_trace.skip(from);
    let more = new_trace.skip(old_trace.len() as int);
    let then = before.observers[observer];
    let now = after.observers[observer];
    assert(new_trace.skip(from) =~= had + more);
    Seq::filter_distributes_over_add(had, more, |n: Notice| is_announced(n));
    if w.briefed[observer] is Some {
        let b = w.briefed[observer]->0;
        assert(b + (announced(had) + announced(more)) =~= b + announced(had) + announced(more));
    }
}

// ------------------------------------------------------------ starting

/// The states that a trace says were folded.
pub open spec fn states_folded(trace: Seq<Notice>) -> Seq<(DeviceId, CapabilityState)>
    decreases trace.len(),
{
    if trace.len() == 0 {
        Seq::empty()
    } else {
        let earlier = states_folded(trace.drop_last());
        match trace.last() {
            Notice::StateFolded { device, state } => earlier.push((device, state)),
            _ => earlier,
        }
    }
}

/// The states that the processed reports of a trace report.
pub open spec fn states_reported(trace: Seq<Notice>) -> Seq<(DeviceId, CapabilityState)>
    decreases trace.len(),
{
    if trace.len() == 0 {
        Seq::empty()
    } else {
        let earlier = states_reported(trace.drop_last());
        match trace.last() {
            Notice::EventReceived { event, .. } => match as_report(event) {
                EventV::StateReported { device, state } => earlier.push((device, state)),
                _ => earlier,
            },
            _ => earlier,
        }
    }
}

proof fn lemma_states_add(a: Seq<Notice>, b: Seq<Notice>)
    ensures
        states_folded(a + b) == states_folded(a) + states_folded(b),
        states_reported(a + b) == states_reported(a) + states_reported(b),
    decreases b.len(),
{
    if b.len() == 0 {
        assert(a + b =~= a);
        assert(states_folded(a) + states_folded(b) =~= states_folded(a));
        assert(states_reported(a) + states_reported(b) =~= states_reported(a));
    } else {
        lemma_states_add(a, b.drop_last());
        assert((a + b).drop_last() =~= a + b.drop_last());
        assert(states_folded(a + b) =~= states_folded(a) + states_folded(b));
        assert(states_reported(a + b) =~= states_reported(a) + states_reported(b));
    }
}

proof fn lemma_no_states(trace: Seq<Notice>)
    requires
        forall|i: int|
            0 <= i < trace.len() ==> !((#[trigger] trace[i]) is StateFolded) && !(trace[i] is
                EventReceived),
    ensures
        states_folded(trace) == Seq::<(DeviceId, CapabilityState)>::empty(),
        states_reported(trace) == Seq::<(DeviceId, CapabilityState)>::empty(),
    decreases trace.len(),
{
    if trace.len() > 0 {
        lemma_no_states(trace.drop_last());
    }
}

/// In one turn, exactly the report that is processed is folded.
proof fn lemma_turn_folds(w: Wiring, fuel: nat, pre: Core, post: Core)
    requires
        wiring_ok(w),
        core_ok(w, pre),
        stepped(w, fuel, pre, post),
    ensures
        ({
            let more = post.trace.skip(pre.trace.len() as int);
            &&& states_folded(more) == states_reported(more)
            &&& forall|i: int| 0 <= i < more.len() ==> !((#[trigger] more[i]) is Synced)
        }),
{
    turn_frame(w, fuel, pre, post);
    let (raw, depth) = pre.queue[0];
    let ev = as_report(raw);
    let from = pre.trace.len() as int;
    let more = post.trace.skip(from);
    let rest = Core { queue: pre.queue.drop_first(), ..pre };
    if depth > w.max_depth {
        assert forall|i: int| 0 <= i < more.len() implies !((#[trigger] more[i]) is StateFolded)
            && !(more[i] is EventReceived) by {
            assert(more[i] == post.trace[from + i]);
        }
        lemma_no_states(more);
        return ;
    }
    let c = told(rest, Notice::EventReceived { event: raw, depth });
    assert(queue_ok(w, pre.queue));
    // Where the dispatch of commands begins.
    let start: Core = if is_ordinary(pre, ev) {
        let c1 = folded(w, c, ev);
        let v = considered(w.rules, w.rules.len(), ev, prior_of(c.known, ev), c1.known);
        let c2 = told_all(c1, v.notices);
        armed_all(c2, v.arms, w.now)
    } else {
        c
    };
    if is_ordinary(pre, ev) {
        let prior = prior_of(c.known, ev);
        let c1 = folded(w, c, ev);
        let v = considered(w.rules, w.rules.len(), ev, prior, c1.known);
        let c2 = told_all(c1, v.notices);
        match ev {
            EventV::StateReported { device, state } => {
                let mid = Core {
                    known: reported(c.known, device, state),
                    ..told(c, Notice::StateFolded { device, state })
                };
                lemma_filter_one_each(
                    mid.waiting,
                    |e: (RuleId, Seq<char>)| still_holds(w.rules, mid.known, e.0),
                );
            },
            _ => {},
        }
        lemma_armed_all_keeps(c2, v.arms, w.now);
        dispatch_all_frame(w, fuel, start, v.commands, depth, post);
        lemma_only_considered(w.rules, w.rules.len(), ev, prior, c1.known);
        lemma_no_states(v.notices);
        let head = c1.trace.skip(from);
        assert(start.trace.skip(from) =~= head + v.notices);
        lemma_states_add(head, v.notices);
        match ev {
            EventV::StateReported { device, state } => {
                let first = Notice::EventReceived { event: raw, depth };
                let second = Notice::StateFolded { device, state };
                assert(head =~= seq![first, second]);
                assert(head.drop_last() =~= seq![first]);
                assert(seq![first].drop_last() =~= Seq::empty());
                assert(states_folded(Seq::<Notice>::empty()) =~= Seq::empty());
                assert(states_reported(Seq::<Notice>::empty()) =~= Seq::empty());
                assert(states_folded(seq![first]) =~= Seq::empty());
                assert(states_reported(seq![first]) =~= seq![(device, state)]);
                assert(states_folded(head) =~= seq![(device, state)]);
                assert(states_reported(head) =~= seq![(device, state)]);
            },
            _ => {
                let first = Notice::EventReceived { event: raw, depth };
                assert(head =~= seq![first]);
                assert(head.drop_last() =~= Seq::empty());
                assert(states_folded(Seq::<Notice>::empty()) =~= Seq::empty());
                assert(states_reported(Seq::<Notice>::empty()) =~= Seq::empty());
                assert(states_folded(head) =~= Seq::empty());
                assert(states_reported(head) =~= Seq::empty());
            },
        }
        assert(states_folded(start.trace.skip(from)) =~= states_reported(start.trace.skip(from)));
    } else {
        match ev {
            EventV::TimerElapsed { key } => {
                assert(depth == 0) by {
                    assert(pre.queue[0].1 > 0 ==> !is_timer_event(pre.queue[0].0));
                }
                if c.retries.contains_key(key) {
                    let c1 = Core { retries: c.retries.remove(key), ..c };
                    dispatch_frame(w, fuel, c1, c.retries[key].0, c.retries[key].1, 0, post);
                } else {
                    lemma_waited_out(w, fuel, c, key, post);
                }
            },
            EventV::RequestedChange { device, desired } => {
                match requested_command(device, desired) {
                    Some(cmd) => dispatch_frame(w, fuel, c, cmd, 1, depth, post),
                    None => {},
                }
            },
            EventV::RequestedScene { scene } => {
                dispatch_frame(w, fuel, c, CommandV::ActivateScene { scene }, 1, depth, post);
            },
            _ => {},
        }
        let first = Notice::EventReceived { event: raw, depth };
        assert(c.trace.skip(from) =~= seq![first]);
        assert(seq![first].drop_last() =~= Seq::empty());
        assert(states_folded(Seq::<Notice>::empty()) =~= Seq::empty());
        assert(states_reported(Seq::<Notice>::empty()) =~= Seq::empty());
        assert(states_folded(seq![first]) =~= Seq::empty());
        assert(states_reported(seq![first]) =~= Seq::empty());
    }
    assert(dispatching(start.trace, post.trace));
    let tail = post.trace.skip(start.trace.len() as int);
    assert forall|i: int| 0 <= i < tail.len() implies is_dispatching(#[trigger] tail[i]) by {
        assert(tail[i] == post.trace[start.trace.len() + i]);
    }
    lemma_no_states(tail);
    assert(post.trace =~= start.trace + tail);
    assert(more =~= start.trace.skip(from) + tail);
    lemma_states_add(start.trace.skip(from), tail);
    assert(states_folded(more) =~= states_reported(more));
    assert forall|i: int| 0 <= i < more.len() implies !((#[trigger] more[i]) is Synced) by {
        let head = start.trace.skip(from);
        if i >= head.len() {
            assert(more[i] == tail[i - head.len()]);
        } else {
            assert(more[i] == start.trace[from + i]);
            if is_ordinary(pre, ev) {
                let c1 = folded(w, c, ev);
                let v = considered(w.rules, w.rules.len(), ev, prior_of(c.known, ev), c1.known);
                if from + i >= c1.trace.len() {
                    assert(start.trace[from + i] == v.notices[from + i - c1.trace.len()]);
                }
            }
        }
    }
}

/// In a run, exactly the reports that are processed are folded, in their order.
pub proof fn runs_fold_every_report(w: Wiring, n: nat, pre: Core, post: Core)
    requires
        wiring_ok(w),
        core_ok(w, pre),
        ran(w, n, pre, post),
    ensures
        ({
            let more = post.trace.skip(pre.trace.len() as int);
            &&& states_folded(more) == states_reported(more)
            &&& forall|i: int|
                0 <= i < more.len() ==> !((#[trigger] more[i]) is Synced) && !(more[i] is Ticked)
        }),
    decreases n,
{
    let more = post.trace.skip(pre.trace.len() as int);
    if n == 0 {
        assert(more =~= Seq::empty());
    } else {
        let (mid, fuel) = choose|mid: Core, fuel: nat|
            ran(w, (n - 1) as nat, pre, mid) && #[trigger] stepped(w, fuel, mid, post);
        lemma_ran_keeps(w, (n - 1) as nat, pre, mid);
        lemma_ran_keeps(w, n, pre, post);
        runs_fold_every_report(w, (n - 1) as nat, pre, mid);
        turn_frame(w, fuel, mid, post);
        lemma_turn_folds(w, fuel, mid, post);
        let first = mid.trace.skip(pre.trace.len() as int);
        let second = post.trace.skip(mid.trace.len() as int);
        assert(more =~= first + second);
        lemma_states_add(first, second);
        assert forall|i: int| 0 <= i < more.len() implies !((#[trigger] more[i]) is Synced)
            && !(more[i] is Ticked) by {
            assert(more[i] == post.trace[pre.trace.len() + i]);
            if i < first.len() {
                assert(more[i] == first[i]);
            } else {
                assert(more[i] == second[i - first.len()]);
            }
        }
    }
}

/// The last state of a capability that a northbound adapter was handed.
pub open spec fn last_handed(calls: Seq<Call>, device: DeviceId, kind: CapabilityKind) -> Option<
    CapabilityState,
>
    decreases calls.len(),
{
    if calls.len() == 0 {
        None
    } else {
        match calls.last() {
            Call::Fold { device: d, state } => if d == device && state.spec_kind() == kind {
                Some(state)
            } else {
                last_handed(calls.drop_last(), device, kind)
            },
            _ => last_handed(calls.drop_last(), device, kind),
        }
    }
}

proof fn lemma_last_handed(
    calls: Seq<Call>,
    states: Seq<(DeviceId, CapabilityState)>,
    device: DeviceId,
    kind: CapabilityKind,
    state: CapabilityState,
    at: int,
)
    requires
        0 <= at < states.len(),
        states[at] == (device, state),
        state.spec_kind() == kind,
        forall|i: int|
            0 <= i < states.len() && (#[trigger] states[i]).0 == device && states[i].1.spec_kind()
                == kind ==> states[i].1 == state,
    ensures
        last_handed(calls + folds(states), device, kind) == Some(state),
    decreases states.len(),
{
    let all = calls + folds(states);
    let end = states.last();
    assert(all.last() == (Call::Fold { device: end.0, state: end.1 }));
    if !(end.0 == device && end.1.spec_kind() == kind) {
        assert(at < states.len() - 1);
        assert(states.drop_last()[at] == states[at]);
        lemma_last_handed(calls, states.drop_last(), device, kind, state, at);
        assert(all.drop_last() =~= calls + folds(states.drop_last()));
    } else {
        assert(states[states.len() - 1].1 == state);
    }
}

/// Whether a call is a dispatch.
pub open spec fn is_dispatch(call: Call) -> bool {
    call is Dispatch
}

proof fn lemma_calls_of_a_run(trace: Seq<Notice>, i: nat)
    requires
        forall|k: int|
            0 <= k < trace.len() ==> !((#[trigger] trace[k]) is Ticked) && !(trace[k] is Synced),
    ensures
        forall|k: int|
            0 <= k < calls_on(Party::Adapter(i), trace).len() ==> is_dispatch(
                #[trigger] calls_on(Party::Adapter(i), trace)[k],
            ),
        calls_on(Party::Northbound(i), trace) == folds(states_folded(trace)),
    decreases trace.len(),
{
    if trace.len() == 0 {
        assert(calls_on(Party::Northbound(i), trace) =~= folds(states_folded(trace)));
    } else {
        let init = trace.drop_last();
        lemma_calls_of_a_run(init, i);
        assert(trace.last() == trace[trace.len() - 1]);
        let mine = calls_on(Party::Adapter(i), trace);
        let had = calls_on(Party::Adapter(i), init);
        assert forall|k: int| 0 <= k < mine.len() implies is_dispatch(#[trigger] mine[k]) by {
            if k < had.len() {
                assert(mine[k] == had[k]);
            } else {
                assert(mine[k] == calls_in(trace.last(), Party::Adapter(i))[k - had.len()]);
            }
        }
        assert(calls_on(Party::Northbound(i), trace) =~= folds(states_folded(trace)));
    }
}

/// What starting does, as a whole:
/// - every adapter is ticked exactly once, at the engine's time, and from then on hears
///   dispatches only; every northbound adapter is ticked exactly once, and from then on is
///   handed states only, first those that are folded and then everything that is known;
/// - so the last state of any known capability that a northbound adapter was handed is the
///   one that is known;
/// - the observers hear what the loop announces, in which every processed report is folded
///   once, and nothing of the tick or of the replay.
///
/// The engine's time is part of its wiring, which stays as it is.
pub proof fn starting_ticks_runs_and_mirrors(
    w: Wiring,
    pre: Core,
    mid: Core,
    dry: Core,
    post: Core,
    before: Logs,
    after: Logs,
)
    requires
        wiring_ok(w),
        core_ok(w, pre),
        pre.queue.len() == 0,
        ticked(w, pre, mid),
        ran_dry(w, mid, dry),
        synced(w, dry, post),
        in_step(w, before, pre.trace),
        in_step(w, after, post.trace),
    ensures
        ({
            let tick = mid.trace.last();
            let run = dry.trace.skip(mid.trace.len() as int);
            &&& post.known == dry.known
            &&& mid.trace == pre.trace.push(tick)
            &&& tick is Ticked
            &&& tick->Ticked_now == w.now
            &&& states_folded(run) == states_reported(run)
            &&& forall|i: int|
                0 <= i < w.places.len() ==> #[trigger] after.adapters[i] == noted_all(
                    before.adapters[i],
                    seq![Call::Tick { now: w.now, events: tick->Ticked_adapters[i] }] + calls_on(
                        Party::Adapter((i + 1) as nat),
                        run,
                    ),
                )
            &&& forall|i: int, k: int|
                0 <= i < w.places.len() && 0 <= k < calls_on(
                    Party::Adapter((i + 1) as nat),
                    run,
                ).len() ==> is_dispatch(#[trigger] calls_on(Party::Adapter((i + 1) as nat), run)[k])
            &&& forall|i: int|
                0 <= i < w.joined.len() ==> #[trigger] after.observers[i] == noted_all(
                    before.observers[i],
                    announced(run),
                )
            &&& w.northbound > 0 ==> exists|states: Seq<(DeviceId, CapabilityState)>| #[trigger]
                lists_known(states, post.known) && forall|i: int|
                    0 <= i < w.mirrors.len() ==> #[trigger] after.northbound[i] == noted_all(
                        before.northbound[i],
                        seq![Call::Tick { now: w.now, events: tick->Ticked_northbound[i] }] + folds(
                            states_folded(run),
                        ) + folds(states),
                    )
            &&& forall|i: int, key: StateKey|
                0 <= i < w.mirrors.len() && after.northbound[i] is Some
                    && post.known.contains_key(key) ==> #[trigger] last_handed(
                    after.northbound[i]->0,
                    key.0,
                    key.1,
                ) == Some(post.known[key])
        }),
{
    let (keys, south, clocks, north) = choose|
        keys: Seq<Seq<char>>,
        south: Seq<Seq<EventV>>,
        clocks: Seq<Option<ClockV>>,
        north: Seq<Seq<EventV>>,
    |
        is_due_list(pre.timers, w.now, keys) && can_tick(w, pre.trace, south, clocks)
            && north.len() == w.northbound && mid == #[trigger] after_tick(
            w,
            pre,
            keys,
            south,
            clocks,
            north,
        );
    let tick = Notice::Ticked {
        now: w.now,
        timers: elapsed(keys),
        adapters: south,
        clocks,
        northbound: north,
    };
    assert(mid.trace == pre.trace.push(tick));
    let events = elapsed(keys) + chained(south) + chained(north);
    assert(mid.queue =~= at_depth(events, 0));
    assert(core_ok(w, mid));
    let n = choose|n: nat| #[trigger] ran(w, n, mid, dry);
    lemma_ran_keeps(w, n, mid, dry);
    runs_fold_every_report(w, n, mid, dry);
    let run = dry.trace.skip(mid.trace.len() as int);
    assert(dry.trace =~= mid.trace + run);
    let from = pre.trace.len() as int;
    let first = seq![tick];
    let states: Seq<(DeviceId, CapabilityState)> = if w.northbound == 0 {
        Seq::empty()
    } else {
        choose|states: Seq<(DeviceId, CapabilityState)>| #[trigger]
            lists_known(states, dry.known) && post == told(dry, Notice::Synced { states })
    };
    let last: Seq<Notice> = if w.northbound == 0 {
        Seq::empty()
    } else {
        seq![Notice::Synced { states }]
    };
    let more = post.trace.skip(from);
    assert(more =~= first + run + last);
    assert(post.trace =~= pre.trace + more);
    assert(pre.trace.is_prefix_of(post.trace));
    assert forall|i: int| 0 <= i < w.places.len() implies #[trigger] after.adapters[i]
        == noted_all(
        before.adapters[i],
        seq![Call::Tick { now: w.now, events: south[i] }] + calls_on(
            Party::Adapter((i + 1) as nat),
            run,
        ),
    ) by {
        let who = Party::Adapter((i + 1) as nat);
        let place = w.places[i];
        let then = before.adapters[i];
        lemma_noted_more(who, place.before, place.joined, pre.trace, post.trace);
        lemma_calls_on_add(who, first + run, last);
        lemma_calls_on_add(who, first, run);
        lemma_calls_on_one(who, tick);
        if w.northbound > 0 {
            lemma_calls_on_one(who, Notice::Synced { states });
        }
        assert(calls_on(who, more) =~= seq![Call::Tick { now: w.now, events: south[i] }]
            + calls_on(who, run));
    }
    assert forall|i: int, k: int|
        0 <= i < w.places.len() && 0 <= k < calls_on(
            Party::Adapter((i + 1) as nat),
            run,
        ).len() implies is_dispatch(
        #[trigger] calls_on(Party::Adapter((i + 1) as nat), run)[k],
    ) by {
        lemma_calls_of_a_run(run, (i + 1) as nat);
    }
    assert forall|i: int| 0 <= i < w.joined.len() implies #[trigger] after.observers[i]
        == noted_all(before.observers[i], announced(run)) by {
        lemma_observer_hears(w, before, after, pre.trace, post.trace, i);
        let keep = |n: Notice| is_announced(n);
        Seq::filter_distributes_over_add(first + run, last, keep);
        Seq::filter_distributes_over_add(first, run, keep);
        lemma_filter_none(first, keep);
        lemma_filter_none(last, keep);
        assert(announced(more) =~= announced(run));
    }
    assert forall|i: int| 0 <= i < w.mirrors.len() implies #[trigger] after.northbound[i]
        == noted_all(
        before.northbound[i],
        seq![Call::Tick { now: w.now, events: north[i] }] + folds(states_folded(run)) + folds(
            states,
        ),
    ) by {
        let who = Party::Northbound(i as nat);
        let mirror = w.mirrors[i];
        let then = before.northbound[i];
        lemma_noted_more(who, mirror.before, mirror.joined, pre.trace, post.trace);
        lemma_calls_on_add(who, first + run, last);
        lemma_calls_on_add(who, first, run);
        lemma_calls_on_one(who, tick);
        lemma_calls_on_one(who, Notice::Synced { states });
        lemma_calls_of_a_run(run, i as nat);
        assert(calls_on(who, more) =~= seq![Call::Tick { now: w.now, events: north[i] }] + folds(
            states_folded(run),
        ) + folds(states));
    }
    assert forall|i: int, key: StateKey|
        0 <= i < w.mirrors.len() && after.northbound[i] is Some && post.known.contains_key(
            key,
        ) implies #[trigger] last_handed(after.northbound[i]->0, key.0, key.1) == Some(
        post.known[key],
    ) by {
        mirrors_start_from_the_truth(states, post.known, key.0, key.1);
        let state = post.known[key];
        assert(key == StateKey(key.0, key.1));
        let at = choose|at: int| 0 <= at < states.len() && states[at] == (key.0, state);
        let earlier = before.northbound[i]->0 + (seq![
            Call::Tick { now: w.now, events: north[i] },
        ] + folds(states_folded(run)));
        assert(after.northbound[i]->0 =~= earlier + folds(states));
        lemma_last_handed(earlier, states, key.0, key.1, state, at);
    }
}

proof fn lemma_calls_on_one(who: Party, n: Notice)
    ensures
        calls_on(who, seq![n]) == calls_in(n, who),
{
    assert(seq![n].drop_last() =~= Seq::empty());
    assert(calls_on(who, Seq::<Notice>::empty()) =~= Seq::empty());
    assert(calls_on(who, seq![n]) =~= calls_in(n, who));
}

// ------------------------------------------------------------ adapters and indices

/// Two wirings have the same adapters at the same indices.
pub open spec fn same_adapters(a: Wiring, b: Wiring) -> bool {
    a.adapters == b.adapters && a.places == b.places
}

/// The adapters that are added to an engine without any get the indices 1, 2, 3 and so on,
/// whatever else happens in between. So no index comes twice, none is the scheduler's 0,
/// and every index keeps standing for the adapter that it was given out for.
pub proof fn adapter_indices_are_consecutive(
    before: Seq<Wiring>,
    after: Seq<Wiring>,
    indices: Seq<AdapterIdx>,
    places: Seq<Place>,
)
    requires
        before.len() == places.len(),
        after.len() == places.len(),
        indices.len() == places.len(),
        places.len() > 0 ==> wiring_ok(before[0]) && before[0].places.len() == 0,
        forall|i: int|
            0 <= i < places.len() ==> adapter_added(
                before[i],
                after[i],
                #[trigger] indices[i],
                places[i],
            ),
        forall|i: int|
            0 <= i < places.len() - 1 ==> same_adapters(#[trigger] after[i], before[i + 1]),
    ensures
        forall|i: int| 0 <= i < places.len() ==> #[trigger] indices[i] == i + 1,
        forall|i: int, j: int|
            0 <= j <= i < places.len() ==> #[trigger] after[i].places[indices[j] - 1] == places[j],
{
    assert forall|i: int| 0 <= i < places.len() implies #[trigger] indices[i] == i + 1
        && after[i].places == places.take(i + 1) by {
        lemma_added_up_to(before, after, indices, places, i);
    }
    assert forall|i: int, j: int| 0 <= j <= i < places.len() implies #[trigger] after[i].places[
    indices[j] - 1] == places[j] by {
        lemma_added_up_to(before, after, indices, places, i);
        lemma_added_up_to(before, after, indices, places, j);
        assert(places.take(i + 1)[j] == places[j]);
    }
}

proof fn lemma_added_up_to(
    before: Seq<Wiring>,
    after: Seq<Wiring>,
    indices: Seq<AdapterIdx>,
    places: Seq<Place>,
    i: int,
)
    requires
        before.len() == places.len(),
        after.len() == places.len(),
        indices.len() == places.len(),
        wiring_ok(before[0]) && before[0].places.len() == 0,
        forall|i: int|
            0 <= i < places.len() ==> adapter_added(
                before[i],
                after[i],
                #[trigger] indices[i],
                places[i],
            ),
        forall|i: int|
            0 <= i < places.len() - 1 ==> same_adapters(#[trigger] after[i], before[i + 1]),
        0 <= i < places.len(),
    ensures
        indices[i] == i + 1,
        after[i].adapters == i + 2,
        after[i].places == places.take(i + 1),
    decreases i,
{
    assert(adapter_added(before[i], after[i], indices[i], places[i]));
    if i > 0 {
        lemma_added_up_to(before, after, indices, places, i - 1);
        assert(same_adapters(after[i - 1], before[i]));
    }
    assert(after[i].places =~= places.take(i + 1));
}

} // verus!
