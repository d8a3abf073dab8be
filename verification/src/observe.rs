//! Observability hooks for the dispatch, retry and failure path, and a full trace
//! of the event loop.
//!
//! The engine calls these methods, and a host wires whatever logging it likes
//! behind them. The trace hooks show every event entering the loop, what it folded
//! into the state store, and the three-valued `Truth` of each matched rule's
//! condition. A rule whose trigger matches but whose condition is `Unknown` reads
//! state that has never been reported.

use vstd::prelude::*;

use crate::adapters::noted;
use crate::causality::Notice;
use crate::ids::{DeviceId, RuleId, SceneId};
use crate::model::{CapabilityState, Command, Event, Millis};
use crate::rule::Truth;
use crate::text::{cat3, decimal, decimal_text};

verus! {

/// Whoever watches the loop. Each method's contract says what the observer has heard
/// afterwards, where it keeps count.
pub trait Observer {
    /// Everything the observer was told so far, where it keeps count.
    open spec fn heard(&self) -> Option<Seq<Notice>> {
        None
    }

    /// A single dispatch attempt failed. `transient` distinguishes a retryable
    /// failure from a permanent one; `attempt` counts from 1.
    fn dispatch_failed(&mut self, command: &Command, reason: &str, transient: bool, attempt: u32)
        ensures
            final(self).heard() == noted(
                old(self).heard(),
                Notice::DispatchFailed { command: command@, reason: reason@, transient, attempt },
            ),
    ;

    /// A retry has been scheduled for `delay` ms from now, as `next_attempt`.
    fn retry_scheduled(&mut self, command: &Command, next_attempt: u32, delay: Millis)
        ensures
            final(self).heard() == noted(
                old(self).heard(),
                Notice::RetryScheduled { command: command@, next_attempt, delay },
            ),
    ;

    /// A command was given up on. A `CommandFailed` event is also on the bus.
    fn command_failed(&mut self, command: &Command, reason: &str, attempts: u32)
        ensures
            final(self).heard() == noted(
                old(self).heard(),
                Notice::CommandFailed { command: command@, reason: reason@, attempts },
            ),
    ;

    /// An event was dropped because its causal cascade exceeded the configured
    /// depth: the backstop against feedback loops.
    fn cascade_dropped(&mut self, event: &Event, depth: u32)
        ensures
            final(self).heard() == noted(
                old(self).heard(),
                Notice::CascadeDropped { event: event@, depth },
            ),
    ;

    /// An event was popped off the queue and is about to be processed.
    fn event_received(&mut self, event: &Event, depth: u32)
        ensures
            final(self).heard() == noted(
                old(self).heard(),
                Notice::EventReceived { event: event@, depth },
            ),
    ;

    /// Device feedback was folded into the state store.
    fn state_folded(&mut self, device: DeviceId, state: &CapabilityState)
        ensures
            final(self).heard() == noted(
                old(self).heard(),
                Notice::StateFolded { device, state: *state },
            ),
    ;

    /// A rule's trigger matched the current event, so its condition was evaluated.
    /// `fired` is whether the rule's commands were emitted.
    fn rule_considered(&mut self, rule: RuleId, truth: Truth, fired: bool)
        ensures
            final(self).heard() == noted(
                old(self).heard(),
                Notice::RuleConsidered { rule, truth, fired },
            ),
    ;

    /// A command is about to be dispatched to an adapter (or expanded, for a
    /// scene). `depth` is the causal depth of the event that produced it.
    fn command_dispatched(&mut self, command: &Command, depth: u32)
        ensures
            final(self).heard() == noted(
                old(self).heard(),
                Notice::CommandDispatched { command: command@, depth },
            ),
    ;

    /// A scene command expanded into its `count` member commands.
    fn scene_expanded(&mut self, scene: SceneId, count: usize)
        ensures
            final(self).heard() == noted(
                old(self).heard(),
                Notice::SceneExpanded { scene, count: count as nat },
            ),
    ;
}

/// Discards everything.
pub struct NoopObserver;

impl Observer for NoopObserver {
    fn dispatch_failed(&mut self, command: &Command, reason: &str, transient: bool, attempt: u32) {
    }

    fn retry_scheduled(&mut self, command: &Command, next_attempt: u32, delay: Millis) {
    }

    fn command_failed(&mut self, command: &Command, reason: &str, attempts: u32) {
    }

    fn cascade_dropped(&mut self, event: &Event, depth: u32) {
    }

    fn event_received(&mut self, event: &Event, depth: u32) {
    }

    fn state_folded(&mut self, device: DeviceId, state: &CapabilityState) {
    }

    fn rule_considered(&mut self, rule: RuleId, truth: Truth, fired: bool) {
    }

    fn command_dispatched(&mut self, command: &Command, depth: u32) {
    }

    fn scene_expanded(&mut self, scene: SceneId, count: usize) {
    }
}

// ------------------------------------------------------------ the trace in words

/// A text filled up on its left.
pub open spec fn filled(s: Seq<char>, fill: char, width: nat) -> Seq<char> {
    if s.len() >= width {
        s
    } else {
        Seq::new((width - s.len()) as nat, |i: int| fill) + s
    }
}

fn fill_up(s: &str, fill: &str, width: usize) -> (r: String)
    requires
        fill@.len() == 1,
    ensures
        r@ == filled(s@, fill@[0], width as nat),
{
    let n: usize = s.unicode_len();
    let mut r = String::new();
    if n < width {
        let missing: usize = width - n;
        let mut i: usize = 0;
        while i < missing
            invariant
                i <= missing,
                fill@.len() == 1,
                r@ == Seq::new(i as nat, |k: int| fill@[0]),
            decreases missing - i,
        {
            r.append(fill);
            assert(r@ =~= Seq::new((i + 1) as nat, |k: int| fill@[0]));
            i += 1;
        }
    }
    let ghost pad = r@;
    r.append(s);
    assert(r@ =~= filled(s@, fill@[0], width as nat));
    r
}

/// Seconds and milliseconds since the start, in columns: `   0.000`, `  12.345`.
pub open spec fn stamp_of(elapsed: Millis) -> Seq<char> {
    filled(decimal((elapsed / 1000) as nat), ' ', 4) + "."@ + filled(
        decimal((elapsed % 1000) as nat),
        '0',
        3,
    )
}

/// The stamp of a line of the trace. The engine's virtual clock says nothing of the
/// time that passes between a command and its echo, so lines are stamped with the
/// time since the host started.
pub fn stamp(elapsed: Millis) -> (r: String)
    ensures
        r@ == stamp_of(elapsed),
{
    proof {
        reveal_strlit(" ");
        reveal_strlit("0");
    }
    let secs = decimal_text(elapsed / 1000);
    let millis = decimal_text(elapsed % 1000);
    let left = fill_up(secs.as_str(), " ", 4);
    let right = fill_up(millis.as_str(), "0", 3);
    cat3(left.as_str(), ".", right.as_str())
}

/// What became of a rule whose trigger matched, in words.
pub open spec fn considered_words(rule: Seq<char>, truth: Truth, fired: bool) -> Seq<char> {
    "rule '"@ + rule + (if fired {
        "': trigger matched, condition True -> FIRING"@
    } else {
        match truth {
            Truth::Unknown => "': trigger matched, but condition is UNKNOWN (a capability it reads has never been reported) -> not firing"@,
            Truth::True => "': trigger matched, condition True -> not firing"@,
            Truth::False => "': trigger matched, condition False -> not firing"@,
        }
    })
}

/// What became of a rule whose trigger matched.
pub fn considered_text(rule: &str, truth: Truth, fired: bool) -> (r: String)
    ensures
        r@ == considered_words(rule@, truth, fired),
{
    let outcome = if fired {
        "': trigger matched, condition True -> FIRING"
    } else {
        match truth {
            Truth::Unknown => "': trigger matched, but condition is UNKNOWN (a capability it reads has never been reported) -> not firing",
            Truth::True => "': trigger matched, condition True -> not firing",
            Truth::False => "': trigger matched, condition False -> not firing",
        }
    };
    cat3("rule '", rule, outcome)
}

} // verus!
