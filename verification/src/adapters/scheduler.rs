//! Time as an adapter: holds pending timers keyed by name with absolute fire
//! times, fires them on `tick`, and creates and cancels them via `dispatch`.

use vstd::prelude::*;

use super::{Adapter, DispatchOutcome, OutcomeV};
use crate::model::{event_views, Command, CommandV, Event, EventV, Millis, TimerKey};
use crate::table::Table;
use crate::text::{text_less, text_lt, text_order_is_total, text_order_is_transitive};

verus! {

/// Pending timers: the absolute fire time of each key.
pub type Timers = Map<Seq<char>, Millis>;

/// When a timer that is started now fires. No instant lies beyond the last one that can
/// be represented.
pub open spec fn deadline(now: Millis, after: Millis) -> Millis {
    if now + after > u64::MAX {
        u64::MAX
    } else {
        (now + after) as u64
    }
}

/// The timers after a command.
pub open spec fn timers_after(timers: Timers, cmd: CommandV, now: Millis) -> Timers {
    match cmd {
        CommandV::ScheduleTimer { key, after } => timers.insert(key, deadline(now, after)),
        CommandV::CancelTimer { key } => timers.remove(key),
        _ => timers,
    }
}

/// The timers that are still pending once those due at `now` have fired.
pub open spec fn timers_left(timers: Timers, now: Millis) -> Timers {
    Map::new(
        |k: Seq<char>| timers.contains_key(k) && timers[k] > now,
        |k: Seq<char>| timers[k],
    )
}

/// Whether one due timer fires before another: by fire time, then by key.
pub open spec fn fires_before(timers: Timers, a: Seq<char>, b: Seq<char>) -> bool {
    timers[a] < timers[b] || timers[a] == timers[b] && text_lt(a, b)
}

/// `keys` are the timers due at `now`, each once, in the order in which they fire.
pub open spec fn is_due_list(timers: Timers, now: Millis, keys: Seq<Seq<char>>) -> bool {
    &&& forall|k: Seq<char>|
        #![trigger keys.contains(k)]
        keys.contains(k) <==> timers.contains_key(k) && timers[k] <= now
    &&& forall|i: int, j: int|
        0 <= i < j < keys.len() ==> fires_before(timers, #[trigger] keys[i], #[trigger] keys[j])
}

/// The events of timers that elapse in this order.
pub open spec fn elapsed(keys: Seq<Seq<char>>) -> Seq<EventV> {
    keys.map_values(|k: Seq<char>| EventV::TimerElapsed { key: k })
}

/// How long until a fire time: 0 once it has passed.
pub open spec fn remaining(fire_at: Millis, now: Millis) -> Millis {
    if fire_at > now {
        (fire_at - now) as u64
    } else {
        0
    }
}

/// How long until the soonest timer.
pub open spec fn is_soonest(timers: Timers, now: Millis, r: Option<Millis>) -> bool {
    match r {
        None => forall|k: Seq<char>| !timers.contains_key(k),
        Some(d) => {
            &&& exists|k: Seq<char>| #[trigger] timers.contains_key(k) && d == remaining(timers[k], now)
            &&& forall|k: Seq<char>| #[trigger]
                timers.contains_key(k) ==> d <= remaining(timers[k], now)
        },
    }
}

/// How long until the soonest timer: none without a timer.
pub open spec fn soonest_timer(timers: Timers, now: Millis) -> Option<Millis> {
    choose|r: Option<Millis>| is_soonest(timers, now, r)
}

pub struct SchedulerAdapter {
    pending: Table<TimerKey, Millis>,
}

impl View for SchedulerAdapter {
    type V = Timers;

    closed spec fn view(&self) -> Timers {
        self.pending@
    }
}

impl Default for SchedulerAdapter {
    fn default() -> (r: Self)
        ensures
            r@ == Timers::empty(),
    {
        SchedulerAdapter { pending: Table::new() }
    }
}

impl Adapter for SchedulerAdapter {
    closed spec fn wakes(&self, now: Millis) -> Option<Millis> {
        soonest_timer(self@, now)
    }

    fn dispatch(&mut self, cmd: &Command, now: Millis) -> (out: DispatchOutcome)
        ensures
            final(self)@ == timers_after(old(self)@, cmd@, now),
            out@ == OutcomeV::Done(Seq::empty()),
    {
        match cmd {
            Command::ScheduleTimer { key, after } => {
                self.pending.insert(key.clone(), now.saturating_add(*after));
            },
            Command::CancelTimer { key } => {
                self.pending.remove(key);
            },
            _ => {},
        }
        DispatchOutcome::ok()
    }

    fn tick(&mut self, now: Millis) -> (out: Vec<Event>)
        ensures
            final(self)@ == timers_left(old(self)@, now),
            exists|keys: Seq<Seq<char>>|
                is_due_list(old(self)@, now, keys) && event_views(out@) == #[trigger] elapsed(keys),
    {
        let ghost timers = self.pending@;
        let ghost order = self.pending.order();
        let mut due: Vec<(Millis, TimerKey)> = Vec::new();
        let mut left: Table<TimerKey, Millis> = Table::new();
        let n: usize = self.pending.len();
        let mut i: usize = 0;
        assert(left@ =~= timers_left(timers, now).restrict(order.take(0).to_set()));
        while i < n
            invariant
                i <= n == order.len(),
                order == self.pending.order(),
                timers == self.pending@,
                order.no_duplicates(),
                forall|k: Seq<char>| #[trigger] timers.contains_key(k) <==> order.contains(k),
                left@ == timers_left(timers, now).restrict(order.take(i as int).to_set()),
                is_sorted_due(due@, timers, now),
                forall|j: int|
                    0 <= j < i && timers[#[trigger] order[j]] <= now ==> has_key(due@, order[j]),
                forall|p: int|
                    0 <= p < due@.len() ==> order.take(i as int).contains((#[trigger] due@[p]).1@),
            decreases n - i,
        {
            let (k, t) = self.pending.at(i);
            let ghost done = order.take(i as int);
            assert(order.take(i + 1) =~= done.push(k@));
            assert(!done.contains(k@));
            assert forall|x: Seq<char>| order.take(i + 1).to_set().contains(x) <==> done.to_set().contains(x) || x == k@ by {
                if done.contains(x) {
                    let q = choose|q: int| 0 <= q < done.len() && done[q] == x;
                    assert(order.take(i + 1)[q] == x);
                }
                assert(order.take(i + 1)[i as int] == k@);
            }
            if *t <= now {
                let ghost before = due@;
                insert_due(&mut due, *t, k.clone(), Ghost(timers), Ghost(now));
                proof {
                    assert forall|j: int| 0 <= j < i + 1 && timers[#[trigger] order[j]] <= now implies has_key(due@, order[j]) by {
                        if j < i {
                            assert(has_key(before, order[j]));
                        }
                    }
                    assert forall|p: int| 0 <= p < due@.len() implies order.take(i + 1).contains((#[trigger] due@[p]).1@) by {
                        assert(has_key(due@, due@[p].1@));
                        if due@[p].1@ != k@ {
                            let q = choose|q: int| 0 <= q < before.len() && (#[trigger] before[q]).1@ == due@[p].1@;
                            assert(done.contains(before[q].1@));
                            let z = choose|z: int| 0 <= z < done.len() && done[z] == before[q].1@;
                            assert(order.take(i + 1)[z] == due@[p].1@);
                        } else {
                            assert(order.take(i + 1)[i as int] == k@);
                        }
                    }
                }
            } else {
                left.insert(k.clone(), *t);
                proof {
                    assert forall|p: int| 0 <= p < due@.len() implies order.take(i + 1).contains((#[trigger] due@[p]).1@) by {
                        let z = choose|z: int| 0 <= z < done.len() && done[z] == due@[p].1@;
                        assert(order.take(i + 1)[z] == due@[p].1@);
                    }
                }
            }
            assert(left@ =~= timers_left(timers, now).restrict(order.take(i + 1).to_set()));
            i += 1;
        }
        assert(order.take(n as int) =~= order);
        assert(left@ =~= timers_left(timers, now));
        self.pending = left;

        let ghost keys = due@.map_values(|d: (Millis, TimerKey)| d.1@);
        proof {
            assert forall|k: Seq<char>| #![trigger keys.contains(k)] keys.contains(k) <==> timers.contains_key(k) && timers[k] <= now by {
                if keys.contains(k) {
                    let p = choose|p: int| 0 <= p < keys.len() && keys[p] == k;
                    assert(due@[p].1@ == k);
                    assert(order.contains(k));
                }
                if timers.contains_key(k) && timers[k] <= now {
                    let j = choose|j: int| 0 <= j < order.len() && order[j] == k;
                    assert(has_key(due@, order[j]));
                    let p = choose|p: int| 0 <= p < due@.len() && (#[trigger] due@[p]).1@ == k;
                    assert(keys[p] == k);
                }
            }
            assert forall|a: int, b: int| 0 <= a < b < keys.len() implies fires_before(timers, #[trigger] keys[a], #[trigger] keys[b]) by {
                assert(due@[a].1@ == keys[a] && due@[b].1@ == keys[b]);
            }
            assert(is_due_list(timers, now, keys));
        }
        let mut out: Vec<Event> = Vec::new();
        let mut p: usize = 0;
        while p < due.len()
            invariant
                p <= due@.len(),
                keys == due@.map_values(|d: (Millis, TimerKey)| d.1@),
                out@.len() == p,
                forall|j: int| 0 <= j < p ==> (#[trigger] out@[j])@ == elapsed(keys)[j],
            decreases due@.len() - p,
        {
            out.push(Event::TimerElapsed { key: due[p].1.clone() });
            p += 1;
        }
        assert(event_views(out@) =~= elapsed(keys));
        out
    }

    fn next_wake(&self, now: Millis) -> (out: Option<Millis>)
        ensures
            is_soonest(self@, now, out),
            out == soonest_timer(self@, now),
    {
        let n: usize = self.pending.len();
        let ghost order = self.pending.order();
        let mut best: Option<Millis> = None;
        let mut i: usize = 0;
        while i < n
            invariant
                i <= n == order.len(),
                order == self.pending.order(),
                forall|k: Seq<char>| #[trigger] self@.contains_key(k) <==> order.contains(k),
                best is None <==> i == 0,
                best is Some ==> exists|j: int|
                    0 <= j < i && best->0 == remaining(self@[#[trigger] order[j]], now),
                best is Some ==> forall|j: int|
                    0 <= j < i ==> best->0 <= remaining(self@[#[trigger] order[j]], now),
            decreases n - i,
        {
            let (_, t) = self.pending.at(i);
            let d: Millis = t.saturating_sub(now);
            assert(d == remaining(self@[order[i as int]], now));
            match best {
                Some(b) => {
                    if d < b {
                        best = Some(d);
                    }
                },
                None => {
                    best = Some(d);
                },
            }
            i += 1;
        }
        proof {
            if best is Some {
                let j = choose|j: int| 0 <= j < n && best->0 == remaining(self@[#[trigger] order[j]], now);
                assert(self@.contains_key(order[j]));
                assert forall|k: Seq<char>| #[trigger] self@.contains_key(k) implies best->0 <= remaining(self@[k], now) by {
                    let q = choose|q: int| 0 <= q < order.len() && order[q] == k;
                    assert(best->0 <= remaining(self@[order[q]], now));
                }
            } else {
                assert forall|k: Seq<char>| !self@.contains_key(k) by {
                    assert(!order.contains(k));
                }
            }
            soonest_is_one(self@, now, best, soonest_timer(self@, now));
        }
        best
    }
}

spec fn has_key(due: Seq<(Millis, TimerKey)>, k: Seq<char>) -> bool {
    exists|p: int| 0 <= p < due.len() && (#[trigger] due[p]).1@ == k
}

spec fn is_sorted_due(due: Seq<(Millis, TimerKey)>, timers: Timers, now: Millis) -> bool {
    &&& forall|p: int|
        0 <= p < due.len() ==> timers.contains_key((#[trigger] due[p]).1@) && timers[due[p].1@]
            == due[p].0 && due[p].0 <= now
    &&& forall|a: int, b: int|
        0 <= a < b < due.len() ==> fires_before(timers, (#[trigger] due[a]).1@, (
        #[trigger] due[b]).1@)
}

/// Put one more due timer in its place.
fn insert_due(
    due: &mut Vec<(Millis, TimerKey)>,
    t: Millis,
    key: TimerKey,
    Ghost(timers): Ghost<Timers>,
    Ghost(now): Ghost<Millis>,
)
    requires
        is_sorted_due(old(due)@, timers, now),
        timers.contains_key(key@),
        timers[key@] == t,
        t <= now,
        !has_key(old(due)@, key@),
    ensures
        is_sorted_due(final(due)@, timers, now),
        forall|k: Seq<char>| #[trigger]
            has_key(final(due)@, k) <==> has_key(old(due)@, k) || k == key@,
{
    let mut p: usize = 0;
    while p < due.len() && (due[p].0 < t || due[p].0 == t && text_less(&due[p].1.0, &key.0))
        invariant
            p <= due@.len(),
            due@ == old(due)@,
            is_sorted_due(due@, timers, now),
            timers[key@] == t,
            forall|a: int| 0 <= a < p ==> fires_before(timers, (#[trigger] due@[a]).1@, key@),
        decreases due@.len() - p,
    {
        p += 1;
    }
    let ghost before = due@;
    proof {
        assert forall|b: int| p <= b < before.len() implies fires_before(timers, key@, (#[trigger] before[b]).1@) by {
            assert(has_key(before, before[b].1@));
            assert(has_key(before, before[p as int].1@));
            text_order_is_total(before[p as int].1@, key@);
            if b > p {
                assert(fires_before(timers, before[p as int].1@, before[b].1@));
                if timers[key@] == timers[before[b].1@] {
                    text_order_is_transitive(key@, before[p as int].1@, before[b].1@);
                }
            }
        }
    }
    due.insert(p, (t, key));
    proof {
        let after = due@;
        assert forall|a: int| 0 <= a < after.len() implies #[trigger] after[a] == (if a < p { before[a] } else if a == p { (t, key) } else { before[a - 1] }) by {}
        assert forall|k: Seq<char>| #[trigger] has_key(after, k) <==> has_key(before, k) || k == key@ by {
            if has_key(before, k) {
                let q = choose|q: int| 0 <= q < before.len() && (#[trigger] before[q]).1@ == k;
                let z = if q < p { q } else { q + 1 };
                assert(after[z].1@ == k);
            }
            assert(after[p as int].1@ == key@);
            if has_key(after, k) {
                let q = choose|q: int| 0 <= q < after.len() && (#[trigger] after[q]).1@ == k;
                if q != p {
                    let z = if q < p { q } else { q - 1 };
                    assert(before[z].1@ == k);
                }
            }
        }
    }
}

// ------------------------------------------------------------------- laws

/// There is one soonest timer's delay.
pub proof fn soonest_is_one(timers: Timers, now: Millis, a: Option<Millis>, b: Option<Millis>)
    requires
        is_soonest(timers, now, a),
        is_soonest(timers, now, b),
    ensures
        a == b,
{
    if a is Some {
        let k = choose|k: Seq<char>| #[trigger]
            timers.contains_key(k) && a->0 == remaining(timers[k], now);
        assert(timers.contains_key(k));
        assert(b is Some);
    }
    if b is Some {
        let k = choose|k: Seq<char>| #[trigger]
            timers.contains_key(k) && b->0 == remaining(timers[k], now);
        assert(timers.contains_key(k));
        assert(a is Some);
    }
}

/// Scheduling a timer and cancelling it leaves no timer of that key, and every
/// other timer as it was.
pub proof fn cancel_undoes_schedule(timers: Timers, key: Seq<char>, after: Millis, now: Millis)
    ensures
        timers_after(
            timers_after(timers, CommandV::ScheduleTimer { key, after }, now),
            CommandV::CancelTimer { key },
            now,
        ) == timers.remove(key),
{
    assert(timers_after(
        timers_after(timers, CommandV::ScheduleTimer { key, after }, now),
        CommandV::CancelTimer { key },
        now,
    ) =~= timers.remove(key));
}

/// A timer that is scheduled again under its key waits out the new delay only.
pub proof fn rescheduling_replaces(
    timers: Timers,
    key: Seq<char>,
    first: Millis,
    second: Millis,
    then: Millis,
    now: Millis,
)
    ensures
        timers_after(
            timers_after(timers, CommandV::ScheduleTimer { key, after: first }, then),
            CommandV::ScheduleTimer { key, after: second },
            now,
        ) == timers_after(timers, CommandV::ScheduleTimer { key, after: second }, now),
{
    assert(timers_after(
        timers_after(timers, CommandV::ScheduleTimer { key, after: first }, then),
        CommandV::ScheduleTimer { key, after: second },
        now,
    ) =~= timers_after(timers, CommandV::ScheduleTimer { key, after: second }, now));
}

/// The timers that fire on a tick are those that leave, and each fires once: what
/// is left is exactly what did not fire.
pub proof fn tick_partitions_timers(timers: Timers, now: Millis, keys: Seq<Seq<char>>, k: Seq<char>)
    requires
        is_due_list(timers, now, keys),
        timers.contains_key(k),
    ensures
        keys.contains(k) <==> !timers_left(timers, now).contains_key(k),
        keys.no_duplicates(),
{
    assert forall|i: int, j: int| 0 <= i < j < keys.len() implies keys[i] != keys[j] by {
        assert(fires_before(timers, keys[i], keys[j]));
        text_order_is_total(keys[i], keys[i]);
    }
}

/// Once the due timers have fired, none is due: the next wake lies ahead.
pub proof fn nothing_is_due_after_a_tick(timers: Timers, now: Millis, r: Option<Millis>)
    requires
        is_soonest(timers_left(timers, now), now, r),
    ensures
        r != Some(0u64),
{
}

} // verus!
