//! The clock as an adapter, behind a synthetic device and firing wall-clock schedules.
//! On each tick it republishes the current time of day and sun state as ordinary
//! reports, and emits a `TimeReached` for every cron schedule that has come due.
//!
//! **Wall-clock time enters the deterministic core as data, never as a call.** The
//! adapter holds the real Unix time captured once at startup and derives the current
//! wall instant as that plus the engine's `now`.

use vstd::prelude::*;
use vstd::seq_lib::to_multiset_insert;

use super::{Adapter, Call, DispatchOutcome, OutcomeV};
use crate::calendar::{
    civil_time, has_sky, is_held, is_instant, is_near, occurrence, Asked, CronExpr, Ephemeris, Zone,
};
use crate::ids::{DeviceId, ScheduleId};
use crate::model::{event_views, CapabilityState, Command, Event, EventV, Millis};

verus! {

/// Real Unix time (ms) at startup.
#[derive(Clone, Copy, Debug)]
pub struct Epoch(i64);

impl Epoch {
    pub closed spec fn ms(&self) -> int {
        self.0 as int
    }

    pub fn at(ms: i64) -> (r: Epoch)
        ensures
            r.ms() == ms,
    {
        Epoch(ms)
    }

    /// The wall instant at an engine time, if it can be represented.
    pub fn wall(&self, now: Millis) -> (r: Option<i64>)
        ensures
            match r {
                Some(wall) => wall == self.ms() + now && is_instant(wall as int),
                None => !is_instant(self.ms() + now),
            },
    {
        let wall: i128 = self.0 as i128 + now as i128;
        if -8_334_601_228_800_000 <= wall && wall <= 8_210_266_876_799_999 {
            Some(wall as i64)
        } else {
            None
        }
    }
}

/// The sun window of one calendar date.
#[derive(Clone, Copy, Debug, PartialEq, Eq, Structural)]
pub enum SunWindow {
    /// A normal day: the sun is up between these two instants.
    Between(i64, i64),
    /// Polar day or night, or invalid coordinates: a fixed local threshold.
    Fallback,
}

/// Whether the sun is up at an instant that is this minute of the local day.
pub open spec fn is_up(window: SunWindow, wall: int, minute: int) -> bool {
    match window {
        SunWindow::Between(rise, set) => rise <= wall < set,
        SunWindow::Fallback => 360 <= minute < 1080,
    }
}

impl SunWindow {
    /// The window of a day's sunrise and sunset, or the fallback.
    pub fn of(events: Option<(i64, i64)>) -> (r: SunWindow)
        ensures
            r == window_of(events),
    {
        match events {
            Some((rise, set)) => SunWindow::Between(rise, set),
            None => SunWindow::Fallback,
        }
    }

    pub fn sun_up(&self, wall: i64, minute: u16) -> (r: bool)
        ensures
            r == is_up(*self, wall as int, minute as int),
    {
        match self {
            SunWindow::Between(rise, set) => *rise <= wall && wall < *set,
            SunWindow::Fallback => 360 <= minute && minute < 1080,
        }
    }
}

/// One cron schedule the clock fires, with its cached next occurrence.
struct ScheduleState {
    id: ScheduleId,
    cron: CronExpr,
    /// `None` once no further occurrence exists. `armed` distinguishes "not computed
    /// yet" from a genuine end of the schedule.
    next_fire: Option<i64>,
    armed: bool,
}

/// [`ScheduleState`] as a mathematical value.
pub struct ScheduleV {
    pub id: ScheduleId,
    pub cron: Seq<char>,
    pub next_fire: Option<i64>,
    pub armed: bool,
}

impl View for ScheduleState {
    type V = ScheduleV;

    closed spec fn view(&self) -> ScheduleV {
        ScheduleV {
            id: self.id,
            cron: self.cron.text(),
            next_fire: self.next_fire,
            armed: self.armed,
        }
    }
}

/// When a schedule next fires: computed at its first arming, strictly after that
/// instant, so that a boot exactly on a cron minute does not fire.
pub open spec fn armed_fire(tz: Seq<char>, s: ScheduleV, wall: int) -> Option<i64> {
    if s.armed {
        s.next_fire
    } else {
        occurrence(s.cron, tz, wall)
    }
}

/// By how much a fire is overdue.
pub open spec fn overdue(next: Option<i64>, wall: int) -> nat {
    match next {
        Some(t) => if t <= wall {
            (wall - t + 1) as nat
        } else {
            0
        },
        None => 0,
    }
}

/// The fires of a schedule up to an instant, one after the other, and the one that
/// then lies ahead.
pub open spec fn fires_through(tz: Seq<char>, cron: Seq<char>, next: Option<i64>, wall: int) -> (
    Seq<i64>,
    Option<i64>,
)
    decreases overdue(next, wall),
{
    match next {
        None => (Seq::empty(), None),
        Some(t) => if t > wall {
            (Seq::empty(), next)
        } else {
            let after = occurrence(cron, tz, t as int);
            if after is Some && after->0 > t {
                let (rest, ahead) = fires_through(tz, cron, after, wall);
                (seq![t] + rest, ahead)
            } else {
                (seq![t], after)
            }
        },
    }
}

/// A schedule once everything due at an instant has fired.
pub open spec fn schedule_after(tz: Seq<char>, s: ScheduleV, wall: int) -> ScheduleV {
    ScheduleV {
        armed: true,
        next_fire: fires_through(tz, s.cron, armed_fire(tz, s, wall), wall).1,
        ..s
    }
}

/// What a schedule fires at an instant.
pub open spec fn schedule_fires(tz: Seq<char>, s: ScheduleV, wall: int) -> Seq<(i64, ScheduleId)> {
    fires_through(tz, s.cron, armed_fire(tz, s, wall), wall).0.map_values(
        |t: i64| (t, s.id),
    )
}

/// What the first `n` schedules fire at an instant.
pub open spec fn all_fires(tz: Seq<char>, schedules: Seq<ScheduleV>, n: nat, wall: int) -> Seq<
    (i64, ScheduleId),
>
    decreases n,
{
    if n == 0 {
        Seq::empty()
    } else {
        all_fires(tz, schedules, (n - 1) as nat, wall) + schedule_fires(
            tz,
            schedules[n - 1],
            wall,
        )
    }
}

/// Whether one fire comes before another: by time, then by schedule.
pub open spec fn fire_before(a: (i64, ScheduleId), b: (i64, ScheduleId)) -> bool {
    a.0 < b.0 || a.0 == b.0 && (a.1).0 <= (b.1).0
}

pub open spec fn in_fire_order(fires: Seq<(i64, ScheduleId)>) -> bool {
    forall|i: int, j: int|
        0 <= i < j < fires.len() ==> fire_before(#[trigger] fires[i], #[trigger] fires[j])
}

pub open spec fn reached(fires: Seq<(i64, ScheduleId)>) -> Seq<EventV> {
    fires.map_values(|f: (i64, ScheduleId)| EventV::TimeReached { schedule: f.1 })
}

/// Put one more fire in its place.
fn insert_fire(fired: &mut Vec<(i64, ScheduleId)>, f: (i64, ScheduleId))
    requires
        in_fire_order(old(fired)@),
    ensures
        in_fire_order(final(fired)@),
        final(fired)@.to_multiset() == old(fired)@.to_multiset().insert(f),
{
    let mut p: usize = fired.len();
    while p > 0 && !(fired[p - 1].0 < f.0 || fired[p - 1].0 == f.0 && fired[p - 1].1.0 <= f.1.0)
        invariant
            p <= fired@.len(),
            fired@ == old(fired)@,
            in_fire_order(fired@),
            forall|j: int| p <= j < fired@.len() ==> fire_before(f, #[trigger] fired@[j]),
        decreases p,
    {
        p -= 1;
    }
    let ghost before = fired@;
    proof {
        if p > 0 {
            assert forall|j: int| 0 <= j < p implies fire_before(#[trigger] before[j], f) by {
                if j < p - 1 {
                    assert(fire_before(before[j], before[p - 1]));
                }
            }
        }
    }
    fired.insert(p, f);
    proof {
        to_multiset_insert(before, p as int, f);
        let after = fired@;
        assert forall|i: int, j: int| 0 <= i < j < after.len() implies fire_before(
            #[trigger] after[i],
            #[trigger] after[j],
        ) by {
            let a = if i < p { i } else { i - 1 };
            let b = if j < p { j } else { j - 1 };
            if i != p {
                assert(after[i] == before[a]);
            }
            if j != p {
                assert(after[j] == before[b]);
            }
        }
    }
}

pub struct ClockAdapter {
    device: DeviceId,
    epoch: Epoch,
    tz: Zone,
    latitude: String,
    longitude: String,
    last_emit_min: Option<u16>,
    schedules: Vec<ScheduleState>,
    /// The window of a date, recomputed only when the local date rolls over.
    sun_cache: Option<(i32, SunWindow)>,
    /// Where the sun is asked for.
    sky: Ephemeris,
    /// Every call so far.
    heard: Ghost<Seq<Call>>,
}

spec fn schedule_states(s: Seq<ScheduleState>) -> Seq<ScheduleV> {
    s.map_values(|x: ScheduleState| x@)
}

/// What the clock remembers between ticks.
pub struct ClockV {
    pub device: DeviceId,
    pub epoch: int,
    pub tz: Seq<char>,
    pub latitude: Seq<char>,
    pub longitude: Seq<char>,
    pub last_minute: Option<u16>,
    pub schedules: Seq<ScheduleV>,
    pub sun: Option<(i32, SunWindow)>,
    /// Everything that the ephemeris was asked so far, by its own record.
    pub asked: Seq<Asked>,
}

impl View for ClockAdapter {
    type V = ClockV;

    closed spec fn view(&self) -> ClockV {
        ClockV {
            device: self.device,
            epoch: self.epoch.ms(),
            tz: self.tz.name(),
            latitude: self.latitude@,
            longitude: self.longitude@,
            last_minute: self.last_emit_min,
            schedules: schedule_states(self.schedules@),
            sun: self.sun_cache,
            asked: self.sky.asked(),
        }
    }
}

/// The date whose sun window is known.
pub open spec fn sun_date(sun: Option<(i32, SunWindow)>) -> Option<i32> {
    match sun {
        Some((day, _)) => Some(day),
        None => None,
    }
}

/// The sun window that is known.
pub open spec fn window_in(sun: Option<(i32, SunWindow)>) -> SunWindow {
    match sun {
        Some((_, window)) => window,
        None => SunWindow::Fallback,
    }
}

/// The window that an answer of the ephemeris stands for.
pub open spec fn window_of(answer: Option<(i64, i64)>) -> SunWindow {
    match answer {
        Some((rise, set)) => SunWindow::Between(rise, set),
        None => SunWindow::Fallback,
    }
}

/// The ephemeris is asked once per date, for the configured place, and what it answers is
/// the date's window. On a date that it cannot be asked for, the window is the fallback.
pub open spec fn sun_looked_up(before: ClockV, after: ClockV, day: i32) -> bool {
    if sun_date(before.sun) == Some(day) {
        after.sun == before.sun && after.asked == before.asked
    } else if has_sky(day) {
        exists|answer: Option<(i64, i64)>|
            after.sun == Some((day, #[trigger] window_of(answer))) && after.asked
                == before.asked.push((before.latitude, before.longitude, day, answer)) && (answer
                is Some ==> is_near((answer->0).0, day) && is_near((answer->0).1, day))
    } else {
        after.sun == Some((day, SunWindow::Fallback)) && after.asked == before.asked
    }
}

/// The minute of the local day at an instant.
pub open spec fn minute_of(tz: Seq<char>, wall: int) -> u16 {
    let (_, hour, minute) = civil_time(tz, wall);
    (hour * 60 + minute) as u16
}

/// What the clock publishes of time and sun: both, but only when the minute has
/// changed.
pub open spec fn published(c: ClockV, wall: int, sun_up: bool) -> Seq<EventV> {
    let minute = minute_of(c.tz, wall);
    if c.last_minute == Some(minute) {
        Seq::empty()
    } else {
        seq![
            EventV::StateReported {
                device: c.device,
                state: CapabilityState::TimeOfDay(minute),
            },
            EventV::StateReported { device: c.device, state: CapabilityState::SunUp(sun_up) },
        ]
    }
}

/// How long until the next minute begins.
pub open spec fn to_next_minute(wall: int) -> int {
    60_000 - wall % 60_000
}

/// How long until the clock has something to do: the next minute, or the soonest
/// pending schedule among the first `n`.
pub open spec fn clock_wake(schedules: Seq<ScheduleV>, n: nat, wall: int) -> int
    decreases n,
{
    if n == 0 {
        to_next_minute(wall)
    } else {
        let before = clock_wake(schedules, (n - 1) as nat, wall);
        match schedules[n - 1].next_fire {
            Some(t) => {
                let left = if t > wall {
                    t - wall
                } else {
                    0
                };
                if left < before {
                    left
                } else {
                    before
                }
            },
            None => before,
        }
    }
}

/// What a tick at an instant does to the clock, and the events that come of it.
pub open spec fn clock_ticked(
    before: ClockV,
    after: ClockV,
    wall: int,
    events: Seq<EventV>,
) -> bool {
    let minute = minute_of(before.tz, wall);
    &&& after.last_minute == Some(minute)
    &&& after.schedules == before.schedules.map_values(
        |s: ScheduleV| schedule_after(before.tz, s, wall),
    )
    &&& after == (ClockV {
        last_minute: after.last_minute,
        schedules: after.schedules,
        sun: after.sun,
        asked: after.asked,
        ..before
    })
    &&& if before.last_minute == Some(minute) {
        after.sun == before.sun && after.asked == before.asked
    } else {
        sun_looked_up(before, after, civil_time(before.tz, wall).0)
    }
    &&& exists|fires: Seq<(i64, ScheduleId)>|
        in_fire_order(fires) && fires.to_multiset() == all_fires(
            before.tz,
            before.schedules,
            before.schedules.len(),
            wall,
        ).to_multiset() && events == published(
            before,
            wall,
            is_up(window_in(after.sun), wall, minute as int),
        ) + #[trigger] reached(fires)
}

/// What a tick does to whatever is a clock, and the events that come of it. At an
/// instant that cannot be represented in its zone a clock stands still; what is no clock
/// does not become one.
pub open spec fn clock_moved(
    before: Option<ClockV>,
    now: Millis,
    after: Option<ClockV>,
    events: Seq<EventV>,
) -> bool {
    match (before, after) {
        (None, None) => true,
        (Some(b), Some(a)) => if is_held(b.tz, b.epoch + now) {
            clock_ticked(b, a, b.epoch + now, events)
        } else {
            a == b && events == Seq::<EventV>::empty()
        },
        _ => false,
    }
}

impl ClockAdapter {
    /// `epoch` is real Unix time at startup; `tz` the configured timezone;
    /// `latitude` and `longitude` (decimal degrees) drive the solar ephemeris.
    pub fn new(
        device: DeviceId,
        epoch: Epoch,
        tz: Zone,
        latitude: &str,
        longitude: &str,
    ) -> (r: Self)
        ensures
            r@ == (ClockV {
                device,
                epoch: epoch.ms(),
                tz: tz.name(),
                latitude: latitude@,
                longitude: longitude@,
                last_minute: None,
                schedules: Seq::empty(),
                sun: None,
                asked: Seq::empty(),
            }),
            r.heard() == Some(Seq::<Call>::empty()),
    {
        let r = ClockAdapter {
            device,
            epoch,
            tz,
            latitude: latitude.to_owned(),
            longitude: longitude.to_owned(),
            last_emit_min: None,
            schedules: Vec::new(),
            sun_cache: None,
            sky: Ephemeris::new(),
            heard: Ghost(Seq::empty()),
        };
        assert(r@.schedules =~= Seq::<ScheduleV>::empty());
        r
    }

    /// Attach the cron schedules this clock fires as `TimeReached`.
    pub fn with_schedules(self, schedules: Vec<(ScheduleId, CronExpr)>) -> (r: Self)
        ensures
            r@.schedules == schedules@.map_values(
                |s: (ScheduleId, CronExpr)|
                    ScheduleV { id: s.0, cron: s.1.text(), next_fire: None, armed: false },
            ),
            r@ == (ClockV { schedules: r@.schedules, ..self@ }),
            r.heard() == self.heard(),
    {
        let ghost wanted = schedules@.map_values(
            |s: (ScheduleId, CronExpr)|
                ScheduleV { id: s.0, cron: s.1.text(), next_fire: None, armed: false },
        );
        let mut rest = schedules;
        let mut out: Vec<ScheduleState> = Vec::new();
        // Taken from the end, and put back at the front.
        while rest.len() > 0
            invariant
                rest@.map_values(
                    |s: (ScheduleId, CronExpr)|
                        ScheduleV { id: s.0, cron: s.1.text(), next_fire: None, armed: false },
                ) + schedule_states(out@) == wanted,
            decreases rest@.len(),
        {
            let ghost was = rest@;
            let ghost had = out@;
            if let Some((id, cron)) = rest.pop() {
                let s = ScheduleState { id, cron, next_fire: None, armed: false };
                out.insert(0, s);
                assert(schedule_states(out@) =~= seq![s@] + schedule_states(had));
                assert(was =~= rest@.push((id, cron)));
                assert(rest@.map_values(
                    |s: (ScheduleId, CronExpr)|
                        ScheduleV { id: s.0, cron: s.1.text(), next_fire: None, armed: false },
                ) + schedule_states(out@) =~= was.map_values(
                    |s: (ScheduleId, CronExpr)|
                        ScheduleV { id: s.0, cron: s.1.text(), next_fire: None, armed: false },
                ) + schedule_states(had));
            }
        }
        assert(schedule_states(out@) =~= wanted);
        ClockAdapter {
            device: self.device,
            epoch: self.epoch,
            tz: self.tz,
            latitude: self.latitude,
            longitude: self.longitude,
            last_emit_min: self.last_emit_min,
            schedules: out,
            sun_cache: self.sun_cache,
            sky: self.sky,
            heard: self.heard,
        }
    }

    /// Whether the sun is up, by the window of the local date. The ephemeris runs once
    /// per date.
    fn sun_up(&mut self, wall: i64, day: i32, minute: u16) -> (r: bool)
        ensures
            final(self).heard == old(self).heard,
            final(self)@ == (ClockV {
                sun: final(self)@.sun,
                asked: final(self)@.asked,
                ..old(self)@
            }),
            sun_looked_up(old(self)@, final(self)@, day),
            r == is_up(window_in(final(self)@.sun), wall as int, minute as int),
    {
        if let Some((cached, window)) = self.sun_cache {
            if cached == day {
                return window.sun_up(wall, minute);
            }
        }
        let window = if -95_746_129 < day && day < 95_745_399 {
            let answer = self.sky.solar_window(
                self.latitude.as_str(),
                self.longitude.as_str(),
                day,
            );
            SunWindow::of(answer)
        } else {
            SunWindow::Fallback
        };
        self.sun_cache = Some((day, window));
        window.sun_up(wall, minute)
    }

    /// Fire every schedule due at or before `wall`, ordered by fire time and then
    /// schedule, re-arming each to its next occurrence.
    fn fire_due_schedules(&mut self, wall: i64) -> (r: Vec<Event>)
        ensures
            final(self).heard == old(self).heard,
            final(self)@ == (ClockV {
                schedules: old(self)@.schedules.map_values(
                    |s: ScheduleV| schedule_after(old(self)@.tz, s, wall as int),
                ),
                ..old(self)@
            }),
            exists|fires: Seq<(i64, ScheduleId)>|
                in_fire_order(fires) && fires.to_multiset() == all_fires(
                    old(self)@.tz,
                    old(self)@.schedules,
                    old(self)@.schedules.len(),
                    wall as int,
                ).to_multiset() && event_views(r@) == #[trigger] reached(fires),
    {
        let ghost tz = self@.tz;
        let ghost before = self@.schedules;
        let mut fired: Vec<(i64, ScheduleId)> = Vec::new();
        let n: usize = self.schedules.len();
        let mut i: usize = 0;
        while i < n
            invariant
                i <= n == self.schedules@.len(),
                n == before.len(),
                tz == self.tz.name(),
                self@ == (ClockV { schedules: self@.schedules, ..old(self)@ }),
                self.heard == old(self).heard,
                forall|k: int|
                    0 <= k < i ==> #[trigger] self@.schedules[k] == schedule_after(
                        tz,
                        before[k],
                        wall as int,
                    ),
                forall|k: int| i <= k < n ==> #[trigger] self@.schedules[k] == before[k],
                in_fire_order(fired@),
                fired@.to_multiset() == all_fires(
                    tz,
                    before,
                    i as nat,
                    wall as int,
                ).to_multiset(),
            decreases n - i,
        {
            let ghost s = before[i as int];
            assert(self@.schedules[i as int] == s);
            assert(self.schedules@[i as int]@ == s);
            let id = self.schedules[i].id;
            let mut next: Option<i64> = if self.schedules[i].armed {
                self.schedules[i].next_fire
            } else {
                self.schedules[i].cron.next_after(&self.tz, wall)
            };
            let ghost all = fires_through(tz, s.cron, next, wall as int);
            let ghost done: Seq<(i64, ScheduleId)> = all_fires(tz, before, i as nat, wall as int);
            let ghost mut mine: Seq<i64> = Seq::empty();
            assert(mine + all.0 =~= all.0);
            assert(done + mine.map_values(|t: i64| (t, id)) =~= done);
            let mut going = true;
            let ghost snap = *self;
            while going
                invariant
                    *self == snap,
                    i < n == self.schedules@.len(),
                    tz == self.tz.name(),
                    self.schedules@[i as int].cron.text() == s.cron,
                    all == fires_through(tz, s.cron, armed_fire(tz, s, wall as int), wall as int),
                    going ==> mine + fires_through(tz, s.cron, next, wall as int).0 == all.0
                        && fires_through(tz, s.cron, next, wall as int).1 == all.1,
                    !going ==> mine == all.0 && next == all.1,
                    in_fire_order(fired@),
                    fired@.to_multiset() == (done + mine.map_values(
                        |t: i64| (t, id),
                    )).to_multiset(),
                decreases (if going { 1int } else { 0int }), overdue(next, wall as int),
            {
                match next {
                    None => {
                        going = false;
                        assert(mine + Seq::<i64>::empty() =~= mine);
                    },
                    Some(t) => {
                        if t > wall {
                            going = false;
                            assert(mine + Seq::<i64>::empty() =~= mine);
                        } else {
                            let ghost had = fired@;
                            insert_fire(&mut fired, (t, id));
                            // Strictly after the one just fired, so this ends.
                            next = self.schedules[i].cron.next_after(&self.tz, t);
                            proof {
                                let mapped = mine.map_values(|t: i64| (t, id));
                                let now_mine = mine.push(t);
                                assert(now_mine.map_values(|t: i64| (t, id)) =~= mapped.push(
                                    (t, id),
                                ));
                                assert((done + mapped).push((t, id)) =~= done + mapped.push(
                                    (t, id),
                                ));
                                (done + mapped).to_multiset_ensures();
                                if next is Some {
                                    let rest = fires_through(tz, s.cron, next, wall as int).0;
                                    assert(mine + (seq![t] + rest) =~= now_mine + rest);
                                } else {
                                    assert(mine + seq![t] =~= now_mine);
                                    assert(now_mine + Seq::<i64>::empty() =~= now_mine);
                                }
                                mine = now_mine;
                            }
                        }
                    },
                }
            }
            proof {
                assert(schedule_fires(tz, s, wall as int) =~= mine.map_values(|t: i64| (t, id)));
            }
            let ghost old_states = self.schedules@;
            assert(old_states == snap.schedules@);
            self.schedules[i].next_fire = next;
            self.schedules[i].armed = true;
            assert(self@.schedules[i as int] == self.schedules@[i as int]@);
            assert(self@.schedules[i as int] == schedule_after(tz, s, wall as int));
            assert forall|k: int| 0 <= k < n && k != i implies #[trigger] self@.schedules[k]
                == snap@.schedules[k] by {
                assert(self.schedules@[k] == old_states[k]);
                assert(snap@.schedules[k] == old_states[k]@);
            }
            i += 1;
        }
        assert(self@.schedules =~= before.map_values(
            |s: ScheduleV| schedule_after(tz, s, wall as int),
        ));
        let mut out: Vec<Event> = Vec::new();
        let mut k: usize = 0;
        while k < fired.len()
            invariant
                k <= fired@.len(),
                out@.len() == k,
                forall|j: int| 0 <= j < k ==> (#[trigger] out@[j])@ == reached(fired@)[j],
            decreases fired@.len() - k,
        {
            out.push(Event::TimeReached { schedule: fired[k].1 });
            k += 1;
        }
        assert(event_views(out@) =~= reached(fired@));
        out
    }

    /// Publish the time and the sun if the minute has changed, and fire what is due.
    fn tick_at(&mut self, wall: i64, day: i32, hour: u32, min: u32) -> (out: Vec<Event>)
        requires
            civil_time(old(self)@.tz, wall as int) == (day, hour, min),
            hour < 24,
            min < 60,
        ensures
            final(self).heard == old(self).heard,
            clock_ticked(old(self)@, final(self)@, wall as int, event_views(out@)),
    {
        let minute: u16 = (hour * 60 + min) as u16;
        let mut events: Vec<Event> = Vec::new();
        assert(event_views(events@) =~= Seq::empty());
        if self.last_emit_min != Some(minute) {
            self.last_emit_min = Some(minute);
            let sun_up = self.sun_up(wall, day, minute);
            events.push(
                Event::StateReported {
                    device: self.device,
                    state: CapabilityState::TimeOfDay(minute),
                },
            );
            events.push(
                Event::StateReported {
                    device: self.device,
                    state: CapabilityState::SunUp(sun_up),
                },
            );
        }
        assert(event_views(events@) =~= published(
            old(self)@,
            wall as int,
            is_up(window_in(self@.sun), wall as int, minute as int),
        ));
        let ghost first = events@;
        let mut due = self.fire_due_schedules(wall);
        let ghost rest = due@;
        events.append(&mut due);
        assert(event_views(events@) =~= event_views(first) + event_views(rest));
        events
    }
}

impl Adapter for ClockAdapter {
    closed spec fn heard(&self) -> Option<Seq<Call>> {
        Some(self.heard@)
    }

    open spec fn wakes(&self, now: Millis) -> Option<Millis> {
        Some(clock_wake(self@.schedules, self@.schedules.len(), self@.epoch + now) as u64)
    }

    open spec fn clock(&self) -> Option<ClockV> {
        Some(self@)
    }

    fn dispatch(&mut self, cmd: &Command, now: Millis) -> (out: DispatchOutcome)
        ensures
            final(self)@ == old(self)@,
            out@ == OutcomeV::Permanent("clock device accepts no commands"@),
    {
        let out = DispatchOutcome::permanent("clock device accepts no commands");
        proof {
            self.heard@ = self.heard@.push(
                Call::Dispatch { command: cmd@, now, outcome: out@ },
            );
        }
        out
    }

    fn tick(&mut self, now: Millis) -> (out: Vec<Event>)
        ensures
            clock_moved(Some(old(self)@), now, Some(final(self)@), event_views(out@)),
    {
        let out = match self.epoch.wall(now) {
            Some(wall) => match self.tz.civil(wall) {
                Some((day, hour, min)) => self.tick_at(wall, day, hour, min),
                None => Vec::new(),
            },
            None => Vec::new(),
        };
        proof {
            if !is_held(old(self)@.tz, old(self)@.epoch + now) {
                assert(event_views(out@) =~= Seq::<EventV>::empty());
            }
            self.heard@ = self.heard@.push(Call::Tick { now, events: event_views(out@) });
        }
        out
    }

    fn next_wake(&self, now: Millis) -> (out: Option<Millis>)
        ensures
            out is Some,
            out->0 == clock_wake(
                self@.schedules,
                self@.schedules.len(),
                self@.epoch + now,
            ),
    {
        let wall: i128 = self.epoch.0 as i128 + now as i128;
        let into: i128 = match wall.checked_rem_euclid(60_000) {
            Some(r) => r,
            None => 0,
        };
        // Every zone's offset is a whole number of minutes, so the boundary of the UTC
        // instant is the local one.
        let mut soonest: u64 = (60_000 - into) as u64;
        let mut i: usize = 0;
        while i < self.schedules.len()
            invariant
                i <= self.schedules@.len(),
                soonest == clock_wake(self@.schedules, i as nat, wall as int),
                soonest <= 60_000,
                wall == self.epoch.0 + now,
            decreases self.schedules@.len() - i,
        {
            assert(self@.schedules[i as int] == self.schedules@[i as int]@);
            if let Some(next) = self.schedules[i].next_fire {
                if next as i128 <= wall {
                    soonest = 0;
                } else {
                    let left: i128 = next as i128 - wall;
                    if left < soonest as i128 {
                        soonest = left as u64;
                    }
                }
            }
            i += 1;
        }
        Some(soonest)
    }
}

// ------------------------------------------------------------ laws

/// Within one minute the clock says its time once: a second tick in the same minute
/// publishes neither time nor sun.
pub proof fn time_is_published_once_a_minute(c: ClockV, wall: int, later: int, up: bool)
    requires
        c.last_minute == Some(minute_of(c.tz, wall)),
        minute_of(c.tz, later) == minute_of(c.tz, wall),
    ensures
        published(c, later, up) == Seq::<EventV>::empty(),
{
}

/// The clock never sleeps past a minute, nor past a schedule that lies ahead.
pub proof fn clock_never_oversleeps(schedules: Seq<ScheduleV>, n: nat, wall: int, i: int)
    requires
        0 <= i < n <= schedules.len(),
    ensures
        0 <= clock_wake(schedules, n, wall) <= to_next_minute(wall) <= 60_000,
        schedules[i].next_fire is Some ==> wall + clock_wake(schedules, n, wall) <= (
        if schedules[i].next_fire->0 > wall {
            schedules[i].next_fire->0 as int
        } else {
            wall
        }),
    decreases n,
{
    reveal_with_fuel(clock_wake, 2);
    if n > 1 {
        if i < n - 1 {
            clock_never_oversleeps(schedules, (n - 1) as nat, wall, i);
        } else {
            clock_never_oversleeps(schedules, (n - 1) as nat, wall, 0);
        }
    }
}

/// Once due schedules have fired, whatever is still armed lies ahead.
pub proof fn fired_schedules_lie_ahead(tz: Seq<char>, cron: Seq<char>, next: Option<i64>, wall: int)
    requires
        forall|ms: int| #![trigger occurrence(cron, tz, ms)]
            occurrence(cron, tz, ms) is Some ==> occurrence(cron, tz, ms)->0 > ms,
    ensures
        fires_through(tz, cron, next, wall).1 is Some ==> fires_through(tz, cron, next, wall).1->0
            > wall,
    decreases overdue(next, wall),
{
    if next is Some && next->0 <= wall {
        let after = occurrence(cron, tz, next->0 as int);
        if after is Some {
            fired_schedules_lie_ahead(tz, cron, after, wall);
        }
    }
}

} // verus!
