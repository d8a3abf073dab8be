//! What the clock says.

use vstd::prelude::*;

use crate::adapters::clock::{
    armed_fire, clock_ticked, clock_wake, fire_before, fires_through, is_up, minute_of, published,
    reached, schedule_after, schedule_fires, to_next_minute, window_in, window_of, ClockV,
    ScheduleV, SunWindow,
};
use crate::calendar::{civil_time, occurrence};
use crate::ids::ScheduleId;
use crate::model::{CapabilityState, EventV};

verus! {

/// The minute of the day counts sixty for every hour.
pub proof fn minutes_count_sixty_to_the_hour(tz: Seq<char>, wall: int)
    requires
        civil_time(tz, wall).1 < 24,
        civil_time(tz, wall).2 < 60,
    ensures
        minute_of(tz, wall) == 60 * civil_time(tz, wall).1 + civil_time(tz, wall).2,
        minute_of(tz, wall) < 24 * 60,
{
}

/// The sun is up from sunrise to sunset, and down before and after. Where neither is known,
/// it counts as up from six in the morning to six in the evening.
pub proof fn the_sun_is_up_between_rise_and_set(rise: i64, set: i64, wall: int, minute: int)
    ensures
        is_up(SunWindow::Between(rise, set), wall, minute) <==> rise <= wall && wall < set,
        is_up(SunWindow::Fallback, wall, minute) <==> 6 * 60 <= minute && minute < 18 * 60,
        window_of(Some((rise, set))) == SunWindow::Between(rise, set),
        window_of(None) == SunWindow::Fallback,
{
}

/// In a new minute the clock tells the time and the sun, in that order and of itself: the
/// minute of the day, and whether the sun is up at that instant by the window of the day.
pub proof fn every_minute_is_told(before: ClockV, after: ClockV, wall: int, events: Seq<EventV>)
    requires
        clock_ticked(before, after, wall, events),
        before.last_minute != Some(minute_of(before.tz, wall)),
    ensures
        events.len() >= 2,
        events[0] == (EventV::StateReported {
            device: before.device,
            state: CapabilityState::TimeOfDay(minute_of(before.tz, wall)),
        }),
        events[1] is StateReported,
        events[1]->StateReported_device == before.device,
        after.sun is Some,
        (after.sun->0).0 == civil_time(before.tz, wall).0,
        match (after.sun->0).1 {
            SunWindow::Between(rise, set) => events[1]->StateReported_state
                == CapabilityState::SunUp(rise <= wall && wall < set),
            SunWindow::Fallback => events[1]->StateReported_state == CapabilityState::SunUp(
                6 * 60 <= minute_of(before.tz, wall) && minute_of(before.tz, wall) < 18 * 60,
            ),
        },
        after.last_minute == Some(minute_of(before.tz, wall)),
{
    let fires = choose|fires: Seq<(i64, ScheduleId)>|
        events == published(
            before,
            wall,
            is_up(window_in(after.sun), wall, minute_of(before.tz, wall) as int),
        ) + #[trigger] reached(fires);
    let said = published(
        before,
        wall,
        is_up(window_in(after.sun), wall, minute_of(before.tz, wall) as int),
    );
    assert(events[0] == said[0]);
    assert(events[1] == said[1]);
}

/// A schedule that is armed for an instant fires once that instant is reached, for itself,
/// and not before.
pub proof fn schedules_fire_at_their_time(tz: Seq<char>, s: ScheduleV, wall: int)
    requires
        s.armed,
    ensures
        s.next_fire is None ==> schedule_fires(tz, s, wall).len() == 0,
        s.next_fire is Some && s.next_fire->0 > wall ==> schedule_fires(tz, s, wall).len() == 0
            && schedule_after(tz, s, wall).next_fire == s.next_fire,
        s.next_fire is Some && s.next_fire->0 <= wall ==> schedule_fires(tz, s, wall).len() >= 1
            && schedule_fires(tz, s, wall)[0] == (s.next_fire->0, s.id),
        schedule_after(tz, s, wall).id == s.id,
        schedule_after(tz, s, wall).cron == s.cron,
        schedule_after(tz, s, wall).armed,
{
}

/// A schedule is armed when it is first looked at, for its next occurrence after that
/// instant: whatever lay before does not fire.
pub proof fn schedules_start_from_now(tz: Seq<char>, s: ScheduleV, wall: int)
    requires
        !s.armed,
    ensures
        armed_fire(tz, s, wall) == occurrence(s.cron, tz, wall),
        occurrence(s.cron, tz, wall) is Some && occurrence(s.cron, tz, wall)->0 > wall
            ==> schedule_fires(tz, s, wall).len() == 0 && schedule_after(tz, s, wall).next_fire
            == occurrence(s.cron, tz, wall),
{
}

/// Once a schedule has fired, it is armed for the next occurrence after that.
pub proof fn schedules_fire_again(tz: Seq<char>, s: ScheduleV, wall: int, t: i64)
    requires
        s.armed,
        s.next_fire == Some(t),
        t <= wall,
        occurrence(s.cron, tz, t as int) is Some,
        occurrence(s.cron, tz, t as int)->0 > wall,
    ensures
        schedule_fires(tz, s, wall) == seq![(t, s.id)],
        schedule_after(tz, s, wall).next_fire == occurrence(s.cron, tz, t as int),
{
    let after = occurrence(s.cron, tz, t as int);
    assert(fires_through(tz, s.cron, after, wall) == (Seq::<i64>::empty(), after));
    assert(fires_through(tz, s.cron, s.next_fire, wall).0 =~= seq![t]);
    assert(schedule_fires(tz, s, wall) =~= seq![(t, s.id)]);
}

/// What fires is told as the schedule that it is of, the earlier before the later.
pub proof fn fires_are_told_in_order(a: (i64, ScheduleId), b: (i64, ScheduleId))
    ensures
        reached(seq![a, b]) == seq![
            EventV::TimeReached { schedule: a.1 },
            EventV::TimeReached { schedule: b.1 },
        ],
        a.0 < b.0 ==> fire_before(a, b) && !fire_before(b, a),
{
    assert(reached(seq![a, b]) =~= seq![
        EventV::TimeReached { schedule: a.1 },
        EventV::TimeReached { schedule: b.1 },
    ]);
}

/// The clock wakes at the turn of the minute, or at a schedule that comes before.
pub proof fn the_clock_wakes_with_the_minute(schedules: Seq<ScheduleV>, wall: int)
    requires
        wall >= 0,
    ensures
        0 < to_next_minute(wall) <= 60_000,
        (wall + to_next_minute(wall)) % 60_000 == 0,
        clock_wake(schedules, 0, wall) == to_next_minute(wall),
{
}

} // verus!
