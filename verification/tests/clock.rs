use chrono::{Datelike, TimeZone, Utc};
use domiform::adapters::clock::{Epoch, SunWindow};
use domiform::calendar::{CronExpr, Zone};
use domiform::{Adapter, CapabilityState, ClockAdapter, DeviceId, Event, ScheduleId};

const SUN: DeviceId = DeviceId(0);

/// Unix ms for a UTC wall-clock time, for deterministic boot epochs.
fn epoch(y: i32, mo: u32, d: u32, h: u32, mi: u32) -> Epoch {
    let ms = Utc
        .with_ymd_and_hms(y, mo, d, h, mi, 0)
        .unwrap()
        .timestamp_millis();
    Epoch::at(ms)
}

fn zone(name: &str) -> Zone {
    Zone::parse(name).unwrap()
}

fn time_of_day(evs: &[Event]) -> Option<u16> {
    evs.iter().find_map(|e| match e {
        Event::StateReported {
            state: CapabilityState::TimeOfDay(m),
            ..
        } => Some(*m),
        _ => None,
    })
}

fn sun_up(evs: &[Event]) -> Option<bool> {
    evs.iter().find_map(|e| match e {
        Event::StateReported {
            state: CapabilityState::SunUp(b),
            ..
        } => Some(*b),
        _ => None,
    })
}

#[test]
fn reports_real_time_of_day_not_time_since_boot() {
    // Booting at 15:00 must report 15:00, not 00:00.
    let mut c = ClockAdapter::new(SUN, epoch(2024, 6, 1, 15, 0), zone("UTC"), "0.0", "0.0");
    let evs = c.tick(0);
    assert_eq!(time_of_day(&evs), Some(15 * 60));
    // Advancing 30 virtual minutes moves civil time forward from 15:00.
    let evs = c.tick(30 * 60 * 1000);
    assert_eq!(time_of_day(&evs), Some(15 * 60 + 30));
}

#[test]
fn timezone_offsets_the_reported_time() {
    let e = epoch(2024, 6, 1, 12, 0); // 12:00 UTC
    let mut utc = ClockAdapter::new(SUN, e, zone("UTC"), "0.0", "0.0");
    let mut ny = ClockAdapter::new(SUN, e, zone("America/New_York"), "0.0", "0.0");
    // New York is UTC-4 in June (EDT) → 08:00 local.
    assert_eq!(time_of_day(&utc.tick(0)), Some(12 * 60));
    assert_eq!(time_of_day(&ny.tick(0)), Some(8 * 60));
}

#[test]
fn sun_is_up_at_noon_and_down_at_midnight_at_the_equator() {
    // Equator/UTC: day ~06:00–18:00 year round.
    let mut midnight = ClockAdapter::new(SUN, epoch(2024, 6, 1, 0, 0), zone("UTC"), "0.0", "0.0");
    let mut noon = ClockAdapter::new(SUN, epoch(2024, 6, 1, 12, 0), zone("UTC"), "0.0", "0.0");
    assert_eq!(sun_up(&midnight.tick(0)), Some(false));
    assert_eq!(sun_up(&noon.tick(0)), Some(true));
}

#[test]
fn republishes_only_on_a_minute_change() {
    let mut c = ClockAdapter::new(SUN, epoch(2024, 6, 1, 12, 0), zone("UTC"), "0.0", "0.0");
    assert!(!c.tick(0).is_empty(), "first tick emits");
    assert!(c.tick(30_000).is_empty(), "same minute → nothing");
    assert!(!c.tick(60_000).is_empty(), "next minute → emits again");
}

#[test]
fn next_wake_targets_the_next_minute_boundary() {
    let c = ClockAdapter::new(SUN, epoch(2024, 6, 1, 12, 0), zone("UTC"), "0.0", "0.0");
    assert_eq!(c.next_wake(0), Some(60_000)); // exactly on :00
    assert_eq!(c.next_wake(90_000), Some(30_000)); // 1m30s in → 30s left
}

#[test]
fn cron_schedule_fires_time_reached_and_rearms() {
    let sched = ScheduleId(7);
    // Every day at 06:40; boot at 06:00 UTC.
    let cron = CronExpr::parse("40 6 * * *").unwrap();
    let mut c = ClockAdapter::new(SUN, epoch(2024, 6, 1, 6, 0), zone("UTC"), "0.0", "0.0")
        .with_schedules(vec![(sched, cron)]);

    assert!(
        c.tick(0)
            .iter()
            .all(|e| !matches!(e, Event::TimeReached { .. })),
        "nothing due at boot (06:00)"
    );
    // Advance to 06:40 → the schedule fires exactly once.
    let evs = c.tick(40 * 60 * 1000);
    let fires: Vec<_> = evs
        .iter()
        .filter(|e| matches!(e, Event::TimeReached { schedule } if *schedule == sched))
        .collect();
    assert_eq!(fires.len(), 1, "06:40 fires once: {evs:?}");
    // It re-arms for the next day, not immediately again.
    let evs = c.tick(41 * 60 * 1000);
    assert!(
        evs.iter().all(|e| !matches!(e, Event::TimeReached { .. })),
        "already fired today"
    );
}

#[test]
fn next_wake_accounts_for_a_sooner_schedule() {
    let cron = CronExpr::parse("40 6 * * *").unwrap();
    let mut c = ClockAdapter::new(SUN, epoch(2024, 6, 1, 6, 39), zone("UTC"), "0.0", "0.0")
        .with_schedules(vec![(ScheduleId(1), cron)]);
    c.tick(0); // arm the schedule
    // Move 30s in: boundary is 30s out, schedule (06:40) is 30s out: equal.
    assert_eq!(c.next_wake(30_000), Some(30_000));
}

#[test]
fn unknown_zones_and_bad_crons_are_refused() {
    assert!(Zone::parse("Mars/Olympus").is_none());
    assert!(Zone::parse("").is_none());
    assert!(CronExpr::parse("not a cron").is_none());
    assert!(CronExpr::parse("61 6 * * *").is_none());
}

#[test]
fn civil_time_and_occurrences_follow_the_zone() {
    let noon = epoch(2024, 6, 1, 12, 30).wall(0).unwrap();
    let (day, hour, minute) = zone("Asia/Kolkata").civil(noon).unwrap();
    assert_eq!((hour, minute), (18, 0));
    assert_eq!(day, zone("UTC").civil(noon).unwrap().0);
    // 06:40 in New York is 10:40 UTC in June.
    let next = CronExpr::parse("40 6 * * *")
        .unwrap()
        .next_after(&zone("America/New_York"), epoch(2024, 6, 1, 0, 0).wall(0).unwrap());
    assert_eq!(next, epoch(2024, 6, 1, 10, 40).wall(0));
}

const FIRST: i64 = -8_334_601_228_800_000;
const LAST: i64 = 8_210_266_876_799_999;

#[test]
fn beyond_civil_time_the_clock_is_silent() {
    assert_eq!(Epoch::at(i64::MAX).wall(0), None);
    assert_eq!(Epoch::at(i64::MIN).wall(0), None);
    assert_eq!(Epoch::at(0).wall(u64::MAX), None);
    assert_eq!(Epoch::at(-5).wall(7), Some(2));
    assert_eq!(Epoch::at(LAST).wall(0), Some(LAST));
    assert_eq!(Epoch::at(LAST).wall(1), None);
    assert_eq!(Epoch::at(FIRST - 1).wall(0), None);
    let mut c = ClockAdapter::new(SUN, Epoch::at(i64::MAX), zone("UTC"), "0", "0");
    assert!(c.tick(0).is_empty());
    assert!(c.tick(u64::MAX).is_empty());
    // In Tokyo the last instant falls on a date that cannot be represented.
    assert_eq!(zone("Asia/Tokyo").civil(LAST), None);
    let mut c = ClockAdapter::new(SUN, Epoch::at(LAST), zone("Asia/Tokyo"), "0", "0");
    assert!(c.tick(0).is_empty());
}

#[test]
fn civil_time_is_what_the_calendar_can_hold() {
    let utc = Utc.timestamp_millis_opt(LAST).unwrap();
    assert!(Utc.timestamp_millis_opt(LAST + 1).single().is_none());
    assert!(Utc.timestamp_millis_opt(FIRST - 1).single().is_none());
    assert_eq!(zone("UTC").civil(LAST), Some((utc.num_days_from_ce(), 23, 59)));
    assert_eq!(zone("UTC").civil(FIRST).map(|c| (c.1, c.2)), Some((0, 0)));
    assert_eq!(zone("UTC").civil(LAST + 1), None);
    assert_eq!(zone("UTC").civil(FIRST - 1), None);
}

#[test]
fn the_clock_ticks_to_the_ends_of_civil_time() {
    const DAY: i64 = 86_400_000;
    for ms in [FIRST, FIRST + DAY, LAST - DAY, LAST] {
        for longitude in ["-180", "0", "180"] {
            let mut c = ClockAdapter::new(SUN, Epoch::at(ms), zone("UTC"), "0", longitude)
                .with_schedules(vec![(ScheduleId(0), CronExpr::parse("* * * * *").unwrap())]);
            assert_eq!(c.tick(0).len(), 2);
        }
    }
}

#[test]
fn without_an_ephemeris_the_day_is_six_to_six() {
    assert!(SunWindow::of(None).sun_up(0, 360));
    assert!(!SunWindow::of(None).sun_up(0, 1080));
    assert!(SunWindow::of(Some((10, 20))).sun_up(10, 0));
    assert!(!SunWindow::of(Some((10, 20))).sun_up(20, 0));
    // Coordinates that are none fall back too.
    let mut c = ClockAdapter::new(SUN, epoch(2024, 6, 1, 12, 0), zone("UTC"), "north", "0");
    assert_eq!(sun_up(&c.tick(0)), Some(true));
}
