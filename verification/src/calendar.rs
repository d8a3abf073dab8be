//! Civil time, cron expressions and the sun, as the outside crates know them.
//!
//! Instants are milliseconds since the Unix epoch.

use vstd::prelude::*;

use crate::compile::diagnostic::opt_text;

verus! {

/// Whether a name stands for a time zone of the IANA database.
pub uninterp spec fn is_timezone(name: Seq<char>) -> bool;

/// `chrono_tz::Tz::from_str`: succeeds exactly on the zone names of the IANA
/// database that `chrono-tz` was built with.
#[verifier::external_body]
pub(crate) fn known_timezone(name: &str) -> (r: bool)
    ensures
        r == is_timezone(name@),
{
    name.parse::<chrono_tz::Tz>().is_ok()
}

/// What is wrong with a cron expression: nothing, or the parser's own words.
pub uninterp spec fn cron_fault(expr: Seq<char>) -> Option<Seq<char>>;

/// `croner::Cron::from_str`: whether the expression is one, or what the error says.
#[verifier::external_body]
pub(crate) fn check_cron(expr: &str) -> (r: Option<String>)
    ensures
        opt_text(r) == cron_fault(expr@),
{
    match expr.parse::<croner::Cron>() {
        Ok(_) => None,
        Err(e) => Some(e.to_string()),
    }
}

/// The instants that `chrono` can represent: from the first day of the year -262143 to the
/// last of the year 262142.
pub open spec fn is_instant(ms: int) -> bool {
    -8_334_601_228_800_000 <= ms <= 8_210_266_876_799_999
}

/// The dates that `chrono` can represent, counted from the beginning of the common era.
pub open spec fn is_date(day: i32) -> bool {
    -95_746_129 <= day <= 95_745_399
}

/// Whether an instant and its local time in a zone can both be represented.
pub open spec fn is_held(tz: Seq<char>, ms: int) -> bool {
    is_instant(ms) && is_date(civil_time(tz, ms).0)
}

/// The first instant of a date in universal time.
pub open spec fn midnight(day: i32) -> int {
    (day - 719_163) * 86_400_000
}

/// A time zone of the IANA database.
#[derive(Debug)]
pub struct Zone(String);

impl Zone {
    pub closed spec fn name(&self) -> Seq<char> {
        self.0@
    }

    #[verifier::type_invariant]
    spec fn known(&self) -> bool {
        is_timezone(self.0@)
    }

    /// The zone of a name, if there is one.
    pub fn parse(name: &str) -> (r: Option<Zone>)
        ensures
            match r {
                Some(z) => is_timezone(name@) && z.name() == name@,
                None => !is_timezone(name@),
            },
    {
        if known_timezone(name) {
            Some(Zone(name.to_owned()))
        } else {
            None
        }
    }

    /// The civil date (days since the beginning of the common era), hour and minute
    /// of an instant, unless the instant or its local time cannot be represented.
    pub fn civil(&self, ms: i64) -> (r: Option<(i32, u32, u32)>)
        ensures
            match r {
                Some(c) => is_held(self.name(), ms as int) && c == civil_time(
                    self.name(),
                    ms as int,
                ) && c.1 < 24 && c.2 < 60,
                None => !is_held(self.name(), ms as int),
            },
    {
        proof {
            use_type_invariant(self);
        }
        if ms < -8_334_601_228_800_000 || ms > 8_210_266_876_799_999 {
            return None;
        }
        let c = civil_in(self.0.as_str(), ms);
        if -95_746_129 <= c.0 && c.0 <= 95_745_399 {
            Some(c)
        } else {
            None
        }
    }
}

/// The local date, hour and minute of an instant in a time zone.
pub uninterp spec fn civil_time(tz: Seq<char>, ms: int) -> (i32, u32, u32);

/// `chrono::DateTime::from_timestamp_millis`, taken to a zone of `chrono_tz` by
/// `with_timezone`: `num_days_from_ce`, `hour` and `minute` of the local time. Hours
/// are below 24 and minutes below 60.
#[verifier::external_body]
fn civil_in(tz: &str, ms: i64) -> (r: (i32, u32, u32))
    requires
        is_timezone(tz@),
        is_instant(ms as int),
    ensures
        r == civil_time(tz@, ms as int),
        r.1 < 24,
        r.2 < 60,
{
    let zone: chrono_tz::Tz = tz.parse().unwrap_or_default();
    let local = chrono::DateTime::from_timestamp_millis(ms).unwrap_or_default().with_timezone(&zone);
    (
        chrono::Datelike::num_days_from_ce(&local),
        chrono::Timelike::hour(&local),
        chrono::Timelike::minute(&local),
    )
}

/// A cron expression.
#[derive(Debug)]
pub struct CronExpr(String);

impl CronExpr {
    pub closed spec fn text(&self) -> Seq<char> {
        self.0@
    }

    #[verifier::type_invariant]
    spec fn valid(&self) -> bool {
        cron_fault(self.0@) is None
    }

    /// The expression of a text, if it is one.
    pub fn parse(expr: &str) -> (r: Option<CronExpr>)
        ensures
            match r {
                Some(c) => cron_fault(expr@) is None && c.text() == expr@,
                None => cron_fault(expr@) is Some,
            },
    {
        match check_cron(expr) {
            None => Some(CronExpr(expr.to_owned())),
            Some(_) => None,
        }
    }

    /// The next occurrence after an instant, if there is one. There is none after an
    /// instant that cannot be represented in the zone.
    pub fn next_after(&self, zone: &Zone, ms: i64) -> (r: Option<i64>)
        ensures
            r == occurrence(self.text(), zone.name(), ms as int),
            r is Some ==> r->0 > ms,
    {
        proof {
            use_type_invariant(self);
            use_type_invariant(zone);
        }
        match zone.civil(ms) {
            Some(_) => occurrence_after(self.0.as_str(), zone.0.as_str(), ms),
            None => None,
        }
    }
}

/// When a cron expression next occurs after an instant, in a time zone that can represent
/// the instant.
pub open spec fn occurrence(cron: Seq<char>, tz: Seq<char>, ms: int) -> Option<i64> {
    if is_held(tz, ms) {
        next_occurrence(cron, tz, ms)
    } else {
        None
    }
}

/// When a cron expression next occurs after an instant, in a time zone.
pub uninterp spec fn next_occurrence(cron: Seq<char>, tz: Seq<char>, ms: int) -> Option<i64>;

/// `croner::Cron::find_next_occurrence`, not inclusive, in a zone of `chrono_tz`: the
/// first matching instant that lies strictly later, or none where the search ends
/// without one. `find_next_occurrence` panics where the local time of its start cannot be
/// represented.
#[verifier::external_body]
fn occurrence_after(cron: &str, tz: &str, ms: i64) -> (r: Option<i64>)
    requires
        cron_fault(cron@) is None,
        is_timezone(tz@),
        is_held(tz@, ms as int),
    ensures
        r == next_occurrence(cron@, tz@, ms as int),
        r is Some ==> r->0 > ms,
{
    let zone: chrono_tz::Tz = tz.parse().unwrap_or_default();
    let start = chrono::DateTime::from_timestamp_millis(ms)?.with_timezone(&zone);
    let next = cron.parse::<croner::Cron>().ok()?.find_next_occurrence(&start, false).ok()?;
    Some(next.timestamp_millis())
}

/// What the ephemeris was asked, and its answer: the latitude, the longitude, the date,
/// and the two instants if there were any.
pub type Asked = (Seq<char>, Seq<char>, i32, Option<(i64, i64)>);

/// The solar ephemeris, with a record of what it was asked. The record is kept by
/// [`Ephemeris::solar_window`] alone, so an entry in it stands for a call.
pub struct Ephemeris {
    asked: Ghost<Seq<Asked>>,
}

/// The dates that the ephemeris can be asked for: every date that can be represented but
/// for the first and the last, which leave no room for a sunrise or a sunset that falls
/// on a neighbouring day.
pub open spec fn has_sky(day: i32) -> bool {
    -95_746_129 < day < 95_745_399
}

/// Whether an instant lies within two days of the beginning of a date.
pub open spec fn is_near(ms: i64, day: i32) -> bool {
    midnight(day) - 172_800_000 <= ms <= midnight(day) + 172_800_000
}

impl Ephemeris {
    /// Everything the ephemeris was asked so far.
    pub closed spec fn asked(&self) -> Seq<Asked> {
        self.asked@
    }

    pub fn new() -> (r: Self)
        ensures
            r.asked() == Seq::<Asked>::empty(),
    {
        Ephemeris { asked: Ghost(Seq::empty()) }
    }

    /// `sunrise::SolarDay::event_time` for sunrise and sunset on a date, at decimal
    /// coordinates: the two instants, or none on a polar day or night or at coordinates
    /// that are none. The ephemeris is computed in floating point, whose trigonometry
    /// differs between machines, so of the instants it is claimed only that they lie
    /// within two days of the date's beginning: noon lies half a day either way of the
    /// middle of the date, the equation of time is some minutes, and an hour angle is at
    /// most half a day. `event_time` panics on an instant that `chrono` cannot represent.
    #[verifier::external_body]
    pub(crate) fn solar_window(&mut self, latitude: &str, longitude: &str, day: i32) -> (r: Option<
        (i64, i64),
    >)
        requires
            has_sky(day),
        ensures
            final(self).asked() == old(self).asked().push((latitude@, longitude@, day, r)),
            r is Some ==> is_near((r->0).0, day) && is_near((r->0).1, day),
    {
        let place = sunrise::Coordinates::new(latitude.parse().ok()?, longitude.parse().ok()?)?;
        let date = chrono::NaiveDate::from_num_days_from_ce_opt(day)?;
        let sun = sunrise::SolarDay::new(place, date);
        let rise = sun.event_time(sunrise::SolarEvent::Sunrise)?;
        let set = sun.event_time(sunrise::SolarEvent::Sunset)?;
        Some((rise.timestamp_millis(), set.timestamp_millis()))
    }
}

} // verus!
