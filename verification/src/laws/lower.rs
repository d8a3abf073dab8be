//! What the words of a configuration mean.

use vstd::prelude::*;

use super::rules::{
    all_means_every_one, any_means_some_one, negation_turns_truth_around, truth_is_in_the_view,
};
use crate::compile::ast::{RawShape, RawValue};
use crate::compile::diagnostic::Severity;
use crate::compile::lower::{
    clock_time, color_of, duration_of, lowered_command, lowered_commands, lowered_condition,
    lowered_conditions, lowered_trigger, noted, temperature_of, unit_ms, Notes, Scope,
};
use crate::ids::{DeviceId, SceneId, ScheduleId};
use crate::model::{CapabilityKind, CapabilityState, CommandV, EventV};
use crate::rule::{condition_views, lemma_condition_at, Condition, ConditionV, Trigger, Truth};
use crate::state::{known_state, reported, Known};
use crate::text::{decimal, decimal_is_parsed_back, is_char, is_letter, lemma_position, trimmed};

verus! {

/// A node is the map of one entry: a word, and what it is about.
pub open spec fn is_node(v: RawValue, word: Seq<char>, about: RawValue) -> bool {
    match v.shape {
        RawShape::Fields(fields) => fields@.len() == 1 && fields@[0].0 is Some && fields@[0].0->0@
            == word && fields@[0].1 == about,
        _ => false,
    }
}

/// A value is just a text.
pub open spec fn is_text(v: RawValue, text: Seq<char>) -> bool {
    v.shape is Text && v.shape->Text_0@ == text
}

/// A name stands for a device.
pub open spec fn names(x: Scope, name: Seq<char>, device: DeviceId) -> bool {
    x.device_ids.contains_key(name) && x.device_ids[name] == device
}

// ------------------------------------------------------------ conditions

/// What a condition becomes does not depend on what was noted before it.
pub proof fn notes_do_not_change_a_condition(
    x: Scope,
    n: Notes,
    m: Notes,
    v: RawValue,
    at: Seq<char>,
)
    ensures
        lowered_condition(x, n, v, at).1 == lowered_condition(x, m, v, at).1,
    decreases v,
{
    match v.shape {
        RawShape::Fields(fields) => {
            if fields@.len() == 1 && fields@[0].0 is Some {
                let p = fields@[0].1;
                match p.shape {
                    RawShape::List(items) => {
                        lemma_notes_do_not_change_a_list(x, n, m, items, items@.len(), at);
                    },
                    _ => {},
                }
                notes_do_not_change_a_condition(x, n, m, p, at);
            }
        },
        _ => {},
    }
}

proof fn lemma_notes_do_not_change_a_list(
    x: Scope,
    n: Notes,
    m: Notes,
    items: Vec<RawValue>,
    k: nat,
    at: Seq<char>,
)
    ensures
        lowered_conditions(x, n, items, k, at).1 == lowered_conditions(x, m, items, k, at).1,
        lowered_conditions(x, n, items, k, at).2 == lowered_conditions(x, m, items, k, at).2,
    decreases items, k,
{
    if k > 0 && k <= items@.len() {
        lemma_notes_do_not_change_a_list(x, n, m, items, (k - 1) as nat, at);
        notes_do_not_change_a_condition(
            x,
            lowered_conditions(x, n, items, (k - 1) as nat, at).0,
            lowered_conditions(x, m, items, (k - 1) as nat, at).0,
            items@[k - 1],
            at,
        );
    }
}

proof fn lemma_list(x: Scope, n: Notes, m: Notes, items: Vec<RawValue>, k: nat, at: Seq<char>)
    requires
        k <= items@.len(),
    ensures
        ({
            let (_, out, ok) = lowered_conditions(x, n, items, k, at);
            &&& ok <==> forall|i: int|
                0 <= i < k ==> lowered_condition(x, m, #[trigger] items@[i], at).1 is Some
            &&& ok ==> out.len() == k && forall|i: int|
                0 <= i < k ==> lowered_condition(x, m, #[trigger] items@[i], at).1 == Some(out[i])
        }),
    decreases k,
{
    if k > 0 {
        lemma_list(x, n, m, items, (k - 1) as nat, at);
        let (before, out, ok) = lowered_conditions(x, n, items, (k - 1) as nat, at);
        notes_do_not_change_a_condition(x, before, m, items@[k - 1], at);
        assert(lowered_condition(x, m, items@[k - 1], at).1 == lowered_condition(
            x,
            before,
            items@[k - 1],
            at,
        ).1);
        let (_, all, every) = lowered_conditions(x, n, items, k, at);
        if every {
            assert forall|i: int| 0 <= i < k implies lowered_condition(
                x,
                m,
                #[trigger] items@[i],
                at,
            ).1 == Some(all[i]) by {
                if i < k - 1 {
                    assert(all[i] == out[i]);
                }
            }
        }
        if forall|i: int|
            0 <= i < k ==> lowered_condition(x, m, #[trigger] items@[i], at).1 is Some {
            assert(lowered_condition(x, m, items@[k - 1], at).1 is Some);
            assert(ok);
        }
    }
}

/// A list of conditions lowers exactly if every member does.
pub proof fn lists_lower_when_their_members_do(
    x: Scope,
    n: Notes,
    m: Notes,
    v: RawValue,
    p: RawValue,
    items: Vec<RawValue>,
    at: Seq<char>,
)
    requires
        is_node(v, "all"@, p) || is_node(v, "any"@, p),
        p.shape == RawShape::List(items),
    ensures
        lowered_condition(x, n, v, at).1 is Some <==> forall|i: int|
            0 <= i < items@.len() ==> lowered_condition(x, m, #[trigger] items@[i], at).1 is Some,
{
    reveal_strlit("all");
    reveal_strlit("any");
    lemma_list(x, n, m, items, items@.len(), at);
}

/// `all` holds exactly where every one of its members holds, and fails exactly where some
/// member fails.
pub proof fn all_holds_where_every_member_holds(
    x: Scope,
    n: Notes,
    m: Notes,
    v: RawValue,
    p: RawValue,
    items: Vec<RawValue>,
    at: Seq<char>,
    c: Condition,
    members: Seq<Condition>,
    known: Known,
)
    requires
        is_node(v, "all"@, p),
        p.shape == RawShape::List(items),
        lowered_condition(x, n, v, at).1 == Some(c@),
        members.len() == items@.len(),
        forall|i: int|
            0 <= i < members.len() ==> lowered_condition(x, m, items@[i], at).1 == Some(
                (#[trigger] members[i])@,
            ),
    ensures
        c.truth(known) == Truth::True <==> forall|i: int|
            0 <= i < members.len() ==> (#[trigger] members[i]).truth(known) == Truth::True,
        c.truth(known) == Truth::False <==> exists|i: int|
            0 <= i < members.len() && (#[trigger] members[i]).truth(known) == Truth::False,
{
    reveal_strlit("all");
    reveal_strlit("any");
    lemma_list(x, n, m, items, items@.len(), at);
    let out = lowered_conditions(x, n, items, items@.len(), at).1;
    match c {
        Condition::And(cs) => {
            lemma_condition_at(cs, cs@.len());
            assert(condition_views(cs, cs@.len()) == out);
            assert forall|i: int| 0 <= i < members.len() implies (#[trigger] members[i]).truth(
                known,
            ) == cs@[i].truth(known) by {
                assert(lowered_condition(x, m, items@[i], at).1 == Some(members[i]@));
                assert(condition_views(cs, cs@.len())[i] == cs@[i]@);
                truth_is_in_the_view(members[i], cs@[i], known);
            }
            all_means_every_one(cs, known);
            if c.truth(known) == Truth::False {
                let i = choose|i: int|
                    0 <= i < cs@.len() && (#[trigger] cs@[i]).truth(known) == Truth::False;
                assert(members[i].truth(known) == Truth::False);
            }
            if forall|i: int|
                0 <= i < members.len() ==> (#[trigger] members[i]).truth(known) == Truth::True {
                assert forall|i: int| 0 <= i < cs@.len() implies (#[trigger] cs@[i]).truth(known)
                    == Truth::True by {
                    assert(members[i].truth(known) == Truth::True);
                }
            }
        },
        _ => {},
    }
}

/// `any` holds exactly where some one of its members holds, and fails exactly where every
/// member fails.
pub proof fn any_holds_where_some_member_holds(
    x: Scope,
    n: Notes,
    m: Notes,
    v: RawValue,
    p: RawValue,
    items: Vec<RawValue>,
    at: Seq<char>,
    c: Condition,
    members: Seq<Condition>,
    known: Known,
)
    requires
        is_node(v, "any"@, p),
        p.shape == RawShape::List(items),
        lowered_condition(x, n, v, at).1 == Some(c@),
        members.len() == items@.len(),
        forall|i: int|
            0 <= i < members.len() ==> lowered_condition(x, m, items@[i], at).1 == Some(
                (#[trigger] members[i])@,
            ),
    ensures
        c.truth(known) == Truth::True <==> exists|i: int|
            0 <= i < members.len() && (#[trigger] members[i]).truth(known) == Truth::True,
        c.truth(known) == Truth::False <==> forall|i: int|
            0 <= i < members.len() ==> (#[trigger] members[i]).truth(known) == Truth::False,
{
    reveal_strlit("all");
    reveal_strlit("any");
    lemma_list(x, n, m, items, items@.len(), at);
    let out = lowered_conditions(x, n, items, items@.len(), at).1;
    assert("all"@.len() == 3 && "all"@[1] != "any"@[1]);
    match c {
        Condition::Or(cs) => {
            lemma_condition_at(cs, cs@.len());
            assert(condition_views(cs, cs@.len()) == out);
            assert forall|i: int| 0 <= i < members.len() implies (#[trigger] members[i]).truth(
                known,
            ) == cs@[i].truth(known) by {
                assert(lowered_condition(x, m, items@[i], at).1 == Some(members[i]@));
                assert(condition_views(cs, cs@.len())[i] == cs@[i]@);
                truth_is_in_the_view(members[i], cs@[i], known);
            }
            any_means_some_one(cs, known);
            if c.truth(known) == Truth::True {
                let i = choose|i: int|
                    0 <= i < cs@.len() && (#[trigger] cs@[i]).truth(known) == Truth::True;
                assert(members[i].truth(known) == Truth::True);
            }
            if forall|i: int|
                0 <= i < members.len() ==> (#[trigger] members[i]).truth(known) == Truth::False {
                assert forall|i: int| 0 <= i < cs@.len() implies (#[trigger] cs@[i]).truth(known)
                    == Truth::False by {
                    assert(members[i].truth(known) == Truth::False);
                }
            }
        },
        _ => {},
    }
}

/// The words of conditions all differ.
proof fn lemma_condition_words()
    ensures
        "all"@ != "any"@,
        "not"@ != "all"@,
        "not"@ != "any"@,
        "sun_up"@ != "all"@,
        "sun_up"@ != "any"@,
        "sun_up"@ != "not"@,
        "switch"@ != "all"@,
        "switch"@ != "any"@,
        "switch"@ != "not"@,
        "switch"@ != "sun_up"@,
        "occupancy_is"@ != "all"@,
        "occupancy_is"@ != "any"@,
        "occupancy_is"@ != "not"@,
        "occupancy_is"@ != "sun_up"@,
        "occupancy_is"@ != "switch"@,
        "time_after"@ != "all"@,
        "time_after"@ != "any"@,
        "time_after"@ != "not"@,
        "time_after"@ != "sun_up"@,
        "time_after"@ != "switch"@,
        "time_after"@ != "occupancy_is"@,
        "time_before"@ != "all"@,
        "time_before"@ != "any"@,
        "time_before"@ != "not"@,
        "time_before"@ != "sun_up"@,
        "time_before"@ != "switch"@,
        "time_before"@ != "occupancy_is"@,
        "time_before"@ != "time_after"@,
{
    reveal_strlit("all");
    reveal_strlit("any");
    reveal_strlit("not");
    reveal_strlit("sun_up");
    reveal_strlit("switch");
    reveal_strlit("occupancy_is");
    reveal_strlit("time_after");
    reveal_strlit("time_before");
    assert("all"@.len() == 3);
    assert("any"@.len() == 3);
    assert("not"@.len() == 3);
    assert("sun_up"@.len() == 6);
    assert("switch"@.len() == 6);
    assert("occupancy_is"@.len() == 12);
    assert("time_after"@.len() == 10);
    assert("time_before"@.len() == 11);
    assert("all"@[1] == 'l' && "any"@[1] == 'n');
    assert("not"@[0] == 'n' && "all"@[0] == 'a' && "any"@[0] == 'a');
    assert("sun_up"@[1] == 'u' && "switch"@[1] == 'w');
}

/// `not` holds exactly where what it negates fails, and fails exactly where that holds.
pub proof fn not_turns_its_member_around(
    x: Scope,
    n: Notes,
    m: Notes,
    v: RawValue,
    p: RawValue,
    at: Seq<char>,
    c: Condition,
    member: Condition,
    known: Known,
)
    requires
        is_node(v, "not"@, p),
        lowered_condition(x, n, v, at).1 == Some(c@),
        lowered_condition(x, m, p, at).1 == Some(member@),
    ensures
        c.truth(known) == Truth::True <==> member.truth(known) == Truth::False,
        c.truth(known) == Truth::False <==> member.truth(known) == Truth::True,
{
    lemma_condition_words();
    notes_do_not_change_a_condition(x, n, m, p, at);
    match c {
        Condition::Not(inner) => {
            assert(c@ == ConditionV::Not(Box::new(inner@)));
            truth_is_in_the_view(*inner, member, known);
            negation_turns_truth_around(inner, known);
        },
        _ => {},
    }
}

/// `switch` on a device that reported its switch holds exactly if it is as the condition
/// says, and is unknown while the device has said nothing.
pub proof fn switch_asks_for_the_switch(
    x: Scope,
    n: Notes,
    v: RawValue,
    p: RawValue,
    at: Seq<char>,
    c: Condition,
    device: DeviceId,
    known: Known,
    on: bool,
)
    requires
        is_node(v, "switch"@, p),
        p.payload.switch_is is Ok,
        names(x, p.payload.switch_is->Ok_0.device@, device),
        lowered_condition(x, n, v, at).1 == Some(c@),
    ensures
        ({
            let after = reported(known, device, CapabilityState::Switch(on));
            &&& on == p.payload.switch_is->Ok_0.on ==> c.truth(after) == Truth::True
            &&& on != p.payload.switch_is->Ok_0.on ==> c.truth(after) == Truth::False
        }),
        known_state(known, device, CapabilityKind::Switch) is None ==> c.truth(known)
            == Truth::Unknown,
{
    lemma_condition_words();
}

/// `occupancy_is` on a device that reported its occupancy holds exactly if it is as the
/// condition says, and is unknown while the device has said nothing.
pub proof fn occupancy_asks_for_the_occupancy(
    x: Scope,
    n: Notes,
    v: RawValue,
    p: RawValue,
    at: Seq<char>,
    c: Condition,
    device: DeviceId,
    known: Known,
    occupied: bool,
)
    requires
        is_node(v, "occupancy_is"@, p),
        p.payload.occupancy_is is Ok,
        names(x, p.payload.occupancy_is->Ok_0.device@, device),
        lowered_condition(x, n, v, at).1 == Some(c@),
    ensures
        ({
            let after = reported(known, device, CapabilityState::Occupancy(occupied));
            &&& occupied == p.payload.occupancy_is->Ok_0.occupied ==> c.truth(after) == Truth::True
            &&& occupied != p.payload.occupancy_is->Ok_0.occupied ==> c.truth(after) == Truth::False
        }),
        known_state(known, device, CapabilityKind::Occupancy) is None ==> c.truth(known)
            == Truth::Unknown,
{
    lemma_condition_words();
}

/// `sun_up: true` holds exactly while the clock says that the sun is up, and
/// `sun_up: false` exactly while it says that it is down.
pub proof fn sun_up_asks_for_the_sun(
    x: Scope,
    n: Notes,
    v: RawValue,
    p: RawValue,
    at: Seq<char>,
    c: Condition,
    known: Known,
    wanted: bool,
    up: bool,
)
    requires
        is_node(v, "sun_up"@, p),
        p.shape == RawShape::Flag(wanted),
        lowered_condition(x, n, v, at).1 == Some(c@),
    ensures
        ({
            let after = reported(known, x.clock, CapabilityState::SunUp(up));
            &&& up == wanted ==> c.truth(after) == Truth::True
            &&& up != wanted ==> c.truth(after) == Truth::False
        }),
{
    lemma_condition_words();
}

/// `time_after` holds from the minute that it names on, and `time_before` holds up to it
/// and no longer, by the minute of the day that the clock reports.
pub proof fn times_split_the_day(
    x: Scope,
    n: Notes,
    v: RawValue,
    p: RawValue,
    at: Seq<char>,
    c: Condition,
    hour: nat,
    minute: nat,
    known: Known,
    now: u16,
)
    requires
        is_node(v, "time_after"@, p) || is_node(v, "time_before"@, p),
        is_text(p, decimal(hour) + ":"@ + decimal(minute)),
        hour < 24,
        minute < 60,
        lowered_condition(x, n, v, at).1 == Some(c@),
    ensures
        ({
            let after = reported(known, x.clock, CapabilityState::TimeOfDay(now));
            &&& c.truth(after) != Truth::Unknown
            &&& is_node(v, "time_after"@, p) ==> (c.truth(after) == Truth::True <==> now >= 60
                * hour + minute)
            &&& is_node(v, "time_before"@, p) ==> (c.truth(after) == Truth::True <==> now < 60
                * hour + minute)
        }),
{
    lemma_condition_words();
    written_times_are_read(hour, minute);
}

/// The conditions of the clock and on known devices always lower.
pub proof fn good_conditions_lower(
    x: Scope,
    n: Notes,
    v: RawValue,
    p: RawValue,
    at: Seq<char>,
    device: DeviceId,
    hour: nat,
    minute: nat,
)
    ensures
        is_node(v, "switch"@, p) && p.payload.switch_is is Ok && names(
            x,
            p.payload.switch_is->Ok_0.device@,
            device,
        ) ==> lowered_condition(x, n, v, at).1 is Some,
        is_node(v, "occupancy_is"@, p) && p.payload.occupancy_is is Ok && names(
            x,
            p.payload.occupancy_is->Ok_0.device@,
            device,
        ) ==> lowered_condition(x, n, v, at).1 is Some,
        is_node(v, "sun_up"@, p) && p.shape is Flag ==> lowered_condition(x, n, v, at).1 is Some,
        (is_node(v, "time_after"@, p) || is_node(v, "time_before"@, p)) && is_text(
            p,
            decimal(hour) + ":"@ + decimal(minute),
        ) && hour < 24 && minute < 60 ==> lowered_condition(x, n, v, at).1 is Some,
        is_node(v, "not"@, p) ==> (lowered_condition(x, n, v, at).1 is Some <==> lowered_condition(
            x,
            n,
            p,
            at,
        ).1 is Some),
{
    lemma_condition_words();
    if hour < 24 && minute < 60 {
        written_times_are_read(hour, minute);
    }
}

// ------------------------------------------------------------ numbers and units

pub(crate) proof fn lemma_decimal_plain(n: nat)
    ensures
        decimal(n).len() >= 1,
        forall|i: int|
            0 <= i < decimal(n).len() ==> '0' <= #[trigger] decimal(n)[i] && decimal(n)[i] <= '9',
    decreases n,
{
    if n >= 10 {
        lemma_decimal_plain(n / 10);
    }
}

/// A text that neither starts nor ends with white space is not trimmed.
pub proof fn texts_without_space_around_stay(s: Seq<char>)
    requires
        s.len() > 0,
        !crate::text::is_space(s[0]),
        !crate::text::is_space(s.last()),
    ensures
        trimmed(s) == s,
{
}

/// Every hour and minute is read from its text, in that order.
pub proof fn written_times_are_read(hour: nat, minute: nat)
    requires
        hour < 24,
        minute < 60,
    ensures
        clock_time(decimal(hour) + ":"@ + decimal(minute)) == Some((hour, minute)),
{
    reveal_strlit(":");
    let h = decimal(hour);
    let m = decimal(minute);
    let s = h + ":"@ + m;
    lemma_decimal_plain(hour);
    lemma_decimal_plain(minute);
    decimal_is_parsed_back(hour);
    decimal_is_parsed_back(minute);
    assert(s[0] == h[0]);
    assert(s.last() == m.last());
    texts_without_space_around_stay(s);
    texts_without_space_around_stay(h);
    texts_without_space_around_stay(m);
    assert forall|j: int| 0 <= j < h.len() implies !is_char(':')(#[trigger] s[j]) by {
        assert(s[j] == h[j]);
    }
    assert(s[h.len() as int] == ':');
    lemma_position(s, is_char(':'), h.len() as int);
    assert(s.take(h.len() as int) =~= h);
    assert(s.skip(h.len() as int + 1) =~= m);
}

/// No text that has an hour past 23 or a minute past 59 is a time.
pub proof fn impossible_times_are_refused(hour: nat, minute: nat)
    requires
        hour >= 24 || minute >= 60,
    ensures
        clock_time(decimal(hour) + ":"@ + decimal(minute)) is None,
{
    reveal_strlit(":");
    let h = decimal(hour);
    let m = decimal(minute);
    let s = h + ":"@ + m;
    lemma_decimal_plain(hour);
    lemma_decimal_plain(minute);
    decimal_is_parsed_back(hour);
    decimal_is_parsed_back(minute);
    assert(s[0] == h[0]);
    assert(s.last() == m.last());
    texts_without_space_around_stay(s);
    texts_without_space_around_stay(h);
    texts_without_space_around_stay(m);
    assert forall|j: int| 0 <= j < h.len() implies !is_char(':')(#[trigger] s[j]) by {
        assert(s[j] == h[j]);
    }
    assert(s[h.len() as int] == ':');
    lemma_position(s, is_char(':'), h.len() as int);
    assert(s.take(h.len() as int) =~= h);
    assert(s.skip(h.len() as int + 1) =~= m);
}

proof fn lemma_duration(n: nat, unit: Seq<char>, ms: nat)
    requires
        unit_ms(unit) == Some(ms),
        n * ms <= u64::MAX,
        unit.len() > 0,
        is_letter()(unit[0]),
        !crate::text::is_space(unit.last()),
        n <= u64::MAX,
    ensures
        duration_of(decimal(n) + unit) == Some((n * ms) as nat),
{
    let d = decimal(n);
    let s = d + unit;
    lemma_decimal_plain(n);
    decimal_is_parsed_back(n);
    assert(s[0] == d[0]);
    assert(s.last() == unit.last());
    texts_without_space_around_stay(s);
    texts_without_space_around_stay(d);
    assert forall|j: int| 0 <= j < d.len() implies !is_letter()(#[trigger] s[j]) by {
        assert(s[j] == d[j]);
    }
    assert(s[d.len() as int] == unit[0]);
    lemma_position(s, is_letter(), d.len() as int);
    assert(s.take(d.len() as int) =~= d);
    assert(s.skip(d.len() as int) =~= unit);
}

/// A number of milliseconds, seconds, minutes or hours is read as so many milliseconds: a
/// second is a thousand of them, a minute sixty seconds, an hour sixty minutes.
pub proof fn written_durations_are_read(n: nat)
    requires
        n * 3_600_000 <= u64::MAX,
    ensures
        duration_of(decimal(n) + "ms"@) == Some(n),
        duration_of(decimal(n) + "s"@) == Some((1000 * n) as nat),
        duration_of(decimal(n) + "m"@) == Some((60_000 * n) as nat),
        duration_of(decimal(n) + "h"@) == Some((3_600_000 * n) as nat),
{
    reveal_strlit("ms");
    reveal_strlit("s");
    reveal_strlit("m");
    reveal_strlit("h");
    assert("ms"@.len() == 2 && "ms"@[0] == 'm' && "ms"@.last() == 's');
    assert("s"@.len() == 1 && "s"@[0] == 's' && "s"@.last() == 's');
    assert("m"@.len() == 1 && "m"@[0] == 'm' && "m"@.last() == 'm');
    assert("h"@.len() == 1 && "h"@[0] == 'h' && "h"@.last() == 'h');
    lemma_duration(n, "ms"@, 1);
    lemma_duration(n, "s"@, 1000);
    lemma_duration(n, "m"@, 60_000);
    lemma_duration(n, "h"@, 3_600_000);
}

/// A color temperature is given in mireds as they are, or in kelvin, of which a mired is the
/// reciprocal in millions, rounded down. One of the two must be given, not both, and neither
/// too warm nor too cold.
pub proof fn temperatures_are_mireds(kelvin: u32, mireds: u16)
    ensures
        100 <= mireds <= 1000 ==> temperature_of(None, Some(mireds)) == Ok::<u16, Seq<char>>(mireds),
        mireds < 100 || mireds > 1000 ==> temperature_of(None, Some(mireds)) is Err,
        1000 <= kelvin <= 10_000 ==> {
            &&& temperature_of(Some(kelvin), None) is Ok
            &&& temperature_of(Some(kelvin), None)->Ok_0 * kelvin <= 1_000_000
            &&& (temperature_of(Some(kelvin), None)->Ok_0 + 1) * kelvin > 1_000_000
        },
        kelvin < 1000 || kelvin > 10_000 ==> temperature_of(Some(kelvin), None) is Err,
        temperature_of(None, None) is Err,
        temperature_of(Some(kelvin), Some(mireds)) is Err,
{
    if 1000 <= kelvin <= 10_000 {
        let q: u32 = 1_000_000u32 / kelvin;
        assert(q * kelvin <= 1_000_000 && (q + 1) * kelvin > 1_000_000 && q <= 1000)
            by (nonlinear_arith)
            requires
                q == 1_000_000u32 / kelvin,
                1000 <= kelvin <= 10_000,
        ;
    }
}

/// A color that is given by channels is just those channels.
pub proof fn channels_are_the_color(
    v: RawValue,
    fields: Vec<(Option<String>, RawValue)>,
    r: u64,
    g: u64,
    b: u64,
)
    requires
        v.shape == RawShape::Fields(fields),
        fields@.len() == 3,
        forall|i: int| 0 <= i < 3 ==> (#[trigger] fields@[i]).0 is Some,
        fields@[0].0->0@ == "r"@,
        fields@[1].0->0@ == "g"@,
        fields@[2].0->0@ == "b"@,
        fields@[0].1.shape == RawShape::Number(r),
        fields@[1].1.shape == RawShape::Number(g),
        fields@[2].1.shape == RawShape::Number(b),
    ensures
        r <= 255 && g <= 255 && b <= 255 ==> color_of(v) == Some((r as u8, g as u8, b as u8)),
        r > 255 || g > 255 || b > 255 ==> color_of(v) is None,
{
    reveal_strlit("r");
    reveal_strlit("g");
    reveal_strlit("b");
    assert("r"@[0] == 'r' && "g"@[0] == 'g' && "b"@[0] == 'b');
    reveal_with_fuel(crate::compile::lower::number_under, 4);
    assert(fields@.drop_first()[0] == fields@[1]);
    assert(fields@.drop_first().drop_first()[0] == fields@[2]);
}

// ------------------------------------------------------------ triggers

/// `occupancy` fires when the device reports that somebody is there where that was not
/// known, and `occupancy_clear` when it reports that nobody is; on nothing else.
pub proof fn occupancy_triggers_follow_the_sensor(
    x: Scope,
    n: Notes,
    v: RawValue,
    p: RawValue,
    at: Seq<char>,
    name: Seq<char>,
    device: DeviceId,
    t: Trigger,
    known: Known,
    occupied: bool,
)
    requires
        is_node(v, "occupancy"@, p) || is_node(v, "occupancy_clear"@, p),
        is_text(p, name),
        names(x, name, device),
        lowered_trigger(x, n, v, at).1 == Some(t@),
    ensures
        ({
            let ev = EventV::StateReported { device, state: CapabilityState::Occupancy(occupied) };
            let prior = known_state(known, device, CapabilityKind::Occupancy);
            let news = prior != Some(CapabilityState::Occupancy(occupied));
            &&& prior is None || prior->0 is Occupancy ==> {
                &&& is_node(v, "occupancy"@, p) ==> (t.fires(ev, prior) <==> occupied && news)
                &&& is_node(v, "occupancy_clear"@, p) ==> (t.fires(ev, prior) <==> !occupied && news)
            }
        }),
{
    lemma_trigger_words();
}

proof fn lemma_trigger_words()
    ensures
        "occupancy"@ != "event"@,
        "occupancy_clear"@ != "event"@,
        "occupancy"@ != "occupancy_clear"@,
        "timer"@ != "event"@,
        "timer"@ != "occupancy"@,
        "timer"@ != "occupancy_clear"@,
        "schedule"@ != "event"@,
        "schedule"@ != "occupancy"@,
        "schedule"@ != "occupancy_clear"@,
        "schedule"@ != "timer"@,
        "command_failed"@ != "event"@,
        "command_failed"@ != "occupancy"@,
        "command_failed"@ != "occupancy_clear"@,
        "command_failed"@ != "timer"@,
        "command_failed"@ != "schedule"@,
{
    reveal_strlit("event");
    reveal_strlit("occupancy");
    reveal_strlit("occupancy_clear");
    reveal_strlit("timer");
    reveal_strlit("schedule");
    reveal_strlit("command_failed");
    assert("event"@.len() == 5);
    assert("occupancy"@.len() == 9);
    assert("occupancy_clear"@.len() == 15);
    assert("timer"@.len() == 5);
    assert("schedule"@.len() == 8);
    assert("command_failed"@.len() == 14);
    assert("timer"@[0] == 't' && "event"@[0] == 'e');
}

/// A `timer` trigger fires on exactly the timer that it names, and a `schedule` trigger on
/// exactly the schedule.
pub proof fn timers_and_schedules_fire_by_name(
    x: Scope,
    n: Notes,
    v: RawValue,
    p: RawValue,
    at: Seq<char>,
    name: Seq<char>,
    schedule: ScheduleId,
    t: Trigger,
    ev: EventV,
    prior: Option<CapabilityState>,
)
    requires
        is_text(p, name),
        lowered_trigger(x, n, v, at).1 == Some(t@),
    ensures
        is_node(v, "timer"@, p) ==> (t.fires(ev, prior) <==> ev == (EventV::TimerElapsed {
            key: name,
        })),
        is_node(v, "schedule"@, p) && x.schedule_ids.contains_key(name) && x.schedule_ids[name]
            == schedule ==> (t.fires(ev, prior) <==> ev == (EventV::TimeReached { schedule })),
{
    lemma_trigger_words();
}

/// A `command_failed` trigger on `*` fires whenever a command failed, and one on a device
/// exactly when a command for that device did.
pub proof fn failure_triggers_watch_their_device(
    x: Scope,
    n: Notes,
    v: RawValue,
    p: RawValue,
    at: Seq<char>,
    name: Seq<char>,
    device: DeviceId,
    t: Trigger,
    command: CommandV,
    reason: Seq<char>,
    attempts: u32,
    prior: Option<CapabilityState>,
)
    requires
        is_node(v, "command_failed"@, p),
        is_text(p, name),
        lowered_trigger(x, n, v, at).1 == Some(t@),
    ensures
        name == "*"@ ==> t.fires(EventV::CommandFailed { command, reason, attempts }, prior),
        name != "*"@ && names(x, name, device) ==> (t.fires(
            EventV::CommandFailed { command, reason, attempts },
            prior,
        ) <==> command.target() == Some(device)),
{
    lemma_trigger_words();
}

/// A trigger on a button, written out or as `event`, fires exactly when the named device
/// sends the event that it declares under the name.
pub proof fn event_triggers_follow_the_button(
    x: Scope,
    n: Notes,
    v: RawValue,
    p: RawValue,
    at: Seq<char>,
    dev: Seq<char>,
    event: Seq<char>,
    device: DeviceId,
    k: int,
    t: Trigger,
    ev: EventV,
    prior: Option<CapabilityState>,
)
    requires
        is_text(v, dev + "."@ + event) || is_node(v, "event"@, p) && is_text(p, dev + "."@ + event),
        forall|i: int| 0 <= i < dev.len() ==> #[trigger] dev[i] != '.',
        names(x, dev, device),
        device.0 < x.devices.len(),
        0 <= k < x.devices[device.0 as int].events.len(),
        x.devices[device.0 as int].events[k].name == event,
        forall|i: int|
            0 <= i < k ==> (#[trigger] x.devices[device.0 as int].events[i]).name != event,
    ensures
        lowered_trigger(x, n, v, at).1 is Some,
        lowered_trigger(x, n, v, at).1 == Some(t@) ==> (t.fires(ev, prior) <==> ev == (
        EventV::Action { device, action: x.devices[device.0 as int].events[k].id })),
{
    reveal_strlit(".");
    let s = dev + "."@ + event;
    assert forall|j: int| 0 <= j < dev.len() implies !is_char('.')(#[trigger] s[j]) by {
        assert(s[j] == dev[j]);
    }
    assert(s[dev.len() as int] == '.');
    lemma_position(s, is_char('.'), dev.len() as int);
    assert(s.take(dev.len() as int) =~= dev);
    assert(s.skip(dev.len() as int + 1) =~= event);
    lemma_event_named(x.devices[device.0 as int].events, event, k);
}

proof fn lemma_event_named(
    events: Seq<crate::compile::resolve::DeviceEventV>,
    name: Seq<char>,
    k: int,
)
    requires
        0 <= k < events.len(),
        events[k].name == name,
        forall|i: int| 0 <= i < k ==> (#[trigger] events[i]).name != name,
    ensures
        crate::compile::lower::event_named(events, name) == Some(events[k].id),
    decreases k,
{
    if k > 0 {
        let rest = events.drop_first();
        assert(events[0].name != name);
        assert forall|i: int| 0 <= i < k - 1 implies (#[trigger] rest[i]).name != name by {
            assert(rest[i] == events[i + 1]);
        }
        lemma_event_named(rest, name, k - 1);
    }
}

// ------------------------------------------------------------ commands

proof fn lemma_command_words()
    ensures
        "turn_on"@ != "turn_off"@,
        "toggle"@ != "turn_on"@,
        "toggle"@ != "turn_off"@,
        "set_brightness"@.len() == 14,
        "decrease_brightness"@.len() == 19,
        "increase_brightness"@.len() == 19,
        "increase_brightness"@ != "decrease_brightness"@,
        "set_color"@.len() == 9,
        "set_color_temperature"@.len() == 21,
        "activate_scene"@.len() == 14,
        "activate_scene"@ != "set_brightness"@,
        "schedule_timer"@.len() == 14,
        "schedule_timer"@ != "set_brightness"@,
        "schedule_timer"@ != "activate_scene"@,
        "cancel_timer"@.len() == 12,
        "send_ir_code"@.len() == 12,
        "send_ir_code"@ != "cancel_timer"@,
        "turn_on"@.len() == 7,
        "turn_off"@.len() == 8,
        "toggle"@.len() == 6,
{
    reveal_strlit("turn_on");
    reveal_strlit("turn_off");
    reveal_strlit("toggle");
    reveal_strlit("set_brightness");
    reveal_strlit("decrease_brightness");
    reveal_strlit("increase_brightness");
    reveal_strlit("set_color");
    reveal_strlit("set_color_temperature");
    reveal_strlit("activate_scene");
    reveal_strlit("schedule_timer");
    reveal_strlit("cancel_timer");
    reveal_strlit("send_ir_code");
    assert("turn_on"@.len() == 7);
    assert("turn_off"@.len() == 8);
    assert("toggle"@.len() == 6);
    assert("increase_brightness"@[0] == 'i' && "decrease_brightness"@[0] == 'd');
    assert("activate_scene"@[0] == 'a' && "schedule_timer"@[1] == 'c' && "set_brightness"@[1]
        == 'e' && "set_brightness"@[0] == 's' && "schedule_timer"@[0] == 's');
    assert("send_ir_code"@[0] == 's' && "cancel_timer"@[0] == 'c');
}

/// `turn_on` turns the named device on, `turn_off` turns it off, and `toggle` turns it
/// around.
pub proof fn switch_words_do_what_they_say(
    x: Scope,
    n: Notes,
    v: RawValue,
    p: RawValue,
    at: Seq<char>,
    name: Seq<char>,
    device: DeviceId,
)
    requires
        is_text(p, name),
        names(x, name, device),
    ensures
        is_node(v, "turn_on"@, p) ==> lowered_command(x, n, v, at).1 == Some(
            CommandV::SetSwitch { device, on: true },
        ),
        is_node(v, "turn_off"@, p) ==> lowered_command(x, n, v, at).1 == Some(
            CommandV::SetSwitch { device, on: false },
        ),
        is_node(v, "toggle"@, p) ==> lowered_command(x, n, v, at).1 == Some(
            CommandV::ToggleSwitch { device },
        ),
{
    lemma_command_words();
}

/// `increase_brightness` makes the named device brighter and `decrease_brightness` makes it
/// dimmer, by just the value that is given; `set_brightness` sets just that value.
pub proof fn brightness_words_do_what_they_say(
    x: Scope,
    n: Notes,
    v: RawValue,
    p: RawValue,
    at: Seq<char>,
    device: DeviceId,
)
    ensures
        is_node(v, "increase_brightness"@, p) && p.payload.increase_brightness is Ok && names(
            x,
            p.payload.increase_brightness->Ok_0.device@,
            device,
        ) ==> lowered_command(x, n, v, at).1 == Some(
            CommandV::IncreaseBrightness {
                device,
                value: p.payload.increase_brightness->Ok_0.value,
            },
        ),
        is_node(v, "decrease_brightness"@, p) && p.payload.decrease_brightness is Ok && names(
            x,
            p.payload.decrease_brightness->Ok_0.device@,
            device,
        ) ==> lowered_command(x, n, v, at).1 == Some(
            CommandV::DecreaseBrightness {
                device,
                value: p.payload.decrease_brightness->Ok_0.value,
            },
        ),
        is_node(v, "set_brightness"@, p) && p.payload.set_brightness is Ok && names(
            x,
            p.payload.set_brightness->Ok_0.device@,
            device,
        ) && p.payload.set_brightness->Ok_0.transition is None ==> lowered_command(x, n, v, at).1
            == Some(
            CommandV::SetBrightness {
                device,
                value: p.payload.set_brightness->Ok_0.value,
                transition: None,
            },
        ),
{
    lemma_command_words();
}

/// A fade that is given in seconds lasts so many thousand milliseconds, whatever is set.
pub proof fn fades_last_as_long_as_written(
    x: Scope,
    n: Notes,
    v: RawValue,
    p: RawValue,
    at: Seq<char>,
    device: DeviceId,
    seconds: nat,
)
    requires
        is_node(v, "set_brightness"@, p),
        p.payload.set_brightness is Ok,
        names(x, p.payload.set_brightness->Ok_0.device@, device),
        p.payload.set_brightness->Ok_0.transition is Some,
        p.payload.set_brightness->Ok_0.transition->0@ == decimal(seconds) + "s"@,
        seconds * 3_600_000 <= u64::MAX,
    ensures
        lowered_command(x, n, v, at).1 == Some(
            CommandV::SetBrightness {
                device,
                value: p.payload.set_brightness->Ok_0.value,
                transition: Some((1000 * seconds) as u64),
            },
        ),
{
    lemma_command_words();
    written_durations_are_read(seconds);
}

/// `set_color` sets just the channels that are given, and `set_color_temperature` just the
/// mireds.
pub proof fn color_words_do_what_they_say(
    x: Scope,
    n: Notes,
    v: RawValue,
    p: RawValue,
    at: Seq<char>,
    device: DeviceId,
    r: u8,
    g: u8,
    b: u8,
    mireds: u16,
)
    ensures
        is_node(v, "set_color"@, p) && p.payload.set_color is Ok && names(
            x,
            p.payload.set_color->Ok_0.device@,
            device,
        ) && color_of(p.payload.set_color->Ok_0.color) == Some((r, g, b))
            && p.payload.set_color->Ok_0.transition is None ==> lowered_command(x, n, v, at).1
            == Some(CommandV::SetColor { device, r, g, b, transition: None }),
        is_node(v, "set_color_temperature"@, p) && p.payload.set_color_temperature is Ok && names(
            x,
            p.payload.set_color_temperature->Ok_0.device@,
            device,
        ) && p.payload.set_color_temperature->Ok_0.kelvin is None
            && p.payload.set_color_temperature->Ok_0.mireds == Some(mireds) && 100 <= mireds <= 1000
            && p.payload.set_color_temperature->Ok_0.transition is None ==> lowered_command(
            x,
            n,
            v,
            at,
        ).1 == Some(CommandV::SetColorTemperature { device, mireds, transition: None }),
{
    lemma_command_words();
}

/// `activate_scene` activates the named scene, `cancel_timer` cancels the named timer,
/// `schedule_timer` starts the named timer for as long as is written, and `send_ir_code`
/// sends just the code.
pub proof fn other_words_do_what_they_say(
    x: Scope,
    n: Notes,
    v: RawValue,
    p: RawValue,
    at: Seq<char>,
    name: Seq<char>,
    scene: SceneId,
    device: DeviceId,
    minutes: nat,
)
    ensures
        is_node(v, "activate_scene"@, p) && is_text(p, name) && x.scene_ids.contains_key(name)
            && x.scene_ids[name] == scene ==> lowered_command(x, n, v, at).1 == Some(
            CommandV::ActivateScene { scene },
        ),
        is_node(v, "cancel_timer"@, p) && is_text(p, name) ==> lowered_command(x, n, v, at).1
            == Some(CommandV::CancelTimer { key: name }),
        is_node(v, "schedule_timer"@, p) && p.payload.schedule_timer is Ok
            && p.payload.schedule_timer->Ok_0.key@ == name
            && p.payload.schedule_timer->Ok_0.after@ == decimal(minutes) + "m"@ && minutes
            * 3_600_000 <= u64::MAX ==> lowered_command(x, n, v, at).1 == Some(
            CommandV::ScheduleTimer { key: name, after: (60_000 * minutes) as u64 },
        ),
        is_node(v, "send_ir_code"@, p) && p.payload.send_ir_code is Ok && names(
            x,
            p.payload.send_ir_code->Ok_0.device@,
            device,
        ) ==> lowered_command(x, n, v, at).1 == Some(
            CommandV::SendIrCode { device, code: p.payload.send_ir_code->Ok_0.code@ },
        ),
{
    lemma_command_words();
    if minutes * 3_600_000 <= u64::MAX {
        written_durations_are_read(minutes);
    }
}

/// A list of commands that all lower keeps every one, in its place.
pub proof fn command_lists_keep_their_order(
    x: Scope,
    n: Notes,
    m: Notes,
    vs: Seq<RawValue>,
    at: Seq<char>,
)
    requires
        forall|i: int|
            0 <= i < vs.len() ==> lowered_command(x, m, #[trigger] vs[i], at).1 is Some,
    ensures
        lowered_commands(x, n, vs, at).1.len() == vs.len(),
        forall|i: int|
            0 <= i < vs.len() ==> lowered_command(x, m, #[trigger] vs[i], at).1 == Some(
                lowered_commands(x, n, vs, at).1[i],
            ),
    decreases vs.len(),
{
    if vs.len() > 0 {
        let rest = vs.drop_last();
        assert forall|i: int| 0 <= i < rest.len() implies lowered_command(
            x,
            m,
            #[trigger] rest[i],
            at,
        ).1 is Some by {
            assert(rest[i] == vs[i]);
        }
        command_lists_keep_their_order(x, n, m, rest, at);
        let before = lowered_commands(x, n, rest, at).0;
        notes_do_not_change_a_command(x, before, m, vs.last(), at);
        assert forall|i: int| 0 <= i < vs.len() implies lowered_command(
            x,
            m,
            #[trigger] vs[i],
            at,
        ).1 == Some(lowered_commands(x, n, vs, at).1[i]) by {
            if i < rest.len() {
                assert(rest[i] == vs[i]);
            }
        }
    }
}

/// What a command becomes does not depend on what was noted before it.
#[verifier::rlimit(60)]
#[verifier::spinoff_prover]
pub proof fn notes_do_not_change_a_command(
    x: Scope,
    n: Notes,
    m: Notes,
    v: RawValue,
    at: Seq<char>,
)
    ensures
        lowered_command(x, n, v, at).1 == lowered_command(x, m, v, at).1,
{
}

// ------------------------------------------------------------ what is noted on the way

/// A device that is there and declares a capability.
pub open spec fn offers(x: Scope, device: DeviceId, cap: CapabilityKind) -> bool {
    device.0 < x.devices.len() && x.devices[device.0 as int].capabilities.contains(cap)
}

/// Nothing was found.
pub open spec fn is_clean(n: Notes, after: Notes) -> bool {
    after.diags == n.diags
}

/// One error was found, at this place.
pub open spec fn is_flawed(n: Notes, after: Notes, at: Seq<char>) -> bool {
    &&& after.diags.len() == n.diags.len() + 1
    &&& after.diags.drop_last() =~= n.diags
    &&& after.diags.last().severity == Severity::Error
    &&& after.diags.last().context == Some(at)
}

/// Every word of a trigger that is used as it should be becomes a trigger.
pub proof fn good_triggers_lower(
    x: Scope,
    n: Notes,
    v: RawValue,
    p: RawValue,
    at: Seq<char>,
    name: Seq<char>,
    device: DeviceId,
)
    requires
        is_text(p, name),
    ensures
        (is_node(v, "occupancy"@, p) || is_node(v, "occupancy_clear"@, p)) && names(x, name, device)
            ==> lowered_trigger(x, n, v, at).1 is Some,
        is_node(v, "timer"@, p) ==> lowered_trigger(x, n, v, at).1 is Some,
        is_node(v, "schedule"@, p) && x.schedule_ids.contains_key(name) ==> lowered_trigger(
            x,
            n,
            v,
            at,
        ).1 is Some,
        is_node(v, "schedule"@, p) && !x.schedule_ids.contains_key(name) ==> lowered_trigger(
            x,
            n,
            v,
            at,
        ).1 is None && is_flawed(n, lowered_trigger(x, n, v, at).0, at),
        is_node(v, "command_failed"@, p) && (name == "*"@ || names(x, name, device))
            ==> lowered_trigger(x, n, v, at).1 is Some && is_clean(n, lowered_trigger(x, n, v, at).0),
{
    lemma_trigger_words();
}

/// A trigger on a device that declares no occupancy is an error, and so is one on a device
/// that is not there.
pub proof fn occupancy_triggers_need_a_sensor(
    x: Scope,
    n: Notes,
    v: RawValue,
    p: RawValue,
    at: Seq<char>,
    name: Seq<char>,
    device: DeviceId,
)
    requires
        is_node(v, "occupancy"@, p) || is_node(v, "occupancy_clear"@, p),
        is_text(p, name),
        device != x.clock,
    ensures
        names(x, name, device) && offers(x, device, CapabilityKind::Occupancy) ==> is_clean(
            n,
            lowered_trigger(x, n, v, at).0,
        ),
        names(x, name, device) && !offers(x, device, CapabilityKind::Occupancy) ==> is_flawed(
            n,
            lowered_trigger(x, n, v, at).0,
            at,
        ),
        !x.device_ids.contains_key(name) ==> is_flawed(n, lowered_trigger(x, n, v, at).0, at)
            && lowered_trigger(x, n, v, at).1 is None,
{
    lemma_trigger_words();
}

/// A command on a device that declares what it needs finds nothing wrong. On one that does
/// not it is an error, and on one that is not there it is an error and no command.
pub proof fn switch_commands_need_a_switch(
    x: Scope,
    n: Notes,
    v: RawValue,
    p: RawValue,
    at: Seq<char>,
    name: Seq<char>,
    device: DeviceId,
)
    requires
        is_node(v, "turn_on"@, p) || is_node(v, "turn_off"@, p) || is_node(v, "toggle"@, p),
        is_text(p, name),
        device != x.clock,
    ensures
        names(x, name, device) && offers(x, device, CapabilityKind::Switch) ==> is_clean(
            n,
            lowered_command(x, n, v, at).0,
        ),
        names(x, name, device) && !offers(x, device, CapabilityKind::Switch) ==> is_flawed(
            n,
            lowered_command(x, n, v, at).0,
            at,
        ),
        !x.device_ids.contains_key(name) ==> is_flawed(n, lowered_command(x, n, v, at).0, at)
            && lowered_command(x, n, v, at).1 is None,
{
    lemma_command_words();
}

/// A command to change the brightness needs a device that declares it.
pub proof fn brightness_commands_need_a_dimmer(
    x: Scope,
    n: Notes,
    v: RawValue,
    p: RawValue,
    at: Seq<char>,
    device: DeviceId,
)
    requires
        device != x.clock,
        is_node(v, "increase_brightness"@, p) && p.payload.increase_brightness is Ok && names(
            x,
            p.payload.increase_brightness->Ok_0.device@,
            device,
        ) || is_node(v, "decrease_brightness"@, p) && p.payload.decrease_brightness is Ok && names(
            x,
            p.payload.decrease_brightness->Ok_0.device@,
            device,
        ) || is_node(v, "set_brightness"@, p) && p.payload.set_brightness is Ok && names(
            x,
            p.payload.set_brightness->Ok_0.device@,
            device,
        ) && p.payload.set_brightness->Ok_0.transition is None,
    ensures
        offers(x, device, CapabilityKind::Brightness) ==> is_clean(n, lowered_command(x, n, v, at).0),
        !offers(x, device, CapabilityKind::Brightness) ==> is_flawed(
            n,
            lowered_command(x, n, v, at).0,
            at,
        ),
{
    lemma_command_words();
}

/// A condition on a device that does not declare what is asked is an error.
pub proof fn conditions_need_what_they_ask(
    x: Scope,
    n: Notes,
    v: RawValue,
    p: RawValue,
    at: Seq<char>,
    device: DeviceId,
)
    requires
        device != x.clock,
    ensures
        is_node(v, "switch"@, p) && p.payload.switch_is is Ok && names(
            x,
            p.payload.switch_is->Ok_0.device@,
            device,
        ) ==> if offers(x, device, CapabilityKind::Switch) {
            is_clean(n, lowered_condition(x, n, v, at).0)
        } else {
            is_flawed(n, lowered_condition(x, n, v, at).0, at)
        },
        is_node(v, "occupancy_is"@, p) && p.payload.occupancy_is is Ok && names(
            x,
            p.payload.occupancy_is->Ok_0.device@,
            device,
        ) ==> if offers(x, device, CapabilityKind::Occupancy) {
            is_clean(n, lowered_condition(x, n, v, at).0)
        } else {
            is_flawed(n, lowered_condition(x, n, v, at).0, at)
        },
        is_node(v, "switch"@, p) && p.payload.switch_is is Ok && !x.device_ids.contains_key(
            p.payload.switch_is->Ok_0.device@,
        ) ==> is_flawed(n, lowered_condition(x, n, v, at).0, at) && lowered_condition(
            x,
            n,
            v,
            at,
        ).1 is None,
{
    lemma_condition_words();
}

/// Starting a timer is noted as such, waiting for one or cancelling one as a mention of it;
/// so is every scene that is activated and every schedule that is waited for.
pub proof fn mentions_are_noted(
    x: Scope,
    n: Notes,
    v: RawValue,
    p: RawValue,
    at: Seq<char>,
    name: Seq<char>,
)
    ensures
        is_node(v, "schedule_timer"@, p) && p.payload.schedule_timer is Ok ==> {
            let after = lowered_command(x, n, v, at).0;
            &&& after.scheduled.contains(p.payload.schedule_timer->Ok_0.key@)
            &&& after.referenced == n.referenced
        },
        is_node(v, "cancel_timer"@, p) && is_text(p, name) ==> {
            let after = lowered_command(x, n, v, at).0;
            &&& after.referenced.contains(name)
            &&& after.scheduled == n.scheduled
            &&& is_clean(n, after)
        },
        is_node(v, "timer"@, p) && is_text(p, name) ==> {
            let after = lowered_trigger(x, n, v, at).0;
            &&& after.referenced.contains(name)
            &&& after.scheduled == n.scheduled
            &&& is_clean(n, after)
        },
        is_node(v, "activate_scene"@, p) && is_text(p, name) && x.scene_ids.contains_key(name) ==> {
            let after = lowered_command(x, n, v, at).0;
            &&& after.scenes.contains(x.scene_ids[name])
            &&& is_clean(n, after)
        },
        is_node(v, "activate_scene"@, p) && is_text(p, name) && !x.scene_ids.contains_key(name)
            ==> is_flawed(n, lowered_command(x, n, v, at).0, at) && lowered_command(x, n, v, at).1
            is None,
        is_node(v, "schedule"@, p) && is_text(p, name) && x.schedule_ids.contains_key(name) ==> {
            let after = lowered_trigger(x, n, v, at).0;
            &&& after.schedules.contains(x.schedule_ids[name])
            &&& is_clean(n, after)
        },
{
    lemma_command_words();
    lemma_trigger_words();
    lemma_noted(n.referenced, name);
    if p.payload.schedule_timer is Ok {
        lemma_noted(n.scheduled, p.payload.schedule_timer->Ok_0.key@);
    }
    if x.scene_ids.contains_key(name) {
        lemma_noted(n.scenes, x.scene_ids[name]);
    }
    if x.schedule_ids.contains_key(name) {
        lemma_noted(n.schedules, x.schedule_ids[name]);
    }
}

proof fn lemma_noted<A>(s: Seq<A>, a: A)
    ensures
        noted(s, a).contains(a),
{
    if !s.contains(a) {
        assert(noted(s, a)[s.len() as int] == a);
    }
}

/// What is no word at all is an error and nothing else.
pub proof fn unknown_words_are_errors(
    x: Scope,
    n: Notes,
    v: RawValue,
    p: RawValue,
    at: Seq<char>,
    word: Seq<char>,
)
    requires
        is_node(v, word, p),
        word.len() == 0 || word.len() > 30,
    ensures
        lowered_trigger(x, n, v, at).1 is None,
        lowered_condition(x, n, v, at).1 is None,
        lowered_command(x, n, v, at).1 is None,
        is_flawed(n, lowered_trigger(x, n, v, at).0, at),
        is_flawed(n, lowered_condition(x, n, v, at).0, at),
        is_flawed(n, lowered_command(x, n, v, at).0, at),
{
    lemma_command_words();
    reveal_strlit("all");
    reveal_strlit("any");
    reveal_strlit("not");
    reveal_strlit("sun_up");
    reveal_strlit("switch");
    reveal_strlit("occupancy_is");
    reveal_strlit("time_after");
    reveal_strlit("time_before");
    reveal_strlit("event");
    reveal_strlit("occupancy");
    reveal_strlit("occupancy_clear");
    reveal_strlit("timer");
    reveal_strlit("schedule");
    reveal_strlit("command_failed");
    assert("all"@.len() == 3 && "any"@.len() == 3 && "not"@.len() == 3 && "sun_up"@.len() == 6);
    assert("switch"@.len() == 6 && "occupancy_is"@.len() == 12 && "time_after"@.len() == 10);
    assert("time_before"@.len() == 11 && "event"@.len() == 5 && "occupancy"@.len() == 9);
    assert("occupancy_clear"@.len() == 15 && "timer"@.len() == 5 && "schedule"@.len() == 8);
    assert("command_failed"@.len() == 14);
}

} // verus!
