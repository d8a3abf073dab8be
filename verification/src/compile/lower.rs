//! Lowering: raw rule and scene values to runtime `Trigger`, `Condition` and
//! `Command`.
//!
//! Each node is the terse single-key map (`{ occupancy: motion }`,
//! `{ set_brightness: { device, value } }`). Every device name resolves to a
//! `DeviceId`, every scene to a `SceneId`, every capability reference is checked
//! against what the device declares, and durations and times are parsed. Failures
//! become diagnostics; the pass keeps going so one compile reports them all.
//!
//! The `lowered_*` functions say what each node becomes and what is noted on the
//! way; the methods of [`Lowerer`] do exactly that.

use vstd::prelude::*;

use super::ast::{RawSetColorTemperature, RawShape, RawValue};
use super::diagnostic::{error_at, findings, Diagnostic, Finding};
use super::resolve::{device_events, device_views, DeviceDef, DeviceEvent, DeviceEventV, DeviceV};
use crate::color::{hex_to_rgb, named_color};
use crate::ids::{ActionId, DeviceId, SceneId, ScheduleId};
use crate::model::{command_views, CapabilityKind, Command, CommandV, Millis, TimerKey};
use crate::rule::{
    condition_views, lemma_condition_views_prefix, CmpOp, Condition, ConditionV, Trigger, TriggerV,
};
use crate::table::Table;
use crate::text::{
    cat2, cat3, cat5, chars_of, decimal, decimal_text, find_letter, is_letter, number_up_to,
    parse_up_to, position, same, split_first, split_once, string_of, trim, trimmed, texts,
};

verus! {

/// What names stand for while scenes and rules are lowered.
pub struct Scope {
    pub devices: Seq<DeviceV>,
    pub device_ids: Map<Seq<char>, DeviceId>,
    pub scene_ids: Map<Seq<char>, SceneId>,
    pub schedule_ids: Map<Seq<char>, ScheduleId>,
    /// Synthetic device behind `sun_up` and `time_*` conditions.
    pub clock: DeviceId,
}

/// What is noted on the way: findings, and which timers, scenes and schedules are
/// mentioned, each once and in the order of first mention.
pub struct Notes {
    pub diags: Seq<Finding>,
    /// Timer keys some `schedule_timer` creates.
    pub scheduled: Seq<Seq<char>>,
    /// Timer keys triggers and cancels use.
    pub referenced: Seq<Seq<char>>,
    pub scenes: Seq<SceneId>,
    pub schedules: Seq<ScheduleId>,
}

/// A list with one more mention.
pub open spec fn noted<A>(s: Seq<A>, x: A) -> Seq<A> {
    if s.contains(x) {
        s
    } else {
        s.push(x)
    }
}

pub open spec fn failed(n: Notes, code: Seq<char>, message: Seq<char>, at: Seq<char>) -> Notes {
    Notes { diags: n.diags.push(error_at(code, message, at)), ..n }
}

// ------------------------------------------------------------ reading values

/// The single `{ verb: payload }` entry of a node.
pub open spec fn entry_of(v: RawValue) -> Option<(Seq<char>, RawValue)> {
    match v.shape {
        RawShape::Fields(fields) => if fields@.len() == 1 && fields@[0].0 is Some {
            Some((fields@[0].0->0@, fields@[0].1))
        } else {
            None
        },
        _ => None,
    }
}

pub open spec fn not_an_entry(n: Notes, node: Seq<char>, at: Seq<char>) -> Notes {
    failed(n, "E_BAD_NODE"@, node + " must be a single-key map like { verb: target }"@, at)
}

pub open spec fn text_of(v: RawValue) -> Option<Seq<char>> {
    match v.shape {
        RawShape::Text(s) => Some(s@),
        _ => None,
    }
}

pub open spec fn not_a_name(n: Notes, node: Seq<char>, at: Seq<char>) -> Notes {
    failed(n, "E_BAD_NODE"@, "'"@ + node + "' expects a name"@, at)
}

pub open spec fn flag_of(v: RawValue) -> Option<bool> {
    match v.shape {
        RawShape::Flag(b) => Some(b),
        _ => None,
    }
}

pub open spec fn not_a_flag(n: Notes, node: Seq<char>, at: Seq<char>) -> Notes {
    failed(n, "E_BAD_NODE"@, "'"@ + node + "' expects true/false"@, at)
}

pub open spec fn bad_payload(n: Notes, node: Seq<char>, why: Seq<char>, at: Seq<char>) -> Notes {
    failed(n, "E_BAD_NODE"@, "invalid '"@ + node + "': "@ + why, at)
}

pub open spec fn device_named(x: Scope, name: Seq<char>) -> Option<DeviceId> {
    if x.device_ids.contains_key(name) {
        Some(x.device_ids[name])
    } else {
        None
    }
}

pub open spec fn unknown_device(n: Notes, name: Seq<char>, at: Seq<char>) -> Notes {
    failed(n, "E_UNKNOWN_DEVICE"@, "unknown device '"@ + name + "'"@, at)
}

/// Whether a device declares a capability. The synthetic clock device provides
/// time and sun without declaring them.
pub open spec fn declares(x: Scope, id: DeviceId, cap: CapabilityKind) -> bool {
    id == x.clock || id.0 < x.devices.len() && x.devices[id.0 as int].capabilities.contains(cap)
}

/// A finding unless the device declares what a usage needs.
pub open spec fn checked(
    x: Scope,
    n: Notes,
    id: DeviceId,
    name: Seq<char>,
    cap: CapabilityKind,
    usage: Seq<char>,
    at: Seq<char>,
) -> Notes {
    if declares(x, id, cap) {
        n
    } else {
        failed(
            n,
            "E_MISSING_CAPABILITY"@,
            "'"@ + usage + "' needs capability "@ + cap.spec_label() + ", which device '"@ + name
                + "' does not declare"@,
            at,
        )
    }
}

/// The first event with a name.
pub open spec fn event_named(events: Seq<DeviceEventV>, name: Seq<char>) -> Option<ActionId>
    decreases events.len(),
{
    if events.len() == 0 {
        None
    } else if events[0].name == name {
        Some(events[0].id)
    } else {
        event_named(events.drop_first(), name)
    }
}

// ------------------------------------------------------------ scalars

/// The milliseconds of a unit of time.
pub open spec fn unit_ms(unit: Seq<char>) -> Option<nat> {
    if unit == "ms"@ {
        Some(1)
    } else if unit == "s"@ {
        Some(1000)
    } else if unit == "m"@ {
        Some(60_000)
    } else if unit == "h"@ {
        Some(3_600_000)
    } else {
        None
    }
}

/// The duration that a text like `30s`, `10m` or `1h` stands for: a number, then a
/// unit that begins at the first letter.
pub open spec fn duration_of(s: Seq<char>) -> Option<nat> {
    let t = trimmed(s);
    let p = position(t, is_letter());
    if p >= t.len() {
        None
    } else {
        match (number_up_to(trimmed(t.take(p)), u64::MAX as nat), unit_ms(t.skip(p))) {
            (Some(count), Some(ms)) => if count * ms <= u64::MAX {
                Some((count * ms) as nat)
            } else {
                None
            },
            _ => None,
        }
    }
}

pub open spec fn bad_duration(n: Notes, s: Seq<char>, at: Seq<char>) -> Notes {
    failed(
        n,
        "E_BAD_DURATION"@,
        "invalid duration '"@ + s + "' (expected e.g. 30s, 10m, 1h)"@,
        at,
    )
}

/// The hour and minute that a text like `22:30` stands for.
pub open spec fn clock_time(s: Seq<char>) -> Option<(nat, nat)> {
    match split_first(trimmed(s), ':') {
        Some((h, m)) => match (
            number_up_to(trimmed(h), u16::MAX as nat),
            number_up_to(trimmed(m), u16::MAX as nat),
        ) {
            (Some(hour), Some(minute)) => if hour < 24 && minute < 60 {
                Some((hour, minute))
            } else {
                None
            },
            _ => None,
        },
        None => None,
    }
}

/// Parse `HH:MM`.
pub(crate) fn parse_clock_time(s: &str) -> (r: Option<(u16, u16)>)
    ensures
        match r {
            Some((h, m)) => clock_time(s@) == Some((h as nat, m as nat)) && h < 24 && m < 60,
            None => clock_time(s@) is None,
        },
{
    let t = trim(s);
    match split_once(t.as_str(), ':') {
        Some((h, m)) => {
            let ht = trim(h.as_str());
            let mt = trim(m.as_str());
            match (parse_up_to(ht.as_str(), 65535), parse_up_to(mt.as_str(), 65535)) {
                (Some(hour), Some(minute)) => {
                    if hour < 24 && minute < 60 {
                        Some((hour as u16, minute as u16))
                    } else {
                        None
                    }
                },
                _ => None,
            }
        },
        None => None,
    }
}

pub open spec fn bad_time(n: Notes, s: Seq<char>, at: Seq<char>) -> Notes {
    failed(n, "E_BAD_TIME"@, "invalid time '"@ + s + "' (expected HH:MM)"@, at)
}

/// The number under a key of a map.
pub open spec fn number_under(fields: Seq<(Option<String>, RawValue)>, key: Seq<char>) -> Option<
    u64,
>
    decreases fields.len(),
{
    if fields.len() == 0 {
        None
    } else if fields[0].0 is Some && fields[0].0->0@ == key {
        match fields[0].1.shape {
            RawShape::Number(v) => Some(v),
            _ => None,
        }
    } else {
        number_under(fields.drop_first(), key)
    }
}

/// The color a value names: `#RRGGBB`, or a map of `r`, `g` and `b`.
pub open spec fn color_of(v: RawValue) -> Option<(u8, u8, u8)> {
    match v.shape {
        RawShape::Text(s) => named_color(s@),
        RawShape::Fields(fields) => match (
            number_under(fields@, "r"@),
            number_under(fields@, "g"@),
            number_under(fields@, "b"@),
        ) {
            (Some(r), Some(g), Some(b)) => if r <= 255 && g <= 255 && b <= 255 {
                Some((r as u8, g as u8, b as u8))
            } else {
                None
            },
            _ => None,
        },
        _ => None,
    }
}

pub open spec fn bad_color(n: Notes, v: RawValue, at: Seq<char>) -> Notes {
    match v.shape {
        RawShape::Text(s) => failed(
            n,
            "E_BAD_COLOR"@,
            "invalid hex color '"@ + s@ + "' (expected `#RRGGBB`)"@,
            at,
        ),
        _ => failed(
            n,
            "E_BAD_COLOR"@,
            "color must be a `#RRGGBB` hex string or `{ r, g, b }` object with values 0–255"@,
            at,
        ),
    }
}

/// The mireds of a color temperature: exactly one of `kelvin` and `mireds` must be
/// given, in range; otherwise what is wrong.
pub open spec fn temperature_of(kelvin: Option<u32>, mireds: Option<u16>) -> Result<u16, Seq<char>> {
    match (kelvin, mireds) {
        (Some(_), Some(_)) => Err(
            "set_color_temperature must set exactly one of `kelvin` or `mireds`"@,
        ),
        (None, None) => Err("set_color_temperature needs one of `kelvin` or `mireds`"@),
        (Some(k), None) => if 1000 <= k <= 10_000 {
            Ok((1_000_000u32 / k) as u16)
        } else {
            Err("kelvin "@ + decimal(k as nat) + " out of range (expected 1000–10000)"@)
        },
        (None, Some(m)) => if 100 <= m <= 1000 {
            Ok(m)
        } else {
            Err("mireds "@ + decimal(m as nat) + " out of range (expected 100–1000)"@)
        },
    }
}

// ------------------------------------------------------------ triggers

/// `<device>.<event>`: an event that the device declares.
pub open spec fn event_trigger(x: Scope, n: Notes, spec: Seq<char>, at: Seq<char>) -> (
    Notes,
    Option<TriggerV>,
) {
    match split_first(spec, '.') {
        None => (
            failed(
                n,
                "E_BAD_NODE"@,
                "event trigger must be '<device>.<event>', got '"@ + spec + "'"@,
                at,
            ),
            None,
        ),
        Some((dev, event)) => match device_named(x, dev) {
            None => (unknown_device(n, dev, at), None),
            Some(device) => if device.0 >= x.devices.len() {
                (n, None)
            } else {
                match event_named(x.devices[device.0 as int].events, event) {
                    Some(action) => (n, Some(TriggerV::Action { device, action })),
                    None => (
                        failed(
                            n,
                            "E_UNKNOWN_EVENT"@,
                            "device '"@ + dev + "' declares no event '"@ + event + "'"@,
                            at,
                        ),
                        None,
                    ),
                }
            },
        },
    }
}

/// A trigger. A plain text is an event, `<device>.<event>`.
pub open spec fn lowered_trigger(x: Scope, n: Notes, v: RawValue, at: Seq<char>) -> (
    Notes,
    Option<TriggerV>,
) {
    match entry_of(v) {
        None => match text_of(v) {
            Some(spec) => event_trigger(x, n, spec, at),
            None => (not_an_entry(n, "trigger"@, at), None),
        },
        Some((verb, p)) => if verb == "event"@ {
            match text_of(p) {
                None => (not_a_name(n, "event"@, at), None),
                Some(spec) => event_trigger(x, n, spec, at),
            }
        } else if verb == "occupancy"@ || verb == "occupancy_clear"@ {
            match text_of(p) {
                None => (not_a_name(n, verb, at), None),
                Some(name) => match device_named(x, name) {
                    None => (unknown_device(n, name, at), None),
                    Some(device) => (
                        checked(x, n, device, name, CapabilityKind::Occupancy, verb, at),
                        Some(
                            TriggerV::Changed {
                                device,
                                kind: CapabilityKind::Occupancy,
                                to: verb == "occupancy"@,
                            },
                        ),
                    ),
                },
            }
        } else if verb == "timer"@ {
            match text_of(p) {
                None => (not_a_name(n, "timer"@, at), None),
                Some(key) => (
                    Notes { referenced: noted(n.referenced, key), ..n },
                    Some(TriggerV::Timer { key }),
                ),
            }
        } else if verb == "schedule"@ {
            match text_of(p) {
                None => (not_a_name(n, "schedule"@, at), None),
                Some(name) => if x.schedule_ids.contains_key(name) {
                    let schedule = x.schedule_ids[name];
                    (
                        Notes { schedules: noted(n.schedules, schedule), ..n },
                        Some(TriggerV::Time { schedule }),
                    )
                } else {
                    (
                        failed(
                            n,
                            "E_UNKNOWN_SCHEDULE"@,
                            "unknown schedule '"@ + name + "'"@,
                            at,
                        ),
                        None,
                    )
                },
            }
        } else if verb == "command_failed"@ {
            match text_of(p) {
                None => (not_a_name(n, "command_failed"@, at), None),
                Some(name) => if name == "*"@ {
                    (n, Some(TriggerV::CommandFailed { device: None }))
                } else {
                    match device_named(x, name) {
                        None => (unknown_device(n, name, at), None),
                        Some(device) => (
                            n,
                            Some(TriggerV::CommandFailed { device: Some(device) }),
                        ),
                    }
                },
            }
        } else {
            (
                failed(n, "E_UNKNOWN_TRIGGER"@, "unknown trigger '"@ + verb + "'"@, at),
                None,
            )
        },
    }
}

// ------------------------------------------------------------ conditions

pub open spec fn time_condition(
    x: Scope,
    n: Notes,
    p: RawValue,
    verb: Seq<char>,
    op: CmpOp,
    at: Seq<char>,
) -> (Notes, Option<ConditionV>) {
    match text_of(p) {
        None => (not_a_name(n, verb, at), None),
        Some(t) => match clock_time(t) {
            None => (bad_time(n, t, at), None),
            Some((hour, minute)) => (
                n,
                Some(
                    ConditionV::Compare {
                        device: x.clock,
                        kind: CapabilityKind::TimeOfDay,
                        op,
                        value: (hour * 60 + minute) as i64,
                    },
                ),
            ),
        },
    }
}

pub open spec fn device_condition(
    x: Scope,
    n: Notes,
    device: Seq<char>,
    kind: CapabilityKind,
    value: bool,
    usage: Seq<char>,
    at: Seq<char>,
) -> (Notes, Option<ConditionV>) {
    match device_named(x, device) {
        None => (unknown_device(n, device, at), None),
        Some(id) => (
            checked(x, n, id, device, kind, usage, at),
            Some(ConditionV::BoolEquals { device: id, kind, value }),
        ),
    }
}

pub open spec fn lowered_condition(x: Scope, n: Notes, v: RawValue, at: Seq<char>) -> (
    Notes,
    Option<ConditionV>,
)
    decreases v,
{
    match v.shape {
        RawShape::Fields(fields) => if fields@.len() == 1 && fields@[0].0 is Some {
            let verb = fields@[0].0->0@;
            let p = fields@[0].1;
            if verb == "all"@ || verb == "any"@ {
                match p.shape {
                    RawShape::List(items) => {
                        let (after, out, ok) = lowered_conditions(x, n, items, items@.len(), at);
                        (
                            after,
                            if !ok {
                                None
                            } else if verb == "all"@ {
                                Some(ConditionV::And(out))
                            } else {
                                Some(ConditionV::Or(out))
                            },
                        )
                    },
                    _ => (
                        failed(
                            n,
                            "E_BAD_NODE"@,
                            "'"@ + verb + "' expects a list of conditions"@,
                            at,
                        ),
                        None,
                    ),
                }
            } else if verb == "not"@ {
                match lowered_condition(x, n, p, at) {
                    (after, Some(inner)) => (after, Some(ConditionV::Not(Box::new(inner)))),
                    (after, None) => (after, None),
                }
            } else if verb == "sun_up"@ {
                match flag_of(p) {
                    None => (not_a_flag(n, "sun_up"@, at), None),
                    Some(value) => (
                        n,
                        Some(
                            ConditionV::BoolEquals {
                                device: x.clock,
                                kind: CapabilityKind::SunUp,
                                value,
                            },
                        ),
                    ),
                }
            } else if verb == "switch"@ {
                match p.payload.switch_is {
                    Err(why) => (bad_payload(n, "switch"@, why@, at), None),
                    Ok(s) => device_condition(
                        x,
                        n,
                        s.device@,
                        CapabilityKind::Switch,
                        s.on,
                        "switch"@,
                        at,
                    ),
                }
            } else if verb == "occupancy_is"@ {
                match p.payload.occupancy_is {
                    Err(why) => (bad_payload(n, "occupancy_is"@, why@, at), None),
                    Ok(o) => device_condition(
                        x,
                        n,
                        o.device@,
                        CapabilityKind::Occupancy,
                        o.occupied,
                        "occupancy_is"@,
                        at,
                    ),
                }
            } else if verb == "time_after"@ {
                time_condition(x, n, p, "time_after"@, CmpOp::Ge, at)
            } else if verb == "time_before"@ {
                time_condition(x, n, p, "time_before"@, CmpOp::Lt, at)
            } else {
                (
                    failed(n, "E_UNKNOWN_CONDITION"@, "unknown condition '"@ + verb + "'"@, at),
                    None,
                )
            }
        } else {
            (not_an_entry(n, "condition"@, at), None)
        },
        _ => (not_an_entry(n, "condition"@, at), None),
    }
}

/// The first `k` items of a list: what is noted, the conditions that could be
/// lowered, and whether all could.
pub open spec fn lowered_conditions(
    x: Scope,
    n: Notes,
    items: Vec<RawValue>,
    k: nat,
    at: Seq<char>,
) -> (Notes, Seq<ConditionV>, bool)
    decreases items, k,
{
    if k == 0 || k > items@.len() {
        (n, Seq::empty(), true)
    } else {
        let (before, out, ok) = lowered_conditions(x, n, items, (k - 1) as nat, at);
        match lowered_condition(x, before, items@[k - 1], at) {
            (after, Some(c)) => (after, out.push(c), ok),
            (after, None) => (after, out, false),
        }
    }
}

// ------------------------------------------------------------ commands

/// A command on one device: the device must be known, and a finding is noted unless
/// it declares the capability.
pub open spec fn on_device(
    x: Scope,
    n: Notes,
    name: Seq<char>,
    cap: CapabilityKind,
    usage: Seq<char>,
    at: Seq<char>,
) -> (Notes, Option<DeviceId>) {
    match device_named(x, name) {
        None => (unknown_device(n, name, at), None),
        Some(id) => (checked(x, n, id, name, cap, usage, at), Some(id)),
    }
}

/// An optional fade.
pub open spec fn transition_of(n: Notes, t: Option<String>, at: Seq<char>) -> (
    Notes,
    Option<Option<Millis>>,
) {
    match t {
        None => (n, Some(None)),
        Some(s) => match duration_of(s@) {
            Some(ms) => (n, Some(Some(ms as u64))),
            None => (bad_duration(n, s@, at), None),
        },
    }
}

pub open spec fn lowered_command(x: Scope, n: Notes, v: RawValue, at: Seq<char>) -> (
    Notes,
    Option<CommandV>,
) {
    match entry_of(v) {
        None => (not_an_entry(n, "command"@, at), None),
        Some((verb, p)) => if verb == "turn_on"@ || verb == "turn_off"@ {
            match text_of(p) {
                None => (not_a_name(n, verb, at), None),
                Some(name) => match on_device(x, n, name, CapabilityKind::Switch, verb, at) {
                    (after, Some(device)) => (
                        after,
                        Some(CommandV::SetSwitch { device, on: verb == "turn_on"@ }),
                    ),
                    (after, None) => (after, None),
                },
            }
        } else if verb == "toggle"@ {
            match text_of(p) {
                None => (not_a_name(n, "toggle"@, at), None),
                Some(name) => match on_device(
                    x,
                    n,
                    name,
                    CapabilityKind::Switch,
                    "toggle"@,
                    at,
                ) {
                    (after, Some(device)) => (after, Some(CommandV::ToggleSwitch { device })),
                    (after, None) => (after, None),
                },
            }
        } else if verb == "set_brightness"@ {
            match p.payload.set_brightness {
                Err(why) => (bad_payload(n, "set_brightness"@, why@, at), None),
                Ok(b) => match on_device(
                    x,
                    n,
                    b.device@,
                    CapabilityKind::Brightness,
                    "set_brightness"@,
                    at,
                ) {
                    (n1, None) => (n1, None),
                    (n1, Some(device)) => match transition_of(n1, b.transition, at) {
                        (n2, None) => (n2, None),
                        (n2, Some(transition)) => (
                            n2,
                            Some(CommandV::SetBrightness { device, value: b.value, transition }),
                        ),
                    },
                },
            }
        } else if verb == "decrease_brightness"@ {
            match p.payload.decrease_brightness {
                Err(why) => (bad_payload(n, "decrease_brightness"@, why@, at), None),
                Ok(b) => match on_device(
                    x,
                    n,
                    b.device@,
                    CapabilityKind::Brightness,
                    "decrease_brightness"@,
                    at,
                ) {
                    (n1, None) => (n1, None),
                    (n1, Some(device)) => (
                        n1,
                        Some(CommandV::DecreaseBrightness { device, value: b.value }),
                    ),
                },
            }
        } else if verb == "increase_brightness"@ {
            match p.payload.increase_brightness {
                Err(why) => (bad_payload(n, "increase_brightness"@, why@, at), None),
                Ok(b) => match on_device(
                    x,
                    n,
                    b.device@,
                    CapabilityKind::Brightness,
                    "increase_brightness"@,
                    at,
                ) {
                    (n1, None) => (n1, None),
                    (n1, Some(device)) => (
                        n1,
                        Some(CommandV::IncreaseBrightness { device, value: b.value }),
                    ),
                },
            }
        } else if verb == "set_color"@ {
            match p.payload.set_color {
                Err(why) => (bad_payload(n, "set_color"@, why@, at), None),
                Ok(c) => match on_device(
                    x,
                    n,
                    c.device@,
                    CapabilityKind::Color,
                    "set_color"@,
                    at,
                ) {
                    (n1, None) => (n1, None),
                    (n1, Some(device)) => match color_of(c.color) {
                        None => (bad_color(n1, c.color, at), None),
                        Some((r, g, b)) => match transition_of(n1, c.transition, at) {
                            (n2, None) => (n2, None),
                            (n2, Some(transition)) => (
                                n2,
                                Some(CommandV::SetColor { device, r, g, b, transition }),
                            ),
                        },
                    },
                },
            }
        } else if verb == "set_color_temperature"@ {
            match p.payload.set_color_temperature {
                Err(why) => (bad_payload(n, "set_color_temperature"@, why@, at), None),
                Ok(c) => match on_device(
                    x,
                    n,
                    c.device@,
                    CapabilityKind::ColorTemperature,
                    "set_color_temperature"@,
                    at,
                ) {
                    (n1, None) => (n1, None),
                    (n1, Some(device)) => match temperature_of(c.kelvin, c.mireds) {
                        Err(why) => (failed(n1, "E_BAD_COLOR_TEMP"@, why, at), None),
                        Ok(mireds) => match transition_of(n1, c.transition, at) {
                            (n2, None) => (n2, None),
                            (n2, Some(transition)) => (
                                n2,
                                Some(CommandV::SetColorTemperature { device, mireds, transition }),
                            ),
                        },
                    },
                },
            }
        } else if verb == "activate_scene"@ {
            match text_of(p) {
                None => (not_a_name(n, "activate_scene"@, at), None),
                Some(name) => if x.scene_ids.contains_key(name) {
                    let scene = x.scene_ids[name];
                    (
                        Notes { scenes: noted(n.scenes, scene), ..n },
                        Some(CommandV::ActivateScene { scene }),
                    )
                } else {
                    (
                        failed(n, "E_UNKNOWN_SCENE"@, "unknown scene '"@ + name + "'"@, at),
                        None,
                    )
                },
            }
        } else if verb == "schedule_timer"@ {
            match p.payload.schedule_timer {
                Err(why) => (bad_payload(n, "schedule_timer"@, why@, at), None),
                Ok(s) => {
                    let n1 = Notes { scheduled: noted(n.scheduled, s.key@), ..n };
                    match duration_of(s.after@) {
                        None => (bad_duration(n1, s.after@, at), None),
                        Some(after) => (
                            n1,
                            Some(CommandV::ScheduleTimer { key: s.key@, after: after as u64 }),
                        ),
                    }
                },
            }
        } else if verb == "cancel_timer"@ {
            match text_of(p) {
                None => (not_a_name(n, "cancel_timer"@, at), None),
                Some(key) => (
                    Notes { referenced: noted(n.referenced, key), ..n },
                    Some(CommandV::CancelTimer { key }),
                ),
            }
        } else if verb == "send_ir_code"@ {
            match p.payload.send_ir_code {
                Err(why) => (bad_payload(n, "send_ir_code"@, why@, at), None),
                Ok(s) => match on_device(
                    x,
                    n,
                    s.device@,
                    CapabilityKind::IrTransmitter,
                    "send_ir_code"@,
                    at,
                ) {
                    (n1, None) => (n1, None),
                    (n1, Some(device)) => (
                        n1,
                        Some(CommandV::SendIrCode { device, code: s.code@ }),
                    ),
                },
            }
        } else {
            (
                failed(n, "E_UNKNOWN_COMMAND"@, "unknown command '"@ + verb + "'"@, at),
                None,
            )
        },
    }
}

/// Several nodes: those that could be lowered, in order.
pub open spec fn lowered_commands(x: Scope, n: Notes, vs: Seq<RawValue>, at: Seq<char>) -> (
    Notes,
    Seq<CommandV>,
)
    decreases vs.len(),
{
    if vs.len() == 0 {
        (n, Seq::empty())
    } else {
        let (before, out) = lowered_commands(x, n, vs.drop_last(), at);
        match lowered_command(x, before, vs.last(), at) {
            (after, Some(c)) => (after, out.push(c)),
            (after, None) => (after, out),
        }
    }
}

// ------------------------------------------------------------ the lowerer

/// Shared resolution context for one whole lowering phase (all scenes and rules).
pub struct Lowerer<'a> {
    pub devices: &'a Vec<DeviceDef>,
    pub device_index: &'a Table<String, DeviceId>,
    pub scene_index: &'a Table<String, SceneId>,
    pub schedule_index: &'a Table<String, ScheduleId>,
    pub clock_device: DeviceId,
    pub diags: Vec<Diagnostic>,
    pub scheduled_keys: Vec<String>,
    pub referenced_keys: Vec<String>,
    pub used_scenes: Vec<SceneId>,
    pub referenced_schedules: Vec<ScheduleId>,
}

/// Mention a key.
fn note_key(keys: &mut Vec<String>, key: &String)
    ensures
        texts(final(keys)@) == noted(texts(old(keys)@), key@),
{
    let mut i: usize = 0;
    let ghost all = texts(keys@);
    while i < keys.len()
        invariant
            i <= keys@.len(),
            keys@ == old(keys)@,
            all == texts(keys@),
            forall|j: int| 0 <= j < i ==> all[j] != key@,
        decreases keys@.len() - i,
    {
        if keys[i] == *key {
            assert(all[i as int] == key@);
            assert(all.contains(key@));
            return ;
        }
        assert(all[i as int] != key@);
        i += 1;
    }
    assert(!all.contains(key@));
    keys.push(key.clone());
    assert(texts(keys@) =~= all.push(key@));
}

impl<'a> Lowerer<'a> {
    pub open spec fn scope(&self) -> Scope {
        Scope {
            devices: device_views(self.devices@),
            device_ids: self.device_index@,
            scene_ids: self.scene_index@,
            schedule_ids: self.schedule_index@,
            clock: self.clock_device,
        }
    }

    pub open spec fn notes(&self) -> Notes {
        Notes {
            diags: findings(self.diags@),
            scheduled: texts(self.scheduled_keys@),
            referenced: texts(self.referenced_keys@),
            scenes: self.used_scenes@,
            schedules: self.referenced_schedules@,
        }
    }

    fn error(&mut self, code: &'static str, msg: String, at: &str)
        ensures
            final(self).scope() == old(self).scope(),
            final(self).notes() == failed(old(self).notes(), code@, msg@, at@),
    {
        let ghost was = self.diags@;
        self.diags.push(Diagnostic::error(code, msg).at(at));
        assert(findings(self.diags@) =~= findings(was).push(error_at(code@, msg@, at@)));
    }

    fn bad_entry(&mut self, node: &str, at: &str)
        ensures
            final(self).scope() == old(self).scope(),
            final(self).notes() == not_an_entry(old(self).notes(), node@, at@),
    {
        self.error(
            "E_BAD_NODE",
            cat2(node, " must be a single-key map like { verb: target }"),
            at,
        );
    }

    /// Pull the single `{ verb: payload }` entry out of a node.
    fn single_entry<'v>(&mut self, v: &'v RawValue, node: &str, at: &str) -> (r: Option<
        (&'v String, &'v RawValue),
    >)
        ensures
            final(self).scope() == old(self).scope(),
            match r {
                Some((verb, p)) => entry_of(*v) == Some((verb@, *p)) && final(self).notes() == old(
                    self,
                ).notes() && v.shape is Fields && v.shape->Fields_0@.len() == 1
                    && v.shape->Fields_0@[0].0 == Some(*verb) && v.shape->Fields_0@[0].1 == *p,
                None => entry_of(*v) is None && final(self).notes() == not_an_entry(
                    old(self).notes(),
                    node@,
                    at@,
                ),
            },
    {
        if let RawShape::Fields(fields) = &v.shape {
            if fields.len() == 1 {
                if let Some(verb) = &fields[0].0 {
                    return Some((verb, &fields[0].1));
                }
            }
        }
        self.bad_entry(node, at);
        None
    }

    fn as_name<'v>(&mut self, v: &'v RawValue, node: &str, at: &str) -> (r: Option<&'v String>)
        ensures
            final(self).scope() == old(self).scope(),
            match r {
                Some(s) => text_of(*v) == Some(s@) && final(self).notes() == old(self).notes(),
                None => text_of(*v) is None && final(self).notes() == not_a_name(
                    old(self).notes(),
                    node@,
                    at@,
                ),
            },
    {
        if let RawShape::Text(s) = &v.shape {
            return Some(s);
        }
        self.error("E_BAD_NODE", cat3("'", node, "' expects a name"), at);
        None
    }

    fn as_flag(&mut self, v: &RawValue, node: &str, at: &str) -> (r: Option<bool>)
        ensures
            final(self).scope() == old(self).scope(),
            r == flag_of(*v),
            final(self).notes() == if r is Some {
                old(self).notes()
            } else {
                not_a_flag(old(self).notes(), node@, at@)
            },
    {
        if let RawShape::Flag(b) = &v.shape {
            return Some(*b);
        }
        self.error("E_BAD_NODE", cat3("'", node, "' expects true/false"), at);
        None
    }

    fn reject_payload(&mut self, node: &str, why: &String, at: &str)
        ensures
            final(self).scope() == old(self).scope(),
            final(self).notes() == bad_payload(old(self).notes(), node@, why@, at@),
    {
        let mut msg = cat3("invalid '", node, "': ");
        msg.append(why.as_str());
        self.error("E_BAD_NODE", msg, at);
    }

    fn resolve_device(&mut self, name: &String, at: &str) -> (r: Option<DeviceId>)
        ensures
            final(self).scope() == old(self).scope(),
            r == device_named(old(self).scope(), name@),
            final(self).notes() == if r is Some {
                old(self).notes()
            } else {
                unknown_device(old(self).notes(), name@, at@)
            },
    {
        let found: Option<DeviceId> = match self.device_index.get(name) {
            Some(id) => Some(*id),
            None => None,
        };
        if found.is_none() {
            self.error("E_UNKNOWN_DEVICE", cat3("unknown device '", name.as_str(), "'"), at);
        }
        found
    }

    /// Verify a device actually declares the capability a usage needs. The synthetic
    /// clock device is exempt.
    fn require_cap(
        &mut self,
        id: DeviceId,
        name: &String,
        cap: CapabilityKind,
        usage: &str,
        at: &str,
    )
        ensures
            final(self).scope() == old(self).scope(),
            final(self).notes() == checked(
                old(self).scope(),
                old(self).notes(),
                id,
                name@,
                cap,
                usage@,
                at@,
            ),
    {
        if id == self.clock_device {
            return ;
        }
        let i: usize = id.0 as usize;
        if i < self.devices.len() && has_capability(&self.devices[i].capabilities, cap) {
            return ;
        }
        let head = cat5("'", usage, "' needs capability ", cap.label(), ", which device '");
        let msg = cat3(head.as_str(), name.as_str(), "' does not declare");
        self.error("E_MISSING_CAPABILITY", msg, at);
    }

    // --- triggers ---------------------------------------------------------------

    fn event(&mut self, spec: &String, at: &str) -> (r: Option<Trigger>)
        ensures
            final(self).scope() == old(self).scope(),
            event_trigger(old(self).scope(), old(self).notes(), spec@, at@) == (
                final(self).notes(),
                trigger_view(r),
            ),
    {
        let (dev_name, event_name) = match split_once(spec.as_str(), '.') {
            Some(pair) => pair,
            None => {
                self.error(
                    "E_BAD_NODE",
                    cat3(
                        "event trigger must be '<device>.<event>', got '",
                        spec.as_str(),
                        "'",
                    ),
                    at,
                );
                return None;
            },
        };
        let device = match self.resolve_device(&dev_name, at) {
            Some(d) => d,
            None => return None,
        };
        match self.resolve_event(device, &dev_name, &event_name, at) {
            Some(action) => Some(Trigger::Action { device, action }),
            None => None,
        }
    }

    pub fn trigger(&mut self, v: &RawValue, at: &str) -> (r: Option<Trigger>)
        ensures
            final(self).scope() == old(self).scope(),
            lowered_trigger(old(self).scope(), old(self).notes(), *v, at@) == (
                final(self).notes(),
                trigger_view(r),
            ),
    {
        if let RawShape::Text(spec) = &v.shape {
            return self.event(spec, at);
        }
        let (verb, payload) = match self.single_entry(v, "trigger", at) {
            Some(e) => e,
            None => return None,
        };
        if same(verb.as_str(), "event") {
            let spec = match self.as_name(payload, "event", at) {
                Some(s) => s,
                None => return None,
            };
            self.event(spec, at)
        } else if same(verb.as_str(), "occupancy") || same(verb.as_str(), "occupancy_clear") {
            let to = same(verb.as_str(), "occupancy");
            let name = match self.as_name(payload, verb.as_str(), at) {
                Some(s) => s,
                None => return None,
            };
            let device = match self.resolve_device(name, at) {
                Some(d) => d,
                None => return None,
            };
            self.require_cap(device, name, CapabilityKind::Occupancy, verb.as_str(), at);
            Some(Trigger::Changed { device, kind: CapabilityKind::Occupancy, to })
        } else if same(verb.as_str(), "timer") {
            match self.as_name(payload, "timer", at) {
                Some(key) => {
                    note_key(&mut self.referenced_keys, key);
                    Some(Trigger::Timer { key: TimerKey(key.clone()) })
                },
                None => None,
            }
        } else if same(verb.as_str(), "schedule") {
            let name = match self.as_name(payload, "schedule", at) {
                Some(s) => s,
                None => return None,
            };
            let found: Option<ScheduleId> = match self.schedule_index.get(name) {
                Some(id) => Some(*id),
                None => None,
            };
            match found {
                Some(schedule) => {
                    self.note_schedule(schedule);
                    Some(Trigger::Time { schedule })
                },
                None => {
                    self.error(
                        "E_UNKNOWN_SCHEDULE",
                        cat3("unknown schedule '", name.as_str(), "'"),
                        at,
                    );
                    None
                },
            }
        } else if same(verb.as_str(), "command_failed") {
            let name = match self.as_name(payload, "command_failed", at) {
                Some(s) => s,
                None => return None,
            };
            if same(name.as_str(), "*") {
                Some(Trigger::CommandFailed { device: None })
            } else {
                match self.resolve_device(name, at) {
                    Some(d) => Some(Trigger::CommandFailed { device: Some(d) }),
                    None => None,
                }
            }
        } else {
            self.error("E_UNKNOWN_TRIGGER", cat3("unknown trigger '", verb.as_str(), "'"), at);
            None
        }
    }

    /// Resolve an event against the device's declared `events`. The event name must
    /// be one the device declares: that is what makes button triggers statically
    /// checkable.
    fn resolve_event(
        &mut self,
        device: DeviceId,
        dev_name: &String,
        event: &String,
        at: &str,
    ) -> (r: Option<ActionId>)
        ensures
            final(self).scope() == old(self).scope(),
            ({
                let x = old(self).scope();
                if device.0 >= x.devices.len() {
                    r is None && final(self).notes() == old(self).notes()
                } else {
                    &&& r == event_named(x.devices[device.0 as int].events, event@)
                    &&& final(self).notes() == if r is Some {
                        old(self).notes()
                    } else {
                        failed(
                            old(self).notes(),
                            "E_UNKNOWN_EVENT"@,
                            "device '"@ + dev_name@ + "' declares no event '"@ + event@ + "'"@,
                            at@,
                        )
                    }
                }
            }),
    {
        let i: usize = device.0 as usize;
        if i >= self.devices.len() {
            return None;
        }
        match find_event(&self.devices[i].events, event) {
            Some(id) => Some(id),
            None => {
                self.error(
                    "E_UNKNOWN_EVENT",
                    cat5(
                        "device '",
                        dev_name.as_str(),
                        "' declares no event '",
                        event.as_str(),
                        "'",
                    ),
                    at,
                );
                None
            },
        }
    }

    fn note_schedule(&mut self, schedule: ScheduleId)
        ensures
            final(self).scope() == old(self).scope(),
            final(self).notes() == (Notes {
                schedules: noted(old(self).notes().schedules, schedule),
                ..old(self).notes()
            }),
    {
        let mut i: usize = 0;
        while i < self.referenced_schedules.len()
            invariant
                *self == *old(self),
                i <= self.referenced_schedules@.len(),
                forall|j: int| 0 <= j < i ==> self.referenced_schedules@[j] != schedule,
            decreases self.referenced_schedules@.len() - i,
        {
            if self.referenced_schedules[i] == schedule {
                assert(self.referenced_schedules@.contains(schedule));
                return ;
            }
            i += 1;
        }
        self.referenced_schedules.push(schedule);
    }

    fn note_scene(&mut self, scene: SceneId)
        ensures
            final(self).scope() == old(self).scope(),
            final(self).notes() == (Notes {
                scenes: noted(old(self).notes().scenes, scene),
                ..old(self).notes()
            }),
    {
        let mut i: usize = 0;
        while i < self.used_scenes.len()
            invariant
                *self == *old(self),
                i <= self.used_scenes@.len(),
                forall|j: int| 0 <= j < i ==> self.used_scenes@[j] != scene,
            decreases self.used_scenes@.len() - i,
        {
            if self.used_scenes[i] == scene {
                assert(self.used_scenes@.contains(scene));
                return ;
            }
            i += 1;
        }
        self.used_scenes.push(scene);
    }

    // --- conditions -------------------------------------------------------------

    pub fn condition(&mut self, v: &RawValue, at: &str) -> (r: Option<Condition>)
        ensures
            final(self).scope() == old(self).scope(),
            lowered_condition(old(self).scope(), old(self).notes(), *v, at@) == (
                final(self).notes(),
                opt_condition_view(r),
            ),
        decreases v,
    {
        let (verb, payload) = match self.single_entry(v, "condition", at) {
            Some(e) => e,
            None => return None,
        };
        assert(decreases_to!(v => payload)) by {
            let fields = v.shape->Fields_0;
            assert(decreases_to!(v => v.shape));
            assert(decreases_to!(v.shape => fields));
            assert(decreases_to!(fields => fields@[0]));
            assert(decreases_to!(fields@[0] => fields@[0].1));
        }
        if same(verb.as_str(), "all") || same(verb.as_str(), "any") {
            if let RawShape::List(items) = &payload.shape {
                let mut out: Vec<Condition> = Vec::new();
                let mut ok = true;
                let mut i: usize = 0;
                let ghost x = self.scope();
                let ghost n = self.notes();
                while i < items.len()
                    invariant
                        i <= items@.len(),
                        self.scope() == x,
                        decreases_to!(v => payload),
                        payload.shape == RawShape::List(*items),
                        lowered_conditions(x, n, *items, i as nat, at@) == (
                            self.notes(),
                            condition_views(out, out@.len()),
                            ok,
                        ),
                    decreases items@.len() - i,
                {
                    assert(decreases_to!(payload => payload.shape));
                    let ghost list = payload.shape->List_0;
                    assert(decreases_to!(payload.shape => list));
                    assert(decreases_to!(list => list@[i as int]));
                    assert(list@[i as int] == items@[i as int]);
                    match self.condition(&items[i], at) {
                        Some(c) => {
                            let ghost was = out;
                            out.push(c);
                            proof {
                                lemma_condition_views_prefix(was, out, was@.len());
                            }
                        },
                        None => {
                            ok = false;
                        },
                    }
                    i += 1;
                }
                if !ok {
                    return None;
                }
                if same(verb.as_str(), "all") {
                    Some(Condition::And(out))
                } else {
                    Some(Condition::Or(out))
                }
            } else {
                self.error(
                    "E_BAD_NODE",
                    cat3("'", verb.as_str(), "' expects a list of conditions"),
                    at,
                );
                None
            }
        } else if same(verb.as_str(), "not") {
            match self.condition(payload, at) {
                Some(c) => Some(Condition::Not(Box::new(c))),
                None => None,
            }
        } else if same(verb.as_str(), "sun_up") {
            match self.as_flag(payload, "sun_up", at) {
                Some(value) => Some(
                    Condition::BoolEquals {
                        device: self.clock_device,
                        kind: CapabilityKind::SunUp,
                        value,
                    },
                ),
                None => None,
            }
        } else if same(verb.as_str(), "switch") {
            match &payload.payload.switch_is {
                Ok(s) => self.device_flag(&s.device, CapabilityKind::Switch, s.on, "switch", at),
                Err(why) => {
                    self.reject_payload("switch", why, at);
                    None
                },
            }
        } else if same(verb.as_str(), "occupancy_is") {
            match &payload.payload.occupancy_is {
                Ok(o) => self.device_flag(
                    &o.device,
                    CapabilityKind::Occupancy,
                    o.occupied,
                    "occupancy_is",
                    at,
                ),
                Err(why) => {
                    self.reject_payload("occupancy_is", why, at);
                    None
                },
            }
        } else if same(verb.as_str(), "time_after") {
            self.time_bound(payload, "time_after", CmpOp::Ge, at)
        } else if same(verb.as_str(), "time_before") {
            self.time_bound(payload, "time_before", CmpOp::Lt, at)
        } else {
            self.error(
                "E_UNKNOWN_CONDITION",
                cat3("unknown condition '", verb.as_str(), "'"),
                at,
            );
            None
        }
    }

    fn device_flag(
        &mut self,
        device: &String,
        kind: CapabilityKind,
        value: bool,
        usage: &str,
        at: &str,
    ) -> (r: Option<Condition>)
        ensures
            final(self).scope() == old(self).scope(),
            device_condition(
                old(self).scope(),
                old(self).notes(),
                device@,
                kind,
                value,
                usage@,
                at@,
            ) == (final(self).notes(), opt_condition_view(r)),
    {
        match self.resolve_device(device, at) {
            Some(id) => {
                self.require_cap(id, device, kind, usage, at);
                Some(Condition::BoolEquals { device: id, kind, value })
            },
            None => None,
        }
    }

    fn time_bound(&mut self, p: &RawValue, verb: &str, op: CmpOp, at: &str) -> (r: Option<
        Condition,
    >)
        ensures
            final(self).scope() == old(self).scope(),
            time_condition(old(self).scope(), old(self).notes(), *p, verb@, op, at@) == (
                final(self).notes(),
                opt_condition_view(r),
            ),
    {
        let t = match self.as_name(p, verb, at) {
            Some(s) => s,
            None => return None,
        };
        match parse_clock_time(t.as_str()) {
            Some((hour, minute)) => {
                let value: i64 = minutes_of_day(hour, minute);
                Some(
                    Condition::Compare {
                        device: self.clock_device,
                        kind: CapabilityKind::TimeOfDay,
                        op,
                        value,
                    },
                )
            },
            None => {
                self.error(
                    "E_BAD_TIME",
                    cat3("invalid time '", t.as_str(), "' (expected HH:MM)"),
                    at,
                );
                None
            },
        }
    }

    // --- commands ---------------------------------------------------------------

    pub fn commands(&mut self, raws: &Vec<RawValue>, at: &str) -> (r: Vec<Command>)
        ensures
            final(self).scope() == old(self).scope(),
            lowered_commands(old(self).scope(), old(self).notes(), raws@, at@) == (
                final(self).notes(),
                command_views(r@),
            ),
    {
        let ghost x = self.scope();
        let ghost n = self.notes();
        let mut out: Vec<Command> = Vec::new();
        let mut i: usize = 0;
        assert(raws@.take(0) =~= Seq::empty());
        assert(command_views(out@) =~= Seq::empty());
        while i < raws.len()
            invariant
                i <= raws@.len(),
                self.scope() == x,
                lowered_commands(x, n, raws@.take(i as int), at@) == (
                    self.notes(),
                    command_views(out@),
                ),
            decreases raws@.len() - i,
        {
            assert(raws@.take(i + 1).drop_last() =~= raws@.take(i as int));
            assert(raws@.take(i + 1).last() == raws@[i as int]);
            match self.command(&raws[i], at) {
                Some(c) => {
                    let ghost was = out@;
                    out.push(c);
                    assert(command_views(out@) =~= command_views(was).push(c@));
                },
                None => {},
            }
            i += 1;
        }
        assert(raws@.take(i as int) =~= raws@);
        out
    }

    /// Resolve a command's device and check its capability.
    fn target(&mut self, name: &String, cap: CapabilityKind, usage: &str, at: &str) -> (r: Option<
        DeviceId,
    >)
        ensures
            final(self).scope() == old(self).scope(),
            on_device(old(self).scope(), old(self).notes(), name@, cap, usage@, at@) == (
                final(self).notes(),
                r,
            ),
    {
        match self.resolve_device(name, at) {
            Some(id) => {
                self.require_cap(id, name, cap, usage, at);
                Some(id)
            },
            None => None,
        }
    }

    fn transition(&mut self, t: &Option<String>, at: &str) -> (r: Option<Option<Millis>>)
        ensures
            final(self).scope() == old(self).scope(),
            transition_of(old(self).notes(), *t, at@) == (final(self).notes(), r),
    {
        match t {
            None => Some(None),
            Some(s) => match self.parse_duration(s, at) {
                Some(ms) => Some(Some(ms)),
                None => None,
            },
        }
    }

    pub fn command(&mut self, v: &RawValue, at: &str) -> (r: Option<Command>)
        ensures
            final(self).scope() == old(self).scope(),
            lowered_command(old(self).scope(), old(self).notes(), *v, at@) == (
                final(self).notes(),
                opt_command_view(r),
            ),
    {
        let (verb, payload) = match self.single_entry(v, "command", at) {
            Some(e) => e,
            None => return None,
        };
        if same(verb.as_str(), "turn_on") || same(verb.as_str(), "turn_off") {
            let on = same(verb.as_str(), "turn_on");
            let name = match self.as_name(payload, verb.as_str(), at) {
                Some(s) => s,
                None => return None,
            };
            match self.target(name, CapabilityKind::Switch, verb.as_str(), at) {
                Some(device) => Some(Command::SetSwitch { device, on }),
                None => None,
            }
        } else if same(verb.as_str(), "toggle") {
            let name = match self.as_name(payload, "toggle", at) {
                Some(s) => s,
                None => return None,
            };
            match self.target(name, CapabilityKind::Switch, "toggle", at) {
                Some(device) => Some(Command::ToggleSwitch { device }),
                None => None,
            }
        } else if same(verb.as_str(), "set_brightness") {
            match &payload.payload.set_brightness {
                Ok(b) => {
                    let device = match self.target(
                        &b.device,
                        CapabilityKind::Brightness,
                        "set_brightness",
                        at,
                    ) {
                        Some(d) => d,
                        None => return None,
                    };
                    match self.transition(&b.transition, at) {
                        Some(transition) => Some(
                            Command::SetBrightness { device, value: b.value, transition },
                        ),
                        None => None,
                    }
                },
                Err(why) => {
                    self.reject_payload("set_brightness", why, at);
                    None
                },
            }
        } else if same(verb.as_str(), "decrease_brightness") {
            match &payload.payload.decrease_brightness {
                Ok(b) => match self.target(
                    &b.device,
                    CapabilityKind::Brightness,
                    "decrease_brightness",
                    at,
                ) {
                    Some(device) => Some(Command::DecreaseBrightness { device, value: b.value }),
                    None => None,
                },
                Err(why) => {
                    self.reject_payload("decrease_brightness", why, at);
                    None
                },
            }
        } else if same(verb.as_str(), "increase_brightness") {
            match &payload.payload.increase_brightness {
                Ok(b) => match self.target(
                    &b.device,
                    CapabilityKind::Brightness,
                    "increase_brightness",
                    at,
                ) {
                    Some(device) => Some(Command::IncreaseBrightness { device, value: b.value }),
                    None => None,
                },
                Err(why) => {
                    self.reject_payload("increase_brightness", why, at);
                    None
                },
            }
        } else if same(verb.as_str(), "set_color") {
            match &payload.payload.set_color {
                Ok(c) => {
                    let device = match self.target(
                        &c.device,
                        CapabilityKind::Color,
                        "set_color",
                        at,
                    ) {
                        Some(d) => d,
                        None => return None,
                    };
                    let (r, g, b) = match self.parse_color(&c.color, at) {
                        Some(rgb) => rgb,
                        None => return None,
                    };
                    match self.transition(&c.transition, at) {
                        Some(transition) => Some(Command::SetColor { device, r, g, b, transition }),
                        None => None,
                    }
                },
                Err(why) => {
                    self.reject_payload("set_color", why, at);
                    None
                },
            }
        } else if same(verb.as_str(), "set_color_temperature") {
            match &payload.payload.set_color_temperature {
                Ok(c) => {
                    let device = match self.target(
                        &c.device,
                        CapabilityKind::ColorTemperature,
                        "set_color_temperature",
                        at,
                    ) {
                        Some(d) => d,
                        None => return None,
                    };
                    let mireds: u16 = match self.parse_color_temperature(c, at) {
                        Some(m) => m,
                        None => return None,
                    };
                    match self.transition(&c.transition, at) {
                        Some(transition) => Some(
                            Command::SetColorTemperature { device, mireds, transition },
                        ),
                        None => None,
                    }
                },
                Err(why) => {
                    self.reject_payload("set_color_temperature", why, at);
                    None
                },
            }
        } else if same(verb.as_str(), "activate_scene") {
            let name = match self.as_name(payload, "activate_scene", at) {
                Some(s) => s,
                None => return None,
            };
            let found: Option<SceneId> = match self.scene_index.get(name) {
                Some(id) => Some(*id),
                None => None,
            };
            match found {
                Some(scene) => {
                    self.note_scene(scene);
                    Some(Command::ActivateScene { scene })
                },
                None => {
                    self.error("E_UNKNOWN_SCENE", cat3("unknown scene '", name.as_str(), "'"), at);
                    None
                },
            }
        } else if same(verb.as_str(), "schedule_timer") {
            match &payload.payload.schedule_timer {
                Ok(s) => {
                    note_key(&mut self.scheduled_keys, &s.key);
                    match self.parse_duration(&s.after, at) {
                        Some(after) => Some(
                            Command::ScheduleTimer { key: TimerKey(s.key.clone()), after },
                        ),
                        None => None,
                    }
                },
                Err(why) => {
                    self.reject_payload("schedule_timer", why, at);
                    None
                },
            }
        } else if same(verb.as_str(), "cancel_timer") {
            match self.as_name(payload, "cancel_timer", at) {
                Some(key) => {
                    note_key(&mut self.referenced_keys, key);
                    Some(Command::CancelTimer { key: TimerKey(key.clone()) })
                },
                None => None,
            }
        } else if same(verb.as_str(), "send_ir_code") {
            match &payload.payload.send_ir_code {
                Ok(s) => match self.target(
                    &s.device,
                    CapabilityKind::IrTransmitter,
                    "send_ir_code",
                    at,
                ) {
                    Some(device) => Some(Command::SendIrCode { device, code: s.code.clone() }),
                    None => None,
                },
                Err(why) => {
                    self.reject_payload("send_ir_code", why, at);
                    None
                },
            }
        } else {
            self.error("E_UNKNOWN_COMMAND", cat3("unknown command '", verb.as_str(), "'"), at);
            None
        }
    }

    // --- scalar parsing ---------------------------------------------------------

    fn parse_duration(&mut self, s: &String, at: &str) -> (r: Option<Millis>)
        ensures
            final(self).scope() == old(self).scope(),
            match r {
                Some(ms) => duration_of(s@) == Some(ms as nat) && final(self).notes() == old(
                    self,
                ).notes(),
                None => duration_of(s@) is None && final(self).notes() == bad_duration(
                    old(self).notes(),
                    s@,
                    at@,
                ),
            },
    {
        match duration_ms(s.as_str()) {
            Some(ms) => Some(ms),
            None => {
                self.error(
                    "E_BAD_DURATION",
                    cat3("invalid duration '", s.as_str(), "' (expected e.g. 30s, 10m, 1h)"),
                    at,
                );
                None
            },
        }
    }

    /// Parse a chromatic color from `#RRGGBB` or `{ r, g, b }` into sRGB bytes.
    fn parse_color(&mut self, v: &RawValue, at: &str) -> (r: Option<(u8, u8, u8)>)
        ensures
            final(self).scope() == old(self).scope(),
            r == color_of(*v),
            final(self).notes() == if r is Some {
                old(self).notes()
            } else {
                bad_color(old(self).notes(), *v, at@)
            },
    {
        match &v.shape {
            RawShape::Text(s) => {
                let rgb = hex_to_rgb(s.as_str());
                if rgb.is_none() {
                    self.error(
                        "E_BAD_COLOR",
                        cat3("invalid hex color '", s.as_str(), "' (expected `#RRGGBB`)"),
                        at,
                    );
                }
                return rgb;
            },
            RawShape::Fields(fields) => {
                let r = field_number(fields, "r");
                let g = field_number(fields, "g");
                let b = field_number(fields, "b");
                if let (Some(r), Some(g), Some(b)) = (r, g, b) {
                    if r <= 255 && g <= 255 && b <= 255 {
                        return Some((r as u8, g as u8, b as u8));
                    }
                }
            },
            _ => {},
        }
        self.error(
            "E_BAD_COLOR",
            "color must be a `#RRGGBB` hex string or `{ r, g, b }` object with values 0–255".to_owned(),
            at,
        );
        None
    }

    /// Resolve exactly one of `kelvin` or `mireds` to mireds.
    fn parse_color_temperature(&mut self, raw: &RawSetColorTemperature, at: &str) -> (r: Option<
        u16,
    >)
        ensures
            final(self).scope() == old(self).scope(),
            match temperature_of(raw.kelvin, raw.mireds) {
                Ok(m) => r == Some(m) && final(self).notes() == old(self).notes(),
                Err(why) => r is None && final(self).notes() == failed(
                    old(self).notes(),
                    "E_BAD_COLOR_TEMP"@,
                    why,
                    at@,
                ),
            },
    {
        let why: String = match (raw.kelvin, raw.mireds) {
            (Some(_), Some(_)) => {
                "set_color_temperature must set exactly one of `kelvin` or `mireds`".to_owned()
            },
            (None, None) => "set_color_temperature needs one of `kelvin` or `mireds`".to_owned(),
            (Some(k), None) => {
                if 1000 <= k && k <= 10_000 {
                    let mireds: u32 = 1_000_000 / k;
                    assert(mireds <= 1000) by (nonlinear_arith)
                        requires
                            mireds == 1_000_000u32 / k,
                            k >= 1000,
                    ;
                    return Some(mireds as u16);
                }
                let shown = decimal_text(k as u64);
                cat3("kelvin ", shown.as_str(), " out of range (expected 1000–10000)")
            },
            (None, Some(m)) => {
                if 100 <= m && m <= 1000 {
                    return Some(m);
                }
                let shown = decimal_text(m as u64);
                cat3("mireds ", shown.as_str(), " out of range (expected 100–1000)")
            },
        };
        self.error("E_BAD_COLOR_TEMP", why, at);
        None
    }
}

fn minutes_of_day(hour: u16, minute: u16) -> (r: i64)
    requires
        hour < 24,
        minute < 60,
    ensures
        r == hour * 60 + minute,
{
    hour as i64 * 60 + minute as i64
}

pub open spec fn trigger_view(t: Option<Trigger>) -> Option<TriggerV> {
    match t {
        Some(t) => Some(t@),
        None => None,
    }
}

pub open spec fn opt_condition_view(c: Option<Condition>) -> Option<ConditionV> {
    match c {
        Some(c) => Some(c@),
        None => None,
    }
}

pub open spec fn opt_command_view(c: Option<Command>) -> Option<CommandV> {
    match c {
        Some(c) => Some(c@),
        None => None,
    }
}

/// The milliseconds of a text like `30s`.
pub fn duration_ms(s: &str) -> (r: Option<Millis>)
    ensures
        match r {
            Some(ms) => duration_of(s@) == Some(ms as nat),
            None => duration_of(s@) is None,
        },
{
    let t = trim(s);
    let cs = chars_of(t.as_str());
    let n: usize = cs.len();
    let p: usize = find_letter(&cs);
    if p >= n {
        return None;
    }
    let num = string_of(&cs, 0, p);
    let unit = string_of(&cs, p, n);
    assert(num@ =~= t@.take(p as int));
    assert(unit@ =~= t@.skip(p as int));
    let num = trim(num.as_str());
    let ms: u64 = if same(unit.as_str(), "ms") {
        1
    } else if same(unit.as_str(), "s") {
        1000
    } else if same(unit.as_str(), "m") {
        60_000
    } else if same(unit.as_str(), "h") {
        3_600_000
    } else {
        return None;
    };
    match parse_up_to(num.as_str(), u64::MAX) {
        Some(count) => count.checked_mul(ms),
        None => None,
    }
}

pub fn has_capability(caps: &Vec<CapabilityKind>, cap: CapabilityKind) -> (r: bool)
    ensures
        r == caps@.contains(cap),
{
    let mut i: usize = 0;
    while i < caps.len()
        invariant
            i <= caps@.len(),
            forall|j: int| 0 <= j < i ==> caps@[j] != cap,
        decreases caps@.len() - i,
    {
        if caps[i] == cap {
            assert(caps@.contains(caps@[i as int]));
            return true;
        }
        i += 1;
    }
    false
}

/// The first event with a name.
pub(crate) fn find_event(events: &Vec<DeviceEvent>, name: &String) -> (r: Option<ActionId>)
    ensures
        r == event_named(device_events(events@), name@),
{
    let mut i: usize = 0;
    let ghost all = device_events(events@);
    assert(all.skip(0) =~= all);
    while i < events.len()
        invariant
            i <= events@.len(),
            all == device_events(events@),
            event_named(all, name@) == event_named(all.skip(i as int), name@),
        decreases events@.len() - i,
    {
        assert(all.skip(i as int)[0] == events@[i as int]@);
        if events[i].name == *name {
            return Some(events[i].id);
        }
        assert(all.skip(i as int).drop_first() =~= all.skip(i + 1));
        i += 1;
    }
    None
}

fn field_number(fields: &Vec<(Option<String>, RawValue)>, key: &str) -> (r: Option<u64>)
    ensures
        r == number_under(fields@, key@),
{
    let mut i: usize = 0;
    assert(fields@.skip(0) =~= fields@);
    while i < fields.len()
        invariant
            i <= fields@.len(),
            number_under(fields@, key@) == number_under(fields@.skip(i as int), key@),
        decreases fields@.len() - i,
    {
        let hit: bool = match &fields[i].0 {
            Some(k) => same(k.as_str(), key),
            None => false,
        };
        if hit {
            return match &fields[i].1.shape {
                RawShape::Number(v) => Some(*v),
                _ => None,
            };
        }
        assert(fields@.skip(i as int).drop_first() =~= fields@.skip(i + 1));
        i += 1;
    }
    None
}

} // verus!
