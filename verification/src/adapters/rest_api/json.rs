//! Capability states to and from JSON.
//!
//! Values are encoded in the canonical units, with no conversion at this layer:
//!
//! | Capability | JSON | Unit |
//! |---|---|---|
//! | `switch`, `occupancy`, `contact`, `water_leak`, `smoke`, `sun_up` | bool | |
//! | `brightness`, `battery`, `humidity` | number | percent, `0..=100` |
//! | `temperature` | number | centidegrees Celsius (2350 is 23.5 °C) |
//! | `color_temperature` | number | mireds |
//! | `illuminance` | number | lux |
//! | `power` | number | watts |
//! | `time_of_day` | number | minutes since local midnight |
//! | `color` | `{"r":…, "g":…, "b":…}` | sRGB, each `0..=255` |
//!
//! `ir_transmitter` has no state at all (it is write-only): it always reads as null.

use vstd::prelude::*;

use crate::json::{integer_value, lemma_member_push, lemma_members, member_views, Json, JsonV};
use crate::model::{capability_names_round_trip, CapabilityKind, CapabilityState};
use crate::state::{known_state, Known, StateKey};
use crate::table::Table;
use crate::text::{cat2, cat3, cat4, cat5, same, signed_decimal, signed_decimal_text};

verus! {

/// A color as an object.
pub open spec fn color_value(r: u8, g: u8, b: u8) -> JsonV {
    JsonV::object().with("r"@, JsonV::Whole(r as u64)).with("g"@, JsonV::Whole(g as u64)).with(
        "b"@,
        JsonV::Whole(b as u64),
    )
}

pub(crate) fn color_json(r: u8, g: u8, b: u8) -> (out: Json)
    ensures
        out@ == color_value(r, g, b),
{
    Json::object().with("r", Json::Whole(r as u64)).with("g", Json::Whole(g as u64)).with(
        "b",
        Json::Whole(b as u64),
    )
}

/// A capability's value on the wire.
pub open spec fn state_value(s: CapabilityState) -> JsonV {
    match s {
        CapabilityState::Switch(b) => JsonV::Flag(b),
        CapabilityState::Occupancy(b) => JsonV::Flag(b),
        CapabilityState::Contact(b) => JsonV::Flag(b),
        CapabilityState::WaterLeak(b) => JsonV::Flag(b),
        CapabilityState::Smoke(b) => JsonV::Flag(b),
        CapabilityState::SunUp(b) => JsonV::Flag(b),
        CapabilityState::Brightness(v) => JsonV::Whole(v as u64),
        CapabilityState::Battery(v) => JsonV::Whole(v as u64),
        CapabilityState::Humidity(v) => JsonV::Whole(v as u64),
        CapabilityState::ColorTemperature(v) => JsonV::Whole(v as u64),
        CapabilityState::TimeOfDay(v) => JsonV::Whole(v as u64),
        CapabilityState::Temperature(v) => integer_value(v as int),
        CapabilityState::Illuminance(v) => JsonV::Whole(v as u64),
        CapabilityState::Power(v) => JsonV::Whole(v as u64),
        CapabilityState::Color { r, g, b } => color_value(r, g, b),
    }
}

/// Encode a capability value for the wire.
pub fn state_to_json(state: &CapabilityState) -> (r: Json)
    ensures
        r@ == state_value(*state),
{
    match state {
        CapabilityState::Switch(b) => Json::Flag(*b),
        CapabilityState::Occupancy(b) => Json::Flag(*b),
        CapabilityState::Contact(b) => Json::Flag(*b),
        CapabilityState::WaterLeak(b) => Json::Flag(*b),
        CapabilityState::Smoke(b) => Json::Flag(*b),
        CapabilityState::SunUp(b) => Json::Flag(*b),
        CapabilityState::Brightness(v) => Json::Whole(*v as u64),
        CapabilityState::Battery(v) => Json::Whole(*v as u64),
        CapabilityState::Humidity(v) => Json::Whole(*v as u64),
        CapabilityState::ColorTemperature(v) => Json::Whole(*v as u64),
        CapabilityState::TimeOfDay(v) => Json::Whole(*v as u64),
        CapabilityState::Temperature(v) => Json::integer(*v as i64),
        CapabilityState::Illuminance(v) => Json::Whole(*v as u64),
        CapabilityState::Power(v) => Json::Whole(*v as u64),
        CapabilityState::Color { r, g, b } => color_json(*r, *g, *b),
    }
}

/// Why a JSON value could not become a capability state. Carries a human-readable
/// message; the caller decides the status code.
#[derive(Debug, PartialEq)]
pub struct ValueError(pub String);

/// A JSON type's name for error messages.
pub open spec fn type_text(v: JsonV) -> Seq<char> {
    match v {
        JsonV::Null => "null"@,
        JsonV::Flag(_) => "a boolean"@,
        JsonV::Fraction(_) => "a fractional number"@,
        JsonV::Whole(_) => "a number"@,
        JsonV::Negative(_) => "a number"@,
        JsonV::Text(_) => "a string"@,
        JsonV::List(_) => "an array"@,
        JsonV::Object(_) => "an object"@,
    }
}

fn type_of(v: &Json) -> (r: &'static str)
    ensures
        r@ == type_text(v@),
{
    match v {
        Json::Null => "null",
        Json::Flag(_) => "a boolean",
        Json::Fraction(_) => "a fractional number",
        Json::Whole(_) => "a number",
        Json::Negative(_) => "a number",
        Json::Text(_) => "a string",
        Json::List(_) => "an array",
        Json::Object(_) => "an object",
    }
}

/// A boolean, or what is wrong.
pub open spec fn bool_in(v: JsonV, name: Seq<char>) -> Result<bool, Seq<char>> {
    match v.flag() {
        Some(b) => Ok(b),
        None => Err("'"@ + name + "' expects a boolean, got "@ + type_text(v)),
    }
}

fn bool_of(v: &Json, name: &str) -> (r: Result<bool, ValueError>)
    ensures
        match (bool_in(v@, name@), r) {
            (Ok(b), Ok(x)) => x == b,
            (Err(why), Err(e)) => e.0@ == why,
            _ => false,
        },
{
    match v.as_bool() {
        Some(b) => Ok(b),
        None => Err(ValueError(cat4("'", name, "' expects a boolean, got ", type_of(v)))),
    }
}

/// An integer in a range, or what is wrong.
pub open spec fn integer_in(v: JsonV, name: Seq<char>, min: i64, max: i64) -> Result<
    i64,
    Seq<char>,
> {
    match v.integer() {
        None => Err("'"@ + name + "' expects an integer, got "@ + type_text(v)),
        Some(n) => if n < min || n > max {
            Err(
                "'"@ + name + "' must be between "@ + signed_decimal(min as int) + " and "@
                    + signed_decimal(max as int) + ", got "@ + signed_decimal(n as int),
            )
        } else {
            Ok(n)
        },
    }
}

/// An integer in `min..=max`. A fraction is an error rather than truncated.
fn int_of(v: &Json, name: &str, min: i64, max: i64) -> (r: Result<i64, ValueError>)
    ensures
        match (integer_in(v@, name@, min, max), r) {
            (Ok(n), Ok(x)) => x == n && min <= x <= max,
            (Err(why), Err(e)) => e.0@ == why,
            _ => false,
        },
{
    match v.as_i64() {
        None => Err(ValueError(cat4("'", name, "' expects an integer, got ", type_of(v)))),
        Some(n) => {
            if n < min || n > max {
                let lo = signed_decimal_text(min);
                let hi = signed_decimal_text(max);
                let got = signed_decimal_text(n);
                let mut msg = cat5("'", name, "' must be between ", lo.as_str(), " and ");
                msg.append(hi.as_str());
                msg.append(", got ");
                msg.append(got.as_str());
                Err(ValueError(msg))
            } else {
                Ok(n)
            }
        },
    }
}

/// One channel of a color object.
pub open spec fn channel_in(v: JsonV, key: Seq<char>) -> Result<i64, Seq<char>> {
    match v.field(key) {
        None => Err("'color' is missing '"@ + key + "'"@),
        Some(c) => integer_in(c, "color."@ + key, 0, 255),
    }
}

fn channel_of(v: &Json, key: &str) -> (r: Result<u8, ValueError>)
    ensures
        match (channel_in(v@, key@), r) {
            (Ok(n), Ok(x)) => x == n,
            (Err(why), Err(e)) => e.0@ == why,
            _ => false,
        },
{
    match v.get(key) {
        None => Err(ValueError(cat3("'color' is missing '", key, "'"))),
        Some(c) => {
            let name = cat2("color.", key);
            match int_of(c, name.as_str(), 0, 255) {
                Ok(n) => Ok(n as u8),
                Err(e) => Err(e),
            }
        },
    }
}

pub open spec fn is_channel(key: Seq<char>) -> bool {
    key == "r"@ || key == "g"@ || key == "b"@
}

/// The first member that is no channel.
pub open spec fn stray_key(members: Seq<(Seq<char>, JsonV)>) -> Option<Seq<char>>
    decreases members.len(),
{
    if members.len() == 0 {
        None
    } else if !is_channel(members[0].0) {
        Some(members[0].0)
    } else {
        stray_key(members.drop_first())
    }
}

/// A color, or what is wrong. A stray key is an error, so that a typo does not leave
/// the color silently wrong.
pub open spec fn color_in(v: JsonV) -> Result<CapabilityState, Seq<char>> {
    match v {
        JsonV::Object(members) => match (
            channel_in(v, "r"@),
            channel_in(v, "g"@),
            channel_in(v, "b"@),
        ) {
            (Err(why), _, _) => Err(why),
            (Ok(_), Err(why), _) => Err(why),
            (Ok(_), Ok(_), Err(why)) => Err(why),
            (Ok(r), Ok(g), Ok(b)) => match stray_key(members) {
                Some(extra) => Err("'color' has unexpected key '"@ + extra + "'"@),
                None => Ok(CapabilityState::Color { r: r as u8, g: g as u8, b: b as u8 }),
            },
        },
        _ => Err(
            "'color' expects an object like {\"r\":255,\"g\":170,\"b\":0}, got "@ + type_text(v),
        ),
    }
}

fn color_of(v: &Json) -> (r: Result<CapabilityState, ValueError>)
    ensures
        match (color_in(v@), r) {
            (Ok(s), Ok(x)) => x == s,
            (Err(why), Err(e)) => e.0@ == why,
            _ => false,
        },
{
    match v {
        Json::Object(members) => {
            let red: u8 = match channel_of(v, "r") {
                Ok(c) => c,
                Err(e) => return Err(e),
            };
            let green: u8 = match channel_of(v, "g") {
                Ok(c) => c,
                Err(e) => return Err(e),
            };
            let blue: u8 = match channel_of(v, "b") {
                Ok(c) => c,
                Err(e) => return Err(e),
            };
            let ghost all = member_views(*members, members@.len());
            proof {
                lemma_members(*members, members@.len());
            }
            let mut i: usize = 0;
            assert(all.skip(0) =~= all);
            while i < members.len()
                invariant
                    i <= members@.len() == all.len(),
                    forall|k: int|
                        0 <= k < all.len() ==> #[trigger] all[k] == (
                            members@[k].0@,
                            members@[k].1@,
                        ),
                    stray_key(all) == stray_key(all.skip(i as int)),
                    v@ == JsonV::Object(all),
                    channel_in(v@, "r"@) is Ok,
                    channel_in(v@, "g"@) is Ok,
                    channel_in(v@, "b"@) is Ok,
                decreases members@.len() - i,
            {
                let key = members[i].0.as_str();
                assert(all.skip(i as int)[0] == all[i as int]);
                if !(same(key, "r") || same(key, "g") || same(key, "b")) {
                    return Err(ValueError(cat3("'color' has unexpected key '", key, "'")));
                }
                assert(all.skip(i as int).drop_first() =~= all.skip(i + 1));
                i += 1;
            }
            Ok(CapabilityState::Color { r: red, g: green, b: blue })
        },
        _ => Err(
            ValueError(
                cat2(
                    "'color' expects an object like {\"r\":255,\"g\":170,\"b\":0}, got ",
                    type_of(v),
                ),
            ),
        ),
    }
}

/// The range of a capability's integers on the wire.
pub open spec fn wire_range(kind: CapabilityKind) -> (i64, i64) {
    match kind {
        CapabilityKind::Brightness => (0, 100),
        CapabilityKind::Battery => (0, 100),
        CapabilityKind::Humidity => (0, 100),
        CapabilityKind::ColorTemperature => (0, 65535),
        CapabilityKind::Temperature => (-32768i64, 32767i64),
        CapabilityKind::Illuminance => (0, 4_294_967_295),
        CapabilityKind::Power => (0, 4_294_967_295),
        CapabilityKind::TimeOfDay => (0, 1439),
        _ => (0, 0),
    }
}

/// The state of a scalar capability.
pub open spec fn scalar_state(kind: CapabilityKind, n: i64) -> CapabilityState {
    match kind {
        CapabilityKind::Brightness => CapabilityState::Brightness(n as u8),
        CapabilityKind::Battery => CapabilityState::Battery(n as u8),
        CapabilityKind::Humidity => CapabilityState::Humidity(n as u8),
        CapabilityKind::ColorTemperature => CapabilityState::ColorTemperature(n as u16),
        CapabilityKind::Temperature => CapabilityState::Temperature(n as i16),
        CapabilityKind::Illuminance => CapabilityState::Illuminance(n as u32),
        CapabilityKind::Power => CapabilityState::Power(n as u32),
        _ => CapabilityState::TimeOfDay(n as u16),
    }
}

/// The state of a boolean capability.
pub open spec fn flag_state(kind: CapabilityKind, b: bool) -> CapabilityState {
    match kind {
        CapabilityKind::Switch => CapabilityState::Switch(b),
        CapabilityKind::Occupancy => CapabilityState::Occupancy(b),
        CapabilityKind::Contact => CapabilityState::Contact(b),
        CapabilityKind::WaterLeak => CapabilityState::WaterLeak(b),
        CapabilityKind::Smoke => CapabilityState::Smoke(b),
        _ => CapabilityState::SunUp(b),
    }
}

/// Whether a capability is boolean on the wire.
pub open spec fn is_flag(kind: CapabilityKind) -> bool {
    kind == CapabilityKind::Switch || kind == CapabilityKind::Occupancy || kind
        == CapabilityKind::Contact || kind == CapabilityKind::WaterLeak || kind
        == CapabilityKind::Smoke || kind == CapabilityKind::SunUp
}

/// The state that a JSON value stands for, or what is wrong with it.
pub open spec fn state_in(kind: CapabilityKind, v: JsonV) -> Result<CapabilityState, Seq<char>> {
    if kind == CapabilityKind::IrTransmitter {
        Err(
            "'ir_transmitter' has no readable state; send a code with {\"send_ir_code\": \"<base64>\"}"@,
        )
    } else if kind == CapabilityKind::Color {
        color_in(v)
    } else if is_flag(kind) {
        match bool_in(v, kind.spec_name()) {
            Ok(b) => Ok(flag_state(kind, b)),
            Err(why) => Err(why),
        }
    } else {
        match integer_in(v, kind.spec_name(), wire_range(kind).0, wire_range(kind).1) {
            Ok(n) => Ok(scalar_state(kind, n)),
            Err(why) => Err(why),
        }
    }
}

fn scalar_from(kind: CapabilityKind, v: &Json) -> (r: Result<CapabilityState, ValueError>)
    requires
        kind != CapabilityKind::IrTransmitter,
        kind != CapabilityKind::Color,
        !is_flag(kind),
    ensures
        match (state_in(kind, v@), r) {
            (Ok(s), Ok(x)) => x == s,
            (Err(why), Err(e)) => e.0@ == why,
            _ => false,
        },
{
    let (min, max): (i64, i64) = match kind {
        CapabilityKind::Brightness => (0, 100),
        CapabilityKind::Battery => (0, 100),
        CapabilityKind::Humidity => (0, 100),
        CapabilityKind::ColorTemperature => (0, 65535),
        CapabilityKind::Temperature => (-32768, 32767),
        CapabilityKind::Illuminance => (0, 4_294_967_295),
        CapabilityKind::Power => (0, 4_294_967_295),
        _ => (0, 1439),
    };
    match int_of(v, kind.name(), min, max) {
        Ok(n) => Ok(
            match kind {
                CapabilityKind::Brightness => CapabilityState::Brightness(n as u8),
                CapabilityKind::Battery => CapabilityState::Battery(n as u8),
                CapabilityKind::Humidity => CapabilityState::Humidity(n as u8),
                CapabilityKind::ColorTemperature => CapabilityState::ColorTemperature(n as u16),
                CapabilityKind::Temperature => CapabilityState::Temperature(n as i16),
                CapabilityKind::Illuminance => CapabilityState::Illuminance(n as u32),
                CapabilityKind::Power => CapabilityState::Power(n as u32),
                _ => CapabilityState::TimeOfDay(n as u16),
            },
        ),
        Err(e) => Err(e),
    }
}

/// Decode a capability value from the wire, given the capability it is for. Every
/// scalar is range-checked rather than silently truncated.
pub fn state_from_json(kind: CapabilityKind, value: &Json) -> (r: Result<
    CapabilityState,
    ValueError,
>)
    ensures
        match (state_in(kind, value@), r) {
            (Ok(s), Ok(x)) => x == s,
            (Err(why), Err(e)) => e.0@ == why,
            _ => false,
        },
{
    match kind {
        CapabilityKind::IrTransmitter => Err(
            ValueError(
                "'ir_transmitter' has no readable state; send a code with {\"send_ir_code\": \"<base64>\"}".to_owned(),
            ),
        ),
        CapabilityKind::Color => color_of(value),
        CapabilityKind::Switch => match bool_of(value, kind.name()) {
            Ok(b) => Ok(CapabilityState::Switch(b)),
            Err(e) => Err(e),
        },
        CapabilityKind::Occupancy => match bool_of(value, kind.name()) {
            Ok(b) => Ok(CapabilityState::Occupancy(b)),
            Err(e) => Err(e),
        },
        CapabilityKind::Contact => match bool_of(value, kind.name()) {
            Ok(b) => Ok(CapabilityState::Contact(b)),
            Err(e) => Err(e),
        },
        CapabilityKind::WaterLeak => match bool_of(value, kind.name()) {
            Ok(b) => Ok(CapabilityState::WaterLeak(b)),
            Err(e) => Err(e),
        },
        CapabilityKind::Smoke => match bool_of(value, kind.name()) {
            Ok(b) => Ok(CapabilityState::Smoke(b)),
            Err(e) => Err(e),
        },
        CapabilityKind::SunUp => match bool_of(value, kind.name()) {
            Ok(b) => Ok(CapabilityState::SunUp(b)),
            Err(e) => Err(e),
        },
        _ => scalar_from(kind, value),
    }
}

/// The value of a capability: its last report, or null.
pub open spec fn capability_value(known: Known, device: crate::ids::DeviceId, kind: CapabilityKind) -> JsonV {
    match known_state(known, device, kind) {
        Some(s) => state_value(s),
        None => JsonV::Null,
    }
}

/// Every capability a device declared, in that order, with its value.
pub open spec fn capabilities_value(
    known: Known,
    device: crate::ids::DeviceId,
    caps: Seq<CapabilityKind>,
) -> JsonV
    decreases caps.len(),
{
    if caps.len() == 0 {
        JsonV::object()
    } else {
        capabilities_value(known, device, caps.drop_last()).with(
            caps.last().spec_name(),
            capability_value(known, device, caps.last()),
        )
    }
}

/// The `capabilities` object for one device. A capability the engine has never
/// folded is an explicit null: the wire form of "unknown".
pub fn capabilities_object(
    capabilities: &Vec<CapabilityKind>,
    device: crate::ids::DeviceId,
    states: &Table<StateKey, CapabilityState>,
) -> (r: Json)
    ensures
        r@ == capabilities_value(states@, device, capabilities@),
{
    let mut out = Json::object();
    let mut i: usize = 0;
    assert(capabilities@.take(0) =~= Seq::empty());
    while i < capabilities.len()
        invariant
            i <= capabilities@.len(),
            out@ == capabilities_value(states@, device, capabilities@.take(i as int)),
        decreases capabilities@.len() - i,
    {
        let kind = capabilities[i];
        assert(capabilities@.take(i + 1).drop_last() =~= capabilities@.take(i as int));
        assert(capabilities@.take(i + 1).last() == kind);
        let value = match states.get(&StateKey(device, kind)) {
            Some(s) => state_to_json(s),
            None => Json::Null,
        };
        out = out.with(kind.name(), value);
        i += 1;
    }
    assert(capabilities@.take(i as int) =~= capabilities@);
    out
}

// ------------------------------------------------------------ laws

/// A state inside the ranges of the wire.
pub open spec fn on_the_wire(s: CapabilityState) -> bool {
    match s {
        CapabilityState::Brightness(v) => v <= 100,
        CapabilityState::Battery(v) => v <= 100,
        CapabilityState::Humidity(v) => v <= 100,
        CapabilityState::TimeOfDay(v) => v < 1440,
        _ => true,
    }
}

/// What is encoded is decoded again, for every state inside the ranges.
pub proof fn states_round_trip(s: CapabilityState)
    requires
        on_the_wire(s),
    ensures
        state_in(s.spec_kind(), state_value(s)) == Ok::<CapabilityState, Seq<char>>(s),
{
    match s {
        CapabilityState::Color { r, g, b } => {
            lemma_color_fields(r, g, b);
        },
        _ => {},
    }
}

proof fn lemma_color_fields(r: u8, g: u8, b: u8)
    ensures
        ({
            let v = color_value(r, g, b);
            &&& v.field("r"@) == Some(JsonV::Whole(r as u64))
            &&& v.field("g"@) == Some(JsonV::Whole(g as u64))
            &&& v.field("b"@) == Some(JsonV::Whole(b as u64))
            &&& v is Object
            &&& stray_key(v->Object_0) is None
        }),
{
    reveal_strlit("r");
    reveal_strlit("g");
    reveal_strlit("b");
    assert("r"@[0] == 'r' && "g"@[0] == 'g' && "b"@[0] == 'b');
    reveal_with_fuel(crate::json::member, 4);
    reveal_with_fuel(stray_key, 4);
    let m = color_value(r, g, b)->Object_0;
    let m1 = m.drop_first();
    let m2 = m1.drop_first();
    assert(m.len() == 3);
    assert(m[0] == ("r"@, JsonV::Whole(r as u64)));
    assert(m1[0] == ("g"@, JsonV::Whole(g as u64)));
    assert(m2[0] == ("b"@, JsonV::Whole(b as u64)));
    assert(m2.drop_first().len() == 0);
}

/// A capability that was never reported is an explicit null.
pub proof fn unreported_is_null(known: Known, device: crate::ids::DeviceId, kind: CapabilityKind)
    requires
        known_state(known, device, kind) is None,
    ensures
        capability_value(known, device, kind) == JsonV::Null,
{
}

/// A device's state object holds exactly what it declared: every declared capability
/// has its value, be it null, and no other capability is there.
pub proof fn declared_capabilities_appear(
    known: Known,
    device: crate::ids::DeviceId,
    caps: Seq<CapabilityKind>,
    kind: CapabilityKind,
)
    ensures
        capabilities_value(known, device, caps) is Object,
        capabilities_value(known, device, caps).field(kind.spec_name()) == if caps.contains(kind) {
            Some(capability_value(known, device, kind))
        } else {
            None
        },
    decreases caps.len(),
{
    if caps.len() > 0 {
        let before = caps.drop_last();
        let last = caps.last();
        declared_capabilities_appear(known, device, before, kind);
        lemma_member_push(
            capabilities_value(known, device, before)->Object_0,
            last.spec_name(),
            capability_value(known, device, last),
            kind.spec_name(),
        );
        capability_names_round_trip(last);
        capability_names_round_trip(kind);
        assert(caps =~= before.push(last));
        if before.contains(kind) {
            let j = before.index_of(kind);
            assert(caps[j] == kind);
        }
        if last == kind {
            assert(caps[caps.len() - 1] == kind);
        }
        if caps.contains(kind) && last != kind {
            let j = caps.index_of(kind);
            assert(before[j] == kind);
        }
    }
}

} // verus!
