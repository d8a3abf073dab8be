//! What the HTTP interface shows, and what it takes a request for.

use vstd::prelude::*;

use super::rules::number_held;
use crate::adapters::rest_api::describe::{
    command_value, condition_list, condition_value, op_text, trigger_value,
};
use crate::adapters::rest_api::http::{
    auth_refusal, loopback, served, stays_local, token_refusal, RequestV, ServedV,
};
use crate::adapters::rest_api::json::{
    capability_value, color_value, declared_capabilities_appear, state_in, state_value, stray_key,
};
use crate::adapters::rest_api::routes::{
    device_value, intent_in, queued_of, routed, rule_report, scene_value, system_value, RoutedV,
};
use crate::adapters::rest_api::stream::{command_failed_frame_of, rule_frame_of};
use crate::adapters::rest_api::{
    considered_at, device_of, device_with, directory_of, folded, inbound_event, received_event,
    rule_of, scene_of, shown_device, truth_text, DirectoryV, EntryV, InboundV, MirrorV, RuleStatus,
};
use crate::compile::resolve::{Resolution, SceneV};
use crate::ids::{ActionId, DeviceId, SceneId};
use crate::json::{member, JsonV};
use crate::model::{
    capability_names_round_trip, CapabilityKind, CapabilityState, CommandV, DesiredV, EventV,
    Millis,
};
use crate::rule::{CmpOp, ConditionV, CrossDir, RuleV, TriggerV, Truth};
use crate::state::{known_state, reported, Known};
use crate::text::{any_space, lemma_position, lower, lowercase, segments, without_slashes};

verus! {

/// A state that is on or off, and which of the two.
pub open spec fn flag_held(state: CapabilityState) -> Option<bool> {
    match state {
        CapabilityState::Switch(b) => Some(b),
        CapabilityState::Occupancy(b) => Some(b),
        CapabilityState::Contact(b) => Some(b),
        CapabilityState::WaterLeak(b) => Some(b),
        CapabilityState::Smoke(b) => Some(b),
        CapabilityState::SunUp(b) => Some(b),
        _ => None,
    }
}

// ------------------------------------------------------------ states on the wire

/// A state that is on or off is written as the boolean that it reads as.
pub proof fn flags_are_written_as_they_are(s: CapabilityState, b: bool)
    requires
        flag_held(s) == Some(b),
    ensures
        state_value(s) == JsonV::Flag(b),
        s.spec_as_bool() == Some(b),
        state_value(s).flag() == s.spec_as_bool(),
{
}

/// A state that is a number is written as just that whole number, which it reads as.
pub proof fn numbers_are_written_as_they_are(s: CapabilityState, n: int)
    requires
        number_held(s) == Some(n),
    ensures
        n >= 0 ==> state_value(s) == JsonV::Whole(n as u64),
        n < 0 ==> state_value(s) == JsonV::Negative(n as i64),
        state_value(s).integer() == Some(n as i64),
        state_value(s).integer() == s.spec_as_int(),
{
}

/// A color is written channel by channel, each under its letter.
pub proof fn colors_are_written_as_they_are(r: u8, g: u8, b: u8)
    ensures
        ({
            let v = state_value(CapabilityState::Color { r, g, b });
            &&& v is Object
            &&& v->Object_0.len() == 3
            &&& v.field("r"@) == Some(JsonV::Whole(r as u64))
            &&& v.field("g"@) == Some(JsonV::Whole(g as u64))
            &&& v.field("b"@) == Some(JsonV::Whole(b as u64))
        }),
{
    reveal_strlit("r");
    reveal_strlit("g");
    reveal_strlit("b");
    assert("r"@[0] == 'r' && "g"@[0] == 'g' && "b"@[0] == 'b');
    reveal_with_fuel(member, 4);
    let m = color_value(r, g, b)->Object_0;
    let m1 = m.drop_first();
    let m2 = m1.drop_first();
    assert(m[0] == ("r"@, JsonV::Whole(r as u64)));
    assert(m1[0] == ("g"@, JsonV::Whole(g as u64)));
    assert(m2[0] == ("b"@, JsonV::Whole(b as u64)));
}

/// A boolean is taken for just that boolean, whatever capability it is for that is on or
/// off, and for nothing else.
pub proof fn flags_are_taken_as_they_are(b: bool)
    ensures
        state_in(CapabilityKind::Switch, JsonV::Flag(b)) == Ok::<CapabilityState, Seq<char>>(
            CapabilityState::Switch(b),
        ),
        state_in(CapabilityKind::Occupancy, JsonV::Flag(b)) == Ok::<CapabilityState, Seq<char>>(
            CapabilityState::Occupancy(b),
        ),
        state_in(CapabilityKind::Contact, JsonV::Flag(b)) == Ok::<CapabilityState, Seq<char>>(
            CapabilityState::Contact(b),
        ),
        state_in(CapabilityKind::WaterLeak, JsonV::Flag(b)) == Ok::<CapabilityState, Seq<char>>(
            CapabilityState::WaterLeak(b),
        ),
        state_in(CapabilityKind::Smoke, JsonV::Flag(b)) == Ok::<CapabilityState, Seq<char>>(
            CapabilityState::Smoke(b),
        ),
        state_in(CapabilityKind::SunUp, JsonV::Flag(b)) == Ok::<CapabilityState, Seq<char>>(
            CapabilityState::SunUp(b),
        ),
        state_in(CapabilityKind::Brightness, JsonV::Flag(b)) is Err,
        state_in(CapabilityKind::Color, JsonV::Flag(b)) is Err,
        state_in(CapabilityKind::IrTransmitter, JsonV::Flag(b)) is Err,
{
}

/// A number is taken for just that number, where it is in the range of its capability;
/// otherwise it is refused.
pub proof fn numbers_are_taken_as_they_are(kind: CapabilityKind, n: u64)
    requires
        n <= i64::MAX,
    ensures
        ({
            let taken = state_in(kind, JsonV::Whole(n));
            match kind {
                CapabilityKind::Brightness | CapabilityKind::Battery | CapabilityKind::Humidity
                    => taken is Ok <==> n <= 100,
                CapabilityKind::ColorTemperature => taken is Ok <==> n <= 65535,
                CapabilityKind::Temperature => taken is Ok <==> n <= 32767,
                CapabilityKind::Illuminance | CapabilityKind::Power => taken is Ok <==> n
                    <= 0xffff_ffff,
                CapabilityKind::TimeOfDay => taken is Ok <==> n < 24 * 60,
                _ => taken is Err,
            }
        }),
        state_in(kind, JsonV::Whole(n)) is Ok ==> {
            let s = state_in(kind, JsonV::Whole(n))->Ok_0;
            s.spec_kind() == kind && number_held(s) == Some(n as int)
        },
{
}

/// A number below zero is taken for a temperature, and for nothing else.
pub proof fn only_temperatures_are_below_zero(kind: CapabilityKind, n: i64)
    requires
        n < 0,
    ensures
        state_in(kind, JsonV::Negative(n)) is Ok <==> kind == CapabilityKind::Temperature && n
            >= -32768,
        state_in(kind, JsonV::Negative(n)) is Ok ==> state_in(kind, JsonV::Negative(n))->Ok_0
            == CapabilityState::Temperature(n as i16),
{
}

/// Channels are taken for just that color.
pub proof fn colors_are_taken_as_they_are(v: JsonV, r: u64, g: u64, b: u64)
    requires
        v is Object,
        v.field("r"@) == Some(JsonV::Whole(r)),
        v.field("g"@) == Some(JsonV::Whole(g)),
        v.field("b"@) == Some(JsonV::Whole(b)),
        stray_key(v->Object_0) is None,
    ensures
        r <= 255 && g <= 255 && b <= 255 ==> state_in(CapabilityKind::Color, v) == Ok::<
            CapabilityState,
            Seq<char>,
        >(CapabilityState::Color { r: r as u8, g: g as u8, b: b as u8 }),
        r > 255 || g > 255 || b > 255 ==> state_in(CapabilityKind::Color, v) is Err,
{
}

/// What a device last reported is what is shown of it.
pub proof fn reports_are_shown(known: Known, device: DeviceId, state: CapabilityState)
    ensures
        capability_value(reported(known, device, state), device, state.spec_kind()) == state_value(
            state,
        ),
        flag_held(state) is Some ==> capability_value(
            reported(known, device, state),
            device,
            state.spec_kind(),
        ) == JsonV::Flag(flag_held(state)->0),
        number_held(state) is Some ==> capability_value(
            reported(known, device, state),
            device,
            state.spec_kind(),
        ).integer() == Some(number_held(state)->0 as i64),
{
}

/// A device that is shown has its name, its room, and under the name of each capability
/// that it declares what it last reported.
pub proof fn devices_are_shown_with_their_state(
    m: MirrorV,
    e: EntryV,
    kind: CapabilityKind,
    state: CapabilityState,
)
    requires
        e.capabilities.contains(kind),
        known_state(m.known, e.id, kind) == Some(state),
    ensures
        ({
            let v = device_value(m, e);
            &&& v.field("name"@) == Some(JsonV::Text(e.name))
            &&& e.room is Some ==> v.field("room"@) == Some(JsonV::Text(e.room->0))
            &&& e.room is None ==> v.field("room"@) == Some(JsonV::Null)
            &&& v.field("synthetic"@) == Some(JsonV::Flag(e.synthetic))
            &&& v.field("capabilities"@) is Some
            &&& v.field("capabilities"@)->0.field(kind.spec_name()) == Some(state_value(state))
        }),
{
    reveal_strlit("name");
    reveal_strlit("room");
    reveal_strlit("synthetic");
    reveal_strlit("capabilities");
    reveal_strlit("events");
    assert("name"@.len() == 4 && "room"@.len() == 4 && "synthetic"@.len() == 9);
    assert("capabilities"@.len() == 12 && "name"@[0] == 'n' && "room"@[0] == 'r');
    declared_capabilities_appear(m.known, e.id, e.capabilities, kind);
    reveal_with_fuel(member, 6);
}

// ------------------------------------------------------------ requests

/// A body that holds one intent.
pub open spec fn intent(name: Seq<char>, value: JsonV) -> JsonV {
    JsonV::Object(seq![(name, value)])
}

proof fn lemma_intents()
    ensures
        "toggle"@ != "set"@,
        "adjust_brightness"@ != "set"@,
        "adjust_brightness"@ != "toggle"@,
        "send_ir_code"@ != "set"@,
        "send_ir_code"@ != "toggle"@,
        "send_ir_code"@ != "adjust_brightness"@,
{
    reveal_strlit("set");
    reveal_strlit("toggle");
    reveal_strlit("adjust_brightness");
    reveal_strlit("send_ir_code");
    assert("set"@.len() == 3 && "toggle"@.len() == 6);
    assert("adjust_brightness"@.len() == 17 && "send_ir_code"@.len() == 12);
}

/// To set a capability that the device declares and that can be set is to ask for just the
/// state that is written.
pub proof fn setting_asks_for_the_state(e: EntryV, s: CapabilityState, v: JsonV)
    requires
        e.capabilities.contains(s.spec_kind()),
        s.spec_kind().spec_is_writable(),
        state_in(s.spec_kind(), v) == Ok::<CapabilityState, Seq<char>>(s),
    ensures
        intent_in(e, intent("set"@, JsonV::Object(seq![(s.spec_kind().spec_name(), v)]))) == Ok::<
            DesiredV,
            crate::adapters::rest_api::routes::ResponseV,
        >(DesiredV::State(s)),
{
    capability_names_round_trip(s.spec_kind());
}

/// A switch is turned on by `true` and off by `false`, and a lamp gets the brightness that
/// is written.
pub proof fn switches_and_lamps_get_what_is_written(e: EntryV, on: bool, percent: u8)
    requires
        percent <= 100,
    ensures
        e.capabilities.contains(CapabilityKind::Switch) ==> intent_in(
            e,
            intent("set"@, intent("switch"@, JsonV::Flag(on))),
        ) == Ok::<DesiredV, crate::adapters::rest_api::routes::ResponseV>(
            DesiredV::State(CapabilityState::Switch(on)),
        ),
        e.capabilities.contains(CapabilityKind::Brightness) ==> intent_in(
            e,
            intent("set"@, intent("brightness"@, JsonV::Whole(percent as u64))),
        ) == Ok::<DesiredV, crate::adapters::rest_api::routes::ResponseV>(
            DesiredV::State(CapabilityState::Brightness(percent)),
        ),
{
    capability_names_round_trip(CapabilityKind::Switch);
    capability_names_round_trip(CapabilityKind::Brightness);
}

/// The other intents ask for what they say: to turn the switch around, to change the
/// brightness by just so much, to send just the code.
pub proof fn intents_ask_for_what_they_say(e: EntryV, v: JsonV, delta: i8, code: Seq<char>)
    ensures
        e.capabilities.contains(CapabilityKind::Switch) ==> intent_in(e, intent("toggle"@, v))
            == Ok::<DesiredV, crate::adapters::rest_api::routes::ResponseV>(DesiredV::Toggle),
        e.capabilities.contains(CapabilityKind::Brightness) && v.integer() == Some(delta as i64)
            ==> intent_in(e, intent("adjust_brightness"@, v)) == Ok::<
            DesiredV,
            crate::adapters::rest_api::routes::ResponseV,
        >(DesiredV::AdjustBrightness(delta)),
        e.capabilities.contains(CapabilityKind::IrTransmitter) && v == JsonV::Text(code)
            ==> intent_in(e, intent("send_ir_code"@, v)) == Ok::<
            DesiredV,
            crate::adapters::rest_api::routes::ResponseV,
        >(DesiredV::SendIr(code)),
{
    lemma_intents();
}

/// A device that does not declare a capability is not asked to take it on, and no sensor is
/// asked to change what it senses.
pub proof fn undeclared_capabilities_are_refused(e: EntryV, kind: CapabilityKind, v: JsonV)
    requires
        !e.capabilities.contains(kind) || !kind.spec_is_writable(),
    ensures
        intent_in(e, intent("set"@, intent(kind.spec_name(), v))) is Err,
        intent_in(e, intent("set"@, intent(kind.spec_name(), v)))->Err_0.status == 422,
{
    capability_names_round_trip(kind);
}

/// A posted intent becomes the request that it stands for, of the device in the path.
pub proof fn posted_intents_become_requests(
    dir: DirectoryV,
    m: MirrorV,
    path: Seq<char>,
    body: Seq<u8>,
    e: EntryV,
    v: JsonV,
    desired: DesiredV,
)
    requires
        segments(path, '/') == seq!["devices"@, e.name, "intent"@],
        device_of(dir, e.name) == Some(e),
        crate::json::json_parsed(body) == Ok::<JsonV, Seq<char>>(v),
        intent_in(e, v) == Ok::<DesiredV, crate::adapters::rest_api::routes::ResponseV>(desired),
    ensures
        routed(dir, m, "POST"@, path, body) is Request,
        inbound_event(routed(dir, m, "POST"@, path, body)->Request_0) == (EventV::RequestedChange {
            device: e.id,
            desired,
        }),
{
    reveal_strlit("devices");
    reveal_strlit("scenes");
    assert("devices"@.len() == 7 && "scenes"@.len() == 6);
}

/// A posted activation becomes the request for the scene in the path.
pub proof fn posted_activations_become_requests(
    dir: DirectoryV,
    m: MirrorV,
    path: Seq<char>,
    body: Seq<u8>,
    s: SceneV,
)
    requires
        segments(path, '/') == seq!["scenes"@, s.name, "activate"@],
        scene_of(dir, s.name) == Some(s),
    ensures
        routed(dir, m, "POST"@, path, body) is Request,
        inbound_event(routed(dir, m, "POST"@, path, body)->Request_0) == (EventV::RequestedScene {
            scene: s.id,
        }),
{
    reveal_strlit("devices");
    reveal_strlit("scenes");
    assert("devices"@.len() == 7 && "scenes"@.len() == 6);
}

/// A request enters the engine as the event that it stands for.
pub proof fn requests_enter_as_what_they_ask(
    device: DeviceId,
    desired: DesiredV,
    scene: SceneId,
    action: ActionId,
)
    ensures
        inbound_event(InboundV::Device { device, desired }) == (EventV::RequestedChange {
            device,
            desired,
        }),
        inbound_event(InboundV::Scene { scene }) == (EventV::RequestedScene { scene }),
        inbound_event(InboundV::Action { device, action }) == (EventV::Action { device, action }),
{
}

/// A device is found under its name, a scene under its, where no two share one.
pub proof fn names_find_their_device(dir: DirectoryV, i: int)
    requires
        0 <= i < dir.devices.len(),
        forall|j: int, k: int|
            0 <= j < k < dir.devices.len() ==> (#[trigger] dir.devices[j]).name != (
            #[trigger] dir.devices[k]).name && dir.devices[j].id != dir.devices[k].id,
    ensures
        device_of(dir, dir.devices[i].name) == Some(dir.devices[i]),
        shown_device(dir, dir.devices[i].id) == dir.devices[i].name,
{
    lemma_id_named(dir.devices, i);
    lemma_with_id(dir.devices, i);
}

proof fn lemma_id_named(devices: Seq<EntryV>, i: int)
    requires
        0 <= i < devices.len(),
        forall|j: int, k: int|
            0 <= j < k < devices.len() ==> (#[trigger] devices[j]).name != (
            #[trigger] devices[k]).name,
    ensures
        crate::adapters::rest_api::device_id_named(devices, devices[i].name) == Some(devices[i].id),
    decreases devices.len(),
{
    if i < devices.len() - 1 {
        assert(devices[i].name != devices[devices.len() - 1].name);
        lemma_id_named(devices.drop_last(), i);
    }
}

proof fn lemma_with_id(devices: Seq<EntryV>, i: int)
    requires
        0 <= i < devices.len(),
        forall|j: int, k: int|
            0 <= j < k < devices.len() ==> (#[trigger] devices[j]).id != (#[trigger] devices[k]).id,
    ensures
        device_with(devices, devices[i].id) == Some(devices[i]),
    decreases devices.len(),
{
    if i > 0 {
        assert(devices[0].id != devices[i].id);
        let rest = devices.drop_first();
        assert(rest[i - 1] == devices[i]);
        lemma_with_id(rest, i - 1);
    }
}

/// A request that was queued is accepted, and one that was not is told that the engine is
/// not there.
pub proof fn answers_tell_whether_it_was_queued(accepted: bool)
    ensures
        accepted ==> queued_of(accepted).status == 202,
        !accepted ==> queued_of(accepted).status == 503,
{
}

// ------------------------------------------------------------ who is let in

/// Where a token is set, a request that carries it is let in, whatever the case of the
/// scheme; one that carries another is forbidden, and one that carries none is not
/// authorized.
pub proof fn the_token_opens_the_door(expected: Seq<char>, given: Seq<char>)
    requires
        given.len() > 0,
        !crate::text::is_space(given[0]),
        !crate::text::is_space(given.last()),
    ensures
        auth_refusal(expected, None) is Some,
        auth_refusal(expected, None)->0.status == 401,
        given == expected ==> auth_refusal(expected, Some("Bearer "@ + given)) is None,
        given != expected ==> auth_refusal(expected, Some("Bearer "@ + given)) is Some
            && auth_refusal(expected, Some("Bearer "@ + given))->0.status == 403,
{
    reveal_strlit("Bearer ");
    reveal_strlit("bearer");
    let header = "Bearer "@ + given;
    assert("Bearer "@.len() == 7 && "bearer"@.len() == 6);
    assert(header[0] == 'B' && header[1] == 'e' && header[2] == 'a' && header[3] == 'r' && header[4]
        == 'e' && header[5] == 'r' && header[6] == ' ');
    assert forall|j: int| 0 <= j < 6 implies !any_space()(#[trigger] header[j]) by {}
    lemma_position(header, any_space(), 6);
    assert(header.skip(7) =~= given);
    assert(lowercase(header.take(6)) =~= lowercase("bearer"@)) by {
        let scheme = header.take(6);
        assert("bearer"@[0] == 'b' && "bearer"@[1] == 'e' && "bearer"@[2] == 'a' && "bearer"@[3]
            == 'r' && "bearer"@[4] == 'e' && "bearer"@[5] == 'r');
        assert forall|j: int| 0 <= j < 6 implies #[trigger] lower(scheme[j]) == lower(
            "bearer"@[j],
        ) by {
            assert(scheme[j] == header[j]);
        }
    }
    super::lower::texts_without_space_around_stay(given);
}

/// Only an address of the machine itself stays on the machine.
pub proof fn loopback_stays_local(
    v4: u32,
    v6: u128,
    resolved: Option<Seq<crate::adapters::interfaces::IfAddress>>,
)
    ensures
        stays_local(crate::adapters::interfaces::IfAddress::V4(0x7f00_0001), resolved),
        stays_local(crate::adapters::interfaces::IfAddress::V6(1), resolved),
        !stays_local(crate::adapters::interfaces::IfAddress::V4(0), resolved),
        !stays_local(crate::adapters::interfaces::IfAddress::V6(0), resolved),
        loopback(crate::adapters::interfaces::IfAddress::V4(v4)) <==> 0x7f00_0000 <= v4
            <= 0x7fff_ffff,
        loopback(crate::adapters::interfaces::IfAddress::V6(v6)) <==> v6 == 1,
{
}

// ------------------------------------------------------------ the stream

/// A folded state is told with the device's name, the capability's name and its value.
pub proof fn folded_states_are_told(dir: DirectoryV, device: DeviceId, state: CapabilityState)
    ensures
        ({
            let f = folded(dir, device, state);
            &&& f.event == "state"@
            &&& f.data.field("device"@) == Some(JsonV::Text(shown_device(dir, device)))
            &&& f.data.field("capability"@) == Some(JsonV::Text(state.spec_kind().spec_name()))
            &&& f.data.field("value"@) == Some(state_value(state))
        }),
{
    reveal_strlit("device");
    reveal_strlit("capability");
    reveal_strlit("value");
    assert("device"@.len() == 6 && "capability"@.len() == 10 && "value"@.len() == 5);
    reveal_with_fuel(member, 4);
}

/// A considered rule is told with its name, what its condition came to, and whether it
/// fired.
pub proof fn considered_rules_are_told(rule: Seq<char>, truth: Truth, fired: bool)
    ensures
        ({
            let f = rule_frame_of(rule, truth_text(truth), fired);
            &&& f.event == "rule"@
            &&& f.data.field("rule"@) == Some(JsonV::Text(rule))
            &&& f.data.field("truth"@) == Some(
                JsonV::Text(
                    match truth {
                        Truth::True => "true"@,
                        Truth::False => "false"@,
                        Truth::Unknown => "unknown"@,
                    },
                ),
            )
            &&& f.data.field("fired"@) == Some(JsonV::Flag(fired))
        }),
{
    reveal_strlit("rule");
    reveal_strlit("truth");
    reveal_strlit("fired");
    assert("rule"@.len() == 4 && "truth"@.len() == 5 && "fired"@.len() == 5);
    assert("truth"@[0] == 't' && "fired"@[0] == 'f');
    reveal_with_fuel(member, 4);
}

/// A failed command is told with the command, the reason and the number of attempts.
pub proof fn failures_are_told(command: JsonV, reason: Seq<char>, attempts: u32)
    ensures
        ({
            let f = command_failed_frame_of(command, reason, attempts);
            &&& f.event == "command_failed"@
            &&& f.data.field("command"@) == Some(command)
            &&& f.data.field("reason"@) == Some(JsonV::Text(reason))
            &&& f.data.field("attempts"@) == Some(JsonV::Whole(attempts as u64))
        }),
{
    reveal_strlit("command");
    reveal_strlit("reason");
    reveal_strlit("attempts");
    assert("command"@.len() == 7 && "reason"@.len() == 6 && "attempts"@.len() == 8);
    reveal_with_fuel(member, 4);
}

/// Of everything that the engine receives, presses are told, and nothing else is.
pub proof fn only_presses_are_told(dir: DirectoryV, event: EventV, depth: u32)
    ensures
        received_event(dir, event, depth) is Some <==> event is Action,
        event is Action ==> {
            let f = received_event(dir, event, depth)->0;
            &&& f.event == "action"@
            &&& f.data.field("device"@) == Some(
                JsonV::Text(shown_device(dir, event->Action_device)),
            )
            &&& f.data.field("depth"@) == Some(JsonV::Whole(depth as u64))
        },
{
    reveal_strlit("device");
    reveal_strlit("event");
    reveal_strlit("depth");
    assert("device"@.len() == 6 && "event"@.len() == 5 && "depth"@.len() == 5);
    assert("event"@[0] == 'e' && "depth"@[0] == 'd');
    reveal_with_fuel(member, 4);
}

/// A rule's status counts how often it fired, and knows when it was last looked at and when
/// it last fired.
pub proof fn statuses_follow_the_rule(s: RuleStatus, now: Millis, truth: Truth, fired: bool)
    requires
        s.fire_count < u64::MAX,
    ensures
        ({
            let after = considered_at(s, now, truth, fired);
            &&& after.last_considered_ms == Some(now)
            &&& after.last_truth == Some(truth)
            &&& fired ==> after.fire_count == s.fire_count + 1 && after.last_fired_ms == Some(now)
            &&& !fired ==> after.fire_count == s.fire_count && after.last_fired_ms
                == s.last_fired_ms
        }),
{
}

// ------------------------------------------------------------ rules in words

/// A comparison is spelled as what it tests.
pub proof fn comparisons_are_spelled_as_what_they_test(op: CmpOp, a: i64, b: i64)
    ensures
        op_text(op) == "lt"@ ==> (op.holds(a, b) <==> a < b),
        op_text(op) == "le"@ ==> (op.holds(a, b) <==> a <= b),
        op_text(op) == "eq"@ ==> (op.holds(a, b) <==> a == b),
        op_text(op) == "ne"@ ==> (op.holds(a, b) <==> a != b),
        op_text(op) == "ge"@ ==> (op.holds(a, b) <==> a >= b),
        op_text(op) == "gt"@ ==> (op.holds(a, b) <==> a > b),
        op_text(op) == "lt"@ || op_text(op) == "le"@ || op_text(op) == "eq"@ || op_text(op)
            == "ne"@ || op_text(op) == "ge"@ || op_text(op) == "gt"@,
{
    reveal_strlit("lt");
    reveal_strlit("le");
    reveal_strlit("eq");
    reveal_strlit("ne");
    reveal_strlit("ge");
    reveal_strlit("gt");
    assert("lt"@[0] == 'l' && "lt"@[1] == 't');
    assert("le"@[0] == 'l' && "le"@[1] == 'e');
    assert("eq"@[0] == 'e');
    assert("ne"@[0] == 'n');
    assert("ge"@[0] == 'g' && "ge"@[1] == 'e');
    assert("gt"@[0] == 'g' && "gt"@[1] == 't');
}

proof fn lemma_keys()
    ensures
        "type"@.len() == 4,
        "device"@.len() == 6,
        "capability"@.len() == 10,
        "value"@.len() == 5,
        "op"@.len() == 2,
        "of"@.len() == 2,
        "on"@.len() == 2,
        "by"@.len() == 2,
        "to"@.len() == 2,
        "key"@.len() == 3,
        "dir"@.len() == 3,
        "bound"@.len() == 5,
        "color"@.len() == 5,
        "mireds"@.len() == 6,
        "mireds"@ != "device"@,
        "scene"@.len() == 5,
        "schedule"@.len() == 8,
        "after_ms"@.len() == 8,
        "transition_ms"@.len() == 13,
{
    reveal_strlit("type");
    reveal_strlit("device");
    reveal_strlit("capability");
    reveal_strlit("value");
    reveal_strlit("op");
    reveal_strlit("of");
    reveal_strlit("on");
    reveal_strlit("by");
    reveal_strlit("to");
    reveal_strlit("key");
    reveal_strlit("dir");
    reveal_strlit("bound");
    reveal_strlit("color");
    reveal_strlit("mireds");
    reveal_strlit("scene");
    reveal_strlit("schedule");
    reveal_strlit("after_ms");
    reveal_strlit("transition_ms");
    assert("mireds"@[0] == 'm' && "device"@[0] == 'd');
}

/// A condition is shown as what it is: a conjunction as `and`, a disjunction as `or`, a
/// negation as `not`, each with its members, and a test with its device, what it tests and
/// the value it expects.
pub proof fn conditions_are_shown_as_they_are(dir: DirectoryV, c: ConditionV)
    ensures
        ({
            let v = condition_value(dir, c);
            match c {
                ConditionV::Always => v == JsonV::Flag(true),
                ConditionV::Not(inner) => v.field("type"@) == Some(JsonV::Text("not"@)) && v.field(
                    "of"@,
                ) == Some(condition_value(dir, *inner)),
                ConditionV::And(cs) => v.field("type"@) == Some(JsonV::Text("and"@)) && v.field(
                    "of"@,
                ) == Some(JsonV::List(condition_list(dir, cs, cs.len()))),
                ConditionV::Or(cs) => v.field("type"@) == Some(JsonV::Text("or"@)) && v.field(
                    "of"@,
                ) == Some(JsonV::List(condition_list(dir, cs, cs.len()))),
                ConditionV::BoolEquals { device, kind, value } => {
                    &&& v.field("type"@) == Some(JsonV::Text("bool_equals"@))
                    &&& v.field("device"@) == Some(JsonV::Text(shown_device(dir, device)))
                    &&& v.field("capability"@) == Some(JsonV::Text(kind.spec_name()))
                    &&& v.field("value"@) == Some(JsonV::Flag(value))
                },
                ConditionV::Compare { device, kind, op, value } => {
                    &&& v.field("type"@) == Some(JsonV::Text("compare"@))
                    &&& v.field("device"@) == Some(JsonV::Text(shown_device(dir, device)))
                    &&& v.field("capability"@) == Some(JsonV::Text(kind.spec_name()))
                    &&& v.field("op"@) == Some(JsonV::Text(op_text(op)))
                    &&& v.field("value"@) is Some
                    &&& v.field("value"@)->0.integer() == Some(value)
                },
                ConditionV::ColorEquals { device, r, g, b } => {
                    &&& v.field("type"@) == Some(JsonV::Text("color_equals"@))
                    &&& v.field("device"@) == Some(JsonV::Text(shown_device(dir, device)))
                    &&& v.field("color"@) == Some(state_value(CapabilityState::Color { r, g, b }))
                },
            }
        }),
{
    lemma_keys();
    reveal_with_fuel(member, 6);
}

/// The members of a condition are shown one by one, in their order.
pub proof fn members_are_shown_in_order(dir: DirectoryV, cs: Seq<ConditionV>, n: nat)
    requires
        n <= cs.len(),
    ensures
        condition_list(dir, cs, n).len() == n,
        forall|i: int|
            0 <= i < n ==> #[trigger] condition_list(dir, cs, n)[i] == condition_value(dir, cs[i]),
    decreases n,
{
    if n > 0 {
        members_are_shown_in_order(dir, cs, (n - 1) as nat);
    }
}

/// A trigger is shown as what it waits for.
pub proof fn triggers_are_shown_as_they_are(dir: DirectoryV, t: TriggerV)
    ensures
        ({
            let v = trigger_value(dir, t);
            match t {
                TriggerV::Changed { device, kind, to } => {
                    &&& v.field("type"@) == Some(JsonV::Text("changed"@))
                    &&& v.field("device"@) == Some(JsonV::Text(shown_device(dir, device)))
                    &&& v.field("capability"@) == Some(JsonV::Text(kind.spec_name()))
                    &&& v.field("to"@) == Some(JsonV::Flag(to))
                },
                TriggerV::Crosses { device, kind, bound, dir: way } => {
                    &&& v.field("type"@) == Some(JsonV::Text("crosses"@))
                    &&& v.field("device"@) == Some(JsonV::Text(shown_device(dir, device)))
                    &&& v.field("bound"@) is Some
                    &&& v.field("bound"@)->0.integer() == Some(bound)
                    &&& v.field("dir"@) == Some(
                        JsonV::Text(
                            match way {
                                CrossDir::Above => "above"@,
                                CrossDir::Below => "below"@,
                            },
                        ),
                    )
                },
                TriggerV::Reports { device, kind } => {
                    &&& v.field("type"@) == Some(JsonV::Text("reports"@))
                    &&& v.field("device"@) == Some(JsonV::Text(shown_device(dir, device)))
                    &&& v.field("capability"@) == Some(JsonV::Text(kind.spec_name()))
                },
                TriggerV::Timer { key } => v.field("type"@) == Some(JsonV::Text("timer"@))
                    && v.field("key"@) == Some(JsonV::Text(key)),
                TriggerV::Time { .. } => v.field("type"@) == Some(JsonV::Text("time"@)),
                TriggerV::CommandFailed { device } => {
                    &&& v.field("type"@) == Some(JsonV::Text("command_failed"@))
                    &&& device is Some ==> v.field("device"@) == Some(
                        JsonV::Text(shown_device(dir, device->0)),
                    )
                    &&& device is None ==> v.field("device"@) == Some(JsonV::Null)
                },
                TriggerV::Action { device, .. } => v.field("type"@) == Some(JsonV::Text("event"@))
                    && v.field("device"@) == Some(JsonV::Text(shown_device(dir, device))),
            }
        }),
{
    lemma_keys();
    reveal_with_fuel(member, 6);
}

/// A command is shown as what it does, to which device, and with which value.
pub proof fn commands_are_shown_as_they_are(dir: DirectoryV, c: CommandV)
    ensures
        ({
            let v = command_value(dir, c);
            &&& c.target() is Some ==> v.field("device"@) == Some(
                JsonV::Text(shown_device(dir, c.target()->0)),
            )
            &&& match c {
                CommandV::SetSwitch { on, .. } => v.field("type"@) == Some(
                    JsonV::Text("set_switch"@),
                ) && v.field("on"@) == Some(JsonV::Flag(on)),
                CommandV::ToggleSwitch { .. } => v.field("type"@) == Some(
                    JsonV::Text("toggle_switch"@),
                ),
                CommandV::SetBrightness { value, .. } => v.field("type"@) == Some(
                    JsonV::Text("set_brightness"@),
                ) && v.field("value"@) == Some(JsonV::Whole(value as u64)),
                CommandV::IncreaseBrightness { value, .. } => v.field("type"@) == Some(
                    JsonV::Text("increase_brightness"@),
                ) && v.field("by"@) == Some(JsonV::Whole(value as u64)),
                CommandV::DecreaseBrightness { value, .. } => v.field("type"@) == Some(
                    JsonV::Text("decrease_brightness"@),
                ) && v.field("by"@) == Some(JsonV::Whole(value as u64)),
                CommandV::SetColor { r, g, b, .. } => v.field("type"@) == Some(
                    JsonV::Text("set_color"@),
                ) && v.field("color"@) == Some(state_value(CapabilityState::Color { r, g, b })),
                CommandV::SetColorTemperature { mireds, .. } => v.field("type"@) == Some(
                    JsonV::Text("set_color_temperature"@),
                ) && v.field("mireds"@) == Some(JsonV::Whole(mireds as u64)),
                CommandV::ActivateScene { .. } => v.field("type"@) == Some(
                    JsonV::Text("activate_scene"@),
                ),
                CommandV::ScheduleTimer { key, after } => v.field("type"@) == Some(
                    JsonV::Text("schedule_timer"@),
                ) && v.field("key"@) == Some(JsonV::Text(key)) && v.field("after_ms"@) == Some(
                    JsonV::Whole(after),
                ),
                CommandV::CancelTimer { key } => v.field("type"@) == Some(
                    JsonV::Text("cancel_timer"@),
                ) && v.field("key"@) == Some(JsonV::Text(key)),
                CommandV::SendIrCode { .. } => v.field("type"@) == Some(
                    JsonV::Text("send_ir_code"@),
                ),
            }
        }),
{
    lemma_keys();
    reveal_with_fuel(member, 6);
}

/// A rule is shown with its name, its trigger, its condition, its commands in their order,
/// how long it waits, and what became of it.
pub proof fn rules_are_shown_as_they_are(dir: DirectoryV, m: MirrorV, r: RuleV)
    ensures
        ({
            let v = rule_report(dir, m, r);
            let s = crate::adapters::rest_api::status_of(m.rules, r.id);
            &&& v.field("name"@) == Some(JsonV::Text(r.name))
            &&& v.field("trigger"@) == Some(trigger_value(dir, r.trigger))
            &&& v.field("condition"@) == Some(condition_value(dir, r.condition))
            &&& r.for_duration is Some ==> v.field("for_ms"@) == Some(
                JsonV::Whole(r.for_duration->0),
            )
            &&& r.for_duration is None ==> v.field("for_ms"@) == Some(JsonV::Null)
            &&& v.field("fire_count"@) == Some(JsonV::Whole(s.fire_count))
            &&& s.last_fired_ms is Some ==> v.field("last_fired_ms"@) == Some(
                JsonV::Whole(s.last_fired_ms->0),
            )
            &&& s.last_considered_ms is Some ==> v.field("last_considered_ms"@) == Some(
                JsonV::Whole(s.last_considered_ms->0),
            )
            &&& s.last_truth is Some ==> v.field("last_truth"@) == Some(
                JsonV::Text(truth_text(s.last_truth->0)),
            )
        }),
{
    reveal_strlit("name");
    reveal_strlit("trigger");
    reveal_strlit("condition");
    reveal_strlit("then");
    reveal_strlit("for_ms");
    reveal_strlit("last_considered_ms");
    reveal_strlit("last_truth");
    reveal_strlit("last_fired_ms");
    reveal_strlit("fire_count");
    assert("name"@.len() == 4 && "trigger"@.len() == 7 && "condition"@.len() == 9);
    assert("then"@.len() == 4 && "for_ms"@.len() == 6 && "last_considered_ms"@.len() == 18);
    assert("last_truth"@.len() == 10 && "last_fired_ms"@.len() == 13 && "fire_count"@.len() == 10);
    assert("name"@[0] == 'n' && "then"@[0] == 't');
    assert("last_truth"@[0] == 'l' && "fire_count"@[0] == 'f');
    reveal_with_fuel(member, 11);
}

// ------------------------------------------------------------ reads

/// A device that is asked for is shown, and one that is not there is not found; so with
/// scenes and rules.
pub proof fn reads_are_answered(
    dir: DirectoryV,
    m: MirrorV,
    path: Seq<char>,
    name: Seq<char>,
    body: Seq<u8>,
)
    ensures
        ({
            let r = routed(dir, m, "GET"@, path, body);
            &&& segments(path, '/') == seq!["devices"@, name] ==> r is Reply && (match device_of(
                dir,
                name,
            ) {
                Some(e) => r->Reply_0.status == 200 && r->Reply_0.value == device_value(m, e),
                None => r->Reply_0.status == 404,
            })
            &&& segments(path, '/') == seq!["scenes"@, name] ==> r is Reply && (match scene_of(
                dir,
                name,
            ) {
                Some(s) => r->Reply_0.status == 200 && r->Reply_0.value == scene_value(dir, s),
                None => r->Reply_0.status == 404,
            })
            &&& segments(path, '/') == seq!["rules"@, name] ==> r is Reply && (match rule_of(
                dir,
                name,
            ) {
                Some(x) => r->Reply_0.status == 200 && r->Reply_0.value == rule_report(dir, m, x),
                None => r->Reply_0.status == 404,
            })
            &&& segments(path, '/') == seq!["system"@] ==> r is Reply && r->Reply_0.status == 200
            &&& segments(path, '/').len() == 0 ==> r is Reply && r->Reply_0.status == 404
        }),
{
    reveal_strlit("devices");
    reveal_strlit("scenes");
    reveal_strlit("rules");
    reveal_strlit("system");
    assert("devices"@.len() == 7 && "scenes"@.len() == 6 && "rules"@.len() == 5);
    assert("system"@.len() == 6 && "system"@[1] == 'y' && "scenes"@[1] == 'c');
}

/// The list of devices shows every one, in its place.
pub proof fn lists_show_every_device(
    dir: DirectoryV,
    m: MirrorV,
    path: Seq<char>,
    body: Seq<u8>,
    i: int,
)
    requires
        segments(path, '/') == seq!["devices"@],
        0 <= i < dir.devices.len(),
    ensures
        ({
            let r = routed(dir, m, "GET"@, path, body);
            &&& r is Reply
            &&& r->Reply_0.status == 200
            &&& r->Reply_0.value.field("devices"@) is Some
            &&& r->Reply_0.value.field("devices"@)->0 is List
            &&& r->Reply_0.value.field("devices"@)->0->List_0.len() == dir.devices.len()
            &&& r->Reply_0.value.field("devices"@)->0->List_0[i] == device_value(m, dir.devices[i])
        }),
{
    reveal_strlit("devices");
    reveal_strlit("system");
    assert("devices"@.len() == 7 && "system"@.len() == 6);
    reveal_with_fuel(member, 2);
}

/// A scene is shown with its name and its commands, each in its place.
pub proof fn scenes_are_shown_as_they_are(dir: DirectoryV, s: SceneV, i: int)
    requires
        0 <= i < s.commands.len(),
    ensures
        scene_value(dir, s).field("name"@) == Some(JsonV::Text(s.name)),
        scene_value(dir, s).field("commands"@) is Some,
        scene_value(dir, s).field("commands"@)->0 is List,
        scene_value(dir, s).field("commands"@)->0->List_0.len() == s.commands.len(),
        scene_value(dir, s).field("commands"@)->0->List_0[i] == command_value(dir, s.commands[i]),
{
    reveal_strlit("name");
    reveal_strlit("commands");
    assert("name"@.len() == 4 && "commands"@.len() == 8);
    reveal_with_fuel(member, 3);
}

/// The directory holds every configured device as it is, and the clock behind them, which
/// tells the time and the sun.
pub proof fn the_directory_holds_every_device(cfg: Resolution, i: int)
    requires
        0 <= i < cfg.devices.len(),
    ensures
        ({
            let dir = directory_of(cfg);
            let d = cfg.devices[i];
            &&& dir.devices.len() == cfg.devices.len() + 1
            &&& dir.devices[i].id == d.id
            &&& dir.devices[i].name == d.name
            &&& dir.devices[i].room == d.metadata.room
            &&& dir.devices[i].capabilities == d.capabilities
            &&& !dir.devices[i].synthetic
            &&& dir.devices.last().id == cfg.clock
            &&& dir.devices.last().name == "clock"@
            &&& dir.devices.last().synthetic
            &&& dir.devices.last().capabilities.contains(CapabilityKind::TimeOfDay)
            &&& dir.devices.last().capabilities.contains(CapabilityKind::SunUp)
            &&& dir.scenes == cfg.scenes
            &&& dir.rules == cfg.rules
            &&& dir.timezone == cfg.system.timezone
        }),
{
    let caps = directory_of(cfg).devices.last().capabilities;
    assert(caps[0] == CapabilityKind::TimeOfDay);
    assert(caps[1] == CapabilityKind::SunUp);
}

/// The engine at a glance is its name, its zone, its time, and how much it holds.
pub proof fn the_system_is_shown_as_it_is(dir: DirectoryV, m: MirrorV)
    ensures
        ({
            let v = system_value(dir, m);
            &&& dir.system_name is Some ==> v.field("name"@) == Some(
                JsonV::Text(dir.system_name->0),
            )
            &&& v.field("timezone"@) == Some(JsonV::Text(dir.timezone))
            &&& v.field("engine_now_ms"@) == Some(JsonV::Whole(m.now))
            &&& v.field("devices"@) == Some(JsonV::Whole(dir.devices.len() as u64))
            &&& v.field("scenes"@) == Some(JsonV::Whole(dir.scenes.len() as u64))
            &&& v.field("rules"@) == Some(JsonV::Whole(dir.rules.len() as u64))
        }),
{
    reveal_strlit("name");
    reveal_strlit("timezone");
    reveal_strlit("engine_now_ms");
    reveal_strlit("version");
    reveal_strlit("devices");
    reveal_strlit("scenes");
    reveal_strlit("rules");
    assert("name"@.len() == 4 && "timezone"@.len() == 8 && "engine_now_ms"@.len() == 13);
    assert("version"@.len() == 7 && "devices"@.len() == 7 && "scenes"@.len() == 6);
    assert("rules"@.len() == 5 && "version"@[0] == 'v' && "devices"@[0] == 'd');
    reveal_with_fuel(member, 9);
}

/// Whoever is let in and gets `/stream`, with or without a slash behind it, is streamed to;
/// whoever posts to it is not, and whoever is not let in is refused.
pub proof fn streams_are_served(
    dir: DirectoryV,
    m: MirrorV,
    token: Option<Seq<char>>,
    q: RequestV,
)
    ensures
        token_refusal(token, q) is None && q.method == "GET"@ && (q.path == "/stream"@ || q.path
            == "/stream/"@) ==> served(dir, m, token, q) is Stream,
        q.method == "POST"@ ==> !(served(dir, m, token, q) is Stream),
        token_refusal(token, q) is Some ==> served(dir, m, token, q) == ServedV::Routed(
            RoutedV::Reply(token_refusal(token, q)->0),
        ),
        token is None ==> token_refusal(token, q) is None,
        token is Some ==> token_refusal(token, q) == auth_refusal(token->0, q.authorization),
{
    reveal_strlit("GET");
    reveal_strlit("POST");
    reveal_strlit("/stream");
    reveal_strlit("/stream/");
    assert("GET"@.len() == 3 && "POST"@.len() == 4);
    reveal_with_fuel(without_slashes, 3);
    assert("/stream"@.last() == 'm');
    assert("/stream/"@.last() == '/');
    assert("/stream/"@.drop_last() =~= "/stream"@);
}

} // verus!
