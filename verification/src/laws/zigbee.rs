//! What zigbee2mqtt devices are told and what they say.

use vstd::prelude::*;

use super::json::members_are_found_under_their_keys;
use crate::adapters::zigbee2mqtt::{
    attribute_of, broker_of, load_body, loads_reported, message_events, outgoing_of, polled_events,
    prime_of, reported_events, topic_name, Load, MqttMessage, Setup,
};
use crate::adapters::{level_of, pct_of, Actions};
use crate::ids::DeviceId;
use crate::json::{json_read, JsonV};
use crate::model::{CapabilityKind, CapabilityState, CommandV, EventV, Millis};
use crate::text::{decimal, is_char, lemma_position};

verus! {

/// The member that speaks of a load: `state`, or `state_l1`, `state_l2` and so on where a
/// device has several.
pub open spec fn load_member(gang: Option<u16>) -> Seq<char> {
    match gang {
        Some(n) => "state_l"@ + decimal(n as nat),
        None => "state"@,
    }
}

/// A load is told `ON` to go on, `OFF` to go off and `TOGGLE` to turn around, under its own
/// member and no other.
pub proof fn loads_are_told_to_switch(gang: Option<u16>, device: DeviceId, on: bool)
    ensures
        load_body(gang, CommandV::SetSwitch { device, on: true }) == Some(
            JsonV::Object(seq![(load_member(gang), JsonV::Text("ON"@))]),
        ),
        load_body(gang, CommandV::SetSwitch { device, on: false }) == Some(
            JsonV::Object(seq![(load_member(gang), JsonV::Text("OFF"@))]),
        ),
        load_body(gang, CommandV::ToggleSwitch { device }) == Some(
            JsonV::Object(seq![(load_member(gang), JsonV::Text("TOGGLE"@))]),
        ),
{
    let k = load_member(gang);
    assert(Seq::empty().push((k, JsonV::Text("ON"@))) =~= seq![(k, JsonV::Text("ON"@))]);
    assert(Seq::empty().push((k, JsonV::Text("OFF"@))) =~= seq![(k, JsonV::Text("OFF"@))]);
    assert(Seq::empty().push((k, JsonV::Text("TOGGLE"@))) =~= seq![(k, JsonV::Text("TOGGLE"@))]);
}

/// The scale of levels runs with the percentages: 0 is 0, 254 is 100 percent, brighter is
/// never a lower level, and a level is two and a half times the percentage, to the nearest.
pub proof fn levels_run_with_percentages(p: int, q: int, raw: int)
    requires
        0 <= p <= q <= 100,
        0 <= raw <= 254,
    ensures
        level_of(0) == 0,
        level_of(100) == 254,
        level_of(p) <= level_of(q),
        254 * p - 50 <= 100 * level_of(p) <= 254 * p + 50,
        pct_of(0) == 0,
        pct_of(254) == 100,
        100 * raw - 127 <= 254 * pct_of(raw) <= 100 * raw + 127,
{
}

/// A lamp is told the level of the brightness, and to fade for as many whole seconds as
/// were asked for.
pub proof fn lamps_are_told_their_level(
    gang: Option<u16>,
    device: DeviceId,
    value: u8,
    transition: Option<Millis>,
)
    requires
        value <= 100,
    ensures
        ({
            let body = load_body(gang, CommandV::SetBrightness { device, value, transition });
            &&& body is Some
            &&& body->0.field("brightness"@) is Some
            &&& body->0.field("brightness"@)->0 is Whole
            &&& ({
                let level = body->0.field("brightness"@)->0->Whole_0;
                254 * value - 50 <= 100 * level <= 254 * value + 50
            })
            &&& transition is None ==> body->0.field("transition"@) is None
            &&& transition is Some ==> body->0.field("transition"@) == Some(
                JsonV::Whole((transition->0 / 1000) as u64),
            )
        }),
{
    reveal_strlit("brightness");
    reveal_strlit("transition");
    assert("brightness"@.len() == 10 && "transition"@.len() == 10);
    assert("brightness"@[0] == 'b' && "transition"@[0] == 't');
    let level = JsonV::Whole(level_of(value as int) as u64);
    let one = JsonV::object().with("brightness"@, level);
    members_are_found_under_their_keys(JsonV::object(), "brightness"@, level, "transition"@);
    members_are_found_under_their_keys(JsonV::object(), "transition"@, level, "brightness"@);
    if transition is Some {
        members_are_found_under_their_keys(
            one,
            "transition"@,
            JsonV::Whole((transition->0 / 1000) as u64),
            "brightness"@,
        );
    }
}

/// What z2m has no word for is not sent.
pub proof fn other_commands_are_not_sent(gang: Option<u16>, cmd: CommandV)
    requires
        cmd is SetColor || cmd is SetColorTemperature || cmd is SendIrCode || cmd is ActivateScene
            || cmd is ScheduleTimer || cmd is CancelTimer || cmd is IncreaseBrightness || cmd is
            DecreaseBrightness,
    ensures
        load_body(gang, cmd) is None,
{
}

/// The report of a switch, if the member of the load is a text: on exactly if it says `ON`.
pub open spec fn switch_report(device: DeviceId, gang: Option<u16>, j: JsonV) -> Seq<EventV> {
    match j.field(load_member(gang)) {
        Some(JsonV::Text(s)) => seq![
            EventV::StateReported {
                device,
                state: CapabilityState::Switch(
                    s =~= seq!['O', 'N'] || s =~= seq!['o', 'n'] || s =~= seq!['O', 'n'] || s
                        =~= seq!['o', 'N'],
                ),
            },
        ],
        _ => Seq::empty(),
    }
}

/// A device is known to be just what it reports: on where it says `ON`, occupied where it
/// says so, the battery as it says and never more than full.
pub proof fn devices_are_as_they_report(
    actions: Actions,
    device: DeviceId,
    gang: Option<u16>,
    j: JsonV,
    level: u64,
    occupied: bool,
    charge: u64,
    raw: Seq<char>,
)
    requires
        j.field("brightness"@) == Some(JsonV::Whole(level)),
        j.field("occupancy"@) == Some(JsonV::Flag(occupied)),
        j.field("battery"@) == Some(JsonV::Whole(charge)),
        j.field("action"@) == Some(JsonV::Text(raw)),
    ensures
        reported_events(actions, device, gang, j) == switch_report(device, gang, j) + seq![
            EventV::StateReported {
                device,
                state: CapabilityState::Brightness(pct_of(level as int) as u8),
            },
            EventV::OccupancyChanged { device, occupied },
            EventV::StateReported {
                device,
                state: CapabilityState::Battery(if charge <= 100 { charge as u8 } else { 100 }),
            },
        ] + (if actions.contains_key((device, raw)) {
            seq![EventV::Action { device, action: actions[(device, raw)] }]
        } else {
            Seq::empty()
        }),
{
    let key = load_member(gang);
    if j.field(key) is Some && j.field(key)->0 is Text {
        let s = j.field(key)->0->Text_0;
        if s.len() == 2 {
            assert(s =~= seq![s[0], s[1]]);
        }
    }
    assert(reported_events(actions, device, gang, j) =~= switch_report(device, gang, j) + seq![
        EventV::StateReported {
            device,
            state: CapabilityState::Brightness(pct_of(level as int) as u8),
        },
        EventV::OccupancyChanged { device, occupied },
        EventV::StateReported {
            device,
            state: CapabilityState::Battery(if charge <= 100 { charge as u8 } else { 100 }),
        },
    ] + (if actions.contains_key((device, raw)) {
        seq![EventV::Action { device, action: actions[(device, raw)] }]
    } else {
        Seq::empty()
    }));
}

/// A device that says nothing of a thing is not heard on it: each member speaks only for
/// itself.
pub proof fn members_speak_for_themselves(
    actions: Actions,
    device: DeviceId,
    gang: Option<u16>,
    j: JsonV,
    level: u64,
    occupied: bool,
    charge: u64,
    raw: Seq<char>,
)
    requires
        j.field("brightness"@) is None || j.field("brightness"@) == Some(JsonV::Whole(level)),
        j.field("occupancy"@) is None || j.field("occupancy"@) == Some(JsonV::Flag(occupied)),
        j.field("battery"@) is None || j.field("battery"@) == Some(JsonV::Whole(charge)),
        j.field("action"@) is None,
    ensures
        ({
            let evs = reported_events(actions, device, gang, j);
            &&& j.field("brightness"@) is None && j.field("occupancy"@) is None && j.field(
                "battery"@,
            ) is None ==> evs == switch_report(device, gang, j)
            &&& j.field(load_member(gang)) is None && j.field("brightness"@) is Some && j.field(
                "occupancy"@,
            ) is None && j.field("battery"@) is None ==> evs == seq![
                EventV::StateReported {
                    device,
                    state: CapabilityState::Brightness(pct_of(level as int) as u8),
                },
            ]
            &&& j.field(load_member(gang)) is None && j.field("brightness"@) is None && j.field(
                "occupancy"@,
            ) is Some && j.field("battery"@) is None ==> evs == seq![
                EventV::OccupancyChanged { device, occupied },
            ]
            &&& j.field(load_member(gang)) is None && j.field("brightness"@) is None && j.field(
                "occupancy"@,
            ) is None && j.field("battery"@) is Some ==> evs == seq![
                EventV::StateReported {
                    device,
                    state: CapabilityState::Battery(if charge <= 100 { charge as u8 } else { 100 }),
                },
            ]
        }),
{
    let key = load_member(gang);
    if j.field(key) is Some && j.field(key)->0 is Text {
        let s = j.field(key)->0->Text_0;
        if s.len() == 2 {
            assert(s =~= seq![s[0], s[1]]);
        }
    }
    assert(reported_events(actions, device, gang, j) =~= reported_events(actions, device, gang, j));
}

/// A device speaks under the topic of its name, and is told things under `set` below it.
pub proof fn topics_are_named_after_the_device(base: Seq<char>, name: Seq<char>)
    requires
        forall|i: int| 0 <= i < name.len() ==> #[trigger] name[i] != '/',
    ensures
        topic_name(base, base + "/"@ + name) == Some(name),
        topic_name(base, base + "/"@ + name + "/set"@) is None,
{
    reveal_strlit("/");
    reveal_strlit("/set");
    let prefix = base + "/"@;
    let topic = prefix + name;
    assert(topic.take(prefix.len() as int) =~= prefix);
    assert(topic.skip(prefix.len() as int) =~= name);
    assert forall|j: int| 0 <= j < name.len() implies !is_char('/')(#[trigger] name[j]) by {}
    lemma_position(name, is_char('/'), name.len() as int);
    let deeper = prefix + name + "/set"@;
    let tail = name + "/set"@;
    assert(deeper.take(prefix.len() as int) =~= prefix);
    assert(deeper.skip(prefix.len() as int) =~= tail);
    assert forall|j: int| 0 <= j < name.len() implies !is_char('/')(#[trigger] tail[j]) by {
        assert(tail[j] == name[j]);
    }
    assert(tail[name.len() as int] == '/');
    lemma_position(tail, is_char('/'), name.len() as int);
}

/// A command is published under the topic of the device that it is for, with what that
/// device's load is told; a device that is not known is refused.
pub proof fn commands_go_to_the_device_they_are_for(setup: Setup, cmd: CommandV, device: DeviceId)
    requires
        cmd.target() == Some(device),
    ensures
        setup.loads.contains_key(device) && (cmd is SetSwitch || cmd is SetBrightness || cmd is
            ToggleSwitch) ==> {
            &&& outgoing_of(setup, cmd) is Ok
            &&& outgoing_of(setup, cmd)->Ok_0.0 == setup.base + "/"@ + setup.loads[device].name@
                + "/set"@
            &&& Some(outgoing_of(setup, cmd)->Ok_0.1) == load_body(setup.loads[device].gang, cmd)
        },
        !setup.loads.contains_key(device) ==> outgoing_of(setup, cmd) is Err,
        load_body(setup.loads[device].gang, cmd) is None ==> outgoing_of(setup, cmd) is Err,
{
}

/// At the start a device is asked, under `get`, for what it can be asked for: its switch, its
/// brightness and its color temperature.
pub proof fn devices_are_asked_at_the_start(
    base: Seq<char>,
    loads: Map<DeviceId, Load>,
    caps: Seq<(DeviceId, Vec<CapabilityKind>)>,
    n: nat,
    gang: Option<u16>,
    kind: CapabilityKind,
)
    requires
        0 < n <= caps.len(),
        loads.contains_key(caps[n - 1].0),
        caps[n - 1].1@.contains(CapabilityKind::Switch),
    ensures
        attribute_of(gang, CapabilityKind::Switch) == Some(load_member(gang)),
        attribute_of(gang, CapabilityKind::Brightness) == Some("brightness"@),
        attribute_of(gang, CapabilityKind::ColorTemperature) == Some("color_temp"@),
        kind != CapabilityKind::Switch && kind != CapabilityKind::Brightness && kind
            != CapabilityKind::ColorTemperature ==> attribute_of(gang, kind) is None,
        prime_of(base, loads, caps, n).len() > 0,
        prime_of(base, loads, caps, n).last().0 == base + "/"@ + loads[caps[n - 1].0].name@
            + "/get"@,
{
    let kinds = caps[n - 1].1@;
    let i = choose|i: int| 0 <= i < kinds.len() && kinds[i] == CapabilityKind::Switch;
    assert(attribute_of(None, kinds[i]) is Some);
}

/// What a device reports is heard by every load of its name, and by no other.
pub proof fn reports_are_heard_by_the_loads_of_the_name(
    order: Seq<(Seq<char>, Option<u16>)>,
    ids: Map<(Seq<char>, Option<u16>), DeviceId>,
    actions: Actions,
    name: Seq<char>,
    gang: Option<u16>,
    other: Seq<char>,
    j: JsonV,
)
    requires
        other != name,
    ensures
        loads_reported(order.push((name, gang)), ids, actions, name, j) == loads_reported(
            order,
            ids,
            actions,
            name,
            j,
        ) + reported_events(actions, ids[(name, gang)], gang, j),
        loads_reported(order.push((other, gang)), ids, actions, name, j) == loads_reported(
            order,
            ids,
            actions,
            name,
            j,
        ),
        loads_reported(Seq::empty(), ids, actions, name, j).len() == 0,
{
    assert(order.push((name, gang)).drop_last() =~= order);
    assert(order.push((other, gang)).drop_last() =~= order);
}

/// A broker is given by its host and port, and without a port it is the usual one.
pub proof fn brokers_are_given_by_host_and_port(host: Seq<char>, port: u16)
    requires
        host.len() > 0,
        forall|i: int| 0 <= i < host.len() ==> #[trigger] host[i] != ':' && host[i] != '/',
    ensures
        broker_of("mqtt://"@ + host + ":"@ + decimal(port as nat)) == Some((host, port as nat)),
        broker_of("mqtt://"@ + host) == Some((host, 1883nat)),
{
    reveal_strlit("mqtt://");
    reveal_strlit(":");
    let d = decimal(port as nat);
    super::lower::lemma_decimal_plain(port as nat);
    crate::text::decimal_is_parsed_back(port as nat);
    let a = "mqtt://"@ + host + ":"@ + d;
    let b = "mqtt://"@ + host;
    let rest = host + ":"@ + d;
    assert(a.take(7) =~= "mqtt://"@);
    assert(b.take(7) =~= "mqtt://"@);
    assert(a.skip(7) =~= rest);
    assert(b.skip(7) =~= host);
    assert(rest.last() == d.last());
    assert(host[host.len() - 1] != '/');
    assert(":"@ =~= seq![':']);
    assert forall|i: int| 0 <= i < d.len() implies #[trigger] d[i] != ':' by {}
    super::text::texts_are_cut_in_two(host, d, ':');
    lemma_no_last(host, ':');
}

proof fn lemma_no_last(s: Seq<char>, c: char)
    requires
        forall|i: int| 0 <= i < s.len() ==> #[trigger] s[i] != c,
    ensures
        crate::text::last_position(s, c) == -1,
    decreases s.len(),
{
    if s.len() > 0 {
        let t = s.drop_last();
        assert forall|i: int| 0 <= i < t.len() implies #[trigger] t[i] != c by {
            assert(t[i] == s[i]);
        }
        lemma_no_last(t, c);
        assert(s[s.len() - 1] != c);
    }
}

/// What devices say is heard in the order in which they say it.
pub proof fn messages_are_heard_in_order(
    base: Seq<char>,
    order: Seq<(Seq<char>, Option<u16>)>,
    ids: Map<(Seq<char>, Option<u16>), DeviceId>,
    actions: Actions,
    msgs: Seq<MqttMessage>,
    msg: MqttMessage,
)
    ensures
        polled_events(base, order, ids, actions, msgs.push(msg)) == polled_events(
            base,
            order,
            ids,
            actions,
            msgs,
        ) + message_events(base, order, ids, actions, msg.topic@, msg.payload@),
        polled_events(base, order, ids, actions, Seq::empty()).len() == 0,
{
    assert(msgs.push(msg).drop_last() =~= msgs);
}

/// A message under the topic of a device is read as what its JSON reports of the loads of
/// that name; what is not JSON says nothing.
pub proof fn messages_are_read_by_topic(
    base: Seq<char>,
    name: Seq<char>,
    order: Seq<(Seq<char>, Option<u16>)>,
    ids: Map<(Seq<char>, Option<u16>), DeviceId>,
    actions: Actions,
    payload: Seq<u8>,
)
    requires
        forall|i: int| 0 <= i < name.len() ==> #[trigger] name[i] != '/',
    ensures
        match json_read(payload) {
            Some(j) => message_events(base, order, ids, actions, base + "/"@ + name, payload)
                == loads_reported(order, ids, actions, name, j),
            None => message_events(
                base,
                order,
                ids,
                actions,
                base + "/"@ + name,
                payload,
            ).len() == 0,
        },
{
    topics_are_named_after_the_device(base, name);
}

} // verus!
