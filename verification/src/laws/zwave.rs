//! What Z-Wave nodes are told and what they say.

use vstd::prelude::*;

use super::color::{mixes_are_between_warm_and_cold, warmer_is_warmer};
use super::json::members_are_found_under_their_keys;
use crate::adapters::zwavejs::{
    event_update, homes_of, kind_from, node_values, outgoing_of, polled_events, residents,
    schema_of, set_value_of, set_value_value, targets_of, update_events, zwave_level, zwave_pct,
    Address, DeviceKind, EndpointId, NodeId, SetV, UpdateV,
};
use crate::adapters::Actions;
use crate::compile::resolve::DeviceV;
use crate::ids::DeviceId;
use crate::json::JsonV;
use crate::model::{CapabilityKind, CapabilityState, CommandV, EventV, Millis};
use crate::text::{decimal, decimal_is_parsed_back};

verus! {

/// A report of a node that is known: the value of a property of a command class, as it is
/// now.
pub open spec fn report_of(
    address: Address,
    command_class: u16,
    property: Seq<char>,
    value: JsonV,
) -> UpdateV {
    UpdateV {
        node: address.0,
        endpoint: address.1,
        command_class,
        property,
        property_key: None,
        value,
        notification: false,
    }
}

proof fn lemma_words()
    ensures
        "currentValue"@.len() == 12,
        "currentColor"@.len() == 12,
        "currentValue"@ != "currentColor"@,
        "level"@.len() == 5,
        "scene"@.len() == 5,
        "scene"@ != "level"@,
        "Home Security"@.len() == 13,
        "red"@.len() == 3,
        "green"@.len() == 5,
        "blue"@.len() == 4,
        "warmWhite"@.len() == 9,
        "coldWhite"@.len() == 9,
        "warmWhite"@ != "coldWhite"@,
{
    reveal_strlit("currentValue");
    reveal_strlit("currentColor");
    reveal_strlit("level");
    reveal_strlit("scene");
    reveal_strlit("Home Security");
    reveal_strlit("red");
    reveal_strlit("green");
    reveal_strlit("blue");
    reveal_strlit("warmWhite");
    reveal_strlit("coldWhite");
    assert("currentValue"@[7] == 'V' && "currentColor"@[7] == 'C');
    assert("scene"@[0] == 's' && "level"@[0] == 'l');
    assert("warmWhite"@[0] == 'w' && "coldWhite"@[0] == 'c');
}

/// A relay that is told to switch gets the flag to set, under Binary Switch. Once it reports
/// that flag as its value, it is known to be as it was told, and nothing else is.
pub proof fn relays_switch_as_told(
    by_node: Map<Address, DeviceId>,
    actions: Actions,
    address: Address,
    device: DeviceId,
    on: bool,
)
    requires
        by_node.contains_key(address),
        by_node[address] == device,
    ensures
        ({
            let set = set_value_of(DeviceKind::Switch, CommandV::SetSwitch { device, on });
            &&& set is Some
            &&& set->0.command_class == 37
            &&& set->0.property == "targetValue"@
            &&& set->0.value == JsonV::Flag(on)
            &&& update_events(
                by_node,
                actions,
                report_of(address, set->0.command_class, "currentValue"@, set->0.value),
            ) == seq![EventV::StateReported { device, state: CapabilityState::Switch(on) }]
        }),
{
    lemma_words();
}

/// Every relay that reports its value is known to be on or off just as it says.
pub proof fn relays_are_as_they_report(
    by_node: Map<Address, DeviceId>,
    actions: Actions,
    address: Address,
    device: DeviceId,
    on: bool,
)
    requires
        by_node.contains_key(address),
        by_node[address] == device,
    ensures
        update_events(
            by_node,
            actions,
            report_of(address, 37, "currentValue"@, JsonV::Flag(on)),
        ) == seq![EventV::StateReported { device, state: CapabilityState::Switch(on) }],
{
    lemma_words();
}

/// A dimmer that is told to switch gets a level to set, under Multilevel Switch, that is
/// not 0 exactly if it is to go on. Once it reports a level, it is known to be on exactly
/// if the level is not 0.
pub proof fn dimmers_switch_as_told(
    by_node: Map<Address, DeviceId>,
    actions: Actions,
    address: Address,
    device: DeviceId,
    on: bool,
)
    requires
        by_node.contains_key(address),
        by_node[address] == device,
    ensures
        ({
            let set = set_value_of(DeviceKind::Dimmer, CommandV::SetSwitch { device, on });
            &&& set is Some
            &&& set->0.command_class == 38
            &&& set->0.property == "targetValue"@
            &&& set->0.value == JsonV::Whole(if on { 255 } else { 0 })
            &&& update_events(
                by_node,
                actions,
                report_of(address, set->0.command_class, "currentValue"@, set->0.value),
            ).contains(EventV::StateReported { device, state: CapabilityState::Switch(on) })
        }),
{
    lemma_words();
    let set = set_value_of(DeviceKind::Dimmer, CommandV::SetSwitch { device, on })->0;
    let evs = update_events(by_node, actions, report_of(address, 38, "currentValue"@, set.value));
    assert(evs[1] == (EventV::StateReported { device, state: CapabilityState::Switch(on) }));
}

/// The scale of levels runs with the percentages: 0 is 0, 99 is 100 percent, and brighter
/// is never a lower level. A level and its percentage are within a percent of each other.
pub proof fn levels_run_with_percentages(p: int, q: int, level: int)
    requires
        0 <= p <= q <= 100,
        0 <= level <= 99,
    ensures
        zwave_level(0) == 0,
        zwave_level(100) == 99,
        zwave_level(p) <= zwave_level(q),
        p - 1 <= zwave_level(p) <= p,
        zwave_pct(0) == 0,
        zwave_pct(99) == 100,
        level <= zwave_pct(level) <= level + 1,
{
}

/// The report of a brightness and of a switch, in that order, and of nothing else.
pub open spec fn dimmer_report(device: DeviceId, shown: u8, on: bool) -> Seq<EventV> {
    seq![
        EventV::StateReported { device, state: CapabilityState::Brightness(shown) },
        EventV::StateReported { device, state: CapabilityState::Switch(on) },
    ]
}

/// A dimmer that is told a brightness gets the level of that brightness, with the fade that
/// was asked for. Once it reports that level, it is known to be within a percent of the
/// brightness, and on exactly if the level is not 0.
pub proof fn dimmers_dim_as_told(
    by_node: Map<Address, DeviceId>,
    actions: Actions,
    address: Address,
    kind: DeviceKind,
    device: DeviceId,
    value: u8,
    transition: Option<Millis>,
)
    requires
        by_node.contains_key(address),
        by_node[address] == device,
        value <= 100,
    ensures
        ({
            let set = set_value_of(kind, CommandV::SetBrightness { device, value, transition });
            &&& set is Some
            &&& set->0.command_class == 38
            &&& set->0.property == "targetValue"@
            &&& set->0.transition == transition
            &&& set->0.value is Whole
            &&& exists|shown: u8, on: bool|
                {
                    &&& update_events(
                        by_node,
                        actions,
                        report_of(address, 38, "currentValue"@, set->0.value),
                    ) == #[trigger] dimmer_report(device, shown, on)
                    &&& on <==> set->0.value->Whole_0 > 0
                    &&& value - 1 <= shown <= value + 1
                    &&& value == 0 ==> shown == 0
                    &&& value == 100 ==> shown == 100
                }
        }),
{
    lemma_words();
    let set = set_value_of(kind, CommandV::SetBrightness { device, value, transition })->0;
    let level = zwave_level(value as int);
    levels_run_with_percentages(value as int, value as int, level);
    crate::adapters::zwavejs::percentage_survives_zwave_level(value as int);
    let shown = zwave_pct(level) as u8;
    let evs = update_events(by_node, actions, report_of(address, 38, "currentValue"@, set.value));
    assert(evs =~= dimmer_report(device, shown, level > 0));
}

/// What two members of an object hold.
proof fn lemma_two(a: Seq<char>, x: JsonV, b: Seq<char>, y: JsonV)
    requires
        a != b,
    ensures
        ({
            let v = JsonV::object().with(a, x).with(b, y);
            &&& v.field(a) == Some(x)
            &&& v.field(b) == Some(y)
        }),
{
    members_are_found_under_their_keys(JsonV::object(), a, x, b);
    members_are_found_under_their_keys(JsonV::object(), b, x, a);
    members_are_found_under_their_keys(JsonV::object().with(a, x), b, y, a);
}

/// A lamp that is told a color gets just those channels to set, under Color Switch, with the
/// fade that was asked for. Once it reports them, it is known to be of just that color.
pub proof fn lamps_take_the_color_they_are_told(
    by_node: Map<Address, DeviceId>,
    actions: Actions,
    address: Address,
    kind: DeviceKind,
    device: DeviceId,
    r: u8,
    g: u8,
    b: u8,
    transition: Option<Millis>,
)
    requires
        by_node.contains_key(address),
        by_node[address] == device,
    ensures
        ({
            let set = set_value_of(kind, CommandV::SetColor { device, r, g, b, transition });
            &&& set is Some
            &&& set->0.command_class == 51
            &&& set->0.property == "targetColor"@
            &&& set->0.transition == transition
            &&& set->0.value.field("red"@) == Some(JsonV::Whole(r as u64))
            &&& set->0.value.field("green"@) == Some(JsonV::Whole(g as u64))
            &&& set->0.value.field("blue"@) == Some(JsonV::Whole(b as u64))
            &&& update_events(
                by_node,
                actions,
                report_of(address, 51, "currentColor"@, set->0.value),
            ) == seq![EventV::StateReported { device, state: CapabilityState::Color { r, g, b } }]
        }),
{
    lemma_words();
    let one = JsonV::object().with("red"@, JsonV::Whole(r as u64));
    let two = one.with("green"@, JsonV::Whole(g as u64));
    lemma_two("red"@, JsonV::Whole(r as u64), "green"@, JsonV::Whole(g as u64));
    members_are_found_under_their_keys(JsonV::object(), "red"@, JsonV::Null, "blue"@);
    members_are_found_under_their_keys(JsonV::object(), "blue"@, JsonV::Null, "red"@);
    members_are_found_under_their_keys(
        JsonV::object(),
        "red"@,
        JsonV::Whole(r as u64),
        "blue"@,
    );
    members_are_found_under_their_keys(one, "green"@, JsonV::Whole(g as u64), "blue"@);
    members_are_found_under_their_keys(two, "blue"@, JsonV::Whole(b as u64), "red"@);
    members_are_found_under_their_keys(two, "blue"@, JsonV::Whole(b as u64), "green"@);
}

/// Any color that a node reports is the one that it is known to be of.
pub proof fn lamps_are_of_the_color_they_report(
    by_node: Map<Address, DeviceId>,
    actions: Actions,
    address: Address,
    device: DeviceId,
    value: JsonV,
    r: u8,
    g: u8,
    b: u8,
)
    requires
        by_node.contains_key(address),
        by_node[address] == device,
        value.field("red"@) == Some(JsonV::Whole(r as u64)),
        value.field("green"@) == Some(JsonV::Whole(g as u64)),
        value.field("blue"@) == Some(JsonV::Whole(b as u64)),
    ensures
        update_events(by_node, actions, report_of(address, 51, "currentColor"@, value)) == seq![
            EventV::StateReported { device, state: CapabilityState::Color { r, g, b } },
        ],
{
    lemma_words();
}

/// A lamp that is told a color temperature gets a mix of warm and cold white, with the fade
/// that was asked for: the warmer the temperature, the more warm and the less cold. Where it
/// is as warm as can be the mix is all warm, and where it is as cold as can be all cold.
pub proof fn lamps_take_the_temperature_they_are_told(
    kind: DeviceKind,
    device: DeviceId,
    mireds: u16,
    warmer: u16,
    transition: Option<Millis>,
)
    requires
        1 <= mireds <= warmer,
    ensures
        ({
            let set = set_value_of(
                kind,
                CommandV::SetColorTemperature { device, mireds, transition },
            )->0;
            let other = set_value_of(
                kind,
                CommandV::SetColorTemperature { device, mireds: warmer, transition },
            )->0;
            let warm = set.value.field("warmWhite"@)->0->Whole_0;
            let cold = set.value.field("coldWhite"@)->0->Whole_0;
            &&& set.command_class == 51
            &&& set.property == "targetColor"@
            &&& set.transition == transition
            &&& set.value.field("warmWhite"@) == Some(JsonV::Whole(warm))
            &&& set.value.field("coldWhite"@) == Some(JsonV::Whole(cold))
            &&& warm <= 255 && cold <= 255
            &&& 254 <= warm + cold <= 255
            &&& other.value.field("warmWhite"@)->0->Whole_0 >= warm
            &&& other.value.field("coldWhite"@)->0->Whole_0 <= cold
            &&& mireds >= 371 ==> warm == 255 && cold == 0
            &&& mireds <= 153 ==> warm == 0 && cold == 255
        }),
{
    lemma_words();
    warmer_is_warmer(mireds as int, warmer as int);
    let a = crate::color::warm_cold(mireds as int);
    let b = crate::color::warm_cold(warmer as int);
    lemma_two("warmWhite"@, JsonV::Whole(a.0 as u64), "coldWhite"@, JsonV::Whole(a.1 as u64));
    lemma_two("warmWhite"@, JsonV::Whole(b.0 as u64), "coldWhite"@, JsonV::Whole(b.1 as u64));
}

/// The report of a color temperature, and of nothing else.
pub open spec fn temperature_report(device: DeviceId, mireds: u16) -> Seq<EventV> {
    seq![EventV::StateReported { device, state: CapabilityState::ColorTemperature(mireds) }]
}

/// A reported mix of warm and cold white is known as a temperature between the warmest and
/// the coldest, and more cold white is never warmer. Nothing is known of a lamp whose
/// whites are both off.
pub proof fn lamps_are_as_warm_as_they_report(
    by_node: Map<Address, DeviceId>,
    actions: Actions,
    address: Address,
    device: DeviceId,
    value: JsonV,
    warm: u64,
    cold: u64,
)
    requires
        by_node.contains_key(address),
        by_node[address] == device,
        value.field("red"@) is None,
        value.field("warmWhite"@) == Some(JsonV::Whole(warm)),
        value.field("coldWhite"@) == Some(JsonV::Whole(cold)),
    ensures
        ({
            let evs = update_events(
                by_node,
                actions,
                report_of(address, 51, "currentColor"@, value),
            );
            &&& warm == 0 && cold == 0 ==> evs.len() == 0
            &&& warm > 0 || cold > 0 ==> exists|mireds: u16|
                {
                    &&& evs == #[trigger] temperature_report(device, mireds)
                    &&& 153 <= mireds <= 370
                    &&& cold == 0 ==> mireds == 370
                    &&& warm == 0 ==> mireds == 153
                }
        }),
{
    lemma_words();
    if warm > 0 || cold > 0 {
        mixes_are_between_warm_and_cold(warm as int, cold as int);
        let mireds = crate::color::mix_mireds(warm as int, cold as int)->0 as u16;
        assert(update_events(by_node, actions, report_of(address, 51, "currentColor"@, value))
            == temperature_report(device, mireds));
    }
}

/// A battery is known to hold the percentage that is reported, and never more than all.
pub proof fn batteries_hold_what_they_report(
    by_node: Map<Address, DeviceId>,
    actions: Actions,
    address: Address,
    device: DeviceId,
    pct: u64,
)
    requires
        by_node.contains_key(address),
        by_node[address] == device,
    ensures
        update_events(by_node, actions, report_of(address, 128, "level"@, JsonV::Whole(pct)))
            == seq![
            EventV::StateReported {
                device,
                state: CapabilityState::Battery(if pct <= 100 { pct as u8 } else { 100 }),
            },
        ],
{
    lemma_words();
}

/// A motion sensor that reports motion says that somebody is there, and one that is idle
/// that nobody is.
pub proof fn motion_means_somebody_is_there(
    by_node: Map<Address, DeviceId>,
    actions: Actions,
    address: Address,
    device: DeviceId,
    code: u64,
)
    requires
        by_node.contains_key(address),
        by_node[address] == device,
    ensures
        ({
            let evs = update_events(
                by_node,
                actions,
                report_of(address, 113, "Home Security"@, JsonV::Whole(code)),
            );
            &&& code == 7 || code == 8 ==> evs == seq![
                EventV::OccupancyChanged { device, occupied: true },
            ]
            &&& code == 0 ==> evs == seq![EventV::OccupancyChanged { device, occupied: false }]
            &&& code != 0 && code != 7 && code != 8 ==> evs.len() == 0
        }),
{
    lemma_words();
}

/// A press of a button is the event that the device declares for the button and for how it
/// was pressed; zeros in front of the button do not count.
pub proof fn presses_are_what_the_device_declares(
    by_node: Map<Address, DeviceId>,
    actions: Actions,
    u: UpdateV,
    device: DeviceId,
    button: nat,
    how: Seq<char>,
)
    requires
        by_node.contains_key(Address(u.node, u.endpoint)),
        by_node[Address(u.node, u.endpoint)] == device,
        u.command_class == 91,
        u.property == "scene"@,
        u.notification,
        u.property_key is Some,
        crate::text::number_of(u.property_key->0) == Some(button),
        button <= u32::MAX,
        u.value == JsonV::Whole(0) && how == "KeyPressed"@ || u.value == JsonV::Whole(1) && how
            == "KeyReleased"@ || u.value == JsonV::Whole(2) && how == "KeyHeldDown"@ || u.value
            == JsonV::Whole(3) && how == "KeyPressed2x"@ || u.value == JsonV::Whole(4) && how
            == "KeyPressed3x"@ || u.value == JsonV::Whole(5) && how == "KeyPressed4x"@ || u.value
            == JsonV::Whole(6) && how == "KeyPressed5x"@,
    ensures
        ({
            let raw = decimal(button) + ":"@ + how;
            &&& actions.contains_key((device, raw)) ==> update_events(by_node, actions, u) == seq![
                EventV::Action { device, action: actions[(device, raw)] },
            ]
            &&& !actions.contains_key((device, raw)) ==> update_events(by_node, actions, u).len()
                == 0
        }),
{
}

/// Nobody hears of a node that is not known.
pub proof fn strangers_are_not_heard(
    by_node: Map<Address, DeviceId>,
    actions: Actions,
    u: UpdateV,
)
    requires
        !by_node.contains_key(Address(u.node, u.endpoint)),
    ensures
        update_events(by_node, actions, u).len() == 0,
{
}

/// A device that lists brightness is driven as a dimmer, any other as a relay.
pub proof fn brightness_makes_a_dimmer(caps: Seq<CapabilityKind>)
    ensures
        kind_from(caps) == DeviceKind::Dimmer <==> caps.contains(CapabilityKind::Brightness),
{
}

/// A command goes to the address of the device that it is for; a device without one is
/// refused, and so is a command without a device and one that nodes have no value for.
pub proof fn commands_go_to_the_device_they_are_for(
    homes: Map<DeviceId, (Address, DeviceKind)>,
    cmd: CommandV,
    device: DeviceId,
    code: Seq<char>,
)
    ensures
        (cmd is SetSwitch || cmd is SetBrightness || cmd is SetColor || cmd is SetColorTemperature)
            && cmd.target() == Some(device) && homes.contains_key(device) ==> {
            &&& outgoing_of(homes, cmd) is Ok
            &&& outgoing_of(homes, cmd)->Ok_0.0 == homes[device].0
            &&& Some(outgoing_of(homes, cmd)->Ok_0.1) == set_value_of(homes[device].1, cmd)
        },
        cmd.target() == Some(device) && !homes.contains_key(device) ==> outgoing_of(homes, cmd)
            is Err,
        cmd.target() is None ==> outgoing_of(homes, cmd) is Err,
        cmd is ToggleSwitch || cmd is IncreaseBrightness || cmd is DecreaseBrightness || cmd is
            SendIrCode ==> outgoing_of(homes, cmd) is Err,
{
}

/// Devices at different addresses are each told and heard at their own.
pub proof fn devices_keep_their_addresses(
    devices: Seq<(DeviceId, NodeId, EndpointId, DeviceKind)>,
    n: nat,
    i: int,
)
    requires
        0 <= i < n <= devices.len(),
        forall|j: int, k: int|
            0 <= j < k < n ==> (#[trigger] devices[j]).0 != (#[trigger] devices[k]).0 && Address(
                devices[j].1,
                devices[j].2,
            ) != Address(devices[k].1, devices[k].2),
    ensures
        ({
            let (device, node, endpoint, kind) = devices[i];
            &&& homes_of(devices, n).contains_key(device)
            &&& homes_of(devices, n)[device] == (Address(node, endpoint), kind)
            &&& residents(devices, n).contains_key(Address(node, endpoint))
            &&& residents(devices, n)[Address(node, endpoint)] == device
        }),
    decreases n,
{
    if i < n - 1 {
        devices_keep_their_addresses(devices, (n - 1) as nat, i);
        assert(devices[i].0 != devices[n - 1].0);
    }
}

/// The frame that sets a value names the node, the endpoint, the class, the property and the
/// value, each as it is.
pub proof fn frames_say_what_to_set(
    message_id: u64,
    node: NodeId,
    endpoint: EndpointId,
    set: SetV,
)
    ensures
        ({
            let frame = set_value_value(message_id, node, endpoint, set);
            let id = frame.field("valueId"@);
            &&& frame.field("messageId"@) == Some(JsonV::Text(decimal(message_id as nat)))
            &&& frame.field("command"@) == Some(JsonV::Text("node.set_value"@))
            &&& frame.field("nodeId"@) == Some(JsonV::Whole(node.0 as u64))
            &&& frame.field("value"@) == Some(set.value)
            &&& id is Some
            &&& id->0.field("commandClass"@) == Some(JsonV::Whole(set.command_class as u64))
            &&& id->0.field("endpoint"@) == Some(JsonV::Whole(endpoint.0 as u64))
            &&& id->0.field("property"@) == Some(JsonV::Text(set.property))
            &&& set.transition is None ==> frame.field("options"@) is None
            &&& set.transition is Some ==> frame.field("options"@) is Some
                && frame.field("options"@)->0.field("transitionDuration"@) == Some(
                JsonV::Text(decimal((set.transition->0 / 1000) as nat) + "s"@),
            )
        }),
{
    reveal_strlit("commandClass");
    reveal_strlit("endpoint");
    reveal_strlit("property");
    reveal_strlit("messageId");
    reveal_strlit("command");
    reveal_strlit("nodeId");
    reveal_strlit("valueId");
    reveal_strlit("value");
    reveal_strlit("options");
    assert("commandClass"@.len() == 12 && "endpoint"@.len() == 8 && "property"@.len() == 8);
    assert("endpoint"@[0] == 'e' && "property"@[0] == 'p');
    assert("messageId"@.len() == 9 && "command"@.len() == 7 && "nodeId"@.len() == 6);
    assert("valueId"@.len() == 7 && "value"@.len() == 5 && "options"@.len() == 7);
    assert("command"@[0] == 'c' && "valueId"@[0] == 'v' && "options"@[0] == 'o');
    reveal_with_fuel(crate::json::member, 8);
}

/// What a node says of a value that has changed is heard as the new value, and of a button
/// as a press, at the address, class and property that it names.
pub proof fn events_of_nodes_are_heard(event: JsonV, args: JsonV, node: u32, class: u16, value: JsonV)
    requires
        event.field("source"@) == Some(JsonV::Text("node"@)),
        event.field("nodeId"@) == Some(JsonV::Whole(node as u64)),
        event.field("args"@) == Some(args),
        args.field("commandClass"@) == Some(JsonV::Whole(class as u64)),
        args.field("property"@) is Some,
        args.field("property"@)->0 is Text,
        args.field("endpoint"@) is None,
    ensures
        event.field("event"@) == Some(JsonV::Text("value updated"@)) && args.field("newValue"@)
            == Some(value) ==> {
            &&& event_update(event) is Some
            &&& event_update(event)->0.node == NodeId(node)
            &&& event_update(event)->0.endpoint == EndpointId(0)
            &&& event_update(event)->0.command_class == class
            &&& event_update(event)->0.property == args.field("property"@)->0->Text_0
            &&& event_update(event)->0.value == value
            &&& !event_update(event)->0.notification
        },
        event.field("event"@) == Some(JsonV::Text("value notification"@)) && args.field("value"@)
            == Some(value) ==> {
            &&& event_update(event) is Some
            &&& event_update(event)->0.node == NodeId(node)
            &&& event_update(event)->0.command_class == class
            &&& event_update(event)->0.property == args.field("property"@)->0->Text_0
            &&& event_update(event)->0.value == value
            &&& event_update(event)->0.notification
        },
{
    reveal_strlit("value updated");
    reveal_strlit("value notification");
    assert("value updated"@.len() == 13 && "value notification"@.len() == 18);
}

/// A device lives at the node that its address names, at the endpoint that it gives or else
/// at the root, and is driven as its capabilities say.
pub proof fn addresses_name_nodes(devices: Seq<DeviceV>, n: nat, node: u32)
    requires
        0 < n <= devices.len(),
        devices[n - 1].address == Some(decimal(node as nat)),
    ensures
        ({
            let targets = targets_of(devices, n);
            let d = devices[n - 1];
            &&& targets.len() > 0
            &&& targets.last().0 == d.id
            &&& targets.last().1 == NodeId(node)
            &&& d.endpoint is Some ==> targets.last().2 == EndpointId(d.endpoint->0)
            &&& d.endpoint is None ==> targets.last().2 == EndpointId(0)
            &&& targets.last().3 == kind_from(d.capabilities)
        }),
{
    decimal_is_parsed_back(node as nat);
}

/// A node's values as they were when it was first asked are heard as values, never as
/// presses.
pub proof fn snapshots_are_heard_as_values(node: u64, values: Seq<JsonV>, n: nat, i: int)
    requires
        n <= values.len(),
        0 <= i < node_values(node, values, n).len(),
    ensures
        !node_values(node, values, n)[i].notification,
        node <= u32::MAX ==> node_values(node, values, n)[i].node == NodeId(node as u32),
    decreases n,
{
    if n > 0 {
        let before = node_values(node, values, (n - 1) as nat);
        if i < before.len() {
            snapshots_are_heard_as_values(node, values, (n - 1) as nat, i);
        }
    }
}

/// The server is spoken to in the newest schema that both know, and in a safe one if it
/// says nothing.
pub proof fn schemas_are_agreed_on(version: JsonV, max: u64)
    requires
        version.field("maxSchemaVersion"@) == Some(JsonV::Whole(max)),
    ensures
        max <= 41 ==> schema_of(Some(version)) == max,
        max > 41 ==> schema_of(Some(version)) == 41,
        schema_of(None) == 33,
{
}

/// What nodes say is heard in the order in which they say it.
pub proof fn updates_are_heard_in_order(
    at: Map<Address, DeviceId>,
    actions: Actions,
    us: Seq<UpdateV>,
    u: UpdateV,
)
    ensures
        polled_events(at, actions, us.push(u)) == polled_events(at, actions, us) + update_events(
            at,
            actions,
            u,
        ),
        polled_events(at, actions, Seq::empty()).len() == 0,
{
    assert(us.push(u).drop_last() =~= us);
}

} // verus!
