//! What Matter nodes are told and what they say, and what controllers see of the engine.

use vstd::prelude::*;

use super::color::hues_show_in_the_channels;
use super::zigbee::levels_run_with_percentages;
use crate::adapters::matter::{
    addresses, cluster_of, frame_reports, invocation, invoke_value, outgoing_of, path_of,
    report_events, report_folded, reports_folded, residents, targets_of, tenths, Address, AttrV,
    ClusterCommand, EndpointId, HueSat, NodeId,
};
use crate::adapters::matter_bridge::{color_asked, hooks_of, mirrored, place, ColorTarget, HooksV};
use crate::adapters::matter_device::{
    cells_after, fnv, is_exposable, node_level, node_pct, projected, store_name, type_of, ExposedV,
    LightCells, MatterDeviceType,
};
use crate::adapters::pct_of;
use crate::color::{full_color, hue_254, sat_254};
use crate::compile::resolve::DeviceV;
use crate::ids::DeviceId;
use crate::json::{member, JsonV};
use crate::model::{CapabilityKind, CapabilityState, CommandV, EventV, Millis};
use crate::text::{decimal, hex};

verus! {

/// A report of an attribute of a cluster, at an address.
pub open spec fn report_of(address: Address, cluster: u32, attribute: u32, value: JsonV) -> AttrV {
    AttrV { node: address.0, endpoint: address.1, cluster, attribute, value }
}

/// A device that is told to switch is sent `On` to go on, `Off` to go off and `Toggle` to
/// turn around, under the OnOff cluster.
pub proof fn devices_are_told_to_switch(device: DeviceId, on: bool)
    ensures
        cluster_of(CommandV::SetSwitch { device, on }) is Some,
        invocation(cluster_of(CommandV::SetSwitch { device, on: true })->0) == (
            6u32,
            "On"@,
            JsonV::object(),
        ),
        invocation(cluster_of(CommandV::SetSwitch { device, on: false })->0) == (
            6u32,
            "Off"@,
            JsonV::object(),
        ),
        cluster_of(CommandV::ToggleSwitch { device }) is Some,
        invocation(cluster_of(CommandV::ToggleSwitch { device })->0) == (
            6u32,
            "Toggle"@,
            JsonV::object(),
        ),
{
}

/// A lamp is told the level of the brightness, to move there in as many tenths of a second
/// as were asked for.
pub proof fn lamps_are_told_their_level(device: DeviceId, value: u8, transition: Option<Millis>)
    requires
        value <= 100,
        transition is Some ==> transition->0 / 100 <= 65535,
    ensures
        ({
            let cmd = cluster_of(CommandV::SetBrightness { device, value, transition });
            let (cluster, name, payload) = invocation(cmd->0);
            &&& cmd is Some
            &&& cluster == 8
            &&& name == "MoveToLevelWithOnOff"@
            &&& payload.field("level"@) is Some
            &&& payload.field("level"@)->0 is Whole
            &&& ({
                let level = payload.field("level"@)->0->Whole_0;
                254 * value - 50 <= 100 * level <= 254 * value + 50
            })
            &&& payload.field("transitionTime"@) == Some(
                JsonV::Whole(
                    match transition {
                        Some(ms) => (ms / 100) as u64,
                        None => 0,
                    },
                ),
            )
        }),
{
    reveal_strlit("level");
    reveal_strlit("transitionTime");
    assert("level"@.len() == 5 && "transitionTime"@.len() == 14);
    reveal_with_fuel(member, 3);
    levels_run_with_percentages(value as int, value as int, 0);
}

/// A lamp is told a color temperature as the mireds that were asked for, and a color as its
/// hue and saturation.
pub proof fn lamps_are_told_their_color(
    device: DeviceId,
    r: u8,
    g: u8,
    b: u8,
    mireds: u16,
    transition: Option<Millis>,
)
    ensures
        ({
            let cmd = cluster_of(CommandV::SetColorTemperature { device, mireds, transition });
            let (cluster, name, payload) = invocation(cmd->0);
            &&& cmd is Some
            &&& cluster == 0x300
            &&& name == "MoveToColorTemperature"@
            &&& payload.field("colorTemperatureMireds"@) == Some(JsonV::Whole(mireds as u64))
            &&& payload.field("transitionTime"@) == Some(JsonV::Whole(tenths(transition) as u64))
        }),
        ({
            let cmd = cluster_of(CommandV::SetColor { device, r, g, b, transition });
            let (cluster, name, payload) = invocation(cmd->0);
            let hue = hue_254(r as int, g as int, b as int) as u8;
            let saturation = sat_254(r as int, g as int, b as int) as u8;
            &&& cmd is Some
            &&& cluster == 0x300
            &&& name == "MoveToHueAndSaturation"@
            &&& payload.field("hue"@) == Some(JsonV::Whole(hue as u64))
            &&& payload.field("saturation"@) == Some(JsonV::Whole(saturation as u64))
            &&& payload.field("transitionTime"@) == Some(JsonV::Whole(tenths(transition) as u64))
        }),
{
    reveal_strlit("hue");
    reveal_strlit("saturation");
    reveal_strlit("colorTemperatureMireds");
    reveal_strlit("transitionTime");
    assert("hue"@.len() == 3 && "saturation"@.len() == 10);
    assert("colorTemperatureMireds"@.len() == 22 && "transitionTime"@.len() == 14);
    reveal_with_fuel(member, 4);
}

/// What a device reports of its switch, level, temperature, presence and battery is what it
/// is known to be.
pub proof fn devices_are_as_they_report(
    by_node: Map<Address, DeviceId>,
    address: Address,
    device: DeviceId,
    on: bool,
    n: u64,
)
    requires
        by_node.contains_key(address),
        by_node[address] == device,
    ensures
        report_events(by_node, report_of(address, 6, 0, JsonV::Flag(on))) == seq![
            EventV::StateReported { device, state: CapabilityState::Switch(on) },
        ],
        n <= 254 ==> report_events(by_node, report_of(address, 8, 0, JsonV::Whole(n))) == seq![
            EventV::StateReported {
                device,
                state: CapabilityState::Brightness(pct_of(n as int) as u8),
            },
        ],
        n <= 65535 ==> report_events(by_node, report_of(address, 0x300, 7, JsonV::Whole(n)))
            == seq![
            EventV::StateReported { device, state: CapabilityState::ColorTemperature(n as u16) },
        ],
        report_events(by_node, report_of(address, 0x406, 0, JsonV::Whole(1))) == seq![
            EventV::OccupancyChanged { device, occupied: true },
        ],
        report_events(by_node, report_of(address, 0x406, 0, JsonV::Whole(0))) == seq![
            EventV::OccupancyChanged { device, occupied: false },
        ],
        n <= 100 ==> report_events(by_node, report_of(address, 0x2f, 12, JsonV::Whole((2 * n) as u64)))
            == seq![EventV::StateReported { device, state: CapabilityState::Battery(n as u8) }],
{
}

/// Nobody hears of a node that is not known.
pub proof fn strangers_are_not_heard(by_node: Map<Address, DeviceId>, r: AttrV)
    requires
        !by_node.contains_key(Address(r.node, r.endpoint)),
    ensures
        report_events(by_node, r).len() == 0,
        report_folded(by_node, Map::empty(), r).1.len() == 0,
{
}

/// A color comes in two halves. Once both are known, the device is known to be of the color
/// of that hue and saturation, whichever came last.
pub proof fn colors_come_in_two_halves(
    by_node: Map<Address, DeviceId>,
    pairs: Map<DeviceId, HueSat>,
    address: Address,
    device: DeviceId,
    hue: u8,
    sat: u8,
)
    requires
        by_node.contains_key(address),
        by_node[address] == device,
        hue <= 254,
        sat <= 254,
        !pairs.contains_key(device),
    ensures
        ({
            let h = report_of(address, 0x300, 0, JsonV::Whole(hue as u64));
            let first = report_of(address, 0x300, 8, JsonV::Whole(hue as u64));
            let second = report_of(address, 0x300, 9, JsonV::Whole(sat as u64));
            let (after, none) = report_folded(by_node, pairs, first);
            let (_, events) = report_folded(by_node, after, second);
            let (r, g, b) = full_color(hue as int, sat as int);
            &&& none.len() == 0
            &&& events == seq![
                EventV::StateReported {
                    device,
                    state: CapabilityState::Color { r: r as u8, g: g as u8, b: b as u8 },
                },
            ]
        }),
{
    hues_show_in_the_channels(hue as int, sat as int);
}

/// A path names the endpoint, the cluster and the attribute, in that order.
pub proof fn paths_name_endpoint_cluster_and_attribute(endpoint: u16, cluster: u32, attribute: u32)
    ensures
        path_of(
            decimal(endpoint as nat) + "/"@ + decimal(cluster as nat) + "/"@ + decimal(
                attribute as nat,
            ),
        ) == Some((endpoint, cluster, attribute)),
{
    reveal_strlit("/");
    let a = decimal(endpoint as nat);
    let b = decimal(cluster as nat);
    let c = decimal(attribute as nat);
    let path = a + "/"@ + b + "/"@ + c;
    let rest = b + "/"@ + c;
    super::lower::lemma_decimal_plain(endpoint as nat);
    super::lower::lemma_decimal_plain(cluster as nat);
    super::lower::lemma_decimal_plain(attribute as nat);
    crate::text::decimal_is_parsed_back(endpoint as nat);
    crate::text::decimal_is_parsed_back(cluster as nat);
    crate::text::decimal_is_parsed_back(attribute as nat);
    assert forall|j: int| 0 <= j < a.len() implies !crate::text::is_char('/')(
        #[trigger] path[j],
    ) by {
        assert(path[j] == a[j]);
    }
    assert(path[a.len() as int] == '/');
    crate::text::lemma_position(path, crate::text::is_char('/'), a.len() as int);
    assert(path.take(a.len() as int) =~= a);
    assert(path.skip(a.len() as int + 1) =~= rest);
    assert forall|j: int| 0 <= j < b.len() implies !crate::text::is_char('/')(
        #[trigger] rest[j],
    ) by {
        assert(rest[j] == b[j]);
    }
    assert(rest[b.len() as int] == '/');
    crate::text::lemma_position(rest, crate::text::is_char('/'), b.len() as int);
    assert(rest.take(b.len() as int) =~= b);
    assert(rest.skip(b.len() as int + 1) =~= c);
    assert forall|j: int| 0 <= j < c.len() implies !crate::text::is_char('/')(
        #[trigger] c[j],
    ) by {}
    crate::text::lemma_position(c, crate::text::is_char('/'), c.len() as int);
}

/// The frame that invokes a command names the node, the endpoint, the cluster, the command
/// and its payload, each as it is.
pub proof fn frames_say_what_to_invoke(
    message_id: u64,
    node: NodeId,
    endpoint: EndpointId,
    cmd: ClusterCommand,
)
    ensures
        ({
            let frame = invoke_value(message_id, node, endpoint, cmd);
            let args = frame.field("args"@);
            let (cluster, name, payload) = invocation(cmd);
            &&& frame.field("message_id"@) == Some(JsonV::Text(decimal(message_id as nat)))
            &&& frame.field("command"@) == Some(JsonV::Text("device_command"@))
            &&& args is Some
            &&& args->0.field("node_id"@) == Some(JsonV::Whole(node.0))
            &&& args->0.field("endpoint_id"@) == Some(JsonV::Whole(endpoint.0 as u64))
            &&& args->0.field("cluster_id"@) == Some(JsonV::Whole(cluster as u64))
            &&& args->0.field("command_name"@) == Some(JsonV::Text(name))
            &&& args->0.field("payload"@) == Some(payload)
        }),
{
    reveal_strlit("message_id");
    reveal_strlit("command");
    reveal_strlit("args");
    reveal_strlit("node_id");
    reveal_strlit("endpoint_id");
    reveal_strlit("cluster_id");
    reveal_strlit("command_name");
    reveal_strlit("payload");
    assert("message_id"@.len() == 10 && "command"@.len() == 7 && "args"@.len() == 4);
    assert("node_id"@.len() == 7 && "endpoint_id"@.len() == 11 && "cluster_id"@.len() == 10);
    assert("command_name"@.len() == 12 && "payload"@.len() == 7);
    assert("node_id"@[0] == 'n' && "payload"@[0] == 'p');
    reveal_with_fuel(member, 6);
}

/// A command goes to the address of the device that it is for.
pub proof fn commands_go_to_the_device_they_are_for(
    homes: Map<DeviceId, Address>,
    cmd: CommandV,
    device: DeviceId,
)
    requires
        cmd.target() == Some(device),
    ensures
        homes.contains_key(device) && cluster_of(cmd) is Some ==> outgoing_of(homes, cmd) == Ok::<
            (Address, ClusterCommand),
            Seq<char>,
        >((homes[device], cluster_of(cmd)->0)),
        !homes.contains_key(device) ==> outgoing_of(homes, cmd) is Err,
        cmd is IncreaseBrightness || cmd is DecreaseBrightness || cmd is SendIrCode ==> outgoing_of(
            homes,
            cmd,
        ) is Err,
{
}

/// Devices at different addresses are each told and heard at their own.
pub proof fn devices_keep_their_addresses(
    devices: Seq<(DeviceId, NodeId, EndpointId)>,
    n: nat,
    i: int,
)
    requires
        0 <= i < n <= devices.len(),
        forall|j: int, k: int|
            0 <= j < k < n ==> (#[trigger] devices[j]).0 != (#[trigger] devices[k]).0 && Address(
                devices[j].1,
                devices[j].2,
            ) != Address(devices[k].1, devices[k].2),
    ensures
        ({
            let (device, node, endpoint) = devices[i];
            &&& addresses(devices, n).contains_key(device)
            &&& addresses(devices, n)[device] == Address(node, endpoint)
            &&& residents(devices, n).contains_key(Address(node, endpoint))
            &&& residents(devices, n)[Address(node, endpoint)] == device
        }),
    decreases n,
{
    if i < n - 1 {
        devices_keep_their_addresses(devices, (n - 1) as nat, i);
        assert(devices[i].0 != devices[n - 1].0);
    }
}

// ------------------------------------------------------------ the other way around

/// The levels that controllers see run with the percentages: the lowest is 1, the highest
/// 254, and brighter is never a lower level.
pub proof fn controllers_see_levels_that_run_with_percentages(p: int, q: int, level: int, more: int)
    requires
        0 <= p <= q <= 100,
        1 <= level <= more <= 254,
    ensures
        node_level(0) == 1,
        node_level(100) == 254,
        node_level(p) <= node_level(q),
        node_pct(1) == 0,
        node_pct(254) == 100,
        node_pct(level) <= node_pct(more),
        253 * p - 50 <= 100 * (node_level(p) - 1) <= 253 * p + 50,
        100 * (level - 1) - 127 <= 253 * node_pct(level) <= 100 * (level - 1) + 126,
{
}

/// Controllers see a switch as it is and a brightness as its level; what they are shown of
/// one does not touch the other, and nothing else touches either.
pub proof fn controllers_see_what_was_folded(cells: LightCells, on: bool, pct: u8, state: CapabilityState)
    requires
        pct <= 100,
    ensures
        cells_after(cells, CapabilityState::Switch(on)) == (LightCells { on, level: cells.level }),
        cells_after(cells, CapabilityState::Brightness(pct)).on == cells.on,
        cells_after(cells, CapabilityState::Brightness(pct)).level is Some,
        ({
            let level = cells_after(cells, CapabilityState::Brightness(pct)).level->0;
            253 * pct - 50 <= 100 * (level - 1) <= 253 * pct + 50
        }),
        !(state is Switch) && !(state is Brightness) ==> cells_after(cells, state) == cells,
{
}

/// A state is mirrored to the device that it is of, and to no other.
pub proof fn states_are_mirrored_to_their_device(
    s: Seq<HooksV>,
    i: int,
    state: CapabilityState,
    j: int,
)
    requires
        0 <= i < s.len(),
        0 <= j < s.len(),
        forall|a: int, b: int|
            0 <= a < b < s.len() ==> (#[trigger] s[a]).device != (#[trigger] s[b]).device,
    ensures
        mirrored(s, s[i].device, state).len() == s.len(),
        mirrored(s, s[i].device, state)[i].cells == cells_after(s[i].cells, state),
        j != i ==> mirrored(s, s[i].device, state)[j] == s[j],
{
    lemma_place(s, i);
}

proof fn lemma_place(s: Seq<HooksV>, i: int)
    requires
        0 <= i < s.len(),
        forall|a: int, b: int|
            0 <= a < b < s.len() ==> (#[trigger] s[a]).device != (#[trigger] s[b]).device,
    ensures
        place(s, s[i].device) == i,
    decreases i,
{
    if i > 0 {
        let rest = s.drop_first();
        assert(s[0].device != s[i].device);
        assert(rest[i - 1] == s[i]);
        lemma_place(rest, i - 1);
    }
}

/// A color that a controller writes is asked for just as it is, of a device that has colors,
/// and of no other.
pub proof fn written_colors_are_asked_for(h: HooksV, r: u8, g: u8, b: u8, mireds: u16)
    ensures
        h.has_color ==> color_asked(h, ColorTarget::Rgb { r, g, b }) == Some(
            CapabilityState::Color { r, g, b },
        ),
        !h.has_color ==> color_asked(h, ColorTarget::Rgb { r, g, b }) is None,
        h.has_color_temp ==> color_asked(h, ColorTarget::Temperature { mireds }) == Some(
            CapabilityState::ColorTemperature(mireds),
        ),
        !h.has_color_temp ==> color_asked(h, ColorTarget::Temperature { mireds }) is None,
{
}

/// A device is shown as the most able kind of light that it is, and as a sensor only if it
/// is no light. Only what a light has is exposed.
pub proof fn devices_are_shown_as_what_they_are(caps: Seq<CapabilityKind>, kind: CapabilityKind)
    ensures
        type_of(caps) == MatterDeviceType::ExtendedColorLight <==> caps.contains(
            CapabilityKind::Color,
        ) || caps.contains(CapabilityKind::ColorTemperature),
        type_of(caps) == MatterDeviceType::DimmableLight ==> caps.contains(
            CapabilityKind::Brightness,
        ),
        type_of(caps) == MatterDeviceType::OnOffLight ==> caps.contains(CapabilityKind::Switch)
            && !caps.contains(CapabilityKind::Brightness),
        type_of(caps) == MatterDeviceType::OccupancySensor ==> caps.contains(
            CapabilityKind::Occupancy,
        ) && !caps.contains(CapabilityKind::Switch),
        type_of(caps) == MatterDeviceType::Unsupported <==> !caps.contains(CapabilityKind::Color)
            && !caps.contains(CapabilityKind::ColorTemperature) && !caps.contains(
            CapabilityKind::Brightness,
        ) && !caps.contains(CapabilityKind::Switch) && !caps.contains(CapabilityKind::Occupancy),
        is_exposable(kind) ==> kind == CapabilityKind::Switch || kind == CapabilityKind::Brightness
            || kind == CapabilityKind::Color || kind == CapabilityKind::ColorTemperature,
        is_exposable(CapabilityKind::Switch) && is_exposable(CapabilityKind::Brightness)
            && is_exposable(CapabilityKind::Color) && is_exposable(
            CapabilityKind::ColorTemperature,
        ),
{
}

/// A device that is exposed starts off, and has colors exactly if it declares them.
pub proof fn exposed_devices_start_off(d: ExposedV)
    ensures
        hooks_of(d).device == d.id,
        hooks_of(d).label == d.label,
        !hooks_of(d).cells.on,
        hooks_of(d).has_color <==> d.capabilities.contains(CapabilityKind::Color),
        hooks_of(d).has_color_temp <==> d.capabilities.contains(CapabilityKind::ColorTemperature),
{
}

/// A device lives at the node that its address names, at the endpoint that it gives or else
/// at the first.
pub proof fn addresses_name_nodes(devices: Seq<DeviceV>, n: nat, node: u64)
    requires
        0 < n <= devices.len(),
        devices[n - 1].address == Some(decimal(node as nat)),
    ensures
        ({
            let targets = targets_of(devices, n);
            let d = devices[n - 1];
            &&& targets.len() > 0
            &&& targets.last().0 == d.id
            &&& targets.last().1 == NodeId(node)
            &&& d.endpoint is Some ==> targets.last().2 == EndpointId(d.endpoint->0)
            &&& d.endpoint is None ==> targets.last().2 == EndpointId(1)
        }),
{
    crate::text::decimal_is_parsed_back(node as nat);
}

/// An attribute that the controller tells of is heard at its node, endpoint, cluster and
/// attribute, with its value.
pub proof fn updates_are_heard(
    frame: JsonV,
    node: u64,
    endpoint: u16,
    cluster: u32,
    attribute: u32,
    value: JsonV,
)
    requires
        frame.field("event"@) == Some(JsonV::Text("attribute_updated"@)),
        frame.field("data"@) == Some(
            JsonV::List(
                seq![
                    JsonV::Whole(node),
                    JsonV::Text(
                        decimal(endpoint as nat) + "/"@ + decimal(cluster as nat) + "/"@ + decimal(
                            attribute as nat,
                        ),
                    ),
                    value,
                ],
            ),
        ),
    ensures
        frame_reports(frame) == seq![
            AttrV {
                node: NodeId(node),
                endpoint: EndpointId(endpoint),
                cluster,
                attribute,
                value,
            },
        ],
{
    paths_name_endpoint_cluster_and_attribute(endpoint, cluster, attribute);
}

/// A device is exposed with what a light has of its capabilities, under its name, and not at
/// all if it has nothing of the kind.
pub proof fn devices_are_exposed_with_what_a_light_has(devices: Seq<DeviceV>, n: nat)
    requires
        0 < n <= devices.len(),
    ensures
        ({
            let before = projected(devices, (n - 1) as nat);
            let all = projected(devices, n);
            let d = devices[n - 1];
            &&& d.capabilities == seq![CapabilityKind::Switch] ==> all == before.push(
                ExposedV { id: d.id, label: d.name, capabilities: d.capabilities },
            )
            &&& d.capabilities == seq![CapabilityKind::Occupancy] ==> all == before
            &&& d.capabilities.len() == 0 ==> all == before
        }),
{
    let d = devices[n - 1];
    let keep = |k: CapabilityKind| is_exposable(k);
    reveal(Seq::filter);
    let none = Seq::<CapabilityKind>::empty();
    assert(none.filter(keep) =~= none);
    if d.capabilities == seq![CapabilityKind::Switch] {
        assert(d.capabilities.drop_last() =~= none);
        assert(d.capabilities.filter(keep) =~= d.capabilities);
    }
    if d.capabilities == seq![CapabilityKind::Occupancy] {
        assert(d.capabilities.drop_last() =~= none);
        assert(d.capabilities.filter(keep) =~= none);
    }
    if d.capabilities.len() == 0 {
        assert(d.capabilities.filter(keep) =~= none);
    }
}

/// A store is named by a hash of its adapter's name, which takes in one byte after the other,
/// in sixteen digits.
pub proof fn stores_are_named_by_a_hash_of_the_name(bytes: Seq<u8>, b: u8, adapter: Seq<char>)
    ensures
        fnv(Seq::empty()) == 0xcbf2_9ce4_8422_2325,
        fnv(bytes.push(b)) == (fnv(bytes) ^ (b as u64)).wrapping_mul(0x100_0000_01b3),
        store_name(adapter) == "matter."@ + hex(
            fnv(vstd::utf8::encode_utf8(adapter)) as nat,
            16,
        ) + ".state"@,
        hex(fnv(vstd::utf8::encode_utf8(adapter)) as nat, 16).len() == 16,
{
    assert(bytes.push(b).drop_last() =~= bytes);
    lemma_hex_width(fnv(vstd::utf8::encode_utf8(adapter)) as nat, 16);
}

proof fn lemma_hex_width(n: nat, width: nat)
    ensures
        hex(n, width).len() == width,
    decreases width,
{
    if width > 0 {
        lemma_hex_width(n / 16, (width - 1) as nat);
    }
}

/// What nodes say is heard in the order in which they say it.
pub proof fn reports_are_heard_in_order(
    by_node: Map<Address, DeviceId>,
    pairs: Map<DeviceId, HueSat>,
    rs: Seq<AttrV>,
    r: AttrV,
)
    ensures
        ({
            let (before, events) = reports_folded(by_node, pairs, rs);
            let (after, more) = report_folded(by_node, before, r);
            reports_folded(by_node, pairs, rs.push(r)) == (after, events + more)
        }),
        reports_folded(by_node, pairs, Seq::empty()) == (pairs, Seq::<EventV>::empty()),
{
    assert(rs.push(r).drop_last() =~= rs);
}

} // verus!
