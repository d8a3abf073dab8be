//! The Matter adapter: canonical events and commands to and from a Matter controller.
//!
//! A Matter controller is asynchronous and network-driven. The seam is
//! [`MatterController`]: the adapter only ever *invokes* cluster commands and *polls*
//! for attribute reports through it. The protocol translation is pure, and so is
//! the framing of the controller's WebSocket messages.
//!
//! ```text
//!   attribute report ─▶ MatterController::poll ─▶ report_to_events ─▶ Event (tick)
//!   Command ─▶ command_to_cluster ─▶ MatterController::invoke ─▶ device_command
//! ```

use vstd::prelude::*;

use super::plugin::{
    bad_config, is_websocket_url, report, websocket_url, AdapterPlugin, ExposeSpec, ExposeV,
    Polarity,
};
use crate::compile::ast::RawAdapterConfig;
use crate::compile::diagnostic::{error_at, findings, Diagnostic, Finding};
use crate::compile::resolve::{DeviceDef, DeviceV};
use crate::text::{cat3, decimal, decimal_text, number_up_to, parse_up_to, split_first, split_once};
use super::{
    error_of, level_of, level_to_pct, noted, pct_of, pct_to_level, push_state, send_reply,
    sent, state_event, Adapter, Call, DispatchOutcome, Held, OutcomeV, Traffic,
};
use crate::color::{full_color, hue_254, hue_sat_254_to_rgb, rgb_to_hue_sat_254, sat_254};
use crate::ids::DeviceId;
use crate::json::{
    item_views, json_read, json_text, lemma_items, lemma_members, member_views, read_json,
    text_under, whole_under, write_json, Json, JsonV,
};
use crate::model::{event_views, CapabilityState, Command, CommandV, Event, EventV, Millis};
use crate::table::{Key, Table};

verus! {

/// A commissioned Matter node id (decimal, assigned at commissioning: the `address`
/// in config).
#[derive(Clone, Copy, Debug, PartialEq, Eq, Hash, Structural)]
pub struct NodeId(pub u64);

/// One endpoint of a node. A multi-endpoint device is one device per endpoint.
#[derive(Clone, Copy, Debug, PartialEq, Eq, Hash, Structural)]
pub struct EndpointId(pub u16);

/// Where a device lives: a node and its endpoint.
#[derive(Clone, Copy, Debug, PartialEq, Eq, Hash, Structural)]
pub struct Address(pub NodeId, pub EndpointId);

impl View for Address {
    type V = Address;

    open spec fn view(&self) -> Address {
        *self
    }
}

impl Key for Address {
    fn same(&self, other: &Self) -> (b: bool) {
        *self == *other
    }

    fn dup(&self) -> (r: Self) {
        *self
    }
}

/// One controller command, already lowered from a canonical [`Command`].
#[derive(Clone, Copy, Debug, PartialEq, Eq, Structural)]
pub enum ClusterCommand {
    /// OnOff cluster: On (`true`) or Off (`false`).
    OnOff(bool),
    /// OnOff cluster: Toggle.
    Toggle,
    /// LevelControl: MoveToLevelWithOnOff. `level` is `0..=254`; `transition_ds` is
    /// the fade time in tenths of a second.
    MoveToLevel { level: u8, transition_ds: u16 },
    /// ColorControl: MoveToHueAndSaturation, both on Matter's `0..=254` scale.
    MoveToHueAndSaturation { hue: u8, saturation: u8, transition_ds: u16 },
    /// ColorControl: MoveToColorTemperature.
    MoveToColorTemperature { mireds: u16, transition_ds: u16 },
}

/// One inbound attribute report. `value` stays a raw JSON value; turning it into a
/// typed state is [`report_to_events`]' job.
#[derive(Debug)]
pub struct AttrReport {
    pub node: NodeId,
    pub endpoint: EndpointId,
    pub cluster: u32,
    pub attribute: u32,
    pub value: Json,
}

/// [`AttrReport`] as a mathematical value.
pub struct AttrV {
    pub node: NodeId,
    pub endpoint: EndpointId,
    pub cluster: u32,
    pub attribute: u32,
    pub value: JsonV,
}

impl View for AttrReport {
    type V = AttrV;

    open spec fn view(&self) -> AttrV {
        AttrV {
            node: self.node,
            endpoint: self.endpoint,
            cluster: self.cluster,
            attribute: self.attribute,
            value: self.value@,
        }
    }
}

pub open spec fn attr_views(s: Seq<AttrReport>) -> Seq<AttrV> {
    s.map_values(|r: AttrReport| r@)
}

/// The seam between the synchronous engine and an asynchronous Matter controller:
/// act outward, drain inward, nothing else.
pub trait MatterController {
    /// What has passed so far, where the controller keeps count: each cluster command
    /// with its address, and the reports of each poll.
    open spec fn traffic(&self) -> Option<Seq<MatterTraffic>> {
        None
    }

    /// Invoke a cluster command on a node's endpoint. `Err` signals a transient
    /// failure.
    fn invoke(&mut self, node: NodeId, endpoint: EndpointId, cmd: &ClusterCommand) -> (r: Result<
        (),
        String,
    >)
        ensures
            final(self).traffic() == noted(
                old(self).traffic(),
                Traffic::Sent { message: (Address(node, endpoint), *cmd), error: error_of(r) },
            ),
    ;

    /// Return every attribute report received since the last call (non-blocking).
    fn poll(&mut self) -> (r: Vec<AttrReport>)
        ensures
            final(self).traffic() == noted(
                old(self).traffic(),
                Traffic::Polled { items: attr_views(r@) },
            ),
    ;
}

pub type MatterTraffic = Traffic<(Address, ClusterCommand), AttrV>;

// ------------------------------------------------------------ outward

/// A fade in tenths of a second, in the 16 bits that the protocol has for it.
pub open spec fn tenths(transition: Option<Millis>) -> u16 {
    match transition {
        Some(ms) => ((ms / 100) % 65536) as u16,
        None => 0,
    }
}

fn transition_ds(transition: &Option<Millis>) -> (r: u16)
    ensures
        r == tenths(*transition),
{
    match transition {
        Some(ms) => ((*ms / 100) % 65536) as u16,
        None => 0,
    }
}

/// The cluster command for a command. Scenes and timers have none, nor have
/// commands that Matter has no form for.
pub open spec fn cluster_of(cmd: CommandV) -> Option<ClusterCommand> {
    match cmd {
        CommandV::SetSwitch { on, .. } => Some(ClusterCommand::OnOff(on)),
        CommandV::ToggleSwitch { .. } => Some(ClusterCommand::Toggle),
        CommandV::SetBrightness { value, transition, .. } => Some(
            ClusterCommand::MoveToLevel {
                level: level_of(value as int) as u8,
                transition_ds: tenths(transition),
            },
        ),
        CommandV::SetColor { r, g, b, transition, .. } => Some(
            ClusterCommand::MoveToHueAndSaturation {
                hue: hue_254(r as int, g as int, b as int) as u8,
                saturation: sat_254(r as int, g as int, b as int) as u8,
                transition_ds: tenths(transition),
            },
        ),
        CommandV::SetColorTemperature { mireds, transition, .. } => Some(
            ClusterCommand::MoveToColorTemperature { mireds, transition_ds: tenths(transition) },
        ),
        _ => None,
    }
}

/// Canonical command to Matter cluster command.
pub fn command_to_cluster(cmd: &Command) -> (r: Option<ClusterCommand>)
    ensures
        r == cluster_of(cmd@),
{
    match cmd {
        Command::SetSwitch { on, .. } => Some(ClusterCommand::OnOff(*on)),
        Command::ToggleSwitch { .. } => Some(ClusterCommand::Toggle),
        Command::SetBrightness { value, transition, .. } => {
            let level: u64 = pct_to_level(*value);
            Some(
                ClusterCommand::MoveToLevel {
                    level: level as u8,
                    transition_ds: transition_ds(transition),
                },
            )
        },
        Command::SetColor { r, g, b, transition, .. } => {
            let (hue, saturation) = rgb_to_hue_sat_254(*r, *g, *b);
            Some(
                ClusterCommand::MoveToHueAndSaturation {
                    hue,
                    saturation,
                    transition_ds: transition_ds(transition),
                },
            )
        },
        Command::SetColorTemperature { mireds, transition, .. } => Some(
            ClusterCommand::MoveToColorTemperature {
                mireds: *mireds,
                transition_ds: transition_ds(transition),
            },
        ),
        _ => None,
    }
}

/// The cluster, command name and payload of a cluster command.
pub open spec fn invocation(cmd: ClusterCommand) -> (u32, Seq<char>, JsonV) {
    match cmd {
        ClusterCommand::OnOff(on) => (0x0006, if on { "On"@ } else { "Off"@ }, JsonV::object()),
        ClusterCommand::Toggle => (0x0006, "Toggle"@, JsonV::object()),
        ClusterCommand::MoveToLevel { level, transition_ds } => (
            0x0008,
            "MoveToLevelWithOnOff"@,
            JsonV::object().with("level"@, JsonV::Whole(level as u64)).with(
                "transitionTime"@,
                JsonV::Whole(transition_ds as u64),
            ),
        ),
        ClusterCommand::MoveToHueAndSaturation { hue, saturation, transition_ds } => (
            0x0300,
            "MoveToHueAndSaturation"@,
            JsonV::object().with("hue"@, JsonV::Whole(hue as u64)).with(
                "saturation"@,
                JsonV::Whole(saturation as u64),
            ).with("transitionTime"@, JsonV::Whole(transition_ds as u64)),
        ),
        ClusterCommand::MoveToColorTemperature { mireds, transition_ds } => (
            0x0300,
            "MoveToColorTemperature"@,
            JsonV::object().with("colorTemperatureMireds"@, JsonV::Whole(mireds as u64)).with(
                "transitionTime"@,
                JsonV::Whole(transition_ds as u64),
            ),
        ),
    }
}

/// The `device_command` frame that invokes a cluster command.
pub open spec fn invoke_value(
    message_id: u64,
    node: NodeId,
    endpoint: EndpointId,
    cmd: ClusterCommand,
) -> JsonV {
    let (cluster, name, payload) = invocation(cmd);
    let args = JsonV::object().with("node_id"@, JsonV::Whole(node.0)).with(
        "endpoint_id"@,
        JsonV::Whole(endpoint.0 as u64),
    ).with("cluster_id"@, JsonV::Whole(cluster as u64)).with("command_name"@, JsonV::Text(name)).with(
        "payload"@,
        payload,
    );
    JsonV::object().with("message_id"@, JsonV::Text(decimal(message_id as nat))).with(
        "command"@,
        JsonV::Text("device_command"@),
    ).with("args"@, args)
}

/// The frame that invokes a cluster command, as a value.
pub fn invoke_json(message_id: u64, node: NodeId, endpoint: EndpointId, cmd: &ClusterCommand) -> (r:
    Json)
    ensures
        r@ == invoke_value(message_id, node, endpoint, *cmd),
{
    let (cluster, name, payload): (u32, &str, Json) = match cmd {
        ClusterCommand::OnOff(on) => {
            let word: &str = if *on {
                "On"
            } else {
                "Off"
            };
            (0x0006, word, Json::object())
        },
        ClusterCommand::Toggle => (0x0006, "Toggle", Json::object()),
        ClusterCommand::MoveToLevel { level, transition_ds } => (
            0x0008,
            "MoveToLevelWithOnOff",
            Json::object().with("level", Json::Whole(*level as u64)).with(
                "transitionTime",
                Json::Whole(*transition_ds as u64),
            ),
        ),
        ClusterCommand::MoveToHueAndSaturation { hue, saturation, transition_ds } => (
            0x0300,
            "MoveToHueAndSaturation",
            Json::object().with("hue", Json::Whole(*hue as u64)).with(
                "saturation",
                Json::Whole(*saturation as u64),
            ).with("transitionTime", Json::Whole(*transition_ds as u64)),
        ),
        ClusterCommand::MoveToColorTemperature { mireds, transition_ds } => (
            0x0300,
            "MoveToColorTemperature",
            Json::object().with("colorTemperatureMireds", Json::Whole(*mireds as u64)).with(
                "transitionTime",
                Json::Whole(*transition_ds as u64),
            ),
        ),
    };
    let args = Json::object().with("node_id", Json::Whole(node.0)).with(
        "endpoint_id",
        Json::Whole(endpoint.0 as u64),
    ).with("cluster_id", Json::Whole(cluster as u64)).with("command_name", Json::text(name)).with(
        "payload",
        payload,
    );
    let id = decimal_text(message_id);
    Json::object().with("message_id", Json::Text(id)).with(
        "command",
        Json::text("device_command"),
    ).with("args", args)
}

/// The frame that invokes a cluster command, as the text that goes on the wire.
pub fn invoke_frame(message_id: u64, node: NodeId, endpoint: EndpointId, cmd: &ClusterCommand) -> (r:
    String)
    ensures
        r@ == json_text(invoke_value(message_id, node, endpoint, *cmd)),
{
    write_json(&invoke_json(message_id, node, endpoint, cmd))
}

/// The frame that subscribes to updates and asks for a snapshot of every node.
pub fn listen_frame() -> (r: String)
    ensures
        r@ == json_text(
            JsonV::object().with("message_id"@, JsonV::Text("start_listening"@)).with(
                "command"@,
                JsonV::Text("start_listening"@),
            ),
        ),
{
    let frame = Json::object().with("message_id", Json::text("start_listening")).with(
        "command",
        Json::text("start_listening"),
    );
    write_json(&frame)
}

// ------------------------------------------------------------ inward

/// The state that an attribute's value stands for.
pub open spec fn attribute_event(device: DeviceId, r: AttrV) -> Seq<EventV> {
    let none = Seq::<EventV>::empty();
    if r.cluster == 0x0006 && r.attribute == 0x0000 {
        match r.value.flag() {
            Some(on) => state_event(device, CapabilityState::Switch(on)),
            None => none,
        }
    } else if r.cluster == 0x0008 && r.attribute == 0x0000 {
        match r.value.whole() {
            Some(level) => state_event(
                device,
                CapabilityState::Brightness(pct_of(level as int) as u8),
            ),
            None => none,
        }
    } else if r.cluster == 0x0300 && r.attribute == 0x0007 {
        match r.value.whole() {
            Some(mireds) => state_event(
                device,
                CapabilityState::ColorTemperature(
                    if mireds < 65535 { mireds as u16 } else { 65535 },
                ),
            ),
            None => none,
        }
    } else if r.cluster == 0x0406 && r.attribute == 0x0000 {
        match r.value.whole() {
            Some(bits) => seq![EventV::OccupancyChanged { device, occupied: bits % 2 == 1 }],
            None => none,
        }
    } else if r.cluster == 0x002F && r.attribute == 0x000C {
        match r.value.whole() {
            Some(half) => state_event(
                device,
                CapabilityState::Battery(if half / 2 < 100 { (half / 2) as u8 } else { 100 }),
            ),
            None => none,
        }
    } else {
        none
    }
}

/// What a report says: nothing, unless it is of a known device.
pub open spec fn report_events(by_node: Map<Address, DeviceId>, r: AttrV) -> Seq<EventV> {
    if by_node.contains_key(Address(r.node, r.endpoint)) {
        attribute_event(by_node[Address(r.node, r.endpoint)], r)
    } else {
        Seq::empty()
    }
}

/// Inbound attribute report to canonical events. An unknown address or an unmapped
/// attribute gives no event.
pub fn report_to_events(by_node: &Table<Address, DeviceId>, r: &AttrReport) -> (out: Vec<Event>)
    ensures
        event_views(out@) == report_events(by_node@, r@),
{
    let mut events: Vec<Event> = Vec::new();
    assert(event_views(events@) =~= Seq::empty());
    let device: DeviceId = match by_node.get(&Address(r.node, r.endpoint)) {
        Some(d) => *d,
        None => return events,
    };
    if r.cluster == 0x0006 && r.attribute == 0x0000 {
        // OnOff cluster, OnOff attribute.
        if let Some(on) = r.value.as_bool() {
            push_state(&mut events, device, CapabilityState::Switch(on));
        }
    } else if r.cluster == 0x0008 && r.attribute == 0x0000 {
        // LevelControl, CurrentLevel.
        if let Some(level) = r.value.as_u64() {
            push_state(&mut events, device, CapabilityState::Brightness(level_to_pct(level)));
        }
    } else if r.cluster == 0x0300 && r.attribute == 0x0007 {
        // ColorControl, ColorTemperatureMireds.
        if let Some(mireds) = r.value.as_u64() {
            let m: u16 = if mireds < 65535 {
                mireds as u16
            } else {
                65535
            };
            push_state(&mut events, device, CapabilityState::ColorTemperature(m));
        }
    } else if r.cluster == 0x0406 && r.attribute == 0x0000 {
        // OccupancySensing, Occupancy: bit 0 says occupied.
        if let Some(bits) = r.value.as_u64() {
            events.push(Event::OccupancyChanged { device, occupied: bits % 2 == 1 });
        }
    } else if r.cluster == 0x002F && r.attribute == 0x000C {
        // PowerSource, BatPercentRemaining, in half percent.
        if let Some(half) = r.value.as_u64() {
            let pct: u8 = if half / 2 < 100 {
                (half / 2) as u8
            } else {
                100
            };
            push_state(&mut events, device, CapabilityState::Battery(pct));
        }
    }
    assert(event_views(events@) =~= report_events(by_node@, r@));
    events
}

/// Partial ColorControl color state accumulated from independent hue and saturation
/// attribute reports.
#[derive(Clone, Copy, Debug, PartialEq, Eq, Structural)]
pub struct HueSat {
    pub hue: Option<u8>,
    pub sat: Option<u8>,
}

/// Whether a report is one half of a color.
pub open spec fn is_color_half(r: AttrV) -> bool {
    r.cluster == 0x0300 && (r.attribute == 0x0008 || r.attribute == 0x0009)
}

/// The pair with one half replaced.
pub open spec fn color_folded(acc: HueSat, r: AttrV) -> HueSat {
    match r.value.whole() {
        None => acc,
        Some(v) => {
            let half: u8 = if v < 254 { v as u8 } else { 254 };
            if r.attribute == 0x0008 {
                HueSat { hue: Some(half), ..acc }
            } else if r.attribute == 0x0009 {
                HueSat { sat: Some(half), ..acc }
            } else {
                acc
            }
        },
    }
}

/// The color that a pair stands for once both halves are known.
pub open spec fn color_event(acc: HueSat, device: DeviceId) -> Seq<EventV> {
    match (acc.hue, acc.sat) {
        (Some(hue), Some(sat)) => {
            let (r, g, b) = full_color(hue as int, sat as int);
            state_event(
                device,
                CapabilityState::Color { r: r as u8, g: g as u8, b: b as u8 },
            )
        },
        _ => Seq::empty(),
    }
}

/// What one half of a color reports: the color, where the value is a number and both
/// halves are now known. Any other attribute reports nothing.
pub open spec fn half_events(acc: HueSat, device: DeviceId, r: AttrV) -> Seq<EventV> {
    if r.value.whole() is Some && (r.attribute == 0x0008 || r.attribute == 0x0009) {
        color_event(color_folded(acc, r), device)
    } else {
        Seq::empty()
    }
}

/// Fold one report of the color cluster into the device's accumulated pair. `None` for
/// an attribute that is neither hue nor saturation.
pub fn fold_hue_sat(acc: &mut HueSat, device: DeviceId, r: &AttrReport) -> (out: Option<Event>)
    ensures
        *final(acc) == color_folded(*old(acc), r@),
        match out {
            Some(e) => half_events(*old(acc), device, r@) == seq![e@],
            None => half_events(*old(acc), device, r@).len() == 0,
        },
{
    let v: u64 = match r.value.as_u64() {
        Some(v) => v,
        None => return None,
    };
    let half: u8 = if v < 254 {
        v as u8
    } else {
        254
    };
    if r.attribute == 0x0008 {
        acc.hue = Some(half);
    } else if r.attribute == 0x0009 {
        acc.sat = Some(half);
    } else {
        return None;
    }
    match (acc.hue, acc.sat) {
        (Some(hue), Some(sat)) => {
            let (red, green, blue) = hue_sat_254_to_rgb(hue, sat);
            Some(
                Event::StateReported {
                    device,
                    state: CapabilityState::Color { r: red, g: green, b: blue },
                },
            )
        },
        _ => None,
    }
}

/// The pair accumulated for a device.
pub open spec fn pair_of(pairs: Map<DeviceId, HueSat>, device: DeviceId) -> HueSat {
    if pairs.contains_key(device) {
        pairs[device]
    } else {
        HueSat { hue: None, sat: None }
    }
}

/// One report: the pairs after it, and what it says.
pub open spec fn report_folded(
    by_node: Map<Address, DeviceId>,
    pairs: Map<DeviceId, HueSat>,
    r: AttrV,
) -> (Map<DeviceId, HueSat>, Seq<EventV>) {
    if is_color_half(r) {
        if by_node.contains_key(Address(r.node, r.endpoint)) {
            let device = by_node[Address(r.node, r.endpoint)];
            let acc = pair_of(pairs, device);
            (pairs.insert(device, color_folded(acc, r)), half_events(acc, device, r))
        } else {
            (pairs, Seq::empty())
        }
    } else {
        (pairs, report_events(by_node, r))
    }
}

/// Several reports, in their order.
pub open spec fn reports_folded(
    by_node: Map<Address, DeviceId>,
    pairs: Map<DeviceId, HueSat>,
    rs: Seq<AttrV>,
) -> (Map<DeviceId, HueSat>, Seq<EventV>)
    decreases rs.len(),
{
    if rs.len() == 0 {
        (pairs, Seq::empty())
    } else {
        let (before, events) = reports_folded(by_node, pairs, rs.drop_last());
        let (after, more) = report_folded(by_node, before, rs.last());
        (after, events + more)
    }
}

// ------------------------------------------------------------ frames

/// `"endpoint/cluster/attribute"` (decimal ids), and whatever follows.
pub open spec fn path_of(path: Seq<char>) -> Option<(u16, u32, u32)> {
    match split_first(path, '/') {
        None => None,
        Some((a, rest)) => match split_first(rest, '/') {
            None => None,
            Some((b, tail)) => {
                let c = match split_first(tail, '/') {
                    Some((c, _)) => c,
                    None => tail,
                };
                match (
                    number_up_to(a, u16::MAX as nat),
                    number_up_to(b, u32::MAX as nat),
                    number_up_to(c, u32::MAX as nat),
                ) {
                    (Some(x), Some(y), Some(z)) => Some((x as u16, y as u32, z as u32)),
                    _ => None,
                }
            },
        },
    }
}

fn parse_path(path: &str) -> (r: Option<(u16, u32, u32)>)
    ensures
        r == path_of(path@),
{
    let (a, rest) = match split_once(path, '/') {
        Some(p) => p,
        None => return None,
    };
    let (b, tail) = match split_once(rest.as_str(), '/') {
        Some(p) => p,
        None => return None,
    };
    let c = match split_once(tail.as_str(), '/') {
        Some((c, _)) => c,
        None => tail,
    };
    match (
        parse_up_to(a.as_str(), 65535),
        parse_up_to(b.as_str(), 4_294_967_295),
        parse_up_to(c.as_str(), 4_294_967_295),
    ) {
        (Some(x), Some(y), Some(z)) => Some((x as u16, y as u32, z as u32)),
        _ => None,
    }
}

/// `[node_id, "endpoint/cluster/attribute", value]`.
pub open spec fn updated_attribute(data: Seq<JsonV>) -> Option<AttrV> {
    if data.len() < 3 {
        None
    } else {
        match (data[0].whole(), data[1].text()) {
            (Some(node), Some(path)) => match path_of(path) {
                Some((endpoint, cluster, attribute)) => Some(
                    AttrV {
                        node: NodeId(node),
                        endpoint: EndpointId(endpoint),
                        cluster,
                        attribute,
                        value: data[2],
                    },
                ),
                None => None,
            },
            _ => None,
        }
    }
}

fn parse_attribute_updated(data: &Vec<Json>) -> (r: Option<AttrReport>)
    ensures
        match r {
            Some(a) => updated_attribute(item_views(*data, data@.len())) == Some(a@),
            None => updated_attribute(item_views(*data, data@.len())) is None,
        },
{
    proof {
        lemma_items(*data, data@.len());
    }
    if data.len() < 3 {
        return None;
    }
    let node: u64 = match data[0].as_u64() {
        Some(n) => n,
        None => return None,
    };
    let path = match data[1].as_str() {
        Some(p) => p,
        None => return None,
    };
    match parse_path(path.as_str()) {
        Some((endpoint, cluster, attribute)) => Some(
            AttrReport {
                node: NodeId(node),
                endpoint: EndpointId(endpoint),
                cluster,
                attribute,
                value: data[2].copy(),
            },
        ),
        None => None,
    }
}

/// The reports among the first `n` attributes of a node.
pub open spec fn node_attributes(node: u64, attrs: Seq<(Seq<char>, JsonV)>, n: nat) -> Seq<AttrV>
    decreases n,
{
    if n == 0 {
        Seq::empty()
    } else {
        let before = node_attributes(node, attrs, (n - 1) as nat);
        match path_of(attrs[n - 1].0) {
            Some((endpoint, cluster, attribute)) => before.push(
                AttrV {
                    node: NodeId(node),
                    endpoint: EndpointId(endpoint),
                    cluster,
                    attribute,
                    value: attrs[n - 1].1,
                },
            ),
            None => before,
        }
    }
}

/// The reports in one node object of a snapshot.
pub open spec fn node_reports(node: JsonV) -> Seq<AttrV> {
    match (whole_under(node, "node_id"@), node.field("attributes"@)) {
        (Some(id), Some(JsonV::Object(attrs))) => node_attributes(id, attrs, attrs.len()),
        _ => Seq::empty(),
    }
}

fn parse_node_snapshot(node: &Json, out: &mut Vec<AttrReport>)
    ensures
        attr_views(final(out)@) == attr_views(old(out)@) + node_reports(node@),
{
    let ghost before = attr_views(out@);
    assert(before + Seq::<AttrV>::empty() =~= before);
    let id: u64 = match node.u64_of("node_id") {
        Some(id) => id,
        None => return ,
    };
    if let Some(Json::Object(attrs)) = node.get("attributes") {
        let ghost all = member_views(*attrs, attrs@.len());
        proof {
            lemma_members(*attrs, attrs@.len());
        }
        let mut i: usize = 0;
        while i < attrs.len()
            invariant
                i <= attrs@.len() == all.len(),
                forall|k: int|
                    0 <= k < all.len() ==> #[trigger] all[k] == (attrs@[k].0@, attrs@[k].1@),
                attr_views(out@) == before + node_attributes(id, all, i as nat),
            decreases attrs@.len() - i,
        {
            assert(all[i as int] == (attrs@[i as int].0@, attrs@[i as int].1@));
            if let Some((endpoint, cluster, attribute)) = parse_path(attrs[i].0.as_str()) {
                let ghost was = out@;
                let a = AttrReport {
                    node: NodeId(id),
                    endpoint: EndpointId(endpoint),
                    cluster,
                    attribute,
                    value: attrs[i].1.copy(),
                };
                out.push(a);
                assert(attr_views(out@) =~= attr_views(was).push(a@));
                assert(attr_views(out@) =~= before + node_attributes(id, all, (i + 1) as nat));
            }
            i += 1;
        }
    }
}

/// The reports in the first `n` nodes of a snapshot.
pub open spec fn snapshot_reports(nodes: Seq<JsonV>, n: nat) -> Seq<AttrV>
    decreases n,
{
    if n == 0 {
        Seq::empty()
    } else {
        snapshot_reports(nodes, (n - 1) as nat) + node_reports(nodes[n - 1])
    }
}

/// The reports in one server frame: an `attribute_updated` event, or the snapshot
/// that answers `start_listening`. Everything else is ignored.
pub open spec fn frame_reports(v: JsonV) -> Seq<AttrV> {
    if text_under(v, "event"@) == Some("attribute_updated"@) {
        match v.field("data"@) {
            Some(JsonV::List(data)) => match updated_attribute(data) {
                Some(a) => seq![a],
                None => Seq::empty(),
            },
            _ => Seq::empty(),
        }
    } else {
        match v.field("result"@) {
            Some(JsonV::List(nodes)) => snapshot_reports(nodes, nodes.len()),
            _ => Seq::empty(),
        }
    }
}

/// Read the reports out of one server frame.
pub fn parse_frame(v: &Json) -> (r: Vec<AttrReport>)
    ensures
        attr_views(r@) == frame_reports(v@),
{
    let mut out: Vec<AttrReport> = Vec::new();
    assert(attr_views(out@) =~= Seq::empty());
    let updated: bool = match v.str_of("event") {
        Some(e) => crate::text::same(e.as_str(), "attribute_updated"),
        None => false,
    };
    if updated {
        if let Some(Json::List(data)) = v.get("data") {
            if let Some(a) = parse_attribute_updated(data) {
                out.push(a);
                assert(attr_views(out@) =~= seq![a@]);
            }
        }
        return out;
    }
    if let Some(Json::List(nodes)) = v.get("result") {
        let ghost all = item_views(*nodes, nodes@.len());
        proof {
            lemma_items(*nodes, nodes@.len());
        }
        let mut i: usize = 0;
        while i < nodes.len()
            invariant
                i <= nodes@.len() == all.len(),
                forall|k: int| 0 <= k < all.len() ==> #[trigger] all[k] == nodes@[k]@,
                attr_views(out@) == snapshot_reports(all, i as nat),
            decreases nodes@.len() - i,
        {
            assert(all[i as int] == nodes@[i as int]@);
            parse_node_snapshot(&nodes[i], &mut out);
            i += 1;
        }
    }
    out
}

/// Parse one inbound server text frame into zero or more attribute reports. A frame
/// that is not JSON has none.
pub fn parse_inbound(txt: &str) -> (r: Vec<AttrReport>)
    ensures
        attr_views(r@) == match json_read(vstd::utf8::encode_utf8(txt@)) {
            Some(v) => frame_reports(v),
            None => Seq::empty(),
        },
{
    match read_json(txt.as_bytes()) {
        Some(v) => parse_frame(&v),
        None => {
            let out: Vec<AttrReport> = Vec::new();
            assert(attr_views(out@) =~= Seq::empty());
            out
        },
    }
}

// ------------------------------------------------------------ the adapter

/// Where devices live: the first `n` of them. A device listed twice has the later.
pub open spec fn addresses(devices: Seq<(DeviceId, NodeId, EndpointId)>, n: nat) -> Map<
    DeviceId,
    Address,
>
    decreases n,
{
    if n == 0 {
        Map::empty()
    } else {
        let d = devices[n - 1];
        addresses(devices, (n - 1) as nat).insert(d.0, Address(d.1, d.2))
    }
}

/// Who lives at an address.
pub open spec fn residents(devices: Seq<(DeviceId, NodeId, EndpointId)>, n: nat) -> Map<
    Address,
    DeviceId,
>
    decreases n,
{
    if n == 0 {
        Map::empty()
    } else {
        let d = devices[n - 1];
        residents(devices, (n - 1) as nat).insert(Address(d.1, d.2), d.0)
    }
}

fn hold_controller<T: MatterController + ?Sized>(inner: Box<T>) -> (r: Held<T>)
    ensures
        r.inner == inner,
        r.inner.traffic() == inner.traffic(),
{
    Held { inner }
}

/// Adapter that bridges a set of commissioned Matter nodes to the engine.
pub struct MatterAdapter {
    by_id: Table<DeviceId, Address>,
    by_node: Table<Address, DeviceId>,
    /// Matter reports hue and saturation as independent attributes, but a color
    /// needs both, so the half that arrived first is remembered.
    hue_sat: Table<DeviceId, HueSat>,
    controller: Held<dyn MatterController>,
    /// Every call so far.
    heard: Ghost<Seq<Call>>,
}

impl MatterAdapter {
    pub closed spec fn homes(&self) -> Map<DeviceId, Address> {
        self.by_id@
    }

    pub closed spec fn at(&self) -> Map<Address, DeviceId> {
        self.by_node@
    }

    pub closed spec fn pairs(&self) -> Map<DeviceId, HueSat> {
        self.hue_sat@
    }

    /// What has passed through the controller so far.
    pub closed spec fn traffic(&self) -> Option<Seq<MatterTraffic>> {
        self.controller.inner.traffic()
    }

    /// `devices` gives each device its commissioned node and endpoint.
    pub fn new(
        devices: Vec<(DeviceId, NodeId, EndpointId)>,
        controller: Box<dyn MatterController>,
    ) -> (r: Self)
        ensures
            r.homes() == addresses(devices@, devices@.len()),
            r.at() == residents(devices@, devices@.len()),
            r.pairs() == Map::<DeviceId, HueSat>::empty(),
            r.traffic() == controller.traffic(),
            r.heard() == Some(Seq::<Call>::empty()),
    {
        let mut by_id: Table<DeviceId, Address> = Table::new();
        let mut by_node: Table<Address, DeviceId> = Table::new();
        let mut i: usize = 0;
        while i < devices.len()
            invariant
                i <= devices@.len(),
                by_id@ == addresses(devices@, i as nat),
                by_node@ == residents(devices@, i as nat),
            decreases devices@.len() - i,
        {
            let (id, node, endpoint) = devices[i];
            by_id.insert(id, Address(node, endpoint));
            by_node.insert(Address(node, endpoint), id);
            i += 1;
        }
        let held = hold_controller(controller);
        MatterAdapter {
            by_id,
            by_node,
            hue_sat: Table::new(),
            controller: held,
            heard: Ghost(Seq::empty()),
        }
    }

    /// Hand a cluster command to the controller.
    fn invoke(&mut self, address: Address, c: &ClusterCommand) -> (r: Result<(), String>)
        ensures
            final(self).traffic() == noted(
                old(self).traffic(),
                Traffic::Sent { message: (address, *c), error: error_of(r) },
            ),
            final(self).homes() == old(self).homes(),
            final(self).at() == old(self).at(),
            final(self).pairs() == old(self).pairs(),
            final(self).heard == old(self).heard,
    {
        self.controller.inner.invoke(address.0, address.1, c)
    }

    /// Fold some reports, in their order.
    pub fn fold(&mut self, reports: &Vec<AttrReport>) -> (out: Vec<Event>)
        ensures
            final(self).homes() == old(self).homes(),
            final(self).at() == old(self).at(),
            final(self).traffic() == old(self).traffic(),
            final(self).heard() == old(self).heard(),
            reports_folded(old(self).at(), old(self).pairs(), attr_views(reports@)) == (
                final(self).pairs(),
                event_views(out@),
            ),
    {
        let ghost all = attr_views(reports@);
        let mut events: Vec<Event> = Vec::new();
        let mut i: usize = 0;
        assert(all.take(0) =~= Seq::empty());
        assert(event_views(events@) =~= Seq::empty());
        while i < reports.len()
            invariant
                i <= reports@.len(),
                all == attr_views(reports@),
                self.homes() == old(self).homes(),
                self.at() == old(self).at(),
                self.traffic() == old(self).traffic(),
                self.heard == old(self).heard,
                reports_folded(old(self).at(), old(self).pairs(), all.take(i as int)) == (
                    self.pairs(),
                    event_views(events@),
                ),
            decreases reports@.len() - i,
        {
            let r = &reports[i];
            assert(all.take(i + 1).drop_last() =~= all.take(i as int));
            assert(all.take(i + 1).last() == r@);
            let ghost was = events@;
            if r.cluster == 0x0300 && (r.attribute == 0x0008 || r.attribute == 0x0009) {
                let found: Option<DeviceId> = match self.by_node.get(
                    &Address(r.node, r.endpoint),
                ) {
                    Some(d) => Some(*d),
                    None => None,
                };
                if let Some(device) = found {
                    let mut acc: HueSat = match self.hue_sat.get(&device) {
                        Some(p) => *p,
                        None => HueSat { hue: None, sat: None },
                    };
                    let folded = fold_hue_sat(&mut acc, device, r);
                    self.hue_sat.insert(device, acc);
                    if let Some(ev) = folded {
                        events.push(ev);
                        assert(event_views(events@) =~= event_views(was) + seq![ev@]);
                    } else {
                        assert(event_views(was) + Seq::<EventV>::empty() =~= event_views(was));
                    }
                } else {
                    assert(event_views(was) + Seq::<EventV>::empty() =~= event_views(was));
                }
            } else {
                let mut more = report_to_events(&self.by_node, r);
                let ghost added = more@;
                events.append(&mut more);
                assert(event_views(events@) =~= event_views(was) + event_views(added));
            }
            assert(reports_folded(old(self).at(), old(self).pairs(), all.take(i + 1)).1
                =~= event_views(events@));
            i += 1;
        }
        assert(all.take(i as int) =~= all);
        events
    }

    /// What to invoke for a command, or why nothing can be.
    pub fn outgoing(&self, cmd: &Command) -> (r: Result<(Address, ClusterCommand), &'static str>)
        ensures
            match (outgoing_of(self.homes(), cmd@), r) {
                (Ok(o), Ok(p)) => o == p,
                (Err(why), Err(w)) => w@ == why,
                _ => false,
            },
    {
        let device: DeviceId = match cmd.target_device() {
            Some(d) => d,
            None => return Err("command has no target device"),
        };
        let address: Address = match self.by_id.get(&device) {
            Some(a) => *a,
            None => return Err("device is not managed by this adapter"),
        };
        match command_to_cluster(cmd) {
            Some(c) => Ok((address, c)),
            None => Err("command unsupported by matter"),
        }
    }
}

/// The address and cluster command for a command, or why there is none.
pub open spec fn outgoing_of(homes: Map<DeviceId, Address>, cmd: CommandV) -> Result<
    (Address, ClusterCommand),
    Seq<char>,
> {
    match cmd.target() {
        None => Err("command has no target device"@),
        Some(device) => if !homes.contains_key(device) {
            Err("device is not managed by this adapter"@)
        } else {
            match cluster_of(cmd) {
                Some(c) => Ok((homes[device], c)),
                None => Err("command unsupported by matter"@),
            }
        },
    }
}

impl Adapter for MatterAdapter {
    closed spec fn heard(&self) -> Option<Seq<Call>> {
        Some(self.heard@)
    }

    open spec fn wakes(&self, now: Millis) -> Option<Millis> {
        None
    }

    fn dispatch(&mut self, cmd: &Command, now: Millis) -> (out: DispatchOutcome)
        ensures
            final(self).homes() == old(self).homes(),
            final(self).at() == old(self).at(),
            final(self).pairs() == old(self).pairs(),
            match outgoing_of(old(self).homes(), cmd@) {
                Ok(o) => exists|error: Option<Seq<char>>|
                    out@ == #[trigger] send_reply(error) && final(self).traffic() == noted(
                        old(self).traffic(),
                        Traffic::Sent { message: o, error },
                    ),
                Err(why) => out@ == OutcomeV::Permanent(why) && final(self).traffic() == old(
                    self,
                ).traffic(),
            },
    {
        let out = match self.outgoing(cmd) {
            Ok((address, c)) => {
                let answer = self.invoke(address, &c);
                let ghost error = error_of(answer);
                let out = sent(answer);
                assert(out@ == send_reply(error));
                out
            },
            Err(why) => DispatchOutcome::permanent(why),
        };
        proof {
            self.heard@ = self.heard@.push(
                Call::Dispatch { command: cmd@, now, outcome: out@ },
            );
        }
        out
    }

    fn tick(&mut self, now: Millis) -> (out: Vec<Event>)
        ensures
            final(self).homes() == old(self).homes(),
            final(self).at() == old(self).at(),
            exists|rs: Seq<AttrV>|
                #[trigger] reports_folded(old(self).at(), old(self).pairs(), rs) == (
                    final(self).pairs(),
                    event_views(out@),
                ) && final(self).traffic() == noted(
                    old(self).traffic(),
                    Traffic::Polled { items: rs },
                ),
    {
        // No explicit priming is needed: the snapshot that a controller sends on
        // connect is replayed as attribute reports.
        let reports = self.controller.inner.poll();
        let out = self.fold(&reports);
        assert(reports_folded(old(self).at(), old(self).pairs(), attr_views(reports@)) == (
            self.pairs(),
            event_views(out@),
        ));
        proof {
            self.heard@ = self.heard@.push(Call::Tick { now, events: event_views(out@) });
        }
        out
    }

    fn next_wake(&self, now: Millis) -> (out: Option<Millis>) {
        None
    }
}

/// The devices of the first `n` whose address is a node id, with endpoint 1 where
/// none is given.
pub open spec fn targets_of(devices: Seq<DeviceV>, n: nat) -> Seq<(DeviceId, NodeId, EndpointId)>
    decreases n,
{
    if n == 0 {
        Seq::empty()
    } else {
        let before = targets_of(devices, (n - 1) as nat);
        let d = devices[n - 1];
        match d.address {
            Some(addr) => match number_up_to(addr, u64::MAX as nat) {
                Some(node) => before.push(
                    (
                        d.id,
                        NodeId(node as u64),
                        EndpointId(match d.endpoint { Some(e) => e, None => 1 }),
                    ),
                ),
                None => before,
            },
            None => before,
        }
    }
}

/// Where the adapter's devices live.
pub fn targets(devices: &Vec<&DeviceDef>) -> (r: Vec<(DeviceId, NodeId, EndpointId)>)
    ensures
        r@ == targets_of(devices@.map_values(|d: &DeviceDef| d@), devices@.len()),
{
    let ghost all = devices@.map_values(|d: &DeviceDef| d@);
    let mut out: Vec<(DeviceId, NodeId, EndpointId)> = Vec::new();
    let mut i: usize = 0;
    while i < devices.len()
        invariant
            i <= devices@.len(),
            all == devices@.map_values(|d: &DeviceDef| d@),
            out@ == targets_of(all, i as nat),
        decreases devices@.len() - i,
    {
        let d = devices[i];
        assert(all[i as int] == d@);
        if let Some(addr) = &d.address {
            if let Some(node) = parse_up_to(addr.as_str(), u64::MAX) {
                let endpoint: u16 = match d.endpoint {
                    Some(e) => e,
                    None => 1,
                };
                out.push((d.id, NodeId(node), EndpointId(endpoint)));
            }
        }
        i += 1;
    }
    out
}

// ------------------------------------------------------------ laws

/// A brightness sent to a device, reported back as the level it was sent as, is the
/// same percentage.
pub proof fn brightness_reads_back(device: DeviceId, value: u8)
    requires
        value <= 100,
    ensures
        ({
            let level = cluster_of(
                CommandV::SetBrightness { device, value, transition: None },
            )->0->level;
            attribute_event(
                device,
                AttrV {
                    node: NodeId(0),
                    endpoint: EndpointId(0),
                    cluster: 0x0008,
                    attribute: 0x0000,
                    value: JsonV::Whole(level as u64),
                },
            ) == state_event(device, CapabilityState::Brightness(value))
        }),
{
    super::percentage_survives_level(value as int);
}

/// A color is reported only once both its halves are known, in whichever order they
/// arrive, and it is the same color either way.
pub proof fn color_halves_commute(device: DeviceId, h: AttrV, s: AttrV)
    requires
        is_color_half(h),
        is_color_half(s),
        h.attribute == 0x0008,
        s.attribute == 0x0009,
        h.value.whole() is Some,
        s.value.whole() is Some,
    ensures
        ({
            let none = HueSat { hue: None, sat: None };
            &&& half_events(none, device, h).len() == 0
            &&& half_events(none, device, s).len() == 0
            &&& half_events(color_folded(none, h), device, s) == half_events(
                color_folded(none, s),
                device,
                h,
            )
            &&& half_events(color_folded(none, h), device, s).len() == 1
        }),
{
}

/// Registers the adapter (`type: matter`) with the compiler.
#[derive(Debug)]
pub struct Plugin;

impl AdapterPlugin for Plugin {
    open spec fn tag(&self) -> Seq<char> {
        "matter"@
    }

    open spec fn direction(&self) -> Polarity {
        Polarity::Southbound
    }

    open spec fn config_findings(&self, config: RawAdapterConfig, at: Seq<char>) -> Seq<Finding> {
        match config.controller {
            Ok(c) => if is_websocket_url(c.url@) {
                Seq::empty()
            } else {
                seq![
                    error_at(
                        "E_BAD_URL"@,
                        "matter controller url must be ws:// or wss:// — got '"@ + c.url@ + "'"@,
                        at,
                    ),
                ]
            },
            Err(why) => bad_config(why@, at),
        }
    }

    open spec fn device_findings(&self, device: DeviceV, at: Seq<char>) -> Seq<Finding> {
        match device.address {
            None => seq![
                error_at(
                    "E_MISSING_ADDRESS"@,
                    "matter devices need an `address` (the decimal node_id from commissioning)"@,
                    at,
                ),
            ],
            Some(addr) => if number_up_to(addr, u64::MAX as nat) is Some {
                Seq::empty()
            } else {
                seq![
                    error_at(
                        "E_BAD_ADDRESS"@,
                        "matter `address` must be a decimal node_id — got '"@ + addr + "'"@,
                        at,
                    ),
                ]
            },
        }
    }

    open spec fn exposed(&self, config: RawAdapterConfig) -> Option<ExposeV> {
        None
    }

    fn type_tag(&self) -> (r: &'static str) {
        "matter"
    }

    fn polarity(&self) -> (r: Polarity) {
        Polarity::Southbound
    }

    fn expose_spec(&self, config: &RawAdapterConfig) -> (r: Option<ExposeSpec>) {
        None
    }

    fn validate_config(&self, config: &RawAdapterConfig, at: &str, diags: &mut Vec<Diagnostic>) {
        match &config.controller {
            Ok(c) => {
                if websocket_url(c.url.as_str()) {
                    assert(findings(diags@) + Seq::<Finding>::empty() =~= findings(diags@));
                } else {
                    let msg = cat3(
                        "matter controller url must be ws:// or wss:// — got '",
                        c.url.as_str(),
                        "'",
                    );
                    report(diags, "E_BAD_URL", msg, at);
                }
            },
            Err(why) => report(diags, "E_ADAPTER_CONFIG", why.clone(), at),
        }
    }

    fn validate_device(&self, device: &DeviceDef, at: &str, diags: &mut Vec<Diagnostic>) {
        match &device.address {
            None => {
                let msg = "matter devices need an `address` (the decimal node_id from commissioning)".to_owned();
                report(diags, "E_MISSING_ADDRESS", msg, at);
            },
            Some(addr) => {
                if parse_up_to(addr.as_str(), u64::MAX).is_some() {
                    assert(findings(diags@) + Seq::<Finding>::empty() =~= findings(diags@));
                } else {
                    let msg = cat3(
                        "matter `address` must be a decimal node_id — got '",
                        addr.as_str(),
                        "'",
                    );
                    report(diags, "E_BAD_ADDRESS", msg, at);
                }
            },
        }
    }
}

} // verus!
