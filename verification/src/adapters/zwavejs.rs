//! The Z-Wave JS adapter: canonical events and commands to and from a `zwave-js-server`.
//!
//! The server is asynchronous and network-driven. The seam is [`ZwaveClient`]: the
//! adapter only ever *sets values* and *polls* for value reports through it. The
//! protocol translation is pure, and so is the framing of the server's messages.
//!
//! Everything in Z-Wave is a *value*, addressed by command class and property on a
//! node. Two shapes matter:
//!
//! * **stateful values** (`currentValue`, battery `level`) arrive as `value updated`
//!   events and are folded into the state store, and
//! * **stateless notifications** (a Central Scene button press) arrive as `value
//!   notification` events. [`ValueUpdate::notification`] keeps the two apart so a
//!   scene button only fires on a real press.

use vstd::prelude::*;

use super::plugin::{
    bad_config, is_websocket_url, report, websocket_url, AdapterPlugin, ExposeSpec, ExposeV,
    Polarity,
};
use crate::compile::ast::RawAdapterConfig;
use crate::compile::diagnostic::{error_at, findings, Diagnostic, Finding};
use crate::compile::resolve::{DeviceDef, DeviceV};
use crate::text::{
    cat2, cat3, decimal, decimal_text, number_up_to, parse_up_to, same, signed_decimal,
    signed_decimal_text,
};
use super::{
    action_event, declared_actions, error_of, index_actions, noted, push_action, push_state,
    send_reply, sent, state_event, ActionKey, Actions, Adapter, Call, DispatchOutcome, Held,
    OutcomeV, Traffic,
};
use crate::color::{mireds_to_warm_cold, mix_mireds, warm_cold, warm_cold_to_mireds};
use crate::compile::diagnostic::opt_text;
use crate::compile::lower::has_capability;
use crate::ids::{ActionId, DeviceId};
use crate::json::{
    item_views, json_read, json_text, lemma_items, read_json, text_under, whole_under, write_json,
    Json, JsonV,
};
use crate::model::{
    event_views, CapabilityKind, CapabilityState, Command, CommandV, Event, EventV, Millis,
};
use crate::table::{Key, Table};

verus! {

/// A Z-Wave node id (assigned at inclusion: the `address` in config).
#[derive(Clone, Copy, Debug, PartialEq, Eq, Hash, Structural)]
pub struct NodeId(pub u32);

/// One endpoint of a node (the `endpoint` in config, default `0`, the root). A
/// multi-load module exposes each independent load on its own endpoint.
#[derive(Clone, Copy, Debug, PartialEq, Eq, Hash, Structural)]
pub struct EndpointId(pub u16);

/// Where a device lives: a node and its endpoint.
#[derive(Clone, Copy, Debug, PartialEq, Eq, Hash, Structural)]
pub struct Address(pub NodeId, pub EndpointId);

impl View for Address {
    type V = Address;

    open spec fn view(&self) -> Address {
        *self
    }
}

impl Key for Address {
    fn same(&self, other: &Self) -> (b: bool) {
        *self == *other
    }

    fn dup(&self) -> (r: Self) {
        *self
    }
}

/// Whether a device is driven through the Binary Switch or the Multilevel Switch
/// command class: turning either "on" is a different value on a different class.
#[derive(Clone, Copy, Debug, PartialEq, Eq, Structural)]
pub enum DeviceKind {
    Switch,
    Dimmer,
}

impl DeviceKind {
    /// A device is a dimmer exactly if it declares the `brightness` capability.
    pub fn from_capabilities(caps: &Vec<CapabilityKind>) -> (r: DeviceKind)
        ensures
            r == kind_from(caps@),
    {
        if has_capability(caps, CapabilityKind::Brightness) {
            DeviceKind::Dimmer
        } else {
            DeviceKind::Switch
        }
    }
}

pub open spec fn kind_from(caps: Seq<CapabilityKind>) -> DeviceKind {
    if caps.contains(CapabilityKind::Brightness) {
        DeviceKind::Dimmer
    } else {
        DeviceKind::Switch
    }
}

/// One inbound value report. `value` stays a raw JSON value; turning it into a state
/// or an event is [`update_to_events`]' job.
#[derive(Debug)]
pub struct ValueUpdate {
    pub node: NodeId,
    /// The endpoint the value lives on (`0` is the root).
    pub endpoint: EndpointId,
    pub command_class: u16,
    /// Such as `"currentValue"`, `"scene"` or `"level"`.
    pub property: String,
    /// The value's sub-key, when it has one: for Central Scene the button (`"001"`).
    pub property_key: Option<String>,
    pub value: Json,
    /// `true` for a stateless notification, `false` for a stateful value.
    pub notification: bool,
}

/// [`ValueUpdate`] as a mathematical value.
pub struct UpdateV {
    pub node: NodeId,
    pub endpoint: EndpointId,
    pub command_class: u16,
    pub property: Seq<char>,
    pub property_key: Option<Seq<char>>,
    pub value: JsonV,
    pub notification: bool,
}

impl View for ValueUpdate {
    type V = UpdateV;

    open spec fn view(&self) -> UpdateV {
        UpdateV {
            node: self.node,
            endpoint: self.endpoint,
            command_class: self.command_class,
            property: self.property@,
            property_key: opt_text(self.property_key),
            value: self.value@,
            notification: self.notification,
        }
    }
}

pub open spec fn update_views(s: Seq<ValueUpdate>) -> Seq<UpdateV> {
    s.map_values(|u: ValueUpdate| u@)
}

/// One lowered `node.set_value`.
#[derive(Debug)]
pub struct SetValue {
    pub command_class: u16,
    pub property: String,
    pub value: Json,
    /// Fade duration; `None` means the device's default.
    pub transition: Option<Millis>,
}

/// [`SetValue`] as a mathematical value.
pub struct SetV {
    pub command_class: u16,
    pub property: Seq<char>,
    pub value: JsonV,
    pub transition: Option<Millis>,
}

impl View for SetValue {
    type V = SetV;

    open spec fn view(&self) -> SetV {
        SetV {
            command_class: self.command_class,
            property: self.property@,
            value: self.value@,
            transition: self.transition,
        }
    }
}

/// The seam between the synchronous engine and an asynchronous `zwave-js-server`:
/// act outward, drain inward, nothing else.
pub trait ZwaveClient {
    /// What has passed so far, where the client keeps count: each value written with its
    /// address, and the updates of each poll.
    open spec fn traffic(&self) -> Option<Seq<ZwaveTraffic>> {
        None
    }

    /// Write a value on a node's endpoint. `Err` signals a transient failure.
    fn set_value(&mut self, node: NodeId, endpoint: EndpointId, value: &SetValue) -> (r: Result<
        (),
        String,
    >)
        ensures
            final(self).traffic() == noted(
                old(self).traffic(),
                Traffic::Sent { message: (Address(node, endpoint), value@), error: error_of(r) },
            ),
    ;

    /// Return every value report received since the last call (non-blocking).
    fn poll(&mut self) -> (r: Vec<ValueUpdate>)
        ensures
            final(self).traffic() == noted(
                old(self).traffic(),
                Traffic::Polled { items: update_views(r@) },
            ),
    ;
}

pub type ZwaveTraffic = Traffic<(Address, SetV), UpdateV>;

/// Binary Switch.
pub const CC_BINARY_SWITCH: u16 = 0x25;

/// Multilevel Switch.
pub const CC_MULTILEVEL_SWITCH: u16 = 0x26;

/// Color Switch.
pub const CC_COLOR_SWITCH: u16 = 0x33;

/// Central Scene.
pub const CC_CENTRAL_SCENE: u16 = 0x5B;

/// Notification.
pub const CC_NOTIFICATION: u16 = 0x71;

/// Battery.
pub const CC_BATTERY: u16 = 0x80;

// ------------------------------------------------------------ outward

/// A percentage as a `0..=99` Multilevel Switch level, to nearest.
pub open spec fn zwave_level(pct: int) -> int {
    (if pct < 100 { pct } else { 100 } * 99 + 50) / 100
}

/// A `0..=99` level as a percentage.
pub open spec fn zwave_pct(level: int) -> int {
    (if level < 99 { level } else { 99 } * 100 + 49) / 99
}

pub fn pct_to_zwave(pct: u8) -> (r: u8)
    ensures
        r == zwave_level(pct as int),
        r <= 99,
{
    let p: u16 = if pct < 100 {
        pct as u16
    } else {
        100
    };
    ((p * 99 + 50) / 100) as u8
}

/// Inverse of [`pct_to_zwave`].
pub fn zwave_to_pct(level: u64) -> (r: u8)
    ensures
        r == zwave_pct(level as int),
        r <= 100,
{
    let l: u64 = if level < 99 {
        level
    } else {
        99
    };
    ((l * 100 + 49) / 99) as u8
}

/// A level survives the way to a percentage and back.
pub proof fn level_survives_percentage(level: int)
    requires
        0 <= level <= 99,
    ensures
        zwave_level(zwave_pct(level)) == level,
{
}

/// A percentage comes back from its level within one step, and exactly at both ends.
pub proof fn percentage_survives_zwave_level(pct: int)
    requires
        0 <= pct <= 100,
    ensures
        pct - 1 <= zwave_pct(zwave_level(pct)) <= pct + 1,
        zwave_pct(zwave_level(0)) == 0,
        zwave_pct(zwave_level(100)) == 100,
{
}

/// The value to set for a command. `None` for scenes and timers, and for what
/// Z-Wave cannot express, such as a raw toggle.
pub open spec fn set_value_of(kind: DeviceKind, cmd: CommandV) -> Option<SetV> {
    match cmd {
        CommandV::SetSwitch { on, .. } => Some(
            match kind {
                // 255 restores the last level, 0 turns off.
                DeviceKind::Dimmer => SetV {
                    command_class: CC_MULTILEVEL_SWITCH,
                    property: "targetValue"@,
                    value: JsonV::Whole(if on { 255 } else { 0 }),
                    transition: None,
                },
                DeviceKind::Switch => SetV {
                    command_class: CC_BINARY_SWITCH,
                    property: "targetValue"@,
                    value: JsonV::Flag(on),
                    transition: None,
                },
            },
        ),
        CommandV::SetBrightness { value, transition, .. } => Some(
            SetV {
                command_class: CC_MULTILEVEL_SWITCH,
                property: "targetValue"@,
                value: JsonV::Whole(zwave_level(value as int) as u64),
                transition,
            },
        ),
        CommandV::SetColor { r, g, b, transition, .. } => Some(
            SetV {
                command_class: CC_COLOR_SWITCH,
                property: "targetColor"@,
                value: JsonV::object().with("red"@, JsonV::Whole(r as u64)).with(
                    "green"@,
                    JsonV::Whole(g as u64),
                ).with("blue"@, JsonV::Whole(b as u64)),
                transition,
            },
        ),
        CommandV::SetColorTemperature { mireds, transition, .. } => {
            let (warm, cold) = warm_cold(mireds as int);
            Some(
                SetV {
                    command_class: CC_COLOR_SWITCH,
                    property: "targetColor"@,
                    value: JsonV::object().with("warmWhite"@, JsonV::Whole(warm as u64)).with(
                        "coldWhite"@,
                        JsonV::Whole(cold as u64),
                    ),
                    transition,
                },
            )
        },
        _ => None,
    }
}

/// Canonical command to a `node.set_value` payload. `kind` selects the command class
/// an on/off targets.
pub fn command_to_set_value(kind: DeviceKind, cmd: &Command) -> (r: Option<SetValue>)
    ensures
        match r {
            Some(s) => set_value_of(kind, cmd@) == Some(s@),
            None => set_value_of(kind, cmd@) is None,
        },
{
    match cmd {
        Command::SetSwitch { on, .. } => match kind {
            DeviceKind::Dimmer => Some(
                SetValue {
                    command_class: CC_MULTILEVEL_SWITCH,
                    property: "targetValue".to_owned(),
                    value: Json::Whole(if *on { 255 } else { 0 }),
                    transition: None,
                },
            ),
            DeviceKind::Switch => Some(
                SetValue {
                    command_class: CC_BINARY_SWITCH,
                    property: "targetValue".to_owned(),
                    value: Json::Flag(*on),
                    transition: None,
                },
            ),
        },
        Command::SetBrightness { value, transition, .. } => {
            let level: u8 = pct_to_zwave(*value);
            Some(
                SetValue {
                    command_class: CC_MULTILEVEL_SWITCH,
                    property: "targetValue".to_owned(),
                    value: Json::Whole(level as u64),
                    transition: *transition,
                },
            )
        },
        Command::SetColor { r, g, b, transition, .. } => Some(
            SetValue {
                command_class: CC_COLOR_SWITCH,
                property: "targetColor".to_owned(),
                value: Json::object().with("red", Json::Whole(*r as u64)).with(
                    "green",
                    Json::Whole(*g as u64),
                ).with("blue", Json::Whole(*b as u64)),
                transition: *transition,
            },
        ),
        Command::SetColorTemperature { mireds, transition, .. } => {
            let (warm, cold) = mireds_to_warm_cold(*mireds);
            Some(
                SetValue {
                    command_class: CC_COLOR_SWITCH,
                    property: "targetColor".to_owned(),
                    value: Json::object().with("warmWhite", Json::Whole(warm as u64)).with(
                        "coldWhite",
                        Json::Whole(cold as u64),
                    ),
                    transition: *transition,
                },
            )
        },
        _ => None,
    }
}

/// The `node.set_value` frame.
pub open spec fn set_value_value(
    message_id: u64,
    node: NodeId,
    endpoint: EndpointId,
    set: SetV,
) -> JsonV {
    let value_id = JsonV::object().with(
        "commandClass"@,
        JsonV::Whole(set.command_class as u64),
    ).with("endpoint"@, JsonV::Whole(endpoint.0 as u64)).with("property"@, JsonV::Text(set.property));
    let req = JsonV::object().with("messageId"@, JsonV::Text(decimal(message_id as nat))).with(
        "command"@,
        JsonV::Text("node.set_value"@),
    ).with("nodeId"@, JsonV::Whole(node.0 as u64)).with("valueId"@, value_id).with(
        "value"@,
        set.value,
    );
    match set.transition {
        // In whole seconds.
        Some(ms) => req.with(
            "options"@,
            JsonV::object().with(
                "transitionDuration"@,
                JsonV::Text(decimal((ms / 1000) as nat) + "s"@),
            ),
        ),
        None => req,
    }
}

/// The frame that sets a value.
pub fn set_value_json(message_id: u64, node: NodeId, endpoint: EndpointId, set: &SetValue) -> (r:
    Json)
    ensures
        r@ == set_value_value(message_id, node, endpoint, set@),
{
    let value_id = Json::object().with("commandClass", Json::Whole(set.command_class as u64)).with(
        "endpoint",
        Json::Whole(endpoint.0 as u64),
    ).with("property", Json::text(set.property.as_str()));
    let id = decimal_text(message_id);
    let req = Json::object().with("messageId", Json::Text(id)).with(
        "command",
        Json::text("node.set_value"),
    ).with("nodeId", Json::Whole(node.0 as u64)).with("valueId", value_id).with(
        "value",
        set.value.copy(),
    );
    match set.transition {
        Some(ms) => {
            let seconds = decimal_text(ms / 1000);
            let shown = cat2(seconds.as_str(), "s");
            req.with("options", Json::object().with("transitionDuration", Json::Text(shown)))
        },
        None => req,
    }
}

/// The frame that sets a value, as the text that goes on the wire.
pub fn set_value_frame(message_id: u64, node: NodeId, endpoint: EndpointId, set: &SetValue) -> (r:
    String)
    ensures
        r@ == json_text(set_value_value(message_id, node, endpoint, set@)),
{
    write_json(&set_value_json(message_id, node, endpoint, set))
}

// ------------------------------------------------------------ inward

/// What happened to a button, as a device's raw `events` string names it.
pub open spec fn key_attribute(value: u64) -> Option<Seq<char>> {
    if value == 0 {
        Some("KeyPressed"@)
    } else if value == 1 {
        Some("KeyReleased"@)
    } else if value == 2 {
        Some("KeyHeldDown"@)
    } else if value == 3 {
        Some("KeyPressed2x"@)
    } else if value == 4 {
        Some("KeyPressed3x"@)
    } else if value == 5 {
        Some("KeyPressed4x"@)
    } else if value == 6 {
        Some("KeyPressed5x"@)
    } else {
        None
    }
}

pub fn key_attribute_name(value: u64) -> (r: Option<&'static str>)
    ensures
        match r {
            Some(s) => key_attribute(value) == Some(s@),
            None => key_attribute(value) is None,
        },
{
    match value {
        0 => Some("KeyPressed"),
        1 => Some("KeyReleased"),
        2 => Some("KeyHeldDown"),
        3 => Some("KeyPressed2x"),
        4 => Some("KeyPressed3x"),
        5 => Some("KeyPressed4x"),
        6 => Some("KeyPressed5x"),
        _ => None,
    }
}

/// A button without its leading zeros (`"001"` is `"1"`). A key that is no number is
/// left as it is.
pub open spec fn button_of(key: Seq<char>) -> Seq<char> {
    match number_up_to(key, u32::MAX as nat) {
        Some(n) => decimal(n),
        None => key,
    }
}

pub fn normalize_button(key: &str) -> (r: String)
    ensures
        r@ == button_of(key@),
{
    match parse_up_to(key, 4_294_967_295) {
        Some(n) => decimal_text(n),
        None => key.to_owned(),
    }
}

/// The sRGB of a Color Switch value.
pub open spec fn color_in(v: JsonV) -> Option<(u8, u8, u8)> {
    match (whole_under(v, "red"@), whole_under(v, "green"@), whole_under(v, "blue"@)) {
        (Some(r), Some(g), Some(b)) => if r <= 255 && g <= 255 && b <= 255 {
            Some((r as u8, g as u8, b as u8))
        } else {
            None
        },
        _ => None,
    }
}

pub fn parse_zwave_color(value: &Json) -> (r: Option<(u8, u8, u8)>)
    ensures
        r == color_in(value@),
{
    match (value.u64_of("red"), value.u64_of("green"), value.u64_of("blue")) {
        (Some(r), Some(g), Some(b)) => {
            if r <= 255 && g <= 255 && b <= 255 {
                Some((r as u8, g as u8, b as u8))
            } else {
                None
            }
        },
        _ => None,
    }
}

/// The mireds of a Color Switch warm/cold-white mix.
pub open spec fn temperature_in(v: JsonV) -> Option<int> {
    match (whole_under(v, "warmWhite"@), whole_under(v, "coldWhite"@)) {
        (Some(warm), Some(cold)) => mix_mireds(warm as int, cold as int),
        _ => None,
    }
}

pub fn parse_zwave_color_temp(value: &Json) -> (r: Option<u16>)
    ensures
        match r {
            Some(m) => temperature_in(value@) == Some(m as int),
            None => temperature_in(value@) is None,
        },
{
    match (value.u64_of("warmWhite"), value.u64_of("coldWhite")) {
        (Some(warm), Some(cold)) => warm_cold_to_mireds(warm, cold),
        _ => None,
    }
}

/// The raw event string of a Central Scene press: button and key attribute.
pub open spec fn scene_press(u: UpdateV) -> Option<Seq<char>> {
    match (u.property_key, u.value.whole()) {
        (Some(key), Some(v)) => match key_attribute(v) {
            Some(attr) => Some(button_of(key) + ":"@ + attr),
            None => None,
        },
        _ => None,
    }
}

/// What a stateful value reports. Only `currentValue`, the device's actual state, is
/// folded, never `targetValue`, our own intent echoed back.
pub open spec fn value_events(device: DeviceId, u: UpdateV) -> Seq<EventV> {
    let none = Seq::<EventV>::empty();
    if u.command_class == CC_BINARY_SWITCH && u.property == "currentValue"@ {
        match u.value.flag() {
            Some(on) => state_event(device, CapabilityState::Switch(on)),
            None => none,
        }
    } else if u.command_class == CC_MULTILEVEL_SWITCH && u.property == "currentValue"@ {
        // A dimmer's level implies both brightness and on/off.
        match u.value.whole() {
            Some(level) => state_event(
                device,
                CapabilityState::Brightness(zwave_pct(level as int) as u8),
            ) + state_event(device, CapabilityState::Switch(level > 0)),
            None => none,
        }
    } else if u.command_class == CC_BATTERY && u.property == "level"@ {
        match u.value.whole() {
            Some(pct) => state_event(
                device,
                CapabilityState::Battery(if pct < 100 { pct as u8 } else { 100 }),
            ),
            None => none,
        }
    } else if u.command_class == CC_COLOR_SWITCH && u.property == "currentColor"@ {
        match color_in(u.value) {
            Some((r, g, b)) => state_event(device, CapabilityState::Color { r, g, b }),
            None => match temperature_in(u.value) {
                Some(mireds) => state_event(
                    device,
                    CapabilityState::ColorTemperature(mireds as u16),
                ),
                None => none,
            },
        }
    } else if u.command_class == CC_NOTIFICATION && u.property == "Home Security"@ {
        // Motion detection is 7 or 8, idle is 0.
        match u.value.whole() {
            Some(v) => if v == 0 {
                seq![EventV::OccupancyChanged { device, occupied: false }]
            } else if v == 7 || v == 8 {
                seq![EventV::OccupancyChanged { device, occupied: true }]
            } else {
                none
            },
            None => none,
        }
    } else {
        none
    }
}

/// What an update says: nothing, unless it is of a known device. A scene button
/// fires only on a real press, and only where the device declares it.
pub open spec fn update_events(
    by_node: Map<Address, DeviceId>,
    actions: Actions,
    u: UpdateV,
) -> Seq<EventV> {
    if !by_node.contains_key(Address(u.node, u.endpoint)) {
        Seq::empty()
    } else {
        let device = by_node[Address(u.node, u.endpoint)];
        if u.command_class == CC_CENTRAL_SCENE && u.property == "scene"@ {
            match scene_press(u) {
                Some(raw) => if u.notification {
                    action_event(actions, device, raw)
                } else {
                    Seq::empty()
                },
                None => Seq::empty(),
            }
        } else {
            value_events(device, u)
        }
    }
}

/// Inbound value report to canonical events. An unknown address or an unmapped value
/// gives no event.
pub fn update_to_events(
    by_node: &Table<Address, DeviceId>,
    actions: &Table<ActionKey, ActionId>,
    u: &ValueUpdate,
) -> (out: Vec<Event>)
    ensures
        event_views(out@) == update_events(by_node@, actions@, u@),
{
    let mut events: Vec<Event> = Vec::new();
    assert(event_views(events@) =~= Seq::empty());
    let device: DeviceId = match by_node.get(&Address(u.node, u.endpoint)) {
        Some(d) => *d,
        None => return events,
    };
    let property = u.property.as_str();
    if u.command_class == CC_CENTRAL_SCENE && same(property, "scene") {
        if !u.notification {
            // A value replayed on (re)connect, not a press.
            return events;
        }
        let attr: &str = match u.value.as_u64() {
            Some(v) => match key_attribute_name(v) {
                Some(a) => a,
                None => return events,
            },
            None => return events,
        };
        if let Some(key) = &u.property_key {
            let button = normalize_button(key.as_str());
            let raw = cat3(button.as_str(), ":", attr);
            push_action(&mut events, actions, device, &raw);
            assert(event_views(events@) =~= update_events(by_node@, actions@, u@));
        }
        return events;
    }
    if u.command_class == CC_BINARY_SWITCH && same(property, "currentValue") {
        if let Some(on) = u.value.as_bool() {
            push_state(&mut events, device, CapabilityState::Switch(on));
        }
    } else if u.command_class == CC_MULTILEVEL_SWITCH && same(property, "currentValue") {
        if let Some(level) = u.value.as_u64() {
            push_state(&mut events, device, CapabilityState::Brightness(zwave_to_pct(level)));
            push_state(&mut events, device, CapabilityState::Switch(level > 0));
        }
    } else if u.command_class == CC_BATTERY && same(property, "level") {
        if let Some(pct) = u.value.as_u64() {
            let shown: u8 = if pct < 100 {
                pct as u8
            } else {
                100
            };
            push_state(&mut events, device, CapabilityState::Battery(shown));
        }
    } else if u.command_class == CC_COLOR_SWITCH && same(property, "currentColor") {
        if let Some((r, g, b)) = parse_zwave_color(&u.value) {
            push_state(&mut events, device, CapabilityState::Color { r, g, b });
        } else if let Some(mireds) = parse_zwave_color_temp(&u.value) {
            push_state(&mut events, device, CapabilityState::ColorTemperature(mireds));
        }
    } else if u.command_class == CC_NOTIFICATION && same(property, "Home Security") {
        match u.value.as_u64() {
            Some(0) => events.push(Event::OccupancyChanged { device, occupied: false }),
            Some(7) => events.push(Event::OccupancyChanged { device, occupied: true }),
            Some(8) => events.push(Event::OccupancyChanged { device, occupied: true }),
            _ => {},
        }
    }
    assert(event_views(events@) =~= value_events(device, u@));
    events
}

// ------------------------------------------------------------ frames

/// A property as text: a string, or a number as its digits.
pub open spec fn property_text(v: JsonV) -> Option<Seq<char>> {
    match v {
        JsonV::Text(s) => Some(s),
        JsonV::Whole(n) => Some(decimal(n as nat)),
        JsonV::Negative(n) => Some(signed_decimal(n as int)),
        JsonV::Fraction(s) => Some(s),
        _ => None,
    }
}

fn property_string(v: &Json) -> (r: Option<String>)
    ensures
        opt_text(r) == property_text(v@),
{
    match v {
        Json::Text(s) => Some(s.clone()),
        Json::Whole(n) => Some(decimal_text(*n)),
        Json::Negative(n) => Some(signed_decimal_text(*n)),
        Json::Fraction(s) => Some(s.clone()),
        _ => None,
    }
}

pub open spec fn opt_property(v: Option<JsonV>) -> Option<Seq<char>> {
    match v {
        Some(v) => property_text(v),
        None => None,
    }
}

fn property_under(j: &Json, key: &str) -> (r: Option<String>)
    ensures
        opt_text(r) == opt_property(j@.field(key@)),
{
    match j.get(key) {
        Some(v) => property_string(v),
        None => None,
    }
}

/// The value id that an object names, with a value. The node, the endpoint (the root
/// where none is given) and the command class are as wide as the protocol has them.
pub open spec fn update_from(node: u64, id: JsonV, value: JsonV, notification: bool) -> Option<
    UpdateV,
> {
    match (whole_under(id, "commandClass"@), opt_property(id.field("property"@))) {
        (Some(class), Some(property)) => Some(
            UpdateV {
                node: NodeId((node % 0x1_0000_0000) as u32),
                endpoint: EndpointId(
                    match whole_under(id, "endpoint"@) {
                        Some(e) => (e % 65536) as u16,
                        None => 0,
                    },
                ),
                command_class: (class % 65536) as u16,
                property,
                property_key: opt_property(id.field("propertyKey"@)),
                value,
                notification,
            },
        ),
        _ => None,
    }
}

fn build_update(node: u64, id: &Json, value: &Json, notification: bool) -> (r: Option<ValueUpdate>)
    ensures
        match r {
            Some(u) => update_from(node, id@, value@, notification) == Some(u@),
            None => update_from(node, id@, value@, notification) is None,
        },
{
    let class: u64 = match id.u64_of("commandClass") {
        Some(c) => c,
        None => return None,
    };
    let property = match property_under(id, "property") {
        Some(p) => p,
        None => return None,
    };
    let endpoint: u16 = match id.u64_of("endpoint") {
        Some(e) => (e % 65536) as u16,
        None => 0,
    };
    Some(
        ValueUpdate {
            node: NodeId((node % 0x1_0000_0000) as u32),
            endpoint: EndpointId(endpoint),
            command_class: (class % 65536) as u16,
            property,
            property_key: property_under(id, "propertyKey"),
            value: value.copy(),
            notification,
        },
    )
}

/// A node's event: a press that carries its value, or a value that has changed.
pub open spec fn event_update(event: JsonV) -> Option<UpdateV> {
    let kind = text_under(event, "event"@);
    let notification = kind == Some("value notification"@);
    if text_under(event, "source"@) != Some("node"@) {
        None
    } else if !notification && kind != Some("value updated"@) {
        None
    } else {
        match (whole_under(event, "nodeId"@), event.field("args"@)) {
            (Some(node), Some(args)) => {
                let value = if notification {
                    args.field("value"@)
                } else {
                    match args.field("newValue"@) {
                        Some(v) => Some(v),
                        None => args.field("value"@),
                    }
                };
                match value {
                    Some(v) => update_from(node, args, v, notification),
                    None => None,
                }
            },
            _ => None,
        }
    }
}

fn parse_event(event: &Json) -> (r: Option<ValueUpdate>)
    ensures
        match r {
            Some(u) => event_update(event@) == Some(u@),
            None => event_update(event@) is None,
        },
{
    match event.str_of("source") {
        Some(s) => {
            if !same(s.as_str(), "node") {
                return None;
            }
        },
        None => return None,
    }
    let notification: bool = match event.str_of("event") {
        Some(k) => {
            if same(k.as_str(), "value notification") {
                true
            } else if same(k.as_str(), "value updated") {
                false
            } else {
                return None;
            }
        },
        None => return None,
    };
    let node: u64 = match event.u64_of("nodeId") {
        Some(n) => n,
        None => return None,
    };
    let args = match event.get("args") {
        Some(a) => a,
        None => return None,
    };
    let value: Option<&Json> = if notification {
        args.get("value")
    } else {
        match args.get("newValue") {
            Some(v) => Some(v),
            None => args.get("value"),
        }
    };
    match value {
        Some(v) => build_update(node, args, v, notification),
        None => None,
    }
}

/// The updates among the first `n` values of a node. Snapshots are never presses.
pub open spec fn node_values(node: u64, values: Seq<JsonV>, n: nat) -> Seq<UpdateV>
    decreases n,
{
    if n == 0 {
        Seq::empty()
    } else {
        let before = node_values(node, values, (n - 1) as nat);
        match values[n - 1].field("value"@) {
            Some(v) => match update_from(node, values[n - 1], v, false) {
                Some(u) => before.push(u),
                None => before,
            },
            None => before,
        }
    }
}

/// The updates in one node object of a snapshot.
pub open spec fn node_updates(node: JsonV) -> Seq<UpdateV> {
    match (whole_under(node, "nodeId"@), node.field("values"@)) {
        (Some(id), Some(JsonV::List(values))) => node_values(id, values, values.len()),
        _ => Seq::empty(),
    }
}

fn parse_node_snapshot(node: &Json, out: &mut Vec<ValueUpdate>)
    ensures
        update_views(final(out)@) == update_views(old(out)@) + node_updates(node@),
{
    let ghost before = update_views(out@);
    assert(before + Seq::<UpdateV>::empty() =~= before);
    let id: u64 = match node.u64_of("nodeId") {
        Some(id) => id,
        None => return ,
    };
    if let Some(Json::List(values)) = node.get("values") {
        let ghost all = item_views(*values, values@.len());
        proof {
            lemma_items(*values, values@.len());
        }
        let mut i: usize = 0;
        while i < values.len()
            invariant
                i <= values@.len() == all.len(),
                forall|k: int| 0 <= k < all.len() ==> #[trigger] all[k] == values@[k]@,
                update_views(out@) == before + node_values(id, all, i as nat),
            decreases values@.len() - i,
        {
            assert(all[i as int] == values@[i as int]@);
            if let Some(v) = values[i].get("value") {
                if let Some(u) = build_update(id, &values[i], v, false) {
                    let ghost was = out@;
                    out.push(u);
                    assert(update_views(out@) =~= update_views(was).push(u@));
                    assert(update_views(out@) =~= before + node_values(id, all, (i + 1) as nat));
                }
            }
            i += 1;
        }
    }
}

/// The updates in the first `n` nodes of a snapshot.
pub open spec fn snapshot_updates(nodes: Seq<JsonV>, n: nat) -> Seq<UpdateV>
    decreases n,
{
    if n == 0 {
        Seq::empty()
    } else {
        snapshot_updates(nodes, (n - 1) as nat) + node_updates(nodes[n - 1])
    }
}

/// The nodes of a snapshot: `result.state.nodes`.
pub open spec fn snapshot_nodes(v: JsonV) -> Option<Seq<JsonV>> {
    match v.field("result"@) {
        Some(result) => match result.field("state"@) {
            Some(state) => match state.field("nodes"@) {
                Some(JsonV::List(nodes)) => Some(nodes),
                _ => None,
            },
            None => None,
        },
        None => None,
    }
}

/// The updates in one server frame: an event, or the snapshot that answers
/// `start_listening`. Everything else is ignored.
pub open spec fn frame_updates(v: JsonV) -> Seq<UpdateV> {
    if text_under(v, "type"@) == Some("event"@) {
        match v.field("event"@) {
            Some(event) => match event_update(event) {
                Some(u) => seq![u],
                None => Seq::empty(),
            },
            None => Seq::empty(),
        }
    } else {
        match snapshot_nodes(v) {
            Some(nodes) => snapshot_updates(nodes, nodes.len()),
            None => Seq::empty(),
        }
    }
}

/// Read the updates out of one server frame.
pub fn parse_frame(v: &Json) -> (r: Vec<ValueUpdate>)
    ensures
        update_views(r@) == frame_updates(v@),
{
    let mut out: Vec<ValueUpdate> = Vec::new();
    assert(update_views(out@) =~= Seq::empty());
    let is_event: bool = match v.str_of("type") {
        Some(t) => same(t.as_str(), "event"),
        None => false,
    };
    if is_event {
        if let Some(event) = v.get("event") {
            if let Some(u) = parse_event(event) {
                out.push(u);
                assert(update_views(out@) =~= seq![u@]);
            }
        }
        return out;
    }
    if let Some(result) = v.get("result") {
        if let Some(state) = result.get("state") {
            if let Some(Json::List(nodes)) = state.get("nodes") {
                let ghost all = item_views(*nodes, nodes@.len());
                proof {
                    lemma_items(*nodes, nodes@.len());
                }
                let mut i: usize = 0;
                while i < nodes.len()
                    invariant
                        i <= nodes@.len() == all.len(),
                        forall|k: int| 0 <= k < all.len() ==> #[trigger] all[k] == nodes@[k]@,
                        update_views(out@) == snapshot_updates(all, i as nat),
                    decreases nodes@.len() - i,
                {
                    assert(all[i as int] == nodes@[i as int]@);
                    parse_node_snapshot(&nodes[i], &mut out);
                    i += 1;
                }
            }
        }
    }
    out
}

/// Parse one inbound server text frame into zero or more value updates. A frame that
/// is not JSON has none.
pub fn parse_inbound(txt: &str) -> (r: Vec<ValueUpdate>)
    ensures
        update_views(r@) == match json_read(vstd::utf8::encode_utf8(txt@)) {
            Some(v) => frame_updates(v),
            None => Seq::empty(),
        },
{
    match read_json(txt.as_bytes()) {
        Some(v) => parse_frame(&v),
        None => {
            let out: Vec<ValueUpdate> = Vec::new();
            assert(update_views(out@) =~= Seq::empty());
            out
        },
    }
}

/// The newest server API schema version that is understood.
pub const MAX_SCHEMA_VERSION: u64 = 41;

/// The version to ask for where the server does not say what it has.
pub const FALLBACK_SCHEMA: u64 = 33;

/// The schema version to request: the server's newest, capped at ours.
pub open spec fn schema_of(version: Option<JsonV>) -> u64 {
    match version {
        Some(v) => match whole_under(v, "maxSchemaVersion"@) {
            Some(max) => if max < MAX_SCHEMA_VERSION {
                max
            } else {
                MAX_SCHEMA_VERSION
            },
            None => FALLBACK_SCHEMA,
        },
        None => FALLBACK_SCHEMA,
    }
}

/// Pick the schema version from the server's opening frame.
pub fn schema_from(version: Option<&Json>) -> (r: u64)
    ensures
        r == schema_of(
            match version {
                Some(v) => Some(v@),
                None => None,
            },
        ),
{
    match version {
        Some(v) => match v.u64_of("maxSchemaVersion") {
            Some(max) => {
                if max < MAX_SCHEMA_VERSION {
                    max
                } else {
                    MAX_SCHEMA_VERSION
                }
            },
            None => FALLBACK_SCHEMA,
        },
        None => FALLBACK_SCHEMA,
    }
}

/// Pick the schema version from the text of the server's opening frame, if there was
/// one.
pub fn negotiate_schema(frame: Option<&str>) -> (r: u64)
    ensures
        r == match frame {
            Some(txt) => schema_of(json_read(vstd::utf8::encode_utf8(txt@))),
            None => FALLBACK_SCHEMA,
        },
{
    match frame {
        Some(txt) => match read_json(txt.as_bytes()) {
            Some(v) => schema_from(Some(&v)),
            None => schema_from(None),
        },
        None => schema_from(None),
    }
}

/// The frame that sets the schema version.
pub fn schema_frame(schema: u64) -> (r: String)
    ensures
        r@ == json_text(
            JsonV::object().with("messageId"@, JsonV::Text("set_api_schema"@)).with(
                "command"@,
                JsonV::Text("set_api_schema"@),
            ).with("schemaVersion"@, JsonV::Whole(schema)),
        ),
{
    let frame = Json::object().with("messageId", Json::text("set_api_schema")).with(
        "command",
        Json::text("set_api_schema"),
    ).with("schemaVersion", Json::Whole(schema));
    write_json(&frame)
}

/// The frame that subscribes to updates and asks for a snapshot.
pub fn listen_frame() -> (r: String)
    ensures
        r@ == json_text(
            JsonV::object().with("messageId"@, JsonV::Text("start_listening"@)).with(
                "command"@,
                JsonV::Text("start_listening"@),
            ),
        ),
{
    let frame = Json::object().with("messageId", Json::text("start_listening")).with(
        "command",
        Json::text("start_listening"),
    );
    write_json(&frame)
}

// ------------------------------------------------------------ the adapter

/// Where the first `n` devices live, and what they are.
pub open spec fn homes_of(devices: Seq<(DeviceId, NodeId, EndpointId, DeviceKind)>, n: nat) -> Map<
    DeviceId,
    (Address, DeviceKind),
>
    decreases n,
{
    if n == 0 {
        Map::empty()
    } else {
        let d = devices[n - 1];
        homes_of(devices, (n - 1) as nat).insert(d.0, (Address(d.1, d.2), d.3))
    }
}

/// Who lives at an address.
pub open spec fn residents(
    devices: Seq<(DeviceId, NodeId, EndpointId, DeviceKind)>,
    n: nat,
) -> Map<Address, DeviceId>
    decreases n,
{
    if n == 0 {
        Map::empty()
    } else {
        let d = devices[n - 1];
        residents(devices, (n - 1) as nat).insert(Address(d.1, d.2), d.0)
    }
}

fn hold_client<T: ZwaveClient + ?Sized>(inner: Box<T>) -> (r: Held<T>)
    ensures
        r.inner == inner,
        r.inner.traffic() == inner.traffic(),
{
    Held { inner }
}

/// Adapter that bridges a set of Z-Wave nodes to the engine.
pub struct ZwaveAdapter {
    by_id: Table<DeviceId, (Address, DeviceKind)>,
    by_node: Table<Address, DeviceId>,
    /// The declared events: per device, the raw Central Scene string such as
    /// `"1:KeyPressed"`.
    actions: Table<ActionKey, ActionId>,
    client: Held<dyn ZwaveClient>,
    /// Every call so far.
    heard: Ghost<Seq<Call>>,
}

impl ZwaveAdapter {
    pub closed spec fn homes(&self) -> Map<DeviceId, (Address, DeviceKind)> {
        self.by_id@
    }

    pub closed spec fn at(&self) -> Map<Address, DeviceId> {
        self.by_node@
    }

    pub closed spec fn declared(&self) -> Actions {
        self.actions@
    }

    /// What has passed through the client so far.
    pub closed spec fn traffic(&self) -> Option<Seq<ZwaveTraffic>> {
        self.client.inner.traffic()
    }

    /// What never changes.
    pub open spec fn setup(&self) -> (
        Map<DeviceId, (Address, DeviceKind)>,
        Map<Address, DeviceId>,
        Actions,
    ) {
        (self.homes(), self.at(), self.declared())
    }

    /// `devices` gives each device its node, endpoint and kind; `events` the raw
    /// Central Scene strings each can emit.
    pub fn new(
        devices: Vec<(DeviceId, NodeId, EndpointId, DeviceKind)>,
        events: Vec<(DeviceId, String, ActionId)>,
        client: Box<dyn ZwaveClient>,
    ) -> (r: Self)
        ensures
            r.homes() == homes_of(devices@, devices@.len()),
            r.at() == residents(devices@, devices@.len()),
            r.declared() == declared_actions(events@, events@.len()),
            r.traffic() == client.traffic(),
            r.heard() == Some(Seq::<Call>::empty()),
    {
        let mut by_id: Table<DeviceId, (Address, DeviceKind)> = Table::new();
        let mut by_node: Table<Address, DeviceId> = Table::new();
        let mut i: usize = 0;
        while i < devices.len()
            invariant
                i <= devices@.len(),
                by_id@ == homes_of(devices@, i as nat),
                by_node@ == residents(devices@, i as nat),
            decreases devices@.len() - i,
        {
            let (id, node, endpoint, kind) = devices[i];
            by_id.insert(id, (Address(node, endpoint), kind));
            by_node.insert(Address(node, endpoint), id);
            i += 1;
        }
        let held = hold_client(client);
        ZwaveAdapter {
            by_id,
            by_node,
            actions: index_actions(events),
            client: held,
            heard: Ghost(Seq::empty()),
        }
    }

    /// Hand a value to the client.
    fn write(&mut self, address: Address, set: &SetValue) -> (r: Result<(), String>)
        ensures
            final(self).traffic() == noted(
                old(self).traffic(),
                Traffic::Sent { message: (address, set@), error: error_of(r) },
            ),
            final(self).setup() == old(self).setup(),
            final(self).heard == old(self).heard,
    {
        self.client.inner.set_value(address.0, address.1, set)
    }

    /// What some updates report, in their order.
    pub fn events_of(&self, updates: &Vec<ValueUpdate>) -> (r: Vec<Event>)
        ensures
            event_views(r@) == polled_events(self.at(), self.declared(), update_views(updates@)),
    {
        let ghost all = update_views(updates@);
        let mut events: Vec<Event> = Vec::new();
        let mut i: usize = 0;
        assert(all.take(0) =~= Seq::empty());
        assert(event_views(events@) =~= Seq::empty());
        while i < updates.len()
            invariant
                i <= updates@.len(),
                all == update_views(updates@),
                event_views(events@) == polled_events(
                    self.at(),
                    self.declared(),
                    all.take(i as int),
                ),
            decreases updates@.len() - i,
        {
            assert(all.take(i + 1).drop_last() =~= all.take(i as int));
            assert(all.take(i + 1).last() == updates@[i as int]@);
            let mut more = update_to_events(&self.by_node, &self.actions, &updates[i]);
            let ghost was = events@;
            let ghost added = more@;
            events.append(&mut more);
            assert(event_views(events@) =~= event_views(was) + event_views(added));
            i += 1;
        }
        assert(all.take(i as int) =~= all);
        events
    }

    /// What to set for a command, or why nothing can be.
    pub fn outgoing(&self, cmd: &Command) -> (r: Result<(Address, SetValue), &'static str>)
        ensures
            match (outgoing_of(self.homes(), cmd@), r) {
                (Ok(o), Ok((address, set))) => o == (address, set@),
                (Err(why), Err(w)) => w@ == why,
                _ => false,
            },
    {
        let device: DeviceId = match cmd.target_device() {
            Some(d) => d,
            None => return Err("command has no target device"),
        };
        let (address, kind): (Address, DeviceKind) = match self.by_id.get(&device) {
            Some(h) => *h,
            None => return Err("device is not managed by this adapter"),
        };
        match command_to_set_value(kind, cmd) {
            Some(set) => Ok((address, set)),
            None => Err("command unsupported by z-wave"),
        }
    }
}

/// The address and value to set for a command, or why there is none.
pub open spec fn outgoing_of(
    homes: Map<DeviceId, (Address, DeviceKind)>,
    cmd: CommandV,
) -> Result<(Address, SetV), Seq<char>> {
    match cmd.target() {
        None => Err("command has no target device"@),
        Some(device) => if !homes.contains_key(device) {
            Err("device is not managed by this adapter"@)
        } else {
            match set_value_of(homes[device].1, cmd) {
                Some(set) => Ok((homes[device].0, set)),
                None => Err("command unsupported by z-wave"@),
            }
        },
    }
}

/// What several updates say, in their order.
pub open spec fn polled_events(
    at: Map<Address, DeviceId>,
    actions: Actions,
    us: Seq<UpdateV>,
) -> Seq<EventV>
    decreases us.len(),
{
    if us.len() == 0 {
        Seq::empty()
    } else {
        polled_events(at, actions, us.drop_last()) + update_events(at, actions, us.last())
    }
}

impl Adapter for ZwaveAdapter {
    closed spec fn heard(&self) -> Option<Seq<Call>> {
        Some(self.heard@)
    }

    open spec fn wakes(&self, now: Millis) -> Option<Millis> {
        None
    }

    fn dispatch(&mut self, cmd: &Command, now: Millis) -> (out: DispatchOutcome)
        ensures
            final(self).setup() == old(self).setup(),
            match outgoing_of(old(self).homes(), cmd@) {
                Ok(o) => exists|error: Option<Seq<char>>|
                    out@ == #[trigger] send_reply(error) && final(self).traffic() == noted(
                        old(self).traffic(),
                        Traffic::Sent { message: o, error },
                    ),
                Err(why) => out@ == OutcomeV::Permanent(why) && final(self).traffic() == old(
                    self,
                ).traffic(),
            },
    {
        let out = match self.outgoing(cmd) {
            Ok((address, set)) => {
                let answer = self.write(address, &set);
                let ghost error = error_of(answer);
                let out = sent(answer);
                assert(out@ == send_reply(error));
                out
            },
            Err(why) => DispatchOutcome::permanent(why),
        };
        proof {
            self.heard@ = self.heard@.push(
                Call::Dispatch { command: cmd@, now, outcome: out@ },
            );
        }
        out
    }

    fn tick(&mut self, now: Millis) -> (out: Vec<Event>)
        ensures
            final(self).setup() == old(self).setup(),
            exists|us: Seq<UpdateV>|
                event_views(out@) == #[trigger] polled_events(
                    old(self).at(),
                    old(self).declared(),
                    us,
                ) && final(self).traffic() == noted(
                    old(self).traffic(),
                    Traffic::Polled { items: us },
                ),
    {
        // No explicit priming: the snapshot on connect is replayed as value updates.
        let updates = self.client.inner.poll();
        let out = self.events_of(&updates);
        proof {
            assert(event_views(out@) == polled_events(
                old(self).at(),
                old(self).declared(),
                update_views(updates@),
            ));
            self.heard@ = self.heard@.push(Call::Tick { now, events: event_views(out@) });
        }
        out
    }

    fn next_wake(&self, now: Millis) -> (out: Option<Millis>) {
        None
    }
}

/// The devices of the first `n` whose address is a node id, with the root endpoint
/// where none is given.
pub open spec fn targets_of(devices: Seq<DeviceV>, n: nat) -> Seq<
    (DeviceId, NodeId, EndpointId, DeviceKind),
>
    decreases n,
{
    if n == 0 {
        Seq::empty()
    } else {
        let before = targets_of(devices, (n - 1) as nat);
        let d = devices[n - 1];
        match d.address {
            Some(addr) => match number_up_to(addr, u32::MAX as nat) {
                Some(node) => before.push(
                    (
                        d.id,
                        NodeId(node as u32),
                        EndpointId(match d.endpoint { Some(e) => e, None => 0 }),
                        kind_from(d.capabilities),
                    ),
                ),
                None => before,
            },
            None => before,
        }
    }
}

/// Where the adapter's devices live, and what they are.
pub fn targets(devices: &Vec<&DeviceDef>) -> (r: Vec<(DeviceId, NodeId, EndpointId, DeviceKind)>)
    ensures
        r@ == targets_of(devices@.map_values(|d: &DeviceDef| d@), devices@.len()),
{
    let ghost all = devices@.map_values(|d: &DeviceDef| d@);
    let mut out: Vec<(DeviceId, NodeId, EndpointId, DeviceKind)> = Vec::new();
    let mut i: usize = 0;
    while i < devices.len()
        invariant
            i <= devices@.len(),
            all == devices@.map_values(|d: &DeviceDef| d@),
            out@ == targets_of(all, i as nat),
        decreases devices@.len() - i,
    {
        let d = devices[i];
        assert(all[i as int] == d@);
        if let Some(addr) = &d.address {
            if let Some(node) = parse_up_to(addr.as_str(), 4_294_967_295) {
                let endpoint: u16 = match d.endpoint {
                    Some(e) => e,
                    None => 0,
                };
                let kind = DeviceKind::from_capabilities(&d.capabilities);
                out.push((d.id, NodeId(node as u32), EndpointId(endpoint), kind));
            }
        }
        i += 1;
    }
    out
}

// ------------------------------------------------------------ laws

/// A value replayed on connect never presses a button.
pub proof fn replay_presses_no_button(
    by_node: Map<Address, DeviceId>,
    actions: Actions,
    u: UpdateV,
)
    requires
        !u.notification,
        u.command_class == CC_CENTRAL_SCENE,
        u.property == "scene"@,
    ensures
        update_events(by_node, actions, u).len() == 0,
{
}

/// A dimmer's level reports brightness and switch together, and they agree: off is
/// exactly level 0.
pub proof fn dimmer_level_implies_switch(device: DeviceId, u: UpdateV, level: u64)
    requires
        u.command_class == CC_MULTILEVEL_SWITCH,
        u.property == "currentValue"@,
        u.value == JsonV::Whole(level),
    ensures
        value_events(device, u) == seq![
            EventV::StateReported {
                device,
                state: CapabilityState::Brightness(zwave_pct(level as int) as u8),
            },
            EventV::StateReported { device, state: CapabilityState::Switch(level > 0) },
        ],
{
    assert(value_events(device, u) =~= seq![
        EventV::StateReported {
            device,
            state: CapabilityState::Brightness(zwave_pct(level as int) as u8),
        },
        EventV::StateReported { device, state: CapabilityState::Switch(level > 0) },
    ]);
}

/// Our own intent echoed back (`targetValue`) is never folded.
pub proof fn target_values_are_not_state(device: DeviceId, u: UpdateV)
    requires
        u.property == "targetValue"@,
    ensures
        value_events(device, u).len() == 0,
{
    reveal_strlit("targetValue");
    reveal_strlit("currentValue");
    reveal_strlit("level");
    reveal_strlit("currentColor");
    reveal_strlit("Home Security");
    assert("targetValue"@.len() == 11);
    assert("currentValue"@.len() == 12);
    assert("level"@.len() == 5);
    assert("currentColor"@.len() == 12);
    assert("Home Security"@.len() == 13);
}

/// Registers the adapter (`type: zwavejs`) with the compiler.
#[derive(Debug)]
pub struct Plugin;

impl AdapterPlugin for Plugin {
    open spec fn tag(&self) -> Seq<char> {
        "zwavejs"@
    }

    open spec fn direction(&self) -> Polarity {
        Polarity::Southbound
    }

    open spec fn config_findings(&self, config: RawAdapterConfig, at: Seq<char>) -> Seq<Finding> {
        match config.controller {
            Ok(c) => if is_websocket_url(c.url@) {
                Seq::empty()
            } else {
                seq![
                    error_at(
                        "E_BAD_URL"@,
                        "zwavejs server url must be ws:// or wss:// — got '"@ + c.url@ + "'"@,
                        at,
                    ),
                ]
            },
            Err(why) => bad_config(why@, at),
        }
    }

    open spec fn device_findings(&self, device: DeviceV, at: Seq<char>) -> Seq<Finding> {
        match device.address {
            None => seq![
                error_at(
                    "E_MISSING_ADDRESS"@,
                    "zwavejs devices need an `address` (the decimal node_id from inclusion)"@,
                    at,
                ),
            ],
            Some(addr) => if number_up_to(addr, u32::MAX as nat) is Some {
                Seq::empty()
            } else {
                seq![
                    error_at(
                        "E_BAD_ADDRESS"@,
                        "zwavejs `address` must be a decimal node_id — got '"@ + addr + "'"@,
                        at,
                    ),
                ]
            },
        }
    }

    open spec fn exposed(&self, config: RawAdapterConfig) -> Option<ExposeV> {
        None
    }

    fn type_tag(&self) -> (r: &'static str) {
        "zwavejs"
    }

    fn polarity(&self) -> (r: Polarity) {
        Polarity::Southbound
    }

    fn expose_spec(&self, config: &RawAdapterConfig) -> (r: Option<ExposeSpec>) {
        None
    }

    fn validate_config(&self, config: &RawAdapterConfig, at: &str, diags: &mut Vec<Diagnostic>) {
        match &config.controller {
            Ok(c) => {
                if websocket_url(c.url.as_str()) {
                    assert(findings(diags@) + Seq::<Finding>::empty() =~= findings(diags@));
                } else {
                    let msg = cat3(
                        "zwavejs server url must be ws:// or wss:// — got '",
                        c.url.as_str(),
                        "'",
                    );
                    report(diags, "E_BAD_URL", msg, at);
                }
            },
            Err(why) => report(diags, "E_ADAPTER_CONFIG", why.clone(), at),
        }
    }

    fn validate_device(&self, device: &DeviceDef, at: &str, diags: &mut Vec<Diagnostic>) {
        match &device.address {
            None => {
                let msg = "zwavejs devices need an `address` (the decimal node_id from inclusion)".to_owned();
                report(diags, "E_MISSING_ADDRESS", msg, at);
            },
            Some(addr) => {
                if parse_up_to(addr.as_str(), 4_294_967_295).is_some() {
                    assert(findings(diags@) + Seq::<Finding>::empty() =~= findings(diags@));
                } else {
                    let msg = cat3(
                        "zwavejs `address` must be a decimal node_id — got '",
                        addr.as_str(),
                        "'",
                    );
                    report(diags, "E_BAD_ADDRESS", msg, at);
                }
            },
        }
    }
}

} // verus!
