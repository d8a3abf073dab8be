//! The zigbee2mqtt adapter: canonical events and commands to and from z2m MQTT JSON.
//!
//! The deterministic engine core is synchronous, but MQTT is asynchronous and
//! network-driven. The seam between them is [`MqttTransport`]: the adapter only ever
//! *publishes* and *polls* through it. The protocol translation is pure.
//!
//! ```text
//!   z2m publish ─▶ MqttTransport::poll ─▶ message_to_events ─▶ Event (tick)
//!   Command ─▶ command_to_publish ─▶ MqttTransport::publish ─▶ z2m /set
//! ```

use vstd::prelude::*;

use super::plugin::{bad_config, report, AdapterPlugin, ExposeSpec, ExposeV, Polarity};
use crate::compile::ast::RawAdapterConfig;
use crate::compile::diagnostic::{error_at, findings, Diagnostic, Finding};
use crate::compile::resolve::{DeviceDef, DeviceV};
use crate::ids::{ActionId, DeviceId};
use crate::json::{
    flag_under, json_read, json_text, read_json, text_under, whole_under, write_json, Json, JsonV,
};
use crate::model::{
    event_views, CapabilityKind, CapabilityState, Command, CommandV, Event, EventV, Millis,
};
use crate::table::{Key, Table};
use crate::text::{
    cat2, cat3, cat4, chars_of, decimal, decimal_is_injective, decimal_text, find_char, has_prefix, is_char, number_up_to, parse_up_to, position,
    rsplit_once, split_last, string_of, strip_prefix,
};
use super::{
    action_event, declared_actions, error_of, index_actions, level_of, level_to_pct, noted,
    noted_all, pct_of, pct_to_level, percentage_survives_level, push_action, push_state, send_reply,
    sent, state_event, ActionKey, Actions, Adapter, Call, DispatchOutcome, Held, OutcomeV, Traffic,
};

verus! {

/// A text without the slashes at its end.
pub open spec fn without_slashes(s: Seq<char>) -> Seq<char>
    decreases s.len(),
{
    if s.len() > 0 && s.last() == '/' {
        without_slashes(s.drop_last())
    } else {
        s
    }
}

fn trim_slashes(s: &str) -> (r: String)
    ensures
        r@ == without_slashes(s@),
{
    let cs = chars_of(s);
    let mut n: usize = cs.len();
    assert(s@.take(n as int) =~= s@);
    while n > 0 && cs[n - 1] == '/'
        invariant
            n <= cs@.len(),
            cs@ == s@,
            without_slashes(s@) == without_slashes(s@.take(n as int)),
        decreases n,
    {
        assert(s@.take(n as int).drop_last() =~= s@.take(n - 1));
        n -= 1;
    }
    let r = string_of(&cs, 0, n);
    assert(r@ =~= s@.take(n as int));
    r
}

/// The part of a broker's URL behind its scheme.
pub open spec fn behind_scheme(url: Seq<char>) -> Seq<char> {
    if has_prefix(url, "mqtt://"@) {
        url.skip("mqtt://"@.len() as int)
    } else if has_prefix(url, "tcp://"@) {
        url.skip("tcp://"@.len() as int)
    } else {
        url
    }
}

/// The host and port of `mqtt://host:port`: the scheme is optional, and the port
/// defaults to 1883.
pub open spec fn broker_of(url: Seq<char>) -> Option<(Seq<char>, nat)> {
    let rest = without_slashes(behind_scheme(url));
    match split_last(rest, ':') {
        Some((host, port)) => match number_up_to(port, u16::MAX as nat) {
            Some(p) => if host.len() == 0 {
                None
            } else {
                Some((host, p))
            },
            None => None,
        },
        None => if rest.len() == 0 {
            None
        } else {
            Some((rest, 1883))
        },
    }
}

/// Parse `mqtt://host:port` (scheme optional, port defaults to 1883).
pub fn parse_mqtt_url(url: &str) -> (r: Option<(String, u16)>)
    ensures
        match r {
            Some((host, port)) => broker_of(url@) == Some((host@, port as nat)),
            None => broker_of(url@) is None,
        },
{
    let behind: String = match strip_prefix(url, "mqtt://") {
        Some(rest) => rest,
        None => match strip_prefix(url, "tcp://") {
            Some(rest) => rest,
            None => url.to_owned(),
        },
    };
    let rest = trim_slashes(behind.as_str());
    match rsplit_once(rest.as_str(), ':') {
        Some((host, port)) => match parse_up_to(port.as_str(), 65535) {
            Some(p) => {
                if host.as_str().is_empty() {
                    None
                } else {
                    Some((host, p as u16))
                }
            },
            None => None,
        },
        None => {
            if rest.as_str().is_empty() {
                None
            } else {
                Some((rest, 1883))
            }
        },
    }
}

/// Registers the zigbee2mqtt adapter (`type: zigbee2mqtt`) with the compiler.
#[derive(Debug)]
pub struct Plugin;

impl AdapterPlugin for Plugin {
    open spec fn tag(&self) -> Seq<char> {
        "zigbee2mqtt"@
    }

    open spec fn direction(&self) -> Polarity {
        Polarity::Southbound
    }

    open spec fn config_findings(&self, config: RawAdapterConfig, at: Seq<char>) -> Seq<Finding> {
        match config.broker {
            Ok(b) => if broker_of(b.url@) is Some {
                Seq::empty()
            } else {
                seq![error_at("E_BAD_URL"@, "invalid broker url '"@ + b.url@ + "'"@, at)]
            },
            Err(why) => bad_config(why@, at),
        }
    }

    open spec fn device_findings(&self, device: DeviceV, at: Seq<char>) -> Seq<Finding> {
        if device.address is None {
            seq![
                error_at(
                    "E_MISSING_ADDRESS"@,
                    "zigbee2mqtt devices need an `address` (the z2m friendly_name)"@,
                    at,
                ),
            ]
        } else {
            Seq::empty()
        }
    }

    open spec fn exposed(&self, config: RawAdapterConfig) -> Option<ExposeV> {
        None
    }

    fn type_tag(&self) -> (r: &'static str) {
        "zigbee2mqtt"
    }

    fn polarity(&self) -> (r: Polarity) {
        Polarity::Southbound
    }

    fn expose_spec(&self, config: &RawAdapterConfig) -> (r: Option<ExposeSpec>) {
        None
    }

    fn validate_config(&self, config: &RawAdapterConfig, at: &str, diags: &mut Vec<Diagnostic>) {
        match &config.broker {
            Ok(b) => {
                if parse_mqtt_url(b.url.as_str()).is_some() {
                    assert(findings(diags@) + Seq::<Finding>::empty() =~= findings(diags@));
                } else {
                    let msg = cat3("invalid broker url '", b.url.as_str(), "'");
                    report(diags, "E_BAD_URL", msg, at);
                }
            },
            Err(why) => report(diags, "E_ADAPTER_CONFIG", why.clone(), at),
        }
    }

    fn validate_device(&self, device: &DeviceDef, at: &str, diags: &mut Vec<Diagnostic>) {
        if device.address.is_none() {
            let msg = "zigbee2mqtt devices need an `address` (the z2m friendly_name)".to_owned();
            report(diags, "E_MISSING_ADDRESS", msg, at);
        } else {
            assert(findings(diags@) + Seq::<Finding>::empty() =~= findings(diags@));
        }
    }
}

/// One MQTT message, transport-agnostic.
#[derive(Debug)]
pub struct MqttMessage {
    pub topic: String,
    pub payload: Vec<u8>,
}

/// The seam between the synchronous engine and an asynchronous MQTT client.
pub trait MqttTransport {
    /// What has passed so far, where the transport keeps count: each topic and payload
    /// published, and the messages of each poll.
    open spec fn traffic(&self) -> Option<Seq<MqttTraffic>> {
        None
    }

    /// Publish a message. `Err` signals a transient failure.
    fn publish(&mut self, topic: &str, payload: &[u8]) -> (r: Result<(), String>)
        ensures
            final(self).traffic() == noted(
                old(self).traffic(),
                Traffic::Sent { message: (topic@, payload@), error: error_of(r) },
            ),
    ;

    /// Return every message received since the last call (non-blocking).
    fn poll(&mut self) -> (r: Vec<MqttMessage>)
        ensures
            final(self).traffic() == noted(old(self).traffic(), Traffic::Polled { items: r@ }),
    ;
}

pub type MqttTraffic = Traffic<(Seq<char>, Seq<u8>), MqttMessage>;

/// Messages sent with these errors.
pub open spec fn all_sent(
    messages: Seq<(Seq<char>, Seq<u8>)>,
    errors: Seq<Option<Seq<char>>>,
) -> Seq<MqttTraffic> {
    Seq::new(
        messages.len(),
        |i: int| Traffic::Sent { message: messages[i], error: errors[i] },
    )
}

// ------------------------------------------------------------ outward

/// One load as z2m names it: a friendly name, and on a multi-gang device the number of
/// the load.
#[derive(Debug)]
pub struct Load {
    pub name: String,
    pub gang: Option<u16>,
}

impl View for Load {
    type V = (Seq<char>, Option<u16>);

    open spec fn view(&self) -> (Seq<char>, Option<u16>) {
        (self.name@, self.gang)
    }
}

impl Key for Load {
    fn same(&self, other: &Self) -> (b: bool) {
        self.name == other.name && self.gang == other.gang
    }

    fn dup(&self) -> (r: Self) {
        Load { name: self.name.clone(), gang: self.gang }
    }
}

/// The member that holds a load's switch: `state_l1`, `state_l2`, … on a multi-gang
/// device, and `state` on any other.
pub open spec fn state_key(gang: Option<u16>) -> Seq<char> {
    match gang {
        Some(n) => "state_l"@ + decimal(n as nat),
        None => "state"@,
    }
}

fn state_key_text(gang: Option<u16>) -> (r: String)
    ensures
        r@ == state_key(gang),
{
    match gang {
        Some(n) => {
            let number = decimal_text(n as u64);
            cat2("state_l", number.as_str())
        },
        None => "state".to_owned(),
    }
}

/// The JSON that tells a load to do what a command says. Commands that z2m cannot
/// express, and those not addressed to a device, have none.
pub open spec fn load_body(gang: Option<u16>, cmd: CommandV) -> Option<JsonV> {
    match cmd {
        CommandV::SetSwitch { on, .. } => Some(
            JsonV::object().with(state_key(gang), JsonV::Text(if on { "ON"@ } else { "OFF"@ })),
        ),
        CommandV::SetBrightness { value, transition, .. } => {
            let body = JsonV::object().with(
                "brightness"@,
                JsonV::Whole(level_of(value as int) as u64),
            );
            match transition {
                // In seconds.
                Some(ms) => Some(body.with("transition"@, JsonV::Whole(ms / 1000))),
                None => Some(body),
            }
        },
        CommandV::ToggleSwitch { .. } => Some(
            JsonV::object().with(state_key(gang), JsonV::Text("TOGGLE"@)),
        ),
        _ => None,
    }
}

/// What [`load_body`] is to the only load of a device.
pub open spec fn publish_body(cmd: CommandV) -> Option<JsonV> {
    load_body(None, cmd)
}

/// `<base>/<friendly>/<what>`.
pub open spec fn device_topic(base: Seq<char>, friendly: Seq<char>, what: Seq<char>) -> Seq<char> {
    base + "/"@ + friendly + what
}

/// The body of a command's publish.
pub fn command_body(gang: Option<u16>, cmd: &Command) -> (r: Option<Json>)
    ensures
        match r {
            Some(j) => load_body(gang, cmd@) == Some(j@),
            None => load_body(gang, cmd@) is None,
        },
{
    match cmd {
        Command::SetSwitch { on, .. } => {
            let word: &str = if *on {
                "ON"
            } else {
                "OFF"
            };
            let key = state_key_text(gang);
            Some(Json::object().with(key.as_str(), Json::text(word)))
        },
        Command::SetBrightness { value, transition, .. } => {
            let body = Json::object().with("brightness", Json::Whole(pct_to_level(*value)));
            match transition {
                Some(ms) => Some(body.with("transition", Json::Whole(*ms / 1000))),
                None => Some(body),
            }
        },
        Command::ToggleSwitch { .. } => {
            let key = state_key_text(gang);
            Some(Json::object().with(key.as_str(), Json::text("TOGGLE")))
        },
        _ => None,
    }
}

/// Translate a canonical command into a z2m `<base>/<friendly>/set` publish for a device
/// with one load. `None` for commands that z2m has no form for.
pub fn command_to_publish(base: &str, friendly: &str, cmd: &Command) -> (r: Option<
    (String, Vec<u8>),
>)
    ensures
        match r {
            Some((topic, payload)) => publish_body(cmd@) is Some && topic@ == device_topic(
                base@,
                friendly@,
                "/set"@,
            ) && payload@ == vstd::utf8::encode_utf8(json_text(publish_body(cmd@)->0)),
            None => publish_body(cmd@) is None,
        },
{
    command_to_load(base, friendly, None, cmd)
}

/// Translate a canonical command into a z2m `<base>/<friendly>/set` publish for one load
/// of a device. `None` for commands that z2m has no form for.
pub fn command_to_load(base: &str, friendly: &str, gang: Option<u16>, cmd: &Command) -> (r: Option<
    (String, Vec<u8>),
>)
    ensures
        match r {
            Some((topic, payload)) => load_body(gang, cmd@) is Some && topic@ == device_topic(
                base@,
                friendly@,
                "/set"@,
            ) && payload@ == vstd::utf8::encode_utf8(json_text(load_body(gang, cmd@)->0)),
            None => load_body(gang, cmd@) is None,
        },
{
    match command_body(gang, cmd) {
        Some(body) => {
            let text = write_json(&body);
            let topic = cat4(base, "/", friendly, "/set");
            Some((topic, text.as_str().as_bytes_vec()))
        },
        None => None,
    }
}

/// The z2m attribute to read for a capability, for startup priming. Synthetic
/// capabilities have none, nor have those that sleepy devices report on their own
/// schedule.
pub open spec fn attribute_of(gang: Option<u16>, cap: CapabilityKind) -> Option<Seq<char>> {
    match cap {
        CapabilityKind::Switch => Some(state_key(gang)),
        CapabilityKind::Brightness => Some("brightness"@),
        CapabilityKind::ColorTemperature => Some("color_temp"@),
        _ => None,
    }
}

pub fn read_attr(gang: Option<u16>, cap: CapabilityKind) -> (r: Option<String>)
    ensures
        match r {
            Some(a) => attribute_of(gang, cap) == Some(a@),
            None => attribute_of(gang, cap) is None,
        },
{
    match cap {
        CapabilityKind::Switch => Some(state_key_text(gang)),
        CapabilityKind::Brightness => Some("brightness".to_owned()),
        CapabilityKind::ColorTemperature => Some("color_temp".to_owned()),
        _ => None,
    }
}

/// The JSON that asks for the readable capabilities: an empty text for each.
pub open spec fn read_body(gang: Option<u16>, caps: Seq<CapabilityKind>) -> JsonV
    decreases caps.len(),
{
    if caps.len() == 0 {
        JsonV::object()
    } else {
        match attribute_of(gang, caps.last()) {
            Some(attr) => read_body(gang, caps.drop_last()).with(attr, JsonV::Text(Seq::empty())),
            None => read_body(gang, caps.drop_last()),
        }
    }
}

pub open spec fn is_readable(caps: Seq<CapabilityKind>) -> bool {
    exists|i: int| 0 <= i < caps.len() && attribute_of(None, #[trigger] caps[i]) is Some
}

fn request_body(gang: Option<u16>, caps: &Vec<CapabilityKind>) -> (r: Option<Json>)
    ensures
        match r {
            Some(j) => is_readable(caps@) && j@ == read_body(gang, caps@),
            None => !is_readable(caps@),
        },
{
    let mut body = Json::object();
    let mut any = false;
    let mut i: usize = 0;
    assert(caps@.take(0) =~= Seq::empty());
    while i < caps.len()
        invariant
            i <= caps@.len(),
            body@ == read_body(gang, caps@.take(i as int)),
            any == (exists|j: int| 0 <= j < i && attribute_of(None, #[trigger] caps@[j]) is Some),
        decreases caps@.len() - i,
    {
        assert(caps@.take(i + 1).drop_last() =~= caps@.take(i as int));
        assert(caps@.take(i + 1).last() == caps@[i as int]);
        assert(attribute_of(gang, caps@[i as int]) is Some <==> attribute_of(
            None,
            caps@[i as int],
        ) is Some);
        if let Some(attr) = read_attr(gang, caps[i]) {
            let empty = String::new();
            assert(empty@ =~= Seq::empty());
            body = body.with(attr.as_str(), Json::Text(empty));
            any = true;
        }
        i += 1;
    }
    assert(caps@.take(i as int) =~= caps@);
    if any {
        Some(body)
    } else {
        None
    }
}

// ------------------------------------------------------------ inward

/// Whether a text says `ON`, in either case.
pub open spec fn says_on(s: Seq<char>) -> bool {
    s.len() == 2 && (s[0] == 'O' || s[0] == 'o') && (s[1] == 'N' || s[1] == 'n')
}

fn is_on(s: &str) -> (r: bool)
    ensures
        r == says_on(s@),
{
    let cs = chars_of(s);
    cs.len() == 2 && (cs[0] == 'O' || cs[0] == 'o') && (cs[1] == 'N' || cs[1] == 'n')
}

/// What a device's JSON reports of one load, member by member.
pub open spec fn reported_events(
    actions: Actions,
    device: DeviceId,
    gang: Option<u16>,
    j: JsonV,
) -> Seq<EventV> {
    let none = Seq::<EventV>::empty();
    let switch = match text_under(j, state_key(gang)) {
        Some(s) => state_event(device, CapabilityState::Switch(says_on(s))),
        None => none,
    };
    let brightness = match whole_under(j, "brightness"@) {
        Some(b) => state_event(device, CapabilityState::Brightness(pct_of(b as int) as u8)),
        None => none,
    };
    let occupancy = match flag_under(j, "occupancy"@) {
        Some(occupied) => seq![EventV::OccupancyChanged { device, occupied }],
        None => none,
    };
    let battery = match whole_under(j, "battery"@) {
        Some(b) => state_event(device, CapabilityState::Battery(if b < 100 { b as u8 } else { 100 })),
        None => none,
    };
    let action = match text_under(j, "action"@) {
        Some(raw) => action_event(actions, device, raw),
        None => none,
    };
    switch + brightness + occupancy + battery + action
}

/// Translate a device's JSON into canonical events. A stateless event fires only if
/// the device declared this raw `action` string.
pub fn json_to_events(
    actions: &Table<ActionKey, ActionId>,
    device: DeviceId,
    gang: Option<u16>,
    json: &Json,
) -> (r: Vec<Event>)
    ensures
        event_views(r@) == reported_events(actions@, device, gang, json@),
{
    let mut events: Vec<Event> = Vec::new();
    let ghost none = Seq::<EventV>::empty();
    assert(event_views(events@) =~= none);
    let ghost j = json@;
    let key = state_key_text(gang);
    if let Some(state) = json.str_of(key.as_str()) {
        push_state(&mut events, device, CapabilityState::Switch(is_on(state.as_str())));
    }
    let ghost e1 = event_views(events@);
    if let Some(b) = json.u64_of("brightness") {
        push_state(&mut events, device, CapabilityState::Brightness(level_to_pct(b)));
    }
    let ghost e2 = event_views(events@);
    if let Some(occupied) = json.bool_of("occupancy") {
        let ghost was = events@;
        events.push(Event::OccupancyChanged { device, occupied });
        assert(event_views(events@) =~= event_views(was).push(
            EventV::OccupancyChanged { device, occupied },
        ));
    }
    let ghost e3 = event_views(events@);
    if let Some(bat) = json.u64_of("battery") {
        let pct: u8 = if bat < 100 {
            bat as u8
        } else {
            100
        };
        push_state(&mut events, device, CapabilityState::Battery(pct));
    }
    let ghost e4 = event_views(events@);
    if let Some(raw) = json.str_of("action") {
        push_action(&mut events, actions, device, raw);
    }
    assert(event_views(events@) =~= reported_events(actions@, device, gang, json@));
    events
}

/// The friendly name that a topic speaks of: `<base>/<friendly>` and nothing deeper.
pub open spec fn topic_name(base: Seq<char>, topic: Seq<char>) -> Option<Seq<char>> {
    let prefix = base + "/"@;
    let friendly = topic.skip(prefix.len() as int);
    if has_prefix(topic, prefix) && position(friendly, is_char('/')) == friendly.len() {
        Some(friendly)
    } else {
        None
    }
}

/// What a device's JSON reports of those of some loads that have its name, in their
/// order.
pub open spec fn loads_reported(
    order: Seq<(Seq<char>, Option<u16>)>,
    ids: Map<(Seq<char>, Option<u16>), DeviceId>,
    actions: Actions,
    name: Seq<char>,
    j: JsonV,
) -> Seq<EventV>
    decreases order.len(),
{
    if order.len() == 0 {
        Seq::empty()
    } else {
        let before = loads_reported(order.drop_last(), ids, actions, name, j);
        let load = order.last();
        if load.0 == name {
            before + reported_events(actions, ids[load], load.1, j)
        } else {
            before
        }
    }
}

/// What a message reports: nothing, unless it is JSON about a known device.
pub open spec fn message_events(
    base: Seq<char>,
    order: Seq<(Seq<char>, Option<u16>)>,
    ids: Map<(Seq<char>, Option<u16>), DeviceId>,
    actions: Actions,
    topic: Seq<char>,
    payload: Seq<u8>,
) -> Seq<EventV> {
    match (topic_name(base, topic), json_read(payload)) {
        (Some(name), Some(j)) => loads_reported(order, ids, actions, name, j),
        _ => Seq::empty(),
    }
}

/// Translate an inbound z2m state publish into canonical events. Messages for
/// unknown devices, sub-topics (`/set`, `/get`), or the bridge are ignored. Every load
/// of a multi-gang device reads its own member.
pub fn message_to_events(
    base: &str,
    by_name: &Table<Load, DeviceId>,
    actions: &Table<ActionKey, ActionId>,
    msg: &MqttMessage,
) -> (r: Vec<Event>)
    ensures
        event_views(r@) == message_events(
            base@,
            by_name.order(),
            by_name@,
            actions@,
            msg.topic@,
            msg.payload@,
        ),
{
    let mut events: Vec<Event> = Vec::new();
    assert(event_views(events@) =~= Seq::empty());
    let prefix = cat2(base, "/");
    let friendly = match strip_prefix(msg.topic.as_str(), prefix.as_str()) {
        Some(f) => f,
        None => return events,
    };
    let cs = chars_of(friendly.as_str());
    if find_char(&cs, '/') < cs.len() {
        return events;
    }
    let json = match read_json(msg.payload.as_slice()) {
        Some(j) => j,
        None => return events,
    };
    let ghost order = by_name.order();
    let n: usize = by_name.len();
    let mut i: usize = 0;
    assert(order.take(0) =~= Seq::empty());
    while i < n
        invariant
            i <= n == order.len(),
            order == by_name.order(),
            event_views(events@) == loads_reported(
                order.take(i as int),
                by_name@,
                actions@,
                friendly@,
                json@,
            ),
        decreases n - i,
    {
        let (load, device) = by_name.at(i);
        assert(order.take(i + 1).drop_last() =~= order.take(i as int));
        assert(order.take(i + 1).last() == load@);
        if load.name == friendly {
            let ghost was = events@;
            let mut more = json_to_events(actions, *device, load.gang, &json);
            let ghost added = more@;
            events.append(&mut more);
            assert(event_views(events@) =~= event_views(was) + event_views(added));
        }
        i += 1;
    }
    assert(order.take(i as int) =~= order);
    events
}

// ------------------------------------------------------------ the adapter

fn hold_transport<T: MqttTransport + ?Sized>(inner: Box<T>) -> (r: Held<T>)
    ensures
        r.inner == inner,
        r.inner.traffic() == inner.traffic(),
{
    Held { inner }
}

/// Adapter that bridges a set of zigbee2mqtt devices to the engine.
pub struct Zigbee2MqttAdapter {
    base_topic: String,
    by_id: Table<DeviceId, Load>,
    by_name: Table<Load, DeviceId>,
    /// The declared events: per device, the raw z2m `action` string.
    actions: Table<ActionKey, ActionId>,
    transport: Held<dyn MqttTransport>,
    /// `<base>/<friendly>/get` publishes that prompt z2m to report each device's
    /// current state, sent once on the first `tick`. Without this, a condition that
    /// reads a device's state stays `Unknown` until the device happens to change.
    prime_requests: Vec<(String, Vec<u8>)>,
    primed: bool,
    /// Every call so far.
    heard: Ghost<Seq<Call>>,
}

/// The loads of the first `n` devices. A device listed twice has the later.
pub open spec fn loads_by_id(devices: Seq<(DeviceId, Load)>, n: nat) -> Map<DeviceId, Load>
    decreases n,
{
    if n == 0 {
        Map::empty()
    } else {
        loads_by_id(devices, (n - 1) as nat).insert(devices[n - 1].0, devices[n - 1].1)
    }
}

/// The first `n` devices by their loads.
pub open spec fn ids_by_load(devices: Seq<(DeviceId, Load)>, n: nat) -> Map<
    (Seq<char>, Option<u16>),
    DeviceId,
>
    decreases n,
{
    if n == 0 {
        Map::empty()
    } else {
        ids_by_load(devices, (n - 1) as nat).insert(devices[n - 1].1@, devices[n - 1].0)
    }
}

/// The loads of the first `n` devices, each once, in the order in which they are listed.
pub open spec fn load_order(devices: Seq<(DeviceId, Load)>, n: nat) -> Seq<
    (Seq<char>, Option<u16>),
>
    decreases n,
{
    if n == 0 {
        Seq::empty()
    } else {
        let before = load_order(devices, (n - 1) as nat);
        if ids_by_load(devices, (n - 1) as nat).contains_key(devices[n - 1].1@) {
            before
        } else {
            before.push(devices[n - 1].1@)
        }
    }
}

/// Devices with one load each.
pub open spec fn single_loads(devices: Seq<(DeviceId, String)>) -> Seq<(DeviceId, Load)> {
    devices.map_values(|d: (DeviceId, String)| (d.0, Load { name: d.1, gang: None }))
}

/// The requests that prime the first `n` devices: one for each that has a name and
/// something to read.
pub open spec fn prime_of(
    base: Seq<char>,
    loads: Map<DeviceId, Load>,
    caps: Seq<(DeviceId, Vec<CapabilityKind>)>,
    n: nat,
) -> Seq<(Seq<char>, Seq<u8>)>
    decreases n,
{
    if n == 0 {
        Seq::empty()
    } else {
        let before = prime_of(base, loads, caps, (n - 1) as nat);
        let (id, kinds) = caps[n - 1];
        if loads.contains_key(id) && is_readable(kinds@) {
            before.push(
                (
                    device_topic(base, loads[id].name@, "/get"@),
                    vstd::utf8::encode_utf8(json_text(read_body(loads[id].gang, kinds@))),
                ),
            )
        } else {
            before
        }
    }
}

pub open spec fn request_views(s: Seq<(String, Vec<u8>)>) -> Seq<(Seq<char>, Seq<u8>)> {
    s.map_values(|r: (String, Vec<u8>)| (r.0@, r.1@))
}

/// What the messages of a poll report, in their order.
pub open spec fn polled_events(
    base: Seq<char>,
    order: Seq<(Seq<char>, Option<u16>)>,
    ids: Map<(Seq<char>, Option<u16>), DeviceId>,
    actions: Actions,
    msgs: Seq<MqttMessage>,
) -> Seq<EventV>
    decreases msgs.len(),
{
    if msgs.len() == 0 {
        Seq::empty()
    } else {
        polled_events(base, order, ids, actions, msgs.drop_last()) + message_events(
            base,
            order,
            ids,
            actions,
            msgs.last().topic@,
            msgs.last().payload@,
        )
    }
}

/// What an adapter is set up with, once and for all.
pub struct Setup {
    pub base: Seq<char>,
    pub loads: Map<DeviceId, Load>,
    pub ids: Map<(Seq<char>, Option<u16>), DeviceId>,
    pub order: Seq<(Seq<char>, Option<u16>)>,
    pub declared: Actions,
    pub requests: Seq<(Seq<char>, Seq<u8>)>,
}

impl Zigbee2MqttAdapter {
    pub closed spec fn is_primed(&self) -> bool {
        self.primed
    }

    /// What has passed through the transport so far.
    pub closed spec fn traffic(&self) -> Option<Seq<MqttTraffic>> {
        self.transport.inner.traffic()
    }

    /// What never changes.
    pub closed spec fn setup(&self) -> Setup {
        Setup {
            base: self.base_topic@,
            loads: self.by_id@,
            ids: self.by_name@,
            order: self.by_name.order(),
            declared: self.actions@,
            requests: request_views(self.prime_requests@),
        }
    }

    /// `devices` gives each device its z2m friendly name, `events` the raw `action`
    /// strings each can emit, and `capabilities` what each declares, from which the
    /// startup requests are built.
    pub fn new(
        base_topic: &str,
        devices: Vec<(DeviceId, String)>,
        events: Vec<(DeviceId, String, ActionId)>,
        capabilities: Vec<(DeviceId, Vec<CapabilityKind>)>,
        transport: Box<dyn MqttTransport>,
    ) -> (r: Self)
        ensures
            r.setup() == set_up(
                base_topic@,
                single_loads(devices@),
                declared_actions(events@, events@.len()),
                capabilities@,
            ),
            !r.is_primed(),
            r.traffic() == transport.traffic(),
            r.heard() == Some(Seq::<Call>::empty()),
    {
        let mut loads: Vec<(DeviceId, Load)> = Vec::new();
        let mut i: usize = 0;
        while i < devices.len()
            invariant
                i <= devices@.len(),
                loads@.len() == i,
                forall|j: int| 0 <= j < i ==> #[trigger] loads@[j] == single_loads(devices@)[j],
            decreases devices@.len() - i,
        {
            loads.push((devices[i].0, Load { name: devices[i].1.clone(), gang: None }));
            i += 1;
        }
        assert(loads@ =~= single_loads(devices@));
        let held = hold_transport(transport);
        Self::over(base_topic, loads, events, capabilities, held)
    }

    /// What [`Zigbee2MqttAdapter::new`] is to devices of which several can be loads of
    /// one multi-gang device.
    pub fn with_loads(
        base_topic: &str,
        devices: Vec<(DeviceId, Load)>,
        events: Vec<(DeviceId, String, ActionId)>,
        capabilities: Vec<(DeviceId, Vec<CapabilityKind>)>,
        transport: Box<dyn MqttTransport>,
    ) -> (r: Self)
        ensures
            r.setup() == set_up(
                base_topic@,
                devices@,
                declared_actions(events@, events@.len()),
                capabilities@,
            ),
            !r.is_primed(),
            r.traffic() == transport.traffic(),
            r.heard() == Some(Seq::<Call>::empty()),
    {
        let held = hold_transport(transport);
        Self::over(base_topic, devices, events, capabilities, held)
    }

    fn over(
        base_topic: &str,
        devices: Vec<(DeviceId, Load)>,
        events: Vec<(DeviceId, String, ActionId)>,
        capabilities: Vec<(DeviceId, Vec<CapabilityKind>)>,
        held: Held<dyn MqttTransport>,
    ) -> (r: Self)
        ensures
            r.setup() == set_up(
                base_topic@,
                devices@,
                declared_actions(events@, events@.len()),
                capabilities@,
            ),
            !r.is_primed(),
            r.traffic() == held.inner.traffic(),
            r.heard() == Some(Seq::<Call>::empty()),
    {
        let mut by_id: Table<DeviceId, Load> = Table::new();
        let mut by_name: Table<Load, DeviceId> = Table::new();
        let mut i: usize = 0;
        while i < devices.len()
            invariant
                i <= devices@.len(),
                by_id@ == loads_by_id(devices@, i as nat),
                by_name@ == ids_by_load(devices@, i as nat),
                by_name.order() == load_order(devices@, i as nat),
            decreases devices@.len() - i,
        {
            let d = &devices[i];
            let load = Load { name: d.1.name.clone(), gang: d.1.gang };
            assert(load == d.1);
            by_name.insert(d.1.dup(), d.0);
            by_id.insert(d.0, load);
            i += 1;
        }
        let actions = index_actions(events);
        let mut prime_requests: Vec<(String, Vec<u8>)> = Vec::new();
        let mut k: usize = 0;
        assert(request_views(prime_requests@) =~= Seq::empty());
        while k < capabilities.len()
            invariant
                k <= capabilities@.len(),
                request_views(prime_requests@) == prime_of(
                    base_topic@,
                    by_id@,
                    capabilities@,
                    k as nat,
                ),
            decreases capabilities@.len() - k,
        {
            let entry = &capabilities[k];
            if let Some(load) = by_id.get(&entry.0) {
                if let Some(body) = request_body(load.gang, &entry.1) {
                    let topic = cat4(base_topic, "/", load.name.as_str(), "/get");
                    let payload = write_json(&body).as_str().as_bytes_vec();
                    let ghost was = prime_requests@;
                    prime_requests.push((topic, payload));
                    assert(request_views(prime_requests@) =~= request_views(was).push(
                        (topic@, payload@),
                    ));
                }
            }
            k += 1;
        }
        Zigbee2MqttAdapter {
            base_topic: base_topic.to_owned(),
            by_id,
            by_name,
            actions,
            transport: held,
            prime_requests,
            primed: false,
            heard: Ghost(Seq::empty()),
        }
    }

    /// Hand a message to the transport.
    fn publish(&mut self, topic: &str, payload: &[u8]) -> (r: Result<(), String>)
        ensures
            final(self).traffic() == noted(
                old(self).traffic(),
                Traffic::Sent { message: (topic@, payload@), error: error_of(r) },
            ),
            final(self).setup() == old(self).setup(),
            final(self).is_primed() == old(self).is_primed(),
            final(self).heard == old(self).heard,
    {
        self.transport.inner.publish(topic, payload)
    }

    /// What some messages report, in their order.
    pub fn events_of(&self, msgs: &Vec<MqttMessage>) -> (r: Vec<Event>)
        ensures
            event_views(r@) == polled_by(self.setup(), msgs@),
    {
        let mut events: Vec<Event> = Vec::new();
        let mut i: usize = 0;
        assert(msgs@.take(0) =~= Seq::empty());
        assert(event_views(events@) =~= Seq::empty());
        while i < msgs.len()
            invariant
                i <= msgs@.len(),
                event_views(events@) == polled_by(self.setup(), msgs@.take(i as int)),
            decreases msgs@.len() - i,
        {
            assert(msgs@.take(i + 1).drop_last() =~= msgs@.take(i as int));
            assert(msgs@.take(i + 1).last() == msgs@[i as int]);
            let mut more = message_to_events(
                self.base_topic.as_str(),
                &self.by_name,
                &self.actions,
                &msgs[i],
            );
            let ghost was = events@;
            let ghost added = more@;
            events.append(&mut more);
            assert(event_views(events@) =~= event_views(was) + event_views(added));
            i += 1;
        }
        assert(msgs@.take(i as int) =~= msgs@);
        events
    }

    /// What to publish for a command, or why nothing can be.
    pub fn outgoing(&self, cmd: &Command) -> (r: Result<(String, Vec<u8>), &'static str>)
        ensures
            match (outgoing_of(self.setup(), cmd@), r) {
                (Ok((topic, body)), Ok((t, p))) => t@ == topic && p@ == vstd::utf8::encode_utf8(
                    json_text(body),
                ),
                (Err(why), Err(w)) => w@ == why,
                _ => false,
            },
    {
        let device: DeviceId = match cmd.target_device() {
            Some(d) => d,
            None => return Err("command has no target device"),
        };
        match self.by_id.get(&device) {
            Some(load) => match command_to_load(
                self.base_topic.as_str(),
                load.name.as_str(),
                load.gang,
                cmd,
            ) {
                Some(p) => Ok(p),
                None => Err("command unsupported by zigbee2mqtt"),
            },
            None => Err("device is not managed by this adapter"),
        }
    }
}

/// What an adapter is set up with for some devices.
pub open spec fn set_up(
    base: Seq<char>,
    devices: Seq<(DeviceId, Load)>,
    declared: Actions,
    caps: Seq<(DeviceId, Vec<CapabilityKind>)>,
) -> Setup {
    let loads = loads_by_id(devices, devices.len());
    Setup {
        base,
        loads,
        ids: ids_by_load(devices, devices.len()),
        order: load_order(devices, devices.len()),
        declared,
        requests: prime_of(base, loads, caps, caps.len()),
    }
}

/// What the messages of a poll report to an adapter.
pub open spec fn polled_by(setup: Setup, msgs: Seq<MqttMessage>) -> Seq<EventV> {
    polled_events(setup.base, setup.order, setup.ids, setup.declared, msgs)
}

/// The topic and body of a command's publish, or why there is none.
pub open spec fn outgoing_of(setup: Setup, cmd: CommandV) -> Result<
    (Seq<char>, JsonV),
    Seq<char>,
> {
    match cmd.target() {
        None => Err("command has no target device"@),
        Some(device) => if !setup.loads.contains_key(device) {
            Err("device is not managed by this adapter"@)
        } else {
            let load = setup.loads[device];
            match load_body(load.gang, cmd) {
                Some(body) => Ok((device_topic(setup.base, load.name@, "/set"@), body)),
                None => Err("command unsupported by zigbee2mqtt"@),
            }
        },
    }
}

impl Adapter for Zigbee2MqttAdapter {
    closed spec fn heard(&self) -> Option<Seq<Call>> {
        Some(self.heard@)
    }

    open spec fn wakes(&self, now: Millis) -> Option<Millis> {
        None
    }

    fn dispatch(&mut self, cmd: &Command, now: Millis) -> (out: DispatchOutcome)
        ensures
            final(self).setup() == old(self).setup(),
            final(self).is_primed() == old(self).is_primed(),
            match outgoing_of(old(self).setup(), cmd@) {
                Ok((topic, body)) => exists|error: Option<Seq<char>>|
                    out@ == #[trigger] send_reply(error) && final(self).traffic() == noted(
                        old(self).traffic(),
                        Traffic::Sent {
                            message: (topic, vstd::utf8::encode_utf8(json_text(body))),
                            error,
                        },
                    ),
                Err(why) => out@ == OutcomeV::Permanent(why) && final(self).traffic() == old(
                    self,
                ).traffic(),
            },
    {
        let out = match self.outgoing(cmd) {
            Ok((topic, payload)) => {
                let answer = self.publish(topic.as_str(), payload.as_slice());
                let ghost error = error_of(answer);
                let out = sent(answer);
                assert(out@ == send_reply(error));
                out
            },
            Err(why) => DispatchOutcome::permanent(why),
        };
        proof {
            self.heard@ = self.heard@.push(
                Call::Dispatch { command: cmd@, now, outcome: out@ },
            );
        }
        out
    }

    fn tick(&mut self, now: Millis) -> (out: Vec<Event>)
        ensures
            final(self).setup() == old(self).setup(),
            final(self).is_primed(),
            exists|errors: Seq<Option<Seq<char>>>, msgs: Seq<MqttMessage>|
                {
                    &&& final(self).traffic() == noted(
                        if old(self).is_primed() {
                            old(self).traffic()
                        } else {
                            noted_all(
                                old(self).traffic(),
                                #[trigger] all_sent(old(self).setup().requests, errors),
                            )
                        },
                        Traffic::Polled { items: msgs },
                    )
                    &&& event_views(out@) == #[trigger] polled_by(old(self).setup(), msgs)
                },
    {
        let ghost before = self.traffic();
        let ghost wanted = self.setup().requests;
        let ghost mut errors: Seq<Option<Seq<char>>> = Seq::empty();
        // On the first tick (engine boot), prompt every device to report its current
        // state. Best effort: a failed publish just means that device stays unknown
        // until it next reports.
        if !self.primed {
            self.primed = true;
            let mut requests: Vec<(String, Vec<u8>)> = Vec::new();
            core::mem::swap(&mut requests, &mut self.prime_requests);
            let mut k: usize = 0;
            proof {
                assert(wanted.take(0).len() == 0);
                if before is Some {
                    assert(before->0 + all_sent(wanted.take(0), errors) =~= before->0);
                }
            }
            while k < requests.len()
                invariant
                    k <= requests@.len(),
                    errors.len() == k,
                    wanted == request_views(requests@),
                    self.setup() == (Setup { requests: self.setup().requests, ..old(self).setup() }),
                    self.heard == old(self).heard,
                    self.is_primed(),
                    self.traffic() == noted_all(before, all_sent(wanted.take(k as int), errors)),
                decreases requests@.len() - k,
            {
                let answer = self.publish(requests[k].0.as_str(), requests[k].1.as_slice());
                proof {
                    assert(wanted[k as int] == (requests@[k as int].0@, requests@[k as int].1@));
                    let more = errors.push(error_of(answer));
                    if before is Some {
                        assert(before->0 + all_sent(wanted.take(k + 1), more) =~= (before->0
                            + all_sent(wanted.take(k as int), errors)).push(
                            Traffic::Sent {
                                message: wanted[k as int],
                                error: error_of(answer),
                            },
                        ));
                    }
                    errors = more;
                }
                k += 1;
            }
            assert(wanted.take(k as int) =~= wanted);
            core::mem::swap(&mut requests, &mut self.prime_requests);
        }
        let msgs = self.transport.inner.poll();
        let out = self.events_of(&msgs);
        proof {
            let sends = all_sent(wanted, errors);
            assert(event_views(out@) == polled_by(old(self).setup(), msgs@));
            self.heard@ = self.heard@.push(Call::Tick { now, events: event_views(out@) });
        }
        out
    }

    fn next_wake(&self, now: Millis) -> (out: Option<Millis>) {
        None
    }
}

// ------------------------------------------------------------ laws

/// What is published for a load's switch, read back as a report, reports the switch of
/// that load as commanded.
pub proof fn published_switch_reads_back(
    actions: Actions,
    device: DeviceId,
    gang: Option<u16>,
    on: bool,
)
    ensures
        ({
            let body = load_body(gang, CommandV::SetSwitch { device, on })->0;
            reported_events(actions, device, gang, body) == state_event(
                device,
                CapabilityState::Switch(on),
            )
        }),
{
    let body = load_body(gang, CommandV::SetSwitch { device, on })->0;
    lemma_one_member(state_key(gang), JsonV::Text(if on { "ON"@ } else { "OFF"@ }));
    lemma_keys(gang);
    reveal_strlit("ON");
    reveal_strlit("OFF");
    assert("ON"@.len() == 2 && "OFF"@.len() == 3);
    assert(reported_events(actions, device, gang, body) =~= state_event(
        device,
        CapabilityState::Switch(on),
    ));
}

/// What is published for a brightness, read back as a report, reports the
/// percentage as commanded.
pub proof fn published_brightness_reads_back(
    actions: Actions,
    device: DeviceId,
    gang: Option<u16>,
    value: u8,
)
    requires
        value <= 100,
    ensures
        ({
            let body = load_body(
                gang,
                CommandV::SetBrightness { device, value, transition: None },
            )->0;
            reported_events(actions, device, gang, body) == state_event(
                device,
                CapabilityState::Brightness(value),
            )
        }),
{
    let body = load_body(gang, CommandV::SetBrightness { device, value, transition: None })->0;
    percentage_survives_level(value as int);
    lemma_one_member("brightness"@, JsonV::Whole(level_of(value as int) as u64));
    lemma_keys(gang);
    assert(reported_events(actions, device, gang, body) =~= state_event(
        device,
        CapabilityState::Brightness(value),
    ));
}

proof fn lemma_one_member(key: Seq<char>, value: JsonV)
    ensures
        forall|k: Seq<char>| #[trigger]
            JsonV::object().with(key, value).field(k) == if k == key {
                Some(value)
            } else {
                None
            },
{
    let members = Seq::<(Seq<char>, JsonV)>::empty().push((key, value));
    assert forall|k: Seq<char>| #[trigger]
        JsonV::object().with(key, value).field(k) == if k == key {
            Some(value)
        } else {
            None
        } by {
        reveal_with_fuel(crate::json::member, 2);
        assert(members[0] == (key, value));
        assert(members.drop_first() =~= Seq::empty());
    }
}

/// A load's switch does not speak for the other loads of its device: what is published
/// for one reports nothing of another.
pub proof fn loads_are_told_apart(
    actions: Actions,
    device: DeviceId,
    gang: Option<u16>,
    other: Option<u16>,
    on: bool,
)
    requires
        gang != other,
    ensures
        reported_events(
            actions,
            device,
            other,
            load_body(gang, CommandV::SetSwitch { device, on })->0,
        ) == Seq::<EventV>::empty(),
{
    let body = load_body(gang, CommandV::SetSwitch { device, on })->0;
    lemma_one_member(state_key(gang), JsonV::Text(if on { "ON"@ } else { "OFF"@ }));
    lemma_keys(gang);
    assert(state_key(gang) != state_key(other)) by {
        reveal_strlit("state");
        reveal_strlit("state_l");
        assert("state"@.len() == 5 && "state_l"@.len() == 7);
        if let (Some(m), Some(n)) = (gang, other) {
            if state_key(gang) == state_key(other) {
                assert(state_key(gang).skip(7) =~= decimal(m as nat));
                assert(state_key(other).skip(7) =~= decimal(n as nat));
                decimal_is_injective(m as nat, n as nat);
            }
        }
    }
    assert(reported_events(actions, device, other, body) =~= Seq::empty());
}

/// The members that a report can have all have different keys.
proof fn lemma_keys(gang: Option<u16>)
    ensures
        state_key(gang) != "brightness"@,
        state_key(gang) != "occupancy"@,
        state_key(gang) != "battery"@,
        state_key(gang) != "action"@,
        "brightness"@ != "occupancy"@,
        "brightness"@ != "battery"@,
        "brightness"@ != "action"@,
{
    reveal_strlit("state");
    reveal_strlit("state_l");
    reveal_strlit("brightness");
    reveal_strlit("occupancy");
    reveal_strlit("battery");
    reveal_strlit("action");
    assert(state_key(gang)[0] == 's');
    assert("brightness"@[0] == 'b' && "occupancy"@[0] == 'o' && "battery"@[0] == 'b'
        && "action"@[0] == 'a');
    assert("brightness"@.len() == 10);
    assert("battery"@.len() == 7);
}

} // verus!
