//! Pure request to response routing, without a socket: reads come from the
//! [`Mirror`], and a write becomes an [`Inbound`] for the caller to queue.
//!
//! Every response body is JSON. Errors all share one shape:
//! `{"error": {"code": …, "message": …}}`.

use vstd::prelude::*;

use crate::json::{
    item_views, json_text, lemma_items_prefix, lemma_members, member_views, try_read_json,
    write_json, json_parsed, Json, JsonV,
};
use crate::model::{CapabilityKind, Desired, DesiredV};
use crate::rule::{Rule, RuleV};
use crate::compile::resolve::SceneV;
use crate::text::{
    cat2, cat3, cat5, decimal, decimal_text, join, joined, same, segments, signed_decimal,
    signed_decimal_text, split_segments, texts,
};

use super::describe::{command_values, commands, millis_json, millis_value, rule_shape, rule_value};
use super::json::{capabilities_value, state_from_json, state_in};
use super::{
    action_named, device_of, rule_of, scene_of, status_of, truth_name, truth_text, DeviceEntry,
    Directory, DirectoryV, EntryV, Inbound, InboundV, Mirror, MirrorV, SceneEntry,
};

verus! {

/// The version that `GET /system` reports.
pub const VERSION: &'static str = "0.0.0";

/// A routed response, whose body is always JSON.
#[derive(Debug, PartialEq)]
pub struct Response {
    pub status: u16,
    pub value: Json,
}

/// [`Response`] as a mathematical value.
pub struct ResponseV {
    pub status: u16,
    pub value: JsonV,
}

impl View for Response {
    type V = ResponseV;

    open spec fn view(&self) -> ResponseV {
        ResponseV { status: self.status, value: self.value@ }
    }
}

/// The one error shape every failure uses.
pub open spec fn error_of(status: u16, code: Seq<char>, message: Seq<char>) -> ResponseV {
    ResponseV {
        status,
        value: JsonV::object().with(
            "error"@,
            JsonV::object().with("code"@, JsonV::Text(code)).with(
                "message"@,
                JsonV::Text(message),
            ),
        ),
    }
}

/// A success.
pub open spec fn ok_of(value: JsonV) -> ResponseV {
    ResponseV { status: 200, value }
}

impl Response {
    /// The one error shape every failure uses.
    pub fn error(status: u16, code: &str, message: &str) -> (r: Self)
        ensures
            r@ == error_of(status, code@, message@),
    {
        Response {
            status,
            value: Json::object().with(
                "error",
                Json::object().with("code", Json::text(code)).with("message", Json::text(message)),
            ),
        }
    }

    /// The body's bytes.
    pub fn body(&self) -> (r: Vec<u8>)
        ensures
            r@ == vstd::utf8::encode_utf8(json_text(self@.value)),
    {
        write_json(&self.value).as_str().as_bytes_vec()
    }

    /// The body as JSON.
    pub fn json_body(&self) -> (r: Json)
        ensures
            r@ == self@.value,
    {
        self.value.copy()
    }
}

/// What a request comes to.
#[derive(Debug, PartialEq)]
pub enum Routed {
    Reply(Response),
    /// To be queued for the engine; [`queued`] is the answer.
    Request(Inbound),
}

/// [`Routed`] as a mathematical value.
pub enum RoutedV {
    Reply(ResponseV),
    Request(InboundV),
}

impl View for Routed {
    type V = RoutedV;

    open spec fn view(&self) -> RoutedV {
        match *self {
            Routed::Reply(r) => RoutedV::Reply(r@),
            Routed::Request(i) => RoutedV::Request(i@),
        }
    }
}

// ------------------------------------------------------------ refusals

pub open spec fn not_allowed(got: Seq<char>, allowed: Seq<char>) -> ResponseV {
    error_of(405, "method_not_allowed"@, got + " is not allowed here; use "@ + allowed)
}

fn method_not_allowed(got: &str, allowed: &str) -> (r: Response)
    ensures
        r@ == not_allowed(got@, allowed@),
{
    let msg = cat3(got, " is not allowed here; use ", allowed);
    Response::error(405, "method_not_allowed", msg.as_str())
}

pub open spec fn no_device(name: Seq<char>) -> ResponseV {
    error_of(404, "unknown_device"@, "no device named '"@ + name + "'"@)
}

fn unknown_device(name: &str) -> (r: Response)
    ensures
        r@ == no_device(name@),
{
    let msg = cat3("no device named '", name, "'");
    Response::error(404, "unknown_device", msg.as_str())
}

pub open spec fn no_event(device: Seq<char>, event: Seq<char>) -> ResponseV {
    error_of(
        404,
        "unknown_event"@,
        "device '"@ + device + "' declares no event '"@ + event + "'"@,
    )
}

fn unknown_event(device: &str, event: &str) -> (r: Response)
    ensures
        r@ == no_event(device@, event@),
{
    let msg = cat5("device '", device, "' declares no event '", event, "'");
    Response::error(404, "unknown_event", msg.as_str())
}

pub open spec fn no_scene(name: Seq<char>) -> ResponseV {
    error_of(404, "unknown_scene"@, "no scene named '"@ + name + "'"@)
}

fn unknown_scene(name: &str) -> (r: Response)
    ensures
        r@ == no_scene(name@),
{
    let msg = cat3("no scene named '", name, "'");
    Response::error(404, "unknown_scene", msg.as_str())
}

pub open spec fn no_rule(name: Seq<char>) -> ResponseV {
    error_of(404, "unknown_rule"@, "no rule named '"@ + name + "'"@)
}

fn unknown_rule(name: &str) -> (r: Response)
    ensures
        r@ == no_rule(name@),
{
    let msg = cat3("no rule named '", name, "'");
    Response::error(404, "unknown_rule", msg.as_str())
}

pub open spec fn no_route(path: Seq<char>) -> ResponseV {
    error_of(404, "unknown_route"@, "no route for '"@ + path + "'"@)
}

fn unknown_route(path: &str) -> (r: Response)
    ensures
        r@ == no_route(path@),
{
    let msg = cat3("no route for '", path, "'");
    Response::error(404, "unknown_route", msg.as_str())
}

pub open spec fn malformed_body(message: Seq<char>) -> ResponseV {
    error_of(400, "malformed_body"@, message)
}

fn malformed(message: &str) -> (r: Response)
    ensures
        r@ == malformed_body(message@),
{
    Response::error(400, "malformed_body", message)
}

pub open spec fn unsupported_capability(message: Seq<char>) -> ResponseV {
    error_of(422, "unsupported_capability"@, message)
}

fn unsupported(message: &str) -> (r: Response)
    ensures
        r@ == unsupported_capability(message@),
{
    Response::error(422, "unsupported_capability", message)
}

/// Whether the request could be queued: `202`, and never the resulting state. The
/// engine dispatches it on the next loop iteration, and the device's own echo folds
/// some time after that.
pub open spec fn queued_of(accepted: bool) -> ResponseV {
    if accepted {
        ResponseV { status: 202, value: JsonV::object().with("accepted"@, JsonV::Flag(true)) }
    } else {
        error_of(
            503,
            "engine_unavailable"@,
            "the engine is not accepting requests (shutting down)"@,
        )
    }
}

/// The answer to a request that was handed to the engine, or could not be.
pub fn queued(accepted: bool) -> (r: Response)
    ensures
        r@ == queued_of(accepted),
{
    if accepted {
        Response { status: 202, value: Json::object().with("accepted", Json::Flag(true)) }
    } else {
        Response::error(
            503,
            "engine_unavailable",
            "the engine is not accepting requests (shutting down)",
        )
    }
}

// ------------------------------------------------------------ reads

/// A text, or null.
pub open spec fn text_or_null(s: Option<Seq<char>>) -> JsonV {
    match s {
        Some(t) => JsonV::Text(t),
        None => JsonV::Null,
    }
}

fn opt_text_json(s: &Option<String>) -> (r: Json)
    ensures
        r@ == text_or_null(crate::compile::diagnostic::opt_text(*s)),
{
    match s {
        Some(t) => Json::Text(t.clone()),
        None => Json::Null,
    }
}

/// The engine at a glance.
pub open spec fn system_value(dir: DirectoryV, m: MirrorV) -> JsonV {
    JsonV::object().with("name"@, text_or_null(dir.system_name)).with(
        "timezone"@,
        JsonV::Text(dir.timezone),
    ).with("engine_now_ms"@, JsonV::Whole(m.now)).with("version"@, JsonV::Text("0.0.0"@)).with(
        "devices"@,
        JsonV::Whole(dir.devices.len() as u64),
    ).with("scenes"@, JsonV::Whole(dir.scenes.len() as u64)).with(
        "rules"@,
        JsonV::Whole(dir.rules.len() as u64),
    )
}

fn system(directory: &Directory, mirror: &Mirror) -> (r: Json)
    ensures
        r@ == system_value(directory@, mirror@),
{
    Json::object().with("name", opt_text_json(&directory.system_name)).with(
        "timezone",
        Json::Text(directory.timezone.clone()),
    ).with("engine_now_ms", Json::Whole(mirror.engine_now())).with(
        "version",
        Json::text(VERSION),
    ).with("devices", Json::Whole(directory.devices.len() as u64)).with(
        "scenes",
        Json::Whole(directory.scenes.len() as u64),
    ).with("rules", Json::Whole(directory.rules.len() as u64))
}

/// The names of a device's events.
pub open spec fn event_list(e: EntryV) -> Seq<JsonV> {
    e.events.map_values(|x: (Seq<char>, crate::ids::ActionId)| JsonV::Text(x.0))
}

/// One device.
pub open spec fn device_value(m: MirrorV, e: EntryV) -> JsonV {
    JsonV::object().with("name"@, JsonV::Text(e.name)).with("room"@, text_or_null(e.room)).with(
        "synthetic"@,
        JsonV::Flag(e.synthetic),
    ).with("capabilities"@, capabilities_value(m.known, e.id, e.capabilities)).with(
        "events"@,
        JsonV::List(event_list(e)),
    )
}

fn device_events(entry: &DeviceEntry) -> (r: Vec<Json>)
    ensures
        item_views(r, r@.len()) == event_list(entry@),
{
    let mut out: Vec<Json> = Vec::new();
    let mut i: usize = 0;
    while i < entry.events.len()
        invariant
            i <= entry.events@.len(),
            out@.len() == i,
            item_views(out, i as nat) == event_list(entry@).take(i as int),
        decreases entry.events@.len() - i,
    {
        let ghost was = out;
        let item = Json::Text(entry.events[i].0.clone());
        assert(item@ == JsonV::Text(entry.events@[i as int].0@));
        out.push(item);
        proof {
            lemma_items_prefix(was, out, i as nat);
            assert(event_list(entry@)[i as int] == JsonV::Text(entry@.events[i as int].0));
            assert(entry@.events[i as int].0 == entry.events@[i as int].0@);
            assert(item_views(out, (i + 1) as nat) =~= event_list(entry@).take(i + 1));
        }
        i += 1;
    }
    assert(event_list(entry@).take(i as int) =~= event_list(entry@));
    out
}

fn device_json(entry: &DeviceEntry, mirror: &Mirror) -> (r: Json)
    ensures
        r@ == device_value(mirror@, entry@),
{
    Json::object().with("name", Json::Text(entry.name.clone())).with(
        "room",
        opt_text_json(&entry.room),
    ).with("synthetic", Json::Flag(entry.synthetic)).with(
        "capabilities",
        mirror.capabilities(&entry.capabilities, entry.id),
    ).with("events", Json::List(device_events(entry)))
}

/// Every device.
pub open spec fn device_values(dir: DirectoryV, m: MirrorV) -> Seq<JsonV> {
    dir.devices.map_values(|e: EntryV| device_value(m, e))
}

/// Every device, for `GET /devices` and for a stream's snapshot.
pub fn devices_value(directory: &Directory, mirror: &Mirror) -> (r: Json)
    ensures
        r@ == JsonV::List(device_values(directory@, mirror@)),
{
    let mut out: Vec<Json> = Vec::new();
    let mut i: usize = 0;
    let ghost all = device_values(directory@, mirror@);
    while i < directory.devices.len()
        invariant
            i <= directory.devices@.len(),
            out@.len() == i,
            all == device_values(directory@, mirror@),
            item_views(out, i as nat) == all.take(i as int),
        decreases directory.devices@.len() - i,
    {
        let ghost was = out;
        out.push(device_json(&directory.devices[i], mirror));
        proof {
            lemma_items_prefix(was, out, i as nat);
            assert(item_views(out, (i + 1) as nat) =~= all.take(i + 1));
        }
        i += 1;
    }
    assert(all.take(i as int) =~= all);
    Json::List(out)
}

/// One scene.
pub open spec fn scene_value(dir: DirectoryV, s: SceneV) -> JsonV {
    JsonV::object().with("name"@, JsonV::Text(s.name)).with(
        "commands"@,
        JsonV::List(command_values(dir, s.commands)),
    )
}

fn scene_json(directory: &Directory, scene: &SceneEntry) -> (r: Json)
    ensures
        r@ == scene_value(directory@, scene@),
{
    Json::object().with("name", Json::Text(scene.name.clone())).with(
        "commands",
        Json::List(commands(directory, &scene.commands)),
    )
}

/// Every scene.
pub open spec fn scene_values(dir: DirectoryV) -> Seq<JsonV> {
    dir.scenes.map_values(|s: SceneV| scene_value(dir, s))
}

fn scenes_json(directory: &Directory) -> (r: Json)
    ensures
        r@ == JsonV::List(scene_values(directory@)),
{
    let mut out: Vec<Json> = Vec::new();
    let mut i: usize = 0;
    let ghost all = scene_values(directory@);
    while i < directory.scenes.len()
        invariant
            i <= directory.scenes@.len(),
            out@.len() == i,
            all == scene_values(directory@),
            item_views(out, i as nat) == all.take(i as int),
        decreases directory.scenes@.len() - i,
    {
        let ghost was = out;
        out.push(scene_json(directory, &directory.scenes[i]));
        proof {
            lemma_items_prefix(was, out, i as nat);
            assert(item_views(out, (i + 1) as nat) =~= all.take(i + 1));
        }
        i += 1;
    }
    assert(all.take(i as int) =~= all);
    Json::List(out)
}

/// One rule: its shape, and what became of it.
pub open spec fn rule_report(dir: DirectoryV, m: MirrorV, r: RuleV) -> JsonV {
    let status = status_of(m.rules, r.id);
    rule_value(dir, r).with("last_considered_ms"@, millis_value(status.last_considered_ms)).with(
        "last_truth"@,
        match status.last_truth {
            Some(t) => JsonV::Text(truth_text(t)),
            None => JsonV::Null,
        },
    ).with("last_fired_ms"@, millis_value(status.last_fired_ms)).with(
        "fire_count"@,
        JsonV::Whole(status.fire_count),
    )
}

fn rule_json(directory: &Directory, mirror: &Mirror, rule: &Rule) -> (r: Json)
    ensures
        r@ == rule_report(directory@, mirror@, rule@),
{
    let status = mirror.rule_status(rule.id);
    rule_shape(directory, rule).with(
        "last_considered_ms",
        millis_json(status.last_considered_ms),
    ).with(
        "last_truth",
        match status.last_truth {
            Some(t) => Json::text(truth_name(t)),
            None => Json::Null,
        },
    ).with("last_fired_ms", millis_json(status.last_fired_ms)).with(
        "fire_count",
        Json::Whole(status.fire_count),
    )
}

/// Every rule.
pub open spec fn rule_reports(dir: DirectoryV, m: MirrorV) -> Seq<JsonV> {
    dir.rules.map_values(|r: RuleV| rule_report(dir, m, r))
}

fn rules_json(directory: &Directory, mirror: &Mirror) -> (r: Json)
    ensures
        r@ == JsonV::List(rule_reports(directory@, mirror@)),
{
    let mut out: Vec<Json> = Vec::new();
    let mut i: usize = 0;
    let ghost all = rule_reports(directory@, mirror@);
    while i < directory.rules.len()
        invariant
            i <= directory.rules@.len(),
            out@.len() == i,
            all == rule_reports(directory@, mirror@),
            item_views(out, i as nat) == all.take(i as int),
        decreases directory.rules@.len() - i,
    {
        let ghost was = out;
        out.push(rule_json(directory, mirror, &directory.rules[i]));
        proof {
            lemma_items_prefix(was, out, i as nat);
            assert(item_views(out, (i + 1) as nat) =~= all.take(i + 1));
        }
        i += 1;
    }
    assert(all.take(i as int) =~= all);
    Json::List(out)
}

// ------------------------------------------------------------ intents

/// The names of some capabilities.
pub open spec fn capability_names(caps: Seq<CapabilityKind>) -> Seq<Seq<char>> {
    caps.map_values(|k: CapabilityKind| k.spec_name())
}

/// What is wrong with using a capability of a device, if anything.
pub open spec fn capability_refusal(e: EntryV, kind: CapabilityKind) -> Option<ResponseV> {
    if !e.capabilities.contains(kind) {
        let declared = joined(capability_names(e.capabilities), ", "@);
        Some(
            unsupported_capability(
                "device '"@ + e.name + "' did not declare '"@ + kind.spec_name() + "' (it has: "@
                    + (if declared.len() == 0 {
                    "no capabilities"@
                } else {
                    declared
                }) + ")"@,
            ),
        )
    } else if !kind.spec_is_writable() {
        Some(
            unsupported_capability(
                "'"@ + kind.spec_name() + "' is read-only; it is reported by the device, not set"@,
            ),
        )
    } else {
        None
    }
}

/// Reject a capability the device did not declare, and any read-only capability.
fn require_capability(entry: &DeviceEntry, kind: CapabilityKind) -> (r: Option<Response>)
    ensures
        match r {
            Some(x) => capability_refusal(entry@, kind) == Some(x@),
            None => capability_refusal(entry@, kind) is None,
        },
{
    let mut names: Vec<String> = Vec::new();
    let mut declared = false;
    let mut i: usize = 0;
    while i < entry.capabilities.len()
        invariant
            i <= entry.capabilities@.len(),
            names@.len() == i,
            forall|j: int|
                0 <= j < i ==> (#[trigger] names@[j])@ == entry.capabilities@[j].spec_name(),
            declared == exists|j: int|
                0 <= j < i && #[trigger] entry.capabilities@[j] == kind,
        decreases entry.capabilities@.len() - i,
    {
        if entry.capabilities[i] == kind {
            declared = true;
            assert(entry.capabilities@[i as int] == kind);
        }
        names.push(entry.capabilities[i].name().to_owned());
        i += 1;
    }
    proof {
        assert(texts(names@) =~= capability_names(entry.capabilities@));
        if declared {
            let j = choose|j: int| 0 <= j < i && #[trigger] entry.capabilities@[j] == kind;
            assert(entry.capabilities@.contains(kind));
        }
    }
    if !declared {
        let list = join(&names, ", ");
        let shown = if list.as_str().unicode_len() == 0 {
            "no capabilities"
        } else {
            list.as_str()
        };
        let mut msg = cat5(
            "device '",
            entry.name.as_str(),
            "' did not declare '",
            kind.name(),
            "' (it has: ",
        );
        msg.append(shown);
        msg.append(")");
        return Some(unsupported(msg.as_str()));
    }
    if !kind.is_writable() {
        let msg = cat3(
            "'",
            kind.name(),
            "' is read-only; it is reported by the device, not set",
        );
        return Some(unsupported(msg.as_str()));
    }
    None
}

/// The keys of an object.
pub open spec fn member_keys(members: Seq<(Seq<char>, JsonV)>) -> Seq<Seq<char>> {
    members.map_values(|m: (Seq<char>, JsonV)| m.0)
}

fn key_list(members: &Vec<(String, Json)>) -> (r: String)
    ensures
        r@ == joined(member_keys(member_views(*members, members@.len())), ", "@),
{
    let ghost all = member_views(*members, members@.len());
    proof {
        lemma_members(*members, members@.len());
    }
    let mut names: Vec<String> = Vec::new();
    let mut i: usize = 0;
    while i < members.len()
        invariant
            i <= members@.len(),
            names@.len() == i,
            forall|j: int| 0 <= j < i ==> (#[trigger] names@[j])@ == members@[j].0@,
        decreases members@.len() - i,
    {
        names.push(members[i].0.clone());
        i += 1;
    }
    assert(texts(names@) =~= member_keys(all));
    join(&names, ", ")
}

/// What `set` asks for, or why it is refused. It names exactly one capability.
pub open spec fn set_in(e: EntryV, v: JsonV) -> Result<DesiredV, ResponseV> {
    match v {
        JsonV::Object(members) => if members.len() == 0 {
            Err(malformed_body("'set' names no capability"@))
        } else if members.len() > 1 {
            Err(
                malformed_body(
                    "'set' names "@ + decimal(members.len()) + " capabilities ("@ + joined(
                        member_keys(members),
                        ", "@,
                    ) + "); set one at a time"@,
                ),
            )
        } else {
            match CapabilityKind::spec_from_name(members[0].0) {
                None => Err(
                    unsupported_capability("unknown capability '"@ + members[0].0 + "'"@),
                ),
                Some(kind) => match capability_refusal(e, kind) {
                    Some(refusal) => Err(refusal),
                    None => match state_in(kind, members[0].1) {
                        Ok(s) => Ok(DesiredV::State(s)),
                        Err(why) => Err(malformed_body(why)),
                    },
                },
            }
        },
        _ => Err(
            malformed_body("'set' expects an object, e.g. {\"set\": {\"brightness\": 40}}"@),
        ),
    }
}

fn parse_set(entry: &DeviceEntry, value: &Json) -> (r: Result<Desired, Response>)
    ensures
        match (set_in(entry@, value@), r) {
            (Ok(d), Ok(x)) => x@ == d,
            (Err(e), Err(x)) => x@ == e,
            _ => false,
        },
{
    match value {
        Json::Object(members) => {
            proof {
                lemma_members(*members, members@.len());
            }
            if members.len() == 0 {
                return Err(malformed("'set' names no capability"));
            }
            if members.len() > 1 {
                let n = decimal_text(members.len() as u64);
                let list = key_list(members);
                let msg = cat5(
                    "'set' names ",
                    n.as_str(),
                    " capabilities (",
                    list.as_str(),
                    "); set one at a time",
                );
                return Err(malformed(msg.as_str()));
            }
            let name = members[0].0.as_str();
            match CapabilityKind::from_name(name) {
                None => {
                    let msg = cat3("unknown capability '", name, "'");
                    Err(unsupported(msg.as_str()))
                },
                Some(kind) => {
                    if let Some(refusal) = require_capability(entry, kind) {
                        return Err(refusal);
                    }
                    match state_from_json(kind, &members[0].1) {
                        Ok(s) => Ok(Desired::State(s)),
                        Err(e) => Err(malformed(e.0.as_str())),
                    }
                },
            }
        },
        _ => Err(malformed("'set' expects an object, e.g. {\"set\": {\"brightness\": 40}}")),
    }
}

/// What one named intent asks for.
pub open spec fn named_intent(e: EntryV, key: Seq<char>, v: JsonV) -> Result<DesiredV, ResponseV> {
    if key == "set"@ {
        set_in(e, v)
    } else if key == "toggle"@ {
        match capability_refusal(e, CapabilityKind::Switch) {
            Some(refusal) => Err(refusal),
            None => Ok(DesiredV::Toggle),
        }
    } else if key == "adjust_brightness"@ {
        match capability_refusal(e, CapabilityKind::Brightness) {
            Some(refusal) => Err(refusal),
            None => match v.integer() {
                None => Err(malformed_body("'adjust_brightness' expects an integer delta"@)),
                Some(n) => if -128 <= n && n <= 127 {
                    Ok(DesiredV::AdjustBrightness(n as i8))
                } else {
                    Err(
                        malformed_body(
                            "'adjust_brightness' must be between -128 and 127, got "@
                                + signed_decimal(n as int),
                        ),
                    )
                },
            },
        }
    } else if key == "send_ir_code"@ {
        match capability_refusal(e, CapabilityKind::IrTransmitter) {
            Some(refusal) => Err(refusal),
            None => match v.text() {
                Some(code) => Ok(DesiredV::SendIr(code)),
                None => Err(malformed_body("'send_ir_code' expects a base64 string"@)),
            },
        }
    } else {
        Err(
            malformed_body(
                "unknown intent '"@ + key
                    + "'; expected one of 'set', 'toggle', 'adjust_brightness', 'send_ir_code'"@,
            ),
        )
    }
}

fn parse_named(entry: &DeviceEntry, key: &str, value: &Json) -> (r: Result<Desired, Response>)
    ensures
        match (named_intent(entry@, key@, value@), r) {
            (Ok(d), Ok(x)) => x@ == d,
            (Err(e), Err(x)) => x@ == e,
            _ => false,
        },
{
    if same(key, "set") {
        parse_set(entry, value)
    } else if same(key, "toggle") {
        match require_capability(entry, CapabilityKind::Switch) {
            Some(refusal) => Err(refusal),
            None => Ok(Desired::Toggle),
        }
    } else if same(key, "adjust_brightness") {
        match require_capability(entry, CapabilityKind::Brightness) {
            Some(refusal) => Err(refusal),
            None => match value.as_i64() {
                None => Err(malformed("'adjust_brightness' expects an integer delta")),
                Some(n) => {
                    if -128 <= n && n <= 127 {
                        Ok(Desired::AdjustBrightness(n as i8))
                    } else {
                        let got = signed_decimal_text(n);
                        let msg = cat2(
                            "'adjust_brightness' must be between -128 and 127, got ",
                            got.as_str(),
                        );
                        Err(malformed(msg.as_str()))
                    }
                },
            },
        }
    } else if same(key, "send_ir_code") {
        match require_capability(entry, CapabilityKind::IrTransmitter) {
            Some(refusal) => Err(refusal),
            None => match value.as_str() {
                Some(code) => Ok(Desired::SendIr(code.clone())),
                None => Err(malformed("'send_ir_code' expects a base64 string")),
            },
        }
    } else {
        let msg = cat3(
            "unknown intent '",
            key,
            "'; expected one of 'set', 'toggle', 'adjust_brightness', 'send_ir_code'",
        );
        Err(malformed(msg.as_str()))
    }
}

/// What an intent body asks for, or why it is refused. It holds exactly one intent:
/// none is an empty request, and two are ambiguous.
pub open spec fn intent_in(e: EntryV, v: JsonV) -> Result<DesiredV, ResponseV> {
    match v {
        JsonV::Object(members) => if members.len() == 0 {
            Err(
                malformed_body(
                    "body has no intent; expected exactly one of 'set', 'toggle', 'adjust_brightness', 'send_ir_code'"@,
                ),
            )
        } else if members.len() > 1 {
            Err(
                malformed_body(
                    "body has "@ + decimal(members.len()) + " intents ("@ + joined(
                        member_keys(members),
                        ", "@,
                    ) + "); expected exactly one"@,
                ),
            )
        } else {
            named_intent(e, members[0].0, members[0].1)
        },
        _ => Err(
            malformed_body("body must be a JSON object, e.g. {\"set\": {\"switch\": true}}"@),
        ),
    }
}

/// Validate an intent against what the device actually declared: a switch command at
/// an occupancy sensor is refused at once, rather than failing opaquely later.
pub fn intent_of(entry: &DeviceEntry, value: &Json) -> (r: Result<Desired, Response>)
    ensures
        match (intent_in(entry@, value@), r) {
            (Ok(d), Ok(x)) => x@ == d,
            (Err(e), Err(x)) => x@ == e,
            _ => false,
        },
{
    match value {
        Json::Object(members) => {
            proof {
                lemma_members(*members, members@.len());
            }
            if members.len() == 0 {
                return Err(
                    malformed(
                        "body has no intent; expected exactly one of 'set', 'toggle', 'adjust_brightness', 'send_ir_code'",
                    ),
                );
            }
            if members.len() > 1 {
                let n = decimal_text(members.len() as u64);
                let list = key_list(members);
                let msg = cat5(
                    "body has ",
                    n.as_str(),
                    " intents (",
                    list.as_str(),
                    "); expected exactly one",
                );
                return Err(malformed(msg.as_str()));
            }
            parse_named(entry, members[0].0.as_str(), &members[0].1)
        },
        _ => Err(malformed("body must be a JSON object, e.g. {\"set\": {\"switch\": true}}")),
    }
}

/// What the bytes of an intent body ask for, or why they are refused.
pub open spec fn intent_read(e: EntryV, body: Seq<u8>) -> Result<DesiredV, ResponseV> {
    match json_parsed(body) {
        Ok(v) => intent_in(e, v),
        Err(why) => Err(malformed_body("body is not valid JSON: "@ + why)),
    }
}

/// Parse and validate an intent body.
pub fn parse_intent(entry: &DeviceEntry, body: &[u8]) -> (r: Result<Desired, Response>)
    ensures
        match (intent_read(entry@, body@), r) {
            (Ok(d), Ok(x)) => x@ == d,
            (Err(e), Err(x)) => x@ == e,
            _ => false,
        },
{
    match try_read_json(body) {
        Ok(value) => intent_of(entry, &value),
        Err(e) => {
            let msg = cat2("body is not valid JSON: ", e.as_str());
            Err(malformed(msg.as_str()))
        },
    }
}

// ------------------------------------------------------------ routing

/// A path that only serves `GET`. Anything else is a `405`: the path is right, the
/// verb is wrong.
pub open spec fn get_only(method: Seq<char>, r: ResponseV) -> RoutedV {
    if method == "GET"@ {
        RoutedV::Reply(r)
    } else {
        RoutedV::Reply(not_allowed(method, "GET"@))
    }
}

/// A path that only serves `POST`.
pub open spec fn post_only(method: Seq<char>, r: RoutedV) -> RoutedV {
    if method == "POST"@ {
        r
    } else {
        RoutedV::Reply(not_allowed(method, "POST"@))
    }
}

pub open spec fn device_reply(dir: DirectoryV, m: MirrorV, name: Seq<char>) -> ResponseV {
    match device_of(dir, name) {
        Some(e) => ok_of(device_value(m, e)),
        None => no_device(name),
    }
}

pub open spec fn scene_reply(dir: DirectoryV, name: Seq<char>) -> ResponseV {
    match scene_of(dir, name) {
        Some(s) => ok_of(scene_value(dir, s)),
        None => no_scene(name),
    }
}

pub open spec fn rule_reply(dir: DirectoryV, m: MirrorV, name: Seq<char>) -> ResponseV {
    match rule_of(dir, name) {
        Some(r) => ok_of(rule_report(dir, m, r)),
        None => no_rule(name),
    }
}

pub open spec fn intent_reply(dir: DirectoryV, name: Seq<char>, body: Seq<u8>) -> RoutedV {
    match device_of(dir, name) {
        None => RoutedV::Reply(no_device(name)),
        Some(e) => match intent_read(e, body) {
            Ok(desired) => RoutedV::Request(InboundV::Device { device: e.id, desired }),
            Err(r) => RoutedV::Reply(r),
        },
    }
}

pub open spec fn event_reply(dir: DirectoryV, name: Seq<char>, event: Seq<char>) -> RoutedV {
    match device_of(dir, name) {
        None => RoutedV::Reply(no_device(name)),
        Some(e) => match action_named(e.events, event) {
            Some(action) => RoutedV::Request(InboundV::Action { device: e.id, action }),
            None => RoutedV::Reply(no_event(name, event)),
        },
    }
}

pub open spec fn activate_reply(dir: DirectoryV, name: Seq<char>) -> RoutedV {
    match scene_of(dir, name) {
        Some(s) => RoutedV::Request(InboundV::Scene { scene: s.id }),
        None => RoutedV::Reply(no_scene(name)),
    }
}

/// What a request comes to.
pub open spec fn routed(
    dir: DirectoryV,
    m: MirrorV,
    method: Seq<char>,
    path: Seq<char>,
    body: Seq<u8>,
) -> RoutedV {
    let s = segments(path, '/');
    if s.len() == 1 && s[0] == "system"@ {
        get_only(method, ok_of(system_value(dir, m)))
    } else if s.len() == 1 && s[0] == "devices"@ {
        get_only(
            method,
            ok_of(JsonV::object().with("devices"@, JsonV::List(device_values(dir, m)))),
        )
    } else if s.len() == 1 && s[0] == "scenes"@ {
        get_only(
            method,
            ok_of(JsonV::object().with("scenes"@, JsonV::List(scene_values(dir)))),
        )
    } else if s.len() == 1 && s[0] == "rules"@ {
        get_only(
            method,
            ok_of(JsonV::object().with("rules"@, JsonV::List(rule_reports(dir, m)))),
        )
    } else if s.len() == 2 && s[0] == "devices"@ {
        get_only(method, device_reply(dir, m, s[1]))
    } else if s.len() == 2 && s[0] == "scenes"@ {
        get_only(method, scene_reply(dir, s[1]))
    } else if s.len() == 2 && s[0] == "rules"@ {
        get_only(method, rule_reply(dir, m, s[1]))
    } else if s.len() == 3 && s[0] == "devices"@ && s[2] == "intent"@ {
        post_only(method, intent_reply(dir, s[1], body))
    } else if s.len() == 3 && s[0] == "scenes"@ && s[2] == "activate"@ {
        post_only(method, activate_reply(dir, s[1]))
    } else if s.len() == 4 && s[0] == "devices"@ && s[2] == "events"@ {
        post_only(method, event_reply(dir, s[1], s[3]))
    } else {
        RoutedV::Reply(no_route(path))
    }
}

fn get(method: &str, value: Json) -> (r: Routed)
    ensures
        r@ == get_only(method@, ok_of(value@)),
{
    if same(method, "GET") {
        Routed::Reply(Response { status: 200, value })
    } else {
        Routed::Reply(method_not_allowed(method, "GET"))
    }
}

fn one(
    directory: &Directory,
    mirror: &Mirror,
    method: &str,
    path: &str,
    head: &str,
    name: &str,
) -> (r: Routed)
    ensures
        r@ == (if head@ == "devices"@ {
            get_only(method@, device_reply(directory@, mirror@, name@))
        } else if head@ == "scenes"@ {
            get_only(method@, scene_reply(directory@, name@))
        } else if head@ == "rules"@ {
            get_only(method@, rule_reply(directory@, mirror@, name@))
        } else {
            RoutedV::Reply(no_route(path@))
        }),
{
    let devices = same(head, "devices");
    let scenes = same(head, "scenes");
    let rules = same(head, "rules");
    if !devices && !scenes && !rules {
        return Routed::Reply(unknown_route(path));
    }
    if !same(method, "GET") {
        return Routed::Reply(method_not_allowed(method, "GET"));
    }
    Routed::Reply(
        if devices {
            match directory.device(name) {
                Some(e) => Response { status: 200, value: device_json(e, mirror) },
                None => unknown_device(name),
            }
        } else if scenes {
            match directory.scene(name) {
                Some(s) => Response { status: 200, value: scene_json(directory, s) },
                None => unknown_scene(name),
            }
        } else {
            match directory.rule(name) {
                Some(r) => Response { status: 200, value: rule_json(directory, mirror, r) },
                None => unknown_rule(name),
            }
        },
    )
}

fn intent(directory: &Directory, name: &str, body: &[u8]) -> (r: Routed)
    ensures
        r@ == intent_reply(directory@, name@, body@),
{
    match directory.device(name) {
        None => Routed::Reply(unknown_device(name)),
        Some(e) => match parse_intent(e, body) {
            Ok(desired) => Routed::Request(Inbound::Device { device: e.id, desired }),
            Err(r) => Routed::Reply(r),
        },
    }
}

fn fire(directory: &Directory, name: &str, event: &str) -> (r: Routed)
    ensures
        r@ == event_reply(directory@, name@, event@),
{
    match directory.device(name) {
        None => Routed::Reply(unknown_device(name)),
        Some(e) => match e.action(event) {
            Some(action) => Routed::Request(Inbound::Action { device: e.id, action }),
            None => Routed::Reply(unknown_event(name, event)),
        },
    }
}

fn activate(directory: &Directory, name: &str) -> (r: Routed)
    ensures
        r@ == activate_reply(directory@, name@),
{
    match directory.scene(name) {
        Some(s) => Routed::Request(Inbound::Scene { scene: s.id }),
        None => Routed::Reply(unknown_scene(name)),
    }
}

/// Route one request. `path` is the raw path with any query string already stripped.
/// Empty segments are ignored, so that `/devices/` and `/devices` are one route.
pub fn handle(
    directory: &Directory,
    mirror: &Mirror,
    method: &str,
    path: &str,
    body: &[u8],
) -> (r: Routed)
    ensures
        r@ == routed(directory@, mirror@, method@, path@, body@),
{
    let s = split_segments(path, '/');
    assert(forall|i: int| 0 <= i < s@.len() ==> texts(s@)[i] == (#[trigger] s@[i])@);
    if s.len() == 1 {
        let head = s[0].as_str();
        if same(head, "system") {
            return get(method, system(directory, mirror));
        }
        if same(head, "devices") {
            return get(method, Json::object().with("devices", devices_value(directory, mirror)));
        }
        if same(head, "scenes") {
            return get(method, Json::object().with("scenes", scenes_json(directory)));
        }
        if same(head, "rules") {
            return get(method, Json::object().with("rules", rules_json(directory, mirror)));
        }
    } else if s.len() == 2 {
        return one(directory, mirror, method, path, s[0].as_str(), s[1].as_str());
    } else if s.len() == 3 {
        if same(s[0].as_str(), "devices") && same(s[2].as_str(), "intent") {
            if !same(method, "POST") {
                return Routed::Reply(method_not_allowed(method, "POST"));
            }
            return intent(directory, s[1].as_str(), body);
        }
        if same(s[0].as_str(), "scenes") && same(s[2].as_str(), "activate") {
            if !same(method, "POST") {
                return Routed::Reply(method_not_allowed(method, "POST"));
            }
            return activate(directory, s[1].as_str());
        }
    } else if s.len() == 4 {
        if same(s[0].as_str(), "devices") && same(s[2].as_str(), "events") {
            if !same(method, "POST") {
                return Routed::Reply(method_not_allowed(method, "POST"));
            }
            return fire(directory, s[1].as_str(), s[3].as_str());
        }
    }
    Routed::Reply(unknown_route(path))
}

// ------------------------------------------------------------ laws

/// Reading never asks anything of the engine: only a `POST` becomes a request.
pub proof fn only_posts_become_requests(
    dir: DirectoryV,
    m: MirrorV,
    method: Seq<char>,
    path: Seq<char>,
    body: Seq<u8>,
)
    requires
        method != "POST"@,
    ensures
        routed(dir, m, method, path, body) is Reply,
{
}

/// An event request is what the physical button produces: it enters the engine as the
/// action that the device declares under that name.
pub proof fn event_requests_are_actions(
    dir: DirectoryV,
    m: MirrorV,
    path: Seq<char>,
    body: Seq<u8>,
    e: EntryV,
    action: crate::ids::ActionId,
)
    requires
        segments(path, '/').len() == 4,
        segments(path, '/')[0] == "devices"@,
        segments(path, '/')[2] == "events"@,
        device_of(dir, segments(path, '/')[1]) == Some(e),
        action_named(e.events, segments(path, '/')[3]) == Some(action),
    ensures
        routed(dir, m, "POST"@, path, body) matches RoutedV::Request(i) && super::inbound_event(i)
            == (crate::model::EventV::Action { device: e.id, action }),
{
}

/// No intent sets what a device did not declare, or what it only reports.
pub proof fn intents_respect_declarations(e: EntryV, body: Seq<u8>)
    requires
        intent_read(e, body) is Ok,
    ensures
        match intent_read(e, body)->Ok_0 {
            DesiredV::State(s) => e.capabilities.contains(s.spec_kind())
                && s.spec_kind().spec_is_writable(),
            DesiredV::Toggle => e.capabilities.contains(CapabilityKind::Switch),
            DesiredV::AdjustBrightness(_) => e.capabilities.contains(CapabilityKind::Brightness),
            DesiredV::SendIr(_) => e.capabilities.contains(CapabilityKind::IrTransmitter),
        },
{
}

/// The one shape of an error: an object with a code and a message, both text.
pub open spec fn is_error(r: ResponseV) -> bool {
    exists|code: Seq<char>, message: Seq<char>| r == #[trigger] error_of(r.status, code, message)
}

/// Every answer that is no success has the one error shape, and a success is `200`.
pub proof fn errors_share_one_shape(
    dir: DirectoryV,
    m: MirrorV,
    method: Seq<char>,
    path: Seq<char>,
    body: Seq<u8>,
)
    ensures
        routed(dir, m, method, path, body) matches RoutedV::Reply(r) ==> r.status == 200
            || is_error(r),
        is_error(queued_of(false)),
{
    assert forall|status: u16, code: Seq<char>, message: Seq<char>| is_error(
        #[trigger] error_of(status, code, message),
    ) by {}
    let s = segments(path, '/');
    if s.len() == 3 && s[0] == "devices"@ {
        if let Some(e) = device_of(dir, s[1]) {
            lemma_intent_errors(e, body);
        }
    }
}

proof fn lemma_intent_errors(e: EntryV, body: Seq<u8>)
    ensures
        intent_read(e, body) matches Err(r) ==> is_error(r),
{
    assert forall|status: u16, code: Seq<char>, message: Seq<char>| is_error(
        #[trigger] error_of(status, code, message),
    ) by {}
}

/// A path that is served: with the wrong verb it is answered `405`, and with the right
/// one never.
pub open spec fn is_served(path: Seq<char>) -> bool {
    let s = segments(path, '/');
    ||| s.len() == 1 && (s[0] == "system"@ || s[0] == "devices"@ || s[0] == "scenes"@ || s[0]
        == "rules"@)
    ||| s.len() == 2 && (s[0] == "devices"@ || s[0] == "scenes"@ || s[0] == "rules"@)
    ||| s.len() == 3 && s[0] == "devices"@ && s[2] == "intent"@
    ||| s.len() == 3 && s[0] == "scenes"@ && s[2] == "activate"@
    ||| s.len() == 4 && s[0] == "devices"@ && s[2] == "events"@
}

/// The verb that a served path takes.
pub open spec fn verb_of(path: Seq<char>) -> Seq<char> {
    if segments(path, '/').len() <= 2 {
        "GET"@
    } else {
        "POST"@
    }
}

/// A wrong verb on a path that is served is `405`; a path that is not is `404`,
/// whatever the verb.
pub proof fn wrong_verbs_are_told_from_wrong_paths(
    dir: DirectoryV,
    m: MirrorV,
    method: Seq<char>,
    path: Seq<char>,
    body: Seq<u8>,
)
    ensures
        is_served(path) && method != verb_of(path) ==> routed(dir, m, method, path, body)
            == RoutedV::Reply(not_allowed(method, verb_of(path))),
        !is_served(path) ==> routed(dir, m, method, path, body) == RoutedV::Reply(no_route(path)),
{
}

} // verus!
