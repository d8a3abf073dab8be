//! Semantic analysis: raw configuration to resolved object graph.
//!
//! Names become interned ids, `adapter: "zigbee"` becomes a resolved index,
//! capability strings become `CapabilityKind`s, rule and scene bodies are lowered
//! to runtime types, and anything that does not line up becomes a `Diagnostic`.
//! Every problem is collected: the pass never stops at the first error.

use vstd::prelude::*;

use super::ast::{RawAdapter, RawConfig, RawDevice, RawRule, RawSchedule, RawSystem, RawValue};
use super::diagnostic::{
    any_error, error_at, findings, has_error, opt_text, warning_at, CompileErrors, Diagnostic,
    Finding, Severity,
};
use super::lower::{
    clock_time, find_event, event_named, lowered_commands, lowered_condition, lowered_trigger,
    noted, parse_clock_time, Lowerer, Notes, Scope,
};
use crate::adapters::matter;
use crate::adapters::matter_device;
use crate::adapters::mock_northbound;
use crate::adapters::plugin::{
    choose_exposed, expose_choice, report, AdapterPlugin, ExposeSpec, ExposeV,
};
use crate::adapters::zigbee2mqtt;
use crate::adapters::zigbee2mqtt::{broker_of, parse_mqtt_url};
use crate::adapters::zwavejs;
use crate::calendar::{check_cron, cron_fault, is_timezone, known_timezone};
use crate::ids::{ActionId, AdapterIdx, DeviceId, RuleId, SceneId, ScheduleId};
use crate::model::{command_views, CapabilityKind, Command, CommandV};
use crate::names::Names;
use crate::rule::{Condition, ConditionV, Rule, RuleV};
use crate::table::Table;
use crate::text::{cat3, cat5, decimal, decimal_text, same, texts};

verus! {

#[derive(Debug)]
pub struct DeviceMetadata {
    pub manufacturer: Option<String>,
    pub model: Option<String>,
    pub room: Option<String>,
}

/// One declared device event: a local name, the raw protocol string the adapter
/// matches, and the interned identity rules trigger on.
#[derive(Debug)]
pub struct DeviceEvent {
    pub id: ActionId,
    pub name: String,
    pub raw: String,
}

#[derive(Debug)]
pub struct DeviceDef {
    pub id: DeviceId,
    pub name: String,
    /// Resolved reference (a config-space adapter index), not a string.
    pub adapter: AdapterIdx,
    pub address: Option<String>,
    /// Sub-device endpoint; each protocol has its own default.
    pub endpoint: Option<u16>,
    pub capabilities: Vec<CapabilityKind>,
    /// Stateless events this device can emit (button presses, knob turns).
    pub events: Vec<DeviceEvent>,
    pub metadata: DeviceMetadata,
}

/// [`DeviceMetadata`] with its text as characters.
pub struct MetadataV {
    pub manufacturer: Option<Seq<char>>,
    pub model: Option<Seq<char>>,
    pub room: Option<Seq<char>>,
}

/// [`DeviceEvent`] with its text as characters.
pub struct DeviceEventV {
    pub id: ActionId,
    pub name: Seq<char>,
    pub raw: Seq<char>,
}

/// [`DeviceDef`] with its text as characters.
pub struct DeviceV {
    pub id: DeviceId,
    pub name: Seq<char>,
    pub adapter: AdapterIdx,
    pub address: Option<Seq<char>>,
    pub endpoint: Option<u16>,
    pub capabilities: Seq<CapabilityKind>,
    pub events: Seq<DeviceEventV>,
    pub metadata: MetadataV,
}

impl View for DeviceMetadata {
    type V = MetadataV;

    open spec fn view(&self) -> MetadataV {
        MetadataV {
            manufacturer: opt_text(self.manufacturer),
            model: opt_text(self.model),
            room: opt_text(self.room),
        }
    }
}

impl View for DeviceEvent {
    type V = DeviceEventV;

    open spec fn view(&self) -> DeviceEventV {
        DeviceEventV { id: self.id, name: self.name@, raw: self.raw@ }
    }
}

pub open spec fn device_events(s: Seq<DeviceEvent>) -> Seq<DeviceEventV> {
    s.map_values(|e: DeviceEvent| e@)
}

impl View for DeviceDef {
    type V = DeviceV;

    open spec fn view(&self) -> DeviceV {
        DeviceV {
            id: self.id,
            name: self.name@,
            adapter: self.adapter,
            address: opt_text(self.address),
            endpoint: self.endpoint,
            capabilities: self.capabilities@,
            events: device_events(self.events@),
            metadata: self.metadata@,
        }
    }
}

pub open spec fn device_views(s: Seq<DeviceDef>) -> Seq<DeviceV> {
    s.map_values(|d: DeviceDef| d@)
}

// ------------------------------------------------------------ system

/// Global, single-valued configuration. Connection details live on adapters; only
/// genuinely site-wide values live here. Coordinates are decimal degrees, as text.
#[derive(Debug)]
pub struct SystemConfig {
    pub name: Option<String>,
    pub timezone: String,
    pub latitude: String,
    pub longitude: String,
    pub runtime_storage_path: Option<String>,
}

/// [`SystemConfig`] with its text as characters.
pub struct SystemV {
    pub name: Option<Seq<char>>,
    pub timezone: Seq<char>,
    pub latitude: Seq<char>,
    pub longitude: Seq<char>,
    pub runtime_storage_path: Option<Seq<char>>,
}

impl View for SystemConfig {
    type V = SystemV;

    open spec fn view(&self) -> SystemV {
        SystemV {
            name: opt_text(self.name),
            timezone: self.timezone@,
            latitude: self.latitude@,
            longitude: self.longitude@,
            runtime_storage_path: opt_text(self.runtime_storage_path),
        }
    }
}

pub open spec fn text_or(s: Option<String>, default: Seq<char>) -> Seq<char> {
    match s {
        Some(t) => t@,
        None => default,
    }
}

/// The site-wide values, with their defaults.
pub open spec fn system_of(raw: RawSystem) -> SystemV {
    SystemV {
        name: opt_text(raw.name),
        timezone: text_or(raw.timezone, "UTC"@),
        latitude: text_or(raw.latitude, "0"@),
        longitude: text_or(raw.longitude, "0"@),
        runtime_storage_path: opt_text(raw.runtime_storage_path),
    }
}

/// A time zone that the IANA database does not know is an error.
pub open spec fn system_findings(raw: RawSystem) -> Seq<Finding> {
    let tz = text_or(raw.timezone, "UTC"@);
    if is_timezone(tz) {
        Seq::empty()
    } else {
        seq![
            Finding {
                severity: Severity::Error,
                code: "E_BAD_TIMEZONE"@,
                message: "unknown timezone '"@ + tz
                    + "' (expected an IANA name like America/New_York)"@,
                context: None,
            },
        ]
    }
}

fn clone_opt(s: &Option<String>) -> (r: Option<String>)
    ensures
        opt_text(r) == opt_text(*s),
{
    match s {
        Some(t) => Some(t.clone()),
        None => None,
    }
}

fn clone_or(s: &Option<String>, default: &str) -> (r: String)
    ensures
        r@ == text_or(*s, default@),
{
    match s {
        Some(t) => t.clone(),
        None => default.to_owned(),
    }
}

fn system_config(raw: &RawSystem, diags: &mut Vec<Diagnostic>) -> (r: SystemConfig)
    ensures
        r@ == system_of(*raw),
        findings(final(diags)@) == findings(old(diags)@) + system_findings(*raw),
{
    let timezone = clone_or(&raw.timezone, "UTC");
    if known_timezone(timezone.as_str()) {
        assert(findings(diags@) + Seq::<Finding>::empty() =~= findings(diags@));
    } else {
        let ghost was = findings(diags@);
        diags.push(
            Diagnostic::error(
                "E_BAD_TIMEZONE",
                cat3(
                    "unknown timezone '",
                    timezone.as_str(),
                    "' (expected an IANA name like America/New_York)",
                ),
            ),
        );
        assert(findings(diags@) =~= was + system_findings(*raw));
    }
    SystemConfig {
        name: clone_opt(&raw.name),
        timezone,
        latitude: clone_or(&raw.latitude, "0"),
        longitude: clone_or(&raw.longitude, "0"),
        runtime_storage_path: clone_opt(&raw.runtime_storage_path),
    }
}

// ------------------------------------------------------------ adapters

/// What an adapter is and what it was given.
#[derive(Debug)]
pub enum AdapterKind {
    Zigbee2Mqtt { host: String, port: u16, base_topic: String },
    /// A Matter controller addressed by its WebSocket URL.
    Matter { url: String },
    /// A Z-Wave server addressed by its WebSocket URL.
    Zwavejs { url: String },
    Mock,
    Virtual,
    MatterDevice {
        expose: ExposeSpec,
        storage_file: Option<String>,
        interface: Option<String>,
    },
    MockNorthbound { expose: ExposeSpec },
    /// Of a type that no adapter has. Such a configuration does not compile.
    Unknown,
}

/// [`AdapterKind`] with its text as characters.
pub enum KindV {
    Zigbee2Mqtt { host: Seq<char>, port: u16, base_topic: Seq<char> },
    Matter { url: Seq<char> },
    Zwavejs { url: Seq<char> },
    Mock,
    Virtual,
    MatterDevice {
        expose: ExposeV,
        storage_file: Option<Seq<char>>,
        interface: Option<Seq<char>>,
    },
    MockNorthbound { expose: ExposeV },
    Unknown,
}

impl View for AdapterKind {
    type V = KindV;

    open spec fn view(&self) -> KindV {
        match *self {
            AdapterKind::Zigbee2Mqtt { host, port, base_topic } => KindV::Zigbee2Mqtt {
                host: host@,
                port,
                base_topic: base_topic@,
            },
            AdapterKind::Matter { url } => KindV::Matter { url: url@ },
            AdapterKind::Zwavejs { url } => KindV::Zwavejs { url: url@ },
            AdapterKind::Mock => KindV::Mock,
            AdapterKind::Virtual => KindV::Virtual,
            AdapterKind::MatterDevice { expose, storage_file, interface } => KindV::MatterDevice {
                expose: expose@,
                storage_file: opt_text(storage_file),
                interface: opt_text(interface),
            },
            AdapterKind::MockNorthbound { expose } => KindV::MockNorthbound { expose: expose@ },
            AdapterKind::Unknown => KindV::Unknown,
        }
    }
}

#[derive(Debug)]
pub struct AdapterDef {
    pub name: String,
    pub kind: AdapterKind,
}

/// [`AdapterDef`] with its text as characters.
pub struct AdapterV {
    pub name: Seq<char>,
    pub kind: KindV,
}

impl View for AdapterDef {
    type V = AdapterV;

    open spec fn view(&self) -> AdapterV {
        AdapterV { name: self.name@, kind: self.kind@ }
    }
}

pub open spec fn adapter_views(s: Seq<AdapterDef>) -> Seq<AdapterV> {
    s.map_values(|a: AdapterDef| a@)
}

/// Whether an adapter's consumer is upstream. Such an adapter binds no devices.
pub open spec fn is_northbound(kind: KindV) -> bool {
    kind is MatterDevice || kind is MockNorthbound
}

impl AdapterKind {
    pub fn northbound(&self) -> (r: bool)
        ensures
            r == is_northbound(self@),
    {
        match self {
            AdapterKind::MatterDevice { .. } => true,
            AdapterKind::MockNorthbound { .. } => true,
            _ => false,
        }
    }
}

/// What an adapter entry stands for. Fields that could not be read are empty: such
/// a configuration does not compile.
pub open spec fn kind_of(raw: RawAdapter) -> KindV {
    if raw.kind@ == "zigbee2mqtt"@ {
        match raw.config.broker {
            Ok(b) => match broker_of(b.url@) {
                Some((host, port)) => KindV::Zigbee2Mqtt {
                    host,
                    port: port as u16,
                    base_topic: b.base_topic@,
                },
                None => KindV::Zigbee2Mqtt {
                    host: Seq::empty(),
                    port: 0,
                    base_topic: b.base_topic@,
                },
            },
            Err(_) => KindV::Zigbee2Mqtt {
                host: Seq::empty(),
                port: 0,
                base_topic: Seq::empty(),
            },
        }
    } else if raw.kind@ == "matter"@ {
        KindV::Matter { url: controller_url(raw) }
    } else if raw.kind@ == "zwavejs"@ {
        KindV::Zwavejs { url: controller_url(raw) }
    } else if raw.kind@ == "mock"@ {
        KindV::Mock
    } else if raw.kind@ == "virtual"@ {
        KindV::Virtual
    } else if raw.kind@ == "matter_device"@ {
        match raw.config.matter_device {
            Ok(c) => KindV::MatterDevice {
                expose: expose_choice(c.expose),
                storage_file: opt_text(c.runtime_storage_file),
                interface: opt_text(c.interface),
            },
            Err(_) => KindV::MatterDevice {
                expose: ExposeV::All,
                storage_file: None,
                interface: None,
            },
        }
    } else if raw.kind@ == "mock_northbound"@ {
        match raw.config.exposure {
            Ok(c) => KindV::MockNorthbound { expose: expose_choice(c.expose) },
            Err(_) => KindV::MockNorthbound { expose: ExposeV::All },
        }
    } else {
        KindV::Unknown
    }
}

pub open spec fn controller_url(raw: RawAdapter) -> Seq<char> {
    match raw.config.controller {
        Ok(c) => c.url@,
        Err(_) => Seq::empty(),
    }
}

/// What is wrong with an adapter entry.
pub open spec fn kind_findings(raw: RawAdapter, at: Seq<char>) -> Seq<Finding> {
    if raw.kind@ == "zigbee2mqtt"@ {
        zigbee2mqtt::Plugin.config_findings(raw.config, at)
    } else if raw.kind@ == "matter"@ {
        matter::Plugin.config_findings(raw.config, at)
    } else if raw.kind@ == "zwavejs"@ {
        zwavejs::Plugin.config_findings(raw.config, at)
    } else if raw.kind@ == "mock"@ || raw.kind@ == "virtual"@ {
        Seq::empty()
    } else if raw.kind@ == "matter_device"@ {
        matter_device::Plugin.config_findings(raw.config, at)
    } else if raw.kind@ == "mock_northbound"@ {
        mock_northbound::Plugin.config_findings(raw.config, at)
    } else {
        seq![
            error_at(
                "E_UNKNOWN_ADAPTER_TYPE"@,
                "unknown adapter type '"@ + raw.kind@ + "'"@,
                at,
            ),
        ]
    }
}

fn adapter_kind(raw: &RawAdapter, diags: &mut Vec<Diagnostic>, at: &str) -> (r: AdapterKind)
    ensures
        r@ == kind_of(*raw),
        findings(final(diags)@) == findings(old(diags)@) + kind_findings(*raw, at@),
{
    let tag = raw.kind.as_str();
    let empty = String::new();
    assert(empty@ =~= Seq::empty());
    if same(tag, "zigbee2mqtt") {
        zigbee2mqtt::Plugin.validate_config(&raw.config, at, diags);
        match &raw.config.broker {
            Ok(b) => match parse_mqtt_url(b.url.as_str()) {
                Some((host, port)) => AdapterKind::Zigbee2Mqtt {
                    host,
                    port,
                    base_topic: b.base_topic.clone(),
                },
                None => AdapterKind::Zigbee2Mqtt {
                    host: empty,
                    port: 0,
                    base_topic: b.base_topic.clone(),
                },
            },
            Err(_) => AdapterKind::Zigbee2Mqtt {
                host: empty.clone(),
                port: 0,
                base_topic: empty,
            },
        }
    } else if same(tag, "matter") {
        matter::Plugin.validate_config(&raw.config, at, diags);
        match &raw.config.controller {
            Ok(c) => AdapterKind::Matter { url: c.url.clone() },
            Err(_) => AdapterKind::Matter { url: empty },
        }
    } else if same(tag, "zwavejs") {
        zwavejs::Plugin.validate_config(&raw.config, at, diags);
        match &raw.config.controller {
            Ok(c) => AdapterKind::Zwavejs { url: c.url.clone() },
            Err(_) => AdapterKind::Zwavejs { url: empty },
        }
    } else if same(tag, "mock") {
        assert(findings(diags@) + Seq::<Finding>::empty() =~= findings(diags@));
        AdapterKind::Mock
    } else if same(tag, "virtual") {
        assert(findings(diags@) + Seq::<Finding>::empty() =~= findings(diags@));
        AdapterKind::Virtual
    } else if same(tag, "matter_device") {
        matter_device::Plugin.validate_config(&raw.config, at, diags);
        match &raw.config.matter_device {
            Ok(c) => AdapterKind::MatterDevice {
                expose: choose_exposed(&c.expose),
                storage_file: clone_opt(&c.runtime_storage_file),
                interface: clone_opt(&c.interface),
            },
            Err(_) => AdapterKind::MatterDevice {
                expose: ExposeSpec::All,
                storage_file: None,
                interface: None,
            },
        }
    } else if same(tag, "mock_northbound") {
        mock_northbound::Plugin.validate_config(&raw.config, at, diags);
        match &raw.config.exposure {
            Ok(c) => AdapterKind::MockNorthbound { expose: choose_exposed(&c.expose) },
            Err(_) => AdapterKind::MockNorthbound { expose: ExposeSpec::All },
        }
    } else {
        report(
            diags,
            "E_UNKNOWN_ADAPTER_TYPE",
            cat3("unknown adapter type '", tag, "'"),
            at,
        );
        AdapterKind::Unknown
    }
}

pub open spec fn adapter_at(name: Seq<char>) -> Seq<char> {
    "adapter '"@ + name + "'"@
}

/// What is wrong with the first `n` adapters.
pub open spec fn adapters_findings(
    names: Seq<Seq<char>>,
    raws: Seq<RawAdapter>,
    n: nat,
) -> Seq<Finding>
    decreases n,
{
    if n == 0 {
        Seq::empty()
    } else {
        adapters_findings(names, raws, (n - 1) as nat) + kind_findings(
            raws[n - 1],
            adapter_at(names[n - 1]),
        )
    }
}

/// The adapters, numbered in the order of their names.
pub open spec fn adapters_of(names: Seq<Seq<char>>, raws: Seq<RawAdapter>) -> Seq<AdapterV> {
    Seq::new(names.len(), |i: int| AdapterV { name: names[i], kind: kind_of(raws[i]) })
}

/// The numbers of the first `n` adapters.
pub open spec fn adapter_ids(names: Seq<Seq<char>>, n: nat) -> Map<Seq<char>, AdapterIdx>
    decreases n,
{
    if n == 0 {
        Map::empty()
    } else {
        adapter_ids(names, (n - 1) as nat).insert(names[n - 1], (n - 1) as usize)
    }
}

fn resolve_adapters(raw: &Names<RawAdapter>, diags: &mut Vec<Diagnostic>) -> (r: (
    Vec<AdapterDef>,
    Table<String, AdapterIdx>,
))
    ensures
        adapter_views(r.0@) == adapters_of(raw.names(), raw.values()),
        r.1@ == adapter_ids(raw.names(), raw.names().len()),
        findings(final(diags)@) == findings(old(diags)@) + adapters_findings(
            raw.names(),
            raw.values(),
            raw.names().len(),
        ),
{
    let ghost names = raw.names();
    let ghost raws = raw.values();
    let ghost before = findings(diags@);
    let n: usize = raw.len();
    let mut adapters: Vec<AdapterDef> = Vec::new();
    let mut index: Table<String, AdapterIdx> = Table::new();
    let mut i: usize = 0;
    assert(before + Seq::<Finding>::empty() =~= before);
    while i < n
        invariant
            i <= n == names.len(),
            names == raw.names(),
            raws == raw.values(),
            adapters@.len() == i,
            forall|j: int|
                0 <= j < i ==> (#[trigger] adapters@[j])@ == (AdapterV {
                    name: names[j],
                    kind: kind_of(raws[j]),
                }),
            index@ == adapter_ids(names, i as nat),
            findings(diags@) == before + adapters_findings(names, raws, i as nat),
        decreases n - i,
    {
        let name = raw.name(i);
        index.insert(name.clone(), i);
        let at = cat3("adapter '", name.as_str(), "'");
        let ghost mid = findings(diags@);
        let kind = adapter_kind(raw.value(i), diags, at.as_str());
        adapters.push(AdapterDef { name: name.clone(), kind });
        assert(before + adapters_findings(names, raws, i as nat) + kind_findings(
            raws[i as int],
            adapter_at(names[i as int]),
        ) =~= before + adapters_findings(names, raws, (i + 1) as nat));
        i += 1;
    }
    assert(adapter_views(adapters@) =~= adapters_of(names, raws));
    (adapters, index)
}

// ------------------------------------------------------------ devices

/// The capability that a device may declare under a name. Time and sun are the
/// clock's: naming one of them on a device is an error.
pub open spec fn device_capability(name: Seq<char>) -> Option<CapabilityKind> {
    match CapabilityKind::spec_from_name(name) {
        Some(CapabilityKind::TimeOfDay) => None,
        Some(CapabilityKind::SunUp) => None,
        other => other,
    }
}

pub fn parse_capability(name: &str) -> (r: Option<CapabilityKind>)
    ensures
        r == device_capability(name@),
{
    match CapabilityKind::from_name(name) {
        Some(CapabilityKind::TimeOfDay) => None,
        Some(CapabilityKind::SunUp) => None,
        other => other,
    }
}

/// The capabilities among some names.
pub open spec fn capabilities_of(names: Seq<Seq<char>>) -> Seq<CapabilityKind>
    decreases names.len(),
{
    if names.len() == 0 {
        Seq::empty()
    } else {
        match device_capability(names.last()) {
            Some(kind) => capabilities_of(names.drop_last()).push(kind),
            None => capabilities_of(names.drop_last()),
        }
    }
}

/// An error for each name that is no capability.
pub open spec fn capability_findings(names: Seq<Seq<char>>, at: Seq<char>) -> Seq<Finding>
    decreases names.len(),
{
    if names.len() == 0 {
        Seq::empty()
    } else {
        match device_capability(names.last()) {
            Some(_) => capability_findings(names.drop_last(), at),
            None => capability_findings(names.drop_last(), at).push(
                error_at(
                    "E_UNKNOWN_CAPABILITY"@,
                    "unknown capability '"@ + names.last() + "'"@,
                    at,
                ),
            ),
        }
    }
}

fn resolve_capabilities(raw: &Vec<String>, at: &str, diags: &mut Vec<Diagnostic>) -> (r: Vec<
    CapabilityKind,
>)
    ensures
        r@ == capabilities_of(texts(raw@)),
        findings(final(diags)@) == findings(old(diags)@) + capability_findings(texts(raw@), at@),
{
    let ghost all = texts(raw@);
    let ghost before = findings(diags@);
    let mut out: Vec<CapabilityKind> = Vec::new();
    let mut i: usize = 0;
    assert(all.take(0) =~= Seq::empty());
    assert(before + Seq::<Finding>::empty() =~= before);
    while i < raw.len()
        invariant
            i <= raw@.len(),
            all == texts(raw@),
            out@ == capabilities_of(all.take(i as int)),
            findings(diags@) == before + capability_findings(all.take(i as int), at@),
        decreases raw@.len() - i,
    {
        let name = raw[i].as_str();
        assert(all.take(i + 1).drop_last() =~= all.take(i as int));
        assert(all.take(i + 1).last() == name@);
        match parse_capability(name) {
            Some(kind) => out.push(kind),
            None => {
                report(diags, "E_UNKNOWN_CAPABILITY", cat3("unknown capability '", name, "'"), at);
                assert(findings(diags@) =~= before + capability_findings(all.take(i + 1), at@));
            },
        }
        i += 1;
    }
    assert(all.take(i as int) =~= all);
    out
}

/// The declared events of a device, numbered on from `first`.
pub open spec fn events_of(names: Seq<Seq<char>>, raws: Seq<String>, first: int) -> Seq<
    DeviceEventV,
> {
    Seq::new(
        names.len(),
        |i: int| DeviceEventV { id: ActionId((first + i) as u32), name: names[i], raw: raws[i]@ },
    )
}

fn intern_events(raw: &Names<String>, first: u32) -> (r: Vec<DeviceEvent>)
    requires
        first + raw.names().len() <= u32::MAX,
    ensures
        device_events(r@) == events_of(raw.names(), raw.values(), first as int),
        r@.len() == raw.names().len(),
{
    let n: usize = raw.len();
    let mut out: Vec<DeviceEvent> = Vec::new();
    let mut i: usize = 0;
    let ghost all = events_of(raw.names(), raw.values(), first as int);
    while i < n
        invariant
            i <= n == raw.names().len(),
            n == raw.values().len(),
            first + raw.names().len() <= u32::MAX,
            all == events_of(raw.names(), raw.values(), first as int),
            out@.len() == i,
            forall|j: int| 0 <= j < i ==> (#[trigger] out@[j])@ == all[j],
        decreases n - i,
    {
        out.push(
            DeviceEvent {
                id: ActionId(first + i as u32),
                name: raw.name(i).clone(),
                raw: raw.value(i).clone(),
            },
        );
        i += 1;
    }
    assert(device_events(out@) =~= all);
    out
}

pub open spec fn device_at(name: Seq<char>) -> Seq<char> {
    "device '"@ + name + "'"@
}

/// The devices so far.
pub struct Catalog {
    pub diags: Seq<Finding>,
    pub devices: Seq<DeviceV>,
    pub ids: Map<Seq<char>, DeviceId>,
    /// The adapters that devices are bound to.
    pub used: Seq<AdapterIdx>,
    /// The number of the next declared event.
    pub next_action: nat,
}

/// The adapter a device names, if there is one of that name.
pub open spec fn bound_adapter(ids: Map<Seq<char>, AdapterIdx>, raw: RawDevice) -> Option<
    AdapterIdx,
> {
    if ids.contains_key(raw.adapter@) {
        Some(ids[raw.adapter@])
    } else {
        None
    }
}

/// What is wrong with a device's choice of adapter.
pub open spec fn binding_findings(
    adapters: Seq<AdapterV>,
    ids: Map<Seq<char>, AdapterIdx>,
    raw: RawDevice,
    at: Seq<char>,
) -> Seq<Finding> {
    match bound_adapter(ids, raw) {
        None => seq![
            error_at(
                "E_UNKNOWN_ADAPTER"@,
                "references unknown adapter '"@ + raw.adapter@ + "'"@,
                at,
            ),
        ],
        Some(idx) => if idx < adapters.len() && is_northbound(adapters[idx as int].kind) {
            seq![
                error_at(
                    "E_NORTHBOUND_ADAPTER"@,
                    "adapter '"@ + raw.adapter@ + "' exposes devices and binds none"@,
                    at,
                ),
            ]
        } else {
            Seq::empty()
        },
    }
}

/// A warning for a device without capabilities.
pub open spec fn bare_findings(raw: RawDevice, at: Seq<char>) -> Seq<Finding> {
    if raw.capabilities@.len() == 0 {
        seq![warning_at("E_NO_CAPABILITIES"@, "device declares no capabilities"@, at)]
    } else {
        Seq::empty()
    }
}

/// One more device. It gets a number only where its adapter is known.
pub open spec fn with_device(
    c: Catalog,
    adapters: Seq<AdapterV>,
    ids: Map<Seq<char>, AdapterIdx>,
    name: Seq<char>,
    raw: RawDevice,
) -> Catalog {
    let at = device_at(name);
    let caps = texts(raw.capabilities@);
    let diags = c.diags + binding_findings(adapters, ids, raw, at) + capability_findings(caps, at)
        + bare_findings(raw, at);
    let next_action = c.next_action + raw.events.names().len();
    match bound_adapter(ids, raw) {
        None => Catalog { diags, next_action, ..c },
        Some(adapter) => {
            let id = DeviceId(c.devices.len() as u32);
            Catalog {
                diags,
                devices: c.devices.push(
                    DeviceV {
                        id,
                        name,
                        adapter,
                        address: opt_text(raw.address),
                        endpoint: raw.endpoint,
                        capabilities: capabilities_of(caps),
                        events: events_of(
                            raw.events.names(),
                            raw.events.values(),
                            c.next_action as int,
                        ),
                        metadata: MetadataV {
                            manufacturer: opt_text(raw.manufacturer),
                            model: opt_text(raw.model),
                            room: opt_text(raw.room),
                        },
                    },
                ),
                ids: c.ids.insert(name, id),
                used: noted(c.used, adapter),
                next_action,
            }
        },
    }
}

/// The first `n` devices.
pub open spec fn cataloged(
    diags: Seq<Finding>,
    adapters: Seq<AdapterV>,
    ids: Map<Seq<char>, AdapterIdx>,
    names: Seq<Seq<char>>,
    raws: Seq<RawDevice>,
    n: nat,
) -> Catalog
    decreases n,
{
    if n == 0 {
        Catalog {
            diags,
            devices: Seq::empty(),
            ids: Map::empty(),
            used: Seq::empty(),
            next_action: 0,
        }
    } else {
        with_device(
            cataloged(diags, adapters, ids, names, raws, (n - 1) as nat),
            adapters,
            ids,
            names[n - 1],
            raws[n - 1],
        )
    }
}

/// How many events the first `n` devices declare.
pub open spec fn events_declared(raws: Seq<RawDevice>, n: nat) -> nat
    decreases n,
{
    if n == 0 {
        0
    } else {
        events_declared(raws, (n - 1) as nat) + raws[n - 1].events.names().len()
    }
}

proof fn lemma_events_declared_grow(raws: Seq<RawDevice>, i: nat, n: nat)
    requires
        i <= n,
    ensures
        events_declared(raws, i) <= events_declared(raws, n),
    decreases n,
{
    if i < n {
        lemma_events_declared_grow(raws, i, (n - 1) as nat);
    }
}

fn note_adapter(used: &mut Vec<AdapterIdx>, idx: AdapterIdx)
    ensures
        final(used)@ == noted(old(used)@, idx),
{
    let mut i: usize = 0;
    while i < used.len()
        invariant
            used@ == old(used)@,
            i <= used@.len(),
            forall|j: int| 0 <= j < i ==> used@[j] != idx,
        decreases used@.len() - i,
    {
        if used[i] == idx {
            assert(used@.contains(used@[i as int]));
            return ;
        }
        i += 1;
    }
    used.push(idx);
}

fn resolve_devices(
    raw: &Names<RawDevice>,
    adapters: &Vec<AdapterDef>,
    index: &Table<String, AdapterIdx>,
    diags: &mut Vec<Diagnostic>,
) -> (r: (Vec<DeviceDef>, Table<String, DeviceId>, Vec<AdapterIdx>))
    requires
        raw.names().len() < u32::MAX,
        events_declared(raw.values(), raw.names().len()) <= u32::MAX,
    ensures
        ({
            let c = cataloged(
                findings(old(diags)@),
                adapter_views(adapters@),
                index@,
                raw.names(),
                raw.values(),
                raw.names().len(),
            );
            &&& device_views(r.0@) == c.devices
            &&& r.1@ == c.ids
            &&& r.2@ == c.used
            &&& findings(final(diags)@) == c.diags
            &&& r.0@.len() <= raw.names().len()
        }),
{
    let ghost names = raw.names();
    let ghost raws = raw.values();
    let ghost before = findings(diags@);
    let ghost kinds = adapter_views(adapters@);
    let n: usize = raw.len();
    let mut devices: Vec<DeviceDef> = Vec::new();
    let mut ids: Table<String, DeviceId> = Table::new();
    let mut used: Vec<AdapterIdx> = Vec::new();
    let mut next_action: u32 = 0;
    let mut i: usize = 0;
    assert(device_views(devices@) =~= Seq::empty());
    while i < n
        invariant
            i <= n == names.len(),
            n < u32::MAX,
            n == raws.len(),
            names == raw.names(),
            raws == raw.values(),
            kinds == adapter_views(adapters@),
            events_declared(raws, n as nat) <= u32::MAX,
            next_action == events_declared(raws, i as nat),
            devices@.len() <= i,
            ({
                let c = cataloged(before, kinds, index@, names, raws, i as nat);
                &&& device_views(devices@) == c.devices
                &&& ids@ == c.ids
                &&& used@ == c.used
                &&& findings(diags@) == c.diags
                &&& next_action == c.next_action
            }),
        decreases n - i,
    {
        let ghost c = cataloged(before, kinds, index@, names, raws, i as nat);
        let name = raw.name(i);
        let dev = raw.value(i);
        let at = cat3("device '", name.as_str(), "'");
        let adapter: Option<AdapterIdx> = match index.get(&dev.adapter) {
            Some(idx) => Some(*idx),
            None => None,
        };
        match adapter {
            Some(idx) => {
                if idx < adapters.len() && adapters[idx].kind.northbound() {
                    assert(kinds[idx as int] == adapters@[idx as int]@);
                    report(
                        diags,
                        "E_NORTHBOUND_ADAPTER",
                        cat3("adapter '", dev.adapter.as_str(), "' exposes devices and binds none"),
                        at.as_str(),
                    );
                } else {
                    if idx < adapters.len() {
                        assert(kinds[idx as int] == adapters@[idx as int]@);
                    }
                    assert(findings(diags@) + Seq::<Finding>::empty() =~= findings(diags@));
                }
            },
            None => {
                report(
                    diags,
                    "E_UNKNOWN_ADAPTER",
                    cat3("references unknown adapter '", dev.adapter.as_str(), "'"),
                    at.as_str(),
                );
            },
        }
        let capabilities = resolve_capabilities(&dev.capabilities, at.as_str(), diags);
        if dev.capabilities.len() == 0 {
            let ghost was = findings(diags@);
            diags.push(
                Diagnostic::warning(
                    "E_NO_CAPABILITIES",
                    "device declares no capabilities".to_owned(),
                ).at(at.as_str()),
            );
            assert(findings(diags@) =~= was + bare_findings(*dev, at@));
        } else {
            assert(findings(diags@) + Seq::<Finding>::empty() =~= findings(diags@));
        }
        // Interned in the order of device and event names, so that the numbers are
        // stable across runs. Two names may stand for the same raw string.
        proof {
            lemma_events_declared_grow(raws, (i + 1) as nat, n as nat);
        }
        let events = intern_events(&dev.events, next_action);
        let count: u32 = events.len() as u32;
        if let Some(adapter) = adapter {
            let id = DeviceId(devices.len() as u32);
            ids.insert(name.clone(), id);
            note_adapter(&mut used, adapter);
            let ghost was = devices@;
            let def = DeviceDef {
                id,
                name: name.clone(),
                adapter,
                address: clone_opt(&dev.address),
                endpoint: dev.endpoint,
                capabilities,
                events,
                metadata: DeviceMetadata {
                    manufacturer: clone_opt(&dev.manufacturer),
                    model: clone_opt(&dev.model),
                    room: clone_opt(&dev.room),
                },
            };
            devices.push(def);
            assert(device_views(devices@) =~= device_views(was).push(def@));
        }
        next_action = next_action + count;
        i += 1;
    }
    (devices, ids, used)
}

// ------------------------------------------------------------ scenes and schedules

/// The numbers of the first `n` scenes.
pub open spec fn scene_ids(names: Seq<Seq<char>>, n: nat) -> Map<Seq<char>, SceneId>
    decreases n,
{
    if n == 0 {
        Map::empty()
    } else {
        scene_ids(names, (n - 1) as nat).insert(names[n - 1], SceneId((n - 1) as u32))
    }
}

fn number_scenes(raw: &Names<Vec<RawValue>>) -> (r: Table<String, SceneId>)
    requires
        raw.names().len() <= u32::MAX,
    ensures
        r@ == scene_ids(raw.names(), raw.names().len()),
{
    let n: usize = raw.len();
    let mut index: Table<String, SceneId> = Table::new();
    let mut i: usize = 0;
    while i < n
        invariant
            i <= n == raw.names().len(),
            n <= u32::MAX,
            index@ == scene_ids(raw.names(), i as nat),
        decreases n - i,
    {
        index.insert(raw.name(i).clone(), SceneId(i as u32));
        i += 1;
    }
    index
}

/// The numbers of the first `n` schedules.
pub open spec fn schedule_ids(names: Seq<Seq<char>>, n: nat) -> Map<Seq<char>, ScheduleId>
    decreases n,
{
    if n == 0 {
        Map::empty()
    } else {
        schedule_ids(names, (n - 1) as nat).insert(names[n - 1], ScheduleId((n - 1) as u32))
    }
}

#[derive(Debug)]
pub struct CompiledScene {
    pub id: SceneId,
    pub name: String,
    pub commands: Vec<Command>,
}

/// [`CompiledScene`] with its text as characters.
pub struct SceneV {
    pub id: SceneId,
    pub name: Seq<char>,
    pub commands: Seq<CommandV>,
}

impl View for CompiledScene {
    type V = SceneV;

    open spec fn view(&self) -> SceneV {
        SceneV { id: self.id, name: self.name@, commands: command_views(self.commands@) }
    }
}

pub open spec fn scene_views(s: Seq<CompiledScene>) -> Seq<SceneV> {
    s.map_values(|x: CompiledScene| x@)
}

/// A resolved wall-clock schedule: its interned id and the (validated, desugared)
/// 5-field cron expression the clock adapter fires on.
#[derive(Debug)]
pub struct CompiledSchedule {
    pub id: ScheduleId,
    pub name: String,
    pub cron: String,
}

/// [`CompiledSchedule`] with its text as characters.
pub struct ScheduleV {
    pub id: ScheduleId,
    pub name: Seq<char>,
    pub cron: Seq<char>,
}

impl View for CompiledSchedule {
    type V = ScheduleV;

    open spec fn view(&self) -> ScheduleV {
        ScheduleV { id: self.id, name: self.name@, cron: self.cron@ }
    }
}

pub open spec fn schedule_views(s: Seq<CompiledSchedule>) -> Seq<ScheduleV> {
    s.map_values(|x: CompiledSchedule| x@)
}

pub open spec fn schedule_at(name: Seq<char>) -> Seq<char> {
    "schedule '"@ + name + "'"@
}

/// `HH:MM` on some days of the week, as cron.
pub open spec fn cron_at(hhmm: Seq<char>, dow: Seq<char>) -> Option<Seq<char>> {
    match clock_time(hhmm) {
        Some((hour, minute)) => Some(
            decimal(minute) + " "@ + decimal(hour) + " * * "@ + dow,
        ),
        None => None,
    }
}

/// The cron forms so far with one more, if it is set; or the finding that ends it.
pub open spec fn with_form(
    forms: Result<Seq<Seq<char>>, Finding>,
    field: Option<String>,
    dow: Seq<char>,
    at: Seq<char>,
) -> Result<Seq<Seq<char>>, Finding> {
    match (forms, field) {
        (Ok(fs), Some(hhmm)) => match cron_at(hhmm@, dow) {
            Some(cron) => Ok(fs.push(cron)),
            None => Err(
                error_at("E_BAD_TIME"@, "invalid time '"@ + hhmm@ + "' (expected HH:MM)"@, at),
            ),
        },
        _ => forms,
    }
}

/// The forms that a schedule sets, all as cron.
pub open spec fn schedule_forms(raw: RawSchedule, at: Seq<char>) -> Result<
    Seq<Seq<char>>,
    Finding,
> {
    let first: Seq<Seq<char>> = match raw.cron {
        Some(expr) => seq![expr@],
        None => Seq::empty(),
    };
    with_form(
        with_form(with_form(Ok(first), raw.daily, "*"@, at), raw.weekday, "1-5"@, at),
        raw.weekend,
        "0,6"@,
        at,
    )
}

/// The cron expression of a schedule: exactly one form must be set, and it must be
/// one. Otherwise what is wrong.
pub open spec fn schedule_cron(raw: RawSchedule, at: Seq<char>) -> Result<Seq<char>, Finding> {
    match schedule_forms(raw, at) {
        Err(f) => Err(f),
        Ok(forms) => if forms.len() == 0 {
            Err(
                error_at(
                    "E_BAD_SCHEDULE"@,
                    "schedule needs one of: cron, daily, weekday, weekend"@,
                    at,
                ),
            )
        } else if forms.len() > 1 {
            Err(
                error_at(
                    "E_BAD_SCHEDULE"@,
                    "schedule must set exactly one of: cron, daily, weekday, weekend"@,
                    at,
                ),
            )
        } else {
            match cron_fault(forms[0]) {
                None => Ok(forms[0]),
                Some(why) => Err(
                    error_at(
                        "E_BAD_CRON"@,
                        "invalid cron '"@ + forms[0] + "': "@ + why,
                        at,
                    ),
                ),
            }
        },
    }
}

/// `"HH:MM"` and a day-of-week field as a `"M H * * <dow>"` cron expression.
fn desugar_time(hhmm: &str, dow: &str) -> (r: Option<String>)
    ensures
        opt_text(r) == cron_at(hhmm@, dow@),
{
    match parse_clock_time(hhmm) {
        Some((hour, minute)) => {
            let h = decimal_text(hour as u64);
            let m = decimal_text(minute as u64);
            Some(cat5(m.as_str(), " ", h.as_str(), " * * ", dow))
        },
        None => None,
    }
}

/// Add a sugared form, if it is set. `false` where it is not a time.
fn add_form(
    forms: &mut Vec<String>,
    field: &Option<String>,
    dow: &str,
    at: &str,
    diags: &mut Vec<Diagnostic>,
) -> (ok: bool)
    ensures
        match with_form(Ok(texts(old(forms)@)), *field, dow@, at@) {
            Ok(fs) => ok && texts(final(forms)@) == fs && findings(final(diags)@) == findings(
                old(diags)@,
            ),
            Err(f) => !ok && findings(final(diags)@) == findings(old(diags)@) + seq![f],
        },
{
    match field {
        Some(hhmm) => match desugar_time(hhmm.as_str(), dow) {
            Some(cron) => {
                let ghost was = forms@;
                forms.push(cron);
                assert(texts(forms@) =~= texts(was).push(cron@));
                true
            },
            None => {
                report(
                    diags,
                    "E_BAD_TIME",
                    cat3("invalid time '", hhmm.as_str(), "' (expected HH:MM)"),
                    at,
                );
                false
            },
        },
        None => true,
    }
}

/// Desugar one schedule entry to a validated 5-field cron string.
fn resolve_schedule(name: &String, raw: &RawSchedule, diags: &mut Vec<Diagnostic>) -> (r: Option<
    String,
>)
    ensures
        match schedule_cron(*raw, schedule_at(name@)) {
            Ok(cron) => r is Some && r->0@ == cron && findings(final(diags)@) == findings(
                old(diags)@,
            ),
            Err(f) => r is None && findings(final(diags)@) == findings(old(diags)@) + seq![f],
        },
{
    let at = cat3("schedule '", name.as_str(), "'");
    let mut forms: Vec<String> = Vec::new();
    if let Some(expr) = &raw.cron {
        forms.push(expr.clone());
        assert(texts(forms@) =~= seq![expr@]);
    } else {
        assert(texts(forms@) =~= Seq::empty());
    }
    if !add_form(&mut forms, &raw.daily, "*", at.as_str(), diags) {
        return None;
    }
    if !add_form(&mut forms, &raw.weekday, "1-5", at.as_str(), diags) {
        return None;
    }
    if !add_form(&mut forms, &raw.weekend, "0,6", at.as_str(), diags) {
        return None;
    }
    assert(schedule_forms(*raw, at@) == Ok::<Seq<Seq<char>>, Finding>(texts(forms@)));
    assert(texts(forms@).len() == forms@.len());
    if forms.len() == 0 {
        report(
            diags,
            "E_BAD_SCHEDULE",
            "schedule needs one of: cron, daily, weekday, weekend".to_owned(),
            at.as_str(),
        );
        return None;
    }
    if forms.len() > 1 {
        report(
            diags,
            "E_BAD_SCHEDULE",
            "schedule must set exactly one of: cron, daily, weekday, weekend".to_owned(),
            at.as_str(),
        );
        return None;
    }
    let cron = forms[0].clone();
    assert(texts(forms@)[0] == cron@);
    match check_cron(cron.as_str()) {
        None => Some(cron),
        Some(why) => {
            let mut msg = cat3("invalid cron '", cron.as_str(), "': ");
            msg.append(why.as_str());
            report(diags, "E_BAD_CRON", msg, at.as_str());
            None
        },
    }
}

/// The first `n` schedules: what is wrong with them, and those that are right.
pub open spec fn scheduled(names: Seq<Seq<char>>, raws: Seq<RawSchedule>, n: nat) -> (
    Seq<Finding>,
    Seq<ScheduleV>,
)
    decreases n,
{
    if n == 0 {
        (Seq::empty(), Seq::empty())
    } else {
        let (diags, out) = scheduled(names, raws, (n - 1) as nat);
        match schedule_cron(raws[n - 1], schedule_at(names[n - 1])) {
            Ok(cron) => (
                diags,
                out.push(
                    ScheduleV { id: ScheduleId((n - 1) as u32), name: names[n - 1], cron },
                ),
            ),
            Err(f) => (diags.push(f), out),
        }
    }
}

fn resolve_schedules(raw: &Names<RawSchedule>, diags: &mut Vec<Diagnostic>) -> (r: (
    Vec<CompiledSchedule>,
    Table<String, ScheduleId>,
))
    requires
        raw.names().len() <= u32::MAX,
    ensures
        schedule_views(r.0@) == scheduled(raw.names(), raw.values(), raw.names().len()).1,
        r.1@ == schedule_ids(raw.names(), raw.names().len()),
        findings(final(diags)@) == findings(old(diags)@) + scheduled(
            raw.names(),
            raw.values(),
            raw.names().len(),
        ).0,
{
    let ghost names = raw.names();
    let ghost raws = raw.values();
    let ghost before = findings(diags@);
    let n: usize = raw.len();
    let mut out: Vec<CompiledSchedule> = Vec::new();
    let mut index: Table<String, ScheduleId> = Table::new();
    let mut i: usize = 0;
    assert(schedule_views(out@) =~= Seq::empty());
    assert(before + Seq::<Finding>::empty() =~= before);
    while i < n
        invariant
            i <= n == names.len(),
            n <= u32::MAX,
            names == raw.names(),
            raws == raw.values(),
            schedule_views(out@) == scheduled(names, raws, i as nat).1,
            index@ == schedule_ids(names, i as nat),
            findings(diags@) == before + scheduled(names, raws, i as nat).0,
        decreases n - i,
    {
        let id = ScheduleId(i as u32);
        let name = raw.name(i);
        index.insert(name.clone(), id);
        let ghost so_far = scheduled(names, raws, i as nat).0;
        match resolve_schedule(name, raw.value(i), diags) {
            Some(cron) => {
                let ghost was = out@;
                let s = CompiledSchedule { id, name: name.clone(), cron };
                out.push(s);
                assert(schedule_views(out@) =~= schedule_views(was).push(s@));
            },
            None => {
                assert(forall|f: Finding|
                    #![trigger so_far.push(f)]
                    before + so_far + seq![f] =~= before + so_far.push(f));
            },
        }
        i += 1;
    }
    (out, index)
}

// ------------------------------------------------------------ lowering

pub open spec fn scene_at(name: Seq<char>) -> Seq<char> {
    "scene '"@ + name + "'"@
}

/// The first `n` scenes, lowered.
pub open spec fn scenes_lowered(
    x: Scope,
    notes: Notes,
    names: Seq<Seq<char>>,
    raws: Seq<Vec<RawValue>>,
    n: nat,
) -> (Notes, Seq<SceneV>)
    decreases n,
{
    if n == 0 {
        (notes, Seq::empty())
    } else {
        let (before, out) = scenes_lowered(x, notes, names, raws, (n - 1) as nat);
        let (after, commands) = lowered_commands(
            x,
            before,
            raws[n - 1]@,
            scene_at(names[n - 1]),
        );
        (
            after,
            out.push(SceneV { id: SceneId((n - 1) as u32), name: names[n - 1], commands }),
        )
    }
}

fn lower_scenes(lw: &mut Lowerer, raw: &Names<Vec<RawValue>>) -> (r: Vec<CompiledScene>)
    requires
        raw.names().len() <= u32::MAX,
    ensures
        final(lw).scope() == old(lw).scope(),
        scenes_lowered(
            old(lw).scope(),
            old(lw).notes(),
            raw.names(),
            raw.values(),
            raw.names().len(),
        ) == (final(lw).notes(), scene_views(r@)),
{
    let ghost x = lw.scope();
    let ghost notes = lw.notes();
    let n: usize = raw.len();
    let mut out: Vec<CompiledScene> = Vec::new();
    let mut i: usize = 0;
    assert(scene_views(out@) =~= Seq::empty());
    while i < n
        invariant
            i <= n == raw.names().len(),
            n <= u32::MAX,
            lw.scope() == x,
            scenes_lowered(x, notes, raw.names(), raw.values(), i as nat) == (
                lw.notes(),
                scene_views(out@),
            ),
        decreases n - i,
    {
        let name = raw.name(i);
        let at = cat3("scene '", name.as_str(), "'");
        let commands = lw.commands(raw.value(i), at.as_str());
        let ghost was = out@;
        let s = CompiledScene { id: SceneId(i as u32), name: name.clone(), commands };
        out.push(s);
        assert(scene_views(out@) =~= scene_views(was).push(s@));
        i += 1;
    }
    out
}

pub open spec fn rule_at(name: Seq<char>) -> Seq<char> {
    "rule '"@ + name + "'"@
}

/// A rule's guard: always, unless it has one.
pub open spec fn lowered_guard(x: Scope, n: Notes, guard: Option<RawValue>, at: Seq<char>) -> (
    Notes,
    Option<ConditionV>,
) {
    match guard {
        Some(v) => lowered_condition(x, n, v, at),
        None => (n, Some(ConditionV::Always)),
    }
}

/// One rule, lowered. It is there only where its trigger and its guard are.
pub open spec fn lowered_rule(x: Scope, n: Notes, id: u32, name: Seq<char>, raw: RawRule) -> (
    Notes,
    Option<RuleV>,
) {
    let at = rule_at(name);
    let (n1, trigger) = lowered_trigger(x, n, raw.when, at);
    let (n2, condition) = lowered_guard(x, n1, raw.guard, at);
    let (n3, commands) = lowered_commands(x, n2, raw.commands@, at);
    (
        n3,
        match (trigger, condition) {
            (Some(trigger), Some(condition)) => Some(
                RuleV { id: RuleId(id), name, trigger, condition, commands, for_duration: None },
            ),
            _ => None,
        },
    )
}

/// The first `n` rules, lowered.
pub open spec fn rules_lowered(
    x: Scope,
    notes: Notes,
    names: Seq<Seq<char>>,
    raws: Seq<RawRule>,
    n: nat,
) -> (Notes, Seq<RuleV>)
    decreases n,
{
    if n == 0 {
        (notes, Seq::empty())
    } else {
        let (before, out) = rules_lowered(x, notes, names, raws, (n - 1) as nat);
        match lowered_rule(x, before, (n - 1) as u32, names[n - 1], raws[n - 1]) {
            (after, Some(rule)) => (after, out.push(rule)),
            (after, None) => (after, out),
        }
    }
}

pub open spec fn rule_views(s: Seq<Rule>) -> Seq<RuleV> {
    s.map_values(|x: Rule| x@)
}

fn lower_rule(lw: &mut Lowerer, id: u32, name: &String, raw: &RawRule) -> (r: Option<Rule>)
    ensures
        final(lw).scope() == old(lw).scope(),
        lowered_rule(old(lw).scope(), old(lw).notes(), id, name@, *raw) == (
            final(lw).notes(),
            match r {
                Some(rule) => Some(rule@),
                None => None,
            },
        ),
{
    let at = cat3("rule '", name.as_str(), "'");
    let trigger = lw.trigger(&raw.when, at.as_str());
    let condition = match &raw.guard {
        Some(c) => lw.condition(c, at.as_str()),
        None => Some(Condition::Always),
    };
    let commands = lw.commands(&raw.commands, at.as_str());
    match (trigger, condition) {
        (Some(trigger), Some(condition)) => {
            let rule = Rule::new(RuleId(id), trigger, condition, commands).with_name(
                name.as_str(),
            );
            Some(rule)
        },
        _ => None,
    }
}

fn lower_rules(lw: &mut Lowerer, raw: &Names<RawRule>) -> (r: Vec<Rule>)
    requires
        raw.names().len() <= u32::MAX,
    ensures
        final(lw).scope() == old(lw).scope(),
        rules_lowered(
            old(lw).scope(),
            old(lw).notes(),
            raw.names(),
            raw.values(),
            raw.names().len(),
        ) == (final(lw).notes(), rule_views(r@)),
{
    let ghost x = lw.scope();
    let ghost notes = lw.notes();
    let n: usize = raw.len();
    let mut out: Vec<Rule> = Vec::new();
    let mut i: usize = 0;
    assert(rule_views(out@) =~= Seq::empty());
    while i < n
        invariant
            i <= n == raw.names().len(),
            n <= u32::MAX,
            lw.scope() == x,
            rules_lowered(x, notes, raw.names(), raw.values(), i as nat) == (
                lw.notes(),
                rule_views(out@),
            ),
        decreases n - i,
    {
        match lower_rule(lw, i as u32, raw.name(i), raw.value(i)) {
            Some(rule) => {
                let ghost was = out@;
                out.push(rule);
                assert(rule_views(out@) =~= rule_views(was).push(rule@));
            },
            None => {},
        }
        i += 1;
    }
    out
}

// ------------------------------------------------------------ whole-program lints

/// A warning for each southbound adapter among the first `n` that no device uses.
pub open spec fn unused_adapters(adapters: Seq<AdapterV>, used: Seq<AdapterIdx>, n: nat) -> Seq<
    Finding,
>
    decreases n,
{
    if n == 0 {
        Seq::empty()
    } else {
        let before = unused_adapters(adapters, used, (n - 1) as nat);
        let a = adapters[n - 1];
        if used.contains((n - 1) as usize) || is_northbound(a.kind) {
            before
        } else {
            before.push(
                warning_at(
                    "E_UNUSED_ADAPTER"@,
                    "adapter is not used by any device"@,
                    adapter_at(a.name),
                ),
            )
        }
    }
}

fn lint_adapters(
    adapters: &Vec<AdapterDef>,
    used: &Vec<AdapterIdx>,
    diags: &mut Vec<Diagnostic>,
)
    ensures
        findings(final(diags)@) == findings(old(diags)@) + unused_adapters(
            adapter_views(adapters@),
            used@,
            adapters@.len(),
        ),
{
    let ghost all = adapter_views(adapters@);
    let ghost before = findings(diags@);
    let mut i: usize = 0;
    assert(before + Seq::<Finding>::empty() =~= before);
    while i < adapters.len()
        invariant
            i <= adapters@.len(),
            all == adapter_views(adapters@),
            findings(diags@) == before + unused_adapters(all, used@, i as nat),
        decreases adapters@.len() - i,
    {
        assert(all[i as int] == adapters@[i as int]@);
        if !contains_idx(used, i) && !adapters[i].kind.northbound() {
            let at = cat3("adapter '", adapters[i].name.as_str(), "'");
            warn(diags, "E_UNUSED_ADAPTER", "adapter is not used by any device", at.as_str());
            assert(findings(diags@) =~= before + unused_adapters(all, used@, (i + 1) as nat));
        }
        i += 1;
    }
}

fn contains_idx(s: &Vec<AdapterIdx>, x: AdapterIdx) -> (r: bool)
    ensures
        r == s@.contains(x),
{
    let mut i: usize = 0;
    while i < s.len()
        invariant
            i <= s@.len(),
            forall|j: int| 0 <= j < i ==> s@[j] != x,
        decreases s@.len() - i,
    {
        if s[i] == x {
            assert(s@.contains(s@[i as int]));
            return true;
        }
        i += 1;
    }
    false
}

/// Note a warning.
fn warn(diags: &mut Vec<Diagnostic>, code: &'static str, msg: &str, at: &str)
    ensures
        findings(final(diags)@) == findings(old(diags)@).push(warning_at(code@, msg@, at@)),
{
    let ghost was = diags@;
    diags.push(Diagnostic::warning(code, msg.to_owned()).at(at));
    assert(findings(diags@) =~= findings(was).push(warning_at(code@, msg@, at@)));
}

/// What its adapter finds wrong with a device.
pub open spec fn address_findings(adapters: Seq<AdapterV>, d: DeviceV) -> Seq<Finding> {
    if d.adapter >= adapters.len() {
        Seq::empty()
    } else {
        match adapters[d.adapter as int].kind {
            KindV::Zigbee2Mqtt { .. } => zigbee2mqtt::Plugin.device_findings(d, device_at(d.name)),
            KindV::Matter { .. } => matter::Plugin.device_findings(d, device_at(d.name)),
            KindV::Zwavejs { .. } => zwavejs::Plugin.device_findings(d, device_at(d.name)),
            _ => Seq::empty(),
        }
    }
}

/// What the adapters find wrong with the first `n` devices.
pub open spec fn addresses_findings(adapters: Seq<AdapterV>, devices: Seq<DeviceV>, n: nat) -> Seq<
    Finding,
>
    decreases n,
{
    if n == 0 {
        Seq::empty()
    } else {
        addresses_findings(adapters, devices, (n - 1) as nat) + address_findings(
            adapters,
            devices[n - 1],
        )
    }
}

fn lint_addresses(
    adapters: &Vec<AdapterDef>,
    devices: &Vec<DeviceDef>,
    diags: &mut Vec<Diagnostic>,
)
    ensures
        findings(final(diags)@) == findings(old(diags)@) + addresses_findings(
            adapter_views(adapters@),
            device_views(devices@),
            devices@.len(),
        ),
{
    let ghost all = adapter_views(adapters@);
    let ghost ds = device_views(devices@);
    let ghost before = findings(diags@);
    let mut i: usize = 0;
    assert(before + Seq::<Finding>::empty() =~= before);
    while i < devices.len()
        invariant
            i <= devices@.len(),
            all == adapter_views(adapters@),
            ds == device_views(devices@),
            findings(diags@) == before + addresses_findings(all, ds, i as nat),
        decreases devices@.len() - i,
    {
        let d = &devices[i];
        assert(ds[i as int] == d@);
        let ghost mid = findings(diags@);
        let at = cat3("device '", d.name.as_str(), "'");
        if d.adapter < adapters.len() {
            assert(all[d.adapter as int] == adapters@[d.adapter as int]@);
            match &adapters[d.adapter].kind {
                AdapterKind::Zigbee2Mqtt { .. } => {
                    zigbee2mqtt::Plugin.validate_device(d, at.as_str(), diags);
                },
                AdapterKind::Matter { .. } => {
                    matter::Plugin.validate_device(d, at.as_str(), diags);
                },
                AdapterKind::Zwavejs { .. } => {
                    zwavejs::Plugin.validate_device(d, at.as_str(), diags);
                },
                _ => {
                    assert(findings(diags@) + Seq::<Finding>::empty() =~= findings(diags@));
                },
            }
        } else {
            assert(findings(diags@) + Seq::<Finding>::empty() =~= findings(diags@));
        }
        assert(findings(diags@) == mid + address_findings(all, ds[i as int]));
        assert(findings(diags@) =~= before + addresses_findings(all, ds, (i + 1) as nat));
        i += 1;
    }
}

// ------------------------------------------------------------ exposure

/// The most devices that one `matter_device` adapter can expose.
pub const MAX_MATTER_DEVICES: usize = 64;

/// Whether an adapter exposes a device.
pub open spec fn exposes(e: ExposeV, name: Seq<char>) -> bool {
    match e {
        ExposeV::All => true,
        ExposeV::Named(names) => names.contains(name),
    }
}

/// The devices an adapter exposes, in their order.
pub open spec fn exposed_of(e: ExposeV, devices: Seq<DeviceV>) -> Seq<DeviceV>
    decreases devices.len(),
{
    if devices.len() == 0 {
        Seq::empty()
    } else {
        let before = exposed_of(e, devices.drop_last());
        if exposes(e, devices.last().name) {
            before.push(devices.last())
        } else {
            before
        }
    }
}

fn contains_text(s: &Vec<String>, x: &String) -> (r: bool)
    ensures
        r == texts(s@).contains(x@),
{
    let mut i: usize = 0;
    let ghost all = texts(s@);
    while i < s.len()
        invariant
            i <= s@.len(),
            all == texts(s@),
            forall|j: int| 0 <= j < i ==> all[j] != x@,
        decreases s@.len() - i,
    {
        assert(all[i as int] == s@[i as int]@);
        if s[i] == *x {
            assert(all.contains(all[i as int]));
            return true;
        }
        i += 1;
    }
    false
}

/// Resolve an adapter's choice into the devices it mirrors. A name that no device
/// has contributes nothing.
pub fn exposed_devices<'a>(devices: &'a Vec<DeviceDef>, spec: &ExposeSpec) -> (r: Vec<
    &'a DeviceDef,
>)
    ensures
        r@.map_values(|d: &DeviceDef| d@) == exposed_of(spec@, device_views(devices@)),
        r@.len() <= devices@.len(),
{
    let ghost all = device_views(devices@);
    let mut out: Vec<&DeviceDef> = Vec::new();
    let mut i: usize = 0;
    assert(out@.map_values(|d: &DeviceDef| d@) =~= exposed_of(spec@, all.take(0)));
    while i < devices.len()
        invariant
            i <= devices@.len(),
            out@.len() <= i,
            all == device_views(devices@),
            out@.map_values(|d: &DeviceDef| d@) == exposed_of(spec@, all.take(i as int)),
        decreases devices@.len() - i,
    {
        let d = &devices[i];
        assert(all.take(i + 1).drop_last() =~= all.take(i as int));
        assert(all.take(i + 1).last() == d@);
        let hit: bool = match spec {
            ExposeSpec::All => true,
            ExposeSpec::Named(names) => contains_text(names, &d.name),
        };
        if hit {
            let ghost was = out@;
            out.push(d);
            assert(out@.map_values(|d: &DeviceDef| d@) =~= was.map_values(
                |d: &DeviceDef| d@,
            ).push(d@));
        }
        i += 1;
    }
    assert(all.take(i as int) =~= all);
    out
}

/// An error for each listed name among the first `n` that no device has.
pub open spec fn unknown_exposed(
    names: Seq<Seq<char>>,
    ids: Map<Seq<char>, DeviceId>,
    n: nat,
    at: Seq<char>,
) -> Seq<Finding>
    decreases n,
{
    if n == 0 {
        Seq::empty()
    } else {
        let before = unknown_exposed(names, ids, (n - 1) as nat, at);
        if ids.contains_key(names[n - 1]) {
            before
        } else {
            before.push(
                error_at(
                    "E_UNKNOWN_DEVICE"@,
                    "exposes unknown device '"@ + names[n - 1] + "'"@,
                    at,
                ),
            )
        }
    }
}

/// The devices an adapter chooses to expose.
pub open spec fn exposure_of(kind: KindV) -> Option<ExposeV> {
    match kind {
        KindV::MatterDevice { expose, .. } => Some(expose),
        KindV::MockNorthbound { expose } => Some(expose),
        _ => None,
    }
}

/// What is wrong with an adapter's choice of devices.
pub open spec fn exposure_findings(
    a: AdapterV,
    devices: Seq<DeviceV>,
    ids: Map<Seq<char>, DeviceId>,
) -> Seq<Finding> {
    let at = adapter_at(a.name);
    match exposure_of(a.kind) {
        None => Seq::empty(),
        Some(e) => {
            let unknown = match e {
                ExposeV::Named(names) => unknown_exposed(names, ids, names.len(), at),
                ExposeV::All => Seq::empty(),
            };
            // Only what has something to project gets an endpoint.
            let chosen = exposed_of(e, devices);
            let count = matter_device::projected(chosen, chosen.len()).len();
            if a.kind is MatterDevice && count > MAX_MATTER_DEVICES {
                unknown.push(
                    error_at(
                        "E_TOO_MANY_EXPOSED"@,
                        "exposes "@ + decimal(count) + " devices, of which a node carries at most 64"@,
                        at,
                    ),
                )
            } else {
                unknown
            }
        },
    }
}

pub open spec fn exposures_findings(
    adapters: Seq<AdapterV>,
    devices: Seq<DeviceV>,
    ids: Map<Seq<char>, DeviceId>,
    n: nat,
) -> Seq<Finding>
    decreases n,
{
    if n == 0 {
        Seq::empty()
    } else {
        exposures_findings(adapters, devices, ids, (n - 1) as nat) + exposure_findings(
            adapters[n - 1],
            devices,
            ids,
        )
    }
}

fn lint_listed(
    names: &Vec<String>,
    ids: &Table<String, DeviceId>,
    at: &str,
    diags: &mut Vec<Diagnostic>,
)
    ensures
        findings(final(diags)@) == findings(old(diags)@) + unknown_exposed(
            texts(names@),
            ids@,
            names@.len(),
            at@,
        ),
{
    let ghost all = texts(names@);
    let ghost before = findings(diags@);
    let mut i: usize = 0;
    assert(before + Seq::<Finding>::empty() =~= before);
    while i < names.len()
        invariant
            i <= names@.len(),
            all == texts(names@),
            findings(diags@) == before + unknown_exposed(all, ids@, i as nat, at@),
        decreases names@.len() - i,
    {
        assert(all[i as int] == names@[i as int]@);
        if !ids.contains_key(&names[i]) {
            report(
                diags,
                "E_UNKNOWN_DEVICE",
                cat3("exposes unknown device '", names[i].as_str(), "'"),
                at,
            );
            assert(findings(diags@) =~= before + unknown_exposed(all, ids@, (i + 1) as nat, at@));
        }
        i += 1;
    }
}

fn lint_exposure(
    a: &AdapterDef,
    devices: &Vec<DeviceDef>,
    ids: &Table<String, DeviceId>,
    diags: &mut Vec<Diagnostic>,
)
    ensures
        findings(final(diags)@) == findings(old(diags)@) + exposure_findings(
            a@,
            device_views(devices@),
            ids@,
        ),
{
    let ghost before = findings(diags@);
    let at = cat3("adapter '", a.name.as_str(), "'");
    let (spec, capped): (&ExposeSpec, bool) = match &a.kind {
        AdapterKind::MatterDevice { expose, .. } => (expose, true),
        AdapterKind::MockNorthbound { expose } => (expose, false),
        _ => {
            assert(findings(diags@) + Seq::<Finding>::empty() =~= findings(diags@));
            return ;
        },
    };
    assert(before + Seq::<Finding>::empty() =~= before);
    if let ExposeSpec::Named(names) = spec {
        lint_listed(names, ids, at.as_str(), diags);
    }
    let exposed = exposed_devices(devices, spec);
    let endpoints = matter_device::project(&exposed);
    assert(exposed@.len() == exposed_of(spec@, device_views(devices@)).len());
    assert(endpoints@.len() == matter_device::exposed_views(endpoints@).len());
    if capped && endpoints.len() > MAX_MATTER_DEVICES {
        let shown = decimal_text(endpoints.len() as u64);
        let ghost mid = findings(diags@);
        report(
            diags,
            "E_TOO_MANY_EXPOSED",
            cat3("exposes ", shown.as_str(), " devices, of which a node carries at most 64"),
            at.as_str(),
        );
        assert(findings(diags@) =~= before + exposure_findings(a@, device_views(devices@), ids@));
    }
}

fn lint_exposures(
    adapters: &Vec<AdapterDef>,
    devices: &Vec<DeviceDef>,
    ids: &Table<String, DeviceId>,
    diags: &mut Vec<Diagnostic>,
)
    ensures
        findings(final(diags)@) == findings(old(diags)@) + exposures_findings(
            adapter_views(adapters@),
            device_views(devices@),
            ids@,
            adapters@.len(),
        ),
{
    let ghost all = adapter_views(adapters@);
    let ghost ds = device_views(devices@);
    let ghost before = findings(diags@);
    let mut i: usize = 0;
    assert(before + Seq::<Finding>::empty() =~= before);
    while i < adapters.len()
        invariant
            i <= adapters@.len(),
            all == adapter_views(adapters@),
            ds == device_views(devices@),
            findings(diags@) == before + exposures_findings(all, ds, ids@, i as nat),
        decreases adapters@.len() - i,
    {
        assert(all[i as int] == adapters@[i as int]@);
        lint_exposure(&adapters[i], devices, ids, diags);
        assert(findings(diags@) =~= before + exposures_findings(all, ds, ids@, (i + 1) as nat));
        i += 1;
    }
}

// ------------------------------------------------------------ mentions

/// A warning for each scene among the first `n` that nothing activates.
pub open spec fn unused_scenes(scenes: Seq<SceneV>, used: Seq<SceneId>, n: nat) -> Seq<Finding>
    decreases n,
{
    if n == 0 {
        Seq::empty()
    } else {
        let before = unused_scenes(scenes, used, (n - 1) as nat);
        let s = scenes[n - 1];
        if used.contains(s.id) {
            before
        } else {
            before.push(
                warning_at("E_UNUSED_SCENE"@, "scene is never activated"@, scene_at(s.name)),
            )
        }
    }
}

fn lint_scenes(scenes: &Vec<CompiledScene>, used: &Vec<SceneId>, diags: &mut Vec<Diagnostic>)
    ensures
        findings(final(diags)@) == findings(old(diags)@) + unused_scenes(
            scene_views(scenes@),
            used@,
            scenes@.len(),
        ),
{
    let ghost all = scene_views(scenes@);
    let ghost before = findings(diags@);
    let mut i: usize = 0;
    assert(before + Seq::<Finding>::empty() =~= before);
    while i < scenes.len()
        invariant
            i <= scenes@.len(),
            all == scene_views(scenes@),
            findings(diags@) == before + unused_scenes(all, used@, i as nat),
        decreases scenes@.len() - i,
    {
        assert(all[i as int] == scenes@[i as int]@);
        let id = scenes[i].id;
        let mut hit = false;
        let mut k: usize = 0;
        while k < used.len()
            invariant
                k <= used@.len(),
                hit == (exists|j: int| 0 <= j < k && used@[j] == id),
            decreases used@.len() - k,
        {
            if used[k] == id {
                hit = true;
            }
            k += 1;
        }
        assert(hit == used@.contains(id));
        if !hit {
            let at = cat3("scene '", scenes[i].name.as_str(), "'");
            warn(diags, "E_UNUSED_SCENE", "scene is never activated", at.as_str());
            assert(findings(diags@) =~= before + unused_scenes(all, used@, (i + 1) as nat));
        }
        i += 1;
    }
}

/// A warning for each schedule among the first `n` that no rule waits for.
pub open spec fn unused_schedules(schedules: Seq<ScheduleV>, used: Seq<ScheduleId>, n: nat) -> Seq<
    Finding,
>
    decreases n,
{
    if n == 0 {
        Seq::empty()
    } else {
        let before = unused_schedules(schedules, used, (n - 1) as nat);
        let s = schedules[n - 1];
        if used.contains(s.id) {
            before
        } else {
            before.push(
                warning_at(
                    "E_UNUSED_SCHEDULE"@,
                    "schedule triggers no rule"@,
                    schedule_at(s.name),
                ),
            )
        }
    }
}

fn lint_schedules(
    schedules: &Vec<CompiledSchedule>,
    used: &Vec<ScheduleId>,
    diags: &mut Vec<Diagnostic>,
)
    ensures
        findings(final(diags)@) == findings(old(diags)@) + unused_schedules(
            schedule_views(schedules@),
            used@,
            schedules@.len(),
        ),
{
    let ghost all = schedule_views(schedules@);
    let ghost before = findings(diags@);
    let mut i: usize = 0;
    assert(before + Seq::<Finding>::empty() =~= before);
    while i < schedules.len()
        invariant
            i <= schedules@.len(),
            all == schedule_views(schedules@),
            findings(diags@) == before + unused_schedules(all, used@, i as nat),
        decreases schedules@.len() - i,
    {
        assert(all[i as int] == schedules@[i as int]@);
        let id = schedules[i].id;
        let mut hit = false;
        let mut k: usize = 0;
        while k < used.len()
            invariant
                k <= used@.len(),
                hit == (exists|j: int| 0 <= j < k && used@[j] == id),
            decreases used@.len() - k,
        {
            if used[k] == id {
                hit = true;
            }
            k += 1;
        }
        assert(hit == used@.contains(id));
        if !hit {
            let at = cat3("schedule '", schedules[i].name.as_str(), "'");
            warn(diags, "E_UNUSED_SCHEDULE", "schedule triggers no rule", at.as_str());
            assert(findings(diags@) =~= before + unused_schedules(all, used@, (i + 1) as nat));
        }
        i += 1;
    }
}

pub open spec fn dangling_timer(key: Seq<char>) -> Finding {
    Finding {
        severity: Severity::Warning,
        code: "E_DANGLING_TIMER"@,
        message: "timer key '"@ + key + "' is referenced but never scheduled"@,
        context: None,
    }
}

/// A warning for each timer among the first `n` mentioned that nothing schedules.
pub open spec fn dangling_timers(
    referenced: Seq<Seq<char>>,
    scheduled: Seq<Seq<char>>,
    n: nat,
) -> Seq<Finding>
    decreases n,
{
    if n == 0 {
        Seq::empty()
    } else {
        let before = dangling_timers(referenced, scheduled, (n - 1) as nat);
        if scheduled.contains(referenced[n - 1]) {
            before
        } else {
            before.push(dangling_timer(referenced[n - 1]))
        }
    }
}

fn lint_timers(referenced: &Vec<String>, scheduled: &Vec<String>, diags: &mut Vec<Diagnostic>)
    ensures
        findings(final(diags)@) == findings(old(diags)@) + dangling_timers(
            texts(referenced@),
            texts(scheduled@),
            referenced@.len(),
        ),
{
    let ghost all = texts(referenced@);
    let ghost known = texts(scheduled@);
    let ghost before = findings(diags@);
    let mut i: usize = 0;
    assert(before + Seq::<Finding>::empty() =~= before);
    while i < referenced.len()
        invariant
            i <= referenced@.len(),
            all == texts(referenced@),
            known == texts(scheduled@),
            findings(diags@) == before + dangling_timers(all, known, i as nat),
        decreases referenced@.len() - i,
    {
        assert(all[i as int] == referenced@[i as int]@);
        if !contains_text(scheduled, &referenced[i]) {
            let ghost mid = findings(diags@);
            diags.push(
                Diagnostic::warning(
                    "E_DANGLING_TIMER",
                    cat3(
                        "timer key '",
                        referenced[i].as_str(),
                        "' is referenced but never scheduled",
                    ),
                ),
            );
            assert(findings(diags@) =~= mid.push(dangling_timer(all[i as int])));
            assert(findings(diags@) =~= before + dangling_timers(all, known, (i + 1) as nat));
        }
        i += 1;
    }
}

/// A warning where nothing is configured.
pub open spec fn empty_findings(devices: nat) -> Seq<Finding> {
    if devices == 0 {
        seq![
            Finding {
                severity: Severity::Warning,
                code: "E_NO_DEVICES"@,
                message: "configuration defines no devices"@,
                context: None,
            },
        ]
    } else {
        Seq::empty()
    }
}

fn lint_empty(devices: usize, diags: &mut Vec<Diagnostic>)
    ensures
        findings(final(diags)@) == findings(old(diags)@) + empty_findings(devices as nat),
{
    let ghost before = findings(diags@);
    if devices == 0 {
        diags.push(
            Diagnostic::warning("E_NO_DEVICES", "configuration defines no devices".to_owned()),
        );
        assert(findings(diags@) =~= before + empty_findings(0));
    } else {
        assert(before + Seq::<Finding>::empty() =~= before);
    }
}

// ------------------------------------------------------------ the whole

/// The compiled, fully resolved configuration, with strings already turned into
/// references. `warnings` are surfaced on success.
pub struct CompiledConfig {
    pub system: SystemConfig,
    pub adapters: Vec<AdapterDef>,
    pub devices: Vec<DeviceDef>,
    pub scenes: Vec<CompiledScene>,
    pub schedules: Vec<CompiledSchedule>,
    pub rules: Vec<Rule>,
    pub warnings: Vec<Diagnostic>,
    pub(crate) adapter_index: Table<String, AdapterIdx>,
    pub(crate) device_index: Table<String, DeviceId>,
    pub(crate) scene_index: Table<String, SceneId>,
    pub(crate) schedule_index: Table<String, ScheduleId>,
    pub(crate) clock_device: DeviceId,
}

/// What a configuration resolves to, and everything found on the way.
pub struct Resolution {
    pub system: SystemV,
    pub adapters: Seq<AdapterV>,
    pub devices: Seq<DeviceV>,
    pub scenes: Seq<SceneV>,
    pub schedules: Seq<ScheduleV>,
    pub rules: Seq<RuleV>,
    pub diags: Seq<Finding>,
    pub adapter_ids: Map<Seq<char>, AdapterIdx>,
    pub device_ids: Map<Seq<char>, DeviceId>,
    pub scene_ids: Map<Seq<char>, SceneId>,
    pub schedule_ids: Map<Seq<char>, ScheduleId>,
    pub clock: DeviceId,
}

impl View for CompiledConfig {
    type V = Resolution;

    closed spec fn view(&self) -> Resolution {
        Resolution {
            system: self.system@,
            adapters: adapter_views(self.adapters@),
            devices: device_views(self.devices@),
            scenes: scene_views(self.scenes@),
            schedules: schedule_views(self.schedules@),
            rules: rule_views(self.rules@),
            diags: findings(self.warnings@),
            adapter_ids: self.adapter_index@,
            device_ids: self.device_index@,
            scene_ids: self.scene_index@,
            schedule_ids: self.schedule_index@,
            clock: self.clock_device,
        }
    }
}

/// The parts of a configuration that can be numbered.
pub open spec fn numberable(raw: RawConfig) -> bool {
    &&& raw.devices.names().len() < u32::MAX
    &&& events_declared(raw.devices.values(), raw.devices.names().len()) <= u32::MAX
    &&& raw.scenes.names().len() <= u32::MAX
    &&& raw.schedules.names().len() <= u32::MAX
    &&& raw.rules.names().len() <= u32::MAX
}

/// The devices of a configuration, and what is found until then.
pub open spec fn devices_resolved(raw: RawConfig) -> Catalog {
    let n = raw.adapters.names().len();
    cataloged(
        adapters_findings(raw.adapters.names(), raw.adapters.values(), n),
        adapters_of(raw.adapters.names(), raw.adapters.values()),
        adapter_ids(raw.adapters.names(), n),
        raw.devices.names(),
        raw.devices.values(),
        raw.devices.names().len(),
    )
}

/// What names stand for in scenes and rules.
pub open spec fn scope_of(raw: RawConfig) -> Scope {
    let c = devices_resolved(raw);
    Scope {
        devices: c.devices,
        device_ids: c.ids,
        scene_ids: scene_ids(raw.scenes.names(), raw.scenes.names().len()),
        schedule_ids: schedule_ids(raw.schedules.names(), raw.schedules.names().len()),
        clock: DeviceId(c.devices.len() as u32),
    }
}

/// What is noted before lowering begins.
pub open spec fn notes_before(raw: RawConfig) -> Notes {
    Notes {
        diags: devices_resolved(raw).diags + scheduled(
            raw.schedules.names(),
            raw.schedules.values(),
            raw.schedules.names().len(),
        ).0,
        scheduled: Seq::empty(),
        referenced: Seq::empty(),
        scenes: Seq::empty(),
        schedules: Seq::empty(),
    }
}

/// The lints over the whole configuration.
pub open spec fn linted(
    adapters: Seq<AdapterV>,
    c: Catalog,
    scenes: Seq<SceneV>,
    schedules: Seq<ScheduleV>,
    notes: Notes,
    devices: nat,
    system: RawSystem,
) -> Seq<Finding> {
    notes.diags + unused_adapters(adapters, c.used, adapters.len()) + addresses_findings(
        adapters,
        c.devices,
        c.devices.len(),
    ) + exposures_findings(adapters, c.devices, c.ids, adapters.len()) + unused_scenes(
        scenes,
        notes.scenes,
        scenes.len(),
    ) + unused_schedules(schedules, notes.schedules, schedules.len()) + dangling_timers(
        notes.referenced,
        notes.scheduled,
        notes.referenced.len(),
    ) + empty_findings(devices) + system_findings(system)
}

/// What a configuration resolves to.
pub open spec fn resolved(raw: RawConfig) -> Resolution {
    let c = devices_resolved(raw);
    let x = scope_of(raw);
    let adapters = adapters_of(raw.adapters.names(), raw.adapters.values());
    let schedules = scheduled(
        raw.schedules.names(),
        raw.schedules.values(),
        raw.schedules.names().len(),
    ).1;
    let (n1, scenes) = scenes_lowered(
        x,
        notes_before(raw),
        raw.scenes.names(),
        raw.scenes.values(),
        raw.scenes.names().len(),
    );
    let (n2, rules) = rules_lowered(
        x,
        n1,
        raw.rules.names(),
        raw.rules.values(),
        raw.rules.names().len(),
    );
    Resolution {
        system: system_of(raw.system),
        adapters,
        devices: c.devices,
        scenes,
        schedules,
        rules,
        diags: linted(
            adapters,
            c,
            scenes,
            schedules,
            n2,
            raw.devices.names().len(),
            raw.system,
        ),
        adapter_ids: adapter_ids(raw.adapters.names(), raw.adapters.names().len()),
        device_ids: c.ids,
        scene_ids: x.scene_ids,
        schedule_ids: x.schedule_ids,
        clock: x.clock,
    }
}

/// Resolve a configuration, or return every diagnostic found. It fails exactly where
/// some finding is an error.
pub fn resolve(raw: RawConfig) -> (r: Result<CompiledConfig, CompileErrors>)
    requires
        numberable(raw),
    ensures
        match r {
            Ok(cfg) => cfg@ == resolved(raw) && !has_error(resolved(raw).diags),
            Err(e) => findings(e.0@) == resolved(raw).diags && has_error(resolved(raw).diags),
        },
{
    let mut diags: Vec<Diagnostic> = Vec::new();
    assert(findings(diags@) =~= Seq::empty());
    let (adapters, adapter_index) = resolve_adapters(&raw.adapters, &mut diags);
    let ghost n = raw.adapters.names().len();
    assert(findings(diags@) =~= adapters_findings(raw.adapters.names(), raw.adapters.values(), n));
    let (devices, device_index, used_adapters) = resolve_devices(
        &raw.devices,
        &adapters,
        &adapter_index,
        &mut diags,
    );
    let ghost c = devices_resolved(raw);
    assert(device_views(devices@).len() == devices@.len());
    // The synthetic clock device, just past the user devices.
    let clock_device = DeviceId(devices.len() as u32);
    // Scenes are numbered before lowering so that rules can reference them.
    let scene_index = number_scenes(&raw.scenes);
    let (schedules, schedule_index) = resolve_schedules(&raw.schedules, &mut diags);

    let mut lw = Lowerer {
        devices: &devices,
        device_index: &device_index,
        scene_index: &scene_index,
        schedule_index: &schedule_index,
        clock_device,
        diags,
        scheduled_keys: Vec::new(),
        referenced_keys: Vec::new(),
        used_scenes: Vec::new(),
        referenced_schedules: Vec::new(),
    };
    assert(texts(lw.scheduled_keys@) =~= Seq::empty());
    assert(texts(lw.referenced_keys@) =~= Seq::empty());
    assert(lw.scope() == scope_of(raw));
    assert(lw.notes() == notes_before(raw));
    let scenes = lower_scenes(&mut lw, &raw.scenes);
    let rules = lower_rules(&mut lw, &raw.rules);
    let ghost notes = lw.notes();
    let used_scenes = lw.used_scenes;
    let referenced_schedules = lw.referenced_schedules;
    let referenced_keys = lw.referenced_keys;
    let scheduled_keys = lw.scheduled_keys;
    let mut diags = lw.diags;

    assert(adapter_views(adapters@).len() == adapters@.len());
    assert(scene_views(scenes@).len() == scenes@.len());
    assert(schedule_views(schedules@).len() == schedules@.len());
    assert(texts(referenced_keys@).len() == referenced_keys@.len());
    lint_adapters(&adapters, &used_adapters, &mut diags);
    lint_addresses(&adapters, &devices, &mut diags);
    lint_exposures(&adapters, &devices, &device_index, &mut diags);
    lint_scenes(&scenes, &used_scenes, &mut diags);
    lint_schedules(&schedules, &referenced_schedules, &mut diags);
    lint_timers(&referenced_keys, &scheduled_keys, &mut diags);
    lint_empty(raw.devices.len(), &mut diags);
    let system = system_config(&raw.system, &mut diags);
    assert(findings(diags@) == resolved(raw).diags);

    if any_error(&diags) {
        return Err(CompileErrors(diags));
    }
    Ok(
        CompiledConfig {
            system,
            adapters,
            devices,
            scenes,
            schedules,
            rules,
            warnings: diags,
            adapter_index,
            device_index,
            scene_index,
            schedule_index,
            clock_device,
        },
    )
}

/// What a map holds under a name.
pub open spec fn looked_up<V>(m: Map<Seq<char>, V>, name: Seq<char>) -> Option<V> {
    if m.contains_key(name) {
        Some(m[name])
    } else {
        None
    }
}

impl CompiledConfig {
    /// What the public fields show of the view.
    pub(crate) proof fn view_is_public(&self)
        ensures
            self@.system == self.system@,
            self@.adapters == adapter_views(self.adapters@),
            self@.devices == device_views(self.devices@),
            self@.scenes == scene_views(self.scenes@),
            self@.schedules == schedule_views(self.schedules@),
            self@.rules == rule_views(self.rules@),
            self@.diags == findings(self.warnings@),
    {
    }

    pub fn device_id(&self, name: &str) -> (r: Option<DeviceId>)
        ensures
            r == looked_up(self@.device_ids, name@),
    {
        match self.device_index.get(&name.to_owned()) {
            Some(id) => Some(*id),
            None => None,
        }
    }

    pub fn adapter_idx(&self, name: &str) -> (r: Option<AdapterIdx>)
        ensures
            r == looked_up(self@.adapter_ids, name@),
    {
        match self.adapter_index.get(&name.to_owned()) {
            Some(idx) => Some(*idx),
            None => None,
        }
    }

    pub fn scene_id(&self, name: &str) -> (r: Option<SceneId>)
        ensures
            r == looked_up(self@.scene_ids, name@),
    {
        match self.scene_index.get(&name.to_owned()) {
            Some(id) => Some(*id),
            None => None,
        }
    }

    pub fn schedule_id(&self, name: &str) -> (r: Option<ScheduleId>)
        ensures
            r == looked_up(self@.schedule_ids, name@),
    {
        match self.schedule_index.get(&name.to_owned()) {
            Some(id) => Some(*id),
            None => None,
        }
    }

    pub fn device(&self, id: DeviceId) -> (r: Option<&DeviceDef>)
        ensures
            match r {
                Some(d) => id.0 < self@.devices.len() && d@ == self@.devices[id.0 as int],
                None => id.0 >= self@.devices.len(),
            },
    {
        let i: usize = id.0 as usize;
        if i < self.devices.len() {
            Some(&self.devices[i])
        } else {
            None
        }
    }

    /// The interned `ActionId` for a device's declared event, by local name.
    pub fn action_id(&self, device: DeviceId, event: &str) -> (r: Option<ActionId>)
        ensures
            r == if device.0 < self@.devices.len() {
                event_named(self@.devices[device.0 as int].events, event@)
            } else {
                None
            },
    {
        match self.device(device) {
            Some(d) => find_event(&d.events, &event.to_owned()),
            None => None,
        }
    }

    /// The synthetic device behind `sun_up` and `time_*` conditions.
    pub fn clock_device(&self) -> (r: DeviceId)
        ensures
            r == self@.clock,
    {
        self.clock_device
    }
}

} // verus!
