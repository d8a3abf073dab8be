//! The HTTP API over the running engine: what it knows, how it names things, and how
//! a request becomes an event.
//!
//! The API never touches the engine itself. It reads a [`Mirror`] that the engine
//! keeps fresh, and its requests enter the engine as ordinary inbound events.

use vstd::prelude::*;

use crate::compile::diagnostic::opt_text;
use crate::compile::resolve::{
    rule_views, CompiledConfig, DeviceDef, DeviceEvent, DeviceEventV, DeviceV, Resolution, SceneV,
    ScheduleV,
};
use crate::ids::{ActionId, DeviceId, RuleId, SceneId, ScheduleId};
use crate::model::{
    clone_commands, command_views, copy_capabilities, CapabilityKind, CapabilityState, Command,
    Desired, DesiredV, Event, EventV, Millis,
};
use crate::rule::{Rule, RuleV, Truth};
use crate::state::{known_state, reported, Known, StateKey};
use crate::table::Table;
use crate::text::{cat2, decimal, decimal_text, same};

use stream::{
    action_frame, action_frame_of, command_failed_frame, command_failed_frame_of, rule_frame,
    rule_frame_of, state_frame, state_frame_of, Frame, FrameV,
};

pub mod describe;
pub mod http;
pub mod json;
pub mod routes;
pub mod stream;

verus! {

/// What `GET /rules` reports for one rule. `last_considered_ms` is the last time the
/// rule's trigger matched an event.
#[derive(Clone, Copy, Debug, PartialEq, Eq, Structural)]
pub struct RuleStatus {
    pub last_considered_ms: Option<Millis>,
    pub last_truth: Option<Truth>,
    pub last_fired_ms: Option<Millis>,
    pub fire_count: u64,
}

/// A rule that was never considered.
pub open spec fn fresh_status() -> RuleStatus {
    RuleStatus { last_considered_ms: None, last_truth: None, last_fired_ms: None, fire_count: 0 }
}

impl Default for RuleStatus {
    fn default() -> (r: Self)
        ensures
            r == fresh_status(),
    {
        RuleStatus {
            last_considered_ms: None,
            last_truth: None,
            last_fired_ms: None,
            fire_count: 0,
        }
    }
}

/// A projection of the engine for the API to read. Never a source of truth.
pub struct Mirror {
    states: Table<StateKey, CapabilityState>,
    rules: Table<RuleId, RuleStatus>,
    /// The engine's virtual `now`, recorded on each tick.
    now: Millis,
}

/// [`Mirror`] as a mathematical value.
pub struct MirrorV {
    pub known: Known,
    pub rules: Map<RuleId, RuleStatus>,
    pub now: Millis,
}

impl View for Mirror {
    type V = MirrorV;

    closed spec fn view(&self) -> MirrorV {
        MirrorV { known: self.states@, rules: self.rules@, now: self.now }
    }
}

/// The recorded status of a rule.
pub open spec fn status_of(rules: Map<RuleId, RuleStatus>, rule: RuleId) -> RuleStatus {
    if rules.contains_key(rule) {
        rules[rule]
    } else {
        fresh_status()
    }
}

/// A rule's status once it was considered at a time.
pub open spec fn considered_at(s: RuleStatus, now: Millis, truth: Truth, fired: bool) -> RuleStatus {
    RuleStatus {
        last_considered_ms: Some(now),
        last_truth: Some(truth),
        last_fired_ms: if fired {
            Some(now)
        } else {
            s.last_fired_ms
        },
        fire_count: if fired && s.fire_count < u64::MAX {
            (s.fire_count + 1) as u64
        } else {
            s.fire_count
        },
    }
}

impl Default for Mirror {
    fn default() -> (r: Self)
        ensures
            r@.known == Known::empty(),
            r@.rules == Map::<RuleId, RuleStatus>::empty(),
            r@.now == 0,
    {
        Mirror { states: Table::new(), rules: Table::new(), now: 0 }
    }
}

impl Mirror {
    /// The engine folded a state.
    pub fn state_folded(&mut self, device: DeviceId, state: &CapabilityState)
        ensures
            final(self)@ == (MirrorV {
                known: reported(old(self)@.known, device, *state),
                ..old(self)@
            }),
    {
        let kind = state.kind();
        self.states.insert(StateKey(device, kind), *state);
    }

    /// The engine considered a rule. It is stamped with the `now` of the last tick,
    /// which is the one under which rules are considered.
    pub fn rule_considered(&mut self, rule: RuleId, truth: Truth, fired: bool)
        ensures
            final(self)@ == (MirrorV {
                rules: old(self)@.rules.insert(
                    rule,
                    considered_at(
                        status_of(old(self)@.rules, rule),
                        old(self)@.now,
                        truth,
                        fired,
                    ),
                ),
                ..old(self)@
            }),
    {
        let mut entry = self.rule_status(rule);
        let now = self.now;
        entry.last_considered_ms = Some(now);
        entry.last_truth = Some(truth);
        if fired {
            entry.last_fired_ms = Some(now);
            entry.fire_count = entry.fire_count.saturating_add(1);
        }
        self.rules.insert(rule, entry);
    }

    /// The engine ticked.
    pub fn ticked(&mut self, now: Millis)
        ensures
            final(self)@ == (MirrorV { now, ..old(self)@ }),
    {
        self.now = now;
    }

    /// The mirrored value of one capability, or `None` if it was never folded.
    pub fn state(&self, device: DeviceId, kind: CapabilityKind) -> (r: Option<CapabilityState>)
        ensures
            r == known_state(self@.known, device, kind),
    {
        match self.states.get(&StateKey(device, kind)) {
            Some(s) => Some(*s),
            None => None,
        }
    }

    /// The recorded status of one rule.
    pub fn rule_status(&self, rule: RuleId) -> (r: RuleStatus)
        ensures
            r == status_of(self@.rules, rule),
    {
        match self.rules.get(&rule) {
            Some(s) => *s,
            None => RuleStatus::default(),
        }
    }

    /// The engine's virtual time as of its most recent tick: ms since boot, not a
    /// Unix timestamp.
    pub fn engine_now(&self) -> (r: Millis)
        ensures
            r == self@.now,
    {
        self.now
    }

    /// Everything a device declared, with its mirrored value.
    pub fn capabilities(&self, capabilities: &Vec<CapabilityKind>, device: DeviceId) -> (r:
        crate::json::Json)
        ensures
            r@ == json::capabilities_value(self@.known, device, capabilities@),
    {
        json::capabilities_object(capabilities, device, &self.states)
    }
}

/// A consumer request on its way into the engine.
#[derive(Debug, PartialEq)]
pub enum Inbound {
    Device { device: DeviceId, desired: Desired },
    Scene { scene: SceneId },
    /// Fire one of a device's declared events, indistinguishable from the physical
    /// button press that normally produces it.
    Action { device: DeviceId, action: ActionId },
}

/// [`Inbound`] with its text as characters.
pub enum InboundV {
    Device { device: DeviceId, desired: DesiredV },
    Scene { scene: SceneId },
    Action { device: DeviceId, action: ActionId },
}

impl View for Inbound {
    type V = InboundV;

    open spec fn view(&self) -> InboundV {
        match *self {
            Inbound::Device { device, desired } => InboundV::Device { device, desired: desired@ },
            Inbound::Scene { scene } => InboundV::Scene { scene },
            Inbound::Action { device, action } => InboundV::Action { device, action },
        }
    }
}

/// The event that a request becomes.
pub open spec fn inbound_event(i: InboundV) -> EventV {
    match i {
        InboundV::Device { device, desired } => EventV::RequestedChange { device, desired },
        InboundV::Scene { scene } => EventV::RequestedScene { scene },
        InboundV::Action { device, action } => EventV::Action { device, action },
    }
}

impl Inbound {
    /// The event that this request becomes. It enters the queue like any
    /// adapter-produced event, so that cascade limits, timers and retries all apply.
    pub fn into_event(self) -> (r: Event)
        ensures
            r@ == inbound_event(self@),
    {
        match self {
            Inbound::Device { device, desired } => Event::RequestedChange { device, desired },
            Inbound::Scene { scene } => Event::RequestedScene { scene },
            Inbound::Action { device, action } => Event::Action { device, action },
        }
    }
}

/// The wire spelling of a truth.
pub open spec fn truth_text(t: Truth) -> Seq<char> {
    match t {
        Truth::True => "true"@,
        Truth::False => "false"@,
        Truth::Unknown => "unknown"@,
    }
}

pub fn truth_name(truth: Truth) -> (r: &'static str)
    ensures
        r@ == truth_text(truth),
{
    match truth {
        Truth::True => "true",
        Truth::False => "false",
        Truth::Unknown => "unknown",
    }
}

// ------------------------------------------------------------ the directory

/// One device as the API presents it.
#[derive(Debug)]
pub struct DeviceEntry {
    pub id: DeviceId,
    pub name: String,
    pub room: Option<String>,
    pub capabilities: Vec<CapabilityKind>,
    /// Declared stateless events: the local name and the interned identity. The raw
    /// protocol string is not carried: it must not leak onto the wire.
    pub events: Vec<(String, ActionId)>,
    /// True for the synthetic clock device.
    pub synthetic: bool,
}

/// [`DeviceEntry`] with its text as characters.
pub struct EntryV {
    pub id: DeviceId,
    pub name: Seq<char>,
    pub room: Option<Seq<char>>,
    pub capabilities: Seq<CapabilityKind>,
    pub events: Seq<(Seq<char>, ActionId)>,
    pub synthetic: bool,
}

pub open spec fn event_names(s: Seq<(String, ActionId)>) -> Seq<(Seq<char>, ActionId)> {
    s.map_values(|e: (String, ActionId)| (e.0@, e.1))
}

impl View for DeviceEntry {
    type V = EntryV;

    open spec fn view(&self) -> EntryV {
        EntryV {
            id: self.id,
            name: self.name@,
            room: opt_text(self.room),
            capabilities: self.capabilities@,
            events: event_names(self.events@),
            synthetic: self.synthetic,
        }
    }
}

/// The first event with a name.
pub open spec fn action_named(events: Seq<(Seq<char>, ActionId)>, name: Seq<char>) -> Option<
    ActionId,
>
    decreases events.len(),
{
    if events.len() == 0 {
        None
    } else if events[0].0 == name {
        Some(events[0].1)
    } else {
        action_named(events.drop_first(), name)
    }
}

/// The name of the first event with an identity.
pub open spec fn name_of_action(events: Seq<(Seq<char>, ActionId)>, id: ActionId) -> Option<
    Seq<char>,
>
    decreases events.len(),
{
    if events.len() == 0 {
        None
    } else if events[0].1 == id {
        Some(events[0].0)
    } else {
        name_of_action(events.drop_first(), id)
    }
}

impl DeviceEntry {
    /// The interned identity of a declared event, by local name.
    pub fn action(&self, name: &str) -> (r: Option<ActionId>)
        ensures
            r == action_named(self@.events, name@),
    {
        let ghost all = event_names(self.events@);
        let mut i: usize = 0;
        assert(all.skip(0) =~= all);
        while i < self.events.len()
            invariant
                i <= self.events@.len(),
                all == event_names(self.events@),
                action_named(all, name@) == action_named(all.skip(i as int), name@),
            decreases self.events@.len() - i,
        {
            assert(all.skip(i as int)[0] == (self.events@[i as int].0@, self.events@[i as int].1));
            if same(self.events[i].0.as_str(), name) {
                return Some(self.events[i].1);
            }
            assert(all.skip(i as int).drop_first() =~= all.skip(i + 1));
            i += 1;
        }
        None
    }

    /// The local name of a declared event.
    fn event_name(&self, id: ActionId) -> (r: Option<&String>)
        ensures
            match r {
                Some(s) => name_of_action(self@.events, id) == Some(s@),
                None => name_of_action(self@.events, id) is None,
            },
    {
        let ghost all = event_names(self.events@);
        let mut i: usize = 0;
        assert(all.skip(0) =~= all);
        while i < self.events.len()
            invariant
                i <= self.events@.len(),
                all == event_names(self.events@),
                name_of_action(all, id) == name_of_action(all.skip(i as int), id),
            decreases self.events@.len() - i,
        {
            assert(all.skip(i as int)[0] == (self.events@[i as int].0@, self.events@[i as int].1));
            if self.events[i].1 == id {
                return Some(&self.events[i].0);
            }
            assert(all.skip(i as int).drop_first() =~= all.skip(i + 1));
            i += 1;
        }
        None
    }
}

/// One scene as the API presents it.
#[derive(Debug)]
pub struct SceneEntry {
    pub id: SceneId,
    pub name: String,
    pub commands: Vec<Command>,
}

impl View for SceneEntry {
    type V = SceneV;

    open spec fn view(&self) -> SceneV {
        SceneV { id: self.id, name: self.name@, commands: command_views(self.commands@) }
    }
}

/// The name and id translation table, built once at startup.
pub struct Directory {
    pub system_name: Option<String>,
    pub timezone: String,
    pub devices: Vec<DeviceEntry>,
    pub scenes: Vec<SceneEntry>,
    pub rules: Vec<Rule>,
    pub schedules: Vec<(ScheduleId, String)>,
}

/// [`Directory`] with its text as characters.
pub struct DirectoryV {
    pub system_name: Option<Seq<char>>,
    pub timezone: Seq<char>,
    pub devices: Seq<EntryV>,
    pub scenes: Seq<SceneV>,
    pub rules: Seq<RuleV>,
    pub schedules: Seq<(ScheduleId, Seq<char>)>,
}

pub open spec fn entry_views(s: Seq<DeviceEntry>) -> Seq<EntryV> {
    s.map_values(|d: DeviceEntry| d@)
}

pub open spec fn scene_entry_views(s: Seq<SceneEntry>) -> Seq<SceneV> {
    s.map_values(|d: SceneEntry| d@)
}

pub open spec fn schedule_names(s: Seq<(ScheduleId, String)>) -> Seq<(ScheduleId, Seq<char>)> {
    s.map_values(|d: (ScheduleId, String)| (d.0, d.1@))
}

impl View for Directory {
    type V = DirectoryV;

    open spec fn view(&self) -> DirectoryV {
        DirectoryV {
            system_name: opt_text(self.system_name),
            timezone: self.timezone@,
            devices: entry_views(self.devices@),
            scenes: scene_entry_views(self.scenes@),
            rules: rule_views(self.rules@),
            schedules: schedule_names(self.schedules@),
        }
    }
}

// --- lookups, as mathematics

/// The id of the last device with a name. A name given twice stands for the later.
pub open spec fn device_id_named(devices: Seq<EntryV>, name: Seq<char>) -> Option<DeviceId>
    decreases devices.len(),
{
    if devices.len() == 0 {
        None
    } else if devices.last().name == name {
        Some(devices.last().id)
    } else {
        device_id_named(devices.drop_last(), name)
    }
}

/// The first device with an id.
pub open spec fn device_with(devices: Seq<EntryV>, id: DeviceId) -> Option<EntryV>
    decreases devices.len(),
{
    if devices.len() == 0 {
        None
    } else if devices[0].id == id {
        Some(devices[0])
    } else {
        device_with(devices.drop_first(), id)
    }
}

/// The device of a name.
pub open spec fn device_of(dir: DirectoryV, name: Seq<char>) -> Option<EntryV> {
    match device_id_named(dir.devices, name) {
        Some(id) => device_with(dir.devices, id),
        None => None,
    }
}

/// The id of the last scene with a name.
pub open spec fn scene_id_named(scenes: Seq<SceneV>, name: Seq<char>) -> Option<SceneId>
    decreases scenes.len(),
{
    if scenes.len() == 0 {
        None
    } else if scenes.last().name == name {
        Some(scenes.last().id)
    } else {
        scene_id_named(scenes.drop_last(), name)
    }
}

/// The first scene with an id.
pub open spec fn scene_with(scenes: Seq<SceneV>, id: SceneId) -> Option<SceneV>
    decreases scenes.len(),
{
    if scenes.len() == 0 {
        None
    } else if scenes[0].id == id {
        Some(scenes[0])
    } else {
        scene_with(scenes.drop_first(), id)
    }
}

/// The scene of a name.
pub open spec fn scene_of(dir: DirectoryV, name: Seq<char>) -> Option<SceneV> {
    match scene_id_named(dir.scenes, name) {
        Some(id) => scene_with(dir.scenes, id),
        None => None,
    }
}

/// The id of the last rule with a name.
pub open spec fn rule_id_named(rules: Seq<RuleV>, name: Seq<char>) -> Option<RuleId>
    decreases rules.len(),
{
    if rules.len() == 0 {
        None
    } else if rules.last().name == name {
        Some(rules.last().id)
    } else {
        rule_id_named(rules.drop_last(), name)
    }
}

/// The first rule with an id.
pub open spec fn rule_with(rules: Seq<RuleV>, id: RuleId) -> Option<RuleV>
    decreases rules.len(),
{
    if rules.len() == 0 {
        None
    } else if rules[0].id == id {
        Some(rules[0])
    } else {
        rule_with(rules.drop_first(), id)
    }
}

/// The rule of a name.
pub open spec fn rule_of(dir: DirectoryV, name: Seq<char>) -> Option<RuleV> {
    match rule_id_named(dir.rules, name) {
        Some(id) => rule_with(dir.rules, id),
        None => None,
    }
}

/// The name of the first schedule with an id.
pub open spec fn schedule_with(schedules: Seq<(ScheduleId, Seq<char>)>, id: ScheduleId) -> Option<
    Seq<char>,
>
    decreases schedules.len(),
{
    if schedules.len() == 0 {
        None
    } else if schedules[0].0 == id {
        Some(schedules[0].1)
    } else {
        schedule_with(schedules.drop_first(), id)
    }
}

/// How a device is shown: by its name, or by its number if it has none.
pub open spec fn shown_device(dir: DirectoryV, id: DeviceId) -> Seq<char> {
    match device_with(dir.devices, id) {
        Some(d) => d.name,
        None => "device#"@ + decimal(id.0 as nat),
    }
}

pub open spec fn shown_scene(dir: DirectoryV, id: SceneId) -> Seq<char> {
    match scene_with(dir.scenes, id) {
        Some(s) => s.name,
        None => "scene#"@ + decimal(id.0 as nat),
    }
}

pub open spec fn shown_rule(dir: DirectoryV, id: RuleId) -> Seq<char> {
    match rule_with(dir.rules, id) {
        Some(r) => r.name,
        None => "rule#"@ + decimal(id.0 as nat),
    }
}

pub open spec fn shown_schedule(dir: DirectoryV, id: ScheduleId) -> Seq<char> {
    match schedule_with(dir.schedules, id) {
        Some(name) => name,
        None => "schedule#"@ + decimal(id.0 as nat),
    }
}

/// How a device's event is shown.
pub open spec fn shown_action(dir: DirectoryV, device: DeviceId, action: ActionId) -> Seq<char> {
    let known = match device_with(dir.devices, device) {
        Some(d) => name_of_action(d.events, action),
        None => None,
    };
    match known {
        Some(name) => name,
        None => "action#"@ + decimal(action.0 as nat),
    }
}

// --- lookups

fn numbered(prefix: &str, n: u32) -> (r: String)
    ensures
        r@ == prefix@ + decimal(n as nat),
{
    let digits = decimal_text(n as u64);
    cat2(prefix, digits.as_str())
}

impl Directory {
    fn find_device(&self, id: DeviceId) -> (r: Option<&DeviceEntry>)
        ensures
            match r {
                Some(d) => device_with(self@.devices, id) == Some(d@),
                None => device_with(self@.devices, id) is None,
            },
    {
        let ghost all = entry_views(self.devices@);
        let mut i: usize = 0;
        assert(all.skip(0) =~= all);
        while i < self.devices.len()
            invariant
                i <= self.devices@.len(),
                all == entry_views(self.devices@),
                device_with(all, id) == device_with(all.skip(i as int), id),
            decreases self.devices@.len() - i,
        {
            assert(all.skip(i as int)[0] == self.devices@[i as int]@);
            if self.devices[i].id == id {
                return Some(&self.devices[i]);
            }
            assert(all.skip(i as int).drop_first() =~= all.skip(i + 1));
            i += 1;
        }
        None
    }

    fn find_scene(&self, id: SceneId) -> (r: Option<&SceneEntry>)
        ensures
            match r {
                Some(d) => scene_with(self@.scenes, id) == Some(d@),
                None => scene_with(self@.scenes, id) is None,
            },
    {
        let ghost all = scene_entry_views(self.scenes@);
        let mut i: usize = 0;
        assert(all.skip(0) =~= all);
        while i < self.scenes.len()
            invariant
                i <= self.scenes@.len(),
                all == scene_entry_views(self.scenes@),
                scene_with(all, id) == scene_with(all.skip(i as int), id),
            decreases self.scenes@.len() - i,
        {
            assert(all.skip(i as int)[0] == self.scenes@[i as int]@);
            if self.scenes[i].id == id {
                return Some(&self.scenes[i]);
            }
            assert(all.skip(i as int).drop_first() =~= all.skip(i + 1));
            i += 1;
        }
        None
    }

    fn find_rule(&self, id: RuleId) -> (r: Option<&Rule>)
        ensures
            match r {
                Some(d) => rule_with(self@.rules, id) == Some(d@),
                None => rule_with(self@.rules, id) is None,
            },
    {
        let ghost all = rule_views(self.rules@);
        let mut i: usize = 0;
        assert(all.skip(0) =~= all);
        while i < self.rules.len()
            invariant
                i <= self.rules@.len(),
                all == rule_views(self.rules@),
                rule_with(all, id) == rule_with(all.skip(i as int), id),
            decreases self.rules@.len() - i,
        {
            assert(all.skip(i as int)[0] == self.rules@[i as int]@);
            if self.rules[i].id == id {
                return Some(&self.rules[i]);
            }
            assert(all.skip(i as int).drop_first() =~= all.skip(i + 1));
            i += 1;
        }
        None
    }

    pub fn device(&self, name: &str) -> (r: Option<&DeviceEntry>)
        ensures
            match r {
                Some(d) => device_of(self@, name@) == Some(d@),
                None => device_of(self@, name@) is None,
            },
    {
        let ghost all = entry_views(self.devices@);
        let mut n: usize = self.devices.len();
        assert(all.take(n as int) =~= all);
        while n > 0
            invariant
                n <= self.devices@.len(),
                all == entry_views(self.devices@),
                device_id_named(all, name@) == device_id_named(all.take(n as int), name@),
            decreases n,
        {
            assert(all.take(n as int).last() == self.devices@[n - 1]@);
            assert(all.take(n as int).drop_last() =~= all.take(n - 1));
            n -= 1;
            if same(self.devices[n].name.as_str(), name) {
                return self.find_device(self.devices[n].id);
            }
        }
        None
    }

    pub fn scene(&self, name: &str) -> (r: Option<&SceneEntry>)
        ensures
            match r {
                Some(d) => scene_of(self@, name@) == Some(d@),
                None => scene_of(self@, name@) is None,
            },
    {
        let ghost all = scene_entry_views(self.scenes@);
        let mut n: usize = self.scenes.len();
        assert(all.take(n as int) =~= all);
        while n > 0
            invariant
                n <= self.scenes@.len(),
                all == scene_entry_views(self.scenes@),
                scene_id_named(all, name@) == scene_id_named(all.take(n as int), name@),
            decreases n,
        {
            assert(all.take(n as int).last() == self.scenes@[n - 1]@);
            assert(all.take(n as int).drop_last() =~= all.take(n - 1));
            n -= 1;
            if same(self.scenes[n].name.as_str(), name) {
                return self.find_scene(self.scenes[n].id);
            }
        }
        None
    }

    pub fn rule(&self, name: &str) -> (r: Option<&Rule>)
        ensures
            match r {
                Some(d) => rule_of(self@, name@) == Some(d@),
                None => rule_of(self@, name@) is None,
            },
    {
        let ghost all = rule_views(self.rules@);
        let mut n: usize = self.rules.len();
        assert(all.take(n as int) =~= all);
        while n > 0
            invariant
                n <= self.rules@.len(),
                all == rule_views(self.rules@),
                rule_id_named(all, name@) == rule_id_named(all.take(n as int), name@),
            decreases n,
        {
            assert(all.take(n as int).last() == self.rules@[n - 1]@);
            assert(all.take(n as int).drop_last() =~= all.take(n - 1));
            n -= 1;
            if same(self.rules[n].name.as_str(), name) {
                return self.find_rule(self.rules[n].id);
            }
        }
        None
    }

    /// The config name of a device, for rendering an id back onto the wire. Falls
    /// back to `device#N` rather than failing.
    pub fn device_name(&self, id: DeviceId) -> (r: String)
        ensures
            r@ == shown_device(self@, id),
    {
        match self.find_device(id) {
            Some(d) => d.name.clone(),
            None => numbered("device#", id.0),
        }
    }

    pub fn scene_name(&self, id: SceneId) -> (r: String)
        ensures
            r@ == shown_scene(self@, id),
    {
        match self.find_scene(id) {
            Some(s) => s.name.clone(),
            None => numbered("scene#", id.0),
        }
    }

    pub fn rule_name(&self, id: RuleId) -> (r: String)
        ensures
            r@ == shown_rule(self@, id),
    {
        match self.find_rule(id) {
            Some(s) => s.name.clone(),
            None => numbered("rule#", id.0),
        }
    }

    pub fn schedule_name(&self, id: ScheduleId) -> (r: String)
        ensures
            r@ == shown_schedule(self@, id),
    {
        let ghost all = schedule_names(self.schedules@);
        let mut i: usize = 0;
        assert(all.skip(0) =~= all);
        while i < self.schedules.len()
            invariant
                i <= self.schedules@.len(),
                all == schedule_names(self.schedules@),
                schedule_with(all, id) == schedule_with(all.skip(i as int), id),
            decreases self.schedules@.len() - i,
        {
            assert(all.skip(i as int)[0] == (
                self.schedules@[i as int].0,
                self.schedules@[i as int].1@,
            ));
            if self.schedules[i].0 == id {
                return self.schedules[i].1.clone();
            }
            assert(all.skip(i as int).drop_first() =~= all.skip(i + 1));
            i += 1;
        }
        numbered("schedule#", id.0)
    }

    /// The local name of a device's declared event.
    pub fn action_name(&self, device: DeviceId, action: ActionId) -> (r: String)
        ensures
            r@ == shown_action(self@, device, action),
    {
        if let Some(d) = self.find_device(device) {
            if let Some(name) = d.event_name(action) {
                return name.clone();
            }
        }
        numbered("action#", action.0)
    }
}

// --- from a configuration

/// The name the synthetic clock device is exposed under.
pub const CLOCK_DEVICE_NAME: &'static str = "clock";

/// A device's declared events, without their raw strings.
pub open spec fn public_events(events: Seq<DeviceEventV>) -> Seq<(Seq<char>, ActionId)> {
    events.map_values(|e: DeviceEventV| (e.name, e.id))
}

/// A configured device as the API presents it.
pub open spec fn entry_of(d: DeviceV) -> EntryV {
    EntryV {
        id: d.id,
        name: d.name,
        room: d.metadata.room,
        capabilities: d.capabilities,
        events: public_events(d.events),
        synthetic: false,
    }
}

/// The clock as the API presents it: readable, with no adapter behind it.
pub open spec fn clock_entry(id: DeviceId) -> EntryV {
    EntryV {
        id,
        name: "clock"@,
        room: None,
        capabilities: seq![CapabilityKind::TimeOfDay, CapabilityKind::SunUp],
        events: Seq::empty(),
        synthetic: true,
    }
}

/// The directory of a configuration: its devices and the clock, its scenes, rules
/// and schedules, in their order.
pub open spec fn directory_of(cfg: Resolution) -> DirectoryV {
    DirectoryV {
        system_name: cfg.system.name,
        timezone: cfg.system.timezone,
        devices: cfg.devices.map_values(|d: DeviceV| entry_of(d)).push(clock_entry(cfg.clock)),
        scenes: cfg.scenes,
        rules: cfg.rules,
        schedules: cfg.schedules.map_values(|s: ScheduleV| (s.id, s.name)),
    }
}

fn public_event_list(events: &Vec<DeviceEvent>) -> (r: Vec<(String, ActionId)>)
    ensures
        event_names(r@) == public_events(crate::compile::resolve::device_events(events@)),
{
    let mut out: Vec<(String, ActionId)> = Vec::new();
    let mut i: usize = 0;
    while i < events.len()
        invariant
            i <= events@.len(),
            out@.len() == i,
            forall|j: int|
                0 <= j < i ==> (#[trigger] out@[j]).0@ == events@[j].name@ && out@[j].1
                    == events@[j].id,
        decreases events@.len() - i,
    {
        out.push((events[i].name.clone(), events[i].id));
        i += 1;
    }
    assert(event_names(out@) =~= public_events(crate::compile::resolve::device_events(events@)));
    out
}

fn entry_from(d: &DeviceDef) -> (r: DeviceEntry)
    ensures
        r@ == entry_of(d@),
{
    DeviceEntry {
        id: d.id,
        name: d.name.clone(),
        room: match &d.metadata.room {
            Some(room) => Some(room.clone()),
            None => None,
        },
        capabilities: copy_capabilities(&d.capabilities),
        events: public_event_list(&d.events),
        synthetic: false,
    }
}

impl Directory {
    pub fn from_config(cfg: &CompiledConfig) -> (r: Self)
        ensures
            r@ == directory_of(cfg@),
    {
        let mut devices: Vec<DeviceEntry> = Vec::new();
        let mut i: usize = 0;
        while i < cfg.devices.len()
            invariant
                i <= cfg.devices@.len(),
                devices@.len() == i,
                forall|j: int| 0 <= j < i ==> (#[trigger] devices@[j])@ == entry_of(cfg.devices@[j]@),
            decreases cfg.devices@.len() - i,
        {
            devices.push(entry_from(&cfg.devices[i]));
            i += 1;
        }
        let mut clock_caps: Vec<CapabilityKind> = Vec::new();
        clock_caps.push(CapabilityKind::TimeOfDay);
        clock_caps.push(CapabilityKind::SunUp);
        let clock = DeviceEntry {
            id: cfg.clock_device(),
            name: "clock".to_owned(),
            room: None,
            capabilities: clock_caps,
            events: Vec::new(),
            synthetic: true,
        };
        assert(clock@.capabilities =~= clock_entry(cfg@.clock).capabilities);
        assert(clock@.events =~= clock_entry(cfg@.clock).events);
        assert(clock@ == clock_entry(cfg@.clock));
        devices.push(clock);
        let mut scenes: Vec<SceneEntry> = Vec::new();
        let mut k: usize = 0;
        while k < cfg.scenes.len()
            invariant
                k <= cfg.scenes@.len(),
                scenes@.len() == k,
                forall|j: int| 0 <= j < k ==> (#[trigger] scenes@[j])@ == cfg.scenes@[j]@,
            decreases cfg.scenes@.len() - k,
        {
            let s = &cfg.scenes[k];
            scenes.push(
                SceneEntry {
                    id: s.id,
                    name: s.name.clone(),
                    commands: clone_commands(&s.commands),
                },
            );
            k += 1;
        }
        let mut rules: Vec<Rule> = Vec::new();
        let mut m: usize = 0;
        while m < cfg.rules.len()
            invariant
                m <= cfg.rules@.len(),
                rules@.len() == m,
                forall|j: int| 0 <= j < m ==> (#[trigger] rules@[j])@ == cfg.rules@[j]@,
            decreases cfg.rules@.len() - m,
        {
            rules.push(cfg.rules[m].clone());
            m += 1;
        }
        let mut schedules: Vec<(ScheduleId, String)> = Vec::new();
        let mut n: usize = 0;
        while n < cfg.schedules.len()
            invariant
                n <= cfg.schedules@.len(),
                schedules@.len() == n,
                forall|j: int|
                    0 <= j < n ==> (#[trigger] schedules@[j]).0 == cfg.schedules@[j].id
                        && schedules@[j].1@ == cfg.schedules@[j].name@,
            decreases cfg.schedules@.len() - n,
        {
            schedules.push((cfg.schedules[n].id, cfg.schedules[n].name.clone()));
            n += 1;
        }
        let r = Directory {
            system_name: match &cfg.system.name {
                Some(s) => Some(s.clone()),
                None => None,
            },
            timezone: cfg.system.timezone.clone(),
            devices,
            scenes,
            rules,
            schedules,
        };
        proof {
            cfg.view_is_public();
            assert(r@.devices =~= directory_of(cfg@).devices);
            assert(r@.scenes =~= directory_of(cfg@).scenes);
            assert(r@.rules =~= directory_of(cfg@).rules);
            assert(r@.schedules =~= directory_of(cfg@).schedules);
        }
        r
    }
}

// ------------------------------------------------------------ the stream's sources

/// What a folded state says on the stream.
pub open spec fn folded(dir: DirectoryV, device: DeviceId, state: CapabilityState) -> FrameV {
    state_frame_of(
        shown_device(dir, device),
        state.spec_kind().spec_name(),
        json::state_value(state),
    )
}

/// The stream's `state` events.
pub fn folded_frame(directory: &Directory, device: DeviceId, state: &CapabilityState) -> (r: Frame)
    ensures
        r@ == folded(directory@, device, *state),
{
    let name = directory.device_name(device);
    state_frame(name.as_str(), state.kind().name(), json::state_to_json(state))
}

/// The stream's `rule` events.
pub fn considered_frame(directory: &Directory, rule: RuleId, truth: Truth, fired: bool) -> (r:
    Frame)
    ensures
        r@ == rule_frame_of(shown_rule(directory@, rule), truth_text(truth), fired),
{
    let name = directory.rule_name(rule);
    rule_frame(name.as_str(), truth_name(truth), fired)
}

/// The stream's `action` events, filtered out of the full event feed.
pub open spec fn received_event(dir: DirectoryV, event: EventV, depth: u32) -> Option<FrameV> {
    match event {
        EventV::Action { device, action } => Some(
            action_frame_of(
                shown_device(dir, device),
                shown_action(dir, device, action),
                depth,
            ),
        ),
        _ => None,
    }
}

pub fn received_frame(directory: &Directory, event: &Event, depth: u32) -> (r: Option<Frame>)
    ensures
        match r {
            Some(f) => received_event(directory@, event@, depth) == Some(f@),
            None => received_event(directory@, event@, depth) is None,
        },
{
    match event {
        Event::Action { device, action } => {
            let name = directory.device_name(*device);
            let what = directory.action_name(*device, *action);
            Some(action_frame(name.as_str(), what.as_str(), depth))
        },
        _ => None,
    }
}

/// The stream's `command_failed` events: a device that went offline or rejected a
/// command.
pub fn failed_frame(directory: &Directory, command: &Command, reason: &str, attempts: u32) -> (r:
    Frame)
    ensures
        r@ == command_failed_frame_of(
            describe::command_value(directory@, command@),
            reason@,
            attempts,
        ),
{
    command_failed_frame(describe::command(directory, command), reason, attempts)
}

} // verus!
