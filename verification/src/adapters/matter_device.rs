//! The `matter_device` northbound adapter: the home's devices exposed as one native
//! Matter node, a bridge that any controller can commission.
//!
//! The protocol runtime is confined behind [`MatterTransport`], so the mapping
//! between capability states and Matter attributes is pure.
//!
//! ```text
//!   state_folded(dev, state) ─▶ MatterTransport::publish ─▶ node attributes
//!   controller writes attr   ─▶ MatterTransport::poll   ─▶ Event::RequestedChange
//! ```
//!
//! A controller's write becomes a request, so an app tap and a physical wall switch
//! are indistinguishable to the engine.

use vstd::prelude::*;

use super::plugin::{
    bad_config, choose_exposed, expose_choice, expose_findings, report, validate_expose,
    AdapterPlugin, ExposeSpec, ExposeV, Polarity,
};
use crate::compile::ast::RawAdapterConfig;
use crate::compile::diagnostic::{findings, Diagnostic, Finding};
use crate::compile::resolve::{DeviceDef, DeviceV};
use super::mock_northbound::requests;
use super::{noted, Call, Held, NorthboundAdapter, Traffic};
use crate::compile::lower::has_capability;
use crate::ids::DeviceId;
use crate::model::{event_views, CapabilityKind, CapabilityState, Desired, Event, Millis};
use crate::text::{cat3, hex, hex_text};

verus! {

/// The seam between the synchronous engine and the asynchronous Matter node.
pub trait MatterTransport {
    /// What has passed so far, where the transport keeps count: each state published,
    /// and the writes of each poll.
    open spec fn traffic(&self) -> Option<Seq<NodeTraffic>> {
        None
    }

    /// Whether the node runs. The default is one fixed answer that nobody knows.
    open spec fn healthy(&self) -> bool {
        arbitrary()
    }

    /// Reflect a device's current state into the node's attributes. A capability the
    /// node does not model is ignored.
    fn publish(&mut self, device: DeviceId, state: &CapabilityState)
        ensures
            final(self).traffic() == noted(
                old(self).traffic(),
                Traffic::Sent { message: (device, *state), error: None },
            ),
    ;

    /// Every controller-originated attribute write since the last call.
    fn poll(&mut self) -> (r: Vec<(DeviceId, CapabilityState)>)
        ensures
            final(self).traffic() == noted(old(self).traffic(), Traffic::Polled { items: r@ }),
    ;

    /// Whether the underlying node is still running.
    fn is_healthy(&self) -> (r: bool)
        ensures
            r == self.healthy(),
    ;
}

pub type NodeTraffic = Traffic<(DeviceId, CapabilityState), (DeviceId, CapabilityState)>;

/// One device projected as a Matter endpoint: which capabilities it exposes and a
/// human label.
#[derive(Debug)]
pub struct ExposedDevice {
    pub id: DeviceId,
    pub label: String,
    pub capabilities: Vec<CapabilityKind>,
}

/// [`ExposedDevice`] with its text as characters.
pub struct ExposedV {
    pub id: DeviceId,
    pub label: Seq<char>,
    pub capabilities: Seq<CapabilityKind>,
}

impl View for ExposedDevice {
    type V = ExposedV;

    open spec fn view(&self) -> ExposedV {
        ExposedV { id: self.id, label: self.label@, capabilities: self.capabilities@ }
    }
}

pub open spec fn exposed_views(s: Seq<ExposedDevice>) -> Seq<ExposedV> {
    s.map_values(|d: ExposedDevice| d@)
}

/// The Matter *device type* an endpoint advertises: the coarse classification a
/// controller uses to pick an icon.
#[derive(Clone, Copy, Debug, PartialEq, Eq, Structural)]
pub enum MatterDeviceType {
    /// Has color or color temperature.
    ExtendedColorLight,
    /// Has brightness.
    DimmableLight,
    /// On/off only.
    OnOffLight,
    /// An occupancy sensor, read-only to the controller.
    OccupancySensor,
    /// Nothing that is modelled; the endpoint is skipped.
    Unsupported,
}

/// Color makes a color light, else brightness a dimmable one, else a switch an
/// on/off one; occupancy alone is a sensor.
pub open spec fn type_of(caps: Seq<CapabilityKind>) -> MatterDeviceType {
    if caps.contains(CapabilityKind::Color) || caps.contains(CapabilityKind::ColorTemperature) {
        MatterDeviceType::ExtendedColorLight
    } else if caps.contains(CapabilityKind::Brightness) {
        MatterDeviceType::DimmableLight
    } else if caps.contains(CapabilityKind::Switch) {
        MatterDeviceType::OnOffLight
    } else if caps.contains(CapabilityKind::Occupancy) {
        MatterDeviceType::OccupancySensor
    } else {
        MatterDeviceType::Unsupported
    }
}

/// Classify a device's capabilities into the Matter device type it advertises.
pub fn device_type_for(caps: &Vec<CapabilityKind>) -> (r: MatterDeviceType)
    ensures
        r == type_of(caps@),
{
    if has_capability(caps, CapabilityKind::Color) || has_capability(
        caps,
        CapabilityKind::ColorTemperature,
    ) {
        MatterDeviceType::ExtendedColorLight
    } else if has_capability(caps, CapabilityKind::Brightness) {
        MatterDeviceType::DimmableLight
    } else if has_capability(caps, CapabilityKind::Switch) {
        MatterDeviceType::OnOffLight
    } else if has_capability(caps, CapabilityKind::Occupancy) {
        MatterDeviceType::OccupancySensor
    } else {
        MatterDeviceType::Unsupported
    }
}

/// The capabilities that are projected onto Matter attributes. Occupancy and battery
/// are not: without their sensor and power clusters they would advertise the wrong
/// device type.
pub open spec fn is_exposable(kind: CapabilityKind) -> bool {
    kind == CapabilityKind::Switch || kind == CapabilityKind::Brightness || kind
        == CapabilityKind::Color || kind == CapabilityKind::ColorTemperature
}

pub fn capability_is_exposable(kind: CapabilityKind) -> (r: bool)
    ensures
        r == is_exposable(kind),
{
    match kind {
        CapabilityKind::Switch => true,
        CapabilityKind::Brightness => true,
        CapabilityKind::Color => true,
        CapabilityKind::ColorTemperature => true,
        _ => false,
    }
}

/// The exposable capabilities among some.
pub open spec fn exposable(caps: Seq<CapabilityKind>) -> Seq<CapabilityKind> {
    caps.filter(|k: CapabilityKind| is_exposable(k))
}

fn keep_exposable(caps: &Vec<CapabilityKind>) -> (r: Vec<CapabilityKind>)
    ensures
        r@ == exposable(caps@),
{
    let ghost keep = |k: CapabilityKind| is_exposable(k);
    let mut out: Vec<CapabilityKind> = Vec::new();
    let mut i: usize = 0;
    proof {
        reveal(Seq::filter);
        assert(caps@.take(0).filter(keep) =~= Seq::empty());
    }
    while i < caps.len()
        invariant
            i <= caps@.len(),
            keep == (|k: CapabilityKind| is_exposable(k)),
            out@ == caps@.take(i as int).filter(keep),
        decreases caps@.len() - i,
    {
        proof {
            reveal(Seq::filter);
            assert(caps@.take(i + 1).drop_last() =~= caps@.take(i as int));
            assert(caps@.take(i + 1).last() == caps@[i as int]);
        }
        if capability_is_exposable(caps[i]) {
            out.push(caps[i]);
        }
        i += 1;
    }
    assert(caps@.take(i as int) =~= caps@);
    out
}

/// The first `n` devices as endpoints. A device with nothing to project contributes
/// none.
pub open spec fn projected(devices: Seq<DeviceV>, n: nat) -> Seq<ExposedV>
    decreases n,
{
    if n == 0 {
        Seq::empty()
    } else {
        let before = projected(devices, (n - 1) as nat);
        let d = devices[n - 1];
        let caps = exposable(d.capabilities);
        if caps.len() == 0 {
            before
        } else {
            before.push(ExposedV { id: d.id, label: d.name, capabilities: caps })
        }
    }
}

/// Project each exposed device that carries at least one exposable capability.
pub fn project(devices: &Vec<&DeviceDef>) -> (r: Vec<ExposedDevice>)
    ensures
        exposed_views(r@) == projected(devices@.map_values(|d: &DeviceDef| d@), devices@.len()),
{
    let ghost all = devices@.map_values(|d: &DeviceDef| d@);
    let mut out: Vec<ExposedDevice> = Vec::new();
    let mut i: usize = 0;
    assert(exposed_views(out@) =~= Seq::empty());
    while i < devices.len()
        invariant
            i <= devices@.len(),
            all == devices@.map_values(|d: &DeviceDef| d@),
            exposed_views(out@) == projected(all, i as nat),
        decreases devices@.len() - i,
    {
        let d = devices[i];
        assert(all[i as int] == d@);
        let capabilities = keep_exposable(&d.capabilities);
        if capabilities.len() > 0 {
            let ghost was = out@;
            let e = ExposedDevice { id: d.id, label: d.name.clone(), capabilities };
            out.push(e);
            assert(exposed_views(out@) =~= exposed_views(was).push(e@));
        }
        i += 1;
    }
    out
}

// ------------------------------------------------------------ the adapter

fn hold_transport<T: MatterTransport + ?Sized>(inner: Box<T>) -> (r: Held<T>)
    ensures
        r.inner == inner,
        r.inner.traffic() == inner.traffic(),
        r.inner.healthy() == inner.healthy(),
{
    Held { inner }
}

/// Adapter that projects a set of devices as a Matter node.
pub struct MatterDeviceAdapter {
    /// Exposed devices, in the order in which endpoints are numbered.
    exposed: Vec<ExposedDevice>,
    transport: Held<dyn MatterTransport>,
    /// Set once the transport first reports unhealthy.
    degraded: bool,
    /// Every call so far.
    heard: Ghost<Seq<Call>>,
}

impl MatterDeviceAdapter {
    pub closed spec fn devices(&self) -> Seq<ExposedDevice> {
        self.exposed@
    }

    pub closed spec fn is_degraded(&self) -> bool {
        self.degraded
    }

    /// What has passed between the adapter and the node so far.
    pub closed spec fn traffic(&self) -> Option<Seq<NodeTraffic>> {
        self.transport.inner.traffic()
    }

    /// Whether the node runs.
    pub closed spec fn node_runs(&self) -> bool {
        self.transport.inner.healthy()
    }

    pub fn new(exposed: Vec<ExposedDevice>, transport: Box<dyn MatterTransport>) -> (r: Self)
        ensures
            r.devices() == exposed@,
            !r.is_degraded(),
            r.traffic() == transport.traffic(),
            r.node_runs() == transport.healthy(),
            r.heard() == Some(Seq::<Call>::empty()),
    {
        let held = hold_transport(transport);
        MatterDeviceAdapter {
            exposed,
            transport: held,
            degraded: false,
            heard: Ghost(Seq::empty()),
        }
    }

    /// The devices this adapter projects.
    pub fn exposed(&self) -> (r: &Vec<ExposedDevice>)
        ensures
            r@ == self.devices(),
    {
        &self.exposed
    }

    /// Whether the node was found dead. It stays so until a restart.
    pub fn degraded(&self) -> (r: bool)
        ensures
            r == self.is_degraded(),
    {
        self.degraded
    }
}

impl NorthboundAdapter for MatterDeviceAdapter {
    closed spec fn heard(&self) -> Option<Seq<Call>> {
        Some(self.heard@)
    }

    open spec fn wakes(&self, now: Millis) -> Option<Millis> {
        None
    }

    /// Drain controller-originated attribute writes into requests, and note the death
    /// of the node.
    fn tick(&mut self, now: Millis) -> (out: Vec<Event>)
        ensures
            final(self).devices() == old(self).devices(),
            final(self).is_degraded() == (old(self).is_degraded() || !old(self).node_runs()),
            exists|writes: Seq<(DeviceId, CapabilityState)>|
                event_views(out@) == #[trigger] requests(writes) && final(self).traffic() == noted(
                    old(self).traffic(),
                    Traffic::Polled { items: writes },
                ),
    {
        if !self.degraded && !self.transport.inner.is_healthy() {
            self.degraded = true;
        }
        let writes = self.transport.inner.poll();
        let mut out: Vec<Event> = Vec::new();
        let mut i: usize = 0;
        while i < writes.len()
            invariant
                i <= writes@.len(),
                out@.len() == i,
                forall|j: int| 0 <= j < i ==> (#[trigger] out@[j])@ == requests(writes@)[j],
            decreases writes@.len() - i,
        {
            let (device, desired) = writes[i];
            out.push(Event::RequestedChange { device, desired: Desired::State(desired) });
            i += 1;
        }
        assert(event_views(out@) =~= requests(writes@));
        proof {
            self.heard@ = self.heard@.push(Call::Tick { now, events: event_views(out@) });
        }
        out
    }

    fn next_wake(&self, now: Millis) -> (out: Option<Millis>)
        ensures
            out is None,
    {
        None
    }

    /// Every folded state change is mirrored into the node.
    fn state_folded(&mut self, device: DeviceId, state: &CapabilityState)
        ensures
            final(self).devices() == old(self).devices(),
            final(self).is_degraded() == old(self).is_degraded(),
            final(self).traffic() == noted(
                old(self).traffic(),
                Traffic::Sent { message: (device, *state), error: None },
            ),
    {
        self.transport.inner.publish(device, state);
        proof {
            self.heard@ = self.heard@.push(Call::Fold { device, state: *state });
        }
    }
}

/// An in-memory [`MatterTransport`]: it records published state and hands out queued
/// controller writes.
pub struct InMemoryMatter {
    /// Every `(device, state)` mirrored outward, only exposable capabilities.
    pub published: Vec<(DeviceId, CapabilityState)>,
    /// Controller writes, handed out on `poll`.
    pub inbound: Vec<(DeviceId, CapabilityState)>,
    pub healthy: bool,
    /// Every call so far.
    pub passed: Ghost<Seq<NodeTraffic>>,
}

impl InMemoryMatter {
    pub fn new() -> (r: Self)
        ensures
            r.published@.len() == 0,
            r.inbound@.len() == 0,
            r.healthy,
            r.traffic() == Some(Seq::<NodeTraffic>::empty()),
    {
        InMemoryMatter {
            published: Vec::new(),
            inbound: Vec::new(),
            healthy: true,
            passed: Ghost(Seq::empty()),
        }
    }

    /// Queue a controller-originated attribute write, delivered on the next `poll`.
    pub fn queue_inbound(&mut self, device: DeviceId, desired: CapabilityState)
        ensures
            final(self).inbound@ == old(self).inbound@.push((device, desired)),
            final(self).published == old(self).published,
            final(self).healthy == old(self).healthy,
            final(self).traffic() == old(self).traffic(),
    {
        self.inbound.push((device, desired));
    }

    /// Simulate the death of the node.
    pub fn kill(&mut self)
        ensures
            !final(self).healthy,
            final(self).inbound == old(self).inbound,
            final(self).published == old(self).published,
            final(self).traffic() == old(self).traffic(),
    {
        self.healthy = false;
    }
}

impl MatterTransport for InMemoryMatter {
    closed spec fn traffic(&self) -> Option<Seq<NodeTraffic>> {
        Some(self.passed@)
    }

    open spec fn healthy(&self) -> bool {
        self.healthy
    }

    fn publish(&mut self, device: DeviceId, state: &CapabilityState)
        ensures
            final(self).published@ == if is_exposable(state.spec_kind()) {
                old(self).published@.push((device, *state))
            } else {
                old(self).published@
            },
            final(self).inbound == old(self).inbound,
            final(self).healthy == old(self).healthy,
    {
        if capability_is_exposable(state.kind()) {
            self.published.push((device, *state));
        }
        proof {
            self.passed@ = self.passed@.push(
                Traffic::Sent { message: (device, *state), error: None },
            );
        }
    }

    fn poll(&mut self) -> (r: Vec<(DeviceId, CapabilityState)>)
        ensures
            r@ == old(self).inbound@,
            final(self).inbound@.len() == 0,
            final(self).published == old(self).published,
            final(self).healthy == old(self).healthy,
    {
        let mut out: Vec<(DeviceId, CapabilityState)> = Vec::new();
        core::mem::swap(&mut out, &mut self.inbound);
        proof {
            self.passed@ = self.passed@.push(Traffic::Polled { items: out@ });
        }
        out
    }

    fn is_healthy(&self) -> (r: bool)
        ensures
            r == self.healthy,
    {
        self.healthy
    }
}

// ------------------------------------------------------------ where state is kept

pub const FNV_OFFSET: u64 = 0xcbf29ce484222325;

pub const FNV_PRIME: u64 = 0x100000001b3;

/// The FNV-1a hash of some bytes.
pub open spec fn fnv(bytes: Seq<u8>) -> u64
    decreases bytes.len(),
{
    if bytes.len() == 0 {
        FNV_OFFSET
    } else {
        (fnv(bytes.drop_last()) ^ (bytes.last() as u64)).wrapping_mul(FNV_PRIME)
    }
}

/// The name of an adapter's store: the same on every run, and derived from the
/// adapter's name.
pub open spec fn store_name(adapter: Seq<char>) -> Seq<char> {
    "matter."@ + hex(fnv(vstd::utf8::encode_utf8(adapter)) as nat, 16) + ".state"@
}

/// The default name of an adapter's fabric store, under the host's runtime directory.
pub fn default_state_name(adapter_name: &str) -> (r: String)
    ensures
        r@ == store_name(adapter_name@),
{
    let bytes = adapter_name.as_bytes();
    let mut hash: u64 = FNV_OFFSET;
    let mut i: usize = 0;
    assert(bytes@.take(0) =~= Seq::empty());
    while i < bytes.len()
        invariant
            i <= bytes@.len(),
            hash == fnv(bytes@.take(i as int)),
        decreases bytes@.len() - i,
    {
        assert(bytes@.take(i + 1).drop_last() =~= bytes@.take(i as int));
        assert(bytes@.take(i + 1).last() == bytes@[i as int]);
        hash = (hash ^ (bytes[i] as u64)).wrapping_mul(FNV_PRIME);
        i += 1;
    }
    assert(bytes@.take(i as int) =~= bytes@);
    let digits = hex_text(hash, 16);
    cat3("matter.", digits.as_str(), ".state")
}

// ------------------------------------------------------------ the node's cells

/// Brightness percent as a Matter level: 0% is the minimum level 1, 100% is 254.
pub open spec fn node_level(pct: int) -> int {
    1 + (if pct < 100 { pct } else { 100 } * 253 + 50) / 100
}

/// Matter level as brightness percent.
pub open spec fn node_pct(level: int) -> int {
    let l = if level < 1 {
        1
    } else if level > 254 {
        254
    } else {
        level
    };
    ((l - 1) * 100 + 126) / 253
}

pub fn pct_to_matter(pct: u8) -> (r: u8)
    ensures
        r == node_level(pct as int),
        1 <= r <= 254,
{
    let p: u16 = if pct < 100 {
        pct as u16
    } else {
        100
    };
    (1 + (p * 253 + 50) / 100) as u8
}

pub fn matter_to_pct(level: u8) -> (r: u8)
    ensures
        r == node_pct(level as int),
        r <= 100,
{
    let l: u16 = if level < 1 {
        1
    } else if level > 254 {
        254
    } else {
        level as u16
    };
    (((l - 1) * 100 + 126) / 253) as u8
}

/// A percentage survives the way to the node and back.
pub proof fn percentage_survives_node_level(pct: int)
    requires
        0 <= pct <= 100,
    ensures
        node_pct(node_level(pct)) == pct,
{
}

/// A light's state as a controller reads it. The level is never absent at the start:
/// switching a light on reads it.
#[derive(Clone, Copy, Debug, PartialEq, Eq, Structural)]
pub struct LightCells {
    pub on: bool,
    pub level: Option<u8>,
}

impl Default for LightCells {
    fn default() -> (r: Self)
        ensures
            !r.on,
            r.level == Some(254u8),
    {
        LightCells { on: false, level: Some(254) }
    }
}

/// The cells after the engine folded a state. Color flows outward only.
pub open spec fn cells_after(cells: LightCells, state: CapabilityState) -> LightCells {
    match state {
        CapabilityState::Switch(on) => LightCells { on, ..cells },
        CapabilityState::Brightness(pct) => LightCells {
            level: Some(node_level(pct as int) as u8),
            ..cells
        },
        _ => cells,
    }
}

impl LightCells {
    /// Reflect an engine-side state change, so that a later controller read returns
    /// the current truth.
    pub fn apply_engine_state(&mut self, state: &CapabilityState)
        ensures
            *final(self) == cells_after(*old(self), *state),
    {
        match state {
            CapabilityState::Switch(on) => {
                self.on = *on;
            },
            CapabilityState::Brightness(pct) => {
                self.level = Some(pct_to_matter(*pct));
            },
            _ => {},
        }
    }

    /// A controller switched the light: what to ask of the engine.
    pub fn set_on_off(&mut self, on: bool) -> (r: CapabilityState)
        ensures
            *final(self) == (LightCells { on, ..*old(self) }),
            r == CapabilityState::Switch(on),
    {
        self.on = on;
        CapabilityState::Switch(on)
    }

    /// A controller moved the level: what to ask of the engine.
    pub fn set_device_level(&mut self, level: u8) -> (r: CapabilityState)
        ensures
            *final(self) == (LightCells { level: Some(level), ..*old(self) }),
            r == CapabilityState::Brightness(node_pct(level as int) as u8),
    {
        self.level = Some(level);
        CapabilityState::Brightness(matter_to_pct(level))
    }
}

/// What a controller's color write asks of the engine. A write reaches only the
/// capability that the device declares.
pub fn color_write(has_color: bool, r: u8, g: u8, b: u8) -> (out: Option<CapabilityState>)
    ensures
        out == if has_color {
            Some(CapabilityState::Color { r, g, b })
        } else {
            None
        },
{
    if has_color {
        Some(CapabilityState::Color { r, g, b })
    } else {
        None
    }
}

/// What a controller's color temperature write asks of the engine.
pub fn temperature_write(has_color_temp: bool, mireds: u16) -> (out: Option<CapabilityState>)
    ensures
        out == if has_color_temp {
            Some(CapabilityState::ColorTemperature(mireds))
        } else {
            None
        },
{
    if has_color_temp {
        Some(CapabilityState::ColorTemperature(mireds))
    } else {
        None
    }
}

// ------------------------------------------------------------ endpoints

/// Endpoint of the aggregator in a Matter bridge.
pub const AGGREGATOR_EP: u16 = 1;

/// Endpoint of the first bridged device.
pub const FIRST_BRIDGED_EP: u16 = 2;

/// The endpoint of bridged device `i`, counted from 0.
pub fn ep_of(i: usize) -> (r: u16)
    requires
        i + FIRST_BRIDGED_EP <= u16::MAX,
    ensures
        r == i + 2,
{
    FIRST_BRIDGED_EP + i as u16
}

/// The device that an endpoint belongs to.
pub open spec fn device_at_endpoint(ep: Option<u16>, n: int) -> Option<int> {
    match ep {
        Some(e) => if 2 <= e && e - 2 < n {
            Some(e - 2)
        } else {
            None
        },
        None => None,
    }
}

/// Find the device whose bridged endpoint this is, if any.
pub fn index_of(ep: Option<u16>, n: usize) -> (r: Option<usize>)
    ensures
        match r {
            Some(i) => device_at_endpoint(ep, n as int) == Some(i as int) && i < n,
            None => device_at_endpoint(ep, n as int) is None,
        },
{
    match ep {
        Some(e) => {
            if e < FIRST_BRIDGED_EP {
                return None;
            }
            let i: usize = (e - FIRST_BRIDGED_EP) as usize;
            if i < n {
                Some(i)
            } else {
                None
            }
        },
        None => None,
    }
}

/// Every device is found again at its own endpoint, and at no other.
pub proof fn endpoints_identify_devices(i: int, j: int, n: int)
    requires
        0 <= i < n,
        0 <= j < n,
        n + 2 <= u16::MAX,
    ensures
        device_at_endpoint(Some((i + 2) as u16), n) == Some(i),
        device_at_endpoint(Some((i + 2) as u16), n) == Some(j) ==> i == j,
        device_at_endpoint(Some(AGGREGATOR_EP), n) is None,
{
}

/// Registers the `matter_device` northbound adapter.
#[derive(Debug)]
pub struct Plugin;

impl AdapterPlugin for Plugin {
    open spec fn tag(&self) -> Seq<char> {
        "matter_device"@
    }

    open spec fn direction(&self) -> Polarity {
        Polarity::Northbound
    }

    open spec fn config_findings(&self, config: RawAdapterConfig, at: Seq<char>) -> Seq<Finding> {
        match config.matter_device {
            Ok(c) => expose_findings(c.expose, at),
            Err(why) => bad_config(why@, at),
        }
    }

    open spec fn device_findings(&self, device: DeviceV, at: Seq<char>) -> Seq<Finding> {
        Seq::empty()
    }

    open spec fn exposed(&self, config: RawAdapterConfig) -> Option<ExposeV> {
        match config.matter_device {
            Ok(c) => Some(expose_choice(c.expose)),
            Err(_) => None,
        }
    }

    fn type_tag(&self) -> (r: &'static str) {
        "matter_device"
    }

    fn polarity(&self) -> (r: Polarity) {
        Polarity::Northbound
    }

    fn expose_spec(&self, config: &RawAdapterConfig) -> (r: Option<ExposeSpec>) {
        match &config.matter_device {
            Ok(c) => Some(choose_exposed(&c.expose)),
            Err(_) => None,
        }
    }

    fn validate_config(&self, config: &RawAdapterConfig, at: &str, diags: &mut Vec<Diagnostic>) {
        match &config.matter_device {
            Ok(c) => validate_expose(&c.expose, at, diags),
            Err(why) => report(diags, "E_ADAPTER_CONFIG", why.clone(), at),
        }
    }

    fn validate_device(&self, device: &DeviceDef, at: &str, diags: &mut Vec<Diagnostic>) {
        assert(findings(diags@) + Seq::<Finding>::empty() =~= findings(diags@));
    }
}

} // verus!
