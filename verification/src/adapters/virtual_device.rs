//! The `virtual` adapter: stateful devices with no physical backing. A virtual
//! device holds state that lives only in the engine, such as a switch fronting an
//! IR-only air conditioner, so the appliance becomes a real, exposable device even
//! though it cannot report its own state.
//!
//! It echoes every state-setting command straight back as a report: a virtual
//! device *is* whatever it was last set to. Its behavior lives in rules.

use vstd::prelude::*;

use super::mock::{echoed, echoing};
use super::{Adapter, Call, DispatchOutcome};
use super::plugin::{AdapterPlugin, ExposeSpec, ExposeV, Polarity};
use crate::compile::ast::RawAdapterConfig;
use crate::compile::diagnostic::{findings, Diagnostic, Finding};
use crate::compile::resolve::{DeviceDef, DeviceV};
use crate::model::{event_views, CapabilityState, Command, Event, EventV, Millis};

verus! {

pub struct VirtualDeviceAdapter;

impl Default for VirtualDeviceAdapter {
    fn default() -> (r: Self) {
        VirtualDeviceAdapter
    }
}

impl Adapter for VirtualDeviceAdapter {
    open spec fn manner(&self) -> spec_fn(Call) -> bool {
        echoing()
    }

    open spec fn wakes(&self, now: Millis) -> Option<Millis> {
        None
    }

    fn dispatch(&mut self, cmd: &Command, now: Millis) -> (out: DispatchOutcome)
        ensures
            out@ == echoed(cmd@),
    {
        let state: CapabilityState = match cmd {
            Command::SetSwitch { on, .. } => CapabilityState::Switch(*on),
            Command::SetBrightness { value, .. } => CapabilityState::Brightness(*value),
            Command::SetColor { r, g, b, .. } => CapabilityState::Color { r: *r, g: *g, b: *b },
            Command::SetColorTemperature { mireds, .. } => CapabilityState::ColorTemperature(
                *mireds,
            ),
            _ => return DispatchOutcome::ok(),
        };
        match cmd.target_device() {
            Some(device) => DispatchOutcome::echo(Event::StateReported { device, state }),
            None => DispatchOutcome::ok(),
        }
    }

    fn tick(&mut self, now: Millis) -> (out: Vec<Event>)
        ensures
            out@.len() == 0,
    {
        let out: Vec<Event> = Vec::new();
        assert(event_views(out@) =~= Seq::<EventV>::empty());
        out
    }

    fn next_wake(&self, now: Millis) -> (out: Option<Millis>) {
        None
    }
}

/// Registers the `virtual` adapter. It takes no config and no addresses.
#[derive(Debug)]
pub struct Plugin;

impl AdapterPlugin for Plugin {
    open spec fn tag(&self) -> Seq<char> {
        "virtual"@
    }

    open spec fn direction(&self) -> Polarity {
        Polarity::Southbound
    }

    open spec fn config_findings(&self, config: RawAdapterConfig, at: Seq<char>) -> Seq<Finding> {
        Seq::empty()
    }

    open spec fn device_findings(&self, device: DeviceV, at: Seq<char>) -> Seq<Finding> {
        Seq::empty()
    }

    open spec fn exposed(&self, config: RawAdapterConfig) -> Option<ExposeV> {
        None
    }

    fn type_tag(&self) -> (r: &'static str) {
        "virtual"
    }

    fn polarity(&self) -> (r: Polarity) {
        Polarity::Southbound
    }

    fn expose_spec(&self, config: &RawAdapterConfig) -> (r: Option<ExposeSpec>) {
        None
    }

    fn validate_config(&self, config: &RawAdapterConfig, at: &str, diags: &mut Vec<Diagnostic>) {
        assert(findings(diags@) + Seq::<Finding>::empty() =~= findings(diags@));
    }

    fn validate_device(&self, device: &DeviceDef, at: &str, diags: &mut Vec<Diagnostic>) {
        assert(findings(diags@) + Seq::<Finding>::empty() =~= findings(diags@));
    }
}

} // verus!
