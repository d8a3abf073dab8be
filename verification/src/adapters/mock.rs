//! A stand-in device adapter that echoes the commanded state back as a
//! `StateReported` event, modeling the device-confirmation feedback path.

use vstd::prelude::*;

use super::{Adapter, Call, DispatchOutcome, OutcomeV};
use super::plugin::{AdapterPlugin, ExposeSpec, ExposeV, Polarity};
use crate::compile::ast::RawAdapterConfig;
use crate::compile::diagnostic::{findings, Diagnostic, Finding};
use crate::compile::resolve::{DeviceDef, DeviceV};
use crate::ids::DeviceId;
use crate::model::{
    event_views, CapabilityState, Command, CommandV, Event, EventV, Millis,
};

verus! {

/// The state that a command sets outright, if it sets one.
pub open spec fn commanded_state(cmd: CommandV) -> Option<(DeviceId, CapabilityState)> {
    match cmd {
        CommandV::SetSwitch { device, on } => Some((device, CapabilityState::Switch(on))),
        CommandV::SetBrightness { device, value, .. } => Some(
            (device, CapabilityState::Brightness(value)),
        ),
        CommandV::SetColor { device, r, g, b, .. } => Some(
            (device, CapabilityState::Color { r, g, b }),
        ),
        CommandV::SetColorTemperature { device, mireds, .. } => Some(
            (device, CapabilityState::ColorTemperature(mireds)),
        ),
        _ => None,
    }
}

/// The answer of a device that becomes whatever it is told: its new state as a
/// report, and nothing for any other command.
pub open spec fn echoed(cmd: CommandV) -> OutcomeV {
    match commanded_state(cmd) {
        Some((device, state)) => OutcomeV::Done(seq![EventV::StateReported { device, state }]),
        None => OutcomeV::Done(Seq::empty()),
    }
}

pub struct MockDeviceAdapter;

impl Default for MockDeviceAdapter {
    fn default() -> (r: Self) {
        MockDeviceAdapter
    }
}

/// What a device that becomes whatever it is told answers: its new state to a
/// command, and nothing to a tick.
pub open spec fn echoing() -> spec_fn(Call) -> bool {
    |call: Call|
        match call {
            Call::Dispatch { command, now, outcome } => outcome == echoed(command),
            Call::Tick { now, events } => events == Seq::<EventV>::empty(),
            Call::Fold { .. } => true,
        }
}

impl Adapter for MockDeviceAdapter {
    open spec fn manner(&self) -> spec_fn(Call) -> bool {
        echoing()
    }

    open spec fn wakes(&self, now: Millis) -> Option<Millis> {
        None
    }

    fn dispatch(&mut self, cmd: &Command, now: Millis) -> (out: DispatchOutcome)
        ensures
            out@ == echoed(cmd@),
    {
        match cmd {
            Command::SetSwitch { device, on } => DispatchOutcome::echo(
                Event::StateReported { device: *device, state: CapabilityState::Switch(*on) },
            ),
            Command::SetBrightness { device, value, .. } => DispatchOutcome::echo(
                Event::StateReported { device: *device, state: CapabilityState::Brightness(*value) },
            ),
            Command::SetColor { device, r, g, b, .. } => DispatchOutcome::echo(
                Event::StateReported {
                    device: *device,
                    state: CapabilityState::Color { r: *r, g: *g, b: *b },
                },
            ),
            Command::SetColorTemperature { device, mireds, .. } => DispatchOutcome::echo(
                Event::StateReported {
                    device: *device,
                    state: CapabilityState::ColorTemperature(*mireds),
                },
            ),
            _ => DispatchOutcome::ok(),
        }
    }

    fn tick(&mut self, now: Millis) -> (out: Vec<Event>)
        ensures
            out@.len() == 0,
    {
        let out: Vec<Event> = Vec::new();
        assert(event_views(out@) =~= Seq::<EventV>::empty());
        out
    }

    fn next_wake(&self, now: Millis) -> (out: Option<Millis>) {
        None
    }
}

/// Registers the in-memory mock adapter (`type: mock`). It takes no config and no
/// addresses.
#[derive(Debug)]
pub struct Plugin;

impl AdapterPlugin for Plugin {
    open spec fn tag(&self) -> Seq<char> {
        "mock"@
    }

    open spec fn direction(&self) -> Polarity {
        Polarity::Southbound
    }

    open spec fn config_findings(&self, config: RawAdapterConfig, at: Seq<char>) -> Seq<Finding> {
        Seq::empty()
    }

    open spec fn device_findings(&self, device: DeviceV, at: Seq<char>) -> Seq<Finding> {
        Seq::empty()
    }

    open spec fn exposed(&self, config: RawAdapterConfig) -> Option<ExposeV> {
        None
    }

    fn type_tag(&self) -> (r: &'static str) {
        "mock"
    }

    fn polarity(&self) -> (r: Polarity) {
        Polarity::Southbound
    }

    fn expose_spec(&self, config: &RawAdapterConfig) -> (r: Option<ExposeSpec>) {
        None
    }

    fn validate_config(&self, config: &RawAdapterConfig, at: &str, diags: &mut Vec<Diagnostic>) {
        assert(findings(diags@) + Seq::<Finding>::empty() =~= findings(diags@));
    }

    fn validate_device(&self, device: &DeviceDef, at: &str, diags: &mut Vec<Diagnostic>) {
        assert(findings(diags@) + Seq::<Finding>::empty() =~= findings(diags@));
    }
}

} // verus!
