//! A northbound stand-in, the upstream analogue of the mock device adapter: it
//! records every state the engine folds, and turns queued consumer writes into
//! inbound requests on its next tick.

use vstd::prelude::*;

use super::{Call, NorthboundAdapter};
use super::plugin::{
    bad_config, choose_exposed, expose_choice, expose_findings, report, validate_expose,
    AdapterPlugin, ExposeSpec, ExposeV, Polarity,
};
use crate::compile::ast::RawAdapterConfig;
use crate::compile::diagnostic::{findings, Diagnostic, Finding};
use crate::compile::resolve::{DeviceDef, DeviceV};
use crate::ids::DeviceId;
use crate::model::{event_views, CapabilityState, Desired, DesiredV, Event, EventV, Millis};

verus! {

/// The requests that queued writes become, first come first.
pub open spec fn requests(writes: Seq<(DeviceId, CapabilityState)>) -> Seq<EventV> {
    writes.map_values(
        |w: (DeviceId, CapabilityState)|
            EventV::RequestedChange { device: w.0, desired: DesiredV::State(w.1) },
    )
}

/// The last state mirrored for a device.
pub open spec fn last_mirrored(
    mirrored: Seq<(DeviceId, CapabilityState)>,
    device: DeviceId,
) -> Option<CapabilityState>
    decreases mirrored.len(),
{
    if mirrored.len() == 0 {
        None
    } else if mirrored.last().0 == device {
        Some(mirrored.last().1)
    } else {
        last_mirrored(mirrored.drop_last(), device)
    }
}

pub struct MockNorthbound {
    /// Every `(device, state)` the engine folded, in order.
    pub mirrored: Vec<(DeviceId, CapabilityState)>,
    /// Consumer writes, drained into requests on the next `tick`.
    pub pending_writes: Vec<(DeviceId, CapabilityState)>,
    /// Every call so far.
    pub heard: Ghost<Seq<Call>>,
}

impl Default for MockNorthbound {
    fn default() -> (r: Self)
        ensures
            r.mirrored@ == Seq::<(DeviceId, CapabilityState)>::empty(),
            r.pending_writes@ == Seq::<(DeviceId, CapabilityState)>::empty(),
            r.heard() == Some(Seq::<Call>::empty()),
    {
        MockNorthbound {
            mirrored: Vec::new(),
            pending_writes: Vec::new(),
            heard: Ghost(Seq::empty()),
        }
    }
}

impl MockNorthbound {
    pub fn new() -> (r: Self)
        ensures
            r.mirrored@ == Seq::<(DeviceId, CapabilityState)>::empty(),
            r.pending_writes@ == Seq::<(DeviceId, CapabilityState)>::empty(),
            r.heard() == Some(Seq::<Call>::empty()),
    {
        MockNorthbound {
            mirrored: Vec::new(),
            pending_writes: Vec::new(),
            heard: Ghost(Seq::empty()),
        }
    }

    /// The most recent state mirrored for `device`, if any.
    pub fn latest(&self, device: DeviceId) -> (r: Option<CapabilityState>)
        ensures
            r == last_mirrored(self.mirrored@, device),
    {
        let mut i: usize = self.mirrored.len();
        assert(self.mirrored@.take(i as int) =~= self.mirrored@);
        while i > 0
            invariant
                i <= self.mirrored@.len(),
                last_mirrored(self.mirrored@, device) == last_mirrored(
                    self.mirrored@.take(i as int),
                    device,
                ),
            decreases i,
        {
            i -= 1;
            assert(self.mirrored@.take(i + 1).drop_last() =~= self.mirrored@.take(i as int));
            if self.mirrored[i].0 == device {
                return Some(self.mirrored[i].1);
            }
        }
        None
    }

    /// Queue a consumer write, delivered as a request on the next `tick`.
    pub fn queue_write(&mut self, device: DeviceId, desired: CapabilityState)
        ensures
            final(self).pending_writes@ == old(self).pending_writes@.push((device, desired)),
            final(self).mirrored == old(self).mirrored,
            final(self).heard() == old(self).heard(),
    {
        self.pending_writes.push((device, desired));
    }
}

impl NorthboundAdapter for MockNorthbound {
    closed spec fn heard(&self) -> Option<Seq<Call>> {
        Some(self.heard@)
    }

    open spec fn wakes(&self, now: Millis) -> Option<Millis> {
        None
    }

    fn tick(&mut self, now: Millis) -> (out: Vec<Event>)
        ensures
            event_views(out@) == requests(old(self).pending_writes@),
            final(self).pending_writes@.len() == 0,
            final(self).mirrored == old(self).mirrored,
    {
        let mut writes: Vec<(DeviceId, CapabilityState)> = Vec::new();
        core::mem::swap(&mut writes, &mut self.pending_writes);
        let mut out: Vec<Event> = Vec::new();
        let mut i: usize = 0;
        while i < writes.len()
            invariant
                i <= writes@.len(),
                out@.len() == i,
                forall|j: int| 0 <= j < i ==> (#[trigger] out@[j])@ == requests(writes@)[j],
            decreases writes@.len() - i,
        {
            out.push(
                Event::RequestedChange { device: writes[i].0, desired: Desired::State(writes[i].1) },
            );
            i += 1;
        }
        assert(event_views(out@) =~= requests(writes@));
        proof {
            self.heard@ = self.heard@.push(Call::Tick { now, events: event_views(out@) });
        }
        out
    }

    fn next_wake(&self, now: Millis) -> (out: Option<Millis>)
        ensures
            out is None,
    {
        None
    }

    fn state_folded(&mut self, device: DeviceId, state: &CapabilityState)
        ensures
            final(self).mirrored@ == old(self).mirrored@.push((device, *state)),
            final(self).pending_writes == old(self).pending_writes,
    {
        self.mirrored.push((device, *state));
        proof {
            self.heard@ = self.heard@.push(Call::Fold { device, state: *state });
        }
    }
}

/// Registers the mock northbound adapter (`type: mock_northbound`). Its config is
/// just an `expose` choice.
#[derive(Debug)]
pub struct Plugin;

impl AdapterPlugin for Plugin {
    open spec fn tag(&self) -> Seq<char> {
        "mock_northbound"@
    }

    open spec fn direction(&self) -> Polarity {
        Polarity::Northbound
    }

    open spec fn config_findings(&self, config: RawAdapterConfig, at: Seq<char>) -> Seq<Finding> {
        match config.exposure {
            Ok(c) => expose_findings(c.expose, at),
            Err(why) => bad_config(why@, at),
        }
    }

    open spec fn device_findings(&self, device: DeviceV, at: Seq<char>) -> Seq<Finding> {
        Seq::empty()
    }

    open spec fn exposed(&self, config: RawAdapterConfig) -> Option<ExposeV> {
        match config.exposure {
            Ok(c) => Some(expose_choice(c.expose)),
            Err(_) => None,
        }
    }

    fn type_tag(&self) -> (r: &'static str) {
        "mock_northbound"
    }

    fn polarity(&self) -> (r: Polarity) {
        Polarity::Northbound
    }

    fn expose_spec(&self, config: &RawAdapterConfig) -> (r: Option<ExposeSpec>) {
        match &config.exposure {
            Ok(c) => Some(choose_exposed(&c.expose)),
            Err(_) => None,
        }
    }

    fn validate_config(&self, config: &RawAdapterConfig, at: &str, diags: &mut Vec<Diagnostic>) {
        match &config.exposure {
            Ok(c) => validate_expose(&c.expose, at, diags),
            Err(why) => report(diags, "E_ADAPTER_CONFIG", why.clone(), at),
        }
    }

    fn validate_device(&self, device: &DeviceDef, at: &str, diags: &mut Vec<Diagnostic>) {
        assert(findings(diags@) + Seq::<Finding>::empty() =~= findings(diags@));
    }
}

} // verus!
