//! The runtime state store.
//!
//! This is the *disposable* half of the system: capability state keyed by
//! `(device, capability)`. Deleting it and replaying the event log reconstructs
//! it exactly. Conditions read from here at evaluation time.

use vstd::prelude::*;

use crate::ids::DeviceId;
use crate::model::{CapabilityKind, CapabilityState};
use crate::table::{Key, Table};

verus! {

/// One capability of one device.
#[derive(Clone, Copy, Debug, PartialEq, Eq, Hash, Structural)]
pub struct StateKey(pub DeviceId, pub CapabilityKind);

impl View for StateKey {
    type V = StateKey;

    open spec fn view(&self) -> StateKey {
        *self
    }
}

impl Key for StateKey {
    fn same(&self, other: &Self) -> (b: bool) {
        *self == *other
    }

    fn dup(&self) -> (r: Self) {
        *self
    }
}

/// What is known: every capability that was ever reported, with its last report.
pub type Known = Map<StateKey, CapabilityState>;

/// What is known after `device` reported `state`.
pub open spec fn reported(known: Known, device: DeviceId, state: CapabilityState) -> Known {
    known.insert(StateKey(device, state.spec_kind()), state)
}

/// The last report of a capability.
pub open spec fn known_state(
    known: Known,
    device: DeviceId,
    kind: CapabilityKind,
) -> Option<CapabilityState> {
    if known.contains_key(StateKey(device, kind)) {
        Some(known[StateKey(device, kind)])
    } else {
        None
    }
}

/// The last report of a capability, as a boolean.
pub open spec fn known_bool(known: Known, device: DeviceId, kind: CapabilityKind) -> Option<bool> {
    match known_state(known, device, kind) {
        Some(s) => s.spec_as_bool(),
        None => None,
    }
}

/// The last report of a capability, as a number.
pub open spec fn known_int(known: Known, device: DeviceId, kind: CapabilityKind) -> Option<i64> {
    match known_state(known, device, kind) {
        Some(s) => s.spec_as_int(),
        None => None,
    }
}

pub struct StateStore {
    map: Table<StateKey, CapabilityState>,
}

impl View for StateStore {
    type V = Known;

    closed spec fn view(&self) -> Known {
        self.map@
    }
}

impl Default for StateStore {
    fn default() -> (r: Self)
        ensures
            r@ == Known::empty(),
            r.order() == Seq::<StateKey>::empty(),
    {
        StateStore { map: Table::new() }
    }
}

impl StateStore {
    /// The capabilities in the order of their first report.
    pub closed spec fn order(&self) -> Seq<StateKey> {
        self.map.order()
    }

    pub fn set(&mut self, device: DeviceId, state: CapabilityState)
        ensures
            final(self)@ == reported(old(self)@, device, state),
            final(self).order() == if old(self)@.contains_key(
                StateKey(device, state.spec_kind()),
            ) {
                old(self).order()
            } else {
                old(self).order().push(StateKey(device, state.spec_kind()))
            },
    {
        let kind = state.kind();
        self.map.insert(StateKey(device, kind), state);
    }

    pub fn get(&self, device: DeviceId, kind: CapabilityKind) -> (r: Option<&CapabilityState>)
        ensures
            match r {
                Some(s) => known_state(self@, device, kind) == Some(*s),
                None => known_state(self@, device, kind) is None,
            },
    {
        self.map.get(&StateKey(device, kind))
    }

    /// Read a boolean capability. `None` means "we have never heard about this
    /// capability", which is distinct from `Some(false)`.
    pub fn bool_value(&self, device: DeviceId, kind: CapabilityKind) -> (r: Option<bool>)
        ensures
            r == known_bool(self@, device, kind),
    {
        match self.get(device, kind) {
            Some(s) => s.as_bool(),
            None => None,
        }
    }

    /// Read a numeric capability. `None` means unknown.
    pub fn num_value(&self, device: DeviceId, kind: CapabilityKind) -> (r: Option<i64>)
        ensures
            r == known_int(self@, device, kind),
    {
        match self.get(device, kind) {
            Some(s) => s.as_i64(),
            None => None,
        }
    }

    /// Whether a switch is on, if it ever reported.
    pub fn switch_is(&self, device: DeviceId) -> (r: Option<bool>)
        ensures
            r == known_bool(self@, device, CapabilityKind::Switch),
    {
        self.bool_value(device, CapabilityKind::Switch)
    }

    /// Everything known, in the order of first reports.
    pub fn snapshot(&self) -> (r: Vec<(DeviceId, CapabilityState)>)
        ensures
            r@ == snapshot_of(self.order(), self@),
            forall|k: StateKey| #[trigger] self@.contains_key(k) <==> self.order().contains(k),
            self.order().no_duplicates(),
    {
        let mut r: Vec<(DeviceId, CapabilityState)> = Vec::new();
        let n: usize = self.map.len();
        let mut i: usize = 0;
        while i < n
            invariant
                i <= n == self.order().len(),
                r@ == snapshot_of(self.order(), self@).take(i as int),
            decreases n - i,
        {
            let (k, v) = self.map.at(i);
            r.push((k.0, *v));
            assert(r@ =~= snapshot_of(self.order(), self@).take(i + 1));
            i += 1;
        }
        assert(r@ =~= snapshot_of(self.order(), self@));
        r
    }
}

/// The known states of some capabilities, each with its device.
pub open spec fn snapshot_of(order: Seq<StateKey>, known: Known) -> Seq<
    (DeviceId, CapabilityState),
> {
    order.map_values(|k: StateKey| (k.0, known[k]))
}

/// What is known of a capability is of its kind.
pub open spec fn kinds_agree(known: Known) -> bool {
    forall|k: StateKey| #[trigger] known.contains_key(k) ==> known[k].spec_kind() == k.1
}

/// Whether some states are everything that is known, each once.
pub open spec fn lists_known(states: Seq<(DeviceId, CapabilityState)>, known: Known) -> bool {
    exists|order: Seq<StateKey>|
        order.no_duplicates() && (forall|k: StateKey| #[trigger]
            known.contains_key(k) <==> order.contains(k)) && states == #[trigger] snapshot_of(
            order,
            known,
        )
}

/// A report is read back at once, whatever was known before.
pub proof fn report_is_read_back(known: Known, device: DeviceId, state: CapabilityState)
    ensures
        known_state(reported(known, device, state), device, state.spec_kind()) == Some(state),
{
}

/// A report changes nothing about any other capability or device.
pub proof fn report_touches_one_capability(
    known: Known,
    device: DeviceId,
    state: CapabilityState,
    other: DeviceId,
    kind: CapabilityKind,
)
    requires
        other != device || kind != state.spec_kind(),
    ensures
        known_state(reported(known, device, state), other, kind) == known_state(known, other, kind),
{
}

/// A report repeated changes nothing.
pub proof fn report_is_idempotent(known: Known, device: DeviceId, state: CapabilityState)
    ensures
        reported(reported(known, device, state), device, state) == reported(known, device, state),
{
    assert(reported(reported(known, device, state), device, state) =~= reported(
        known,
        device,
        state,
    ));
}

} // verus!
