//! Interned identifiers.
//!
//! The compiler resolves every name (`"kitchen_light"`) into one of these, and
//! the runtime never sees a name. They are indices into the compiled arenas.

use vstd::prelude::*;

use crate::table::Key;

verus! {

#[derive(Clone, Copy, Debug, PartialEq, Eq, Hash, Structural)]
pub struct DeviceId(pub u32);

#[derive(Clone, Copy, Debug, PartialEq, Eq, Hash, Structural)]
pub struct RuleId(pub u32);

#[derive(Clone, Copy, Debug, PartialEq, Eq, Hash, Structural)]
pub struct SceneId(pub u32);

#[derive(Clone, Copy, Debug, PartialEq, Eq, Hash, Structural)]
pub struct ScheduleId(pub u32);

/// A stateless device event declared in config (a button press, knob turn, scene
/// button). Each device's `events` map interns to one of these; the adapter
/// resolves a raw protocol string to it, and triggers match on it.
#[derive(Clone, Copy, Debug, PartialEq, Eq, Hash, Structural)]
pub struct ActionId(pub u32);

/// Index into the engine's adapter table. Adapter 0 is always the scheduler.
pub type AdapterIdx = usize;

impl View for DeviceId {
    type V = DeviceId;

    open spec fn view(&self) -> DeviceId {
        *self
    }
}

impl View for RuleId {
    type V = RuleId;

    open spec fn view(&self) -> RuleId {
        *self
    }
}

impl View for SceneId {
    type V = SceneId;

    open spec fn view(&self) -> SceneId {
        *self
    }
}

impl View for ScheduleId {
    type V = ScheduleId;

    open spec fn view(&self) -> ScheduleId {
        *self
    }
}

impl View for ActionId {
    type V = ActionId;

    open spec fn view(&self) -> ActionId {
        *self
    }
}

impl Key for DeviceId {
    fn same(&self, other: &Self) -> (b: bool) {
        *self == *other
    }

    fn dup(&self) -> (r: Self) {
        *self
    }
}

impl Key for RuleId {
    fn same(&self, other: &Self) -> (b: bool) {
        *self == *other
    }

    fn dup(&self) -> (r: Self) {
        *self
    }
}

impl Key for SceneId {
    fn same(&self, other: &Self) -> (b: bool) {
        *self == *other
    }

    fn dup(&self) -> (r: Self) {
        *self
    }
}

} // verus!
