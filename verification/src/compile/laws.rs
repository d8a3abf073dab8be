//! What holds of every compilation.

use vstd::prelude::*;

use super::ast::{RawConfig, RawDevice, RawShape, RawValue};
use super::diagnostic::Finding;
use super::lower::{
    lowered_command, lowered_condition, lowered_conditions, lowered_trigger, Notes, Scope,
};
use super::resolve::{
    adapter_ids, adapters_findings, adapters_of, cataloged, devices_resolved, scene_ids,
    schedule_ids, AdapterV, Catalog,
};
use crate::ids::{AdapterIdx, DeviceId, SceneId, ScheduleId};
use crate::model::{CapabilityKind, CommandV};
use crate::names::ascending;
use crate::text::{text_lt, text_order_is_total};

verus! {

// ------------------------------------------------------------ nothing is forgotten

/// Lowering a command only adds findings: what was found before is kept.
pub proof fn commands_only_add_findings(x: Scope, n: Notes, v: RawValue, at: Seq<char>)
    ensures
        n.diags.is_prefix_of(lowered_command(x, n, v, at).0.diags),
{
}

/// Lowering a trigger only adds findings.
pub proof fn triggers_only_add_findings(x: Scope, n: Notes, v: RawValue, at: Seq<char>)
    ensures
        n.diags.is_prefix_of(lowered_trigger(x, n, v, at).0.diags),
{
}

/// Lowering a condition only adds findings.
pub proof fn conditions_only_add_findings(x: Scope, n: Notes, v: RawValue, at: Seq<char>)
    ensures
        n.diags.is_prefix_of(lowered_condition(x, n, v, at).0.diags),
    decreases v,
{
    match v.shape {
        RawShape::Fields(fields) => {
            if fields@.len() == 1 && fields@[0].0 is Some {
                let p = fields@[0].1;
                match p.shape {
                    RawShape::List(items) => {
                        lemma_lists_only_add(x, n, items, items@.len(), at);
                    },
                    _ => {},
                }
                conditions_only_add_findings(x, n, p, at);
            }
        },
        _ => {},
    }
}

proof fn lemma_lists_only_add(x: Scope, n: Notes, items: Vec<RawValue>, k: nat, at: Seq<char>)
    ensures
        n.diags.is_prefix_of(lowered_conditions(x, n, items, k, at).0.diags),
    decreases items, k,
{
    if k > 0 && k <= items@.len() {
        lemma_lists_only_add(x, n, items, (k - 1) as nat, at);
        let before = lowered_conditions(x, n, items, (k - 1) as nat, at).0;
        conditions_only_add_findings(x, before, items@[k - 1], at);
    }
}

// ------------------------------------------------------------ references are sound

/// Every name of the scope stands for something that is there.
pub open spec fn scope_ok(x: Scope) -> bool {
    forall|name: Seq<char>| #[trigger]
        x.device_ids.contains_key(name) ==> x.device_ids[name].0 < x.devices.len()
            && x.devices[x.device_ids[name].0 as int].name == name
}

/// The capability that a command's device needs.
pub open spec fn needed(cmd: CommandV) -> Option<CapabilityKind> {
    match cmd {
        CommandV::SetSwitch { .. } => Some(CapabilityKind::Switch),
        CommandV::ToggleSwitch { .. } => Some(CapabilityKind::Switch),
        CommandV::SetBrightness { .. } => Some(CapabilityKind::Brightness),
        CommandV::DecreaseBrightness { .. } => Some(CapabilityKind::Brightness),
        CommandV::IncreaseBrightness { .. } => Some(CapabilityKind::Brightness),
        CommandV::SetColor { .. } => Some(CapabilityKind::Color),
        CommandV::SetColorTemperature { .. } => Some(CapabilityKind::ColorTemperature),
        CommandV::SendIrCode { .. } => Some(CapabilityKind::IrTransmitter),
        _ => None,
    }
}

/// A node that lowers to nothing leaves a finding that says why.
pub proof fn failure_is_explained(x: Scope, n: Notes, v: RawValue, at: Seq<char>)
    ensures
        ({
            let (after, out) = lowered_command(x, n, v, at);
            out is None ==> after.diags.len() > n.diags.len()
        }),
{
}

// ------------------------------------------------------------ numbers are stable

/// Adapters are numbered by the order of their names alone.
pub proof fn adapters_are_numbered_by_name(names: Seq<Seq<char>>, n: nat, i: int)
    requires
        ascending(names),
        0 <= i < n <= names.len(),
    ensures
        adapter_ids(names, n).contains_key(names[i]),
        adapter_ids(names, n)[names[i]] == i as usize,
    decreases n,
{
    if i < n - 1 {
        adapters_are_numbered_by_name(names, (n - 1) as nat, i);
        assert(text_lt(names[i], names[n - 1]));
        text_order_is_total(names[i], names[i]);
    }
}

/// Scenes are numbered by the order of their names alone.
pub proof fn scenes_are_numbered_by_name(names: Seq<Seq<char>>, n: nat, i: int)
    requires
        ascending(names),
        0 <= i < n <= names.len(),
    ensures
        scene_ids(names, n).contains_key(names[i]),
        scene_ids(names, n)[names[i]] == SceneId(i as u32),
    decreases n,
{
    if i < n - 1 {
        scenes_are_numbered_by_name(names, (n - 1) as nat, i);
        assert(text_lt(names[i], names[n - 1]));
        text_order_is_total(names[i], names[i]);
    }
}

/// Schedules are numbered by the order of their names alone.
pub proof fn schedules_are_numbered_by_name(names: Seq<Seq<char>>, n: nat, i: int)
    requires
        ascending(names),
        0 <= i < n <= names.len(),
    ensures
        schedule_ids(names, n).contains_key(names[i]),
        schedule_ids(names, n)[names[i]] == ScheduleId(i as u32),
    decreases n,
{
    if i < n - 1 {
        schedules_are_numbered_by_name(names, (n - 1) as nat, i);
        assert(text_lt(names[i], names[n - 1]));
        text_order_is_total(names[i], names[i]);
    }
}

/// Devices are numbered densely, the number of each is found under its name, and
/// every device is bound to an adapter that exists.
pub open spec fn catalog_ok(c: Catalog, adapters: nat) -> bool {
    &&& forall|i: int|
        0 <= i < c.devices.len() ==> (#[trigger] c.devices[i]).id == DeviceId(i as u32)
            && c.devices[i].adapter < adapters && c.ids.contains_key(c.devices[i].name)
            && c.ids[c.devices[i].name] == c.devices[i].id
    &&& forall|name: Seq<char>| #[trigger]
        c.ids.contains_key(name) ==> c.ids[name].0 < c.devices.len()
            && c.devices[c.ids[name].0 as int].name == name
}

proof fn lemma_catalog(
    diags: Seq<Finding>,
    adapters: Seq<AdapterV>,
    ids: Map<Seq<char>, AdapterIdx>,
    names: Seq<Seq<char>>,
    raws: Seq<RawDevice>,
    n: nat,
)
    requires
        ascending(names),
        n <= names.len(),
        names.len() < u32::MAX,
        forall|a: Seq<char>| #[trigger] ids.contains_key(a) ==> ids[a] < adapters.len(),
    ensures
        ({
            let c = cataloged(diags, adapters, ids, names, raws, n);
            &&& catalog_ok(c, adapters.len())
            &&& c.devices.len() <= n
            &&& forall|name: Seq<char>| #[trigger]
                c.ids.contains_key(name) ==> names.take(n as int).contains(name)
        }),
    decreases n,
{
    if n > 0 {
        lemma_catalog(diags, adapters, ids, names, raws, (n - 1) as nat);
        let before = cataloged(diags, adapters, ids, names, raws, (n - 1) as nat);
        let c = cataloged(diags, adapters, ids, names, raws, n);
        let name = names[n - 1];
        assert(!before.ids.contains_key(name)) by {
            if before.ids.contains_key(name) {
                let seen = names.take(n - 1);
                let j = choose|j: int| 0 <= j < seen.len() && #[trigger] seen[j] == name;
                assert(names[j] == name);
                assert(text_lt(names[j], names[n - 1]));
                text_order_is_total(name, name);
            }
        }
        assert forall|x: Seq<char>| #[trigger] c.ids.contains_key(x) implies names.take(
            n as int,
        ).contains(x) by {
            if before.ids.contains_key(x) {
                let seen = names.take(n - 1);
                let j = choose|j: int| 0 <= j < seen.len() && #[trigger] seen[j] == x;
                assert(names.take(n as int)[j] == x);
            } else {
                assert(names.take(n as int)[n - 1] == x);
            }
        }
        if c.devices.len() > before.devices.len() {
            assert(c.devices.drop_last() =~= before.devices);
            assert forall|i: int| 0 <= i < c.devices.len() implies (#[trigger] c.devices[i]).id
                == DeviceId(i as u32) && c.devices[i].adapter < adapters.len()
                && c.ids.contains_key(c.devices[i].name) && c.ids[c.devices[i].name]
                == c.devices[i].id by {
                if i < before.devices.len() {
                    assert(c.devices[i] == before.devices[i]);
                    assert(before.ids.contains_key(before.devices[i].name));
                }
            }
            assert forall|x: Seq<char>| #[trigger] c.ids.contains_key(x) implies c.ids[x].0
                < c.devices.len() && c.devices[c.ids[x].0 as int].name == x by {
                if x != name {
                    assert(before.ids.contains_key(x));
                    assert(c.devices[before.ids[x].0 as int] == before.devices[before.ids[x].0 as int]);
                }
            }
        }
    }
}

proof fn lemma_adapter_ids_in_range(names: Seq<Seq<char>>, n: nat)
    requires
        n <= names.len(),
        names.len() <= usize::MAX,
    ensures
        forall|a: Seq<char>| #[trigger]
            adapter_ids(names, n).contains_key(a) ==> adapter_ids(names, n)[a] < n,
    decreases n,
{
    if n > 0 {
        lemma_adapter_ids_in_range(names, (n - 1) as nat);
        let before = adapter_ids(names, (n - 1) as nat);
        assert forall|a: Seq<char>| #[trigger] adapter_ids(names, n).contains_key(a) implies adapter_ids(
            names,
            n,
        )[a] < n by {
            assert(adapter_ids(names, n) == before.insert(names[n - 1], (n - 1) as usize));
            if a != names[n - 1] {
                assert(before.contains_key(a));
            }
        }
    }
}

/// In every configuration, devices are numbered densely and in the order of their
/// names, each is found under its name, and each is bound to an adapter that
/// exists. So every name in a rule or scene stands for a device that is there.
pub proof fn devices_are_numbered_densely(raw: RawConfig)
    requires
        ascending(raw.adapters.names()),
        ascending(raw.devices.names()),
        raw.adapters.names().len() <= usize::MAX,
        raw.devices.names().len() < u32::MAX,
    ensures
        catalog_ok(devices_resolved(raw), raw.adapters.names().len()),
        scope_ok(super::resolve::scope_of(raw)),
{
    let names = raw.adapters.names();
    lemma_adapter_ids_in_range(names, names.len());
    lemma_catalog(
        adapters_findings(names, raw.adapters.values(), names.len()),
        adapters_of(names, raw.adapters.values()),
        adapter_ids(names, names.len()),
        raw.devices.names(),
        raw.devices.values(),
        raw.devices.names().len(),
    );
}

} // verus!
