//! What a configuration that compiles promises the engine.

use vstd::prelude::*;

use super::ast::{RawConfig, RawDevice, RawRule, RawSchedule, RawShape, RawValue};
use super::diagnostic::{has_error, Finding, Severity};
use super::laws::{devices_are_numbered_densely, needed, scope_ok};
use super::lower::{
    declares, event_named, lowered_command, lowered_commands, lowered_condition, lowered_conditions,
    lowered_trigger, Notes, Scope,
};
use super::resolve::{
    adapter_ids, adapters_findings, adapters_of, binding_findings, cataloged, devices_resolved,
    is_northbound, lowered_guard, lowered_rule, notes_before, numberable, resolved, rule_at,
    rules_lowered, scene_at, scene_ids, scenes_lowered, schedule_at, schedule_cron, schedule_ids,
    scheduled, scope_of, system_findings, AdapterV, DeviceV, Resolution, SceneV,
};
use crate::calendar::{cron_fault, is_timezone};
use crate::ids::AdapterIdx;
use crate::model::CommandV;
use crate::names::ascending;
use crate::rule::{ConditionV, RuleV, TriggerV};

verus! {

// ------------------------------------------------------------ what was found

/// Nothing was added, or an error was.
pub open spec fn grew(a: Seq<Finding>, b: Seq<Finding>) -> bool {
    a == b || a.len() < b.len() && a.is_prefix_of(b) && b.last().severity == Severity::Error
}

proof fn lemma_grew_twice(a: Seq<Finding>, b: Seq<Finding>, c: Seq<Finding>)
    requires
        grew(a, b),
        grew(b, c),
    ensures
        grew(a, c),
{
}

proof fn lemma_no_error_before(a: Seq<Finding>, b: Seq<Finding>)
    requires
        a.is_prefix_of(b),
        !has_error(b),
    ensures
        !has_error(a),
{
    if has_error(a) {
        let i = choose|i: int| 0 <= i < a.len() && (#[trigger] a[i]).severity == Severity::Error;
        assert(a[i] == b[i]);
    }
}

proof fn lemma_nothing_added(a: Seq<Finding>, b: Seq<Finding>)
    requires
        grew(a, b),
        !has_error(b),
    ensures
        a == b,
{
    if a != b {
        assert(b[b.len() - 1].severity == Severity::Error);
    }
}

// ------------------------------------------------------------ commands

/// A command whose device is there and declares what it needs, or whose scene is
/// there.
pub open spec fn command_sound(x: Scope, scenes: nat, cmd: CommandV) -> bool {
    match cmd.target() {
        Some(device) => device.0 < x.devices.len() && x.devices[device.0 as int].capabilities.contains(
            needed(cmd)->0,
        ),
        None => match cmd {
            CommandV::ActivateScene { scene } => scene.0 < scenes,
            _ => true,
        },
    }
}

pub open spec fn commands_sound(x: Scope, scenes: nat, cmds: Seq<CommandV>) -> bool {
    forall|i: int| 0 <= i < cmds.len() ==> command_sound(x, scenes, #[trigger] cmds[i])
}

/// Every name stands for something that is there, and the clock is no device.
pub open spec fn names_ok(x: Scope, scenes: nat, schedules: nat) -> bool {
    &&& scope_ok(x)
    &&& x.clock.0 == x.devices.len()
    &&& forall|name: Seq<char>| #[trigger]
        x.scene_ids.contains_key(name) ==> x.scene_ids[name].0 < scenes
    &&& forall|name: Seq<char>| #[trigger]
        x.schedule_ids.contains_key(name) ==> x.schedule_ids[name].0 < schedules
}

#[verifier::spinoff_prover]
#[verifier::rlimit(100)]
proof fn lemma_command(
    x: Scope,
    scenes: nat,
    schedules: nat,
    n: Notes,
    v: RawValue,
    at: Seq<char>,
)
    requires
        names_ok(x, scenes, schedules),
    ensures
        grew(n.diags, lowered_command(x, n, v, at).0.diags),
        lowered_command(x, n, v, at).0.diags == n.diags ==> match lowered_command(x, n, v, at).1 {
            Some(cmd) => command_sound(x, scenes, cmd),
            None => true,
        },
{
    let (after, out) = lowered_command(x, n, v, at);
    if after.diags.len() > n.diags.len() {
        assert(after.diags.last().severity == Severity::Error);
    } else {
        assert(after.diags == n.diags);
    }
    if let Some(cmd) = out {
        if let Some(device) = cmd.target() {
            assert(device.0 < x.devices.len());
            if !declares(x, device, needed(cmd)->0) {
                assert(after.diags.len() > n.diags.len());
            }
        }
    }
}

proof fn lemma_commands(
    x: Scope,
    scenes: nat,
    schedules: nat,
    n: Notes,
    vs: Seq<RawValue>,
    at: Seq<char>,
)
    requires
        names_ok(x, scenes, schedules),
    ensures
        grew(n.diags, lowered_commands(x, n, vs, at).0.diags),
        !has_error(lowered_commands(x, n, vs, at).0.diags) ==> commands_sound(
            x,
            scenes,
            lowered_commands(x, n, vs, at).1,
        ),
    decreases vs.len(),
{
    if vs.len() > 0 {
        lemma_commands(x, scenes, schedules, n, vs.drop_last(), at);
        let before = lowered_commands(x, n, vs.drop_last(), at).0;
        let after = lowered_commands(x, n, vs, at).0;
        lemma_command(x, scenes, schedules, before, vs.last(), at);
        lemma_grew_twice(n.diags, before.diags, after.diags);
        if !has_error(after.diags) {
            lemma_nothing_added(before.diags, after.diags);
        }
    }
}

// ------------------------------------------------------------ triggers and conditions

/// A trigger whose device is there and declares what is watched, or whose schedule is
/// there.
pub open spec fn trigger_sound(x: Scope, schedules: nat, t: TriggerV) -> bool {
    match t {
        TriggerV::Action { device, action } => device.0 < x.devices.len() && exists|name: Seq<char>|
            #[trigger]
            event_named(x.devices[device.0 as int].events, name) == Some(action),
        TriggerV::Changed { device, kind, .. } => device.0 < x.devices.len()
            && x.devices[device.0 as int].capabilities.contains(kind),
        TriggerV::Crosses { device, .. } => device.0 < x.devices.len(),
        TriggerV::Reports { device, .. } => device.0 < x.devices.len(),
        TriggerV::Timer { .. } => true,
        TriggerV::Time { schedule } => schedule.0 < schedules,
        TriggerV::CommandFailed { device } => device matches Some(d) ==> d.0 < x.devices.len(),
    }
}

proof fn lemma_trigger(
    x: Scope,
    scenes: nat,
    schedules: nat,
    n: Notes,
    v: RawValue,
    at: Seq<char>,
)
    requires
        names_ok(x, scenes, schedules),
    ensures
        grew(n.diags, lowered_trigger(x, n, v, at).0.diags),
        lowered_trigger(x, n, v, at).0.diags == n.diags ==> match lowered_trigger(x, n, v, at).1 {
            Some(t) => trigger_sound(x, schedules, t),
            None => true,
        },
{
    let (after, out) = lowered_trigger(x, n, v, at);
    if after.diags.len() > n.diags.len() {
        assert(after.diags.last().severity == Severity::Error);
    } else {
        assert(after.diags == n.diags);
    }
    match out {
        Some(TriggerV::Changed { device, kind, .. }) => {
            assert(device.0 < x.devices.len());
            if !declares(x, device, kind) {
                assert(after.diags.len() > n.diags.len());
            }
        },
        _ => {},
    }
}

/// A condition that reads only capabilities that their devices declare; the clock
/// provides the time and the sun.
pub open spec fn condition_sound(x: Scope, c: ConditionV) -> bool
    decreases c,
{
    match c {
        ConditionV::Always => true,
        ConditionV::Not(inner) => condition_sound(x, *inner),
        ConditionV::And(cs) => conditions_sound(x, cs, cs.len()),
        ConditionV::Or(cs) => conditions_sound(x, cs, cs.len()),
        ConditionV::BoolEquals { device, kind, .. } => declares(x, device, kind),
        ConditionV::Compare { device, kind, .. } => declares(x, device, kind),
        ConditionV::ColorEquals { device, .. } => declares(
            x,
            device,
            crate::model::CapabilityKind::Color,
        ),
    }
}

/// The first `n` conditions are sound.
pub open spec fn conditions_sound(x: Scope, cs: Seq<ConditionV>, n: nat) -> bool
    decreases cs, n,
{
    n == 0 || n > cs.len() || conditions_sound(x, cs, (n - 1) as nat) && condition_sound(
        x,
        cs[n - 1],
    )
}

proof fn lemma_conditions_prefix(x: Scope, a: Seq<ConditionV>, b: Seq<ConditionV>, n: nat)
    requires
        n <= a.len(),
        n <= b.len(),
        forall|i: int| 0 <= i < n ==> a[i] == b[i],
        conditions_sound(x, a, n),
    ensures
        conditions_sound(x, b, n),
    decreases n,
{
    if n > 0 {
        lemma_conditions_prefix(x, a, b, (n - 1) as nat);
    }
}

proof fn lemma_condition(x: Scope, n: Notes, v: RawValue, at: Seq<char>)
    requires
        scope_ok(x),
    ensures
        grew(n.diags, lowered_condition(x, n, v, at).0.diags),
        !has_error(lowered_condition(x, n, v, at).0.diags) ==> match lowered_condition(
            x,
            n,
            v,
            at,
        ).1 {
            Some(c) => condition_sound(x, c),
            None => true,
        },
    decreases v,
{
    let after = lowered_condition(x, n, v, at).0;
    match v.shape {
        RawShape::Fields(fields) => {
            if fields@.len() == 1 && fields@[0].0 is Some {
                let p = fields@[0].1;
                let verb = fields@[0].0->0@;
                if verb == "all"@ || verb == "any"@ {
                    match p.shape {
                        RawShape::List(items) => {
                            lemma_condition_list(x, n, items, items@.len(), at);
                        },
                        _ => {
                            assert(after.diags.last().severity == Severity::Error);
                        },
                    }
                } else if verb == "not"@ {
                    lemma_condition(x, n, p, at);
                } else {
                    if after.diags.len() > n.diags.len() {
                        assert(after.diags[after.diags.len() - 1].severity == Severity::Error);
                    } else {
                        assert(after.diags == n.diags);
                    }
                }
            } else {
                assert(after.diags.last().severity == Severity::Error);
            }
        },
        _ => {
            assert(after.diags.last().severity == Severity::Error);
        },
    }
}

proof fn lemma_condition_list(x: Scope, n: Notes, items: Vec<RawValue>, k: nat, at: Seq<char>)
    requires
        scope_ok(x),
    ensures
        grew(n.diags, lowered_conditions(x, n, items, k, at).0.diags),
        !has_error(lowered_conditions(x, n, items, k, at).0.diags) ==> conditions_sound(
            x,
            lowered_conditions(x, n, items, k, at).1,
            lowered_conditions(x, n, items, k, at).1.len(),
        ),
    decreases items, k,
{
    if k > 0 && k <= items@.len() {
        lemma_condition_list(x, n, items, (k - 1) as nat, at);
        let (before, out, _) = lowered_conditions(x, n, items, (k - 1) as nat, at);
        let (after, all, _) = lowered_conditions(x, n, items, k, at);
        lemma_condition(x, before, items@[k - 1], at);
        lemma_grew_twice(n.diags, before.diags, after.diags);
        if !has_error(after.diags) {
            lemma_nothing_added(before.diags, after.diags);
            lemma_conditions_prefix(x, out, all, out.len());
        }
    }
}

// ------------------------------------------------------------ scenes and rules

pub open spec fn scenes_sound(x: Scope, scenes: Seq<SceneV>) -> bool {
    forall|i: int|
        0 <= i < scenes.len() ==> commands_sound(
            x,
            scenes.len(),
            (#[trigger] scenes[i]).commands,
        )
}

proof fn lemma_scenes(
    x: Scope,
    total: nat,
    schedules: nat,
    notes: Notes,
    names: Seq<Seq<char>>,
    raws: Seq<Vec<RawValue>>,
    n: nat,
)
    requires
        names_ok(x, total, schedules),
    ensures
        grew(notes.diags, scenes_lowered(x, notes, names, raws, n).0.diags),
        scenes_lowered(x, notes, names, raws, n).1.len() == n,
        !has_error(scenes_lowered(x, notes, names, raws, n).0.diags) ==> forall|i: int|
            0 <= i < n ==> commands_sound(
                x,
                total,
                (#[trigger] scenes_lowered(x, notes, names, raws, n).1[i]).commands,
            ),
    decreases n,
{
    if n > 0 {
        lemma_scenes(x, total, schedules, notes, names, raws, (n - 1) as nat);
        let (before, out) = scenes_lowered(x, notes, names, raws, (n - 1) as nat);
        let (after, all) = scenes_lowered(x, notes, names, raws, n);
        lemma_commands(x, total, schedules, before, raws[n - 1]@, scene_at(names[n - 1]));
        lemma_grew_twice(notes.diags, before.diags, after.diags);
        if !has_error(after.diags) {
            lemma_nothing_added(before.diags, after.diags);
            assert forall|i: int| 0 <= i < n implies commands_sound(
                x,
                total,
                (#[trigger] all[i]).commands,
            ) by {
                if i < n - 1 {
                    assert(all[i] == out[i]);
                }
            }
        }
    }
}

pub open spec fn rule_sound(x: Scope, scenes: nat, schedules: nat, r: RuleV) -> bool {
    &&& trigger_sound(x, schedules, r.trigger)
    &&& condition_sound(x, r.condition)
    &&& commands_sound(x, scenes, r.commands)
}

proof fn lemma_rule(
    x: Scope,
    scenes: nat,
    schedules: nat,
    n: Notes,
    id: u32,
    name: Seq<char>,
    raw: RawRule,
)
    requires
        names_ok(x, scenes, schedules),
    ensures
        grew(n.diags, lowered_rule(x, n, id, name, raw).0.diags),
        !has_error(lowered_rule(x, n, id, name, raw).0.diags) ==> match lowered_rule(
            x,
            n,
            id,
            name,
            raw,
        ).1 {
            Some(r) => rule_sound(x, scenes, schedules, r),
            None => true,
        },
{
    let at = rule_at(name);
    let n1 = lowered_trigger(x, n, raw.when, at).0;
    let n2 = lowered_guard(x, n1, raw.guard, at).0;
    let n3 = lowered_commands(x, n2, raw.commands@, at).0;
    lemma_trigger(x, scenes, schedules, n, raw.when, at);
    if let Some(v) = raw.guard {
        lemma_condition(x, n1, v, at);
    }
    lemma_commands(x, scenes, schedules, n2, raw.commands@, at);
    lemma_grew_twice(n.diags, n1.diags, n2.diags);
    lemma_grew_twice(n.diags, n2.diags, n3.diags);
    if !has_error(n3.diags) {
        lemma_nothing_added(n2.diags, n3.diags);
        lemma_nothing_added(n1.diags, n2.diags);
        lemma_nothing_added(n.diags, n1.diags);
    }
}

proof fn lemma_rules(
    x: Scope,
    scenes: nat,
    schedules: nat,
    notes: Notes,
    names: Seq<Seq<char>>,
    raws: Seq<RawRule>,
    n: nat,
)
    requires
        names_ok(x, scenes, schedules),
    ensures
        grew(notes.diags, rules_lowered(x, notes, names, raws, n).0.diags),
        !has_error(rules_lowered(x, notes, names, raws, n).0.diags) ==> forall|i: int|
            0 <= i < rules_lowered(x, notes, names, raws, n).1.len() ==> rule_sound(
                x,
                scenes,
                schedules,
                #[trigger] rules_lowered(x, notes, names, raws, n).1[i],
            ),
    decreases n,
{
    if n > 0 {
        lemma_rules(x, scenes, schedules, notes, names, raws, (n - 1) as nat);
        let (before, out) = rules_lowered(x, notes, names, raws, (n - 1) as nat);
        let (after, all) = rules_lowered(x, notes, names, raws, n);
        lemma_rule(x, scenes, schedules, before, (n - 1) as u32, names[n - 1], raws[n - 1]);
        lemma_grew_twice(notes.diags, before.diags, after.diags);
        if !has_error(after.diags) {
            lemma_nothing_added(before.diags, after.diags);
            assert forall|i: int| 0 <= i < all.len() implies rule_sound(
                x,
                scenes,
                schedules,
                #[trigger] all[i],
            ) by {
                if i < out.len() {
                    assert(all[i] == out[i]);
                }
            }
        }
    }
}

// ------------------------------------------------------------ devices and schedules

/// Whether every device is bound to an adapter that takes commands.
pub open spec fn devices_bound(adapters: Seq<AdapterV>, devices: Seq<DeviceV>) -> bool {
    forall|i: int|
        0 <= i < devices.len() ==> (#[trigger] devices[i]).adapter < adapters.len()
            && !is_northbound(adapters[devices[i].adapter as int].kind)
}

proof fn lemma_bound(
    diags: Seq<Finding>,
    adapters: Seq<AdapterV>,
    ids: Map<Seq<char>, AdapterIdx>,
    names: Seq<Seq<char>>,
    raws: Seq<RawDevice>,
    n: nat,
)
    requires
        forall|a: Seq<char>| #[trigger] ids.contains_key(a) ==> ids[a] < adapters.len(),
        !has_error(cataloged(diags, adapters, ids, names, raws, n).diags),
    ensures
        diags.is_prefix_of(cataloged(diags, adapters, ids, names, raws, n).diags),
        devices_bound(adapters, cataloged(diags, adapters, ids, names, raws, n).devices),
    decreases n,
{
    if n > 0 {
        let before = cataloged(diags, adapters, ids, names, raws, (n - 1) as nat);
        let after = cataloged(diags, adapters, ids, names, raws, n);
        let raw = raws[n - 1];
        let at = super::resolve::device_at(names[n - 1]);
        let found = binding_findings(adapters, ids, raw, at);
        assert(before.diags.is_prefix_of(after.diags));
        lemma_no_error_before(before.diags, after.diags);
        lemma_bound(diags, adapters, ids, names, raws, (n - 1) as nat);
        if found.len() > 0 {
            let k = before.diags.len() as int;
            assert(after.diags[k] == found[0]);
            assert(has_error(after.diags));
        }
        assert forall|i: int| 0 <= i < after.devices.len() implies (#[trigger]
        after.devices[i]).adapter < adapters.len() && !is_northbound(
            adapters[after.devices[i].adapter as int].kind,
        ) by {
            if i < before.devices.len() {
                assert(after.devices[i] == before.devices[i]);
            }
        }
    }
}

proof fn lemma_scheduled(names: Seq<Seq<char>>, raws: Seq<RawSchedule>, n: nat)
    requires
        !has_error(scheduled(names, raws, n).0),
    ensures
        scheduled(names, raws, n).1.len() == n,
        forall|i: int|
            0 <= i < n ==> cron_fault((#[trigger] scheduled(names, raws, n).1[i]).cron) is None,
    decreases n,
{
    if n > 0 {
        let (before, out) = scheduled(names, raws, (n - 1) as nat);
        let (after, all) = scheduled(names, raws, n);
        lemma_no_error_before(before, after);
        lemma_scheduled(names, raws, (n - 1) as nat);
        match schedule_cron(raws[n - 1], schedule_at(names[n - 1])) {
            Ok(_) => {
                assert forall|i: int| 0 <= i < n implies cron_fault((#[trigger] all[i]).cron) is None by {
                    if i < n - 1 {
                        assert(all[i] == out[i]);
                    }
                }
            },
            Err(f) => {
                assert(after[after.len() - 1].severity == Severity::Error);
            },
        }
    }
}

proof fn lemma_scene_numbers(names: Seq<Seq<char>>, n: nat)
    requires
        n <= u32::MAX,
    ensures
        forall|name: Seq<char>| #[trigger]
            scene_ids(names, n).contains_key(name) ==> scene_ids(names, n)[name].0 < n,
    decreases n,
{
    if n > 0 {
        lemma_scene_numbers(names, (n - 1) as nat);
        let before = scene_ids(names, (n - 1) as nat);
        assert forall|name: Seq<char>| #[trigger] scene_ids(names, n).contains_key(name) implies
            scene_ids(names, n)[name].0 < n by {
            if name != names[n - 1] {
                assert(before.contains_key(name));
            }
        }
    }
}

proof fn lemma_schedule_numbers(names: Seq<Seq<char>>, n: nat)
    requires
        n <= u32::MAX,
    ensures
        forall|name: Seq<char>| #[trigger]
            schedule_ids(names, n).contains_key(name) ==> schedule_ids(names, n)[name].0 < n,
    decreases n,
{
    if n > 0 {
        lemma_schedule_numbers(names, (n - 1) as nat);
        let before = schedule_ids(names, (n - 1) as nat);
        assert forall|name: Seq<char>| #[trigger] schedule_ids(names, n).contains_key(
            name,
        ) implies schedule_ids(names, n)[name].0 < n by {
            if name != names[n - 1] {
                assert(before.contains_key(name));
            }
        }
    }
}

proof fn lemma_adapter_numbers(names: Seq<Seq<char>>, n: nat)
    requires
        n <= usize::MAX,
    ensures
        forall|name: Seq<char>| #[trigger]
            adapter_ids(names, n).contains_key(name) ==> adapter_ids(names, n)[name] < n,
    decreases n,
{
    if n > 0 {
        lemma_adapter_numbers(names, (n - 1) as nat);
        let before = adapter_ids(names, (n - 1) as nat);
        assert forall|name: Seq<char>| #[trigger] adapter_ids(names, n).contains_key(
            name,
        ) implies adapter_ids(names, n)[name] < n by {
            if name != names[n - 1] {
                assert(before.contains_key(name));
            }
        }
    }
}

// ------------------------------------------------------------ the promise

/// What the engine may rely on.
pub open spec fn sound(x: Scope, r: Resolution) -> bool {
    &&& is_timezone(r.system.timezone)
    &&& devices_bound(r.adapters, r.devices)
    &&& forall|i: int|
        0 <= i < r.schedules.len() ==> cron_fault((#[trigger] r.schedules[i]).cron) is None
    &&& scenes_sound(x, r.scenes)
    &&& forall|i: int|
        0 <= i < r.rules.len() ==> rule_sound(
            x,
            r.scenes.len(),
            r.schedules.len(),
            #[trigger] r.rules[i],
        )
}

/// A configuration that compiles has no loose ends. Its time zone and its schedules
/// are known ones. Every device is bound to an adapter that takes commands. Every
/// command of every scene and rule targets a device that is there and declares what
/// the command needs, or a scene that is there; every trigger watches a device that
/// is there; and every condition reads what its device declares.
pub proof fn compiled_configurations_are_sound(raw: RawConfig)
    requires
        ascending(raw.adapters.names()),
        ascending(raw.devices.names()),
        raw.adapters.names().len() <= usize::MAX,
        numberable(raw),
        !has_error(resolved(raw).diags),
    ensures
        sound(scope_of(raw), resolved(raw)),
{
    let r = resolved(raw);
    let x = scope_of(raw);
    let scenes = raw.scenes.names().len();
    let schedules = raw.schedules.names().len();
    devices_are_numbered_densely(raw);
    lemma_scene_numbers(raw.scenes.names(), scenes);
    lemma_schedule_numbers(raw.schedules.names(), schedules);
    lemma_adapter_numbers(raw.adapters.names(), raw.adapters.names().len());
    let n0 = notes_before(raw);
    let c = devices_resolved(raw);
    let (n1, lowered) = scenes_lowered(x, n0, raw.scenes.names(), raw.scenes.values(), scenes);
    let (n2, rules) = rules_lowered(
        x,
        n1,
        raw.rules.names(),
        raw.rules.values(),
        raw.rules.names().len(),
    );
    assert(c.devices.len() <= u32::MAX) by {
        lemma_device_count(raw, raw.devices.names().len());
    }
    assert(names_ok(x, scenes, schedules));
    lemma_scenes(x, scenes, schedules, n0, raw.scenes.names(), raw.scenes.values(), scenes);
    lemma_rules(
        x,
        scenes,
        schedules,
        n1,
        raw.rules.names(),
        raw.rules.values(),
        raw.rules.names().len(),
    );
    assert(n2.diags.is_prefix_of(r.diags));
    lemma_no_error_before(n2.diags, r.diags);
    lemma_nothing_added(n1.diags, n2.diags);
    lemma_nothing_added(n0.diags, n1.diags);
    let timed = scheduled(raw.schedules.names(), raw.schedules.values(), schedules).0;
    assert(n0.diags == c.diags + timed);
    lemma_no_error_before(c.diags, n0.diags);
    if has_error(timed) {
        let i = choose|i: int|
            0 <= i < timed.len() && (#[trigger] timed[i]).severity == Severity::Error;
        assert(n0.diags[c.diags.len() + i] == timed[i]);
    }
    lemma_scheduled(raw.schedules.names(), raw.schedules.values(), schedules);
    lemma_bound(
        adapters_findings(
            raw.adapters.names(),
            raw.adapters.values(),
            raw.adapters.names().len(),
        ),
        adapters_of(raw.adapters.names(), raw.adapters.values()),
        adapter_ids(raw.adapters.names(), raw.adapters.names().len()),
        raw.devices.names(),
        raw.devices.values(),
        raw.devices.names().len(),
    );
    let zone = system_findings(raw.system);
    if zone.len() > 0 {
        assert(r.diags[r.diags.len() - 1] == zone[0]);
        assert(has_error(r.diags));
    }
}

proof fn lemma_device_count(raw: RawConfig, n: nat)
    requires
        n <= raw.devices.names().len(),
    ensures
        ({
            let names = raw.adapters.names();
            cataloged(
                adapters_findings(names, raw.adapters.values(), names.len()),
                adapters_of(names, raw.adapters.values()),
                adapter_ids(names, names.len()),
                raw.devices.names(),
                raw.devices.values(),
                n,
            ).devices.len() <= n
        }),
    decreases n,
{
    if n > 0 {
        lemma_device_count(raw, (n - 1) as nat);
    }
}

} // verus!
