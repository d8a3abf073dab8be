//! What a configuration is compiled to.

use vstd::prelude::*;

use super::lower::{
    notes_do_not_change_a_command, notes_do_not_change_a_condition, written_times_are_read,
};
use crate::adapters::plugin::{
    expose_choice, expose_findings, is_websocket_url, AdapterPlugin, ExposeV,
};
use crate::adapters::{
    declared_actions, matter, matter_device, send_reply, zigbee2mqtt, zwavejs, OutcomeV,
};
use crate::compile::assemble::{
    addressed, all_raw_events, bound_to, clock_of, clock_schedules, clock_zone, installed, Built,
};
use crate::compile::ast::{
    RawAdapter, RawConfig, RawDevice, RawExpose, RawRule, RawSchedule, RawSystem, RawValue,
};
use crate::compile::diagnostic::{error_at, finding_text, has_error, warning_at, Finding, Severity};
use crate::compile::lower::{lowered_commands, lowered_condition, lowered_trigger, Notes, Scope};
use crate::compile::resolve::{
    bare_findings, capabilities_of, capability_findings, cron_at, dangling_timers,
    device_capability, exposed_of, exposes, exposure_findings, is_northbound, kind_findings,
    kind_of, lowered_guard, lowered_rule, notes_before, resolved, rules_lowered, scenes_lowered,
    schedule_cron, scheduled, scope_of, system_findings, system_of, unknown_exposed,
    unused_adapters, unused_scenes, unused_schedules, with_device, AdapterV, Catalog, DeviceV,
    KindV, Resolution, SceneV, ScheduleV,
};
use crate::ids::{ActionId, AdapterIdx, DeviceId, RuleId, SceneId, ScheduleId};
use crate::model::{capability_names_round_trip, CapabilityKind};
use crate::rule::{Condition, ConditionV, Truth};
use crate::state::Known;
use crate::text::{decimal, has_prefix, number_up_to, texts};

verus! {

// ------------------------------------------------------------ rules and scenes

/// What a trigger becomes does not depend on what was noted before it.
pub proof fn notes_do_not_change_a_trigger(
    x: Scope,
    n: Notes,
    m: Notes,
    v: RawValue,
    at: Seq<char>,
)
    ensures
        lowered_trigger(x, n, v, at).1 == lowered_trigger(x, m, v, at).1,
{
}

/// What a list of commands becomes does not depend on what was noted before it.
pub proof fn notes_do_not_change_commands(
    x: Scope,
    n: Notes,
    m: Notes,
    vs: Seq<RawValue>,
    at: Seq<char>,
)
    ensures
        lowered_commands(x, n, vs, at).1 == lowered_commands(x, m, vs, at).1,
    decreases vs.len(),
{
    if vs.len() > 0 {
        notes_do_not_change_commands(x, n, m, vs.drop_last(), at);
        notes_do_not_change_a_command(
            x,
            lowered_commands(x, n, vs.drop_last(), at).0,
            lowered_commands(x, m, vs.drop_last(), at).0,
            vs.last(),
            at,
        );
    }
}

/// A rule without a guard may always act.
pub proof fn rules_without_a_guard_always_may(x: Scope, n: Notes, at: Seq<char>, c: Condition, known: Known)
    requires
        lowered_guard(x, n, None, at).1 == Some(c@),
    ensures
        c.truth(known) == Truth::True,
{
}

/// A rule is compiled to its trigger, its guard and its commands as written, under its name,
/// and acts at once.
pub proof fn rules_are_compiled_as_written(
    x: Scope,
    n: Notes,
    m: Notes,
    id: u32,
    name: Seq<char>,
    raw: RawRule,
)
    ensures
        ({
            let at = "rule '"@ + name + "'"@;
            let trigger = lowered_trigger(x, m, raw.when, at).1;
            let rule = lowered_rule(x, n, id, name, raw).1;
            &&& raw.guard is None && trigger is Some ==> rule is Some && (rule->0).condition
                == ConditionV::Always
            &&& raw.guard is Some && trigger is Some ==> (rule is Some <==> lowered_condition(
                x,
                m,
                raw.guard->0,
                at,
            ).1 is Some)
            &&& raw.guard is Some && rule is Some ==> Some((rule->0).condition)
                == lowered_condition(x, m, raw.guard->0, at).1
            &&& trigger is None ==> rule is None
            &&& rule is Some ==> {
                &&& (rule->0).id == RuleId(id)
                &&& (rule->0).name == name
                &&& Some((rule->0).trigger) == trigger
                &&& (rule->0).commands == lowered_commands(x, m, raw.commands@, at).1
                &&& (rule->0).for_duration is None
            }
        }),
{
    let at = crate::compile::resolve::rule_at(name);
    let n1 = lowered_trigger(x, n, raw.when, at).0;
    notes_do_not_change_a_trigger(x, n, m, raw.when, at);
    let n2 = lowered_guard(x, n1, raw.guard, at).0;
    if raw.guard is Some {
        notes_do_not_change_a_condition(x, n1, m, raw.guard->0, at);
    }
    notes_do_not_change_commands(x, n2, m, raw.commands@, at);
}

/// Every rule that is written and lowers is compiled, each under its own number, in the
/// order of the names.
pub proof fn every_rule_is_compiled(
    x: Scope,
    notes: Notes,
    m: Notes,
    names: Seq<Seq<char>>,
    raws: Seq<RawRule>,
    n: nat,
)
    requires
        n <= names.len(),
        n <= raws.len(),
        n <= u32::MAX,
        forall|i: int|
            0 <= i < n ==> lowered_rule(x, m, i as u32, #[trigger] names[i], raws[i]).1 is Some,
    ensures
        rules_lowered(x, notes, names, raws, n).1.len() == n,
        forall|i: int|
            0 <= i < n ==> lowered_rule(x, m, i as u32, #[trigger] names[i], raws[i]).1 == Some(
                rules_lowered(x, notes, names, raws, n).1[i],
            ),
    decreases n,
{
    if n > 0 {
        every_rule_is_compiled(x, notes, m, names, raws, (n - 1) as nat);
        let before = rules_lowered(x, notes, names, raws, (n - 1) as nat).0;
        let name = names[n - 1];
        let raw = raws[n - 1];
        rules_are_compiled_as_written(x, before, m, (n - 1) as u32, name, raw);
        rules_are_compiled_as_written(x, m, m, (n - 1) as u32, name, raw);
        assert(lowered_rule(x, m, (n - 1) as u32, names[n - 1], raws[n - 1]).1 is Some);
        assert(lowered_rule(x, before, (n - 1) as u32, name, raw).1 == lowered_rule(
            x,
            m,
            (n - 1) as u32,
            name,
            raw,
        ).1);
        let out = rules_lowered(x, notes, names, raws, (n - 1) as nat).1;
        let all = rules_lowered(x, notes, names, raws, n).1;
        assert forall|i: int| 0 <= i < n implies lowered_rule(
            x,
            m,
            i as u32,
            #[trigger] names[i],
            raws[i],
        ).1 == Some(all[i]) by {
            if i < n - 1 {
                assert(all[i] == out[i]);
            }
        }
    }
}

/// Every scene is compiled to its commands as written, under its name and its own number.
pub proof fn every_scene_is_compiled(
    x: Scope,
    notes: Notes,
    m: Notes,
    names: Seq<Seq<char>>,
    raws: Seq<Vec<RawValue>>,
    n: nat,
)
    requires
        n <= names.len(),
        n <= raws.len(),
        n <= u32::MAX,
    ensures
        scenes_lowered(x, notes, names, raws, n).1.len() == n,
        forall|i: int|
            0 <= i < n ==> #[trigger] scenes_lowered(x, notes, names, raws, n).1[i] == (SceneV {
                id: SceneId(i as u32),
                name: names[i],
                commands: lowered_commands(x, m, raws[i]@, "scene '"@ + names[i] + "'"@).1,
            }),
    decreases n,
{
    if n > 0 {
        every_scene_is_compiled(x, notes, m, names, raws, (n - 1) as nat);
        let (before, out) = scenes_lowered(x, notes, names, raws, (n - 1) as nat);
        notes_do_not_change_commands(
            x,
            before,
            m,
            raws[n - 1]@,
            "scene '"@ + names[n - 1] + "'"@,
        );
        let all = scenes_lowered(x, notes, names, raws, n).1;
        assert forall|i: int| 0 <= i < n implies #[trigger] all[i] == (SceneV {
            id: SceneId(i as u32),
            name: names[i],
            commands: lowered_commands(x, m, raws[i]@, "scene '"@ + names[i] + "'"@).1,
        }) by {
            if i < n - 1 {
                assert(all[i] == out[i]);
            }
        }
    }
}

/// A configuration is resolved to the rules, scenes and schedules that are written in it.
pub proof fn configurations_hold_what_is_written(raw: RawConfig)
    ensures
        ({
            let r = resolved(raw);
            let x = scope_of(raw);
            &&& r.system == system_of(raw.system)
            &&& r.devices == x.devices
            &&& r.clock == x.clock
            &&& r.clock == DeviceId(r.devices.len() as u32)
            &&& r.device_ids == x.device_ids
            &&& r.schedules == scheduled(
                raw.schedules.names(),
                raw.schedules.values(),
                raw.schedules.names().len(),
            ).1
            &&& r.scenes == scenes_lowered(
                x,
                notes_before(raw),
                raw.scenes.names(),
                raw.scenes.values(),
                raw.scenes.names().len(),
            ).1
            &&& exists|notes: Notes|
                r.rules == (#[trigger] rules_lowered(
                    x,
                    notes,
                    raw.rules.names(),
                    raw.rules.values(),
                    raw.rules.names().len(),
                )).1
        }),
{
    let x = scope_of(raw);
    let n1 = scenes_lowered(
        x,
        notes_before(raw),
        raw.scenes.names(),
        raw.scenes.values(),
        raw.scenes.names().len(),
    ).0;
    assert(resolved(raw).rules == rules_lowered(
        x,
        n1,
        raw.rules.names(),
        raw.rules.values(),
        raw.rules.names().len(),
    ).1);
}

// ------------------------------------------------------------ schedules

/// A time of day is written in cron as the minute, then the hour, on the days that are given.
pub proof fn times_become_cron(hour: nat, minute: nat, days: Seq<char>)
    requires
        hour < 24,
        minute < 60,
    ensures
        cron_at(decimal(hour) + ":"@ + decimal(minute), days) == Some(
            decimal(minute) + " "@ + decimal(hour) + " * * "@ + days,
        ),
{
    written_times_are_read(hour, minute);
}

/// A schedule is the cron expression that it gives, or its time on every day, on Monday to
/// Friday, or on Saturday and Sunday, as it says.
pub proof fn schedules_mean_what_they_say(
    raw: RawSchedule,
    at: Seq<char>,
    hour: nat,
    minute: nat,
    cron: Seq<char>,
)
    requires
        hour < 24,
        minute < 60,
        schedule_cron(raw, at) == Ok::<Seq<char>, Finding>(cron),
    ensures
        raw.cron is Some ==> cron == raw.cron->0@,
        raw.daily is Some && raw.daily->0@ == decimal(hour) + ":"@ + decimal(minute) ==> cron
            == decimal(minute) + " "@ + decimal(hour) + " * * *"@,
        raw.weekday is Some && raw.weekday->0@ == decimal(hour) + ":"@ + decimal(minute) ==> cron
            == decimal(minute) + " "@ + decimal(hour) + " * * 1-5"@,
        raw.weekend is Some && raw.weekend->0@ == decimal(hour) + ":"@ + decimal(minute) ==> cron
            == decimal(minute) + " "@ + decimal(hour) + " * * 0,6"@,
{
    times_become_cron(hour, minute, "*"@);
    times_become_cron(hour, minute, "1-5"@);
    times_become_cron(hour, minute, "0,6"@);
    reveal_strlit(" * * ");
    reveal_strlit("*");
    reveal_strlit("1-5");
    reveal_strlit("0,6");
    reveal_strlit(" * * *");
    reveal_strlit(" * * 1-5");
    reveal_strlit(" * * 0,6");
    let head = decimal(minute) + " "@ + decimal(hour);
    assert(" * * "@ + "*"@ =~= " * * *"@);
    assert(" * * "@ + "1-5"@ =~= " * * 1-5"@);
    assert(" * * "@ + "0,6"@ =~= " * * 0,6"@);
    assert(head + " * * "@ + "*"@ =~= head + (" * * "@ + "*"@));
    assert(head + " * * "@ + "1-5"@ =~= head + (" * * "@ + "1-5"@));
    assert(head + " * * "@ + "0,6"@ =~= head + (" * * "@ + "0,6"@));
}

/// A schedule gives its time in exactly one way.
pub proof fn schedules_say_it_once(raw: RawSchedule, at: Seq<char>)
    ensures
        raw.cron is None && raw.daily is None && raw.weekday is None && raw.weekend is None
            ==> schedule_cron(raw, at) is Err,
        raw.cron is Some && raw.daily is Some ==> schedule_cron(raw, at) is Err,
        raw.cron is Some && raw.weekday is Some ==> schedule_cron(raw, at) is Err,
        raw.cron is Some && raw.weekend is Some ==> schedule_cron(raw, at) is Err,
        raw.daily is Some && raw.weekday is Some ==> schedule_cron(raw, at) is Err,
        raw.daily is Some && raw.weekend is Some ==> schedule_cron(raw, at) is Err,
        raw.weekday is Some && raw.weekend is Some ==> schedule_cron(raw, at) is Err,
        schedule_cron(raw, at) is Err ==> schedule_cron(raw, at)->Err_0.severity == Severity::Error,
{
}

// ------------------------------------------------------------ devices and adapters

/// A device is compiled to what is written of it: its name, address, endpoint, room and
/// events, bound to the adapter that it names.
pub proof fn devices_are_compiled_as_written(
    c: Catalog,
    adapters: Seq<AdapterV>,
    ids: Map<Seq<char>, AdapterIdx>,
    name: Seq<char>,
    raw: RawDevice,
)
    requires
        ids.contains_key(raw.adapter@),
        c.devices.len() < u32::MAX,
    ensures
        ({
            let after = with_device(c, adapters, ids, name, raw);
            let d = after.devices.last();
            &&& after.devices.drop_last() =~= c.devices
            &&& after.devices.len() == c.devices.len() + 1
            &&& d.id == DeviceId(c.devices.len() as u32)
            &&& d.name == name
            &&& d.adapter == ids[raw.adapter@]
            &&& raw.address is Some ==> d.address == Some(raw.address->0@)
            &&& raw.address is None ==> d.address is None
            &&& d.endpoint == raw.endpoint
            &&& raw.room is Some ==> d.metadata.room == Some(raw.room->0@)
            &&& raw.manufacturer is Some ==> d.metadata.manufacturer == Some(raw.manufacturer->0@)
            &&& raw.model is Some ==> d.metadata.model == Some(raw.model->0@)
            &&& after.ids.contains_key(name)
            &&& after.ids[name] == d.id
            &&& d.events.len() == raw.events.names().len()
            &&& forall|i: int|
                0 <= i < d.events.len() ==> (#[trigger] d.events[i]).name == raw.events.names()[i]
                    && d.events[i].raw == raw.events.values()[i]@
        }),
{
}

/// A device declares the capabilities that it names, in their order. The time and the sun
/// are the clock's: no device can declare them.
pub proof fn capabilities_are_those_named(names: Seq<Seq<char>>, kinds: Seq<CapabilityKind>)
    requires
        names.len() == kinds.len(),
        forall|i: int| 0 <= i < names.len() ==> #[trigger] names[i] == kinds[i].spec_name(),
        forall|i: int|
            0 <= i < kinds.len() ==> #[trigger] kinds[i] != CapabilityKind::TimeOfDay && kinds[i]
                != CapabilityKind::SunUp,
    ensures
        capabilities_of(names) == kinds,
        device_capability("time_of_day"@) is None,
        device_capability("sun_up"@) is None,
    decreases names.len(),
{
    capability_names_round_trip(CapabilityKind::TimeOfDay);
    capability_names_round_trip(CapabilityKind::SunUp);
    if names.len() > 0 {
        let n = names.drop_last();
        let k = kinds.drop_last();
        assert forall|i: int| 0 <= i < n.len() implies #[trigger] n[i] == k[i].spec_name() by {
            assert(n[i] == names[i]);
        }
        assert forall|i: int| 0 <= i < k.len() implies #[trigger] k[i] != CapabilityKind::TimeOfDay
            && k[i] != CapabilityKind::SunUp by {
            assert(k[i] == kinds[i]);
        }
        capabilities_are_those_named(n, k);
        capability_names_round_trip(kinds.last());
        assert(names.last() == kinds.last().spec_name());
        assert(kinds[kinds.len() - 1] != CapabilityKind::TimeOfDay);
        assert(k.push(kinds.last()) =~= kinds);
    } else {
        assert(capabilities_of(names) =~= kinds);
    }
}

/// A device that names no adapter that is there, or one that takes no commands, is an error.
pub proof fn devices_need_an_adapter(
    adapters: Seq<AdapterV>,
    ids: Map<Seq<char>, AdapterIdx>,
    raw: RawDevice,
    at: Seq<char>,
)
    ensures
        !ids.contains_key(raw.adapter@) ==> has_error(
            crate::compile::resolve::binding_findings(adapters, ids, raw, at),
        ),
        ids.contains_key(raw.adapter@) && ids[raw.adapter@] < adapters.len() && is_northbound(
            adapters[ids[raw.adapter@] as int].kind,
        ) ==> has_error(crate::compile::resolve::binding_findings(adapters, ids, raw, at)),
        ids.contains_key(raw.adapter@) && ids[raw.adapter@] < adapters.len() && !is_northbound(
            adapters[ids[raw.adapter@] as int].kind,
        ) ==> crate::compile::resolve::binding_findings(adapters, ids, raw, at).len() == 0,
{
    let fs = crate::compile::resolve::binding_findings(adapters, ids, raw, at);
    if fs.len() > 0 {
        assert(fs[0].severity == Severity::Error);
    }
}

/// An adapter is of the type that it names, and only those whose consumer is upstream take
/// no commands.
pub proof fn adapters_are_of_their_type(raw: RawAdapter)
    ensures
        raw.kind@ == "zigbee2mqtt"@ ==> kind_of(raw) is Zigbee2Mqtt,
        raw.kind@ == "matter"@ ==> kind_of(raw) is Matter,
        raw.kind@ == "zwavejs"@ ==> kind_of(raw) is Zwavejs,
        raw.kind@ == "mock"@ ==> kind_of(raw) is Mock,
        raw.kind@ == "virtual"@ ==> kind_of(raw) is Virtual,
        raw.kind@ == "matter_device"@ ==> kind_of(raw) is MatterDevice,
        raw.kind@ == "mock_northbound"@ ==> kind_of(raw) is MockNorthbound,
        raw.config.controller is Ok && (kind_of(raw) is Matter || kind_of(raw) is Zwavejs) ==> (
        kind_of(raw) matches KindV::Matter { url } ==> url == raw.config.controller->Ok_0.url@) && (
        kind_of(raw) matches KindV::Zwavejs { url } ==> url == raw.config.controller->Ok_0.url@),
        is_northbound(kind_of(raw)) <==> kind_of(raw) is MatterDevice || kind_of(raw) is
            MockNorthbound,
        kind_of(raw) is Unknown ==> has_error(kind_findings(raw, Seq::empty())),
{
    reveal_strlit("zigbee2mqtt");
    reveal_strlit("matter");
    reveal_strlit("zwavejs");
    reveal_strlit("mock");
    reveal_strlit("virtual");
    reveal_strlit("matter_device");
    reveal_strlit("mock_northbound");
    assert("zigbee2mqtt"@.len() == 11 && "matter"@.len() == 6 && "zwavejs"@.len() == 7);
    assert("mock"@.len() == 4 && "virtual"@.len() == 7 && "matter_device"@.len() == 13);
    assert("mock_northbound"@.len() == 15);
    assert("zwavejs"@[0] == 'z' && "virtual"@[0] == 'v');
    if kind_of(raw) is Unknown {
        let fs = kind_findings(raw, Seq::empty());
        assert(fs[0].severity == Severity::Error);
    }
}

/// Everything is exposed unless some devices are listed, and then just those are.
pub proof fn exposure_is_all_or_those_listed(
    e: RawExpose,
    name: Seq<char>,
    at: Seq<char>,
    devices: Seq<DeviceV>,
    d: DeviceV,
)
    ensures
        !(e is Listed) ==> exposes(expose_choice(e), name),
        e is Listed ==> (exposes(expose_choice(e), name) <==> texts(e->Listed_0@).contains(name)),
        e is Keyword && e->Keyword_0@ != "all"@ ==> has_error(expose_findings(e, at)),
        e is Keyword && e->Keyword_0@ == "all"@ ==> expose_findings(e, at).len() == 0,
        exposed_of(expose_choice(e), devices).contains(d) <==> devices.contains(d) && exposes(
            expose_choice(e),
            d.name,
        ),
{
    if e is Keyword && e->Keyword_0@ != "all"@ {
        let fs = expose_findings(e, at);
        assert(fs[0].severity == Severity::Error);
    }
    lemma_exposed(expose_choice(e), devices, d);
}

proof fn lemma_exposed(e: ExposeV, devices: Seq<DeviceV>, d: DeviceV)
    ensures
        exposed_of(e, devices).contains(d) <==> devices.contains(d) && exposes(e, d.name),
    decreases devices.len(),
{
    if devices.len() > 0 {
        let rest = devices.drop_last();
        let last = devices.last();
        lemma_exposed(e, rest, d);
        let before = exposed_of(e, rest);
        let all = exposed_of(e, devices);
        if devices.contains(d) {
            let j = choose|j: int| 0 <= j < devices.len() && devices[j] == d;
            if j < rest.len() {
                assert(rest[j] == d);
            }
        }
        if rest.contains(d) {
            let j = choose|j: int| 0 <= j < rest.len() && rest[j] == d;
            assert(devices[j] == d);
        }
        if before.contains(d) {
            let j = choose|j: int| 0 <= j < before.len() && before[j] == d;
            assert(all[j] == d);
        }
        if exposes(e, last.name) {
            assert(all[all.len() - 1] == last);
            if last == d {
                assert(devices[devices.len() - 1] == d);
            }
        }
        if all.contains(d) {
            let j = choose|j: int| 0 <= j < all.len() && all[j] == d;
            if j < before.len() {
                assert(before[j] == d);
            } else {
                assert(devices[devices.len() - 1] == d);
            }
        }
    }
}

/// A controller's URL begins with `ws://` or `wss://`.
pub proof fn controllers_speak_web_sockets(host: Seq<char>)
    ensures
        is_websocket_url("ws://"@ + host),
        is_websocket_url("wss://"@ + host),
        !is_websocket_url("http://"@ + host),
{
    reveal_strlit("ws://");
    reveal_strlit("wss://");
    reveal_strlit("http://");
    let a = "ws://"@ + host;
    let b = "wss://"@ + host;
    let c = "http://"@ + host;
    assert(a.take(5) =~= "ws://"@);
    assert(b.take(6) =~= "wss://"@);
    assert(c[0] == 'h');
    if has_prefix(c, "ws://"@) {
        assert(c.take(5)[0] == 'h' && "ws://"@[0] == 'w');
    }
    if has_prefix(c, "wss://"@) {
        assert(c.take(6)[0] == 'h' && "wss://"@[0] == 'w');
    }
}

/// The site is where and when it says, and in universal time at the origin if it says
/// nothing.
pub proof fn sites_are_where_they_say(raw: RawSystem)
    ensures
        raw.timezone is Some ==> system_of(raw).timezone == raw.timezone->0@,
        raw.timezone is None ==> system_of(raw).timezone == "UTC"@,
        raw.latitude is Some ==> system_of(raw).latitude == raw.latitude->0@,
        raw.latitude is None ==> system_of(raw).latitude == "0"@,
        raw.longitude is Some ==> system_of(raw).longitude == raw.longitude->0@,
        raw.longitude is None ==> system_of(raw).longitude == "0"@,
        raw.name is Some ==> system_of(raw).name == Some(raw.name->0@),
        raw.name is None ==> system_of(raw).name is None,
        has_error(system_findings(raw)) <==> !crate::calendar::is_timezone(
            system_of(raw).timezone,
        ),
{
    let fs = system_findings(raw);
    if fs.len() > 0 {
        assert(fs[0].severity == Severity::Error);
    }
}

// ------------------------------------------------------------ findings

/// An error fails the compilation, and a warning does not.
pub proof fn errors_fail_and_warnings_do_not(
    fs: Seq<Finding>,
    code: Seq<char>,
    message: Seq<char>,
    at: Seq<char>,
)
    ensures
        has_error(fs.push(error_at(code, message, at))),
        has_error(fs.push(warning_at(code, message, at))) <==> has_error(fs),
        !has_error(Seq::empty()),
        error_at(code, message, at).context == Some(at),
        warning_at(code, message, at).context == Some(at),
{
    let e = fs.push(error_at(code, message, at));
    let w = fs.push(warning_at(code, message, at));
    assert(e[fs.len() as int].severity == Severity::Error);
    if has_error(fs) {
        let i = choose|i: int| 0 <= i < fs.len() && (#[trigger] fs[i]).severity == Severity::Error;
        assert(w[i].severity == Severity::Error);
    }
    if has_error(w) {
        let i = choose|i: int| 0 <= i < w.len() && (#[trigger] w[i]).severity == Severity::Error;
        assert(fs[i].severity == Severity::Error);
    }
}

/// A finding is told with its severity, its code, where it is, and what it is.
pub proof fn findings_are_told(code: Seq<char>, message: Seq<char>, at: Seq<char>)
    ensures
        finding_text(error_at(code, message, at)) == "error"@ + "["@ + code + "]"@ + " ("@ + at
            + ")"@ + ": "@ + message,
        finding_text(warning_at(code, message, at)) == "warning"@ + "["@ + code + "]"@ + " ("@ + at
            + ")"@ + ": "@ + message,
{
}

/// A scene that nothing activates is warned of; where all are activated nothing is said.
pub proof fn unused_scenes_are_warned_of(scenes: Seq<SceneV>, used: Seq<SceneId>, n: nat)
    requires
        n <= scenes.len(),
    ensures
        forall|i: int|
            0 <= i < n && !used.contains((#[trigger] scenes[i]).id) ==> unused_scenes(
                scenes,
                used,
                n,
            ).contains(
                warning_at(
                    "E_UNUSED_SCENE"@,
                    "scene is never activated"@,
                    "scene '"@ + scenes[i].name + "'"@,
                ),
            ),
        (forall|i: int| 0 <= i < n ==> used.contains((#[trigger] scenes[i]).id)) ==> unused_scenes(
            scenes,
            used,
            n,
        ).len() == 0,
        unused_scenes(scenes, used, n).len() <= n,
        !has_error(unused_scenes(scenes, used, n)),
    decreases n,
{
    if n > 0 {
        unused_scenes_are_warned_of(scenes, used, (n - 1) as nat);
        let before = unused_scenes(scenes, used, (n - 1) as nat);
        let all = unused_scenes(scenes, used, n);
        let s = scenes[n - 1];
        assert forall|i: int| 0 <= i < n && !used.contains((#[trigger] scenes[i]).id) implies all.contains(

            warning_at(
                "E_UNUSED_SCENE"@,
                "scene is never activated"@,
                "scene '"@ + scenes[i].name + "'"@,
            ),
        ) by {
            let f = warning_at(
                "E_UNUSED_SCENE"@,
                "scene is never activated"@,
                "scene '"@ + scenes[i].name + "'"@,
            );
            if i < n - 1 {
                let k = choose|k: int| 0 <= k < before.len() && before[k] == f;
                assert(all[k] == f);
            } else {
                assert(all[all.len() - 1] == f);
            }
        }
        if !used.contains(s.id) {
            errors_fail_and_warnings_do_not(
                before,
                "E_UNUSED_SCENE"@,
                "scene is never activated"@,
                "scene '"@ + s.name + "'"@,
            );
        }
    }
}

/// A schedule that no rule waits for is warned of.
pub proof fn unused_schedules_are_warned_of(
    schedules: Seq<ScheduleV>,
    used: Seq<ScheduleId>,
    n: nat,
)
    requires
        n <= schedules.len(),
    ensures
        forall|i: int|
            0 <= i < n && !used.contains((#[trigger] schedules[i]).id) ==> unused_schedules(
                schedules,
                used,
                n,
            ).contains(
                warning_at(
                    "E_UNUSED_SCHEDULE"@,
                    "schedule triggers no rule"@,
                    "schedule '"@ + schedules[i].name + "'"@,
                ),
            ),
        (forall|i: int| 0 <= i < n ==> used.contains((#[trigger] schedules[i]).id))
            ==> unused_schedules(schedules, used, n).len() == 0,
        !has_error(unused_schedules(schedules, used, n)),
    decreases n,
{
    if n > 0 {
        unused_schedules_are_warned_of(schedules, used, (n - 1) as nat);
        let before = unused_schedules(schedules, used, (n - 1) as nat);
        let all = unused_schedules(schedules, used, n);
        let s = schedules[n - 1];
        assert forall|i: int|
            0 <= i < n && !used.contains((#[trigger] schedules[i]).id) implies all.contains(
            warning_at(
                "E_UNUSED_SCHEDULE"@,
                "schedule triggers no rule"@,
                "schedule '"@ + schedules[i].name + "'"@,
            ),
        ) by {
            let f = warning_at(
                "E_UNUSED_SCHEDULE"@,
                "schedule triggers no rule"@,
                "schedule '"@ + schedules[i].name + "'"@,
            );
            if i < n - 1 {
                let k = choose|k: int| 0 <= k < before.len() && before[k] == f;
                assert(all[k] == f);
            } else {
                assert(all[all.len() - 1] == f);
            }
        }
        if !used.contains(s.id) {
            errors_fail_and_warnings_do_not(
                before,
                "E_UNUSED_SCHEDULE"@,
                "schedule triggers no rule"@,
                "schedule '"@ + s.name + "'"@,
            );
        }
    }
}

/// An adapter that takes commands and that no device uses is warned of.
pub proof fn unused_adapters_are_warned_of(
    adapters: Seq<AdapterV>,
    used: Seq<AdapterIdx>,
    n: nat,
)
    requires
        n <= adapters.len(),
        n <= usize::MAX,
    ensures
        forall|i: int|
            0 <= i < n && !used.contains(i as usize) && !is_northbound(
                (#[trigger] adapters[i]).kind,
            ) ==> unused_adapters(adapters, used, n).contains(
                warning_at(
                    "E_UNUSED_ADAPTER"@,
                    "adapter is not used by any device"@,
                    "adapter '"@ + adapters[i].name + "'"@,
                ),
            ),
        (forall|i: int|
            0 <= i < n ==> used.contains(i as usize) || is_northbound(
                (#[trigger] adapters[i]).kind,
            )) ==> unused_adapters(adapters, used, n).len() == 0,
        !has_error(unused_adapters(adapters, used, n)),
    decreases n,
{
    if n > 0 {
        unused_adapters_are_warned_of(adapters, used, (n - 1) as nat);
        let before = unused_adapters(adapters, used, (n - 1) as nat);
        let all = unused_adapters(adapters, used, n);
        let a = adapters[n - 1];
        assert forall|i: int|
            0 <= i < n && !used.contains(i as usize) && !is_northbound(
                (#[trigger] adapters[i]).kind,
            ) implies all.contains(
            warning_at(
                "E_UNUSED_ADAPTER"@,
                "adapter is not used by any device"@,
                "adapter '"@ + adapters[i].name + "'"@,
            ),
        ) by {
            let f = warning_at(
                "E_UNUSED_ADAPTER"@,
                "adapter is not used by any device"@,
                "adapter '"@ + adapters[i].name + "'"@,
            );
            if i < n - 1 {
                let k = choose|k: int| 0 <= k < before.len() && before[k] == f;
                assert(all[k] == f);
            } else {
                assert(all[all.len() - 1] == f);
            }
        }
        errors_fail_and_warnings_do_not(
            before,
            "E_UNUSED_ADAPTER"@,
            "adapter is not used by any device"@,
            "adapter '"@ + a.name + "'"@,
        );
    }
}

/// A timer that is waited for or cancelled, and that nothing starts, is warned of.
pub proof fn dangling_timers_are_warned_of(
    referenced: Seq<Seq<char>>,
    started: Seq<Seq<char>>,
    n: nat,
)
    requires
        n <= referenced.len(),
    ensures
        forall|i: int|
            0 <= i < n && !started.contains(#[trigger] referenced[i]) ==> dangling_timers(
                referenced,
                started,
                n,
            ).contains(
                Finding {
                    severity: Severity::Warning,
                    code: "E_DANGLING_TIMER"@,
                    message: "timer key '"@ + referenced[i]
                        + "' is referenced but never scheduled"@,
                    context: None,
                },
            ),
        (forall|i: int| 0 <= i < n ==> started.contains(#[trigger] referenced[i]))
            ==> dangling_timers(referenced, started, n).len() == 0,
        !has_error(dangling_timers(referenced, started, n)),
    decreases n,
{
    if n > 0 {
        dangling_timers_are_warned_of(referenced, started, (n - 1) as nat);
        let before = dangling_timers(referenced, started, (n - 1) as nat);
        let all = dangling_timers(referenced, started, n);
        assert forall|i: int|
            0 <= i < n && !started.contains(#[trigger] referenced[i]) implies all.contains(
            Finding {
                severity: Severity::Warning,
                code: "E_DANGLING_TIMER"@,
                message: "timer key '"@ + referenced[i] + "' is referenced but never scheduled"@,
                context: None,
            },
        ) by {
            let f = Finding {
                severity: Severity::Warning,
                code: "E_DANGLING_TIMER"@,
                message: "timer key '"@ + referenced[i] + "' is referenced but never scheduled"@,
                context: None,
            };
            if i < n - 1 {
                let k = choose|k: int| 0 <= k < before.len() && before[k] == f;
                assert(all[k] == f);
            } else {
                assert(all[all.len() - 1] == f);
            }
        }
        if has_error(all) {
            let k = choose|k: int| 0 <= k < all.len() && (#[trigger] all[k]).severity
                == Severity::Error;
            assert(before[k].severity == Severity::Error);
        }
    }
}

/// A device without capabilities is warned of, a capability that there is none of is an
/// error, and so is an address that its adapter cannot use.
pub proof fn devices_are_checked(
    raw: RawDevice,
    at: Seq<char>,
    name: Seq<char>,
    d: DeviceV,
)
    ensures
        raw.capabilities@.len() == 0 ==> bare_findings(raw, at).len() == 1 && bare_findings(
            raw,
            at,
        )[0].severity == Severity::Warning,
        raw.capabilities@.len() > 0 ==> bare_findings(raw, at).len() == 0,
        device_capability(name) is None ==> has_error(capability_findings(seq![name], at)),
        device_capability(name) is Some ==> capability_findings(seq![name], at).len() == 0,
        d.address is None ==> has_error(zigbee2mqtt::Plugin.device_findings(d, at)) && has_error(
            zwavejs::Plugin.device_findings(d, at),
        ) && has_error(matter::Plugin.device_findings(d, at)),
        d.address is Some ==> zigbee2mqtt::Plugin.device_findings(d, at).len() == 0,
        d.address is Some ==> (has_error(zwavejs::Plugin.device_findings(d, at))
            <==> number_up_to(d.address->0, 0xffff_ffff) is None),
        d.address is Some ==> (has_error(matter::Plugin.device_findings(d, at))
            <==> number_up_to(d.address->0, 0xffff_ffff_ffff_ffff) is None),
{
    reveal_with_fuel(capability_findings, 2);
    assert(seq![name].drop_last() =~= Seq::empty());
    let c = capability_findings(seq![name], at);
    if c.len() > 0 {
        assert(c[0].severity == Severity::Error);
    }
    let z = zigbee2mqtt::Plugin.device_findings(d, at);
    let w = zwavejs::Plugin.device_findings(d, at);
    let m = matter::Plugin.device_findings(d, at);
    if z.len() > 0 {
        assert(z[0].severity == Severity::Error);
    }
    if w.len() > 0 {
        assert(w[0].severity == Severity::Error);
    }
    if m.len() > 0 {
        assert(m[0].severity == Severity::Error);
    }
}

/// Everything that is found is kept: what the schedules, the scenes, the rules and the whole
/// of the configuration show.
pub proof fn nothing_found_is_lost(raw: RawConfig)
    ensures
        notes_before(raw).diags.len() >= scheduled(
            raw.schedules.names(),
            raw.schedules.values(),
            raw.schedules.names().len(),
        ).0.len(),
        has_error(system_findings(raw.system)) ==> has_error(resolved(raw).diags),
{
    if has_error(system_findings(raw.system)) {
        let fs = system_findings(raw.system);
        let all = resolved(raw).diags;
        let i = choose|i: int| 0 <= i < fs.len() && (#[trigger] fs[i]).severity == Severity::Error;
        assert(all[all.len() - fs.len() + i] == fs[i]);
    }
}

// ------------------------------------------------------------ the engine that is built

/// Every device is bound to the adapter that it was configured for, the scheduler being
/// before them all, and every scene is installed with its commands.
pub proof fn what_is_built_is_what_was_configured(
    devices: Seq<DeviceV>,
    built: Seq<Built>,
    i: int,
    scenes: Seq<SceneV>,
    k: int,
)
    requires
        0 <= i < devices.len(),
        0 <= k < scenes.len(),
        forall|a: int, b: int|
            0 <= a < b < devices.len() ==> (#[trigger] devices[a]).id != (#[trigger] devices[b]).id,
        forall|a: int, b: int|
            0 <= a < b < scenes.len() ==> (#[trigger] scenes[a]).id != (#[trigger] scenes[b]).id,
        forall|j: int| 0 <= j < built.len() ==> #[trigger] built[j] is Southbound,
        devices[i].adapter < built.len(),
        built.len() < usize::MAX,
    ensures
        bound_to(devices, built, devices.len()).contains_key(devices[i].id),
        bound_to(devices, built, devices.len())[devices[i].id] == devices[i].adapter + 1,
        installed(scenes, scenes.len()).contains_key(scenes[k].id),
        installed(scenes, scenes.len())[scenes[k].id] == scenes[k].commands,
{
    lemma_bound(devices, built, devices.len(), i);
    lemma_slot(built, devices[i].adapter as nat);
    lemma_installed(scenes, scenes.len(), k);
}

proof fn lemma_slot(built: Seq<Built>, n: nat)
    requires
        n <= built.len(),
        forall|j: int| 0 <= j < built.len() ==> #[trigger] built[j] is Southbound,
    ensures
        crate::compile::assemble::southbound_among(built, n) == n,
    decreases n,
{
    if n > 0 {
        lemma_slot(built, (n - 1) as nat);
        assert(built[n - 1] is Southbound);
    }
}

proof fn lemma_bound(devices: Seq<DeviceV>, built: Seq<Built>, n: nat, i: int)
    requires
        0 <= i < n <= devices.len(),
        forall|a: int, b: int|
            0 <= a < b < devices.len() ==> (#[trigger] devices[a]).id != (#[trigger] devices[b]).id,
    ensures
        bound_to(devices, built, n).contains_key(devices[i].id),
        bound_to(devices, built, n)[devices[i].id] == crate::compile::assemble::slot(
            built,
            devices[i].adapter as nat,
        ) as usize,
    decreases n,
{
    if i < n - 1 {
        lemma_bound(devices, built, (n - 1) as nat, i);
        assert(devices[i].id != devices[n - 1].id);
    }
}

proof fn lemma_installed(scenes: Seq<SceneV>, n: nat, k: int)
    requires
        0 <= k < n <= scenes.len(),
        forall|a: int, b: int|
            0 <= a < b < scenes.len() ==> (#[trigger] scenes[a]).id != (#[trigger] scenes[b]).id,
    ensures
        installed(scenes, n).contains_key(scenes[k].id),
        installed(scenes, n)[scenes[k].id] == scenes[k].commands,
    decreases n,
{
    if k < n - 1 {
        lemma_installed(scenes, (n - 1) as nat, k);
        assert(scenes[k].id != scenes[n - 1].id);
    }
}

/// The clock is set up for the site: its zone and its place, with nothing told yet.
pub proof fn the_clock_is_set_up_for_the_site(cfg: Resolution, epoch: int)
    ensures
        clock_of(cfg, epoch).device == cfg.clock,
        clock_of(cfg, epoch).epoch == epoch,
        crate::calendar::is_timezone(cfg.system.timezone) ==> clock_of(cfg, epoch).tz
            == cfg.system.timezone,
        clock_of(cfg, epoch).latitude == cfg.system.latitude,
        clock_of(cfg, epoch).longitude == cfg.system.longitude,
        clock_of(cfg, epoch).last_minute is None,
        clock_zone("UTC"@) == "UTC"@,
{
}

/// A device that has an address is told and heard under it, at its endpoint; one that has
/// none is left out.
pub proof fn devices_are_reached_by_their_address(devices: Seq<DeviceV>, d: DeviceV)
    ensures
        d.address is Some ==> addressed(devices.push(d)) == addressed(devices).push(
            (d.id, (d.address->0, d.endpoint)),
        ),
        d.address is None ==> addressed(devices.push(d)) == addressed(devices),
        addressed(Seq::empty()).len() == 0,
{
    assert(devices.push(d).drop_last() =~= devices);
}

/// An event is known by its device and its raw text: what is declared for them is what they
/// stand for.
pub proof fn events_are_known_by_their_raw_text(
    events: Seq<(DeviceId, String, ActionId)>,
    n: nat,
    i: int,
)
    requires
        0 <= i < n <= events.len(),
        forall|j: int, k: int|
            0 <= j < k < n ==> (#[trigger] events[j]).0 != (#[trigger] events[k]).0 || events[j].1@
                != events[k].1@,
    ensures
        declared_actions(events, n).contains_key((events[i].0, events[i].1@)),
        declared_actions(events, n)[(events[i].0, events[i].1@)] == events[i].2,
    decreases n,
{
    if i < n - 1 {
        events_are_known_by_their_raw_text(events, (n - 1) as nat, i);
        assert(events[i].0 != events[n - 1].0 || events[i].1@ != events[n - 1].1@);
    }
}

/// The declared events of a device are those that it lists, each with its raw text.
pub proof fn raw_events_are_those_listed(devices: Seq<DeviceV>, d: DeviceV, i: int)
    requires
        0 <= i < d.events.len(),
    ensures
        ({
            let all = all_raw_events(devices.push(d));
            let before = all_raw_events(devices);
            &&& all.len() == before.len() + d.events.len()
            &&& all[before.len() + i] == (d.id, d.events[i].raw, d.events[i].id)
        }),
{
    assert(devices.push(d).drop_last() =~= devices);
}

/// The clock starts with every schedule whose expression is one, none of them armed yet.
pub proof fn the_clock_starts_with_every_schedule(schedules: Seq<ScheduleV>, s: ScheduleV)
    ensures
        crate::calendar::cron_fault(s.cron) is None ==> {
            let all = clock_schedules(schedules.push(s));
            &&& all.len() == clock_schedules(schedules).len() + 1
            &&& all.last().id == s.id
            &&& all.last().cron == s.cron
            &&& !all.last().armed
        },
        crate::calendar::cron_fault(s.cron) is Some ==> clock_schedules(schedules.push(s))
            == clock_schedules(schedules),
{
    assert(schedules.push(s).drop_last() =~= schedules);
}

/// What was sent is done, and what could not be sent is worth another try.
pub proof fn failed_sends_are_worth_another_try(why: Seq<char>)
    ensures
        send_reply(None) == OutcomeV::Done(Seq::empty()),
        send_reply(Some(why)) == OutcomeV::Transient(why),
{
}

/// A listed name that no device has is an error; where every one is known nothing is said.
pub proof fn unknown_exposures_are_errors(
    names: Seq<Seq<char>>,
    ids: Map<Seq<char>, DeviceId>,
    n: nat,
    at: Seq<char>,
)
    requires
        n <= names.len(),
    ensures
        (exists|i: int| 0 <= i < n && !ids.contains_key(#[trigger] names[i])) <==> has_error(
            unknown_exposed(names, ids, n, at),
        ),
        (forall|i: int| 0 <= i < n ==> ids.contains_key(#[trigger] names[i])) ==> unknown_exposed(
            names,
            ids,
            n,
            at,
        ).len() == 0,
    decreases n,
{
    if n > 0 {
        unknown_exposures_are_errors(names, ids, (n - 1) as nat, at);
        let before = unknown_exposed(names, ids, (n - 1) as nat, at);
        if !ids.contains_key(names[n - 1]) {
            errors_fail_and_warnings_do_not(
                before,
                "E_UNKNOWN_DEVICE"@,
                "exposes unknown device '"@ + names[n - 1] + "'"@,
                at,
            );
        } else if has_error(before) {
            let i = choose|i: int| 0 <= i < n - 1 && !ids.contains_key(#[trigger] names[i]);
            assert(!ids.contains_key(names[i]));
        }
    }
}

/// A node carries sixty-four devices: more are an error, and up to so many are not.
pub proof fn nodes_carry_so_many_devices(
    a: AdapterV,
    devices: Seq<DeviceV>,
    ids: Map<Seq<char>, DeviceId>,
)
    requires
        a.kind is MatterDevice,
        a.kind->MatterDevice_expose is All,
    ensures
        ({
            let chosen = exposed_of(ExposeV::All, devices);
            let count = matter_device::projected(chosen, chosen.len()).len();
            &&& count > 64 <==> has_error(exposure_findings(a, devices, ids))
            &&& count <= 64 ==> exposure_findings(a, devices, ids).len() == 0
        }),
{
    let fs = exposure_findings(a, devices, ids);
    if fs.len() > 0 {
        assert(fs[0].severity == Severity::Error);
    }
}

} // verus!
