//! From a compiled configuration to an engine that can run.
//!
//! The host builds the adapters, for it owns their transports; what is wired to what
//! is decided here.

use vstd::prelude::*;

use crate::adapters::clock::{ClockAdapter, ClockV, Epoch, ScheduleV as ArmedV};
use crate::adapters::zigbee2mqtt::Load;
use crate::adapters::{Adapter, Call, NorthboundAdapter};
use crate::calendar::{cron_fault, is_timezone, CronExpr, Zone};
use crate::causality::{fresh, Mirror, Place, Wiring};
use crate::engine::{hold_adapter, hold_northbound, Engine, RetryPolicy};
use crate::ids::{ActionId, AdapterIdx, DeviceId, SceneId, ScheduleId};
use crate::model::{clone_commands, copy_capabilities, CapabilityKind, CommandV};

use super::lower::Scope;
use super::sound::sound;
use super::resolve::{
    is_northbound, device_views, rule_views, scene_views, CompiledConfig, DeviceDef, DeviceEventV,
    DeviceV, Resolution, SceneV, ScheduleV,
};

verus! {

/// What the host built for one configured adapter.
pub enum Built {
    /// Devices are bound to it, and commands dispatched to it.
    Southbound(Box<dyn Adapter>),
    /// It mirrors devices outwards, and no command is ever dispatched to it.
    Northbound(Box<dyn NorthboundAdapter>),
    /// Nothing to run.
    Nothing,
}

// ------------------------------------------------------------ devices of an adapter

/// Belonging to an adapter.
pub open spec fn belongs_to(adapter: AdapterIdx) -> spec_fn(DeviceV) -> bool {
    |d: DeviceV| d.adapter == adapter
}

/// The devices that a configuration binds to an adapter, in their order.
pub fn bound_devices<'a>(devices: &'a Vec<DeviceDef>, adapter: AdapterIdx) -> (r: Vec<
    &'a DeviceDef,
>)
    ensures
        r@.map_values(|d: &DeviceDef| d@) == device_views(devices@).filter(belongs_to(adapter)),
{
    let ghost all = device_views(devices@);
    let ghost keep = belongs_to(adapter);
    let mut out: Vec<&DeviceDef> = Vec::new();
    let mut i: usize = 0;
    proof {
        reveal(Seq::filter);
        assert(out@.map_values(|d: &DeviceDef| d@) =~= all.take(0).filter(keep));
    }
    while i < devices.len()
        invariant
            i <= devices@.len(),
            all == device_views(devices@),
            keep == belongs_to(adapter),
            out@.map_values(|d: &DeviceDef| d@) == all.take(i as int).filter(keep),
        decreases devices@.len() - i,
    {
        let ghost before = out@;
        let d = &devices[i];
        if d.adapter == adapter {
            out.push(d);
        }
        proof {
            reveal(Seq::filter);
            assert(all.take(i + 1).drop_last() =~= all.take(i as int));
            assert(all.take(i + 1).last() == d@);
            if d.adapter == adapter {
                assert(out@.map_values(|d: &DeviceDef| d@) =~= before.map_values(
                    |d: &DeviceDef| d@,
                ).push(d@));
            }
        }
        i += 1;
    }
    assert(all.take(i as int) =~= all);
    out
}

/// The views of some devices.
pub open spec fn views(devices: Seq<&DeviceDef>) -> Seq<DeviceV> {
    devices.map_values(|d: &DeviceDef| d@)
}

/// The loads of some devices, of those that have an address.
pub open spec fn addressed(devices: Seq<DeviceV>) -> Seq<(DeviceId, (Seq<char>, Option<u16>))>
    decreases devices.len(),
{
    if devices.len() == 0 {
        Seq::empty()
    } else {
        let before = addressed(devices.drop_last());
        let d = devices.last();
        match d.address {
            Some(address) => before.push((d.id, (address, d.endpoint))),
            None => before,
        }
    }
}

pub open spec fn load_views(s: Seq<(DeviceId, Load)>) -> Seq<
    (DeviceId, (Seq<char>, Option<u16>)),
> {
    s.map_values(|l: (DeviceId, Load)| (l.0, l.1@))
}

/// The loads of an adapter's devices: the friendly name of each, and on a multi-gang
/// device the load's number.
pub fn loads(devices: &Vec<&DeviceDef>) -> (r: Vec<(DeviceId, Load)>)
    ensures
        load_views(r@) == addressed(views(devices@)),
{
    let ghost all = views(devices@);
    let mut out: Vec<(DeviceId, Load)> = Vec::new();
    let mut i: usize = 0;
    assert(load_views(out@) =~= addressed(all.take(0)));
    while i < devices.len()
        invariant
            i <= devices@.len(),
            all == views(devices@),
            load_views(out@) == addressed(all.take(i as int)),
        decreases devices@.len() - i,
    {
        let d = devices[i];
        let ghost before = load_views(out@);
        assert(all.take(i + 1).drop_last() =~= all.take(i as int));
        assert(all.take(i + 1).last() == d@);
        if let Some(address) = &d.address {
            out.push((d.id, Load { name: address.clone(), gang: d.endpoint }));
            assert(load_views(out@) =~= before.push((d.id, (address@, d.endpoint))));
        }
        i += 1;
    }
    assert(all.take(i as int) =~= all);
    out
}

/// The events of one device, by their raw strings.
pub open spec fn raw_events(device: DeviceId, events: Seq<DeviceEventV>) -> Seq<
    (DeviceId, Seq<char>, ActionId),
> {
    events.map_values(|e: DeviceEventV| (device, e.raw, e.id))
}

/// The events of some devices, by their raw strings.
pub open spec fn all_raw_events(devices: Seq<DeviceV>) -> Seq<(DeviceId, Seq<char>, ActionId)>
    decreases devices.len(),
{
    if devices.len() == 0 {
        Seq::empty()
    } else {
        all_raw_events(devices.drop_last()) + raw_events(devices.last().id, devices.last().events)
    }
}

pub open spec fn event_keys(s: Seq<(DeviceId, String, ActionId)>) -> Seq<
    (DeviceId, Seq<char>, ActionId),
> {
    s.map_values(|e: (DeviceId, String, ActionId)| (e.0, e.1@, e.2))
}

/// The events that an adapter's devices declare, by the raw strings they arrive as.
pub fn declared_events(devices: &Vec<&DeviceDef>) -> (r: Vec<(DeviceId, String, ActionId)>)
    ensures
        event_keys(r@) == all_raw_events(views(devices@)),
{
    let ghost all = views(devices@);
    let mut out: Vec<(DeviceId, String, ActionId)> = Vec::new();
    let mut i: usize = 0;
    assert(event_keys(out@) =~= all_raw_events(all.take(0)));
    while i < devices.len()
        invariant
            i <= devices@.len(),
            all == views(devices@),
            event_keys(out@) == all_raw_events(all.take(i as int)),
        decreases devices@.len() - i,
    {
        let d = devices[i];
        let ghost before = event_keys(out@);
        let ghost own = raw_events(d@.id, d@.events);
        assert(all.take(i + 1).drop_last() =~= all.take(i as int));
        assert(all.take(i + 1).last() == d@);
        let mut k: usize = 0;
        assert(before + own.take(0) =~= before);
        while k < d.events.len()
            invariant
                k <= d.events@.len(),
                own == raw_events(d@.id, d@.events),
                event_keys(out@) == before + own.take(k as int),
            decreases d.events@.len() - k,
        {
            let ghost was = event_keys(out@);
            out.push((d.id, d.events[k].raw.clone(), d.events[k].id));
            proof {
                assert(own[k as int] == (d.id, d.events@[k as int].raw@, d.events@[k as int].id));
                assert(event_keys(out@) =~= was.push(own[k as int]));
                assert(own.take(k + 1) =~= own.take(k as int).push(own[k as int]));
                assert(event_keys(out@) =~= before + own.take(k + 1));
            }
            k += 1;
        }
        assert(own.take(k as int) =~= own);
        i += 1;
    }
    assert(all.take(i as int) =~= all);
    out
}

pub open spec fn capability_lists(s: Seq<(DeviceId, Vec<CapabilityKind>)>) -> Seq<
    (DeviceId, Seq<CapabilityKind>),
> {
    s.map_values(|c: (DeviceId, Vec<CapabilityKind>)| (c.0, c.1@))
}

/// What each of an adapter's devices declares.
pub fn declared_capabilities(devices: &Vec<&DeviceDef>) -> (r: Vec<(DeviceId, Vec<CapabilityKind>)>)
    ensures
        capability_lists(r@) == views(devices@).map_values(|d: DeviceV| (d.id, d.capabilities)),
{
    let mut out: Vec<(DeviceId, Vec<CapabilityKind>)> = Vec::new();
    let mut i: usize = 0;
    while i < devices.len()
        invariant
            i <= devices@.len(),
            out@.len() == i,
            forall|j: int|
                0 <= j < i ==> (#[trigger] out@[j]).0 == devices@[j].id && out@[j].1@
                    == devices@[j].capabilities@,
        decreases devices@.len() - i,
    {
        out.push((devices[i].id, copy_capabilities(&devices[i].capabilities)));
        i += 1;
    }
    assert(capability_lists(out@) =~= views(devices@).map_values(
        |d: DeviceV| (d.id, d.capabilities),
    ));
    out
}

// ------------------------------------------------------------ the clock

/// The time zone that the clock shows.
pub open spec fn clock_zone(timezone: Seq<char>) -> Seq<char> {
    if is_timezone(timezone) {
        timezone
    } else {
        "UTC"@
    }
}

/// The schedules that the clock fires: those whose expression is one.
pub open spec fn clock_schedules(schedules: Seq<ScheduleV>) -> Seq<ArmedV>
    decreases schedules.len(),
{
    if schedules.len() == 0 {
        Seq::empty()
    } else {
        let before = clock_schedules(schedules.drop_last());
        let s = schedules.last();
        if cron_fault(s.cron) is None {
            before.push(ArmedV { id: s.id, cron: s.cron, next_fire: None, armed: false })
        } else {
            before
        }
    }
}

/// The configured schedules as the clock fires them. The resolver has checked every
/// expression; one that does not parse is dropped.
pub fn compiled_schedules(cfg: &CompiledConfig) -> (r: Vec<(ScheduleId, CronExpr)>)
    ensures
        r@.map_values(
            |s: (ScheduleId, CronExpr)|
                ArmedV { id: s.0, cron: s.1.text(), next_fire: None, armed: false },
        ) == clock_schedules(cfg@.schedules),
{
    let mut out: Vec<(ScheduleId, CronExpr)> = Vec::new();
    let ghost show = |s: (ScheduleId, CronExpr)|
        ArmedV { id: s.0, cron: s.1.text(), next_fire: None, armed: false };
    let ghost all = cfg@.schedules;
    proof {
        cfg.view_is_public();
        assert(out@.map_values(show) =~= clock_schedules(all.take(0)));
    }
    let mut i: usize = 0;
    while i < cfg.schedules.len()
        invariant
            i <= cfg.schedules@.len(),
            all == super::resolve::schedule_views(cfg.schedules@),
            show == (|s: (ScheduleId, CronExpr)|
                ArmedV { id: s.0, cron: s.1.text(), next_fire: None, armed: false }),
            out@.map_values(show) == clock_schedules(all.take(i as int)),
        decreases cfg.schedules@.len() - i,
    {
        let s = &cfg.schedules[i];
        let ghost before = out@;
        assert(all.take(i + 1).drop_last() =~= all.take(i as int));
        assert(all.take(i + 1).last() == s@);
        if let Some(cron) = CronExpr::parse(s.cron.as_str()) {
            let ghost entry = (s.id, cron);
            out.push((s.id, cron));
            assert(out@.map_values(show) =~= before.map_values(show).push(show(entry)));
        }
        i += 1;
    }
    assert(all.take(i as int) =~= all);
    out
}

/// The clock of a configuration: its device, booted at an instant, in the configured
/// time zone, with the configured schedules.
pub open spec fn clock_of(cfg: Resolution, epoch: int) -> ClockV {
    ClockV {
        device: cfg.clock,
        epoch,
        tz: clock_zone(cfg.system.timezone),
        latitude: cfg.system.latitude,
        longitude: cfg.system.longitude,
        last_minute: None,
        schedules: clock_schedules(cfg.schedules),
        sun: None,
        asked: Seq::empty(),
    }
}

/// Build the clock of a configuration, unless there is no time zone for it.
pub fn build_clock(cfg: &CompiledConfig, epoch: Epoch) -> (r: Option<ClockAdapter>)
    ensures
        match r {
            Some(c) => is_timezone(clock_zone(cfg@.system.timezone)) && c@ == clock_of(
                cfg@,
                epoch.ms(),
            ) && c.heard() == Some(Seq::<Call>::empty()),
            None => !is_timezone(clock_zone(cfg@.system.timezone)),
        },
{
    proof {
        cfg.view_is_public();
    }
    let zone = match Zone::parse(cfg.system.timezone.as_str()) {
        Some(z) => z,
        None => match Zone::parse("UTC") {
            Some(z) => z,
            None => {
                return None;
            },
        },
    };
    let clock = ClockAdapter::new(
        cfg.clock_device(),
        epoch,
        zone,
        cfg.system.latitude.as_str(),
        cfg.system.longitude.as_str(),
    );
    Some(clock.with_schedules(compiled_schedules(cfg)))
}

// ------------------------------------------------------------ the engine

/// How many of the first `n` adapters take commands.
pub open spec fn southbound_among(built: Seq<Built>, n: nat) -> nat
    decreases n,
{
    if n == 0 || n > built.len() {
        0
    } else {
        southbound_among(built, (n - 1) as nat) + if built[n - 1] is Southbound {
            1nat
        } else {
            0
        }
    }
}

/// How many of the first `n` adapters mirror devices.
pub open spec fn northbound_among(built: Seq<Built>, n: nat) -> nat
    decreases n,
{
    if n == 0 || n > built.len() {
        0
    } else {
        northbound_among(built, (n - 1) as nat) + if built[n - 1] is Northbound {
            1nat
        } else {
            0
        }
    }
}

/// The places of those among the first `n` adapters that take commands.
pub open spec fn places_among(built: Seq<Built>, n: nat) -> Seq<Place>
    decreases n,
{
    if n == 0 || n > built.len() {
        Seq::empty()
    } else {
        match built[n - 1] {
            Built::Southbound(adapter) => places_among(built, (n - 1) as nat).push(
                Place {
                    joined: 0,
                    before: adapter.heard(),
                    manner: adapter.manner(),
                    clock: adapter.clock(),
                },
            ),
            _ => places_among(built, (n - 1) as nat),
        }
    }
}

/// The places of those among the first `n` adapters that mirror devices.
pub open spec fn mirrors_among(built: Seq<Built>, n: nat) -> Seq<Mirror>
    decreases n,
{
    if n == 0 || n > built.len() {
        Seq::empty()
    } else {
        match built[n - 1] {
            Built::Northbound(adapter) => mirrors_among(built, (n - 1) as nat).push(
                Mirror { joined: 0, before: adapter.heard() },
            ),
            _ => mirrors_among(built, (n - 1) as nat),
        }
    }
}

/// The engine's number of a configured adapter: the scheduler is 0, and the others
/// follow in their order.
pub open spec fn slot(built: Seq<Built>, adapter: nat) -> nat {
    1 + southbound_among(built, adapter)
}

/// The first `n` devices, bound to the adapters they were configured for.
pub open spec fn bound_to(devices: Seq<DeviceV>, built: Seq<Built>, n: nat) -> Map<
    DeviceId,
    AdapterIdx,
>
    decreases n,
{
    if n == 0 || n > devices.len() {
        Map::empty()
    } else {
        bound_to(devices, built, (n - 1) as nat).insert(
            devices[n - 1].id,
            slot(built, devices[n - 1].adapter as nat) as usize,
        )
    }
}

/// The first `n` scenes.
pub open spec fn installed(scenes: Seq<SceneV>, n: nat) -> Map<SceneId, Seq<CommandV>>
    decreases n,
{
    if n == 0 || n > scenes.len() {
        Map::empty()
    } else {
        installed(scenes, (n - 1) as nat).insert(scenes[n - 1].id, scenes[n - 1].commands)
    }
}

/// Whether an engine can be built: every device is bound to an adapter that takes
/// commands, and there is a time zone for the clock.
pub open spec fn buildable(cfg: Resolution, built: Seq<Built>) -> bool {
    &&& forall|i: int|
        0 <= i < cfg.devices.len() ==> (#[trigger] cfg.devices[i]).adapter < built.len()
            && built[cfg.devices[i].adapter as int] is Southbound
    &&& is_timezone(clock_zone(cfg.system.timezone))
}

fn devices_fit(devices: &Vec<DeviceDef>, built: &Vec<Built>) -> (r: bool)
    ensures
        r == (forall|i: int|
            0 <= i < device_views(devices@).len() ==> (#[trigger] device_views(
                devices@,
            )[i]).adapter < built@.len() && built@[device_views(devices@)[i].adapter as int] is Southbound),
{
    let ghost all = device_views(devices@);
    let mut i: usize = 0;
    while i < devices.len()
        invariant
            i <= devices@.len(),
            all == device_views(devices@),
            forall|j: int|
                0 <= j < i ==> (#[trigger] all[j]).adapter < built@.len()
                    && built@[all[j].adapter as int] is Southbound,
        decreases devices@.len() - i,
    {
        assert(all[i as int] == devices@[i as int]@);
        let at: usize = devices[i].adapter;
        let ok = at < built.len() && matches!(built[at], Built::Southbound(_));
        if !ok {
            return false;
        }
        i += 1;
    }
    true
}

/// Construct an engine from a compiled configuration: register each adapter, bind
/// every device, wire the clock, install the scenes and load the rules. `built` holds
/// what the host built for each configured adapter, in their order; the engine's clock
/// starts at 0, and its wall instant is the epoch plus the engine's `now`.
pub fn build_engine(cfg: &CompiledConfig, built: Vec<Built>, epoch: Epoch) -> (r: Option<Engine>)
    requires
        built@.len() < usize::MAX - 2,
    ensures
        match r {
            None => !buildable(cfg@, built@),
            Some(e) => {
                let south = southbound_among(built@, built@.len());
                &&& buildable(cfg@, built@)
                &&& e.wf()
                &&& e.current() == fresh()
                &&& e.wiring().now == 0
                &&& rule_views(e.wiring().rules) == cfg@.rules
                &&& e.wiring().scenes == installed(cfg@.scenes, cfg@.scenes.len())
                &&& e.wiring().bound == bound_to(cfg@.devices, built@, cfg@.devices.len()).insert(
                    cfg@.clock,
                    (south + 1) as usize,
                )
                &&& e.wiring().adapters == south + 2
                &&& e.wiring().places.drop_last() == places_among(built@, built@.len())
                &&& e.wiring().places.last().clock == Some(clock_of(cfg@, epoch.ms()))
                &&& e.wiring().places.last().before == Some(Seq::<Call>::empty())
                &&& e.wiring().mirrors == mirrors_among(built@, built@.len())
                &&& e.wiring().northbound == northbound_among(built@, built@.len())
                &&& e.wiring().joined == Seq::<nat>::empty()
                &&& e.wiring().retry == (RetryPolicy { max_attempts: 3, base_backoff: 1000 })
                &&& e.wiring().max_depth == 32
            },
        },
{
    proof {
        cfg.view_is_public();
    }
    let clock = match build_clock(cfg, epoch) {
        Some(c) => c,
        None => {
            return None;
        },
    };
    if !devices_fit(&cfg.devices, &built) {
        return None;
    }
    let mut engine = Engine::new();
    let ghost base = engine.wiring();
    let ghost quiet = engine.current();

    let mut rest = built;
    let n: usize = rest.len();
    let mut slots: Vec<AdapterIdx> = Vec::new();
    let mut i: usize = 0;
    while i < n
        invariant
            i <= n == built@.len(),
            n < usize::MAX - 2,
            rest@ == built@.skip(i as int),
            slots@.len() == i,
            forall|j: int|
                0 <= j < i && built@[j] is Southbound ==> #[trigger] slots@[j] == slot(
                    built@,
                    j as nat,
                ) && slots@[j] <= southbound_among(built@, i as nat),
            engine.wf(),
            engine.current() == quiet,
            quiet == fresh(),
            southbound_among(built@, i as nat) <= i,
            engine.wiring() == (Wiring {
                adapters: 1 + southbound_among(built@, i as nat),
                places: places_among(built@, i as nat),
                northbound: northbound_among(built@, i as nat),
                mirrors: mirrors_among(built@, i as nat),
                ..base
            }),
        decreases n - i,
    {
        let b = rest.remove(0);
        assert(b == built@[i as int]);
        assert(rest@ =~= built@.skip(i + 1));
        let ghost placed = slots@;
        match b {
            Built::Southbound(adapter) => {
                let held = hold_adapter(adapter);
                let idx: usize = engine.add_held_adapter(held);
                slots.push(idx);
            },
            Built::Northbound(adapter) => {
                let held = hold_northbound(adapter);
                engine.add_held_northbound(held);
                slots.push(usize::MAX);
            },
            Built::Nothing => {
                slots.push(usize::MAX);
            },
        }
        proof {
            assert forall|j: int| 0 <= j < i + 1 && built@[j] is Southbound implies
                #[trigger] slots@[j] == slot(built@, j as nat) && slots@[j] <= southbound_among(
                built@,
                (i + 1) as nat,
            ) by {
                if j < i {
                    assert(slots@[j] == placed[j]);
                }
            }
        }
        i += 1;
    }

    let ghost south = southbound_among(built@, built@.len());
    let ghost devices = cfg@.devices;
    let mut k: usize = 0;
    while k < cfg.devices.len()
        invariant
            k <= cfg.devices@.len(),
            devices == device_views(cfg.devices@),
            slots@.len() == built@.len(),
            south == southbound_among(built@, built@.len()),
            forall|j: int|
                0 <= j < built@.len() && built@[j] is Southbound ==> #[trigger] slots@[j] == slot(
                    built@,
                    j as nat,
                ) && slots@[j] <= south,
            forall|j: int|
                0 <= j < devices.len() ==> (#[trigger] devices[j]).adapter < built@.len()
                    && built@[devices[j].adapter as int] is Southbound,
            engine.wf(),
            engine.current() == quiet,
            engine.wiring() == (Wiring {
                adapters: 1 + south,
                places: places_among(built@, built@.len()),
                northbound: northbound_among(built@, built@.len()),
                mirrors: mirrors_among(built@, built@.len()),
                bound: bound_to(devices, built@, k as nat),
                ..base
            }),
        decreases cfg.devices@.len() - k,
    {
        let d = &cfg.devices[k];
        assert(devices[k as int] == d@);
        engine.bind_device(d.id, slots[d.adapter]);
        k += 1;
    }

    let clock_idx: usize = engine.add_adapter(Box::new(clock));
    assert(engine.wiring().places.drop_last() =~= places_among(built@, built@.len()));
    engine.bind_device(cfg.clock_device(), clock_idx);

    let ghost wired = engine.wiring();
    let ghost scenes = cfg@.scenes;
    let mut m: usize = 0;
    while m < cfg.scenes.len()
        invariant
            m <= cfg.scenes@.len(),
            scenes == scene_views(cfg.scenes@),
            engine.wf(),
            engine.current() == quiet,
            engine.wiring() == (Wiring {
                scenes: installed(scenes, m as nat),
                ..wired
            }),
        decreases cfg.scenes@.len() - m,
    {
        let s = &cfg.scenes[m];
        assert(scenes[m as int] == s@);
        engine.add_scene(s.id, clone_commands(&s.commands));
        m += 1;
    }

    let ghost staged = engine.wiring();
    let ghost rules = cfg@.rules;
    let mut p: usize = 0;
    assert(rule_views(engine.wiring().rules) =~= rules.take(0));
    while p < cfg.rules.len()
        invariant
            p <= cfg.rules@.len(),
            rules == rule_views(cfg.rules@),
            engine.wf(),
            engine.current() == quiet,
            rule_views(engine.wiring().rules) == rules.take(p as int),
            engine.wiring() == (Wiring {
                rules: engine.wiring().rules,
                ..staged
            }),
        decreases cfg.rules@.len() - p,
    {
        let ghost before = engine.wiring().rules;
        let rule = cfg.rules[p].clone();
        assert(rules[p as int] == rule@);
        let ghost copy = rule;
        engine.add_rule(rule);
        proof {
            assert(rule_views(engine.wiring().rules) =~= rule_views(before).push(copy@));
            assert(rules.take(p + 1) =~= rules.take(p as int).push(rules[p as int]));
        }
        p += 1;
    }
    assert(rules.take(p as int) =~= rules);
    Some(engine)
}

/// A configuration that compiled can be built, as long as the host built something for
/// every adapter that takes commands.
pub proof fn compiled_configurations_can_be_built(x: Scope, cfg: Resolution, built: Seq<Built>)
    requires
        sound(x, cfg),
        built.len() == cfg.adapters.len(),
        forall|i: int|
            0 <= i < built.len() && !is_northbound(cfg.adapters[i].kind) ==> (#[trigger]
            built[i]) is Southbound,
    ensures
        buildable(cfg, built),
{
}

} // verus!
