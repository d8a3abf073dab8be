use domiform::adapters::clock::Epoch;
use domiform::adapters::mock::MockDeviceAdapter;
use domiform::adapters::mock_northbound::MockNorthbound;
use domiform::adapters::rest_api::describe;
use domiform::adapters::rest_api::http::{
    admit_connection, admit_stream, begin, check_auth, constant_time_eq, is_loopback, serve,
    write_batch, write_response, Request, Served, Step,
};
use domiform::adapters::rest_api::routes::{handle, queued, Response, Routed};
use domiform::adapters::rest_api::stream::{Batch, Frame};
use domiform::adapters::rest_api::{
    considered_frame, failed_frame, folded_frame, received_frame, Directory, Inbound, Mirror,
};
use domiform::adapters::interfaces::IfAddress;
use domiform::compile::assemble::{bound_devices, build_clock, build_engine, compiled_schedules, Built};
use domiform::compile::ast::{
    RawAdapter, RawAdapterConfig, RawBroker, RawConfig, RawController, RawDevice, RawExpose,
    RawExposure, RawMatterDevice, RawOccupancyIs, RawPayloads, RawRule, RawSchedule,
    RawScheduleTimer, RawSendIrCode, RawSetBrightness, RawSetColor, RawSetColorTemperature,
    RawShape, RawSwitchIs, RawSystem, RawValue,
};
use domiform::compile::diagnostic::CompileErrors;
use domiform::compile::resolve::{resolve, CompiledConfig};
use domiform::gui::{asset_at, cluster_stats, html_escape, render_page, Asset, GraphSnapshot};
use domiform::json::{read_json, write_json, Json};
use domiform::model::Desired;
use domiform::names::Names;
use domiform::{
    ActionId, Adapter, CapabilityKind, CapabilityState, Command, DeviceId, Event, RuleId, SceneId,
    ScheduleId, TimerKey, Trigger, Truth,
};

// ------------------------------------------------------------ a configuration

fn no<T>() -> Result<T, String> {
    Err("missing field".to_string())
}

fn blank() -> RawPayloads {
    RawPayloads {
        switch_is: no(),
        occupancy_is: no(),
        set_brightness: no(),
        decrease_brightness: no(),
        increase_brightness: no(),
        set_color: no(),
        set_color_temperature: no(),
        schedule_timer: no(),
        send_ir_code: no(),
    }
}

fn value(shape: RawShape) -> RawValue {
    RawValue {
        shape,
        payload: Box::new(blank()),
    }
}

fn text(s: &str) -> RawValue {
    value(RawShape::Text(s.to_string()))
}

fn entry(verb: &str, v: RawValue) -> RawValue {
    value(RawShape::Fields(vec![(Some(verb.to_string()), v)]))
}

fn node(verb: &str, payload: RawPayloads) -> RawValue {
    entry(
        verb,
        RawValue {
            shape: RawShape::Other,
            payload: Box::new(payload),
        },
    )
}

fn brightness(device: &str, v: u8, transition: Option<&str>) -> RawValue {
    let mut p = blank();
    p.set_brightness = Ok(RawSetBrightness {
        device: device.to_string(),
        value: v,
        transition: transition.map(|t| t.to_string()),
    });
    node("set_brightness", p)
}

fn timer(key: &str, after: &str) -> RawValue {
    let mut p = blank();
    p.schedule_timer = Ok(RawScheduleTimer {
        key: key.to_string(),
        after: after.to_string(),
    });
    node("schedule_timer", p)
}

fn ir(device: &str, code: &str) -> RawValue {
    let mut p = blank();
    p.send_ir_code = Ok(RawSendIrCode {
        device: device.to_string(),
        code: code.to_string(),
    });
    node("send_ir_code", p)
}

fn switch_is(device: &str, on: bool) -> RawValue {
    let mut p = blank();
    p.switch_is = Ok(RawSwitchIs {
        device: device.to_string(),
        on,
    });
    node("switch", p)
}

fn adapter(kind: &str) -> RawAdapter {
    RawAdapter {
        kind: kind.to_string(),
        config: RawAdapterConfig {
            broker: no(),
            controller: no(),
            exposure: no(),
            matter_device: no(),
        },
    }
}

fn device(adapter: &str, caps: &[&str], events: &[(&str, &str)]) -> RawDevice {
    let mut named = Names::new();
    for (name, raw) in events {
        named.insert(name.to_string(), raw.to_string());
    }
    RawDevice {
        adapter: adapter.to_string(),
        address: Some("7".to_string()),
        endpoint: None,
        capabilities: caps.iter().map(|c| c.to_string()).collect(),
        events: named,
        manufacturer: None,
        model: None,
        room: None,
    }
}

fn rule(when: RawValue, guard: Option<RawValue>, commands: Vec<RawValue>) -> RawRule {
    RawRule {
        when,
        guard,
        commands,
    }
}

fn empty() -> RawConfig {
    RawConfig {
        system: RawSystem {
            name: Some("cabin".to_string()),
            timezone: Some("UTC".to_string()),
            latitude: None,
            longitude: None,
            runtime_storage_path: None,
        },
        adapters: Names::new(),
        devices: Names::new(),
        scenes: Names::new(),
        schedules: Names::new(),
        rules: Names::new(),
    }
}

/// A lamp, a motion sensor, a knob that declares events only, and an IR blaster.
fn home() -> RawConfig {
    let mut raw = empty();
    raw.adapters.insert("sim".to_string(), adapter("mock"));
    let mut lamp = device("sim", &["switch", "brightness"], &[]);
    lamp.room = Some("den".to_string());
    raw.devices.insert("lamp".to_string(), lamp);
    raw.devices
        .insert("motion".to_string(), device("sim", &["occupancy"], &[]));
    raw.devices.insert(
        "knob".to_string(),
        device("sim", &[], &[("click", "raw_click"), ("hold", "raw_hold")]),
    );
    raw.devices
        .insert("blaster".to_string(), device("sim", &["ir_transmitter"], &[]));
    raw.scenes.insert(
        "evening".to_string(),
        vec![entry("turn_on", text("lamp")), brightness("lamp", 40, Some("2s"))],
    );
    raw.schedules.insert(
        "dawn".to_string(),
        RawSchedule {
            cron: None,
            daily: Some("06:40".to_string()),
            weekday: None,
            weekend: None,
        },
    );
    raw.rules.insert(
        "click_scene".to_string(),
        rule(
            entry("event", text("knob.click")),
            Some(switch_is("lamp", false)),
            vec![entry("activate_scene", text("evening"))],
        ),
    );
    raw.rules.insert(
        "dawn_off".to_string(),
        rule(
            entry("schedule", text("dawn")),
            None,
            vec![entry("turn_off", text("lamp")), ir("blaster", "QUJD")],
        ),
    );
    raw.rules.insert(
        "motion_on".to_string(),
        rule(
            entry("occupancy", text("motion")),
            None,
            vec![entry("turn_on", text("lamp")), timer("off", "10m")],
        ),
    );
    raw.rules.insert(
        "motion_off".to_string(),
        rule(
            entry("timer", text("off")),
            None,
            vec![entry("turn_off", text("lamp"))],
        ),
    );
    raw
}

fn compiled() -> CompiledConfig {
    resolve(home()).unwrap_or_else(|e| panic!("{}", e.text()))
}

fn errors(raw: RawConfig) -> Vec<String> {
    match resolve(raw) {
        Ok(_) => Vec::new(),
        Err(CompileErrors(ds)) => ds
            .iter()
            .filter(|d| d.is_error())
            .map(|d| d.code.to_string())
            .collect(),
    }
}

fn warnings(raw: RawConfig) -> Vec<String> {
    resolve(raw)
        .unwrap_or_else(|e| panic!("{}", e.text()))
        .warnings
        .iter()
        .map(|d| d.code.to_string())
        .collect()
}

#[test]
fn a_home_compiles_to_numbers() {
    let cfg = compiled();
    assert!(cfg.warnings.iter().all(|w| w.code == "E_NO_CAPABILITIES"));
    assert_eq!(cfg.device_id("blaster"), Some(DeviceId(0)));
    assert_eq!(cfg.device_id("knob"), Some(DeviceId(1)));
    assert_eq!(cfg.device_id("lamp"), Some(DeviceId(2)));
    assert_eq!(cfg.device_id("motion"), Some(DeviceId(3)));
    assert_eq!(cfg.device_id("lmap"), None);
    assert_eq!(cfg.clock_device(), DeviceId(4));
    assert_eq!(cfg.scene_id("evening"), Some(SceneId(0)));
    assert_eq!(cfg.schedule_id("dawn"), Some(ScheduleId(0)));
    assert_eq!(cfg.schedules[0].cron, "40 6 * * *");
    assert_eq!(cfg.action_id(DeviceId(1), "hold"), Some(ActionId(1)));
    assert_eq!(cfg.action_id(DeviceId(1), "spin"), None);
    assert_eq!(
        cfg.scenes[0].commands,
        vec![
            Command::SetSwitch {
                device: DeviceId(2),
                on: true
            },
            Command::SetBrightness {
                device: DeviceId(2),
                value: 40,
                transition: Some(2000)
            },
        ]
    );
    assert_eq!(
        cfg.rules[2].commands,
        vec![Command::SetSwitch {
            device: DeviceId(2),
            on: false
        }]
    );
    assert!(matches!(
        cfg.rules[3].trigger,
        Trigger::Changed {
            device: DeviceId(3),
            kind: CapabilityKind::Occupancy,
            to: true
        }
    ));
    assert_eq!(
        cfg.rules[3].commands[1],
        Command::ScheduleTimer {
            key: TimerKey::new("off"),
            after: 600_000
        }
    );
}

#[test]
fn every_error_is_collected_in_one_pass() {
    let mut raw = home();
    raw.system.timezone = Some("Mars/Olympus".to_string());
    raw.adapters.insert("odd".to_string(), adapter("telepathy"));
    raw.devices
        .insert("ghost".to_string(), device("nowhere", &["switch"], &[]));
    raw.devices
        .insert("vase".to_string(), device("sim", &["levitation"], &[]));
    raw.rules.insert(
        "broken".to_string(),
        rule(
            entry("event", text("knob.spin")),
            None,
            vec![
                entry("turn_on", text("motion")),
                entry("turn_on", text("lmap")),
                entry("activate_scene", text("disco")),
                timer("x", "soon"),
                entry("dance", text("lamp")),
            ],
        ),
    );
    let got = errors(raw);
    for code in [
        "E_BAD_TIMEZONE",
        "E_UNKNOWN_ADAPTER_TYPE",
        "E_UNKNOWN_ADAPTER",
        "E_UNKNOWN_CAPABILITY",
        "E_UNKNOWN_EVENT",
        "E_MISSING_CAPABILITY",
        "E_UNKNOWN_DEVICE",
        "E_UNKNOWN_SCENE",
        "E_BAD_DURATION",
        "E_UNKNOWN_COMMAND",
    ] {
        assert!(got.iter().any(|c| c == code), "{code} in {got:?}");
    }
}

fn with_rule(when: RawValue, guard: Option<RawValue>, commands: Vec<RawValue>) -> Vec<String> {
    let mut raw = home();
    raw.rules
        .insert("extra".to_string(), rule(when, guard, commands));
    errors(raw)
}

#[test]
fn rule_nodes_are_checked() {
    let on = || vec![entry("turn_on", text("lamp"))];
    let click = || entry("event", text("knob.click"));
    assert!(with_rule(click(), None, on()).is_empty());
    assert!(with_rule(text("knob.hold"), None, on()).is_empty());
    assert_eq!(with_rule(text("knob.spin"), None, on()), ["E_UNKNOWN_EVENT"]);
    assert_eq!(with_rule(entry("moonrise", text("x")), None, on()), ["E_UNKNOWN_TRIGGER"]);
    assert_eq!(with_rule(entry("event", text("knob")), None, on()), ["E_BAD_NODE"]);
    assert_eq!(with_rule(text("event"), None, on()), ["E_BAD_NODE"]);
    assert_eq!(
        with_rule(entry("schedule", text("dusk")), None, on()),
        ["E_UNKNOWN_SCHEDULE"]
    );
    assert_eq!(
        with_rule(entry("occupancy", text("lamp")), None, on()),
        ["E_MISSING_CAPABILITY"]
    );
    assert_eq!(
        with_rule(click(), Some(entry("tide", text("high"))), on()),
        ["E_UNKNOWN_CONDITION"]
    );
    assert_eq!(
        with_rule(click(), Some(entry("time_after", text("25:00"))), on()),
        ["E_BAD_TIME"]
    );
    assert!(with_rule(
        click(),
        Some(entry(
            "any",
            value(RawShape::List(vec![
                entry("time_after", text("22:00")),
                entry("not", entry("sun_up", value(RawShape::Flag(true)))),
            ]))
        )),
        on()
    )
    .is_empty());
    let mut p = blank();
    p.occupancy_is = Ok(RawOccupancyIs {
        device: "lamp".to_string(),
        occupied: true,
    });
    assert_eq!(
        with_rule(click(), Some(node("occupancy_is", p)), on()),
        ["E_MISSING_CAPABILITY"]
    );
    let mut p = blank();
    p.set_color = Ok(RawSetColor {
        device: "lamp".to_string(),
        color: text("#12345"),
        transition: None,
    });
    assert_eq!(
        with_rule(click(), None, vec![node("set_color", p)]),
        ["E_MISSING_CAPABILITY", "E_BAD_COLOR"]
    );
    let mut p = blank();
    p.set_color_temperature = Ok(RawSetColorTemperature {
        device: "lamp".to_string(),
        kelvin: Some(2700),
        mireds: Some(370),
        transition: None,
    });
    assert_eq!(
        with_rule(click(), None, vec![node("set_color_temperature", p)]),
        ["E_MISSING_CAPABILITY", "E_BAD_COLOR_TEMP"]
    );
}

#[test]
fn a_node_is_full_of_endpoints_not_of_devices() {
    let bridged = |switches: usize, sensors: usize| {
        let mut raw = home();
        let mut nb = adapter("matter_device");
        nb.config.matter_device = Ok(RawMatterDevice {
            expose: RawExpose::Listed(
                (0..switches)
                    .map(|i| format!("switch{i}"))
                    .chain((0..sensors).map(|i| format!("sensor{i}")))
                    .collect(),
            ),
            runtime_storage_file: None,
            interface: None,
        });
        raw.adapters.insert("bridge".to_string(), nb);
        for i in 0..switches {
            raw.devices
                .insert(format!("switch{i}"), device("sim", &["switch"], &[]));
        }
        for i in 0..sensors {
            raw.devices
                .insert(format!("sensor{i}"), device("sim", &["occupancy"], &[]));
        }
        raw
    };
    assert!(resolve(bridged(64, 30)).is_ok());
    assert!(resolve(bridged(3, 90)).is_ok());
    assert_eq!(errors(bridged(65, 0)), ["E_TOO_MANY_EXPOSED"]);
}

#[test]
fn adapters_and_devices_are_checked() {
    // A broker URL without a port that is one.
    let mut raw = home();
    let mut z = adapter("zigbee2mqtt");
    z.config.broker = Ok(RawBroker {
        url: "mqtt://host:port".to_string(),
        base_topic: "zigbee2mqtt".to_string(),
    });
    raw.adapters.insert("z".to_string(), z);
    assert_eq!(errors(raw), ["E_BAD_URL"]);

    // A block that does not decode.
    let mut raw = home();
    raw.adapters.insert("m".to_string(), adapter("matter"));
    assert_eq!(errors(raw), ["E_ADAPTER_CONFIG"]);

    // A Matter device needs an address that is a node number.
    let mut raw = home();
    let mut m = adapter("matter");
    m.config.controller = Ok(RawController {
        url: "ws://host:5580/ws".to_string(),
    });
    raw.adapters.insert("m".to_string(), m);
    let mut plug = device("m", &["switch"], &[]);
    plug.address = Some("kitchen".to_string());
    raw.devices.insert("plug".to_string(), plug);
    assert_eq!(errors(raw), ["E_BAD_ADDRESS"]);

    // A device cannot hang off an adapter that only exposes others.
    let mut raw = home();
    let mut nb = adapter("mock_northbound");
    nb.config.exposure = Ok(RawExposure {
        expose: RawExpose::Keyword("all".to_string()),
    });
    raw.adapters.insert("nb".to_string(), nb);
    raw.devices
        .insert("lost".to_string(), device("nb", &["switch"], &[]));
    assert_eq!(errors(raw), ["E_NORTHBOUND_ADAPTER"]);

    // What is exposed must exist.
    let mut raw = home();
    let mut nb = adapter("matter_device");
    nb.config.matter_device = Ok(RawMatterDevice {
        expose: RawExpose::Listed(vec!["lamp".to_string(), "lmap".to_string()]),
        runtime_storage_file: None,
        interface: None,
    });
    raw.adapters.insert("nb".to_string(), nb);
    assert_eq!(errors(raw), ["E_UNKNOWN_DEVICE"]);
}

#[test]
fn loose_ends_are_warnings() {
    assert_eq!(warnings(empty()), ["E_NO_DEVICES"]);
    let mut raw = home();
    raw.adapters.insert("idle".to_string(), adapter("virtual"));
    raw.scenes.insert("never".to_string(), vec![]);
    raw.schedules.insert(
        "noon".to_string(),
        RawSchedule {
            cron: Some("0 12 * * *".to_string()),
            daily: None,
            weekday: None,
            weekend: None,
        },
    );
    raw.rules.insert(
        "dangling".to_string(),
        rule(
            entry("timer", text("nobody")),
            None,
            vec![entry("turn_on", text("lamp"))],
        ),
    );
    let got = warnings(raw);
    for code in [
        "E_NO_CAPABILITIES",
        "E_UNUSED_ADAPTER",
        "E_UNUSED_SCENE",
        "E_UNUSED_SCHEDULE",
        "E_DANGLING_TIMER",
    ] {
        assert!(got.iter().any(|c| c == code), "{code} in {got:?}");
    }
}

#[test]
fn schedules_take_exactly_one_form() {
    let with = |cron: Option<&str>, daily: Option<&str>| {
        let mut raw = home();
        raw.schedules.insert(
            "x".to_string(),
            RawSchedule {
                cron: cron.map(|s| s.to_string()),
                daily: daily.map(|s| s.to_string()),
                weekday: None,
                weekend: None,
            },
        );
        errors(raw)
    };
    assert_eq!(with(None, None), ["E_BAD_SCHEDULE"]);
    assert_eq!(with(Some("0 6 * * *"), Some("06:00")), ["E_BAD_SCHEDULE"]);
    assert_eq!(with(None, Some("6h")), ["E_BAD_TIME"]);
    assert_eq!(with(Some("a b c d e"), None), ["E_BAD_CRON"]);
    assert!(with(Some("*/5 * * * *"), None).is_empty());
}

#[test]
fn diagnostics_read_as_text() {
    let mut raw = home();
    raw.devices
        .insert("ghost".to_string(), device("nowhere", &["switch"], &[]));
    let e = match resolve(raw) {
        Err(e) => e,
        Ok(_) => panic!("expected an error"),
    };
    assert!(e
        .text()
        .contains("E_UNKNOWN_ADAPTER"));
    assert!(e.text().contains("references unknown adapter 'nowhere'"));
    assert!(e.text().contains("device 'ghost'"));
}

// ------------------------------------------------------------ an engine

fn boot() -> Epoch {
    // 2024-06-01 06:00 UTC.
    Epoch::at(1_717_221_600_000)
}

fn built(cfg: &CompiledConfig) -> domiform::Engine {
    build_engine(cfg, vec![Built::Southbound(Box::new(MockDeviceAdapter))], boot()).unwrap()
}

#[test]
fn a_compiled_home_runs() {
    let cfg = compiled();
    let lamp = cfg.device_id("lamp").unwrap();
    let motion = cfg.device_id("motion").unwrap();
    let mut engine = built(&cfg);
    assert!(engine.scenes_terminate());
    engine.start();
    assert_eq!(engine.now(), 0);
    assert_eq!(engine.switch_state(lamp), None);
    engine.inject(Event::StateReported {
        device: motion,
        state: CapabilityState::Occupancy(true),
    });
    assert_eq!(engine.switch_state(lamp), Some(true));
    engine.advance(599_999);
    assert_eq!(engine.switch_state(lamp), Some(true));
    engine.advance(1);
    assert_eq!(engine.switch_state(lamp), Some(false));
    assert_eq!(engine.now(), 600_000);
    // The scene of the click, guarded by the lamp being off.
    engine.inject(Event::Action {
        device: cfg.device_id("knob").unwrap(),
        action: ActionId(0),
    });
    assert_eq!(engine.switch_state(lamp), Some(true));
    // The schedule of 06:40 turns it off.
    engine.advance(30 * 60_000);
    assert_eq!(engine.switch_state(lamp), Some(false));
}

#[test]
fn devices_are_grouped_by_adapter() {
    let cfg = compiled();
    let names: Vec<&str> = bound_devices(&cfg.devices, 0)
        .iter()
        .map(|d| d.name.as_str())
        .collect();
    assert_eq!(names, ["blaster", "knob", "lamp", "motion"]);
    assert!(bound_devices(&cfg.devices, 1).is_empty());
    assert_eq!(compiled_schedules(&cfg).len(), 1);
    let mut clock = build_clock(&cfg, boot()).unwrap();
    assert!(clock
        .tick(40 * 60_000)
        .iter()
        .all(|e| !matches!(e, Event::TimeReached { .. })));
}

#[test]
fn a_delay_past_the_end_of_time_is_built() {
    let mut cfg = compiled();
    cfg.rules[0].for_duration = Some(u64::MAX);
    let built = vec![Built::Southbound(Box::new(MockDeviceAdapter))];
    assert!(build_engine(&cfg, built, boot()).is_some());
}

#[test]
fn what_cannot_be_wired_is_not_built() {
    let cfg = compiled();
    // Nothing was built for the adapter that the devices hang off.
    assert!(build_engine(&cfg, vec![Built::Nothing], boot()).is_none());
    assert!(build_engine(
        &cfg,
        vec![Built::Northbound(Box::new(MockNorthbound::new()))],
        boot()
    )
    .is_none());
    assert!(build_engine(&cfg, vec![], boot()).is_none());
}

#[test]
fn a_scene_that_activates_itself_does_not_end() {
    let mut raw = home();
    raw.scenes.insert(
        "loop_a".to_string(),
        vec![entry("activate_scene", text("loop_b"))],
    );
    raw.scenes.insert(
        "loop_b".to_string(),
        vec![entry("activate_scene", text("loop_a"))],
    );
    let cfg = resolve(raw).unwrap_or_else(|e| panic!("{}", e.text()));
    assert!(!built(&cfg).scenes_terminate());
    // A chain does.
    let mut raw = home();
    raw.scenes.insert(
        "all".to_string(),
        vec![entry("activate_scene", text("evening"))],
    );
    let cfg = resolve(raw).unwrap_or_else(|e| panic!("{}", e.text()));
    assert!(built(&cfg).scenes_terminate());
}

// ------------------------------------------------------------ the API

fn get(dir: &Directory, mirror: &Mirror, path: &str) -> (u16, Json) {
    match handle(dir, mirror, "GET", path, b"") {
        Routed::Reply(r) => (r.status, r.json_body()),
        Routed::Request(i) => panic!("unexpected {i:?}"),
    }
}

fn post(dir: &Directory, path: &str, body: &str) -> Result<Inbound, (u16, String)> {
    match handle(dir, &Mirror::default(), "POST", path, body.as_bytes()) {
        Routed::Request(i) => Ok(i),
        Routed::Reply(r) => Err((
            r.status,
            r.value
                .get("error")
                .and_then(|e| e.str_of("code"))
                .cloned()
                .unwrap_or_default(),
        )),
    }
}

#[test]
fn devices_are_read_with_their_state() {
    let dir = Directory::from_config(&compiled());
    let mut mirror = Mirror::default();
    mirror.ticked(1234);
    mirror.state_folded(DeviceId(2), &CapabilityState::Switch(true));
    let (status, lamp) = get(&dir, &mirror, "/devices/lamp/");
    assert_eq!(status, 200);
    assert_eq!(
        write_json(&lamp),
        "{\"capabilities\":{\"brightness\":null,\"switch\":true},\"events\":[],\"name\":\"lamp\",\"room\":\"den\",\"synthetic\":false}"
    );
    let (_, knob) = get(&dir, &mirror, "/devices/knob");
    assert_eq!(
        knob.get("events"),
        Some(&Json::List(vec![Json::text("click"), Json::text("hold")]))
    );
    let (_, clock) = get(&dir, &mirror, "/devices/clock");
    assert_eq!(clock.bool_of("synthetic"), Some(true));
    let (_, all) = get(&dir, &mirror, "/devices");
    assert!(matches!(all.get("devices"), Some(Json::List(l)) if l.len() == 5));
    let (status, system) = get(&dir, &mirror, "/system");
    assert_eq!(status, 200);
    assert_eq!(
        write_json(&system),
        "{\"devices\":5,\"engine_now_ms\":1234,\"name\":\"cabin\",\"rules\":4,\"scenes\":1,\"timezone\":\"UTC\",\"version\":\"0.0.0\"}"
    );
}

#[test]
fn scenes_and_rules_are_read_in_config_names() {
    let dir = Directory::from_config(&compiled());
    let mut mirror = Mirror::default();
    mirror.ticked(50);
    mirror.rule_considered(RuleId(0), Truth::True, true);
    mirror.ticked(70);
    mirror.rule_considered(RuleId(0), Truth::Unknown, false);
    assert_eq!(mirror.rule_status(RuleId(0)).fire_count, 1);
    let (_, scene) = get(&dir, &mirror, "/scenes/evening");
    assert_eq!(
        write_json(&scene),
        "{\"commands\":[{\"device\":\"lamp\",\"on\":true,\"type\":\"set_switch\"},{\"device\":\"lamp\",\"transition_ms\":2000,\"type\":\"set_brightness\",\"value\":40}],\"name\":\"evening\"}"
    );
    let (_, r) = get(&dir, &mirror, "/rules/click_scene");
    assert_eq!(r.u64_of("last_considered_ms"), Some(70));
    assert_eq!(r.str_of("last_truth"), Some(&"unknown".to_string()));
    assert_eq!(r.u64_of("last_fired_ms"), Some(50));
    assert_eq!(r.u64_of("fire_count"), Some(1));
    assert_eq!(
        write_json(r.get("trigger").unwrap()),
        "{\"device\":\"knob\",\"event\":\"click\",\"type\":\"event\"}"
    );
    assert_eq!(
        write_json(r.get("condition").unwrap()),
        "{\"capability\":\"switch\",\"device\":\"lamp\",\"type\":\"bool_equals\",\"value\":false}"
    );
    // An IR code does not reach the wire.
    let (_, dawn) = get(&dir, &mirror, "/rules/dawn_off");
    assert!(!write_json(&dawn).contains("QUJD"));
    assert_eq!(
        write_json(dawn.get("trigger").unwrap()),
        "{\"schedule\":\"dawn\",\"type\":\"time\"}"
    );
    assert_eq!(get(&dir, &mirror, "/rules").0, 200);
    assert_eq!(get(&dir, &mirror, "/scenes").0, 200);
}

#[test]
fn unknown_names_and_wrong_verbs_are_told_apart() {
    let dir = Directory::from_config(&compiled());
    let mirror = Mirror::default();
    for (path, code) in [
        ("/devices/lmap", "unknown_device"),
        ("/scenes/disco", "unknown_scene"),
        ("/rules/none", "unknown_rule"),
        ("/nothing", "unknown_route"),
        ("/", "unknown_route"),
    ] {
        let (status, body) = get(&dir, &mirror, path);
        assert_eq!(status, 404, "{path}");
        assert_eq!(
            body.get("error").unwrap().str_of("code"),
            Some(&code.to_string())
        );
    }
    let (status, body) = get(&dir, &mirror, "/devices/kitchen_lmap");
    assert_eq!(status, 404);
    assert_eq!(
        write_json(&body),
        "{\"error\":{\"code\":\"unknown_device\",\"message\":\"no device named 'kitchen_lmap'\"}}"
    );
    assert_eq!(post(&dir, "/devices", ""), Err((405, "method_not_allowed".to_string())));
    assert_eq!(get(&dir, &mirror, "/devices/lamp/intent").0, 405);
    assert_eq!(
        post(&dir, "/devices/knob/events/spin", ""),
        Err((404, "unknown_event".to_string()))
    );
}

#[test]
fn intents_become_requests() {
    let dir = Directory::from_config(&compiled());
    let lamp = |desired| {
        Ok(Inbound::Device {
            device: DeviceId(2),
            desired,
        })
    };
    let at = "/devices/lamp/intent";
    assert_eq!(
        post(&dir, at, "{\"set\": {\"switch\": true}}"),
        lamp(Desired::State(CapabilityState::Switch(true)))
    );
    assert_eq!(post(&dir, at, "{\"toggle\": {}}"), lamp(Desired::Toggle));
    assert_eq!(
        post(&dir, at, "{\"adjust_brightness\": -10}"),
        lamp(Desired::AdjustBrightness(-10))
    );
    assert_eq!(
        post(&dir, "/devices/blaster/intent", "{\"send_ir_code\": \"QUJD\"}"),
        Ok(Inbound::Device {
            device: DeviceId(0),
            desired: Desired::SendIr("QUJD".to_string())
        })
    );
    assert_eq!(
        post(&dir, "/scenes/evening/activate", ""),
        Ok(Inbound::Scene { scene: SceneId(0) })
    );
    let click = post(&dir, "/devices/knob/events/click", "").unwrap();
    assert_eq!(
        click.into_event(),
        Event::Action {
            device: DeviceId(1),
            action: ActionId(0)
        }
    );
    assert_eq!(queued(true).status, 202);
    assert_eq!(queued(false).status, 503);
}

#[test]
fn malformed_and_unsupported_intents_are_refused() {
    let dir = Directory::from_config(&compiled());
    let at = "/devices/lamp/intent";
    let bad = || Err((400, "malformed_body".to_string()));
    let no = || Err((422, "unsupported_capability".to_string()));
    for body in [
        "",
        "[]",
        "{}",
        "{\"toggle\": {}, \"set\": {}}",
        "{\"set\": 1}",
        "{\"set\": {}}",
        "{\"set\": {\"switch\": true, \"brightness\": 1}}",
        "{\"set\": {\"brightness\": 101}}",
        "{\"adjust_brightness\": 200}",
        "{\"adjust_brightness\": \"x\"}",
        "{\"sing\": 1}",
    ] {
        assert_eq!(post(&dir, at, body), bad(), "{body}");
    }
    assert_eq!(post(&dir, at, "{\"set\": {\"color\": {}}}"), no());
    assert_eq!(post(&dir, at, "{\"set\": {\"levitation\": 1}}"), no());
    assert_eq!(
        post(&dir, "/devices/motion/intent", "{\"set\": {\"occupancy\": true}}"),
        no()
    );
    assert_eq!(post(&dir, "/devices/knob/intent", "{\"toggle\": {}}"), no());
    assert_eq!(
        post(&dir, "/devices/lmap/intent", "{\"toggle\": {}}"),
        Err((404, "unknown_device".to_string()))
    );
    match handle(&dir, &Mirror::default(), "POST", at, b"{\"b\":1,\"a\":2}") {
        Routed::Reply(r) => assert_eq!(
            r.value.get("error").unwrap().str_of("message").unwrap(),
            "body has 2 intents (a, b); expected exactly one"
        ),
        _ => panic!("expected a reply"),
    }
    match handle(&dir, &Mirror::default(), "POST", "/devices/knob/intent", b"{\"toggle\":1}") {
        Routed::Reply(r) => assert_eq!(
            r.value.get("error").unwrap().str_of("message").unwrap(),
            "device 'knob' did not declare 'switch' (it has: no capabilities)"
        ),
        _ => panic!("expected a reply"),
    }
}

#[test]
fn the_stream_speaks_in_config_names() {
    let dir = Directory::from_config(&compiled());
    let data = |f: Frame| write_json(&f.data);
    assert_eq!(
        data(folded_frame(&dir, DeviceId(2), &CapabilityState::Brightness(40))),
        "{\"capability\":\"brightness\",\"device\":\"lamp\",\"value\":40}"
    );
    assert_eq!(
        data(considered_frame(&dir, RuleId(9), Truth::False, false)),
        "{\"fired\":false,\"rule\":\"rule#9\",\"truth\":\"false\"}"
    );
    let press = Event::Action {
        device: DeviceId(1),
        action: ActionId(1),
    };
    assert_eq!(
        data(received_frame(&dir, &press, 2).unwrap()),
        "{\"depth\":2,\"device\":\"knob\",\"event\":\"hold\"}"
    );
    let other = Event::TimerElapsed {
        key: TimerKey::new("x"),
    };
    assert!(received_frame(&dir, &other, 0).is_none());
    let failed = Command::SetSwitch {
        device: DeviceId(77),
        on: true,
    };
    assert_eq!(
        data(failed_frame(&dir, &failed, "timeout", 3)),
        "{\"attempts\":3,\"command\":{\"device\":\"device#77\",\"on\":true,\"type\":\"set_switch\"},\"reason\":\"timeout\"}"
    );
    assert_eq!(
        write_json(&describe::trigger(&dir, &Trigger::CommandFailed { device: None })),
        "{\"device\":null,\"type\":\"command_failed\"}"
    );
}

fn read(lines: &[&str]) -> Result<Request, Response> {
    let mut head = begin(lines.first().copied())?;
    for line in &lines[1..] {
        match head.next(Some(line)) {
            Step::More(next) => head = next,
            Step::Body(done, n) => return done.finish(Some(vec![b'x'; n])),
            Step::Refused(r) => return Err(r),
        }
    }
    match head.next(Some("")) {
        Step::Refused(r) => Err(r),
        _ => panic!("expected a refusal at the end of the input"),
    }
}

#[test]
fn requests_are_read_line_by_line() {
    let q = read(&[
        "POST /devices/lamp/intent?x=1 HTTP/1.1\r\n",
        "Content-length: 3\r\n",
        "AUTHORIZATION:  Bearer t0ken \r\n",
        "\r\n",
    ])
    .unwrap();
    assert_eq!(q.method, "POST");
    assert_eq!(q.path, "/devices/lamp/intent");
    assert_eq!(q.body, b"xxx");
    assert_eq!(q.authorization.as_deref(), Some("Bearer t0ken"));
    let status = |lines: &[&str]| read(lines).unwrap_err().status;
    assert_eq!(status(&[""]), 400);
    assert_eq!(status(&["GET\r\n"]), 400);
    assert_eq!(status(&["GET / HTTP/1.1\r\n", "Content-Length: many\r\n"]), 400);
    assert_eq!(status(&["GET / HTTP/1.1\r\n", "Transfer-Encoding: chunked\r\n"]), 411);
    assert_eq!(
        status(&["GET / HTTP/1.1\r\n", "Content-Length: 65537\r\n", "\r\n"]),
        413
    );
    let long = format!("X: {}\r\n", "y".repeat(9000));
    assert_eq!(status(&["GET / HTTP/1.1\r\n", &long]), 431);
    let mut many = vec!["GET / HTTP/1.1\r\n"];
    many.extend(std::iter::repeat("A: b\r\n").take(64));
    assert_eq!(status(&many), 431);
    // The input ended before the head did.
    assert_eq!(status(&["GET / HTTP/1.1\r\n", "A: b\r\n"]), 431);
    let head = begin(Some("GET / HTTP/1.1")).unwrap();
    assert!(matches!(head.next(None), Step::Refused(r) if r.status == 400));
    let head = begin(Some("GET / HTTP/1.1")).unwrap();
    assert_eq!(head.finish(None).unwrap_err().status, 400);
    assert_eq!(begin(None).unwrap_err().status, 400);
}

#[test]
fn a_configured_token_guards_every_route() {
    let refused = |header: Option<&str>| check_auth("s3cret", header).map_err(|r| r.status);
    assert_eq!(refused(Some("Bearer s3cret")), Ok(()));
    assert_eq!(refused(Some("bEaReR   s3cret ")), Ok(()));
    assert_eq!(refused(None), Err(401));
    assert_eq!(refused(Some("s3cret")), Err(401));
    assert_eq!(refused(Some("Basic s3cret")), Err(401));
    assert_eq!(refused(Some("Bearer S3CRET")), Err(403));
    assert!(constant_time_eq(b"abc", b"abc"));
    assert!(!constant_time_eq(b"abc", b"abd"));
    assert!(!constant_time_eq(b"abc", b"abcd"));

    let dir = Directory::from_config(&compiled());
    let mirror = Mirror::default();
    let request = |path: &str, authorization: Option<&str>| Request {
        method: "GET".to_string(),
        path: path.to_string(),
        body: vec![],
        authorization: authorization.map(|s| s.to_string()),
    };
    let token = Some("s3cret".to_string());
    let status = |s: Served| match s {
        Served::Routed(Routed::Reply(r)) => r.status,
        _ => 0,
    };
    for path in ["/devices", "/stream", "/nothing"] {
        assert_eq!(status(serve(&dir, &mirror, &token, &request(path, None))), 401);
        assert_eq!(
            status(serve(&dir, &mirror, &token, &request(path, Some("Bearer x")))),
            403
        );
    }
    let right = Some("Bearer s3cret");
    assert_eq!(status(serve(&dir, &mirror, &token, &request("/devices", right))), 200);
    assert_eq!(
        serve(&dir, &mirror, &token, &request("/stream/", right)),
        Served::Stream
    );
    assert_eq!(
        serve(&dir, &mirror, &None, &request("/stream", None)),
        Served::Stream
    );
}

#[test]
fn budgets_and_wire_text() {
    assert!(admit_connection(15).is_none());
    assert_eq!(admit_connection(16).unwrap().status, 503);
    assert!(admit_stream(7).is_none());
    assert_eq!(admit_stream(8).unwrap().status, 503);
    assert_eq!(
        write_response(&queued(true)),
        "HTTP/1.1 202 Accepted\r\nContent-Type: application/json\r\nContent-Length: 17\r\nConnection: close\r\n\r\n{\"accepted\":true}"
    );
    assert_eq!(queued(true).body(), b"{\"accepted\":true}");
    let frame = Frame {
        event: "rule",
        data: Json::Null,
    };
    let wire = write_batch(&Batch::Frames {
        frames: vec![frame],
        lagged: true,
    })
    .unwrap();
    assert!(wire.starts_with("event: lagged\n"));
    assert!(wire.ends_with("event: rule\ndata: null\n\n"));
    assert_eq!(write_batch(&Batch::Idle).unwrap(), ": keepalive\n\n");
    assert!(write_batch(&Batch::Done).is_none());
    let home = IfAddress::V4(0x7f00_0001);
    let lan = IfAddress::V4(0xc0a8_0102);
    assert!(is_loopback(home, None));
    assert!(!is_loopback(IfAddress::V4(0), Some(&vec![home])));
    assert!(is_loopback(lan, Some(&vec![home, IfAddress::V6(1)])));
    assert!(!is_loopback(lan, Some(&vec![home, lan])));
    assert!(!is_loopback(lan, None));
}

// ------------------------------------------------------------ the picture

#[test]
fn rules_are_edges_between_devices() {
    let g = GraphSnapshot::from_config(&compiled());
    let labels: Vec<&str> = g.nodes.iter().map(|n| n.label.as_str()).collect();
    // The clock is there because a schedule and a timer originate from it.
    assert_eq!(labels, ["blaster", "knob", "lamp", "motion", "clock"]);
    let edges: Vec<(u32, u32, &str)> = g
        .edges
        .iter()
        .map(|e| (e.from, e.to, e.label.as_str()))
        .collect();
    assert_eq!(
        edges,
        [
            (4, 2, "dawn_off"),
            (4, 0, "dawn_off"),
            (4, 2, "motion_off"),
            (3, 2, "motion_on"),
        ]
    );
    assert_eq!(
        g.edges[0].detail,
        "set lamp off\ntrigger: at schedule 'dawn'"
    );
    assert_eq!(
        g.edges[3].detail,
        "set lamp on\ntrigger: when motion Occupancy → true"
    );
    // One cluster; the knob's only rule activates a scene, so no edge touches it.
    assert_eq!(cluster_stats(&g), (1, 1));
}

#[test]
fn the_page_holds_the_graph_and_no_stray_tag() {
    let mut raw = home();
    raw.system.name = Some("</script><b>".to_string());
    let cfg = resolve(raw).unwrap_or_else(|e| panic!("{}", e.text()));
    let page = render_page(&GraphSnapshot::from_config(&cfg), "STYLE", "SCRIPT");
    assert!(page.contains("<title>&lt;/script&gt;&lt;b&gt; — domiform</title>"));
    assert!(page.contains("{\"system_name\":\"\\u003c/script>\\u003cb>\",\"nodes\":[{\"id\":0,\"label\":\"blaster\"}"));
    assert!(page.contains("5 device(s) · 4 rule edge(s) · 1 cluster(s) · 1 unconnected"));
    assert!(page.contains("<script>SCRIPT</script>"));
    let bare = resolve(empty()).unwrap_or_else(|e| panic!("{}", e.text()));
    let page = render_page(&GraphSnapshot::from_config(&bare), "", "SCRIPT");
    assert!(page.contains("No devices configured."));
    assert!(!page.contains("SCRIPT"));
    assert_eq!(html_escape("a & <b>"), "a &amp; &lt;b&gt;");
    assert_eq!(asset_at("/"), Asset::Page);
    assert_eq!(asset_at("/dagre.js"), Asset::Layout);
    assert_eq!(asset_at("/x"), Asset::Missing);
}

#[test]
fn json_survives_reading_back_a_page() {
    let g = GraphSnapshot::from_config(&compiled());
    let page = render_page(&g, "", "");
    let start = page.find("application/json\">").unwrap() + "application/json\">".len();
    let end = start + page[start..].find("</script>").unwrap();
    let data = read_json(page[start..end].as_bytes()).unwrap();
    assert!(matches!(data.get("edges"), Some(Json::List(l)) if l.len() == 4));
}
