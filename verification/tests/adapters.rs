use std::cell::RefCell;
use std::rc::Rc;

use domiform::adapters::interfaces::{is_tunnel, select_interface, IfAddress, Interface};
use domiform::adapters::matter;
use domiform::adapters::matter::{fold_hue_sat, HueSat};
use domiform::adapters::matter_bridge::{
    dimmable, hooks_for, mirror_engine_state, ColorTarget,
};
use domiform::adapters::matter_device::{
    default_state_name, device_type_for, ep_of, index_of, matter_to_pct, pct_to_matter,
    ExposedDevice, InMemoryMatter, LightCells, MatterDeviceAdapter, MatterDeviceType,
};
use domiform::adapters::mock_northbound::MockNorthbound;
use domiform::adapters::virtual_device::VirtualDeviceAdapter;
use domiform::adapters::zigbee2mqtt::{command_to_publish, parse_mqtt_url, Load};
use domiform::adapters::zwavejs;
use domiform::adapters::{level_to_pct, pct_to_level, NorthboundAdapter};
use domiform::json::{read_json, write_json, Json};
use domiform::model::Desired;
use domiform::{
    ActionId, Adapter, AttrReport, CapabilityKind, CapabilityState, ClusterCommand, Command,
    DeviceId, DeviceKind, DispatchOutcome, EndpointId, Event, MatterAdapter, MatterController,
    MqttMessage, MqttTransport, NodeId, SetValue, ValueUpdate, Zigbee2MqttAdapter, ZwaveAdapter,
    ZwaveClient,
};

const LAMP: DeviceId = DeviceId(1);

fn on() -> Command {
    Command::SetSwitch {
        device: LAMP,
        on: true,
    }
}

fn reported(state: CapabilityState) -> Event {
    Event::StateReported {
        device: LAMP,
        state,
    }
}

// ------------------------------------------------------------ zigbee2mqtt

#[derive(Default)]
struct Wire {
    sent: Vec<(String, String)>,
    inbound: Vec<MqttMessage>,
    down: bool,
}

struct FakeMqtt(Rc<RefCell<Wire>>);

impl MqttTransport for FakeMqtt {
    fn publish(&mut self, topic: &str, payload: &[u8]) -> Result<(), String> {
        let mut wire = self.0.borrow_mut();
        if wire.down {
            return Err("broker is gone".to_string());
        }
        wire.sent.push((
            topic.to_string(),
            String::from_utf8(payload.to_vec()).unwrap(),
        ));
        Ok(())
    }

    fn poll(&mut self) -> Vec<MqttMessage> {
        std::mem::take(&mut self.0.borrow_mut().inbound)
    }
}

fn z2m() -> (Zigbee2MqttAdapter, Rc<RefCell<Wire>>) {
    let wire = Rc::new(RefCell::new(Wire::default()));
    let adapter = Zigbee2MqttAdapter::new(
        "zigbee2mqtt",
        vec![(LAMP, "hall lamp".to_string())],
        vec![(LAMP, "single".to_string(), ActionId(4))],
        vec![(LAMP, vec![CapabilityKind::Switch, CapabilityKind::Battery])],
        Box::new(FakeMqtt(wire.clone())),
    );
    (adapter, wire)
}

#[test]
fn z2m_publishes_commands() {
    let (mut z, wire) = z2m();
    assert_eq!(z.dispatch(&on(), 0), DispatchOutcome::ok());
    z.dispatch(
        &Command::SetBrightness {
            device: LAMP,
            value: 50,
            transition: Some(2500),
        },
        0,
    );
    assert_eq!(
        wire.borrow().sent,
        [
            (
                "zigbee2mqtt/hall lamp/set".to_string(),
                "{\"state\":\"ON\"}".to_string()
            ),
            (
                "zigbee2mqtt/hall lamp/set".to_string(),
                "{\"brightness\":127,\"transition\":2}".to_string()
            ),
        ]
    );
    wire.borrow_mut().down = true;
    assert!(matches!(
        z.dispatch(&on(), 0),
        DispatchOutcome::Transient(_)
    ));
    assert!(matches!(
        z.dispatch(&Command::ToggleSwitch { device: DeviceId(9) }, 0),
        DispatchOutcome::Permanent(_)
    ));
    assert_eq!(
        command_to_publish(
            "b",
            "f",
            &Command::SetColor {
                device: LAMP,
                r: 1,
                g: 2,
                b: 3,
                transition: None
            }
        ),
        None
    );
}

#[test]
fn z2m_asks_for_state_once_and_folds_reports() {
    let (mut z, wire) = z2m();
    assert!(z.tick(0).is_empty());
    assert_eq!(
        wire.borrow().sent,
        [(
            "zigbee2mqtt/hall lamp/get".to_string(),
            "{\"state\":\"\"}".to_string()
        )]
    );
    let say = |topic: &str, payload: &str| MqttMessage {
        topic: topic.to_string(),
        payload: payload.as_bytes().to_vec(),
    };
    wire.borrow_mut().inbound = vec![
        say(
            "zigbee2mqtt/hall lamp",
            "{\"state\":\"on\",\"brightness\":254,\"battery\":140,\"action\":\"single\"}",
        ),
        say("zigbee2mqtt/hall lamp", "{\"action\":\"double\"}"),
        say("zigbee2mqtt/hall lamp/set", "{\"state\":\"OFF\"}"),
        say("zigbee2mqtt/other", "{\"state\":\"OFF\"}"),
        say("zigbee2mqtt/hall lamp", "not json"),
    ];
    assert_eq!(
        z.tick(1),
        [
            reported(CapabilityState::Switch(true)),
            reported(CapabilityState::Brightness(100)),
            reported(CapabilityState::Battery(100)),
            Event::Action {
                device: LAMP,
                action: ActionId(4)
            },
        ]
    );
    assert_eq!(wire.borrow().sent.len(), 1);
}

#[test]
fn z2m_tells_the_loads_of_a_multi_gang_device_apart() {
    let wire = Rc::new(RefCell::new(Wire::default()));
    let second = DeviceId(8);
    let gang = |n: u16| Load {
        name: "wall".to_string(),
        gang: Some(n),
    };
    let mut z = Zigbee2MqttAdapter::with_loads(
        "zigbee2mqtt",
        vec![(LAMP, gang(1)), (second, gang(2))],
        vec![],
        vec![
            (LAMP, vec![CapabilityKind::Switch]),
            (second, vec![CapabilityKind::Switch]),
        ],
        Box::new(FakeMqtt(wire.clone())),
    );
    z.tick(0);
    z.dispatch(&Command::ToggleSwitch { device: second }, 0);
    z.dispatch(&on(), 0);
    let bodies: Vec<String> = wire.borrow().sent.iter().map(|s| s.1.clone()).collect();
    assert_eq!(
        bodies,
        [
            "{\"state_l1\":\"\"}",
            "{\"state_l2\":\"\"}",
            "{\"state_l2\":\"TOGGLE\"}",
            "{\"state_l1\":\"ON\"}",
        ]
    );
    wire.borrow_mut().inbound = vec![MqttMessage {
        topic: "zigbee2mqtt/wall".to_string(),
        payload: b"{\"state\":\"ON\",\"state_l1\":\"ON\",\"state_l2\":\"OFF\"}".to_vec(),
    }];
    assert_eq!(
        z.tick(1),
        [
            reported(CapabilityState::Switch(true)),
            Event::StateReported {
                device: second,
                state: CapabilityState::Switch(false)
            },
        ]
    );
}

#[test]
fn a_color_takes_no_other_attribute() {
    let report = |attribute: u32| AttrReport {
        node: NodeId(1),
        endpoint: EndpointId(1),
        cluster: 0x0300,
        attribute,
        value: Json::Whole(7),
    };
    let mut pair = HueSat {
        hue: None,
        sat: Some(9),
    };
    assert_eq!(fold_hue_sat(&mut pair, LAMP, &report(0x0007)), None);
    assert_eq!(pair.hue, None);
    assert!(fold_hue_sat(&mut pair, LAMP, &report(0x0008)).is_some());
}

#[test]
fn json_keeps_the_last_member_of_each_key_in_order() {
    let j = Json::object()
        .with("b", Json::Whole(1))
        .with("a", Json::List(vec![Json::Negative(-2), Json::Negative(3)]))
        .with("b", Json::Text("\u{e9}\n".to_string()));
    let text = write_json(&j);
    assert_eq!(text, "{\"a\":[-2,3],\"b\":\"\u{e9}\\n\"}");
    let back = read_json(text.as_bytes()).unwrap();
    assert_eq!(
        back,
        Json::object()
            .with("a", Json::List(vec![Json::Negative(-2), Json::Whole(3)]))
            .with("b", Json::Text("\u{e9}\n".to_string()))
    );
    assert_eq!(write_json(&back), text);
}

#[test]
fn broker_urls_are_taken_apart() {
    let at = |url| parse_mqtt_url(url);
    assert_eq!(at("mqtt://core:1884"), Some(("core".to_string(), 1884)));
    assert_eq!(at("tcp://core"), Some(("core".to_string(), 1883)));
    assert_eq!(at("core:1"), Some(("core".to_string(), 1)));
    assert_eq!(at("mqtt://core:port"), None);
    assert_eq!(at("mqtt://core:70000"), None);
}

#[test]
fn levels_and_percentages_convert_to_nearest() {
    assert_eq!((pct_to_level(0), pct_to_level(50), pct_to_level(100)), (0, 127, 254));
    assert_eq!((level_to_pct(0), level_to_pct(127), level_to_pct(254)), (0, 50, 100));
    assert_eq!(level_to_pct(9999), 100);
    assert_eq!((zwavejs::pct_to_zwave(50), zwavejs::zwave_to_pct(99)), (50, 100));
}

// ------------------------------------------------------------ matter

#[derive(Default)]
struct Controller {
    invoked: Vec<(u64, u16, ClusterCommand)>,
    inbound: Vec<AttrReport>,
}

struct FakeController(Rc<RefCell<Controller>>);

impl MatterController for FakeController {
    fn invoke(
        &mut self,
        node: NodeId,
        endpoint: EndpointId,
        cmd: &ClusterCommand,
    ) -> Result<(), String> {
        self.0.borrow_mut().invoked.push((node.0, endpoint.0, *cmd));
        Ok(())
    }

    fn poll(&mut self) -> Vec<AttrReport> {
        std::mem::take(&mut self.0.borrow_mut().inbound)
    }
}

#[test]
fn matter_invokes_and_folds() {
    let seam = Rc::new(RefCell::new(Controller::default()));
    let mut m = MatterAdapter::new(
        vec![(LAMP, NodeId(5), EndpointId(1))],
        Box::new(FakeController(seam.clone())),
    );
    m.dispatch(&on(), 0);
    m.dispatch(
        &Command::SetColor {
            device: LAMP,
            r: 255,
            g: 0,
            b: 0,
            transition: Some(300),
        },
        0,
    );
    assert_eq!(
        seam.borrow().invoked,
        [
            (5, 1, ClusterCommand::OnOff(true)),
            (
                5,
                1,
                ClusterCommand::MoveToHueAndSaturation {
                    hue: 0,
                    saturation: 254,
                    transition_ds: 3
                }
            ),
        ]
    );
    seam.borrow_mut().inbound = matter::parse_inbound(
        "{\"result\":[{\"node_id\":5,\"attributes\":{\"1/6/0\":true,\"1/768/8\":0,\"1/768/9\":254,\"1/8/0\":127}}]}",
    );
    assert_eq!(
        m.tick(0),
        [
            reported(CapabilityState::Switch(true)),
            reported(CapabilityState::Color { r: 255, g: 0, b: 0 }),
            reported(CapabilityState::Brightness(50)),
        ]
    );
}

#[test]
fn matter_frames_are_written_and_read() {
    assert_eq!(
        matter::invoke_frame(7, NodeId(5), EndpointId(1), &ClusterCommand::OnOff(false)),
        "{\"args\":{\"cluster_id\":6,\"command_name\":\"Off\",\"endpoint_id\":1,\"node_id\":5,\"payload\":{}},\"command\":\"device_command\",\"message_id\":\"7\"}"
    );
    let one = matter::parse_inbound("{\"event\":\"attribute_updated\",\"data\":[5,\"1/8/0\",254]}");
    assert_eq!(one.len(), 1);
    assert_eq!((one[0].node, one[0].endpoint), (NodeId(5), EndpointId(1)));
    assert_eq!((one[0].cluster, one[0].attribute), (8, 0));
    assert_eq!(one[0].value, Json::Whole(254));
    assert!(matter::parse_inbound("{\"event\":\"attribute_updated\",\"data\":[5,\"1/8\",1]}").is_empty());
    assert!(matter::parse_inbound("nonsense").is_empty());
    assert!(matter::parse_inbound("{\"event\":\"node_added\"}").is_empty());
}

// ------------------------------------------------------------ z-wave

#[derive(Default)]
struct Zwave {
    set: Vec<(u32, u16, String, Json)>,
    inbound: Vec<ValueUpdate>,
}

struct FakeZwave(Rc<RefCell<Zwave>>);

impl ZwaveClient for FakeZwave {
    fn set_value(
        &mut self,
        node: zwavejs::NodeId,
        endpoint: zwavejs::EndpointId,
        value: &SetValue,
    ) -> Result<(), String> {
        self.0.borrow_mut().set.push((
            node.0,
            endpoint.0,
            value.property.to_string(),
            value.value.copy(),
        ));
        Ok(())
    }

    fn poll(&mut self) -> Vec<ValueUpdate> {
        std::mem::take(&mut self.0.borrow_mut().inbound)
    }
}

#[test]
fn zwave_sets_and_folds() {
    let seam = Rc::new(RefCell::new(Zwave::default()));
    let mut z = ZwaveAdapter::new(
        vec![(LAMP, zwavejs::NodeId(3), zwavejs::EndpointId(0), DeviceKind::Dimmer)],
        vec![(LAMP, "1:KeyPressed".to_string(), ActionId(2))],
        Box::new(FakeZwave(seam.clone())),
    );
    z.dispatch(&on(), 0);
    assert_eq!(
        seam.borrow().set,
        [(3, 0, "targetValue".to_string(), Json::Whole(255))]
    );
    let frames = [
        "{\"type\":\"event\",\"event\":{\"source\":\"node\",\"event\":\"value updated\",\"nodeId\":3,\"args\":{\"commandClass\":38,\"endpoint\":0,\"property\":\"currentValue\",\"newValue\":99}}}",
        "{\"type\":\"event\",\"event\":{\"source\":\"node\",\"event\":\"value notification\",\"nodeId\":3,\"args\":{\"commandClass\":91,\"endpoint\":0,\"property\":\"scene\",\"propertyKey\":\"001\",\"value\":0}}}",
        "{\"type\":\"event\",\"event\":{\"source\":\"node\",\"event\":\"value updated\",\"nodeId\":3,\"args\":{\"commandClass\":113,\"property\":\"Home Security\",\"newValue\":8}}}",
        "{\"type\":\"event\",\"event\":{\"source\":\"driver\"}}",
    ];
    for f in frames {
        seam.borrow_mut().inbound.extend(zwavejs::parse_inbound(f));
    }
    assert_eq!(
        z.tick(0),
        [
            reported(CapabilityState::Brightness(100)),
            reported(CapabilityState::Switch(true)),
            Event::Action {
                device: LAMP,
                action: ActionId(2)
            },
            Event::OccupancyChanged {
                device: LAMP,
                occupied: true
            },
        ]
    );
}

#[test]
fn zwave_frames_are_written_and_read() {
    let set = zwavejs::command_to_set_value(
        DeviceKind::Switch,
        &Command::SetBrightness {
            device: LAMP,
            value: 100,
            transition: Some(2999),
        },
    )
    .unwrap();
    assert_eq!(
        zwavejs::set_value_frame(9, zwavejs::NodeId(3), zwavejs::EndpointId(2), &set),
        "{\"command\":\"node.set_value\",\"messageId\":\"9\",\"nodeId\":3,\"options\":{\"transitionDuration\":\"2s\"},\"value\":99,\"valueId\":{\"commandClass\":38,\"endpoint\":2,\"property\":\"targetValue\"}}"
    );
    assert_eq!(zwavejs::normalize_button("001"), "1");
    assert_eq!(zwavejs::normalize_button("up"), "up");
    assert!(zwavejs::parse_inbound("{\"result\":{\"state\":{\"nodes\":[{\"nodeId\":3,\"values\":[{\"commandClass\":37,\"property\":\"currentValue\",\"value\":true},{\"commandClass\":37}]}]}}}").len() == 1);
}

// ------------------------------------------------------------ matter device

#[test]
fn a_bridge_mirrors_and_asks() {
    let mut transport = InMemoryMatter::new();
    transport.queue_inbound(LAMP, CapabilityState::Switch(true));
    let mut bridge = MatterDeviceAdapter::new(
        vec![ExposedDevice {
            id: LAMP,
            label: "lamp".to_string(),
            capabilities: vec![CapabilityKind::Switch],
        }],
        Box::new(transport),
    );
    bridge.state_folded(LAMP, &CapabilityState::Switch(false));
    assert_eq!(
        bridge.tick(0),
        [Event::RequestedChange {
            device: LAMP,
            desired: Desired::State(CapabilityState::Switch(true))
        }]
    );
    assert!(bridge.tick(1).is_empty());
    assert!(!bridge.degraded());
    let mut dead = InMemoryMatter::new();
    dead.kill();
    let mut bridge = MatterDeviceAdapter::new(vec![], Box::new(dead));
    bridge.tick(0);
    assert!(bridge.degraded());
}

#[test]
fn endpoints_follow_the_exposed_devices() {
    assert_eq!(
        device_type_for(&vec![CapabilityKind::Switch, CapabilityKind::Brightness]),
        MatterDeviceType::DimmableLight
    );
    assert_eq!(
        device_type_for(&vec![CapabilityKind::Switch]),
        MatterDeviceType::OnOffLight
    );
    for i in 0..3 {
        assert_eq!(index_of(Some(ep_of(i)), 3), Some(i));
    }
    assert_eq!(index_of(Some(ep_of(3)), 3), None);
    assert_eq!(index_of(None, 3), None);
    assert_ne!(default_state_name("a"), default_state_name("b"));
    assert_eq!((pct_to_matter(100), matter_to_pct(254)), (254, 100));
    let mut cells = LightCells::default();
    assert_eq!(cells.set_on_off(true), CapabilityState::Switch(true));
    assert_eq!(cells.set_device_level(127), CapabilityState::Brightness(50));
}

#[test]
fn a_controller_reads_the_truth_and_writes_what_is_declared() {
    let exposed = vec![
        ExposedDevice {
            id: LAMP,
            label: "lamp".to_string(),
            capabilities: vec![CapabilityKind::Switch, CapabilityKind::Brightness],
        },
        ExposedDevice {
            id: DeviceId(2),
            label: "strip".to_string(),
            capabilities: vec![CapabilityKind::Color],
        },
    ];
    assert_eq!(dimmable(&exposed), [true, false]);
    let mut hooks = hooks_for(&exposed);
    assert_eq!(hooks[0].unique_id(), "domiform-lamp");
    assert_eq!((hooks[0].on_off(), hooks[0].current_level()), (false, Some(254)));
    mirror_engine_state(&mut hooks, LAMP, &CapabilityState::Switch(true));
    mirror_engine_state(&mut hooks, LAMP, &CapabilityState::Brightness(0));
    mirror_engine_state(&mut hooks, DeviceId(9), &CapabilityState::Switch(true));
    assert_eq!((hooks[0].on_off(), hooks[0].current_level()), (true, Some(1)));
    assert!(!hooks[1].on_off());
    assert_eq!(
        hooks[0].set_device_level(254),
        (LAMP, CapabilityState::Brightness(100))
    );
    assert_eq!(hooks[0].set_on_off(false), (LAMP, CapabilityState::Switch(false)));
    let red = ColorTarget::Rgb { r: 255, g: 0, b: 0 };
    assert_eq!(hooks[0].set_device_color(red), None);
    assert_eq!(
        hooks[1].set_device_color(red),
        Some((DeviceId(2), CapabilityState::Color { r: 255, g: 0, b: 0 }))
    );
    assert_eq!(
        hooks[1].set_device_color(ColorTarget::Temperature { mireds: 300 }),
        None
    );
}

#[test]
fn a_consumer_sees_the_last_fold_and_requests_changes() {
    let mut nb = MockNorthbound::new();
    nb.state_folded(LAMP, &CapabilityState::Brightness(1));
    nb.state_folded(LAMP, &CapabilityState::Brightness(2));
    assert_eq!(nb.latest(LAMP), Some(CapabilityState::Brightness(2)));
    assert_eq!(nb.latest(DeviceId(8)), None);
    nb.queue_write(LAMP, CapabilityState::Switch(true));
    assert_eq!(nb.tick(0).len(), 1);
    assert!(nb.tick(0).is_empty());
}

#[test]
fn a_virtual_device_is_what_it_was_set_to() {
    let mut v = VirtualDeviceAdapter;
    assert_eq!(
        v.dispatch(&on(), 0),
        DispatchOutcome::echo(reported(CapabilityState::Switch(true)))
    );
    assert_eq!(
        v.dispatch(&Command::ToggleSwitch { device: LAMP }, 0),
        DispatchOutcome::ok()
    );
}

// ------------------------------------------------------------ interfaces

#[test]
fn the_lan_is_announced_and_no_tunnel() {
    let at = |name: &str, ip: u32, index: u32| Interface {
        name: name.to_string(),
        loopback: name == "lo",
        addr: IfAddress::V4(ip),
        index: Some(index),
    };
    assert!(is_tunnel("utun3") && is_tunnel("wg0") && !is_tunnel("eth0"));
    let all = vec![
        at("lo", 0x7f00_0001, 1),
        at("wg0", 0x0a00_0001, 2),
        at("wlan0", 0xc0a8_0005, 3),
        at("eth0", 0xc0a8_0002, 4),
    ];
    let picked = select_interface(&all, None).unwrap();
    assert_eq!(picked.ipv4, 0xc0a8_0002);
    let picked = select_interface(&all, Some("wlan0")).unwrap();
    assert_eq!(picked.ipv4, 0xc0a8_0005);
    assert!(select_interface(&vec![at("lo", 0x7f00_0001, 1)], None).is_none());
}
