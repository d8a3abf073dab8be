use std::cell::RefCell;
use std::rc::Rc;

use domiform::adapters::mock_northbound::MockNorthbound;
use domiform::adapters::NorthboundAdapter;
use domiform::model::Desired;
use domiform::rule::CrossDir;
use domiform::{
    ActionId, Adapter, CapabilityKind, CapabilityState, Command, Condition, DeviceId,
    DispatchOutcome, Engine, Event, MockDeviceAdapter, Observer, RetryPolicy, Rule, RuleId,
    SceneId, TimerKey, Trigger, Truth,
};

const LAMP: DeviceId = DeviceId(0);
const KNOB: DeviceId = DeviceId(1);

type Log = Rc<RefCell<Vec<String>>>;

struct Recorder(Log);

impl Observer for Recorder {
    fn dispatch_failed(&mut self, _: &Command, reason: &str, transient: bool, attempt: u32) {
        self.0
            .borrow_mut()
            .push(format!("failed {reason} {transient} {attempt}"));
    }

    fn retry_scheduled(&mut self, _: &Command, next_attempt: u32, delay: u64) {
        self.0
            .borrow_mut()
            .push(format!("retry {next_attempt} in {delay}"));
    }

    fn command_failed(&mut self, _: &Command, reason: &str, attempts: u32) {
        self.0
            .borrow_mut()
            .push(format!("gave up {reason} {attempts}"));
    }

    fn cascade_dropped(&mut self, _: &Event, depth: u32) {
        self.0.borrow_mut().push(format!("cascade {depth}"));
    }

    fn rule_considered(&mut self, rule: RuleId, truth: Truth, fired: bool) {
        self.0
            .borrow_mut()
            .push(format!("rule {} {truth:?} {fired}", rule.0));
    }

    fn scene_expanded(&mut self, scene: SceneId, count: usize) {
        self.0
            .borrow_mut()
            .push(format!("scene {} {count}", scene.0));
    }

    fn event_received(&mut self, _: &Event, _: u32) {}

    fn state_folded(&mut self, _: DeviceId, _: &CapabilityState) {}

    fn command_dispatched(&mut self, _: &Command, _: u32) {}
}

struct Named(&'static str, Log);

impl Observer for Named {
    fn event_received(&mut self, _: &Event, depth: u32) {
        self.1.borrow_mut().push(format!("{} {depth}", self.0));
    }

    fn dispatch_failed(&mut self, _: &Command, _: &str, _: bool, _: u32) {}

    fn retry_scheduled(&mut self, _: &Command, _: u32, _: u64) {}

    fn command_failed(&mut self, _: &Command, _: &str, _: u32) {}

    fn cascade_dropped(&mut self, _: &Event, _: u32) {}

    fn state_folded(&mut self, _: DeviceId, _: &CapabilityState) {}

    fn rule_considered(&mut self, _: RuleId, _: Truth, _: bool) {}

    fn command_dispatched(&mut self, _: &Command, _: u32) {}

    fn scene_expanded(&mut self, _: SceneId, _: usize) {}
}

struct Flaky;

impl Adapter for Flaky {
    fn dispatch(&mut self, _: &Command, _: u64) -> DispatchOutcome {
        DispatchOutcome::Transient("busy".to_string())
    }

    fn tick(&mut self, _: u64) -> Vec<Event> {
        Vec::new()
    }

    fn next_wake(&self, _: u64) -> Option<u64> {
        None
    }
}

/// Writes down every call.
struct Scribe(Log);

impl Adapter for Scribe {
    fn dispatch(&mut self, cmd: &Command, now: u64) -> DispatchOutcome {
        self.0.borrow_mut().push(format!("{cmd:?} at {now}"));
        DispatchOutcome::Transient("busy".to_string())
    }

    fn tick(&mut self, now: u64) -> Vec<Event> {
        self.0.borrow_mut().push(format!("tick {now}"));
        Vec::new()
    }

    fn next_wake(&self, _: u64) -> Option<u64> {
        Some(60)
    }
}

/// Writes down every state that is mirrored.
struct Glass(Log);

impl NorthboundAdapter for Glass {
    fn tick(&mut self, now: u64) -> Vec<Event> {
        self.0.borrow_mut().push(format!("tick {now}"));
        Vec::new()
    }

    fn next_wake(&self, _: u64) -> Option<u64> {
        Some(50)
    }

    fn state_folded(&mut self, device: DeviceId, state: &CapabilityState) {
        self.0.borrow_mut().push(format!("{} {state:?}", device.0));
    }
}

fn rule(id: u32, trigger: Trigger, condition: Condition, commands: Vec<Command>) -> Rule {
    Rule {
        id: RuleId(id),
        name: format!("r{id}"),
        trigger,
        condition,
        commands,
        for_duration: None,
    }
}

fn click() -> Event {
    Event::Action {
        device: KNOB,
        action: ActionId(0),
    }
}

fn on_click() -> Trigger {
    Trigger::Action {
        device: KNOB,
        action: ActionId(0),
    }
}

fn engine() -> (Engine, Log) {
    let mut e = Engine::new();
    let idx = e.add_adapter(Box::new(MockDeviceAdapter));
    e.bind_device(LAMP, idx);
    e.bind_device(KNOB, idx);
    let log = Rc::new(RefCell::new(Vec::new()));
    e.add_observer(Box::new(Recorder(log.clone())));
    (e, log)
}

#[test]
fn a_click_toggles_what_is_known() {
    let (mut e, _) = engine();
    e.add_rule(rule(
        0,
        on_click(),
        Condition::Always,
        vec![Command::ToggleSwitch { device: LAMP }],
    ));
    e.start();
    e.inject(Event::StateReported {
        device: LAMP,
        state: CapabilityState::Switch(false),
    });
    e.inject(click());
    assert_eq!(e.switch_state(LAMP), Some(true));
    e.inject(click());
    assert_eq!(e.switch_state(LAMP), Some(false));
}

#[test]
fn an_unknown_condition_does_not_fire() {
    let (mut e, log) = engine();
    e.add_rule(rule(
        3,
        on_click(),
        Condition::BoolEquals {
            device: LAMP,
            kind: CapabilityKind::Switch,
            value: false,
        },
        vec![Command::SetSwitch {
            device: LAMP,
            on: true,
        }],
    ));
    e.start();
    e.inject(click());
    assert_eq!(e.switch_state(LAMP), None);
    assert_eq!(*log.borrow(), ["rule 3 Unknown false"]);
}

#[test]
fn transient_failures_back_off_and_give_up() {
    let mut e = Engine::new();
    let idx = e.add_adapter(Box::new(Flaky));
    e.bind_device(LAMP, idx);
    let log: Log = Rc::new(RefCell::new(Vec::new()));
    e.add_observer(Box::new(Recorder(log.clone())));
    e.set_retry_policy(RetryPolicy {
        max_attempts: 3,
        base_backoff: 100,
    });
    e.start();
    e.inject(Event::RequestedChange {
        device: LAMP,
        desired: Desired::State(CapabilityState::Switch(true)),
    });
    assert_eq!(e.next_wake_delay(), Some(100));
    e.advance(100);
    e.advance(200);
    assert_eq!(
        *log.borrow(),
        [
            "failed busy true 1",
            "retry 2 in 100",
            "failed busy true 2",
            "retry 3 in 200",
            "failed busy true 3",
            "gave up busy 3",
        ]
    );
    assert_eq!(e.next_wake_delay(), None);
    assert_eq!(
        RetryPolicy {
            max_attempts: 9,
            base_backoff: 10
        }
        .backoff(4),
        80
    );
}

#[test]
fn observers_hear_what_follows_their_registration() {
    let (mut e, early) = engine();
    let twin: Log = Rc::new(RefCell::new(Vec::new()));
    e.add_observer(Box::new(Recorder(twin.clone())));
    e.add_rule(rule(5, on_click(), Condition::Always, vec![]));
    e.start();
    e.inject(click());
    let late: Log = Rc::new(RefCell::new(Vec::new()));
    e.add_observer(Box::new(Recorder(late.clone())));
    e.inject(click());
    assert_eq!(*early.borrow(), ["rule 5 True true", "rule 5 True true"]);
    assert_eq!(*twin.borrow(), *early.borrow());
    assert_eq!(*late.borrow(), ["rule 5 True true"]);
}

#[test]
fn observers_are_told_in_registration_order() {
    let mut e = Engine::new();
    let log: Log = Rc::new(RefCell::new(Vec::new()));
    for name in ["first", "second"] {
        e.add_observer(Box::new(Named(name, log.clone())));
    }
    e.start();
    e.inject(click());
    assert_eq!(*log.borrow(), ["first 0", "second 0"]);
}

#[test]
fn the_clock_runs_to_its_end() {
    let (mut e, _) = engine();
    e.start();
    e.inject(click());
    e.advance(5);
    e.advance(u64::MAX - 5);
    assert_eq!(e.now(), u64::MAX);
    // A timer that would fire later still fires at the last instant.
    e.add_rule(rule(
        0,
        on_click(),
        Condition::Always,
        vec![Command::ScheduleTimer {
            key: TimerKey::new("late"),
            after: 7,
        }],
    ));
    e.inject(click());
    assert_eq!(e.next_wake_delay(), Some(0));
}

#[test]
fn a_cascade_of_failures_is_cut_at_the_configured_depth() {
    let mut e = Engine::new();
    let log: Log = Rc::new(RefCell::new(Vec::new()));
    e.add_observer(Box::new(Recorder(log.clone())));
    e.set_max_cascade_depth(2);
    let c = Command::SetSwitch {
        device: DeviceId(1),
        on: true,
    };
    e.add_rule(rule(
        0,
        Trigger::CommandFailed { device: None },
        Condition::Always,
        vec![c.clone()],
    ));
    e.inject(Event::CommandFailed {
        command: c,
        reason: "x".to_string(),
        attempts: 1,
    });
    let count = |what: &str| log.borrow().iter().filter(|l| l.starts_with(what)).count();
    assert_eq!(count("gave up no adapter bound for target device 1"), 3);
    assert_eq!(count("cascade 3"), 1);
    assert_eq!(count("cascade"), 1);
    assert_eq!(count("retry"), 0);
    assert_eq!(e.next_wake_delay(), None);
    assert_eq!(e.now(), 0);
}

#[test]
fn a_request_is_known_only_by_its_echo() {
    let request = || Event::RequestedChange {
        device: LAMP,
        desired: Desired::State(CapabilityState::Switch(true)),
    };
    let mut a = Engine::new();
    a.inject(request());
    assert_eq!(a.switch_state(LAMP), None);
    let mut b = Engine::new();
    let i = b.add_adapter(Box::new(MockDeviceAdapter));
    b.bind_device(LAMP, i);
    b.inject(request());
    assert_eq!(b.switch_state(LAMP), Some(true));
}

#[test]
fn the_deepest_cascade_can_be_asked_for() {
    let (mut e, log) = engine();
    e.set_max_cascade_depth(u32::MAX);
    e.start();
    e.inject(click());
    assert!(log.borrow().is_empty());
}

#[test]
fn an_adapter_hears_every_attempt_at_its_time() {
    let mut e = Engine::new();
    let log: Log = Rc::new(RefCell::new(Vec::new()));
    let idx = e.add_adapter(Box::new(Scribe(log.clone())));
    e.bind_device(LAMP, idx);
    e.inject(Event::RequestedChange {
        device: LAMP,
        desired: Desired::State(CapabilityState::Switch(true)),
    });
    for dt in [999, 1, 1999, 1, 60_000] {
        e.advance(dt);
    }
    let heard: Vec<String> = log
        .borrow()
        .iter()
        .filter(|l| !l.starts_with("tick"))
        .cloned()
        .collect();
    let times: Vec<&str> = heard.iter().map(|l| l.rsplit_once(" at ").unwrap().1).collect();
    assert_eq!(times, ["0", "1000", "3000"]);
    assert_eq!(log.borrow().iter().filter(|l| l.starts_with("tick")).count(), 5);
    assert_eq!(e.next_wake_delay(), Some(60));
}

#[test]
fn northbound_adapters_start_from_the_truth() {
    let (mut e, _) = engine();
    e.inject(Event::StateReported {
        device: LAMP,
        state: CapabilityState::Switch(true),
    });
    let log: Log = Rc::new(RefCell::new(Vec::new()));
    e.add_northbound(Box::new(Glass(log.clone())));
    e.start();
    assert_eq!(*log.borrow(), ["tick 0", "0 Switch(true)"]);
    e.inject(Event::StateReported {
        device: KNOB,
        state: CapabilityState::Contact(false),
    });
    assert_eq!(log.borrow().last().unwrap(), "1 Contact(false)");
    assert_eq!(log.borrow().len(), 3);
    assert_eq!(e.next_wake_delay(), Some(50));
}

#[test]
fn indices_keep_naming_the_same_adapters() {
    let mut e = Engine::new();
    let first: Log = Rc::new(RefCell::new(Vec::new()));
    let second: Log = Rc::new(RefCell::new(Vec::new()));
    assert_eq!(e.add_adapter(Box::new(Scribe(first.clone()))), 1);
    assert_eq!(e.add_adapter(Box::new(Scribe(second.clone()))), 2);
    e.bind_device(LAMP, 1);
    e.inject(Event::RequestedChange {
        device: LAMP,
        desired: Desired::Toggle,
    });
    assert_eq!(first.borrow().len(), 1);
    assert!(second.borrow().is_empty());
}

#[test]
fn a_scene_that_activates_itself_hinders_nobody() {
    let (mut e, log) = engine();
    let again = |scene: u32| Command::ActivateScene {
        scene: SceneId(scene),
    };
    let lit = Command::SetSwitch {
        device: LAMP,
        on: true,
    };
    e.add_scene(SceneId(0), vec![again(1)]);
    e.add_scene(SceneId(1), vec![again(0)]);
    e.add_scene(SceneId(2), vec![lit, again(3)]);
    e.add_scene(SceneId(3), vec![again(9)]);
    assert!(!e.scenes_terminate());
    e.start();
    e.inject(Event::RequestedScene { scene: SceneId(2) });
    assert_eq!(e.switch_state(LAMP), Some(true));
    assert_eq!(*log.borrow(), ["scene 2 2", "scene 3 1"]);
    // Activated after all, it expands to nothing.
    e.inject(Event::RequestedScene { scene: SceneId(0) });
    assert_eq!(log.borrow().len(), 2);
}

#[test]
fn rules_are_considered_and_dispatched_in_their_order() {
    let (mut e, _) = engine();
    let heard: Log = Rc::new(RefCell::new(Vec::new()));
    let adapter: Log = Rc::new(RefCell::new(Vec::new()));
    e.add_observer(Box::new(Recorder(heard.clone())));
    let idx = e.add_adapter(Box::new(Scribe(adapter.clone())));
    e.bind_device(DeviceId(5), idx);
    let set = |on: bool| Command::SetSwitch {
        device: DeviceId(5),
        on,
    };
    let never = Condition::BoolEquals {
        device: LAMP,
        kind: CapabilityKind::Switch,
        value: true,
    };
    e.add_rule(rule(4, on_click(), Condition::Always, vec![set(true), set(false)]));
    e.add_rule(rule(3, on_click(), never, vec![set(true)]));
    e.add_rule(rule(2, Trigger::CommandFailed { device: None }, Condition::Always, vec![]));
    e.add_rule(rule(1, on_click(), Condition::Always, vec![set(true)]));
    e.inject(click());
    let verdicts: Vec<String> = heard
        .borrow()
        .iter()
        .filter(|l| l.starts_with("rule"))
        .cloned()
        .collect();
    assert_eq!(verdicts, ["rule 4 True true", "rule 3 Unknown false", "rule 1 True true"]);
    let states: Vec<bool> = adapter.borrow().iter().map(|l| l.contains("on: true")).collect();
    assert_eq!(states, [true, false, true]);
}

#[test]
fn a_feedback_loop_is_cut() {
    let (mut e, log) = engine();
    e.set_max_cascade_depth(4);
    e.add_rule(rule(
        0,
        Trigger::Reports {
            device: LAMP,
            kind: CapabilityKind::Switch,
        },
        Condition::Always,
        vec![Command::ToggleSwitch { device: LAMP }],
    ));
    e.start();
    e.inject(Event::StateReported {
        device: LAMP,
        state: CapabilityState::Switch(true),
    });
    let drops = log.borrow().iter().filter(|l| l.starts_with("cascade")).count();
    assert_eq!(drops, 1);
    assert_eq!(log.borrow().last().unwrap(), "cascade 5");
}

#[test]
fn a_wait_is_cancelled_by_reverting() {
    let (mut e, _) = engine();
    let mut held = rule(
        0,
        Trigger::Changed {
            device: KNOB,
            kind: CapabilityKind::Contact,
            to: true,
        },
        Condition::Always,
        vec![Command::SetSwitch {
            device: LAMP,
            on: true,
        }],
    );
    held.for_duration = Some(1000);
    e.add_rule(held);
    e.start();
    let open = |b: bool| Event::StateReported {
        device: KNOB,
        state: CapabilityState::Contact(b),
    };
    e.inject(open(true));
    e.advance(999);
    e.inject(open(false));
    e.advance(10_000);
    assert_eq!(e.switch_state(LAMP), None);
    e.inject(open(true));
    e.advance(1000);
    assert_eq!(e.switch_state(LAMP), Some(true));
}

#[test]
fn scenes_nest_and_brightness_is_clamped() {
    let (mut e, log) = engine();
    e.add_scene(
        SceneId(0),
        vec![
            Command::SetBrightness {
                device: LAMP,
                value: 95,
                transition: None,
            },
            Command::ActivateScene { scene: SceneId(1) },
        ],
    );
    e.add_scene(
        SceneId(1),
        vec![Command::SetSwitch {
            device: LAMP,
            on: true,
        }],
    );
    let nb = MockNorthbound::new();
    e.add_northbound(Box::new(nb));
    e.add_rule(rule(
        7,
        Trigger::Crosses {
            device: LAMP,
            kind: CapabilityKind::Brightness,
            bound: 100,
            dir: CrossDir::Above,
        },
        Condition::Always,
        vec![Command::ScheduleTimer {
            key: TimerKey::new("k"),
            after: 5,
        }],
    ));
    assert!(e.scenes_terminate());
    e.start();
    e.inject(Event::RequestedScene { scene: SceneId(0) });
    assert_eq!(e.switch_state(LAMP), Some(true));
    assert_eq!(
        log.borrow().iter().filter(|l| l.starts_with("scene")).count(),
        2
    );
    e.inject(Event::RequestedChange {
        device: LAMP,
        desired: Desired::AdjustBrightness(20),
    });
    // 95 + 20 is 100: the threshold was crossed and its timer started.
    assert_eq!(e.next_wake_delay(), Some(5));
}

#[test]
fn a_run_is_a_function_of_its_inputs() {
    let run = || {
        let (mut e, log) = engine();
        e.add_rule(rule(
            0,
            on_click(),
            Condition::Always,
            vec![
                Command::ScheduleTimer {
                    key: TimerKey::new("t"),
                    after: 30,
                },
                Command::SetSwitch {
                    device: LAMP,
                    on: true,
                },
            ],
        ));
        e.add_rule(rule(
            1,
            Trigger::Timer {
                key: TimerKey::new("t"),
            },
            Condition::Always,
            vec![Command::SetSwitch {
                device: LAMP,
                on: false,
            }],
        ));
        e.start();
        e.inject(click());
        e.advance(10);
        e.inject(click());
        e.advance(40);
        let trace = log.borrow().clone();
        (trace, e.switch_state(LAMP), e.now())
    };
    assert_eq!(run(), run());
    assert_eq!(run().1, Some(false));
}
