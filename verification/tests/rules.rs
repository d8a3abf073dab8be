use domiform::rule::CrossDir;
use domiform::{
    CapabilityKind, CapabilityState, CmpOp, Condition, DeviceId, Event, StateStore, Trigger, Truth,
};

const SUN: DeviceId = DeviceId(99);

fn store_at(minute: u16) -> StateStore {
    let mut s = StateStore::default();
    s.set(SUN, CapabilityState::TimeOfDay(minute));
    s
}

// "Quiet hours" 22:00–06:00: the across-midnight case that needs Or.
fn quiet_hours() -> Condition {
    Condition::Or(vec![
        Condition::Compare {
            device: SUN,
            kind: CapabilityKind::TimeOfDay,
            op: CmpOp::Ge,
            value: 22 * 60,
        },
        Condition::Compare {
            device: SUN,
            kind: CapabilityKind::TimeOfDay,
            op: CmpOp::Lt,
            value: 6 * 60,
        },
    ])
}

#[test]
fn quiet_hours_span_midnight() {
    assert_eq!(quiet_hours().eval(&store_at(23 * 60)), Truth::True); // 23:00
    assert_eq!(quiet_hours().eval(&store_at(2 * 60)), Truth::True); // 02:00
    assert_eq!(quiet_hours().eval(&store_at(12 * 60)), Truth::False); // noon
}

#[test]
fn unknown_propagates_and_never_fires() {
    // Empty store: every leaf reads `None`, so the result is Unknown.
    let empty = StateStore::default();
    let cond = Condition::BoolEquals {
        device: SUN,
        kind: CapabilityKind::SunUp,
        value: false,
    };
    assert_eq!(cond.eval(&empty), Truth::Unknown);
    assert!(!cond.eval(&empty).is_true()); // does not fire

    // The sharp edge is gone: Not(Unknown) is Unknown, not True.
    assert_eq!(Condition::Not(Box::new(cond)).eval(&empty), Truth::Unknown);
}

#[test]
fn unknown_short_circuits_like_classical_logic_when_it_can() {
    // And: a known-false beats an unknown sibling.
    let known_false = Condition::Compare {
        device: SUN,
        kind: CapabilityKind::TimeOfDay,
        op: CmpOp::Eq,
        value: 99,
    };
    let unknown = Condition::BoolEquals {
        device: SUN,
        kind: CapabilityKind::SunUp, // never set in store_at()
        value: true,
    };
    let store = store_at(12 * 60);
    assert_eq!(
        Condition::And(vec![known_false.clone(), unknown.clone()]).eval(&store),
        Truth::False
    );
    // Or: an unknown sibling alongside a non-true stays Unknown.
    assert_eq!(
        Condition::Or(vec![known_false, unknown]).eval(&store),
        Truth::Unknown
    );
}

#[test]
fn a_threshold_fires_once_per_crossing() {
    let hot = Trigger::Crosses {
        device: DeviceId(1),
        kind: CapabilityKind::Temperature,
        bound: 2500,
        dir: CrossDir::Above,
    };
    let report = |t: i16| Event::StateReported {
        device: DeviceId(1),
        state: CapabilityState::Temperature(t),
    };
    // A first report that satisfies the predicate counts as an edge.
    assert!(hot.matches(&report(2600), None));
    assert!(hot.matches(&report(2500), Some(&CapabilityState::Temperature(2499))));
    assert!(!hot.matches(&report(2700), Some(&CapabilityState::Temperature(2600))));
    assert!(!hot.matches(&report(2400), Some(&CapabilityState::Temperature(2300))));
}

#[test]
fn a_change_fires_on_the_transition_only() {
    let opened = Trigger::Changed {
        device: DeviceId(1),
        kind: CapabilityKind::Contact,
        to: true,
    };
    let report = |b: bool| Event::StateReported {
        device: DeviceId(1),
        state: CapabilityState::Contact(b),
    };
    assert!(opened.matches(&report(true), Some(&CapabilityState::Contact(false))));
    assert!(!opened.matches(&report(true), Some(&CapabilityState::Contact(true))));
    assert!(!opened.matches(&report(false), Some(&CapabilityState::Contact(true))));
    assert_eq!(
        opened.watched(),
        Some((DeviceId(1), CapabilityKind::Contact))
    );
}

#[test]
fn a_snapshot_holds_the_last_report_of_each_capability() {
    let mut s = StateStore::default();
    s.set(DeviceId(1), CapabilityState::Switch(true));
    s.set(DeviceId(2), CapabilityState::Brightness(10));
    s.set(DeviceId(1), CapabilityState::Switch(false));
    assert_eq!(
        s.snapshot(),
        vec![
            (DeviceId(1), CapabilityState::Switch(false)),
            (DeviceId(2), CapabilityState::Brightness(10)),
        ]
    );
    assert_eq!(s.switch_is(DeviceId(1)), Some(false));
    assert_eq!(s.switch_is(DeviceId(2)), None);
}
