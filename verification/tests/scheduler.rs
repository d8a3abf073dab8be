use domiform::{Adapter, Command, Event, SchedulerAdapter, TimerKey};

#[test]
fn next_wake_is_delay_to_soonest_timer() {
    let mut s = SchedulerAdapter::default();
    assert_eq!(s.next_wake(0), None, "no timers, nothing to wake for");

    s.dispatch(
        &Command::ScheduleTimer {
            key: TimerKey::new("a"),
            after: 5000,
        },
        1000,
    );
    s.dispatch(
        &Command::ScheduleTimer {
            key: TimerKey::new("b"),
            after: 1000,
        },
        1000,
    );
    // b fires at 2000, a at 6000; soonest is b.
    assert_eq!(s.next_wake(1500), Some(500));
    // Past every fire time → 0, never an underflow.
    assert_eq!(s.next_wake(9999), Some(0));
}

#[test]
fn due_timers_elapse_once_and_in_order() {
    let mut s = SchedulerAdapter::default();
    for (key, after) in [("late", 300), ("soon", 100), ("never", 9000)] {
        s.dispatch(
            &Command::ScheduleTimer {
                key: TimerKey::new(key),
                after,
            },
            0,
        );
    }
    s.dispatch(
        &Command::CancelTimer {
            key: TimerKey::new("never"),
        },
        0,
    );
    assert!(s.tick(99).is_empty());
    assert_eq!(
        s.tick(500),
        vec![
            Event::TimerElapsed {
                key: TimerKey::new("soon")
            },
            Event::TimerElapsed {
                key: TimerKey::new("late")
            },
        ]
    );
    assert!(s.tick(10_000).is_empty());
    assert_eq!(s.next_wake(10_000), None);
}
