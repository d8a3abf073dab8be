use domiform::adapters::rest_api::stream::{
    action_frame, command_failed_frame, lagged_frame, rule_frame, snapshot_frame, state_frame,
    Batch, Broadcaster, Frame, QUEUE_CAPACITY,
};
use domiform::json::Json;

fn test_frame(n: u64) -> Frame {
    Frame {
        event: "state",
        data: Json::object().with("n", Json::Whole(n)),
    }
}

#[test]
fn a_frame_encodes_as_sse() {
    let frame = Frame {
        event: "state",
        data: Json::object().with("device", Json::text("lamp")),
    };
    assert_eq!(
        frame.encode(),
        "event: state\ndata: {\"device\":\"lamp\"}\n\n"
    );
}

#[test]
fn broadcast_reaches_every_subscriber() {
    let mut broadcaster = Broadcaster::default();
    let a = broadcaster.subscribe();
    let b = broadcaster.subscribe();
    assert_eq!(broadcaster.subscriber_count(), 2);

    broadcaster.broadcast(test_frame(1));

    for sub in [&a, &b] {
        match sub.next_batch(&mut broadcaster) {
            Batch::Frames { frames, lagged } => {
                assert_eq!(frames, vec![test_frame(1)]);
                assert!(!lagged);
            }
            _ => panic!("expected frames"),
        }
    }
}

#[test]
fn overflow_drops_the_oldest_and_flags_lagged() {
    let mut broadcaster = Broadcaster::default();
    let sub = broadcaster.subscribe();

    // One more than the queue holds.
    for n in 0..(QUEUE_CAPACITY as u64 + 1) {
        broadcaster.broadcast(test_frame(n));
    }

    match sub.next_batch(&mut broadcaster) {
        Batch::Frames { frames, lagged } => {
            assert!(lagged, "overflow must be reported");
            assert_eq!(frames.len(), QUEUE_CAPACITY);
            // The oldest went, the newest stayed: the newest carries truth.
            assert_eq!(frames.first(), Some(&test_frame(1)));
            assert_eq!(frames.last(), Some(&test_frame(QUEUE_CAPACITY as u64)));
        }
        _ => panic!("expected frames"),
    }
}

#[test]
fn dropping_a_subscription_deregisters_it() {
    let mut broadcaster = Broadcaster::default();
    let sub = broadcaster.subscribe();
    assert_eq!(broadcaster.subscriber_count(), 1);
    broadcaster.remove(sub);
    assert_eq!(broadcaster.subscriber_count(), 0);

    // Broadcasting with no subscribers is a no-op, not an error.
    broadcaster.broadcast(test_frame(1));
}

#[test]
fn an_idle_subscriber_times_out_rather_than_blocking_forever() {
    let mut broadcaster = Broadcaster::default();
    let sub = broadcaster.subscribe();

    assert!(matches!(sub.next_batch(&mut broadcaster), Batch::Idle));
}

#[test]
fn shutdown_releases_a_blocked_subscriber() {
    let mut broadcaster = Broadcaster::default();
    let sub = broadcaster.subscribe();
    broadcaster.shutdown();

    assert!(matches!(sub.next_batch(&mut broadcaster), Batch::Done));
}

#[test]
fn a_batch_is_handed_out_once_and_only_to_its_subscriber() {
    let mut broadcaster = Broadcaster::default();
    let a = broadcaster.subscribe();
    let b = broadcaster.subscribe();
    let c = broadcaster.subscribe();
    broadcaster.remove(b);
    broadcaster.broadcast(test_frame(7));
    broadcaster.broadcast(test_frame(8));
    assert_eq!(
        c.next_batch(&mut broadcaster),
        Batch::Frames {
            frames: vec![test_frame(7), test_frame(8)],
            lagged: false
        }
    );
    assert_eq!(c.next_batch(&mut broadcaster), Batch::Idle);
    assert!(matches!(
        a.next_batch(&mut broadcaster),
        Batch::Frames { .. }
    ));
    assert_eq!(broadcaster.subscriber_count(), 2);
}

#[test]
fn frames_carry_what_they_say() {
    assert_eq!(
        state_frame("desk_lamp", "brightness", Json::Whole(40)).encode(),
        "event: state\ndata: {\"capability\":\"brightness\",\"device\":\"desk_lamp\",\"value\":40}\n\n"
    );
    assert_eq!(
        rule_frame("motion_lights", "true", true).encode(),
        "event: rule\ndata: {\"fired\":true,\"rule\":\"motion_lights\",\"truth\":\"true\"}\n\n"
    );
    assert_eq!(
        action_frame("knob_a", "click", 0).encode(),
        "event: action\ndata: {\"depth\":0,\"device\":\"knob_a\",\"event\":\"click\"}\n\n"
    );
    assert_eq!(
        command_failed_frame(Json::Null, "timeout", 3).encode(),
        "event: command_failed\ndata: {\"attempts\":3,\"command\":null,\"reason\":\"timeout\"}\n\n"
    );
    assert_eq!(
        snapshot_frame(Json::List(vec![])).encode(),
        "event: snapshot\ndata: {\"devices\":[]}\n\n"
    );
    assert_eq!(lagged_frame().event, "lagged");
}
