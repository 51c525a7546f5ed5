use amr::message::{AcpMessage, ControlAction, StreamType};
use amr::mqtt_client::RelayTopicLayout;
use amr::user_mode::{
    client_id_at, generate_client_id, output_target, user_mqtt_client_id, user_subscriptions,
    ClientIdCounter, OutputTarget, UserEvent, UserSession, UserStep, USER_HEARTBEAT_INTERVAL_NANOS,
    USER_IDLE_GRACE_NANOS,
};

const SECOND: u128 = 1_000_000_000;

#[test]
fn generated_client_ids_are_unique() {
    let mut counter = ClientIdCounter::new();
    let first = generate_client_id(&mut counter, 77);
    let second = generate_client_id(&mut counter, 77);
    assert_ne!(first, second);
}

#[test]
fn client_ids_have_three_parts() {
    assert_eq!(client_id_at(0x18e3f7f4f7d, 0x1a2b, 1), "18e3f7f4f7d-1a2b-1");
    assert_eq!(client_id_at(0, 0, 0), "0-0-0");
    assert_eq!(
        client_id_at(u128::MAX, u32::MAX, u64::MAX),
        "ffffffffffffffffffffffffffffffff-ffffffff-ffffffffffffffff"
    );
}

#[test]
fn client_ids_count_up() {
    let mut counter = ClientIdCounter::new();
    assert!(generate_client_id(&mut counter, 255).ends_with("-ff-1"));
    assert!(generate_client_id(&mut counter, 16).ends_with("-10-2"));
    let id = generate_client_id(&mut counter, 1);
    let ms = u128::from_str_radix(id.split('-').next().unwrap(), 16).unwrap();
    assert!(ms > 1_600_000_000_000);
    counter.next = u64::MAX;
    assert!(generate_client_id(&mut counter, 1).ends_with("-1-ffffffffffffffff"));
    assert_eq!(counter.next, 0);
}

#[test]
fn users_are_told_apart() {
    assert_eq!(user_mqtt_client_id("node/id 1", "a-b-1"), "amr-user-node-id-1-a-b-1");
    assert_ne!(user_mqtt_client_id("n", "1-1-1"), user_mqtt_client_id("n", "1-1-2"));
    let layout = RelayTopicLayout::for_node("n");
    assert_eq!(user_subscriptions(&layout, "c"), vec!["acp/n/c/out".to_string()]);
}

#[test]
fn output_goes_where_it_came_from() {
    assert_eq!(output_target(StreamType::Stdout), OutputTarget::Stdout);
    assert_eq!(output_target(StreamType::Stdin), OutputTarget::Stdout);
    assert_eq!(output_target(StreamType::Stderr), OutputTarget::Stderr);
}

#[test]
fn the_end_of_input_starts_the_grace_period() {
    let mut session = UserSession::new();
    assert!(!session.stdin_closed());
    assert_eq!(session.grace_remaining(100 * SECOND), None);
    assert_eq!(session.step(UserEvent::GraceElapsed, 0), UserStep::Continue);
    assert_eq!(session.step(UserEvent::StdinClosed, 5 * SECOND), UserStep::Continue);
    assert!(session.stdin_closed());
    assert_eq!(session.grace_remaining(5 * SECOND), Some(SECOND));
    assert_eq!(session.grace_remaining(5 * SECOND + 1), Some(SECOND - 1));
    assert_eq!(session.grace_remaining(6 * SECOND - 1), Some(1));
    assert_eq!(session.grace_remaining(6 * SECOND), Some(0));
    assert_eq!(session.grace_remaining(60 * SECOND), Some(0));
    assert_eq!(session.grace_remaining(0), Some(SECOND));
    assert_eq!(
        session.step(UserEvent::GraceElapsed, 6 * SECOND),
        UserStep::Leave(ControlAction::Shutdown)
    );
}

#[test]
fn traffic_prolongs_the_grace_period() {
    let mut session = UserSession::new();
    let first = AcpMessage::new(1, StreamType::Stdout, b"x");
    let delivery = session.receive(first.clone()).unwrap();
    session.delivered(&delivery, SECOND);
    assert!(!session.stdin_closed());
    session.step(UserEvent::StdinClosed, 2 * SECOND);
    let early = session.receive(AcpMessage::new(3, StreamType::Stdout, b"z")).unwrap();
    assert!(early.chunks.is_empty());
    session.delivered(&early, 10 * SECOND);
    assert_eq!(session.grace_remaining(10 * SECOND), Some(SECOND));
    let duplicate = session.receive(first).unwrap();
    assert!(duplicate.duplicate);
    session.delivered(&duplicate, 20 * SECOND);
    assert_eq!(session.grace_remaining(10 * SECOND), Some(SECOND));
    assert_eq!(session.grace_remaining(11 * SECOND), Some(0));
}

#[test]
fn output_is_put_in_order() {
    let mut session = UserSession::new();
    let second = session.receive(AcpMessage::new(2, StreamType::Stderr, b"2")).unwrap();
    assert!(second.chunks.is_empty());
    let first = session.receive(AcpMessage::new(1, StreamType::Stdout, b"1")).unwrap();
    let streams: Vec<StreamType> = first.chunks.iter().map(|chunk| chunk.stream).collect();
    assert_eq!(streams, vec![StreamType::Stdout, StreamType::Stderr]);
}

#[test]
fn everything_else_ends_the_session() {
    for event in [
        UserEvent::HeartbeatEnded,
        UserEvent::MessagesClosed,
        UserEvent::ConnectionEnded,
        UserEvent::Interrupted,
    ] {
        let mut session = UserSession::new();
        assert_eq!(session.step(event, 0), UserStep::Leave(ControlAction::Shutdown));
        assert!(!session.stdin_closed());
    }
}

#[test]
fn the_user_side_keeps_these_times() {
    assert_eq!(USER_IDLE_GRACE_NANOS, SECOND);
    assert_eq!(USER_HEARTBEAT_INTERVAL_NANOS, 30 * SECOND);
}
