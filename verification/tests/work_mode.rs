use amr::encoding::Base64Fault;
use amr::message::{AcpMessage, ControlAction, ControlMessage, DecodeError, StreamType};
use amr::mqtt_client::RelayTopicLayout;
use amr::work_mode::{
    ensure_session, expire_sessions, handle_control_message, handle_session_input, route_message,
    session_step, shell_invocation, shutdown_all_sessions, shutdown_session, work_mqtt_client_id,
    work_subscriptions, InputOutcome, Route, SessionAction, SessionCommand, SessionEvent,
    SessionHandle, SessionStep, SessionTable, SESSION_CLEANUP_INTERVAL_NANOS, SESSION_TTL_NANOS,
};

const SECOND: u128 = 1_000_000_000;

#[test]
fn session_buffer_reorders_messages() {
    let mut session = SessionHandle::new(0);

    let first = AcpMessage::new(2, StreamType::Stdin, b"world");
    let second = AcpMessage::new(1, StreamType::Stdin, b"hello ");

    assert!(session.drain_ready_messages(first).unwrap().is_empty());
    let ready = session.drain_ready_messages(second).unwrap();
    assert_eq!(ready, vec![b"hello ".to_vec(), b"world".to_vec()]);
}

#[test]
fn session_ttl_check_uses_last_seen() {
    let now = 60 * SECOND;
    let mut session = SessionHandle::new(now);
    session.last_seen = now - 5 * SECOND;
    assert!(session.is_expired(now, 5 * SECOND));
    assert!(!session.is_expired(now, 5 * SECOND + 1));
    session.touch(now);
    assert!(!session.is_expired(now, 5 * SECOND));
    assert!(session.is_expired(0, 0));
    assert!(!session.is_expired(0, 1));
}

#[test]
fn only_standard_input_reaches_the_child() {
    let mut session = SessionHandle::new(0);
    for stream in [StreamType::Stdout, StreamType::Stderr] {
        let message = AcpMessage::new(1, stream, b"x");
        assert_eq!(session.drain_ready_messages(message), Ok(vec![]));
    }
    let message = AcpMessage::new(1, StreamType::Stdin, b"x");
    assert_eq!(session.drain_ready_messages(message.clone()), Ok(vec![b"x".to_vec()]));
    assert_eq!(session.drain_ready_messages(message), Ok(vec![]));
}

fn layout() -> RelayTopicLayout {
    RelayTopicLayout::for_node("n")
}

fn request(client_id: &str, action: ControlAction) -> ControlMessage {
    ControlMessage::sent_at(client_id, action, 0)
}

fn start(client_id: &str) -> SessionAction {
    SessionAction::Start {
        client_id: client_id.to_string(),
        out_topic: format!("acp/n/{client_id}/out"),
    }
}

fn stop(client_id: &str) -> SessionAction {
    SessionAction::Stop { client_id: client_id.to_string() }
}

fn stdin(seq: u64, bytes: &[u8]) -> AcpMessage {
    AcpMessage::new(seq, StreamType::Stdin, bytes)
}

#[test]
fn a_client_has_one_session() {
    let mut sessions = SessionTable::new();
    let spawn = request("a", ControlAction::Spawn);
    let heartbeat = request("a", ControlAction::Heartbeat);
    assert_eq!(handle_control_message(&layout(), &mut sessions, &spawn, 1), start("a"));
    assert_eq!(
        handle_session_input(&mut sessions, "a", stdin(1, b"x"), 2),
        InputOutcome::Ready(vec![b"x".to_vec()])
    );
    assert_eq!(handle_control_message(&layout(), &mut sessions, &spawn, 3), SessionAction::Keep);
    assert_eq!(handle_control_message(&layout(), &mut sessions, &heartbeat, 4), SessionAction::Keep);
    assert_eq!(
        handle_session_input(&mut sessions, "a", stdin(1, b"again"), 5),
        InputOutcome::Ready(vec![])
    );
}

#[test]
fn a_heartbeat_brings_a_session_back() {
    let mut sessions = SessionTable::new();
    let heartbeat = request("a", ControlAction::Heartbeat);
    assert_eq!(handle_control_message(&layout(), &mut sessions, &heartbeat, 1), start("a"));
    assert!(sessions.contains("a"));
    assert_eq!(ensure_session(&layout(), &mut sessions, "a", 2), SessionAction::Keep);
}

#[test]
fn a_shutdown_ends_the_session() {
    let mut sessions = SessionTable::new();
    let shutdown = request("a", ControlAction::Shutdown);
    assert_eq!(handle_control_message(&layout(), &mut sessions, &shutdown, 0), SessionAction::Keep);
    ensure_session(&layout(), &mut sessions, "a", 0);
    ensure_session(&layout(), &mut sessions, "b", 0);
    handle_session_input(&mut sessions, "a", stdin(1, b"x"), 0);
    assert_eq!(handle_control_message(&layout(), &mut sessions, &shutdown, 0), stop("a"));
    assert!(!sessions.contains("a"));
    assert!(sessions.contains("b"));
    assert_eq!(
        handle_session_input(&mut sessions, "a", stdin(2, b"y"), 0),
        InputOutcome::UnknownSession
    );
    assert_eq!(shutdown_session(&mut sessions, "a"), SessionAction::Keep);
    assert_eq!(ensure_session(&layout(), &mut sessions, "a", 0), start("a"));
    assert_eq!(
        handle_session_input(&mut sessions, "a", stdin(1, b"z"), 0),
        InputOutcome::Ready(vec![b"z".to_vec()])
    );
}

#[test]
fn sessions_are_kept_apart() {
    let mut sessions = SessionTable::new();
    for client in ["a", "b", "c"] {
        assert_eq!(ensure_session(&layout(), &mut sessions, client, 0), start(client));
    }
    assert_eq!(
        handle_session_input(&mut sessions, "a", stdin(2, b"2"), 0),
        InputOutcome::Ready(vec![])
    );
    assert_eq!(
        handle_session_input(&mut sessions, "b", stdin(1, b"b"), 0),
        InputOutcome::Ready(vec![b"b".to_vec()])
    );
    assert_eq!(shutdown_session(&mut sessions, "b"), stop("b"));
    assert_eq!(
        handle_session_input(&mut sessions, "a", stdin(1, b"1"), 0),
        InputOutcome::Ready(vec![b"1".to_vec(), b"2".to_vec()])
    );
    assert_eq!(
        handle_session_input(&mut sessions, "c", stdin(2, b"c"), 0),
        InputOutcome::Ready(vec![])
    );
}

#[test]
fn a_broken_message_is_reported() {
    let mut sessions = SessionTable::new();
    ensure_session(&layout(), &mut sessions, "a", 0);
    let mut broken = stdin(1, b"");
    broken.content = "A".to_string();
    assert_eq!(
        handle_session_input(&mut sessions, "a", broken, 0),
        InputOutcome::Failed(DecodeError::Base64(Base64Fault::InvalidLength(1)))
    );
    let mut other = stdin(1, b"");
    other.encoding = "hex".to_string();
    assert_eq!(
        handle_session_input(&mut sessions, "a", other, 0),
        InputOutcome::Failed(DecodeError::UnsupportedEncoding("hex".to_string()))
    );
}

#[test]
fn stale_sessions_are_ended() {
    let mut sessions = SessionTable::new();
    for (client, seen) in [("a", 0), ("b", 10), ("c", 4), ("d", 5)] {
        ensure_session(&layout(), &mut sessions, client, seen);
    }
    assert_eq!(expire_sessions(&mut sessions, 14, 10), vec!["a".to_string(), "c".to_string()]);
    assert!(sessions.contains("b") && sessions.contains("d"));
    assert!(!sessions.contains("a") && !sessions.contains("c"));
    handle_session_input(&mut sessions, "d", stdin(9, b"x"), 14);
    assert_eq!(expire_sessions(&mut sessions, 20, 10), vec!["b".to_string()]);
    assert_eq!(expire_sessions(&mut sessions, 23, 10), Vec::<String>::new());
    assert_eq!(expire_sessions(&mut sessions, 24, 10), vec!["d".to_string()]);
}

#[test]
fn all_sessions_are_ended() {
    let mut sessions = SessionTable::new();
    for client in ["a", "b", "c"] {
        ensure_session(&layout(), &mut sessions, client, 7);
    }
    let mut ended = shutdown_all_sessions(&mut sessions);
    ended.sort();
    assert_eq!(ended, vec!["a".to_string(), "b".to_string(), "c".to_string()]);
    for client in ["a", "b", "c"] {
        assert!(!sessions.contains(client));
    }
    assert!(shutdown_all_sessions(&mut sessions).is_empty());
}

#[test]
fn an_ended_session_is_forgotten() {
    let mut sessions = SessionTable::new();
    ensure_session(&layout(), &mut sessions, "a", 0);
    assert!(sessions.remove("a"));
    assert!(!sessions.remove("a"));
}

#[test]
fn topics_tell_what_a_message_is_about() {
    assert_eq!(route_message(&layout(), "acp/n/control"), Route::Control);
    assert_eq!(
        route_message(&layout(), "acp/n/c-1/in"),
        Route::SessionInput("c-1".to_string())
    );
    for topic in ["acp/n/c-1/out", "acp/m/control", "acp/n/in", "acp/n/a/b/in", "acp/n/control/", ""] {
        assert_eq!(route_message(&layout(), topic), Route::Unexpected);
    }
}

#[test]
fn a_session_follows_its_events() {
    assert_eq!(
        session_step(SessionEvent::Command(SessionCommand::Write(vec![1, 2]))),
        SessionStep::Write(vec![1, 2])
    );
    assert_eq!(
        session_step(SessionEvent::Command(SessionCommand::Shutdown)),
        SessionStep::Terminate
    );
    assert_eq!(session_step(SessionEvent::CommandsClosed), SessionStep::Terminate);
    let status = "exit status: 3".to_string();
    assert_eq!(
        session_step(SessionEvent::ChildExited { success: true, status: status.clone() }),
        SessionStep::Finish
    );
    assert_eq!(
        session_step(SessionEvent::ChildExited { success: false, status }),
        SessionStep::Fail(
            "child process exited unexpectedly with status exit status: 3".to_string()
        )
    );
}

#[test]
fn commands_run_in_the_shell() {
    assert_eq!(shell_invocation(false), ("sh", "-lc"));
    assert_eq!(shell_invocation(true), ("cmd", "/C"));
}

#[test]
fn the_work_side_introduces_itself() {
    assert_eq!(work_mqtt_client_id("node/id 1", 0xbeef), "amr-work-node-id-1-beef");
    assert_eq!(
        work_subscriptions(&layout()),
        vec!["acp/n/control".to_string(), "acp/n/+/in".to_string()]
    );
}

#[test]
fn the_work_side_keeps_these_times() {
    assert_eq!(SESSION_TTL_NANOS, 48 * 60 * 60 * SECOND);
    assert_eq!(SESSION_CLEANUP_INTERVAL_NANOS, 60 * SECOND);
}

#[test]
fn signs_of_life_do_not_disturb_the_order() {
    let mut sessions = SessionTable::new();
    ensure_session(&layout(), &mut sessions, "a", 0);
    let mut given = Vec::new();
    for (at, seq) in [3u64, 1, 1, 2, 4].into_iter().enumerate() {
        let now = at as u128;
        for action in [ControlAction::Heartbeat, ControlAction::Spawn] {
            let kept = handle_control_message(&layout(), &mut sessions, &request("a", action), now);
            assert_eq!(kept, SessionAction::Keep);
            handle_control_message(&layout(), &mut sessions, &request("b", action), now);
        }
        handle_control_message(&layout(), &mut sessions, &request("b", ControlAction::Shutdown), now);
        assert!(expire_sessions(&mut sessions, now, 10).is_empty());
        match handle_session_input(&mut sessions, "a", stdin(seq, &[seq as u8]), now) {
            InputOutcome::Ready(parts) => given.extend(parts),
            other => panic!("unexpected outcome {other:?}"),
        }
    }
    assert_eq!(given, vec![vec![1], vec![2], vec![3], vec![4]]);
}
