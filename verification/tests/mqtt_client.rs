use amr::mqtt_client::{
    broker_address, connection_step, parse_broker, sanitize_for_mqtt_client_id, BrokerError,
    ConnectionEvent, ConnectionStep, Credentials, MqttIncomingMessage, MqttRelayClient,
    RelayConnection, RelayRole, RelayTopicLayout, RelayTopics,
};

#[test]
fn parses_broker_without_scheme() {
    let (host, port) = parse_broker("localhost").expect("broker parsing");
    assert_eq!(host, "localhost");
    assert_eq!(port, 1883);
}

#[test]
fn derives_topics() {
    let topics = RelayTopics::for_node("test-node");
    assert_eq!(topics.inbound, "acp/test-node/in");
    assert_eq!(topics.outbound, "acp/test-node/out");
}

fn address(host: &str, port: u16) -> Result<(String, u16), BrokerError> {
    Ok((host.to_string(), port))
}

#[test]
fn parses_brokers_with_scheme_and_port() {
    assert_eq!(parse_broker("mqtt://host:1884"), address("host", 1884));
    assert_eq!(parse_broker("host:1"), address("host", 1));
    assert_eq!(parse_broker("mqtt://user@Host/path"), address("Host", 1883));
    assert_eq!(parse_broker("tcp://[::1]:7"), address("[::1]", 7));
    assert_eq!(parse_broker("http://h:80"), address("h", 1883));
    assert_eq!(parse_broker("http://h:81"), address("h", 81));
}

#[test]
fn refuses_bad_brokers() {
    let error = parse_broker("host:99999").unwrap_err();
    assert_eq!(error.message(), "invalid broker url: host:99999");
    assert_eq!(
        error,
        BrokerError::InvalidUrl {
            input: "host:99999".to_string(),
            reason: "invalid port number".to_string(),
        }
    );
    let error = parse_broker("unix:///socket").unwrap_err();
    assert_eq!(error, BrokerError::MissingHost);
    assert_eq!(error.message(), "broker url is missing host");
}

#[test]
fn a_broker_goes_by_what_its_url_says() {
    assert_eq!(broker_address("x", Ok((Some("h".to_string()), Some(5)))), address("h", 5));
    assert_eq!(broker_address("x", Ok((Some("h".to_string()), None))), address("h", 1883));
    assert_eq!(broker_address("x", Ok((None, Some(5)))), Err(BrokerError::MissingHost));
    assert_eq!(
        broker_address("x", Err("why".to_string())),
        Err(BrokerError::InvalidUrl { input: "x".to_string(), reason: "why".to_string() })
    );
}

#[test]
fn sessions_have_topics_of_their_own() {
    let layout = RelayTopicLayout::for_node("my-agent");
    assert_eq!(layout.control_topic(), "acp/my-agent/control");
    assert_eq!(layout.session_in_topic("c-1"), "acp/my-agent/c-1/in");
    assert_eq!(layout.session_out_topic("c-1"), "acp/my-agent/c-1/out");
    assert_eq!(layout.session_in_wildcard_topic(), "acp/my-agent/+/in");
    assert_ne!(layout.session_in_topic("c-1"), layout.session_in_topic("c-2"));
}

#[test]
fn input_topics_name_their_client() {
    let layout = RelayTopicLayout::for_node("n/1");
    assert_eq!(layout.parse_session_in_topic("acp/n/1/c-1/in"), Some("c-1".to_string()));
    assert_eq!(layout.parse_session_in_topic(&layout.session_in_topic("in")), Some("in".to_string()));
    assert_eq!(layout.parse_session_in_topic("acp/n/1/c-1/out"), None);
    assert_eq!(layout.parse_session_in_topic("acp/n/2/c-1/in"), None);
    assert_eq!(layout.parse_session_in_topic("acp/n/1/a/b/in"), None);
    assert_eq!(layout.parse_session_in_topic("acp/n/1//in"), None);
    assert_eq!(layout.parse_session_in_topic("acp/n/1/in"), None);
    assert_eq!(layout.parse_session_in_topic("acp/n/1/control"), None);
    assert_eq!(layout.parse_session_in_topic(""), None);
}

#[test]
fn connections_are_made_with_these_options() {
    let connection = RelayConnection::new(
        "mqtt://broker:1999",
        "amr-user-n-1",
        Some("name"),
        None,
        vec!["t".to_string()],
    )
    .unwrap();
    let options = connection.options;
    assert_eq!(options.client_id, "amr-user-n-1");
    assert_eq!((options.host.as_str(), options.port), ("broker", 1999));
    assert_eq!(options.keep_alive_secs, 10);
    assert!(!options.clean_session);
    assert_eq!(options.request_capacity, 64);
    assert_eq!(
        options.credentials,
        Some(Credentials { username: "name".to_string(), password: String::new() })
    );
    assert_eq!(connection.subscriptions, vec!["t".to_string()]);

    let anonymous = RelayConnection::new("b", "c", None, Some("p"), vec![]).unwrap();
    assert_eq!(anonymous.options.credentials, None);
    let known = RelayConnection::new("b", "c", Some("u"), Some("p"), vec![]).unwrap();
    assert_eq!(known.options.credentials.unwrap().password, "p");
    assert!(RelayConnection::new("b:x", "c", None, None, vec![]).is_err());
}

#[test]
fn the_two_sides_mirror_each_other() {
    let side = |role| MqttRelayClient::new("localhost", "n", role, None, None).unwrap();
    let user = side(RelayRole::User);
    let work = side(RelayRole::Work);
    assert_eq!(user.publish_topic(), "acp/n/in");
    assert_eq!(user.subscribe_topic(), "acp/n/out");
    assert_eq!(work.publish_topic(), user.subscribe_topic());
    assert_eq!(work.subscribe_topic(), user.publish_topic());
    assert_eq!(user.connection.options.client_id, "amr-user-n");
    assert_eq!(work.connection.options.client_id, "amr-work-n");
    assert_eq!(work.connection.subscriptions, vec!["acp/n/in".to_string()]);
    assert_eq!(RelayRole::User.as_str(), "user");
    assert_eq!(RelayRole::Work.as_str(), "work");
    assert!(MqttRelayClient::new("unix:///s", "n", RelayRole::User, None, None).is_err());
}

#[test]
fn connections_are_kept_up() {
    assert!(matches!(
        connection_step(ConnectionEvent::Connected),
        ConnectionStep::SubscribeAll
    ));
    assert!(matches!(
        connection_step(ConnectionEvent::Failed),
        ConnectionStep::RetryAfterSecs(1)
    ));
    assert!(matches!(connection_step(ConnectionEvent::Other), ConnectionStep::PollAgain));
    assert!(matches!(connection_step(ConnectionEvent::ReceiverDropped), ConnectionStep::Stop));
    match connection_step(ConnectionEvent::Published { topic: "t".to_string(), payload: vec![1, 2] }) {
        ConnectionStep::Deliver(MqttIncomingMessage::Publish { topic, payload }) => {
            assert_eq!(topic, "t");
            assert_eq!(payload, vec![1, 2]);
        }
        other => panic!("unexpected step {other:?}"),
    }
}

#[test]
fn user_mode_mqtt_client_id_is_sanitized() {
    assert_eq!(sanitize_for_mqtt_client_id("node/id 1"), "node-id-1");
}

#[test]
fn work_mode_mqtt_client_id_is_sanitized() {
    assert_eq!(sanitize_for_mqtt_client_id("node/id 1"), "node-id-1");
}

#[test]
fn sanitizing_keeps_what_is_fit() {
    assert_eq!(sanitize_for_mqtt_client_id("aZ09-_"), "aZ09-_");
    assert_eq!(sanitize_for_mqtt_client_id("\u{e9}+#@[`{"), "-------");
    assert_eq!(sanitize_for_mqtt_client_id(""), "");
    let once = sanitize_for_mqtt_client_id("a b/c");
    assert_eq!(sanitize_for_mqtt_client_id(&once), once);
}
