//! Where messages go: topics, the broker's address, and what a connection is made with.
use vstd::prelude::*;

use crate::text::{
    characters, contains_pattern, law_occurrence_is_a_cut, occurs_in, pattern_at, text_between,
};

verus! {

/// The side that a relay runs on.
#[derive(Debug, Clone, Copy, PartialEq, Eq, Structural)]
pub enum RelayRole {
    User,
    Work,
}

impl RelayRole {
    /// The name of the side in a client identifier.
    pub open spec fn spec_name(self) -> Seq<char> {
        match self {
            RelayRole::User => "user"@,
            RelayRole::Work => "work"@,
        }
    }

    /// The name of the side in a client identifier.
    pub fn as_str(self) -> (name: &'static str)
        ensures
            name@ == self.spec_name(),
            name@ == match self {
                RelayRole::User => "user"@,
                RelayRole::Work => "work"@,
            },
    {
        match self {
            RelayRole::User => "user",
            RelayRole::Work => "work",
        }
    }
}

/// The pair of topics of a node that has a single stream each way.
#[derive(Debug, Clone)]
pub struct RelayTopics {
    pub inbound: String,
    pub outbound: String,
}

/// `acp/{node_id}{suffix}`.
pub open spec fn node_topic(node_id: Seq<char>, suffix: Seq<char>) -> Seq<char> {
    "acp/"@ + node_id + suffix
}

impl RelayTopics {
    /// The topics `acp/{node_id}/in` and `acp/{node_id}/out`.
    pub fn for_node(node_id: &str) -> (topics: Self)
        ensures
            topics.inbound@ == node_topic(node_id@, "/in"@),
            topics.outbound@ == node_topic(node_id@, "/out"@),
            topics.inbound@ == "acp/"@ + node_id@ + "/in"@,
            topics.outbound@ == "acp/"@ + node_id@ + "/out"@,
    {
        let mut inbound = "acp/".to_owned();
        inbound.append(node_id);
        inbound.append("/in");
        let mut outbound = "acp/".to_owned();
        outbound.append(node_id);
        outbound.append("/out");
        RelayTopics { inbound, outbound }
    }
}

/// The topics of a node whose sessions each have a stream of their own each way.
#[derive(Debug, Clone)]
pub struct RelayTopicLayout {
    pub node_id: String,
}

/// `acp/{node_id}/{client_id}{suffix}`.
pub open spec fn session_topic(
    node_id: Seq<char>,
    client_id: Seq<char>,
    suffix: Seq<char>,
) -> Seq<char> {
    "acp/"@ + node_id + "/"@ + client_id + suffix
}

/// Whether a text can be the client's level of a topic: it is not empty and is one level only.
pub open spec fn is_client_level(client_id: Seq<char>) -> bool {
    client_id.len() > 0 && !client_id.contains('/')
}

impl RelayTopicLayout {
    /// The topics of a node.
    pub fn for_node(node_id: &str) -> (layout: Self)
        ensures
            layout.node_id@ == node_id@,
    {
        RelayTopicLayout { node_id: node_id.to_owned() }
    }

    /// The topic for requests about sessions.
    pub fn control_topic(&self) -> (topic: String)
        ensures
            topic@ == node_topic(self.node_id@, "/control"@),
            topic@ == "acp/"@ + self.node_id@ + "/control"@,
    {
        let mut topic = "acp/".to_owned();
        topic.append(self.node_id.as_str());
        topic.append("/control");
        topic
    }

    fn session_topic(&self, client_id: &str, suffix: &str) -> (topic: String)
        ensures
            topic@ == session_topic(self.node_id@, client_id@, suffix@),
            topic@ == "acp/"@ + self.node_id@ + "/"@ + client_id@ + suffix@,
    {
        let mut topic = "acp/".to_owned();
        topic.append(self.node_id.as_str());
        topic.append("/");
        topic.append(client_id);
        topic.append(suffix);
        topic
    }

    /// The topic for what a user side reads from its standard input.
    pub fn session_in_topic(&self, client_id: &str) -> (topic: String)
        ensures
            topic@ == session_topic(self.node_id@, client_id@, "/in"@),
            topic@ == "acp/"@ + self.node_id@ + "/"@ + client_id@ + "/in"@,
    {
        self.session_topic(client_id, "/in")
    }

    /// The topic for what the child process of a session writes.
    pub fn session_out_topic(&self, client_id: &str) -> (topic: String)
        ensures
            topic@ == session_topic(self.node_id@, client_id@, "/out"@),
            topic@ == "acp/"@ + self.node_id@ + "/"@ + client_id@ + "/out"@,
    {
        self.session_topic(client_id, "/out")
    }

    /// The filter that matches the input topics of all the sessions of the node.
    pub fn session_in_wildcard_topic(&self) -> (topic: String)
        ensures
            topic@ == session_topic(self.node_id@, "+"@, "/in"@),
            topic@ == "acp/"@ + self.node_id@ + "/"@ + "+"@ + "/in"@,
    {
        self.session_topic("+", "/in")
    }

    /// The client whose input topic this is, if it is one of this node.
    pub fn parse_session_in_topic(&self, topic: &str) -> (client: Option<String>)
        ensures
            match client {
                Some(client_id) => is_client_level(client_id@) && topic@ == session_topic(
                    self.node_id@,
                    client_id@,
                    "/in"@,
                ),
                None => forall|client_id: Seq<char>|
                    is_client_level(client_id) ==> topic@ != #[trigger] session_topic(
                        self.node_id@,
                        client_id,
                        "/in"@,
                    ),
            },
            match client {
                Some(client_id) => client_id@.len() > 0 && !client_id@.contains('/') && topic@
                    == "acp/"@ + self.node_id@ + "/"@ + client_id@ + "/in"@,
                None => forall|client_id: Seq<char>|
                    client_id.len() > 0 && !client_id.contains('/') ==> topic@ != #[trigger] ("acp/"@
                        + self.node_id@ + "/"@ + client_id + "/in"@),
            },
    {
        let mut head = "acp/".to_owned();
        head.append(self.node_id.as_str());
        head.append("/");
        let chars = characters(topic);
        let prefix = characters(head.as_str());
        let suffix = characters("/in");
        proof {
            assert forall|client_id: Seq<char>| topic@ == #[trigger] session_topic(
                self.node_id@,
                client_id,
                "/in"@,
            ) implies chars@.len() == prefix@.len() + client_id.len() + suffix@.len()
                && client_id == chars@.subrange(
                prefix@.len() as int,
                chars@.len() - suffix@.len(),
            ) && crate::text::stands_at(chars@, 0, prefix@) && crate::text::stands_at(
                chars@,
                chars@.len() - suffix@.len(),
                suffix@,
            ) by {
                let whole = prefix@ + client_id + suffix@;
                assert(whole =~= session_topic(self.node_id@, client_id, "/in"@));
                assert(client_id =~= whole.subrange(
                    prefix@.len() as int,
                    whole.len() - suffix@.len(),
                ));
                assert(whole.subrange(0, prefix@.len() as int) =~= prefix@);
                assert(whole.subrange(whole.len() - suffix@.len(), whole.len() as int) =~= suffix@);
            }
        }
        assert(forall|c: Seq<char>| #[trigger]
                ("acp/"@ + self.node_id@ + "/"@ + c + "/in"@) == session_topic(
                    self.node_id@,
                    c,
                    "/in"@,
                ));
        if chars.len() < suffix.len() || chars.len() - suffix.len() <= prefix.len() {
            return None;
        }
        let end = chars.len() - suffix.len();
        if !pattern_at(&chars, 0, &prefix) || !pattern_at(&chars, end, &suffix) {
            return None;
        }
        let client_id = text_between(&chars, prefix.len(), end);
        for i in prefix.len()..end
            invariant
                prefix@.len() < end <= chars@.len(),
                client_id@ == chars@.subrange(prefix@.len() as int, end as int),
                end == chars@.len() - suffix@.len(),
                forall|j: int| prefix@.len() <= j < i ==> chars@[j] != '/',
                chars@ == topic@,
                forall|c: Seq<char>| #[trigger]
                    ("acp/"@ + self.node_id@ + "/"@ + c + "/in"@) == session_topic(
                        self.node_id@,
                        c,
                        "/in"@,
                    ),
                forall|c: Seq<char>|
                    topic@ == #[trigger] session_topic(self.node_id@, c, "/in"@) ==> c
                        == client_id@,
        {
            if chars[i] == '/' {
                assert(client_id@[i - prefix@.len()] == '/');
                return None;
            }
        }
        assert(topic@ =~= session_topic(self.node_id@, client_id@, "/in"@)) by {
            assert(topic@ =~= chars@.subrange(0, prefix@.len() as int) + client_id@
                + chars@.subrange(end as int, chars@.len() as int));
        }
        Some(client_id)
    }
}

/// An optional text as optional characters.
pub open spec fn optional_text(text: Option<String>) -> Option<Seq<char>> {
    match text {
        Some(text) => Some(text@),
        None => None,
    }
}

/// The host and the port that a URL names, each if it names one.
pub type UrlParts = (Option<Seq<char>>, Option<u16>);

/// What comes of reading a text as a URL: the parts, or the reason why it is none.
pub type UrlOutcome = Result<UrlParts, Seq<char>>;

/// What the text says when it is read as an absolute URL.
pub uninterp spec fn url_parts(text: Seq<char>) -> UrlOutcome;

/// `url::Url::parse`, and of the URL `host_str` and `port`; of an error, the text it shows. All of
/// it is a function of the text that is read.
#[verifier::external_body]
fn parse_url(text: &str) -> (r: Result<(Option<String>, Option<u16>), String>)
    ensures
        match r {
            Ok(parts) => url_parts(text@) == UrlOutcome::Ok((optional_text(parts.0), parts.1)),
            Err(reason) => url_parts(text@) == UrlOutcome::Err(reason@),
        },
{
    match url::Url::parse(text) {
        Ok(url) => Ok((url.host_str().map(str::to_owned), url.port())),
        Err(e) => Err(e.to_string()),
    }
}

/// The port of a broker whose address names none.
pub const DEFAULT_BROKER_PORT: u16 = 1883;

/// Why a broker's address cannot be used.
#[derive(Debug, Clone, PartialEq, Eq)]
pub enum BrokerError {
    InvalidUrl { input: String, reason: String },
    MissingHost,
}

/// A [`BrokerError`] with its texts as characters.
pub enum BrokerErrorView {
    InvalidUrl { input: Seq<char>, reason: Seq<char> },
    MissingHost,
}

impl View for BrokerError {
    type V = BrokerErrorView;

    open spec fn view(&self) -> BrokerErrorView {
        match self {
            BrokerError::InvalidUrl { input, reason } => BrokerErrorView::InvalidUrl {
                input: input@,
                reason: reason@,
            },
            BrokerError::MissingHost => BrokerErrorView::MissingHost,
        }
    }
}

impl BrokerError {
    /// The text that is shown for the error.
    pub fn message(&self) -> (text: String)
        ensures
            text@ == match self@ {
                BrokerErrorView::InvalidUrl { input, .. } => "invalid broker url: "@ + input,
                BrokerErrorView::MissingHost => "broker url is missing host"@,
            },
            text@ == match self {
                BrokerError::InvalidUrl { input, .. } => "invalid broker url: "@ + input@,
                BrokerError::MissingHost => "broker url is missing host"@,
            },
    {
        match self {
            BrokerError::InvalidUrl { input, .. } => {
                let mut text = "invalid broker url: ".to_owned();
                text.append(input.as_str());
                text
            },
            BrokerError::MissingHost => "broker url is missing host".to_owned(),
        }
    }
}

/// The URL that a broker's address is read as: itself if it names a scheme, else with `mqtt`.
pub open spec fn broker_url(input: Seq<char>) -> Seq<char> {
    if occurs_in("://"@, input) {
        input
    } else {
        "mqtt://"@ + input
    }
}

/// The host and port of a broker, or why there are none.
pub type BrokerOutcome = Result<(Seq<char>, u16), BrokerErrorView>;

/// What a broker's address comes to, given what its URL says.
pub open spec fn broker_outcome(input: Seq<char>, url: UrlOutcome) -> BrokerOutcome {
    match url {
        Err(reason) => Err(BrokerErrorView::InvalidUrl { input, reason }),
        Ok((None, _)) => Err(BrokerErrorView::MissingHost),
        Ok((Some(host), Some(port))) => Ok((host, port)),
        Ok((Some(host), None)) => Ok((host, DEFAULT_BROKER_PORT)),
    }
}

/// The host and port, or the error, for what an address' URL turned out to say.
pub fn broker_address(
    input: &str,
    url: Result<(Option<String>, Option<u16>), String>,
) -> (r: Result<(String, u16), BrokerError>)
    ensures
        ({
            let outcome = match url {
                Ok(parts) => UrlOutcome::Ok((optional_text(parts.0), parts.1)),
                Err(reason) => UrlOutcome::Err(reason@),
            };
            match r {
                Ok(address) => broker_outcome(input@, outcome) == BrokerOutcome::Ok(
                    (address.0@, address.1),
                ),
                Err(e) => broker_outcome(input@, outcome) == BrokerOutcome::Err(e@),
            }
        }),
        match (url, r) {
            (Ok((Some(host), Some(port))), Ok(address)) => address.0@ == host@ && address.1 == port,
            (Ok((Some(host), None)), Ok(address)) => address.0@ == host@ && address.1 == 1883,
            (Ok((None, _)), Err(BrokerError::MissingHost)) => true,
            (Err(why), Err(BrokerError::InvalidUrl { input: shown, reason })) => shown@ == input@
                && reason@ == why@,
            _ => false,
        },
{
    match url {
        Err(reason) => Err(BrokerError::InvalidUrl { input: input.to_owned(), reason }),
        Ok((None, _)) => Err(BrokerError::MissingHost),
        Ok((Some(host), port)) => Ok((host, port.unwrap_or(DEFAULT_BROKER_PORT))),
    }
}

/// The host and port of a broker, from `host`, `host:port` or a URL.
pub fn parse_broker(input: &str) -> (r: Result<(String, u16), BrokerError>)
    ensures
        match r {
            Ok(address) => broker_outcome(input@, url_parts(broker_url(input@)))
                == BrokerOutcome::Ok((address.0@, address.1)),
            Err(e) => broker_outcome(input@, url_parts(broker_url(input@)))
                == BrokerOutcome::Err(e@),
        },
        ({
            let url = url_parts(
                if occurs_in("://"@, input@) {
                    input@
                } else {
                    "mqtt://"@ + input@
                },
            );
            match (url, r) {
                (Ok((Some(host), Some(port))), Ok(address)) => address.0@ == host && address.1
                    == port,
                (Ok((Some(host), None)), Ok(address)) => address.0@ == host && address.1 == 1883,
                (Ok((None, _)), Err(BrokerError::MissingHost)) => true,
                (Err(why), Err(BrokerError::InvalidUrl { input: shown, reason })) => shown@
                    == input@ && reason@ == why,
                _ => false,
            }
        }),
{
    let normalized = if contains_pattern(input, "://") {
        input.to_owned()
    } else {
        let mut normalized = "mqtt://".to_owned();
        normalized.append(input);
        normalized
    };
    broker_address(input, parse_url(normalized.as_str()))
}

/// A name and a password to log in to a broker with.
#[derive(Debug, Clone, PartialEq, Eq)]
pub struct Credentials {
    pub username: String,
    pub password: String,
}

/// What a connection to a broker is made with.
#[derive(Debug, Clone, PartialEq, Eq)]
pub struct ConnectOptions {
    pub client_id: String,
    pub host: String,
    pub port: u16,
    pub keep_alive_secs: u64,
    pub clean_session: bool,
    pub credentials: Option<Credentials>,
    pub request_capacity: usize,
}

/// Seconds between signs of life on a connection.
pub const KEEP_ALIVE_SECS: u64 = 10;

/// How many requests to a broker may wait.
pub const REQUEST_CAPACITY: usize = 64;

impl ConnectOptions {
    /// Whether the log-in is what the given name and password ask for: none without a name, and an
    /// empty password where only a name is given.
    pub open spec fn logs_in_as(&self, username: Option<&str>, password: Option<&str>) -> bool {
        match username {
            None => self.credentials is None,
            Some(name) => {
                &&& self.credentials is Some
                &&& self.credentials->0.username@ == name@
                &&& self.credentials->0.password@ == match password {
                    Some(password) => password@,
                    None => Seq::empty(),
                }
            },
        }
    }

    /// The options for a client of a broker.
    pub fn new(
        broker: &str,
        client_id: &str,
        username: Option<&str>,
        password: Option<&str>,
    ) -> (r: Result<Self, BrokerError>)
        ensures
            match r {
                Ok(options) => {
                    &&& broker_outcome(broker@, url_parts(broker_url(broker@)))
                        == BrokerOutcome::Ok((options.host@, options.port))
                    &&& options.client_id@ == client_id@
                    &&& options.keep_alive_secs == KEEP_ALIVE_SECS
                    &&& !options.clean_session
                    &&& options.logs_in_as(username, password)
                    &&& options.request_capacity == REQUEST_CAPACITY
                },
                Err(e) => broker_outcome(broker@, url_parts(broker_url(broker@)))
                    == BrokerOutcome::Err(e@),
            },
    {
        let (host, port) = match parse_broker(broker) {
            Ok(address) => address,
            Err(e) => {
                return Err(e);
            },
        };
        let credentials = match username {
            None => None,
            Some(name) => Some(
                Credentials {
                    username: name.to_owned(),
                    password: match password {
                        Some(password) => password.to_owned(),
                        None => String::new(),
                    },
                },
            ),
        };
        Ok(
            ConnectOptions {
                client_id: client_id.to_owned(),
                host,
                port,
                keep_alive_secs: KEEP_ALIVE_SECS,
                clean_session: false,
                credentials,
                request_capacity: REQUEST_CAPACITY,
            },
        )
    }
}

/// A connection to a broker and the topics that it listens to.
#[derive(Debug, Clone, PartialEq, Eq)]
pub struct RelayConnection {
    pub options: ConnectOptions,
    pub subscriptions: Vec<String>,
}

impl RelayConnection {
    /// A connection that listens to the given topics.
    pub fn new(
        broker: &str,
        client_id: &str,
        username: Option<&str>,
        password: Option<&str>,
        subscriptions: Vec<String>,
    ) -> (r: Result<Self, BrokerError>)
        ensures
            match r {
                Ok(connection) => {
                    &&& broker_outcome(broker@, url_parts(broker_url(broker@)))
                        == BrokerOutcome::Ok((connection.options.host@, connection.options.port))
                    &&& connection.options.client_id@ == client_id@
                    &&& connection.options.keep_alive_secs == KEEP_ALIVE_SECS
                    &&& !connection.options.clean_session
                    &&& connection.options.logs_in_as(username, password)
                    &&& connection.options.request_capacity == REQUEST_CAPACITY
                    &&& connection.subscriptions == subscriptions
                },
                Err(e) => broker_outcome(broker@, url_parts(broker_url(broker@)))
                    == BrokerOutcome::Err(e@),
            },
    {
        match ConnectOptions::new(broker, client_id, username, password) {
            Ok(options) => Ok(RelayConnection { options, subscriptions }),
            Err(e) => Err(e),
        }
    }
}

/// The relay of one side of a node that has a single stream each way.
#[derive(Debug, Clone)]
pub struct MqttRelayClient {
    pub connection: RelayConnection,
    pub topics: RelayTopics,
    pub role: RelayRole,
}

/// `amr-{role}-{node_id}`.
pub open spec fn relay_client_id(role: RelayRole, node_id: Seq<char>) -> Seq<char> {
    "amr-"@ + role.spec_name() + "-"@ + node_id
}

/// The topic that a side publishes to.
pub open spec fn published_topic(topics: RelayTopics, role: RelayRole) -> Seq<char> {
    match role {
        RelayRole::User => topics.inbound@,
        RelayRole::Work => topics.outbound@,
    }
}

/// The topic that a side listens to.
pub open spec fn subscribed_topic(topics: RelayTopics, role: RelayRole) -> Seq<char> {
    match role {
        RelayRole::User => topics.outbound@,
        RelayRole::Work => topics.inbound@,
    }
}

impl MqttRelayClient {
    /// The relay of one side of a node.
    pub fn new(
        broker: &str,
        node_id: &str,
        role: RelayRole,
        username: Option<&str>,
        password: Option<&str>,
    ) -> (r: Result<Self, BrokerError>)
        ensures
            match r {
                Ok(relay) => {
                    let options = relay.connection.options;
                    &&& broker_outcome(broker@, url_parts(broker_url(broker@)))
                        == BrokerOutcome::Ok((options.host@, options.port))
                    &&& options.client_id@ == relay_client_id(role, node_id@)
                    &&& options.keep_alive_secs == KEEP_ALIVE_SECS
                    &&& !options.clean_session
                    &&& options.logs_in_as(username, password)
                    &&& options.request_capacity == REQUEST_CAPACITY
                    &&& relay.topics.inbound@ == node_topic(node_id@, "/in"@)
                    &&& relay.topics.outbound@ == node_topic(node_id@, "/out"@)
                    &&& options.client_id@ == "amr-"@ + match role {
                        RelayRole::User => "user"@,
                        RelayRole::Work => "work"@,
                    } + "-"@ + node_id@
                    &&& relay.topics.inbound@ == "acp/"@ + node_id@ + "/in"@
                    &&& relay.topics.outbound@ == "acp/"@ + node_id@ + "/out"@
                    &&& relay.connection.subscriptions@[0]@ == match role {
                        RelayRole::User => relay.topics.outbound@,
                        RelayRole::Work => relay.topics.inbound@,
                    }
                    &&& relay.connection.subscriptions@.len() == 1
                    &&& relay.connection.subscriptions@[0]@ == subscribed_topic(relay.topics, role)
                    &&& relay.role == role
                },
                Err(e) => broker_outcome(broker@, url_parts(broker_url(broker@)))
                    == BrokerOutcome::Err(e@),
            },
    {
        let topics = RelayTopics::for_node(node_id);
        let mut client_id = "amr-".to_owned();
        client_id.append(role.as_str());
        client_id.append("-");
        client_id.append(node_id);
        let listened = match role {
            RelayRole::User => topics.outbound.clone(),
            RelayRole::Work => topics.inbound.clone(),
        };
        let mut subscriptions: Vec<String> = Vec::new();
        subscriptions.push(listened);
        match RelayConnection::new(broker, client_id.as_str(), username, password, subscriptions) {
            Ok(connection) => Ok(MqttRelayClient { connection, topics, role }),
            Err(e) => Err(e),
        }
    }

    /// The topic that this side publishes to.
    pub fn publish_topic(&self) -> (topic: &str)
        ensures
            topic@ == published_topic(self.topics, self.role),
            topic@ == match self.role {
                RelayRole::User => self.topics.inbound@,
                RelayRole::Work => self.topics.outbound@,
            },
    {
        match self.role {
            RelayRole::User => self.topics.inbound.as_str(),
            RelayRole::Work => self.topics.outbound.as_str(),
        }
    }

    /// The topic that this side listens to.
    pub fn subscribe_topic(&self) -> (topic: &str)
        ensures
            topic@ == subscribed_topic(self.topics, self.role),
            topic@ == match self.role {
                RelayRole::User => self.topics.outbound@,
                RelayRole::Work => self.topics.inbound@,
            },
    {
        match self.role {
            RelayRole::User => self.topics.outbound.as_str(),
            RelayRole::Work => self.topics.inbound.as_str(),
        }
    }
}

/// A message from the broker.
#[derive(Debug)]
pub enum MqttIncomingMessage {
    Publish { topic: String, payload: Vec<u8> },
}

/// What a connection to a broker reports.
#[derive(Debug)]
pub enum ConnectionEvent {
    Connected,
    Published { topic: String, payload: Vec<u8> },
    Other,
    Failed,
    ReceiverDropped,
}

/// What is to be done about a [`ConnectionEvent`].
#[derive(Debug)]
pub enum ConnectionStep {
    SubscribeAll,
    Deliver(MqttIncomingMessage),
    PollAgain,
    RetryAfterSecs(u64),
    Stop,
}

/// Seconds to wait after a connection has failed.
pub const RETRY_SECS: u64 = 1;

/// One turn of the loop that serves a connection: topics are subscribed to anew with every
/// connection, messages are passed on, failures are waited out, and only a receiver that is gone
/// ends the loop.
pub fn connection_step(event: ConnectionEvent) -> (step: ConnectionStep)
    ensures
        step == match event {
            ConnectionEvent::Connected => ConnectionStep::SubscribeAll,
            ConnectionEvent::Published { topic, payload } => ConnectionStep::Deliver(
                MqttIncomingMessage::Publish { topic, payload },
            ),
            ConnectionEvent::Other => ConnectionStep::PollAgain,
            ConnectionEvent::Failed => ConnectionStep::RetryAfterSecs(RETRY_SECS),
            ConnectionEvent::ReceiverDropped => ConnectionStep::Stop,
        },
{
    match event {
        ConnectionEvent::Connected => ConnectionStep::SubscribeAll,
        ConnectionEvent::Published { topic, payload } => ConnectionStep::Deliver(
            MqttIncomingMessage::Publish { topic, payload },
        ),
        ConnectionEvent::Other => ConnectionStep::PollAgain,
        ConnectionEvent::Failed => ConnectionStep::RetryAfterSecs(RETRY_SECS),
        ConnectionEvent::ReceiverDropped => ConnectionStep::Stop,
    }
}

/// Whether a character may stand in a client identifier.
pub open spec fn allowed_in_client_id(c: char) -> bool {
    ('0' <= c && c <= '9') || ('A' <= c && c <= 'Z') || ('a' <= c && c <= 'z') || c == '-' || c
        == '_'
}

/// A text with every character that may not stand in a client identifier replaced by a dash.
pub open spec fn sanitized(text: Seq<char>) -> Seq<char> {
    text.map_values(
        |c: char|
            if allowed_in_client_id(c) {
                c
            } else {
                '-'
            },
    )
}

/// A text made fit to stand in an MQTT client identifier.
pub fn sanitize_for_mqtt_client_id(value: &str) -> (text: String)
    ensures
        text@ == sanitized(value@),
        text@.len() == value@.len(),
        forall|i: int|
            0 <= i < value@.len() ==> (#[trigger] text@[i]) == if ('0' <= value@[i] && value@[i]
                <= '9') || ('A' <= value@[i] && value@[i] <= 'Z') || ('a' <= value@[i] && value@[i]
                <= 'z') || value@[i] == '-' || value@[i] == '_' {
                value@[i]
            } else {
                '-'
            },
{
    let mut text = String::new();
    for ch in it: value.chars()
        invariant
            it.seq() == value@,
            text@ == sanitized(value@.take(it.index())),
    {
        let ghost seen = value@.take(it.index());
        assert(value@.take(it.index() + 1) =~= seen.push(ch));
        assert(sanitized(seen.push(ch)) =~= sanitized(seen).push(
            if allowed_in_client_id(ch) {
                ch
            } else {
                '-'
            },
        ));
        if ('0' <= ch && ch <= '9') || ('A' <= ch && ch <= 'Z') || ('a' <= ch && ch <= 'z') || ch
            == '-' || ch == '_' {
            text.push(ch);
        } else {
            text.push('-');
        }
    }
    assert(value@.take(value@.len() as int) =~= value@);
    text
}

/// The two sides of a node mirror each other: what one publishes, the other listens to.
pub proof fn law_sides_mirror_each_other(topics: RelayTopics)
    ensures
        published_topic(topics, RelayRole::User) == subscribed_topic(topics, RelayRole::Work),
        published_topic(topics, RelayRole::Work) == subscribed_topic(topics, RelayRole::User),
{
}

/// A sanitized text has as many characters as the text had and none that is not allowed, and
/// sanitizing it again changes nothing.
pub proof fn law_sanitized_is_fit(text: Seq<char>)
    ensures
        sanitized(text).len() == text.len(),
        forall|i: int| 0 <= i < text.len() ==> allowed_in_client_id(#[trigger] sanitized(text)[i]),
        sanitized(sanitized(text)) == sanitized(text),
{
    assert(sanitized(sanitized(text)) =~= sanitized(text));
}

/// No two sessions share an input topic or an output topic, on one node or on two.
pub proof fn law_sessions_have_their_own_topics(
    node: Seq<char>,
    client: Seq<char>,
    other_node: Seq<char>,
    other_client: Seq<char>,
    suffix: Seq<char>,
)
    requires
        is_client_level(client),
        is_client_level(other_client),
        session_topic(node, client, suffix) == session_topic(other_node, other_client, suffix),
    ensures
        node == other_node,
        client == other_client,
{
    reveal_strlit("acp/");
    reveal_strlit("/");
    let a = session_topic(node, client, suffix);
    let b = session_topic(other_node, other_client, suffix);
    let end = a.len() - suffix.len();
    let slash_a = end - client.len() - 1;
    let slash_b = end - other_client.len() - 1;
    assert(a[slash_a] == '/');
    assert(b[slash_b] == '/');
    assert forall|i: int| 0 <= i < client.len() implies a[slash_a + 1 + i] == #[trigger] client[i] by {
    }
    assert forall|i: int| 0 <= i < other_client.len() implies b[slash_b + 1 + i]
        == #[trigger] other_client[i] by {
    }
    if slash_a < slash_b {
        assert(client[slash_b - slash_a - 1] == '/');
        assert(client.contains('/'));
    }
    if slash_b < slash_a {
        assert(other_client[slash_a - slash_b - 1] == '/');
        assert(other_client.contains('/'));
    }
    assert(node =~= a.subrange(4, slash_a));
    assert(other_node =~= b.subrange(4, slash_b));
    assert(client =~= a.subrange(slash_a + 1, end));
    assert(other_client =~= b.subrange(slash_b + 1, end));
}

/// On a node the topic for requests, the input topics and the output topics are kept apart, whoever
/// the clients are.
pub proof fn law_topic_kinds_are_apart(node: Seq<char>, client: Seq<char>, other: Seq<char>)
    ensures
        session_topic(node, client, "/in"@) != session_topic(node, other, "/out"@),
        session_topic(node, client, "/in"@) != node_topic(node, "/control"@),
        session_topic(node, client, "/out"@) != node_topic(node, "/control"@),
{
    reveal_strlit("/in");
    reveal_strlit("/out");
    reveal_strlit("/control");
    assert(session_topic(node, client, "/in"@).last() == 'n');
    assert(session_topic(node, other, "/out"@).last() == 't');
    assert(session_topic(node, client, "/out"@).last() == 't');
    assert(node_topic(node, "/control"@).last() == 'l');
}

/// The topics are laid out level by level: `acp`, the node, then the client of a session if it is
/// one, and at the end what the topic is for.
pub proof fn law_topics_are_laid_out(node: Seq<char>, client: Seq<char>, suffix: Seq<char>)
    ensures
        session_topic(node, client, suffix).len() == node.len() + client.len() + suffix.len() + 5,
        session_topic(node, client, suffix).take(4) == seq!['a', 'c', 'p', '/'],
        session_topic(node, client, suffix).subrange(4, 4int + node.len()) == node,
        session_topic(node, client, suffix)[4int + node.len()] == '/',
        session_topic(node, client, suffix).subrange(
            5int + node.len(),
            5int + node.len() + client.len(),
        ) == client,
        session_topic(node, client, suffix).skip(5int + node.len() + client.len()) == suffix,
        node_topic(node, suffix).len() == node.len() + suffix.len() + 4,
        node_topic(node, suffix).take(4) == seq!['a', 'c', 'p', '/'],
        node_topic(node, suffix).subrange(4, 4int + node.len()) == node,
        node_topic(node, suffix).skip(4int + node.len()) == suffix,
{
    reveal_strlit("acp/");
    reveal_strlit("/");
    let a = session_topic(node, client, suffix);
    let b = node_topic(node, suffix);
    assert(a.take(4) =~= seq!['a', 'c', 'p', '/']);
    assert(a.subrange(4, 4int + node.len()) =~= node);
    assert(a.subrange(5int + node.len(), 5int + node.len() + client.len()) =~= client);
    assert(a.skip(5int + node.len() + client.len()) =~= suffix);
    assert(b.take(4) =~= seq!['a', 'c', 'p', '/']);
    assert(b.subrange(4, 4int + node.len()) =~= node);
    assert(b.skip(4int + node.len()) =~= suffix);
}

/// The user side publishes what it reads under the inbound topic and listens to the outbound one,
/// and the work side the other way round.
pub proof fn law_input_goes_in_and_output_goes_out(topics: RelayTopics)
    ensures
        published_topic(topics, RelayRole::User) == topics.inbound@,
        subscribed_topic(topics, RelayRole::User) == topics.outbound@,
        published_topic(topics, RelayRole::Work) == topics.outbound@,
        subscribed_topic(topics, RelayRole::Work) == topics.inbound@,
{
}

/// Sanitizing keeps every letter and digit of ASCII, every dash and every underscore in its place,
/// and puts a dash in the place of everything else.
pub proof fn law_sanitizing_goes_by_the_character(text: Seq<char>, i: int)
    requires
        0 <= i < text.len(),
    ensures
        ({
            let c = text[i];
            let kept = ('0' <= c && c <= '9') || ('A' <= c && c <= 'Z') || ('a' <= c && c <= 'z')
                || c == '-' || c == '_';
            sanitized(text)[i] == if kept {
                c
            } else {
                '-'
            }
        }),
{
}

/// An address that names a scheme is read as it is, and one that does not is read with `mqtt` as its
/// scheme, after which it names one.
pub proof fn law_addresses_get_a_scheme(input: Seq<char>)
    ensures
        (exists|head: Seq<char>, tail: Seq<char>| input == #[trigger] (head + "://"@ + tail))
            ==> broker_url(input) == input,
        !(exists|head: Seq<char>, tail: Seq<char>| input == #[trigger] (head + "://"@ + tail))
            ==> broker_url(input) == "mqtt://"@ + input,
        exists|head: Seq<char>, tail: Seq<char>|
            broker_url(input) == #[trigger] (head + "://"@ + tail),
{
    law_occurrence_is_a_cut("://"@, input);
    if !occurs_in("://"@, input) {
        reveal_strlit("mqtt://");
        reveal_strlit("://");
        let head = seq!['m', 'q', 't', 't'];
        assert(broker_url(input) =~= head + "://"@ + input);
    }
}

/// The host and the port of a broker are those of its URL, with the port 1883 where it names none.
/// Without a URL or without a host there is an error, which says so.
pub proof fn law_brokers_are_where_their_urls_say(
    input: Seq<char>,
    host: Seq<char>,
    port: Option<u16>,
    reason: Seq<char>,
)
    ensures
        broker_outcome(input, UrlOutcome::Ok((Some(host), port))) is Ok,
        broker_outcome(input, UrlOutcome::Ok((Some(host), port)))->Ok_0.0 == host,
        port is Some ==> broker_outcome(input, UrlOutcome::Ok((Some(host), port)))->Ok_0.1
            == port->0,
        port is None ==> broker_outcome(input, UrlOutcome::Ok((Some(host), port)))->Ok_0.1 == 1883,
        broker_outcome(input, UrlOutcome::Ok((None, port))) == BrokerOutcome::Err(
            BrokerErrorView::MissingHost,
        ),
        broker_outcome(input, UrlOutcome::Err(reason)) == BrokerOutcome::Err(
            BrokerErrorView::InvalidUrl { input, reason },
        ),
{
}

/// A connection logs in exactly where a name is given: with that name, and with the password that is
/// given, or an empty one.
pub proof fn law_login_is_what_is_given(
    options: ConnectOptions,
    username: Option<&str>,
    password: Option<&str>,
)
    requires
        options.logs_in_as(username, password),
    ensures
        options.credentials is Some <==> username is Some,
        username is Some ==> options.credentials->0.username@ == username->0@,
        username is Some && password is Some ==> options.credentials->0.password@ == password->0@,
        username is Some && password is None ==> options.credentials->0.password@.len() == 0,
{
}

/// The identifiers of the two sides of a node are different, and so are those of two nodes, and each
/// one names its side and its node.
pub proof fn law_relay_client_ids_are_apart(
    role: RelayRole,
    node: Seq<char>,
    other_role: RelayRole,
    other_node: Seq<char>,
)
    ensures
        relay_client_id(role, node) == relay_client_id(other_role, other_node) ==> role
            == other_role && node == other_node,
        relay_client_id(RelayRole::User, node) == "amr-user-"@ + node,
        relay_client_id(RelayRole::Work, node) == "amr-work-"@ + node,
{
    reveal_strlit("amr-");
    reveal_strlit("-");
    reveal_strlit("user");
    reveal_strlit("work");
    reveal_strlit("amr-user-");
    reveal_strlit("amr-work-");
    assert(relay_client_id(RelayRole::User, node) =~= "amr-user-"@ + node);
    assert(relay_client_id(RelayRole::Work, node) =~= "amr-work-"@ + node);
    let a = relay_client_id(role, node);
    let b = relay_client_id(other_role, other_node);
    if a == b {
        assert(a[4] == b[4]);
        assert(node =~= a.skip(9));
        assert(other_node =~= b.skip(9));
    }
}

} // verus!
