//! The messages that travel over MQTT: chunks of standard streams and session control.
use vstd::prelude::*;

use crate::encoding::{
    base64_decoded, base64_encoded, base64_fault, base64_len, decode_base64, encode_base64,
    is_base64, law_decoding_undoes_encoding, Base64Fault,
};
use crate::json::{
    json_literal, json_string, law_literals_read_back, lemma_literal_ends_by_itself,
    lemma_literal_on_one_line, lemma_read_plain, read_literal,
};
use crate::text::{
    after_prefix, lemma_after_prefix, lemma_no_line_feed, lemma_numeral_injective,
    lemma_numeral_lacks, lemma_numeral_on_one_line, lemma_read_number, lemma_regroup,
    lemma_same_after, lemma_split_at_mark, numeral, push_numeral, read_number, same_text,
};

verus! {

/// The standard stream that a chunk of bytes belongs to.
#[derive(Debug, Clone, Copy, PartialEq, Eq, Structural)]
pub enum StreamType {
    Stdin,
    Stdout,
    Stderr,
}

/// One chunk of a stream, numbered so that the receiver can restore the order.
#[derive(Debug, Clone, PartialEq, Eq)]
pub struct AcpMessage {
    pub seq: u64,
    pub stream: StreamType,
    pub content: String,
    pub encoding: String,
}

/// Why the content of a message could not be turned back into bytes.
#[derive(Debug, Clone, PartialEq, Eq)]
pub enum DecodeError {
    Base64(Base64Fault),
    UnsupportedEncoding(String),
}

/// A [`DecodeError`] with its text as characters.
pub enum DecodeErrorView {
    Base64(Base64Fault),
    UnsupportedEncoding(Seq<char>),
}

impl View for DecodeError {
    type V = DecodeErrorView;

    open spec fn view(&self) -> DecodeErrorView {
        match self {
            DecodeError::Base64(fault) => DecodeErrorView::Base64(*fault),
            DecodeError::UnsupportedEncoding(name) => DecodeErrorView::UnsupportedEncoding(name@),
        }
    }
}

impl DecodeError {
    /// What the error says to a person.
    pub open spec fn spec_message(&self) -> Seq<char> {
        match self@ {
            DecodeErrorView::Base64(_) => "failed to decode base64 content"@,
            DecodeErrorView::UnsupportedEncoding(name) => "unsupported encoding: "@ + name,
        }
    }

    /// The text that is shown for the error.
    pub fn message(&self) -> (text: String)
        ensures
            text@ == self.spec_message(),
            match self {
                DecodeError::Base64(_) => text@ == "failed to decode base64 content"@,
                DecodeError::UnsupportedEncoding(name) => text@ == "unsupported encoding: "@
                    + name@,
            },
    {
        match self {
            DecodeError::Base64(_) => "failed to decode base64 content".to_owned(),
            DecodeError::UnsupportedEncoding(name) => {
                let mut text = "unsupported encoding: ".to_owned();
                text.append(name.as_str());
                text
            },
        }
    }
}

/// The encoding that new messages carry.
pub fn default_encoding() -> (name: String)
    ensures
        name@ == "base64"@,
{
    "base64".to_owned()
}

/// What comes of decoding the content of a message: bytes or an error.
pub type DecodeOutcome = Result<Seq<u8>, DecodeErrorView>;

/// What the content of a message stands for, given the encoding it names.
pub open spec fn decoded(content: Seq<char>, encoding: Seq<char>) -> DecodeOutcome {
    if encoding == "base64"@ {
        match base64_decoded(content) {
            Ok(bytes) => Ok(bytes),
            Err(fault) => Err(DecodeErrorView::Base64(fault)),
        }
    } else {
        Err(DecodeErrorView::UnsupportedEncoding(encoding))
    }
}

/// The decision behind [`AcpMessage::decode_bytes`], for a given outcome of the base64 decoder.
pub fn decode_outcome(
    encoding: &str,
    outcome: Result<Vec<u8>, Base64Fault>,
) -> (r: Result<Vec<u8>, DecodeError>)
    ensures
        match (outcome, r) {
            (Ok(bytes), Ok(given)) => encoding@ == "base64"@ && given@ == bytes@ && given == bytes,
            (Err(_), Ok(_)) => false,
            (Ok(_), Err(e)) => encoding@ != "base64"@ && e@
                == DecodeErrorView::UnsupportedEncoding(encoding@),
            (Err(fault), Err(e)) => e@ == if encoding@ == "base64"@ {
                DecodeErrorView::Base64(fault)
            } else {
                DecodeErrorView::UnsupportedEncoding(encoding@)
            },
        },
{
    if !same_text(encoding, "base64") {
        return Err(DecodeError::UnsupportedEncoding(encoding.to_owned()));
    }
    match outcome {
        Ok(bytes) => Ok(bytes),
        Err(fault) => Err(DecodeError::Base64(fault)),
    }
}

impl AcpMessage {
    /// The bytes that the message stands for, or why there are none.
    pub open spec fn decoded(&self) -> DecodeOutcome {
        decoded(self.content@, self.encoding@)
    }

    /// A message that carries `bytes` of `stream` under the number `seq`.
    pub fn new(seq: u64, stream: StreamType, bytes: &[u8]) -> (message: Self)
        requires
            base64_len(bytes@.len()) <= isize::MAX,
        ensures
            message.seq == seq,
            message.stream == stream,
            message.content@ == base64_encoded(bytes@),
            message.encoding@ == "base64"@,
            message.decoded() == DecodeOutcome::Ok(bytes@),
    {
        proof {
            law_decoding_undoes_encoding(bytes@);
        }
        AcpMessage { seq, stream, content: encode_base64(bytes), encoding: default_encoding() }
    }

    /// The bytes of the chunk.
    pub fn decode_bytes(&self) -> (r: Result<Vec<u8>, DecodeError>)
        ensures
            match r {
                Ok(bytes) => self.decoded() == DecodeOutcome::Ok(bytes@),
                Err(e) => self.decoded() == DecodeOutcome::Err(e@),
            },
            match r {
                Ok(bytes) => self.encoding@ == "base64"@ && self.content@ == base64_encoded(bytes@),
                Err(DecodeError::Base64(fault)) => self.encoding@ == "base64"@ && fault
                    == base64_fault(self.content@),
                Err(DecodeError::UnsupportedEncoding(name)) => self.encoding@ != "base64"@ && name@
                    == self.encoding@,
            },
    {
        proof {
            if is_base64(self.content@) {
                law_decoding_undoes_encoding(base64_decoded(self.content@)->Ok_0);
            }
        }
        decode_outcome(self.encoding.as_str(), decode_base64(self.content.as_str()))
    }
}

/// Why a message could not be written as JSON.
#[derive(Debug)]
pub enum SerializeError {
    Message(serde_json::Error),
    Control(serde_json::Error),
}

impl SerializeError {
    /// The text that is shown for the error.
    pub fn message(&self) -> (text: String)
        ensures
            text@ == match self {
                SerializeError::Message(_) => "failed to serialize message"@,
                SerializeError::Control(_) => "failed to serialize control message"@,
            },
    {
        match self {
            SerializeError::Message(_) => "failed to serialize message".to_owned(),
            SerializeError::Control(_) => "failed to serialize control message".to_owned(),
        }
    }
}

impl StreamType {
    /// The name of the stream in a message.
    pub open spec fn spec_wire_name(self) -> Seq<char> {
        match self {
            StreamType::Stdin => "stdin"@,
            StreamType::Stdout => "stdout"@,
            StreamType::Stderr => "stderr"@,
        }
    }

    /// The name of the stream in a message.
    pub fn wire_name(self) -> (name: &'static str)
        ensures
            name@ == self.spec_wire_name(),
            name@ == match self {
                StreamType::Stdin => "stdin"@,
                StreamType::Stdout => "stdout"@,
                StreamType::Stderr => "stderr"@,
            },
    {
        match self {
            StreamType::Stdin => "stdin",
            StreamType::Stdout => "stdout",
            StreamType::Stderr => "stderr",
        }
    }
}

impl AcpMessage {
    /// The JSON text of the message: one object with its four fields, on one line.
    pub open spec fn json_text(&self) -> Seq<char> {
        "{\"seq\":"@ + numeral(self.seq as nat, 10) + ",\"type\":\""@
            + self.stream.spec_wire_name() + "\",\"content\":"@ + json_literal(self.content@)
            + ",\"encoding\":"@ + json_literal(self.encoding@) + "}"@
    }

    /// The line of the message: its JSON text in UTF-8, and a line feed.
    pub open spec fn json_line(&self) -> Seq<u8> {
        vstd::utf8::encode_utf8(self.json_text()).push(10)
    }

    /// The message as a line of JSON, in UTF-8 and with the line break.
    pub fn to_json_line(&self) -> (r: Result<Vec<u8>, SerializeError>)
        ensures
            r is Ok,
            r->Ok_0@ == self.json_line(),
            r->Ok_0@ == vstd::utf8::encode_utf8(
                "{\"seq\":"@ + numeral(self.seq as nat, 10) + ",\"type\":\""@ + match self.stream {
                    StreamType::Stdin => "stdin"@,
                    StreamType::Stdout => "stdout"@,
                    StreamType::Stderr => "stderr"@,
                } + "\",\"content\":"@ + json_literal(self.content@) + ",\"encoding\":"@
                    + json_literal(self.encoding@) + "}"@,
            ).push(10),
            read_message_line(r->Ok_0@) == Some(
                (MessageMembers {
                    seq: self.seq as int,
                    kind: match self.stream {
                        StreamType::Stdin => "stdin"@,
                        StreamType::Stdout => "stdout"@,
                        StreamType::Stderr => "stderr"@,
                    },
                    content: self.content@,
                    encoding: self.encoding@,
                }),
            ),
            forall|i: int| 0 <= i < r->Ok_0@.len() - 1 ==> (#[trigger] r->Ok_0@[i]) != 10,
    {
        let content = match json_string(self.content.as_str()) {
            Ok(content) => content,
            Err(e) => {
                return Err(SerializeError::Message(e));
            },
        };
        let encoding = match json_string(self.encoding.as_str()) {
            Ok(encoding) => encoding,
            Err(e) => {
                return Err(SerializeError::Message(e));
            },
        };
        let mut text = "{\"seq\":".to_owned();
        push_numeral(&mut text, self.seq as u128, 10);
        text.append(",\"type\":\"");
        text.append(self.stream.wire_name());
        text.append("\",\"content\":");
        text.append(content.as_str());
        text.append(",\"encoding\":");
        text.append(encoding.as_str());
        text.append("}");
        assert(text@ =~= self.json_text());
        proof {
            reveal_strlit("{\"seq\":");
            reveal_strlit(",\"type\":\"");
            reveal_strlit("\",\"content\":");
            reveal_strlit(",\"encoding\":");
            reveal_strlit("}");
            reveal_strlit("stdin");
            reveal_strlit("stdout");
            reveal_strlit("stderr");
            lemma_numeral_on_one_line(self.seq as nat, 10);
            lemma_literal_on_one_line(self.content@);
            lemma_literal_on_one_line(self.encoding@);
            law_lines_read_back(*self);
            lemma_no_line_feed(text@);
        }
        let mut bytes = text.as_str().as_bytes_vec();
        bytes.push(10);
        Ok(bytes)
    }
}

/// Whether two messages say the same.
pub open spec fn same_message(a: AcpMessage, b: AcpMessage) -> bool {
    &&& a.seq == b.seq
    &&& a.stream == b.stream
    &&& a.content@ == b.content@
    &&& a.encoding@ == b.encoding@
}

/// The JSON text of a message from its encoding on.
spec fn from_encoding(m: AcpMessage) -> Seq<char> {
    json_literal(m.encoding@) + "}"@
}

/// The JSON text of a message from its content on.
spec fn from_content(m: AcpMessage) -> Seq<char> {
    json_literal(m.content@) + (",\"encoding\":"@ + from_encoding(m))
}

/// The JSON text of a message from the name of its stream on.
spec fn from_stream(m: AcpMessage) -> Seq<char> {
    m.stream.spec_wire_name() + ("\",\"content\":"@ + from_content(m))
}

/// The JSON text of a message from its number on.
spec fn from_seq(m: AcpMessage) -> Seq<char> {
    numeral(m.seq as nat, 10) + (",\"type\":\""@ + from_stream(m))
}

proof fn lemma_message_parts(m: AcpMessage)
    ensures
        m.json_text() == "{\"seq\":"@ + from_seq(m),
{
    let to_seq = "{\"seq\":"@ + numeral(m.seq as nat, 10);
    let to_stream = to_seq + ",\"type\":\""@ + m.stream.spec_wire_name();
    let to_content = to_stream + "\",\"content\":"@ + json_literal(m.content@);
    lemma_regroup(
        to_content + ",\"encoding\":"@,
        json_literal(m.encoding@),
        "}"@,
    );
    lemma_regroup(to_content, ",\"encoding\":"@, from_encoding(m));
    lemma_regroup(
        to_stream + "\",\"content\":"@,
        json_literal(m.content@),
        ",\"encoding\":"@ + from_encoding(m),
    );
    lemma_regroup(to_stream, "\",\"content\":"@, from_content(m));
    lemma_regroup(
        to_seq + ",\"type\":\""@,
        m.stream.spec_wire_name(),
        "\",\"content\":"@ + from_content(m),
    );
    lemma_regroup(to_seq, ",\"type\":\""@, from_stream(m));
    lemma_regroup(
        "{\"seq\":"@,
        numeral(m.seq as nat, 10),
        ",\"type\":\""@ + from_stream(m),
    );
}

/// The line of a message tells everything about it: two messages with the same line say the same.
pub proof fn law_lines_tell_messages_apart(a: AcpMessage, b: AcpMessage)
    requires
        a.json_line() == b.json_line(),
    ensures
        same_message(a, b),
{
    assert(a.json_line().drop_last() =~= vstd::utf8::encode_utf8(a.json_text()));
    assert(b.json_line().drop_last() =~= vstd::utf8::encode_utf8(b.json_text()));
    vstd::utf8::encode_utf8_decode_utf8(a.json_text());
    vstd::utf8::encode_utf8_decode_utf8(b.json_text());
    lemma_message_parts(a);
    lemma_message_parts(b);
    lemma_same_after("{\"seq\":"@, from_seq(a), from_seq(b));
    lemma_numeral_lacks(a.seq as nat, 10, ',');
    lemma_numeral_lacks(b.seq as nat, 10, ',');
    reveal_strlit(",\"type\":\"");
    lemma_split_at_mark(
        numeral(a.seq as nat, 10),
        numeral(b.seq as nat, 10),
        ',',
        ",\"type\":\""@ + from_stream(a),
        ",\"type\":\""@ + from_stream(b),
    );
    lemma_numeral_injective(a.seq as nat, b.seq as nat, 10);
    lemma_same_after(",\"type\":\""@, from_stream(a), from_stream(b));
    lemma_stream_name(a.stream, b.stream);
    lemma_stream_name(b.stream, a.stream);
    reveal_strlit("\",\"content\":");
    lemma_split_at_mark(
        a.stream.spec_wire_name(),
        b.stream.spec_wire_name(),
        '"',
        "\",\"content\":"@ + from_content(a),
        "\",\"content\":"@ + from_content(b),
    );
    lemma_same_after("\",\"content\":"@, from_content(a), from_content(b));
    lemma_literal_ends_by_itself(
        a.content@,
        b.content@,
        ",\"encoding\":"@ + from_encoding(a),
        ",\"encoding\":"@ + from_encoding(b),
    );
    lemma_same_after(",\"encoding\":"@, from_encoding(a), from_encoding(b));
    lemma_literal_ends_by_itself(a.encoding@, b.encoding@, "}"@, "}"@);
}

proof fn lemma_stream_name(a: StreamType, b: StreamType)
    ensures
        !a.spec_wire_name().contains('"'),
        a.spec_wire_name() == b.spec_wire_name() ==> a == b,
{
    reveal_strlit("stdin");
    reveal_strlit("stdout");
    reveal_strlit("stderr");
    if a.spec_wire_name() == b.spec_wire_name() && a != b {
        assert(a.spec_wire_name().len() == b.spec_wire_name().len());
        assert(a.spec_wire_name()[3] == b.spec_wire_name()[3]);
    }
}

/// What a user side asks of the work side.
#[derive(Debug, Clone, Copy, PartialEq, Eq, Structural)]
pub enum ControlAction {
    Spawn,
    Heartbeat,
    Shutdown,
}

impl ControlAction {
    /// The name of the action in a message.
    pub open spec fn spec_wire_name(self) -> Seq<char> {
        match self {
            ControlAction::Spawn => "spawn"@,
            ControlAction::Heartbeat => "heartbeat"@,
            ControlAction::Shutdown => "shutdown"@,
        }
    }

    /// The name of the action in a message.
    pub fn wire_name(self) -> (name: &'static str)
        ensures
            name@ == self.spec_wire_name(),
            name@ == match self {
                ControlAction::Spawn => "spawn"@,
                ControlAction::Heartbeat => "heartbeat"@,
                ControlAction::Shutdown => "shutdown"@,
            },
    {
        match self {
            ControlAction::Spawn => "spawn",
            ControlAction::Heartbeat => "heartbeat",
            ControlAction::Shutdown => "shutdown",
        }
    }
}

/// A request about one session, with the time it was sent at.
#[derive(Debug, Clone, PartialEq, Eq)]
pub struct ControlMessage {
    pub client_id: String,
    pub action: ControlAction,
    pub sent_at_ms: u64,
}

/// A point in time as the system's clock tells it.
#[verifier::external_type_specification]
#[verifier::external_body]
pub struct ExSystemTime(std::time::SystemTime);

/// The error for a point in time that lies after another.
#[verifier::external_type_specification]
#[verifier::external_body]
pub struct ExSystemTimeError(std::time::SystemTimeError);

/// The nanoseconds from the Unix epoch to a point in time; negative before the epoch.
pub uninterp spec fn point_nanos(point: std::time::SystemTime) -> int;

/// The nanoseconds in a span of time.
pub uninterp spec fn span_nanos(span: std::time::Duration) -> nat;

/// `SystemTime::now` reads the clock: nothing is known of what it gives.
pub assume_specification[ std::time::SystemTime::now ]() -> (now: std::time::SystemTime);

/// `SystemTime::duration_since` gives the span from an earlier point in time to this one, and fails
/// exactly where the earlier one is in truth later.
pub assume_specification[ std::time::SystemTime::duration_since ](
    this: &std::time::SystemTime,
    earlier: std::time::SystemTime,
) -> (r: Result<std::time::Duration, std::time::SystemTimeError>)
    ensures
        r is Ok <==> point_nanos(earlier) <= point_nanos(*this),
        r is Ok ==> span_nanos(r->Ok_0) == point_nanos(*this) - point_nanos(earlier),
;

/// `Duration::as_millis` gives the whole milliseconds in a span of time.
pub assume_specification[ std::time::Duration::as_millis ](this: &std::time::Duration) -> (ms: u128)
    ensures
        ms == span_nanos(*this) / 1_000_000,
;

/// The constant `std::time::UNIX_EPOCH`, from which points in time are counted.
#[verifier::external_body]
fn unix_epoch() -> (epoch: std::time::SystemTime)
    ensures
        point_nanos(epoch) == 0,
{
    std::time::UNIX_EPOCH
}

/// The whole milliseconds from the Unix epoch to a point in time; none before the epoch.
pub open spec fn ms_at(now: std::time::SystemTime) -> Option<u128> {
    if point_nanos(now) >= 0 {
        Some((point_nanos(now) / 1_000_000) as u128)
    } else {
        None
    }
}

/// The low 64 bits of some milliseconds, or zero where there are none.
pub open spec fn as_timestamp(since_epoch: Option<u128>) -> u64 {
    match since_epoch {
        Some(elapsed) => elapsed as u64,
        None => 0u64,
    }
}

/// The whole milliseconds from the Unix epoch to a point in time; none before the epoch.
pub fn ms_since_epoch(now: std::time::SystemTime) -> (ms: Option<u128>)
    ensures
        ms == ms_at(now),
        match ms {
            Some(ms) => ms * 1_000_000 <= point_nanos(now) < (ms + 1) * 1_000_000,
            None => point_nanos(now) < 0,
        },
{
    match now.duration_since(unix_epoch()) {
        Ok(elapsed) => Some(elapsed.as_millis()),
        Err(_) => None,
    }
}

/// Milliseconds as a timestamp: the low 64 bits, or zero where the clock is before the epoch.
pub fn timestamp_ms(since_epoch: Option<u128>) -> (ms: u64)
    ensures
        ms == as_timestamp(since_epoch),
        ms == match since_epoch {
            Some(elapsed) => elapsed as u64,
            None => 0u64,
        },
{
    match since_epoch {
        Some(elapsed) => elapsed as u64,
        None => 0,
    }
}

/// The milliseconds since the Unix epoch, as the system's clock has them now; none where it is set
/// to a time before. The point in time that the clock gives can be any.
pub(crate) fn elapsed_ms() -> (ms: Option<u128>)
    ensures
        exists|now: std::time::SystemTime| ms == #[trigger] ms_at(now),
{
    ms_since_epoch(std::time::SystemTime::now())
}

/// The timestamp for now. The point in time that the clock gives can be any.
pub fn now_unix_ms() -> (ms: u64)
    ensures
        exists|now: std::time::SystemTime| ms == as_timestamp(#[trigger] ms_at(now)),
{
    timestamp_ms(elapsed_ms())
}

impl ControlMessage {
    /// A request that is sent now. The point in time that the clock gives can be any.
    pub fn new(client_id: &str, action: ControlAction) -> (message: Self)
        ensures
            message.client_id@ == client_id@,
            message.action == action,
            exists|now: std::time::SystemTime|
                message.sent_at_ms == as_timestamp(#[trigger] ms_at(now)),
    {
        ControlMessage::sent_at(client_id, action, now_unix_ms())
    }

    /// A request with the time it is sent at.
    pub fn sent_at(client_id: &str, action: ControlAction, sent_at_ms: u64) -> (message: Self)
        ensures
            message.client_id@ == client_id@,
            message.action == action,
            message.sent_at_ms == sent_at_ms,
    {
        ControlMessage { client_id: client_id.to_owned(), action, sent_at_ms }
    }

    /// The JSON text of the request: one object with its three fields, on one line.
    pub open spec fn json_text(&self) -> Seq<char> {
        "{\"client_id\":"@ + json_literal(self.client_id@) + ",\"action\":\""@
            + self.action.spec_wire_name() + "\",\"sent_at_ms\":"@ + numeral(
            self.sent_at_ms as nat,
            10,
        ) + "}"@
    }

    /// The JSON text of the request in UTF-8.
    pub open spec fn json_bytes(&self) -> Seq<u8> {
        vstd::utf8::encode_utf8(self.json_text())
    }

    /// The request as JSON, in UTF-8 and without a line break.
    pub fn to_vec(&self) -> (r: Result<Vec<u8>, SerializeError>)
        ensures
            r is Ok,
            r->Ok_0@ == self.json_bytes(),
            r->Ok_0@ == vstd::utf8::encode_utf8(
                "{\"client_id\":"@ + json_literal(self.client_id@) + ",\"action\":\""@
                    + match self.action {
                    ControlAction::Spawn => "spawn"@,
                    ControlAction::Heartbeat => "heartbeat"@,
                    ControlAction::Shutdown => "shutdown"@,
                } + "\",\"sent_at_ms\":"@ + numeral(self.sent_at_ms as nat, 10) + "}"@,
            ),
            read_control_text(vstd::utf8::decode_utf8(r->Ok_0@)) == Some(
                (ControlMembers {
                    client_id: self.client_id@,
                    action: match self.action {
                        ControlAction::Spawn => "spawn"@,
                        ControlAction::Heartbeat => "heartbeat"@,
                        ControlAction::Shutdown => "shutdown"@,
                    },
                    sent_at_ms: self.sent_at_ms as int,
                }),
            ),
            forall|i: int| 0 <= i < r->Ok_0@.len() ==> (#[trigger] r->Ok_0@[i]) != 10,
    {
        let client_id = match json_string(self.client_id.as_str()) {
            Ok(client_id) => client_id,
            Err(e) => {
                return Err(SerializeError::Control(e));
            },
        };
        let mut text = "{\"client_id\":".to_owned();
        text.append(client_id.as_str());
        text.append(",\"action\":\"");
        text.append(self.action.wire_name());
        text.append("\",\"sent_at_ms\":");
        push_numeral(&mut text, self.sent_at_ms as u128, 10);
        text.append("}");
        assert(text@ =~= self.json_text());
        proof {
            reveal_strlit("{\"client_id\":");
            reveal_strlit(",\"action\":\"");
            reveal_strlit("\",\"sent_at_ms\":");
            reveal_strlit("}");
            reveal_strlit("spawn");
            reveal_strlit("heartbeat");
            reveal_strlit("shutdown");
            lemma_numeral_on_one_line(self.sent_at_ms as nat, 10);
            lemma_literal_on_one_line(self.client_id@);
            law_requests_read_back(*self);
            lemma_no_line_feed(text@);
        }
        Ok(text.as_str().as_bytes_vec())
    }
}

/// The JSON text of a request from its time on.
spec fn from_sent_at(m: ControlMessage) -> Seq<char> {
    numeral(m.sent_at_ms as nat, 10) + "}"@
}

/// The JSON text of a request from the name of its action on.
spec fn from_action(m: ControlMessage) -> Seq<char> {
    m.action.spec_wire_name() + ("\",\"sent_at_ms\":"@ + from_sent_at(m))
}

/// The JSON text of a request from its client on.
spec fn from_client(m: ControlMessage) -> Seq<char> {
    json_literal(m.client_id@) + (",\"action\":\""@ + from_action(m))
}

proof fn lemma_control_parts(m: ControlMessage)
    ensures
        m.json_text() == "{\"client_id\":"@ + from_client(m),
{
    let to_client = "{\"client_id\":"@ + json_literal(m.client_id@);
    let to_action = to_client + ",\"action\":\""@ + m.action.spec_wire_name();
    lemma_regroup(
        to_action + "\",\"sent_at_ms\":"@,
        numeral(m.sent_at_ms as nat, 10),
        "}"@,
    );
    lemma_regroup(to_action, "\",\"sent_at_ms\":"@, from_sent_at(m));
    lemma_regroup(
        to_client + ",\"action\":\""@,
        m.action.spec_wire_name(),
        "\",\"sent_at_ms\":"@ + from_sent_at(m),
    );
    lemma_regroup(to_client, ",\"action\":\""@, from_action(m));
    lemma_regroup(
        "{\"client_id\":"@,
        json_literal(m.client_id@),
        ",\"action\":\""@ + from_action(m),
    );
}

proof fn lemma_action_name(a: ControlAction, b: ControlAction)
    ensures
        !a.spec_wire_name().contains('"'),
        a.spec_wire_name() == b.spec_wire_name() ==> a == b,
{
    reveal_strlit("spawn");
    reveal_strlit("heartbeat");
    reveal_strlit("shutdown");
    assert(a.spec_wire_name() == b.spec_wire_name() ==> a.spec_wire_name().len()
        == b.spec_wire_name().len());
}

/// The bytes of a request tell everything about it: two requests with the same bytes say the same.
pub proof fn law_bytes_tell_requests_apart(a: ControlMessage, b: ControlMessage)
    requires
        a.json_bytes() == b.json_bytes(),
    ensures
        a.client_id@ == b.client_id@,
        a.action == b.action,
        a.sent_at_ms == b.sent_at_ms,
{
    vstd::utf8::encode_utf8_decode_utf8(a.json_text());
    vstd::utf8::encode_utf8_decode_utf8(b.json_text());
    lemma_control_parts(a);
    lemma_control_parts(b);
    lemma_same_after("{\"client_id\":"@, from_client(a), from_client(b));
    lemma_literal_ends_by_itself(
        a.client_id@,
        b.client_id@,
        ",\"action\":\""@ + from_action(a),
        ",\"action\":\""@ + from_action(b),
    );
    lemma_same_after(",\"action\":\""@, from_action(a), from_action(b));
    lemma_action_name(a.action, b.action);
    lemma_action_name(b.action, a.action);
    reveal_strlit("\",\"sent_at_ms\":");
    lemma_split_at_mark(
        a.action.spec_wire_name(),
        b.action.spec_wire_name(),
        '"',
        "\",\"sent_at_ms\":"@ + from_sent_at(a),
        "\",\"sent_at_ms\":"@ + from_sent_at(b),
    );
    lemma_same_after("\",\"sent_at_ms\":"@, from_sent_at(a), from_sent_at(b));
    lemma_numeral_lacks(a.sent_at_ms as nat, 10, '}');
    lemma_numeral_lacks(b.sent_at_ms as nat, 10, '}');
    reveal_strlit("}");
    lemma_split_at_mark(
        numeral(a.sent_at_ms as nat, 10),
        numeral(b.sent_at_ms as nat, 10),
        '}',
        "}"@,
        "}"@,
    );
    lemma_numeral_injective(a.sent_at_ms as nat, b.sent_at_ms as nat, 10);
}

/// What a reader of JSON finds in a message.
pub struct MessageMembers {
    pub seq: int,
    pub kind: Seq<char>,
    pub content: Seq<char>,
    pub encoding: Seq<char>,
}

/// Reads the text of a message: an object with the members `seq`, a number, and `type`, `content`
/// and `encoding`, each a string, and nothing after it.
pub open spec fn read_message_text(text: Seq<char>) -> Option<MessageMembers> {
    match after_prefix(text, "{\"seq\":"@) {
        None => None,
        Some(from_seq) => {
            let (seq, after_seq) = read_number(from_seq);
            match after_prefix(after_seq, ",\"type\":"@) {
                None => None,
                Some(from_kind) => match read_literal(from_kind) {
                    None => None,
                    Some((kind, after_kind)) => match after_prefix(
                        after_kind,
                        ",\"content\":"@,
                    ) {
                        None => None,
                        Some(from_content) => match read_literal(from_content) {
                            None => None,
                            Some((content, after_content)) => match after_prefix(
                                after_content,
                                ",\"encoding\":"@,
                            ) {
                                None => None,
                                Some(from_encoding) => match read_literal(from_encoding) {
                                    None => None,
                                    Some((encoding, end)) => if end == "}"@ {
                                        Some(MessageMembers { seq, kind, content, encoding })
                                    } else {
                                        None
                                    },
                                },
                            },
                        },
                    },
                },
            }
        },
    }
}

/// Reads a line that holds a message, in UTF-8 and with the line feed at its end.
pub open spec fn read_message_line(line: Seq<u8>) -> Option<MessageMembers> {
    if line.len() > 0 && line.last() == 10 {
        read_message_text(vstd::utf8::decode_utf8(line.drop_last()))
    } else {
        None
    }
}

proof fn lemma_read_stream(stream: StreamType, rest: Seq<char>)
    ensures
        read_literal(seq!['"'] + (stream.spec_wire_name() + (seq!['"'] + rest))) == Some(
            (
                match stream {
                    StreamType::Stdin => "stdin"@,
                    StreamType::Stdout => "stdout"@,
                    StreamType::Stderr => "stderr"@,
                },
                rest,
            ),
        ),
{
    reveal_strlit("stdin");
    reveal_strlit("stdout");
    reveal_strlit("stderr");
    let name = stream.spec_wire_name();
    lemma_read_plain(name, rest);
    let quoted = seq!['"'] + (name + (seq!['"'] + rest));
    assert(quoted.skip(1) =~= name + (seq!['"'] + rest));
}

/// The line of a message reads back as the message: whoever reads it as JSON finds the number, the
/// name of the stream, the content and the encoding of the message, and nothing else.
pub proof fn law_lines_read_back(m: AcpMessage)
    ensures
        read_message_line(m.json_line()) == Some(
            MessageMembers {
                seq: m.seq as int,
                kind: match m.stream {
                    StreamType::Stdin => "stdin"@,
                    StreamType::Stdout => "stdout"@,
                    StreamType::Stderr => "stderr"@,
                },
                content: m.content@,
                encoding: m.encoding@,
            },
        ),
{
    let text = m.json_text();
    assert(m.json_line().drop_last() =~= vstd::utf8::encode_utf8(text));
    vstd::utf8::encode_utf8_decode_utf8(text);
    lemma_message_parts(m);
    lemma_after_prefix("{\"seq\":"@, from_seq(m));
    let quoted_content = seq!['"'] + (",\"content\":"@ + from_content(m));
    let quoted_kind = seq!['"'] + (m.stream.spec_wire_name() + quoted_content);
    assert(",\"type\":\""@ + from_stream(m) =~= ",\"type\":"@ + quoted_kind) by {
        reveal_strlit(",\"type\":\"");
        reveal_strlit(",\"type\":");
        reveal_strlit("\",\"content\":");
        reveal_strlit(",\"content\":");
        assert("\",\"content\":"@ + from_content(m) =~= quoted_content);
        assert(",\"type\":\""@ =~= ",\"type\":"@ + seq!['"']);
    }
    assert((",\"type\":\""@ + from_stream(m))[0] == ',') by {
        reveal_strlit(",\"type\":\"");
    }
    lemma_read_number(m.seq as nat, ",\"type\":\""@ + from_stream(m));
    lemma_after_prefix(",\"type\":"@, quoted_kind);
    lemma_read_stream(m.stream, ",\"content\":"@ + from_content(m));
    lemma_after_prefix(",\"content\":"@, from_content(m));
    law_literals_read_back(m.content@, ",\"encoding\":"@ + from_encoding(m));
    lemma_after_prefix(",\"encoding\":"@, from_encoding(m));
    law_literals_read_back(m.encoding@, "}"@);
}

/// What a reader of JSON finds in a request.
pub struct ControlMembers {
    pub client_id: Seq<char>,
    pub action: Seq<char>,
    pub sent_at_ms: int,
}

/// Reads the text of a request: an object with the members `client_id` and `action`, each a string,
/// and `sent_at_ms`, a number, and nothing after it.
pub open spec fn read_control_text(text: Seq<char>) -> Option<ControlMembers> {
    match after_prefix(text, "{\"client_id\":"@) {
        None => None,
        Some(from_client) => match read_literal(from_client) {
            None => None,
            Some((client_id, after_client)) => match after_prefix(after_client, ",\"action\":"@) {
                None => None,
                Some(from_action) => match read_literal(from_action) {
                    None => None,
                    Some((action, after_action)) => match after_prefix(
                        after_action,
                        ",\"sent_at_ms\":"@,
                    ) {
                        None => None,
                        Some(from_time) => {
                            let (sent_at_ms, end) = read_number(from_time);
                            if end == "}"@ {
                                Some(ControlMembers { client_id, action, sent_at_ms })
                            } else {
                                None
                            }
                        },
                    },
                },
            },
        },
    }
}

proof fn lemma_read_action(action: ControlAction, rest: Seq<char>)
    ensures
        read_literal(seq!['"'] + (action.spec_wire_name() + (seq!['"'] + rest))) == Some(
            (
                match action {
                    ControlAction::Spawn => "spawn"@,
                    ControlAction::Heartbeat => "heartbeat"@,
                    ControlAction::Shutdown => "shutdown"@,
                },
                rest,
            ),
        ),
{
    reveal_strlit("spawn");
    reveal_strlit("heartbeat");
    reveal_strlit("shutdown");
    let name = action.spec_wire_name();
    lemma_read_plain(name, rest);
    let quoted = seq!['"'] + (name + (seq!['"'] + rest));
    assert(quoted.skip(1) =~= name + (seq!['"'] + rest));
}

/// The bytes of a request read back as the request: whoever reads them as JSON finds the client, the
/// name of the action and the time of the request, and nothing else.
pub proof fn law_requests_read_back(m: ControlMessage)
    ensures
        read_control_text(vstd::utf8::decode_utf8(m.json_bytes())) == Some(
            ControlMembers {
                client_id: m.client_id@,
                action: match m.action {
                    ControlAction::Spawn => "spawn"@,
                    ControlAction::Heartbeat => "heartbeat"@,
                    ControlAction::Shutdown => "shutdown"@,
                },
                sent_at_ms: m.sent_at_ms as int,
            },
        ),
{
    vstd::utf8::encode_utf8_decode_utf8(m.json_text());
    lemma_control_parts(m);
    lemma_after_prefix("{\"client_id\":"@, from_client(m));
    law_literals_read_back(m.client_id@, ",\"action\":\""@ + from_action(m));
    let quoted_time = seq!['"'] + (",\"sent_at_ms\":"@ + from_sent_at(m));
    let quoted_action = seq!['"'] + (m.action.spec_wire_name() + quoted_time);
    assert(",\"action\":\""@ + from_action(m) =~= ",\"action\":"@ + quoted_action) by {
        reveal_strlit(",\"action\":\"");
        reveal_strlit(",\"action\":");
        reveal_strlit("\",\"sent_at_ms\":");
        reveal_strlit(",\"sent_at_ms\":");
        assert("\",\"sent_at_ms\":"@ + from_sent_at(m) =~= quoted_time);
        assert(",\"action\":\""@ =~= ",\"action\":"@ + seq!['"']);
    }
    lemma_after_prefix(",\"action\":"@, quoted_action);
    lemma_read_action(m.action, ",\"sent_at_ms\":"@ + from_sent_at(m));
    lemma_after_prefix(",\"sent_at_ms\":"@, from_sent_at(m));
    assert("}"@.len() > 0 && "}"@[0] == '}') by {
        reveal_strlit("}");
    }
    lemma_read_number(m.sent_at_ms as nat, "}"@);
}

/// Decoding is exact: a message stands for some bytes where it names the encoding `base64` and its
/// content is their base64 text, and for nothing otherwise. Another encoding is named in the error,
/// whatever the content; a content that is no base64 text has the decoder's fault.
pub proof fn law_decoding_is_exact(message: AcpMessage, bytes: Seq<u8>)
    ensures
        message.decoded() == DecodeOutcome::Ok(bytes) <==> message.encoding@ == "base64"@
            && message.content@ == base64_encoded(bytes),
        message.encoding@ != "base64"@ ==> message.decoded() == DecodeOutcome::Err(
            DecodeErrorView::UnsupportedEncoding(message.encoding@),
        ),
        message.encoding@ == "base64"@ && (forall|other: Seq<u8>|
            message.content@ != #[trigger] base64_encoded(other)) ==> message.decoded()
            == DecodeOutcome::Err(DecodeErrorView::Base64(base64_fault(message.content@))),
{
    law_decoding_undoes_encoding(bytes);
    if is_base64(message.content@) {
        law_decoding_undoes_encoding(base64_decoded(message.content@)->Ok_0);
    }
}

/// A timestamp counts whole milliseconds from the Unix epoch: for a clock set between the epoch and
/// the last time that 64 bits can count, it is the one number of milliseconds that has begun and not
/// passed, and before the epoch it is zero.
pub proof fn law_timestamps_count_milliseconds(now: std::time::SystemTime)
    ensures
        0 <= point_nanos(now) < (u64::MAX + 1) * 1_000_000 ==> as_timestamp(ms_at(now)) * 1_000_000
            <= point_nanos(now) < (as_timestamp(ms_at(now)) + 1) * 1_000_000,
        point_nanos(now) < 0 ==> as_timestamp(ms_at(now)) == 0,
{
}

} // verus!
