use std::time::{Duration, UNIX_EPOCH};

use amr::encoding::Base64Fault;
use amr::message::{
    decode_outcome, default_encoding, ms_since_epoch, now_unix_ms, timestamp_ms, AcpMessage,
    ControlAction, ControlMessage, DecodeError, StreamType,
};
use serde_json::Value;

fn read(bytes: &[u8]) -> Value {
    serde_json::from_slice(bytes).expect("json decoding")
}

fn read_message(bytes: &[u8]) -> AcpMessage {
    let value = read(bytes);
    AcpMessage {
        seq: value["seq"].as_u64().unwrap(),
        stream: match value["type"].as_str().unwrap() {
            "stdin" => StreamType::Stdin,
            "stdout" => StreamType::Stdout,
            "stderr" => StreamType::Stderr,
            other => panic!("unknown stream {other}"),
        },
        content: value["content"].as_str().unwrap().to_string(),
        encoding: value["encoding"].as_str().unwrap().to_string(),
    }
}

fn read_control(bytes: &[u8]) -> ControlMessage {
    let value = read(bytes);
    ControlMessage {
        client_id: value["client_id"].as_str().unwrap().to_string(),
        action: match value["action"].as_str().unwrap() {
            "spawn" => ControlAction::Spawn,
            "heartbeat" => ControlAction::Heartbeat,
            "shutdown" => ControlAction::Shutdown,
            other => panic!("unknown action {other}"),
        },
        sent_at_ms: value["sent_at_ms"].as_u64().unwrap(),
    }
}

#[test]
fn round_trip_json() {
    let message = AcpMessage::new(1, StreamType::Stdout, b"hello");
    let encoded = message.to_json_line().expect("json encoding");
    let decoded = read_message(encoded.trim_ascii_end());
    assert_eq!(decoded.seq, 1);
    assert_eq!(decoded.stream, StreamType::Stdout);
    assert_eq!(decoded.decode_bytes().expect("base64 decode"), b"hello");
}

#[test]
fn control_message_round_trip_json() {
    let message = ControlMessage::new("client-123", ControlAction::Heartbeat);
    let encoded = message.to_vec().expect("json encoding");
    let decoded = read_control(&encoded);
    assert_eq!(decoded.client_id, "client-123");
    assert_eq!(decoded.action, ControlAction::Heartbeat);
    assert!(decoded.sent_at_ms > 0);
}

#[test]
fn a_message_is_one_line_of_json() {
    let message = AcpMessage::new(1, StreamType::Stdin, b"Hello ACP!\n");
    assert_eq!(message.content, "SGVsbG8gQUNQIQo=");
    assert_eq!(
        message.to_json_line().unwrap(),
        b"{\"seq\":1,\"type\":\"stdin\",\"content\":\"SGVsbG8gQUNQIQo=\",\"encoding\":\"base64\"}\n"
            .to_vec()
    );
}

#[test]
fn the_largest_number_is_written_out() {
    let message = AcpMessage::new(u64::MAX, StreamType::Stderr, b"");
    assert_eq!(
        message.to_json_line().unwrap(),
        b"{\"seq\":18446744073709551615,\"type\":\"stderr\",\"content\":\"\",\"encoding\":\"base64\"}\n"
            .to_vec()
    );
}

#[test]
fn json_escapes_what_it_must() {
    let mut message = AcpMessage::new(7, StreamType::Stdout, b"");
    message.content = "a\"b\\c\u{8}\t\n\u{c}\r\u{0}\u{1f}\u{7f}/\u{e9}\u{1f600}".to_string();
    let line = message.to_json_line().unwrap();
    let expected = "{\"seq\":7,\"type\":\"stdout\",\"content\":\"a\\\"b\\\\c\\b\\t\\n\\f\\r\\u0000\\u001f\u{7f}/\u{e9}\u{1f600}\",\"encoding\":\"base64\"}\n";
    assert_eq!(line, expected.as_bytes().to_vec());
    assert_eq!(read_message(&line), message);
}

#[test]
fn every_message_survives_its_line() {
    for stream in [StreamType::Stdin, StreamType::Stdout, StreamType::Stderr] {
        for bytes in [&b""[..], b"\n", b"\"", b"\x00\xff\xfe"] {
            let mut message = AcpMessage::new(12, stream, bytes);
            let line = message.to_json_line().unwrap();
            assert_eq!(read_message(&line), message);
            assert_eq!(line.iter().filter(|b| **b == b'\n').count(), 1);
            message.encoding = "\n\u{2028}x".to_string();
            assert_eq!(read_message(&message.to_json_line().unwrap()), message);
        }
    }
}

#[test]
fn a_request_is_json() {
    let request = ControlMessage::sent_at(
        "18e3f7f4f7d-1a2b-1",
        ControlAction::Heartbeat,
        1775550000000,
    );
    assert_eq!(
        request.to_vec().unwrap(),
        b"{\"client_id\":\"18e3f7f4f7d-1a2b-1\",\"action\":\"heartbeat\",\"sent_at_ms\":1775550000000}"
            .to_vec()
    );
    for action in [
        ControlAction::Spawn,
        ControlAction::Heartbeat,
        ControlAction::Shutdown,
    ] {
        let request = ControlMessage::sent_at("a\n\"b", action, 0);
        assert_eq!(read_control(&request.to_vec().unwrap()), request);
    }
}

#[test]
fn bytes_come_back_from_base64() {
    for len in 0..70usize {
        let bytes: Vec<u8> = (0..len).map(|i| (i * 37 + len) as u8).collect();
        let message = AcpMessage::new(1, StreamType::Stdin, &bytes);
        assert_eq!(message.content.len(), 4 * ((len + 2) / 3));
        assert_eq!(message.decode_bytes().unwrap(), bytes);
    }
}

#[test]
fn base64_text_is_standard() {
    let content = |bytes: &[u8]| AcpMessage::new(1, StreamType::Stdin, bytes).content;
    assert_eq!(content(b""), "");
    assert_eq!(content(b"f"), "Zg==");
    assert_eq!(content(b"fo"), "Zm8=");
    assert_eq!(content(b"foo"), "Zm9v");
    assert_eq!(content(b"foob"), "Zm9vYg==");
    assert_eq!(content(b"\xfb\xff\xbf"), "+/+/");
    assert_eq!(content(b"\x00\x10\x83"), "ABCD");
    assert_eq!(content(b"\xff"), "/w==");
}

fn decode(content: &str) -> Result<Vec<u8>, DecodeError> {
    let mut message = AcpMessage::new(1, StreamType::Stdin, b"");
    message.content = content.to_string();
    message.decode_bytes()
}

#[test]
fn other_texts_are_refused() {
    assert_eq!(
        decode("Zm9*"),
        Err(DecodeError::Base64(Base64Fault::InvalidByte(3, b'*')))
    );
    assert_eq!(
        decode("A"),
        Err(DecodeError::Base64(Base64Fault::InvalidLength(1)))
    );
    assert_eq!(
        decode("Zh=="),
        Err(DecodeError::Base64(Base64Fault::InvalidLastSymbol(1, b'h')))
    );
    assert_eq!(
        decode("Zg="),
        Err(DecodeError::Base64(Base64Fault::InvalidPadding))
    );
    assert!(decode("Zg").is_err());
    assert!(decode("Zg==\n").is_err());
    assert!(decode("Zg==Zg==").is_err());
    assert!(decode("\u{e9}\u{e9}").is_err());
    assert_eq!(
        decode("A").unwrap_err().message(),
        "failed to decode base64 content"
    );
}

#[test]
fn unknown_encodings_are_refused() {
    let mut message = AcpMessage::new(1, StreamType::Stdin, b"x");
    message.encoding = "hex".to_string();
    let error = message.decode_bytes().unwrap_err();
    assert_eq!(error, DecodeError::UnsupportedEncoding("hex".to_string()));
    assert_eq!(error.message(), "unsupported encoding: hex");
    message.encoding = "Base64".to_string();
    assert!(message.decode_bytes().is_err());
}

#[test]
fn the_encoding_is_looked_at_first() {
    assert_eq!(decode_outcome("base64", Ok(vec![1])), Ok(vec![1]));
    assert_eq!(
        decode_outcome("base64", Err(Base64Fault::InvalidPadding)),
        Err(DecodeError::Base64(Base64Fault::InvalidPadding))
    );
    assert_eq!(
        decode_outcome("", Ok(vec![1])),
        Err(DecodeError::UnsupportedEncoding(String::new()))
    );
    assert_eq!(
        decode_outcome("x", Err(Base64Fault::InvalidPadding)),
        Err(DecodeError::UnsupportedEncoding("x".to_string()))
    );
    assert_eq!(default_encoding(), "base64");
}

#[test]
fn timestamps_are_milliseconds() {
    assert_eq!(timestamp_ms(None), 0);
    assert_eq!(timestamp_ms(Some(1775550000000)), 1775550000000);
    assert_eq!(timestamp_ms(Some((1u128 << 64) + 5)), 5);
    let now = now_unix_ms();
    assert!(now > 1_600_000_000_000);
    let request = ControlMessage::new("c", ControlAction::Spawn);
    assert!(request.sent_at_ms >= now);
    assert_eq!(request.action, ControlAction::Spawn);
}

#[test]
fn wire_names_are_small() {
    assert_eq!(StreamType::Stdin.wire_name(), "stdin");
    assert_eq!(StreamType::Stdout.wire_name(), "stdout");
    assert_eq!(StreamType::Stderr.wire_name(), "stderr");
    assert_eq!(ControlAction::Spawn.wire_name(), "spawn");
    assert_eq!(ControlAction::Heartbeat.wire_name(), "heartbeat");
    assert_eq!(ControlAction::Shutdown.wire_name(), "shutdown");
}

#[test]
fn points_in_time_are_counted_from_the_epoch() {
    assert_eq!(ms_since_epoch(UNIX_EPOCH), Some(0));
    assert_eq!(ms_since_epoch(UNIX_EPOCH + Duration::from_micros(1_500_900)), Some(1500));
    assert_eq!(ms_since_epoch(UNIX_EPOCH - Duration::from_micros(1)), None);
    assert_eq!(timestamp_ms(ms_since_epoch(UNIX_EPOCH - Duration::from_secs(5))), 0);
}
