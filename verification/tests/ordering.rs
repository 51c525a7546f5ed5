use amr::encoding::Base64Fault;
use amr::message::{AcpMessage, DecodeError, StreamType};
use amr::ordering::{Chunk, ChunkNumbering, ReorderBuffer};

fn message(seq: u64, text: &str) -> AcpMessage {
    AcpMessage::new(seq, StreamType::Stdout, text.as_bytes())
}

fn bytes(chunks: &[Chunk]) -> Vec<u8> {
    chunks.iter().flat_map(|chunk| chunk.bytes.clone()).collect()
}

#[test]
fn any_order_comes_out_in_order() {
    let sent = [message(1, "a"), message(2, "b"), message(3, "c")];
    for order in [[0, 1, 2], [0, 2, 1], [1, 0, 2], [1, 2, 0], [2, 0, 1], [2, 1, 0]] {
        let mut buffer = ReorderBuffer::new();
        let mut out = Vec::new();
        for index in order {
            let delivery = buffer.accept(sent[index].clone());
            assert!(!delivery.duplicate);
            assert_eq!(delivery.failure, None);
            out.extend(bytes(&delivery.chunks));
            let repeated = buffer.accept(sent[index].clone());
            out.extend(bytes(&repeated.chunks));
        }
        assert_eq!(out, b"abc");
    }
}

#[test]
fn duplicates_are_dropped() {
    let mut buffer = ReorderBuffer::new();
    assert_eq!(buffer.accept(message(1, "a")).chunks.len(), 1);
    let delivery = buffer.accept(message(1, "other"));
    assert!(delivery.duplicate);
    assert!(delivery.chunks.is_empty());
    assert!(buffer.accept(message(0, "zero")).duplicate);
}

#[test]
fn a_waiting_message_is_replaced() {
    let mut buffer = ReorderBuffer::new();
    assert!(buffer.accept(message(2, "old")).chunks.is_empty());
    assert!(!buffer.accept(message(2, "new")).duplicate);
    assert_eq!(bytes(&buffer.accept(message(1, "-")).chunks), b"-new");
}

#[test]
fn a_gap_holds_everything_back() {
    let mut buffer = ReorderBuffer::new();
    for seq in 2..50 {
        assert!(buffer.accept(message(seq, "x")).chunks.is_empty());
    }
    assert_eq!(buffer.accept(message(1, "x")).chunks.len(), 49);
}

#[test]
fn a_message_that_cannot_be_decoded_is_lost() {
    let mut buffer = ReorderBuffer::new();
    let mut broken = message(2, "");
    broken.content = "A".to_string();
    assert!(buffer.accept(message(3, "c")).chunks.is_empty());
    assert_eq!(buffer.accept(broken).failure, None);
    let delivery = buffer.accept(message(1, "a"));
    assert_eq!(bytes(&delivery.chunks), b"a");
    assert_eq!(
        delivery.failure,
        Some(DecodeError::Base64(Base64Fault::InvalidLength(1)))
    );
    let delivery = buffer.accept(message(2, "b"));
    assert_eq!(bytes(&delivery.chunks), b"bc");
    assert_eq!(delivery.failure, None);
}

#[test]
fn only_the_last_number_leaves_no_room() {
    let buffer = ReorderBuffer::new();
    assert!(buffer.has_room_for(&message(1, "a")));
    assert!(buffer.has_room_for(&message(u64::MAX, "a")));
    assert!(buffer.has_room_for(&message(0, "a")));
}

#[test]
fn the_stream_is_kept() {
    let mut buffer = ReorderBuffer::new();
    let delivery = buffer.accept(AcpMessage::new(1, StreamType::Stderr, b"e"));
    assert_eq!(
        delivery.chunks,
        vec![Chunk { stream: StreamType::Stderr, bytes: b"e".to_vec() }]
    );
}

#[test]
fn chunks_are_numbered_from_one() {
    let mut numbering = ChunkNumbering::new();
    let first = numbering.number(StreamType::Stdin, b"x").unwrap();
    assert_eq!(first, AcpMessage::new(1, StreamType::Stdin, b"x"));
    assert_eq!(numbering.number(StreamType::Stdin, b""), None);
    let second = numbering.number(StreamType::Stdout, b"y").unwrap();
    assert_eq!(second, AcpMessage::new(2, StreamType::Stdout, b"y"));
    assert_eq!(numbering.next_seq, 3);
}

#[test]
fn numbers_start_again_after_the_last() {
    let mut numbering = ChunkNumbering { next_seq: u64::MAX };
    assert_eq!(numbering.number(StreamType::Stdin, b"x").unwrap().seq, u64::MAX);
    assert_eq!(numbering.next_seq, 0);
}

#[test]
fn what_is_numbered_arrives_as_sent() {
    let mut numbering = ChunkNumbering::new();
    let sent: Vec<AcpMessage> = (0u8..20)
        .map(|i| numbering.number(StreamType::Stdin, &[i, 255 - i]).unwrap())
        .collect();
    let mut buffer = ReorderBuffer::new();
    let mut out = Vec::new();
    for i in 0..40usize {
        out.extend(bytes(&buffer.accept(sent[(i * 7) % 20].clone()).chunks));
    }
    let expected: Vec<u8> = (0u8..20).flat_map(|i| [i, 255 - i]).collect();
    assert_eq!(out, expected);
}
