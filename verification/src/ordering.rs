//! Numbers messages, and restores the order of those that arrive late, early or more than once.
use std::collections::BTreeMap;
use vstd::prelude::*;

use crate::encoding::{base64_encoded, base64_len};
use crate::message::{
    same_message, AcpMessage, DecodeError, DecodeErrorView, DecodeOutcome, StreamType,
};

verus! {

broadcast use {vstd::std_specs::btree::group_btree_axioms, vstd::laws_cmp::group_laws_cmp};

/// A decoded chunk of a stream.
#[derive(Debug, Clone, PartialEq, Eq)]
pub struct Chunk {
    pub stream: StreamType,
    pub bytes: Vec<u8>,
}

/// A [`Chunk`] with its bytes as a sequence.
pub struct ChunkView {
    pub stream: StreamType,
    pub bytes: Seq<u8>,
}

impl View for Chunk {
    type V = ChunkView;

    open spec fn view(&self) -> ChunkView {
        ChunkView { stream: self.stream, bytes: self.bytes@ }
    }
}

/// The views of some chunks, in order.
pub open spec fn chunk_views(chunks: Seq<Chunk>) -> Seq<ChunkView> {
    chunks.map_values(|chunk: Chunk| chunk@)
}

/// The chunk that a decodable message stands for.
pub open spec fn chunk_of(message: AcpMessage) -> ChunkView {
    ChunkView { stream: message.stream, bytes: message.decoded()->Ok_0 }
}

/// Where handing out messages one number after the other stops: the first number from `from` on
/// under which there is no message, or one whose content cannot be decoded.
pub open spec fn drain_end(pending: Map<u64, AcpMessage>, from: int) -> int
    decreases u64::MAX + 1 - from,
{
    if 0 <= from <= u64::MAX && pending.contains_key(from as u64)
        && pending[from as u64].decoded() is Ok {
        drain_end(pending, from + 1)
    } else {
        from
    }
}

/// Below the place where handing out stops there is a decodable message under every number, and at
/// that place there is none.
pub proof fn lemma_drain_end(pending: Map<u64, AcpMessage>, from: int)
    requires
        0 <= from <= u64::MAX + 1,
    ensures
        from <= drain_end(pending, from) <= u64::MAX + 1,
        forall|k: u64|
            from <= k < drain_end(pending, from) ==> #[trigger] pending.contains_key(k)
                && pending[k].decoded() is Ok,
        drain_end(pending, from) <= u64::MAX ==> {
            let end = drain_end(pending, from) as u64;
            !pending.contains_key(end) || pending[end].decoded() is Err
        },
    decreases u64::MAX + 1 - from,
{
    if from <= u64::MAX && pending.contains_key(from as u64)
        && pending[from as u64].decoded() is Ok {
        lemma_drain_end(pending, from + 1);
        assert forall|k: u64| from <= k < drain_end(pending, from) implies #[trigger]
            pending.contains_key(k) && pending[k].decoded() is Ok by {
            assert(k == from || k >= from + 1);
        }
    }
}

/// The chunks numbered `from` up to but without `to`.
pub open spec fn chunks_between(pending: Map<u64, AcpMessage>, from: int, to: int) -> Seq<
    ChunkView,
> {
    Seq::new((to - from) as nat, |i: int| chunk_of(pending[(from + i) as u64]))
}

/// What a [`ReorderBuffer`] knows: the number it waits for, and the messages that came early.
pub struct BufferView {
    pub next: int,
    pub pending: Map<u64, AcpMessage>,
}

impl BufferView {
    /// A buffer that has seen nothing.
    pub open spec fn initial() -> BufferView {
        BufferView { next: 1, pending: Map::empty() }
    }

    /// Numbers count from one, and everything that waits has a number beyond the one that is
    /// expected, and is filed under it.
    pub open spec fn well_formed(self) -> bool {
        &&& 1 <= self.next <= u64::MAX
        &&& forall|k: u64| #[trigger]
            self.pending.contains_key(k) ==> k > self.next && self.pending[k].seq == k
    }

    /// Whether a message has a number that was handed out already.
    pub open spec fn is_duplicate(self, message: AcpMessage) -> bool {
        message.seq < self.next
    }

    /// The waiting messages together with a new one.
    pub open spec fn with(self, message: AcpMessage) -> Map<u64, AcpMessage> {
        self.pending.insert(message.seq, message)
    }

    /// The number that is expected once a new message has been taken in.
    pub open spec fn end(self, message: AcpMessage) -> int {
        drain_end(self.with(message), self.next)
    }

    /// Whether the number to expect next can still be counted once a message has been taken in.
    pub open spec fn has_room_for(self, message: AcpMessage) -> bool {
        self.is_duplicate(message) || self.end(message) <= u64::MAX
    }

    /// The buffer once a message has been taken in.
    pub open spec fn after(self, message: AcpMessage) -> BufferView {
        if self.is_duplicate(message) {
            self
        } else {
            let end = self.end(message);
            BufferView {
                next: end,
                pending: self.with(message).restrict(Set::new(|k: u64| k > end)),
            }
        }
    }

    /// The chunks that a message sets free, in the order of their numbers.
    pub open spec fn delivered(self, message: AcpMessage) -> Seq<ChunkView> {
        if self.is_duplicate(message) {
            Seq::empty()
        } else {
            chunks_between(self.with(message), self.next, self.end(message))
        }
    }

    /// The error of the message at which the handing out stopped, if one stopped it.
    pub open spec fn failure(self, message: AcpMessage) -> Option<DecodeErrorView> {
        let end = self.end(message);
        if !self.is_duplicate(message) && self.with(message).contains_key(end as u64) {
            Some(self.with(message)[end as u64].decoded()->Err_0)
        } else {
            None
        }
    }
}

impl BufferView {
    /// The buffer once some messages have been taken in, one after the other.
    pub open spec fn after_all(self, messages: Seq<AcpMessage>) -> BufferView
        decreases messages.len(),
    {
        if messages.len() == 0 {
            self
        } else {
            self.after_all(messages.drop_last()).after(messages.last())
        }
    }

    /// All the chunks that were handed out while some messages were taken in.
    pub open spec fn delivered_all(self, messages: Seq<AcpMessage>) -> Seq<ChunkView>
        decreases messages.len(),
    {
        if messages.len() == 0 {
            Seq::empty()
        } else {
            self.delivered_all(messages.drop_last()) + self.after_all(
                messages.drop_last(),
            ).delivered(messages.last())
        }
    }
}

/// Messages as a sender numbers them: from one on, each with a content that can be decoded.
pub open spec fn numbered(sent: Seq<AcpMessage>) -> bool {
    &&& sent.len() < u64::MAX
    &&& forall|i: int|
        0 <= i < sent.len() ==> (#[trigger] sent[i]).seq == i + 1 && sent[i].decoded() is Ok
}

/// Whether every arrival is one of the messages that were sent, in whatever order and however often.
pub open spec fn arrivals_of(arrivals: Seq<AcpMessage>, sent: Seq<AcpMessage>) -> bool {
    forall|j: int|
        0 <= j < arrivals.len() ==> 1 <= (#[trigger] arrivals[j]).seq <= sent.len()
            && same_message(arrivals[j], sent[arrivals[j].seq - 1])
}

/// Whether a message with the number `seq` is among the arrivals.
pub open spec fn arrived(arrivals: Seq<AcpMessage>, seq: int) -> bool {
    exists|j: int| 0 <= j < arrivals.len() && (#[trigger] arrivals[j]).seq == seq
}

/// The chunks of some decodable messages, in order.
pub open spec fn chunks_of(messages: Seq<AcpMessage>) -> Seq<ChunkView> {
    messages.map_values(|message: AcpMessage| chunk_of(message))
}

/// The state of a fresh buffer after some arrivals: it waits for the first number that has not
/// arrived, and keeps exactly the arrivals beyond it.
pub open spec fn caught_up(
    buffer: BufferView,
    arrivals: Seq<AcpMessage>,
    sent: Seq<AcpMessage>,
) -> bool {
    &&& buffer.well_formed()
    &&& 1 <= buffer.next <= sent.len() + 1
    &&& forall|k: int| 1 <= k < buffer.next ==> #[trigger] arrived(arrivals, k)
    &&& !arrived(arrivals, buffer.next)
    &&& forall|k: u64| #[trigger]
        buffer.pending.contains_key(k) <==> k > buffer.next && arrived(arrivals, k as int)
    &&& forall|k: u64| #[trigger]
        buffer.pending.contains_key(k) ==> same_message(buffer.pending[k], sent[k - 1])
}

/// Order is restored and duplicates are dropped: whatever the order in which a sender's messages
/// arrive and however often, the chunks handed out are those of the messages sent, from the first
/// up to the first one that has not arrived yet, each once and in the order they were sent.
pub proof fn law_order_is_restored(sent: Seq<AcpMessage>, arrivals: Seq<AcpMessage>)
    requires
        numbered(sent),
        arrivals_of(arrivals, sent),
    ensures
        caught_up(BufferView::initial().after_all(arrivals), arrivals, sent),
        BufferView::initial().delivered_all(arrivals) == chunks_of(
            sent.take(BufferView::initial().after_all(arrivals).next - 1),
        ),
    decreases arrivals.len(),
{
    let fresh = BufferView::initial();
    if arrivals.len() == 0 {
        assert(chunks_of(sent.take(0)) =~= Seq::empty());
    } else {
        let earlier = arrivals.drop_last();
        let message = arrivals.last();
        assert(arrivals_of(earlier, sent)) by {
            assert forall|j: int| 0 <= j < earlier.len() implies 1 <= (#[trigger] earlier[j]).seq
                <= sent.len() && same_message(earlier[j], sent[earlier[j].seq - 1]) by {
                assert(earlier[j] == arrivals[j]);
            }
        }
        law_order_is_restored(sent, earlier);
        lemma_one_more_arrival(fresh.after_all(earlier), sent, earlier, message);
        assert(earlier.push(message) =~= arrivals);
        let before = fresh.after_all(earlier);
        let after = before.after(message);
        assert(chunks_of(sent.take(after.next - 1)) =~= chunks_of(sent.take(before.next - 1))
            + before.delivered(message));
    }
}

/// One more arrival keeps a buffer caught up, fits, and sets free the chunks that follow on.
proof fn lemma_one_more_arrival(
    buffer: BufferView,
    sent: Seq<AcpMessage>,
    earlier: Seq<AcpMessage>,
    message: AcpMessage,
)
    requires
        numbered(sent),
        arrivals_of(earlier, sent),
        caught_up(buffer, earlier, sent),
        1 <= message.seq <= sent.len(),
        same_message(message, sent[message.seq - 1]),
    ensures
        buffer.has_room_for(message),
        buffer.failure(message) is None,
        caught_up(buffer.after(message), earlier.push(message), sent),
        buffer.next <= buffer.after(message).next,
        buffer.delivered(message) == chunks_of(
            sent.subrange(buffer.next - 1, buffer.after(message).next - 1),
        ),
{
    let arrivals = earlier.push(message);
    assert forall|k: int| arrived(arrivals, k) <==> arrived(earlier, k) || k == message.seq by {
        assert(arrivals[earlier.len() as int] == message);
        if arrived(earlier, k) {
            let j = choose|j: int| 0 <= j < earlier.len() && (#[trigger] earlier[j]).seq == k;
            assert(arrivals[j].seq == k);
        }
        if arrived(arrivals, k) && k != message.seq {
            let j = choose|j: int| 0 <= j < arrivals.len() && (#[trigger] arrivals[j]).seq == k;
            assert(earlier[j].seq == k);
        }
    }
    let all = buffer.with(message);
    let end = buffer.end(message);
    lemma_drain_end(all, buffer.next);
    if !buffer.is_duplicate(message) {
        assert forall|k: u64| #[trigger] all.contains_key(k) implies buffer.next <= k <= sent.len()
            && same_message(all[k], sent[k - 1]) && all[k].decoded() is Ok by {
            if k != message.seq {
                assert(buffer.pending.contains_key(k));
                let j = choose|j: int| 0 <= j < earlier.len() && (#[trigger] earlier[j]).seq == k;
                assert(earlier[j].seq == k);
            }
            assert(sent[k - 1].decoded() is Ok);
        }
        assert(end <= sent.len() + 1) by {
            if end > sent.len() + 1 {
                assert(all.contains_key((sent.len() + 1) as u64));
            }
        }
        assert(!all.contains_key(end as u64));
        let after = buffer.after(message);
        assert forall|k: int| 1 <= k < after.next implies #[trigger] arrived(arrivals, k) by {
            if k >= buffer.next {
                assert(all.contains_key(k as u64));
            }
        }
        assert(buffer.delivered(message) =~= chunks_of(sent.subrange(buffer.next - 1, end - 1))) by {
            assert forall|i: int| 0 <= i < end - buffer.next implies chunk_of(
                #[trigger] all[(buffer.next + i) as u64],
            ) == chunk_of(sent[buffer.next - 1 + i]) by {
                assert(all.contains_key((buffer.next + i) as u64));
            }
        }
    } else {
        assert(buffer.delivered(message) =~= chunks_of(
            sent.subrange(buffer.next - 1, buffer.next - 1),
        ));
    }
}

/// Once every message has arrived at least once, everything that was sent has been handed out, in
/// the order it was sent.
pub proof fn law_everything_is_delivered(sent: Seq<AcpMessage>, arrivals: Seq<AcpMessage>)
    requires
        numbered(sent),
        arrivals_of(arrivals, sent),
        forall|k: int| 1 <= k <= sent.len() ==> #[trigger] arrived(arrivals, k),
    ensures
        BufferView::initial().delivered_all(arrivals) == chunks_of(sent),
{
    law_order_is_restored(sent, arrivals);
    assert(sent.take(sent.len() as int) =~= sent);
}

/// No arrival of a sender's message is ever more than the buffer can take, and none makes it fail.
pub proof fn law_arrivals_fit(
    sent: Seq<AcpMessage>,
    earlier: Seq<AcpMessage>,
    message: AcpMessage,
)
    requires
        numbered(sent),
        arrivals_of(earlier.push(message), sent),
    ensures
        BufferView::initial().after_all(earlier).has_room_for(message),
        BufferView::initial().after_all(earlier).failure(message) is None,
{
    let arrivals = earlier.push(message);
    assert(arrivals[earlier.len() as int] == message);
    assert(arrivals_of(earlier, sent)) by {
        assert forall|j: int| 0 <= j < earlier.len() implies 1 <= (#[trigger] earlier[j]).seq
            <= sent.len() && same_message(earlier[j], sent[earlier[j].seq - 1]) by {
            assert(earlier[j] == arrivals[j]);
        }
    }
    law_order_is_restored(sent, earlier);
    lemma_one_more_arrival(
        BufferView::initial().after_all(earlier),
        sent,
        earlier,
        message,
    );
}

/// A message whose number was handed out before changes nothing and hands out nothing.
pub proof fn law_duplicates_are_dropped(buffer: BufferView, message: AcpMessage)
    requires
        message.seq < buffer.next,
    ensures
        buffer.after(message) == buffer,
        buffer.delivered(message).len() == 0,
        buffer.failure(message) is None,
{
}

/// Taking a message in is exact. One whose number was handed out before changes nothing. Otherwise
/// it joins those that wait, in place of one with its number, and the chunks handed out are those of
/// the messages numbered from the expected one on, without a gap, each with its stream and its
/// bytes; the handing out stops at the first number under which nothing waits, or at a message that
/// cannot be decoded, whose error is given and which is lost. What waits beyond goes on waiting.
pub proof fn law_taking_in_is_exact(buffer: BufferView, message: AcpMessage)
    requires
        buffer.well_formed(),
        buffer.has_room_for(message),
    ensures
        message.seq < buffer.next ==> buffer.after(message) == buffer && buffer.delivered(
            message,
        ).len() == 0 && buffer.failure(message) is None,
        message.seq >= buffer.next ==> {
            let waiting = buffer.pending.insert(message.seq, message);
            let chunks = buffer.delivered(message);
            let after = buffer.after(message);
            &&& after.next == buffer.next + chunks.len()
            &&& forall|i: int|
                0 <= i < chunks.len() ==> {
                    let number = (buffer.next + i) as u64;
                    &&& waiting.contains_key(number)
                    &&& waiting[number].decoded() == DecodeOutcome::Ok((#[trigger] chunks[i]).bytes)
                    &&& chunks[i].stream == waiting[number].stream
                }
            &&& after.next <= u64::MAX
            &&& match buffer.failure(message) {
                None => !waiting.contains_key(after.next as u64),
                Some(e) => waiting.contains_key(after.next as u64)
                    && waiting[after.next as u64].decoded() == DecodeOutcome::Err(e),
            }
            &&& forall|k: u64| #[trigger]
                after.pending.contains_key(k) <==> waiting.contains_key(k) && k > after.next
            &&& forall|k: u64| #[trigger]
                after.pending.contains_key(k) ==> after.pending[k] == waiting[k]
        },
{
    lemma_drain_end(buffer.with(message), buffer.next);
    if message.seq >= buffer.next {
        let waiting = buffer.pending.insert(message.seq, message);
        let chunks = buffer.delivered(message);
        let end = buffer.end(message);
        assert forall|i: int| 0 <= i < chunks.len() implies {
            let number = (buffer.next + i) as u64;
            &&& waiting.contains_key(number)
            &&& waiting[number].decoded() == DecodeOutcome::Ok((#[trigger] chunks[i]).bytes)
            &&& chunks[i].stream == waiting[number].stream
        } by {
            assert(waiting.contains_key((buffer.next + i) as u64));
        }
    }
}

/// A message ahead of the expected number sets nothing free, and one with the expected number sets
/// free its own chunk first.
pub proof fn law_only_the_expected_message_sets_free(buffer: BufferView, message: AcpMessage)
    requires
        buffer.well_formed(),
        buffer.has_room_for(message),
    ensures
        message.seq != buffer.next ==> buffer.delivered(message).len() == 0 && buffer.after(
            message,
        ).next == buffer.next,
        message.seq == buffer.next && message.decoded() is Ok ==> buffer.delivered(message).len()
            > 0 && buffer.delivered(message)[0].bytes == message.decoded()->Ok_0
            && buffer.delivered(message)[0].stream == message.stream && buffer.after(message).next
            > message.seq,
{
    law_taking_in_is_exact(buffer, message);
    lemma_drain_end(buffer.with(message), buffer.next);
    if message.seq > buffer.next {
        assert(!buffer.pending.contains_key(buffer.next as u64));
        if buffer.delivered(message).len() > 0 {
            let first = buffer.delivered(message)[0];
            assert(buffer.with(message).contains_key(buffer.next as u64));
        }
    }
}

/// There is room for every message, but for one that completes all the numbers there are: it has the
/// expected number, and every number after it is waiting.
pub proof fn law_room_runs_out_only_at_the_end(buffer: BufferView, message: AcpMessage)
    requires
        buffer.well_formed(),
        !buffer.has_room_for(message),
    ensures
        message.seq == buffer.next,
        forall|k: u64| k > message.seq ==> #[trigger] buffer.pending.contains_key(k),
{
    let all = buffer.with(message);
    lemma_drain_end(all, buffer.next);
    assert(all.contains_key(buffer.next as u64));
    assert(!buffer.pending.contains_key(buffer.next as u64));
    assert forall|k: u64| k > message.seq implies #[trigger] buffer.pending.contains_key(k) by {
        assert(all.contains_key(k));
    }
}

/// Whether a message carries a chunk under a number.
pub open spec fn carries(message: AcpMessage, seq: int, chunk: ChunkView) -> bool {
    &&& message.seq == seq
    &&& message.stream == chunk.stream
    &&& message.content@ == base64_encoded(chunk.bytes)
    &&& message.encoding@ == "base64"@
    &&& message.decoded() == DecodeOutcome::Ok(chunk.bytes)
}

/// What is read on one side is what is written on the other: once every message of a sender that
/// numbers its chunks from one on has arrived, in whatever order and however often, the chunks
/// handed out are those that were sent, byte for byte and in order.
pub proof fn law_chunks_arrive_as_sent(
    chunks: Seq<ChunkView>,
    sent: Seq<AcpMessage>,
    arrivals: Seq<AcpMessage>,
)
    requires
        chunks.len() < u64::MAX,
        sent.len() == chunks.len(),
        forall|i: int| 0 <= i < sent.len() ==> carries(#[trigger] sent[i], i + 1, chunks[i]),
        arrivals_of(arrivals, sent),
        forall|k: int| 1 <= k <= sent.len() ==> #[trigger] arrived(arrivals, k),
    ensures
        BufferView::initial().delivered_all(arrivals) == chunks,
{
    law_everything_is_delivered(sent, arrivals);
    assert(chunks_of(sent) =~= chunks);
}

/// The numbers that a sender gives to its chunks.
#[derive(Debug, Clone, PartialEq, Eq)]
pub struct ChunkNumbering {
    pub next_seq: u64,
}

impl ChunkNumbering {
    /// The first chunk gets the number one.
    pub fn new() -> (numbering: Self)
        ensures
            numbering.next_seq == 1,
    {
        ChunkNumbering { next_seq: 1 }
    }

    /// The message for the next chunk of a stream. A chunk without bytes means that the stream has
    /// ended: there is no message for it, and it takes no number.
    pub fn number(&mut self, stream: StreamType, bytes: &[u8]) -> (message: Option<AcpMessage>)
        requires
            base64_len(bytes@.len()) <= isize::MAX,
        ensures
            match message {
                Some(message) => message.seq == old(self).next_seq && message.stream == stream
                    && message.content@ == base64_encoded(bytes@) && message.encoding@
                    == "base64"@,
                None => true,
            },
            match message {
                Some(message) => bytes@.len() > 0 && carries(
                    message,
                    old(self).next_seq as int,
                    ChunkView { stream, bytes: bytes@ },
                ),
                None => bytes@.len() == 0,
            },
            final(self).next_seq == if bytes@.len() == 0 {
                old(self).next_seq
            } else if old(self).next_seq == u64::MAX {
                0
            } else {
                (old(self).next_seq + 1) as u64
            },
    {
        if bytes.len() == 0 {
            return None;
        }
        let message = AcpMessage::new(self.next_seq, stream, bytes);
        self.next_seq = self.next_seq.wrapping_add(1);
        Some(message)
    }
}

/// What taking in a message led to.
#[derive(Debug, Clone, PartialEq, Eq)]
pub struct Delivery {
    /// The number had been handed out before, so the message was dropped.
    pub duplicate: bool,
    /// The chunks that are now due, in order.
    pub chunks: Vec<Chunk>,
    /// The error of the message right after them, which is lost.
    pub failure: Option<DecodeError>,
}

/// Whether this is what taking a message into a buffer leads to.
pub open spec fn is_delivery(buffer: BufferView, message: AcpMessage, delivery: Delivery) -> bool {
    &&& delivery.duplicate == buffer.is_duplicate(message)
    &&& chunk_views(delivery.chunks@) == buffer.delivered(message)
    &&& match delivery.failure {
        Some(e) => buffer.failure(message) == Some(e@),
        None => buffer.failure(message) is None,
    }
}

/// Messages by number, handed out from one on without gaps.
#[derive(Debug)]
pub struct ReorderBuffer {
    next_expected_seq: u64,
    message_buffer: BTreeMap<u64, AcpMessage>,
}

impl View for ReorderBuffer {
    type V = BufferView;

    closed spec fn view(&self) -> BufferView {
        BufferView { next: self.next_expected_seq as int, pending: self.message_buffer@ }
    }
}

impl ReorderBuffer {
    /// A buffer that waits for the message numbered one.
    pub fn new() -> (buffer: Self)
        ensures
            buffer@ == BufferView::initial(),
            buffer@.next == 1,
            buffer@.pending == Map::<u64, AcpMessage>::empty(),
            buffer@.well_formed(),
    {
        ReorderBuffer { next_expected_seq: 1, message_buffer: BTreeMap::new() }
    }

    /// Whether [`accept`](ReorderBuffer::accept) can count on past what a message sets free.
    pub fn has_room_for(&self, message: &AcpMessage) -> (room: bool)
        requires
            self@.well_formed(),
        ensures
            room == self@.has_room_for(*message),
    {
        let next = self.next_expected_seq;
        let ghost all = self@.with(*message);
        proof {
            lemma_drain_end(all, self@.next);
        }
        if message.seq != next {
            assert(!all.contains_key(next)) by {
                assert(!self@.pending.contains_key(next));
            }
            return true;
        }
        if next < u64::MAX && !self.message_buffer.contains_key(&(next + 1)) {
            assert(!all.contains_key((next + 1) as u64));
            return true;
        }
        if message.decode_bytes().is_err() {
            return true;
        }
        let mut seq: u64 = next;
        while seq < u64::MAX
            invariant
                next <= seq,
                next == self@.next,
                next == message.seq,
                self@.well_formed(),
                all == self@.with(*message),
                drain_end(all, next as int) == drain_end(all, seq + 1),
            decreases u64::MAX - seq,
        {
            seq = seq + 1;
            match self.message_buffer.get(&seq) {
                None => {
                    return true;
                },
                Some(waiting) => {
                    if waiting.decode_bytes().is_err() {
                        return true;
                    }
                },
            }
        }
        false
    }

    /// Takes in a message and hands out every chunk that is now due.
    pub fn accept(&mut self, message: AcpMessage) -> (delivery: Delivery)
        requires
            old(self)@.well_formed(),
            old(self)@.has_room_for(message),
        ensures
            final(self)@ == old(self)@.after(message),
            final(self)@.well_formed(),
            is_delivery(old(self)@, message, delivery),
            delivery.duplicate <==> message.seq < old(self)@.next,
            match delivery.failure {
                None => old(self)@.failure(message) is None,
                Some(DecodeError::Base64(fault)) => old(self)@.failure(message) == Some(
                    DecodeErrorView::Base64(fault),
                ),
                Some(DecodeError::UnsupportedEncoding(name)) => old(self)@.failure(message) == Some(
                    DecodeErrorView::UnsupportedEncoding(name@),
                ),
            },
            delivery.chunks@.len() == old(self)@.delivered(message).len(),
            forall|i: int|
                0 <= i < delivery.chunks@.len() ==> (#[trigger] delivery.chunks@[i]).bytes@ == old(
                    self,
                )@.delivered(message)[i].bytes && delivery.chunks@[i].stream == old(
                    self,
                )@.delivered(message)[i].stream,
    {
        let mut chunks: Vec<Chunk> = Vec::new();
        if message.seq < self.next_expected_seq {
            assert(chunk_views(chunks@) =~= Seq::empty());
            return Delivery { duplicate: true, chunks, failure: None };
        }
        let ghost start = self@.next;
        let ghost all = self@.with(message);
        self.message_buffer.insert(message.seq, message);
        proof {
            lemma_drain_end(all, start);
        }
        loop
            invariant
                1 <= start <= self@.next,
                self@.next <= drain_end(all, start) <= u64::MAX,
                drain_end(all, start) == drain_end(all, self@.next),
                self@.pending == all.restrict(Set::new(|k: u64| k >= self@.next)),
                chunk_views(chunks@) == chunks_between(all, start, self@.next),
                forall|k: u64| #[trigger] all.contains_key(k) ==> k >= start && all[k].seq == k,
                old(self)@.next == start,
                all == old(self)@.with(message),
                !old(self)@.is_duplicate(message),
            decreases u64::MAX - self@.next,
        {
            let ghost next = self@.next;
            match self.message_buffer.remove(&self.next_expected_seq) {
                None => {
                    assert(self@.pending =~= all.restrict(Set::new(|k: u64| k > next)));
                    return Delivery { duplicate: false, chunks, failure: None };
                },
                Some(ready) => {
                    assert(self@.pending =~= all.restrict(Set::new(|k: u64| k > next)));
                    match ready.decode_bytes() {
                        Err(e) => {
                            return Delivery { duplicate: false, chunks, failure: Some(e) };
                        },
                        Ok(bytes) => {
                            let ghost given = chunks@;
                            chunks.push(Chunk { stream: ready.stream, bytes });
                            proof {
                                lemma_drain_end(all, next + 1);
                                assert(chunk_views(chunks@) =~= chunk_views(given).push(
                                    chunk_of(ready),
                                ));
                                assert(chunks_between(all, start, next + 1) =~= chunks_between(
                                    all,
                                    start,
                                    next,
                                ).push(chunk_of(ready)));
                            }
                            self.next_expected_seq = self.next_expected_seq + 1;
                        },
                    }
                },
            }
        }
    }
}

/// All that some deliveries hand out, one after the other: the stream and the bytes of each chunk.
pub open spec fn handed_out(deliveries: Seq<Delivery>) -> Seq<(StreamType, Seq<u8>)>
    decreases deliveries.len(),
{
    if deliveries.len() == 0 {
        Seq::empty()
    } else {
        let chunks = deliveries.last().chunks@;
        handed_out(deliveries.drop_last()) + Seq::new(
            chunks.len(),
            |i: int| (chunks[i].stream, chunks[i].bytes@),
        )
    }
}

/// Whether these are the deliveries of a fresh buffer for some arrivals, one for each.
pub open spec fn deliveries_of(arrivals: Seq<AcpMessage>, deliveries: Seq<Delivery>) -> bool {
    &&& deliveries.len() == arrivals.len()
    &&& forall|i: int|
        0 <= i < arrivals.len() ==> is_delivery(
            BufferView::initial().after_all(arrivals.take(i)),
            arrivals[i],
            #[trigger] deliveries[i],
        )
}

proof fn lemma_handed_out(arrivals: Seq<AcpMessage>, deliveries: Seq<Delivery>)
    requires
        deliveries_of(arrivals, deliveries),
    ensures
        handed_out(deliveries).len() == BufferView::initial().delivered_all(arrivals).len(),
        forall|i: int|
            0 <= i < handed_out(deliveries).len() ==> (#[trigger] handed_out(deliveries)[i]) == (
                BufferView::initial().delivered_all(arrivals)[i].stream,
                BufferView::initial().delivered_all(arrivals)[i].bytes,
            ),
    decreases arrivals.len(),
{
    if arrivals.len() > 0 {
        let last = arrivals.len() - 1;
        let earlier = arrivals.drop_last();
        let before = deliveries.drop_last();
        assert forall|i: int| 0 <= i < earlier.len() implies is_delivery(
            BufferView::initial().after_all(earlier.take(i)),
            earlier[i],
            #[trigger] before[i],
        ) by {
            assert(earlier.take(i) =~= arrivals.take(i));
            assert(before[i] == deliveries[i]);
        }
        lemma_handed_out(earlier, before);
        assert(arrivals.take(last) =~= earlier);
        let delivery = deliveries[last];
        let given = BufferView::initial().after_all(earlier).delivered(arrivals[last]);
        assert(chunk_views(delivery.chunks@) == given);
        assert forall|i: int| 0 <= i < given.len() implies (#[trigger] given[i]).stream
            == delivery.chunks@[i].stream && given[i].bytes == delivery.chunks@[i].bytes@ by {
            assert(chunk_views(delivery.chunks@)[i] == delivery.chunks@[i]@);
        }
        let all = BufferView::initial().delivered_all(arrivals);
        let k = BufferView::initial().delivered_all(earlier).len();
        assert forall|i: int| 0 <= i < handed_out(deliveries).len() implies (
        #[trigger] handed_out(deliveries)[i]) == (all[i].stream, all[i].bytes) by {
            if i < k {
                assert(handed_out(deliveries)[i] == handed_out(before)[i]);
            } else {
                assert(all[i] == given[i - k]);
            }
        }
    }
}

/// What is handed out is what was sent: once every message of a sender has arrived at a fresh buffer,
/// in whatever order and however often, the deliveries taken together hold the chunks that were
/// sent, one for one, each with its stream and to the last byte, and none of them failed.
pub proof fn law_deliveries_hold_what_was_sent(
    chunks: Seq<ChunkView>,
    sent: Seq<AcpMessage>,
    arrivals: Seq<AcpMessage>,
    deliveries: Seq<Delivery>,
)
    requires
        chunks.len() < u64::MAX,
        sent.len() == chunks.len(),
        forall|i: int|
            0 <= i < sent.len() ==> {
                let message = #[trigger] sent[i];
                &&& message.seq == i + 1
                &&& message.stream == chunks[i].stream
                &&& message.encoding@ == "base64"@
                &&& message.content@ == base64_encoded(chunks[i].bytes)
            },
        forall|j: int|
            0 <= j < arrivals.len() ==> exists|i: int|
                0 <= i < sent.len() && same_message(#[trigger] arrivals[j], #[trigger] sent[i]),
        forall|i: int|
            0 <= i < sent.len() ==> exists|j: int|
                0 <= j < arrivals.len() && (#[trigger] arrivals[j]).seq == (#[trigger] sent[i]).seq,
        deliveries_of(arrivals, deliveries),
    ensures
        handed_out(deliveries).len() == chunks.len(),
        forall|i: int|
            0 <= i < chunks.len() ==> (#[trigger] handed_out(deliveries)[i]).0 == chunks[i].stream
                && handed_out(deliveries)[i].1 == chunks[i].bytes,
        forall|j: int| 0 <= j < deliveries.len() ==> (#[trigger] deliveries[j]).failure is None,
{
    assert forall|i: int| 0 <= i < sent.len() implies carries(
        #[trigger] sent[i],
        i + 1,
        chunks[i],
    ) by {
        crate::message::law_decoding_is_exact(sent[i], chunks[i].bytes);
    }
    assert(numbered(sent));
    assert forall|j: int| 0 <= j < arrivals.len() implies 1 <= (#[trigger] arrivals[j]).seq
        <= sent.len() && same_message(arrivals[j], sent[arrivals[j].seq - 1]) by {
        let i = choose|i: int|
            0 <= i < sent.len() && same_message(arrivals[j], #[trigger] sent[i]);
        assert(sent[i].seq == i + 1);
    }
    assert forall|k: int| 1 <= k <= sent.len() implies #[trigger] arrived(arrivals, k) by {
        assert(sent[k - 1].seq == k);
        let j = choose|j: int|
            0 <= j < arrivals.len() && (#[trigger] arrivals[j]).seq == sent[k - 1].seq;
        assert(arrivals[j].seq == k);
    }
    law_chunks_arrive_as_sent(chunks, sent, arrivals);
    lemma_handed_out(arrivals, deliveries);
    assert forall|j: int| 0 <= j < deliveries.len() implies (#[trigger] deliveries[j]).failure is None by {
        let earlier = arrivals.take(j);
        let message = arrivals[j];
        assert(earlier.push(message) =~= arrivals.take(j + 1));
        assert forall|k: int| 0 <= k < earlier.push(message).len() implies 1 <= (
        #[trigger] earlier.push(message)[k]).seq <= sent.len() && same_message(
            earlier.push(message)[k],
            sent[earlier.push(message)[k].seq - 1],
        ) by {
            assert(earlier.push(message)[k] == arrivals[k]);
        }
        law_arrivals_fit(sent, earlier, message);
    }
}

} // verus!
