//! The user side: standard streams on one end, a session of the work side on the other.
use vstd::prelude::*;

use crate::message::{
    elapsed_ms, ms_at, AcpMessage, ControlAction, DecodeError, DecodeErrorView, StreamType,
};
use crate::mqtt_client::{
    allowed_in_client_id, is_client_level, sanitize_for_mqtt_client_id, sanitized, session_topic,
    RelayTopicLayout,
};
use crate::ordering::{is_delivery, BufferView, Delivery, ReorderBuffer};
use crate::text::{
    law_numerals_read_back, lemma_numeral_digits, lemma_numeral_injective, lemma_numeral_lacks,
    lemma_same_after, lemma_split_at_mark, numeral, push_numeral, value_of,
};

verus! {

/// How long the user side waits for further output once its standard input has ended, in
/// nanoseconds.
pub const USER_IDLE_GRACE_NANOS: u128 = 1_000_000_000;

/// How often the user side gives a sign of life, in nanoseconds.
pub const USER_HEARTBEAT_INTERVAL_NANOS: u128 = 30 * 1_000_000_000;

/// `{now}-{pid}-{counter}`, all in hexadecimal.
pub open spec fn client_id(now_ms: nat, pid: nat, counter: nat) -> Seq<char> {
    numeral(now_ms, 16) + "-"@ + numeral(pid, 16) + "-"@ + numeral(counter, 16)
}

/// The identifier for a client that starts at a given time, as the given one of its process.
pub fn client_id_at(now_ms: u128, pid: u32, counter: u64) -> (id: String)
    ensures
        id@ == client_id(now_ms as nat, pid as nat, counter as nat),
        id@ == numeral(now_ms as nat, 16) + "-"@ + numeral(pid as nat, 16) + "-"@ + numeral(
            counter as nat,
            16,
        ),
{
    let mut id = String::new();
    push_numeral(&mut id, now_ms, 16);
    id.append("-");
    push_numeral(&mut id, pid as u128, 16);
    id.append("-");
    push_numeral(&mut id, counter as u128, 16);
    assert(id@ =~= client_id(now_ms as nat, pid as nat, counter as nat));
    id
}

/// Counts the identifiers that a process has given out.
#[derive(Debug, Clone, PartialEq, Eq)]
pub struct ClientIdCounter {
    pub next: u64,
}

impl ClientIdCounter {
    /// The first identifier gets the number one.
    pub fn new() -> (counter: Self)
        ensures
            counter.next == 1,
    {
        ClientIdCounter { next: 1 }
    }
}

/// A new identifier for a client of the process `pid`, which starts now. The time is read from the
/// system's clock and can be any.
pub fn generate_client_id(counter: &mut ClientIdCounter, pid: u32) -> (id: String)
    ensures
        exists|now: std::time::SystemTime|
            id@ == client_id(
                match #[trigger] ms_at(now) {
                    Some(ms) => ms as nat,
                    None => 0,
                },
                pid as nat,
                old(counter).next as nat,
            ),
        final(counter).next == if old(counter).next == u64::MAX {
            0
        } else {
            (old(counter).next + 1) as u64
        },
{
    let now_ms: u128 = match elapsed_ms() {
        Some(ms) => ms,
        None => 0,
    };
    let id = client_id_at(now_ms, pid, counter.next);
    counter.next = counter.next.wrapping_add(1);
    id
}

/// Identifiers are unique: two clients have the same only if they started at the same time, in the
/// same process, and under the same number of it.
pub proof fn law_client_ids_are_unique(
    now_ms: nat,
    pid: nat,
    counter: nat,
    other_now_ms: nat,
    other_pid: nat,
    other_counter: nat,
)
    requires
        client_id(now_ms, pid, counter) == client_id(other_now_ms, other_pid, other_counter),
    ensures
        now_ms == other_now_ms,
        pid == other_pid,
        counter == other_counter,
{
    reveal_strlit("-");
    lemma_numeral_lacks(now_ms, 16, '-');
    lemma_numeral_lacks(other_now_ms, 16, '-');
    lemma_numeral_lacks(pid, 16, '-');
    lemma_numeral_lacks(other_pid, 16, '-');
    let rest = "-"@ + (numeral(pid, 16) + ("-"@ + numeral(counter, 16)));
    let other_rest = "-"@ + (numeral(other_pid, 16) + ("-"@ + numeral(other_counter, 16)));
    assert(client_id(now_ms, pid, counter) =~= numeral(now_ms, 16) + rest);
    assert(client_id(other_now_ms, other_pid, other_counter) =~= numeral(other_now_ms, 16)
        + other_rest);
    lemma_split_at_mark(numeral(now_ms, 16), numeral(other_now_ms, 16), '-', rest, other_rest);
    let count = "-"@ + numeral(counter, 16);
    let other_count = "-"@ + numeral(other_counter, 16);
    lemma_same_after("-"@, numeral(pid, 16) + count, numeral(other_pid, 16) + other_count);
    lemma_split_at_mark(numeral(pid, 16), numeral(other_pid, 16), '-', count, other_count);
    lemma_same_after("-"@, numeral(counter, 16), numeral(other_counter, 16));
    lemma_numeral_injective(now_ms, other_now_ms, 16);
    lemma_numeral_injective(pid, other_pid, 16);
    lemma_numeral_injective(counter, other_counter, 16);
}

/// An identifier can be the client's level of a topic, and holds nothing that may not stand in an
/// MQTT client identifier.
pub proof fn law_client_ids_are_fit(now_ms: nat, pid: nat, counter: nat)
    ensures
        is_client_level(client_id(now_ms, pid, counter)),
        forall|i: int|
            0 <= i < client_id(now_ms, pid, counter).len() ==> allowed_in_client_id(
                #[trigger] client_id(now_ms, pid, counter)[i],
            ),
{
    reveal_strlit("-");
    lemma_numeral_digits(now_ms, 16);
    lemma_numeral_digits(pid, 16);
    lemma_numeral_digits(counter, 16);
    let id = client_id(now_ms, pid, counter);
    let a = numeral(now_ms, 16);
    let b = numeral(pid, 16);
    let c = numeral(counter, 16);
    assert forall|i: int| 0 <= i < id.len() implies allowed_in_client_id(#[trigger] id[i]) by {
        if i < a.len() {
            assert(id[i] == a[i]);
        } else if a.len() < i && i < a.len() + 1 + b.len() {
            assert(id[i] == b[i - a.len() - 1]);
        } else if i > a.len() + 1 + b.len() {
            assert(id[i] == c[i - a.len() - b.len() - 2]);
        }
    }
    if id.contains('/') {
        let i = id.index_of('/');
        assert(allowed_in_client_id(id[i]));
    }
}

/// `amr-user-{node_id}-{client_id}`, with the node sanitized.
pub open spec fn user_client_id(node_id: Seq<char>, client_id: Seq<char>) -> Seq<char> {
    "amr-user-"@ + sanitized(node_id) + "-"@ + client_id
}

/// The MQTT client identifier of a client of a node.
pub fn user_mqtt_client_id(node_id: &str, client_id: &str) -> (id: String)
    ensures
        id@ == user_client_id(node_id@, client_id@),
        id@ == "amr-user-"@ + sanitized(node_id@) + "-"@ + client_id@,
{
    let node = sanitize_for_mqtt_client_id(node_id);
    let mut id = "amr-user-".to_owned();
    id.append(node.as_str());
    id.append("-");
    id.append(client_id);
    id
}

/// The topics that a client listens to: the output of its own session.
pub fn user_subscriptions(topic_layout: &RelayTopicLayout, client_id: &str) -> (topics: Vec<String>)
    ensures
        topics@.len() == 1,
        topics@[0]@ == session_topic(topic_layout.node_id@, client_id@, "/out"@),
        topics@[0]@ == "acp/"@ + topic_layout.node_id@ + "/"@ + client_id@ + "/out"@,
{
    let mut topics: Vec<String> = Vec::new();
    topics.push(topic_layout.session_out_topic(client_id));
    topics
}

/// A standard stream that can be written to.
#[derive(Debug, Clone, Copy, PartialEq, Eq, Structural)]
pub enum OutputTarget {
    Stdout,
    Stderr,
}

/// The stream that a chunk is written to: what a child process wrote to its standard error goes to
/// standard error, everything else to standard output.
pub fn output_target(stream: StreamType) -> (target: OutputTarget)
    ensures
        target == if stream == StreamType::Stderr {
            OutputTarget::Stderr
        } else {
            OutputTarget::Stdout
        },
{
    match stream {
        StreamType::Stdout => OutputTarget::Stdout,
        StreamType::Stdin => OutputTarget::Stdout,
        StreamType::Stderr => OutputTarget::Stderr,
    }
}

/// What happens on the user side, but for a message.
#[derive(Debug, Clone, Copy, PartialEq, Eq, Structural)]
pub enum UserEvent {
    /// All of standard input has been sent.
    StdinClosed,
    /// No further heartbeat will be sent.
    HeartbeatEnded,
    /// No further message will come.
    MessagesClosed,
    /// The connection to the broker is no longer served.
    ConnectionEnded,
    /// The time that [`UserSession::grace_remaining`] gave has passed.
    GraceElapsed,
    /// The user wants to stop.
    Interrupted,
}

/// What the user side does next.
#[derive(Debug, Clone, Copy, PartialEq, Eq, Structural)]
pub enum UserStep {
    Continue,
    /// Send the request to the work side, then leave.
    Leave(ControlAction),
}

/// What the user side knows: what output it waits for, and, once its standard input has ended, since
/// when there has been nothing to do. Times are nanoseconds on a clock that never goes back.
pub struct UserSessionView {
    pub buffer: BufferView,
    pub idle_since: Option<u128>,
}

impl UserSessionView {
    /// What the user side knows when it starts.
    pub open spec fn initial() -> UserSessionView {
        UserSessionView { buffer: BufferView::initial(), idle_since: None }
    }

    /// How long to wait for a message before leaving; without an answer, as long as it takes.
    pub open spec fn grace_remaining(self, now: u128) -> Option<int> {
        match self.idle_since {
            None => None,
            Some(since) => Some(
                if now <= since {
                    USER_IDLE_GRACE_NANOS as int
                } else if now - since >= USER_IDLE_GRACE_NANOS {
                    0
                } else {
                    USER_IDLE_GRACE_NANOS - (now - since)
                },
            ),
        }
    }

    /// What the user side knows after an event.
    pub open spec fn after_event(self, event: UserEvent, now: u128) -> UserSessionView {
        if event == UserEvent::StdinClosed {
            UserSessionView { idle_since: Some(now), ..self }
        } else {
            self
        }
    }

    /// What the user side does about an event.
    pub open spec fn step(self, event: UserEvent) -> UserStep {
        if event == UserEvent::StdinClosed || (event == UserEvent::GraceElapsed
            && self.idle_since is None) {
            UserStep::Continue
        } else {
            UserStep::Leave(ControlAction::Shutdown)
        }
    }

    /// What the user side knows once a message has been taken in.
    pub open spec fn received(self, message: AcpMessage) -> UserSessionView {
        UserSessionView { buffer: self.buffer.after(message), ..self }
    }

    /// What the user side knows once the output that a message led to has been written.
    pub open spec fn noted(self, duplicate: bool, now: u128) -> UserSessionView {
        UserSessionView {
            idle_since: if self.idle_since is Some && !duplicate {
                Some(now)
            } else {
                self.idle_since
            },
            ..self
        }
    }

    /// What the user side knows once a message has been taken in and its output has been written.
    pub open spec fn after_message(self, message: AcpMessage, now: u128) -> UserSessionView {
        self.received(message).noted(self.buffer.is_duplicate(message), now)
    }
}

/// The user side of a session.
#[derive(Debug)]
pub struct UserSession {
    pub buffer: ReorderBuffer,
    pub idle_since: Option<u128>,
}

impl View for UserSession {
    type V = UserSessionView;

    open spec fn view(&self) -> UserSessionView {
        UserSessionView { buffer: self.buffer@, idle_since: self.idle_since }
    }
}

impl UserSession {
    /// A session that has just begun.
    pub fn new() -> (session: Self)
        ensures
            session@ == UserSessionView::initial(),
            session.idle_since is None,
            session.buffer@.next == 1,
            session.buffer@.pending == Map::<u64, AcpMessage>::empty(),
            session@.buffer.well_formed(),
    {
        UserSession { buffer: ReorderBuffer::new(), idle_since: None }
    }

    /// Whether all of standard input has been sent.
    pub fn stdin_closed(&self) -> (closed: bool)
        ensures
            closed == (self@.idle_since is Some),
            closed == (self.idle_since is Some),
    {
        self.idle_since.is_some()
    }

    /// How many nanoseconds to wait for a message before leaving, if there is a limit.
    pub fn grace_remaining(&self, now: u128) -> (nanos: Option<u128>)
        ensures
            match nanos {
                Some(nanos) => self@.grace_remaining(now) == Some(nanos as int),
                None => self@.grace_remaining(now) is None,
            },
            nanos is Some <==> self.idle_since is Some,
            nanos is Some ==> {
                let waited: int = if now > self.idle_since->0 {
                    now - self.idle_since->0
                } else {
                    0
                };
                nanos->0 == if waited < 1_000_000_000 {
                    1_000_000_000 - waited
                } else {
                    0
                }
            },
    {
        match self.idle_since {
            None => None,
            Some(since) => {
                let elapsed: u128 = if now <= since {
                    0
                } else {
                    now - since
                };
                if elapsed >= USER_IDLE_GRACE_NANOS {
                    Some(0)
                } else {
                    Some(USER_IDLE_GRACE_NANOS - elapsed)
                }
            },
        }
    }

    /// Takes note of an event and decides whether to go on.
    pub fn step(&mut self, event: UserEvent, now: u128) -> (step: UserStep)
        ensures
            final(self)@ == old(self)@.after_event(event, now),
            step == old(self)@.step(event),
            final(self).buffer@ == old(self).buffer@,
            match event {
                UserEvent::StdinClosed => step == UserStep::Continue && final(self).idle_since
                    == Some(now),
                UserEvent::GraceElapsed => final(self).idle_since == old(self).idle_since && step
                    == if old(self).idle_since is Some {
                    UserStep::Leave(ControlAction::Shutdown)
                } else {
                    UserStep::Continue
                },
                _ => final(self).idle_since == old(self).idle_since && step == UserStep::Leave(
                    ControlAction::Shutdown,
                ),
            },
    {
        match event {
            UserEvent::StdinClosed => {
                self.idle_since = Some(now);
                UserStep::Continue
            },
            UserEvent::GraceElapsed => {
                if self.stdin_closed() {
                    UserStep::Leave(ControlAction::Shutdown)
                } else {
                    UserStep::Continue
                }
            },
            _ => UserStep::Leave(ControlAction::Shutdown),
        }
    }

    /// Takes in a message, and gives the chunks that are now due for output, in order. Gives nothing
    /// and leaves the message out if there is no number left to expect after it.
    pub fn receive(&mut self, message: AcpMessage) -> (delivery: Option<Delivery>)
        requires
            old(self)@.buffer.well_formed(),
        ensures
            final(self)@.buffer.well_formed(),
            match delivery {
                Some(delivery) => {
                    &&& old(self)@.buffer.has_room_for(message)
                    &&& final(self)@ == old(self)@.received(message)
                    &&& is_delivery(old(self)@.buffer, message, delivery)
                },
                None => !old(self)@.buffer.has_room_for(message) && final(self)@ == old(self)@,
            },
            final(self).idle_since == old(self).idle_since,
            delivery is Some ==> match delivery->0.failure {
                None => old(self).buffer@.failure(message) is None,
                Some(DecodeError::Base64(fault)) => old(self).buffer@.failure(message) == Some(
                    DecodeErrorView::Base64(fault),
                ),
                Some(DecodeError::UnsupportedEncoding(name)) => old(self).buffer@.failure(message)
                    == Some(DecodeErrorView::UnsupportedEncoding(name@)),
            },
            delivery is Some ==> {
                let given = old(self).buffer@.delivered(message);
                let chunks = delivery->0.chunks@;
                &&& final(self).buffer@ == old(self).buffer@.after(message)
                &&& delivery->0.duplicate <==> message.seq < old(self).buffer@.next
                &&& chunks.len() == given.len()
                &&& forall|i: int|
                    0 <= i < chunks.len() ==> (#[trigger] chunks[i]).bytes@ == given[i].bytes
                        && chunks[i].stream == given[i].stream
            },
    {
        if !self.buffer.has_room_for(&message) {
            return None;
        }
        Some(self.buffer.accept(message))
    }

    /// Takes note that the output of a delivery has been written. Anything but a duplicate counts
    /// as traffic.
    pub fn delivered(&mut self, delivery: &Delivery, now: u128)
        ensures
            final(self)@ == old(self)@.noted(delivery.duplicate, now),
            final(self).buffer@ == old(self).buffer@,
            final(self).idle_since == if old(self).idle_since is Some && !delivery.duplicate {
                Some(now)
            } else {
                old(self).idle_since
            },
    {
        if !delivery.duplicate && self.stdin_closed() {
            self.idle_since = Some(now);
        }
    }
}

/// While standard input is open, the lack of messages is no reason to leave. Once it has ended, the
/// time to wait runs out exactly when the grace period has passed since the last sign of traffic:
/// the end of the input, or a message that was no duplicate.
pub proof fn law_leaves_only_when_idle(
    session: UserSessionView,
    message: AcpMessage,
    seen: u128,
    now: u128,
)
    requires
        seen <= now,
    ensures
        session.idle_since is None ==> session.grace_remaining(now) is None && session.step(
            UserEvent::GraceElapsed,
        ) == UserStep::Continue,
        session.after_event(UserEvent::StdinClosed, seen).grace_remaining(now) == Some(0int) <==> now
            - seen >= USER_IDLE_GRACE_NANOS,
        session.idle_since is Some && !session.buffer.is_duplicate(message) ==> (
        session.after_message(message, seen).grace_remaining(now) == Some(0int) <==> now - seen
            >= USER_IDLE_GRACE_NANOS),
        session.buffer.is_duplicate(message) ==> session.after_message(message, seen) == session,
{
}

/// However the user side comes to leave, it asks the work side to shut the session down.
pub proof fn law_leaving_ends_the_session(session: UserSessionView, event: UserEvent)
    ensures
        session.step(event) == UserStep::Continue || session.step(event) == UserStep::Leave(
            ControlAction::Shutdown,
        ),
        event == UserEvent::Interrupted ==> session.step(event) != UserStep::Continue,
{
}

/// The MQTT client identifiers of both sides hold nothing that may not stand in one, whatever the
/// node is called, and those of two clients of a node are different.
pub proof fn law_mqtt_client_ids_are_fit(
    node_id: Seq<char>,
    now_ms: nat,
    pid: u32,
    counter: nat,
    other: Seq<char>,
)
    ensures
        ({
            let user = user_client_id(node_id, client_id(now_ms, pid as nat, counter));
            let work = crate::work_mode::work_client_id(node_id, pid);
            &&& forall|i: int| 0 <= i < user.len() ==> allowed_in_client_id(#[trigger] user[i])
            &&& forall|i: int| 0 <= i < work.len() ==> allowed_in_client_id(#[trigger] work[i])
            &&& other != client_id(now_ms, pid as nat, counter) ==> user_client_id(node_id, other)
                != user
            &&& user != work
        }),
{
    reveal_strlit("amr-user-");
    reveal_strlit("amr-work-");
    reveal_strlit("-");
    let id = client_id(now_ms, pid as nat, counter);
    let user = user_client_id(node_id, id);
    let work = crate::work_mode::work_client_id(node_id, pid);
    let node = sanitized(node_id);
    let process = numeral(pid as nat, 16);
    law_client_ids_are_fit(now_ms, pid as nat, counter);
    crate::mqtt_client::law_sanitized_is_fit(node_id);
    lemma_numeral_digits(pid as nat, 16);
    assert forall|i: int| 0 <= i < user.len() implies allowed_in_client_id(#[trigger] user[i]) by {
        if 9 <= i < 9 + node.len() {
            assert(user[i] == node[i - 9]);
        } else if i >= 10 + node.len() {
            assert(user[i] == id[i - 10 - node.len()]);
        }
    }
    assert forall|i: int| 0 <= i < work.len() implies allowed_in_client_id(#[trigger] work[i]) by {
        if 9 <= i < 9 + node.len() {
            assert(work[i] == node[i - 9]);
        } else if i >= 10 + node.len() {
            assert(work[i] == process[i - 10 - node.len()]);
        }
    }
    if user_client_id(node_id, other) == user {
        assert(other =~= user.skip(10 + node.len() as int));
        assert(id =~= user.skip(10 + node.len() as int));
    }
    assert(user[4] == 'u' && work[4] == 'w');
}

/// An identifier reads back as what it was made of: two dashes cut it into three rows of hexadecimal
/// digits, which stand for the time, the process and the count.
pub proof fn law_client_ids_read_back(now_ms: nat, pid: nat, counter: nat)
    ensures
        exists|a: Seq<char>, b: Seq<char>, c: Seq<char>|
            {
                &&& client_id(now_ms, pid, counter) == #[trigger] (a + "-"@ + b + "-"@ + c)
                &&& !a.contains('-') && !b.contains('-') && !c.contains('-')
                &&& value_of(a, 16) == now_ms
                &&& value_of(b, 16) == pid
                &&& value_of(c, 16) == counter
            },
{
    let a = numeral(now_ms, 16);
    let b = numeral(pid, 16);
    let c = numeral(counter, 16);
    lemma_numeral_lacks(now_ms, 16, '-');
    lemma_numeral_lacks(pid, 16, '-');
    lemma_numeral_lacks(counter, 16, '-');
    law_numerals_read_back(now_ms, 16);
    law_numerals_read_back(pid, 16);
    law_numerals_read_back(counter, 16);
    assert(client_id(now_ms, pid, counter) == a + "-"@ + b + "-"@ + c);
}

/// The grace period is one second from the last sign of traffic: until it is over, the time already
/// waited and the time still to wait come to one second.
pub proof fn law_the_grace_period_is_one_second(session: UserSessionView, seen: u128, now: u128)
    requires
        session.idle_since == Some(seen),
        seen <= now,
    ensures
        session.grace_remaining(now) is Some,
        now - seen < 1_000_000_000 ==> session.grace_remaining(now)->0 + (now - seen)
            == 1_000_000_000,
        now - seen >= 1_000_000_000 ==> session.grace_remaining(now)->0 == 0,
        session.step(UserEvent::GraceElapsed) == UserStep::Leave(ControlAction::Shutdown),
{
}

/// What each event does: the end of standard input starts the wait and goes on, the end of the wait
/// counts only once standard input has ended, every other event makes the user side leave, and none
/// touches what is waited for.
pub proof fn law_events_are_followed(session: UserSessionView, event: UserEvent, now: u128)
    ensures
        session.after_event(event, now).buffer == session.buffer,
        event == UserEvent::StdinClosed ==> session.after_event(event, now).idle_since == Some(now)
            && session.step(event) == UserStep::Continue,
        event != UserEvent::StdinClosed ==> session.after_event(event, now) == session,
        event != UserEvent::StdinClosed && event != UserEvent::GraceElapsed ==> session.step(event)
            == UserStep::Leave(ControlAction::Shutdown),
        event == UserEvent::GraceElapsed ==> (session.step(event) == UserStep::Continue
            <==> session.idle_since is None),
{
}

/// A message goes to the buffer and nowhere else, and once its output has been written it starts the
/// wait anew, but only where standard input has ended and the message was no duplicate.
pub proof fn law_messages_are_traffic(session: UserSessionView, message: AcpMessage, now: u128)
    ensures
        session.received(message).buffer == session.buffer.after(message),
        session.received(message).idle_since == session.idle_since,
        session.after_message(message, now).buffer == session.buffer.after(message),
        session.idle_since is None ==> session.after_message(message, now).idle_since is None,
        session.idle_since is Some && message.seq >= session.buffer.next
            ==> session.after_message(message, now).idle_since == Some(now),
        session.idle_since is Some && message.seq < session.buffer.next ==> session.after_message(
            message,
            now,
        ).idle_since == session.idle_since,
        session.noted(true, now) == session,
        session.noted(false, now).buffer == session.buffer,
        session.noted(false, now).idle_since is Some <==> session.idle_since is Some,
        session.idle_since is Some ==> session.noted(false, now).idle_since == Some(now),
{
}

} // verus!
