//! The work side: a session with a child process for every client.
use vstd::prelude::*;

use crate::encoding::base64_encoded;
use crate::message::{
    same_message, AcpMessage, ControlAction, ControlMessage, DecodeError, DecodeErrorView,
    StreamType,
};
use crate::mqtt_client::{
    is_client_level, node_topic, sanitize_for_mqtt_client_id, sanitized, session_topic,
    RelayTopicLayout,
};
use crate::ordering::{
    arrivals_of, arrived, carries, law_arrivals_fit, law_chunks_arrive_as_sent, numbered,
    BufferView, ChunkView, ReorderBuffer,
};
use crate::text::{numeral, push_numeral, same_text};

verus! {

/// How long a session may go without a sign of life: 48 hours, in nanoseconds.
pub const SESSION_TTL_NANOS: u128 = 48 * 60 * 60 * 1_000_000_000;

/// How often sessions are looked through for stale ones, in nanoseconds.
pub const SESSION_CLEANUP_INTERVAL_NANOS: u128 = 60 * 1_000_000_000;

/// What is known of a session: what it waits for, and when it last gave a sign of life. Times are
/// nanoseconds on a clock that never goes back.
pub struct SessionView {
    pub buffer: BufferView,
    pub last_seen: u128,
}

impl SessionView {
    /// The buffer is in order, and nothing but standard input waits in it.
    pub open spec fn well_formed(self) -> bool {
        &&& self.buffer.well_formed()
        &&& forall|k: u64| #[trigger]
            self.buffer.pending.contains_key(k) ==> self.buffer.pending[k].stream
                == StreamType::Stdin
    }

    /// A session that starts now.
    pub open spec fn started(now: u128) -> SessionView {
        SessionView { buffer: BufferView::initial(), last_seen: now }
    }

    /// The session after a sign of life.
    pub open spec fn touched(self, now: u128) -> SessionView {
        SessionView { last_seen: now, ..self }
    }

    /// Whether the session has gone without a sign of life for too long.
    pub open spec fn is_expired(self, now: u128, ttl: u128) -> bool {
        if now >= self.last_seen {
            now - self.last_seen >= ttl
        } else {
            ttl == 0
        }
    }

    /// The session after a message for its child process; only standard input counts.
    pub open spec fn after(self, message: AcpMessage) -> SessionView {
        if message.stream == StreamType::Stdin {
            SessionView { buffer: self.buffer.after(message), ..self }
        } else {
            self
        }
    }

    /// The chunks that a message sets free for the child process.
    pub open spec fn delivered(self, message: AcpMessage) -> Seq<ChunkView> {
        if message.stream == StreamType::Stdin {
            self.buffer.delivered(message)
        } else {
            Seq::empty()
        }
    }

    /// Whether a message for the child process can be taken in.
    pub open spec fn has_room_for(self, message: AcpMessage) -> bool {
        message.stream == StreamType::Stdin ==> self.buffer.has_room_for(message)
    }
}

/// A session of a client.
#[derive(Debug)]
pub struct SessionHandle {
    pub buffer: ReorderBuffer,
    pub last_seen: u128,
}

impl View for SessionHandle {
    type V = SessionView;

    open spec fn view(&self) -> SessionView {
        SessionView { buffer: self.buffer@, last_seen: self.last_seen }
    }
}

/// The bytes of some chunks, in order.
pub open spec fn bytes_of(chunks: Seq<ChunkView>) -> Seq<Seq<u8>> {
    chunks.map_values(|chunk: ChunkView| chunk.bytes)
}

/// The contents of some byte vectors, in order.
pub open spec fn byte_views(parts: Seq<Vec<u8>>) -> Seq<Seq<u8>> {
    parts.map_values(|part: Vec<u8>| part@)
}

/// What a message for a child process comes to: bytes to write, or the error of a message.
pub open spec fn is_drained(
    session: SessionView,
    message: AcpMessage,
    r: Result<Vec<Vec<u8>>, DecodeError>,
) -> bool {
    let failure = if message.stream == StreamType::Stdin {
        session.buffer.failure(message)
    } else {
        None
    };
    match r {
        Ok(parts) => failure is None && byte_views(parts@) == bytes_of(session.delivered(message)),
        Err(e) => failure == Some(e@),
    }
}

impl SessionHandle {
    /// A session that starts now.
    pub fn new(now: u128) -> (session: Self)
        ensures
            session@ == SessionView::started(now),
            session.last_seen == now,
            session.buffer@.next == 1,
            session.buffer@.pending == Map::<u64, AcpMessage>::empty(),
            session@.well_formed(),
    {
        SessionHandle { buffer: ReorderBuffer::new(), last_seen: now }
    }

    /// Notes a sign of life.
    pub fn touch(&mut self, now: u128)
        ensures
            final(self)@ == old(self)@.touched(now),
            final(self).last_seen == now,
            final(self).buffer@ == old(self).buffer@,
    {
        self.last_seen = now;
    }

    /// Whether the session has gone without a sign of life for at least `ttl`.
    pub fn is_expired(&self, now: u128, ttl: u128) -> (expired: bool)
        ensures
            expired == self@.is_expired(now, ttl),
            now >= self.last_seen ==> (expired <==> now - self.last_seen >= ttl),
            now < self.last_seen ==> (expired <==> ttl == 0),
    {
        if now >= self.last_seen {
            now - self.last_seen >= ttl
        } else {
            ttl == 0
        }
    }

    /// Whether [`drain_ready_messages`](SessionHandle::drain_ready_messages) can take a message in.
    pub fn has_room_for(&self, message: &AcpMessage) -> (room: bool)
        requires
            self@.well_formed(),
        ensures
            room == self@.has_room_for(*message),
            room <==> (message.stream == StreamType::Stdin ==> self.buffer@.has_room_for(*message)),
    {
        message.stream != StreamType::Stdin || self.buffer.has_room_for(message)
    }

    /// Takes in a message for the child process and gives the bytes that are now due, in order.
    /// Messages of other streams are left alone, and so are those that were handed out before.
    pub fn drain_ready_messages(&mut self, message: AcpMessage) -> (r: Result<
        Vec<Vec<u8>>,
        DecodeError,
    >)
        requires
            old(self)@.well_formed(),
            old(self)@.has_room_for(message),
        ensures
            final(self)@ == old(self)@.after(message),
            final(self)@.well_formed(),
            is_drained(old(self)@, message, r),
            final(self).last_seen == old(self).last_seen,
            final(self).buffer@ == if message.stream == StreamType::Stdin {
                old(self).buffer@.after(message)
            } else {
                old(self).buffer@
            },
            message.stream != StreamType::Stdin ==> r is Ok && r->Ok_0@.len() == 0,
            message.stream == StreamType::Stdin ==> (r is Ok <==> old(self).buffer@.failure(
                message,
            ) is None),
            message.stream == StreamType::Stdin && r is Ok ==> {
                let given = old(self).buffer@.delivered(message);
                &&& r->Ok_0@.len() == given.len()
                &&& forall|i: int|
                    0 <= i < given.len() ==> (#[trigger] r->Ok_0@[i])@ == given[i].bytes
            },
            message.stream == StreamType::Stdin && r is Err ==> match r->Err_0 {
                DecodeError::Base64(fault) => old(self).buffer@.failure(message) == Some(
                    DecodeErrorView::Base64(fault),
                ),
                DecodeError::UnsupportedEncoding(name) => old(self).buffer@.failure(message)
                    == Some(DecodeErrorView::UnsupportedEncoding(name@)),
            },
    {
        let mut ready: Vec<Vec<u8>> = Vec::new();
        if message.stream != StreamType::Stdin {
            assert(byte_views(ready@) =~= bytes_of(self@.delivered(message)));
            return Ok(ready);
        }
        let delivery = self.buffer.accept(message);
        if let Some(e) = delivery.failure {
            return Err(e);
        }
        let chunks = delivery.chunks;
        let ghost all = chunks@;
        for chunk in it: chunks
            invariant
                it.seq() == all,
                ready@.len() == it.index(),
                forall|i: int| 0 <= i < it.index() ==> (#[trigger] ready@[i])@ == all[i].bytes@,
        {
            ready.push(chunk.bytes);
        }
        assert(byte_views(ready@) =~= bytes_of(crate::ordering::chunk_views(all)));
        Ok(ready)
    }
}

/// What is known of all sessions, by client.
pub type Sessions = Map<Seq<char>, SessionView>;

/// A session and the client it belongs to.
#[derive(Debug)]
struct SessionEntry {
    client_id: String,
    handle: SessionHandle,
}

/// Whether the entry at a position belongs to a client.
spec fn belongs_to(entries: Seq<SessionEntry>, i: int, client_id: Seq<char>) -> bool {
    0 <= i < entries.len() && entries[i].client_id@ == client_id
}

/// Whether no client has two entries.
spec fn one_each(entries: Seq<SessionEntry>) -> bool {
    forall|i: int, j: int|
        0 <= i < j < entries.len() ==> (#[trigger] entries[i]).client_id@ != (
        #[trigger] entries[j]).client_id@
}

/// The sessions of some entries, by client.
spec fn sessions_of(entries: Seq<SessionEntry>) -> Sessions {
    Map::new(
        |client_id: Seq<char>| exists|i: int| #[trigger] belongs_to(entries, i, client_id),
        |client_id: Seq<char>|
            entries[choose|i: int| #[trigger] belongs_to(entries, i, client_id)].handle@,
    )
}

/// Where no client has two entries, each entry is what is known of its client.
proof fn lemma_entry(entries: Seq<SessionEntry>, i: int)
    requires
        one_each(entries),
        0 <= i < entries.len(),
    ensures
        sessions_of(entries).contains_key(entries[i].client_id@),
        sessions_of(entries)[entries[i].client_id@] == entries[i].handle@,
{
    let client_id = entries[i].client_id@;
    assert(belongs_to(entries, i, client_id));
    let j = choose|j: int| #[trigger] belongs_to(entries, j, client_id);
    assert(belongs_to(entries, j, client_id));
    assert(i == j);
}

/// The sessions that are running, one for each client.
#[derive(Debug)]
pub struct SessionTable {
    entries: Vec<SessionEntry>,
}

impl View for SessionTable {
    type V = Sessions;

    closed spec fn view(&self) -> Sessions {
        sessions_of(self.entries@)
    }
}

impl SessionTable {
    /// No client has two sessions, and each one is well-formed.
    pub closed spec fn well_formed(&self) -> bool {
        &&& one_each(self.entries@)
        &&& forall|i: int|
            0 <= i < self.entries@.len() ==> (
            #[trigger] self.entries@[i]).handle@.well_formed()
    }

    /// A table without sessions.
    pub fn new() -> (table: Self)
        ensures
            table@ == Sessions::empty(),
            table.well_formed(),
    {
        let table = SessionTable { entries: Vec::new() };
        assert(table@ =~= Sessions::empty());
        table
    }

    fn position(&self, client_id: &str) -> (position: Option<usize>)
        requires
            self.well_formed(),
        ensures
            match position {
                Some(i) => belongs_to(self.entries@, i as int, client_id@) && self@.contains_key(
                    client_id@,
                ) && self@[client_id@] == self.entries@[i as int].handle@,
                None => !self@.contains_key(client_id@),
            },
    {
        for i in 0..self.entries.len()
            invariant
                self.well_formed(),
                forall|j: int| 0 <= j < i ==> !#[trigger] belongs_to(self.entries@, j, client_id@),
        {
            if same_text(self.entries[i].client_id.as_str(), client_id) {
                proof {
                    lemma_entry(self.entries@, i as int);
                }
                return Some(i);
            }
        }
        None
    }

    /// Whether a client has a session.
    pub fn contains(&self, client_id: &str) -> (found: bool)
        requires
            self.well_formed(),
        ensures
            found == self@.contains_key(client_id@),
    {
        self.position(client_id).is_some()
    }

    fn touch(&mut self, client_id: &str, now: u128) -> (found: bool)
        requires
            old(self).well_formed(),
        ensures
            final(self).well_formed(),
            found == old(self)@.contains_key(client_id@),
            final(self)@ == if found {
                old(self)@.insert(client_id@, old(self)@[client_id@].touched(now))
            } else {
                old(self)@
            },
    {
        match self.position(client_id) {
            Some(i) => {
                self.entries[i].handle.touch(now);
                proof {
                    lemma_update(old(self).entries@, self.entries@, i as int);
                }
                true
            },
            None => false,
        }
    }

    fn insert(&mut self, client_id: &str, handle: SessionHandle)
        requires
            old(self).well_formed(),
            !old(self)@.contains_key(client_id@),
            handle@.well_formed(),
        ensures
            final(self).well_formed(),
            final(self)@ == old(self)@.insert(client_id@, handle@),
    {
        self.entries.push(SessionEntry { client_id: client_id.to_owned(), handle });
        proof {
            lemma_push(old(self).entries@, self.entries@.last());
        }
    }

    fn remove_at(&mut self, i: usize) -> (client_id: String)
        requires
            old(self).well_formed(),
            i < old(self).entries@.len(),
        ensures
            final(self).well_formed(),
            final(self).entries@ == old(self).entries@.remove(i as int),
            client_id@ == old(self).entries@[i as int].client_id@,
            old(self)@.contains_key(client_id@),
            old(self)@[client_id@] == old(self).entries@[i as int].handle@,
            final(self)@ == old(self)@.remove(client_id@),
    {
        let entry = self.entries.remove(i);
        proof {
            lemma_entry(old(self).entries@, i as int);
            lemma_remove(old(self).entries@, i as int);
        }
        entry.client_id
    }

    /// Forgets the session of a client that is no longer running, if there is one.
    pub fn remove(&mut self, client_id: &str) -> (found: bool)
        requires
            old(self).well_formed(),
        ensures
            final(self).well_formed(),
            found == old(self)@.contains_key(client_id@),
            final(self)@ == old(self)@.remove(client_id@),
    {
        match self.position(client_id) {
            Some(i) => {
                self.remove_at(i);
                true
            },
            None => {
                assert(self@.remove(client_id@) =~= self@);
                false
            },
        }
    }
}

/// Changing what is known of one client changes nothing else.
proof fn lemma_update(before: Seq<SessionEntry>, after: Seq<SessionEntry>, i: int)
    requires
        one_each(before),
        0 <= i < before.len(),
        after.len() == before.len(),
        forall|j: int| 0 <= j < before.len() && j != i ==> after[j] == #[trigger] before[j],
        after[i].client_id@ == before[i].client_id@,
    ensures
        one_each(after),
        sessions_of(after) == sessions_of(before).insert(before[i].client_id@, after[i].handle@),
{
    assert(forall|j: int|
        0 <= j < after.len() ==> (#[trigger] after[j]).client_id@ == before[j].client_id@);
    assert(one_each(after));
    let changed = sessions_of(before).insert(before[i].client_id@, after[i].handle@);
    assert forall|client_id: Seq<char>|
        #[trigger] sessions_of(after).contains_key(client_id) == changed.contains_key(client_id) && (
        changed.contains_key(client_id) ==> sessions_of(after)[client_id] == changed[client_id]) by {
        if sessions_of(after).contains_key(client_id) {
            let j = choose|j: int| #[trigger] belongs_to(after, j, client_id);
            lemma_entry(after, j);
            lemma_entry(before, j);
        }
        if changed.contains_key(client_id) {
            if client_id != before[i].client_id@ {
                let j = choose|j: int| #[trigger] belongs_to(before, j, client_id);
                lemma_entry(after, j);
            } else {
                lemma_entry(after, i);
            }
        }
    }
    assert(sessions_of(after) =~= changed);
}

/// A new entry for a client that had none adds its session.
proof fn lemma_push(before: Seq<SessionEntry>, entry: SessionEntry)
    requires
        one_each(before),
        !sessions_of(before).contains_key(entry.client_id@),
    ensures
        one_each(before.push(entry)),
        sessions_of(before.push(entry)) == sessions_of(before).insert(
            entry.client_id@,
            entry.handle@,
        ),
{
    let after = before.push(entry);
    let client = entry.client_id@;
    assert forall|i: int| 0 <= i < before.len() implies (#[trigger] before[i]).client_id@ != client by {
        lemma_entry(before, i);
    }
    assert(forall|i: int| 0 <= i < before.len() ==> #[trigger] after[i] == before[i]);
    assert(one_each(after));
    let changed = sessions_of(before).insert(client, entry.handle@);
    assert forall|client_id: Seq<char>|
        #[trigger] sessions_of(after).contains_key(client_id) == changed.contains_key(client_id) && (
        changed.contains_key(client_id) ==> sessions_of(after)[client_id] == changed[client_id]) by {
        if sessions_of(after).contains_key(client_id) {
            let j = choose|j: int| #[trigger] belongs_to(after, j, client_id);
            lemma_entry(after, j);
            if j < before.len() {
                lemma_entry(before, j);
            }
        }
        if changed.contains_key(client_id) {
            if client_id != client {
                let j = choose|j: int| #[trigger] belongs_to(before, j, client_id);
                lemma_entry(after, j);
            } else {
                lemma_entry(after, before.len() as int);
            }
        }
    }
    assert(sessions_of(after) =~= changed);
}

/// Taking the entry of a client away removes its session and no other.
proof fn lemma_remove(before: Seq<SessionEntry>, i: int)
    requires
        one_each(before),
        0 <= i < before.len(),
    ensures
        one_each(before.remove(i)),
        sessions_of(before.remove(i)) == sessions_of(before).remove(before[i].client_id@),
{
    let after = before.remove(i);
    let client = before[i].client_id@;
    assert(forall|j: int| 0 <= j < i ==> #[trigger] after[j] == before[j]);
    assert(forall|j: int| i <= j < after.len() ==> #[trigger] after[j] == before[j + 1]);
    assert(one_each(after));
    let changed = sessions_of(before).remove(client);
    assert forall|client_id: Seq<char>|
        #[trigger] sessions_of(after).contains_key(client_id) == changed.contains_key(client_id) && (
        changed.contains_key(client_id) ==> sessions_of(after)[client_id] == changed[client_id]) by {
        if sessions_of(after).contains_key(client_id) {
            let j = choose|j: int| #[trigger] belongs_to(after, j, client_id);
            lemma_entry(after, j);
            lemma_entry(
                before,
                if j < i {
                    j
                } else {
                    j + 1
                },
            );
        }
        if changed.contains_key(client_id) {
            let j = choose|j: int| #[trigger] belongs_to(before, j, client_id);
            lemma_entry(before, j);
            lemma_entry(
                after,
                if j < i {
                    j
                } else {
                    j - 1
                },
            );
        }
    }
    assert(sessions_of(after) =~= changed);
}

/// The sessions once a client's session has been looked after: it runs, and has just given a sign
/// of life.
pub open spec fn ensured(sessions: Sessions, client_id: Seq<char>, now: u128) -> Sessions {
    sessions.insert(
        client_id,
        if sessions.contains_key(client_id) {
            sessions[client_id].touched(now)
        } else {
            SessionView::started(now)
        },
    )
}

/// The sessions once a request about a client's session has been served.
pub open spec fn after_control(
    sessions: Sessions,
    client_id: Seq<char>,
    action: ControlAction,
    now: u128,
) -> Sessions {
    match action {
        ControlAction::Spawn => ensured(sessions, client_id, now),
        ControlAction::Heartbeat => ensured(sessions, client_id, now),
        ControlAction::Shutdown => sessions.remove(client_id),
    }
}

/// The sessions once a message for a client's child process has been taken in.
pub open spec fn after_input(
    sessions: Sessions,
    client_id: Seq<char>,
    message: AcpMessage,
    now: u128,
) -> Sessions {
    if sessions.contains_key(client_id) {
        sessions.insert(client_id, sessions[client_id].touched(now).after(message))
    } else {
        sessions
    }
}

/// The sessions that have given a sign of life recently enough.
pub open spec fn unexpired(sessions: Sessions, now: u128, ttl: u128) -> Sessions {
    sessions.restrict(Set::new(|client_id: Seq<char>| !sessions[client_id].is_expired(now, ttl)))
}

/// What is to be done about a request.
#[derive(Debug, Clone, PartialEq, Eq)]
pub enum SessionAction {
    /// Nothing.
    Keep,
    /// Start a child process that writes to a topic.
    Start { client_id: String, out_topic: String },
    /// Stop the child process.
    Stop { client_id: String },
}

/// A [`SessionAction`] with its texts as characters.
pub enum SessionActionView {
    Keep,
    Start { client_id: Seq<char>, out_topic: Seq<char> },
    Stop { client_id: Seq<char> },
}

impl View for SessionAction {
    type V = SessionActionView;

    open spec fn view(&self) -> SessionActionView {
        match self {
            SessionAction::Keep => SessionActionView::Keep,
            SessionAction::Start { client_id, out_topic } => SessionActionView::Start {
                client_id: client_id@,
                out_topic: out_topic@,
            },
            SessionAction::Stop { client_id } => SessionActionView::Stop { client_id: client_id@ },
        }
    }
}

/// What is to be done so that a client has a session.
pub open spec fn start_unless_running(
    node_id: Seq<char>,
    sessions: Sessions,
    client_id: Seq<char>,
) -> SessionActionView {
    if sessions.contains_key(client_id) {
        SessionActionView::Keep
    } else {
        SessionActionView::Start {
            client_id,
            out_topic: session_topic(node_id, client_id, "/out"@),
        }
    }
}

/// What is to be done about a request.
pub open spec fn control_step(
    node_id: Seq<char>,
    sessions: Sessions,
    client_id: Seq<char>,
    action: ControlAction,
) -> SessionActionView {
    match action {
        ControlAction::Spawn => start_unless_running(node_id, sessions, client_id),
        ControlAction::Heartbeat => start_unless_running(node_id, sessions, client_id),
        ControlAction::Shutdown => if sessions.contains_key(client_id) {
            SessionActionView::Stop { client_id }
        } else {
            SessionActionView::Keep
        },
    }
}

/// Sees to it that a client has a session, and notes its sign of life.
pub fn ensure_session(
    topic_layout: &RelayTopicLayout,
    sessions: &mut SessionTable,
    client_id: &str,
    now: u128,
) -> (action: SessionAction)
    requires
        old(sessions).well_formed(),
    ensures
        final(sessions).well_formed(),
        final(sessions)@ == ensured(old(sessions)@, client_id@, now),
        action@ == start_unless_running(topic_layout.node_id@, old(sessions)@, client_id@),
        match action {
            SessionAction::Keep => old(sessions)@.contains_key(client_id@),
            SessionAction::Start { client_id: started, out_topic } => {
                &&& !old(sessions)@.contains_key(client_id@)
                &&& started@ == client_id@
                &&& out_topic@ == "acp/"@ + topic_layout.node_id@ + "/"@ + client_id@ + "/out"@
            },
            SessionAction::Stop { .. } => false,
        },
        final(sessions)@.contains_key(client_id@),
        final(sessions)@[client_id@].last_seen == now,
        final(sessions)@[client_id@].buffer == if old(sessions)@.contains_key(client_id@) {
            old(sessions)@[client_id@].buffer
        } else {
            BufferView::initial()
        },
        final(sessions)@.remove(client_id@) == old(sessions)@.remove(client_id@),
{
    proof {
        assert(ensured(sessions@, client_id@, now).remove(client_id@) =~= sessions@.remove(
            client_id@,
        ));
    }
    if sessions.touch(client_id, now) {
        return SessionAction::Keep;
    }
    let out_topic = topic_layout.session_out_topic(client_id);
    sessions.insert(client_id, SessionHandle::new(now));
    SessionAction::Start { client_id: client_id.to_owned(), out_topic }
}

/// Ends the session of a client, if there is one.
pub fn shutdown_session(sessions: &mut SessionTable, client_id: &str) -> (action: SessionAction)
    requires
        old(sessions).well_formed(),
    ensures
        final(sessions).well_formed(),
        final(sessions)@ == old(sessions)@.remove(client_id@),
        action@ == if old(sessions)@.contains_key(client_id@) {
            SessionActionView::Stop { client_id: client_id@ }
        } else {
            SessionActionView::Keep
        },
        match action {
            SessionAction::Keep => !old(sessions)@.contains_key(client_id@),
            SessionAction::Start { .. } => false,
            SessionAction::Stop { client_id: stopped } => old(sessions)@.contains_key(client_id@)
                && stopped@ == client_id@,
        },
{
    if sessions.remove(client_id) {
        SessionAction::Stop { client_id: client_id.to_owned() }
    } else {
        SessionAction::Keep
    }
}

/// Serves a request about a client's session.
pub fn handle_control_message(
    topic_layout: &RelayTopicLayout,
    sessions: &mut SessionTable,
    message: &ControlMessage,
    now: u128,
) -> (action: SessionAction)
    requires
        old(sessions).well_formed(),
    ensures
        final(sessions).well_formed(),
        final(sessions)@ == after_control(
            old(sessions)@,
            message.client_id@,
            message.action,
            now,
        ),
        action@ == control_step(
            topic_layout.node_id@,
            old(sessions)@,
            message.client_id@,
            message.action,
        ),
        match action {
            SessionAction::Keep => old(sessions)@.contains_key(message.client_id@) <==> (
            message.action != ControlAction::Shutdown),
            SessionAction::Start { client_id, out_topic } => {
                &&& message.action != ControlAction::Shutdown
                &&& !old(sessions)@.contains_key(message.client_id@)
                &&& client_id@ == message.client_id@
                &&& out_topic@ == "acp/"@ + topic_layout.node_id@ + "/"@ + message.client_id@
                    + "/out"@
            },
            SessionAction::Stop { client_id } => {
                &&& message.action == ControlAction::Shutdown
                &&& old(sessions)@.contains_key(message.client_id@)
                &&& client_id@ == message.client_id@
            },
        },
        message.action == ControlAction::Shutdown ==> !final(sessions)@.contains_key(
            message.client_id@,
        ),
        message.action != ControlAction::Shutdown ==> final(sessions)@.contains_key(
            message.client_id@,
        ) && final(sessions)@[message.client_id@].last_seen == now,
        final(sessions)@.remove(message.client_id@) == old(sessions)@.remove(message.client_id@),
{
    proof {
        assert(after_control(sessions@, message.client_id@, message.action, now).remove(
            message.client_id@,
        ) =~= sessions@.remove(message.client_id@));
    }
    match message.action {
        ControlAction::Spawn => ensure_session(
            topic_layout,
            sessions,
            message.client_id.as_str(),
            now,
        ),
        ControlAction::Heartbeat => {
            if sessions.touch(message.client_id.as_str(), now) {
                SessionAction::Keep
            } else {
                ensure_session(topic_layout, sessions, message.client_id.as_str(), now)
            }
        },
        ControlAction::Shutdown => shutdown_session(sessions, message.client_id.as_str()),
    }
}

/// What input for a session comes to.
#[derive(Debug, Clone, PartialEq, Eq)]
pub enum InputOutcome {
    /// The client has no session, so the message was dropped.
    UnknownSession,
    /// The message was taken in: the bytes to write to the child process, in order.
    Ready(Vec<Vec<u8>>),
    /// The message that is due cannot be decoded, and is lost.
    Failed(DecodeError),
    /// The message was not taken in: there is no number left to expect after it.
    OutOfNumbers,
}

/// What a message for the child process of a client comes to.
pub open spec fn is_input_outcome(
    sessions: Sessions,
    client_id: Seq<char>,
    message: AcpMessage,
    outcome: InputOutcome,
) -> bool {
    let session = sessions[client_id];
    if !sessions.contains_key(client_id) {
        outcome is UnknownSession
    } else if !session.has_room_for(message) {
        outcome is OutOfNumbers
    } else {
        match outcome {
            InputOutcome::Ready(parts) => is_drained(session, message, Ok(parts)),
            InputOutcome::Failed(e) => is_drained(session, message, Err(e)),
            _ => false,
        }
    }
}

/// Takes in a message for the child process of a client. It counts as a sign of life.
pub fn handle_session_input(
    sessions: &mut SessionTable,
    client_id: &str,
    message: AcpMessage,
    now: u128,
) -> (outcome: InputOutcome)
    requires
        old(sessions).well_formed(),
    ensures
        final(sessions).well_formed(),
        final(sessions)@ == if outcome is OutOfNumbers {
            old(sessions)@
        } else {
            after_input(old(sessions)@, client_id@, message, now)
        },
        is_input_outcome(old(sessions)@, client_id@, message, outcome),
        outcome is UnknownSession <==> !old(sessions)@.contains_key(client_id@),
        outcome is UnknownSession ==> final(sessions)@ == old(sessions)@,
        match outcome {
            InputOutcome::Failed(DecodeError::Base64(fault)) => message.stream == StreamType::Stdin
                && old(sessions)@[client_id@].buffer.failure(message) == Some(
                DecodeErrorView::Base64(fault),
            ),
            InputOutcome::Failed(DecodeError::UnsupportedEncoding(name)) => message.stream
                == StreamType::Stdin && old(sessions)@[client_id@].buffer.failure(message) == Some(
                DecodeErrorView::UnsupportedEncoding(name@),
            ),
            _ => true,
        },
        final(sessions)@.remove(client_id@) == old(sessions)@.remove(client_id@),
        outcome is Ready || outcome is Failed ==> final(sessions)@.contains_key(client_id@)
            && final(sessions)@[client_id@].last_seen == now && final(sessions)@[client_id@].buffer
            == if message.stream == StreamType::Stdin {
            old(sessions)@[client_id@].buffer.after(message)
        } else {
            old(sessions)@[client_id@].buffer
        },
        outcome is Ready ==> {
            let given = if message.stream == StreamType::Stdin {
                old(sessions)@[client_id@].buffer.delivered(message)
            } else {
                Seq::empty()
            };
            &&& outcome->Ready_0@.len() == given.len()
            &&& forall|i: int|
                0 <= i < given.len() ==> (#[trigger] outcome->Ready_0@[i])@ == given[i].bytes
        },
{
    proof {
        assert(after_input(sessions@, client_id@, message, now).remove(client_id@)
            =~= sessions@.remove(client_id@));
    }
    match sessions.position(client_id) {
        None => InputOutcome::UnknownSession,
        Some(i) => {
            if !sessions.entries[i].handle.has_room_for(&message) {
                return InputOutcome::OutOfNumbers;
            }
            sessions.entries[i].handle.touch(now);
            let drained = sessions.entries[i].handle.drain_ready_messages(message);
            proof {
                lemma_update(old(sessions).entries@, sessions.entries@, i as int);
            }
            match drained {
                Ok(parts) => InputOutcome::Ready(parts),
                Err(e) => InputOutcome::Failed(e),
            }
        },
    }
}

/// The characters of some texts, in order.
pub open spec fn texts(strings: Seq<String>) -> Seq<Seq<char>> {
    strings.map_values(|text: String| text@)
}

/// Ends every session that has gone without a sign of life for at least `ttl`, and names them.
pub fn expire_sessions(sessions: &mut SessionTable, now: u128, ttl: u128) -> (expired: Vec<String>)
    requires
        old(sessions).well_formed(),
    ensures
        final(sessions).well_formed(),
        final(sessions)@ == unexpired(old(sessions)@, now, ttl),
        texts(expired@).no_duplicates(),
        forall|client_id: Seq<char>| #[trigger]
            texts(expired@).contains(client_id) <==> old(sessions)@.contains_key(client_id)
                && old(sessions)@[client_id].is_expired(now, ttl),
        forall|client_id: Seq<char>| #[trigger]
            final(sessions)@.contains_key(client_id) ==> old(sessions)@.contains_key(client_id)
                && final(sessions)@[client_id] == old(sessions)@[client_id],
        forall|client_id: Seq<char>| #[trigger]
            old(sessions)@.contains_key(client_id) ==> (final(sessions)@.contains_key(client_id)
                <==> now - old(sessions)@[client_id].last_seen < ttl && (now >= old(
                sessions,
            )@[client_id].last_seen || ttl > 0)),
        forall|i: int|
            0 <= i < expired@.len() ==> old(sessions)@.contains_key((#[trigger] expired@[i])@)
                && !final(sessions)@.contains_key(expired@[i]@),
        forall|client_id: Seq<char>| #[trigger]
            old(sessions)@.contains_key(client_id) && !final(sessions)@.contains_key(client_id)
                ==> exists|i: int| 0 <= i < expired@.len() && (#[trigger] expired@[i])@ == client_id,
        forall|i: int, j: int|
            0 <= i < j < expired@.len() ==> (#[trigger] expired@[i])@ != (#[trigger] expired@[j])@,
{
    let mut expired: Vec<String> = Vec::new();
    let mut i: usize = 0;
    while i < sessions.entries.len()
        invariant
            sessions.well_formed(),
            i <= sessions.entries@.len(),
            forall|j: int| 0 <= j < i ==> !(#[trigger] sessions.entries@[j]).handle@.is_expired(now, ttl),
            texts(expired@).no_duplicates(),
            forall|client_id: Seq<char>| #[trigger]
                texts(expired@).contains(client_id) ==> old(sessions)@.contains_key(client_id)
                    && old(sessions)@[client_id].is_expired(now, ttl)
                    && !sessions@.contains_key(client_id),
            forall|client_id: Seq<char>| #[trigger]
                old(sessions)@.contains_key(client_id) ==> sessions@.contains_key(client_id)
                    || texts(expired@).contains(client_id),
            forall|client_id: Seq<char>| #[trigger]
                sessions@.contains_key(client_id) ==> old(sessions)@.contains_key(client_id)
                    && sessions@[client_id] == old(sessions)@[client_id],
        decreases sessions.entries@.len() - i,
    {
        if sessions.entries[i].handle.is_expired(now, ttl) {
            let ghost before = texts(expired@);
            let client_id = sessions.remove_at(i);
            expired.push(client_id);
            proof {
                assert(texts(expired@) =~= before.push(client_id@));
                assert(!before.contains(client_id@));
                assert forall|id: Seq<char>| #[trigger]
                    texts(expired@).contains(id) <==> before.contains(id) || id == client_id@ by {
                    assert(texts(expired@)[before.len() as int] == client_id@);
                    if before.contains(id) {
                        let k = before.index_of(id);
                        assert(texts(expired@)[k] == id);
                    }
                }
            }
        } else {
            i = i + 1;
        }
    }
    proof {
        assert forall|client_id: Seq<char>| #[trigger] sessions@.contains_key(client_id)
            implies !sessions@[client_id].is_expired(now, ttl) by {
            let k = choose|k: int| #[trigger] belongs_to(sessions.entries@, k, client_id);
            lemma_entry(sessions.entries@, k);
        }
        assert(sessions@ =~= unexpired(old(sessions)@, now, ttl));
        assert forall|i: int| 0 <= i < expired@.len() implies texts(expired@).contains(
            (#[trigger] expired@[i])@,
        ) by {
            assert(texts(expired@)[i] == expired@[i]@);
        }
        assert forall|client_id: Seq<char>| #[trigger]
            old(sessions)@.contains_key(client_id) && !sessions@.contains_key(
                client_id,
            ) implies exists|i: int|
            0 <= i < expired@.len() && (#[trigger] expired@[i])@ == client_id by {
            let i = texts(expired@).index_of(client_id);
            assert(texts(expired@)[i] == expired@[i]@);
        }
        assert forall|i: int, j: int| 0 <= i < j < expired@.len() implies (
        #[trigger] expired@[i])@ != (#[trigger] expired@[j])@ by {
            assert(texts(expired@)[i] == expired@[i]@);
            assert(texts(expired@)[j] == expired@[j]@);
        }
    }
    expired
}

/// Ends all sessions, and names them.
pub fn shutdown_all_sessions(sessions: &mut SessionTable) -> (ended: Vec<String>)
    requires
        old(sessions).well_formed(),
    ensures
        final(sessions).well_formed(),
        final(sessions)@ == Sessions::empty(),
        texts(ended@).no_duplicates(),
        forall|client_id: Seq<char>| #[trigger]
            texts(ended@).contains(client_id) <==> old(sessions)@.contains_key(client_id),
        forall|i: int|
            0 <= i < ended@.len() ==> old(sessions)@.contains_key((#[trigger] ended@[i])@),
        forall|client_id: Seq<char>| #[trigger]
            old(sessions)@.contains_key(client_id) ==> exists|i: int|
                0 <= i < ended@.len() && (#[trigger] ended@[i])@ == client_id,
        forall|i: int, j: int|
            0 <= i < j < ended@.len() ==> (#[trigger] ended@[i])@ != (#[trigger] ended@[j])@,
{
    // Without any time to live, every session is stale.
    let ended = expire_sessions(sessions, 0, 0);
    assert(sessions@ =~= Sessions::empty());
    ended
}

/// What a message is about, going by its topic.
#[derive(Debug, Clone, PartialEq, Eq)]
pub enum Route {
    /// A request about a session.
    Control,
    /// Input for the child process of a client.
    SessionInput(String),
    /// Nothing that the work side knows.
    Unexpected,
}

/// What a message on a topic of a node is about.
pub open spec fn is_routed(node_id: Seq<char>, topic: Seq<char>, route: Route) -> bool {
    match route {
        Route::Control => topic == node_topic(node_id, "/control"@),
        Route::SessionInput(client_id) => is_client_level(client_id@) && topic == session_topic(
            node_id,
            client_id@,
            "/in"@,
        ),
        Route::Unexpected => {
            &&& topic != node_topic(node_id, "/control"@)
            &&& forall|client_id: Seq<char>|
                is_client_level(client_id) ==> topic != #[trigger] session_topic(
                    node_id,
                    client_id,
                    "/in"@,
                )
        },
    }
}

/// Tells by its topic what a message is about.
pub fn route_message(topic_layout: &RelayTopicLayout, topic: &str) -> (route: Route)
    ensures
        is_routed(topic_layout.node_id@, topic@, route),
        route is Control <==> topic@ == "acp/"@ + topic_layout.node_id@ + "/control"@,
        match route {
            Route::SessionInput(client_id) => client_id@.len() > 0 && !client_id@.contains('/')
                && topic@ == "acp/"@ + topic_layout.node_id@ + "/"@ + client_id@ + "/in"@,
            _ => true,
        },
{
    if same_text(topic, topic_layout.control_topic().as_str()) {
        return Route::Control;
    }
    match topic_layout.parse_session_in_topic(topic) {
        Some(client_id) => Route::SessionInput(client_id),
        None => Route::Unexpected,
    }
}

/// What a session is told to do.
#[derive(Debug, Clone, PartialEq, Eq)]
pub enum SessionCommand {
    Write(Vec<u8>),
    Shutdown,
}

/// The end of a session, with the error where there was one.
#[derive(Debug, Clone, PartialEq, Eq)]
pub struct SessionExitEvent {
    pub client_id: String,
    pub error: Option<String>,
}

/// What happens to a running session.
#[derive(Debug, Clone, PartialEq, Eq)]
pub enum SessionEvent {
    Command(SessionCommand),
    /// There is nobody left who could tell the session anything.
    CommandsClosed,
    /// The child process has ended, with a status that says so.
    ChildExited { success: bool, status: String },
}

/// What a running session does next.
#[derive(Debug, Clone, PartialEq, Eq)]
pub enum SessionStep {
    /// Write to the child process and go on.
    Write(Vec<u8>),
    /// Stop the child process, then finish.
    Terminate,
    /// Finish once the output has been passed on.
    Finish,
    /// Give up at once, for the reason given.
    Fail(String),
}

/// One turn of the loop that serves a session.
pub fn session_step(event: SessionEvent) -> (step: SessionStep)
    ensures
        match event {
            SessionEvent::Command(SessionCommand::Write(bytes)) => step == SessionStep::Write(
                bytes,
            ),
            SessionEvent::Command(SessionCommand::Shutdown) => step == SessionStep::Terminate,
            SessionEvent::CommandsClosed => step == SessionStep::Terminate,
            SessionEvent::ChildExited { success, status } => if success {
                step == SessionStep::Finish
            } else {
                step is Fail && step->Fail_0@
                    == "child process exited unexpectedly with status "@ + status@
            },
        },
{
    match event {
        SessionEvent::Command(SessionCommand::Write(bytes)) => SessionStep::Write(bytes),
        SessionEvent::Command(SessionCommand::Shutdown) => SessionStep::Terminate,
        SessionEvent::CommandsClosed => SessionStep::Terminate,
        SessionEvent::ChildExited { success, status } => {
            if success {
                SessionStep::Finish
            } else {
                let mut reason = "child process exited unexpectedly with status ".to_owned();
                reason.append(status.as_str());
                SessionStep::Fail(reason)
            }
        },
    }
}

/// The program that runs a command, and what it is given before the command.
pub fn shell_invocation(windows: bool) -> (shell: (&'static str, &'static str))
    ensures
        (shell.0@, shell.1@) == if windows {
            ("cmd"@, "/C"@)
        } else {
            ("sh"@, "-lc"@)
        },
{
    if windows {
        ("cmd", "/C")
    } else {
        ("sh", "-lc")
    }
}

/// `amr-work-{node_id}-{pid}`, with the node sanitized and the process in hexadecimal.
pub open spec fn work_client_id(node_id: Seq<char>, pid: u32) -> Seq<char> {
    "amr-work-"@ + sanitized(node_id) + "-"@ + numeral(pid as nat, 16)
}

/// The MQTT client identifier of the work side of a node.
pub fn work_mqtt_client_id(node_id: &str, pid: u32) -> (client_id: String)
    ensures
        client_id@ == work_client_id(node_id@, pid),
        client_id@ == "amr-work-"@ + sanitized(node_id@) + "-"@ + numeral(pid as nat, 16),
{
    let node = sanitize_for_mqtt_client_id(node_id);
    let mut client_id = "amr-work-".to_owned();
    client_id.append(node.as_str());
    client_id.append("-");
    push_numeral(&mut client_id, pid as u128, 16);
    client_id
}

/// The topics that the work side of a node listens to: requests, and the input of all sessions.
pub fn work_subscriptions(topic_layout: &RelayTopicLayout) -> (topics: Vec<String>)
    ensures
        texts(topics@) == seq![
            node_topic(topic_layout.node_id@, "/control"@),
            session_topic(topic_layout.node_id@, "+"@, "/in"@),
        ],
        topics@.len() == 2,
        topics@[0]@ == "acp/"@ + topic_layout.node_id@ + "/control"@,
        topics@[1]@ == "acp/"@ + topic_layout.node_id@ + "/"@ + "+"@ + "/in"@,
{
    let mut topics: Vec<String> = Vec::new();
    topics.push(topic_layout.control_topic());
    topics.push(topic_layout.session_in_wildcard_topic());
    assert(texts(topics@) =~= seq![
        node_topic(topic_layout.node_id@, "/control"@),
        session_topic(topic_layout.node_id@, "+"@, "/in"@),
    ]);
    topics
}

/// What one client asks for or sends leaves the session of every other client as it was.
pub proof fn law_sessions_are_isolated(
    sessions: Sessions,
    client: Seq<char>,
    other: Seq<char>,
    action: ControlAction,
    message: AcpMessage,
    now: u128,
)
    requires
        client != other,
    ensures
        after_control(sessions, client, action, now).contains_key(other) == sessions.contains_key(
            other,
        ),
        after_input(sessions, client, message, now).contains_key(other) == sessions.contains_key(
            other,
        ),
        sessions.contains_key(other) ==> after_control(sessions, client, action, now)[other]
            == sessions[other] && after_input(sessions, client, message, now)[other]
            == sessions[other],
{
}

/// A client has one session however often it asks for it: asking again starts nothing and only
/// counts as a sign of life. A heartbeat asks for the session too.
pub proof fn law_one_session_per_client(
    node_id: Seq<char>,
    sessions: Sessions,
    client: Seq<char>,
    first: ControlAction,
    again: ControlAction,
    before: u128,
    now: u128,
)
    requires
        first != ControlAction::Shutdown,
        again != ControlAction::Shutdown,
    ensures
        control_step(node_id, after_control(sessions, client, first, before), client, again)
            == SessionActionView::Keep,
        after_control(after_control(sessions, client, first, before), client, again, now)
            == after_control(sessions, client, again, now),
        after_control(sessions, client, first, now) == after_control(sessions, client, again, now),
{
    assert(ensured(ensured(sessions, client, before), client, now) =~= ensured(
        sessions,
        client,
        now,
    ));
}

/// After a shutdown there is no session: further input and further shutdowns do nothing, and asking
/// for the session again starts one that waits for the first message.
pub proof fn law_shutdown_ends_the_session(
    node_id: Seq<char>,
    sessions: Sessions,
    client: Seq<char>,
    message: AcpMessage,
    now: u128,
)
    ensures
        ({
            let ended = after_control(sessions, client, ControlAction::Shutdown, now);
            &&& !ended.contains_key(client)
            &&& after_input(ended, client, message, now) == ended
            &&& after_control(ended, client, ControlAction::Shutdown, now) == ended
            &&& control_step(node_id, ended, client, ControlAction::Shutdown)
                == SessionActionView::Keep
            &&& control_step(node_id, ended, client, ControlAction::Spawn) is Start
            &&& ensured(ended, client, now)[client] == SessionView::started(now)
        }),
{
    let ended = sessions.remove(client);
    assert(ended.remove(client) =~= ended);
}

/// A session that gave a sign of life, by a request or by input, is not ended before its time to
/// live is over, and is ended once it is.
pub proof fn law_signs_of_life_keep_a_session(
    sessions: Sessions,
    client: Seq<char>,
    message: AcpMessage,
    seen: u128,
    now: u128,
    ttl: u128,
)
    requires
        seen <= now,
    ensures
        unexpired(ensured(sessions, client, seen), now, ttl).contains_key(client) <==> now - seen
            < ttl,
        sessions.contains_key(client) ==> (unexpired(
            after_input(sessions, client, message, seen),
            now,
            ttl,
        ).contains_key(client) <==> now - seen < ttl),
{
}

/// What the sessions go through, with the time where it matters.
pub enum Traffic {
    /// A message for the child process of a client.
    Input { client_id: Seq<char>, message: AcpMessage, at: u128 },
    /// A request about the session of a client.
    Request { client_id: Seq<char>, action: ControlAction, at: u128 },
    /// The end of a client's child process.
    Exit { client_id: Seq<char> },
    /// A look for stale sessions.
    Cleanup { at: u128, ttl: u128 },
}

/// The sessions once one thing has come.
pub open spec fn after_one(sessions: Sessions, traffic: Traffic) -> Sessions {
    match traffic {
        Traffic::Input { client_id, message, at } => after_input(sessions, client_id, message, at),
        Traffic::Request { client_id, action, at } => after_control(
            sessions,
            client_id,
            action,
            at,
        ),
        Traffic::Exit { client_id } => sessions.remove(client_id),
        Traffic::Cleanup { at, ttl } => unexpired(sessions, at, ttl),
    }
}

/// The sessions once all of this has come, one thing after the other.
pub open spec fn after_traffic(sessions: Sessions, traffic: Seq<Traffic>) -> Sessions
    decreases traffic.len(),
{
    if traffic.len() == 0 {
        sessions
    } else {
        after_one(after_traffic(sessions, traffic.drop_last()), traffic.last())
    }
}

/// Whether a client has a session to begin with and after each thing that comes.
pub open spec fn runs_throughout(
    client: Seq<char>,
    sessions: Sessions,
    traffic: Seq<Traffic>,
) -> bool
    decreases traffic.len(),
{
    &&& after_traffic(sessions, traffic).contains_key(client)
    &&& traffic.len() > 0 ==> runs_throughout(client, sessions, traffic.drop_last())
}

/// Whether this can end the session of a client.
pub open spec fn can_end(client: Seq<char>, traffic: Traffic) -> bool {
    match traffic {
        Traffic::Input { .. } => false,
        Traffic::Request { client_id, action, .. } => client_id == client && action
            == ControlAction::Shutdown,
        Traffic::Exit { client_id } => client_id == client,
        Traffic::Cleanup { .. } => true,
    }
}

/// The messages in the traffic that are standard input for a client.
pub open spec fn stdin_for(client: Seq<char>, traffic: Seq<Traffic>) -> Seq<AcpMessage>
    decreases traffic.len(),
{
    if traffic.len() == 0 {
        Seq::empty()
    } else {
        let earlier = stdin_for(client, traffic.drop_last());
        match traffic.last() {
            Traffic::Input { client_id, message, .. } => if client_id == client && message.stream
                == StreamType::Stdin {
                earlier.push(message)
            } else {
                earlier
            },
            _ => earlier,
        }
    }
}

/// The chunks that are set free for a client's child process while this comes.
pub open spec fn delivered_to(
    client: Seq<char>,
    sessions: Sessions,
    traffic: Seq<Traffic>,
) -> Seq<ChunkView>
    decreases traffic.len(),
{
    if traffic.len() == 0 {
        Seq::empty()
    } else {
        let before = after_traffic(sessions, traffic.drop_last());
        let earlier = delivered_to(client, sessions, traffic.drop_last());
        match traffic.last() {
            Traffic::Input { client_id, message, .. } => if client_id == client
                && before.contains_key(client) {
                earlier + before[client].delivered(message)
            } else {
                earlier
            },
            _ => earlier,
        }
    }
}

/// Sessions do not mix: whatever the other clients send and ask for, and however often this one
/// gives a sign of life, what is set free for the child process of a client is what would be if
/// nothing but this client's standard input had come, for as long as the session runs.
pub proof fn law_sessions_do_not_mix(client: Seq<char>, sessions: Sessions, traffic: Seq<Traffic>)
    requires
        runs_throughout(client, sessions, traffic),
    ensures
        sessions.contains_key(client),
        after_traffic(sessions, traffic)[client].buffer == sessions[client].buffer.after_all(
            stdin_for(client, traffic),
        ),
        delivered_to(client, sessions, traffic) == sessions[client].buffer.delivered_all(
            stdin_for(client, traffic),
        ),
    decreases traffic.len(),
{
    if traffic.len() > 0 {
        law_sessions_do_not_mix(client, sessions, traffic.drop_last());
        let earlier = stdin_for(client, traffic.drop_last());
        let before = after_traffic(sessions, traffic.drop_last());
        assert(runs_throughout(client, sessions, traffic.drop_last()));
        assert(before.contains_key(client));
        assert(!(traffic.last() is Input) ==> after_one(before, traffic.last())[client].buffer
            == before[client].buffer);
        if let Traffic::Input { client_id, message, .. } = traffic.last() {
            assert(earlier.push(message).drop_last() =~= earlier);
            if client_id == client && message.stream != StreamType::Stdin {
                assert(delivered_to(client, sessions, traffic) =~= delivered_to(
                    client,
                    sessions,
                    traffic.drop_last(),
                ));
            }
        }
    }
}

/// A session runs until it is shut down, its child process ends or it is found stale. Input and
/// requests of any other kind, by this client or another, leave it running, and what is set free for
/// its child process depends on nothing but this client's standard input.
pub proof fn law_sessions_run_until_ended(
    client: Seq<char>,
    sessions: Sessions,
    traffic: Seq<Traffic>,
)
    requires
        sessions.contains_key(client),
        forall|i: int| 0 <= i < traffic.len() ==> !can_end(client, #[trigger] traffic[i]),
    ensures
        runs_throughout(client, sessions, traffic),
        after_traffic(sessions, traffic)[client].buffer == sessions[client].buffer.after_all(
            stdin_for(client, traffic),
        ),
        delivered_to(client, sessions, traffic) == sessions[client].buffer.delivered_all(
            stdin_for(client, traffic),
        ),
    decreases traffic.len(),
{
    if traffic.len() > 0 {
        let earlier = traffic.drop_last();
        assert forall|i: int| 0 <= i < earlier.len() implies !can_end(
            client,
            #[trigger] earlier[i],
        ) by {
            assert(earlier[i] == traffic[i]);
        }
        law_sessions_run_until_ended(client, sessions, earlier);
        assert(!can_end(client, traffic[traffic.len() - 1]));
    }
    law_sessions_do_not_mix(client, sessions, traffic);
}

/// What a client sends is what its child process is given: once every message for a fresh session
/// has arrived while it runs, among whatever else comes, in whatever order and however often, the
/// chunks set free for the child process are those that were sent, byte for byte and in order.
pub proof fn law_input_arrives_as_sent(
    client: Seq<char>,
    sessions: Sessions,
    traffic: Seq<Traffic>,
    chunks: Seq<ChunkView>,
    sent: Seq<AcpMessage>,
)
    requires
        runs_throughout(client, sessions, traffic),
        sessions[client].buffer == BufferView::initial(),
        chunks.len() < u64::MAX,
        sent.len() == chunks.len(),
        forall|i: int| 0 <= i < sent.len() ==> carries(#[trigger] sent[i], i + 1, chunks[i]),
        arrivals_of(stdin_for(client, traffic), sent),
        forall|k: int|
            1 <= k <= sent.len() ==> #[trigger] arrived(stdin_for(client, traffic), k),
    ensures
        delivered_to(client, sessions, traffic) == chunks,
{
    law_sessions_do_not_mix(client, sessions, traffic);
    law_chunks_arrive_as_sent(chunks, sent, stdin_for(client, traffic));
}

/// The topic that a client publishes its input to is about the session of this client, and about
/// nothing else.
pub proof fn law_input_reaches_its_session(
    node_id: Seq<char>,
    client: Seq<char>,
    topic: Seq<char>,
    route: Route,
)
    requires
        is_client_level(client),
        topic == session_topic(node_id, client, "/in"@),
        is_routed(node_id, topic, route),
    ensures
        route is SessionInput,
        route->SessionInput_0@ == client,
{
    crate::mqtt_client::law_topic_kinds_are_apart(node_id, client, client);
    if let Route::SessionInput(client_id) = route {
        crate::mqtt_client::law_sessions_have_their_own_topics(
            node_id,
            client,
            node_id,
            client_id@,
            "/in"@,
        );
    }
}

/// A session is started exactly where one is asked for and there is none, and its output goes to the
/// topic that its own client listens to, which nobody publishes input or requests to.
pub proof fn law_output_goes_where_the_client_listens(
    node_id: Seq<char>,
    sessions: Sessions,
    client: Seq<char>,
    action: ControlAction,
    other: Seq<char>,
)
    ensures
        ({
            let step = control_step(node_id, sessions, client, action);
            &&& step is Start <==> action != ControlAction::Shutdown && !sessions.contains_key(
                client,
            )
            &&& step is Stop <==> action == ControlAction::Shutdown && sessions.contains_key(client)
            &&& step is Stop ==> step->Stop_client_id == client
            &&& step is Start ==> {
                &&& step->Start_client_id == client
                &&& step->out_topic == session_topic(node_id, client, "/out"@)
                &&& step->out_topic == "acp/"@ + node_id + "/"@ + client + "/out"@
                &&& step->out_topic != session_topic(node_id, other, "/in"@)
                &&& step->out_topic != node_topic(node_id, "/control"@)
            }
        }),
{
    crate::mqtt_client::law_topic_kinds_are_apart(node_id, other, client);
    crate::mqtt_client::law_topic_kinds_are_apart(node_id, client, other);
}

/// Asking for a session leaves it running and just seen: one that ran before goes on where it was,
/// and a new one waits for the first message and holds nothing.
pub proof fn law_asking_keeps_or_starts(
    sessions: Sessions,
    client: Seq<char>,
    action: ControlAction,
    now: u128,
)
    requires
        action != ControlAction::Shutdown,
    ensures
        ({
            let after = after_control(sessions, client, action, now);
            &&& after.contains_key(client)
            &&& after[client].last_seen == now
            &&& sessions.contains_key(client) ==> after[client].buffer == sessions[client].buffer
            &&& !sessions.contains_key(client) ==> after[client].buffer.next == 1
                && after[client].buffer.pending == Map::<u64, AcpMessage>::empty()
            &&& after.remove(client) == sessions.remove(client)
        }),
{
    assert(after_control(sessions, client, action, now).remove(client) =~= sessions.remove(client));
}

/// Input is a sign of life of its session, and goes into its buffer if it is standard input, and
/// nowhere otherwise. Input for a client without a session does nothing at all.
pub proof fn law_input_is_taken_in(
    sessions: Sessions,
    client: Seq<char>,
    message: AcpMessage,
    now: u128,
)
    ensures
        ({
            let after = after_input(sessions, client, message, now);
            &&& !sessions.contains_key(client) ==> after == sessions
            &&& sessions.contains_key(client) ==> {
                &&& after.contains_key(client)
                &&& after[client].last_seen == now
                &&& message.stream == StreamType::Stdin ==> after[client].buffer
                    == sessions[client].buffer.after(message) && sessions[client].delivered(message)
                    == sessions[client].buffer.delivered(message)
                &&& message.stream != StreamType::Stdin ==> after[client].buffer
                    == sessions[client].buffer && sessions[client].delivered(message).len() == 0
            }
            &&& after.remove(client) == sessions.remove(client)
        }),
{
    assert(after_input(sessions, client, message, now).remove(client) =~= sessions.remove(client));
}

/// What input comes to: nothing where the client has no session; the bytes of every chunk that is
/// set free, whole and in order; or the error of the message at which that stopped.
pub proof fn law_outcomes_are_exact(
    sessions: Sessions,
    client: Seq<char>,
    message: AcpMessage,
    outcome: InputOutcome,
)
    requires
        is_input_outcome(sessions, client, message, outcome),
    ensures
        outcome is UnknownSession <==> !sessions.contains_key(client),
        outcome is OutOfNumbers <==> sessions.contains_key(client) && message.stream
            == StreamType::Stdin && !sessions[client].buffer.has_room_for(message),
        outcome is Failed ==> message.stream == StreamType::Stdin
            && sessions[client].buffer.failure(message) is Some,
        outcome is Ready && message.stream == StreamType::Stdin ==> {
            let given = sessions[client].buffer.delivered(message);
            &&& sessions[client].buffer.failure(message) is None
            &&& outcome->Ready_0@.len() == given.len()
            &&& forall|i: int|
                0 <= i < given.len() ==> (#[trigger] outcome->Ready_0@[i])@ == given[i].bytes
        },
        outcome is Ready && message.stream != StreamType::Stdin ==> outcome->Ready_0@.len() == 0,
{
    if let InputOutcome::Ready(parts) = outcome {
        let given = sessions[client].delivered(message);
        assert(byte_views(parts@).len() == bytes_of(given).len());
        assert forall|i: int| 0 <= i < given.len() implies (#[trigger] parts@[i])@
            == given[i].bytes by {
            assert(byte_views(parts@)[i] == bytes_of(given)[i]);
        }
    }
}

/// A cleanup ends the sessions that have gone without a sign of life for the whole time to live, and
/// leaves every other one entirely as it was.
pub proof fn law_cleanup_ends_or_leaves_alone(
    sessions: Sessions,
    client: Seq<char>,
    now: u128,
    ttl: u128,
)
    ensures
        ({
            let after = unexpired(sessions, now, ttl);
            &&& after.contains_key(client) ==> sessions.contains_key(client) && after[client]
                == sessions[client]
            &&& sessions.contains_key(client) && sessions[client].last_seen <= now ==> (
            after.contains_key(client) <==> now - sessions[client].last_seen < ttl)
        }),
{
}

/// The time of the latest sign of life of a client: its latest input or request, or what it was to
/// begin with.
pub open spec fn latest_sign(client: Seq<char>, start: u128, traffic: Seq<Traffic>) -> u128
    decreases traffic.len(),
{
    if traffic.len() == 0 {
        start
    } else {
        match traffic.last() {
            Traffic::Input { client_id, at, .. } => if client_id == client {
                at
            } else {
                latest_sign(client, start, traffic.drop_last())
            },
            Traffic::Request { client_id, at, .. } => if client_id == client {
                at
            } else {
                latest_sign(client, start, traffic.drop_last())
            },
            _ => latest_sign(client, start, traffic.drop_last()),
        }
    }
}

/// Only a client's own input and requests count as signs of life: while a session runs, it was last
/// seen at the latest of them, whatever cleanups and whatever else came between.
pub proof fn law_only_the_client_gives_signs_of_life(
    client: Seq<char>,
    sessions: Sessions,
    traffic: Seq<Traffic>,
)
    requires
        runs_throughout(client, sessions, traffic),
    ensures
        after_traffic(sessions, traffic)[client].last_seen == latest_sign(
            client,
            sessions[client].last_seen,
            traffic,
        ),
    decreases traffic.len(),
{
    if traffic.len() > 0 {
        let earlier = traffic.drop_last();
        assert(runs_throughout(client, sessions, earlier));
        law_only_the_client_gives_signs_of_life(client, sessions, earlier);
        let before = after_traffic(sessions, earlier);
        assert(before.contains_key(client));
        assert(after_one(before, traffic.last()).contains_key(client));
    }
}

/// A session is reclaimed by the first cleanup that comes when the whole time to live has passed
/// since its latest sign of life, and by none before, however many cleanups have kept it.
pub proof fn law_silent_sessions_are_reclaimed(
    client: Seq<char>,
    sessions: Sessions,
    traffic: Seq<Traffic>,
    now: u128,
    ttl: u128,
)
    requires
        runs_throughout(client, sessions, traffic),
        latest_sign(client, sessions[client].last_seen, traffic) <= now,
    ensures
        after_traffic(sessions, traffic.push(Traffic::Cleanup { at: now, ttl })).contains_key(client)
            <==> now - latest_sign(client, sessions[client].last_seen, traffic) < ttl,
{
    law_only_the_client_gives_signs_of_life(client, sessions, traffic);
    let all = traffic.push(Traffic::Cleanup { at: now, ttl });
    assert(all.drop_last() =~= traffic);
    assert(after_traffic(sessions, traffic).contains_key(client));
}

/// Whether these are the outcomes of a client's inputs, each under the place of its input.
pub open spec fn outcomes_of(
    client: Seq<char>,
    sessions: Sessions,
    traffic: Seq<Traffic>,
    outcomes: Seq<InputOutcome>,
) -> bool {
    &&& outcomes.len() == traffic.len()
    &&& forall|i: int|
        0 <= i < traffic.len() && (#[trigger] traffic[i]) is Input && traffic[i]->Input_client_id
            == client ==> is_input_outcome(
            after_traffic(sessions, traffic.take(i)),
            client,
            traffic[i]->message,
            outcomes[i],
        )
}

/// All that is written to a client's child process, part by part.
pub open spec fn written(
    client: Seq<char>,
    traffic: Seq<Traffic>,
    outcomes: Seq<InputOutcome>,
) -> Seq<Seq<u8>>
    decreases traffic.len(),
{
    if traffic.len() == 0 {
        Seq::empty()
    } else {
        let earlier = written(client, traffic.drop_last(), outcomes.drop_last());
        if traffic.last() is Input && traffic.last()->Input_client_id == client
            && outcomes.last() is Ready {
            let parts = outcomes.last()->Ready_0@;
            earlier + Seq::new(parts.len(), |i: int| parts[i]@)
        } else {
            earlier
        }
    }
}

proof fn lemma_written(
    client: Seq<char>,
    sessions: Sessions,
    traffic: Seq<Traffic>,
    outcomes: Seq<InputOutcome>,
    sent: Seq<AcpMessage>,
)
    requires
        runs_throughout(client, sessions, traffic),
        sessions[client].buffer == BufferView::initial(),
        numbered(sent),
        arrivals_of(stdin_for(client, traffic), sent),
        outcomes_of(client, sessions, traffic, outcomes),
    ensures
        written(client, traffic, outcomes).len() == delivered_to(client, sessions, traffic).len(),
        forall|i: int|
            0 <= i < written(client, traffic, outcomes).len() ==> (#[trigger] written(
                client,
                traffic,
                outcomes,
            )[i]) == delivered_to(client, sessions, traffic)[i].bytes,
        forall|i: int|
            0 <= i < traffic.len() && (#[trigger] traffic[i]) is Input
                && traffic[i]->Input_client_id == client ==> outcomes[i] is Ready,
    decreases traffic.len(),
{
    if traffic.len() > 0 {
        let last = traffic.len() - 1;
        let earlier = traffic.drop_last();
        let known = outcomes.drop_last();
        let arrivals = stdin_for(client, earlier);
        let before = after_traffic(sessions, earlier);
        assert(runs_throughout(client, sessions, earlier));
        assert(before.contains_key(client));
        assert forall|i: int| 0 <= i < earlier.len() && (#[trigger] earlier[i]) is Input
            && earlier[i]->Input_client_id == client implies is_input_outcome(
            after_traffic(sessions, earlier.take(i)),
            client,
            earlier[i]->message,
            known[i],
        ) by {
            assert(earlier[i] == traffic[i]);
            assert(earlier.take(i) =~= traffic.take(i));
        }
        assert forall|j: int| 0 <= j < arrivals.len() implies 1 <= (#[trigger] arrivals[j]).seq
            <= sent.len() && same_message(arrivals[j], sent[arrivals[j].seq - 1]) by {
            assert(stdin_for(client, traffic)[j] == arrivals[j]);
        }
        lemma_written(client, sessions, earlier, known, sent);
        law_sessions_do_not_mix(client, sessions, earlier);
        assert(traffic.take(last) =~= earlier);
        assert(traffic[last] == traffic.last());
        if traffic.last() is Input && traffic.last()->Input_client_id == client {
            let message = traffic.last()->message;
            let outcome = outcomes[last];
            assert(is_input_outcome(before, client, message, outcome));
            if message.stream == StreamType::Stdin {
                assert(stdin_for(client, traffic) == arrivals.push(message));
                law_arrivals_fit(sent, arrivals, message);
            }
            assert(outcome is Ready);
            law_outcomes_are_exact(before, client, message, outcome);
            let given = before[client].delivered(message);
            let start = delivered_to(client, sessions, earlier).len();
            assert forall|i: int| 0 <= i < written(client, traffic, outcomes).len() implies (
            #[trigger] written(client, traffic, outcomes)[i]) == delivered_to(
                client,
                sessions,
                traffic,
            )[i].bytes by {
                if i < start {
                    assert(written(client, traffic, outcomes)[i] == written(client, earlier, known)[i]);
                } else {
                    assert(outcome->Ready_0@[i - start]@ == given[i - start].bytes);
                }
            }
        }
        assert forall|i: int| 0 <= i < traffic.len() && (#[trigger] traffic[i]) is Input
            && traffic[i]->Input_client_id == client implies outcomes[i] is Ready by {
            if i < last {
                assert(earlier[i] == traffic[i]);
                assert(known[i] == outcomes[i]);
            }
        }
    }
}

proof fn lemma_stdin_for(client: Seq<char>, traffic: Seq<Traffic>)
    ensures
        forall|j: int|
            0 <= j < stdin_for(client, traffic).len() ==> exists|i: int|
                0 <= i < traffic.len() && (#[trigger] traffic[i]) is Input
                    && traffic[i]->Input_client_id == client && traffic[i]->message
                    == #[trigger] stdin_for(client, traffic)[j] && traffic[i]->message.stream
                    == StreamType::Stdin,
        forall|i: int|
            0 <= i < traffic.len() && (#[trigger] traffic[i]) is Input
                && traffic[i]->Input_client_id == client && traffic[i]->message.stream
                == StreamType::Stdin ==> stdin_for(client, traffic).contains(traffic[i]->message),
    decreases traffic.len(),
{
    if traffic.len() > 0 {
        let earlier = traffic.drop_last();
        let last = traffic.len() - 1;
        lemma_stdin_for(client, earlier);
        let before = stdin_for(client, earlier);
        let all = stdin_for(client, traffic);
        assert forall|j: int| 0 <= j < all.len() implies exists|i: int|
            0 <= i < traffic.len() && (#[trigger] traffic[i]) is Input
                && traffic[i]->Input_client_id == client && traffic[i]->message
                == #[trigger] all[j] && traffic[i]->message.stream == StreamType::Stdin by {
            if j < before.len() {
                assert(all[j] == before[j]);
                let i = choose|i: int|
                    0 <= i < earlier.len() && (#[trigger] earlier[i]) is Input
                        && earlier[i]->Input_client_id == client && earlier[i]->message
                        == before[j] && earlier[i]->message.stream == StreamType::Stdin;
                assert(traffic[i] == earlier[i]);
            } else {
                assert(traffic[last] == traffic.last());
            }
        }
        assert forall|i: int| 0 <= i < traffic.len() && (#[trigger] traffic[i]) is Input
            && traffic[i]->Input_client_id == client && traffic[i]->message.stream
            == StreamType::Stdin implies all.contains(traffic[i]->message) by {
            if i < last {
                assert(earlier[i] == traffic[i]);
                let j = before.index_of(traffic[i]->message);
                assert(all[j] == before[j]);
            } else {
                assert(all[before.len() as int] == traffic[i]->message);
            }
        }
    }
}

/// What a client types is what its child process reads: once every message of a client for a fresh
/// session has arrived while it runs, among whatever else comes, in whatever order and however
/// often, the parts written to the child process are the chunks that were sent, one for one and to
/// the last byte, and no input of the client has failed.
pub proof fn law_the_child_is_given_what_was_sent(
    client: Seq<char>,
    sessions: Sessions,
    traffic: Seq<Traffic>,
    outcomes: Seq<InputOutcome>,
    chunks: Seq<Seq<u8>>,
    sent: Seq<AcpMessage>,
)
    requires
        runs_throughout(client, sessions, traffic),
        sessions[client].buffer == BufferView::initial(),
        outcomes_of(client, sessions, traffic, outcomes),
        chunks.len() < u64::MAX,
        sent.len() == chunks.len(),
        forall|k: int|
            0 <= k < sent.len() ==> {
                let message = #[trigger] sent[k];
                &&& message.seq == k + 1
                &&& message.stream == StreamType::Stdin
                &&& message.encoding@ == "base64"@
                &&& message.content@ == base64_encoded(chunks[k])
            },
        forall|i: int|
            0 <= i < traffic.len() && (#[trigger] traffic[i]) is Input
                && traffic[i]->Input_client_id == client && traffic[i]->message.stream
                == StreamType::Stdin ==> exists|k: int|
                0 <= k < sent.len() && same_message(traffic[i]->message, #[trigger] sent[k]),
        forall|k: int|
            0 <= k < sent.len() ==> exists|i: int|
                0 <= i < traffic.len() && (#[trigger] traffic[i]) is Input
                    && traffic[i]->Input_client_id == client && traffic[i]->message.stream
                    == StreamType::Stdin && traffic[i]->message.seq == (#[trigger] sent[k]).seq,
    ensures
        written(client, traffic, outcomes).len() == chunks.len(),
        forall|k: int|
            0 <= k < chunks.len() ==> (#[trigger] written(client, traffic, outcomes)[k])
                == chunks[k],
        forall|i: int|
            0 <= i < traffic.len() && (#[trigger] traffic[i]) is Input
                && traffic[i]->Input_client_id == client ==> outcomes[i] is Ready,
{
    let views = Seq::new(
        chunks.len(),
        |k: int| ChunkView { stream: StreamType::Stdin, bytes: chunks[k] },
    );
    assert forall|k: int| 0 <= k < sent.len() implies carries(
        #[trigger] sent[k],
        k + 1,
        views[k],
    ) by {
        crate::message::law_decoding_is_exact(sent[k], chunks[k]);
    }
    assert(numbered(sent));
    let arrivals = stdin_for(client, traffic);
    lemma_stdin_for(client, traffic);
    assert forall|j: int| 0 <= j < arrivals.len() implies 1 <= (#[trigger] arrivals[j]).seq
        <= sent.len() && same_message(arrivals[j], sent[arrivals[j].seq - 1]) by {
        let i = choose|i: int|
            0 <= i < traffic.len() && (#[trigger] traffic[i]) is Input
                && traffic[i]->Input_client_id == client && traffic[i]->message == arrivals[j]
                && traffic[i]->message.stream == StreamType::Stdin;
        let k = choose|k: int|
            0 <= k < sent.len() && same_message(traffic[i]->message, #[trigger] sent[k]);
        assert(sent[k].seq == k + 1);
    }
    assert forall|k: int| 1 <= k <= sent.len() implies #[trigger] arrived(arrivals, k) by {
        assert(sent[k - 1].seq == k);
        let i = choose|i: int|
            0 <= i < traffic.len() && (#[trigger] traffic[i]) is Input
                && traffic[i]->Input_client_id == client && traffic[i]->message.stream
                == StreamType::Stdin && traffic[i]->message.seq == sent[k - 1].seq;
        let j = arrivals.index_of(traffic[i]->message);
        assert(arrivals[j].seq == k);
    }
    law_input_arrives_as_sent(client, sessions, traffic, views, sent);
    lemma_written(client, sessions, traffic, outcomes, sent);
}

/// Requests are known by the node's topic for them, input by the client's level in the topic, and
/// nothing else is known.
pub proof fn law_routes_go_by_the_topic(node_id: Seq<char>, topic: Seq<char>, route: Route)
    requires
        is_routed(node_id, topic, route),
    ensures
        route is Control <==> topic == "acp/"@ + node_id + "/control"@,
        route is SessionInput ==> route->SessionInput_0@.len() > 0
            && !route->SessionInput_0@.contains('/') && topic == "acp/"@ + node_id + "/"@
            + route->SessionInput_0@ + "/in"@,
        route is Unexpected ==> forall|client: Seq<char>|
            client.len() > 0 && !client.contains('/') ==> topic != #[trigger] ("acp/"@ + node_id
                + "/"@ + client + "/in"@),
{
    if let Route::SessionInput(client_id) = route {
        crate::mqtt_client::law_topic_kinds_are_apart(node_id, client_id@, client_id@);
    }
    assert forall|client: Seq<char>|
        route is Unexpected && client.len() > 0 && !client.contains('/') implies topic
        != #[trigger] ("acp/"@ + node_id + "/"@ + client + "/in"@) by {
        assert(is_client_level(client));
        assert(session_topic(node_id, client, "/in"@) == "acp/"@ + node_id + "/"@ + client
            + "/in"@);
    }
}

} // verus!
