//! Tunnel sessions: which TCP connections are bridged to the server, over which
//! streams, and how many bytes they carried.

use crate::control::{Command, ControlCommand};
use crate::frame::{
    be32_value, build_control_frame, build_frame, control_frame, frame, law_frame_round_trip,
    HEADER_LEN,
};
use crate::messages::{messages_view, opt_message, AgentMessage, AgentToServer};
use crate::text::{chars_of, decimal, push_decimal, same};
use std::collections::HashMap;
use vstd::prelude::*;
use vstd::string::StringExecFns;

verus! {

broadcast use vstd::std_specs::hash::group_hash_axioms;

/// How much the TCP reader takes at a time: 32 KB.
pub const TCP_BUF_SIZE: usize = 32768;

/// How long a TCP connection may take to open.
pub const TCP_CONNECT_TIMEOUT_SECS: u64 = 5;

/// What is known of one session.
#[verifier::ext_equal]
pub struct SessionState {
    pub stream_id: u32,
    pub bytes_tx: u64,
    pub bytes_rx: u64,
}

/// The sessions by their id, and the session that each stream leads to.
#[verifier::ext_equal]
pub struct TunnelState {
    pub sessions: Map<Seq<char>, SessionState>,
    pub streams: Map<u32, Seq<char>>,
}

impl TunnelState {
    /// No sessions at all.
    pub open spec fn empty() -> TunnelState {
        TunnelState { sessions: Map::empty(), streams: Map::empty() }
    }

    /// Every stream leads to a session that is open on that stream.
    pub open spec fn consistent(self) -> bool {
        forall|s: u32| #[trigger]
            self.streams.contains_key(s) ==> self.sessions.contains_key(self.streams[s])
                && self.sessions[self.streams[s]].stream_id == s
    }

    /// The state after a session was opened on a stream.
    pub open spec fn opened(self, session_id: Seq<char>, stream_id: u32) -> TunnelState {
        TunnelState {
            sessions: self.sessions.insert(
                session_id,
                SessionState { stream_id, bytes_tx: 0, bytes_rx: 0 },
            ),
            streams: self.streams.insert(stream_id, session_id),
        }
    }

    /// The state after a session was closed; the same if there is none.
    pub open spec fn closed(self, session_id: Seq<char>) -> TunnelState {
        if self.sessions.contains_key(session_id) {
            TunnelState {
                sessions: self.sessions.remove(session_id),
                streams: self.streams.remove(self.sessions[session_id].stream_id),
            }
        } else {
            self
        }
    }

    /// What the server is told when a session is closed; nothing if there is none.
    pub open spec fn close_report(self, session_id: Seq<char>) -> Option<AgentMessage> {
        if self.sessions.contains_key(session_id) {
            Some(self.closed_message(session_id))
        } else {
            None
        }
    }

    /// The message that closes a session with its byte counts.
    pub open spec fn closed_message(self, session_id: Seq<char>) -> AgentMessage {
        AgentMessage::SessionClosed {
            session_id,
            bytes_tx: self.sessions[session_id].bytes_tx,
            bytes_rx: self.sessions[session_id].bytes_rx,
        }
    }

    /// Whether `n` more bytes can be counted on a stream.
    pub open spec fn has_room(self, stream_id: u32, n: nat) -> bool {
        self.streams.contains_key(stream_id) ==> self.sessions[self.streams[stream_id]].bytes_rx + n
            <= u64::MAX
    }

    /// The state after `n` bytes came in on a stream; the same if the stream
    /// leads nowhere.
    pub open spec fn received(self, stream_id: u32, n: nat) -> TunnelState {
        if self.streams.contains_key(stream_id) {
            let id = self.streams[stream_id];
            let session = self.sessions[id];
            TunnelState {
                sessions: self.sessions.insert(
                    id,
                    SessionState { bytes_rx: (session.bytes_rx + n) as u64, ..session },
                ),
                streams: self.streams,
            }
        } else {
            self
        }
    }

    /// The state once a session is known to have forwarded `bytes_tx` bytes to the
    /// server; the same if there is no such session.
    pub open spec fn forwarded(self, session_id: Seq<char>, bytes_tx: u64) -> TunnelState {
        if self.sessions.contains_key(session_id) {
            TunnelState {
                sessions: self.sessions.insert(
                    session_id,
                    SessionState { bytes_tx, ..self.sessions[session_id] },
                ),
                streams: self.streams,
            }
        } else {
            self
        }
    }

    /// The session that a control command closes, if any.
    pub open spec fn control_target(self, cmd: Command) -> Option<Seq<char>> {
        if cmd.ends_stream() && self.streams.contains_key(cmd.stream()) {
            Some(self.streams[cmd.stream()])
        } else {
            None
        }
    }

    /// The state after a control command.
    pub open spec fn controlled(self, cmd: Command) -> TunnelState {
        match self.control_target(cmd) {
            Some(id) => self.closed(id),
            None => self,
        }
    }

    /// What the server is told in answer to a control command.
    pub open spec fn control_report(self, cmd: Command) -> Option<AgentMessage> {
        match self.control_target(cmd) {
            Some(id) => self.close_report(id),
            None => None,
        }
    }

    /// Whether `order` names each session once.
    pub open spec fn lists_all(self, order: Seq<Seq<char>>) -> bool {
        order.no_duplicates() && order.to_set() == self.sessions.dom()
    }

    /// Whether the messages close every session, each once, in some order.
    pub open spec fn reports_all(self, messages: Seq<AgentMessage>) -> bool {
        exists|order: Seq<Seq<char>>| #[trigger]
            self.lists_all(order) && messages == self.closed_messages(order)
    }

    /// The messages that close the sessions in a given order.
    pub open spec fn closed_messages(self, order: Seq<Seq<char>>) -> Seq<AgentMessage> {
        order.map_values(|id: Seq<char>| self.closed_message(id))
    }
}

struct TunnelSession {
    session_id: String,
    stream_id: u32,
    bytes_tx: u64,
    bytes_rx: u64,
}

impl TunnelSession {
    spec fn state(self) -> SessionState {
        SessionState {
            stream_id: self.stream_id,
            bytes_tx: self.bytes_tx,
            bytes_rx: self.bytes_rx,
        }
    }
}

spec fn distinct(v: Seq<TunnelSession>) -> bool {
    forall|i: int, j: int|
        0 <= i < v.len() && 0 <= j < v.len() && i != j ==> (#[trigger] v[i]).session_id@ != (
        #[trigger] v[j]).session_id@
}

spec fn has_id(v: Seq<TunnelSession>, id: Seq<char>) -> bool {
    exists|i: int| 0 <= i < v.len() && (#[trigger] v[i]).session_id@ == id
}

spec fn session_map(v: Seq<TunnelSession>) -> Map<Seq<char>, SessionState>
    decreases v.len(),
{
    if v.len() == 0 {
        Map::empty()
    } else {
        session_map(v.drop_last()).insert(v.last().session_id@, v.last().state())
    }
}

/// The map holds just the sessions of the vector.
proof fn lemma_session_map(v: Seq<TunnelSession>)
    requires
        distinct(v),
    ensures
        forall|id: Seq<char>| #[trigger] session_map(v).contains_key(id) <==> has_id(v, id),
        forall|i: int|
            0 <= i < v.len() ==> session_map(v)[(#[trigger] v[i]).session_id@] == v[i].state(),
        session_map(v).dom().finite(),
        session_map(v).dom().len() == v.len(),
    decreases v.len(),
{
    if v.len() > 0 {
        let front = v.drop_last();
        lemma_session_map(front);
        let last_id = v.last().session_id@;
        assert(!has_id(front, last_id)) by {
            if has_id(front, last_id) {
                let i = choose|i: int| 0 <= i < front.len() && (#[trigger] front[i]).session_id@ == last_id;
                assert(v[i].session_id@ == v[v.len() - 1].session_id@);
            }
        }
        assert(!session_map(front).contains_key(last_id));
        assert(session_map(v).dom() == session_map(front).dom().insert(last_id));
        assert forall|id: Seq<char>| #[trigger] session_map(v).contains_key(id) <==> has_id(
            v,
            id,
        ) by {
            if id == last_id {
                assert(v[v.len() - 1].session_id@ == id);
            } else {
                assert(session_map(v).contains_key(id) <==> session_map(front).contains_key(id));
                if has_id(front, id) {
                    let i = choose|i: int|
                        0 <= i < front.len() && (#[trigger] front[i]).session_id@ == id;
                    assert(v[i].session_id@ == id);
                }
                if has_id(v, id) {
                    let i = choose|i: int| 0 <= i < v.len() && (#[trigger] v[i]).session_id@ == id;
                    assert(front[i].session_id@ == id);
                }
            }
        }
        assert forall|i: int| 0 <= i < v.len() implies session_map(v)[(
        #[trigger] v[i]).session_id@] == v[i].state() by {
            if i < v.len() - 1 {
                assert(front[i] == v[i]);
                assert(v[i].session_id@ != v[v.len() - 1].session_id@);
            }
        }
    }
}

/// A map that holds just the sessions of a vector is its map.
proof fn lemma_session_map_unique(v: Seq<TunnelSession>, m: Map<Seq<char>, SessionState>)
    requires
        distinct(v),
        forall|id: Seq<char>| #[trigger] m.contains_key(id) <==> has_id(v, id),
        forall|i: int| 0 <= i < v.len() ==> m[(#[trigger] v[i]).session_id@] == v[i].state(),
    ensures
        session_map(v) == m,
{
    lemma_session_map(v);
    assert forall|id: Seq<char>| #[trigger] m.contains_key(id) implies session_map(v)[id]
        == m[id] by {
        let i = choose|i: int| 0 <= i < v.len() && (#[trigger] v[i]).session_id@ == id;
        assert(v[i].session_id@ == id);
    }
    assert forall|id: Seq<char>| #[trigger]
        session_map(v).contains_key(id) <==> m.contains_key(id) by {}
    assert(session_map(v) =~= m);
}

/// Appending a session with a new id adds it to the map.
proof fn lemma_push(v: Seq<TunnelSession>, x: TunnelSession)
    requires
        distinct(v),
        !session_map(v).contains_key(x.session_id@),
    ensures
        distinct(v.push(x)),
        session_map(v.push(x)) == session_map(v).insert(x.session_id@, x.state()),
{
    lemma_session_map(v);
    assert(v.push(x).drop_last() == v);
    assert forall|i: int| 0 <= i < v.len() implies (#[trigger] v[i]).session_id@
        != x.session_id@ by {
        assert(has_id(v, v[i].session_id@));
    }
    assert forall|i: int, j: int|
        0 <= i < v.len() + 1 && 0 <= j < v.len() + 1 && i != j implies (#[trigger] v.push(
        x,
    )[i]).session_id@ != (#[trigger] v.push(x)[j]).session_id@ by {
        if i < v.len() {
            assert(v.push(x)[i] == v[i]);
        }
        if j < v.len() {
            assert(v.push(x)[j] == v[j]);
        }
    }
}

/// Taking a session out of the vector takes it out of the map.
proof fn lemma_remove(v: Seq<TunnelSession>, k: int)
    requires
        distinct(v),
        0 <= k < v.len(),
    ensures
        distinct(v.remove(k)),
        session_map(v.remove(k)) == session_map(v).remove(v[k].session_id@),
{
    lemma_session_map(v);
    let w = v.remove(k);
    let id_k = v[k].session_id@;
    assert forall|i: int| 0 <= i < w.len() implies #[trigger] w[i] == v[if i < k {
        i
    } else {
        i + 1
    }] by {}
    assert(distinct(w));
    let m = session_map(v).remove(id_k);
    assert forall|id: Seq<char>| #[trigger] m.contains_key(id) <==> has_id(w, id) by {
        if m.contains_key(id) {
            assert(session_map(v).contains_key(id));
            let i = choose|i: int| 0 <= i < v.len() && (#[trigger] v[i]).session_id@ == id;
            let j = if i < k {
                i
            } else {
                i - 1
            };
            assert(w[j].session_id@ == id);
        }
        if has_id(w, id) {
            let j = choose|j: int| 0 <= j < w.len() && (#[trigger] w[j]).session_id@ == id;
            let i = if j < k {
                j
            } else {
                j + 1
            };
            assert(v[i].session_id@ == id);
            assert(session_map(v).contains_key(id));
        }
    }
    assert forall|j: int| 0 <= j < w.len() implies m[(#[trigger] w[j]).session_id@]
        == w[j].state() by {
        let i = if j < k {
            j
        } else {
            j + 1
        };
        assert(v[i] == w[j]);
        assert(v[i].session_id@ != v[k].session_id@);
    }
    lemma_session_map_unique(w, m);
}

/// Changing a session in place, but for its id, changes its entry in the map.
proof fn lemma_update(v: Seq<TunnelSession>, k: int, x: TunnelSession)
    requires
        distinct(v),
        0 <= k < v.len(),
        x.session_id@ == v[k].session_id@,
    ensures
        distinct(v.update(k, x)),
        session_map(v.update(k, x)) == session_map(v).insert(x.session_id@, x.state()),
{
    lemma_session_map(v);
    let w = v.update(k, x);
    assert forall|i: int| 0 <= i < w.len() implies (#[trigger] w[i]).session_id@
        == v[i].session_id@ by {}
    assert(distinct(w));
    let m = session_map(v).insert(x.session_id@, x.state());
    assert(has_id(v, x.session_id@));
    assert forall|id: Seq<char>| #[trigger] m.contains_key(id) <==> has_id(w, id) by {
        if has_id(v, id) {
            let i = choose|i: int| 0 <= i < v.len() && (#[trigger] v[i]).session_id@ == id;
            assert(w[i].session_id@ == id);
        }
        if has_id(w, id) {
            let i = choose|i: int| 0 <= i < w.len() && (#[trigger] w[i]).session_id@ == id;
            assert(v[i].session_id@ == id);
        }
        assert(m.contains_key(id) <==> (id == x.session_id@ || session_map(v).contains_key(id)));
    }
    assert forall|i: int| 0 <= i < w.len() implies m[(#[trigger] w[i]).session_id@]
        == w[i].state() by {
        if i != k {
            assert(v[i].session_id@ != v[k].session_id@);
        }
    }
    lemma_session_map_unique(w, m);
}

/// A session that is to be opened once its TCP connection stands.
#[derive(Debug, PartialEq, Eq)]
pub struct PendingOpen {
    pub session_id: String,
    pub stream_id: u32,
}

/// What a request to open a session leads to.
#[derive(Debug, PartialEq, Eq)]
pub enum OpenStep {
    /// There is such a session already: the request is ignored.
    Duplicate,
    /// Connect to `addr` and report the outcome to `finish_session_open`.
    Connect { addr: String, timeout_secs: u64, pending: PendingOpen },
}

/// How an attempt to connect ended.
#[derive(Debug, PartialEq, Eq)]
pub enum ConnectOutcome {
    Connected,
    Failed { error: String },
    TimedOut,
}

/// What bytes for a stream lead to.
#[derive(Debug, PartialEq, Eq)]
pub enum DataStep<'a> {
    /// The stream leads nowhere: the bytes are dropped.
    Drop,
    /// Write the bytes to the session's TCP connection; if that fails, call
    /// `close_session_on_error`.
    Write { session_id: String, payload: &'a [u8] },
}

/// `host:port`.
pub open spec fn address(target_ip: Seq<char>, target_port: u16) -> Seq<char> {
    target_ip + ":"@ + decimal(target_port as nat)
}

impl OpenStep {
    /// Whether this is the step for a request to open a session in a given state.
    pub open spec fn answers(
        self,
        state: TunnelState,
        session_id: Seq<char>,
        target_ip: Seq<char>,
        target_port: u16,
        stream_id: u32,
    ) -> bool {
        match self {
            OpenStep::Duplicate => state.sessions.contains_key(session_id),
            OpenStep::Connect { addr, timeout_secs, pending } => {
                &&& !state.sessions.contains_key(session_id)
                &&& addr@ == address(target_ip, target_port)
                &&& timeout_secs == TCP_CONNECT_TIMEOUT_SECS
                &&& pending.session_id@ == session_id
                &&& pending.stream_id == stream_id
            },
        }
    }
}

impl<'a> DataStep<'a> {
    /// Whether this is the step for bytes on a stream in a given state.
    pub open spec fn answers(self, state: TunnelState, stream_id: u32, bytes: Seq<u8>) -> bool {
        match self {
            DataStep::Drop => !state.streams.contains_key(stream_id),
            DataStep::Write { session_id, payload } => {
                &&& state.streams.contains_key(stream_id)
                &&& session_id@ == state.streams[stream_id]
                &&& payload@ == bytes
            },
        }
    }
}

/// What the server is told when a connection failed with `error`.
pub open spec fn connect_error(error: Seq<char>) -> Seq<char> {
    "TCP connect failed: "@ + error
}

/// Keeps the active tunnel sessions.
pub struct TunnelManager {
    sessions: Vec<TunnelSession>,
    stream_to_session: HashMap<u32, String>,
}

impl View for TunnelManager {
    type V = TunnelState;

    closed spec fn view(&self) -> TunnelState {
        TunnelState {
            sessions: session_map(self.sessions@),
            streams: self.stream_to_session@.map_values(|id: String| id@),
        }
    }
}

impl TunnelManager {
    /// No two sessions have one id.
    pub closed spec fn ids_distinct(&self) -> bool {
        distinct(self.sessions@)
    }

    /// What holds of every manager: no two sessions have one id, and every
    /// stream leads to a session that is open on that stream.
    pub open spec fn wf(&self) -> bool {
        self.ids_distinct() && self@.consistent()
    }

    /// A manager without sessions.
    pub fn new() -> (r: TunnelManager)
        ensures
            r.wf(),
            r@ == TunnelState::empty(),
    {
        let r = TunnelManager { sessions: Vec::new(), stream_to_session: HashMap::new() };
        assert(r@.streams =~= Map::<u32, Seq<char>>::empty());
        r
    }

    /// How many sessions are active, in 32 bits.
    pub fn active_count(&self) -> (n: u32)
        requires
            self.wf(),
        ensures
            self@.sessions.dom().finite(),
            n == self@.sessions.dom().len() % 0x1_0000_0000,
    {
        proof {
            lemma_session_map(self.sessions@);
        }
        (self.sessions.len() as u64 % 0x1_0000_0000) as u32
    }

    fn find(&self, session_id: &str) -> (r: Option<usize>)
        requires
            self.wf(),
        ensures
            match r {
                Some(i) => i < self.sessions@.len() && self.sessions@[i as int].session_id@
                    == session_id@ && self@.sessions.contains_key(session_id@)
                    && self@.sessions[session_id@] == self.sessions@[i as int].state(),
                None => !self@.sessions.contains_key(session_id@),
            },
    {
        proof {
            lemma_session_map(self.sessions@);
        }
        let wanted: String = session_id.to_owned();
        let mut i: usize = 0;
        while i < self.sessions.len()
            invariant
                i <= self.sessions@.len(),
                wanted@ == session_id@,
                distinct(self.sessions@),
                self@.sessions == session_map(self.sessions@),
                forall|id: Seq<char>| #[trigger]
                    session_map(self.sessions@).contains_key(id) <==> has_id(self.sessions@, id),
                forall|k: int|
                    0 <= k < self.sessions@.len() ==> session_map(
                        self.sessions@,
                    )[(#[trigger] self.sessions@[k]).session_id@] == self.sessions@[k].state(),
                forall|k: int|
                    0 <= k < i ==> (#[trigger] self.sessions@[k]).session_id@ != session_id@,
            decreases self.sessions@.len() - i,
        {
            if self.sessions[i].session_id == wanted {
                assert(has_id(self.sessions@, session_id@));
                return Some(i);
            }
            i += 1;
        }
        assert(!has_id(self.sessions@, session_id@));
        None
    }

    /// Decides on a request to open a session: a session that exists already is
    /// left alone, for any other a TCP connection to the target is due.
    pub fn handle_session_open(
        &self,
        session_id: String,
        target_ip: String,
        target_port: u16,
        stream_id: u32,
    ) -> (r: OpenStep)
        requires
            self.wf(),
        ensures
            r.answers(self@, session_id@, target_ip@, target_port, stream_id),
    {
        if self.find(session_id.as_str()).is_some() {
            return OpenStep::Duplicate;
        }
        let mut addr: String = target_ip;
        addr.append(":");
        push_decimal(&mut addr, target_port as u64);
        OpenStep::Connect {
            addr,
            timeout_secs: TCP_CONNECT_TIMEOUT_SECS,
            pending: PendingOpen { session_id, stream_id },
        }
    }

    /// Takes up the outcome of the connection that `handle_session_open` asked
    /// for, and gives the message for the server: the session is ready, or why
    /// it could not be opened.
    pub fn finish_session_open(&mut self, pending: PendingOpen, outcome: ConnectOutcome) -> (r:
        AgentToServer)
        requires
            old(self).wf(),
            !old(self)@.sessions.contains_key(pending.session_id@),
        ensures
            final(self).wf(),
            match outcome {
                ConnectOutcome::Connected => {
                    &&& final(self)@ == old(self)@.opened(pending.session_id@, pending.stream_id)
                    &&& r@ == (AgentMessage::SessionReady {
                        session_id: pending.session_id@,
                        stream_id: pending.stream_id,
                    })
                },
                ConnectOutcome::Failed { error } => {
                    &&& final(self)@ == old(self)@
                    &&& r@ == (AgentMessage::SessionError {
                        session_id: pending.session_id@,
                        error: connect_error(error@),
                    })
                },
                ConnectOutcome::TimedOut => {
                    &&& final(self)@ == old(self)@
                    &&& r@ == (AgentMessage::SessionError {
                        session_id: pending.session_id@,
                        error: "TCP connect timed out (5s)"@,
                    })
                },
            },
    {
        let PendingOpen { session_id, stream_id } = pending;
        match outcome {
            ConnectOutcome::Connected => {
                let ghost before = self@;
                let session = TunnelSession {
                    session_id: session_id.clone(),
                    stream_id,
                    bytes_tx: 0,
                    bytes_rx: 0,
                };
                proof {
                    lemma_push(self.sessions@, session);
                }
                self.stream_to_session.insert(stream_id, session_id.clone());
                self.sessions.push(session);
                proof {
                    assert(self@.streams =~= before.streams.insert(stream_id, session_id@));
                    assert(self@ == before.opened(session_id@, stream_id));
                    law_open_keeps_consistent(before, session_id@, stream_id);
                }
                AgentToServer::SessionReady { session_id, stream_id }
            },
            ConnectOutcome::Failed { error } => {
                let mut text: String = "TCP connect failed: ".to_owned();
                text.append(error.as_str());
                AgentToServer::SessionError { session_id, error: text }
            },
            ConnectOutcome::TimedOut => AgentToServer::SessionError {
                session_id,
                error: "TCP connect timed out (5s)".to_owned(),
            },
        }
    }

    /// Takes note of how many bytes the reader of a session has forwarded to the
    /// server so far. Due before each close, whose report carries the count.
    pub fn note_forwarded(&mut self, session_id: &str, bytes_tx: u64)
        requires
            old(self).wf(),
        ensures
            final(self).wf(),
            final(self)@ == old(self)@.forwarded(session_id@, bytes_tx),
    {
        let ghost before = self@;
        if let Some(i) = self.find(session_id) {
            let session = TunnelSession {
                session_id: self.sessions[i].session_id.clone(),
                stream_id: self.sessions[i].stream_id,
                bytes_tx,
                bytes_rx: self.sessions[i].bytes_rx,
            };
            proof {
                lemma_update(self.sessions@, i as int, session);
            }
            self.sessions.set(i, session);
            assert(self@ == before.forwarded(session_id@, bytes_tx));
        }
    }

    /// Closes a session and gives the `session.closed` message with its byte
    /// counts: what was noted as forwarded, and what was received. `None` if there
    /// is no such session. With the message, the TCP connection is to be closed and
    /// its reader stopped.
    pub fn handle_session_close(&mut self, session_id: &str) -> (r: Option<AgentToServer>)
        requires
            old(self).wf(),
        ensures
            final(self).wf(),
            final(self)@ == old(self)@.closed(session_id@),
            opt_message(r) == old(self)@.close_report(session_id@),
    {
        let ghost before = self@;
        match self.find(session_id) {
            None => None,
            Some(i) => {
                proof {
                    lemma_remove(self.sessions@, i as int);
                }
                let session = self.sessions.remove(i);
                self.stream_to_session.remove(&session.stream_id);
                proof {
                    assert(self@.streams =~= before.streams.remove(session.stream_id));
                    assert(self@ == before.closed(session_id@));
                    law_close_keeps_consistent(before, session_id@);
                }
                Some(
                    AgentToServer::SessionClosed {
                        session_id: session.session_id,
                        bytes_tx: session.bytes_tx,
                        bytes_rx: session.bytes_rx,
                    },
                )
            },
        }
    }

    /// Whether `len` more bytes on a stream still fit its byte count.
    pub fn can_receive(&self, stream_id: u32, len: usize) -> (r: bool)
        requires
            self.wf(),
        ensures
            r == self@.has_room(stream_id, len as nat),
    {
        match self.stream_to_session.get(&stream_id) {
            None => true,
            Some(session_id) => match self.find(session_id.as_str()) {
                None => {
                    assert(self@.streams.contains_key(stream_id));
                    true
                },
                Some(i) => {
                    assert(self@.streams.contains_key(stream_id));
                    len as u64 <= u64::MAX - self.sessions[i].bytes_rx
                },
            },
        }
    }

    /// Counts bytes from the server that are destined for the TCP connection of
    /// a stream, and says where they are to be written.
    pub fn handle_data<'a>(&mut self, stream_id: u32, payload: &'a [u8]) -> (r: DataStep<'a>)
        requires
            old(self).wf(),
            old(self)@.has_room(stream_id, payload@.len()),
        ensures
            final(self).wf(),
            final(self)@ == old(self)@.received(stream_id, payload@.len()),
            r.answers(old(self)@, stream_id, payload@),
    {
        let ghost before = self@;
        let session_id: String = match self.stream_to_session.get(&stream_id) {
            None => {
                return DataStep::Drop;
            },
            Some(session_id) => session_id.clone(),
        };
        assert(self@.streams.contains_key(stream_id));
        match self.find(session_id.as_str()) {
            None => DataStep::Drop,
            Some(i) => {
                let bytes_rx: u64 = self.sessions[i].bytes_rx + payload.len() as u64;
                let ghost sessions = self.sessions@;
                let session = TunnelSession {
                    session_id: session_id.clone(),
                    stream_id: self.sessions[i].stream_id,
                    bytes_tx: self.sessions[i].bytes_tx,
                    bytes_rx,
                };
                proof {
                    lemma_update(sessions, i as int, session);
                }
                self.sessions.set(i, session);
                assert(self@ == before.received(stream_id, payload@.len()));
                DataStep::Write { session_id, payload }
            },
        }
    }

    /// Acts on a control command: `FIN` and `RST` close the session of their
    /// stream, any other command changes nothing.
    pub fn handle_control(&mut self, cmd: &ControlCommand) -> (r: Option<AgentToServer>)
        requires
            old(self).wf(),
        ensures
            final(self).wf(),
            final(self)@ == old(self)@.controlled(cmd@),
            opt_message(r) == old(self)@.control_report(cmd@),
    {
        let name: &String = match &cmd.cmd {
            None => {
                return None;
            },
            Some(name) => name,
        };
        let stream_id: u32 = match cmd.stream_id {
            None => 0,
            Some(n) => (n % 0x1_0000_0000) as u32,
        };
        let chars = chars_of(name.as_str());
        if !same(chars.as_slice(), "FIN") && !same(chars.as_slice(), "RST") {
            return None;
        }
        let session_id: String = match self.stream_to_session.get(&stream_id) {
            None => {
                return None;
            },
            Some(session_id) => session_id.clone(),
        };
        assert(self@.streams.contains_key(stream_id));
        self.handle_session_close(session_id.as_str())
    }

    /// Closes a session whose TCP connection could not be written to.
    pub fn close_session_on_error(&mut self, session_id: &str) -> (r: Option<AgentToServer>)
        requires
            old(self).wf(),
        ensures
            final(self).wf(),
            final(self)@ == old(self)@.closed(session_id@),
            opt_message(r) == old(self)@.close_report(session_id@),
    {
        self.handle_session_close(session_id)
    }

    /// Closes all sessions, as is due when the WebSocket is lost, and gives the
    /// messages that report each of them once.
    pub fn close_all(&mut self) -> (r: Vec<AgentToServer>)
        requires
            old(self).wf(),
        ensures
            final(self).wf(),
            final(self)@ == TunnelState::empty(),
            old(self)@.reports_all(messages_view(r@)),
    {
        let ghost before = self@;
        let ghost mut order: Seq<Seq<char>> = Seq::empty();
        let mut out: Vec<AgentToServer> = Vec::new();
        assert(messages_view(out@) == before.closed_messages(order));
        while self.sessions.len() > 0
            invariant
                self.wf(),
                order.no_duplicates(),
                forall|id: Seq<char>| #[trigger]
                    before.sessions.contains_key(id) <==> (order.contains(id)
                        || self@.sessions.contains_key(id)),
                forall|id: Seq<char>| #[trigger]
                    self@.sessions.contains_key(id) ==> !order.contains(id)
                        && self@.sessions[id] == before.sessions[id],
                messages_view(out@) == before.closed_messages(order),
            decreases self.sessions@.len(),
        {
            let ghost was = self@;
            let ghost done = order;
            let ghost sessions = self.sessions@;
            let session_id: String = self.sessions[0].session_id.clone();
            proof {
                lemma_session_map(sessions);
                assert(has_id(sessions, sessions[0].session_id@));
                assert(was.sessions.contains_key(session_id@));
            }
            if let Some(message) = self.handle_session_close(session_id.as_str()) {
                let ghost sent = messages_view(out@);
                out.push(message);
                proof {
                    lemma_session_map(self.sessions@);
                    order = done.push(session_id@);
                    assert(messages_view(out@) == sent.push(message@));
                    assert(message@ == before.closed_message(session_id@));
                    assert(before.closed_messages(order) == before.closed_messages(done).push(
                        before.closed_message(session_id@),
                    ));
                    assert forall|id: Seq<char>|
                        order.contains(id) <==> done.contains(id) || id == session_id@ by {
                        if id == session_id@ {
                            assert(order[done.len() as int] == id);
                        }
                        if done.contains(id) {
                            let k = choose|k: int| 0 <= k < done.len() && done[k] == id;
                            assert(order[k] == id);
                        }
                    }
                    assert(self@.sessions.dom() == was.sessions.dom().remove(session_id@));
                    assert(was.sessions.dom().len() == sessions.len());
                    assert(self.sessions@.len() == sessions.len() - 1);
                    assert forall|id: Seq<char>| #[trigger]
                        before.sessions.contains_key(id) <==> (order.contains(id)
                            || self@.sessions.contains_key(id)) by {
                        assert(was.sessions.contains_key(id) <==> id == session_id@
                            || self@.sessions.contains_key(id));
                    }
                    assert forall|id: Seq<char>| #[trigger]
                        self@.sessions.contains_key(id) implies !order.contains(id)
                        && self@.sessions[id] == before.sessions[id] by {
                        assert(was.sessions.contains_key(id));
                    }
                }
            }
        }
        proof {
            lemma_session_map(self.sessions@);
            assert(self@.sessions =~= Map::<Seq<char>, SessionState>::empty());
            assert forall|s: u32| !self@.streams.contains_key(s) by {}
            assert(self@.streams =~= Map::<u32, Seq<char>>::empty());
            assert forall|id: Seq<char>|
                order.to_set().contains(id) <==> before.sessions.dom().contains(id) by {
                assert(before.sessions.contains_key(id) <==> order.contains(id));
            }
            assert(order.to_set() =~= before.sessions.dom());
            assert(before.lists_all(order));
        }
        out
    }
}

/// Without sessions, no stream leads anywhere.
pub proof fn law_empty_is_consistent()
    ensures
        TunnelState::empty().consistent(),
{
}

/// Opening a session keeps every stream at a session that is open on it.
pub proof fn law_open_keeps_consistent(state: TunnelState, session_id: Seq<char>, stream_id: u32)
    requires
        state.consistent(),
        !state.sessions.contains_key(session_id),
    ensures
        state.opened(session_id, stream_id).consistent(),
{
}

/// Closing a session keeps every stream at a session that is open on it.
pub proof fn law_close_keeps_consistent(state: TunnelState, session_id: Seq<char>)
    requires
        state.consistent(),
    ensures
        state.closed(session_id).consistent(),
{
}

/// A control command keeps every stream at a session that is open on it.
pub proof fn law_control_keeps_consistent(state: TunnelState, cmd: Command)
    requires
        state.consistent(),
    ensures
        state.controlled(cmd).consistent(),
{
}

/// Counting bytes keeps every stream at a session that is open on it.
pub proof fn law_receive_keeps_consistent(state: TunnelState, stream_id: u32, n: nat)
    requires
        state.consistent(),
    ensures
        state.received(stream_id, n).consistent(),
{
}

/// Noting forwarded bytes keeps every stream at a session that is open on it.
pub proof fn law_forward_keeps_consistent(
    state: TunnelState,
    session_id: Seq<char>,
    bytes_tx: u64,
)
    requires
        state.consistent(),
    ensures
        state.forwarded(session_id, bytes_tx).consistent(),
{
}

/// Noting forwarded bytes of a session leaves all streams and every other session
/// as they were; of the session itself it leaves all but that count.
pub proof fn law_forward_leaves_others(
    state: TunnelState,
    session_id: Seq<char>,
    bytes_tx: u64,
    other: Seq<char>,
)
    requires
        other != session_id,
    ensures
        ({
            let now = state.forwarded(session_id, bytes_tx);
            &&& now.streams == state.streams
            &&& now.sessions.dom() == state.sessions.dom()
            &&& state.sessions.contains_key(other) ==> now.sessions[other] == state.sessions[other]
            &&& state.sessions.contains_key(session_id) ==> now.sessions[session_id].bytes_rx
                == state.sessions[session_id].bytes_rx && now.sessions[session_id].stream_id
                == state.sessions[session_id].stream_id
        }),
{
    assert(state.forwarded(session_id, bytes_tx).sessions.dom() =~= state.sessions.dom());
}

/// The two directions are counted apart: whichever is taken note of first, the
/// outcome is the same.
pub proof fn law_directions_are_independent(
    state: TunnelState,
    session_id: Seq<char>,
    bytes_tx: u64,
    stream_id: u32,
    n: nat,
)
    requires
        state.consistent(),
    ensures
        state.forwarded(session_id, bytes_tx).received(stream_id, n) == state.received(
            stream_id,
            n,
        ).forwarded(session_id, bytes_tx),
{
    let a = state.forwarded(session_id, bytes_tx).received(stream_id, n);
    let b = state.received(stream_id, n).forwarded(session_id, bytes_tx);
    assert(a.sessions =~= b.sessions);
}

/// Of several notes on one session the last counts.
pub proof fn law_last_note_counts(
    state: TunnelState,
    session_id: Seq<char>,
    first: u64,
    last: u64,
)
    ensures
        state.forwarded(session_id, first).forwarded(session_id, last) == state.forwarded(
            session_id,
            last,
        ),
{
    let a = state.forwarded(session_id, first).forwarded(session_id, last);
    assert(a.sessions =~= state.forwarded(session_id, last).sessions);
}

/// Counting bytes on a stream leaves all streams and every session but that of
/// the stream as they were.
pub proof fn law_receive_leaves_others(
    state: TunnelState,
    stream_id: u32,
    n: nat,
    other: Seq<char>,
)
    requires
        state.streams.contains_key(stream_id) ==> other != state.streams[stream_id],
    ensures
        state.received(stream_id, n).streams == state.streams,
        state.received(stream_id, n).sessions.contains_key(other) <==> state.sessions.contains_key(
            other,
        ),
        state.sessions.contains_key(other) ==> state.received(stream_id, n).sessions[other]
            == state.sessions[other],
{
}

/// A session that is opened takes over its stream, with nothing counted yet;
/// every other session and stream stays as it was.
pub proof fn law_open_takes_stream(
    state: TunnelState,
    session_id: Seq<char>,
    stream_id: u32,
    other: Seq<char>,
    other_stream: u32,
)
    requires
        other != session_id,
        other_stream != stream_id,
    ensures
        ({
            let now = state.opened(session_id, stream_id);
            &&& now.streams.contains_key(stream_id) && now.streams[stream_id] == session_id
            &&& now.close_report(session_id) == Some(
                AgentMessage::SessionClosed { session_id, bytes_tx: 0, bytes_rx: 0 },
            )
            &&& now.sessions.contains_key(other) <==> state.sessions.contains_key(other)
            &&& state.sessions.contains_key(other) ==> now.sessions[other] == state.sessions[other]
            &&& now.streams.contains_key(other_stream) <==> state.streams.contains_key(other_stream)
            &&& state.streams.contains_key(other_stream) ==> now.streams[other_stream]
                == state.streams[other_stream]
        }),
{
}

/// A session that is opened on an unused stream and closed again leaves no trace.
pub proof fn law_open_close_restores(state: TunnelState, session_id: Seq<char>, stream_id: u32)
    requires
        !state.sessions.contains_key(session_id),
        !state.streams.contains_key(stream_id),
    ensures
        state.opened(session_id, stream_id).closed(session_id) == state,
{
    let after = state.opened(session_id, stream_id).closed(session_id);
    assert(after.sessions =~= state.sessions);
    assert(after.streams =~= state.streams);
}

/// Once a session is closed it is gone, its stream leads nowhere, and closing it
/// again changes and reports nothing.
pub proof fn law_close_is_final(state: TunnelState, session_id: Seq<char>)
    requires
        state.sessions.contains_key(session_id),
    ensures
        !state.closed(session_id).sessions.contains_key(session_id),
        !state.closed(session_id).streams.contains_key(state.sessions[session_id].stream_id),
        state.closed(session_id).closed(session_id) == state.closed(session_id),
        state.closed(session_id).close_report(session_id) is None,
{
}

/// Closing a session leaves every other session as it was, and every stream
/// other than its own.
pub proof fn law_close_leaves_others(
    state: TunnelState,
    session_id: Seq<char>,
    other: Seq<char>,
    stream_id: u32,
)
    requires
        state.sessions.contains_key(session_id),
        other != session_id,
        stream_id != state.sessions[session_id].stream_id,
    ensures
        state.closed(session_id).sessions.contains_key(other) <==> state.sessions.contains_key(
            other,
        ),
        state.sessions.contains_key(other) ==> state.closed(session_id).sessions[other]
            == state.sessions[other],
        state.closed(session_id).streams.contains_key(stream_id) <==> state.streams.contains_key(
            stream_id,
        ),
        state.streams.contains_key(stream_id) ==> state.closed(session_id).streams[stream_id]
            == state.streams[stream_id],
{
}

/// The sum of the numbers.
pub open spec fn total(lens: Seq<nat>) -> nat
    decreases lens.len(),
{
    if lens.len() == 0 {
        0
    } else {
        total(lens.drop_last()) + lens.last()
    }
}

/// The state after bytes came in on a stream, so many at a time.
pub open spec fn received_all(state: TunnelState, stream_id: u32, lens: Seq<nat>) -> TunnelState
    decreases lens.len(),
{
    if lens.len() == 0 {
        state
    } else {
        received_all(state, stream_id, lens.drop_last()).received(stream_id, lens.last())
    }
}

proof fn lemma_received_all(
    state: TunnelState,
    session_id: Seq<char>,
    stream_id: u32,
    lens: Seq<nat>,
)
    requires
        total(lens) <= u64::MAX,
    ensures
        ({
            let now = received_all(state.opened(session_id, stream_id), stream_id, lens);
            &&& now.streams == state.opened(session_id, stream_id).streams
            &&& now.sessions.contains_key(session_id)
            &&& now.sessions[session_id].stream_id == stream_id
            &&& now.sessions[session_id].bytes_tx == 0
            &&& now.sessions[session_id].bytes_rx == total(lens)
        }),
    decreases lens.len(),
{
    if lens.len() > 0 {
        lemma_received_all(state, session_id, stream_id, lens.drop_last());
    }
}

/// When a session is closed, the server is told of both directions: all bytes that
/// came in on its stream since it was opened, however they were split, and the
/// bytes that were noted as forwarded.
pub proof fn law_close_reports_both(
    state: TunnelState,
    session_id: Seq<char>,
    stream_id: u32,
    lens: Seq<nat>,
    n: u64,
)
    requires
        total(lens) <= u64::MAX,
    ensures
        received_all(state.opened(session_id, stream_id), stream_id, lens).forwarded(
            session_id,
            n,
        ).close_report(session_id) == Some(
            AgentMessage::SessionClosed { session_id, bytes_tx: n, bytes_rx: total(lens) as u64 },
        ),
{
    lemma_received_all(state, session_id, stream_id, lens);
}

/// A `FIN` or `RST` for the stream of a session closes that session and reports it.
pub proof fn law_control_ends_stream(state: TunnelState, cmd: Command)
    requires
        state.consistent(),
        cmd.ends_stream(),
        state.streams.contains_key(cmd.stream()),
    ensures
        state.controlled(cmd) == state.closed(state.streams[cmd.stream()]),
        state.control_report(cmd) == Some(state.closed_message(state.streams[cmd.stream()])),
        !state.controlled(cmd).streams.contains_key(cmd.stream()),
{
}

/// What reading from a TCP connection brought.
#[derive(Debug, PartialEq, Eq)]
pub enum ReadEvent<'a> {
    /// Bytes; none of them at the end of the stream.
    Data(&'a [u8]),
    /// The read failed.
    Failed,
    /// The frame before could not be sent to the server.
    Unsent,
}

/// What a reader does next.
#[derive(Debug, PartialEq, Eq)]
pub enum ReaderStep {
    /// Send the frame and read on.
    Forward { frame: Vec<u8> },
    /// Send the frame that ends the stream, then the message, and stop.
    Finish { fin: Vec<u8>, closed: AgentToServer },
    /// Stop without a word: nothing can be sent any more.
    Stop,
}

/// The reading side of a session: turns what comes from the TCP connection into
/// frames for the server.
pub struct TcpReader {
    stream_id: u32,
    session_id: String,
    bytes_tx: u64,
}

/// The view of a `TcpReader`.
pub struct ReaderState {
    pub stream_id: u32,
    pub session_id: Seq<char>,
    pub bytes_tx: u64,
}

impl View for TcpReader {
    type V = ReaderState;

    closed spec fn view(&self) -> ReaderState {
        ReaderState {
            stream_id: self.stream_id,
            session_id: self.session_id@,
            bytes_tx: self.bytes_tx,
        }
    }
}

impl ReaderState {
    /// The state after `n` bytes were read.
    pub open spec fn advanced(self, n: nat) -> ReaderState {
        ReaderState { bytes_tx: (self.bytes_tx + n) as u64, ..self }
    }

    /// The message that ends the session from the reader's side, which knows
    /// nothing of the bytes that came in.
    pub open spec fn closed_message(self) -> AgentMessage {
        AgentMessage::SessionClosed {
            session_id: self.session_id,
            bytes_tx: self.bytes_tx,
            bytes_rx: 0,
        }
    }
}

impl ReaderStep {
    /// Whether this is the step for what a read brought in the state `before`, with
    /// `after` as the next state.
    pub open spec fn answers(
        self,
        event: ReadEvent<'_>,
        before: ReaderState,
        after: ReaderState,
    ) -> bool {
        match event {
            ReadEvent::Data(bytes) if bytes@.len() > 0 => {
                &&& self matches ReaderStep::Forward { frame: f }
                &&& f@ == frame(before.stream_id, bytes@)
                &&& after == before.advanced(bytes@.len())
            },
            ReadEvent::Data(_) | ReadEvent::Failed => {
                &&& self.finishes(before)
                &&& after == before
            },
            ReadEvent::Unsent => {
                &&& self is Stop
                &&& after == before
            },
        }
    }

    /// Whether this step ends the session: a `FIN` for the stream, then the message
    /// with the bytes forwarded.
    pub open spec fn finishes(self, state: ReaderState) -> bool {
        &&& self matches ReaderStep::Finish { fin, closed }
        &&& fin@ == control_frame("FIN"@, state.stream_id)
        &&& closed@ == state.closed_message()
    }
}

impl TcpReader {
    /// A reader that has read nothing yet.
    pub fn new(stream_id: u32, session_id: String) -> (r: TcpReader)
        ensures
            r@ == (ReaderState { stream_id, session_id: session_id@, bytes_tx: 0 }),
    {
        TcpReader { stream_id, session_id, bytes_tx: 0 }
    }

    /// Whether `len` more bytes still fit the byte count.
    pub fn can_read(&self, len: usize) -> (r: bool)
        ensures
            r == (self@.bytes_tx + len <= u64::MAX),
    {
        len as u64 <= u64::MAX - self.bytes_tx
    }

    /// How many bytes were read so far, and so forwarded to the server.
    pub fn bytes_tx(&self) -> (n: u64)
        ensures
            n == self@.bytes_tx,
    {
        self.bytes_tx
    }

    /// Takes up what a read brought: bytes are counted and framed; the end of the
    /// stream or an error ends the session.
    pub fn on_read(&mut self, event: ReadEvent<'_>) -> (r: ReaderStep)
        requires
            event matches ReadEvent::Data(bytes) ==> old(self)@.bytes_tx + bytes@.len()
                <= u64::MAX,
        ensures
            r.answers(event, old(self)@, final(self)@),
    {
        match event {
            ReadEvent::Data(bytes) => {
                if bytes.len() > 0 {
                    self.bytes_tx = self.bytes_tx + bytes.len() as u64;
                    return ReaderStep::Forward { frame: build_frame(self.stream_id, bytes) };
                }
            },
            ReadEvent::Failed => {},
            ReadEvent::Unsent => {
                return ReaderStep::Stop;
            },
        }
        ReaderStep::Finish {
            fin: build_control_frame("FIN", self.stream_id),
            closed: AgentToServer::SessionClosed {
                session_id: self.session_id.clone(),
                bytes_tx: self.bytes_tx,
                bytes_rx: 0,
            },
        }
    }
}

/// The pieces one after the other.
pub open spec fn joined(chunks: Seq<Seq<u8>>) -> Seq<u8>
    decreases chunks.len(),
{
    if chunks.len() == 0 {
        Seq::empty()
    } else {
        joined(chunks.drop_last()) + chunks.last()
    }
}

/// The frame that a step sends on; empty if it sends none on.
pub open spec fn forwarded_frame(step: ReaderStep) -> Seq<u8> {
    match step {
        ReaderStep::Forward { frame: f } => f@,
        _ => Seq::empty(),
    }
}

/// A reader at work: the chunks that its reads brought, the steps that it answered
/// them with, and its states before, between and after them.
pub struct ReaderRun<'a> {
    pub states: Seq<ReaderState>,
    pub chunks: Seq<&'a [u8]>,
    pub steps: Seq<ReaderStep>,
}

impl<'a> ReaderRun<'a> {
    /// Whether each chunk holds bytes and each step answers its chunk.
    pub open spec fn valid(self) -> bool {
        &&& self.steps.len() == self.chunks.len()
        &&& self.states.len() == self.chunks.len() + 1
        &&& forall|i: int|
            0 <= i < self.chunks.len() ==> (#[trigger] self.chunks[i])@.len() > 0
                && self.steps[i].answers(
                ReadEvent::Data(self.chunks[i]),
                self.states[i],
                self.states[i + 1],
            )
    }

    /// The state that the run began in.
    pub open spec fn start(self) -> ReaderState {
        self.states[0]
    }

    /// The state that the run has come to.
    pub open spec fn end(self) -> ReaderState {
        self.states.last()
    }

    /// The bytes of each chunk.
    pub open spec fn chunk_bytes(self) -> Seq<Seq<u8>> {
        self.chunks.map_values(|chunk: &'a [u8]| chunk@)
    }

    /// The frames that were sent.
    pub open spec fn frames(self) -> Seq<Seq<u8>> {
        self.steps.map_values(|step: ReaderStep| forwarded_frame(step))
    }

    /// The payloads of the frames that were sent.
    pub open spec fn payloads(self) -> Seq<Seq<u8>> {
        self.frames().map_values(|f: Seq<u8>| f.skip(HEADER_LEN as int))
    }

    /// All bytes that were read.
    pub open spec fn bytes_read(self) -> Seq<u8> {
        joined(self.chunk_bytes())
    }

    /// The run without its last chunk.
    spec fn front(self) -> ReaderRun<'a> {
        ReaderRun {
            states: self.states.drop_last(),
            chunks: self.chunks.drop_last(),
            steps: self.steps.drop_last(),
        }
    }
}

/// A run without its last chunk is a run.
proof fn lemma_run_front(run: ReaderRun<'_>)
    requires
        run.valid(),
        run.chunks.len() > 0,
    ensures
        run.front().valid(),
        run.front().start() == run.start(),
        run.front().chunk_bytes() == run.chunk_bytes().drop_last(),
        run.front().frames() == run.frames().drop_last(),
        run.front().payloads() == run.payloads().drop_last(),
        run.chunks.last()@.len() > 0,
        run.steps.last().answers(
            ReadEvent::Data(run.chunks.last()),
            run.front().end(),
            run.end(),
        ),
{
    let front = run.front();
    let n = run.chunks.len() - 1;
    assert(run.chunks[n]@.len() > 0);
    assert forall|i: int| 0 <= i < front.chunks.len() implies (#[trigger] front.chunks[i])@.len()
        > 0 && front.steps[i].answers(
        ReadEvent::Data(front.chunks[i]),
        front.states[i],
        front.states[i + 1],
    ) by {
        assert(front.chunks[i] == run.chunks[i]);
    }
}

/// Reading changes nothing of a reader but its byte count, which grows by what was
/// read.
proof fn lemma_run_end(run: ReaderRun<'_>)
    requires
        run.valid(),
        run.start().bytes_tx + run.bytes_read().len() <= u64::MAX,
    ensures
        run.end() == (ReaderState {
            bytes_tx: (run.start().bytes_tx + run.bytes_read().len()) as u64,
            ..run.start()
        }),
    decreases run.chunks.len(),
{
    if run.chunks.len() > 0 {
        lemma_run_front(run);
        assert(run.bytes_read() == run.front().bytes_read() + run.chunks.last()@);
        lemma_run_end(run.front());
    }
}

/// What a reader sends over its frames is, byte for byte, what it read, each frame
/// on its stream and with the bytes of one read; and when it ends, it reports that
/// many bytes.
pub proof fn law_reader_sends_what_it_reads(
    run: ReaderRun<'_>,
    last: ReadEvent<'_>,
    step: ReaderStep,
    after: ReaderState,
)
    requires
        run.valid(),
        run.start().bytes_tx == 0,
        run.bytes_read().len() <= u64::MAX,
        last is Failed || (last matches ReadEvent::Data(bytes) && bytes@.len() == 0),
        step.answers(last, run.end(), after),
    ensures
        forall|i: int|
            0 <= i < run.steps.len() ==> #[trigger] run.steps[i] is Forward && be32_value(
                run.frames()[i],
            ) == run.start().stream_id,
        run.payloads() == run.chunk_bytes(),
        joined(run.payloads()) == run.bytes_read(),
        step matches ReaderStep::Finish { fin, closed } && fin@ == control_frame(
            "FIN"@,
            run.start().stream_id,
        ) && closed@ == (AgentMessage::SessionClosed {
            session_id: run.start().session_id,
            bytes_tx: run.bytes_read().len() as u64,
            bytes_rx: 0,
        }),
{
    lemma_run_end(run);
    lemma_run_payloads(run);
}

/// Each frame of a run carries its chunk on the reader's stream.
proof fn lemma_run_payloads(run: ReaderRun<'_>)
    requires
        run.valid(),
    ensures
        run.end().stream_id == run.start().stream_id,
        forall|i: int|
            0 <= i < run.steps.len() ==> #[trigger] run.steps[i] is Forward && be32_value(
                run.frames()[i],
            ) == run.start().stream_id,
        run.payloads() == run.chunk_bytes(),
    decreases run.chunks.len(),
{
    if run.chunks.len() > 0 {
        let front = run.front();
        lemma_run_front(run);
        lemma_run_payloads(front);
        law_frame_round_trip(run.start().stream_id, run.chunks.last()@);
        let n = run.steps.len() - 1;
        assert(run.frames()[n] == frame(run.start().stream_id, run.chunks.last()@));
        assert forall|i: int| 0 <= i < run.steps.len() implies #[trigger] run.steps[i] is Forward
            && be32_value(run.frames()[i]) == run.start().stream_id by {
            if i < n {
                assert(front.steps[i] == run.steps[i]);
                assert(front.frames()[i] == run.frames()[i]);
            }
        }
        assert(run.payloads().last() == run.chunk_bytes().last());
        assert(run.payloads() == run.payloads().drop_last().push(run.payloads().last()));
        assert(run.chunk_bytes() == run.chunk_bytes().drop_last().push(run.chunk_bytes().last()));
    } else {
        assert(run.payloads() == run.chunk_bytes());
    }
}

/// Two runs that begin alike and read alike send the same frames and come to the
/// same state.
proof fn lemma_runs_agree(a: ReaderRun<'_>, b: ReaderRun<'_>)
    requires
        a.valid(),
        b.valid(),
        a.start() == b.start(),
        a.chunk_bytes() == b.chunk_bytes(),
    ensures
        a.frames() == b.frames(),
        a.end() == b.end(),
    decreases a.chunks.len(),
{
    assert(a.chunk_bytes().len() == a.chunks.len());
    assert(b.chunk_bytes().len() == b.chunks.len());
    if a.chunks.len() > 0 {
        lemma_run_front(a);
        lemma_run_front(b);
        lemma_runs_agree(a.front(), b.front());
        assert(a.chunk_bytes().last() == b.chunk_bytes().last());
        assert(a.frames().last() == b.frames().last());
        assert(a.frames() == a.frames().drop_last().push(a.frames().last()));
        assert(b.frames() == b.frames().drop_last().push(b.frames().last()));
    } else {
        assert(a.frames() =~= b.frames());
    }
}

/// An error ends a session just as the end of the stream does: of two readers that
/// begin alike and read alike, of which one meets the end of the stream and the
/// other an error, both send the same frames, the same `FIN` and the same message.
pub proof fn law_error_ends_like_end_of_stream(
    a: ReaderRun<'_>,
    b: ReaderRun<'_>,
    nothing: &[u8],
    at_end: ReaderStep,
    after_end: ReaderState,
    at_error: ReaderStep,
    after_error: ReaderState,
)
    requires
        a.valid(),
        b.valid(),
        a.start() == b.start(),
        a.chunk_bytes() == b.chunk_bytes(),
        nothing@.len() == 0,
        at_end.answers(ReadEvent::Data(nothing), a.end(), after_end),
        at_error.answers(ReadEvent::Failed, b.end(), after_error),
    ensures
        a.frames() == b.frames(),
        at_end matches ReaderStep::Finish { fin, closed } && (
        at_error matches ReaderStep::Finish { fin: error_fin, closed: error_closed } && fin@
            == error_fin@ && closed@ == error_closed@),
        after_end == after_error,
{
    lemma_runs_agree(a, b);
}

/// While its reader still runs, closing a session reports all bytes that were read
/// from its TCP connection and all bytes that came in on its stream.
pub proof fn law_close_reports_what_was_read(
    state: TunnelState,
    session_id: Seq<char>,
    stream_id: u32,
    lens: Seq<nat>,
    run: ReaderRun<'_>,
)
    requires
        total(lens) <= u64::MAX,
        run.valid(),
        run.start() == (ReaderState { stream_id, session_id, bytes_tx: 0 }),
        run.bytes_read().len() <= u64::MAX,
    ensures
        received_all(state.opened(session_id, stream_id), stream_id, lens).forwarded(
            session_id,
            run.end().bytes_tx,
        ).close_report(session_id) == Some(
            AgentMessage::SessionClosed {
                session_id,
                bytes_tx: run.bytes_read().len() as u64,
                bytes_rx: total(lens) as u64,
            },
        ),
{
    lemma_run_end(run);
    law_close_reports_both(state, session_id, stream_id, lens, run.end().bytes_tx);
}

} // verus!
