//! The connection to the server: when to reconnect, and what each incoming
//! message leads to.

use crate::control::{
    command, command_of, is_upper, json_document, read_control, Command,
};
use crate::frame::{
    be32_value, control_frame, control_text, frame, law_frame_round_trip, parse_frame, HEADER_LEN,
};
use crate::messages::{messages_view, opt_message, AgentToServer, ServerToAgent};
use crate::tunnel::{DataStep, OpenStep, TunnelManager, TunnelState};
use vstd::prelude::*;
use vstd::string::StringExecFns;
use vstd::utf8::encode_utf8;

verus! {

// Reconnecting

/// The longest delay before jitter.
pub const MAX_BACKOFF_SECS: u64 = 60;

/// How long the last messages may take to go out when a connection ends.
pub const FLUSH_TIMEOUT_SECS: u64 = 2;

/// A point in time.
#[verifier::external_type_specification]
#[verifier::external_body]
pub struct ExSystemTime(std::time::SystemTime);

/// The failure to tell how long after another a point in time lies.
#[verifier::external_type_specification]
#[verifier::external_body]
pub struct ExSystemTimeError(std::time::SystemTimeError);

/// `SystemTime::now` reads the clock; nothing is claimed of the time.
pub assume_specification[ std::time::SystemTime::now ]() -> std::time::SystemTime
;

/// `Duration::subsec_nanos` gives the fraction of a second, in nanoseconds:
/// less than a billion.
pub assume_specification[ std::time::Duration::subsec_nanos ](d: &std::time::Duration) -> (n: u32)
    ensures
        n < 1_000_000_000,
;

/// Calls `SystemTime::duration_since` for the Unix epoch; nothing is claimed of
/// the time that has passed, nor that the clock stands behind the epoch.
#[verifier::external_body]
fn since_epoch(t: std::time::SystemTime) -> Result<
    std::time::Duration,
    std::time::SystemTimeError,
> {
    t.duration_since(std::time::UNIX_EPOCH)
}

/// The jitter that the nanoseconds of the clock give: at most a quarter of `max`.
pub open spec fn jitter(nanos: nat, max: nat) -> nat {
    nanos % (max / 4 + 1)
}

/// The jitter for given nanoseconds of the clock.
pub fn jitter_from(nanos: u32, max: u64) -> (r: u64)
    ensures
        r == jitter(nanos as nat, max as nat),
        r <= max / 4,
        r <= nanos,
{
    let bound: u64 = max / 4 + 1;
    proof {
        vstd::arithmetic::div_mod::lemma_mod_bound(nanos as int, bound as int);
        vstd::arithmetic::div_mod::lemma_mod_decreases(nanos as nat, bound as nat);
    }
    nanos as u64 % bound
}

/// Simple jitter from the clock: at most a quarter of `max`, and less than a
/// billion.
pub fn rand_jitter(max: u64) -> (r: u64)
    ensures
        r <= max / 4,
        r < 1_000_000_000,
        exists|nanos: nat| nanos < 1_000_000_000 && r == #[trigger] jitter(nanos, max as nat),
{
    let nanos: u32 = match since_epoch(std::time::SystemTime::now()) {
        Ok(d) => d.subsec_nanos(),
        Err(_) => 0,
    };
    jitter_from(nanos, max)
}

/// Twice the delay, but no more than `MAX_BACKOFF_SECS`.
pub open spec fn doubled(secs: nat) -> nat {
    if 2 * secs <= MAX_BACKOFF_SECS {
        2 * secs
    } else {
        MAX_BACKOFF_SECS as nat
    }
}

/// The delay between attempts to connect: exponential, with jitter.
pub struct Backoff {
    secs: u64,
}

impl Backoff {
    /// The current delay in seconds.
    pub closed spec fn secs(&self) -> nat {
        self.secs as nat
    }

    /// The delay is never zero, and never more than a quarter above the cap.
    pub open spec fn wf(&self) -> bool {
        1 <= self.secs() <= MAX_BACKOFF_SECS + MAX_BACKOFF_SECS / 4
    }

    /// One second at first.
    pub fn new() -> (r: Backoff)
        ensures
            r.wf(),
            r.secs() == 1,
    {
        Backoff { secs: 1 }
    }

    /// Takes up how a connection ended and gives the seconds to wait: one after a
    /// graceful end, the current delay after an error.
    pub fn connection_ended(&mut self, graceful: bool) -> (r: u64)
        requires
            old(self).wf(),
        ensures
            final(self).wf(),
            final(self).secs() == if graceful {
                1
            } else {
                old(self).secs()
            },
            r == final(self).secs(),
    {
        if graceful {
            self.secs = 1;
        }
        self.secs
    }

    /// Doubles the delay up to the cap, and adds the given jitter.
    pub fn advance_by(&mut self, jitter: u64)
        requires
            old(self).wf(),
            jitter <= doubled(old(self).secs()) / 4,
        ensures
            final(self).wf(),
            final(self).secs() == doubled(old(self).secs()) + jitter,
    {
        self.secs = self.next_base().saturating_add(jitter);
    }

    /// Doubles the delay up to the cap, and adds jitter from the clock, of at most
    /// a quarter.
    pub fn advance(&mut self)
        requires
            old(self).wf(),
        ensures
            final(self).wf(),
            doubled(old(self).secs()) <= final(self).secs() <= doubled(old(self).secs()) + doubled(
                old(self).secs(),
            ) / 4,
            exists|nanos: nat|
                nanos < 1_000_000_000 && final(self).secs() == doubled(old(self).secs())
                    + #[trigger] jitter(nanos, doubled(old(self).secs())),
    {
        let jitter: u64 = rand_jitter(self.next_base());
        self.advance_by(jitter);
    }

    fn next_base(&self) -> (r: u64)
        requires
            self.wf(),
        ensures
            r == doubled(self.secs()),
    {
        let twice: u64 = self.secs * 2;
        if twice <= MAX_BACKOFF_SECS {
            twice
        } else {
            MAX_BACKOFF_SECS
        }
    }
}

/// The delay after failures in a row, with the jitter that was added after each.
pub open spec fn delay_after(jitters: Seq<nat>) -> nat
    decreases jitters.len(),
{
    if jitters.len() == 0 {
        1
    } else {
        doubled(delay_after(jitters.drop_last())) + jitters.last()
    }
}

/// Whether each jitter is at most a quarter of the delay that it was added to.
pub open spec fn valid_jitters(jitters: Seq<nat>) -> bool
    decreases jitters.len(),
{
    jitters.len() > 0 ==> {
        &&& jitters.last() <= doubled(delay_after(jitters.drop_last())) / 4
        &&& valid_jitters(jitters.drop_last())
    }
}

/// The delay after `n` failures in a row if there were no jitter: two to the `n`,
/// up to the cap.
pub open spec fn bare_delay(n: nat) -> nat {
    if n < 6 {
        vstd::arithmetic::power2::pow2(n)
    } else {
        MAX_BACKOFF_SECS as nat
    }
}

/// The delay grows exponentially: after `n` failures in a row it is at least two
/// to the `n` seconds, or the cap, and it never exceeds the cap by more than a
/// quarter.
pub proof fn law_backoff_is_exponential(jitters: Seq<nat>)
    requires
        valid_jitters(jitters),
    ensures
        bare_delay(jitters.len()) <= delay_after(jitters) <= MAX_BACKOFF_SECS + MAX_BACKOFF_SECS
            / 4,
    decreases jitters.len(),
{
    vstd::arithmetic::power2::lemma2_to64();
    if jitters.len() > 0 {
        law_backoff_is_exponential(jitters.drop_last());
        let n = jitters.len();
        if n < 6 {
            assert(n == 1 || n == 2 || n == 3 || n == 4 || n == 5);
        }
    }
}

/// The address to connect to: the server's URL with the agent's token.
pub fn connect_url(url: &str, token: &str) -> (r: String)
    ensures
        r@ == url@ + "?token="@ + token@,
{
    let mut out: String = url.to_owned();
    out.append("?token=");
    out.append(token);
    out
}

// Incoming messages

/// What the WebSocket brought.
#[derive(Debug, PartialEq, Eq)]
pub enum Incoming<'a> {
    /// A text message; `None` if it could not be parsed.
    Text(Option<ServerToAgent>),
    /// A binary frame.
    Binary(&'a [u8]),
    /// A ping with some bytes.
    Ping(Vec<u8>),
    /// The server closes the connection.
    Close,
    /// A message of another kind.
    Other,
    /// Reading failed, or there is nothing more to read.
    Lost,
}

/// What the agent does about an incoming message.
#[derive(Debug, PartialEq, Eq)]
pub enum Step<'a> {
    Text(TextStep),
    Binary(BinaryStep<'a>),
    /// Answer with a pong that holds the same bytes.
    Pong(Vec<u8>),
    /// The connection is over: all tunnels are closed, and these reports are to
    /// go out within `FLUSH_TIMEOUT_SECS`.
    Stop(Vec<AgentToServer>),
    /// Read on.
    Skip,
}

/// What a text message leads to.
#[derive(Debug, PartialEq, Eq)]
pub enum TextStep {
    /// The text is no message of the protocol: it is ignored.
    Unreadable,
    /// A session was asked for.
    Open { step: OpenStep },
    /// A session was to be closed; `report` is for the server.
    Closed { report: Option<AgentToServer> },
    /// Discovery was asked for, which the agent only takes note of.
    Discovery { adapter_id: Option<String>, scan_type: String },
    /// Send this message.
    Reply { message: AgentToServer },
    /// Open a `/comms` WebSocket.
    CommsOpen { comms_id: String, target_url: String },
    /// Send over a `/comms` WebSocket.
    CommsFrame { comms_id: String, data: String },
    /// Close a `/comms` WebSocket.
    CommsClose { comms_id: String },
}

/// What a binary frame leads to.
#[derive(Debug, PartialEq, Eq)]
pub enum BinaryStep<'a> {
    /// The frame is shorter than a header: it is ignored.
    TooShort,
    /// A control frame that is not JSON: it is ignored.
    BadControl,
    /// A control command was carried out; `report` is for the server.
    Control { report: Option<AgentToServer> },
    /// Bytes of a tunnel.
    Data { step: DataStep<'a> },
}

impl TextStep {
    /// Whether this is the step for a text message in the state `before`, with
    /// `after` as the next state.
    pub open spec fn answers(
        self,
        msg: Option<ServerToAgent>,
        before: TunnelState,
        after: TunnelState,
    ) -> bool {
        match msg {
            Some(ServerToAgent::SessionClose { session_id }) => {
                &&& self matches TextStep::Closed { report }
                &&& opt_message(report) == before.close_report(session_id@)
                &&& after == before.closed(session_id@)
            },
            Some(ServerToAgent::SessionOpen { session_id, target_ip, target_port, stream_id }) => {
                &&& self matches TextStep::Open { step }
                &&& step.answers(before, session_id@, target_ip@, target_port, stream_id)
                &&& after == before
            },
            Some(ServerToAgent::DiscoveryTrigger { adapter_id, scan_type }) => {
                &&& self == (TextStep::Discovery { adapter_id, scan_type })
                &&& after == before
            },
            Some(ServerToAgent::Ping) => {
                &&& self == (TextStep::Reply { message: AgentToServer::Pong })
                &&& after == before
            },
            Some(ServerToAgent::CommsOpen { payload }) => {
                &&& self == (TextStep::CommsOpen {
                    comms_id: payload.comms_id,
                    target_url: payload.target_url,
                })
                &&& after == before
            },
            Some(ServerToAgent::CommsFrame { payload }) => {
                &&& self == (TextStep::CommsFrame {
                    comms_id: payload.comms_id,
                    data: payload.data,
                })
                &&& after == before
            },
            Some(ServerToAgent::CommsClose { payload }) => {
                &&& self == (TextStep::CommsClose { comms_id: payload.comms_id })
                &&& after == before
            },
            None => {
                &&& self is Unreadable
                &&& after == before
            },
        }
    }
}

impl<'a> BinaryStep<'a> {
    /// Whether this is the step for a binary frame in the state `before`, with
    /// `after` as the next state.
    pub open spec fn answers(
        self,
        data: Seq<u8>,
        before: TunnelState,
        after: TunnelState,
    ) -> bool {
        let stream_id = be32_value(data);
        let payload = data.skip(HEADER_LEN as int);
        if data.len() < HEADER_LEN {
            &&& self is TooShort
            &&& after == before
        } else if stream_id != 0 {
            &&& self matches BinaryStep::Data { step }
            &&& step.answers(before, stream_id, payload)
            &&& after == before.received(stream_id, payload.len())
        } else {
            match json_document(payload) {
                None => {
                    &&& self is BadControl
                    &&& after == before
                },
                Some(members) => self.carries_out(command_of(members), before, after),
            }
        }
    }

    /// Whether this is the step that carries out a control command.
    pub open spec fn carries_out(
        self,
        cmd: Command,
        before: TunnelState,
        after: TunnelState,
    ) -> bool {
        &&& self matches BinaryStep::Control { report }
        &&& opt_message(report) == before.control_report(cmd)
        &&& after == before.controlled(cmd)
    }
}

/// Acts on a text message from the server; `msg` is `None` if it could not be
/// parsed.
pub fn handle_text_message(msg: Option<ServerToAgent>, tunnels: &mut TunnelManager) -> (r: TextStep)
    requires
        old(tunnels).wf(),
    ensures
        final(tunnels).wf(),
        r.answers(msg, old(tunnels)@, final(tunnels)@),
{
    match msg {
        None => TextStep::Unreadable,
        Some(ServerToAgent::SessionOpen { session_id, target_ip, target_port, stream_id }) => {
            TextStep::Open {
                step: tunnels.handle_session_open(session_id, target_ip, target_port, stream_id),
            }
        },
        Some(ServerToAgent::SessionClose { session_id }) => TextStep::Closed {
            report: tunnels.handle_session_close(session_id.as_str()),
        },
        Some(ServerToAgent::DiscoveryTrigger { adapter_id, scan_type }) => TextStep::Discovery {
            adapter_id,
            scan_type,
        },
        Some(ServerToAgent::Ping) => TextStep::Reply { message: AgentToServer::Pong },
        Some(ServerToAgent::CommsOpen { payload }) => TextStep::CommsOpen {
            comms_id: payload.comms_id,
            target_url: payload.target_url,
        },
        Some(ServerToAgent::CommsFrame { payload }) => TextStep::CommsFrame {
            comms_id: payload.comms_id,
            data: payload.data,
        },
        Some(ServerToAgent::CommsClose { payload }) => TextStep::CommsClose {
            comms_id: payload.comms_id,
        },
    }
}

/// Whether a frame's bytes can still be counted on its stream.
pub open spec fn frame_has_room(data: Seq<u8>, state: TunnelState) -> bool {
    data.len() >= HEADER_LEN && be32_value(data) != 0 ==> state.has_room(
        be32_value(data),
        (data.len() - HEADER_LEN) as nat,
    )
}

/// Whether a frame's bytes can still be counted on its stream.
pub fn can_take_frame(data: &[u8], tunnels: &TunnelManager) -> (r: bool)
    requires
        tunnels.wf(),
    ensures
        r == frame_has_room(data@, tunnels@),
{
    match parse_frame(data) {
        None => true,
        Some(f) => f.stream_id == 0 || tunnels.can_receive(f.stream_id, f.payload.len()),
    }
}

/// Acts on a binary frame from the server: stream 0 carries control commands as
/// JSON, every other stream the bytes of a tunnel.
///
/// A control frame that was built for a command in capital letters is carried
/// out as that command for that stream.
pub fn handle_binary_frame<'a>(data: &'a [u8], tunnels: &mut TunnelManager) -> (r: BinaryStep<'a>)
    requires
        old(tunnels).wf(),
        frame_has_room(data@, old(tunnels)@),
    ensures
        final(tunnels).wf(),
        r.answers(data@, old(tunnels)@, final(tunnels)@),
        forall|cmd: Seq<char>, stream_id: u32|
            #![trigger control_frame(cmd, stream_id)]
            is_upper(cmd) && data@ == control_frame(cmd, stream_id) ==> r.carries_out(
                command(cmd, stream_id),
                old(tunnels)@,
                final(tunnels)@,
            ),
{
    let f = match parse_frame(data) {
        None => {
            proof {
                assert forall|cmd: Seq<char>, stream_id: u32|
                    data@ != #[trigger] control_frame(cmd, stream_id) by {
                    law_frame_round_trip(0, encode_utf8(control_text(cmd, stream_id)));
                }
            }
            return BinaryStep::TooShort;
        },
        Some(f) => f,
    };
    proof {
        assert forall|cmd: Seq<char>, stream_id: u32|
            data@ == #[trigger] control_frame(cmd, stream_id) implies f.stream_id == 0
            && f.payload@ == encode_utf8(control_text(cmd, stream_id)) by {
            law_frame_round_trip(0, encode_utf8(control_text(cmd, stream_id)));
        }
    }
    if f.stream_id == 0 {
        match read_control(f.payload) {
            None => BinaryStep::BadControl,
            Some(cmd) => BinaryStep::Control { report: tunnels.handle_control(&cmd) },
        }
    } else {
        BinaryStep::Data { step: tunnels.handle_data(f.stream_id, f.payload) }
    }
}

/// Bytes that are framed for a stream other than 0 come out of the frame, byte for
/// byte, for the session that the stream leads to.
pub proof fn law_framed_data_arrives(
    step: BinaryStep<'_>,
    stream_id: u32,
    payload: Seq<u8>,
    before: TunnelState,
    after: TunnelState,
)
    requires
        stream_id != 0,
        step.answers(frame(stream_id, payload), before, after),
    ensures
        step matches BinaryStep::Data { step: data } && data.answers(before, stream_id, payload),
        after == before.received(stream_id, payload.len()),
{
    law_frame_round_trip(stream_id, payload);
}

/// Acts on what the WebSocket brought.
///
/// A control frame that was built for a command in capital letters is carried
/// out as that command for that stream.
pub fn on_incoming<'a>(msg: Incoming<'a>, tunnels: &mut TunnelManager) -> (r: Step<'a>)
    requires
        old(tunnels).wf(),
        msg matches Incoming::Binary(data) ==> frame_has_room(data@, old(tunnels)@),
    ensures
        final(tunnels).wf(),
        match msg {
            Incoming::Text(text) => {
                &&& r matches Step::Text(step)
                &&& step.answers(text, old(tunnels)@, final(tunnels)@)
            },
            Incoming::Binary(data) => {
                &&& r matches Step::Binary(step)
                &&& step.answers(data@, old(tunnels)@, final(tunnels)@)
                &&& forall|cmd: Seq<char>, stream_id: u32|
                    #![trigger control_frame(cmd, stream_id)]
                    is_upper(cmd) && data@ == control_frame(cmd, stream_id) ==> step.carries_out(
                        command(cmd, stream_id),
                        old(tunnels)@,
                        final(tunnels)@,
                    )
            },
            Incoming::Ping(bytes) => r == Step::<'a>::Pong(bytes) && final(tunnels)@ == old(
                tunnels
            )@,
            Incoming::Other => r is Skip && final(tunnels)@ == old(tunnels)@,
            Incoming::Close | Incoming::Lost => {
                &&& r matches Step::Stop(reports)
                &&& old(tunnels)@.reports_all(messages_view(reports@))
                &&& final(tunnels)@ == TunnelState::empty()
            },
        },
{
    match msg {
        Incoming::Text(text) => Step::Text(handle_text_message(text, tunnels)),
        Incoming::Binary(data) => Step::Binary(handle_binary_frame(data, tunnels)),
        Incoming::Ping(bytes) => Step::Pong(bytes),
        Incoming::Other => Step::Skip,
        Incoming::Close | Incoming::Lost => Step::Stop(tunnels.close_all()),
    }
}

} // verus!
