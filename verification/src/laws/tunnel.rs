//! Laws of tunnel sessions.

use super::control::{law_command_names_its_stream, law_fin_and_rst_end, law_stream_is_low_bits};
use super::frame::{law_control_frame_layout, law_frame_layout};
use super::text::law_decimal;
use crate::control::{command, Command};
use crate::frame::control_text;
use crate::messages::AgentMessage;
use crate::text::digits_value;
use crate::tunnel::{
    address, connect_error, DataStep, OpenStep, ReadEvent, ReaderState, ReaderStep, SessionState,
    TunnelState,
};
use vstd::prelude::*;

verus! {

/// A `FIN` or `RST` for a stream closes just the session of that stream, whatever
/// its number, frees the stream, and reports the session's own counts. For a stream
/// that leads nowhere it does nothing.
pub proof fn law_command_ends_its_stream(state: TunnelState, name: Seq<char>, stream_id: u32)
    requires
        state.consistent(),
        name == seq!['F', 'I', 'N'] || name == seq!['R', 'S', 'T'],
    ensures
        ({
            let cmd = command(name, stream_id);
            let after = state.controlled(cmd);
            if state.streams.contains_key(stream_id) {
                let id = state.streams[stream_id];
                &&& state.control_report(cmd) == Some(
                    AgentMessage::SessionClosed {
                        session_id: id,
                        bytes_tx: state.sessions[id].bytes_tx,
                        bytes_rx: state.sessions[id].bytes_rx,
                    },
                )
                &&& after.sessions == state.sessions.remove(id)
                &&& after.streams == state.streams.remove(stream_id)
            } else {
                &&& state.control_report(cmd) is None
                &&& after == state
            }
        }),
{
    law_command_names_its_stream(name, stream_id);
    law_fin_and_rst_end(command(name, stream_id));
}

/// A command other than `FIN` and `RST`, and one without a name, does nothing.
pub proof fn law_other_commands_idle(state: TunnelState, cmd: Command)
    requires
        cmd.name matches Some(name) ==> name != seq!['F', 'I', 'N'] && name != seq!['R', 'S', 'T'],
    ensures
        state.controlled(cmd) == state,
        state.control_report(cmd) is None,
{
    law_fin_and_rst_end(cmd);
}

/// A command acts as one for the stream that the low 32 bits of its number give,
/// and without a number as one for stream 0.
pub proof fn law_command_number_wraps(
    state: TunnelState,
    name: Seq<char>,
    number: Option<u64>,
    stream_id: u32,
)
    requires
        number matches Some(n) ==> stream_id == n & 0xffff_ffff,
        number is None ==> stream_id == 0,
    ensures
        ({
            let cmd = Command { name: Some(name), stream_id: number };
            &&& state.controlled(cmd) == state.controlled(command(name, stream_id))
            &&& state.control_report(cmd) == state.control_report(command(name, stream_id))
        }),
{
    let cmd = Command { name: Some(name), stream_id: number };
    law_stream_is_low_bits(cmd);
    law_command_names_its_stream(name, stream_id);
    law_fin_and_rst_end(cmd);
    law_fin_and_rst_end(command(name, stream_id));
}

/// Without sessions there is nothing at all: no session, no stream.
pub proof fn law_empty_has_nothing(session_id: Seq<char>, stream_id: u32)
    ensures
        !TunnelState::empty().sessions.contains_key(session_id),
        !TunnelState::empty().streams.contains_key(stream_id),
        TunnelState::empty().close_report(session_id) is None,
{
}

/// A session is opened on its stream with nothing counted; no session and no stream
/// is lost by it, and no other comes.
pub proof fn law_open_adds_one(state: TunnelState, session_id: Seq<char>, stream_id: u32)
    ensures
        ({
            let now = state.opened(session_id, stream_id);
            &&& now.sessions.dom() == state.sessions.dom().insert(session_id)
            &&& now.streams.dom() == state.streams.dom().insert(stream_id)
            &&& now.streams[stream_id] == session_id
            &&& now.sessions[session_id].stream_id == stream_id
            &&& now.sessions[session_id].bytes_tx == 0
            &&& now.sessions[session_id].bytes_rx == 0
        }),
{
}

/// Closing a session that is not there changes and reports nothing.
pub proof fn law_close_of_nothing(state: TunnelState, session_id: Seq<char>)
    requires
        !state.sessions.contains_key(session_id),
    ensures
        state.closed(session_id) == state,
        state.close_report(session_id) is None,
{
}

/// The report of a session that is closed names it, and gives its own counts, each
/// for its direction.
pub proof fn law_close_reports_own_counts(
    state: TunnelState,
    session_id: Seq<char>,
    session: SessionState,
)
    requires
        state.sessions.contains_key(session_id),
        state.sessions[session_id] == session,
    ensures
        state.close_report(session_id) == Some(
            AgentMessage::SessionClosed {
                session_id,
                bytes_tx: session.bytes_tx,
                bytes_rx: session.bytes_rx,
            },
        ),
{
}

/// Bytes that come in on a stream are added to what its session received, and
/// change nothing else; on a stream that leads nowhere they change nothing.
pub proof fn law_received_bytes_add_up(state: TunnelState, stream_id: u32, n: nat)
    requires
        state.consistent(),
        state.streams.contains_key(stream_id) ==> state.sessions[state.streams[stream_id]].bytes_rx
            + n <= 0xffff_ffff_ffff_ffff,
    ensures
        ({
            let now = state.received(stream_id, n);
            let id = state.streams[stream_id];
            if state.streams.contains_key(stream_id) {
                &&& now.streams == state.streams
                &&& now.sessions.dom() == state.sessions.dom()
                &&& now.sessions[id].bytes_rx == state.sessions[id].bytes_rx + n
                &&& now.sessions[id].bytes_tx == state.sessions[id].bytes_tx
                &&& now.sessions[id].stream_id == stream_id
            } else {
                now == state
            }
        }),
{
    if state.streams.contains_key(stream_id) {
        assert(state.received(stream_id, n).sessions.dom() =~= state.sessions.dom());
    }
}

/// A note on forwarded bytes sets that count, of a session that is there; of one
/// that is not it changes nothing.
pub proof fn law_note_sets_count(state: TunnelState, session_id: Seq<char>, bytes_tx: u64)
    ensures
        state.sessions.contains_key(session_id) ==> state.forwarded(
            session_id,
            bytes_tx,
        ).sessions[session_id].bytes_tx == bytes_tx,
        !state.sessions.contains_key(session_id) ==> state.forwarded(session_id, bytes_tx) == state,
{
}

/// Bytes can be counted on a stream just if the sum fits 64 bits, and always on a
/// stream that leads nowhere.
pub proof fn law_room_is_64_bits(state: TunnelState, stream_id: u32, n: nat)
    ensures
        !state.streams.contains_key(stream_id) ==> state.has_room(stream_id, n),
        state.streams.contains_key(stream_id) ==> (state.has_room(stream_id, n)
            <==> state.sessions[state.streams[stream_id]].bytes_rx + n < 0x1_0000_0000_0000_0000),
{
}

/// When all sessions are closed, each is reported once, with its own counts, and
/// nothing else is.
pub proof fn law_close_all_reports_each_once(state: TunnelState, messages: Seq<AgentMessage>)
    requires
        state.reports_all(messages),
    ensures
        forall|i: int|
            0 <= i < messages.len() ==> (#[trigger] messages[i] matches AgentMessage::SessionClosed {
                session_id,
                bytes_tx,
                bytes_rx,
            } && state.sessions.contains_key(session_id) && state.sessions[session_id].bytes_tx
                == bytes_tx && state.sessions[session_id].bytes_rx == bytes_rx),
        forall|i: int, j: int|
            0 <= i < j < messages.len() ==> (#[trigger] messages[i])->SessionClosed_session_id != (
            #[trigger] messages[j])->SessionClosed_session_id,
        forall|id: Seq<char>| #[trigger]
            state.sessions.contains_key(id) ==> exists|i: int|
                0 <= i < messages.len() && (#[trigger] messages[i])->SessionClosed_session_id == id,
{
    let order = choose|order: Seq<Seq<char>>| #[trigger]
        state.lists_all(order) && messages == state.closed_messages(order);
    assert forall|i: int| 0 <= i < messages.len() implies state.sessions.contains_key(
        (#[trigger] messages[i])->SessionClosed_session_id,
    ) && messages[i]->SessionClosed_session_id == order[i] by {
        assert(order.to_set().contains(order[i]));
    }
    assert forall|id: Seq<char>| #[trigger] state.sessions.contains_key(id) implies exists|i: int|
        0 <= i < messages.len() && (#[trigger] messages[i])->SessionClosed_session_id == id by {
        assert(order.to_set().contains(id));
        let i = choose|i: int| 0 <= i < order.len() && order[i] == id;
        assert(messages[i]->SessionClosed_session_id == id);
    }
}

/// The address of a target is its host, a colon, and digits alone, at least one,
/// whose decimal value is the port: the port can be read back off the part behind
/// the last colon.
pub proof fn law_address_holds_host_and_port(target_ip: Seq<char>, target_port: u16)
    ensures
        ({
            let a = address(target_ip, target_port);
            let n = target_ip.len() as int;
            &&& a.len() > n + 1
            &&& a.take(n) == target_ip
            &&& a[n] == ':'
            &&& forall|i: int| n < i < a.len() ==> '0' <= #[trigger] a[i] <= '9'
            &&& digits_value(a.skip(n + 1)) == target_port
            &&& target_port > 0 ==> a[n + 1] != '0'
        }),
{
    reveal_strlit(":");
    law_decimal(target_port as nat);
    let a = address(target_ip, target_port);
    let n = target_ip.len() as int;
    let digits = crate::text::decimal(target_port as nat);
    assert(a.take(n) == target_ip);
    assert(a.skip(n + 1) == digits);
    assert forall|i: int| n < i < a.len() implies '0' <= #[trigger] a[i] <= '9' by {
        assert(a[i] == digits[i - n - 1]);
    }
}

/// Different targets have different addresses.
pub proof fn law_addresses_differ(ip: Seq<char>, port: u16, other_ip: Seq<char>, other_port: u16)
    requires
        address(ip, port) == address(other_ip, other_port),
    ensures
        ip == other_ip,
        port == other_port,
{
    law_address_holds_host_and_port(ip, port);
    law_address_holds_host_and_port(other_ip, other_port);
    let a = address(ip, port);
    if ip.len() < other_ip.len() {
        assert(a[other_ip.len() as int] == ':');
    }
    if other_ip.len() < ip.len() {
        assert(a[ip.len() as int] == ':');
    }
}

/// A request to open a session is ignored just if there is such a session; any
/// other leads to a connection to the host and port that were asked for, of at most
/// five seconds, for that session and stream.
pub proof fn law_open_request(
    step: OpenStep,
    state: TunnelState,
    session_id: Seq<char>,
    target_ip: Seq<char>,
    target_port: u16,
    stream_id: u32,
)
    requires
        step.answers(state, session_id, target_ip, target_port, stream_id),
    ensures
        step is Duplicate <==> state.sessions.contains_key(session_id),
        step matches OpenStep::Connect { addr, timeout_secs, pending } ==> {
            &&& addr@.len() > target_ip.len() + 1
            &&& addr@.take(target_ip.len() as int) == target_ip
            &&& addr@[target_ip.len() as int] == ':'
            &&& forall|i: int|
                target_ip.len() < i < addr@.len() ==> '0' <= #[trigger] addr@[i] <= '9'
            &&& digits_value(addr@.skip(target_ip.len() as int + 1)) == target_port
            &&& timeout_secs == 5
            &&& pending.session_id@ == session_id
            &&& pending.stream_id == stream_id
        },
{
    law_address_holds_host_and_port(target_ip, target_port);
}

/// Why a connection failed is told behind a fixed text, word for word.
pub proof fn law_connect_error_holds_reason(error: Seq<char>, other: Seq<char>)
    ensures
        connect_error(error).len() == 20 + error.len(),
        connect_error(error).skip(20) == error,
        connect_error(error).take(20) == connect_error(other).take(20),
        connect_error(error).take(20) == "TCP connect failed: "@,
{
    reveal_strlit("TCP connect failed: ");
    assert(connect_error(error).skip(20) == error);
    assert(connect_error(error).take(20) == "TCP connect failed: "@);
    assert(connect_error(other).take(20) == "TCP connect failed: "@);
}

/// Bytes on a stream go to the session that the stream leads to, unchanged; they are
/// dropped just if it leads nowhere.
pub proof fn law_data_goes_to_its_session(
    step: DataStep<'_>,
    state: TunnelState,
    stream_id: u32,
    bytes: Seq<u8>,
)
    requires
        step.answers(state, stream_id, bytes),
    ensures
        step is Drop <==> !state.streams.contains_key(stream_id),
        step matches DataStep::Write { session_id, payload } ==> session_id@
            == state.streams[stream_id] && payload@ == bytes,
{
}

/// Bytes that were read go out in one frame for the reader's stream, unchanged, and
/// are added to its count.
pub proof fn law_read_bytes_are_framed(
    step: ReaderStep,
    bytes: &[u8],
    before: ReaderState,
    after: ReaderState,
)
    requires
        bytes@.len() > 0,
        before.bytes_tx + bytes@.len() <= 0xffff_ffff_ffff_ffff,
        step.answers(ReadEvent::Data(bytes), before, after),
    ensures
        step matches ReaderStep::Forward { frame: f } && f@.len() == 8 + bytes@.len() && f@[0]
            * 0x100_0000 + f@[1] * 0x1_0000 + f@[2] * 0x100 + f@[3] == before.stream_id && f@[4]
            * 0x100_0000 + f@[5] * 0x1_0000 + f@[6] * 0x100 + f@[7] == bytes@.len()
            % 0x1_0000_0000 && f@.skip(8) == bytes@,
        after.bytes_tx == before.bytes_tx + bytes@.len(),
        after.stream_id == before.stream_id,
        after.session_id == before.session_id,
{
    law_frame_layout(before.stream_id, bytes@);
}

/// The end of the stream, or an error, ends the session with a `FIN` for the
/// reader's stream on stream 0 and a message with the reader's count, and none for
/// the other direction.
pub proof fn law_end_of_stream_ends_session(
    step: ReaderStep,
    event: ReadEvent<'_>,
    before: ReaderState,
    after: ReaderState,
)
    requires
        event is Failed || (event matches ReadEvent::Data(bytes) && bytes@.len() == 0),
        step.answers(event, before, after),
    ensures
        step matches ReaderStep::Finish { fin, closed } && fin@.len() >= 8 && fin@[0] == 0 && fin@[1]
            == 0 && fin@[2] == 0 && fin@[3] == 0 && fin@[4] * 0x100_0000 + fin@[5] * 0x1_0000 + fin@[6]
            * 0x100 + fin@[7] == (fin@.len() - 8) % 0x1_0000_0000 && fin@.skip(8) == vstd::utf8::encode_utf8(
            control_text(seq!['F', 'I', 'N'], before.stream_id),
        ) && closed@ == (AgentMessage::SessionClosed {
            session_id: before.session_id,
            bytes_tx: before.bytes_tx,
            bytes_rx: 0,
        }),
        after == before,
{
    reveal_strlit("FIN");
    assert("FIN"@ == seq!['F', 'I', 'N']);
    law_control_frame_layout("FIN"@, before.stream_id);
}

/// Once a frame could not be sent, the reader stops without a word.
pub proof fn law_unsent_stops(step: ReaderStep, before: ReaderState, after: ReaderState)
    requires
        step.answers(ReadEvent::Unsent, before, after),
    ensures
        step is Stop,
        after == before,
{
}

} // verus!
