//! Laws of the connection to the server.

use super::control::{law_command_is_read, lemma_member_names};
use super::frame::law_first_byte_weighs_most;
use super::tunnel::{law_command_ends_its_stream, law_command_number_wraps, law_other_commands_idle};
use crate::connection::{
    delay_after, doubled, frame_has_room, jitter, law_backoff_is_exponential, valid_jitters,
    BinaryStep, TextStep,
};
use crate::control::{command, command_of, json_document, JsonMember};
use crate::messages::{AgentMessage, ServerToAgent};
use crate::tunnel::{DataStep, TunnelState};
use vstd::arithmetic::div_mod::{lemma_mod_add_multiples_vanish, lemma_mod_bound, lemma_small_mod};
use vstd::arithmetic::power2::{lemma2_to64, pow2};
use vstd::prelude::*;

verus! {

/// Jitter is at most a quarter of what it is for; nanoseconds up to a quarter are
/// the jitter themselves, and from there on it starts over.
pub proof fn law_jitter_runs_round(nanos: nat, max: nat)
    ensures
        4 * jitter(nanos, max) <= max,
        4 * nanos <= max ==> jitter(nanos, max) == nanos,
        jitter(nanos + max / 4 + 1, max) == jitter(nanos, max),
{
    let bound = (max / 4 + 1) as int;
    lemma_mod_bound(nanos as int, bound);
    if 4 * nanos <= max {
        lemma_small_mod(nanos, bound as nat);
    }
    lemma_mod_add_multiples_vanish(nanos as int, bound);
    assert(bound + nanos == nanos + max / 4 + 1);
}

/// The next delay is twice the delay or a minute, whichever is less.
pub proof fn law_doubled_up_to_a_minute(secs: nat)
    ensures
        doubled(secs) <= 2 * secs,
        doubled(secs) <= 60,
        doubled(secs) == 2 * secs || doubled(secs) == 60,
{
}

/// After `n` failures in a row the delay is at least two to the `n` seconds, or a
/// minute, and at most 75 seconds; without jitter it is no more than that.
pub proof fn law_backoff_in_seconds(jitters: Seq<nat>)
    requires
        valid_jitters(jitters),
    ensures
        delay_after(Seq::<nat>::empty()) == 1,
        delay_after(jitters) >= pow2(jitters.len()) || delay_after(jitters) >= 60,
        delay_after(jitters) <= 75,
        (forall|i: int| 0 <= i < jitters.len() ==> #[trigger] jitters[i] == 0) ==> delay_after(
            jitters,
        ) <= pow2(jitters.len()) && delay_after(jitters) <= 60,
    decreases jitters.len(),
{
    law_backoff_is_exponential(jitters);
    lemma2_to64();
    if jitters.len() > 0 {
        let front = jitters.drop_last();
        law_backoff_in_seconds(front);
        vstd::arithmetic::power2::lemma_pow2_unfold(jitters.len());
        assert forall|i: int| 0 <= i < front.len() implies #[trigger] front[i] == jitters[i] by {}
    }
}

/// A ping is answered with a pong, and leaves the tunnels alone.
pub proof fn law_ping_is_answered(step: TextStep, before: TunnelState, after: TunnelState)
    requires
        step.answers(Some(ServerToAgent::Ping), before, after),
    ensures
        step matches TextStep::Reply { message } && message is Pong,
        after == before,
{
}

/// A text that is no message leads to nothing.
pub proof fn law_unreadable_is_ignored(step: TextStep, before: TunnelState, after: TunnelState)
    requires
        step.answers(None, before, after),
    ensures
        step is Unreadable,
        after == before,
{
}

/// A request to close a session closes just that one, and gives its report.
pub proof fn law_close_request(
    step: TextStep,
    session_id: String,
    before: TunnelState,
    after: TunnelState,
)
    requires
        step.answers(Some(ServerToAgent::SessionClose { session_id }), before, after),
    ensures
        step is Closed,
        after == before.closed(session_id@),
        step matches TextStep::Closed { report: Some(m) } ==> before.close_report(session_id@)
            == Some(m@),
        step matches TextStep::Closed { report: None } ==> !before.sessions.contains_key(
            session_id@,
        ),
{
}

/// A request to open a session changes nothing yet, and is decided by the session,
/// target and stream that it names.
pub proof fn law_open_request_changes_nothing(
    step: TextStep,
    session_id: String,
    target_ip: String,
    target_port: u16,
    stream_id: u32,
    before: TunnelState,
    after: TunnelState,
)
    requires
        step.answers(
            Some(ServerToAgent::SessionOpen { session_id, target_ip, target_port, stream_id }),
            before,
            after,
        ),
    ensures
        after == before,
        step matches TextStep::Open { step: open } && open.answers(
            before,
            session_id@,
            target_ip@,
            target_port,
            stream_id,
        ),
{
}

/// What is asked for `/comms`, or for discovery, is handed on as it came, and leaves
/// the tunnels alone.
pub proof fn law_requests_are_handed_on(
    step: TextStep,
    msg: ServerToAgent,
    before: TunnelState,
    after: TunnelState,
)
    requires
        step.answers(Some(msg), before, after),
        !(msg is SessionOpen),
        !(msg is SessionClose),
    ensures
        after == before,
        msg matches ServerToAgent::CommsOpen { payload } ==> (step matches TextStep::CommsOpen {
            comms_id,
            target_url,
        } && comms_id == payload.comms_id && target_url == payload.target_url),
        msg matches ServerToAgent::CommsFrame { payload } ==> (step matches TextStep::CommsFrame {
            comms_id,
            data,
        } && comms_id == payload.comms_id && data == payload.data),
        msg matches ServerToAgent::CommsClose { payload } ==> (step matches TextStep::CommsClose {
            comms_id,
        } && comms_id == payload.comms_id),
        msg matches ServerToAgent::DiscoveryTrigger { adapter_id, scan_type } ==> (
        step matches TextStep::Discovery { adapter_id: a, scan_type: s } && a == adapter_id && s
            == scan_type),
{
}

/// A frame of fewer than eight bytes is ignored.
pub proof fn law_short_frame_is_ignored(
    step: BinaryStep<'_>,
    data: Seq<u8>,
    before: TunnelState,
    after: TunnelState,
)
    requires
        data.len() < 8,
        step.answers(data, before, after),
    ensures
        step is TooShort,
        after == before,
{
}

/// The first four bytes of a frame, the first of which weighs most, are the stream;
/// unless they are all zero, what stands behind the eighth byte goes to the session
/// of that stream, byte for byte, and is counted there.
pub proof fn law_data_frame(
    step: BinaryStep<'_>,
    data: Seq<u8>,
    stream_id: u32,
    before: TunnelState,
    after: TunnelState,
)
    requires
        data.len() >= 8,
        data[0] * 0x100_0000 + data[1] * 0x1_0000 + data[2] * 0x100 + data[3] == stream_id,
        stream_id != 0,
        step.answers(data, before, after),
    ensures
        !before.streams.contains_key(stream_id) ==> step matches BinaryStep::Data {
            step: DataStep::Drop,
        },
        before.streams.contains_key(stream_id) ==> (step matches BinaryStep::Data {
            step: DataStep::Write { session_id, payload },
        } && session_id@ == before.streams[stream_id] && payload@ == data.skip(8)),
        after == before.received(stream_id, (data.len() - 8) as nat),
{
    law_first_byte_weighs_most(data);
}

/// A frame is asked room for on the stream in its first four bytes, for all that
/// stands behind the eighth byte; a frame for stream 0, or one that is too short,
/// takes none.
pub proof fn law_frame_room(data: Seq<u8>, stream_id: u32, state: TunnelState)
    requires
        data.len() >= 8 ==> data[0] * 0x100_0000 + data[1] * 0x1_0000 + data[2] * 0x100 + data[3]
            == stream_id,
    ensures
        data.len() < 8 || stream_id == 0 ==> frame_has_room(data, state),
        data.len() >= 8 && stream_id != 0 ==> (frame_has_room(data, state) <==> state.has_room(
            stream_id,
            (data.len() - 8) as nat,
        )),
{
    if data.len() >= 8 {
        law_first_byte_weighs_most(data);
    }
}

/// A frame that begins with four zero bytes is a control frame: if what stands
/// behind the eighth byte is no JSON, it is ignored.
pub proof fn law_bad_control_frame(
    step: BinaryStep<'_>,
    data: Seq<u8>,
    before: TunnelState,
    after: TunnelState,
)
    requires
        data.len() >= 8,
        data[0] == 0 && data[1] == 0 && data[2] == 0 && data[3] == 0,
        json_document(data.skip(8)) is None,
        step.answers(data, before, after),
    ensures
        step is BadControl,
        after == before,
{
    law_first_byte_weighs_most(data);
}

/// A frame that begins with four zero bytes is a control frame: the command in its
/// JSON is carried out on the tunnels, with the report that it gives, whatever number
/// it holds, if any.
pub proof fn law_control_frame_is_carried_out(
    step: BinaryStep<'_>,
    data: Seq<u8>,
    members: Map<Seq<char>, JsonMember>,
    before: TunnelState,
    after: TunnelState,
)
    requires
        data.len() >= 8,
        data[0] == 0 && data[1] == 0 && data[2] == 0 && data[3] == 0,
        json_document(data.skip(8)) == Some(members),
        step.answers(data, before, after),
    ensures
        step is Control,
        after == before.controlled(command_of(members)),
        step matches BinaryStep::Control { report: Some(m) } ==> before.control_report(
            command_of(members),
        ) == Some(m@),
        step matches BinaryStep::Control { report: None } ==> before.control_report(
            command_of(members),
        ) is None,
{
    law_first_byte_weighs_most(data);
}

/// A control frame whose JSON names `FIN` or `RST` and a stream closes just the
/// session of that stream and reports its counts; if the stream leads nowhere, the
/// frame does nothing.
pub proof fn law_control_frame_ends_stream(
    step: BinaryStep<'_>,
    data: Seq<u8>,
    members: Map<Seq<char>, JsonMember>,
    name: Seq<char>,
    stream_id: u32,
    before: TunnelState,
    after: TunnelState,
)
    requires
        before.consistent(),
        data.len() >= 8,
        data[0] == 0 && data[1] == 0 && data[2] == 0 && data[3] == 0,
        json_document(data.skip(8)) == Some(members),
        members.contains_key(seq!['c', 'm', 'd']),
        members[seq!['c', 'm', 'd']] == JsonMember::Text(name),
        name == seq!['F', 'I', 'N'] || name == seq!['R', 'S', 'T'],
        members.contains_key(seq!['s', 't', 'r', 'e', 'a', 'm', 'I', 'd']),
        members[seq!['s', 't', 'r', 'e', 'a', 'm', 'I', 'd']] == JsonMember::Natural(
            stream_id as u64,
        ),
        step.answers(data, before, after),
    ensures
        before.streams.contains_key(stream_id) ==> {
            let id = before.streams[stream_id];
            &&& step matches BinaryStep::Control { report: Some(m) }
            &&& m@ == (AgentMessage::SessionClosed {
                session_id: id,
                bytes_tx: before.sessions[id].bytes_tx,
                bytes_rx: before.sessions[id].bytes_rx,
            })
            &&& after.sessions == before.sessions.remove(id)
            &&& after.streams == before.streams.remove(stream_id)
        },
        !before.streams.contains_key(stream_id) ==> {
            &&& step matches BinaryStep::Control { report: None }
            &&& after == before
        },
{
    law_first_byte_weighs_most(data);
    law_command_is_read(members, name, stream_id as u64);
    let n = stream_id as u64;
    assert(n == n & 0xffff_ffff) by (bit_vector)
        requires
            n <= 0xffff_ffff,
    ;
    law_command_number_wraps(before, name, Some(n), stream_id);
    law_command_ends_its_stream(before, name, stream_id);
}

/// A step carries out a command if it gives the report of that command, and leaves
/// the tunnels as that command does.
pub proof fn law_carrying_out_a_command(
    step: BinaryStep<'_>,
    name: Seq<char>,
    stream_id: u32,
    before: TunnelState,
    after: TunnelState,
)
    requires
        before.consistent(),
        name == seq!['F', 'I', 'N'] || name == seq!['R', 'S', 'T'],
        step.carries_out(command(name, stream_id), before, after),
    ensures
        before.streams.contains_key(stream_id) ==> {
            let id = before.streams[stream_id];
            &&& step matches BinaryStep::Control { report: Some(m) }
            &&& m@ == (AgentMessage::SessionClosed {
                session_id: id,
                bytes_tx: before.sessions[id].bytes_tx,
                bytes_rx: before.sessions[id].bytes_rx,
            })
            &&& after.sessions == before.sessions.remove(id)
            &&& after.streams == before.streams.remove(stream_id)
        },
        !before.streams.contains_key(stream_id) ==> {
            &&& step matches BinaryStep::Control { report: None }
            &&& after == before
        },
{
    law_command_ends_its_stream(before, name, stream_id);
}

/// A control frame whose JSON names no command, or one other than `FIN` and `RST`,
/// does nothing.
pub proof fn law_other_control_frames_idle(
    step: BinaryStep<'_>,
    data: Seq<u8>,
    members: Map<Seq<char>, JsonMember>,
    before: TunnelState,
    after: TunnelState,
)
    requires
        data.len() >= 8,
        data[0] == 0 && data[1] == 0 && data[2] == 0 && data[3] == 0,
        json_document(data.skip(8)) == Some(members),
        !members.contains_key(seq!['c', 'm', 'd']) || (members[seq!['c', 'm', 'd']]
            != JsonMember::Text(seq!['F', 'I', 'N']) && members[seq!['c', 'm', 'd']]
            != JsonMember::Text(seq!['R', 'S', 'T'])),
        step.answers(data, before, after),
    ensures
        step matches BinaryStep::Control { report: None },
        after == before,
{
    law_first_byte_weighs_most(data);
    lemma_member_names();
    law_other_commands_idle(before, command_of(members));
}

} // verus!
