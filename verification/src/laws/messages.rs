//! Laws of the views of messages and readings: a view holds what the value holds,
//! field by field.

use crate::health::{opt_bytes, readings_view, strings_view, InterfaceReading};
use crate::messages::{
    adapters_view, messages_view, opt_message, opt_text, AdapterInfo, AgentMessage, AgentToServer,
};
use vstd::prelude::*;

verus! {

/// The view of an optional value is that of the value, if there is one.
pub proof fn law_optional_views(text: Option<String>, bytes: Option<Vec<u8>>)
    ensures
        text is Some <==> opt_text(text) is Some,
        text matches Some(s) ==> opt_text(text) == Some(s@),
        bytes is Some <==> opt_bytes(bytes) is Some,
        bytes matches Some(v) ==> opt_bytes(bytes) == Some(v@),
{
}

/// The view of an optional message is that of the message, if there is one.
pub proof fn law_optional_message_view(message: Option<AgentToServer>)
    ensures
        message is Some <==> opt_message(message) is Some,
        message matches Some(m) ==> opt_message(message) == Some(m@),
{
}

/// The view of several values has the view of each, in the same order.
pub proof fn law_views_in_order(
    adapters: Seq<AdapterInfo>,
    messages: Seq<AgentToServer>,
    readings: Seq<InterfaceReading>,
    strings: Seq<String>,
    i: int,
)
    ensures
        adapters_view(adapters).len() == adapters.len(),
        0 <= i < adapters.len() ==> adapters_view(adapters)[i] == adapters[i]@,
        messages_view(messages).len() == messages.len(),
        0 <= i < messages.len() ==> messages_view(messages)[i] == messages[i]@,
        readings_view(readings).len() == readings.len(),
        0 <= i < readings.len() ==> readings_view(readings)[i] == readings[i]@,
        strings_view(strings).len() == strings.len(),
        0 <= i < strings.len() ==> strings_view(strings)[i] == strings[i]@,
{
}

/// Equal views of two adapters mean equal fields.
pub proof fn law_adapter_view(a: AdapterInfo, b: AdapterInfo)
    requires
        a@ == b@,
    ensures
        a@.name == a.name@,
        a.name@ == b.name@,
        a.is_up == b.is_up,
        a@.is_up == a.is_up,
        a@.mac_address is Some <==> a.mac_address is Some,
        a@.ip_address is Some <==> a.ip_address is Some,
        a@.subnet_mask is Some <==> a.subnet_mask is Some,
        a@.gateway is Some <==> a.gateway is Some,
        a@.mode is Some <==> a.mode is Some,
        a.mac_address matches Some(s) ==> a@.mac_address == Some(s@),
        a.ip_address matches Some(s) ==> a@.ip_address == Some(s@),
        a.subnet_mask matches Some(s) ==> a@.subnet_mask == Some(s@),
        a.gateway matches Some(s) ==> a@.gateway == Some(s@),
        a.mode matches Some(s) ==> a@.mode == Some(s@),
{
}

/// The view of a reading holds what was read, each file and output in its place.
pub proof fn law_reading_view(r: InterfaceReading)
    ensures
        r@.name == r.name@,
        r@.operstate is Some <==> r.operstate is Some,
        r@.address is Some <==> r.address is Some,
        r@.addr_output is Some <==> r.addr_output is Some,
        r@.route_output is Some <==> r.route_output is Some,
        r.operstate matches Some(s) ==> r@.operstate == Some(s@),
        r.address matches Some(s) ==> r@.address == Some(s@),
        r.addr_output matches Some(v) ==> r@.addr_output == Some(v@),
        r.route_output matches Some(v) ==> r@.route_output == Some(v@),
{
}

/// The view of a session message holds its session, and its stream, its error or its
/// counts.
pub proof fn law_session_message_view(m: AgentToServer)
    ensures
        m matches AgentToServer::SessionReady { session_id, stream_id } ==> m@ == (
        AgentMessage::SessionReady { session_id: session_id@, stream_id }),
        m matches AgentToServer::SessionError { session_id, error } ==> m@ == (
        AgentMessage::SessionError { session_id: session_id@, error: error@ }),
        m matches AgentToServer::SessionClosed { session_id, bytes_tx, bytes_rx } ==> m@ == (
        AgentMessage::SessionClosed { session_id: session_id@, bytes_tx, bytes_rx }),
        m is Pong <==> m@ is Pong,
        m is SessionReady <==> m@ is SessionReady,
        m is SessionError <==> m@ is SessionError,
        m is SessionClosed <==> m@ is SessionClosed,
{
}

/// The view of a heartbeat holds each of its readings in its place.
pub proof fn law_heartbeat_view(m: AgentToServer)
    requires
        m is Heartbeat,
    ensures
        m@ is Heartbeat,
        m@->cpu_bits == m->cpu_bits,
        m@->mem == m->mem,
        m@->mem_total == m->mem_total,
        m@->disk == m->disk,
        m@->disk_total == m->disk_total,
        m@->uptime == m->uptime,
        m@->agent_version == m->agent_version@,
        m@->active_tunnels == m->active_tunnels,
        m@->adapters.len() == m->adapters@.len(),
        forall|i: int|
            0 <= i < m->adapters@.len() ==> #[trigger] m@->adapters[i] == m->adapters@[i]@,
{
}

} // verus!
