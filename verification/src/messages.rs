//! The messages between the agent and its server.

use vstd::prelude::*;

verus! {

// ── Server to agent ──

/// What the server asks of the agent.
#[derive(Debug, Clone, PartialEq, Eq)]
pub enum ServerToAgent {
    /// Open a tunnel to a TCP target.
    SessionOpen { session_id: String, target_ip: String, target_port: u16, stream_id: u32 },
    /// Close a tunnel.
    SessionClose { session_id: String },
    /// Look for devices.
    DiscoveryTrigger { adapter_id: Option<String>, scan_type: String },
    /// Answer with a pong.
    Ping,
    /// Open a `/comms` WebSocket (browser to agent to device).
    CommsOpen { payload: CommsOpenPayload },
    /// Send a frame over a `/comms` WebSocket.
    CommsFrame { payload: CommsFramePayload },
    /// Close a `/comms` WebSocket.
    CommsClose { payload: CommsClosePayload },
}

#[derive(Debug, Clone, PartialEq, Eq)]
pub struct CommsOpenPayload {
    pub comms_id: String,
    pub target_url: String,
}

#[derive(Debug, Clone, PartialEq, Eq)]
pub struct CommsFramePayload {
    pub comms_id: String,
    pub data: String,
}

#[derive(Debug, Clone, PartialEq, Eq)]
pub struct CommsClosePayload {
    pub comms_id: String,
}

// ── Agent to server ──

/// A network interface of the device.
#[derive(Debug, Clone, PartialEq, Eq)]
pub struct AdapterInfo {
    pub name: String,
    pub mac_address: Option<String>,
    pub ip_address: Option<String>,
    pub subnet_mask: Option<String>,
    pub gateway: Option<String>,
    pub mode: Option<String>,
    pub is_up: bool,
}

/// An endpoint that discovery found, as the text of its JSON value.
#[derive(Debug, Clone, PartialEq, Eq)]
pub struct DiscoveredEndpointInfo {
    pub json: String,
}

/// What the agent tells the server.
#[derive(Debug, Clone, PartialEq, Eq)]
pub enum AgentToServer {
    /// The state of the device. `cpu_bits` holds the CPU usage in percent, as
    /// the bits of a single-precision float.
    Heartbeat {
        cpu_bits: u32,
        mem: u64,
        mem_total: u64,
        disk: u64,
        disk_total: u64,
        uptime: u64,
        agent_version: String,
        active_tunnels: u32,
        adapters: Vec<AdapterInfo>,
    },
    /// A tunnel is open.
    SessionReady { session_id: String, stream_id: u32 },
    /// A tunnel could not be opened.
    SessionError { session_id: String, error: String },
    /// A tunnel is closed; so many bytes went each way.
    SessionClosed { session_id: String, bytes_tx: u64, bytes_rx: u64 },
    /// What discovery found on one adapter.
    DiscoveryResult {
        adapter_id: String,
        adapter_name: String,
        endpoints: Vec<DiscoveredEndpointInfo>,
    },
    /// The answer to a ping.
    Pong,
    /// A `/comms` WebSocket is open.
    CommsOpened { comms_id: String },
    /// A frame came over a `/comms` WebSocket.
    CommsFrame { comms_id: String, data: String },
    /// A `/comms` WebSocket is closed.
    CommsClosed { comms_id: String },
    /// A `/comms` WebSocket failed.
    CommsError { comms_id: String, error: String },
}

// ── Mathematical views ──

/// The text in an optional string.
pub open spec fn opt_text(s: Option<String>) -> Option<Seq<char>> {
    match s {
        Some(s) => Some(s@),
        None => None,
    }
}

/// The view of an `AdapterInfo`.
pub struct Adapter {
    pub name: Seq<char>,
    pub mac_address: Option<Seq<char>>,
    pub ip_address: Option<Seq<char>>,
    pub subnet_mask: Option<Seq<char>>,
    pub gateway: Option<Seq<char>>,
    pub mode: Option<Seq<char>>,
    pub is_up: bool,
}

impl View for AdapterInfo {
    type V = Adapter;

    open spec fn view(&self) -> Adapter {
        Adapter {
            name: self.name@,
            mac_address: opt_text(self.mac_address),
            ip_address: opt_text(self.ip_address),
            subnet_mask: opt_text(self.subnet_mask),
            gateway: opt_text(self.gateway),
            mode: opt_text(self.mode),
            is_up: self.is_up,
        }
    }
}

/// The views of a sequence of adapters.
pub open spec fn adapters_view(v: Seq<AdapterInfo>) -> Seq<Adapter> {
    v.map_values(|a: AdapterInfo| a@)
}

/// The view of an `AgentToServer`.
pub enum AgentMessage {
    Heartbeat {
        cpu_bits: u32,
        mem: u64,
        mem_total: u64,
        disk: u64,
        disk_total: u64,
        uptime: u64,
        agent_version: Seq<char>,
        active_tunnels: u32,
        adapters: Seq<Adapter>,
    },
    SessionReady { session_id: Seq<char>, stream_id: u32 },
    SessionError { session_id: Seq<char>, error: Seq<char> },
    SessionClosed { session_id: Seq<char>, bytes_tx: u64, bytes_rx: u64 },
    DiscoveryResult {
        adapter_id: Seq<char>,
        adapter_name: Seq<char>,
        endpoints: Seq<Seq<char>>,
    },
    Pong,
    CommsOpened { comms_id: Seq<char> },
    CommsFrame { comms_id: Seq<char>, data: Seq<char> },
    CommsClosed { comms_id: Seq<char> },
    CommsError { comms_id: Seq<char>, error: Seq<char> },
}

impl View for AgentToServer {
    type V = AgentMessage;

    open spec fn view(&self) -> AgentMessage {
        match *self {
            AgentToServer::Heartbeat {
                cpu_bits,
                mem,
                mem_total,
                disk,
                disk_total,
                uptime,
                agent_version,
                active_tunnels,
                adapters,
            } => AgentMessage::Heartbeat {
                cpu_bits,
                mem,
                mem_total,
                disk,
                disk_total,
                uptime,
                agent_version: agent_version@,
                active_tunnels,
                adapters: adapters_view(adapters@),
            },
            AgentToServer::SessionReady { session_id, stream_id } => AgentMessage::SessionReady {
                session_id: session_id@,
                stream_id,
            },
            AgentToServer::SessionError { session_id, error } => AgentMessage::SessionError {
                session_id: session_id@,
                error: error@,
            },
            AgentToServer::SessionClosed { session_id, bytes_tx, bytes_rx } => {
                AgentMessage::SessionClosed { session_id: session_id@, bytes_tx, bytes_rx }
            },
            AgentToServer::DiscoveryResult { adapter_id, adapter_name, endpoints } => {
                AgentMessage::DiscoveryResult {
                    adapter_id: adapter_id@,
                    adapter_name: adapter_name@,
                    endpoints: endpoints@.map_values(|e: DiscoveredEndpointInfo| e.json@),
                }
            },
            AgentToServer::Pong => AgentMessage::Pong,
            AgentToServer::CommsOpened { comms_id } => AgentMessage::CommsOpened {
                comms_id: comms_id@,
            },
            AgentToServer::CommsFrame { comms_id, data } => AgentMessage::CommsFrame {
                comms_id: comms_id@,
                data: data@,
            },
            AgentToServer::CommsClosed { comms_id } => AgentMessage::CommsClosed {
                comms_id: comms_id@,
            },
            AgentToServer::CommsError { comms_id, error } => AgentMessage::CommsError {
                comms_id: comms_id@,
                error: error@,
            },
        }
    }
}

/// The views of a sequence of messages.
pub open spec fn messages_view(v: Seq<AgentToServer>) -> Seq<AgentMessage> {
    v.map_values(|m: AgentToServer| m@)
}

/// The view of an optional message.
pub open spec fn opt_message(m: Option<AgentToServer>) -> Option<AgentMessage> {
    match m {
        Some(m) => Some(m@),
        None => None,
    }
}

} // verus!
