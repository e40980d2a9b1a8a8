use nucleus_agent::connection::{
    can_take_frame, connect_url, handle_binary_frame, handle_text_message, jitter_from,
    on_incoming, rand_jitter, Backoff, BinaryStep, Incoming, Step, TextStep, FLUSH_TIMEOUT_SECS,
    MAX_BACKOFF_SECS,
};
use nucleus_agent::frame::{build_control_frame, build_frame};
use nucleus_agent::messages::{
    AgentToServer, CommsClosePayload, CommsFramePayload, CommsOpenPayload, ServerToAgent,
};
use nucleus_agent::tunnel::{ConnectOutcome, DataStep, OpenStep, PendingOpen, TunnelManager};

fn with_sessions(sessions: &[(&str, u32)]) -> TunnelManager {
    let mut m = TunnelManager::new();
    for (id, stream_id) in sessions {
        let pending = PendingOpen { session_id: id.to_string(), stream_id: *stream_id };
        m.finish_session_open(pending, ConnectOutcome::Connected);
    }
    m
}

fn closed(id: &str, bytes_rx: u64) -> AgentToServer {
    AgentToServer::SessionClosed { session_id: id.to_string(), bytes_tx: 0, bytes_rx }
}

#[test]
fn jitter_is_a_remainder() {
    assert_eq!(jitter_from(0, 60), 0);
    assert_eq!(jitter_from(15, 60), 15);
    assert_eq!(jitter_from(16, 60), 0);
    assert_eq!(jitter_from(999_999_999, 60), 999_999_999 % 16);
    assert_eq!(jitter_from(5, 0), 0);
    assert_eq!(jitter_from(5, 3), 0);
    assert_eq!(jitter_from(u32::MAX, u64::MAX), u32::MAX as u64);
}

#[test]
fn clock_jitter_is_at_most_a_quarter() {
    for max in [0, 1, 4, 60, 1000, u64::MAX] {
        let j = rand_jitter(max);
        assert!(j <= max / 4);
        assert!(j < 1_000_000_000);
    }
}

#[test]
fn clock_jitter_varies() {
    let first = rand_jitter(u64::MAX);
    for _ in 0..1_000_000 {
        if rand_jitter(u64::MAX) != first {
            return;
        }
    }
    panic!("the clock stands still");
}

#[test]
fn backoff_doubles_up_to_the_cap() {
    let mut backoff = Backoff::new();
    for expected in [1, 2, 4, 8, 16, 32, 60, 60] {
        assert_eq!(backoff.connection_ended(false), expected);
        backoff.advance_by(0);
    }
    assert_eq!(MAX_BACKOFF_SECS, 60);
    assert_eq!(FLUSH_TIMEOUT_SECS, 2);
}

#[test]
fn backoff_adds_jitter_above_the_cap() {
    let mut backoff = Backoff::new();
    for _ in 0..6 {
        backoff.advance_by(0);
    }
    backoff.advance_by(15);
    assert_eq!(backoff.connection_ended(false), 75);
    backoff.advance_by(0);
    assert_eq!(backoff.connection_ended(false), 60);
}

#[test]
fn backoff_starts_over_after_a_graceful_end() {
    let mut backoff = Backoff::new();
    for _ in 0..4 {
        backoff.advance_by(0);
    }
    assert_eq!(backoff.connection_ended(true), 1);
    backoff.advance_by(0);
    assert_eq!(backoff.connection_ended(false), 2);
}

#[test]
fn backoff_from_the_clock_stays_in_bounds() {
    let mut backoff = Backoff::new();
    let mut least = 1;
    for _ in 0..20 {
        let secs = backoff.connection_ended(false);
        assert!(least <= secs && secs <= 75);
        least = (least * 2).min(60);
        backoff.advance();
    }
}

#[test]
fn url_carries_the_token() {
    assert_eq!(connect_url("wss://host/agent", "t0k"), "wss://host/agent?token=t0k");
    assert_eq!(connect_url("", ""), "?token=");
}

#[test]
fn ping_is_answered() {
    let mut m = TunnelManager::new();
    assert_eq!(
        handle_text_message(Some(ServerToAgent::Ping), &mut m),
        TextStep::Reply { message: AgentToServer::Pong }
    );
}

#[test]
fn unreadable_text_is_ignored() {
    let mut m = with_sessions(&[("a", 1)]);
    assert_eq!(handle_text_message(None, &mut m), TextStep::Unreadable);
    assert_eq!(m.active_count(), 1);
}

#[test]
fn text_opens_and_closes_sessions() {
    let mut m = with_sessions(&[("a", 1)]);
    let request = |id: &str| {
        Some(ServerToAgent::SessionOpen {
            session_id: id.to_string(),
            target_ip: "::1".to_string(),
            target_port: 22,
            stream_id: 8,
        })
    };
    assert_eq!(
        handle_text_message(request("b"), &mut m),
        TextStep::Open {
            step: OpenStep::Connect {
                addr: "::1:22".to_string(),
                timeout_secs: 5,
                pending: PendingOpen { session_id: "b".to_string(), stream_id: 8 },
            }
        }
    );
    assert_eq!(
        handle_text_message(request("a"), &mut m),
        TextStep::Open { step: OpenStep::Duplicate }
    );
    let close = || Some(ServerToAgent::SessionClose { session_id: "a".to_string() });
    assert_eq!(
        handle_text_message(close(), &mut m),
        TextStep::Closed { report: Some(closed("a", 0)) }
    );
    assert_eq!(handle_text_message(close(), &mut m), TextStep::Closed { report: None });
}

#[test]
fn text_reaches_comms_and_discovery() {
    let mut m = TunnelManager::new();
    let id = || "c".to_string();
    assert_eq!(
        handle_text_message(
            Some(ServerToAgent::CommsOpen {
                payload: CommsOpenPayload { comms_id: id(), target_url: "ws://d".to_string() }
            }),
            &mut m
        ),
        TextStep::CommsOpen { comms_id: id(), target_url: "ws://d".to_string() }
    );
    assert_eq!(
        handle_text_message(
            Some(ServerToAgent::CommsFrame {
                payload: CommsFramePayload { comms_id: id(), data: "x".to_string() }
            }),
            &mut m
        ),
        TextStep::CommsFrame { comms_id: id(), data: "x".to_string() }
    );
    assert_eq!(
        handle_text_message(
            Some(ServerToAgent::CommsClose { payload: CommsClosePayload { comms_id: id() } }),
            &mut m
        ),
        TextStep::CommsClose { comms_id: id() }
    );
    assert_eq!(
        handle_text_message(
            Some(ServerToAgent::DiscoveryTrigger {
                adapter_id: None,
                scan_type: "arp".to_string()
            }),
            &mut m
        ),
        TextStep::Discovery { adapter_id: None, scan_type: "arp".to_string() }
    );
}

#[test]
fn short_binary_frame_is_ignored() {
    let mut m = with_sessions(&[("a", 1)]);
    assert!(can_take_frame(&[0, 0, 0, 1], &m));
    assert_eq!(handle_binary_frame(&[0, 0, 0, 1, 0, 0, 0], &mut m), BinaryStep::TooShort);
    assert_eq!(m.active_count(), 1);
}

#[test]
fn binary_data_goes_to_its_session() {
    let mut m = with_sessions(&[("a", 1)]);
    let frame = build_frame(1, b"data");
    assert!(can_take_frame(&frame, &m));
    assert_eq!(
        handle_binary_frame(&frame, &mut m),
        BinaryStep::Data {
            step: DataStep::Write { session_id: "a".to_string(), payload: b"data" }
        }
    );
    let frame = build_frame(2, b"data");
    assert_eq!(handle_binary_frame(&frame, &mut m), BinaryStep::Data { step: DataStep::Drop });
    assert_eq!(m.handle_session_close("a"), Some(closed("a", 4)));
}

#[test]
fn control_frame_for_a_stream_closes_its_session() {
    for cmd in ["FIN", "RST"] {
        let mut m = with_sessions(&[("a", 1), ("b", 2)]);
        let frame = build_control_frame(cmd, 2);
        assert_eq!(
            handle_binary_frame(&frame, &mut m),
            BinaryStep::Control { report: Some(closed("b", 0)) }
        );
        assert_eq!(m.active_count(), 1);
    }
    let mut m = with_sessions(&[("a", 1)]);
    let frame = build_control_frame("SYN", 1);
    assert_eq!(handle_binary_frame(&frame, &mut m), BinaryStep::Control { report: None });
    assert_eq!(m.active_count(), 1);
}

#[test]
fn reports_carry_forwarded_bytes() {
    let mut m = with_sessions(&[("a", 1), ("b", 2)]);
    m.note_forwarded("a", 40);
    m.note_forwarded("b", 41);
    let report = |id: &str, bytes_tx| AgentToServer::SessionClosed {
        session_id: id.to_string(),
        bytes_tx,
        bytes_rx: 0,
    };
    let frame = build_control_frame("FIN", 1);
    assert_eq!(
        handle_binary_frame(&frame, &mut m),
        BinaryStep::Control { report: Some(report("a", 40)) }
    );
    assert_eq!(on_incoming(Incoming::Lost, &mut m), Step::Stop(vec![report("b", 41)]));
}

#[test]
fn control_frame_that_is_not_json_is_ignored() {
    let mut m = with_sessions(&[("a", 1)]);
    let frame = build_frame(0, b"FIN 1");
    assert_eq!(handle_binary_frame(&frame, &mut m), BinaryStep::BadControl);
    assert_eq!(m.active_count(), 1);
}

#[test]
fn incoming_messages_are_dispatched() {
    let mut m = with_sessions(&[("a", 1)]);
    assert_eq!(
        on_incoming(Incoming::Text(Some(ServerToAgent::Ping)), &mut m),
        Step::Text(TextStep::Reply { message: AgentToServer::Pong })
    );
    let frame = build_frame(1, b"xy");
    assert_eq!(
        on_incoming(Incoming::Binary(&frame), &mut m),
        Step::Binary(BinaryStep::Data {
            step: DataStep::Write { session_id: "a".to_string(), payload: b"xy" }
        })
    );
    assert_eq!(on_incoming(Incoming::Ping(vec![1, 2]), &mut m), Step::Pong(vec![1, 2]));
    assert_eq!(on_incoming(Incoming::Other, &mut m), Step::Skip);
    assert_eq!(on_incoming(Incoming::Close, &mut m), Step::Stop(vec![closed("a", 2)]));
    assert_eq!(on_incoming(Incoming::Lost, &mut m), Step::Stop(vec![]));
}
