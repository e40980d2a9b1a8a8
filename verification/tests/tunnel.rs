use nucleus_agent::control::ControlCommand;
use nucleus_agent::frame::{build_control_frame, build_frame, parse_frame};
use nucleus_agent::messages::AgentToServer;
use nucleus_agent::tunnel::{
    ConnectOutcome, DataStep, OpenStep, PendingOpen, ReadEvent, ReaderStep, TcpReader,
    TunnelManager, TCP_BUF_SIZE,
};

fn pending(id: &str, stream_id: u32) -> PendingOpen {
    PendingOpen { session_id: id.to_string(), stream_id }
}

fn open(m: &mut TunnelManager, id: &str, stream_id: u32) {
    let step = m.handle_session_open(id.to_string(), "10.0.0.1".to_string(), 80, stream_id);
    match step {
        OpenStep::Connect { pending, .. } => {
            let message = m.finish_session_open(pending, ConnectOutcome::Connected);
            assert_eq!(
                message,
                AgentToServer::SessionReady { session_id: id.to_string(), stream_id }
            );
        }
        OpenStep::Duplicate => panic!("{} exists", id),
    }
}

fn closed(id: &str, bytes_rx: u64) -> Option<AgentToServer> {
    Some(AgentToServer::SessionClosed { session_id: id.to_string(), bytes_tx: 0, bytes_rx })
}

fn control(cmd: &str, stream_id: u64) -> ControlCommand {
    ControlCommand { cmd: Some(cmd.to_string()), stream_id: Some(stream_id) }
}

#[test]
fn starts_empty() {
    let mut m = TunnelManager::new();
    assert_eq!(m.active_count(), 0);
    assert!(m.close_all().is_empty());
}

#[test]
fn open_asks_for_a_connection() {
    let m = TunnelManager::new();
    assert_eq!(
        m.handle_session_open("s".to_string(), "192.168.1.9".to_string(), 65535, 3),
        OpenStep::Connect {
            addr: "192.168.1.9:65535".to_string(),
            timeout_secs: 5,
            pending: pending("s", 3),
        }
    );
}

#[test]
fn duplicate_open_is_ignored() {
    let mut m = TunnelManager::new();
    open(&mut m, "s", 3);
    assert_eq!(
        m.handle_session_open("s".to_string(), "1.1.1.1".to_string(), 1, 4),
        OpenStep::Duplicate
    );
    assert_eq!(m.active_count(), 1);
}

#[test]
fn failed_connections_are_reported_and_change_nothing() {
    let mut m = TunnelManager::new();
    assert_eq!(
        m.finish_session_open(
            pending("s", 3),
            ConnectOutcome::Failed { error: "refused".to_string() }
        ),
        AgentToServer::SessionError {
            session_id: "s".to_string(),
            error: "TCP connect failed: refused".to_string(),
        }
    );
    assert_eq!(
        m.finish_session_open(pending("s", 3), ConnectOutcome::TimedOut),
        AgentToServer::SessionError {
            session_id: "s".to_string(),
            error: "TCP connect timed out (5s)".to_string(),
        }
    );
    assert_eq!(m.active_count(), 0);
    assert_eq!(m.handle_data(3, b"x"), DataStep::Drop);
}

#[test]
fn close_reports_the_bytes_received() {
    let mut m = TunnelManager::new();
    open(&mut m, "s", 3);
    for chunk in [&b"abc"[..], b"", b"defgh"] {
        assert!(m.can_receive(3, chunk.len()));
        assert_eq!(
            m.handle_data(3, chunk),
            DataStep::Write { session_id: "s".to_string(), payload: chunk }
        );
    }
    assert_eq!(m.handle_session_close("s"), closed("s", 8));
}

#[test]
fn close_is_final() {
    let mut m = TunnelManager::new();
    open(&mut m, "s", 3);
    assert_eq!(m.handle_session_close("t"), None);
    assert_eq!(m.handle_session_close("s"), closed("s", 0));
    assert_eq!(m.handle_session_close("s"), None);
    assert_eq!(m.handle_data(3, b"x"), DataStep::Drop);
    assert_eq!(m.active_count(), 0);
    open(&mut m, "s", 3);
}

#[test]
fn close_leaves_other_sessions_alone() {
    let mut m = TunnelManager::new();
    open(&mut m, "a", 1);
    open(&mut m, "b", 2);
    open(&mut m, "c", 3);
    m.handle_data(3, b"four");
    assert_eq!(m.close_session_on_error("b"), closed("b", 0));
    assert_eq!(m.active_count(), 2);
    assert_eq!(
        m.handle_data(1, b"x"),
        DataStep::Write { session_id: "a".to_string(), payload: b"x" }
    );
    assert_eq!(m.handle_session_close("c"), closed("c", 4));
    assert_eq!(m.handle_session_close("a"), closed("a", 1));
}

#[test]
fn a_stream_leads_to_the_session_opened_last_on_it() {
    let mut m = TunnelManager::new();
    open(&mut m, "a", 1);
    open(&mut m, "b", 1);
    assert_eq!(
        m.handle_data(1, b"x"),
        DataStep::Write { session_id: "b".to_string(), payload: b"x" }
    );
    assert_eq!(m.handle_session_close("a"), closed("a", 0));
    assert_eq!(m.handle_data(1, b"x"), DataStep::Drop);
    assert_eq!(m.handle_session_close("b"), closed("b", 1));
}

#[test]
fn fin_and_rst_close_the_session_of_their_stream() {
    let mut m = TunnelManager::new();
    open(&mut m, "a", 1);
    open(&mut m, "b", 2);
    assert_eq!(m.handle_control(&control("FIN", 1)), closed("a", 0));
    assert_eq!(m.handle_control(&control("FIN", 1)), None);
    assert_eq!(m.handle_control(&control("RST", 2)), closed("b", 0));
    assert_eq!(m.active_count(), 0);
}

#[test]
fn other_commands_do_nothing() {
    let mut m = TunnelManager::new();
    open(&mut m, "a", 1);
    assert_eq!(m.handle_control(&control("SYN", 1)), None);
    assert_eq!(m.handle_control(&control("fin", 1)), None);
    assert_eq!(m.handle_control(&control("", 1)), None);
    assert_eq!(m.handle_control(&control("FIN", 9)), None);
    assert_eq!(m.handle_control(&ControlCommand { cmd: None, stream_id: Some(1) }), None);
    assert_eq!(m.active_count(), 1);
}

#[test]
fn stream_of_a_command_is_taken_in_32_bits() {
    let mut m = TunnelManager::new();
    open(&mut m, "zero", 0);
    open(&mut m, "five", 5);
    assert_eq!(m.handle_control(&control("FIN", 0x7_0000_0005)), closed("five", 0));
    let no_stream = ControlCommand { cmd: Some("RST".to_string()), stream_id: None };
    assert_eq!(m.handle_control(&no_stream), closed("zero", 0));
}

#[test]
fn close_all_reports_each_session_once() {
    let mut m = TunnelManager::new();
    open(&mut m, "a", 1);
    open(&mut m, "b", 2);
    open(&mut m, "c", 3);
    m.handle_data(2, b"xyz");
    let reports = m.close_all();
    assert_eq!(reports.len(), 3);
    for (id, n) in [("a", 0), ("b", 3), ("c", 0)] {
        assert!(reports.contains(&closed(id, n).unwrap()));
    }
    assert_eq!(m.active_count(), 0);
    for stream in 1..=3 {
        assert_eq!(m.handle_data(stream, b"x"), DataStep::Drop);
    }
}

#[test]
fn reader_frames_what_it_reads_and_reports_it_at_the_end() {
    let mut reader = TcpReader::new(9, "s".to_string());
    let mut sent = Vec::new();
    for chunk in [&b"hello "[..], b"world", &[0u8; 100]] {
        assert!(reader.can_read(chunk.len()));
        match reader.on_read(ReadEvent::Data(chunk)) {
            ReaderStep::Forward { frame } => {
                assert_eq!(frame, build_frame(9, chunk));
                sent.extend_from_slice(parse_frame(&frame).unwrap().payload);
            }
            other => panic!("{:?}", other),
        }
    }
    assert_eq!(sent.len(), 111);
    assert_eq!(&sent[..11], b"hello world");
    assert_eq!(
        reader.on_read(ReadEvent::Data(b"")),
        ReaderStep::Finish {
            fin: build_control_frame("FIN", 9),
            closed: AgentToServer::SessionClosed {
                session_id: "s".to_string(),
                bytes_tx: 111,
                bytes_rx: 0,
            },
        }
    );
}

fn closed_both(id: &str, bytes_tx: u64, bytes_rx: u64) -> Option<AgentToServer> {
    Some(AgentToServer::SessionClosed { session_id: id.to_string(), bytes_tx, bytes_rx })
}

#[test]
fn close_reports_both_directions() {
    let mut m = TunnelManager::new();
    open(&mut m, "s", 3);
    let mut reader = TcpReader::new(3, "s".to_string());
    assert_eq!(reader.bytes_tx(), 0);
    for (chunk, count) in [(&b"hello"[..], 5), (b" world!", 12)] {
        reader.on_read(ReadEvent::Data(chunk));
        assert_eq!(reader.bytes_tx(), count);
        m.note_forwarded("s", reader.bytes_tx());
        m.handle_data(3, b"abc");
    }
    assert_eq!(m.handle_session_close("s"), closed_both("s", 12, 6));
}

#[test]
fn every_way_to_close_reports_forwarded_bytes() {
    let mut m = TunnelManager::new();
    for (id, stream) in [("fin", 1), ("rst", 2), ("error", 3), ("x", 4), ("y", 5)] {
        open(&mut m, id, stream);
        m.note_forwarded(id, 100 + stream as u64);
        m.handle_data(stream, b"12");
    }
    assert_eq!(m.handle_control(&control("FIN", 1)), closed_both("fin", 101, 2));
    assert_eq!(m.handle_control(&control("RST", 2)), closed_both("rst", 102, 2));
    assert_eq!(m.close_session_on_error("error"), closed_both("error", 103, 2));
    let reports = m.close_all();
    assert_eq!(reports.len(), 2);
    assert!(reports.contains(&closed_both("x", 104, 2).unwrap()));
    assert!(reports.contains(&closed_both("y", 105, 2).unwrap()));
}

#[test]
fn notes_touch_their_session_only_and_the_last_counts() {
    let mut m = TunnelManager::new();
    open(&mut m, "a", 1);
    open(&mut m, "b", 2);
    m.note_forwarded("a", 7);
    m.note_forwarded("nobody", 9);
    m.note_forwarded("a", u64::MAX);
    assert_eq!(m.active_count(), 2);
    assert_eq!(
        m.handle_data(1, b"x"),
        DataStep::Write { session_id: "a".to_string(), payload: b"x" }
    );
    assert_eq!(m.handle_session_close("b"), closed_both("b", 0, 0));
    assert_eq!(m.handle_session_close("a"), closed_both("a", u64::MAX, 1));
    m.note_forwarded("a", 3);
    assert_eq!(m.handle_session_close("a"), None);
}

#[test]
fn an_error_ends_like_the_end_of_the_stream() {
    let run = |last: ReadEvent| {
        let mut reader = TcpReader::new(6, "s".to_string());
        reader.on_read(ReadEvent::Data(b"some"));
        reader.on_read(ReadEvent::Data(b" bytes"));
        reader.on_read(last)
    };
    assert_eq!(run(ReadEvent::Data(b"")), run(ReadEvent::Failed));
}

#[test]
fn reader_ends_on_an_error_and_stops_when_nothing_can_be_sent() {
    let mut reader = TcpReader::new(1, "s".to_string());
    assert_eq!(reader.on_read(ReadEvent::Unsent), ReaderStep::Stop);
    assert_eq!(
        reader.on_read(ReadEvent::Failed),
        ReaderStep::Finish {
            fin: build_control_frame("FIN", 1),
            closed: AgentToServer::SessionClosed {
                session_id: "s".to_string(),
                bytes_tx: 0,
                bytes_rx: 0,
            },
        }
    );
}

#[test]
fn reader_takes_32_kilobytes_at_a_time() {
    assert_eq!(TCP_BUF_SIZE, 32 * 1024);
}
