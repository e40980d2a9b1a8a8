use nucleus_agent::control::{read_control, ControlCommand};
use nucleus_agent::frame::build_control_frame;

fn command(cmd: Option<&str>, stream_id: Option<u64>) -> Option<ControlCommand> {
    Some(ControlCommand { cmd: cmd.map(|s| s.to_string()), stream_id })
}

#[test]
fn reads_command_and_stream() {
    assert_eq!(read_control(br#"{"cmd":"RST","streamId":7}"#), command(Some("RST"), Some(7)));
    assert_eq!(
        read_control(b" { \"streamId\" : 18446744073709551615, \"x\": [1], \"cmd\": \"a\\n\" } "),
        command(Some("a\n"), Some(u64::MAX))
    );
}

#[test]
fn missing_members_and_other_types_are_none() {
    assert_eq!(read_control(b"{}"), command(None, None));
    assert_eq!(read_control(br#"{"cmd":3,"streamId":"3"}"#), command(None, None));
    assert_eq!(read_control(br#"{"cmd":"FIN","streamId":-1}"#), command(Some("FIN"), None));
    assert_eq!(read_control(br#"{"cmd":"FIN","streamId":1.5}"#), command(Some("FIN"), None));
    assert_eq!(read_control(br#"{"cmd":null,"streamId":1e0}"#), command(None, None));
    assert_eq!(read_control(br#"["cmd","streamId"]"#), command(None, None));
    assert_eq!(read_control(b"12"), command(None, None));
}

#[test]
fn a_later_member_replaces_an_earlier_one() {
    assert_eq!(read_control(br#"{"cmd":"FIN","cmd":"SYN"}"#), command(Some("SYN"), None));
}

#[test]
fn bytes_that_are_not_json_are_refused() {
    assert_eq!(read_control(b""), None);
    assert_eq!(read_control(b"{\"cmd\":\"FIN\""), None);
    assert_eq!(read_control(b"{} {}"), None);
    assert_eq!(read_control(&[0xFF, 0xFE]), None);
    assert_eq!(read_control(b"{\"cmd\":\"\xFF\"}"), None);
}

#[test]
fn what_is_written_is_read_back() {
    for cmd in ["SYN", "FIN", "RST", "", "ABCDEFGHIJKLMNOPQRSTUVWXYZ"] {
        for stream in [0, 1, 9, 10, 4096, u32::MAX] {
            let frame = build_control_frame(cmd, stream);
            assert_eq!(read_control(&frame[8..]), command(Some(cmd), Some(stream as u64)));
        }
    }
}
