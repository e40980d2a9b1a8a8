use nucleus_agent::frame::{build_control_frame, build_frame, parse_frame, HEADER_LEN};

#[test]
fn frame_has_header_and_payload() {
    assert_eq!(
        build_frame(0x01020304, b"abc"),
        vec![1, 2, 3, 4, 0, 0, 0, 3, b'a', b'b', b'c']
    );
    assert_eq!(build_frame(u32::MAX, b""), vec![255, 255, 255, 255, 0, 0, 0, 0]);
}

#[test]
fn length_field_is_big_endian() {
    let frame = build_frame(7, &vec![9u8; 0x012345]);
    assert_eq!(frame.len(), HEADER_LEN + 0x012345);
    assert_eq!(frame[..8], [0, 0, 0, 7, 0, 0x01, 0x23, 0x45]);
}

#[test]
fn frame_round_trip() {
    for (id, payload) in [(0u32, vec![]), (1, vec![1u8, 2, 3]), (0xFEDCBA98, vec![0; 70000])] {
        let frame = build_frame(id, &payload);
        let f = parse_frame(&frame).unwrap();
        assert_eq!(f.stream_id, id);
        assert_eq!(f.length as usize, payload.len());
        assert_eq!(f.payload, payload.as_slice());
    }
}

#[test]
fn short_frames_are_refused() {
    assert!(parse_frame(&[]).is_none());
    assert!(parse_frame(&[0; 7]).is_none());
    assert!(parse_frame(&[0; 8]).is_some());
}

#[test]
fn payload_is_all_behind_the_header() {
    let f = parse_frame(&[0, 0, 0, 5, 0, 0, 0, 1, 10, 11, 12]).unwrap();
    assert_eq!(f.length, 1);
    assert_eq!(f.payload, &[10, 11, 12]);
}

#[test]
fn control_frame_is_json_on_stream_zero() {
    let frame = build_control_frame("FIN", 42);
    let f = parse_frame(&frame).unwrap();
    assert_eq!(f.stream_id, 0);
    assert_eq!(f.payload, br#"{"cmd":"FIN","streamId":42}"#);
    assert_eq!(f.length as usize, f.payload.len());
}

#[test]
fn control_frame_holds_the_command_as_utf8() {
    let frame = build_control_frame("\u{e9}", u32::MAX);
    assert_eq!(&frame[8..], "{\"cmd\":\"\u{e9}\",\"streamId\":4294967295}".as_bytes());
}
