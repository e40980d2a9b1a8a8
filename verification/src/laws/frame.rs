//! Laws of frames.

use super::text::law_decimal;
use crate::frame::{be32, be32_value, control_frame, control_text, frame, length_field};
use crate::text::{decimal, digits_value};
use vstd::prelude::*;

verus! {

/// Four bytes stand for a number in base 256, the first byte for the most.
pub proof fn law_first_byte_weighs_most(s: Seq<u8>)
    requires
        s.len() >= 4,
    ensures
        be32_value(s) / 0x100_0000 == s[0],
        be32_value(s) / 0x1_0000 % 0x100 == s[1],
        be32_value(s) / 0x100 % 0x100 == s[2],
        be32_value(s) % 0x100 == s[3],
{
}

/// A frame begins with the stream in four bytes, the first of which weighs most,
/// then has the payload's length in the same way, then the payload and no more.
pub proof fn law_frame_layout(stream_id: u32, payload: Seq<u8>)
    ensures
        ({
            let f = frame(stream_id, payload);
            &&& f.len() == 8 + payload.len()
            &&& f[0] * 0x100_0000 + f[1] * 0x1_0000 + f[2] * 0x100 + f[3] == stream_id
            &&& f[4] * 0x100_0000 + f[5] * 0x1_0000 + f[6] * 0x100 + f[7] == payload.len()
                % 0x1_0000_0000
            &&& f.skip(8) == payload
        }),
{
    let f = frame(stream_id, payload);
    let length = length_field(payload.len());
    assert(f == be32(stream_id) + (be32(length) + payload));
    assert(f.skip(8) == payload);
    assert(be32(stream_id).len() == 4 && be32(length).len() == 4);
    assert(f[4] == be32(length)[0] && f[5] == be32(length)[1] && f[6] == be32(length)[2] && f[7]
        == be32(length)[3]);
}

/// Frames for different streams, or with different payloads, differ.
pub proof fn law_frames_differ(a: u32, p: Seq<u8>, b: u32, q: Seq<u8>)
    requires
        frame(a, p) == frame(b, q),
    ensures
        a == b,
        p == q,
{
    law_frame_layout(a, p);
    law_frame_layout(b, q);
}

/// The text of a command is an object of two members: `cmd` holds the command, in
/// quotes, and `streamId` a number in digits alone, without a leading zero, whose
/// value is the stream.
pub proof fn law_control_text_layout(cmd: Seq<char>, stream_id: u32) -> (digits: Seq<char>)
    ensures
        control_text(cmd, stream_id) == seq!['{', '"', 'c', 'm', 'd', '"', ':', '"'] + cmd + seq![
            '"',
            ',',
            '"',
            's',
            't',
            'r',
            'e',
            'a',
            'm',
            'I',
            'd',
            '"',
            ':',
        ] + digits + seq!['}'],
        digits.len() > 0,
        forall|i: int| 0 <= i < digits.len() ==> '0' <= #[trigger] digits[i] <= '9',
        digits_value(digits) == stream_id,
        stream_id > 0 ==> digits[0] != '0',
        stream_id == 0 ==> digits == seq!['0'],
{
    reveal_strlit("{\"cmd\":\"");
    reveal_strlit("\",\"streamId\":");
    reveal_strlit("}");
    assert("{\"cmd\":\""@ == seq!['{', '"', 'c', 'm', 'd', '"', ':', '"']);
    assert("\",\"streamId\":"@ == seq![
        '"',
        ',',
        '"',
        's',
        't',
        'r',
        'e',
        'a',
        'm',
        'I',
        'd',
        '"',
        ':',
    ]);
    assert("}"@ == seq!['}']);
    let digits = decimal(stream_id as nat);
    law_decimal(stream_id as nat);
    if stream_id == 0 {
        assert(digits == decimal(0));
    }
    digits
}

/// A control frame is for stream 0 and carries the text of its command, with its
/// length.
pub proof fn law_control_frame_layout(cmd: Seq<char>, stream_id: u32)
    ensures
        ({
            let f = control_frame(cmd, stream_id);
            &&& f.len() >= 8
            &&& f[0] == 0 && f[1] == 0 && f[2] == 0 && f[3] == 0
            &&& f[4] * 0x100_0000 + f[5] * 0x1_0000 + f[6] * 0x100 + f[7] == (f.len() - 8)
                % 0x1_0000_0000
            &&& f.skip(8) == vstd::utf8::encode_utf8(control_text(cmd, stream_id))
        }),
{
    law_frame_layout(0, vstd::utf8::encode_utf8(control_text(cmd, stream_id)));
}

} // verus!
