//! Binary frames: `[4B stream id BE][4B length BE][payload]`.
//!
//! Stream 0 carries control commands as JSON; every other stream carries the
//! bytes of one tunnel.

use crate::text::{decimal, push_decimal};
use vstd::prelude::*;
use vstd::string::StringExecFns;

verus! {

/// How many bytes stand before the payload.
pub const HEADER_LEN: usize = 8;

/// The four bytes of `n`, the most significant first.
pub open spec fn be32(n: u32) -> Seq<u8> {
    seq![
        (n / 0x100_0000) as u8,
        (n / 0x1_0000 % 0x100) as u8,
        (n / 0x100 % 0x100) as u8,
        (n % 0x100) as u8,
    ]
}

/// The number whose four bytes, the most significant first, begin `s`.
pub open spec fn be32_value(s: Seq<u8>) -> u32 {
    (s[0] * 0x100_0000 + s[1] * 0x1_0000 + s[2] * 0x100 + s[3]) as u32
}

/// What the length field holds for a payload of `len` bytes: the low 32 bits.
pub open spec fn length_field(len: nat) -> u32 {
    (len % 0x1_0000_0000) as u32
}

/// The frame that carries `payload` on a stream.
pub open spec fn frame(stream_id: u32, payload: Seq<u8>) -> Seq<u8> {
    be32(stream_id) + be32(length_field(payload.len())) + payload
}

/// The JSON text of a control command.
pub open spec fn control_text(cmd: Seq<char>, stream_id: u32) -> Seq<char> {
    "{\"cmd\":\""@ + cmd + "\",\"streamId\":"@ + decimal(stream_id as nat) + "}"@
}

/// The control frame of a command for a stream.
pub open spec fn control_frame(cmd: Seq<char>, stream_id: u32) -> Seq<u8> {
    frame(0, vstd::utf8::encode_utf8(control_text(cmd, stream_id)))
}

fn push_be32(out: &mut Vec<u8>, n: u32)
    ensures
        final(out)@ == old(out)@ + be32(n),
{
    out.push((n / 0x100_0000) as u8);
    out.push((n / 0x1_0000 % 0x100) as u8);
    out.push((n / 0x100 % 0x100) as u8);
    out.push((n % 0x100) as u8);
}

/// Builds a binary frame: `[4B stream_id BE][4B length BE][payload]`.
pub fn build_frame(stream_id: u32, payload: &[u8]) -> (r: Vec<u8>)
    ensures
        r@ == frame(stream_id, payload@),
{
    let mut out: Vec<u8> = Vec::new();
    push_be32(&mut out, stream_id);
    let len: u64 = payload.len() as u64;
    push_be32(&mut out, (len % 0x1_0000_0000) as u32);
    out.extend_from_slice(payload);
    assert(out@ == frame(stream_id, payload@));
    out
}

/// Builds a control frame (stream 0) that holds a JSON command.
pub fn build_control_frame(cmd: &str, stream_id: u32) -> (r: Vec<u8>)
    ensures
        r@ == control_frame(cmd@, stream_id),
{
    let mut json = String::new();
    json.append("{\"cmd\":\"");
    json.append(cmd);
    json.append("\",\"streamId\":");
    push_decimal(&mut json, stream_id as u64);
    json.append("}");
    assert(json@ == control_text(cmd@, stream_id));
    build_frame(0, json.as_str().as_bytes())
}

/// A frame taken apart.
pub struct Frame<'a> {
    /// The stream that the frame belongs to.
    pub stream_id: u32,
    /// What the length field holds.
    pub length: u32,
    /// All bytes behind the header, whatever the length field says.
    pub payload: &'a [u8],
}

fn read_be32(data: &[u8], at: usize) -> (n: u32)
    requires
        at + 4 <= data@.len(),
    ensures
        n == be32_value(data@.skip(at as int)),
{
    data[at] as u32 * 0x100_0000 + data[at + 1] as u32 * 0x1_0000 + data[at + 2] as u32 * 0x100
        + data[at + 3] as u32
}

/// Takes a frame apart; `None` if it is shorter than a header.
pub fn parse_frame(data: &[u8]) -> (r: Option<Frame<'_>>)
    ensures
        r is Some <==> data@.len() >= HEADER_LEN,
        r matches Some(f) ==> {
            &&& f.stream_id == be32_value(data@)
            &&& f.length == be32_value(data@.skip(4))
            &&& f.payload@ == data@.skip(HEADER_LEN as int)
        },
{
    if data.len() < HEADER_LEN {
        return None;
    }
    assert(data@.skip(0) == data@);
    Some(
        Frame {
            stream_id: read_be32(data, 0),
            length: read_be32(data, 4),
            payload: &data[HEADER_LEN..data.len()],
        },
    )
}

/// Four bytes read back what was written as four bytes.
proof fn lemma_be32_round_trip(n: u32, rest: Seq<u8>)
    ensures
        be32_value(be32(n) + rest) == n,
{
}

/// A frame, taken apart, gives back the stream, the payload and the payload's
/// length.
pub proof fn law_frame_round_trip(stream_id: u32, payload: Seq<u8>)
    ensures
        frame(stream_id, payload).len() == HEADER_LEN + payload.len(),
        be32_value(frame(stream_id, payload)) == stream_id,
        be32_value(frame(stream_id, payload).skip(4)) == length_field(payload.len()),
        payload.len() < 0x1_0000_0000 ==> be32_value(frame(stream_id, payload).skip(4))
            == payload.len(),
        frame(stream_id, payload).skip(HEADER_LEN as int) == payload,
{
    let length = be32(length_field(payload.len()));
    assert(frame(stream_id, payload) == be32(stream_id) + (length + payload));
    lemma_be32_round_trip(stream_id, length + payload);
    assert(frame(stream_id, payload).skip(4) == length + payload);
    lemma_be32_round_trip(length_field(payload.len()), payload);
}

} // verus!
