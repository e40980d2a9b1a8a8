//! Control commands: the JSON payloads of stream 0.

use crate::frame::control_text;
use crate::messages::opt_text;
use vstd::prelude::*;

verus! {

/// A parsed JSON document.
#[verifier::external_type_specification]
#[verifier::external_body]
pub struct ExJsonValue(serde_json::Value);

/// Why a document could not be parsed.
#[verifier::external_type_specification]
#[verifier::external_body]
pub struct ExJsonError(serde_json::Error);

/// What stands in a member of a JSON object, as far as control commands go.
pub enum JsonMember {
    /// A string.
    Text(Seq<char>),
    /// A number that is an integer from 0 to `u64::MAX`.
    Natural(u64),
    /// Any other value.
    Other,
}

/// The members of a JSON document that is an object; none for any other.
pub uninterp spec fn json_members(v: serde_json::Value) -> Map<Seq<char>, JsonMember>;

/// What `serde_json::from_slice` makes of the bytes, by its members; `None` if
/// the bytes are not one JSON document.
pub uninterp spec fn json_document(bytes: Seq<u8>) -> Option<Map<Seq<char>, JsonMember>>;

/// Whether `s` is made of the letters `A` to `Z` alone.
pub open spec fn is_upper(s: Seq<char>) -> bool {
    forall|i: int| 0 <= i < s.len() ==> 'A' <= #[trigger] s[i] <= 'Z'
}

/// The members of the JSON object that names a command and a stream.
pub open spec fn control_members(cmd: Seq<char>, stream_id: u32) -> Map<Seq<char>, JsonMember> {
    map!["cmd"@ => JsonMember::Text(cmd), "streamId"@ => JsonMember::Natural(stream_id as u64)]
}

/// If the bytes are the text of a command in capital letters, the outcome is a
/// document with just the two members that were written.
pub open spec fn command_kept(
    bytes: Seq<u8>,
    r: Result<serde_json::Value, serde_json::Error>,
) -> bool {
    forall|cmd: Seq<char>, stream_id: u32|
        #![trigger control_text(cmd, stream_id)]
        is_upper(cmd) && bytes == vstd::utf8::encode_utf8(control_text(cmd, stream_id))
            ==> (r matches Ok(v) && json_members(v) == control_members(cmd, stream_id))
}

/// Calls `serde_json::from_slice` for a `serde_json::Value`.
///
/// Claimed: the outcome is a function of the bytes. Also that the text of a
/// command in capital letters, as this crate writes it, is a document with just
/// the two members that were written.
#[verifier::external_body]
fn parse_json(bytes: &[u8]) -> (r: Result<serde_json::Value, serde_json::Error>)
    ensures
        match r {
            Ok(v) => json_document(bytes@) == Some(json_members(v)),
            Err(_) => json_document(bytes@) is None,
        },
        command_kept(bytes@, r),
{
    serde_json::from_slice(bytes)
}

/// Calls `serde_json::Value::get` with a string and hands the member out by
/// `serde_json::Value::as_str`.
///
/// Claimed: the string that stands in that member; `None` if there is no such
/// member or it is not a string.
#[verifier::external_body]
fn text_member<'a>(v: &'a serde_json::Value, key: &str) -> (r: Option<&'a str>)
    ensures
        match r {
            Some(s) => json_members(*v).contains_key(key@) && json_members(*v)[key@]
                == JsonMember::Text(s@),
            None => !json_members(*v).contains_key(key@) || !(json_members(*v)[key@] is Text),
        },
{
    v.get(key).and_then(serde_json::Value::as_str)
}

/// Calls `serde_json::Value::get` with a string and hands the member out by
/// `serde_json::Value::as_u64`.
///
/// Claimed: the number that stands in that member; `None` if there is no such
/// member or it is not an integer from 0 to `u64::MAX`.
#[verifier::external_body]
fn natural_member(v: &serde_json::Value, key: &str) -> (r: Option<u64>)
    ensures
        match r {
            Some(n) => json_members(*v).contains_key(key@) && json_members(*v)[key@]
                == JsonMember::Natural(n),
            None => !json_members(*v).contains_key(key@) || !(json_members(*v)[key@] is Natural),
        },
{
    v.get(key).and_then(serde_json::Value::as_u64)
}

/// A control command as it was read: each member that is missing or of another
/// type is `None`.
#[derive(Debug, Clone, PartialEq, Eq)]
pub struct ControlCommand {
    pub cmd: Option<String>,
    pub stream_id: Option<u64>,
}

/// The text in a member; `None` if it is missing or no text.
pub open spec fn member_text(members: Map<Seq<char>, JsonMember>, key: Seq<char>) -> Option<
    Seq<char>,
> {
    if members.contains_key(key) {
        match members[key] {
            JsonMember::Text(s) => Some(s),
            _ => None,
        }
    } else {
        None
    }
}

/// The number in a member; `None` if it is missing or no natural number.
pub open spec fn member_natural(members: Map<Seq<char>, JsonMember>, key: Seq<char>) -> Option<
    u64,
> {
    if members.contains_key(key) {
        match members[key] {
            JsonMember::Natural(n) => Some(n),
            _ => None,
        }
    } else {
        None
    }
}

/// The view of a `ControlCommand`.
pub struct Command {
    pub name: Option<Seq<char>>,
    pub stream_id: Option<u64>,
}

impl View for ControlCommand {
    type V = Command;

    open spec fn view(&self) -> Command {
        Command { name: opt_text(self.cmd), stream_id: self.stream_id }
    }
}

impl Command {
    /// The stream that a command is about: the low 32 bits of the number given,
    /// 0 if none is.
    pub open spec fn stream(self) -> u32 {
        match self.stream_id {
            Some(n) => (n % 0x1_0000_0000) as u32,
            None => 0,
        }
    }

    /// Whether the command ends its stream.
    pub open spec fn ends_stream(self) -> bool {
        self.name == Some("FIN"@) || self.name == Some("RST"@)
    }
}

/// The command that a JSON object holds: its `cmd` and its `streamId`.
pub open spec fn command_of(members: Map<Seq<char>, JsonMember>) -> Command {
    Command {
        name: member_text(members, "cmd"@),
        stream_id: member_natural(members, "streamId"@),
    }
}

/// A command for a stream.
pub open spec fn command(name: Seq<char>, stream_id: u32) -> Command {
    Command { name: Some(name), stream_id: Some(stream_id as u64) }
}

/// Reads the payload of a control frame; `None` if it is not JSON.
///
/// A payload that was written for a command in capital letters reads as that
/// command for that stream.
pub fn read_control(payload: &[u8]) -> (r: Option<ControlCommand>)
    ensures
        match json_document(payload@) {
            Some(members) => r matches Some(c) && c@ == command_of(members),
            None => r is None,
        },
        forall|cmd: Seq<char>, stream_id: u32|
            #![trigger control_text(cmd, stream_id)]
            is_upper(cmd) && payload@ == vstd::utf8::encode_utf8(control_text(cmd, stream_id))
                ==> (r matches Some(c) && c@ == command(cmd, stream_id)),
{
    match parse_json(payload) {
        Ok(v) => {
            let cmd: Option<String> = match text_member(&v, "cmd") {
                Some(s) => Some(s.to_owned()),
                None => None,
            };
            let stream_id: Option<u64> = natural_member(&v, "streamId");
            proof {
                reveal_strlit("cmd");
                reveal_strlit("streamId");
                assert("cmd"@.len() != "streamId"@.len());
            }
            Some(ControlCommand { cmd, stream_id })
        },
        Err(_) => None,
    }
}

} // verus!
