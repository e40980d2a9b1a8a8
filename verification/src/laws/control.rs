//! Laws of control commands.

use crate::control::{command, command_of, is_upper, Command, ControlCommand, JsonMember};
use vstd::prelude::*;

verus! {

/// A command for a stream is about that stream, whatever its number.
pub proof fn law_command_names_its_stream(name: Seq<char>, stream_id: u32)
    ensures
        command(name, stream_id).stream() == stream_id,
        command(name, stream_id).name == Some(name),
        command(name, stream_id).stream_id == Some(stream_id as u64),
{
}

/// The number of a command counts by its low 32 bits; without a number the command
/// is about stream 0.
pub proof fn law_stream_is_low_bits(cmd: Command)
    ensures
        cmd.stream_id matches Some(n) ==> cmd.stream() == n & 0xffff_ffff,
        cmd.stream_id matches Some(n) ==> n <= u32::MAX ==> cmd.stream() == n,
        cmd.stream_id is None ==> cmd.stream() == 0,
{
    if let Some(n) = cmd.stream_id {
        assert(n % 0x1_0000_0000 == n & 0xffff_ffff) by (bit_vector);
    }
}

/// Just `FIN` and `RST` end a stream.
pub proof fn law_fin_and_rst_end(cmd: Command)
    ensures
        cmd.ends_stream() <==> (cmd.name matches Some(name) && (name == seq!['F', 'I', 'N'] || name
            == seq!['R', 'S', 'T'])),
{
    reveal_strlit("FIN");
    reveal_strlit("RST");
    assert("FIN"@ == seq!['F', 'I', 'N']);
    assert("RST"@ == seq!['R', 'S', 'T']);
}

/// The members `cmd` and `streamId` of an object are read as they stand, whatever
/// else the object holds.
pub proof fn law_command_is_read(
    members: Map<Seq<char>, JsonMember>,
    name: Seq<char>,
    stream_id: u64,
)
    requires
        members.contains_key(seq!['c', 'm', 'd']),
        members[seq!['c', 'm', 'd']] == JsonMember::Text(name),
        members.contains_key(seq!['s', 't', 'r', 'e', 'a', 'm', 'I', 'd']),
        members[seq!['s', 't', 'r', 'e', 'a', 'm', 'I', 'd']] == JsonMember::Natural(stream_id),
    ensures
        command_of(members).name == Some(name),
        command_of(members).stream_id == Some(stream_id),
{
    lemma_member_names();
}

/// A member that is missing, or of another type, counts as not given.
pub proof fn law_member_of_other_type(members: Map<Seq<char>, JsonMember>)
    ensures
        command_of(members).name is None <==> (!members.contains_key(seq!['c', 'm', 'd']) || !(
        members[seq!['c', 'm', 'd']] is Text)),
        command_of(members).stream_id is None <==> (!members.contains_key(
            seq!['s', 't', 'r', 'e', 'a', 'm', 'I', 'd'],
        ) || !(members[seq!['s', 't', 'r', 'e', 'a', 'm', 'I', 'd']] is Natural)),
{
    lemma_member_names();
}

/// The other members of an object do not matter.
pub proof fn law_other_members_idle(
    members: Map<Seq<char>, JsonMember>,
    key: Seq<char>,
    value: JsonMember,
)
    requires
        key != seq!['c', 'm', 'd'],
        key != seq!['s', 't', 'r', 'e', 'a', 'm', 'I', 'd'],
    ensures
        command_of(members.insert(key, value)) == command_of(members),
{
    lemma_member_names();
}

/// A text is in capital letters if each of its characters is one.
pub proof fn law_capital_letters(s: Seq<char>, c: char)
    ensures
        is_upper(Seq::empty()),
        is_upper(s.push(c)) <==> is_upper(s) && 'A' <= c <= 'Z',
{
    let longer = s.push(c);
    assert(longer[s.len() as int] == c);
    if is_upper(longer) {
        assert forall|i: int| 0 <= i < s.len() implies 'A' <= #[trigger] s[i] <= 'Z' by {
            assert(longer[i] == s[i]);
        }
    }
}

/// The view of a command holds what the command holds.
pub proof fn law_command_view(c: ControlCommand)
    ensures
        c@.stream_id == c.stream_id,
        c@.name is Some <==> c.cmd is Some,
        c.cmd matches Some(s) ==> c@.name == Some(s@),
{
}

pub(crate) proof fn lemma_member_names()
    ensures
        "cmd"@ == seq!['c', 'm', 'd'],
        "streamId"@ == seq!['s', 't', 'r', 'e', 'a', 'm', 'I', 'd'],
{
    reveal_strlit("cmd");
    reveal_strlit("streamId");
    assert("cmd"@ == seq!['c', 'm', 'd']);
    assert("streamId"@ == seq!['s', 't', 'r', 'e', 'a', 'm', 'I', 'd']);
}

} // verus!
