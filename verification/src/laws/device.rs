//! Laws of the device's state: adapters, disks and the version.

use super::text::{
    law_first_piece, law_one_piece, law_trim, law_trim_ignores_white_space, law_trim_splits,
};
use crate::health::{
    adapters_of, disk_usage, disk_usage_fits, ip_info_of, is_root, root_disk, skipped, version_name,
    DiskReading, Interface,
};
use crate::text::{has_prefix, pieces, trimmed, white_space};
use vstd::prelude::*;

verus! {

/// An interface whose state is `up`, with any white space around it, is up.
pub proof fn law_up_is_up(
    reading: Interface,
    modes: Map<Seq<char>, Seq<char>>,
    before: Seq<char>,
    after: Seq<char>,
)
    requires
        reading.operstate == Some(before + seq!['u', 'p'] + after),
        forall|i: int| 0 <= i < before.len() ==> white_space(#[trigger] before[i]),
        forall|i: int| 0 <= i < after.len() ==> white_space(#[trigger] after[i]),
    ensures
        reading.adapter(modes).is_up,
{
    reveal_strlit("up");
    assert("up"@ == seq!['u', 'p']);
    law_trim(before, seq!['u', 'p'], after);
}

/// An interface is up only if its state is `up`, with nothing but white space around
/// it: with any other state, or none that could be read, it is not.
pub proof fn law_up_only_if_up(reading: Interface, modes: Map<Seq<char>, Seq<char>>) -> (around: (
    Seq<char>,
    Seq<char>,
))
    requires
        reading.adapter(modes).is_up,
    ensures
        reading.operstate == Some(around.0 + seq!['u', 'p'] + around.1),
        forall|i: int| 0 <= i < around.0.len() ==> white_space(#[trigger] around.0[i]),
        forall|i: int| 0 <= i < around.1.len() ==> white_space(#[trigger] around.1[i]),
{
    reveal_strlit("up");
    assert("up"@ == seq!['u', 'p']);
    let s = reading.operstate->0;
    let around = law_trim_splits(s);
    around
}

/// A state that is not `up` once white space is taken off its ends is not up.
pub proof fn law_other_state_is_not_up(
    reading: Interface,
    modes: Map<Seq<char>, Seq<char>>,
    state: Seq<char>,
)
    requires
        reading.operstate == Some(state),
        trimmed(state) != seq!['u', 'p'],
    ensures
        !reading.adapter(modes).is_up,
{
    reveal_strlit("up");
    assert("up"@ == seq!['u', 'p']);
}

/// White space around the state or the hardware address of an interface changes
/// nothing in what is reported of it.
pub proof fn law_white_space_around_readings_idle(
    reading: Interface,
    modes: Map<Seq<char>, Seq<char>>,
    state: Seq<char>,
    address: Seq<char>,
    before: Seq<char>,
    after: Seq<char>,
)
    requires
        forall|i: int| 0 <= i < before.len() ==> white_space(#[trigger] before[i]),
        forall|i: int| 0 <= i < after.len() ==> white_space(#[trigger] after[i]),
    ensures
        (Interface { operstate: Some(before + state + after), ..reading }).adapter(modes)
            == (Interface { operstate: Some(state), ..reading }).adapter(modes),
        (Interface { address: Some(before + address + after), ..reading }).adapter(modes)
            == (Interface { address: Some(address), ..reading }).adapter(modes),
{
    law_trim_ignores_white_space(before, state, after);
    law_trim_ignores_white_space(before, address, after);
}

/// The hardware address is reported without the white space around it, unless it is
/// all zeros or could not be read.
pub proof fn law_hardware_address(
    reading: Interface,
    modes: Map<Seq<char>, Seq<char>>,
    before: Seq<char>,
    address: Seq<char>,
    after: Seq<char>,
)
    requires
        forall|i: int| 0 <= i < before.len() ==> white_space(#[trigger] before[i]),
        forall|i: int| 0 <= i < after.len() ==> white_space(#[trigger] after[i]),
        address.len() > 0 ==> !white_space(address[0]) && !white_space(address[address.len() - 1]),
    ensures
        reading.address == Some(before + address + after) && address != "00:00:00:00:00:00"@
            ==> reading.adapter(modes).mac_address == Some(address),
        reading.address == Some(before + address + after) && address == "00:00:00:00:00:00"@
            ==> reading.adapter(modes).mac_address is None,
        reading.address is None ==> reading.adapter(modes).mac_address is None,
{
    law_trim(before, address, after);
}

/// An adapter is reported under the interface's own name, with the mode that is known
/// under that name, and with what its own outputs say; whether it is up, and its
/// hardware address, rest on nothing else.
pub proof fn law_adapter_is_of_its_interface(
    reading: Interface,
    other: Interface,
    modes: Map<Seq<char>, Seq<char>>,
    other_modes: Map<Seq<char>, Seq<char>>,
)
    ensures
        ({
            let adapter = reading.adapter(modes);
            &&& adapter.name == reading.name
            &&& modes.contains_key(reading.name) ==> adapter.mode == Some(modes[reading.name])
            &&& !modes.contains_key(reading.name) ==> adapter.mode is None
            &&& (adapter.ip_address, adapter.subnet_mask, adapter.gateway) == ip_info_of(
                reading.addr_output,
                reading.route_output,
            )
            &&& other.operstate == reading.operstate ==> other.adapter(other_modes).is_up
                == adapter.is_up
            &&& other.address == reading.address ==> other.adapter(other_modes).mac_address
                == adapter.mac_address
            &&& reading.operstate is None ==> !adapter.is_up
        }),
{
}

proof fn lemma_has_prefix_by_chars(name: Seq<char>, prefix: Seq<char>)
    ensures
        has_prefix(name, prefix) <==> name.len() >= prefix.len() && forall|i: int|
            0 <= i < prefix.len() ==> #[trigger] name[i] == prefix[i],
{
    if name.len() >= prefix.len() {
        let front = name.take(prefix.len() as int);
        if has_prefix(name, prefix) {
            assert forall|i: int| 0 <= i < prefix.len() implies #[trigger] name[i] == prefix[i] by {
                assert(front[i] == name[i]);
            }
        }
        if forall|i: int| 0 <= i < prefix.len() ==> #[trigger] name[i] == prefix[i] {
            assert(front == prefix);
        }
    }
}

/// Just `lo`, and the interfaces whose names begin with `veth`, `br-`, `docker` or
/// `wwan`, are left out.
pub proof fn law_skipped_names(name: Seq<char>)
    ensures
        skipped(name) <==> {
            ||| name == seq!['l', 'o']
            ||| name.len() >= 4 && name[0] == 'v' && name[1] == 'e' && name[2] == 't' && name[3]
                == 'h'
            ||| name.len() >= 3 && name[0] == 'b' && name[1] == 'r' && name[2] == '-'
            ||| name.len() >= 6 && name[0] == 'd' && name[1] == 'o' && name[2] == 'c' && name[3]
                == 'k' && name[4] == 'e' && name[5] == 'r'
            ||| name.len() >= 4 && name[0] == 'w' && name[1] == 'w' && name[2] == 'a' && name[3]
                == 'n'
        },
{
    reveal_strlit("lo");
    reveal_strlit("veth");
    reveal_strlit("br-");
    reveal_strlit("docker");
    reveal_strlit("wwan");
    assert("lo"@ == seq!['l', 'o']);
    lemma_has_prefix_by_chars(name, "veth"@);
    lemma_has_prefix_by_chars(name, "br-"@);
    lemma_has_prefix_by_chars(name, "docker"@);
    lemma_has_prefix_by_chars(name, "wwan"@);
    assert("veth"@ == seq!['v', 'e', 't', 'h']);
    assert("br-"@ == seq!['b', 'r', '-']);
    assert("docker"@ == seq!['d', 'o', 'c', 'k', 'e', 'r']);
    assert("wwan"@ == seq!['w', 'w', 'a', 'n']);
    if has_prefix(name, "veth"@) {
        assert(name[0] == "veth"@[0] && name[1] == "veth"@[1] && name[2] == "veth"@[2] && name[3]
            == "veth"@[3]);
    }
    if has_prefix(name, "br-"@) {
        assert(name[0] == "br-"@[0] && name[1] == "br-"@[1] && name[2] == "br-"@[2]);
    }
    if has_prefix(name, "docker"@) {
        assert(name[0] == "docker"@[0] && name[1] == "docker"@[1] && name[2] == "docker"@[2]
            && name[3] == "docker"@[3] && name[4] == "docker"@[4] && name[5] == "docker"@[5]);
    }
    if has_prefix(name, "wwan"@) {
        assert(name[0] == "wwan"@[0] && name[1] == "wwan"@[1] && name[2] == "wwan"@[2] && name[3]
            == "wwan"@[3]);
    }
}

/// The adapters are those of the interfaces, one for each that is not left out, in
/// the same order.
pub proof fn law_adapters_in_order(
    first: Seq<Interface>,
    reading: Interface,
    rest: Seq<Interface>,
    modes: Map<Seq<char>, Seq<char>>,
)
    ensures
        adapters_of(Seq::empty(), modes).len() == 0,
        adapters_of(first + rest, modes) == adapters_of(first, modes) + adapters_of(rest, modes),
        adapters_of(seq![reading], modes) == if skipped(reading.name) {
            Seq::empty()
        } else {
            seq![reading.adapter(modes)]
        },
{
    let keep = |reading: Interface| !skipped(reading.name);
    reveal(Seq::filter);
    Seq::filter_distributes_over_add(first, rest, keep);
    assert(adapters_of(first + rest, modes) == adapters_of(first, modes) + adapters_of(rest, modes));
    let one = seq![reading];
    assert(one.drop_last() == Seq::<Interface>::empty());
    assert(one.last() == reading);
    assert(Seq::<Interface>::empty().filter(keep) == Seq::<Interface>::empty());
    assert(one.filter(keep) == if keep(reading) {
        seq![reading]
    } else {
        Seq::empty()
    });
}

/// A single slash is the root; a path that is the root stays so with a slash behind
/// it, and with a dot behind a slash, and with nothing else.
pub proof fn law_root_paths(path: Seq<u8>, byte: u8)
    ensures
        !is_root(Seq::empty()),
        is_root(seq![byte]) <==> byte == '/' as u8,
        path.len() > 0 && byte == '/' as u8 ==> (is_root(path.push(byte)) <==> is_root(path)),
        path.len() > 0 && byte == '.' as u8 ==> (is_root(path.push(byte)) <==> is_root(path) && path[
        path.len() - 1] == '/' as u8),
        path.len() > 0 && byte != '/' as u8 && byte != '.' as u8 ==> !is_root(path.push(byte)),
{
    assert('/' as u8 == 0x2F);
    assert('.' as u8 == 0x2E);
    if path.len() > 0 {
        let longer = path.push(byte);
        assert(longer[path.len() as int] == byte);
        assert(longer[0] == path[0]);
        assert forall|i: int| 0 <= i < path.len() implies #[trigger] longer[i] == path[i] by {}
        if is_root(longer) {
            assert forall|i: int| 0 < i < path.len() implies #[trigger] path[i] == 0x2F || (path[i]
                == 0x2E && path[i - 1] == 0x2F) by {
                assert(longer[i] == path[i] && longer[i - 1] == path[i - 1]);
            }
        }
        if is_root(path) {
            assert forall|i: int| 0 < i < path.len() implies #[trigger] longer[i] == 0x2F || (
            longer[i] == 0x2E && longer[i - 1] == 0x2F) by {
                assert(longer[i] == path[i] && longer[i - 1] == path[i - 1]);
            }
        }
    }
}

proof fn lemma_root_disk(disks: Seq<DiskReading>, n: int, k: int)
    requires
        0 <= n <= k <= disks.len(),
        forall|i: int| n <= i < k ==> !is_root((#[trigger] disks[i]).mount_point@),
        k < disks.len() ==> is_root(disks[k].mount_point@),
    ensures
        root_disk(disks, n) == if k < disks.len() {
            Some(disks[k])
        } else {
            None
        },
    decreases k - n,
{
    if n < k {
        assert(!is_root(disks[n].mount_point@));
        lemma_root_disk(disks, n + 1, k);
    }
}

/// The first file system at the root is reported: its total space, and as used what
/// is not available of it, so that used and available space make up the total.
/// Usage can be told of it just if no more is available than there is.
pub proof fn law_first_root_is_reported(
    before: Seq<DiskReading>,
    disk: DiskReading,
    after: Seq<DiskReading>,
)
    requires
        forall|i: int| 0 <= i < before.len() ==> !is_root((#[trigger] before[i]).mount_point@),
        is_root(disk.mount_point@),
    ensures
        ({
            let disks = before + seq![disk] + after;
            &&& disk_usage_fits(disks) <==> disk.available_space <= disk.total_space
            &&& disk_usage(disks).1 == disk.total_space
            &&& disk_usage_fits(disks) ==> disk_usage(disks).0 + disk.available_space
                == disk.total_space
        }),
{
    let disks = before + seq![disk] + after;
    let k = before.len() as int;
    assert(disks[k] == disk);
    assert forall|i: int| 0 <= i < k implies !is_root((#[trigger] disks[i]).mount_point@) by {
        assert(disks[i] == before[i]);
    }
    lemma_root_disk(disks, 0, k);
}

/// Without a file system at the root nothing is reported as used, of nothing.
pub proof fn law_no_root_no_usage(disks: Seq<DiskReading>)
    requires
        forall|i: int| 0 <= i < disks.len() ==> !is_root((#[trigger] disks[i]).mount_point@),
    ensures
        disk_usage(disks) == (0u64, 0u64),
        disk_usage_fits(disks),
{
    lemma_root_disk(disks, 0, disks.len() as int);
}

/// The version that is reported is `vr` and what stands between the first and the
/// second dot of the package version, or behind the first if there is no second.
pub proof fn law_version_is_second_part(major: Seq<char>, minor: Seq<char>, rest: Seq<char>)
    requires
        !major.contains('.'),
        !minor.contains('.'),
        rest.len() > 0 ==> rest[0] == '.',
    ensures
        version_name(major + seq!['.'] + minor + rest) == seq!['v', 'r'] + minor,
        version_name(major) == seq!['v', 'r', '1', '9'],
{
    reveal_strlit("vr");
    reveal_strlit("19");
    assert("vr"@ == seq!['v', 'r']);
    assert("vr"@ + "19"@ == seq!['v', 'r', '1', '9']);
    let version = major + seq!['.'] + minor + rest;
    assert(version == major + seq!['.'] + (minor + rest));
    law_first_piece(major, '.', minor + rest);
    if rest.len() == 0 {
        assert(minor + rest == minor);
        law_one_piece(minor, '.');
    } else {
        let others = rest.drop_first();
        assert(minor + rest == minor + seq!['.'] + others);
        law_first_piece(minor, '.', others);
    }
    assert(pieces(version, '.')[1] == minor);
    law_one_piece(major, '.');
}

} // verus!
