//! The state of the device: what the heartbeat reports, and how it is read off
//! the outputs of the system.

use crate::messages::{adapters_view, opt_text, Adapter, AdapterInfo, AgentMessage, AgentToServer};
use crate::text::{
    chars_of, contains, decimal, has_prefix, lines, parse_small_number, piece, pieces,
    push_decimal, same, small_number, split_lines, split_words, starts_with, string_of,
    strip_prefix, texts, trim, trimmed, until, words,
};
use vstd::arithmetic::power2::pow2;
use vstd::hash_map::StringHashMap;
use vstd::prelude::*;
use vstd::string::StringExecFns;

verus! {

// Subnet masks

/// The 32-bit mask with the first `prefix` bits set.
pub open spec fn mask_value(prefix: nat) -> nat {
    (pow2(32) - pow2((32 - prefix) as nat)) as nat
}

/// A 32-bit number as four decimal bytes with dots between them.
pub open spec fn dotted(n: nat) -> Seq<char> {
    decimal(n / 0x100_0000) + "."@ + decimal(n / 0x1_0000 % 0x100) + "."@ + decimal(
        n / 0x100 % 0x100,
    ) + "."@ + decimal(n % 0x100)
}

/// The subnet mask of a prefix length; none if it is over 32.
pub open spec fn subnet_mask(prefix: u8) -> Option<Seq<char>> {
    if prefix > 32 {
        None
    } else {
        Some(dotted(mask_value(prefix as nat)))
    }
}

/// Converts a CIDR prefix length to a subnet mask.
pub fn cidr_to_mask(prefix: u8) -> (r: Option<String>)
    ensures
        opt_text(r) == subnet_mask(prefix),
{
    if prefix > 32 {
        return None;
    }
    let shift: u64 = 32 - prefix as u64;
    proof {
        vstd::arithmetic::power2::lemma2_to64();
        vstd::arithmetic::power2::lemma_pow2_pos(shift as nat);
        if shift < 32 {
            vstd::arithmetic::power2::lemma_pow2_strictly_increases(shift as nat, 32);
        }
        vstd::bits::lemma_u64_shl_is_mul(1, shift);
    }
    let mask: u64 = 0x1_0000_0000 - (1u64 << shift);
    assert(mask == mask_value(prefix as nat));
    let mut out = String::new();
    push_decimal(&mut out, mask / 0x100_0000);
    out.append(".");
    push_decimal(&mut out, mask / 0x1_0000 % 0x100);
    out.append(".");
    push_decimal(&mut out, mask / 0x100 % 0x100);
    out.append(".");
    push_decimal(&mut out, mask % 0x100);
    assert(out@ == dotted(mask as nat));
    Some(out)
}

/// A mask has its first `prefix` bits set and no other.
pub proof fn law_mask_bits(prefix: u8, i: u64)
    requires
        prefix <= 32,
        i < 32,
    ensures
        (mask_value(prefix as nat) as u64 >> (31 - i) as u64) & 1 == 1 <==> i < prefix,
        mask_value(prefix as nat) < 0x1_0000_0000,
{
    let shift: u64 = (32 - prefix) as u64;
    vstd::arithmetic::power2::lemma2_to64();
    vstd::arithmetic::power2::lemma_pow2_pos(shift as nat);
    if shift < 32 {
        vstd::arithmetic::power2::lemma_pow2_strictly_increases(shift as nat, 32);
    }
    vstd::bits::lemma_u64_shl_is_mul(1, shift);
    let mask = (0x1_0000_0000 - (1u64 << shift)) as u64;
    let down = (31 - i) as u64;
    assert((mask >> down) & 1 == 1 <==> down >= shift) by (bit_vector)
        requires
            shift <= 32,
            down < 32,
            mask == 0x1_0000_0000 - (1u64 << shift),
    ;
}

// Addresses

/// What `String::from_utf8_lossy` makes of the bytes.
pub uninterp spec fn utf8_lossy(bytes: Seq<u8>) -> Seq<char>;

/// Calls `String::from_utf8_lossy`.
///
/// Claimed: the text is a function of the bytes, and where the bytes are valid
/// UTF-8 it is the text that they encode.
#[verifier::external_body]
fn decode_lossy(bytes: &[u8]) -> (r: String)
    ensures
        r@ == utf8_lossy(bytes@),
        vstd::utf8::valid_utf8(bytes@) ==> r@ == vstd::utf8::decode_utf8(bytes@),
{
    String::from_utf8_lossy(bytes).into_owned()
}

/// The text of an output: what its bytes encode where they are valid UTF-8, and
/// what is left after replacing what is not where they are not.
pub open spec fn output_text(bytes: Seq<u8>) -> Seq<char> {
    if vstd::utf8::valid_utf8(bytes) {
        vstd::utf8::decode_utf8(bytes)
    } else {
        utf8_lossy(bytes)
    }
}

/// The first of the texts that holds the character `c`.
pub open spec fn first_with(v: Seq<Seq<char>>, c: char) -> Option<Seq<char>>
    decreases v.len(),
{
    if v.len() == 0 {
        None
    } else if v[0].contains(c) {
        Some(v[0])
    } else {
        first_with(v.drop_first(), c)
    }
}

/// The first of the texts that begins with `prefix`.
pub open spec fn first_starting(v: Seq<Seq<char>>, prefix: Seq<char>) -> Option<Seq<char>>
    decreases v.len(),
{
    if v.len() == 0 {
        None
    } else if has_prefix(v[0], prefix) {
        Some(v[0])
    } else {
        first_starting(v.drop_first(), prefix)
    }
}

proof fn lemma_first_with_step(v: Seq<Seq<char>>, c: char, i: int)
    requires
        0 <= i < v.len(),
    ensures
        first_with(v.skip(i), c) == if v[i].contains(c) {
            Some(v[i])
        } else {
            first_with(v.skip(i + 1), c)
        },
{
    assert(v.skip(i).drop_first() == v.skip(i + 1));
}

proof fn lemma_first_starting_step(v: Seq<Seq<char>>, prefix: Seq<char>, i: int)
    requires
        0 <= i < v.len(),
    ensures
        first_starting(v.skip(i), prefix) == if has_prefix(v[i], prefix) {
            Some(v[i])
        } else {
            first_starting(v.skip(i + 1), prefix)
        },
{
    assert(v.skip(i).drop_first() == v.skip(i + 1));
}

/// The first word with a slash in the output of `ip -4 -o addr show`:
/// `2: eth0    inet 10.10.1.1/24 brd 10.10.1.255 scope global eth0`.
pub open spec fn cidr_of(output: Seq<char>) -> Option<Seq<char>> {
    first_with(words(output), '/')
}

/// The address before the slash.
pub open spec fn ip_address_of(output: Seq<char>) -> Option<Seq<char>> {
    match cidr_of(output) {
        Some(cidr) => Some(pieces(cidr, '/')[0]),
        None => None,
    }
}

/// The subnet mask for the prefix length behind the slash; none if that is not a
/// prefix length.
pub open spec fn subnet_mask_of(output: Seq<char>) -> Option<Seq<char>> {
    match cidr_of(output) {
        Some(cidr) => match small_number(pieces(cidr, '/')[1]) {
            Some(prefix) => subnet_mask(prefix),
            None => None,
        },
        None => None,
    }
}

/// The third word of the first line of `ip route show dev` that begins with
/// `default via`.
pub open spec fn gateway_of(output: Seq<char>) -> Option<Seq<char>> {
    match first_starting(lines(output), "default via"@) {
        Some(line) => if words(line).len() > 2 {
            Some(words(line)[2])
        } else {
            None
        },
        None => None,
    }
}

fn find_cidr(chars: &[char]) -> (r: Option<&[char]>)
    ensures
        match r {
            Some(cidr) => cidr_of(chars@) == Some(cidr@) && cidr@.contains('/'),
            None => cidr_of(chars@) is None,
        },
{
    let parts = split_words(chars);
    let ghost all = texts(parts@);
    let mut i: usize = 0;
    assert(all.skip(0) == all);
    while i < parts.len()
        invariant
            i <= parts@.len(),
            all == texts(parts@),
            all == words(chars@),
            first_with(all.skip(i as int), '/') == cidr_of(chars@),
        decreases parts@.len() - i,
    {
        proof {
            lemma_first_with_step(all, '/', i as int);
        }
        if contains(parts[i], '/') {
            return Some(parts[i]);
        }
        i += 1;
    }
    assert(all.skip(i as int).len() == 0);
    None
}

/// A text with a separator has a second piece.
proof fn lemma_two_pieces(s: Seq<char>, sep: char)
    requires
        s.contains(sep),
    ensures
        pieces(s, sep).len() >= 2,
{
    lemma_until_found(s, sep);
    let n = until(s, sep) as int;
    let rest = pieces(s.skip(n + 1), sep);
    assert(rest.len() >= 1);
    assert(pieces(s, sep) == seq![s.take(n)] + rest);
}

proof fn lemma_until_found(s: Seq<char>, sep: char)
    requires
        s.contains(sep),
    ensures
        until(s, sep) < s.len(),
    decreases s.len(),
{
    if s[0] != sep {
        let k = choose|k: int| 0 <= k < s.len() && s[k] == sep;
        assert(s.drop_first()[k - 1] == sep);
        lemma_until_found(s.drop_first(), sep);
    }
}

/// Reads the address off the output of `ip -4 -o addr show`.
pub fn parse_ip_address(output: &str) -> (r: Option<String>)
    ensures
        opt_text(r) == ip_address_of(output@),
{
    let chars = chars_of(output);
    match find_cidr(chars.as_slice()) {
        None => None,
        Some(cidr) => {
            proof {
                lemma_two_pieces(cidr@, '/');
            }
            match piece(cidr, '/', 0) {
                Some(part) => Some(string_of(part)),
                None => None,
            }
        },
    }
}

/// Reads the subnet mask off the output of `ip -4 -o addr show`.
pub fn parse_subnet_mask(output: &str) -> (r: Option<String>)
    ensures
        opt_text(r) == subnet_mask_of(output@),
{
    let chars = chars_of(output);
    match find_cidr(chars.as_slice()) {
        None => None,
        Some(cidr) => {
            proof {
                lemma_two_pieces(cidr@, '/');
            }
            match piece(cidr, '/', 1) {
                Some(part) => match parse_small_number(part) {
                    Some(prefix) => cidr_to_mask(prefix),
                    None => None,
                },
                None => None,
            }
        },
    }
}

/// Reads the gateway off the output of `ip route show dev`.
pub fn parse_gateway(output: &str) -> (r: Option<String>)
    ensures
        opt_text(r) == gateway_of(output@),
{
    let chars = chars_of(output);
    let all_lines = split_lines(chars.as_slice());
    let ghost all = texts(all_lines@);
    let mut i: usize = 0;
    assert(all.skip(0) == all);
    while i < all_lines.len()
        invariant
            i <= all_lines@.len(),
            all == texts(all_lines@),
            first_starting(all.skip(i as int), "default via"@) == first_starting(
                lines(output@),
                "default via"@,
            ),
        decreases all_lines@.len() - i,
    {
        proof {
            lemma_first_starting_step(all, "default via"@, i as int);
        }
        if starts_with(all_lines[i], "default via") {
            let parts = split_words(all_lines[i]);
            assert(texts(parts@) == words(all[i as int]));
            return if parts.len() > 2 {
                assert(parts@[2]@ == words(all[i as int])[2]);
                Some(string_of(parts[2]))
            } else {
                None
            };
        }
        i += 1;
    }
    assert(all.skip(i as int).len() == 0);
    None
}

/// What a parser makes of an output, if there is one.
pub open spec fn ip_info_of(addr: Option<Seq<u8>>, route: Option<Seq<u8>>) -> (
    Option<Seq<char>>,
    Option<Seq<char>>,
    Option<Seq<char>>,
) {
    (
        match addr {
            Some(bytes) => ip_address_of(output_text(bytes)),
            None => None,
        },
        match addr {
            Some(bytes) => subnet_mask_of(output_text(bytes)),
            None => None,
        },
        match route {
            Some(bytes) => gateway_of(output_text(bytes)),
            None => None,
        },
    )
}

/// The bytes in an optional vector.
pub open spec fn opt_bytes(v: Option<Vec<u8>>) -> Option<Seq<u8>> {
    match v {
        Some(v) => Some(v@),
        None => None,
    }
}

/// Reads the address, the subnet mask and the gateway of an interface off the
/// outputs of `ip -4 -o addr show <iface>` and `ip route show dev <iface>`; an
/// output is `None` if the command could not be run.
pub fn read_ip_info(addr_output: &Option<Vec<u8>>, route_output: &Option<Vec<u8>>) -> (r: (
    Option<String>,
    Option<String>,
    Option<String>,
))
    ensures
        (opt_text(r.0), opt_text(r.1), opt_text(r.2)) == ip_info_of(
            opt_bytes(*addr_output),
            opt_bytes(*route_output),
        ),
{
    let (ip_address, subnet_mask): (Option<String>, Option<String>) = match addr_output {
        Some(bytes) => {
            let output = decode_lossy(bytes.as_slice());
            (parse_ip_address(output.as_str()), parse_subnet_mask(output.as_str()))
        },
        None => (None, None),
    };
    let gateway: Option<String> = match route_output {
        Some(bytes) => {
            let output = decode_lossy(bytes.as_slice());
            parse_gateway(output.as_str())
        },
        None => None,
    };
    (ip_address, subnet_mask, gateway)
}

// NetworkManager profiles

/// Whether a trimmed line opens a section.
pub open spec fn is_header(line: Seq<char>) -> bool {
    has_prefix(line, "["@)
}

/// The header of the section that line `n` stands in: the last header before it.
pub open spec fn section_at(v: Seq<Seq<char>>, n: int) -> Option<Seq<char>>
    decreases n,
{
    if n <= 0 {
        None
    } else if is_header(v[n - 1]) {
        Some(v[n - 1])
    } else {
        section_at(v, n - 1)
    }
}

/// What stands behind `key` in the last of the first `n` lines that has it, in
/// the sections with the given header.
pub open spec fn setting(v: Seq<Seq<char>>, header: Seq<char>, key: Seq<char>, n: int) -> Option<
    Seq<char>,
>
    decreases n,
{
    if n <= 0 {
        None
    } else if !is_header(v[n - 1]) && section_at(v, n - 1) == Some(header) && has_prefix(
        v[n - 1],
        key,
    ) {
        Some(v[n - 1].skip(key.len() as int))
    } else {
        setting(v, header, key, n - 1)
    }
}

/// The trimmed lines of a profile.
pub open spec fn profile_lines(content: Seq<char>) -> Seq<Seq<char>> {
    lines(content).map_values(|line: Seq<char>| trimmed(line))
}

/// The name under which the server knows an IPv4 method.
pub open spec fn mode_name(method: Seq<char>) -> Seq<char> {
    if method == "manual"@ {
        "Static"@
    } else if method == "auto"@ {
        "DHCP"@
    } else if method == "shared"@ {
        "Shared"@
    } else if method == "link-local"@ {
        "Link-Local"@
    } else if method == "disabled"@ {
        "Disabled"@
    } else {
        method
    }
}

/// The interface of a profile, if it names one.
pub open spec fn profile_interface(content: Seq<char>) -> Option<Seq<char>> {
    let v = profile_lines(content);
    setting(v, "[connection]"@, "interface-name="@, v.len() as int)
}

/// The IPv4 method of a profile, if it names one.
pub open spec fn profile_method(content: Seq<char>) -> Option<Seq<char>> {
    let v = profile_lines(content);
    setting(v, "[ipv4]"@, "method="@, v.len() as int)
}

/// The interface and the mode of a profile; none if it lacks one of them.
pub open spec fn profile_of(content: Seq<char>) -> Option<(Seq<char>, Seq<char>)> {
    match (profile_interface(content), profile_method(content)) {
        (Some(iface), Some(method)) => Some((iface, mode_name(method))),
        _ => None,
    }
}

fn mode_for(method: &[char]) -> (r: String)
    ensures
        r@ == mode_name(method@),
{
    if same(method, "manual") {
        "Static".to_owned()
    } else if same(method, "auto") {
        "DHCP".to_owned()
    } else if same(method, "shared") {
        "Shared".to_owned()
    } else if same(method, "link-local") {
        "Link-Local".to_owned()
    } else if same(method, "disabled") {
        "Disabled".to_owned()
    } else {
        string_of(method)
    }
}

/// Reads the interface and its mode off a NetworkManager profile:
///
/// ```text
/// [connection]
/// interface-name=eth0
/// [ipv4]
/// method=manual
/// ```
pub fn parse_nm_profile(content: &str) -> (r: Option<(String, String)>)
    ensures
        match r {
            Some((iface, mode)) => profile_of(content@) == Some((iface@, mode@)),
            None => profile_of(content@) is None,
        },
{
    let chars = chars_of(content);
    let all_lines = split_lines(chars.as_slice());
    let ghost v = profile_lines(content@);
    let mut iface_name: Option<String> = None;
    let mut ipv4_mode: Option<String> = None;
    let mut in_connection: bool = false;
    let mut in_ipv4: bool = false;
    let mut i: usize = 0;
    proof {
        reveal_strlit("[");
        reveal_strlit("[connection]");
        reveal_strlit("[ipv4]");
        assert("[connection]"@.len() != "[ipv4]"@.len());
        assert("[connection]"@.take(1) == "["@);
        assert("[ipv4]"@.take(1) == "["@);
    }
    while i < all_lines.len()
        invariant
            i <= all_lines@.len(),
            texts(all_lines@) == lines(content@),
            v == profile_lines(content@),
            v.len() == all_lines@.len(),
            "[connection]"@ != "[ipv4]"@,
            is_header("[connection]"@),
            is_header("[ipv4]"@),
            in_connection == (section_at(v, i as int) == Some("[connection]"@)),
            in_ipv4 == (section_at(v, i as int) == Some("[ipv4]"@)),
            opt_text(iface_name) == setting(v, "[connection]"@, "interface-name="@, i as int),
            match setting(v, "[ipv4]"@, "method="@, i as int) {
                Some(method) => opt_text(ipv4_mode) == Some(mode_name(method)),
                None => ipv4_mode is None,
            },
        decreases all_lines@.len() - i,
    {
        let line: &[char] = trim(all_lines[i]);
        assert(texts(all_lines@)[i as int] == all_lines@[i as int]@);
        assert(line@ == v[i as int]);
        if same(line, "[connection]") {
            in_connection = true;
            in_ipv4 = false;
        } else if same(line, "[ipv4]") {
            in_ipv4 = true;
            in_connection = false;
        } else if starts_with(line, "[") {
            in_connection = false;
            in_ipv4 = false;
        } else {
            if in_connection {
                if let Some(value) = strip_prefix(line, "interface-name=") {
                    iface_name = Some(string_of(value));
                }
            }
            if in_ipv4 {
                if let Some(value) = strip_prefix(line, "method=") {
                    ipv4_mode = Some(mode_for(value));
                }
            }
        }
        i += 1;
    }
    match (iface_name, ipv4_mode) {
        (Some(iface), Some(mode)) => Some((iface, mode)),
        _ => None,
    }
}

/// The texts of the strings.
pub open spec fn strings_view(v: Seq<String>) -> Seq<Seq<char>> {
    v.map_values(|s: String| s@)
}

/// The mode of each interface that a profile names; a later profile counts more
/// than an earlier one.
pub open spec fn modes_of(contents: Seq<Seq<char>>) -> Map<Seq<char>, Seq<char>>
    decreases contents.len(),
{
    if contents.len() == 0 {
        Map::empty()
    } else {
        match profile_of(contents.last()) {
            Some((iface, mode)) => modes_of(contents.drop_last()).insert(iface, mode),
            None => modes_of(contents.drop_last()),
        }
    }
}

/// The address mode of each interface.
pub struct NmMethods {
    map: StringHashMap<String>,
}

impl View for NmMethods {
    type V = Map<Seq<char>, Seq<char>>;

    closed spec fn view(&self) -> Map<Seq<char>, Seq<char>> {
        self.map@.map_values(|mode: String| mode@)
    }
}

impl NmMethods {
    /// The mode of an interface, if it is known.
    pub fn get(&self, iface: &str) -> (r: Option<String>)
        ensures
            match r {
                Some(mode) => self@.contains_key(iface@) && mode@ == self@[iface@],
                None => !self@.contains_key(iface@),
            },
    {
        match self.map.get(iface) {
            Some(mode) => Some(mode.clone()),
            None => None,
        }
    }
}

/// Reads the real IPv4 method of each interface off the contents of the
/// NetworkManager profiles (not off their names), in the order given.
pub fn read_nm_methods(profiles: &Vec<String>) -> (r: NmMethods)
    ensures
        r@ == modes_of(strings_view(profiles@)),
{
    let mut methods = NmMethods { map: StringHashMap::new() };
    let ghost all = strings_view(profiles@);
    let mut i: usize = 0;
    proof {
        assert(all.take(0) == Seq::<Seq<char>>::empty());
        assert(methods@ =~= Map::<Seq<char>, Seq<char>>::empty());
    }
    while i < profiles.len()
        invariant
            i <= profiles@.len(),
            all == strings_view(profiles@),
            methods@ == modes_of(all.take(i as int)),
        decreases profiles@.len() - i,
    {
        let ghost before = methods@;
        proof {
            assert(all.take(i + 1).drop_last() == all.take(i as int));
            assert(all.take(i + 1).last() == profiles@[i as int]@);
        }
        if let Some((iface, mode)) = parse_nm_profile(profiles[i].as_str()) {
            let ghost (key, value) = (iface@, mode@);
            methods.map.insert(iface, mode);
            assert(methods@ =~= before.insert(key, value));
        }
        i += 1;
    }
    assert(all.take(i as int) == all);
    methods
}

/// A profile that names an interface and a method decides that interface's mode,
/// whatever the profiles before it say, and leaves every other interface alone.
pub proof fn law_last_profile_decides(
    contents: Seq<Seq<char>>,
    content: Seq<char>,
    iface: Seq<char>,
    mode: Seq<char>,
    other: Seq<char>,
)
    requires
        profile_of(content) == Some((iface, mode)),
        other != iface,
    ensures
        modes_of(contents.push(content)).contains_key(iface),
        modes_of(contents.push(content))[iface] == mode,
        modes_of(contents.push(content)).contains_key(other) <==> modes_of(contents).contains_key(
            other,
        ),
        modes_of(contents).contains_key(other) ==> modes_of(contents.push(content))[other]
            == modes_of(contents)[other],
{
    assert(contents.push(content).drop_last() == contents);
}

/// The lines of a profile but for those that name it.
pub open spec fn nameless_lines(content: Seq<char>) -> Seq<Seq<char>> {
    profile_lines(content).filter(|line: Seq<char>| !has_prefix(line, "id="@))
}

/// Whether a key never stands in a line that names the profile.
spec fn apart_from_name(key: Seq<char>) -> bool {
    forall|line: Seq<char>| #[trigger] has_prefix(line, key) ==> !has_prefix(line, "id="@)
}

/// Where two texts differ in a character, no line begins with both.
proof fn lemma_prefixes_apart(a: Seq<char>, b: Seq<char>, i: int)
    requires
        0 <= i < a.len(),
        i < b.len(),
        a[i] != b[i],
    ensures
        forall|line: Seq<char>| #[trigger] has_prefix(line, a) ==> !has_prefix(line, b),
{
    assert forall|line: Seq<char>| #[trigger] has_prefix(line, a) implies !has_prefix(
        line,
        b,
    ) by {
        assert(line.take(a.len() as int)[i] == line[i]);
        if has_prefix(line, b) {
            assert(line.take(b.len() as int)[i] == line[i]);
        }
    }
}

proof fn lemma_keys_apart()
    ensures
        apart_from_name("["@),
        apart_from_name("interface-name="@),
        apart_from_name("method="@),
{
    reveal_strlit("id=");
    reveal_strlit("[");
    reveal_strlit("interface-name=");
    reveal_strlit("method=");
    lemma_prefixes_apart("["@, "id="@, 0);
    lemma_prefixes_apart("interface-name="@, "id="@, 1);
    lemma_prefixes_apart("method="@, "id="@, 0);
}

/// What comes after the first `n` lines has no part in their section or settings.
pub proof fn lemma_only_lines_before(
    v: Seq<Seq<char>>,
    w: Seq<Seq<char>>,
    header: Seq<char>,
    key: Seq<char>,
    n: int,
)
    requires
        0 <= n <= v.len(),
        n <= w.len(),
        forall|i: int| 0 <= i < n ==> #[trigger] v[i] == w[i],
    ensures
        section_at(v, n) == section_at(w, n),
        setting(v, header, key, n) == setting(w, header, key, n),
    decreases n,
{
    if n > 0 {
        assert(v[n - 1] == w[n - 1]);
        lemma_only_lines_before(v, w, header, key, n - 1);
    }
}

/// The lines that name the profile have no part in its sections or settings.
proof fn lemma_name_lines_idle(v: Seq<Seq<char>>, header: Seq<char>, key: Seq<char>)
    requires
        apart_from_name("["@),
        apart_from_name(key),
    ensures
        ({
            let w = v.filter(|line: Seq<char>| !has_prefix(line, "id="@));
            &&& section_at(w, w.len() as int) == section_at(v, v.len() as int)
            &&& setting(w, header, key, w.len() as int) == setting(v, header, key, v.len() as int)
        }),
    decreases v.len(),
{
    reveal(Seq::filter);
    let keep = |line: Seq<char>| !has_prefix(line, "id="@);
    let w = v.filter(keep);
    if v.len() > 0 {
        let front = v.drop_last();
        let kept = front.filter(keep);
        lemma_name_lines_idle(front, header, key);
        lemma_only_lines_before(v, front, header, key, front.len() as int);
        if keep(v.last()) {
            assert(w == kept.push(v.last()));
            lemma_only_lines_before(w, kept, header, key, kept.len() as int);
        } else {
            assert(w == kept);
        }
    }
}

/// The name of a profile never decides anything: contents that differ only in
/// lines that begin with `id=` (in what these say, where they stand, and whether
/// there are any) give every interface the same mode.
pub proof fn law_profile_name_never_decides(a: Seq<Seq<char>>, b: Seq<Seq<char>>)
    requires
        a.len() == b.len(),
        forall|i: int| 0 <= i < a.len() ==> nameless_lines(#[trigger] a[i]) == nameless_lines(b[i]),
    ensures
        modes_of(a) == modes_of(b),
    decreases a.len(),
{
    if a.len() > 0 {
        assert forall|i: int| 0 <= i < a.drop_last().len() implies nameless_lines(
            #[trigger] a.drop_last()[i],
        ) == nameless_lines(b.drop_last()[i]) by {
            assert(a[i] == a.drop_last()[i]);
        }
        law_profile_name_never_decides(a.drop_last(), b.drop_last());
        assert(a[a.len() - 1] == a.last());
        lemma_keys_apart();
        lemma_name_lines_idle(profile_lines(a.last()), "[connection]"@, "interface-name="@);
        lemma_name_lines_idle(profile_lines(a.last()), "[ipv4]"@, "method="@);
        lemma_name_lines_idle(profile_lines(b.last()), "[connection]"@, "interface-name="@);
        lemma_name_lines_idle(profile_lines(b.last()), "[ipv4]"@, "method="@);
    }
}

/// Contents that agree line by line, but for lines that begin with `id=` in both,
/// have the same lines but for those.
pub proof fn law_renamed_profile_keeps_other_lines(a: Seq<char>, b: Seq<char>)
    requires
        profile_lines(a).len() == profile_lines(b).len(),
        forall|i: int|
            0 <= i < profile_lines(a).len() ==> #[trigger] profile_lines(a)[i] == profile_lines(
                b,
            )[i] || (has_prefix(profile_lines(a)[i], "id="@) && has_prefix(
                profile_lines(b)[i],
                "id="@,
            )),
    ensures
        nameless_lines(a) == nameless_lines(b),
{
    lemma_filter_agrees(profile_lines(a), profile_lines(b));
}

proof fn lemma_filter_agrees(v: Seq<Seq<char>>, w: Seq<Seq<char>>)
    requires
        v.len() == w.len(),
        forall|i: int|
            0 <= i < v.len() ==> #[trigger] v[i] == w[i] || (has_prefix(v[i], "id="@)
                && has_prefix(w[i], "id="@)),
    ensures
        v.filter(|line: Seq<char>| !has_prefix(line, "id="@)) == w.filter(
            |line: Seq<char>| !has_prefix(line, "id="@),
        ),
    decreases v.len(),
{
    reveal(Seq::filter);
    if v.len() > 0 {
        assert(v[v.len() - 1] == w[v.len() - 1] || has_prefix(v[v.len() - 1], "id="@));
        assert forall|i: int| 0 <= i < v.drop_last().len() implies #[trigger] v.drop_last()[i]
            == w.drop_last()[i] || (has_prefix(v.drop_last()[i], "id="@) && has_prefix(
            w.drop_last()[i],
            "id="@,
        )) by {
            assert(v[i] == v.drop_last()[i]);
        }
        lemma_filter_agrees(v.drop_last(), w.drop_last());
    }
}

// Adapters

/// Whether an interface is virtual, or cellular, and so is not reported.
pub open spec fn skipped(name: Seq<char>) -> bool {
    ||| name == "lo"@
    ||| has_prefix(name, "veth"@)
    ||| has_prefix(name, "br-"@)
    ||| has_prefix(name, "docker"@)
    ||| has_prefix(name, "wwan"@)
}

/// Whether an interface is virtual, or cellular, and so is not reported.
pub fn is_skipped(name: &str) -> (r: bool)
    ensures
        r == skipped(name@),
{
    let chars = chars_of(name);
    let name_chars: &[char] = chars.as_slice();
    same(name_chars, "lo") || starts_with(name_chars, "veth") || starts_with(name_chars, "br-")
        || starts_with(name_chars, "docker") || starts_with(name_chars, "wwan")
}

/// What was read of one interface; `None` where reading failed.
#[derive(Debug, PartialEq, Eq)]
pub struct InterfaceReading {
    pub name: String,
    /// The file `operstate`.
    pub operstate: Option<String>,
    /// The file `address`.
    pub address: Option<String>,
    /// The output of `ip -4 -o addr show <name>`.
    pub addr_output: Option<Vec<u8>>,
    /// The output of `ip route show dev <name>`.
    pub route_output: Option<Vec<u8>>,
}

/// The view of an `InterfaceReading`.
pub struct Interface {
    pub name: Seq<char>,
    pub operstate: Option<Seq<char>>,
    pub address: Option<Seq<char>>,
    pub addr_output: Option<Seq<u8>>,
    pub route_output: Option<Seq<u8>>,
}

impl View for InterfaceReading {
    type V = Interface;

    open spec fn view(&self) -> Interface {
        Interface {
            name: self.name@,
            operstate: opt_text(self.operstate),
            address: opt_text(self.address),
            addr_output: opt_bytes(self.addr_output),
            route_output: opt_bytes(self.route_output),
        }
    }
}

/// The views of a sequence of readings.
pub open spec fn readings_view(v: Seq<InterfaceReading>) -> Seq<Interface> {
    v.map_values(|reading: InterfaceReading| reading@)
}

impl Interface {
    /// Whether the interface is up.
    pub open spec fn is_up(self) -> bool {
        self.operstate matches Some(s) && trimmed(s) == "up"@
    }

    /// The hardware address, unless it is all zeros.
    pub open spec fn mac_address(self) -> Option<Seq<char>> {
        match self.address {
            Some(s) => if trimmed(s) == "00:00:00:00:00:00"@ {
                None
            } else {
                Some(trimmed(s))
            },
            None => None,
        }
    }

    /// The adapter that is reported, with the mode that the profiles give it.
    pub open spec fn adapter(self, modes: Map<Seq<char>, Seq<char>>) -> Adapter {
        let (ip_address, subnet_mask, gateway) = ip_info_of(self.addr_output, self.route_output);
        Adapter {
            name: self.name,
            mac_address: self.mac_address(),
            ip_address,
            subnet_mask,
            gateway,
            mode: if modes.contains_key(self.name) {
                Some(modes[self.name])
            } else {
                None
            },
            is_up: self.is_up(),
        }
    }
}

/// The adapters that are reported: those of the interfaces that are not skipped,
/// in their order.
pub open spec fn adapters_of(
    readings: Seq<Interface>,
    modes: Map<Seq<char>, Seq<char>>,
) -> Seq<Adapter> {
    readings.filter(|reading: Interface| !skipped(reading.name)).map_values(
        |reading: Interface| reading.adapter(modes),
    )
}

/// Puts together what is reported of one interface.
pub fn adapter_info(reading: &InterfaceReading, methods: &NmMethods) -> (r: AdapterInfo)
    ensures
        r@ == reading@.adapter(methods@),
{
    let is_up: bool = match &reading.operstate {
        Some(s) => {
            let chars = chars_of(s.as_str());
            same(trim(chars.as_slice()), "up")
        },
        None => false,
    };
    let mac_address: Option<String> = match &reading.address {
        Some(s) => {
            let chars = chars_of(s.as_str());
            let mac: &[char] = trim(chars.as_slice());
            if same(mac, "00:00:00:00:00:00") {
                None
            } else {
                Some(string_of(mac))
            }
        },
        None => None,
    };
    let (ip_address, subnet_mask, gateway) = read_ip_info(
        &reading.addr_output,
        &reading.route_output,
    );
    let mode: Option<String> = methods.get(reading.name.as_str());
    AdapterInfo {
        name: reading.name.clone(),
        mac_address,
        ip_address,
        subnet_mask,
        gateway,
        mode,
        is_up,
    }
}

/// Puts together what is reported of the interfaces.
pub fn collect_adapters(readings: &Vec<InterfaceReading>, methods: &NmMethods) -> (r: Vec<
    AdapterInfo,
>)
    ensures
        adapters_view(r@) == adapters_of(readings_view(readings@), methods@),
{
    let mut adapters: Vec<AdapterInfo> = Vec::new();
    let ghost all = readings_view(readings@);
    let ghost keep = |reading: Interface| !skipped(reading.name);
    let mut i: usize = 0;
    assert(all.take(0) == Seq::<Interface>::empty());
    proof {
        reveal(Seq::filter);
    }
    assert(adapters_view(adapters@) == adapters_of(all.take(0), methods@));
    while i < readings.len()
        invariant
            i <= readings@.len(),
            all == readings_view(readings@),
            keep == (|reading: Interface| !skipped(reading.name)),
            adapters_view(adapters@) == adapters_of(all.take(i as int), methods@),
        decreases readings@.len() - i,
    {
        let ghost before = adapters_view(adapters@);
        proof {
            reveal(Seq::filter);
            assert(all.take(i + 1).drop_last() == all.take(i as int));
            assert(all.take(i + 1).last() == readings@[i as int]@);
        }
        if !is_skipped(readings[i].name.as_str()) {
            let adapter = adapter_info(&readings[i], methods);
            adapters.push(adapter);
            proof {
                assert(adapters_view(adapters@) == before.push(adapter@));
                assert(all.take(i + 1).filter(keep) == all.take(i as int).filter(keep).push(
                    readings@[i as int]@,
                ));
                assert(adapters_of(all.take(i + 1), methods@) == before.push(adapter@));
            }
        } else {
            assert(all.take(i + 1).filter(keep) == all.take(i as int).filter(keep));
        }
        i += 1;
    }
    assert(all.take(i as int) == all);
    adapters
}

/// No interface that is to be skipped is ever reported.
pub proof fn law_skipped_never_reported(
    readings: Seq<Interface>,
    modes: Map<Seq<char>, Seq<char>>,
    i: int,
)
    requires
        0 <= i < adapters_of(readings, modes).len(),
    ensures
        !skipped(adapters_of(readings, modes)[i].name),
{
    let keep = |reading: Interface| !skipped(reading.name);
    broadcast use vstd::seq_lib::group_filter_ensures;

    assert(keep(readings.filter(keep)[i]));
}

// The heartbeat

/// Whether a path names the root directory: a slash, and behind it only slashes
/// and single dots.
pub open spec fn is_root(path: Seq<u8>) -> bool {
    &&& path.len() > 0
    &&& path[0] == 0x2F
    &&& forall|i: int|
        0 < i < path.len() ==> #[trigger] path[i] == 0x2F || (path[i] == 0x2E && path[i - 1]
            == 0x2F)
}

/// Whether a path names the root directory.
pub fn is_root_path(path: &[u8]) -> (r: bool)
    ensures
        r == is_root(path@),
{
    if path.len() == 0 || path[0] != 0x2F {
        return false;
    }
    let mut i: usize = 1;
    while i < path.len()
        invariant
            1 <= i <= path@.len(),
            forall|j: int|
                0 < j < i ==> #[trigger] path@[j] == 0x2F || (path@[j] == 0x2E && path@[j - 1]
                    == 0x2F),
        decreases path@.len() - i,
    {
        if !(path[i] == 0x2F || (path[i] == 0x2E && path[i - 1] == 0x2F)) {
            return false;
        }
        i += 1;
    }
    true
}

/// A mounted file system. The mount point is given as the bytes of its path.
#[derive(Debug, PartialEq, Eq)]
pub struct DiskReading {
    pub mount_point: Vec<u8>,
    pub total_space: u64,
    pub available_space: u64,
}

/// What was read of the system. `cpu_bits` holds the CPU usage in percent, as the
/// bits of a single-precision float.
#[derive(Debug, PartialEq, Eq)]
pub struct SystemReading {
    pub cpu_bits: u32,
    pub mem: u64,
    pub mem_total: u64,
    pub disks: Vec<DiskReading>,
    pub uptime: u64,
}

/// The first file system that is mounted at the root, from the `n`th on.
pub open spec fn root_disk(disks: Seq<DiskReading>, n: int) -> Option<DiskReading>
    decreases disks.len() - n,
{
    if n < 0 || n >= disks.len() {
        None
    } else if is_root(disks[n].mount_point@) {
        Some(disks[n])
    } else {
        root_disk(disks, n + 1)
    }
}

/// The used and the total space of the root file system; zero if there is none.
pub open spec fn disk_usage(disks: Seq<DiskReading>) -> (u64, u64) {
    match root_disk(disks, 0) {
        Some(disk) => ((disk.total_space - disk.available_space) as u64, disk.total_space),
        None => (0, 0),
    }
}

/// Whether the root file system has no more space available than it has.
pub open spec fn disk_usage_fits(disks: Seq<DiskReading>) -> bool {
    root_disk(disks, 0) matches Some(disk) ==> disk.available_space <= disk.total_space
}

fn find_root_disk(disks: &Vec<DiskReading>) -> (r: Option<usize>)
    ensures
        match r {
            Some(i) => i < disks@.len() && root_disk(disks@, 0) == Some(disks@[i as int]),
            None => root_disk(disks@, 0) is None,
        },
{
    let mut i: usize = 0;
    while i < disks.len()
        invariant
            i <= disks@.len(),
            root_disk(disks@, i as int) == root_disk(disks@, 0),
        decreases disks@.len() - i,
    {
        if is_root_path(disks[i].mount_point.as_slice()) {
            return Some(i);
        }
        i += 1;
    }
    None
}

/// Whether `collect_heartbeat` can tell how much of the root file system is used.
pub fn can_report_disk(reading: &SystemReading) -> (r: bool)
    ensures
        r == disk_usage_fits(reading.disks@),
{
    match find_root_disk(&reading.disks) {
        Some(i) => reading.disks[i].available_space <= reading.disks[i].total_space,
        None => true,
    }
}

/// The version that is reported: `vr` and the second part of the package version;
/// `19` if that has no second part.
pub open spec fn version_name(pkg_version: Seq<char>) -> Seq<char> {
    if pieces(pkg_version, '.').len() > 1 {
        "vr"@ + pieces(pkg_version, '.')[1]
    } else {
        "vr"@ + "19"@
    }
}

/// The version that is reported for a package version.
pub fn agent_version(pkg_version: &str) -> (r: String)
    ensures
        r@ == version_name(pkg_version@),
{
    let chars = chars_of(pkg_version);
    let mut out: String = "vr".to_owned();
    match piece(chars.as_slice(), '.', 1) {
        Some(part) => out.append(string_of(part).as_str()),
        None => out.append("19"),
    }
    out
}

/// Puts the heartbeat together. The number of active tunnels is not tracked, and
/// reported as zero.
pub fn collect_heartbeat(
    reading: &SystemReading,
    pkg_version: &str,
    adapters: Vec<AdapterInfo>,
) -> (r: AgentToServer)
    requires
        disk_usage_fits(reading.disks@),
    ensures
        r@ == (AgentMessage::Heartbeat {
            cpu_bits: reading.cpu_bits,
            mem: reading.mem,
            mem_total: reading.mem_total,
            disk: disk_usage(reading.disks@).0,
            disk_total: disk_usage(reading.disks@).1,
            uptime: reading.uptime,
            agent_version: version_name(pkg_version@),
            active_tunnels: 0,
            adapters: adapters_view(adapters@),
        }),
{
    let (disk, disk_total): (u64, u64) = match find_root_disk(&reading.disks) {
        Some(i) => (
            reading.disks[i].total_space - reading.disks[i].available_space,
            reading.disks[i].total_space,
        ),
        None => (0, 0),
    };
    AgentToServer::Heartbeat {
        cpu_bits: reading.cpu_bits,
        mem: reading.mem,
        mem_total: reading.mem_total,
        disk,
        disk_total,
        uptime: reading.uptime,
        agent_version: agent_version(pkg_version),
        active_tunnels: 0,
        adapters,
    }
}

} // verus!
