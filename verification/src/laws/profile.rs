//! Laws of NetworkManager profiles.

use super::text::{
    law_first_line, law_first_line_with_return, law_last_line, law_prefix_of_sum,
    law_prefix_splits, law_trim,
};
use crate::health::{
    is_header, lemma_only_lines_before, mode_name, modes_of, profile_interface, profile_lines,
    profile_method, profile_of, section_at, setting,
};
use crate::text::{has_prefix, lines, trimmed, white_space};
use vstd::prelude::*;

verus! {

proof fn lemma_header(line: Seq<char>)
    ensures
        is_header(line) <==> line.len() > 0 && line[0] == '[',
{
    reveal_strlit("[");
    if line.len() > 0 {
        assert(line.take(1) == seq![line[0]]);
        assert("["@ == seq!['[']);
        assert(seq![line[0]][0] == line[0]);
        assert("["@[0] == '[');
    }
}

/// The section of a line is the one that the last header before it opens.
proof fn lemma_section(v: Seq<Seq<char>>, i: int, n: int)
    requires
        0 <= i < n <= v.len(),
        v[i].len() > 0 && v[i][0] == '[',
        forall|k: int| i < k < n ==> !(#[trigger] v[k].len() > 0 && v[k][0] == '['),
    ensures
        section_at(v, n) == Some(v[i]),
    decreases n,
{
    lemma_header(v[n - 1]);
    if n - 1 > i {
        assert(!(v[n - 1].len() > 0 && v[n - 1][0] == '['));
        lemma_section(v, i, n - 1);
    }
}

proof fn lemma_setting_found(
    v: Seq<Seq<char>>,
    header: Seq<char>,
    key: Seq<char>,
    i: int,
    j: int,
    n: int,
)
    requires
        0 <= i < j < n <= v.len(),
        header.len() > 0 && header[0] == '[',
        v[i] == header,
        forall|k: int| i < k <= j ==> !(#[trigger] v[k].len() > 0 && v[k][0] == '['),
        has_prefix(v[j], key),
        forall|k: int|
            j < k < n && has_prefix(#[trigger] v[k], key) ==> exists|h: int|
                j < h < k && (#[trigger] v[h]).len() > 0 && v[h][0] == '[' && v[h] != header
                    && no_header_between(v, h, k),
    ensures
        setting(v, header, key, n) == Some(v[j].skip(key.len() as int)),
    decreases n,
{
    lemma_header(v[n - 1]);
    if n - 1 == j {
        assert(!(v[j].len() > 0 && v[j][0] == '['));
        lemma_section(v, i, j);
    } else {
        if has_prefix(v[n - 1], key) {
            let h = choose|h: int|
                j < h < n - 1 && (#[trigger] v[h]).len() > 0 && v[h][0] == '[' && v[h] != header
                    && no_header_between(v, h, n - 1);
            lemma_section(v, h, n - 1);
        }
        lemma_setting_found(v, header, key, i, j, n - 1);
    }
}

/// Whether no line strictly between two others opens a section.
pub open spec fn no_header_between(v: Seq<Seq<char>>, from: int, to: int) -> bool {
    forall|k: int| from < k < to ==> !(#[trigger] v[k].len() > 0 && v[k][0] == '[')
}

proof fn lemma_section_source(v: Seq<Seq<char>>, header: Seq<char>, n: int) -> (i: int)
    requires
        0 <= n <= v.len(),
        section_at(v, n) == Some(header),
    ensures
        0 <= i < n,
        v[i] == header,
        no_header_between(v, i, n),
    decreases n,
{
    lemma_header(v[n - 1]);
    if is_header(v[n - 1]) {
        n - 1
    } else {
        lemma_section_source(v, header, n - 1)
    }
}

proof fn lemma_setting_source(v: Seq<Seq<char>>, header: Seq<char>, key: Seq<char>, n: int) -> (r: (
    int,
    int,
))
    requires
        0 <= n <= v.len(),
        setting(v, header, key, n) is Some,
    ensures
        0 <= r.0 < r.1 < n,
        v[r.0] == header,
        no_header_between(v, r.0, r.1 + 1),
        v[r.1] == key + setting(v, header, key, n)->0,
    decreases n,
{
    let last = v[n - 1];
    lemma_header(last);
    if !is_header(last) && section_at(v, n - 1) == Some(header) && has_prefix(last, key) {
        law_prefix_splits(last, key);
        let i = lemma_section_source(v, header, n - 1);
        (i, n - 1)
    } else {
        lemma_setting_source(v, header, key, n - 1)
    }
}

/// The method of a profile is what stands behind `method=` in an `[ipv4]` section,
/// where any line that begins with a bracket ends the section before it, in the last
/// line of that kind.
pub proof fn law_last_ipv4_method_counts(content: Seq<char>, i: int, j: int, method: Seq<char>)
    requires
        ({
            let v = profile_lines(content);
            &&& 0 <= i < j < v.len()
            &&& v[i] == "[ipv4]"@
            &&& forall|k: int| i < k <= j ==> !(#[trigger] v[k].len() > 0 && v[k][0] == '[')
            &&& v[j] == "method="@ + method
            &&& forall|k: int|
                j < k < v.len() && has_prefix(#[trigger] v[k], "method="@) ==> exists|h: int|
                    j < h < k && (#[trigger] v[h]).len() > 0 && v[h][0] == '[' && v[h] != "[ipv4]"@
                        && no_header_between(v, h, k)
        }),
    ensures
        profile_method(content) == Some(method),
{
    let v = profile_lines(content);
    reveal_strlit("[ipv4]");
    law_prefix_of_sum("method="@, method);
    lemma_setting_found(v, "[ipv4]"@, "method="@, i, j, v.len() as int);
    assert(v[j].skip("method="@.len() as int) == method);
}

/// A profile has a method only if one stands in an `[ipv4]` section, with no line
/// that begins with a bracket in between.
pub proof fn law_method_stands_in_ipv4(content: Seq<char>) -> (r: (int, int))
    requires
        profile_method(content) is Some,
    ensures
        ({
            let v = profile_lines(content);
            &&& 0 <= r.0 < r.1 < v.len()
            &&& v[r.0] == "[ipv4]"@
            &&& forall|k: int| r.0 < k <= r.1 ==> !(#[trigger] v[k].len() > 0 && v[k][0] == '[')
            &&& v[r.1] == "method="@ + profile_method(content)->0
        }),
{
    let v = profile_lines(content);
    lemma_setting_source(v, "[ipv4]"@, "method="@, v.len() as int)
}

/// The interface of a profile is what stands behind `interface-name=` in a
/// `[connection]` section, where any line that begins with a bracket ends the section
/// before it, in the last line of that kind.
pub proof fn law_last_interface_name_counts(content: Seq<char>, i: int, j: int, iface: Seq<char>)
    requires
        ({
            let v = profile_lines(content);
            &&& 0 <= i < j < v.len()
            &&& v[i] == "[connection]"@
            &&& forall|k: int| i < k <= j ==> !(#[trigger] v[k].len() > 0 && v[k][0] == '[')
            &&& v[j] == "interface-name="@ + iface
            &&& forall|k: int|
                j < k < v.len() && has_prefix(#[trigger] v[k], "interface-name="@) ==> exists|
                    h: int,
                |
                    j < h < k && (#[trigger] v[h]).len() > 0 && v[h][0] == '[' && v[h]
                        != "[connection]"@ && no_header_between(v, h, k)
        }),
    ensures
        profile_interface(content) == Some(iface),
{
    let v = profile_lines(content);
    reveal_strlit("[connection]");
    law_prefix_of_sum("interface-name="@, iface);
    lemma_setting_found(v, "[connection]"@, "interface-name="@, i, j, v.len() as int);
    assert(v[j].skip("interface-name="@.len() as int) == iface);
}

/// A profile names an interface only if one stands in a `[connection]` section, with
/// no line that begins with a bracket in between.
pub proof fn law_interface_stands_in_connection(content: Seq<char>) -> (r: (int, int))
    requires
        profile_interface(content) is Some,
    ensures
        ({
            let v = profile_lines(content);
            &&& 0 <= r.0 < r.1 < v.len()
            &&& v[r.0] == "[connection]"@
            &&& forall|k: int| r.0 < k <= r.1 ==> !(#[trigger] v[k].len() > 0 && v[k][0] == '[')
            &&& v[r.1] == "interface-name="@ + profile_interface(content)->0
        }),
{
    let v = profile_lines(content);
    lemma_setting_source(v, "[connection]"@, "interface-name="@, v.len() as int)
}

/// A section with another header has no part in a setting.
proof fn lemma_other_section_idle(
    before: Seq<Seq<char>>,
    other: Seq<char>,
    body: Seq<Seq<char>>,
    after: Seq<Seq<char>>,
    header: Seq<char>,
    key: Seq<char>,
)
    requires
        other.len() > 0 && other[0] == '[',
        other != header,
        forall|k: int| 0 <= k < body.len() ==> !(#[trigger] body[k].len() > 0 && body[k][0] == '['),
        after.len() > 0 ==> after[0].len() > 0 && after[0][0] == '[',
    ensures
        setting(
            before + seq![other] + body + after,
            header,
            key,
            (before + seq![other] + body + after).len() as int,
        ) == setting(before + after, header, key, (before + after).len() as int),
{
    let v = before + seq![other] + body + after;
    let w = before + after;
    let a = before.len() as int;
    let b = a + 1 + body.len() as int;
    lemma_only_lines_before(v, w, header, key, a);
    lemma_idle_body(v, header, key, a, b);
    lemma_same_after(v, w, header, key, b, a, after.len() as int);
}

proof fn lemma_idle_body(v: Seq<Seq<char>>, header: Seq<char>, key: Seq<char>, a: int, b: int)
    requires
        0 <= a < b <= v.len(),
        v[a].len() > 0 && v[a][0] == '[',
        v[a] != header,
        no_header_between(v, a, b),
    ensures
        setting(v, header, key, b) == setting(v, header, key, a),
    decreases b,
{
    lemma_header(v[b - 1]);
    if b - 1 > a {
        lemma_section(v, a, b - 1);
        lemma_idle_body(v, header, key, a, b - 1);
    }
}

/// What follows a header is read alike, wherever it stands.
proof fn lemma_same_after(
    v: Seq<Seq<char>>,
    w: Seq<Seq<char>>,
    header: Seq<char>,
    key: Seq<char>,
    a: int,
    b: int,
    n: int,
)
    requires
        0 <= a,
        0 <= b,
        0 <= n,
        a + n <= v.len(),
        b + n <= w.len(),
        forall|k: int| 0 <= k < n ==> v[a + k] == #[trigger] w[b + k],
        n > 0 ==> w[b].len() > 0 && w[b][0] == '[',
        setting(v, header, key, a) == setting(w, header, key, b),
    ensures
        setting(v, header, key, a + n) == setting(w, header, key, b + n),
        n > 0 ==> section_at(v, a + n) == section_at(w, b + n),
    decreases n,
{
    if n > 0 {
        lemma_same_after(v, w, header, key, a, b, n - 1);
        assert(v[a + (n - 1)] == w[b + (n - 1)]);
        lemma_header(w[b + n - 1]);
    }
}

/// A section that is neither `[ipv4]` nor `[connection]` has no part in what is read
/// off a profile: whatever its lines say, the profile without them reads the same.
pub proof fn law_other_sections_idle(
    with: Seq<char>,
    without: Seq<char>,
    before: Seq<Seq<char>>,
    header: Seq<char>,
    body: Seq<Seq<char>>,
    after: Seq<Seq<char>>,
)
    requires
        profile_lines(with) == before + seq![header] + body + after,
        profile_lines(without) == before + after,
        header.len() > 0 && header[0] == '[',
        forall|k: int| 0 <= k < body.len() ==> !(#[trigger] body[k].len() > 0 && body[k][0] == '['),
        after.len() > 0 ==> after[0].len() > 0 && after[0][0] == '[',
    ensures
        header != "[ipv4]"@ ==> profile_method(with) == profile_method(without),
        header != "[connection]"@ ==> profile_interface(with) == profile_interface(without),
        header != "[ipv4]"@ && header != "[connection]"@ ==> profile_of(with) == profile_of(without),
{
    if header != "[ipv4]"@ {
        lemma_other_section_idle(before, header, body, after, "[ipv4]"@, "method="@);
    }
    if header != "[connection]"@ {
        lemma_other_section_idle(
            before,
            header,
            body,
            after,
            "[connection]"@,
            "interface-name="@,
        );
    }
}

/// What stands before the first section has no part in what is read off a profile.
pub proof fn law_lines_before_sections_idle(
    content: Seq<char>,
    body: Seq<Seq<char>>,
    after: Seq<Seq<char>>,
    rest: Seq<char>,
)
    requires
        profile_lines(content) == body + after,
        profile_lines(rest) == after,
        forall|k: int| 0 <= k < body.len() ==> !(#[trigger] body[k].len() > 0 && body[k][0] == '['),
        after.len() > 0 ==> after[0].len() > 0 && after[0][0] == '[',
    ensures
        profile_of(content) == profile_of(rest),
{
    lemma_nothing_before_section(body + after, "[ipv4]"@, "method="@, body.len() as int);
    lemma_nothing_before_section(
        body + after,
        "[connection]"@,
        "interface-name="@,
        body.len() as int,
    );
    let n = after.len() as int;
    let a = body.len() as int;
    lemma_same_after(body + after, after, "[ipv4]"@, "method="@, a, 0, n);
    lemma_same_after(body + after, after, "[connection]"@, "interface-name="@, a, 0, n);
}

proof fn lemma_nothing_before_section(
    v: Seq<Seq<char>>,
    header: Seq<char>,
    key: Seq<char>,
    n: int,
)
    requires
        0 <= n <= v.len(),
        forall|k: int| 0 <= k < n ==> !(#[trigger] v[k].len() > 0 && v[k][0] == '['),
    ensures
        section_at(v, n) is None,
        setting(v, header, key, n) is None,
    decreases n,
{
    if n > 0 {
        lemma_header(v[n - 1]);
        lemma_nothing_before_section(v, header, key, n - 1);
    }
}

/// A profile is read line by line, without the white space around each line.
pub proof fn law_profile_is_read_by_lines(
    before: Seq<char>,
    core: Seq<char>,
    after: Seq<char>,
    rest: Seq<char>,
)
    requires
        forall|i: int| 0 <= i < before.len() ==> white_space(#[trigger] before[i]),
        forall|i: int| 0 <= i < after.len() ==> white_space(#[trigger] after[i]),
        core.len() > 0 ==> !white_space(core[0]) && !white_space(core[core.len() - 1]),
        !(before + core + after).contains('\n'),
    ensures
        profile_lines(before + core + after + seq!['\n'] + rest) == seq![core] + profile_lines(rest),
        profile_lines(before + core + after) == if before.len() + core.len() + after.len() == 0 {
            Seq::<Seq<char>>::empty()
        } else {
            seq![core]
        },
{
    let line = before + core + after;
    let all = line + seq!['\n'] + rest;
    law_trim(before, core, after);
    law_last_line(line);
    assert(profile_lines(line) == if line.len() == 0 {
        Seq::<Seq<char>>::empty()
    } else {
        seq![core]
    });
    if line.len() > 0 && line[line.len() - 1] == '\r' {
        let first = line.drop_last();
        assert(white_space('\r'));
        assert forall|i: int| 0 <= i < first.len() implies first[i] != '\n' by {
            assert(first[i] == line[i]);
        }
        assert(all == first + seq!['\r', '\n'] + rest);
        law_first_line_with_return(first, rest);
        if after.len() > 0 {
            assert(first == before + core + after.drop_last());
            law_trim(before, core, after.drop_last());
        } else if core.len() > 0 {
            assert(line[line.len() - 1] == core[core.len() - 1]);
        } else {
            assert(first == before.drop_last() + core + after);
            law_trim(before.drop_last(), core, after);
        }
        assert(lines(all) == seq![first] + lines(rest));
        assert(trimmed(first) == core);
    } else {
        law_first_line(line, rest);
        assert(lines(all) == seq![line] + lines(rest));
    }
    assert(profile_lines(all) == seq![core] + profile_lines(rest));
}

/// A profile gives an interface its mode just if it names both an interface and a
/// method.
pub proof fn law_profile_needs_both(content: Seq<char>)
    ensures
        profile_of(content) is Some <==> profile_interface(content) is Some && profile_method(
            content,
        ) is Some,
        profile_of(content) matches Some((iface, mode)) ==> profile_interface(content) == Some(
            iface,
        ) && mode == mode_name(profile_method(content)->0),
{
}

/// The methods that the server knows by a name of its own are told by that name, and
/// every other as it is.
pub proof fn law_mode_names(method: Seq<char>)
    ensures
        mode_name("manual"@) == "Static"@,
        mode_name("auto"@) == "DHCP"@,
        mode_name("shared"@) == "Shared"@,
        mode_name("link-local"@) == "Link-Local"@,
        mode_name("disabled"@) == "Disabled"@,
        method != "manual"@ && method != "auto"@ && method != "shared"@ && method != "link-local"@
            && method != "disabled"@ ==> mode_name(method) == method,
{
    reveal_strlit("manual");
    reveal_strlit("auto");
    reveal_strlit("shared");
    reveal_strlit("link-local");
    reveal_strlit("disabled");
    assert("manual"@.len() == 6 && "auto"@.len() == 4 && "shared"@.len() == 6);
    assert("link-local"@.len() == 10 && "disabled"@.len() == 8);
    assert("manual"@[0] != "shared"@[0]);
}

/// A profile that lacks an interface or a method decides nothing, and no profiles
/// give no modes.
pub proof fn law_incomplete_profile_idle(contents: Seq<Seq<char>>, content: Seq<char>)
    requires
        profile_interface(content) is None || profile_method(content) is None,
    ensures
        modes_of(contents.push(content)) == modes_of(contents),
        modes_of(Seq::<Seq<char>>::empty()) == Map::<Seq<char>, Seq<char>>::empty(),
{
    assert(contents.push(content).drop_last() == contents);
}

/// An interface has a mode only from a profile that names it, and it is the mode of
/// the last such profile.
pub proof fn law_mode_comes_from_profile(contents: Seq<Seq<char>>, iface: Seq<char>) -> (i: int)
    requires
        modes_of(contents).contains_key(iface),
    ensures
        0 <= i < contents.len(),
        profile_of(contents[i]) == Some((iface, modes_of(contents)[iface])),
        forall|k: int|
            i < k < contents.len() ==> profile_interface(#[trigger] contents[k]) != Some(iface)
                || profile_method(contents[k]) is None,
    decreases contents.len(),
{
    let last = contents.last();
    let front = contents.drop_last();
    match profile_of(last) {
        Some((found, mode)) if found == iface => contents.len() - 1,
        _ => {
            let i = law_mode_comes_from_profile(front, iface);
            assert(front[i] == contents[i]);
            assert forall|k: int| i < k < contents.len() implies profile_interface(
                #[trigger] contents[k],
            ) != Some(iface) || profile_method(contents[k]) is None by {
                if k < front.len() {
                    assert(front[k] == contents[k]);
                }
            }
            i
        },
    }
}

} // verus!
