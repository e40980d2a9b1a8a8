//! Laws of addresses: subnet masks, and what is read off the outputs of `ip`.

use super::text::{
    law_decimal, law_first_line, law_first_line_with_return, law_first_piece, law_first_word,
    law_last_line, law_lines_of_sum, law_no_words, law_one_piece, law_small_number_of_digits,
    law_small_number_refuses,
};
use crate::health::{
    dotted, first_starting, first_with, gateway_of, ip_address_of, ip_info_of, mask_value,
    output_text, subnet_mask, subnet_mask_of, utf8_lossy,
};
use crate::text::{
    decimal, digits_value, has_prefix, leading, lemma_leading, lemma_leading_bounds, lines, pieces,
    trimmed_start, white_space, words,
};
use vstd::arithmetic::power2::pow2;
use vstd::prelude::*;

verus! {

/// A 32-bit number in dotted form is four numbers in digits with dots between them,
/// each below 256; together they give the number back, the first weighing most.
pub proof fn law_dotted_reads_back(n: nat) -> (parts: (Seq<char>, Seq<char>, Seq<char>, Seq<char>))
    requires
        n < 0x1_0000_0000,
    ensures
        dotted(n) == parts.0 + seq!['.'] + parts.1 + seq!['.'] + parts.2 + seq!['.'] + parts.3,
        forall|i: int| 0 <= i < parts.0.len() ==> '0' <= #[trigger] parts.0[i] <= '9',
        forall|i: int| 0 <= i < parts.1.len() ==> '0' <= #[trigger] parts.1[i] <= '9',
        forall|i: int| 0 <= i < parts.2.len() ==> '0' <= #[trigger] parts.2[i] <= '9',
        forall|i: int| 0 <= i < parts.3.len() ==> '0' <= #[trigger] parts.3[i] <= '9',
        parts.0 == decimal(digits_value(parts.0)) && digits_value(parts.0) < 256,
        parts.1 == decimal(digits_value(parts.1)) && digits_value(parts.1) < 256,
        parts.2 == decimal(digits_value(parts.2)) && digits_value(parts.2) < 256,
        parts.3 == decimal(digits_value(parts.3)) && digits_value(parts.3) < 256,
        digits_value(parts.0) * 0x100_0000 + digits_value(parts.1) * 0x1_0000 + digits_value(
            parts.2,
        ) * 0x100 + digits_value(parts.3) == n,
{
    reveal_strlit(".");
    assert("."@ == seq!['.']);
    law_decimal(n / 0x100_0000);
    law_decimal(n / 0x1_0000 % 0x100);
    law_decimal(n / 0x100 % 0x100);
    law_decimal(n % 0x100);
    (
        decimal(n / 0x100_0000),
        decimal(n / 0x1_0000 % 0x100),
        decimal(n / 0x100 % 0x100),
        decimal(n % 0x100),
    )
}

/// A prefix length up to 32 has the mask which, with the addresses that the prefix
/// leaves open, makes up all 32 bits; a longer prefix has none.
pub proof fn law_mask_of_prefix(prefix: u8) -> (mask: nat)
    ensures
        prefix > 32 ==> subnet_mask(prefix) is None,
        prefix <= 32 ==> {
            &&& subnet_mask(prefix) == Some(dotted(mask))
            &&& mask + pow2((32 - prefix) as nat) == 0x1_0000_0000
            &&& mask < 0x1_0000_0000
        },
{
    vstd::arithmetic::power2::lemma2_to64();
    if prefix <= 32 {
        let open = (32 - prefix) as nat;
        vstd::arithmetic::power2::lemma_pow2_pos(open);
        if open < 32 {
            vstd::arithmetic::power2::lemma_pow2_strictly_increases(open, 32);
        }
    }
    mask_value(prefix as nat)
}

/// The first word that holds `c`, if what stands before it holds none.
proof fn lemma_first_word_with(before: Seq<char>, word: Seq<char>, tail: Seq<char>, c: char)
    requires
        !before.contains(c),
        before.len() > 0 ==> white_space(before[before.len() - 1]),
        word.contains(c),
        forall|i: int| 0 <= i < word.len() ==> !white_space(#[trigger] word[i]),
        tail.len() > 0 ==> white_space(tail[0]),
    ensures
        first_with(words(before + word + tail), c) == Some(word),
    decreases before.len(),
{
    lemma_leading_bounds(before, true);
    let n = leading(before, true) as int;
    if n == before.len() {
        law_first_word(before, word, tail);
    } else {
        let white = before.take(n);
        let t = before.skip(n);
        lemma_leading_bounds(t, false);
        let m = leading(t, false) as int;
        assert(t[0] == before[n]);
        assert(t[t.len() - 1] == before[before.len() - 1]);
        assert(m > 0);
        assert(m < t.len());
        let g = t.take(m);
        let rest = t.skip(m);
        assert(before == white + g + rest);
        assert(rest[0] == t[m]);
        assert(rest[rest.len() - 1] == before[before.len() - 1]);
        assert forall|i: int| 0 <= i < g.len() implies g[i] != c by {
            assert(g[i] == before[n + i]);
        }
        assert forall|i: int| 0 <= i < rest.len() implies rest[i] != c by {
            assert(rest[i] == before[n + m + i]);
        }
        let after = rest + word + tail;
        assert(before + word + tail == white + g + after);
        law_first_word(white, g, after);
        let all = words(before + word + tail);
        assert(all[0] == g);
        assert(all.drop_first() == words(after));
        lemma_first_word_with(rest, word, tail, c);
    }
}

/// A word with `c` in it stands only in a text with `c` in it.
proof fn lemma_word_from_text(s: Seq<char>, c: char)
    ensures
        first_with(words(s), c) is Some ==> s.contains(c),
    decreases s.len(),
{
    let t = trimmed_start(s);
    lemma_leading_bounds(s, true);
    if t.len() > 0 {
        lemma_leading_bounds(t, false);
        let n = leading(s, true) as int;
        let m = leading(t, false) as int;
        assert(t[0] == s[n]);
        assert(m > 0);
        let word = t.take(m);
        let rest = t.skip(m);
        assert(words(s) == seq![word] + words(rest));
        assert(words(s).drop_first() == words(rest));
        lemma_word_from_text(rest, c);
        if word.contains(c) {
            let i = choose|i: int| 0 <= i < word.len() && word[i] == c;
            assert(s[n + i] == c);
        } else if rest.contains(c) {
            let i = choose|i: int| 0 <= i < rest.len() && rest[i] == c;
            assert(s[n + m + i] == c);
        }
    }
}

/// The text before the first slash, back to white space, is the address, and what
/// stands behind that slash, up to white space or another slash, is the prefix
/// length, whatever else the output holds: in digits up to 32 it gives the mask of
/// that prefix, and a number above that, or anything but a number, gives none.
pub proof fn law_address_stands_before_slash(
    before: Seq<char>,
    ip: Seq<char>,
    bits: Seq<char>,
    tail: Seq<char>,
)
    requires
        !before.contains('/'),
        before.len() > 0 ==> white_space(before[before.len() - 1]),
        !ip.contains('/'),
        forall|i: int| 0 <= i < ip.len() ==> !white_space(#[trigger] ip[i]),
        !bits.contains('/'),
        forall|i: int| 0 <= i < bits.len() ==> !white_space(#[trigger] bits[i]),
        tail.len() > 0 ==> white_space(tail[0]) || tail[0] == '/',
    ensures
        ({
            let output = before + ip + seq!['/'] + bits + tail;
            let digits = bits.len() > 0 && forall|i: int|
                0 <= i < bits.len() ==> '0' <= #[trigger] bits[i] <= '9';
            &&& ip_address_of(output) == Some(ip)
            &&& digits && digits_value(bits) <= 32 ==> subnet_mask_of(output) == subnet_mask(
                digits_value(bits) as u8,
            )
            &&& digits && digits_value(bits) > 32 ==> subnet_mask_of(output) is None
            &&& !digits && !(bits.len() > 0 && bits[0] == '+') ==> subnet_mask_of(output) is None
        }),
{
    lemma_cidr(before, ip, bits, tail);
    if bits.len() == 0 {
        law_small_number_refuses(bits, 0);
    } else if forall|i: int| 0 <= i < bits.len() ==> '0' <= #[trigger] bits[i] <= '9' {
        law_small_number_of_digits(bits);
    } else if bits[0] != '+' {
        let i = choose|i: int| 0 <= i < bits.len() && !('0' <= #[trigger] bits[i] <= '9');
        law_small_number_refuses(bits, i);
    }
}

/// A plus sign before the digits of the prefix length makes no difference; before
/// anything else, or alone, it leaves the output without a mask.
pub proof fn law_plus_before_prefix(
    before: Seq<char>,
    ip: Seq<char>,
    bits: Seq<char>,
    tail: Seq<char>,
)
    requires
        !before.contains('/'),
        before.len() > 0 ==> white_space(before[before.len() - 1]),
        !ip.contains('/'),
        forall|i: int| 0 <= i < ip.len() ==> !white_space(#[trigger] ip[i]),
        !bits.contains('/'),
        forall|i: int| 0 <= i < bits.len() ==> !white_space(#[trigger] bits[i]),
        tail.len() > 0 ==> white_space(tail[0]) || tail[0] == '/',
    ensures
        ({
            let signed = before + ip + seq!['/'] + (seq!['+'] + bits) + tail;
            let plain = before + ip + seq!['/'] + bits + tail;
            let digits = bits.len() > 0 && forall|i: int|
                0 <= i < bits.len() ==> '0' <= #[trigger] bits[i] <= '9';
            &&& ip_address_of(signed) == Some(ip)
            &&& digits ==> subnet_mask_of(signed) == subnet_mask_of(plain)
            &&& !digits ==> subnet_mask_of(signed) is None
        }),
{
    let plus = seq!['+'] + bits;
    assert forall|i: int| 0 <= i < plus.len() implies !white_space(#[trigger] plus[i]) && plus[i]
        != '/' by {
        if i > 0 {
            assert(plus[i] == bits[i - 1]);
        }
    }
    lemma_cidr(before, ip, bits, tail);
    lemma_cidr(before, ip, plus, tail);
    if bits.len() == 0 {
        assert(plus == seq!['+']);
        law_small_number_refuses(plus, 0);
    } else if forall|i: int| 0 <= i < bits.len() ==> '0' <= #[trigger] bits[i] <= '9' {
        law_small_number_of_digits(bits);
    } else {
        let i = choose|i: int| 0 <= i < bits.len() && !('0' <= #[trigger] bits[i] <= '9');
        assert(plus[i + 1] == bits[i]);
        law_small_number_refuses(plus, i + 1);
    }
}

/// The word with the first slash begins with what stands between.
proof fn lemma_cidr(before: Seq<char>, ip: Seq<char>, bits: Seq<char>, tail: Seq<char>) -> (word:
    Seq<char>)
    requires
        !before.contains('/'),
        before.len() > 0 ==> white_space(before[before.len() - 1]),
        !ip.contains('/'),
        forall|i: int| 0 <= i < ip.len() ==> !white_space(#[trigger] ip[i]),
        !bits.contains('/'),
        forall|i: int| 0 <= i < bits.len() ==> !white_space(#[trigger] bits[i]),
        tail.len() > 0 ==> white_space(tail[0]) || tail[0] == '/',
    ensures
        first_with(words(before + ip + seq!['/'] + bits + tail), '/') == Some(word),
        pieces(word, '/')[0] == ip,
        pieces(word, '/')[1] == bits,
{
    lemma_leading_bounds(tail, false);
    let n = leading(tail, false) as int;
    let more = tail.take(n);
    let rest = tail.skip(n);
    let word = ip + seq!['/'] + (bits + more);
    assert(!white_space('/'));
    assert forall|i: int| 0 <= i < word.len() implies !white_space(#[trigger] word[i]) by {
        if i < ip.len() {
            assert(word[i] == ip[i]);
        } else if i > ip.len() {
            let j = i - ip.len() - 1;
            if j < bits.len() {
                assert(word[i] == bits[j]);
            } else {
                assert(word[i] == tail[j - bits.len()]);
            }
        }
    }
    assert(word[ip.len() as int] == '/');
    assert(before + word + rest == before + ip + seq!['/'] + bits + tail);
    lemma_first_word_with(before, word, rest, '/');
    law_first_piece(ip, '/', bits + more);
    if more.len() == 0 {
        assert(bits + more == bits);
        law_one_piece(bits, '/');
    } else {
        assert(more[0] == tail[0]);
        let others = more.drop_first();
        assert(bits + more == bits + seq!['/'] + others);
        law_first_piece(bits, '/', others);
    }
    word
}

/// An output without a slash has neither an address nor a mask.
pub proof fn law_no_slash_no_address(output: Seq<char>)
    requires
        !output.contains('/'),
    ensures
        ip_address_of(output) is None,
        subnet_mask_of(output) is None,
{
    lemma_word_from_text(output, '/');
}

proof fn lemma_first_starting_of_sum(a: Seq<Seq<char>>, b: Seq<Seq<char>>, prefix: Seq<char>)
    requires
        forall|i: int| 0 <= i < a.len() ==> !has_prefix(#[trigger] a[i], prefix),
    ensures
        first_starting(a + b, prefix) == first_starting(b, prefix),
    decreases a.len(),
{
    if a.len() == 0 {
        assert(a + b == b);
    } else {
        assert((a + b)[0] == a[0]);
        assert((a + b).drop_first() == a.drop_first() + b);
        assert forall|i: int| 0 <= i < a.drop_first().len() implies !has_prefix(
            #[trigger] a.drop_first()[i],
            prefix,
        ) by {
            assert(a.drop_first()[i] == a[i + 1]);
        }
        lemma_first_starting_of_sum(a.drop_first(), b, prefix);
    }
}

/// The words of a line that begins with `default via` and more of that word.
proof fn lemma_route_words(more: Seq<char>, rest: Seq<char>)
    requires
        forall|i: int| 0 <= i < more.len() ==> !white_space(#[trigger] more[i]),
        rest.len() > 0 ==> white_space(rest[0]),
    ensures
        words("default via"@ + more + rest) == seq!["default"@, "via"@ + more] + words(rest),
{
    reveal_strlit("default via");
    reveal_strlit("default");
    reveal_strlit("via");
    let line = "default via"@ + more + rest;
    let second = "via"@ + more;
    assert(line == Seq::<char>::empty() + "default"@ + (seq![' '] + second + rest));
    law_first_word(Seq::empty(), "default"@, seq![' '] + second + rest);
    assert forall|i: int| 0 <= i < second.len() implies !white_space(#[trigger] second[i]) by {
        if i >= 3 {
            assert(second[i] == more[i - 3]);
        }
    }
    assert(second.len() > 0);
    law_first_word(seq![' '], second, rest);
    assert(seq!["default"@] + (seq![second] + words(rest)) == seq!["default"@, second] + words(
        rest,
    ));
}

/// The first line of what a line begins.
proof fn lemma_line_of(line: Seq<char>, tail: Seq<char>) -> (first: Seq<char>)
    requires
        !line.contains('\n'),
        line.len() > 0,
        tail.len() > 0 ==> tail[0] == '\n',
    ensures
        lines(line + tail).len() > 0,
        lines(line + tail)[0] == first,
        first == line || (line[line.len() - 1] == '\r' && first == line.drop_last()),
{
    if tail.len() == 0 {
        assert(line + tail == line);
        law_last_line(line);
        line
    } else if line[line.len() - 1] == '\r' {
        let first = line.drop_last();
        let after = tail.drop_first();
        assert forall|i: int| 0 <= i < first.len() implies first[i] != '\n' by {
            assert(first[i] == line[i]);
        }
        assert(line + tail == first + seq!['\r', '\n'] + after);
        law_first_line_with_return(first, after);
        first
    } else {
        let after = tail.drop_first();
        assert(line + tail == line + seq!['\n'] + after);
        law_first_line(line, after);
        line
    }
}

/// The gateway is the word behind the white space after `default via`, in the first
/// line that begins so, whatever follows it in the line and in the output.
pub proof fn law_gateway_is_third_word(
    before: Seq<char>,
    more: Seq<char>,
    white: Seq<char>,
    gateway: Seq<char>,
    rest: Seq<char>,
    tail: Seq<char>,
)
    requires
        before.len() > 0 ==> before[before.len() - 1] == '\n',
        forall|i: int|
            0 <= i < lines(before).len() ==> (#[trigger] lines(before)[i]).len() < 11 || lines(
                before,
            )[i].take(11) != "default via"@,
        forall|i: int| 0 <= i < more.len() ==> !white_space(#[trigger] more[i]),
        white.len() > 0,
        forall|i: int| 0 <= i < white.len() ==> white_space(#[trigger] white[i]),
        gateway.len() > 0,
        forall|i: int| 0 <= i < gateway.len() ==> !white_space(#[trigger] gateway[i]),
        rest.len() > 0 ==> white_space(rest[0]),
        !("default via"@ + more + white + gateway + rest).contains('\n'),
        tail.len() > 0 ==> tail[0] == '\n',
    ensures
        gateway_of(before + ("default via"@ + more + white + gateway + rest) + tail) == Some(
            gateway,
        ),
{
    let line = "default via"@ + more + white + gateway + rest;
    reveal_strlit("default via");
    assert(line.take(11) == "default via"@);
    let first = lemma_line_of(line, tail);
    lemma_route(before, line, tail, first);
    let kept = if first == line {
        rest
    } else {
        rest.drop_last()
    };
    if first != line {
        if rest.len() == 0 {
            assert(line[line.len() - 1] == gateway[gateway.len() - 1]);
            assert(white_space('\r'));
        }
        assert(first == "default via"@ + more + white + gateway + kept);
        if kept.len() > 0 {
            assert(kept[0] == rest[0]);
        }
    }
    let behind = white + gateway + kept;
    assert(first == "default via"@ + more + behind);
    assert(behind[0] == white[0]);
    lemma_route_words(more, behind);
    law_first_word(white, gateway, kept);
    assert(words(first)[2] == words(behind)[0]);
}

/// Without a word behind `default via` in the first line that begins so, there is no
/// gateway, whatever the lines after it say.
pub proof fn law_no_third_word_no_gateway(
    before: Seq<char>,
    more: Seq<char>,
    white: Seq<char>,
    tail: Seq<char>,
)
    requires
        before.len() > 0 ==> before[before.len() - 1] == '\n',
        forall|i: int|
            0 <= i < lines(before).len() ==> (#[trigger] lines(before)[i]).len() < 11 || lines(
                before,
            )[i].take(11) != "default via"@,
        forall|i: int| 0 <= i < more.len() ==> !white_space(#[trigger] more[i]),
        forall|i: int| 0 <= i < white.len() ==> white_space(#[trigger] white[i]),
        !("default via"@ + more + white).contains('\n'),
        tail.len() > 0 ==> tail[0] == '\n',
    ensures
        gateway_of(before + ("default via"@ + more + white) + tail) is None,
{
    let line = "default via"@ + more + white;
    reveal_strlit("default via");
    assert(line.take(11) == "default via"@);
    let first = lemma_line_of(line, tail);
    lemma_route(before, line, tail, first);
    let kept = if first == line {
        white
    } else {
        white.drop_last()
    };
    if first != line {
        if white.len() == 0 {
            assert(white_space('\r'));
            if more.len() > 0 {
                assert(line[line.len() - 1] == more[more.len() - 1]);
            }
        }
        assert(first == "default via"@ + more + kept);
    }
    assert forall|i: int| 0 <= i < kept.len() implies white_space(#[trigger] kept[i]) by {
        assert(kept[i] == white[i]);
    }
    lemma_route_words(more, kept);
    law_no_words(kept);
}

/// The first line that begins with `default via`.
proof fn lemma_route(before: Seq<char>, line: Seq<char>, tail: Seq<char>, first: Seq<char>)
    requires
        before.len() > 0 ==> before[before.len() - 1] == '\n',
        forall|i: int|
            0 <= i < lines(before).len() ==> (#[trigger] lines(before)[i]).len() < 11 || lines(
                before,
            )[i].take(11) != "default via"@,
        line.len() >= 11,
        line.take(11) == "default via"@,
        lines(line + tail).len() > 0,
        lines(line + tail)[0] == first,
        first == line || (line[line.len() - 1] == '\r' && first == line.drop_last()),
    ensures
        first_starting(lines(before + line + tail), "default via"@) == Some(first),
{
    reveal_strlit("default via");
    assert(before + line + tail == before + (line + tail));
    law_lines_of_sum(before, line + tail);
    lemma_first_starting_of_sum(lines(before), lines(line + tail), "default via"@);
    assert(has_prefix(first, "default via"@)) by {
        if first != line && line.len() == 11 {
            assert(line.take(11)[10] == 'a');
        }
        assert(first.len() >= 11);
        assert(first.take(11) == line.take(11));
    }
}

/// Without a line that begins with `default via` there is no gateway.
pub proof fn law_no_route_no_gateway(output: Seq<char>)
    requires
        forall|i: int|
            0 <= i < lines(output).len() ==> (#[trigger] lines(output)[i]).len() < 11 || lines(
                output,
            )[i].take(11) != "default via"@,
    ensures
        gateway_of(output) is None,
{
    reveal_strlit("default via");
    let none = Seq::<Seq<char>>::empty();
    assert(lines(output) + none == lines(output));
    lemma_first_starting_of_sum(lines(output), none, "default via"@);
}

/// An output that is not valid UTF-8 is read all the same, as the text that replaces
/// what is not.
pub proof fn law_broken_outputs_are_read(
    addr: Seq<u8>,
    route: Seq<u8>,
    other_addr: Option<Seq<u8>>,
    other_route: Option<Seq<u8>>,
)
    ensures
        !vstd::utf8::valid_utf8(addr) ==> {
            &&& ip_info_of(Some(addr), other_route).0 == ip_address_of(utf8_lossy(addr))
            &&& ip_info_of(Some(addr), other_route).1 == subnet_mask_of(utf8_lossy(addr))
        },
        !vstd::utf8::valid_utf8(route) ==> ip_info_of(other_addr, Some(route)).2 == gateway_of(
            utf8_lossy(route),
        ),
{
}

/// The address and the mask are read off the text of the one output, the gateway off
/// the text of the other; what could not be run gives none of them.
pub proof fn law_outputs_are_read_as_text(
    addr: Seq<char>,
    route: Seq<char>,
    other_addr: Option<Seq<u8>>,
    other_route: Option<Seq<u8>>,
)
    ensures
        ({
            let (addr_bytes, route_bytes) = (
                vstd::utf8::encode_utf8(addr),
                vstd::utf8::encode_utf8(route),
            );
            &&& output_text(addr_bytes) == addr
            &&& ip_info_of(Some(addr_bytes), other_route).0 == ip_address_of(addr)
            &&& ip_info_of(Some(addr_bytes), other_route).1 == subnet_mask_of(addr)
            &&& ip_info_of(other_addr, Some(route_bytes)).2 == gateway_of(route)
            &&& ip_info_of(None, other_route).0 is None
            &&& ip_info_of(None, other_route).1 is None
            &&& ip_info_of(other_addr, None).2 is None
        }),
{
    vstd::utf8::encode_utf8_valid_utf8(addr);
    vstd::utf8::encode_utf8_decode_utf8(addr);
    vstd::utf8::encode_utf8_valid_utf8(route);
    vstd::utf8::encode_utf8_decode_utf8(route);
}

} // verus!
