//! Laws of text handling.

use crate::text::{
    decimal, digits_value, has_prefix, is_digit, leading, lemma_leading, lemma_leading_bounds,
    lemma_until, lines, pieces, small_number, texts, trimmed, trimmed_end, trimmed_start, until,
    white_space, without_return, words,
};
use vstd::prelude::*;

verus! {

/// White space is tab, line feed, vertical tab, form feed, carriage return, space,
/// and what Unicode counts as such beyond ASCII: next line, the spaces of all widths,
/// the line and the paragraph separator.
pub proof fn law_white_space(c: char)
    ensures
        c < '\u{80}' ==> (white_space(c) <==> c == '\t' || c == '\n' || c == '\u{B}' || c == '\u{C}'
            || c == '\r' || c == ' '),
        c >= '\u{80}' ==> (white_space(c) <==> c == '\u{85}' || c == '\u{A0}' || c == '\u{1680}'
            || '\u{2000}' <= c <= '\u{200A}' || c == '\u{2028}' || c == '\u{2029}' || c
            == '\u{202F}' || c == '\u{205F}' || c == '\u{3000}'),
{
}

/// The texts of parts are those of each part, in the same order.
pub proof fn law_texts_in_order(parts: Seq<&[char]>, i: int)
    ensures
        texts(parts).len() == parts.len(),
        0 <= i < parts.len() ==> texts(parts)[i] == parts[i]@,
{
}

/// A text begins with whatever it was put together from first.
pub proof fn law_prefix_of_sum(prefix: Seq<char>, rest: Seq<char>)
    ensures
        has_prefix(prefix + rest, prefix),
{
    assert((prefix + rest).take(prefix.len() as int) == prefix);
}

/// A text that begins with a prefix is that prefix and a rest.
pub proof fn law_prefix_splits(s: Seq<char>, prefix: Seq<char>)
    requires
        has_prefix(s, prefix),
    ensures
        prefix.len() <= s.len(),
        s == prefix + s.skip(prefix.len() as int),
{
    assert(s == s.take(prefix.len() as int) + s.skip(prefix.len() as int));
}

/// Trimming takes white space off both ends, and nothing else.
pub proof fn law_trim(before: Seq<char>, core: Seq<char>, after: Seq<char>)
    requires
        forall|i: int| 0 <= i < before.len() ==> white_space(#[trigger] before[i]),
        forall|i: int| 0 <= i < after.len() ==> white_space(#[trigger] after[i]),
        core.len() > 0 ==> !white_space(core[0]) && !white_space(core[core.len() - 1]),
    ensures
        trimmed(before + core + after) == core,
{
    let s = before + core + after;
    if core.len() > 0 {
        lemma_leading(s, true, before.len());
        assert(trimmed_start(s) == core + after);
    } else {
        lemma_leading(s, true, s.len());
        assert(trimmed_start(s) == core + Seq::<char>::empty());
    }
    if core.len() > 0 {
        lemma_trim_end(core, after);
    } else {
        lemma_trim_end(core, Seq::<char>::empty());
    }
}

proof fn lemma_trim_end(core: Seq<char>, after: Seq<char>)
    requires
        forall|i: int| 0 <= i < after.len() ==> white_space(#[trigger] after[i]),
        core.len() > 0 ==> !white_space(core[core.len() - 1]),
    ensures
        trimmed_end(core + after) == core,
    decreases after.len(),
{
    if after.len() > 0 {
        assert((core + after).last() == after[after.len() - 1]);
        assert((core + after).drop_last() == core + after.drop_last());
        lemma_trim_end(core, after.drop_last());
    } else {
        assert(core + after == core);
    }
}

proof fn lemma_trim_end_splits(s: Seq<char>) -> (after: Seq<char>)
    ensures
        s == trimmed_end(s) + after,
        forall|i: int| 0 <= i < after.len() ==> white_space(#[trigger] after[i]),
        trimmed_end(s).len() > 0 ==> !white_space(trimmed_end(s)[trimmed_end(s).len() - 1]),
    decreases s.len(),
{
    if s.len() > 0 && white_space(s.last()) {
        let rest = lemma_trim_end_splits(s.drop_last());
        let after = rest.push(s.last());
        assert(s == s.drop_last().push(s.last()));
        assert(s == trimmed_end(s) + after);
        after
    } else {
        assert(s == trimmed_end(s) + Seq::<char>::empty());
        Seq::empty()
    }
}

/// Every text is its trimmed part with white space around it.
pub proof fn law_trim_splits(s: Seq<char>) -> (around: (Seq<char>, Seq<char>))
    ensures
        s == around.0 + trimmed(s) + around.1,
        forall|i: int| 0 <= i < around.0.len() ==> white_space(#[trigger] around.0[i]),
        forall|i: int| 0 <= i < around.1.len() ==> white_space(#[trigger] around.1[i]),
        trimmed(s).len() > 0 ==> !white_space(trimmed(s)[0]) && !white_space(
            trimmed(s)[trimmed(s).len() - 1],
        ),
{
    lemma_leading_bounds(s, true);
    let n = leading(s, true) as int;
    let before = s.take(n);
    let t = trimmed_start(s);
    let after = lemma_trim_end_splits(t);
    assert(s == before + t);
    assert(s == before + trimmed(s) + after);
    if trimmed(s).len() > 0 {
        assert(trimmed(s)[0] == t[0]);
        assert(t[0] == s[n]);
    }
    (before, after)
}

/// White space around a text makes no difference to what is left of it by trimming.
pub proof fn law_trim_ignores_white_space(before: Seq<char>, s: Seq<char>, after: Seq<char>)
    requires
        forall|i: int| 0 <= i < before.len() ==> white_space(#[trigger] before[i]),
        forall|i: int| 0 <= i < after.len() ==> white_space(#[trigger] after[i]),
    ensures
        trimmed(before + s + after) == trimmed(s),
{
    let (first, last) = law_trim_splits(s);
    assert forall|i: int| 0 <= i < (before + first).len() implies white_space(
        #[trigger] (before + first)[i],
    ) by {
        if i >= before.len() {
            assert((before + first)[i] == first[i - before.len()]);
        }
    }
    assert forall|i: int| 0 <= i < (last + after).len() implies white_space(
        #[trigger] (last + after)[i],
    ) by {
        if i >= last.len() {
            assert((last + after)[i] == after[i - last.len()]);
        }
    }
    law_trim(before + first, trimmed(s), last + after);
    assert(before + s + after == (before + first) + trimmed(s) + (last + after));
}

/// The first word of a text is what stands between white space, or the start, and
/// the next white space, or the end; the other words are those of what follows.
pub proof fn law_first_word(before: Seq<char>, word: Seq<char>, rest: Seq<char>)
    requires
        forall|i: int| 0 <= i < before.len() ==> white_space(#[trigger] before[i]),
        word.len() > 0,
        forall|i: int| 0 <= i < word.len() ==> !white_space(#[trigger] word[i]),
        rest.len() > 0 ==> white_space(rest[0]),
    ensures
        words(before + word + rest) == seq![word] + words(rest),
{
    let s = before + word + rest;
    lemma_leading(s, true, before.len());
    let t = trimmed_start(s);
    assert(t == word + rest);
    lemma_leading(t, false, word.len());
    assert(t.take(word.len() as int) == word);
    assert(t.skip(word.len() as int) == rest);
}

/// White space holds no words.
pub proof fn law_no_words(s: Seq<char>)
    requires
        forall|i: int| 0 <= i < s.len() ==> white_space(#[trigger] s[i]),
    ensures
        words(s) == Seq::<Seq<char>>::empty(),
{
    lemma_leading(s, true, s.len());
    assert(trimmed_start(s).len() == 0);
}

/// Splitting at a separator ends the first piece at the first separator.
pub proof fn law_first_piece(first: Seq<char>, sep: char, rest: Seq<char>)
    requires
        !first.contains(sep),
    ensures
        pieces(first + seq![sep] + rest, sep) == seq![first] + pieces(rest, sep),
{
    let s = first + seq![sep] + rest;
    assert forall|j: int| 0 <= j < first.len() implies #[trigger] s[j] != sep by {
        assert(s[j] == first[j]);
    }
    lemma_until(s, sep, first.len());
    assert(s.take(first.len() as int) == first);
    assert(s.skip(first.len() as int + 1) == rest);
}

/// A text without the separator is one piece.
pub proof fn law_one_piece(s: Seq<char>, sep: char)
    requires
        !s.contains(sep),
    ensures
        pieces(s, sep) == seq![s],
{
    assert forall|j: int| 0 <= j < s.len() implies #[trigger] s[j] != sep by {
        assert(s.contains(s[j]));
    }
    lemma_until(s, sep, s.len());
}

/// A line ends at the first line feed.
pub proof fn law_first_line(line: Seq<char>, rest: Seq<char>)
    requires
        !line.contains('\n'),
        line.len() > 0 ==> line[line.len() - 1] != '\r',
    ensures
        lines(line + seq!['\n'] + rest) == seq![line] + lines(rest),
{
    let s = line + seq!['\n'] + rest;
    lemma_line_end(line, rest);
    assert(s.take(line.len() as int) == line);
    assert(s.skip(line.len() as int + 1) == rest);
}

/// A carriage return before the line feed belongs to the line's end.
pub proof fn law_first_line_with_return(line: Seq<char>, rest: Seq<char>)
    requires
        !line.contains('\n'),
    ensures
        lines(line + seq!['\r', '\n'] + rest) == seq![line] + lines(rest),
{
    let s = line + seq!['\r', '\n'] + rest;
    let full = line.push('\r');
    assert(!full.contains('\n')) by {
        assert forall|j: int| 0 <= j < full.len() implies full[j] != '\n' by {
            if j < line.len() {
                assert(line.contains(line[j]));
            }
        }
    }
    assert(s == full + seq!['\n'] + rest);
    lemma_line_end(full, rest);
    assert(s.take(full.len() as int) == full);
    assert(full.drop_last() == line);
    assert(s.skip(full.len() as int + 1) == rest);
}

proof fn lemma_line_end(line: Seq<char>, rest: Seq<char>)
    requires
        !line.contains('\n'),
    ensures
        until(line + seq!['\n'] + rest, '\n') == line.len(),
{
    let s = line + seq!['\n'] + rest;
    assert forall|j: int| 0 <= j < line.len() implies #[trigger] s[j] != '\n' by {
        assert(s[j] == line[j]);
        assert(line.contains(line[j]));
    }
    lemma_until(s, '\n', line.len());
}

/// What no line feed ends is the last line, unless it is empty.
pub proof fn law_last_line(line: Seq<char>)
    requires
        !line.contains('\n'),
    ensures
        lines(line) == if line.len() == 0 {
            Seq::<Seq<char>>::empty()
        } else {
            seq![line]
        },
{
    assert forall|j: int| 0 <= j < line.len() implies #[trigger] line[j] != '\n' by {
        assert(line.contains(line[j]));
    }
    lemma_until(line, '\n', line.len());
}

/// The lines of whole lines and a rest are those of the one and of the other.
pub proof fn law_lines_of_sum(whole: Seq<char>, rest: Seq<char>)
    requires
        whole.len() > 0 ==> whole[whole.len() - 1] == '\n',
    ensures
        lines(whole + rest) == lines(whole) + lines(rest),
    decreases whole.len(),
{
    if whole.len() == 0 {
        assert(whole + rest == rest);
        assert(lines(whole) + lines(rest) == lines(rest));
    } else {
        let s = whole + rest;
        let n = lemma_find(whole, '\n');
        assert forall|j: int| 0 <= j < n implies #[trigger] s[j] != '\n' by {
            assert(s[j] == whole[j]);
        }
        assert(s[n as int] == whole[n as int]);
        lemma_until(s, '\n', n);
        lemma_until(whole, '\n', n);
        let tail = whole.skip(n as int + 1);
        assert(s.take(n as int) == whole.take(n as int));
        assert(s.skip(n as int + 1) == tail + rest);
        if tail.len() > 0 {
            assert(tail[tail.len() - 1] == whole[whole.len() - 1]);
        }
        law_lines_of_sum(tail, rest);
        let first = seq![without_return(whole.take(n as int))];
        assert(lines(s) == first + (lines(tail) + lines(rest)));
        assert(lines(s) == (first + lines(tail)) + lines(rest));
    }
}

proof fn lemma_find(s: Seq<char>, c: char) -> (n: nat)
    requires
        s.len() > 0,
        s[s.len() - 1] == c,
    ensures
        n < s.len(),
        s[n as int] == c,
        forall|j: int| 0 <= j < n ==> #[trigger] s[j] != c,
    decreases s.len(),
{
    if s[0] == c {
        0
    } else {
        let rest = s.drop_first();
        assert(rest[rest.len() - 1] == s[s.len() - 1]);
        let n = lemma_find(rest, c);
        assert forall|j: int| 0 <= j < n + 1 implies #[trigger] s[j] != c by {
            if j > 0 {
                assert(rest[j - 1] == s[j]);
            }
        }
        n + 1
    }
}

/// A string of digits is a number in base ten: each digit is worth its value, and
/// ten times as much for each digit behind it.
pub proof fn law_digits_are_base_ten(a: Seq<char>, d: nat)
    requires
        d < 10,
    ensures
        digits_value(Seq::empty()) == 0,
        digits_value(a.push(('0' as nat + d) as char)) == 10 * digits_value(a) + d,
{
    let c = ('0' as nat + d) as char;
    assert(a.push(c).drop_last() == a);
}

/// A number in decimal is made of digits alone, at least one, whose value is the
/// number, and begins with a zero only if it is zero.
pub proof fn law_decimal(n: nat)
    ensures
        decimal(n).len() > 0,
        forall|i: int| 0 <= i < decimal(n).len() ==> '0' <= #[trigger] decimal(n)[i] <= '9',
        digits_value(decimal(n)) == n,
        n > 0 ==> decimal(n)[0] != '0',
        decimal(0) == seq!['0'],
    decreases n,
{
    if n >= 10 {
        law_decimal(n / 10);
        let front = decimal(n / 10);
        law_digits_are_base_ten(front, n % 10);
        assert(decimal(n)[0] == front[0]);
        assert forall|i: int| 0 <= i < decimal(n).len() implies '0' <= #[trigger] decimal(n)[i]
            <= '9' by {
            if i < front.len() {
                assert(decimal(n)[i] == front[i]);
            }
        }
    } else {
        law_digits_are_base_ten(Seq::empty(), n);
        assert(Seq::<char>::empty().push(('0' as nat + n) as char) == decimal(n));
    }
}

/// Digits alone are read as the number that they stand for, if it is below 256,
/// with or without a plus sign before them.
pub proof fn law_small_number_of_digits(s: Seq<char>)
    requires
        s.len() > 0,
        forall|i: int| 0 <= i < s.len() ==> '0' <= #[trigger] s[i] <= '9',
    ensures
        small_number(s) == if digits_value(s) < 256 {
            Some(digits_value(s) as u8)
        } else {
            None
        },
        small_number(seq!['+'] + s) == small_number(s),
{
    assert(s[0] != '+');
    assert((seq!['+'] + s).drop_first() == s);
    assert forall|i: int| 0 <= i < s.len() implies is_digit(#[trigger] s[i]) by {}
}

/// The decimal text of a number is read as that number, if it is below 256.
pub proof fn law_small_number_of_decimal(n: nat)
    ensures
        small_number(decimal(n)) == if n < 256 {
            Some(n as u8)
        } else {
            None
        },
{
    law_decimal(n);
    law_small_number_of_digits(decimal(n));
}

/// What is empty, a plus sign alone, or holds anything but digits behind its first
/// character is no number; nor is what begins with anything but a digit or a plus.
pub proof fn law_small_number_refuses(s: Seq<char>, i: int)
    requires
        s.len() == 0 || s == seq!['+'] || (0 <= i < s.len() && !('0' <= s[i] <= '9') && (i > 0
            || s[0] != '+')),
    ensures
        small_number(s) is None,
{
    if s.len() > 0 && s != seq!['+'] {
        if s[0] == '+' {
            let t = s.drop_first();
            assert(t[i - 1] == s[i]);
            assert(!is_digit(t[i - 1]));
        } else {
            assert(!is_digit(s[i]));
        }
    }
}

} // verus!
