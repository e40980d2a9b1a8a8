//! Text as sequences of characters: the pieces of text handling that the
//! parsers in this crate are built from.

use vstd::prelude::*;

verus! {

/// `String::push` appends one character at the end.
pub assume_specification[ String::push ](s: &mut String, c: char)
    ensures
        final(s)@ == old(s)@.push(c),
;

/// The characters of a string, in order.
pub fn chars_of(s: &str) -> (chars: Vec<char>)
    ensures
        chars@ == s@,
{
    let mut chars: Vec<char> = Vec::new();
    for c in it: s.chars()
        invariant
            it.seq() == s@,
            chars@ == s@.take(it.index() as int),
    {
        chars.push(c);
    }
    chars
}

/// The string made of the given characters.
pub fn string_of(chars: &[char]) -> (s: String)
    ensures
        s@ == chars@,
{
    let mut s = String::new();
    let mut i: usize = 0;
    while i < chars.len()
        invariant
            i <= chars@.len(),
            s@ == chars@.take(i as int),
        decreases chars@.len() - i,
    {
        s.push(chars[i]);
        i += 1;
        assert(chars@.take(i as int) == chars@.take(i - 1).push(chars@[i - 1]));
    }
    assert(chars@.take(i as int) == chars@);
    s
}

/// Whether two texts are the same.
pub fn same(chars: &[char], other: &str) -> (r: bool)
    ensures
        r == (chars@ == other@),
{
    let other_chars = chars_of(other);
    if chars.len() != other_chars.len() {
        return false;
    }
    starts_with(chars, other)
}

/// Whether `s` begins with `prefix`.
pub open spec fn has_prefix(s: Seq<char>, prefix: Seq<char>) -> bool {
    prefix.len() <= s.len() && s.take(prefix.len() as int) == prefix
}

/// Whether a text begins with `prefix`.
pub fn starts_with(chars: &[char], prefix: &str) -> (r: bool)
    ensures
        r == has_prefix(chars@, prefix@),
        chars@.len() == prefix@.len() ==> r == (chars@ == prefix@),
{
    let want = chars_of(prefix);
    if want.len() > chars.len() {
        return false;
    }
    let mut i: usize = 0;
    while i < want.len()
        invariant
            i <= want@.len() <= chars@.len(),
            want@ == prefix@,
            forall|j: int| 0 <= j < i ==> chars@[j] == want@[j],
        decreases want@.len() - i,
    {
        if chars[i] != want[i] {
            assert(chars@.take(want@.len() as int)[i as int] != prefix@[i as int]);
            return false;
        }
        i += 1;
    }
    assert(chars@.take(want@.len() as int) == want@);
    assert(chars@.len() == prefix@.len() ==> chars@.take(want@.len() as int) == chars@);
    true
}

/// The rest of a text behind `prefix`, if the text begins with it.
pub fn strip_prefix<'a>(chars: &'a [char], prefix: &str) -> (r: Option<&'a [char]>)
    ensures
        r is Some <==> has_prefix(chars@, prefix@),
        r matches Some(rest) ==> rest@ == chars@.skip(prefix@.len() as int),
{
    if starts_with(chars, prefix) {
        let n: usize = chars_of(prefix).len();
        Some(&chars[n..chars.len()])
    } else {
        None
    }
}

/// The characters with the Unicode property `White_Space`.
pub open spec fn white_space(c: char) -> bool {
    let n = c as u32;
    ||| 0x09 <= n <= 0x0D
    ||| n == 0x20
    ||| n == 0x85
    ||| n == 0xA0
    ||| n == 0x1680
    ||| 0x2000 <= n <= 0x200A
    ||| n == 0x2028
    ||| n == 0x2029
    ||| n == 0x202F
    ||| n == 0x205F
    ||| n == 0x3000
}

/// Whether a character is white space.
pub fn is_white_space(c: char) -> (r: bool)
    ensures
        r == white_space(c),
{
    let n: u32 = c as u32;
    (0x09 <= n && n <= 0x0D) || n == 0x20 || n == 0x85 || n == 0xA0 || n == 0x1680 || (0x2000 <= n
        && n <= 0x200A) || n == 0x2028 || n == 0x2029 || n == 0x202F || n == 0x205F || n == 0x3000
}

/// How many characters at the start of `s` are white space (`white`), or are
/// not (`!white`), before the first that differs.
pub open spec fn leading(s: Seq<char>, white: bool) -> nat
    decreases s.len(),
{
    if s.len() == 0 || white_space(s[0]) != white {
        0
    } else {
        1 + leading(s.drop_first(), white)
    }
}

/// `leading` is the one index that bounds a run of alike characters.
pub proof fn lemma_leading(s: Seq<char>, white: bool, n: nat)
    requires
        n <= s.len(),
        forall|j: int| 0 <= j < n ==> white_space(#[trigger] s[j]) == white,
        n < s.len() ==> white_space(s[n as int]) != white,
    ensures
        leading(s, white) == n,
    decreases s.len(),
{
    if n > 0 {
        let rest = s.drop_first();
        assert forall|j: int| 0 <= j < n - 1 implies white_space(#[trigger] rest[j]) == white by {
            assert(rest[j] == s[j + 1]);
        }
        lemma_leading(rest, white, (n - 1) as nat);
    }
}

/// `leading` stays within the text and counts only alike characters.
pub proof fn lemma_leading_bounds(s: Seq<char>, white: bool)
    ensures
        leading(s, white) <= s.len(),
        forall|j: int| 0 <= j < leading(s, white) ==> white_space(#[trigger] s[j]) == white,
        leading(s, white) < s.len() ==> white_space(s[leading(s, white) as int]) != white,
    decreases s.len(),
{
    if s.len() > 0 && white_space(s[0]) == white {
        let rest = s.drop_first();
        lemma_leading_bounds(rest, white);
        assert forall|j: int| 0 <= j < leading(s, white) implies white_space(#[trigger] s[j])
            == white by {
            if j > 0 {
                assert(rest[j - 1] == s[j]);
            }
        }
    }
}

fn count_leading(chars: &[char], white: bool) -> (n: usize)
    ensures
        n == leading(chars@, white),
        n <= chars@.len(),
{
    let mut n: usize = 0;
    while n < chars.len() && is_white_space(chars[n]) == white
        invariant
            n <= chars@.len(),
            forall|j: int| 0 <= j < n ==> white_space(#[trigger] chars@[j]) == white,
        decreases chars@.len() - n,
    {
        n += 1;
    }
    proof {
        lemma_leading(chars@, white, n as nat);
    }
    n
}

/// `s` without the white space at its start.
pub open spec fn trimmed_start(s: Seq<char>) -> Seq<char> {
    s.skip(leading(s, true) as int)
}

/// `s` without the white space at its end.
pub open spec fn trimmed_end(s: Seq<char>) -> Seq<char>
    decreases s.len(),
{
    if s.len() > 0 && white_space(s.last()) {
        trimmed_end(s.drop_last())
    } else {
        s
    }
}

/// `s` without the white space at both ends.
pub open spec fn trimmed(s: Seq<char>) -> Seq<char> {
    trimmed_end(trimmed_start(s))
}

/// Takes the white space off both ends of a text.
pub fn trim(chars: &[char]) -> (r: &[char])
    ensures
        r@ == trimmed(chars@),
{
    let start: usize = count_leading(chars, true);
    let rest: &[char] = &chars[start..chars.len()];
    let mut end: usize = rest.len();
    proof {
        assert(rest@ == trimmed_start(chars@));
        assert(rest@.take(end as int) == rest@);
    }
    while end > 0 && is_white_space(rest[end - 1])
        invariant
            end <= rest@.len(),
            trimmed_end(rest@.take(end as int)) == trimmed_end(rest@),
        decreases end,
    {
        proof {
            let cut = rest@.take(end as int);
            assert(cut.last() == rest@[end - 1]);
            assert(cut.drop_last() == rest@.take(end - 1));
        }
        end -= 1;
    }
    proof {
        let cut = rest@.take(end as int);
        assert(end > 0 ==> cut.last() == rest@[end - 1]);
    }
    &rest[0..end]
}

/// The maximal runs of characters of `s` that are not white space.
pub open spec fn words(s: Seq<char>) -> Seq<Seq<char>>
    decreases s.len(),
{
    let t = trimmed_start(s);
    if t.len() == 0 {
        Seq::empty()
    } else {
        proof {
            lemma_leading_bounds(s, true);
            lemma_leading_bounds(t, false);
        }
        let n = leading(t, false) as int;
        seq![t.take(n)] + words(t.skip(n))
    }
}

/// The texts behind a vector of slices.
pub open spec fn texts(v: Seq<&[char]>) -> Seq<Seq<char>> {
    v.map_values(|part: &[char]| part@)
}

/// Splits a text at its white space.
pub fn split_words(chars: &[char]) -> (r: Vec<&[char]>)
    ensures
        texts(r@) == words(chars@),
{
    let mut out: Vec<&[char]> = Vec::new();
    let mut rest: &[char] = chars;
    assert(texts(out@) + words(rest@) == words(chars@));
    loop
        invariant_except_break
            texts(out@) + words(rest@) == words(chars@),
        ensures
            texts(out@) == words(chars@),
        decreases rest@.len(),
    {
        let start: usize = count_leading(rest, true);
        let tail: &[char] = &rest[start..rest.len()];
        assert(tail@ == trimmed_start(rest@));
        if tail.len() == 0 {
            assert(words(rest@) == Seq::<Seq<char>>::empty());
            assert(texts(out@) + words(rest@) == texts(out@));
            break;
        }
        let n: usize = count_leading(tail, false);
        proof {
            lemma_leading_bounds(rest@, true);
            lemma_leading_bounds(tail@, false);
        }
        let word: &[char] = &tail[0..n];
        let ghost before = texts(out@);
        out.push(word);
        assert(texts(out@) == before.push(word@));
        rest = &tail[n..tail.len()];
        assert(before + (seq![word@] + words(rest@)) == texts(out@) + words(rest@));
    }
    out
}

/// Where `sep` first stands in `s`; the length of `s` if it does not.
pub open spec fn until(s: Seq<char>, sep: char) -> nat
    decreases s.len(),
{
    if s.len() == 0 || s[0] == sep {
        0
    } else {
        1 + until(s.drop_first(), sep)
    }
}

/// `until` is the one index with no separator before it.
pub proof fn lemma_until(s: Seq<char>, sep: char, n: nat)
    requires
        n <= s.len(),
        forall|j: int| 0 <= j < n ==> #[trigger] s[j] != sep,
        n < s.len() ==> s[n as int] == sep,
    ensures
        until(s, sep) == n,
    decreases s.len(),
{
    if n > 0 {
        let rest = s.drop_first();
        assert forall|j: int| 0 <= j < n - 1 implies #[trigger] rest[j] != sep by {
            assert(rest[j] == s[j + 1]);
        }
        lemma_until(rest, sep, (n - 1) as nat);
    }
}

fn find(chars: &[char], sep: char) -> (n: usize)
    ensures
        n == until(chars@, sep),
        n <= chars@.len(),
        n < chars@.len() <==> chars@.contains(sep),
{
    let mut n: usize = 0;
    while n < chars.len() && chars[n] != sep
        invariant
            n <= chars@.len(),
            forall|j: int| 0 <= j < n ==> #[trigger] chars@[j] != sep,
        decreases chars@.len() - n,
    {
        n += 1;
    }
    proof {
        lemma_until(chars@, sep, n as nat);
    }
    n
}

/// Whether a text holds the character `c`.
pub fn contains(chars: &[char], c: char) -> (r: bool)
    ensures
        r == chars@.contains(c),
{
    find(chars, c) < chars.len()
}

/// The pieces of `s` between the occurrences of `sep`.
pub open spec fn pieces(s: Seq<char>, sep: char) -> Seq<Seq<char>>
    decreases s.len(),
{
    let n = until(s, sep) as int;
    if n >= s.len() {
        seq![s]
    } else {
        seq![s.take(n)] + pieces(s.skip(n + 1), sep)
    }
}

/// The `k`th piece of a text that is split at `sep`, counted from 0.
pub fn piece(chars: &[char], sep: char, k: usize) -> (r: Option<&[char]>)
    ensures
        r is Some <==> k < pieces(chars@, sep).len(),
        r matches Some(part) ==> part@ == pieces(chars@, sep)[k as int],
{
    let mut rest: &[char] = chars;
    let mut left: usize = k;
    loop
        invariant
            left <= k,
            k < pieces(chars@, sep).len() <==> left < pieces(rest@, sep).len(),
            left < pieces(rest@, sep).len() ==> pieces(chars@, sep)[k as int] == pieces(
                rest@,
                sep,
            )[left as int],
        decreases left,
    {
        let n: usize = find(rest, sep);
        if n == rest.len() {
            return if left == 0 {
                Some(rest)
            } else {
                None
            };
        }
        if left == 0 {
            return Some(&rest[0..n]);
        }
        let ghost whole = rest@;
        rest = &rest[n + 1..rest.len()];
        left -= 1;
        assert(pieces(whole, sep) == seq![whole.take(n as int)] + pieces(rest@, sep));
    }
}

/// A line without the carriage return that may stand before its line feed.
pub open spec fn without_return(s: Seq<char>) -> Seq<char> {
    if s.len() > 0 && s.last() == '\r' {
        s.drop_last()
    } else {
        s
    }
}

/// The lines of `s`: each ends at a line feed, or at the end of the text where
/// the text does not end with a line feed.
pub open spec fn lines(s: Seq<char>) -> Seq<Seq<char>>
    decreases s.len(),
{
    let n = until(s, '\n') as int;
    if s.len() == 0 {
        Seq::empty()
    } else if n >= s.len() {
        seq![s]
    } else {
        seq![without_return(s.take(n))] + lines(s.skip(n + 1))
    }
}

/// Splits a text into its lines.
pub fn split_lines(chars: &[char]) -> (r: Vec<&[char]>)
    ensures
        texts(r@) == lines(chars@),
{
    let mut out: Vec<&[char]> = Vec::new();
    let mut rest: &[char] = chars;
    assert(texts(out@) + lines(rest@) == lines(chars@));
    while rest.len() > 0
        invariant
            texts(out@) + lines(rest@) == lines(chars@),
        decreases rest@.len(),
    {
        let ghost whole = rest@;
        let ghost before = texts(out@);
        let n: usize = find(rest, '\n');
        if n == rest.len() {
            out.push(rest);
            rest = &rest[n..n];
            assert(texts(out@) == before.push(whole));
            assert(lines(whole) == seq![whole]);
            assert(lines(rest@) == Seq::<Seq<char>>::empty());
            assert(before + seq![whole] == texts(out@) + lines(rest@));
        } else {
            let line: &[char] = &rest[0..n];
            let kept: &[char] = if n > 0 && line[n - 1] == '\r' {
                &line[0..n - 1]
            } else {
                line
            };
            assert(kept@ == without_return(whole.take(n as int)));
            out.push(kept);
            rest = &rest[n + 1..rest.len()];
            assert(texts(out@) == before.push(kept@));
            assert(before + (seq![kept@] + lines(rest@)) == texts(out@) + lines(rest@));
        }
    }
    assert(lines(rest@) == Seq::<Seq<char>>::empty());
    assert(texts(out@) + lines(rest@) == texts(out@));
    out
}

/// The character of a decimal digit.
pub open spec fn digit(d: nat) -> char {
    (0x30 + d) as char
}

/// `n` in decimal, without leading zeros.
pub open spec fn decimal(n: nat) -> Seq<char>
    decreases n,
{
    if n < 10 {
        seq![digit(n)]
    } else {
        decimal(n / 10).push(digit(n % 10))
    }
}

/// Appends `n` in decimal.
pub fn push_decimal(s: &mut String, n: u64)
    ensures
        final(s)@ == old(s)@ + decimal(n as nat),
    decreases n,
{
    let ghost start = s@;
    if n >= 10 {
        push_decimal(s, n / 10);
    }
    let c: char = (0x30u8 + (n % 10) as u8) as char;
    s.push(c);
    assert(c == digit((n % 10) as nat));
    assert(s@ == start + decimal(n as nat));
}

/// Whether `c` is one of `0` to `9`.
pub open spec fn is_digit(c: char) -> bool {
    '0' <= c <= '9'
}

/// The number that a string of digits stands for.
pub open spec fn digits_value(s: Seq<char>) -> nat
    decreases s.len(),
{
    if s.len() == 0 {
        0
    } else {
        10 * digits_value(s.drop_last()) + (s.last() as nat - 0x30) as nat
    }
}

/// A number without the plus sign that may stand before it.
pub open spec fn without_plus(s: Seq<char>) -> Seq<char> {
    if s.len() > 0 && s[0] == '+' {
        s.drop_first()
    } else {
        s
    }
}

/// The number below 256 that a text stands for: digits, at least one, which a
/// plus sign may precede.
pub open spec fn small_number(s: Seq<char>) -> Option<u8> {
    let digits = without_plus(s);
    if digits.len() > 0 && (forall|i: int|
        0 <= i < digits.len() ==> is_digit(#[trigger] digits[i])) && digits_value(digits) < 256 {
        Some(digits_value(digits) as u8)
    } else {
        None
    }
}

/// Dropping digits at the end makes a number no larger.
proof fn lemma_digits_value_prefix(s: Seq<char>, n: int)
    requires
        0 <= n <= s.len(),
    ensures
        digits_value(s.take(n)) <= digits_value(s),
    decreases s.len() - n,
{
    if n < s.len() {
        let next = s.take(n + 1);
        assert(next.drop_last() == s.take(n));
        lemma_digits_value_prefix(s, n + 1);
    } else {
        assert(s.take(n) == s);
    }
}

/// Reads a number below 256.
pub fn parse_small_number(chars: &[char]) -> (r: Option<u8>)
    ensures
        r == small_number(chars@),
{
    let start: usize = if chars.len() > 0 && chars[0] == '+' {
        1
    } else {
        0
    };
    let digits: &[char] = &chars[start..chars.len()];
    assert(digits@ == without_plus(chars@));
    if digits.len() == 0 {
        return None;
    }
    let mut value: u32 = 0;
    let mut i: usize = 0;
    while i < digits.len()
        invariant
            digits@ == without_plus(chars@),
            i <= digits@.len(),
            value < 256,
            value == digits_value(digits@.take(i as int)),
            forall|j: int| 0 <= j < i ==> is_digit(#[trigger] digits@[j]),
        ensures
            i == digits@.len(),
        decreases digits@.len() - i,
    {
        let c: char = digits[i];
        if !('0' <= c && c <= '9') {
            assert(!is_digit(digits@[i as int]));
            return None;
        }
        proof {
            assert(digits@.take(i + 1).drop_last() == digits@.take(i as int));
            assert(digits@.take(i + 1).last() == c);
            lemma_digits_value_prefix(digits@, i + 1);
        }
        value = 10 * value + (c as u32 - 0x30);
        if value >= 256 {
            return None;
        }
        i += 1;
    }
    assert(digits@.take(i as int) == digits@);
    Some(value as u8)
}

} // verus!
