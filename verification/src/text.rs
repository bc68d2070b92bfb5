//! Text as sequences of characters: searching, trimming, splitting, numbers.

use vstd::prelude::*;
use vstd::string::*;

verus! {

// ---------------------------------------------------------------------------
// Characters
// ---------------------------------------------------------------------------

/// The ASCII lower case of a character; other characters stay as they are.
pub open spec fn lower_char(c: char) -> char {
    if 'A' <= c && c <= 'Z' {
        ((c as u32) + 32) as char
    } else {
        c
    }
}

/// The ASCII lower case of a text.
pub open spec fn lower(s: Seq<char>) -> Seq<char> {
    Seq::new(s.len(), |i: int| lower_char(s[i]))
}

/// The characters with the Unicode property `White_Space`.
pub open spec fn white_space(c: char) -> bool {
    let n = c as u32;
    ||| 0x9 <= n <= 0xd
    ||| n == 0x20
    ||| n == 0x85
    ||| n == 0xa0
    ||| n == 0x1680
    ||| 0x2000 <= n <= 0x200a
    ||| n == 0x2028
    ||| n == 0x2029
    ||| n == 0x202f
    ||| n == 0x205f
    ||| n == 0x3000
}

/// Whether `c` has the Unicode property `White_Space`.
pub fn is_white_space(c: char) -> (r: bool)
    ensures
        r == white_space(c),
{
    let n: u32 = c as u32;
    (0x9 <= n && n <= 0xd) || n == 0x20 || n == 0x85 || n == 0xa0 || n == 0x1680 || (0x2000 <= n
        && n <= 0x200a) || n == 0x2028 || n == 0x2029 || n == 0x202f || n == 0x205f || n == 0x3000
}

/// The ASCII lower case of one character.
pub fn to_lower_char(c: char) -> (r: char)
    ensures
        r == lower_char(c),
{
    if 'A' <= c && c <= 'Z' {
        let n: u8 = c as u8;
        (n + 32) as char
    } else {
        c
    }
}

// ---------------------------------------------------------------------------
// Conversions between text and characters
// ---------------------------------------------------------------------------

/// The characters of a text.
pub fn chars_of(s: &str) -> (out: Vec<char>)
    ensures
        out@ == s@,
{
    let mut out: Vec<char> = Vec::new();
    for c in it: s.chars()
        invariant
            out@ == it.seq().take(it.index() as int),
            it.seq() == s@,
    {
        out.push(c);
    }
    out
}

/// The text made of the characters from `from` up to `to`.
pub fn text_between(chars: &Vec<char>, from: usize, to: usize) -> (out: String)
    requires
        from <= to <= chars@.len(),
    ensures
        out@ == chars@.subrange(from as int, to as int),
{
    let mut out: String = String::new();
    let mut i: usize = from;
    while i < to
        invariant
            from <= i <= to <= chars@.len(),
            out@ == chars@.subrange(from as int, i as int),
        decreases to - i,
    {
        out.push(chars[i]);
        i = i + 1;
    }
    out
}

/// The ASCII lower case of a text.
pub fn to_lower(s: &str) -> (out: String)
    ensures
        out@ == lower(s@),
{
    let chars = chars_of(s);
    let mut out: String = String::new();
    let mut i: usize = 0;
    while i < chars.len()
        invariant
            i <= chars@.len(),
            chars@ == s@,
            out@ == lower(s@.take(i as int)),
        decreases chars@.len() - i,
    {
        out.push(to_lower_char(chars[i]));
        i = i + 1;
    }
    assert(s@.take(s@.len() as int) == s@);
    out
}

/// Whether two texts have the same characters.
pub fn same_text(a: &str, b: &str) -> (r: bool)
    ensures
        r == (a@ == b@),
{
    let x = chars_of(a);
    let y = chars_of(b);
    if x.len() != y.len() {
        return false;
    }
    let mut i: usize = 0;
    while i < x.len()
        invariant
            i <= x@.len(),
            x@.len() == y@.len(),
            x@ == a@,
            y@ == b@,
            forall|j: int| 0 <= j < i ==> x@[j] == y@[j],
        decreases x@.len() - i,
    {
        if x[i] != y[i] {
            assert(a@[i as int] != b@[i as int]);
            return false;
        }
        i = i + 1;
    }
    assert(a@ =~= b@);
    true
}

/// A copy of a list of texts.
pub fn copy_texts(list: &Vec<String>) -> (out: Vec<String>)
    ensures
        out.deep_view() == list.deep_view(),
{
    let mut out: Vec<String> = Vec::new();
    let mut i: usize = 0;
    while i < list.len()
        invariant
            i <= list@.len(),
            out@.len() == i,
            forall|j: int| 0 <= j < i ==> out@[j]@ == list@[j]@,
        decreases list@.len() - i,
    {
        out.push(list[i].clone());
        i = i + 1;
    }
    assert(out.deep_view() =~= list.deep_view());
    out
}

// ---------------------------------------------------------------------------
// Searching and splitting
// ---------------------------------------------------------------------------

/// The position of the first `c` in `s`, or the length of `s` when it has none.
pub open spec fn first_pos(s: Seq<char>, c: char) -> int
    decreases s.len(),
{
    if s.len() == 0 || s[0] == c {
        0
    } else {
        1 + first_pos(s.drop_first(), c)
    }
}

/// `s` parted at its first `c`: what stands before it and what stands behind it.
pub open spec fn parted(s: Seq<char>, c: char) -> Option<(Seq<char>, Seq<char>)> {
    let i = first_pos(s, c);
    if i < s.len() {
        Some((s.take(i), s.skip(i + 1)))
    } else {
        None
    }
}

/// The pieces of `s` between its separators `c`; there is always at least one.
pub open spec fn pieces(s: Seq<char>, c: char) -> Seq<Seq<char>>
    decreases s.len(),
{
    let i = first_pos(s, c);
    if 0 <= i < s.len() {
        seq![s.take(i)] + pieces(s.skip(i + 1), c)
    } else {
        seq![s]
    }
}

/// The first position is the one whose character is `c` with no `c` before it.
pub proof fn lemma_first_pos(s: Seq<char>, c: char)
    ensures
        0 <= first_pos(s, c) <= s.len(),
        first_pos(s, c) < s.len() ==> s[first_pos(s, c)] == c,
        forall|j: int| 0 <= j < first_pos(s, c) ==> s[j] != c,
        first_pos(s, c) < s.len() <==> s.contains(c),
    decreases s.len(),
{
    if s.len() == 0 {
    } else if s[0] == c {
        assert(s.contains(c));
    } else {
        let t = s.drop_first();
        lemma_first_pos(t, c);
        assert forall|j: int| 0 <= j < first_pos(s, c) implies s[j] != c by {
            if j > 0 {
                assert(t[j - 1] == s[j]);
            }
        }
        if t.contains(c) {
            let k = choose|k: int| 0 <= k < t.len() && t[k] == c;
            assert(s[k + 1] == c);
        }
        if s.contains(c) {
            let k = choose|k: int| 0 <= k < s.len() && s[k] == c;
            assert(t[k - 1] == c);
        }
    }
}

/// A position with `c` on it and no `c` before it is the first.
pub proof fn lemma_first_pos_is(s: Seq<char>, c: char, i: int)
    requires
        0 <= i <= s.len(),
        i < s.len() ==> s[i] == c,
        forall|j: int| 0 <= j < i ==> s[j] != c,
    ensures
        first_pos(s, c) == i,
{
    lemma_first_pos(s, c);
}

/// The position of the first `c` at or behind `from`, or the length when there is none.
pub fn find_char(chars: &Vec<char>, c: char, from: usize) -> (i: usize)
    requires
        from <= chars@.len(),
    ensures
        from <= i <= chars@.len(),
        i == from + first_pos(chars@.skip(from as int), c),
{
    let mut i: usize = from;
    let ghost rest = chars@.skip(from as int);
    while i < chars.len() && chars[i] != c
        invariant
            from <= i <= chars@.len(),
            rest == chars@.skip(from as int),
            forall|j: int| 0 <= j < i - from ==> rest[j] != c,
        decreases chars@.len() - i,
    {
        assert(rest[i - from] == chars@[i as int]);
        i = i + 1;
    }
    proof {
        if i < chars@.len() {
            assert(rest[i - from] == chars@[i as int]);
        }
        lemma_first_pos_is(rest, c, i - from);
    }
    i
}

/// Parts a text at its first `c`.
pub fn split_once(s: &str, c: char) -> (r: Option<(String, String)>)
    ensures
        match r {
            Some((a, b)) => parted(s@, c) == Some((a@, b@)),
            None => parted(s@, c) is None,
        },
{
    let chars = chars_of(s);
    let i = find_char(&chars, c, 0);
    assert(chars@.skip(0) == s@);
    if i < chars.len() {
        let a = text_between(&chars, 0, i);
        let b = text_between(&chars, i + 1, chars.len());
        assert(a@ == s@.take(i as int));
        assert(b@ == s@.skip(i + 1));
        Some((a, b))
    } else {
        None
    }
}

/// The pieces of a text between its separators.
pub fn split_all(s: &str, c: char) -> (out: Vec<String>)
    ensures
        out.deep_view() == pieces(s@, c),
{
    let chars = chars_of(s);
    let mut out: Vec<String> = Vec::new();
    let mut from: usize = 0;
    assert(chars@.skip(0) == s@);
    assert(out.deep_view() + pieces(s@, c) =~= pieces(s@, c));
    loop
        invariant
            from <= chars@.len(),
            chars@ == s@,
            out.deep_view() + pieces(chars@.skip(from as int), c) == pieces(s@, c),
        decreases chars@.len() - from,
    {
        let i = find_char(&chars, c, from);
        let ghost rest = chars@.skip(from as int);
        let ghost before = out.deep_view();
        let piece = text_between(&chars, from, i);
        let ghost piece_text = piece@;
        out.push(piece);
        assert(out.deep_view() =~= before.push(piece_text));
        if i < chars.len() {
            assert(piece_text == rest.take(i - from));
            assert(chars@.skip(i + 1) == rest.skip(i - from + 1));
            assert(before + pieces(rest, c) =~= before.push(piece_text) + pieces(
                rest.skip(i - from + 1),
                c,
            ));
            from = i + 1;
        } else {
            assert(piece_text == rest);
            assert(before + pieces(rest, c) =~= before.push(piece_text));
            return out;
        }
    }
}

/// Whether the text begins with `prefix`.
pub fn begins_with(chars: &Vec<char>, prefix: &str) -> (r: bool)
    ensures
        r == prefix@.is_prefix_of(chars@),
{
    let p = chars_of(prefix);
    if p.len() > chars.len() {
        return false;
    }
    let mut i: usize = 0;
    while i < p.len()
        invariant
            i <= p@.len() <= chars@.len(),
            p@ == prefix@,
            forall|j: int| 0 <= j < i ==> p@[j] == chars@[j],
        decreases p@.len() - i,
    {
        if p[i] != chars[i] {
            assert(prefix@[i as int] != chars@.subrange(0, prefix@.len() as int)[i as int]);
            return false;
        }
        i = i + 1;
    }
    assert(prefix@ =~= chars@.subrange(0, prefix@.len() as int));
    true
}

// ---------------------------------------------------------------------------
// Trimming
// ---------------------------------------------------------------------------

/// `s` without its leading white space.
pub open spec fn trimmed_start(s: Seq<char>) -> Seq<char>
    decreases s.len(),
{
    if s.len() > 0 && white_space(s[0]) {
        trimmed_start(s.drop_first())
    } else {
        s
    }
}

/// `s` without its trailing white space.
pub open spec fn trimmed_end(s: Seq<char>) -> Seq<char>
    decreases s.len(),
{
    if s.len() > 0 && white_space(s.last()) {
        trimmed_end(s.drop_last())
    } else {
        s
    }
}

/// `s` without white space at its two ends.
pub open spec fn trimmed(s: Seq<char>) -> Seq<char> {
    trimmed_end(trimmed_start(s))
}

/// `s` without the characters `c` at its end.
pub open spec fn without_trailing(s: Seq<char>, c: char) -> Seq<char>
    decreases s.len(),
{
    if s.len() > 0 && s.last() == c {
        without_trailing(s.drop_last(), c)
    } else {
        s
    }
}

/// The text without white space at its two ends.
pub fn trim(s: &str) -> (out: String)
    ensures
        out@ == trimmed(s@),
{
    let chars = chars_of(s);
    let mut from: usize = 0;
    assert(chars@.skip(0) == s@);
    while from < chars.len() && is_white_space(chars[from])
        invariant
            from <= chars@.len(),
            trimmed_start(chars@.skip(from as int)) == trimmed_start(s@),
        decreases chars@.len() - from,
    {
        assert(chars@.skip(from as int).drop_first() == chars@.skip(from + 1));
        from = from + 1;
    }
    assert(trimmed_start(s@) == chars@.skip(from as int));
    let mut to: usize = chars.len();
    assert(chars@.subrange(from as int, to as int) == chars@.skip(from as int));
    while to > from && is_white_space(chars[to - 1])
        invariant
            from <= to <= chars@.len(),
            trimmed_end(chars@.subrange(from as int, to as int)) == trimmed(s@),
        decreases to,
    {
        assert(chars@.subrange(from as int, to as int).drop_last() == chars@.subrange(
            from as int,
            to - 1,
        ));
        to = to - 1;
    }
    text_between(&chars, from, to)
}

/// The text without the characters `c` at its end.
pub fn trim_end_char(s: &str, c: char) -> (out: String)
    ensures
        out@ == without_trailing(s@, c),
{
    let chars = chars_of(s);
    let mut to: usize = chars.len();
    assert(chars@.take(to as int) == s@);
    while to > 0 && chars[to - 1] == c
        invariant
            to <= chars@.len(),
            without_trailing(chars@.take(to as int), c) == without_trailing(s@, c),
        decreases to,
    {
        assert(chars@.take(to as int).drop_last() == chars@.take(to - 1));
        to = to - 1;
    }
    text_between(&chars, 0, to)
}

// ---------------------------------------------------------------------------
// Numbers
// ---------------------------------------------------------------------------

/// The decimal digit for a value below ten.
pub open spec fn digit(d: nat) -> char {
    (('0' as u32) + d) as char
}

/// The decimal form of a number, without leading zeros.
pub open spec fn decimal(n: nat) -> Seq<char>
    decreases n,
{
    if n < 10 {
        seq![digit(n)]
    } else {
        decimal(n / 10).push(digit(n % 10))
    }
}

/// Appends the decimal form of `n`.
pub fn push_decimal(out: &mut String, n: u128)
    ensures
        final(out)@ == old(out)@ + decimal(n as nat),
    decreases n,
{
    if n >= 10 {
        push_decimal(out, n / 10);
    }
    let d: u8 = (n % 10) as u8;
    out.push((48 + d) as char);
    assert(out@ =~= old(out)@ + decimal(n as nat));
}

/// Whether `c` is an ASCII digit.
pub open spec fn is_digit(c: char) -> bool {
    '0' <= c && c <= '9'
}

/// The value of a run of ASCII digits.
pub open spec fn digits_value(s: Seq<char>) -> nat
    decreases s.len(),
{
    if s.len() == 0 {
        0
    } else {
        digits_value(s.drop_last()) * 10 + (s.last() as u32 - '0' as u32) as nat
    }
}

/// `s` without one leading `+`.
pub open spec fn without_sign(s: Seq<char>) -> Seq<char> {
    if s.len() > 0 && s[0] == '+' {
        s.drop_first()
    } else {
        s
    }
}

/// Whether every character is an ASCII digit.
pub open spec fn all_digits(s: Seq<char>) -> bool {
    forall|i: int| 0 <= i < s.len() ==> is_digit(#[trigger] s[i])
}

/// The number that `s` writes, an optional `+` and then digits, where it is at most `max`.
pub open spec fn parsed_number(s: Seq<char>, max: nat) -> Option<nat> {
    let digits = without_sign(s);
    if digits.len() > 0 && all_digits(digits) && digits_value(digits) <= max {
        Some(digits_value(digits))
    } else {
        None
    }
}

proof fn lemma_digits_value_grows(s: Seq<char>, i: int)
    requires
        0 <= i <= s.len(),
    ensures
        digits_value(s.take(i)) <= digits_value(s),
    decreases s.len() - i,
{
    if i < s.len() {
        lemma_digits_value_grows(s, i + 1);
        assert(s.take(i + 1).drop_last() == s.take(i));
    } else {
        assert(s.take(i) == s);
    }
}

/// Reads an unsigned number that is at most `max`.
pub fn parse_number(s: &str, max: u64) -> (r: Option<u64>)
    ensures
        match r {
            Some(n) => parsed_number(s@, max as nat) == Some(n as nat),
            None => parsed_number(s@, max as nat) is None,
        },
{
    let chars = chars_of(s);
    let from: usize = if chars.len() > 0 && chars[0] == '+' {
        1
    } else {
        0
    };
    let ghost digits = chars@.skip(from as int);
    assert(from == 0 ==> digits == s@);
    assert(from == 1 ==> digits == s@.drop_first());
    if from == chars.len() {
        return None;
    }
    let mut value: u64 = 0;
    let mut i: usize = from;
    while i < chars.len()
        invariant
            from <= i <= chars@.len(),
            digits == chars@.skip(from as int),
            digits == without_sign(s@),
            value <= max,
            value == digits_value(digits.take(i - from)),
            forall|j: int| 0 <= j < i - from ==> is_digit(#[trigger] digits[j]),
        decreases chars@.len() - i,
    {
        let c = chars[i];
        assert(digits[i - from] == c);
        if !('0' <= c && c <= '9') {
            return None;
        }
        let d: u64 = (c as u32 - 48) as u64;
        let next: u128 = value as u128 * 10 + d as u128;
        assert(digits.take(i - from + 1).drop_last() == digits.take(i - from));
        assert(next == digits_value(digits.take(i - from + 1)));
        if next > max as u128 {
            proof {
                lemma_digits_value_grows(digits, i - from + 1);
            }
            return None;
        }
        value = next as u64;
        i = i + 1;
    }
    assert(digits.take(i - from) == digits);
    Some(value)
}

// ---------------------------------------------------------------------------
// Laws
// ---------------------------------------------------------------------------

/// Lower case moves the capital ASCII letters by 32 and keeps every other character in its place.
pub proof fn law_lower(s: Seq<char>, i: int)
    requires
        0 <= i < s.len(),
    ensures
        lower(s).len() == s.len(),
        65 <= s[i] as u32 <= 90 ==> lower(s)[i] as u32 == s[i] as u32 + 32,
        !(65 <= s[i] as u32 <= 90) ==> lower(s)[i] == s[i],
{
}

/// A text is what stands before its first separator, the separator, and what stands behind it; and
/// it is not parted exactly where it has no separator.
pub proof fn law_parted(s: Seq<char>, c: char)
    ensures
        parted(s, c) is None <==> !s.contains(c),
        parted(s, c) matches Some((a, b)) ==> s == a.push(c) + b && !a.contains(c),
{
    lemma_first_pos(s, c);
    if let Some((a, b)) = parted(s, c) {
        assert(s =~= a.push(c) + b);
        if a.contains(c) {
            let k = choose|k: int| 0 <= k < a.len() && a[k] == c;
            assert(s[k] == c);
        }
    }
}

/// Texts joined by a separator.
pub open spec fn joined(parts: Seq<Seq<char>>, c: char) -> Seq<char>
    decreases parts.len(),
{
    if parts.len() == 0 {
        Seq::empty()
    } else if parts.len() == 1 {
        parts[0]
    } else {
        parts[0].push(c) + joined(parts.drop_first(), c)
    }
}

/// The pieces of a text, joined again, are the text, and none of them has a separator in it.
pub proof fn law_pieces(s: Seq<char>, c: char)
    ensures
        pieces(s, c).len() > 0,
        joined(pieces(s, c), c) == s,
        forall|i: int| 0 <= i < pieces(s, c).len() ==> !(#[trigger] pieces(s, c)[i]).contains(c),
    decreases s.len(),
{
    law_parted(s, c);
    lemma_first_pos(s, c);
    let n = first_pos(s, c);
    let all = pieces(s, c);
    if n < s.len() {
        let rest = s.skip(n + 1);
        law_pieces(rest, c);
        assert(all.drop_first() =~= pieces(rest, c));
        assert(s =~= s.take(n).push(c) + rest);
        assert forall|i: int| 0 <= i < all.len() implies !(#[trigger] all[i]).contains(c) by {
            if i > 0 {
                assert(all[i] == pieces(rest, c)[i - 1]);
            }
        }
    }
}

proof fn lemma_trimmed_start(s: Seq<char>) -> (i: int)
    ensures
        0 <= i <= s.len(),
        trimmed_start(s) == s.skip(i),
        forall|k: int| 0 <= k < i ==> white_space(#[trigger] s[k]),
        i < s.len() ==> !white_space(s[i]),
    decreases s.len(),
{
    if s.len() > 0 && white_space(s[0]) {
        let t = s.drop_first();
        let j = lemma_trimmed_start(t);
        assert(t.skip(j) =~= s.skip(j + 1));
        assert forall|k: int| 0 <= k < j + 1 implies white_space(#[trigger] s[k]) by {
            if k > 0 {
                assert(s[k] == t[k - 1]);
            }
        }
        j + 1
    } else {
        assert(s.skip(0) =~= s);
        0
    }
}

proof fn lemma_trimmed_end(s: Seq<char>) -> (j: int)
    ensures
        0 <= j <= s.len(),
        trimmed_end(s) == s.take(j),
        forall|k: int| j <= k < s.len() ==> white_space(#[trigger] s[k]),
        j > 0 ==> !white_space(s[j - 1]),
    decreases s.len(),
{
    if s.len() > 0 && white_space(s.last()) {
        let t = s.drop_last();
        let j = lemma_trimmed_end(t);
        assert(t.take(j) =~= s.take(j));
        assert forall|k: int| j <= k < s.len() implies white_space(#[trigger] s[k]) by {
            if k < t.len() {
                assert(s[k] == t[k]);
            }
        }
        j
    } else {
        assert(s.take(s.len() as int) =~= s);
        s.len() as int
    }
}

/// Trimming takes away white space at the two ends, all of it, and nothing else.
pub proof fn law_trimmed(s: Seq<char>)
    ensures
        exists|i: int, j: int|
            0 <= i <= j <= s.len() && trimmed(s) == #[trigger] s.subrange(i, j) && (forall|k: int|
                (0 <= k < i || j <= k < s.len()) ==> white_space(#[trigger] s[k])),
        trimmed(s).len() > 0 ==> !white_space(trimmed(s)[0]) && !white_space(trimmed(s).last()),
{
    let i = lemma_trimmed_start(s);
    let t = s.skip(i);
    let n = lemma_trimmed_end(t);
    let j = i + n;
    assert(trimmed(s) =~= s.subrange(i, j));
    assert forall|k: int| (0 <= k < i || j <= k < s.len()) implies white_space(#[trigger] s[k]) by {
        if k >= j {
            assert(s[k] == t[k - i]);
        }
    }
    if n > 0 {
        assert(t[0] == s[i]);
    }
}

/// What is left of a text without its trailing characters is a beginning of it that does not end
/// in such a character, and all behind it is such characters.
pub proof fn law_without_trailing(s: Seq<char>, c: char)
    ensures
        without_trailing(s, c).is_prefix_of(s),
        forall|k: int| without_trailing(s, c).len() <= k < s.len() ==> #[trigger] s[k] == c,
        without_trailing(s, c).len() > 0 ==> without_trailing(s, c).last() != c,
    decreases s.len(),
{
    if s.len() > 0 && s.last() == c {
        let t = s.drop_last();
        law_without_trailing(t, c);
        let r = without_trailing(s, c);
        assert(r =~= s.subrange(0, r.len() as int));
        assert forall|k: int| r.len() <= k < s.len() implies #[trigger] s[k] == c by {
            if k < t.len() {
                assert(s[k] == t[k]);
            }
        }
    } else {
        assert(s =~= s.subrange(0, s.len() as int));
    }
}

/// A digit more makes a number ten times as large and adds the digit.
pub proof fn law_digits_value(s: Seq<char>, c: char)
    ensures
        digits_value(Seq::empty()) == 0,
        is_digit(c) <==> 48 <= c as u32 <= 57,
        is_digit(c) ==> digits_value(s.push(c)) == digits_value(s) * 10 + (c as u32 - 48),
        all_digits(s.push(c)) <==> all_digits(s) && is_digit(c),
{
    assert(s.push(c).drop_last() =~= s);
    if all_digits(s.push(c)) {
        assert forall|i: int| 0 <= i < s.len() implies is_digit(#[trigger] s[i]) by {
            assert(s.push(c)[i] == s[i]);
        }
        assert(is_digit(s.push(c)[s.len() as int]));
    }
}

/// The decimal form of a number is digits without a leading zero, and its value is the number.
pub proof fn law_decimal(n: nat)
    ensures
        decimal(n).len() > 0,
        all_digits(decimal(n)),
        digits_value(decimal(n)) == n,
        n > 0 ==> decimal(n)[0] != '0',
    decreases n,
{
    if n < 10 {
        let one = seq![digit(n)];
        assert(one =~= Seq::<char>::empty().push(digit(n)));
        law_digits_value(Seq::empty(), digit(n));
    } else {
        law_decimal(n / 10);
        law_digits_value(decimal(n / 10), digit(n % 10));
    }
}

/// A run of digits, with or without a leading `+`, reads as its value where that is not too large.
pub proof fn law_parsed_digits(digits: Seq<char>, max: nat)
    requires
        digits.len() > 0,
        all_digits(digits),
    ensures
        digits_value(digits) <= max ==> parsed_number(digits, max) == Some(digits_value(digits))
            && parsed_number(seq!['+'] + digits, max) == Some(digits_value(digits)),
        digits_value(digits) > max ==> parsed_number(digits, max) is None && parsed_number(
            seq!['+'] + digits,
            max,
        ) is None,
{
    assert(is_digit(digits[0]));
    assert((seq!['+'] + digits).drop_first() =~= digits);
}

/// The decimal form of a number reads as the number.
pub proof fn law_decimal_reads_back(n: nat, max: nat)
    ensures
        n <= max ==> parsed_number(decimal(n), max) == Some(n),
        n > max ==> parsed_number(decimal(n), max) is None,
{
    law_decimal(n);
    law_parsed_digits(decimal(n), max);
}

/// A text with anything but digits behind its first character, or with anything but a digit or a
/// `+` there, is no number; neither is the empty text nor a lone `+`.
pub proof fn law_not_a_number(s: Seq<char>, i: int, max: nat)
    requires
        s.len() == 0 || s == seq!['+'] || (0 <= i < s.len() && !is_digit(s[i]) && (i == 0 ==> s[0]
            != '+')),
    ensures
        parsed_number(s, max) is None,
{
    if s.len() > 0 && s[0] == '+' {
        let rest = s.drop_first();
        if i > 0 && i < s.len() {
            assert(rest[i - 1] == s[i]);
        }
    }
}

} // verus!
