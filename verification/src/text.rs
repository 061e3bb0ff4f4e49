//! Text on which the collector's rules are stated: decimal numbers, white space,
//! lines, words and separators. A text is modelled by its sequence of characters.
use vstd::prelude::*;
use vstd::string::*;
use vstd::utf8::*;

verus! {

// ---------------------------------------------------------------------------
// Runs of characters
// ---------------------------------------------------------------------------
/// The number of characters at the front of `s` that satisfy `p`.
pub open spec fn span(s: Seq<char>, p: spec_fn(char) -> bool) -> int
    decreases s.len(),
{
    if s.len() == 0 || !p(s[0]) {
        0
    } else {
        1 + span(s.drop_first(), p)
    }
}

/// `span` is the only position that ends a run of `p`.
pub proof fn lemma_span_is(s: Seq<char>, p: spec_fn(char) -> bool, end: int)
    requires
        0 <= end <= s.len(),
        forall|i: int| 0 <= i < end ==> p(#[trigger] s[i]),
        end < s.len() ==> !p(s[end]),
    ensures
        span(s, p) == end,
    decreases s.len(),
{
    if end > 0 {
        let rest = s.drop_first();
        assert forall|i: int| 0 <= i < end - 1 implies p(#[trigger] rest[i]) by {
            assert(rest[i] == s[i + 1]);
        }
        assert(p(s[0]));
        lemma_span_is(rest, p, end - 1);
    }
}

/// What `span` counts: every character before it satisfies `p`, the next one does not.
pub proof fn lemma_span_bounds(s: Seq<char>, p: spec_fn(char) -> bool)
    ensures
        0 <= span(s, p) <= s.len(),
        forall|i: int| 0 <= i < span(s, p) ==> p(#[trigger] s[i]),
        span(s, p) < s.len() ==> !p(s[span(s, p)]),
    decreases s.len(),
{
    if s.len() > 0 && p(s[0]) {
        let rest = s.drop_first();
        lemma_span_bounds(rest, p);
        assert forall|i: int| 0 <= i < span(s, p) implies p(#[trigger] s[i]) by {
            if i > 0 {
                assert(s[i] == rest[i - 1]);
            }
        }
        if span(s, p) < s.len() {
            assert(s[span(s, p)] == rest[span(rest, p)]);
        }
    }
}

/// The position of the first `c` in `s`, or the length of `s` where there is none.
pub open spec fn position(s: Seq<char>, c: char) -> int {
    span(s, other_than(c))
}

/// Every character but `c`.
pub open spec fn other_than(c: char) -> spec_fn(char) -> bool {
    |x: char| x != c
}

/// The character `c` alone.
pub open spec fn only(c: char) -> spec_fn(char) -> bool {
    |x: char| x == c
}

/// `s` without the run of `p` at its end.
pub open spec fn without_trailing(s: Seq<char>, p: spec_fn(char) -> bool) -> Seq<char> {
    s.take(s.len() - span(s.reverse(), p))
}

/// Only one length is left once the run of `p` at the end is gone.
pub proof fn lemma_without_trailing_is(s: Seq<char>, p: spec_fn(char) -> bool, end: int)
    requires
        0 <= end <= s.len(),
        forall|i: int| end <= i < s.len() ==> p(#[trigger] s[i]),
        end > 0 ==> !p(s[end - 1]),
    ensures
        without_trailing(s, p) == s.take(end),
{
    let r = s.reverse();
    assert forall|i: int| 0 <= i < s.len() - end implies p(#[trigger] r[i]) by {
        assert(r[i] == s[s.len() - 1 - i]);
    }
    if s.len() - end < r.len() {
        assert(r[s.len() - end] == s[end - 1]);
    }
    lemma_span_is(r, p, s.len() - end);
}

/// Where the run of `p` at the end of `s` begins.
pub proof fn lemma_without_trailing_bounds(s: Seq<char>, p: spec_fn(char) -> bool)
    ensures
        without_trailing(s, p).len() <= s.len(),
        without_trailing(s, p) == s.take(without_trailing(s, p).len() as int),
        forall|i: int|
            without_trailing(s, p).len() <= i < s.len() ==> p(#[trigger] s[i]),
        without_trailing(s, p).len() > 0 ==> !p(without_trailing(s, p).last()),
{
    let r = s.reverse();
    lemma_span_bounds(r, p);
    let end = s.len() - span(r, p);
    assert forall|i: int| end <= i < s.len() implies p(#[trigger] s[i]) by {
        assert(s[i] == r[s.len() - 1 - i]);
    }
    if end > 0 {
        assert(s[end - 1] == r[span(r, p)]);
    }
}

/// Whether one text sorts before another, character by character; a text sorts before every
/// longer one that it begins.
pub open spec fn comes_before(a: Seq<char>, b: Seq<char>) -> bool {
    exists|i: int|
        0 <= i <= a.len() && i < b.len() && a.take(i) == b.take(i) && (i == a.len() || a[i]
            < #[trigger] b[i])
}

/// The characters of a text, one by one.
pub fn chars_of(text: &str) -> (chars: Vec<char>)
    ensures
        chars@ == text@,
{
    let mut chars: Vec<char> = Vec::new();
    for c in it: text.chars()
        invariant
            it.seq() == text@,
            chars@ == text@.take(it.index()),
    {
        chars.push(c);
        assert(text@.take(it.index() + 1) == text@.take(it.index()).push(c));
    }
    assert(text@.take(text@.len() as int) == text@);
    chars
}

/// Whether two texts are the same.
pub fn same_text(first: &str, second: &str) -> (same: bool)
    ensures
        same == (first@ == second@),
{
    let a = first.as_bytes();
    let b = second.as_bytes();
    proof {
        encode_utf8_decode_utf8(first@);
        encode_utf8_decode_utf8(second@);
    }
    if a.len() != b.len() {
        return false;
    }
    let mut i: usize = 0;
    while i < a.len()
        invariant
            a@ == encode_utf8(first@),
            b@ == encode_utf8(second@),
            a@.len() == b@.len(),
            0 <= i <= a@.len(),
            forall|j: int| 0 <= j < i ==> a@[j] == b@[j],
        decreases a@.len() - i,
    {
        if a[i] != b[i] {
            return false;
        }
        i += 1;
    }
    assert(a@ =~= b@);
    true
}

// ---------------------------------------------------------------------------
// Bytes
// ---------------------------------------------------------------------------
/// The text that bytes stand for where they are valid UTF-8.
pub open spec fn utf8_text(bytes: Seq<u8>) -> Option<Seq<char>> {
    if valid_utf8(bytes) {
        Some(decode_utf8(bytes))
    } else {
        None
    }
}

/// What `std` makes of bytes that need not be valid UTF-8.
pub uninterp spec fn utf8_lossy(bytes: Seq<u8>) -> Seq<char>;

/// `std::string::String::from_utf8`. Claims that valid UTF-8 is decoded and that anything
/// else is an error.
#[verifier::external_body]
pub(crate) fn text_of_bytes(bytes: Vec<u8>) -> (text: Option<String>)
    ensures
        match (utf8_text(bytes@), text) {
            (Some(expected), Some(decoded)) => decoded@ == expected,
            (None, None) => true,
            _ => false,
        },
{
    String::from_utf8(bytes).ok()
}

/// `std::string::String::from_utf8_lossy`. Claims that the text depends on the bytes alone,
/// and that valid UTF-8 is decoded. How the rest is replaced is left to the name.
#[verifier::external_body]
pub(crate) fn lossy_text(bytes: &[u8]) -> (text: String)
    ensures
        text@ == utf8_lossy(bytes@),
        utf8_text(bytes@) matches Some(expected) ==> text@ == expected,
{
    String::from_utf8_lossy(bytes).into_owned()
}

// ---------------------------------------------------------------------------
// White space
// ---------------------------------------------------------------------------
/// The characters with Unicode's `White_Space` property.
pub open spec fn is_space(c: char) -> bool {
    ||| 0x09 <= c as u32 <= 0x0d
    ||| c as u32 == 0x20
    ||| c as u32 == 0x85
    ||| c as u32 == 0xa0
    ||| c as u32 == 0x1680
    ||| 0x2000 <= c as u32 <= 0x200a
    ||| c as u32 == 0x2028
    ||| c as u32 == 0x2029
    ||| c as u32 == 0x202f
    ||| c as u32 == 0x205f
    ||| c as u32 == 0x3000
}

/// White space, as a set of characters.
pub open spec fn space() -> spec_fn(char) -> bool {
    |c: char| is_space(c)
}

/// Everything but white space, as a set of characters.
pub open spec fn ink() -> spec_fn(char) -> bool {
    |c: char| !is_space(c)
}

/// `s` without the white space at its front.
pub open spec fn trim_start(s: Seq<char>) -> Seq<char> {
    s.skip(span(s, space()))
}

/// `s` without the white space at either end.
pub open spec fn trimmed(s: Seq<char>) -> Seq<char> {
    without_trailing(trim_start(s), space())
}

/// The first word of `s`, empty where there is none, and what follows it.
pub open spec fn first_word(s: Seq<char>) -> (Seq<char>, Seq<char>) {
    let t = trim_start(s);
    (t.take(span(t, ink())), t.skip(span(t, ink())))
}

/// The first line of `s` without its line ending (`\n` or `\r\n`); an empty text has no line.
pub open spec fn first_line(s: Seq<char>) -> Option<Seq<char>> {
    let end = position(s, '\n');
    if s.len() == 0 {
        None
    } else if 0 < end < s.len() && s[end - 1] == '\r' {
        Some(s.take(end - 1))
    } else {
        Some(s.take(end))
    }
}

/// What stands before and after the first `separator`.
pub open spec fn split_at_first(s: Seq<char>, separator: char) -> Option<(Seq<char>, Seq<char>)> {
    let at = position(s, separator);
    if at < s.len() {
        Some((s.take(at), s.skip(at + 1)))
    } else {
        None
    }
}

/// Trimming twice is trimming once.
pub proof fn lemma_trimmed_twice(s: Seq<char>)
    ensures
        trimmed(trimmed(s)) == trimmed(s),
{
    let t = trim_start(s);
    let u = trimmed(s);
    lemma_span_bounds(s, space());
    lemma_without_trailing_bounds(t, space());
    if u.len() == 0 {
        lemma_span_is(u, space(), 0);
        assert(trim_start(u) =~= u);
        lemma_without_trailing_is(u, space(), 0);
        assert(u.take(0) =~= u);
    } else {
        assert(u[0] == t[0] && t[0] == s[span(s, space())]);
        lemma_span_is(u, space(), 0);
        assert(u.skip(0) =~= u);
        lemma_without_trailing_is(u, space(), u.len() as int);
        assert(u.take(u.len() as int) =~= u);
    }
}

/// Whether a character is white space.
pub fn is_space_char(c: char) -> (yes: bool)
    ensures
        yes == is_space(c),
{
    let code: u32 = c as u32;
    (0x09 <= code && code <= 0x0d) || code == 0x20 || code == 0x85 || code == 0xa0 || code == 0x1680
        || (0x2000 <= code && code <= 0x200a) || code == 0x2028 || code == 0x2029 || code == 0x202f
        || code == 0x205f || code == 0x3000
}

/// The text without the white space at either end.
pub fn trim(text: &str) -> (inner: &str)
    ensures
        inner@ == trimmed(text@),
{
    let chars = chars_of(text);
    let mut start: usize = 0;
    while start < chars.len() && is_space_char(chars[start])
        invariant
            chars@ == text@,
            0 <= start <= chars@.len(),
            forall|i: int| 0 <= i < start ==> is_space(#[trigger] text@[i]),
        decreases chars@.len() - start,
    {
        start += 1;
    }
    proof {
        lemma_span_is(text@, space(), start as int);
    }
    let mut end: usize = chars.len();
    while end > start && is_space_char(chars[end - 1])
        invariant
            chars@ == text@,
            start <= end <= chars@.len(),
            forall|i: int| end <= i < chars@.len() ==> is_space(#[trigger] text@[i]),
        decreases end,
    {
        end -= 1;
    }
    proof {
        let rest = text@.skip(start as int);
        assert forall|i: int| end - start <= i < rest.len() implies space()(#[trigger] rest[i]) by {
            assert(rest[i] == text@[i + start]);
        }
        if end > start {
            assert(rest[end - start - 1] == text@[end - 1]);
        }
        lemma_without_trailing_is(rest, space(), end - start);
        assert(rest.take(end - start) =~= text@.subrange(start as int, end as int));
    }
    text.substring_char(start, end)
}

/// The first word of a text and what follows it.
pub fn split_word(text: &str) -> (parts: (&str, &str))
    ensures
        parts.0@ == first_word(text@).0,
        parts.1@ == first_word(text@).1,
{
    let chars = chars_of(text);
    let mut start: usize = 0;
    while start < chars.len() && is_space_char(chars[start])
        invariant
            chars@ == text@,
            0 <= start <= chars@.len(),
            forall|i: int| 0 <= i < start ==> is_space(#[trigger] text@[i]),
        decreases chars@.len() - start,
    {
        start += 1;
    }
    proof {
        lemma_span_is(text@, space(), start as int);
    }
    let mut end: usize = start;
    while end < chars.len() && !is_space_char(chars[end])
        invariant
            chars@ == text@,
            start <= end <= chars@.len(),
            forall|i: int| start <= i < end ==> !is_space(#[trigger] text@[i]),
        decreases chars@.len() - end,
    {
        end += 1;
    }
    proof {
        let rest = text@.skip(start as int);
        assert forall|i: int| 0 <= i < end - start implies ink()(#[trigger] rest[i]) by {
            assert(rest[i] == text@[i + start]);
        }
        if end < text@.len() {
            assert(rest[end - start] == text@[end as int]);
        }
        lemma_span_is(rest, ink(), end - start);
        assert(rest.take(end - start) =~= text@.subrange(start as int, end as int));
        assert(rest.skip(end - start) =~= text@.subrange(end as int, text@.len() as int));
    }
    (text.substring_char(start, end), text.substring_char(end, chars.len()))
}

/// The position of the first `c`, or the number of characters where there is none.
fn find_char(chars: &Vec<char>, c: char) -> (at: usize)
    ensures
        at == position(chars@, c),
        at <= chars@.len(),
{
    let mut at: usize = 0;
    while at < chars.len() && chars[at] != c
        invariant
            0 <= at <= chars@.len(),
            forall|i: int| 0 <= i < at ==> #[trigger] chars@[i] != c,
        decreases chars@.len() - at,
    {
        at += 1;
    }
    proof {
        lemma_span_is(chars@, other_than(c), at as int);
    }
    at
}

/// The first line of a text.
pub fn line(text: &str) -> (found: Option<&str>)
    ensures
        match (found, first_line(text@)) {
            (Some(line), Some(expected)) => line@ == expected,
            (None, None) => true,
            _ => false,
        },
{
    let chars = chars_of(text);
    if chars.len() == 0 {
        return None;
    }
    let end = find_char(&chars, '\n');
    if end > 0 && end < chars.len() && chars[end - 1] == '\r' {
        assert(text@.take(end - 1) =~= text@.subrange(0, end - 1));
        Some(text.substring_char(0, end - 1))
    } else {
        assert(text@.take(end as int) =~= text@.subrange(0, end as int));
        Some(text.substring_char(0, end))
    }
}

/// Splits a text at the first `separator`.
pub fn split_once(text: &str, separator: char) -> (parts: Option<(&str, &str)>)
    ensures
        match (parts, split_at_first(text@, separator)) {
            (Some(found), Some(expected)) => found.0@ == expected.0 && found.1@ == expected.1,
            (None, None) => true,
            _ => false,
        },
{
    let chars = chars_of(text);
    let at = find_char(&chars, separator);
    if at < chars.len() {
        assert(text@.take(at as int) =~= text@.subrange(0, at as int));
        assert(text@.skip(at + 1) =~= text@.subrange(at + 1, text@.len() as int));
        Some((text.substring_char(0, at), text.substring_char(at + 1, chars.len())))
    } else {
        None
    }
}

/// What follows a prefix.
pub open spec fn after_prefix(s: Seq<char>, prefix: Seq<char>) -> Option<Seq<char>> {
    if prefix.len() <= s.len() && s.take(prefix.len() as int) == prefix {
        Some(s.skip(prefix.len() as int))
    } else {
        None
    }
}

/// Splits a prefix off a text.
pub fn strip_prefix<'a>(text: &'a str, prefix: &str) -> (rest: Option<&'a str>)
    ensures
        match (rest, after_prefix(text@, prefix@)) {
            (Some(found), Some(expected)) => found@ == expected,
            (None, None) => true,
            _ => false,
        },
{
    let chars = chars_of(text);
    let wanted = chars_of(prefix);
    if wanted.len() > chars.len() {
        return None;
    }
    let mut i: usize = 0;
    while i < wanted.len()
        invariant
            chars@ == text@,
            wanted@ == prefix@,
            wanted@.len() <= chars@.len(),
            0 <= i <= wanted@.len(),
            forall|j: int| 0 <= j < i ==> chars@[j] == wanted@[j],
        decreases wanted@.len() - i,
    {
        if chars[i] != wanted[i] {
            assert(text@.take(prefix@.len() as int)[i as int] != prefix@[i as int]);
            return None;
        }
        i += 1;
    }
    assert(text@.take(prefix@.len() as int) =~= prefix@);
    assert(text@.skip(prefix@.len() as int) =~= text@.subrange(
        prefix@.len() as int,
        text@.len() as int,
    ));
    Some(text.substring_char(wanted.len(), chars.len()))
}

/// The text without the run of `c` at its end.
pub fn trim_end_char(text: &str, c: char) -> (inner: &str)
    ensures
        inner@ == without_trailing(text@, only(c)),
{
    let chars = chars_of(text);
    let mut end: usize = chars.len();
    while end > 0 && chars[end - 1] == c
        invariant
            chars@ == text@,
            0 <= end <= chars@.len(),
            forall|i: int| end <= i < chars@.len() ==> #[trigger] text@[i] == c,
        decreases end,
    {
        end -= 1;
    }
    proof {
        lemma_without_trailing_is(text@, only(c), end as int);
        assert(text@.take(end as int) =~= text@.subrange(0, end as int));
    }
    text.substring_char(0, end)
}

} // verus!
