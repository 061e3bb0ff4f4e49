//! Percent-encoding in request targets.
use crate::text::{
    lemma_span_bounds, other_than, position, same_text, split_at_first, split_once, text_of_bytes, utf8_text,
};
use vstd::prelude::*;
use vstd::string::*;
use vstd::utf8::*;

verus! {

/// The value of a hexadecimal digit.
pub open spec fn hex_value(byte: u8) -> Option<u8> {
    if 0x30 <= byte <= 0x39 {
        Some((byte - 0x30) as u8)
    } else if 0x41 <= byte <= 0x46 {
        Some((byte - 0x37) as u8)
    } else if 0x61 <= byte <= 0x66 {
        Some((byte - 0x57) as u8)
    } else {
        None
    }
}

/// The byte that the two characters after a `%` stand for. They are read as an integer in
/// base sixteen, so that a `+` may stand before a single digit.
pub open spec fn hex_pair(first: u8, second: u8) -> Option<u8> {
    match (hex_value(first), hex_value(second)) {
        (Some(high), Some(low)) => Some((16 * high + low) as u8),
        (None, Some(low)) if first == 0x2b => Some(low),
        _ => None,
    }
}

/// The bytes in front of decoded ones, where the rest can be decoded.
pub open spec fn prepend(byte: u8, rest: Option<Seq<u8>>) -> Option<Seq<u8>> {
    match rest {
        Some(bytes) => Some(seq![byte] + bytes),
        None => None,
    }
}

/// The bytes with every `%` escape, and perhaps every `+`, replaced by what it stands for.
pub open spec fn decoded_bytes(bytes: Seq<u8>, plus_as_space: bool) -> Option<Seq<u8>>
    decreases bytes.len(),
{
    if bytes.len() == 0 {
        Some(Seq::empty())
    } else if bytes[0] == 0x25 {
        if bytes.len() < 3 {
            None
        } else {
            match hex_pair(bytes[1], bytes[2]) {
                Some(byte) => prepend(byte, decoded_bytes(bytes.skip(3), plus_as_space)),
                None => None,
            }
        }
    } else if bytes[0] == 0x2b && plus_as_space {
        prepend(0x20, decoded_bytes(bytes.skip(1), plus_as_space))
    } else {
        prepend(bytes[0], decoded_bytes(bytes.skip(1), plus_as_space))
    }
}

/// The text that a percent-encoded text stands for.
pub open spec fn decoded_text(value: Seq<char>, plus_as_space: bool) -> Option<Seq<char>> {
    match decoded_bytes(encode_utf8(value), plus_as_space) {
        Some(bytes) => utf8_text(bytes),
        None => None,
    }
}

/// Name and value of a pair of a query; a pair without `=` has an empty value.
pub open spec fn name_and_value(pair: Seq<char>) -> (Seq<char>, Seq<char>) {
    match split_at_first(pair, '=') {
        Some(parts) => parts,
        None => (pair, Seq::empty()),
    }
}

/// The value of the first pair of a query whose name is `key`. A name before it that cannot
/// be decoded ends the search, and so does a value of it that cannot be decoded.
pub open spec fn query_value(query: Seq<char>, key: Seq<char>) -> Option<Seq<char>>
    decreases query.len(),
{
    let end = position(query, '&');
    proof {
        lemma_span_bounds(query, other_than('&'));
    }
    let (name, value) = name_and_value(query.take(end));
    match decoded_text(name, true) {
        None => None,
        Some(decoded) => if decoded == key {
            decoded_text(value, true)
        } else if end < query.len() {
            query_value(query.skip(end + 1), key)
        } else {
            None
        },
    }
}

/// The value of a hexadecimal digit.
fn hex_digit(byte: u8) -> (value: Option<u8>)
    ensures
        value == hex_value(byte),
        value matches Some(v) ==> v < 16,
{
    if 0x30 <= byte && byte <= 0x39 {
        Some(byte - 0x30)
    } else if 0x41 <= byte && byte <= 0x46 {
        Some(byte - 0x37)
    } else if 0x61 <= byte && byte <= 0x66 {
        Some(byte - 0x57)
    } else {
        None
    }
}

/// The byte that the two characters after a `%` stand for.
fn escaped_byte(first: u8, second: u8) -> (byte: Option<u8>)
    ensures
        byte == hex_pair(first, second),
{
    match (hex_digit(first), hex_digit(second)) {
        (Some(high), Some(low)) => Some(16 * high + low),
        (None, Some(low)) => if first == 0x2b {
            Some(low)
        } else {
            None
        },
        _ => None,
    }
}

/// The text that a percent-encoded text stands for.
pub fn percent_decode(value: &str, plus_as_space: bool) -> (decoded: Option<String>)
    ensures
        match (decoded_text(value@, plus_as_space), decoded) {
            (Some(expected), Some(text)) => text@ == expected,
            (None, None) => true,
            _ => false,
        },
{
    let bytes = value.as_bytes();
    let ghost all = bytes@;
    let mut decoded: Vec<u8> = Vec::new();
    let mut index: usize = 0;
    assert(all.skip(0) =~= all);
    assert(decoded_bytes(all, plus_as_space) matches Some(rest) ==> decoded@ + rest =~= rest);
    while index < bytes.len()
        invariant
            all == bytes@,
            all == encode_utf8(value@),
            0 <= index <= all.len(),
            decoded_bytes(all, plus_as_space) == (match decoded_bytes(
                all.skip(index as int),
                plus_as_space,
            ) {
                Some(rest) => Some(decoded@ + rest),
                None => None,
            }),
        decreases all.len() - index,
    {
        let ghost rest = all.skip(index as int);
        let ghost before = decoded@;
        let byte: u8 = bytes[index];
        assert(rest[0] == byte);
        if byte == 0x25 {
            if bytes.len() - index < 3 {
                return None;
            }
            assert(rest[1] == all[index + 1] && rest[2] == all[index + 2]);
            match escaped_byte(bytes[index + 1], bytes[index + 2]) {
                Some(escaped) => {
                    decoded.push(escaped);
                    assert(all.skip(index + 3) =~= rest.skip(3));
                    proof {
                        lemma_decoded_step(before, escaped, decoded_bytes(rest.skip(3), plus_as_space));
                    }
                },
                None => {
                    return None;
                },
            }
            index += 3;
        } else {
            let plain: u8 = if byte == 0x2b && plus_as_space {
                0x20
            } else {
                byte
            };
            decoded.push(plain);
            assert(all.skip(index + 1) =~= rest.skip(1));
            proof {
                lemma_decoded_step(before, plain, decoded_bytes(rest.skip(1), plus_as_space));
            }
            index += 1;
        }
    }
    assert(decoded@ + Seq::<u8>::empty() =~= decoded@);
    text_of_bytes(decoded)
}

/// A byte that was decoded moves from the rest to what is done.
proof fn lemma_decoded_step(done: Seq<u8>, byte: u8, rest: Option<Seq<u8>>)
    ensures
        (match prepend(byte, rest) {
            Some(bytes) => Some(done + bytes),
            None => None,
        }) == (match rest {
            Some(bytes) => Some(done.push(byte) + bytes),
            None => None,
        }),
{
    if let Some(bytes) = rest {
        assert(done + (seq![byte] + bytes) =~= done.push(byte) + bytes);
    }
}

/// The value that a query gives a key.
pub fn query_param(query: &str, key: &str) -> (value: Option<String>)
    ensures
        match (query_value(query@, key@), value) {
            (Some(expected), Some(text)) => text@ == expected,
            (None, None) => true,
            _ => false,
        },
    decreases query@.len(),
{
    let (pair, rest) = match split_once(query, '&') {
        Some((pair, rest)) => (pair, Some(rest)),
        None => (query, None),
    };
    proof {
        lemma_span_bounds(query@, other_than('&'));
        if rest is None {
            assert(query@.take(query@.len() as int) =~= query@);
        }
        reveal_strlit("");
        assert(""@ =~= Seq::<char>::empty());
    }
    let (name, value) = match split_once(pair, '=') {
        Some((name, value)) => (name, value),
        None => (pair, ""),
    };
    assert(pair@ == query@.take(position(query@, '&')));
    assert((name@, value@) == name_and_value(pair@));
    match percent_decode(name, true) {
        None => None,
        Some(decoded_name) => {
            if same_text(decoded_name.as_str(), key) {
                percent_decode(value, true)
            } else {
                match rest {
                    Some(rest) => query_param(rest, key),
                    None => None,
                }
            }
        },
    }
}

// ---------------------------------------------------------------------------
// What decoding undoes and what it leaves alone
// ---------------------------------------------------------------------------
/// The bytes of a character other than an ASCII one are not ASCII.
proof fn lemma_wide_bytes(scalar: u32)
    requires
        scalar > 0x7f,
    ensures
        forall|i: int|
            0 <= i < encode_scalar(scalar).len() ==> #[trigger] encode_scalar(scalar)[i] >= 0x80,
{
    assert(0xC0u8 | ((scalar >> 6) & 0x1F) as u8 >= 0x80) by (bit_vector);
    assert(0xE0u8 | ((scalar >> 12) & 0x0F) as u8 >= 0x80) by (bit_vector);
    assert(0xF0u8 | ((scalar >> 18) & 0x7) as u8 >= 0x80) by (bit_vector);
    assert(0x80u8 | (scalar & 0x3F) as u8 >= 0x80) by (bit_vector);
    assert(0x80u8 | ((scalar >> 6) & 0x3F) as u8 >= 0x80) by (bit_vector);
    assert(0x80u8 | ((scalar >> 12) & 0x3F) as u8 >= 0x80) by (bit_vector);
}

/// A text without a character has no byte of it.
proof fn lemma_no_such_byte(value: Seq<char>, c: char)
    requires
        c as u32 <= 0x7f,
        forall|i: int| 0 <= i < value.len() ==> #[trigger] value[i] != c,
    ensures
        forall|i: int|
            0 <= i < encode_utf8(value).len() ==> #[trigger] encode_utf8(value)[i] != c as u8,
    decreases value.len(),
{
    if value.len() > 0 {
        let first = encode_scalar(value[0] as u32);
        let rest = value.drop_first();
        assert forall|i: int| 0 <= i < rest.len() implies #[trigger] rest[i] != c by {
            assert(rest[i] == value[i + 1]);
        }
        lemma_no_such_byte(rest, c);
        let scalar = value[0] as u32;
        char_is_scalar(value[0]);
        char_u32_cast(value[0], scalar);
        char_u32_cast(c, c as u32);
        assert(encode_utf8(value) == first + encode_utf8(rest));
        if scalar <= 0x7f {
            assert(scalar <= 0x7f ==> (scalar & 0x7f) as u8 == scalar) by (bit_vector);
            assert(value[0] != c);
            assert(first[0] == scalar);
            assert(first[0] != c as u8);
        } else {
            lemma_wide_bytes(scalar);
        }
        assert forall|i: int| 0 <= i < encode_utf8(value).len() implies #[trigger] encode_utf8(
            value,
        )[i] != c as u8 by {
            if i < first.len() {
                assert(encode_utf8(value)[i] == first[i]);
            } else {
                assert(encode_utf8(value)[i] == encode_utf8(rest)[i - first.len()]);
            }
        }
    }
}

/// Bytes without an escape are decoded to themselves.
proof fn lemma_plain_bytes(bytes: Seq<u8>, plus_as_space: bool)
    requires
        forall|i: int| 0 <= i < bytes.len() ==> #[trigger] bytes[i] != 0x25,
        plus_as_space ==> forall|i: int| 0 <= i < bytes.len() ==> #[trigger] bytes[i] != 0x2b,
    ensures
        decoded_bytes(bytes, plus_as_space) == Some(bytes),
    decreases bytes.len(),
{
    if bytes.len() > 0 {
        let rest = bytes.skip(1);
        assert forall|i: int| 0 <= i < rest.len() implies #[trigger] rest[i] != 0x25 && (
        plus_as_space ==> rest[i] != 0x2b) by {
            assert(rest[i] == bytes[i + 1]);
        }
        lemma_plain_bytes(rest, plus_as_space);
        assert(bytes[0] != 0x25);
        assert(seq![bytes[0]] + rest =~= bytes);
    } else {
        assert(bytes =~= Seq::empty());
    }
}

/// A text without `%`, and without `+` where that means a space, is decoded to itself.
pub proof fn plain_text_is_left_alone(value: Seq<char>, plus_as_space: bool)
    requires
        forall|i: int| 0 <= i < value.len() ==> #[trigger] value[i] != '%',
        plus_as_space ==> forall|i: int| 0 <= i < value.len() ==> #[trigger] value[i] != '+',
    ensures
        decoded_text(value, plus_as_space) == Some(value),
{
    lemma_no_such_byte(value, '%');
    if plus_as_space {
        lemma_no_such_byte(value, '+');
    }
    lemma_plain_bytes(encode_utf8(value), plus_as_space);
    encode_utf8_valid_utf8(value);
    encode_utf8_decode_utf8(value);
}

/// Whether a character is the hexadecimal digit for a number below sixteen, in either case.
pub open spec fn is_hex_of(c: char, n: int) -> bool {
    if n < 10 {
        c as int == 0x30 + n
    } else {
        c as int == 0x37 + n || c as int == 0x57 + n
    }
}

/// Whether a text is these bytes with each of them written as an escape.
pub open spec fn escapes(text: Seq<char>, bytes: Seq<u8>) -> bool
    decreases bytes.len(),
{
    if bytes.len() == 0 {
        text.len() == 0
    } else {
        &&& text.len() >= 3
        &&& text[0] == '%'
        &&& is_hex_of(text[1], bytes[0] as int / 16)
        &&& is_hex_of(text[2], bytes[0] as int % 16)
        &&& escapes(text.skip(3), bytes.skip(1))
    }
}

/// An escaped text is ASCII, and its bytes are decoded to those that were escaped.
proof fn lemma_escaped_bytes(text: Seq<char>, bytes: Seq<u8>, plus_as_space: bool)
    requires
        escapes(text, bytes),
    ensures
        is_ascii_chars(text),
        decoded_bytes(Seq::new(text.len(), |i: int| text[i] as u8), plus_as_space) == Some(bytes),
    decreases bytes.len(),
{
    let all = Seq::new(text.len(), |i: int| text[i] as u8);
    if bytes.len() > 0 {
        let rest = bytes.skip(1);
        let tail = text.skip(3);
        lemma_escaped_bytes(tail, rest, plus_as_space);
        assert(all.skip(3) =~= Seq::new(tail.len(), |i: int| tail[i] as u8));
        assert(all[0] == 0x25);
        assert(hex_pair(all[1], all[2]) == Some(bytes[0]));
        assert(seq![bytes[0]] + rest =~= bytes);
        assert forall|i: int| 0 <= i < text.len() implies '\0' <= #[trigger] text[i] <= '\u{7f}' by {
            if i >= 3 {
                assert(text[i] == tail[i - 3]);
            }
        }
    } else {
        assert(all =~= Seq::empty());
        assert(bytes =~= Seq::empty());
    }
}

/// Decoding undoes escaping: a text whose bytes are all written as escapes, with digits of
/// either case, is decoded to the text.
pub proof fn decoding_undoes_escaping(value: Seq<char>, text: Seq<char>, plus_as_space: bool)
    requires
        escapes(text, encode_utf8(value)),
    ensures
        decoded_text(text, plus_as_space) == Some(value),
{
    lemma_escaped_bytes(text, encode_utf8(value), plus_as_space);
    is_ascii_chars_encode_utf8(text);
    assert(encode_utf8(text) =~= Seq::new(text.len(), |i: int| text[i] as u8));
    encode_utf8_valid_utf8(value);
    encode_utf8_decode_utf8(value);
}

// ---------------------------------------------------------------------------
// Slashes at the end
// ---------------------------------------------------------------------------
/// Slashes after bytes are left as they are, and do not complete an escape.
proof fn lemma_bytes_then_slashes(bytes: Seq<u8>, slashes: Seq<u8>, plus_as_space: bool)
    requires
        forall|i: int| 0 <= i < slashes.len() ==> #[trigger] slashes[i] == 0x2f,
    ensures
        decoded_bytes(bytes + slashes, plus_as_space) == (match decoded_bytes(
            bytes,
            plus_as_space,
        ) {
            Some(decoded) => Some(decoded + slashes),
            None => None,
        }),
    decreases bytes.len(),
{
    let all = bytes + slashes;
    if bytes.len() == 0 {
        lemma_plain_bytes(slashes, plus_as_space);
        assert(all =~= slashes);
        assert(Seq::<u8>::empty() + slashes =~= slashes);
    } else {
        assert(all[0] == bytes[0]);
        let step: int = if bytes[0] == 0x25 {
            3
        } else {
            1
        };
        if bytes.len() >= step {
            let rest = bytes.skip(step);
            lemma_bytes_then_slashes(rest, slashes, plus_as_space);
            assert(all.skip(step) =~= rest + slashes);
            if step == 3 {
                assert(all[1] == bytes[1] && all[2] == bytes[2]);
            }
            if let Some(decoded) = decoded_bytes(rest, plus_as_space) {
                assert forall|byte: u8| #[trigger] seq![byte] + (decoded + slashes) == seq![byte]
                    + decoded + slashes by {
                    assert(seq![byte] + (decoded + slashes) =~= seq![byte] + decoded + slashes);
                }
            }
        } else if all.len() >= 3 {
            assert(all[2] == slashes[2 - bytes.len()]);
        }
    }
}

/// The bytes of two texts in a row are the bytes of the one and then those of the other.
pub proof fn lemma_encode_concat(a: Seq<char>, b: Seq<char>)
    ensures
        encode_utf8(a + b) == encode_utf8(a) + encode_utf8(b),
    decreases a.len(),
{
    if a.len() == 0 {
        assert(a + b =~= b);
        assert(encode_utf8(a) + encode_utf8(b) =~= encode_utf8(b));
    } else {
        lemma_encode_concat(a.drop_first(), b);
        assert((a + b).drop_first() =~= a.drop_first() + b);
        assert((a + b)[0] == a[0]);
        assert(encode_scalar(a[0] as u32) + (encode_utf8(a.drop_first()) + encode_utf8(b))
            =~= encode_utf8(a) + encode_utf8(b));
    }
}

/// Bytes before an ASCII text are UTF-8 exactly where they are with it.
proof fn lemma_utf8_then_ascii(bytes: Seq<u8>, tail: Seq<char>)
    requires
        is_ascii_chars(tail),
    ensures
        utf8_text(bytes + encode_utf8(tail)) == (match utf8_text(bytes) {
            Some(text) => Some(text + tail),
            None => None,
        }),
{
    let ascii = encode_utf8(tail);
    let all = bytes + ascii;
    encode_utf8_valid_utf8(tail);
    encode_utf8_decode_utf8(tail);
    is_ascii_chars_encode_utf8(tail);
    let at = bytes.len() as int;
    assert(all.subrange(0, at) =~= bytes);
    assert(all.subrange(at, all.len() as int) =~= ascii);
    if valid_utf8(bytes) {
        valid_utf8_concat(bytes, ascii);
    }
    if tail.len() == 0 {
        assert(all =~= bytes);
        if valid_utf8(bytes) {
            assert(decode_utf8(bytes) + tail =~= decode_utf8(bytes));
        }
    } else if valid_utf8(all) {
        assert(all[at] == ascii[0] && ascii[0] == tail[0] as u8);
        is_char_boundary_iff_not_is_continuation_byte(all, at);
        valid_utf8_split(all, at);
        decode_utf8_split(all, at);
    }
}

/// Slashes at the end of a text are decoded to themselves, and do not decide whether the text
/// can be decoded.
pub proof fn slashes_are_decoded_apart(value: Seq<char>, slashes: Seq<char>, plus_as_space: bool)
    requires
        forall|i: int| 0 <= i < slashes.len() ==> #[trigger] slashes[i] == '/',
    ensures
        decoded_text(value + slashes, plus_as_space) == (match decoded_text(value, plus_as_space) {
            Some(text) => Some(text + slashes),
            None => None,
        }),
{
    assert(is_ascii_chars(slashes));
    is_ascii_chars_encode_utf8(slashes);
    assert forall|i: int| 0 <= i < encode_utf8(slashes).len() implies #[trigger] encode_utf8(
        slashes,
    )[i] == 0x2f by {
        assert(slashes[i] as u8 == encode_utf8(slashes)[i]);
    }
    lemma_encode_concat(value, slashes);
    lemma_bytes_then_slashes(encode_utf8(value), encode_utf8(slashes), plus_as_space);
    if let Some(bytes) = decoded_bytes(encode_utf8(value), plus_as_space) {
        lemma_utf8_then_ascii(bytes, slashes);
    }
}

} // verus!
