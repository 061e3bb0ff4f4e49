//! Where a request goes: its method, its target, its query, and what these are decoded to.
use crate::clock::denoted;
use crate::laws::words::{
    blank_text_has_no_word, first_line_ends_at_a_line_feed, is_blank, prefix_is_cut_off,
    split_is_at_the_first_separator,
};
use crate::percent::{
    decoded_bytes, decoded_text, hex_pair, hex_value, lemma_encode_concat, name_and_value,
    plain_text_is_left_alone, query_value,
};
use crate::server::{
    all_slashes, answer, asked_second, is_query_part, lemma_first_word_is, lemma_slashes_are_cut,
    lemma_target_parts, pathname, request_route, servable, slashes_at_the_end_do_not_matter,
    target_route, RouteView,
};
use crate::text::{is_space, lemma_span_is, lemma_without_trailing_is, only, other_than, position};
use vstd::prelude::*;
use vstd::string::*;
use vstd::utf8::*;

verus! {

// ---------------------------------------------------------------------------
// Methods and targets
// ---------------------------------------------------------------------------
/// A request by another method is refused as such, whatever its target.
pub proof fn other_methods_are_not_allowed(
    lead: Seq<char>,
    method: Seq<char>,
    rest: Seq<char>,
    after: Seq<char>,
)
    requires
        is_blank(lead),
        method.len() > 0,
        forall|i: int| 0 <= i < method.len() ==> !is_space(#[trigger] method[i]),
        method != "GET"@,
        rest.len() > 0 ==> is_space(rest[0]),
        !(lead + method + rest).contains('\n'),
    ensures
        request_route(lead + method + rest + seq!['\r', '\n'] + after)
            == RouteView::MethodNotAllowed,
        request_route(lead + method + rest) == RouteView::MethodNotAllowed,
        request_route(Seq::empty()) == RouteView::BadRequest,
{
    first_line_ends_at_a_line_feed(lead + method + rest, after);
    lemma_first_word_is(lead, method, rest);
}

/// A request whose first line is white space has no method that is allowed.
pub proof fn blank_request_line_is_not_allowed(line: Seq<char>, rest: Seq<char>)
    requires
        is_blank(line),
        !line.contains('\n'),
    ensures
        request_route(line + seq!['\r', '\n'] + rest) == RouteView::MethodNotAllowed,
        line.len() > 0 ==> request_route(line) == RouteView::MethodNotAllowed,
{
    reveal_strlit("GET");
    first_line_ends_at_a_line_feed(line, rest);
    blank_text_has_no_word(line);
    assert("GET"@.len() == 3);
}

/// A GET request goes to its target, the second word of its first line, however the words are
/// set apart and whatever follows them.
pub proof fn get_requests_go_to_their_target(
    lead: Seq<char>,
    gap: Seq<char>,
    target: Seq<char>,
    tail: Seq<char>,
    rest: Seq<char>,
)
    requires
        is_blank(lead),
        is_blank(gap),
        gap.len() > 0,
        target.len() > 0,
        forall|i: int| 0 <= i < target.len() ==> !is_space(#[trigger] target[i]),
        tail.len() > 0 ==> is_space(tail[0]),
        !(lead + "GET"@ + gap + target + tail).contains('\n'),
    ensures
        request_route(lead + "GET"@ + gap + target + tail) == target_route(target),
        request_route(lead + "GET"@ + gap + target + tail + seq!['\r', '\n'] + rest)
            == target_route(target),
{
    reveal_strlit("GET");
    let line = lead + "GET"@ + gap + target + tail;
    first_line_ends_at_a_line_feed(line, rest);
    let after_method = gap + target + tail;
    assert(line =~= lead + "GET"@ + after_method);
    lemma_first_word_is(lead, "GET"@, after_method);
    lemma_first_word_is(gap, target, tail);
}

/// A GET request without a target asks for the root, which is the status.
pub proof fn missing_target_is_the_root(rest: Seq<char>)
    requires
        is_blank(rest),
        !rest.contains('\n'),
    ensures
        request_route("GET"@ + rest) == RouteView::Status,
{
    reveal_strlit("GET");
    reveal_strlit("/");
    let line = "GET"@ + rest;
    assert(!line.contains('\n')) by {
        if line.contains('\n') {
            let i = choose|i: int| 0 <= i < line.len() && line[i] == '\n';
            if i >= 3 {
                assert(rest[i - 3] == '\n');
                assert(rest.contains(rest[i - 3]));
            }
        }
    }
    first_line_ends_at_a_line_feed(line, Seq::empty());
    lemma_first_word_is(Seq::empty(), "GET"@, rest);
    assert(Seq::<char>::empty() + "GET"@ + rest =~= line);
    blank_text_has_no_word(rest);
    root_and_slashes_are_the_status("/"@, Seq::empty());
    assert("/"@ + Seq::<char>::empty() =~= "/"@);
}

/// A path of slashes is the status, whatever the query.
pub proof fn root_and_slashes_are_the_status(slashes: Seq<char>, query: Seq<char>)
    requires
        all_slashes(slashes),
        is_query_part(query),
    ensures
        target_route(slashes + query) == RouteView::Status,
{
    assert(!slashes.contains('?'));
    lemma_target_parts(slashes, query);
    assert forall|i: int| 0 <= i < slashes.len() implies #[trigger] slashes[i] != '%' by {
    }
    plain_text_is_left_alone(slashes, false);
    lemma_slashes_are_cut(Seq::empty(), slashes);
    assert(Seq::<char>::empty() + slashes =~= slashes);
    lemma_without_trailing_is(Seq::empty(), only('/'), 0);
}

/// Where a path leads: decoded and without the slashes at its end, to the status, the latest
/// entry, the history, a second of it, and otherwise nowhere. Only the history looks at the
/// query.
pub proof fn paths_lead_where_they_say(
    path: Seq<char>,
    name: Seq<char>,
    slashes: Seq<char>,
    query: Seq<char>,
    raw: Seq<char>,
)
    requires
        !path.contains('?'),
        is_query_part(query),
        decoded_text(path, false) == Some(name + slashes),
        name.len() > 0,
        name[name.len() - 1] != '/',
        all_slashes(slashes),
    ensures
        name == "/health"@ || name == "/status"@ ==> target_route(path + query)
            == RouteView::Status,
        name == "/latest"@ ==> target_route(path + query) == RouteView::Latest,
        name == "/history"@ && query.len() == 0 ==> target_route(path + query)
            == RouteView::History(Seq::empty()),
        name == "/history"@ && query.len() > 0 ==> target_route(path + query) == RouteView::History(
            query.skip(1),
        ),
        name == "/history/"@ + raw ==> target_route(path + query) == RouteView::Second(raw),
        name != "/health"@ && name != "/status"@ && name != "/latest"@ && name != "/history"@ && (
        forall|r: Seq<char>| name != #[trigger] ("/history/"@ + r)) ==> target_route(path + query)
            == RouteView::NotFound,
{
    lemma_target_parts(path, query);
    lemma_slashes_are_cut(name, slashes);
    lemma_without_trailing_is(name, only('/'), name.len() as int);
    assert(name.take(name.len() as int) =~= name);
    assert(pathname(path) == name);
    reveal_strlit("/");
    reveal_strlit("/health");
    reveal_strlit("/status");
    reveal_strlit("/latest");
    reveal_strlit("/history");
    reveal_strlit("/history/");
    assert("/"@.len() == 1 && "/health"@.len() == 7 && "/status"@.len() == 7 && "/latest"@.len() == 7
        && "/history"@.len() == 8 && "/history/"@.len() == 9);
    assert("/health"@[1] == 'h' && "/status"@[1] == 's' && "/latest"@[1] == 'l');
    assert("/"@[0] == '/');
    prefix_is_cut_off("/history/"@, raw, name);
    if name == "/history/"@ + raw {
        assert(name.len() >= 9);
    }
    if query.len() == 0 {
        assert(query =~= Seq::empty());
    }
}

/// A path that is decoded to slashes alone, or to nothing, leads to the status.
pub proof fn decoded_slashes_are_the_status(path: Seq<char>, slashes: Seq<char>, query: Seq<char>)
    requires
        !path.contains('?'),
        is_query_part(query),
        decoded_text(path, false) == Some(slashes),
        all_slashes(slashes),
    ensures
        target_route(path + query) == RouteView::Status,
{
    lemma_target_parts(path, query);
    lemma_slashes_are_cut(Seq::empty(), slashes);
    assert(Seq::<char>::empty() + slashes =~= slashes);
    lemma_without_trailing_is(Seq::empty(), only('/'), 0);
}

/// Two paths that are decoded to the same text lead to the same place.
pub proof fn spelling_of_a_path_does_not_matter(path: Seq<char>, other: Seq<char>, query: Seq<char>)
    requires
        !path.contains('?'),
        !other.contains('?'),
        is_query_part(query),
        decoded_text(path, false) is Some,
        decoded_text(path, false) == decoded_text(other, false),
    ensures
        target_route(path + query) == target_route(other + query),
{
    lemma_target_parts(path, query);
    lemma_target_parts(other, query);
}

/// A path that cannot be decoded is taken as it is written, without the slashes at its end: it
/// names a second of the history, or nothing.
pub proof fn undecodable_path_is_taken_as_written(
    path: Seq<char>,
    slashes: Seq<char>,
    query: Seq<char>,
    raw: Seq<char>,
)
    requires
        path.len() > 0,
        !path.contains('?'),
        path[path.len() - 1] != '/',
        all_slashes(slashes),
        is_query_part(query),
        decoded_text(path, false) is None,
    ensures
        path == "/history/"@ + raw ==> target_route(path + slashes + query) == RouteView::Second(
            raw,
        ),
        (forall|r: Seq<char>| path != #[trigger] ("/history/"@ + r)) ==> target_route(
            path + slashes + query,
        ) == RouteView::NotFound,
{
    slashes_at_the_end_do_not_matter(path, slashes, query);
    lemma_target_parts(path, query);
    lemma_without_trailing_is(path, only('/'), path.len() as int);
    assert(path.take(path.len() as int) =~= path);
    assert(pathname(path) == path);
    if forall|i: int| 0 <= i < path.len() ==> #[trigger] path[i] != '%' {
        plain_text_is_left_alone(path, false);
        assert(false);
    }
    let at = choose|i: int| 0 <= i < path.len() && #[trigger] path[i] == '%';
    assert(path[at] == '%');
    reveal_strlit("/");
    reveal_strlit("/health");
    reveal_strlit("/status");
    reveal_strlit("/latest");
    reveal_strlit("/history");
    reveal_strlit("/history/");
    assert(path != "/"@ && path != "/health"@ && path != "/status"@ && path != "/latest"@ && path
        != "/history"@);
    prefix_is_cut_off("/history/"@, raw, path);
}

// ---------------------------------------------------------------------------
// Decoding
// ---------------------------------------------------------------------------
/// A byte is a hexadecimal digit in either case, and stands for its value.
pub proof fn hexadecimal_digits_have_their_value(byte: u8, n: u8)
    ensures
        hex_value(byte) == Some(n) <==> 0x30 <= byte <= 0x39 && n == byte - 0x30 || 0x41 <= byte
            <= 0x46 && n == byte - 0x41 + 10 || 0x61 <= byte <= 0x66 && n == byte - 0x61 + 10,
{
}

/// Two digits after a `%` are one byte; a `+` and a digit are the value of the digit; anything
/// else is nothing.
pub proof fn escapes_stand_for_a_byte(first: u8, second: u8)
    ensures
        hex_value(first) is Some && hex_value(second) is Some ==> hex_pair(first, second) is Some
            && hex_pair(first, second)->0 == 16 * hex_value(first)->0 + hex_value(second)->0,
        first == 0x2b && hex_value(second) is Some ==> hex_pair(first, second) == hex_value(second),
        hex_value(second) is None ==> hex_pair(first, second) is None,
        hex_value(first) is None && first != 0x2b ==> hex_pair(first, second) is None,
{
}

/// Bytes are decoded one after the other: an escape to its byte, a `+` to a space where that
/// is what it means, any other byte to itself.
pub proof fn bytes_are_decoded_one_after_the_other(
    byte: u8,
    first: u8,
    second: u8,
    rest: Seq<u8>,
    plus_as_space: bool,
)
    ensures
        decoded_bytes(Seq::empty(), plus_as_space) == Some(Seq::<u8>::empty()),
        ({
            let tail = decoded_bytes(rest, plus_as_space);
            let escape = decoded_bytes(seq![0x25u8, first, second] + rest, plus_as_space);
            let plain = decoded_bytes(seq![byte] + rest, plus_as_space);
            &&& tail is Some && hex_pair(first, second) is Some ==> escape == Some(
                seq![hex_pair(first, second)->0] + tail->0,
            )
            &&& tail is None || hex_pair(first, second) is None ==> escape is None
            &&& byte != 0x25 && !(byte == 0x2b && plus_as_space) && tail is Some ==> plain == Some(
                seq![byte] + tail->0,
            )
            &&& byte == 0x2b && plus_as_space && tail is Some ==> plain == Some(
                seq![0x20u8] + tail->0,
            )
            &&& byte != 0x25 && tail is None ==> plain is None
            &&& byte == 0x25 && rest.len() < 2 ==> plain is None
        }),
{
    let escape = seq![0x25u8, first, second] + rest;
    let plain = seq![byte] + rest;
    assert(escape.skip(3) =~= rest);
    assert(plain.skip(1) =~= rest);
    assert(escape[0] == 0x25 && escape[1] == first && escape[2] == second);
    assert(plain[0] == byte);
}

/// What can be decoded is decoded apart from what follows it.
pub proof fn decoding_goes_from_left_to_right(a: Seq<u8>, b: Seq<u8>, plus_as_space: bool)
    requires
        decoded_bytes(a, plus_as_space) is Some,
    ensures
        decoded_bytes(a + b, plus_as_space) == (match decoded_bytes(b, plus_as_space) {
            Some(rest) => Some(decoded_bytes(a, plus_as_space)->0 + rest),
            None => None,
        }),
    decreases a.len(),
{
    let all = a + b;
    if a.len() == 0 {
        assert(all =~= b);
        if let Some(rest) = decoded_bytes(b, plus_as_space) {
            assert(Seq::<u8>::empty() + rest =~= rest);
        }
    } else {
        let step: int = if a[0] == 0x25 {
            3
        } else {
            1
        };
        assert(a.len() >= step);
        let tail = a.skip(step);
        assert(all[0] == a[0]);
        if step == 3 {
            assert(all[1] == a[1] && all[2] == a[2]);
        }
        assert(decoded_bytes(tail, plus_as_space) is Some);
        decoding_goes_from_left_to_right(tail, b, plus_as_space);
        assert(all.skip(step) =~= tail + b);
        let done = decoded_bytes(tail, plus_as_space)->0;
        if let Some(rest) = decoded_bytes(b, plus_as_space) {
            assert forall|byte: u8| #[trigger] (seq![byte] + (done + rest)) == seq![byte] + done
                + rest by {
                assert(seq![byte] + (done + rest) =~= seq![byte] + done + rest);
            }
        }
    }
}

/// Decoded bytes are a text where they are UTF-8, and none where they are not.
pub proof fn decoded_bytes_must_be_utf8(value: Seq<char>, plus_as_space: bool)
    ensures
        ({
            let bytes = decoded_bytes(encode_utf8(value), plus_as_space);
            &&& bytes is None ==> decoded_text(value, plus_as_space) is None
            &&& bytes is Some && valid_utf8(bytes->0) ==> decoded_text(value, plus_as_space)
                == Some(decode_utf8(bytes->0))
            &&& bytes is Some && !valid_utf8(bytes->0) ==> decoded_text(
                value,
                plus_as_space,
            ) is None
        }),
{
}

/// Two texts in a row are decoded to what they are decoded to in a row.
pub proof fn texts_are_decoded_apart(
    a: Seq<char>,
    b: Seq<char>,
    x: Seq<char>,
    y: Seq<char>,
    plus_as_space: bool,
)
    requires
        decoded_text(a, plus_as_space) == Some(x),
        decoded_text(b, plus_as_space) == Some(y),
    ensures
        decoded_text(a + b, plus_as_space) == Some(x + y),
{
    let p = decoded_bytes(encode_utf8(a), plus_as_space)->0;
    let q = decoded_bytes(encode_utf8(b), plus_as_space)->0;
    lemma_encode_concat(a, b);
    decoding_goes_from_left_to_right(encode_utf8(a), encode_utf8(b), plus_as_space);
    valid_utf8_concat(p, q);
    decode_utf8_encode_utf8(p);
    decode_utf8_encode_utf8(q);
    lemma_encode_concat(x, y);
    encode_utf8_decode_utf8(x + y);
}

/// A `+` is a space in a query, and itself in a path.
pub proof fn plus_is_a_space_in_a_query()
    ensures
        decoded_text(seq!['+'], true) == Some(seq![' ']),
        decoded_text(seq!['+'], false) == Some(seq!['+']),
{
    let plus = seq!['+'];
    let gap = seq![' '];
    assert(is_ascii_chars(plus) && is_ascii_chars(gap));
    is_ascii_chars_encode_utf8(plus);
    is_ascii_chars_encode_utf8(gap);
    assert(plus[0] as u8 == 0x2b && gap[0] as u8 == 0x20);
    assert(encode_utf8(plus) =~= seq![0x2bu8] + Seq::<u8>::empty());
    assert(encode_utf8(gap) =~= seq![0x20u8] + Seq::<u8>::empty());
    bytes_are_decoded_one_after_the_other(0x2b, 0, 0, Seq::empty(), true);
    encode_utf8_valid_utf8(gap);
    encode_utf8_decode_utf8(gap);
    plain_text_is_left_alone(plus, false);
}

// ---------------------------------------------------------------------------
// Queries
// ---------------------------------------------------------------------------
/// Whether a text is the rest of a query after a pair: nothing, or an ampersand and more.
pub open spec fn ends_pair(rest: Seq<char>) -> bool {
    rest.len() > 0 ==> rest[0] == '&'
}

/// The first pair of a query.
proof fn lemma_first_pair(pair: Seq<char>, rest: Seq<char>)
    requires
        !pair.contains('&'),
        ends_pair(rest),
    ensures
        position(pair + rest, '&') == pair.len(),
        (pair + rest).take(pair.len() as int) == pair,
        rest.len() > 0 ==> (pair + rest).skip(pair.len() as int + 1) == rest.skip(1),
{
    let query = pair + rest;
    assert forall|i: int| 0 <= i < pair.len() implies other_than('&')(#[trigger] query[i]) by {
        assert(query[i] == pair[i] && pair.contains(pair[i]));
    }
    lemma_span_is(query, other_than('&'), pair.len() as int);
    assert(query.take(pair.len() as int) =~= pair);
    if rest.len() > 0 {
        assert(query.skip(pair.len() as int + 1) =~= rest.skip(1));
    }
}

/// The value of a key is that of the first pair with its name, decoded. Pairs with another
/// name are passed over, one that cannot be decoded ends the search, and a query without the
/// name has no value for it.
pub proof fn first_pair_of_a_name_counts(
    name: Seq<char>,
    value: Seq<char>,
    rest: Seq<char>,
    key: Seq<char>,
)
    requires
        !name.contains('&'),
        !name.contains('='),
        !value.contains('&'),
        ends_pair(rest),
    ensures
        decoded_text(name, true) == Some(key) ==> query_value(
            name + seq!['='] + value + rest,
            key,
        ) == decoded_text(value, true),
        decoded_text(name, true) is Some && decoded_text(name, true) != Some(key) && rest.len() > 0
            ==> query_value(name + seq!['='] + value + rest, key) == query_value(rest.skip(1), key),
        decoded_text(name, true) is Some && decoded_text(name, true) != Some(key) && rest.len() == 0
            ==> query_value(name + seq!['='] + value + rest, key) is None,
        decoded_text(name, true) is None ==> query_value(
            name + seq!['='] + value + rest,
            key,
        ) is None,
{
    let pair = name + seq!['='] + value;
    assert(!pair.contains('&')) by {
        if pair.contains('&') {
            let i = choose|i: int| 0 <= i < pair.len() && pair[i] == '&';
            if i < name.len() {
                assert(name.contains(name[i]));
            } else if i > name.len() {
                assert(value[i - name.len() - 1] == '&');
                assert(value.contains(value[i - name.len() - 1]));
            }
        }
    }
    lemma_first_pair(pair, rest);
    split_is_at_the_first_separator(name, '=', value);
    assert(name_and_value(pair) == (name, value));
}

/// A name alone has an empty value, and is passed over like any other pair.
pub proof fn name_alone_has_an_empty_value(name: Seq<char>, rest: Seq<char>, key: Seq<char>)
    requires
        !name.contains('&'),
        !name.contains('='),
        ends_pair(rest),
    ensures
        decoded_text(name, true) == Some(key) ==> query_value(name + rest, key) == Some(
            Seq::<char>::empty(),
        ),
        decoded_text(name, true) is Some && decoded_text(name, true) != Some(key) && rest.len() > 0
            ==> query_value(name + rest, key) == query_value(rest.skip(1), key),
        decoded_text(name, true) is Some && decoded_text(name, true) != Some(key) && rest.len() == 0
            ==> query_value(name + rest, key) is None,
        decoded_text(name, true) is None ==> query_value(name + rest, key) is None,
{
    lemma_first_pair(name, rest);
    split_is_at_the_first_separator(name, '=', Seq::empty());
    plain_text_is_left_alone(Seq::empty(), true);
}

/// A request asks for a second in its path, or in the query of a request for the history.
pub proof fn seconds_are_asked_for_in_path_or_query(raw: Seq<char>, query: Seq<char>)
    ensures
        asked_second(RouteView::Second(raw)) == Some(raw),
        asked_second(RouteView::History(query)) == query_value(query, "second"@),
        asked_second(RouteView::Status) is None,
        asked_second(RouteView::Latest) is None,
        asked_second(RouteView::NotFound) is None,
        asked_second(RouteView::BadRequest) is None,
        asked_second(RouteView::MethodNotAllowed) is None,
{
}

/// A request has an answer unless it would have to name a second outside the years -9999 to
/// 9999: the current one for the status, the one that is asked for otherwise.
pub proof fn requests_have_an_answer(route: RouteView, now: i64)
    ensures
        servable(route, now) <==> (route is Status ==> -377_705_116_800 <= now <= 253_402_300_799)
            && (asked_second(route) is Some && denoted(asked_second(route)->0) is Some
            ==> -377_705_116_800 <= denoted(asked_second(route)->0)->0 <= 253_402_300_799),
{
}

} // verus!
