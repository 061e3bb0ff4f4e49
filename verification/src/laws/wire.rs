//! What goes over the wire and into the log.
use crate::config::Config;
use crate::json::{
    are_sorted_keys, comma_separated, flag_text, object_text, optional_text, printed,
    printed_items, sorted_keys, string_text, Json,
};
use crate::laws::bodies::{braced, objects_are_put_together, pair, quoted, then_comma};
use crate::numeral::decimal_text;
use crate::scraper::{failure_report, poll_report};
use crate::server::{
    address_text, listening_text, reason_text, response_text, HttpResponse, ResponseView, Route,
    RouteView,
};
use crate::text::comes_before;
use vstd::prelude::*;
use vstd::string::*;
use vstd::utf8::*;

verus! {

/// The end of a line.
pub open spec fn crlf() -> Seq<char> {
    seq!['\r', '\n']
}

/// An answer goes over the wire as a status line, the type of the body, the number of its
/// bytes, the end of the connection, an empty line, and the body as it is.
pub proof fn answers_are_framed(response: ResponseView)
    ensures
        response_text(response) == "HTTP/1.1 "@ + decimal_text(response.status as nat) + seq![' ']
            + reason_text(response.status) + crlf()
            + "Content-Type: application/json; charset=utf-8"@ + crlf() + "Content-Length: "@
            + decimal_text(encode_utf8(response.body).len()) + crlf() + "Connection: close"@
            + crlf() + crlf() + response.body,
{
    reveal_strlit(" ");
    assert("\r\nContent-Type: application/json; charset=utf-8\r\nContent-Length: "@ =~= crlf()
        + "Content-Type: application/json; charset=utf-8"@ + crlf() + "Content-Length: "@) by {
        reveal_strlit("\r\nContent-Type: application/json; charset=utf-8\r\nContent-Length: ");
        reveal_strlit("Content-Type: application/json; charset=utf-8");
        reveal_strlit("Content-Length: ");
    }
    assert("\r\nConnection: close\r\n\r\n"@ =~= crlf() + "Connection: close"@ + crlf() + crlf()) by {
        reveal_strlit("\r\nConnection: close\r\n\r\n");
        reveal_strlit("Connection: close");
    }
    assert(" "@ =~= seq![' ']);
    assert(response_text(response) =~= "HTTP/1.1 "@ + decimal_text(response.status as nat)
        + seq![' '] + reason_text(response.status) + crlf()
        + "Content-Type: application/json; charset=utf-8"@ + crlf() + "Content-Length: "@
        + decimal_text(encode_utf8(response.body).len()) + crlf() + "Connection: close"@ + crlf()
        + crlf() + response.body);
}

/// A status has the reason phrase that HTTP gives it.
pub proof fn statuses_have_their_reason(status: u16)
    ensures
        reason_text(400) == "Bad Request"@,
        reason_text(404) == "Not Found"@,
        reason_text(405) == "Method Not Allowed"@,
        reason_text(500) == "Internal Server Error"@,
        status != 400 && status != 404 && status != 405 && status != 500 ==> reason_text(status)
            == "OK"@,
{
}

/// The API listens on the host and the port that are configured.
pub proof fn address_is_host_and_port(config: &Config)
    ensures
        address_text(config) == config.listen_host@ + seq![':'] + decimal_text(
            config.listen_port as nat,
        ),
{
    reveal_strlit(":");
    assert(":"@ =~= seq![':']);
}

/// The line that reports that the API is listening tells where, what is polled, and how much
/// is retained.
pub proof fn listening_line_tells_the_configuration(config: &Config)
    ensures
        listening_text(config) == braced(
            then_comma(
                then_comma(
                    then_comma(
                        then_comma(
                            then_comma(
                                pair("message"@, quoted("op-batcher collector listening"@)),
                                pair(
                                    "url"@,
                                    string_text("http://"@ + address_text(config) + "/"@),
                                ),
                            ),
                            pair("rpcUrl"@, string_text(config.rpc_url@)),
                        ),
                        pair("historySize"@, decimal_text(config.history_size as nat)),
                    ),
                    pair("listenHost"@, string_text(config.listen_host@)),
                ),
                pair("listenPort"@, decimal_text(config.listen_port as nat)),
            ),
        ),
{
    reveal_strlit("op-batcher collector listening");
    reveal_strlit("message");
    reveal_strlit("url");
    reveal_strlit("rpcUrl");
    reveal_strlit("historySize");
    reveal_strlit("listenHost");
    reveal_strlit("listenPort");
    let v1 = string_text("op-batcher collector listening"@);
    let v2 = string_text("http://"@ + address_text(config) + "/"@);
    let v3 = string_text(config.rpc_url@);
    let v4 = decimal_text(config.history_size as nat);
    let v5 = string_text(config.listen_host@);
    let v6 = decimal_text(config.listen_port as nat);
    let f1 = seq![("message"@, v1)];
    let f2 = f1.push(("url"@, v2));
    let f3 = f2.push(("rpcUrl"@, v3));
    let f4 = f3.push(("historySize"@, v4));
    let f5 = f4.push(("listenHost"@, v5));
    let f6 = f5.push(("listenPort"@, v6));
    let t1 = pair("message"@, v1);
    let t2 = then_comma(t1, pair("url"@, v2));
    let t3 = then_comma(t2, pair("rpcUrl"@, v3));
    let t4 = then_comma(t3, pair("historySize"@, v4));
    let t5 = then_comma(t4, pair("listenHost"@, v5));
    objects_are_put_together(Seq::empty(), "message"@, v1, t1);
    objects_are_put_together(f1, "url"@, v2, t1);
    objects_are_put_together(f2, "rpcUrl"@, v3, t2);
    objects_are_put_together(f3, "historySize"@, v4, t3);
    objects_are_put_together(f4, "listenHost"@, v5, t4);
    objects_are_put_together(f5, "listenPort"@, v6, t5);
    assert(f6 =~= seq![
        ("message"@, v1),
        ("url"@, v2),
        ("rpcUrl"@, v3),
        ("historySize"@, v4),
        ("listenHost"@, v5),
        ("listenPort"@, v6),
    ]);
}

/// A successful poll is reported with its second, the time that it took and the endpoint, a
/// failed tick with its message; nothing else is reported.
pub proof fn reports_tell_what_they_are_given(
    second: Seq<char>,
    duration_ms: u128,
    rpc_url: Seq<char>,
    message: Seq<char>,
    key: Seq<char>,
)
    ensures
        poll_report(second, duration_ms, rpc_url).get("second"@) == Some(Json::Text(second)),
        poll_report(second, duration_ms, rpc_url).get("durationMs"@) == Some(
            Json::Text(decimal_text(duration_ms as nat)),
        ),
        poll_report(second, duration_ms, rpc_url).get("rpcUrl"@) == Some(Json::Text(rpc_url)),
        poll_report(second, duration_ms, rpc_url).get(key) is Some ==> key == "second"@ || key
            == "durationMs"@ || key == "rpcUrl"@,
        failure_report(message).get("message"@) == Some(Json::Text(message)),
        failure_report(message).get(key) is Some ==> key == "message"@,
{
    reveal_strlit("second");
    reveal_strlit("durationMs");
    reveal_strlit("rpcUrl");
    assert("second"@.len() == 6 && "durationMs"@.len() == 10 && "rpcUrl"@.len() == 6);
    assert("second"@[0] == 's' && "rpcUrl"@[0] == 'r');
}

// ---------------------------------------------------------------------------
// JSON
// ---------------------------------------------------------------------------
/// A member is found in an object under its key, and nothing in any other value.
pub proof fn members_are_found_in_objects(members: Map<Seq<char>, Json>, key: Seq<char>, json: Json)
    ensures
        members.contains_key(key) ==> Json::Object(members).get(key) == Some(members[key]),
        !members.contains_key(key) ==> Json::Object(members).get(key) is None,
        !(json is Object) ==> json.get(key) is None,
{
}

/// Null, truth values, numbers and texts are printed as what they are.
pub proof fn scalars_are_printed_as_they_are(number: Seq<char>, text: Seq<char>)
    ensures
        printed(Json::Null) == "null"@,
        printed(Json::Bool(true)) == "true"@,
        printed(Json::Bool(false)) == "false"@,
        printed(Json::Number(number)) == number,
        printed(Json::Text(text)) == string_text(text),
        flag_text(true) == "true"@,
        flag_text(false) == "false"@,
        optional_text(None) == "null"@,
        optional_text(Some(text)) == string_text(text),
{
}

/// The items of an array are printed one by one.
proof fn lemma_printed_items(items: Seq<Json>)
    ensures
        printed_items(items).len() == items.len(),
        forall|i: int|
            0 <= i < items.len() ==> #[trigger] printed_items(items)[i] == printed(items[i]),
    decreases items.len(),
{
    if items.len() > 0 {
        let shorter = items.take(items.len() - 1);
        lemma_printed_items(shorter);
        assert forall|i: int| 0 <= i < items.len() implies #[trigger] printed_items(items)[i]
            == printed(items[i]) by {
            if i < shorter.len() {
                assert(printed_items(items)[i] == printed_items(shorter)[i]);
                assert(shorter[i] == items[i]);
            }
        }
    }
}

/// An array is printed as its items between brackets, with commas between them.
pub proof fn arrays_are_printed_item_by_item(items: Seq<Json>, texts: Seq<Seq<char>>)
    requires
        texts.len() == items.len(),
        forall|i: int| 0 <= i < items.len() ==> #[trigger] texts[i] == printed(items[i]),
    ensures
        printed(Json::Array(items)) == seq!['['] + comma_separated(texts) + seq![']'],
{
    lemma_printed_items(items);
    assert(printed_items(items) =~= texts);
}

/// An object of one member is printed as that member between braces.
pub proof fn single_member_is_printed_between_braces(
    members: Map<Seq<char>, Json>,
    key: Seq<char>,
)
    requires
        members.contains_key(key),
        forall|other: Seq<char>| members.contains_key(other) ==> other == key,
    ensures
        printed(Json::Object(members)) == object_text(seq![(key, printed(members[key]))]),
{
    let keys = sorted_keys(members);
    let single = seq![key];
    assert(single[0] == key);
    assert(are_sorted_keys(single, members)) by {
        assert forall|other: Seq<char>| members.contains_key(other) <==> single.contains(other) by {
            if members.contains_key(other) {
                assert(single[0] == other);
            }
        }
    }
    assert(are_sorted_keys(keys, members));
    assert(keys.contains(key));
    assert forall|i: int| 0 <= i < keys.len() implies keys[i] == key by {
        assert(keys.contains(keys[i]));
    }
    if keys.len() > 1 {
        assert(comes_before(keys[0], keys[1]));
        assert(false);
    }
    assert(keys =~= single);
    assert(members.dom() =~= set![key]);
    assert(members.dom().finite());
    let fields = Seq::new(
        keys.len(),
        |i: int|
            if members.dom().finite() && members.contains_key(keys[i]) {
                (keys[i], printed(members[keys[i]]))
            } else {
                (keys[i], Seq::empty())
            },
    );
    assert(fields =~= seq![(key, printed(members[key]))]);
}

// ---------------------------------------------------------------------------
// The models
// ---------------------------------------------------------------------------
/// The models of an answer and of what is asked for hold every field.
pub proof fn answer_model_holds_every_field(response: HttpResponse, text: String)
    ensures
        response@.status == response.status,
        response@.body == response.body@,
        Route::History(text)@ == RouteView::History(text@),
        Route::Second(text)@ == RouteView::Second(text@),
        Route::Status@ == RouteView::Status,
        Route::Latest@ == RouteView::Latest,
        Route::NotFound@ == RouteView::NotFound,
        Route::BadRequest@ == RouteView::BadRequest,
        Route::MethodNotAllowed@ == RouteView::MethodNotAllowed,
{
}

} // verus!
