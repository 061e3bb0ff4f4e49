//! The bodies that the HTTP API answers with, character by character.
use crate::calendar::second_text;
use crate::clock::denoted;
use crate::config::Config;
use crate::json::{
    comma_separated, field_texts, flag_text, is_plain, json_text, member_texts, message_text,
    object_text, optional_text, printed, string_text, Json,
};
use crate::model::{lemma_find_is, CollectorView, EntryView, ErrorView};
use crate::numeral::{decimal_text, is_digit, lemma_decimal_reads_back};
use crate::percent::query_value;
use crate::server::{
    answer, entry_fields, entry_text, error_fields, history_fields, refusal_text, refused,
    seconds_behind, RouteView,
};
use vstd::prelude::*;
use vstd::string::*;

verus! {

/// A member of an object: a key in quotes, a colon, and a value.
pub open spec fn pair(key: Seq<char>, value: Seq<char>) -> Seq<char> {
    seq!['"'] + key + seq!['"', ':'] + value
}

/// Something between quotes.
pub open spec fn quoted(text: Seq<char>) -> Seq<char> {
    seq!['"'] + text + seq!['"']
}

/// Something between braces.
pub open spec fn braced(text: Seq<char>) -> Seq<char> {
    seq!['{'] + text + seq!['}']
}

/// One text, a comma, and another text.
pub open spec fn then_comma(first: Seq<char>, second: Seq<char>) -> Seq<char> {
    first + seq![','] + second
}

/// A text and, where there is a value, a comma and one more member.
pub open spec fn then_member(
    text: Seq<char>,
    key: Seq<char>,
    value: Option<Seq<char>>,
) -> Seq<char> {
    match value {
        Some(found) => then_comma(text, pair(key, found)),
        None => text,
    }
}

// ---------------------------------------------------------------------------
// How objects are put together
// ---------------------------------------------------------------------------
/// A text without quotes, backslashes and control characters is written between quotes.
pub proof fn plain_text_is_quoted(text: Seq<char>)
    requires
        forall|i: int|
            0 <= i < text.len() ==> (#[trigger] text[i]) as u32 >= 0x20 && text[i] as u32 != 0x22
                && text[i] as u32 != 0x5c,
    ensures
        string_text(text) == quoted(text),
{
    assert forall|i: int| 0 <= i < text.len() implies (#[trigger] text[i]) as u32 >= 0x20 && text[i]
        != '"' && text[i] != '\\' by {
        assert('"' as u32 == 0x22 && '\\' as u32 == 0x5c);
    }
}

/// Any other text is written as `serde_json` escapes it.
pub proof fn other_text_is_escaped(text: Seq<char>, i: int)
    requires
        0 <= i < text.len(),
        text[i] == '"' || text[i] == '\\' || (text[i] as u32) < 0x20,
    ensures
        string_text(text) == json_text(Json::Text(text)),
{
    assert(!is_plain(text));
}

/// The fields of an object are its keys and the texts of its values, in order.
pub proof fn fields_are_keys_and_texts(fields: Seq<(&str, String)>, i: int)
    requires
        0 <= i < fields.len(),
    ensures
        field_texts(fields).len() == fields.len(),
        field_texts(fields)[i].0 == fields[i].0@,
        field_texts(fields)[i].1 == fields[i].1@,
{
}

/// A number is written in digits, so that it stands between quotes as it is.
proof fn lemma_number_is_quoted(n: nat)
    ensures
        string_text(decimal_text(n)) == quoted(decimal_text(n)),
{
    lemma_decimal_reads_back(n);
    let text = decimal_text(n);
    assert forall|i: int| 0 <= i < text.len() implies (#[trigger] text[i]) as u32 >= 0x20 && text[i]
        as u32 != 0x22 && text[i] as u32 != 0x5c by {
        assert(is_digit(text[i]));
    }
    plain_text_is_quoted(text);
}

/// The keys that the API writes are plain.
proof fn lemma_keys_are_plain()
    ensures
        is_plain("ok"@),
        is_plain("rpcUrl"@),
        is_plain("historySize"@),
        is_plain("retainedEntries"@),
        is_plain("oldestSecond"@),
        is_plain("latestSecond"@),
        is_plain("currentSecond"@),
        is_plain("behindSeconds"@),
        is_plain("collecting"@),
        is_plain("startedAt"@),
        is_plain("endpoints"@),
        is_plain("second"@),
        is_plain("entry"@),
        is_plain("count"@),
        is_plain("history"@),
        is_plain("error"@),
        is_plain("message"@),
        is_plain("code"@),
        is_plain("status"@),
        is_plain("body"@),
        is_plain("collectedAt"@),
        is_plain("durationMs"@),
        is_plain("result"@),
        is_plain("url"@),
        is_plain("listenHost"@),
        is_plain("listenPort"@),
{
    assert(is_plain("ok"@)) by {
        reveal_strlit("ok");
    }
    assert(is_plain("rpcUrl"@)) by {
        reveal_strlit("rpcUrl");
    }
    assert(is_plain("historySize"@)) by {
        reveal_strlit("historySize");
    }
    assert(is_plain("retainedEntries"@)) by {
        reveal_strlit("retainedEntries");
    }
    assert(is_plain("oldestSecond"@)) by {
        reveal_strlit("oldestSecond");
    }
    assert(is_plain("latestSecond"@)) by {
        reveal_strlit("latestSecond");
    }
    assert(is_plain("currentSecond"@)) by {
        reveal_strlit("currentSecond");
    }
    assert(is_plain("behindSeconds"@)) by {
        reveal_strlit("behindSeconds");
    }
    assert(is_plain("collecting"@)) by {
        reveal_strlit("collecting");
    }
    assert(is_plain("startedAt"@)) by {
        reveal_strlit("startedAt");
    }
    assert(is_plain("endpoints"@)) by {
        reveal_strlit("endpoints");
    }
    assert(is_plain("second"@)) by {
        reveal_strlit("second");
    }
    assert(is_plain("entry"@)) by {
        reveal_strlit("entry");
    }
    assert(is_plain("count"@)) by {
        reveal_strlit("count");
    }
    assert(is_plain("history"@)) by {
        reveal_strlit("history");
    }
    assert(is_plain("error"@)) by {
        reveal_strlit("error");
    }
    assert(is_plain("message"@)) by {
        reveal_strlit("message");
    }
    assert(is_plain("code"@)) by {
        reveal_strlit("code");
    }
    assert(is_plain("status"@)) by {
        reveal_strlit("status");
    }
    assert(is_plain("body"@)) by {
        reveal_strlit("body");
    }
    assert(is_plain("collectedAt"@)) by {
        reveal_strlit("collectedAt");
    }
    assert(is_plain("durationMs"@)) by {
        reveal_strlit("durationMs");
    }
    assert(is_plain("result"@)) by {
        reveal_strlit("result");
    }
    assert(is_plain("url"@)) by {
        reveal_strlit("url");
    }
    assert(is_plain("listenHost"@)) by {
        reveal_strlit("listenHost");
    }
    assert(is_plain("listenPort"@)) by {
        reveal_strlit("listenPort");
    }
}

/// One more text is separated by a comma from those before.
pub proof fn texts_are_separated_by_commas(texts: Seq<Seq<char>>, text: Seq<char>)
    ensures
        comma_separated(Seq::empty()) == Seq::<char>::empty(),
        comma_separated(seq![text]) == text,
        texts.len() > 0 ==> comma_separated(texts.push(text)) == then_comma(
            comma_separated(texts),
            text,
        ),
{
    let more = texts.push(text);
    assert(more.drop_last() =~= texts);
    if texts.len() > 0 {
        assert(comma_separated(more) =~= then_comma(comma_separated(texts), text));
    }
}

/// An object of no members, and one of one member more.
pub proof fn objects_are_put_together(
    fields: Seq<(Seq<char>, Seq<char>)>,
    key: Seq<char>,
    value: Seq<char>,
    inner: Seq<char>,
)
    requires
        is_plain(key),
    ensures
        object_text(Seq::empty()) == seq!['{', '}'],
        object_text(seq![(key, value)]) == braced(pair(key, value)),
        fields.len() > 0 && object_text(fields) == braced(inner) ==> object_text(
            fields.push((key, value)),
        ) == braced(then_comma(inner, pair(key, value))),
{
    assert(member_texts(Seq::empty()) =~= Seq::<Seq<char>>::empty());
    assert(object_text(Seq::empty()) =~= seq!['{', '}']);
    let member = string_text(key) + seq![':'] + value;
    assert(member =~= pair(key, value));
    assert(member_texts(seq![(key, value)]) =~= seq![member]);
    texts_are_separated_by_commas(member_texts(fields), member);
    assert(member_texts(fields.push((key, value))) =~= member_texts(fields).push(member));
    if fields.len() > 0 && object_text(fields) == braced(inner) {
        let joined = comma_separated(member_texts(fields));
        assert(braced(joined).subrange(1, braced(joined).len() - 1) =~= joined);
        assert(braced(inner).subrange(1, braced(inner).len() - 1) =~= inner);
    }
}

// ---------------------------------------------------------------------------
// Entries
// ---------------------------------------------------------------------------
/// What stands in an error object.
pub open spec fn error_inner(error: ErrorView) -> Seq<char> {
    then_member(
        then_member(
            then_member(
                pair("message"@, string_text(error.message)),
                "code"@,
                match error.code {
                    Some(json) => Some(printed(json)),
                    None => None,
                },
            ),
            "status"@,
            match error.status {
                Some(status) => Some(decimal_text(status as nat)),
                None => None,
            },
        ),
        "body"@,
        match error.body {
            Some(json) => Some(printed(json)),
            None => None,
        },
    )
}

/// An error is written with its message and with each of code, status and body that it has.
pub proof fn error_is_written_with_what_is_known(error: ErrorView)
    ensures
        object_text(error_fields(error)) == braced(error_inner(error)),
{
    lemma_keys_are_plain();
    let nothing = Seq::<(Seq<char>, Seq<char>)>::empty();
    let t0 = pair("message"@, string_text(error.message));
    let f0 = seq![("message"@, string_text(error.message))];
    objects_are_put_together(nothing, "message"@, string_text(error.message), t0);
    let (f1, t1) = match error.code {
        Some(json) => {
            objects_are_put_together(f0, "code"@, printed(json), t0);
            (f0.push(("code"@, printed(json))), then_comma(t0, pair("code"@, printed(json))))
        },
        None => (f0, t0),
    };
    let (f2, t2) = match error.status {
        Some(status) => {
            let text = decimal_text(status as nat);
            objects_are_put_together(f1, "status"@, text, t1);
            (f1.push(("status"@, text)), then_comma(t1, pair("status"@, text)))
        },
        None => (f1, t1),
    };
    if let Some(json) = error.body {
        objects_are_put_together(f2, "body"@, printed(json), t2);
    }
}

/// The part of an entry that is the same whether it is ok or not.
pub open spec fn envelope(entry: EntryView) -> Seq<char> {
    then_comma(
        then_comma(
            then_comma(
                pair("second"@, string_text(entry.second)),
                pair("collectedAt"@, string_text(entry.collected_at)),
            ),
            pair("rpcUrl"@, string_text(entry.rpc_url)),
        ),
        pair("durationMs"@, quoted(decimal_text(entry.duration_ms as nat))),
    )
}

/// The envelope of an entry, then `ok`, then one more member.
proof fn lemma_entry_text(entry: EntryView, key: Seq<char>, value: Seq<char>)
    requires
        key == "result"@ || key == "error"@,
        entry_fields(entry)[5] == (key, value),
    ensures
        entry_text(entry) == braced(
            then_comma(
                then_comma(envelope(entry), pair("ok"@, flag_text(entry.ok))),
                pair(key, value),
            ),
        ),
{
    lemma_keys_are_plain();
    let duration = decimal_text(entry.duration_ms as nat);
    lemma_number_is_quoted(entry.duration_ms as nat);
    let nothing = Seq::<(Seq<char>, Seq<char>)>::empty();
    let f1 = seq![("second"@, string_text(entry.second))];
    let t1 = pair("second"@, string_text(entry.second));
    objects_are_put_together(nothing, "second"@, string_text(entry.second), t1);
    let f2 = f1.push(("collectedAt"@, string_text(entry.collected_at)));
    let t2 = then_comma(t1, pair("collectedAt"@, string_text(entry.collected_at)));
    objects_are_put_together(f1, "collectedAt"@, string_text(entry.collected_at), t1);
    let f3 = f2.push(("rpcUrl"@, string_text(entry.rpc_url)));
    let t3 = then_comma(t2, pair("rpcUrl"@, string_text(entry.rpc_url)));
    objects_are_put_together(f2, "rpcUrl"@, string_text(entry.rpc_url), t2);
    let f4 = f3.push(("durationMs"@, quoted(duration)));
    let t4 = then_comma(t3, pair("durationMs"@, quoted(duration)));
    objects_are_put_together(f3, "durationMs"@, quoted(duration), t3);
    let f5 = f4.push(("ok"@, flag_text(entry.ok)));
    let t5 = then_comma(t4, pair("ok"@, flag_text(entry.ok)));
    objects_are_put_together(f4, "ok"@, flag_text(entry.ok), t4);
    objects_are_put_together(f5, key, value, t5);
    assert(entry_fields(entry) =~= f5.push((key, value)));
}

/// An entry that is ok is written with its result, or null, and no error.
pub proof fn successful_entry_is_written_with_its_result(entry: EntryView)
    requires
        entry.ok,
    ensures
        entry_text(entry) == braced(
            then_comma(
                then_comma(envelope(entry), pair("ok"@, "true"@)),
                pair(
                    "result"@,
                    match entry.result {
                        Some(json) => printed(json),
                        None => "null"@,
                    },
                ),
            ),
        ),
{
    lemma_entry_text(
        entry,
        "result"@,
        match entry.result {
            Some(json) => printed(json),
            None => "null"@,
        },
    );
}

/// An entry that is not ok is written with its error, or that of an unknown one, and no result.
pub proof fn failed_entry_is_written_with_its_error(entry: EntryView)
    requires
        !entry.ok,
    ensures
        entry_text(entry) == braced(
            then_comma(
                then_comma(envelope(entry), pair("ok"@, "false"@)),
                pair(
                    "error"@,
                    match entry.error {
                        Some(error) => braced(error_inner(error)),
                        None => braced(pair("message"@, quoted("Unknown error"@))),
                    },
                ),
            ),
        ),
{
    match entry.error {
        Some(error) => {
            error_is_written_with_what_is_known(error);
            lemma_entry_text(entry, "error"@, braced(error_inner(error)));
        },
        None => {
            message_is_written("Unknown error"@);
            assert(string_text("Unknown error"@) == quoted("Unknown error"@)) by {
                reveal_strlit("Unknown error");
            }
            lemma_entry_text(entry, "error"@, braced(pair("message"@, quoted("Unknown error"@))));
        },
    }
}

/// An object with a message says it.
pub proof fn message_is_written(message: Seq<char>)
    ensures
        message_text(message) == braced(pair("message"@, string_text(message))),
{
    lemma_keys_are_plain();
    objects_are_put_together(
        Seq::empty(),
        "message"@,
        string_text(message),
        pair("message"@, string_text(message)),
    );
}

// ---------------------------------------------------------------------------
// Refusals
// ---------------------------------------------------------------------------
/// A refusal says that it is not ok, and why.
pub proof fn refusal_says_why(message: Seq<char>)
    ensures
        refusal_text(message) == braced(
            then_comma(
                pair("ok"@, "false"@),
                pair("error"@, braced(pair("message"@, string_text(message)))),
            ),
        ),
{
    lemma_keys_are_plain();
    message_is_written(message);
    let nothing = Seq::<(Seq<char>, Seq<char>)>::empty();
    let t1 = pair("ok"@, "false"@);
    objects_are_put_together(nothing, "ok"@, "false"@, t1);
    let f1 = seq![("ok"@, "false"@)];
    objects_are_put_together(f1, "error"@, message_text(message), t1);
    assert(f1.push(("error"@, message_text(message))) =~= seq![
        ("ok"@, "false"@),
        ("error"@, message_text(message)),
    ]);
}

/// What is refused is refused with a status of its own and the reason for it, whatever the
/// configuration, the state and the clock.
pub proof fn refusals_have_their_status(config: &Config, state: CollectorView, now: i64)
    ensures
        answer(RouteView::BadRequest, config, state, now).status == 400,
        answer(RouteView::BadRequest, config, state, now).body == braced(
            pair("message"@, quoted("Bad request"@)),
        ),
        answer(RouteView::MethodNotAllowed, config, state, now).status == 405,
        answer(RouteView::MethodNotAllowed, config, state, now).body == braced(
            then_comma(
                pair("ok"@, "false"@),
                pair(
                    "error"@,
                    braced(pair("message"@, quoted("Only GET requests are supported"@))),
                ),
            ),
        ),
        answer(RouteView::NotFound, config, state, now).status == 404,
        answer(RouteView::NotFound, config, state, now).body == braced(
            then_comma(
                pair("ok"@, "false"@),
                pair("error"@, braced(pair("message"@, quoted("Not found"@)))),
            ),
        ),
{
    message_is_written("Bad request"@);
    refusal_says_why("Only GET requests are supported"@);
    refusal_says_why("Not found"@);
    assert(string_text("Bad request"@) == quoted("Bad request"@)) by {
        reveal_strlit("Bad request");
    }
    assert(string_text("Only GET requests are supported"@) == quoted(
        "Only GET requests are supported"@,
    )) by {
        reveal_strlit("Only GET requests are supported");
    }
    assert(string_text("Not found"@) == quoted("Not found"@)) by {
        reveal_strlit("Not found");
    }
}

/// A request is settled without the state exactly where it is malformed, no GET request, for
/// nothing that there is, or for a text that asks for no second; it is settled as it is
/// answered.
pub proof fn refusals_are_settled_without_the_state(
    route: RouteView,
    config: &Config,
    state: CollectorView,
    now: i64,
)
    ensures
        refused(route) is Some <==> (match route {
            RouteView::BadRequest | RouteView::MethodNotAllowed | RouteView::NotFound => true,
            RouteView::Status | RouteView::Latest => false,
            RouteView::Second(raw) => denoted(raw) is None,
            RouteView::History(query) => query_value(query, "second"@) is Some && denoted(
                query_value(query, "second"@)->0,
            ) is None,
        }),
        refused(route) is Some ==> answer(route, config, state, now) == refused(route)->0,
{
}

// ---------------------------------------------------------------------------
// Status
// ---------------------------------------------------------------------------
/// Whether a body has a member between two others.
pub open spec fn tells(body: Seq<char>, key: Seq<char>, value: Seq<char>) -> bool {
    exists|before: Seq<char>, after: Seq<char>|
        body == #[trigger] then_comma(before, then_comma(pair(key, value), after))
}

/// The status tells how many seconds the latest one that was collected lies behind the current
/// one, and 0 where it does not or where nothing was collected. Whether a poll is under way
/// does not matter.
pub proof fn status_tells_how_far_behind(
    config: &Config,
    state: CollectorView,
    now: i64,
    seconds: nat,
)
    requires
        match state.latest_epoch_second {
            Some(latest) => if now >= latest {
                seconds == now - latest
            } else {
                seconds == 0
            },
            None => seconds == 0,
        },
    ensures
        tells(
            answer(RouteView::Status, config, state, now).body,
            "behindSeconds"@,
            decimal_text(seconds),
        ),
{
    status_is_written_in_full(config, state, now);
    let before = seq!['{'] + status_head(config, state, now);
    let after = status_tail(state) + seq!['}'];
    assert(answer(RouteView::Status, config, state, now).body =~= then_comma(
        before,
        then_comma(pair("behindSeconds"@, decimal_text(seconds)), after),
    ));
}

/// The number of seconds from one second to another, and 0 where there is none.
pub open spec fn behind(latest: Option<i64>, now: i64) -> nat {
    if latest is Some && latest->0 < now {
        (now - latest->0) as nat
    } else {
        0
    }
}

/// What the status tells before the number of seconds behind.
pub open spec fn status_head(config: &Config, state: CollectorView, now: i64) -> Seq<char> {
    then_comma(
        then_comma(
            then_comma(
                then_comma(
                    then_comma(
                        then_comma(
                            pair("ok"@, "true"@),
                            pair("rpcUrl"@, string_text(config.rpc_url@)),
                        ),
                        pair("historySize"@, decimal_text(state.history.limit as nat)),
                    ),
                    pair("retainedEntries"@, decimal_text(state.history.entries.len())),
                ),
                pair(
                    "oldestSecond"@,
                    if state.history.entries.len() > 0 {
                        string_text(state.history.entries[0].second)
                    } else {
                        "null"@
                    },
                ),
            ),
            pair(
                "latestSecond"@,
                if state.history.entries.len() > 0 {
                    string_text(state.history.entries[state.history.entries.len() - 1].second)
                } else {
                    "null"@
                },
            ),
        ),
        pair("currentSecond"@, string_text(second_text(now as int))),
    )
}

/// What the status tells after the number of seconds behind.
pub open spec fn status_tail(state: CollectorView) -> Seq<char> {
    then_comma(
        then_comma(
            pair(
                "collecting"@,
                if state.collecting {
                    "true"@
                } else {
                    "false"@
                },
            ),
            pair("startedAt"@, string_text(state.started_at)),
        ),
        pair(
            "endpoints"@,
            "[\"/health\",\"/latest\",\"/history\",\"/history?second=<datetime>\"]"@,
        ),
    )
}

/// The status tells the endpoint that is polled, the room of the history and how much of it is
/// used, the retained range, the current second and how far behind it the collector is,
/// whether a poll is under way, the time of the start, and the endpoints.
pub proof fn status_is_written_in_full(config: &Config, state: CollectorView, now: i64)
    ensures
        answer(RouteView::Status, config, state, now).status == 200,
        answer(RouteView::Status, config, state, now).body == braced(
            then_comma(
                then_comma(
                    status_head(config, state, now),
                    pair("behindSeconds"@, decimal_text(behind(state.latest_epoch_second, now))),
                ),
                status_tail(state),
            ),
        ),
{
    lemma_keys_are_plain();
    let v2 = string_text(config.rpc_url@);
    let v3 = decimal_text(state.history.limit as nat);
    let v4 = decimal_text(state.history.entries.len());
    let v5 = optional_text(state.history.oldest_key());
    let v6 = optional_text(state.history.latest_key());
    let v7 = string_text(second_text(now as int));
    let v8 = decimal_text(seconds_behind(state, now) as nat);
    let v9 = flag_text(state.collecting);
    let v10 = string_text(state.started_at);
    let v11 = "[\"/health\",\"/latest\",\"/history\",\"/history?second=<datetime>\"]"@;
    let f1 = seq![("ok"@, "true"@)];
    let f2 = f1.push(("rpcUrl"@, v2));
    let f3 = f2.push(("historySize"@, v3));
    let f4 = f3.push(("retainedEntries"@, v4));
    let f5 = f4.push(("oldestSecond"@, v5));
    let f6 = f5.push(("latestSecond"@, v6));
    let f7 = f6.push(("currentSecond"@, v7));
    let f8 = f7.push(("behindSeconds"@, v8));
    let f9 = f8.push(("collecting"@, v9));
    let f10 = f9.push(("startedAt"@, v10));
    let f11 = f10.push(("endpoints"@, v11));
    let t1 = pair("ok"@, "true"@);
    let t2 = then_comma(t1, pair("rpcUrl"@, v2));
    let t3 = then_comma(t2, pair("historySize"@, v3));
    let t4 = then_comma(t3, pair("retainedEntries"@, v4));
    let t5 = then_comma(t4, pair("oldestSecond"@, v5));
    let t6 = then_comma(t5, pair("latestSecond"@, v6));
    let t7 = then_comma(t6, pair("currentSecond"@, v7));
    let t8 = then_comma(t7, pair("behindSeconds"@, v8));
    let t9 = then_comma(t8, pair("collecting"@, v9));
    let t10 = then_comma(t9, pair("startedAt"@, v10));
    let t11 = then_comma(t10, pair("endpoints"@, v11));
    objects_are_put_together(Seq::empty(), "ok"@, "true"@, t1);
    objects_are_put_together(f1, "rpcUrl"@, v2, t1);
    objects_are_put_together(f2, "historySize"@, v3, t2);
    objects_are_put_together(f3, "retainedEntries"@, v4, t3);
    objects_are_put_together(f4, "oldestSecond"@, v5, t4);
    objects_are_put_together(f5, "latestSecond"@, v6, t5);
    objects_are_put_together(f6, "currentSecond"@, v7, t6);
    objects_are_put_together(f7, "behindSeconds"@, v8, t7);
    objects_are_put_together(f8, "collecting"@, v9, t8);
    objects_are_put_together(f9, "startedAt"@, v10, t9);
    objects_are_put_together(f10, "endpoints"@, v11, t10);
    assert(f11 =~= seq![
        ("ok"@, "true"@),
        ("rpcUrl"@, v2),
        ("historySize"@, v3),
        ("retainedEntries"@, v4),
        ("oldestSecond"@, v5),
        ("latestSecond"@, v6),
        ("currentSecond"@, v7),
        ("behindSeconds"@, v8),
        ("collecting"@, v9),
        ("startedAt"@, v10),
        ("endpoints"@, v11),
    ]);
    assert(t7 == status_head(config, state, now));
    assert(seconds_behind(state, now) as nat == behind(state.latest_epoch_second, now));
    assert(t11 =~= then_comma(t8, status_tail(state)));
}

/// Two states that differ in whether a poll is under way are told to be as far behind.
pub proof fn a_poll_under_way_is_not_behind(state: CollectorView, now: i64, collecting: bool)
    ensures
        seconds_behind(state, now) == seconds_behind(CollectorView { collecting, ..state }, now),
        seconds_behind(state, now) == behind(state.latest_epoch_second, now),
{
}

// ---------------------------------------------------------------------------
// Entries that are asked for
// ---------------------------------------------------------------------------
/// An object that says whether it is ok, names a second, and tells its entry.
proof fn lemma_told_entry(ok: Seq<char>, second: Seq<char>, entry: Seq<char>)
    ensures
        object_text(seq![("ok"@, ok), ("second"@, second), ("entry"@, entry)]) == braced(
            then_comma(then_comma(pair("ok"@, ok), pair("second"@, second)), pair("entry"@, entry)),
        ),
{
    lemma_keys_are_plain();
    let f1 = seq![("ok"@, ok)];
    let f2 = f1.push(("second"@, second));
    let t1 = pair("ok"@, ok);
    let t2 = then_comma(t1, pair("second"@, second));
    objects_are_put_together(Seq::empty(), "ok"@, ok, t1);
    objects_are_put_together(f1, "second"@, second, t1);
    objects_are_put_together(f2, "entry"@, entry, t2);
    assert(f2.push(("entry"@, entry)) =~= seq![("ok"@, ok), ("second"@, second), ("entry"@, entry)]);
}

/// The latest entry is told as it is, ok or not: the last one that is retained. Only where
/// nothing is retained there is none.
pub proof fn latest_answer_tells_the_last_entry(config: &Config, state: CollectorView, now: i64)
    requires
        state.history.wf(),
    ensures
        answer(RouteView::Latest, config, state, now).status == 200,
        state.history.entries.len() > 0 ==> answer(RouteView::Latest, config, state, now).body
            == braced(
            then_comma(
                then_comma(
                    pair("ok"@, "true"@),
                    pair(
                        "second"@,
                        string_text(state.history.entries[state.history.entries.len() - 1].second),
                    ),
                ),
                pair(
                    "entry"@,
                    entry_text(state.history.entries[state.history.entries.len() - 1]),
                ),
            ),
        ),
        state.history.entries.len() == 0 ==> answer(RouteView::Latest, config, state, now).body
            == braced(
            then_comma(
                then_comma(pair("ok"@, "true"@), pair("second"@, "null"@)),
                pair("entry"@, "null"@),
            ),
        ),
{
    let entries = state.history.entries;
    if entries.len() > 0 {
        let last = entries[entries.len() - 1];
        lemma_find_is(entries, last.second, entries.len() - 1);
        lemma_told_entry("true"@, string_text(last.second), entry_text(last));
    } else {
        lemma_told_entry("true"@, "null"@, "null"@);
    }
}

/// The latest entry is told under the key of the last one that is retained: the first entry of
/// that second.
pub proof fn latest_answer_tells_the_entry_of_the_latest_key(
    config: &Config,
    state: CollectorView,
    now: i64,
    i: int,
)
    requires
        0 <= i < state.history.entries.len(),
        state.history.entries[i].second == state.history.entries[state.history.entries.len()
            - 1].second,
        forall|j: int|
            0 <= j < i ==> (#[trigger] state.history.entries[j]).second
                != state.history.entries[i].second,
    ensures
        answer(RouteView::Latest, config, state, now).status == 200,
        answer(RouteView::Latest, config, state, now).body == braced(
            then_comma(
                then_comma(
                    pair("ok"@, "true"@),
                    pair("second"@, string_text(state.history.entries[i].second)),
                ),
                pair("entry"@, entry_text(state.history.entries[i])),
            ),
        ),
{
    let entry = state.history.entries[i];
    lemma_find_is(state.history.entries, entry.second, i);
    lemma_told_entry("true"@, string_text(entry.second), entry_text(entry));
}

/// A lookup of a retained second tells the first entry of it as it is, ok or not.
pub proof fn lookup_tells_the_retained_entry(
    raw: Seq<char>,
    config: &Config,
    state: CollectorView,
    now: i64,
    epoch_second: i64,
    i: int,
)
    requires
        denoted(raw) == Some(epoch_second),
        0 <= i < state.history.entries.len(),
        state.history.entries[i].second == second_text(epoch_second as int),
        forall|j: int|
            0 <= j < i ==> (#[trigger] state.history.entries[j]).second != second_text(
                epoch_second as int,
            ),
    ensures
        answer(RouteView::Second(raw), config, state, now).status == 200,
        answer(RouteView::Second(raw), config, state, now).body == braced(
            then_comma(
                then_comma(
                    pair("ok"@, "true"@),
                    pair("second"@, string_text(second_text(epoch_second as int))),
                ),
                pair("entry"@, entry_text(state.history.entries[i])),
            ),
        ),
{
    let second = second_text(epoch_second as int);
    lemma_find_is(state.history.entries, second, i);
    lemma_told_entry("true"@, string_text(second), entry_text(state.history.entries[i]));
}

/// A lookup of a second that is not retained names the second and tells no entry.
pub proof fn lookup_of_an_unknown_second_tells_none(
    raw: Seq<char>,
    config: &Config,
    state: CollectorView,
    now: i64,
    epoch_second: i64,
)
    requires
        denoted(raw) == Some(epoch_second),
        forall|i: int|
            0 <= i < state.history.entries.len() ==> (#[trigger] state.history.entries[i]).second
                != second_text(epoch_second as int),
    ensures
        answer(RouteView::Second(raw), config, state, now).status == 404,
        answer(RouteView::Second(raw), config, state, now).body == braced(
            then_comma(
                then_comma(
                    pair("ok"@, "false"@),
                    pair("second"@, string_text(second_text(epoch_second as int))),
                ),
                pair("entry"@, "null"@),
            ),
        ),
{
    let second = second_text(epoch_second as int);
    lemma_find_is(state.history.entries, second, state.history.entries.len() as int);
    lemma_told_entry("false"@, string_text(second), "null"@);
}

/// A lookup of a text that asks for no second is refused, whatever is retained.
pub proof fn lookup_of_no_second_is_refused(
    raw: Seq<char>,
    config: &Config,
    state: CollectorView,
    now: i64,
)
    requires
        denoted(raw) is None,
    ensures
        answer(RouteView::Second(raw), config, state, now).status == 400,
        answer(RouteView::Second(raw), config, state, now).body == braced(
            then_comma(
                pair("ok"@, "false"@),
                pair(
                    "error"@,
                    braced(
                        pair(
                            "message"@,
                            quoted("Invalid second. Use an ISO datetime second or epoch second."@),
                        ),
                    ),
                ),
            ),
        ),
{
    let message = "Invalid second. Use an ISO datetime second or epoch second."@;
    refusal_says_why(message);
    assert(string_text(message) == quoted(message)) by {
        reveal_strlit("Invalid second. Use an ISO datetime second or epoch second.");
    }
}

/// A second may be named in the query as well as in the path.
pub proof fn query_and_path_name_a_second_alike(
    query: Seq<char>,
    raw: Seq<char>,
    config: &Config,
    state: CollectorView,
    now: i64,
)
    requires
        query_value(query, "second"@) == Some(raw),
    ensures
        answer(RouteView::History(query), config, state, now) == answer(
            RouteView::Second(raw),
            config,
            state,
            now,
        ),
{
}

/// The retained entries, each under its second, with commas between them.
pub open spec fn told_entries(entries: Seq<EntryView>) -> Seq<char>
    decreases entries.len(),
{
    if entries.len() == 0 {
        Seq::empty()
    } else {
        let last = entries[entries.len() - 1];
        let member = string_text(last.second) + seq![':'] + entry_text(last);
        if entries.len() == 1 {
            member
        } else {
            then_comma(told_entries(entries.drop_last()), member)
        }
    }
}

/// The members of the history are the retained entries, oldest first.
proof fn lemma_told_entries(entries: Seq<EntryView>)
    ensures
        comma_separated(member_texts(history_fields(entries))) == told_entries(entries),
    decreases entries.len(),
{
    let texts = member_texts(history_fields(entries));
    if entries.len() == 0 {
        assert(texts =~= Seq::<Seq<char>>::empty());
    } else {
        let shorter = entries.drop_last();
        lemma_told_entries(shorter);
        let last = entries[entries.len() - 1];
        let member = string_text(last.second) + seq![':'] + entry_text(last);
        let before = member_texts(history_fields(shorter));
        assert(texts =~= before.push(member));
        texts_are_separated_by_commas(before, member);
        if entries.len() == 1 {
            assert(texts =~= seq![member]);
        }
    }
}

/// A request for the history that names no second is told how many entries are retained, the
/// range of them, and every one of them under its second, oldest first.
pub proof fn history_answer_tells_every_entry(
    query: Seq<char>,
    config: &Config,
    state: CollectorView,
    now: i64,
)
    requires
        query_value(query, "second"@) is None,
    ensures
        answer(RouteView::History(query), config, state, now).status == 200,
        answer(RouteView::History(query), config, state, now).body == braced(
            then_comma(
                then_comma(
                    then_comma(
                        then_comma(
                            pair("ok"@, "true"@),
                            pair("count"@, decimal_text(state.history.entries.len())),
                        ),
                        pair(
                            "oldestSecond"@,
                            if state.history.entries.len() > 0 {
                                string_text(state.history.entries[0].second)
                            } else {
                                "null"@
                            },
                        ),
                    ),
                    pair(
                        "latestSecond"@,
                        if state.history.entries.len() > 0 {
                            string_text(
                                state.history.entries[state.history.entries.len() - 1].second,
                            )
                        } else {
                            "null"@
                        },
                    ),
                ),
                pair("history"@, braced(told_entries(state.history.entries))),
            ),
        ),
{
    lemma_keys_are_plain();
    lemma_told_entries(state.history.entries);
    let v2 = decimal_text(state.history.entries.len());
    let v3 = optional_text(state.history.oldest_key());
    let v4 = optional_text(state.history.latest_key());
    let v5 = object_text(history_fields(state.history.entries));
    let f1 = seq![("ok"@, "true"@)];
    let f2 = f1.push(("count"@, v2));
    let f3 = f2.push(("oldestSecond"@, v3));
    let f4 = f3.push(("latestSecond"@, v4));
    let t1 = pair("ok"@, "true"@);
    let t2 = then_comma(t1, pair("count"@, v2));
    let t3 = then_comma(t2, pair("oldestSecond"@, v3));
    let t4 = then_comma(t3, pair("latestSecond"@, v4));
    objects_are_put_together(Seq::empty(), "ok"@, "true"@, t1);
    objects_are_put_together(f1, "count"@, v2, t1);
    objects_are_put_together(f2, "oldestSecond"@, v3, t2);
    objects_are_put_together(f3, "latestSecond"@, v4, t3);
    objects_are_put_together(f4, "history"@, v5, t4);
    assert(f4.push(("history"@, v5)) =~= seq![
        ("ok"@, "true"@),
        ("count"@, v2),
        ("oldestSecond"@, v3),
        ("latestSecond"@, v4),
        ("history"@, v5),
    ]);
}

} // verus!
