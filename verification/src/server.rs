//! The HTTP API: where a request goes, and what it is answered.
use crate::calendar::{nameable, second_text, FIRST_SECOND, LAST_SECOND};
use crate::clock::{
    answerable, denoted, denoted_second, iso_denotes, normalize_second, normalized, second_key,
};
use crate::config::Config;
use crate::json::{
    error_payload, field_texts, flag_text, json_flag, json_string, message_text,
    object_json, object_text, option_json_string, optional_text, printed, string_text, value_text,
    Json,
};
use crate::model::{
    lemma_find_is, set_entry_is_read_back, CollectorState, CollectorView, EntryView, ErrorInfo, ErrorView, HistoryEntry,
};
use crate::numeral::{decimal, decimal_text};
use crate::percent::{
    decoded_text, percent_decode, plain_text_is_left_alone, query_param, query_value,
    slashes_are_decoded_apart,
};
use crate::text::{
    after_prefix, first_line, first_word, ink, is_space, lemma_span_bounds, lemma_span_is,
    lemma_without_trailing_bounds, lemma_without_trailing_is, line, lossy_text, only, other_than,
    position, same_text, space, split_at_first, split_once, split_word, strip_prefix,
    trim_end_char, utf8_lossy, utf8_text, without_trailing,
};
use vstd::prelude::*;
use vstd::string::*;
use vstd::utf8::*;

verus! {

// ---------------------------------------------------------------------------
// Where a request goes
// ---------------------------------------------------------------------------
/// What a request asks for.
#[derive(Clone, Debug, PartialEq, Eq)]
pub enum Route {
    /// It has no request line.
    BadRequest,
    /// It is not a GET request.
    MethodNotAllowed,
    /// The collector's status.
    Status,
    /// The latest entry.
    Latest,
    /// The history, or a second of it that the query names.
    History(String),
    /// The second that the path names.
    Second(String),
    /// Nothing that there is.
    NotFound,
}

/// The model of a `Route`.
pub enum RouteView {
    BadRequest,
    MethodNotAllowed,
    Status,
    Latest,
    History(Seq<char>),
    Second(Seq<char>),
    NotFound,
}

impl View for Route {
    type V = RouteView;

    open spec fn view(&self) -> RouteView {
        match self {
            Route::BadRequest => RouteView::BadRequest,
            Route::MethodNotAllowed => RouteView::MethodNotAllowed,
            Route::Status => RouteView::Status,
            Route::Latest => RouteView::Latest,
            Route::History(query) => RouteView::History(query@),
            Route::Second(raw) => RouteView::Second(raw@),
            Route::NotFound => RouteView::NotFound,
        }
    }
}

/// A path without the slashes at its end; the root is a single one.
pub open spec fn without_slashes(path: Seq<char>) -> Seq<char> {
    let trimmed = without_trailing(path, only('/'));
    if trimmed.len() == 0 {
        "/"@
    } else {
        trimmed
    }
}

/// Path and query of a request target.
pub open spec fn path_and_query(target: Seq<char>) -> (Seq<char>, Seq<char>) {
    match split_at_first(target, '?') {
        Some(parts) => parts,
        None => (target, Seq::empty()),
    }
}

/// The path that a request is about: decoded where it can be, without slashes at its end.
pub open spec fn pathname(path: Seq<char>) -> Seq<char> {
    match decoded_text(path, false) {
        Some(decoded) => without_slashes(decoded),
        None => without_slashes(path),
    }
}

/// The target of a request line: its second word, or the root.
pub open spec fn target_of(request_line: Seq<char>) -> Seq<char> {
    let target = first_word(first_word(request_line).1).0;
    if target.len() == 0 {
        "/"@
    } else {
        target
    }
}

/// What a target of a GET request asks for.
pub open spec fn target_route(target: Seq<char>) -> RouteView {
    let (path, query) = path_and_query(target);
    let name = pathname(path);
    if name == "/"@ || name == "/health"@ || name == "/status"@ {
        RouteView::Status
    } else if name == "/latest"@ {
        RouteView::Latest
    } else if name == "/history"@ {
        RouteView::History(query)
    } else {
        match after_prefix(name, "/history/"@) {
            Some(raw) => RouteView::Second(raw),
            None => RouteView::NotFound,
        }
    }
}

/// What a request asks for.
pub open spec fn request_route(request: Seq<char>) -> RouteView {
    match first_line(request) {
        None => RouteView::BadRequest,
        Some(request_line) => if first_word(request_line).0 != "GET"@ {
            RouteView::MethodNotAllowed
        } else {
            target_route(target_of(request_line))
        },
    }
}

/// A path without the slashes at its end; the root is a single one.
pub fn trim_trailing_slashes(path: &str) -> (trimmed: String)
    ensures
        trimmed@ == without_slashes(path@),
{
    let trimmed = trim_end_char(path, '/');
    if trimmed.is_empty() {
        "/".to_owned()
    } else {
        trimmed.to_owned()
    }
}

/// What a target of a GET request asks for.
fn route_target(target: &str) -> (route: Route)
    ensures
        route@ == target_route(target@),
{
    let (path_raw, query_raw) = match split_once(target, '?') {
        Some((path, query)) => (path, query),
        None => (target, ""),
    };
    proof {
        reveal_strlit("");
        assert(""@ =~= Seq::<char>::empty());
        assert((path_raw@, query_raw@) == path_and_query(target@));
    }
    let name = match percent_decode(path_raw, false) {
        Some(decoded) => trim_trailing_slashes(decoded.as_str()),
        None => trim_trailing_slashes(path_raw),
    };
    let path = name.as_str();
    if same_text(path, "/") || same_text(path, "/health") || same_text(path, "/status") {
        Route::Status
    } else if same_text(path, "/latest") {
        Route::Latest
    } else if same_text(path, "/history") {
        Route::History(query_raw.to_owned())
    } else {
        match strip_prefix(path, "/history/") {
            Some(raw) => Route::Second(raw.to_owned()),
            None => Route::NotFound,
        }
    }
}

/// What a request asks for.
pub fn route(request: &str) -> (route: Route)
    ensures
        route@ == request_route(request@),
{
    let request_line = match line(request) {
        Some(request_line) => request_line,
        None => return Route::BadRequest,
    };
    let (method, after_method) = split_word(request_line);
    if !same_text(method, "GET") {
        return Route::MethodNotAllowed;
    }
    let (target, _) = split_word(after_method);
    if target.is_empty() {
        route_target("/")
    } else {
        route_target(target)
    }
}

// ---------------------------------------------------------------------------
// What a request is answered
// ---------------------------------------------------------------------------
/// An answer: a status and a JSON body.
#[derive(Clone, Debug, PartialEq, Eq)]
pub struct HttpResponse {
    pub status: u16,
    pub body: String,
}

/// The model of an `HttpResponse`.
pub struct ResponseView {
    pub status: u16,
    pub body: Seq<char>,
}

impl View for HttpResponse {
    type V = ResponseView;

    open spec fn view(&self) -> ResponseView {
        ResponseView { status: self.status, body: self.body@ }
    }
}

/// The fields of an error object: the message, and what else is known.
pub open spec fn error_fields(error: ErrorView) -> Seq<(Seq<char>, Seq<char>)> {
    let message = seq![("message"@, string_text(error.message))];
    let code = match error.code {
        Some(json) => message.push(("code"@, printed(json))),
        None => message,
    };
    let status = match error.status {
        Some(number) => code.push(("status"@, decimal_text(number as nat))),
        None => code,
    };
    match error.body {
        Some(json) => status.push(("body"@, printed(json))),
        None => status,
    }
}

/// What stands under `result` in an entry.
pub open spec fn result_text(entry: EntryView) -> Seq<char> {
    match entry.result {
        Some(json) => printed(json),
        None => "null"@,
    }
}

/// What stands under `error` in an entry.
pub open spec fn error_text(entry: EntryView) -> Seq<char> {
    match entry.error {
        Some(error) => object_text(error_fields(error)),
        None => message_text("Unknown error"@),
    }
}

/// The fields of an entry: the envelope, and the result or the error.
pub open spec fn entry_fields(entry: EntryView) -> Seq<(Seq<char>, Seq<char>)> {
    seq![
        ("second"@, string_text(entry.second)),
        ("collectedAt"@, string_text(entry.collected_at)),
        ("rpcUrl"@, string_text(entry.rpc_url)),
        ("durationMs"@, string_text(decimal_text(entry.duration_ms as nat))),
        ("ok"@, flag_text(entry.ok)),
        if entry.ok {
            ("result"@, result_text(entry))
        } else {
            ("error"@, error_text(entry))
        },
    ]
}

/// An entry in JSON.
pub open spec fn entry_text(entry: EntryView) -> Seq<char> {
    object_text(entry_fields(entry))
}

/// An entry in JSON, or `null`.
pub open spec fn optional_entry_text(entry: Option<EntryView>) -> Seq<char> {
    match entry {
        Some(found) => entry_text(found),
        None => "null"@,
    }
}

/// The body of a refusal.
pub open spec fn refusal_text(message: Seq<char>) -> Seq<char> {
    object_text(seq![("ok"@, "false"@), ("error"@, message_text(message))])
}

/// How many seconds the latest second that was collected lies behind the current one.
pub open spec fn seconds_behind(state: CollectorView, now: i64) -> int {
    match state.latest_epoch_second {
        Some(latest) => if now > latest {
            now - latest
        } else {
            0
        },
        None => 0,
    }
}

/// The body that tells the collector's status at second `now`.
pub open spec fn status_text(config: &Config, state: CollectorView, now: i64) -> Seq<char> {
    object_text(
        seq![
            ("ok"@, "true"@),
            ("rpcUrl"@, string_text(config.rpc_url@)),
            ("historySize"@, decimal_text(state.history.limit as nat)),
            ("retainedEntries"@, decimal_text(state.history.entries.len())),
            ("oldestSecond"@, optional_text(state.history.oldest_key())),
            ("latestSecond"@, optional_text(state.history.latest_key())),
            ("currentSecond"@, string_text(second_text(now as int))),
            ("behindSeconds"@, decimal_text(seconds_behind(state, now) as nat)),
            ("collecting"@, flag_text(state.collecting)),
            ("startedAt"@, string_text(state.started_at)),
            (
                "endpoints"@,
                "[\"/health\",\"/latest\",\"/history\",\"/history?second=<datetime>\"]"@,
            ),
        ],
    )
}

/// The latest entry.
pub open spec fn latest_entry(state: CollectorView) -> Option<EntryView> {
    match state.history.latest_key() {
        Some(second) => state.history.get(second),
        None => None,
    }
}

/// The body that tells the latest entry.
pub open spec fn latest_text(state: CollectorView) -> Seq<char> {
    object_text(
        seq![
            ("ok"@, "true"@),
            ("second"@, optional_text(state.history.latest_key())),
            ("entry"@, optional_entry_text(latest_entry(state))),
        ],
    )
}

/// The members of the history: an entry under its second, oldest first.
pub open spec fn history_fields(entries: Seq<EntryView>) -> Seq<(Seq<char>, Seq<char>)> {
    Seq::new(entries.len(), |i: int| (entries[i].second, entry_text(entries[i])))
}

/// The body that tells the whole history.
pub open spec fn history_text(state: CollectorView) -> Seq<char> {
    object_text(
        seq![
            ("ok"@, "true"@),
            ("count"@, decimal_text(state.history.entries.len())),
            ("oldestSecond"@, optional_text(state.history.oldest_key())),
            ("latestSecond"@, optional_text(state.history.latest_key())),
            ("history"@, object_text(history_fields(state.history.entries))),
        ],
    )
}

/// The answer to a request for the second with a key.
pub open spec fn lookup_answer(state: CollectorView, second: Seq<char>) -> ResponseView {
    let entry = state.history.get(second);
    ResponseView {
        status: if entry is Some {
            200
        } else {
            404
        },
        body: object_text(
            seq![
                ("ok"@, flag_text(entry is Some)),
                ("second"@, string_text(second)),
                ("entry"@, optional_entry_text(entry)),
            ],
        ),
    }
}

/// The answer to a request for a second, given the key that was asked for, if any.
pub open spec fn second_answer(state: CollectorView, second: Option<Seq<char>>) -> ResponseView {
    match second {
        Some(key) => lookup_answer(state, key),
        None => ResponseView {
            status: 400,
            body: refusal_text("Invalid second. Use an ISO datetime second or epoch second."@),
        },
    }
}

/// The text by which a request asks for a second, if it does.
pub open spec fn asked_second(route: RouteView) -> Option<Seq<char>> {
    match route {
        RouteView::Second(raw) => Some(raw),
        RouteView::History(query) => query_value(query, "second"@),
        _ => None,
    }
}

/// The answer to what a request asks for, at second `now`.
pub open spec fn answer(
    route: RouteView,
    config: &Config,
    state: CollectorView,
    now: i64,
) -> ResponseView {
    match route {
        RouteView::BadRequest => ResponseView { status: 400, body: message_text("Bad request"@) },
        RouteView::MethodNotAllowed => ResponseView {
            status: 405,
            body: refusal_text("Only GET requests are supported"@),
        },
        RouteView::Status => ResponseView { status: 200, body: status_text(config, state, now) },
        RouteView::Latest => ResponseView { status: 200, body: latest_text(state) },
        RouteView::History(query) => match query_value(query, "second"@) {
            Some(raw) => second_answer(state, normalized(raw)),
            None => ResponseView { status: 200, body: history_text(state) },
        },
        RouteView::Second(raw) => second_answer(state, normalized(raw)),
        RouteView::NotFound => ResponseView { status: 404, body: refusal_text("Not found"@) },
    }
}

/// Whether a request can be answered at second `now`: the seconds that the answer names
/// have a name.
pub open spec fn servable(route: RouteView, now: i64) -> bool {
    &&& route is Status ==> nameable(now as int)
    &&& asked_second(route) matches Some(raw) ==> answerable(raw)
}

/// An answer from its parts.
pub fn json_http(status: u16, body: &str) -> (response: HttpResponse)
    ensures
        response@ == (ResponseView { status, body: body@ }),
{
    HttpResponse { status, body: body.to_owned() }
}

/// An error as a JSON object.
pub fn error_info_to_json(error: &ErrorInfo) -> (json: String)
    ensures
        json@ == object_text(error_fields(error@)),
{
    let mut fields = vec![("message", json_string(error.message.as_str()))];
    if let Some(code) = &error.code {
        fields.push(("code", value_text(code)));
    }
    if let Some(status) = error.status {
        fields.push(("status", decimal(status as u128)));
    }
    if let Some(body) = &error.body {
        fields.push(("body", value_text(body)));
    }
    assert(field_texts(fields@) =~= error_fields(error@));
    object_json(&fields)
}

/// An entry as a JSON object.
pub fn history_entry_to_json(entry: &HistoryEntry) -> (json: String)
    ensures
        json@ == entry_text(entry@),
{
    let mut fields = vec![
        ("second", json_string(entry.second.as_str())),
        ("collectedAt", json_string(entry.collected_at.as_str())),
        ("rpcUrl", json_string(entry.rpc_url.as_str())),
        ("durationMs", json_string(decimal(entry.duration_ms).as_str())),
        ("ok", json_flag(entry.ok)),
    ];
    if entry.ok {
        let result = match &entry.result {
            Some(value) => value_text(value),
            None => "null".to_owned(),
        };
        fields.push(("result", result));
    } else {
        let error = match &entry.error {
            Some(info) => error_info_to_json(info),
            None => error_payload("Unknown error"),
        };
        fields.push(("error", error));
    }
    assert(field_texts(fields@) =~= entry_fields(entry@));
    object_json(&fields)
}

/// A refusal: an answer that says why there is no other.
fn refusal(status: u16, message: &str) -> (response: HttpResponse)
    ensures
        response@ == (ResponseView { status, body: refusal_text(message@) }),
{
    let fields = vec![("ok", "false".to_owned()), ("error", error_payload(message))];
    assert(field_texts(fields@) =~= seq![("ok"@, "false"@), ("error"@, message_text(message@))]);
    json_http(status, object_json(&fields).as_str())
}

/// The body that tells the collector's status at second `current_second`.
pub fn status_payload(config: &Config, state: &CollectorState, current_second: i64) -> (body: String)
    requires
        state@.latest_is_named(),
        nameable(current_second as int),
    ensures
        body@ == status_text(config, state@, current_second),
{
    let behind_seconds: i64 = match state.latest_epoch_second {
        Some(latest) => if current_second > latest {
            current_second - latest
        } else {
            0
        },
        None => 0,
    };
    let fields = vec![
        ("ok", "true".to_owned()),
        ("rpcUrl", json_string(config.rpc_url.as_str())),
        ("historySize", decimal(state.history.limit as u128)),
        ("retainedEntries", decimal(state.history.entries.len() as u128)),
        ("oldestSecond", option_json_string(state.history.oldest_key())),
        ("latestSecond", option_json_string(state.history.latest_key())),
        ("currentSecond", json_string(second_key(current_second).as_str())),
        ("behindSeconds", decimal(behind_seconds as u128)),
        ("collecting", json_flag(state.collecting)),
        ("startedAt", json_string(state.started_at.as_str())),
        (
            "endpoints",
            "[\"/health\",\"/latest\",\"/history\",\"/history?second=<datetime>\"]".to_owned(),
        ),
    ];
    assert(field_texts(fields@) =~= seq![
        ("ok"@, "true"@),
        ("rpcUrl"@, string_text(config.rpc_url@)),
        ("historySize"@, decimal_text(state@.history.limit as nat)),
        ("retainedEntries"@, decimal_text(state@.history.entries.len())),
        ("oldestSecond"@, optional_text(state@.history.oldest_key())),
        ("latestSecond"@, optional_text(state@.history.latest_key())),
        ("currentSecond"@, string_text(second_text(current_second as int))),
        ("behindSeconds"@, decimal_text(seconds_behind(state@, current_second) as nat)),
        ("collecting"@, flag_text(state@.collecting)),
        ("startedAt"@, string_text(state@.started_at)),
        (
            "endpoints"@,
            "[\"/health\",\"/latest\",\"/history\",\"/history?second=<datetime>\"]"@,
        ),
    ]);
    object_json(&fields)
}

/// An entry in JSON, or `null`.
fn optional_entry_json(entry: Option<&HistoryEntry>) -> (json: String)
    ensures
        json@ == optional_entry_text(
            match entry {
                Some(found) => Some(found@),
                None => None,
            },
        ),
{
    match entry {
        Some(found) => history_entry_to_json(found),
        None => "null".to_owned(),
    }
}

/// The body that tells the latest entry.
pub fn latest_payload(state: &CollectorState) -> (body: String)
    ensures
        body@ == latest_text(state@),
{
    let latest_second = state.history.latest_key();
    let entry = match latest_second {
        Some(second) => state.history.get(second),
        None => None,
    };
    let fields = vec![
        ("ok", "true".to_owned()),
        ("second", option_json_string(latest_second)),
        ("entry", optional_entry_json(entry)),
    ];
    assert(field_texts(fields@) =~= seq![
        ("ok"@, "true"@),
        ("second"@, optional_text(state@.history.latest_key())),
        ("entry"@, optional_entry_text(latest_entry(state@))),
    ]);
    object_json(&fields)
}

/// The answer to a request for the second with a key.
pub fn history_lookup_payload(state: &CollectorState, second: &str) -> (response: HttpResponse)
    ensures
        response@ == lookup_answer(state@, second@),
{
    let entry = state.history.get(second);
    let found = entry.is_some();
    let fields = vec![
        ("ok", json_flag(found)),
        ("second", json_string(second)),
        ("entry", optional_entry_json(entry)),
    ];
    assert(field_texts(fields@) =~= seq![
        ("ok"@, flag_text(state@.history.get(second@) is Some)),
        ("second"@, string_text(second@)),
        ("entry"@, optional_entry_text(state@.history.get(second@))),
    ]);
    let body = object_json(&fields);
    if found {
        json_http(200, body.as_str())
    } else {
        json_http(404, body.as_str())
    }
}

/// The answer to a request for a second, given the key that was asked for, if any.
pub fn second_payload(state: &CollectorState, second: &Option<String>) -> (response: HttpResponse)
    ensures
        response@ == second_answer(
            state@,
            match second {
                Some(key) => Some(key@),
                None => None,
            },
        ),
{
    match second {
        Some(key) => history_lookup_payload(state, key.as_str()),
        None => refusal(400, "Invalid second. Use an ISO datetime second or epoch second."),
    }
}

/// The members of the history in JSON.
fn history_members_json(state: &CollectorState) -> (json: String)
    ensures
        json@ == object_text(history_fields(state@.history.entries)),
{
    let entries = &state.history.entries;
    let mut fields: Vec<(&str, String)> = Vec::new();
    let mut i: usize = 0;
    while i < entries.len()
        invariant
            entries == &state.history.entries,
            0 <= i <= entries@.len(),
            fields@.len() == i,
            forall|j: int|
                0 <= j < i ==> (#[trigger] fields@[j]).0@ == state@.history.entries[j].second
                    && fields@[j].1@ == entry_text(state@.history.entries[j]),
        decreases entries@.len() - i,
    {
        let entry = &entries[i];
        fields.push((entry.second.as_str(), history_entry_to_json(entry)));
        i += 1;
    }
    assert(field_texts(fields@) =~= history_fields(state@.history.entries));
    object_json(&fields)
}

/// The answer to a request for the history: the second that the query names, or all of it.
pub fn history_payload(state: &CollectorState, query: &str) -> (response: HttpResponse)
    requires
        query_value(query@, "second"@) matches Some(raw) ==> answerable(raw),
    ensures
        response@ == (match query_value(query@, "second"@) {
            Some(raw) => second_answer(state@, normalized(raw)),
            None => ResponseView { status: 200, body: history_text(state@) },
        }),
{
    if let Some(raw_second) = query_param(query, "second") {
        return second_payload(state, &normalize_second(raw_second.as_str()));
    }
    let fields = vec![
        ("ok", "true".to_owned()),
        ("count", decimal(state.history.entries.len() as u128)),
        ("oldestSecond", option_json_string(state.history.oldest_key())),
        ("latestSecond", option_json_string(state.history.latest_key())),
        ("history", history_members_json(state)),
    ];
    assert(field_texts(fields@) =~= seq![
        ("ok"@, "true"@),
        ("count"@, decimal_text(state@.history.entries.len())),
        ("oldestSecond"@, optional_text(state@.history.oldest_key())),
        ("latestSecond"@, optional_text(state@.history.latest_key())),
        ("history"@, object_text(history_fields(state@.history.entries))),
    ]);
    json_http(200, object_json(&fields).as_str())
}

/// The answer to what a request asks for, at second `current_second`.
fn respond(
    route: &Route,
    config: &Config,
    state: &CollectorState,
    current_second: i64,
) -> (response: HttpResponse)
    requires
        state@.latest_is_named(),
        servable(route@, current_second),
    ensures
        response@ == answer(route@, config, state@, current_second),
{
    match route {
        Route::BadRequest => json_http(400, error_payload("Bad request").as_str()),
        Route::MethodNotAllowed => refusal(405, "Only GET requests are supported"),
        Route::Status => json_http(200, status_payload(config, state, current_second).as_str()),
        Route::Latest => json_http(200, latest_payload(state).as_str()),
        Route::History(query) => history_payload(state, query.as_str()),
        Route::Second(raw) => second_payload(state, &normalize_second(raw.as_str())),
        Route::NotFound => refusal(404, "Not found"),
    }
}

/// The answer to a request, at second `current_second`.
pub fn handle_http_request(
    request: &str,
    config: &Config,
    state: &CollectorState,
    current_second: i64,
) -> (response: HttpResponse)
    requires
        state@.latest_is_named(),
        servable(request_route(request@), current_second),
    ensures
        response@ == answer(request_route(request@), config, state@, current_second),
{
    respond(&route(request), config, state, current_second)
}

/// The text by which a request asks for a second, if it does.
fn asked_text(route: &Route) -> (raw: Option<String>)
    ensures
        match (asked_second(route@), raw) {
            (Some(expected), Some(text)) => text@ == expected,
            (None, None) => true,
            _ => false,
        },
{
    match route {
        Route::Second(raw) => Some(raw.clone()),
        Route::History(query) => query_param(query.as_str(), "second"),
        _ => None,
    }
}

/// `handle_http_request` for any request and any clock: there is no answer where it would
/// have to name a second outside the years -9999 to 9999.
pub fn try_handle_http_request(
    request: &str,
    config: &Config,
    state: &CollectorState,
    current_second: i64,
) -> (response: Option<HttpResponse>)
    requires
        state@.latest_is_named(),
    ensures
        match response {
            Some(found) => {
                &&& servable(request_route(request@), current_second)
                &&& found@ == answer(request_route(request@), config, state@, current_second)
            },
            None => !servable(request_route(request@), current_second),
        },
        forall|raw: Seq<char>, epoch_second: int|
            asked_second(request_route(request@)) == Some(raw) && nameable(epoch_second)
                && #[trigger] iso_denotes(raw, epoch_second) ==> (response matches Some(found)
                && found@ == lookup_answer(state@, second_text(epoch_second))),
{
    let route = route(request);
    if let Some(raw) = asked_text(&route) {
        if let Some(epoch_second) = denoted_second(raw.as_str()) {
            if epoch_second < FIRST_SECOND || epoch_second > LAST_SECOND {
                return None;
            }
        }
    }
    match route {
        Route::Status => if current_second < FIRST_SECOND || current_second > LAST_SECOND {
            return None;
        },
        _ => {},
    }
    Some(handle_http_request(request, config, state, current_second))
}

/// What is settled of a request before the state is looked at.
#[derive(Clone, Debug, PartialEq, Eq)]
pub enum Admission {
    /// It is refused.
    Refused(HttpResponse),
    /// It asks for a second outside the years -9999 to 9999.
    SecondOutOfRange,
    /// Its answer depends on the state.
    Admitted,
}

/// The refusal of what a request asks for, where that does not depend on the state.
pub open spec fn refused(route: RouteView) -> Option<ResponseView> {
    match route {
        RouteView::BadRequest => Some(
            ResponseView { status: 400, body: message_text("Bad request"@) },
        ),
        RouteView::MethodNotAllowed => Some(
            ResponseView { status: 405, body: refusal_text("Only GET requests are supported"@) },
        ),
        RouteView::NotFound => Some(
            ResponseView { status: 404, body: refusal_text("Not found"@) },
        ),
        _ => match asked_second(route) {
            Some(raw) if denoted(raw) is None => Some(
                ResponseView {
                    status: 400,
                    body: refusal_text(
                        "Invalid second. Use an ISO datetime second or epoch second."@,
                    ),
                },
            ),
            _ => None,
        },
    }
}

/// Settles what can be settled of a request, given as bytes, without the state.
pub fn admit_bytes(bytes: &[u8]) -> (admission: Admission)
    ensures
        ({
            let route = request_route(utf8_lossy(bytes@));
            match admission {
                Admission::Refused(response) => refused(route) == Some(response@),
                Admission::SecondOutOfRange => asked_second(route) matches Some(raw) && !answerable(
                    raw,
                ),
                Admission::Admitted => {
                    &&& refused(route) is None
                    &&& asked_second(route) matches Some(raw) ==> answerable(raw)
                },
            }
        }),
        utf8_text(bytes@) matches Some(request) ==> utf8_lossy(bytes@) == request,
{
    let route = route(lossy_text(bytes).as_str());
    match &route {
        Route::BadRequest => return Admission::Refused(
            json_http(400, error_payload("Bad request").as_str()),
        ),
        Route::MethodNotAllowed => return Admission::Refused(
            refusal(405, "Only GET requests are supported"),
        ),
        Route::NotFound => return Admission::Refused(refusal(404, "Not found")),
        _ => {},
    }
    match asked_text(&route) {
        Some(raw) => match denoted_second(raw.as_str()) {
            Some(epoch_second) => if epoch_second < FIRST_SECOND || epoch_second > LAST_SECOND {
                Admission::SecondOutOfRange
            } else {
                Admission::Admitted
            },
            None => Admission::Refused(
                refusal(400, "Invalid second. Use an ISO datetime second or epoch second."),
            ),
        },
        None => Admission::Admitted,
    }
}

/// The answer to the bytes of a request. Bytes that are not UTF-8 are replaced first.
pub fn answer_bytes(
    bytes: &[u8],
    config: &Config,
    state: &CollectorState,
    current_second: i64,
) -> (response: Option<HttpResponse>)
    requires
        state@.latest_is_named(),
    ensures
        match response {
            Some(found) => {
                &&& servable(request_route(utf8_lossy(bytes@)), current_second)
                &&& found@ == answer(
                    request_route(utf8_lossy(bytes@)),
                    config,
                    state@,
                    current_second,
                )
            },
            None => !servable(request_route(utf8_lossy(bytes@)), current_second),
        },
        utf8_text(bytes@) matches Some(request) ==> utf8_lossy(bytes@) == request,
{
    try_handle_http_request(lossy_text(bytes).as_str(), config, state, current_second)
}

/// The answer to a request that could not be read, from the words of the system.
pub fn unreadable_request(reason: &str) -> (response: HttpResponse)
    ensures
        response@ == (ResponseView { status: 400, body: refusal_text("Bad request: "@ + reason@) }),
{
    refusal(400, "Bad request: ".to_owned().concat(reason).as_str())
}

// ---------------------------------------------------------------------------
// On the wire
// ---------------------------------------------------------------------------
/// The reason phrase of a status.
pub open spec fn reason_text(status: u16) -> Seq<char> {
    if status == 400 {
        "Bad Request"@
    } else if status == 404 {
        "Not Found"@
    } else if status == 405 {
        "Method Not Allowed"@
    } else if status == 500 {
        "Internal Server Error"@
    } else {
        "OK"@
    }
}

/// The reason phrase of a status.
fn reason(status: u16) -> (phrase: &'static str)
    ensures
        phrase@ == reason_text(status),
{
    match status {
        400 => "Bad Request",
        404 => "Not Found",
        405 => "Method Not Allowed",
        500 => "Internal Server Error",
        _ => "OK",
    }
}

/// The whole text of an answer: status line, headers and body.
pub open spec fn response_text(response: ResponseView) -> Seq<char> {
    "HTTP/1.1 "@ + decimal_text(response.status as nat) + " "@ + reason_text(response.status)
        + "\r\nContent-Type: application/json; charset=utf-8\r\nContent-Length: "@ + decimal_text(
        encode_utf8(response.body).len(),
    ) + "\r\nConnection: close\r\n\r\n"@ + response.body
}

/// The whole text of an answer: status line, headers and body.
pub fn http_response_text(response: &HttpResponse) -> (text: String)
    ensures
        text@ == response_text(response@),
{
    let mut text = "HTTP/1.1 ".to_owned();
    text.append(decimal(response.status as u128).as_str());
    text.append(" ");
    text.append(reason(response.status));
    text.append("\r\nContent-Type: application/json; charset=utf-8\r\nContent-Length: ");
    text.append(decimal(response.body.as_str().as_bytes().len() as u128).as_str());
    text.append("\r\nConnection: close\r\n\r\n");
    text.append(response.body.as_str());
    text
}

/// The address that the API listens on.
pub open spec fn address_text(config: &Config) -> Seq<char> {
    config.listen_host@ + ":"@ + decimal_text(config.listen_port as nat)
}

/// The address that the API listens on.
pub fn bind_address(config: &Config) -> (address: String)
    ensures
        address@ == address_text(config),
{
    let mut address = config.listen_host.clone();
    address.append(":");
    address.append(decimal(config.listen_port as u128).as_str());
    address
}

/// The line that reports that the API is listening.
pub open spec fn listening_text(config: &Config) -> Seq<char> {
    object_text(
        seq![
            ("message"@, string_text("op-batcher collector listening"@)),
            ("url"@, string_text("http://"@ + address_text(config) + "/"@)),
            ("rpcUrl"@, string_text(config.rpc_url@)),
            ("historySize"@, decimal_text(config.history_size as nat)),
            ("listenHost"@, string_text(config.listen_host@)),
            ("listenPort"@, decimal_text(config.listen_port as nat)),
        ],
    )
}

/// The line that reports that the API is listening.
pub fn listening_line(config: &Config) -> (line: String)
    ensures
        line@ == listening_text(config),
{
    let mut url = "http://".to_owned();
    url.append(bind_address(config).as_str());
    url.append("/");
    let fields = vec![
        ("message", json_string("op-batcher collector listening")),
        ("url", json_string(url.as_str())),
        ("rpcUrl", json_string(config.rpc_url.as_str())),
        ("historySize", decimal(config.history_size as u128)),
        ("listenHost", json_string(config.listen_host.as_str())),
        ("listenPort", decimal(config.listen_port as u128)),
    ];
    assert(field_texts(fields@) =~= seq![
        ("message"@, string_text("op-batcher collector listening"@)),
        ("url"@, string_text("http://"@ + address_text(config) + "/"@)),
        ("rpcUrl"@, string_text(config.rpc_url@)),
        ("historySize"@, decimal_text(config.history_size as nat)),
        ("listenHost"@, string_text(config.listen_host@)),
        ("listenPort"@, decimal_text(config.listen_port as nat)),
    ]);
    object_json(&fields)
}

// ---------------------------------------------------------------------------
// What holds of the answers
// ---------------------------------------------------------------------------
/// A request by any other method than GET is refused as such.
pub proof fn only_get_is_served(
    request: Seq<char>,
    request_line: Seq<char>,
    config: &Config,
    state: CollectorView,
    now: i64,
)
    requires
        first_line(request) == Some(request_line),
        first_word(request_line).0 != "GET"@,
    ensures
        answer(request_route(request), config, state, now) == (ResponseView {
            status: 405,
            body: refusal_text("Only GET requests are supported"@),
        }),
{
}

/// A second that has been recorded is what a lookup of it is answered, whatever the text
/// by which it is asked for.
pub proof fn recorded_second_is_served(
    route: RouteView,
    raw: Seq<char>,
    config: &Config,
    state: CollectorView,
    epoch_second: i64,
    entry: EntryView,
    now: i64,
)
    requires
        state.wf(),
        asked_second(route) == Some(raw),
        denoted(raw) == Some(epoch_second),
        entry.second == second_text(epoch_second as int),
    ensures
        answer(route, config, state.record(epoch_second, entry), now) == (ResponseView {
            status: 200,
            body: object_text(
                seq![
                    ("ok"@, "true"@),
                    ("second"@, string_text(entry.second)),
                    ("entry"@, entry_text(entry)),
                ],
            ),
        }),
{
    set_entry_is_read_back(state.history, entry);
}

/// A second that is not retained is not found.
pub proof fn unretained_second_is_not_found(
    route: RouteView,
    raw: Seq<char>,
    config: &Config,
    state: CollectorView,
    epoch_second: i64,
    now: i64,
)
    requires
        asked_second(route) == Some(raw),
        denoted(raw) == Some(epoch_second),
        state.history.get(second_text(epoch_second as int)) is None,
    ensures
        answer(route, config, state, now) == (ResponseView {
            status: 404,
            body: object_text(
                seq![
                    ("ok"@, "false"@),
                    ("second"@, string_text(second_text(epoch_second as int))),
                    ("entry"@, "null"@),
                ],
            ),
        }),
{
}

/// What asks for no second is refused as such, and nothing is looked up.
pub proof fn invalid_second_is_refused(
    route: RouteView,
    raw: Seq<char>,
    config: &Config,
    state: CollectorView,
    now: i64,
)
    requires
        asked_second(route) == Some(raw),
        denoted(raw) is None,
    ensures
        answer(route, config, state, now) == (ResponseView {
            status: 400,
            body: refusal_text("Invalid second. Use an ISO datetime second or epoch second."@),
        }),
{
}

/// A refusal is the answer, whatever the configuration, the state and the clock.
pub proof fn refusal_is_the_answer(
    route: RouteView,
    config: &Config,
    state: CollectorView,
    now: i64,
)
    requires
        refused(route) is Some,
    ensures
        answer(route, config, state, now) == refused(route)->0,
{
}

/// The entry that is told as the latest is the newest that is retained.
pub proof fn latest_entry_is_the_newest(state: CollectorView)
    requires
        state.history.wf(),
    ensures
        latest_entry(state) == (if state.history.entries.len() > 0 {
            Some(state.history.entries.last())
        } else {
            None
        }),
{
    let entries = state.history.entries;
    if entries.len() > 0 {
        lemma_find_is(entries, entries.last().second, entries.len() - 1);
    }
}

/// Whether a text is slashes and nothing else.
pub open spec fn all_slashes(s: Seq<char>) -> bool {
    forall|i: int| 0 <= i < s.len() ==> #[trigger] s[i] == '/'
}

/// Slashes at the end of a path are cut off.
pub proof fn lemma_slashes_are_cut(path: Seq<char>, slashes: Seq<char>)
    requires
        all_slashes(slashes),
    ensures
        without_slashes(path + slashes) == without_slashes(path),
{
    lemma_without_trailing_bounds(path, only('/'));
    let end = without_trailing(path, only('/')).len() as int;
    let longer = path + slashes;
    assert forall|i: int| end <= i < longer.len() implies only('/')(#[trigger] longer[i]) by {
        if i < path.len() {
            assert(longer[i] == path[i]);
        } else {
            assert(longer[i] == slashes[i - path.len()]);
        }
    }
    if end > 0 {
        assert(longer[end - 1] == without_trailing(path, only('/')).last());
    }
    lemma_without_trailing_is(longer, only('/'), end);
    assert(longer.take(end) =~= path.take(end));
}

/// Whether a text is a query with its question mark, or nothing.
pub open spec fn is_query_part(s: Seq<char>) -> bool {
    s.len() > 0 ==> s[0] == '?'
}

/// Path and query of a target that is put together from the two.
pub proof fn lemma_target_parts(path: Seq<char>, query: Seq<char>)
    requires
        !path.contains('?'),
        is_query_part(query),
    ensures
        path_and_query(path + query) == (path, if query.len() > 0 {
            query.skip(1)
        } else {
            query
        }),
{
    let target = path + query;
    assert forall|i: int| 0 <= i < path.len() implies other_than('?')(#[trigger] target[i]) by {
        assert(target[i] == path[i]);
        assert(path.contains(path[i]));
    }
    lemma_span_is(target, other_than('?'), path.len() as int);
    assert(target.take(path.len() as int) =~= path);
    if query.len() > 0 {
        assert(target.skip(path.len() as int + 1) =~= query.skip(1));
    } else {
        assert(target =~= path);
    }
}

/// Slashes at the end of a path do not matter, whether or not the path can be decoded.
pub proof fn slashes_at_the_end_do_not_matter(
    path: Seq<char>,
    slashes: Seq<char>,
    query: Seq<char>,
)
    requires
        !path.contains('?'),
        all_slashes(slashes),
        is_query_part(query),
    ensures
        target_route(path + slashes + query) == target_route(path + query),
{
    assert(!(path + slashes).contains('?'));
    lemma_target_parts(path, query);
    lemma_target_parts(path + slashes, query);
    slashes_are_decoded_apart(path, slashes, false);
    lemma_slashes_are_cut(path, slashes);
    if let Some(decoded) = decoded_text(path, false) {
        lemma_slashes_are_cut(decoded, slashes);
    }
}

/// A GET request for a target: the method, the target, and what follows it.
pub open spec fn get_request(target: Seq<char>, rest: Seq<char>) -> Seq<char> {
    "GET "@ + target + rest
}

/// Whether a text has no white space in it.
pub open spec fn is_word(s: Seq<char>) -> bool {
    forall|i: int| 0 <= i < s.len() ==> !is_space(#[trigger] s[i])
}

/// Whether a text ends the word before it.
pub open spec fn ends_word(s: Seq<char>) -> bool {
    s.len() > 0 ==> is_space(s[0])
}

/// The first word of a text that is put together from space, a word and a rest.
pub proof fn lemma_first_word_is(lead: Seq<char>, word: Seq<char>, rest: Seq<char>)
    requires
        forall|i: int| 0 <= i < lead.len() ==> is_space(#[trigger] lead[i]),
        word.len() > 0,
        is_word(word),
        ends_word(rest),
    ensures
        first_word(lead + word + rest) == (word, rest),
{
    let s = lead + word + rest;
    assert forall|i: int| 0 <= i < lead.len() implies space()(#[trigger] s[i]) by {
        assert(s[i] == lead[i]);
    }
    assert(s[lead.len() as int] == word[0]);
    lemma_span_is(s, space(), lead.len() as int);
    let t = s.skip(lead.len() as int);
    assert(t =~= word + rest);
    assert forall|i: int| 0 <= i < word.len() implies ink()(#[trigger] t[i]) by {
        assert(t[i] == word[i]);
    }
    lemma_span_is(t, ink(), word.len() as int);
    assert(t.take(word.len() as int) =~= word);
    assert(t.skip(word.len() as int) =~= rest);
}

/// The first line of a GET request holds its target.
proof fn lemma_request_line(target: Seq<char>, rest: Seq<char>) -> (tail: Seq<char>)
    requires
        target.len() > 0,
        is_word(target),
        ends_word(rest),
    ensures
        ends_word(tail),
        first_line(get_request(target, rest)) == Some(get_request(target, tail)),
{
    reveal_strlit("GET ");
    let s = get_request(target, rest);
    let start: int = 4 + target.len() as int;
    let end = position(s, '\n');
    lemma_span_bounds(s, other_than('\n'));
    if end < start {
        if end >= 4 {
            assert(s[end] == target[end - 4]);
        }
        assert(false);
    }
    let cut = if 0 < end < s.len() && s[end - 1] == '\r' {
        end - 1
    } else {
        end
    };
    if cut < start {
        assert(s[end - 1] == target[end - 1 - 4]);
        assert(false);
    }
    let tail = rest.take(cut - start);
    assert(s.take(cut) =~= get_request(target, tail));
    tail
}

/// A GET request asks for its target.
pub proof fn get_request_asks_for_its_target(target: Seq<char>, rest: Seq<char>)
    requires
        target.len() > 0,
        is_word(target),
        ends_word(rest),
    ensures
        request_route(get_request(target, rest)) == target_route(target),
{
    reveal_strlit("GET ");
    reveal_strlit("GET");
    let tail = lemma_request_line(target, rest);
    let line = get_request(target, tail);
    let after_method = seq![' '] + target + tail;
    assert(line =~= Seq::<char>::empty() + "GET"@ + after_method);
    lemma_first_word_is(Seq::empty(), "GET"@, after_method);
    lemma_first_word_is(seq![' '], target, tail);
}

/// A GET request is answered the same with and without slashes at the end of its path.
pub proof fn answer_ignores_slashes_at_the_end(
    path: Seq<char>,
    slashes: Seq<char>,
    query: Seq<char>,
    rest: Seq<char>,
    config: &Config,
    state: CollectorView,
    now: i64,
)
    requires
        path.len() > 0,
        is_word(path),
        !path.contains('?'),
        all_slashes(slashes),
        is_word(query),
        is_query_part(query),
        ends_word(rest),
    ensures
        answer(request_route(get_request(path + slashes + query, rest)), config, state, now)
            == answer(request_route(get_request(path + query, rest)), config, state, now),
{
    let longer = path + slashes + query;
    assert forall|i: int| 0 <= i < longer.len() implies !is_space(#[trigger] longer[i]) by {
        if i < path.len() {
            assert(longer[i] == path[i]);
        } else if i < path.len() + slashes.len() {
            assert(longer[i] == slashes[i - path.len()]);
        } else {
            assert(longer[i] == query[i - path.len() - slashes.len()]);
        }
    }
    assert(is_word(path + query));
    get_request_asks_for_its_target(longer, rest);
    get_request_asks_for_its_target(path + query, rest);
    slashes_at_the_end_do_not_matter(path, slashes, query);
}

/// Where a plain path without slashes at its end leads.
proof fn lemma_plain_target(path: Seq<char>)
    requires
        path.len() > 0,
        !path.contains('?'),
        !path.contains('%'),
        path.last() != '/',
    ensures
        path_and_query(path).0 == path,
        pathname(path) == path,
{
    lemma_target_parts(path, Seq::empty());
    assert(path + Seq::<char>::empty() =~= path);
    assert forall|i: int| 0 <= i < path.len() implies #[trigger] path[i] != '%' by {
        assert(path.contains(path[i]));
    }
    plain_text_is_left_alone(path, false);
    lemma_without_trailing_is(path, only('/'), path.len() as int);
    assert(path.take(path.len() as int) =~= path);
}

/// The status has three paths: GET requests for them are answered alike, with status 200.
pub proof fn status_has_three_paths(
    rest: Seq<char>,
    config: &Config,
    state: CollectorView,
    now: i64,
)
    requires
        ends_word(rest),
    ensures
        answer(request_route(get_request("/"@, rest)), config, state, now) == (ResponseView {
            status: 200,
            body: status_text(config, state, now),
        }),
        answer(request_route(get_request("/health"@, rest)), config, state, now) == answer(
            request_route(get_request("/"@, rest)),
            config,
            state,
            now,
        ),
        answer(request_route(get_request("/status"@, rest)), config, state, now) == answer(
            request_route(get_request("/"@, rest)),
            config,
            state,
            now,
        ),
{
    reveal_strlit("/");
    reveal_strlit("/health");
    reveal_strlit("/status");
    let nothing = Seq::<char>::empty();
    lemma_target_parts("/"@, nothing);
    assert("/"@ + nothing =~= "/"@);
    plain_text_is_left_alone("/"@, false);
    lemma_without_trailing_is("/"@, only('/'), 0);
    lemma_plain_target("/health"@);
    lemma_plain_target("/status"@);
    get_request_asks_for_its_target("/"@, rest);
    get_request_asks_for_its_target("/health"@, rest);
    get_request_asks_for_its_target("/status"@, rest);
}

/// The members of an entry on the wire are those of its JSON value.
pub proof fn entry_is_written_with_its_members(entry: EntryView, key: Seq<char>)
    ensures
        (exists|i: int|
            0 <= i < entry_fields(entry).len() && (#[trigger] entry_fields(entry)[i]).0 == key)
            <==> entry.json().get(key) is Some,
{
    let fields = entry_fields(entry);
    assert(fields[0].0 == "second"@);
    assert(fields[1].0 == "collectedAt"@);
    assert(fields[2].0 == "rpcUrl"@);
    assert(fields[3].0 == "durationMs"@);
    assert(fields[4].0 == "ok"@);
    assert(fields[5].0 == (if entry.ok {
        "result"@
    } else {
        "error"@
    }));
}

} // verus!
