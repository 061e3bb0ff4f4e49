use op_batcher_collector::clock::{epoch_second_now, second_key};
use op_batcher_collector::config::Config;
use op_batcher_collector::json::{
    error_payload, json_string, object_json, option_json_string,
};
use op_batcher_collector::model::{
    record_at, record_locked, CollectorState, ErrorInfo, HistoryEntry, HistoryStore,
};
use op_batcher_collector::percent::{percent_decode, query_param};
use op_batcher_collector::server::{
    admit_bytes, answer_bytes, bind_address, handle_http_request, history_entry_to_json, http_response_text,
    json_http, listening_line, route, trim_trailing_slashes, try_handle_http_request,
    unreadable_request, Admission, HttpResponse, Route,
};
use serde_json::Value;

fn config() -> Config {
    Config {
        rpc_url: "http://rpc.example".to_string(),
        history_size: 10,
        listen_host: "127.0.0.1".to_string(),
        listen_port: 28881,
        web_workers: 4,
    }
}

fn state(seconds: std::ops::RangeInclusive<i64>) -> CollectorState {
    let mut state = CollectorState::new(10, second_key(0));
    for second in seconds {
        record_at(
            "http://rpc.example",
            &mut state,
            second,
            second_key(second),
            true,
            Some(Value::from(second)),
            None,
            37,
        );
    }
    state
}

fn get(state: &CollectorState, target: &str) -> HttpResponse {
    handle_http_request(
        &format!("GET {target} HTTP/1.1\r\n\r\n"),
        &config(),
        state,
        305,
    )
}

fn body(response: &HttpResponse) -> Value {
    serde_json::from_str(&response.body).unwrap()
}

#[test]
fn http_handler_returns_history_lookup() {
    let config = Config {
        rpc_url: "http://rpc.example".to_string(),
        history_size: 10,
        listen_host: "127.0.0.1".to_string(),
        listen_port: 28881,
        web_workers: 4,
    };
    let mut state = CollectorState {
        history: HistoryStore::new(10),
        latest_epoch_second: Some(300),
        collecting: false,
        started_at: second_key(300),
    };
    assert!(record_locked(
        "http://rpc.example",
        &mut state,
        300,
        true,
        Some(serde_json::from_str(r#"{"value":"stored"}"#).unwrap()),
        None,
        37,
    ));

    let response = handle_http_request(
        "GET /history?second=1970-01-01T00%3A05%3A00Z HTTP/1.1\r\n\r\n",
        &config,
        &state,
        epoch_second_now(),
    );
    assert_eq!(response.status, 200);
    assert!(response.body.contains(r#""ok":true"#));
    assert!(response.body.contains(r#""value":"stored""#));
}

#[test]
fn a_second_can_be_asked_for_in_many_ways() {
    let state = state(298..=302);
    let expected = get(&state, "/history?second=300");
    assert_eq!(expected.status, 200);
    assert_eq!(
        expected.body,
        r#"{"ok":true,"second":"1970-01-01T00:05:00Z","entry":{"second":"1970-01-01T00:05:00Z","collectedAt":"1970-01-01T00:05:00Z","rpcUrl":"http://rpc.example","durationMs":"37","ok":true,"result":300}}"#
    );
    for target in [
        "/history/300",
        "/history/1970-01-01T00%3A05%3A00Z",
        "/history/1970-01-01T00:05:00Z/",
        "/history/?second=1970-01-01T00:05:00.5Z",
        "/history?other=1&second=1970-01-01T02%3a05%3a00%2B02:00&second=1",
        "/history?second=+300+",
    ] {
        assert_eq!(get(&state, target), expected, "{target}");
    }
}

#[test]
fn seconds_that_are_not_retained_are_not_found() {
    let state = state(298..=302);
    let response = get(&state, "/history/303");
    assert_eq!(response.status, 404);
    assert_eq!(
        response.body,
        r#"{"ok":false,"second":"1970-01-01T00:05:03Z","entry":null}"#
    );
}

#[test]
fn invalid_seconds_are_refused() {
    let state = state(298..=302);
    for target in ["/history/soon", "/history?second=", "/history?second"] {
        let response = get(&state, target);
        assert_eq!(response.status, 400);
        assert_eq!(
            response.body,
            r#"{"ok":false,"error":{"message":"Invalid second. Use an ISO datetime second or epoch second."}}"#
        );
    }
}

#[test]
fn only_get_requests_are_served() {
    let state = state(298..=302);
    for request in ["POST / HTTP/1.1\r\n\r\n", "get / HTTP/1.1\r\n", "\r\n", "\n"] {
        let response = handle_http_request(request, &config(), &state, 305);
        assert_eq!(response.status, 405);
        assert_eq!(
            response.body,
            r#"{"ok":false,"error":{"message":"Only GET requests are supported"}}"#
        );
    }
    let response = handle_http_request("", &config(), &state, 305);
    assert_eq!(response.status, 400);
    assert_eq!(response.body, r#"{"message":"Bad request"}"#);
}

#[test]
fn unknown_paths_are_not_found() {
    let state = state(298..=302);
    for target in ["/other", "/historyx", "/Health", "*", "/%zz"] {
        let response = get(&state, target);
        assert_eq!(response.status, 404);
        assert_eq!(
            response.body,
            r#"{"ok":false,"error":{"message":"Not found"}}"#
        );
    }
}

#[test]
fn the_status_has_three_names() {
    let mut state = state(298..=302);
    state.collecting = true;
    let response = get(&state, "/");
    assert_eq!(response.status, 200);
    assert_eq!(
        response.body,
        r#"{"ok":true,"rpcUrl":"http://rpc.example","historySize":10,"retainedEntries":5,"oldestSecond":"1970-01-01T00:04:58Z","latestSecond":"1970-01-01T00:05:02Z","currentSecond":"1970-01-01T00:05:05Z","behindSeconds":3,"collecting":true,"startedAt":"1970-01-01T00:00:00Z","endpoints":["/health","/latest","/history","/history?second=<datetime>"]}"#
    );
    for target in ["/health", "/status", "//", "/health///", "/?x=1", "/%68ealth"] {
        assert_eq!(get(&state, target), response, "{target}");
    }
    let bare = handle_http_request("GET", &config(), &state, 305);
    assert_eq!(bare, response);
    let empty = CollectorState::new(1, second_key(0));
    assert!(get(&empty, "/").body.contains(r#""oldestSecond":null,"latestSecond":null,"#));
    assert!(get(&empty, "/").body.contains(r#""behindSeconds":0,"#));
    assert!(handle_http_request("GET /", &config(), &state, 300)
        .body
        .contains(r#""behindSeconds":0,"#));
}

#[test]
fn the_latest_entry_is_the_newest() {
    let response = get(&state(298..=302), "/latest");
    assert_eq!(response.status, 200);
    assert_eq!(body(&response)["second"], Value::from("1970-01-01T00:05:02Z"));
    assert_eq!(body(&response)["entry"]["result"], Value::from(302));
    let empty = get(&CollectorState::new(1, second_key(0)), "/latest");
    assert_eq!(empty.body, r#"{"ok":true,"second":null,"entry":null}"#);
}

#[test]
fn the_history_is_keyed_by_second() {
    let response = get(&state(301..=302), "/history?x=1");
    assert_eq!(response.status, 200);
    assert_eq!(
        response.body,
        r#"{"ok":true,"count":2,"oldestSecond":"1970-01-01T00:05:01Z","latestSecond":"1970-01-01T00:05:02Z","history":{"1970-01-01T00:05:01Z":{"second":"1970-01-01T00:05:01Z","collectedAt":"1970-01-01T00:05:01Z","rpcUrl":"http://rpc.example","durationMs":"37","ok":true,"result":301},"1970-01-01T00:05:02Z":{"second":"1970-01-01T00:05:02Z","collectedAt":"1970-01-01T00:05:02Z","rpcUrl":"http://rpc.example","durationMs":"37","ok":true,"result":302}}}"#
    );
    let empty = get(&CollectorState::new(1, second_key(0)), "/history");
    assert_eq!(
        empty.body,
        r#"{"ok":true,"count":0,"oldestSecond":null,"latestSecond":null,"history":{}}"#
    );
}

#[test]
fn failed_entries_tell_why() {
    let mut entry = HistoryEntry {
        second: "s".to_string(),
        collected_at: "c".to_string(),
        rpc_url: "u".to_string(),
        duration_ms: 340_282_366_920_938_463_463_374_607_431_768_211_455,
        ok: false,
        result: None,
        error: Some(ErrorInfo {
            message: "line\nbreak".to_string(),
            code: Some(Value::from(-1)),
            status: Some(500),
            body: Some(Value::Null),
        }),
    };
    let text = history_entry_to_json(&entry);
    assert_eq!(
        text,
        r#"{"second":"s","collectedAt":"c","rpcUrl":"u","durationMs":"340282366920938463463374607431768211455","ok":false,"error":{"message":"line\nbreak","code":-1,"status":500,"body":null}}"#
    );
    let read: Value = serde_json::from_str(&text).unwrap();
    assert_eq!(read, entry.to_value());
    entry.error = None;
    assert!(history_entry_to_json(&entry).ends_with(r#""error":{"message":"Unknown error"}}"#));
    entry.ok = true;
    assert!(history_entry_to_json(&entry).ends_with(r#""ok":true,"result":null}"#));
}

#[test]
fn seconds_out_of_range_have_no_answer() {
    let state = state(298..=302);
    let config = config();
    let ask = |request: &str, now: i64| try_handle_http_request(request, &config, &state, now);
    assert!(ask("GET /history/253402300800 HTTP/1.1", 305).is_none());
    assert!(ask("GET /history?second=-377705116801 HTTP/1.1", 305).is_none());
    assert!(ask("GET / HTTP/1.1", i64::MAX).is_none());
    assert_eq!(ask("GET /latest HTTP/1.1", i64::MAX).unwrap().status, 200);
    assert_eq!(ask("GET /history/253402300799", 305).unwrap().status, 404);
    assert_eq!(ask("GET /history/300", i64::MIN).unwrap().status, 200);
}

#[test]
fn requests_are_read_from_bytes() {
    let state = state(298..=302);
    let answer = answer_bytes(b"GET /history/300 HTTP/1.1\r\nX: \xff\r\n\r\n", &config(), &state, 305);
    assert_eq!(answer, Some(get(&state, "/history/300")));
    assert_eq!(
        answer_bytes(b"", &config(), &state, 305).unwrap().status,
        400
    );
    assert_eq!(
        unreadable_request("timed out"),
        json_http(
            400,
            r#"{"ok":false,"error":{"message":"Bad request: timed out"}}"#
        )
    );
}

#[test]
fn routes_follow_the_request_line() {
    assert_eq!(route("GET /history?a=b c\n"), Route::History("a=b".to_string()));
    assert_eq!(route("  GET\t/latest\r"), Route::Latest);
    assert_eq!(route("GET /history/a%2Fb"), Route::Second("a/b".to_string()));
    assert_eq!(route("GET /history/"), Route::History(String::new()));
    assert_eq!(route("GET /history?a?b"), Route::History("a?b".to_string()));
    assert_eq!(route(""), Route::BadRequest);
}

#[test]
fn percent_escapes_are_decoded() {
    assert_eq!(percent_decode("a%20b+c", false).as_deref(), Some("a b+c"));
    assert_eq!(percent_decode("a%20b+c", true).as_deref(), Some("a b c"));
    assert_eq!(percent_decode("%C3%a9", true).as_deref(), Some("\u{e9}"));
    assert_eq!(percent_decode("\u{e9}", true).as_deref(), Some("\u{e9}"));
    assert_eq!(percent_decode("%+f", true).as_deref(), Some("\u{f}"));
    assert_eq!(percent_decode("", true).as_deref(), Some(""));
    let text = "a +%\u{e9}\u{1f600}";
    let escaped: String = text.bytes().map(|byte| format!("%{byte:02X}")).collect();
    assert_eq!(percent_decode(&escaped, false).as_deref(), Some(text));
    assert_eq!(percent_decode(&escaped, true).as_deref(), Some(text));
    let lower: String = text.bytes().map(|byte| format!("%{byte:02x}")).collect();
    assert_eq!(percent_decode(&lower, false).as_deref(), Some(text));
    assert_eq!(percent_decode(&lower, true).as_deref(), Some(text));
    assert_eq!(percent_decode("%4", true), None);
    assert_eq!(percent_decode("%", true), None);
    assert_eq!(percent_decode("%4g", true), None);
    assert_eq!(percent_decode("%-1", true), None);
    assert_eq!(percent_decode("%\u{e9}", true), None);
    assert_eq!(percent_decode("%ff", true), None);
}

#[test]
fn queries_are_searched_for_a_name() {
    assert_eq!(query_param("a=1&b=2&b=3", "b").as_deref(), Some("2"));
    assert_eq!(query_param("a=1&%62=x%3Dy=z", "b").as_deref(), Some("x=y=z"));
    assert_eq!(query_param("b", "b").as_deref(), Some(""));
    assert_eq!(query_param("a=1", "b"), None);
    assert_eq!(query_param("", "b"), None);
    assert_eq!(query_param("", "").as_deref(), Some(""));
    assert_eq!(query_param("%zz=1&b=2", "b"), None);
    assert_eq!(query_param("a=%zz&b=2", "b").as_deref(), Some("2"));
    assert_eq!(query_param("b=%zz&b=2", "b"), None);
}

#[test]
fn trailing_slashes_are_trimmed() {
    assert_eq!(trim_trailing_slashes("/a/b//"), "/a/b");
    assert_eq!(trim_trailing_slashes("///"), "/");
    assert_eq!(trim_trailing_slashes(""), "/");
    assert_eq!(trim_trailing_slashes("a"), "a");
}

#[test]
fn answers_are_framed() {
    assert_eq!(
        http_response_text(&json_http(404, "\"\u{e9}\"")),
        "HTTP/1.1 404 Not Found\r\nContent-Type: application/json; charset=utf-8\r\nContent-Length: 4\r\nConnection: close\r\n\r\n\"\u{e9}\""
    );
    for (status, line) in [
        (200, "HTTP/1.1 200 OK\r\n"),
        (400, "HTTP/1.1 400 Bad Request\r\n"),
        (405, "HTTP/1.1 405 Method Not Allowed\r\n"),
        (500, "HTTP/1.1 500 Internal Server Error\r\n"),
        (204, "HTTP/1.1 204 OK\r\n"),
    ] {
        assert!(http_response_text(&json_http(status, "")).starts_with(line));
    }
}

#[test]
fn the_server_says_where_it_listens() {
    assert_eq!(bind_address(&config()), "127.0.0.1:28881");
    assert_eq!(
        listening_line(&config()),
        r#"{"message":"op-batcher collector listening","url":"http://127.0.0.1:28881/","rpcUrl":"http://rpc.example","historySize":10,"listenHost":"127.0.0.1","listenPort":28881}"#
    );
}

#[test]
fn json_texts_are_put_together() {
    assert_eq!(json_string("a\"b\\\u{1}"), "\"a\\\"b\\\\\\u0001\"");
    assert_eq!(option_json_string(None), "null");
    assert_eq!(option_json_string(Some("x")), "\"x\"");
    assert_eq!(error_payload("m"), r#"{"message":"m"}"#);
    assert_eq!(
        object_json(&vec![("b", "1".to_string()), ("a", "[]".to_string())]),
        r#"{"b":1,"a":[]}"#
    );
    assert_eq!(object_json(&Vec::new()), "{}");
    assert_eq!(json_string("/~\u{7f}\u{e9}"), "\"/~\u{7f}\u{e9}\"");
}

#[test]
fn values_are_printed_compactly_with_sorted_keys() {
    let mut state = CollectorState::new(10, second_key(0));
    let value = r#"{ "b": [1, -2.5, true, null, [], {}], "a": {"y": "", "x": "\u00e9"}, "aa": 0 }"#;
    record_at(
        "u",
        &mut state,
        300,
        second_key(301),
        true,
        Some(serde_json::from_str(value).unwrap()),
        None,
        37,
    );
    assert!(get(&state, "/latest").body.ends_with(
        "\"result\":{\"a\":{\"x\":\"\u{e9}\",\"y\":\"\"},\"aa\":0,\"b\":[1,-2.5,true,null,[],{}]}}}"
    ));
}

#[test]
fn slashes_at_the_end_of_a_path_do_not_matter() {
    let state = state(298..=302);
    for path in [
        "/",
        "/health",
        "/latest",
        "/history",
        "/history/300",
        "/history/%",
        "/history/%4",
        "/history/%C3",
        "/%2F",
        "/nowhere",
    ] {
        let expected = get(&state, path);
        assert_eq!(get(&state, &format!("{path}/")), expected, "{path}");
        assert_eq!(get(&state, &format!("{path}///")), expected, "{path}");
        assert_eq!(
            get(&state, &format!("{path}//?second=301")),
            get(&state, &format!("{path}?second=301")),
            "{path}"
        );
    }
    let status = get(&state, "/");
    assert_eq!(status.status, 200);
    assert_eq!(get(&state, "/health"), status);
    assert_eq!(get(&state, "/status"), status);
}

#[test]
fn refusals_do_not_depend_on_the_state() {
    let state = state(298..=302);
    for (request, status) in [
        ("", 400),
        ("POST / HTTP/1.1", 405),
        ("GET /nowhere HTTP/1.1", 404),
        ("GET /history/soon HTTP/1.1", 400),
        ("GET /history?second= HTTP/1.1", 400),
    ] {
        let answer = answer_bytes(request.as_bytes(), &config(), &state, 305).unwrap();
        assert_eq!(answer.status, status, "{request}");
        assert_eq!(
            admit_bytes(request.as_bytes()),
            Admission::Refused(answer),
            "{request}"
        );
    }
    for request in ["GET / ", "GET /latest", "GET /history", "GET /history/300"] {
        assert_eq!(admit_bytes(request.as_bytes()), Admission::Admitted);
    }
    assert_eq!(
        admit_bytes(b"GET /history/253402300800"),
        Admission::SecondOutOfRange
    );
}
