use op_batcher_collector::clock::{denoted_second, epoch_second_now, second_key};
use op_batcher_collector::model::{record_locked, CollectorState};
use op_batcher_collector::scraper::{
    begin_collection, body_as_value, body_read_failed, claim_tick, classify_reply, finish_at,
    finish_collection, http_error, read_reply, record_missed, request_failed, response_ok_line,
    rpc_request, tick_failed_line, tick_is_possible, Claim, Tick,
};
use serde_json::Value;

fn json(text: &str) -> Value {
    serde_json::from_str(text).unwrap()
}

fn keys(state: &CollectorState) -> Vec<String> {
    state.history.entries.iter().map(|e| e.second.clone()).collect()
}

fn run(seconds: std::ops::RangeInclusive<i64>) -> Vec<String> {
    seconds.map(second_key).collect()
}

fn poll(state: &mut CollectorState, now: i64) -> Tick {
    let tick = begin_collection("http://rpc.example", state, now);
    if tick == Tick::Poll {
        finish_at(
            "http://rpc.example",
            state,
            now,
            second_key(now),
            Ok(Value::from(now)),
            5,
        );
    }
    tick
}

#[test]
fn the_first_tick_polls_the_current_second_alone() {
    let mut state = CollectorState::new(10, second_key(0));
    assert_eq!(poll(&mut state, 1000), Tick::Poll);
    assert_eq!(keys(&state), run(1000..=1000));
    assert_eq!(state.latest_epoch_second, Some(1000));
    assert!(!state.collecting);
}

#[test]
fn missed_seconds_are_filled_with_errors() {
    let mut state = CollectorState::new(10, second_key(0));
    poll(&mut state, 1000);
    assert_eq!(poll(&mut state, 1004), Tick::Poll);
    assert_eq!(keys(&state), run(1000..=1004));
    let missed = state.history.get(&second_key(1002)).unwrap();
    assert!(!missed.ok);
    assert_eq!(missed.duration_ms, 0);
    assert_eq!(
        missed.error.as_ref().unwrap().to_value().to_string(),
        r#"{"code":"COLLECTOR_BEHIND","message":"Collector fell behind before this second could be polled"}"#
    );
    assert!(state.history.get(&second_key(1004)).unwrap().ok);
}

#[test]
fn a_long_absence_leaves_no_gap() {
    let mut state = CollectorState::new(3, second_key(0));
    poll(&mut state, 1000);
    poll(&mut state, 2000);
    assert_eq!(keys(&state), run(1998..=2000));
    poll(&mut state, 2001);
    assert_eq!(keys(&state), run(1999..=2001));
}

#[test]
fn a_second_is_polled_once() {
    let mut state = CollectorState::new(3, second_key(0));
    poll(&mut state, 1000);
    assert_eq!(poll(&mut state, 1000), Tick::UpToDate);
    assert_eq!(poll(&mut state, 999), Tick::UpToDate);
    assert_eq!(keys(&state), run(1000..=1000));
    assert!(!state.collecting);
}

#[test]
fn a_tick_that_is_still_collecting_is_left_alone() {
    let mut state = CollectorState::new(3, second_key(0));
    assert_eq!(begin_collection("u", &mut state, 1000), Tick::Poll);
    assert!(state.collecting);
    assert_eq!(begin_collection("u", &mut state, 1001), Tick::Busy);
    assert!(state.history.entries.is_empty());
    assert!(finish_collection(
        "u",
        &mut state,
        1000,
        Err(request_failed("down")),
        900
    ));
    assert!(!state.collecting);
    let failed = state.history.get(&second_key(1000)).unwrap();
    assert!(!failed.ok);
    assert!(failed.result.is_none());
    assert_eq!(failed.duration_ms, 900);
    assert_eq!(
        failed.error.as_ref().unwrap().message,
        "RPC request failed: down"
    );
}

#[test]
fn requests_ask_for_the_throttle_controller() {
    assert_eq!(
        rpc_request("1970-01-01T00:00:00Z"),
        json(
            r#"{"jsonrpc":"2.0","id":"1970-01-01T00:00:00Z","method":"admin_getThrottleController","params":[]}"#
        )
    );
}

#[test]
fn results_are_taken_out_of_replies() {
    assert_eq!(
        read_reply(200, br#"{"result":{"value":1}}"#).unwrap(),
        json(r#"{"value":1}"#)
    );
    assert_eq!(
        read_reply(200, br#"{"error":null,"result":7}"#).unwrap(),
        Value::from(7)
    );
    assert_eq!(
        read_reply(299, br#"{"error":false,"result":null}"#).unwrap(),
        Value::Null
    );
    assert_eq!(read_reply(200, b"[1,2]").unwrap(), json("[1,2]"));
    assert_eq!(
        read_reply(200, br#"{"other":1}"#).unwrap(),
        json(r#"{"other":1}"#)
    );
    assert_eq!(
        read_reply(200, b"plain \xff").unwrap(),
        Value::from("plain \u{fffd}")
    );
}

#[test]
fn errors_are_taken_out_of_replies() {
    let error = read_reply(
        200,
        br#"{"error":{"message":"nope","code":-32601,"data":{"a":1}},"result":1}"#,
    )
    .unwrap_err();
    assert_eq!(error.message, "nope");
    assert_eq!(error.code, Some(Value::from(-32601)));
    assert_eq!(error.status, None);
    assert_eq!(error.body, Some(json(r#"{"a":1}"#)));

    let error = read_reply(200, br#"{"error":true}"#).unwrap_err();
    assert_eq!(error.message, "RPC returned an error");
    assert_eq!(error.code, Some(Value::from("RPC_ERROR")));
    assert_eq!(error.body, None);

    let error = read_reply(200, br#"{"error":{"message":5}}"#).unwrap_err();
    assert_eq!(error.message, "RPC returned an error");
}

#[test]
fn http_failures_keep_status_and_body() {
    let error = read_reply(503, br#"{"result":1}"#).unwrap_err();
    assert_eq!(error.message, "RPC HTTP request failed with 503");
    assert_eq!(error.code, Some(Value::from("RPC_HTTP_ERROR")));
    assert_eq!(error.status, Some(503));
    assert_eq!(error.body, Some(json(r#"{"result":1}"#)));
    let error = read_reply(199, b"busy").unwrap_err();
    assert_eq!(error.body, Some(Value::from("busy")));
    assert!(read_reply(300, b"1").is_err());
    assert_eq!(classify_reply(200, None, b"x").unwrap(), Value::from("x"));
    assert_eq!(
        body_read_failed("cut off").message,
        "RPC body read failed: cut off"
    );
    let plain = http_error("m".to_string(), None, None);
    assert_eq!(plain.code, Some(Value::from("RPC_HTTP_ERROR")));
    assert_eq!(body_as_value(Some(&Value::Null), b"x"), Value::Null);
}

#[test]
fn reports_are_lines_of_json() {
    assert_eq!(
        response_ok_line("s", 12, "u"),
        r#"batcher response ok {"durationMs":"12","rpcUrl":"u","second":"s"}"#
    );
    assert_eq!(
        tick_failed_line("lost"),
        r#"collector tick failed {"message":"lost"}"#
    );
}

#[test]
fn a_tick_claims_the_seconds_that_are_due() {
    let mut state = CollectorState::new(5, second_key(0));
    assert_eq!(claim_tick(&mut state, 1000), Claim::Due(1000));
    assert_eq!(claim_tick(&mut state, 1000), Claim::Busy);
    state.collecting = false;
    state.latest_epoch_second = Some(1000);
    assert_eq!(claim_tick(&mut state, 1000), Claim::UpToDate);
    assert!(!state.collecting);
    assert_eq!(claim_tick(&mut state, 1003), Claim::Due(1001));
    state.collecting = false;
    assert_eq!(claim_tick(&mut state, 1100), Claim::Due(1096));
}

#[test]
fn missed_seconds_are_stamped() {
    let mut state = CollectorState::new(5, second_key(0));
    assert!(record_missed("u", &mut state, 1000, 1007));
    let missed = state.history.get(&second_key(1000)).unwrap();
    assert_eq!(missed.collected_at, second_key(1007));
    assert_eq!(missed.rpc_url, "u");
    assert_eq!(state.latest_epoch_second, Some(1000));
    assert!(!record_missed("u", &mut state, 1001, 253_402_300_800));
    assert_eq!(keys(&state), run(1000..=1000));
    assert_eq!(state.latest_epoch_second, Some(1000));
}

#[test]
fn two_missed_seconds_are_filled_before_the_third_is_polled() {
    let mut state = CollectorState::new(4, second_key(100));
    assert!(record_locked(
        "http://rpc.example",
        &mut state,
        100,
        true,
        Some(Value::from(1)),
        None,
        5
    ));
    let earliest = epoch_second_now();
    assert_eq!(
        begin_collection("http://rpc.example", &mut state, 103),
        Tick::Poll
    );
    let outcome = read_reply(200, br#"{"result":7}"#);
    assert!(finish_collection(
        "http://rpc.example",
        &mut state,
        103,
        outcome,
        5
    ));
    let latest = epoch_second_now();

    let retained: Vec<(&str, bool, Option<Value>)> = state
        .history
        .entries
        .iter()
        .map(|e| (e.second.as_str(), e.ok, e.result.clone()))
        .collect();
    assert_eq!(
        retained,
        vec![
            ("1970-01-01T00:01:40Z", true, Some(Value::from(1))),
            ("1970-01-01T00:01:41Z", false, None),
            ("1970-01-01T00:01:42Z", false, None),
            ("1970-01-01T00:01:43Z", true, Some(Value::from(7))),
        ]
    );
    assert_eq!(state.latest_epoch_second, Some(103));
    assert!(!state.collecting);
    let stamp = denoted_second(&state.history.entries[1].collected_at).unwrap();
    assert!(earliest <= stamp && stamp <= latest);
}

#[test]
fn a_failed_poll_after_a_missed_second_is_recorded() {
    let mut state = CollectorState::new(4, second_key(100));
    poll(&mut state, 100);
    assert_eq!(begin_collection("u", &mut state, 102), Tick::Poll);
    assert!(finish_collection(
        "u",
        &mut state,
        102,
        Err(request_failed("down")),
        900
    ));
    assert_eq!(keys(&state), run(100..=102));
    let newest = state.history.entries.back().unwrap();
    assert!(!newest.ok);
    assert!(newest.result.is_none());
    assert_eq!(
        newest.error.as_ref().unwrap().message,
        "RPC request failed: down"
    );
    assert_eq!(state.latest_epoch_second, Some(102));
    assert!(!state.collecting);
}

#[test]
fn ticks_outside_the_calendar_are_not_possible() {
    let mut state = CollectorState::new(5, second_key(0));
    assert!(tick_is_possible(&state, 1000));
    assert!(!tick_is_possible(&state, 253_402_300_800));
    assert!(!tick_is_possible(&state, i64::MIN));
    state.latest_epoch_second = Some(1000);
    assert!(tick_is_possible(&state, -377_705_116_801));
}

#[test]
fn a_vast_history_is_polled_like_any_other() {
    let mut state = CollectorState::new(usize::MAX, second_key(0));
    assert!(tick_is_possible(&state, 1000));
    assert_eq!(poll(&mut state, 1000), Tick::Poll);
    assert_eq!(poll(&mut state, 1002), Tick::Poll);
    assert_eq!(keys(&state), run(1000..=1002));
    assert!(!tick_is_possible(&state, i64::MIN));
}
