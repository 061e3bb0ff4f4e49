use op_batcher_collector::clock::{
    denoted_second, epoch_second_now, epoch_second_of, iso_second, normalize_second,
    now_iso_second, second_key, try_normalize_second, SecondOutOfRange,
};
use op_batcher_collector::model::{
    record_at, record_locked, CollectorState, ErrorInfo, HistoryEntry, HistoryStore,
};
use serde_json::Value;

fn empty_object() -> Value {
    Value::Object(serde_json::Map::new())
}

fn entry(second: i64) -> HistoryEntry {
    HistoryEntry {
        second: second_key(second),
        collected_at: second_key(second),
        rpc_url: "http://rpc.example".to_string(),
        duration_ms: 12,
        ok: true,
        result: Some(empty_object()),
        error: None,
    }
}

fn keys(history: &HistoryStore) -> Vec<String> {
    history.entries.iter().map(|e| e.second.clone()).collect()
}

#[test]
fn second_keys_are_utc_iso_seconds() {
    assert_eq!(second_key(0), "1970-01-01T00:00:00Z");
    assert_eq!(second_key(100), "1970-01-01T00:01:40Z");
    assert_eq!(second_key(1_775_001_600), "2026-04-01T00:00:00Z");
}

#[test]
fn second_keys_cover_their_whole_range() {
    assert_eq!(second_key(-1), "1969-12-31T23:59:59Z");
    assert_eq!(second_key(951_782_400), "2000-02-29T00:00:00Z");
    assert_eq!(second_key(-62_167_219_200), "0000-01-01T00:00:00Z");
    assert_eq!(second_key(-62_167_219_201), "-0001-12-31T23:59:59Z");
    assert_eq!(second_key(-377_705_116_800), "-9999-01-01T00:00:00Z");
    assert_eq!(second_key(253_402_300_799), "9999-12-31T23:59:59Z");
    assert_eq!(iso_second(253_402_300_800), None);
    assert_eq!(iso_second(-377_705_116_801), None);
    assert_eq!(iso_second(100).as_deref(), Some("1970-01-01T00:01:40Z"));
}

#[test]
fn normalize_second_supports_epoch_and_iso_values() {
    assert_eq!(
        normalize_second("1970-01-01T00:01:40.900Z").as_deref(),
        Some("1970-01-01T00:01:40Z")
    );
    assert_eq!(
        normalize_second("1970-01-01T02:01:40+02:00").as_deref(),
        Some("1970-01-01T00:01:40Z")
    );
    assert_eq!(
        normalize_second("100").as_deref(),
        Some("1970-01-01T00:01:40Z")
    );
    assert_eq!(normalize_second("not-a-date"), None);
}

#[test]
fn normalize_second_handles_signs_and_space() {
    assert_eq!(
        normalize_second(" \t100\u{2003}").as_deref(),
        Some("1970-01-01T00:01:40Z")
    );
    assert_eq!(
        normalize_second("+100").as_deref(),
        Some("1970-01-01T00:01:40Z")
    );
    assert_eq!(
        normalize_second("-1").as_deref(),
        Some("1969-12-31T23:59:59Z")
    );
    assert_eq!(
        normalize_second("1969-12-31T20:30:00-03:31").as_deref(),
        Some("1970-01-01T00:01:00Z")
    );
    assert_eq!(normalize_second(""), None);
    assert_eq!(normalize_second("  "), None);
    assert_eq!(normalize_second("+"), None);
    assert_eq!(normalize_second("1_000"), None);
    assert_eq!(normalize_second("1970-02-30T00:00:00Z"), None);
    assert_eq!(normalize_second("-0001-12-31T23:59:59Z"), None);
}

#[test]
fn normalizing_a_key_gives_the_key() {
    for second in [-62_167_219_200, -1, 0, 100, 951_782_400, 253_402_300_799] {
        let key = second_key(second);
        assert_eq!(normalize_second(&key), Some(key.clone()));
        assert_eq!(normalize_second(&second.to_string()), Some(key));
    }
}

#[test]
fn keys_sort_in_time_order() {
    let seconds = [
        -62_167_219_200,
        -1,
        0,
        9,
        10,
        59,
        60,
        3599,
        3600,
        86_399,
        86_400,
        2_678_399,
        2_678_400,
        31_535_999,
        31_536_000,
        946_684_799,
        946_684_800,
        253_402_300_799,
    ];
    for pair in seconds.windows(2) {
        let (earlier, later) = (second_key(pair[0]), second_key(pair[1]));
        assert!(earlier < later, "{earlier} {later}");
        assert_eq!((earlier.len(), later.len()), (20, 20));
    }
}

#[test]
fn seconds_out_of_range_have_no_key() {
    assert_eq!(
        try_normalize_second("253402300800"),
        Err(SecondOutOfRange {
            epoch_second: 253_402_300_800
        })
    );
    assert_eq!(
        try_normalize_second("9999-12-31T23:59:59-00:01"),
        Err(SecondOutOfRange {
            epoch_second: 253_402_300_859
        })
    );
    assert_eq!(
        try_normalize_second("100"),
        Ok(Some("1970-01-01T00:01:40Z".to_string()))
    );
    assert_eq!(try_normalize_second("soon"), Ok(None));
}

#[test]
fn integers_beyond_64_bits_are_no_epoch_seconds() {
    assert_eq!(denoted_second("9223372036854775807"), Some(i64::MAX));
    assert_eq!(denoted_second("-9223372036854775808"), Some(i64::MIN));
    assert_eq!(denoted_second("9223372036854775808"), None);
    assert_eq!(denoted_second("-9223372036854775809"), None);
    assert_eq!(denoted_second("0000000000000000000000000100"), Some(100));
}

#[test]
fn the_clock_shows_a_second_of_this_millennium() {
    let now = epoch_second_now();
    assert!(now > 1_700_000_000);
    let key = now_iso_second().unwrap();
    assert_eq!(key.len(), 20);
    assert!(denoted_second(&key).unwrap() >= now);
    assert_eq!(epoch_second_of(Some(5)), 5);
    assert_eq!(epoch_second_of(None), 0);
}

#[test]
fn history_store_keeps_newest_entries() {
    let mut history = HistoryStore::new(2);
    for second in 1..=3 {
        history.set(HistoryEntry {
            second: second_key(second),
            collected_at: second_key(second),
            rpc_url: "http://rpc.example".to_string(),
            duration_ms: 0,
            ok: true,
            result: Some(empty_object()),
            error: None,
        });
    }

    assert_eq!(history.entries.len(), 2);
    assert_eq!(history.oldest_key(), Some(second_key(2).as_str()));
    assert_eq!(history.latest_key(), Some(second_key(3).as_str()));
}

#[test]
fn history_store_has_room_for_one() {
    let mut history = HistoryStore::new(0);
    assert_eq!(history.limit, 1);
    assert_eq!(history.oldest_key(), None);
    assert_eq!(history.latest_key(), None);
    history.set(entry(1));
    history.set(entry(2));
    assert_eq!(keys(&history), vec![second_key(2)]);
}

#[test]
fn setting_a_second_again_replaces_its_entry() {
    let mut history = HistoryStore::new(3);
    for second in 1..=3 {
        history.set(entry(second));
    }
    let mut again = entry(2);
    again.duration_ms = 99;
    history.set(again);
    assert_eq!(
        keys(&history),
        vec![second_key(1), second_key(3), second_key(2)]
    );
    assert_eq!(history.get(&second_key(2)).unwrap().duration_ms, 99);
    assert_eq!(history.get(&second_key(1)).unwrap().duration_ms, 12);
    assert!(history.get(&second_key(4)).is_none());
}

#[test]
fn a_full_store_drops_only_its_oldest_entry() {
    let mut history = HistoryStore::new(3);
    for second in 1..=4 {
        history.set(entry(second));
    }
    assert!(history.get(&second_key(1)).is_none());
    for second in 2..=4 {
        assert_eq!(history.get(&second_key(second)).unwrap().second, second_key(second));
    }
}

#[test]
fn errors_become_objects() {
    let error = ErrorInfo {
        message: "no \"luck\"".to_string(),
        code: Some(Value::from("CODE")),
        status: Some(503),
        body: Some(Value::from(true)),
    };
    assert_eq!(
        error.to_value().to_string(),
        r#"{"body":true,"code":"CODE","message":"no \"luck\"","status":503}"#
    );
    let bare = ErrorInfo {
        message: "m".to_string(),
        code: None,
        status: None,
        body: None,
    };
    assert_eq!(bare.to_value().to_string(), r#"{"message":"m"}"#);
}

#[test]
fn entries_become_objects() {
    let value = entry(100).to_value();
    assert_eq!(value["second"], Value::from("1970-01-01T00:01:40Z"));
    assert_eq!(value["collectedAt"], Value::from("1970-01-01T00:01:40Z"));
    assert_eq!(value["durationMs"], Value::from("12"));
    assert_eq!(value["ok"], Value::from(true));
    assert_eq!(value["result"], empty_object());
    assert!(value.get("error").is_none());

    let mut nothing = entry(100);
    nothing.result = None;
    assert_eq!(nothing.to_value().get("result"), Some(&Value::Null));

    let mut failed = entry(100);
    failed.ok = false;
    let value = failed.to_value();
    assert_eq!(value["error"]["message"], Value::from("Unknown error"));
    assert!(value.get("result").is_none());
}

#[test]
fn recording_makes_a_second_the_latest() {
    let mut state = CollectorState::new(2, second_key(0));
    record_at(
        "http://rpc.example",
        &mut state,
        300,
        second_key(301),
        true,
        Some(empty_object()),
        None,
        37,
    );
    assert_eq!(state.latest_epoch_second, Some(300));
    let recorded = state.history.get(&second_key(300)).unwrap();
    assert_eq!(recorded.collected_at, second_key(301));
    assert_eq!(recorded.rpc_url, "http://rpc.example");
    assert_eq!(recorded.duration_ms, 37);
    assert!(recorded.ok);

    assert!(record_locked("u", &mut state, 301, false, None, None, 1));
    assert_eq!(state.latest_epoch_second, Some(301));
    assert_eq!(state.history.latest_key(), Some(second_key(301).as_str()));
}
