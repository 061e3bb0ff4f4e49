//! The polling task: which seconds are due, what a reply of the JSON-RPC endpoint
//! means, and what is recorded of it.
use crate::calendar::{nameable, second_text, FIRST_SECOND, LAST_SECOND};
use crate::clock::{clock_shows, epoch_second_now, iso_second, now_iso_second, stamp_at};
use crate::json::{
    array_value, as_bool, as_text, copy_value, insert_member, is_null, json_of, json_read, printed,
    member, no_members, nothing, object_value, optional_json, read_value, text_value, value_text, Json,
};
use crate::model::{
    new_entry, record_at, CollectorState, CollectorView, EntryView, ErrorInfo, ErrorView,
};
use crate::numeral::{decimal, decimal_text};
use crate::text::{lossy_text, utf8_lossy};
use serde_json::Value;
use std::time::SystemTime;
use vstd::prelude::*;
use vstd::string::*;

verus! {

/// How long the endpoint may take to answer.
pub const RPC_TIMEOUT_MS: u64 = 900;

/// How long the polling task rests between two ticks.
pub const POLL_INTERVAL_MS: u64 = 250;

// ---------------------------------------------------------------------------
// Which seconds are due
// ---------------------------------------------------------------------------
/// What a tick of the polling task finds.
#[derive(Clone, Copy, Debug, PartialEq, Eq, Structural)]
pub enum Tick {
    /// Another tick is still collecting.
    Busy,
    /// The current second has been collected.
    UpToDate,
    /// The missed seconds have been filled, and the current one is to be polled.
    Poll,
    /// The clock was read as a year past 9999, and a missed second could not be stamped.
    ClockOutOfRange,
}

/// For how many seconds back from the current one there is room, as far as 64 bits count.
pub open spec fn room(limit: usize) -> int {
    if limit <= i64::MAX {
        limit as int
    } else {
        i64::MAX as int
    }
}

/// The first second that a tick at second `now` has to account for: the one after the
/// latest, unless it would be dropped from the history again.
pub open spec fn start_second(state: CollectorView, now: i64) -> int {
    let first_due = match state.latest_epoch_second {
        Some(latest) => latest + 1,
        None => now as int,
    };
    let earliest_retained = now - room(state.history.limit) + 1;
    if first_due < earliest_retained {
        earliest_retained
    } else {
        first_due
    }
}

/// Whether a tick at second `now` stays within 64-bit arithmetic and, if it is to poll, has
/// a name for the second.
pub open spec fn tick_possible(state: CollectorView, now: i64) -> bool {
    &&& i64::MIN <= now - room(state.history.limit)
    &&& start_second(state, now) <= now ==> nameable(now as int)
}

/// The error of a second that was not polled in time.
pub open spec fn behind_error() -> ErrorView {
    ErrorView {
        message: "Collector fell behind before this second could be polled"@,
        code: Some(Json::Text("COLLECTOR_BEHIND"@)),
        status: None,
        body: None,
    }
}

/// The entry of a second that was not polled in time.
pub open spec fn behind_entry(rpc_url: Seq<char>, epoch_second: int, stamp: i64) -> EntryView {
    new_entry(
        rpc_url,
        epoch_second,
        second_text(stamp as int),
        false,
        None,
        Some(behind_error()),
        0,
    )
}

/// The state after the seconds from `start` on have been filled, one for each stamp.
pub open spec fn fill(
    state: CollectorView,
    rpc_url: Seq<char>,
    start: int,
    stamps: Seq<i64>,
) -> CollectorView
    decreases stamps.len(),
{
    if stamps.len() == 0 {
        state
    } else {
        let epoch_second = start + stamps.len() - 1;
        fill(state, rpc_url, start, stamps.drop_last()).record(
            epoch_second as i64,
            behind_entry(rpc_url, epoch_second, stamps.last()),
        )
    }
}

/// The state with its collecting flag set.
pub open spec fn with_collecting(state: CollectorView, collecting: bool) -> CollectorView {
    CollectorView { collecting, ..state }
}

/// Whether all of these seconds have a name.
pub open spec fn all_nameable(seconds: Seq<i64>) -> bool {
    forall|i: int| 0 <= i < seconds.len() ==> nameable(#[trigger] seconds[i] as int)
}

/// Whether a tick at second `now` is begun, given what the clock was read as: once for each
/// second that has been missed, to stamp its entry, up to the first reading without a name.
pub open spec fn begun(
    before: CollectorView,
    after: CollectorView,
    rpc_url: Seq<char>,
    now: i64,
    readings: Seq<i64>,
    tick: Tick,
) -> bool {
    let start = start_second(before, now);
    let claimed = with_collecting(before, true);
    match tick {
        Tick::Busy => before.collecting && after == before,
        Tick::UpToDate => !before.collecting && start > now && after == before,
        Tick::Poll => {
            &&& !before.collecting
            &&& start <= now
            &&& readings.len() == now - start
            &&& all_nameable(readings)
            &&& after == fill(claimed, rpc_url, start, readings)
        },
        Tick::ClockOutOfRange => {
            &&& !before.collecting
            &&& 0 < readings.len() <= now - start
            &&& all_nameable(readings.drop_last())
            &&& !nameable(readings.last() as int)
            &&& after == fill(claimed, rpc_url, start, readings.drop_last())
        },
    }
}

/// For how many seconds back from the current one there is room, as far as 64 bits count.
fn seconds_of_room(limit: usize) -> (seconds: i64)
    ensures
        seconds == room(limit),
{
    if limit as u64 <= i64::MAX as u64 {
        limit as i64
    } else {
        i64::MAX
    }
}

/// Whether a tick may be begun at second `current_second`.
pub fn tick_is_possible(state: &CollectorState, current_second: i64) -> (possible: bool)
    requires
        state@.wf(),
    ensures
        possible == tick_possible(state@, current_second),
{
    if current_second.checked_sub(seconds_of_room(state.history.limit)).is_none() {
        return false;
    }
    let first_due_second: i64 = match state.latest_epoch_second {
        Some(second) => second + 1,
        None => current_second,
    };
    first_due_second > current_second || (FIRST_SECOND <= current_second && current_second
        <= LAST_SECOND)
}

/// What a tick is to do.
#[derive(Clone, Copy, Debug, PartialEq, Eq, Structural)]
pub enum Claim {
    /// Another tick is still collecting.
    Busy,
    /// The current second has been collected.
    UpToDate,
    /// The seconds from this one on are to be accounted for.
    Due(i64),
}

/// Claims the state for a tick at second `current_second`, if there is anything to collect.
pub fn claim_tick(state: &mut CollectorState, current_second: i64) -> (claim: Claim)
    requires
        old(state)@.wf(),
        !old(state)@.collecting ==> tick_possible(old(state)@, current_second),
    ensures
        claim == (if old(state)@.collecting {
            Claim::Busy
        } else if start_second(old(state)@, current_second) > current_second {
            Claim::UpToDate
        } else {
            Claim::Due(start_second(old(state)@, current_second) as i64)
        }),
        !old(state)@.collecting && old(state)@.latest_epoch_second is None ==> claim == Claim::Due(
            current_second,
        ),
        final(state)@ == (if claim is Due {
            with_collecting(old(state)@, true)
        } else {
            old(state)@
        }),
{
    if state.collecting {
        return Claim::Busy;
    }
    let first_due_second: i64 = match state.latest_epoch_second {
        Some(second) => second + 1,
        None => current_second,
    };
    let earliest_retained_second: i64 = current_second - seconds_of_room(
        state.history.limit,
    ) + 1;
    let start_second: i64 = if first_due_second < earliest_retained_second {
        earliest_retained_second
    } else {
        first_due_second
    };
    if start_second > current_second {
        Claim::UpToDate
    } else {
        state.collecting = true;
        Claim::Due(start_second)
    }
}

/// Records that a second was not polled in time, collected at the second `stamp`. Nothing is
/// recorded exactly where the stamp has no name.
pub fn record_missed(
    rpc_url: &str,
    state: &mut CollectorState,
    epoch_second: i64,
    stamp: i64,
) -> (recorded: bool)
    requires
        nameable(epoch_second as int),
    ensures
        recorded == nameable(stamp as int),
        recorded ==> final(state)@ == old(state)@.record(
            epoch_second,
            behind_entry(rpc_url@, epoch_second as int, stamp),
        ),
        !recorded ==> *final(state) == *old(state),
        old(state)@.wf() ==> final(state)@.wf(),
{
    let collected_at = match iso_second(stamp) {
        Some(key) => key,
        None => return false,
    };
    let error = ErrorInfo {
        message: "Collector fell behind before this second could be polled".to_owned(),
        code: Some(text_value("COLLECTOR_BEHIND".to_owned())),
        status: None,
        body: None,
    };
    assert(error@ == behind_error());
    record_at(rpc_url, state, epoch_second, collected_at, false, None, Some(error), 0);
    true
}

/// Begins a tick at second `current_second`: claims the state, and fills the seconds that
/// have been missed with error entries, each collected now.
pub fn begin_collection(rpc_url: &str, state: &mut CollectorState, current_second: i64) -> (tick: Tick)
    requires
        old(state)@.wf(),
        !old(state)@.collecting ==> tick_possible(old(state)@, current_second),
    ensures
        exists|readings: Seq<i64>|
            (forall|i: int| 0 <= i < readings.len() ==> clock_shows(#[trigger] readings[i]))
                && #[trigger] begun(
                old(state)@,
                final(state)@,
                rpc_url@,
                current_second,
                readings,
                tick,
            ),
        tick == Tick::Busy <==> old(state)@.collecting,
        tick == Tick::UpToDate <==> !old(state)@.collecting && start_second(
            old(state)@,
            current_second,
        ) > current_second,
        tick == Tick::ClockOutOfRange ==> exists|stamp: i64| #[trigger]
            clock_shows(stamp) && !nameable(stamp as int),
        final(state)@.wf(),
        final(state)@.collecting == (tick != Tick::UpToDate),
        final(state)@.history.limit == old(state)@.history.limit,
        final(state)@.started_at == old(state)@.started_at,
{
    let ghost before = state@;
    let ghost mut readings: Seq<i64> = Seq::empty();
    let start_second: i64 = match claim_tick(state, current_second) {
        Claim::Busy => {
            assert(begun(before, state@, rpc_url@, current_second, readings, Tick::Busy));
            return Tick::Busy;
        },
        Claim::UpToDate => {
            assert(begun(before, state@, rpc_url@, current_second, readings, Tick::UpToDate));
            return Tick::UpToDate;
        },
        Claim::Due(second) => second,
    };
    let ghost claimed = state@;
    let mut epoch_second: i64 = start_second;
    while epoch_second < current_second
        invariant
            start_second <= epoch_second <= current_second,
            nameable(current_second as int),
            nameable(start_second as int),
            state@.wf(),
            before == old(state)@,
            !before.collecting,
            start_second == self::start_second(before, current_second),
            claimed == with_collecting(before, true),
            readings.len() == epoch_second - start_second,
            all_nameable(readings),
            forall|i: int| 0 <= i < readings.len() ==> clock_shows(#[trigger] readings[i]),
            state@ == fill(claimed, rpc_url@, start_second as int, readings),
            state@.collecting,
            state@.history.limit == before.history.limit,
            state@.started_at == before.started_at,
        decreases current_second - epoch_second,
    {
        let stamp = epoch_second_now();
        let ghost earlier = readings;
        proof {
            readings = earlier.push(stamp);
            assert(readings.drop_last() =~= earlier);
        }
        if !record_missed(rpc_url, state, epoch_second, stamp) {
            assert(begun(
                before,
                state@,
                rpc_url@,
                current_second,
                readings,
                Tick::ClockOutOfRange,
            ));
            return Tick::ClockOutOfRange;
        }
        epoch_second += 1;
    }
    assert(begun(before, state@, rpc_url@, current_second, readings, Tick::Poll));
    Tick::Poll
}

// ---------------------------------------------------------------------------
// What a reply means
// ---------------------------------------------------------------------------
/// The model of an outcome: a result, or why there is none.
pub open spec fn outcome_view(outcome: Result<Value, ErrorInfo>) -> Result<Json, ErrorView> {
    match outcome {
        Ok(value) => Ok(json_of(value)),
        Err(error) => Err(error@),
    }
}

/// The error of a request that failed on the level of HTTP.
pub open spec fn http_failure(
    message: Seq<char>,
    status: Option<u16>,
    body: Option<Json>,
) -> ErrorView {
    ErrorView { message, code: Some(Json::Text("RPC_HTTP_ERROR"@)), status, body }
}

/// A body as JSON: what it was read as, or its text.
pub open spec fn body_json(parsed: Option<Json>, raw: Seq<u8>) -> Json {
    match parsed {
        Some(json) => json,
        None => Json::Text(utf8_lossy(raw)),
    }
}

/// Whether an `error` member reports an error: anything but null and false does.
pub open spec fn reports_error(error: Json) -> bool {
    error != Json::Null && error != Json::Bool(false)
}

/// The error that an `error` member reports.
pub open spec fn rpc_failure(error: Json) -> ErrorView {
    ErrorView {
        message: match error.get("message"@) {
            Some(Json::Text(message)) => message,
            _ => "RPC returned an error"@,
        },
        code: match error.get("code"@) {
            Some(code) => Some(code),
            None => Some(Json::Text("RPC_ERROR"@)),
        },
        status: None,
        body: error.get("data"@),
    }
}

/// The outcome of a request that was answered with a status and a body.
pub open spec fn reply_outcome(status: u16, parsed: Option<Json>, raw: Seq<u8>) -> Result<
    Json,
    ErrorView,
> {
    if status < 200 || status >= 300 {
        Err(
            http_failure(
                "RPC HTTP request failed with "@ + decimal_text(status as nat),
                Some(status),
                Some(body_json(parsed, raw)),
            ),
        )
    } else {
        match parsed {
            Some(reply) => match (reply.get("error"@), reply.get("result"@)) {
                (Some(error), _) if reports_error(error) => Err(rpc_failure(error)),
                (_, Some(result)) => Ok(result),
                _ => Ok(reply),
            },
            None => Ok(body_json(None, raw)),
        }
    }
}

/// The request that asks for the throttle controller.
pub open spec fn request_json(id: Seq<char>) -> Json {
    Json::Object(
        nothing()
            .insert("jsonrpc"@, Json::Text("2.0"@))
            .insert("id"@, Json::Text(id))
            .insert("method"@, Json::Text("admin_getThrottleController"@))
            .insert("params"@, Json::Array(Seq::empty())),
    )
}

/// The body of the request that asks for the throttle controller.
pub fn rpc_request(id: &str) -> (body: Value)
    ensures
        json_of(body) == request_json(id@),
{
    let no_params: Vec<Value> = Vec::new();
    assert(no_params@.map_values(|item: Value| json_of(item)) =~= Seq::<Json>::empty());
    let mut members = no_members();
    insert_member(&mut members, "jsonrpc", text_value("2.0".to_owned()));
    insert_member(&mut members, "id", text_value(id.to_owned()));
    insert_member(&mut members, "method", text_value("admin_getThrottleController".to_owned()));
    insert_member(&mut members, "params", array_value(no_params));
    object_value(members)
}

/// The error of a request that failed on the level of HTTP.
pub fn http_error(message: String, status: Option<u16>, body: Option<Value>) -> (error: ErrorInfo)
    ensures
        error@ == http_failure(message@, status, optional_json(body)),
{
    ErrorInfo { message, code: Some(text_value("RPC_HTTP_ERROR".to_owned())), status, body }
}

/// The error of a request that could not be sent, from the words of the HTTP client.
pub fn request_failed(reason: &str) -> (error: ErrorInfo)
    ensures
        error@ == http_failure("RPC request failed: "@ + reason@, None, None),
{
    http_error("RPC request failed: ".to_owned().concat(reason), None, None)
}

/// The error of a reply whose body could not be read, from the words of the HTTP client.
pub fn body_read_failed(reason: &str) -> (error: ErrorInfo)
    ensures
        error@ == http_failure("RPC body read failed: "@ + reason@, None, None),
{
    http_error("RPC body read failed: ".to_owned().concat(reason), None, None)
}

/// A body as JSON: what it was read as, or its text.
pub fn body_as_value(parsed: Option<&Value>, raw: &[u8]) -> (value: Value)
    ensures
        json_of(value) == body_json(
            match parsed {
                Some(v) => Some(json_of(*v)),
                None => None,
            },
            raw@,
        ),
{
    match parsed {
        Some(value) => copy_value(value),
        None => text_value(lossy_text(raw)),
    }
}

/// The error that an `error` member reports.
fn rpc_error(error_value: &Value) -> (error: ErrorInfo)
    ensures
        error@ == rpc_failure(json_of(*error_value)),
{
    let message = match member(error_value, "message") {
        Some(value) => match as_text(value) {
            Some(text) => text.to_owned(),
            None => "RPC returned an error".to_owned(),
        },
        None => "RPC returned an error".to_owned(),
    };
    let code = match member(error_value, "code") {
        Some(value) => copy_value(value),
        None => text_value("RPC_ERROR".to_owned()),
    };
    let body = match member(error_value, "data") {
        Some(value) => Some(copy_value(value)),
        None => None,
    };
    ErrorInfo { message, code: Some(code), status: None, body }
}

/// The outcome of a request that was answered with a status and a body, given what the
/// body was read as.
pub fn classify_reply(status: u16, parsed: Option<&Value>, raw: &[u8]) -> (outcome: Result<
    Value,
    ErrorInfo,
>)
    ensures
        outcome_view(outcome) == reply_outcome(
            status,
            match parsed {
                Some(v) => Some(json_of(*v)),
                None => None,
            },
            raw@,
        ),
{
    if status < 200 || status >= 300 {
        let message = "RPC HTTP request failed with ".to_owned().concat(
            decimal(status as u128).as_str(),
        );
        return Err(http_error(message, Some(status), Some(body_as_value(parsed, raw))));
    }
    if let Some(value) = parsed {
        if let Some(error_value) = member(value, "error") {
            if !is_null(error_value) && as_bool(error_value) != Some(false) {
                return Err(rpc_error(error_value));
            }
        }
        if let Some(result_value) = member(value, "result") {
            return Ok(copy_value(result_value));
        }
    }
    Ok(body_as_value(parsed, raw))
}

/// The outcome of a request that was answered with a status and a body.
pub fn read_reply(status: u16, body: &[u8]) -> (outcome: Result<Value, ErrorInfo>)
    ensures
        outcome_view(outcome) == reply_outcome(status, json_read(body@), body@),
{
    let parsed = read_value(body);
    match &parsed {
        Some(value) => classify_reply(status, Some(value), body),
        None => classify_reply(status, None, body),
    }
}

// ---------------------------------------------------------------------------
// What is recorded
// ---------------------------------------------------------------------------
/// The entry of a polled second.
pub open spec fn polled_entry(
    rpc_url: Seq<char>,
    epoch_second: int,
    collected_at: Seq<char>,
    outcome: Result<Json, ErrorView>,
    duration_ms: u128,
) -> EntryView {
    match outcome {
        Ok(result) => new_entry(
            rpc_url,
            epoch_second,
            collected_at,
            true,
            Some(result),
            None,
            duration_ms,
        ),
        Err(error) => new_entry(
            rpc_url,
            epoch_second,
            collected_at,
            false,
            None,
            Some(error),
            duration_ms,
        ),
    }
}

/// The state after a tick has ended with the outcome of its poll.
pub open spec fn ended(
    state: CollectorView,
    rpc_url: Seq<char>,
    now: i64,
    collected_at: Seq<char>,
    outcome: Result<Json, ErrorView>,
    duration_ms: u128,
) -> CollectorView {
    let entry = polled_entry(rpc_url, now as int, collected_at, outcome, duration_ms);
    with_collecting(state.record(now, entry), false)
}

/// Ends a tick: records the outcome of the poll, collected at the second `collected_at`,
/// and gives the state free.
pub fn finish_at(
    rpc_url: &str,
    state: &mut CollectorState,
    current_second: i64,
    collected_at: String,
    outcome: Result<Value, ErrorInfo>,
    duration_ms: u128,
)
    requires
        nameable(current_second as int),
    ensures
        final(state)@ == ended(
            old(state)@,
            rpc_url@,
            current_second,
            collected_at@,
            outcome_view(outcome),
            duration_ms,
        ),
        old(state)@.wf() ==> final(state)@.wf(),
{
    match outcome {
        Ok(result) => {
            record_at(
                rpc_url,
                state,
                current_second,
                collected_at,
                true,
                Some(result),
                None,
                duration_ms,
            );
        },
        Err(error) => {
            record_at(
                rpc_url,
                state,
                current_second,
                collected_at,
                false,
                None,
                Some(error),
                duration_ms,
            );
        },
    }
    state.collecting = false;
}

/// Ends a tick: records the outcome of the poll, collected now, and gives the state free.
/// Nothing is done exactly while the clock shows a year past 9999.
pub fn finish_collection(
    rpc_url: &str,
    state: &mut CollectorState,
    current_second: i64,
    outcome: Result<Value, ErrorInfo>,
    duration_ms: u128,
) -> (finished: bool)
    requires
        nameable(current_second as int),
    ensures
        exists|time: SystemTime|
            match #[trigger] stamp_at(time) {
                Some(collected_at) => finished && final(state)@ == ended(
                    old(state)@,
                    rpc_url@,
                    current_second,
                    collected_at,
                    outcome_view(outcome),
                    duration_ms,
                ),
                None => !finished && *final(state) == *old(state),
            },
        old(state)@.wf() ==> final(state)@.wf(),
{
    match now_iso_second() {
        Some(collected_at) => {
            finish_at(rpc_url, state, current_second, collected_at, outcome, duration_ms);
            true
        },
        None => false,
    }
}

// ---------------------------------------------------------------------------
// What the task reports
// ---------------------------------------------------------------------------
/// What is reported of a successful poll.
pub open spec fn poll_report(second: Seq<char>, duration_ms: u128, rpc_url: Seq<char>) -> Json {
    Json::Object(
        nothing()
            .insert("second"@, Json::Text(second))
            .insert("durationMs"@, Json::Text(decimal_text(duration_ms as nat)))
            .insert("rpcUrl"@, Json::Text(rpc_url)),
    )
}

/// What is reported of a tick that failed.
pub open spec fn failure_report(message: Seq<char>) -> Json {
    Json::Object(nothing().insert("message"@, Json::Text(message)))
}

/// The line that reports a successful poll.
pub fn response_ok_line(second: &str, duration_ms: u128, rpc_url: &str) -> (line: String)
    ensures
        line@ == "batcher response ok "@ + printed(poll_report(second@, duration_ms, rpc_url@)),
{
    let mut members = no_members();
    insert_member(&mut members, "second", text_value(second.to_owned()));
    insert_member(&mut members, "durationMs", text_value(decimal(duration_ms)));
    insert_member(&mut members, "rpcUrl", text_value(rpc_url.to_owned()));
    "batcher response ok ".to_owned().concat(value_text(&object_value(members)).as_str())
}

/// The line that reports a tick that failed.
pub fn tick_failed_line(message: &str) -> (line: String)
    ensures
        line@ == "collector tick failed "@ + printed(failure_report(message@)),
{
    let mut members = no_members();
    insert_member(&mut members, "message", text_value(message.to_owned()));
    "collector tick failed ".to_owned().concat(value_text(&object_value(members)).as_str())
}

} // verus!
