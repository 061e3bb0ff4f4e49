//! What is retained of a second, and how it is told apart from the rest.
use crate::calendar::second_text;
use crate::json::{json_of, Json};
use crate::model::{
    find, lemma_find_bounds, lemma_find_is, new_entry, set_drops_only_the_oldest,
    set_entry_is_read_back, CollectorState, CollectorView, EntryView, ErrorInfo, ErrorView,
    HistoryEntry, HistoryView,
};
use crate::numeral::decimal_text;
use crate::scraper::{ended, outcome_view};
use serde_json::Value;
use vstd::prelude::*;
use vstd::string::*;

verus! {

// ---------------------------------------------------------------------------
// The outcome of a poll
// ---------------------------------------------------------------------------
/// A poll that succeeded is retained as such: ok, with its result and no error.
pub proof fn success_is_retained_as_success(
    state: CollectorView,
    rpc_url: Seq<char>,
    now: i64,
    collected_at: Seq<char>,
    result: Json,
    duration_ms: u128,
)
    requires
        state.wf(),
    ensures
        ({
            let outcome: Result<Json, ErrorView> = Ok(result);
            let after = ended(state, rpc_url, now, collected_at, outcome, duration_ms).history;
            &&& after.get(second_text(now as int)) is Some
            &&& after.get(second_text(now as int))->0.second == second_text(now as int)
            &&& after.get(second_text(now as int))->0.collected_at == collected_at
            &&& after.get(second_text(now as int))->0.rpc_url == rpc_url
            &&& after.get(second_text(now as int))->0.duration_ms == duration_ms
            &&& after.get(second_text(now as int))->0.ok
            &&& after.get(second_text(now as int))->0.result == Some(result)
            &&& after.get(second_text(now as int))->0.error is None
            &&& after.latest_key() == Some(second_text(now as int))
        }),
{
    let outcome: Result<Json, ErrorView> = Ok(result);
    let after = ended(state, rpc_url, now, collected_at, outcome, duration_ms).history;
    set_entry_is_read_back(
        state.history,
        new_entry(rpc_url, now as int, collected_at, true, Some(result), None, duration_ms),
    );
}

/// A poll that failed is retained as such, whatever the failure: not ok, with its error, field
/// by field, and no result.
pub proof fn failure_is_retained_as_failure(
    state: CollectorView,
    rpc_url: Seq<char>,
    now: i64,
    collected_at: Seq<char>,
    error: ErrorView,
    duration_ms: u128,
)
    requires
        state.wf(),
    ensures
        ({
            let outcome: Result<Json, ErrorView> = Err(error);
            let after = ended(state, rpc_url, now, collected_at, outcome, duration_ms).history;
            &&& after.get(second_text(now as int)) is Some
            &&& after.get(second_text(now as int))->0.second == second_text(now as int)
            &&& after.get(second_text(now as int))->0.collected_at == collected_at
            &&& after.get(second_text(now as int))->0.rpc_url == rpc_url
            &&& after.get(second_text(now as int))->0.duration_ms == duration_ms
            &&& !after.get(second_text(now as int))->0.ok
            &&& after.get(second_text(now as int))->0.result is None
            &&& after.get(second_text(now as int))->0.error is Some
            &&& after.get(second_text(now as int))->0.error->0.message == error.message
            &&& after.get(second_text(now as int))->0.error->0.code == error.code
            &&& after.get(second_text(now as int))->0.error->0.status == error.status
            &&& after.get(second_text(now as int))->0.error->0.body == error.body
            &&& after.latest_key() == Some(second_text(now as int))
        }),
{
    let outcome: Result<Json, ErrorView> = Err(error);
    set_entry_is_read_back(
        state.history,
        new_entry(rpc_url, now as int, collected_at, false, None, Some(error), duration_ms),
    );
}

/// The end of a tick concerns the entry of its second alone: every other second is found as it
/// was, but for the oldest one of a full history to which a second is added.
pub proof fn end_of_a_tick_leaves_other_seconds(
    state: CollectorView,
    rpc_url: Seq<char>,
    now: i64,
    collected_at: Seq<char>,
    outcome: Result<Json, ErrorView>,
    duration_ms: u128,
    second: Seq<char>,
)
    requires
        state.wf(),
        second != second_text(now as int),
    ensures
        ({
            let after = ended(state, rpc_url, now, collected_at, outcome, duration_ms).history;
            ||| after.get(second) == state.history.get(second)
            ||| after.get(second) is None && state.history.entries.len() == state.history.limit
                && state.history.get(second_text(now as int)) is None
                && state.history.entries[0].second == second
        }),
{
    let entry = match outcome {
        Ok(result) => new_entry(
            rpc_url,
            now as int,
            collected_at,
            true,
            Some(result),
            None,
            duration_ms,
        ),
        Err(error) => new_entry(
            rpc_url,
            now as int,
            collected_at,
            false,
            None,
            Some(error),
            duration_ms,
        ),
    };
    set_drops_only_the_oldest(state.history, entry, second);
}

/// The end of a tick gives the claim up, makes its second the latest, and keeps the room and
/// the time of the start.
pub proof fn end_of_a_tick_frees_the_state(
    state: CollectorView,
    rpc_url: Seq<char>,
    now: i64,
    collected_at: Seq<char>,
    outcome: Result<Json, ErrorView>,
    duration_ms: u128,
)
    ensures
        ({
            let after = ended(state, rpc_url, now, collected_at, outcome, duration_ms);
            &&& !after.collecting
            &&& after.latest_epoch_second == Some(now)
            &&& after.started_at == state.started_at
            &&& after.history.limit == state.history.limit
        }),
{
}

/// What is recorded of a second is what was given, field by field; the rest of the state stays.
pub proof fn record_holds_what_was_given(
    state: CollectorView,
    epoch_second: i64,
    rpc_url: Seq<char>,
    collected_at: Seq<char>,
    ok: bool,
    result: Option<Json>,
    error: Option<ErrorView>,
    duration_ms: u128,
)
    requires
        state.wf(),
    ensures
        ({
            let entry = new_entry(
                rpc_url,
                epoch_second as int,
                collected_at,
                ok,
                result,
                error,
                duration_ms,
            );
            let after = state.record(epoch_second, entry);
            let second = second_text(epoch_second as int);
            &&& after.history.get(second) is Some
            &&& after.history.get(second)->0.second == second
            &&& after.history.get(second)->0.collected_at == collected_at
            &&& after.history.get(second)->0.rpc_url == rpc_url
            &&& after.history.get(second)->0.duration_ms == duration_ms
            &&& after.history.get(second)->0.ok == ok
            &&& after.history.get(second)->0.result == result
            &&& after.history.get(second)->0.error == error
            &&& after.latest_epoch_second == Some(epoch_second)
            &&& after.collecting == state.collecting
            &&& after.started_at == state.started_at
            &&& after.history.limit == state.history.limit
        }),
{
    let entry = new_entry(
        rpc_url,
        epoch_second as int,
        collected_at,
        ok,
        result,
        error,
        duration_ms,
    );
    set_entry_is_read_back(state.history, entry);
}

// ---------------------------------------------------------------------------
// The history
// ---------------------------------------------------------------------------
/// An entry that is retained is found under its second.
pub proof fn retained_entry_is_found(store: HistoryView, i: int)
    requires
        store.wf(),
        0 <= i < store.entries.len(),
    ensures
        store.get(store.entries[i].second) == Some(store.entries[i]),
{
    lemma_find_is(store.entries, store.entries[i].second, i);
}

/// What is found under a second is a retained entry of that second; a second is not found
/// exactly where no entry is of it.
pub proof fn found_entry_is_retained(store: HistoryView, second: Seq<char>)
    ensures
        store.get(second) is None <==> forall|i: int|
            0 <= i < store.entries.len() ==> (#[trigger] store.entries[i]).second != second,
        store.get(second) is Some ==> store.get(second)->0.second == second && store.entries.contains(
            store.get(second)->0,
        ),
{
    lemma_find_bounds(store.entries, second);
    let at = find(store.entries, second);
    if at < store.entries.len() {
        assert(store.entries[at].second == second);
        assert(store.entries.contains(store.entries[at]));
    }
}

/// A new second is appended while there is room.
pub proof fn new_second_is_appended(store: HistoryView, entry: EntryView)
    requires
        store.wf(),
        store.entries.len() < store.limit,
        forall|i: int|
            0 <= i < store.entries.len() ==> (#[trigger] store.entries[i]).second != entry.second,
    ensures
        store.set(entry).entries == store.entries.push(entry),
        store.set(entry).limit == store.limit,
{
    lemma_find_is(store.entries, entry.second, store.entries.len() as int);
}

/// A new second takes the room of the oldest one where there is no other.
pub proof fn new_second_replaces_the_oldest(store: HistoryView, entry: EntryView)
    requires
        store.wf(),
        store.entries.len() == store.limit,
        forall|i: int|
            0 <= i < store.entries.len() ==> (#[trigger] store.entries[i]).second != entry.second,
    ensures
        store.set(entry).entries == store.entries.skip(1).push(entry),
        store.set(entry).limit == store.limit,
{
    lemma_find_is(store.entries, entry.second, store.entries.len() as int);
    assert(store.entries.push(entry).skip(1) =~= store.entries.skip(1).push(entry));
}

/// A second that is retained already is replaced, and moves to the end.
pub proof fn known_second_is_replaced(store: HistoryView, entry: EntryView, at: int)
    requires
        store.wf(),
        0 <= at < store.entries.len(),
        store.entries[at].second == entry.second,
    ensures
        store.set(entry).entries == store.entries.remove(at).push(entry),
        store.set(entry).limit == store.limit,
{
    lemma_find_is(store.entries, entry.second, at);
}

/// The oldest key is that of the first entry, the latest key that of the last one.
pub proof fn keys_are_those_of_the_ends(store: HistoryView)
    ensures
        store.entries.len() == 0 ==> store.oldest_key() is None && store.latest_key() is None,
        store.entries.len() > 0 ==> store.oldest_key() == Some(store.entries[0].second)
            && store.latest_key() == Some(store.entries[store.entries.len() - 1].second),
{
}

/// A history is well formed where it has room, holds no more than there is room for, and holds
/// no second twice.
pub proof fn history_holds_each_second_once(store: HistoryView)
    ensures
        store.wf() <==> 1 <= store.limit && store.entries.len() <= store.limit && forall|
            i: int,
            j: int,
        |
            0 <= i < store.entries.len() && 0 <= j < store.entries.len() && (
            #[trigger] store.entries[i]).second == (#[trigger] store.entries[j]).second ==> i == j,
{
}

/// A state is well formed where its history is and its latest second lies in the years -9999
/// to 9999.
pub proof fn state_names_its_latest_second(state: CollectorView)
    ensures
        state.wf() <==> state.history.wf() && match state.latest_epoch_second {
            Some(latest) => -377_705_116_800 <= latest <= 253_402_300_799,
            None => true,
        },
{
}

// ---------------------------------------------------------------------------
// JSON values
// ---------------------------------------------------------------------------
/// The JSON value of an error: its message, and each other member exactly where it is known.
pub proof fn error_value_has_its_members(error: ErrorView, key: Seq<char>)
    ensures
        error.json().get("message"@) == Some(Json::Text(error.message)),
        error.json().get("code"@) == error.code,
        error.json().get("status"@) == (match error.status {
            Some(status) => Some(Json::Number(decimal_text(status as nat))),
            None => None,
        }),
        error.json().get("body"@) == error.body,
        error.json().get(key) is Some ==> key == "message"@ || key == "code"@ || key == "status"@
            || key == "body"@,
{
    reveal_strlit("message");
    reveal_strlit("code");
    reveal_strlit("status");
    reveal_strlit("body");
    assert("message"@.len() == 7 && "code"@.len() == 4 && "status"@.len() == 6 && "body"@.len()
        == 4);
    assert("code"@[0] == 'c' && "body"@[0] == 'b');
}

/// The JSON value of an entry: the envelope, then the result or the error, and nothing else.
pub proof fn entry_value_has_its_members(entry: EntryView, key: Seq<char>)
    ensures
        entry.json().get("second"@) == Some(Json::Text(entry.second)),
        entry.json().get("collectedAt"@) == Some(Json::Text(entry.collected_at)),
        entry.json().get("rpcUrl"@) == Some(Json::Text(entry.rpc_url)),
        entry.json().get("durationMs"@) == Some(
            Json::Text(decimal_text(entry.duration_ms as nat)),
        ),
        entry.json().get("ok"@) == Some(Json::Bool(entry.ok)),
        entry.ok && entry.result is Some ==> entry.json().get("result"@) == entry.result,
        entry.ok && entry.result is None ==> entry.json().get("result"@) == Some(Json::Null),
        entry.ok ==> entry.json().get("error"@) is None,
        !entry.ok && entry.error is Some ==> entry.json().get("error"@) == Some(
            entry.error->0.json(),
        ),
        !entry.ok && entry.error is None ==> entry.json().get("error"@) is Some
            && entry.json().get("error"@)->0.get("message"@) == Some(Json::Text("Unknown error"@)),
        !entry.ok && entry.error is None && entry.json().get("error"@)->0.get(key) is Some ==> key
            == "message"@,
        !entry.ok ==> entry.json().get("result"@) is None,
        entry.json().get(key) is Some ==> key == "second"@ || key == "collectedAt"@ || key
            == "rpcUrl"@ || key == "durationMs"@ || key == "ok"@ || key == "result"@ || key
            == "error"@,
{
    reveal_strlit("second");
    reveal_strlit("collectedAt");
    reveal_strlit("rpcUrl");
    reveal_strlit("durationMs");
    reveal_strlit("ok");
    reveal_strlit("result");
    reveal_strlit("error");
    assert("ok"@.len() == 2 && "error"@.len() == 5 && "second"@.len() == 6 && "result"@.len() == 6
        && "rpcUrl"@.len() == 6 && "collectedAt"@.len() == 11 && "durationMs"@.len() == 10);
    assert("second"@[0] == 's' && "result"@[0] == 'r' && "rpcUrl"@[0] == 'r');
    assert("result"@[1] == 'e' && "rpcUrl"@[1] == 'p');
}

// ---------------------------------------------------------------------------
// The models
// ---------------------------------------------------------------------------
/// The model of an error holds each of its fields.
pub proof fn error_model_holds_every_field(error: ErrorInfo)
    ensures
        error@.message == error.message@,
        error.code is Some ==> error@.code == Some(json_of(error.code->0)),
        error.code is None ==> error@.code is None,
        error@.status == error.status,
        error.body is Some ==> error@.body == Some(json_of(error.body->0)),
        error.body is None ==> error@.body is None,
{
}

/// The model of an entry holds each of its fields.
pub proof fn entry_model_holds_every_field(entry: HistoryEntry)
    ensures
        entry@.second == entry.second@,
        entry@.collected_at == entry.collected_at@,
        entry@.rpc_url == entry.rpc_url@,
        entry@.duration_ms == entry.duration_ms,
        entry@.ok == entry.ok,
        entry.result is Some ==> entry@.result == Some(json_of(entry.result->0)),
        entry.result is None ==> entry@.result is None,
        entry.error is Some ==> entry@.error == Some(entry.error->0@),
        entry.error is None ==> entry@.error is None,
{
}

/// The model of a state holds each of its fields and every entry of its history, in order.
pub proof fn state_model_holds_every_field(state: CollectorState, i: int)
    ensures
        state@.history.limit == state.history.limit,
        state@.history.entries.len() == state.history.entries@.len(),
        0 <= i < state.history.entries@.len() ==> state@.history.entries[i]
            == state.history.entries@[i]@,
        state@.latest_epoch_second == state.latest_epoch_second,
        state@.collecting == state.collecting,
        state@.started_at == state.started_at@,
{
}

/// The model of an outcome is its result, or its error.
pub proof fn outcome_model_keeps_the_outcome(value: Value, error: ErrorInfo)
    ensures
        outcome_view(Ok(value)) == Ok::<Json, ErrorView>(json_of(value)),
        outcome_view(Err(error)) == Err::<Json, ErrorView>(error@),
{
}

// ---------------------------------------------------------------------------
// Any history, well formed or not
// ---------------------------------------------------------------------------
/// Recording sets the entry of the second, and the end of a tick that of the poll, whatever
/// the history holds.
pub proof fn recording_sets_one_entry(
    state: CollectorView,
    epoch_second: i64,
    entry: EntryView,
    rpc_url: Seq<char>,
    collected_at: Seq<char>,
    outcome: Result<Json, ErrorView>,
    duration_ms: u128,
)
    ensures
        state.record(epoch_second, entry).history == state.history.set(entry),
        ended(state, rpc_url, epoch_second, collected_at, outcome, duration_ms).history
            == state.history.set(
            EntryView {
                second: second_text(epoch_second as int),
                collected_at,
                rpc_url,
                duration_ms,
                ok: outcome is Ok,
                result: match outcome {
                    Ok(result) => Some(result),
                    Err(_) => None,
                },
                error: match outcome {
                    Ok(_) => None,
                    Err(error) => Some(error),
                },
            },
        ),
{
}

/// Setting an entry takes the first one of its second out, if there is one, appends the new
/// one, and keeps as many of the last ones as there is room for.
pub proof fn setting_keeps_the_last_entries(store: HistoryView, entry: EntryView, at: int)
    requires
        0 <= at <= store.entries.len(),
        forall|i: int| 0 <= i < at ==> (#[trigger] store.entries[i]).second != entry.second,
        at < store.entries.len() ==> store.entries[at].second == entry.second,
    ensures
        ({
            let all = if at < store.entries.len() {
                store.entries.remove(at).push(entry)
            } else {
                store.entries.push(entry)
            };
            let after = store.set(entry).entries;
            &&& after.len() == if all.len() <= store.limit {
                all.len() as int
            } else {
                store.limit as int
            }
            &&& forall|i: int|
                0 <= i < after.len() ==> #[trigger] after[i] == all[all.len() - after.len() + i]
        }),
        store.set(entry).limit == store.limit,
{
    lemma_find_is(store.entries, entry.second, at);
}

/// What is found under a second is the first entry of it.
pub proof fn first_entry_of_a_second_is_found(store: HistoryView, second: Seq<char>, at: int)
    requires
        0 <= at < store.entries.len(),
        forall|i: int| 0 <= i < at ==> (#[trigger] store.entries[i]).second != second,
        store.entries[at].second == second,
    ensures
        store.get(second) == Some(store.entries[at]),
{
    lemma_find_is(store.entries, second, at);
}

} // verus!
