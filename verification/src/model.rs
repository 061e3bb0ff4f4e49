//! What the collector retains: one entry per second, the newest of them, and the
//! state of the polling task.
use crate::calendar::{nameable, second_text};
use crate::clock::{now_iso_second, second_key, stamp_at};
use crate::json::{
    bool_value, copy_value, insert_member, json_of, no_members, nothing, null_value, number_value,
    object_value, optional_json, text_value, Json,
};
use crate::numeral::{decimal, decimal_text};
use crate::text::same_text;
use serde_json::Value;
use std::collections::VecDeque;
use std::time::SystemTime;
use vstd::prelude::*;
use vstd::string::*;

verus! {

// ---------------------------------------------------------------------------
// Types and their models
// ---------------------------------------------------------------------------
/// Why a second has no result.
#[derive(Clone, Debug)]
pub struct ErrorInfo {
    pub message: String,
    pub code: Option<Value>,
    pub status: Option<u16>,
    pub body: Option<Value>,
}

/// What is known of one second.
#[derive(Clone, Debug)]
pub struct HistoryEntry {
    pub second: String,
    pub collected_at: String,
    pub rpc_url: String,
    pub duration_ms: u128,
    pub ok: bool,
    pub result: Option<Value>,
    pub error: Option<ErrorInfo>,
}

/// The newest entries, oldest first.
#[derive(Debug)]
pub struct HistoryStore {
    pub limit: usize,
    pub entries: VecDeque<HistoryEntry>,
}

/// The state that the polling task and the HTTP API share.
#[derive(Debug)]
pub struct CollectorState {
    pub history: HistoryStore,
    pub latest_epoch_second: Option<i64>,
    pub collecting: bool,
    pub started_at: String,
}

/// The model of an `ErrorInfo`.
pub struct ErrorView {
    pub message: Seq<char>,
    pub code: Option<Json>,
    pub status: Option<u16>,
    pub body: Option<Json>,
}

/// The model of a `HistoryEntry`.
pub struct EntryView {
    pub second: Seq<char>,
    pub collected_at: Seq<char>,
    pub rpc_url: Seq<char>,
    pub duration_ms: u128,
    pub ok: bool,
    pub result: Option<Json>,
    pub error: Option<ErrorView>,
}

/// The model of a `HistoryStore`.
#[verifier::ext_equal]
pub struct HistoryView {
    pub limit: usize,
    pub entries: Seq<EntryView>,
}

/// The model of a `CollectorState`.
#[verifier::ext_equal]
pub struct CollectorView {
    pub history: HistoryView,
    pub latest_epoch_second: Option<i64>,
    pub collecting: bool,
    pub started_at: Seq<char>,
}

impl View for ErrorInfo {
    type V = ErrorView;

    open spec fn view(&self) -> ErrorView {
        ErrorView {
            message: self.message@,
            code: optional_json(self.code),
            status: self.status,
            body: optional_json(self.body),
        }
    }
}

/// The model of an optional error.
pub open spec fn optional_error(error: Option<ErrorInfo>) -> Option<ErrorView> {
    match error {
        Some(info) => Some(info@),
        None => None,
    }
}

impl View for HistoryEntry {
    type V = EntryView;

    open spec fn view(&self) -> EntryView {
        EntryView {
            second: self.second@,
            collected_at: self.collected_at@,
            rpc_url: self.rpc_url@,
            duration_ms: self.duration_ms,
            ok: self.ok,
            result: optional_json(self.result),
            error: optional_error(self.error),
        }
    }
}

/// The models of a sequence of entries.
pub open spec fn entry_views(entries: Seq<HistoryEntry>) -> Seq<EntryView> {
    Seq::new(entries.len(), |i: int| entries[i]@)
}

impl View for HistoryStore {
    type V = HistoryView;

    open spec fn view(&self) -> HistoryView {
        HistoryView { limit: self.limit, entries: entry_views(self.entries@) }
    }
}

impl View for CollectorState {
    type V = CollectorView;

    open spec fn view(&self) -> CollectorView {
        CollectorView {
            history: self.history@,
            latest_epoch_second: self.latest_epoch_second,
            collecting: self.collecting,
            started_at: self.started_at@,
        }
    }
}

// ---------------------------------------------------------------------------
// What the operations do to the models
// ---------------------------------------------------------------------------
/// The position of the first entry of a second, or the number of entries where there is none.
pub open spec fn find(entries: Seq<EntryView>, second: Seq<char>) -> int
    decreases entries.len(),
{
    if entries.len() == 0 || entries[0].second == second {
        0
    } else {
        1 + find(entries.drop_first(), second)
    }
}

/// The last `limit` entries.
pub open spec fn newest(entries: Seq<EntryView>, limit: usize) -> Seq<EntryView> {
    if entries.len() <= limit {
        entries
    } else {
        entries.skip(entries.len() - limit)
    }
}

/// Whether no two entries are of the same second.
pub open spec fn distinct_seconds(entries: Seq<EntryView>) -> bool {
    forall|i: int, j: int|
        0 <= i < j < entries.len() ==> (#[trigger] entries[i]).second != (#[trigger] entries[j]).second
}

impl HistoryView {
    /// The invariant of a store: it has room for an entry, holds no more than it has room
    /// for, and holds one entry per second.
    pub open spec fn wf(self) -> bool {
        &&& self.limit >= 1
        &&& self.entries.len() <= self.limit
        &&& distinct_seconds(self.entries)
    }

    /// The entry of a second.
    pub open spec fn get(self, second: Seq<char>) -> Option<EntryView> {
        let at = find(self.entries, second);
        if at < self.entries.len() {
            Some(self.entries[at])
        } else {
            None
        }
    }

    /// The entries without that of a second.
    pub open spec fn without(self, second: Seq<char>) -> Seq<EntryView> {
        let at = find(self.entries, second);
        if at < self.entries.len() {
            self.entries.remove(at)
        } else {
            self.entries
        }
    }

    /// The store after an entry has become the newest, in place of any other of its second.
    pub open spec fn set(self, entry: EntryView) -> HistoryView {
        HistoryView {
            limit: self.limit,
            entries: newest(self.without(entry.second).push(entry), self.limit),
        }
    }

    /// The key of the oldest entry.
    pub open spec fn oldest_key(self) -> Option<Seq<char>> {
        if self.entries.len() > 0 {
            Some(self.entries[0].second)
        } else {
            None
        }
    }

    /// The key of the newest entry.
    pub open spec fn latest_key(self) -> Option<Seq<char>> {
        if self.entries.len() > 0 {
            Some(self.entries.last().second)
        } else {
            None
        }
    }
}

impl CollectorView {
    /// Whether the latest second, if any, has a name.
    pub open spec fn latest_is_named(self) -> bool {
        self.latest_epoch_second matches Some(latest) ==> nameable(latest as int)
    }

    /// The invariant of the state: that of its store, and the latest second has a name.
    pub open spec fn wf(self) -> bool {
        &&& self.history.wf()
        &&& self.latest_is_named()
    }

    /// The state after an entry for `epoch_second` has been recorded.
    pub open spec fn record(self, epoch_second: i64, entry: EntryView) -> CollectorView {
        CollectorView {
            history: self.history.set(entry),
            latest_epoch_second: Some(epoch_second),
            ..self
        }
    }
}

/// The members of an object and one more, if there is one.
pub open spec fn with_member(
    members: Map<Seq<char>, Json>,
    key: Seq<char>,
    value: Option<Json>,
) -> Map<Seq<char>, Json> {
    match value {
        Some(json) => members.insert(key, json),
        None => members,
    }
}

/// A status as a JSON number.
pub open spec fn status_json(status: Option<u16>) -> Option<Json> {
    match status {
        Some(code) => Some(Json::Number(decimal_text(code as nat))),
        None => None,
    }
}

impl ErrorView {
    /// The error as a JSON object: its message, and what else is known.
    pub open spec fn json(self) -> Json {
        let message = nothing().insert("message"@, Json::Text(self.message));
        let code = with_member(message, "code"@, self.code);
        let status = with_member(code, "status"@, status_json(self.status));
        Json::Object(with_member(status, "body"@, self.body))
    }
}

/// The error object of an entry that failed without saying why.
pub open spec fn unknown_error() -> Json {
    Json::Object(nothing().insert("message"@, Json::Text("Unknown error"@)))
}

impl EntryView {
    /// What stands under `result`: the result, or null.
    pub open spec fn result_json(self) -> Json {
        match self.result {
            Some(json) => json,
            None => Json::Null,
        }
    }

    /// What stands under `error`: the error as an object.
    pub open spec fn error_json(self) -> Json {
        match self.error {
            Some(error) => error.json(),
            None => unknown_error(),
        }
    }

    /// The entry as a JSON object: the envelope, and the result or the error.
    pub open spec fn json(self) -> Json {
        let envelope = nothing()
            .insert("second"@, Json::Text(self.second))
            .insert("collectedAt"@, Json::Text(self.collected_at))
            .insert("rpcUrl"@, Json::Text(self.rpc_url))
            .insert("durationMs"@, Json::Text(decimal_text(self.duration_ms as nat)))
            .insert("ok"@, Json::Bool(self.ok));
        Json::Object(
            if self.ok {
                envelope.insert("result"@, self.result_json())
            } else {
                envelope.insert("error"@, self.error_json())
            },
        )
    }
}

// ---------------------------------------------------------------------------
// Lemmas
// ---------------------------------------------------------------------------
/// `find` is the only position at which a second occurs for the first time.
pub proof fn lemma_find_is(entries: Seq<EntryView>, second: Seq<char>, at: int)
    requires
        0 <= at <= entries.len(),
        forall|i: int| 0 <= i < at ==> (#[trigger] entries[i]).second != second,
        at < entries.len() ==> entries[at].second == second,
    ensures
        find(entries, second) == at,
    decreases entries.len(),
{
    if at > 0 {
        let rest = entries.drop_first();
        assert(entries[0].second != second);
        assert forall|i: int| 0 <= i < at - 1 implies (#[trigger] rest[i]).second != second by {
            assert(rest[i] == entries[i + 1]);
        }
        lemma_find_is(rest, second, at - 1);
    }
}

/// What `find` finds.
pub proof fn lemma_find_bounds(entries: Seq<EntryView>, second: Seq<char>)
    ensures
        0 <= find(entries, second) <= entries.len(),
        forall|i: int|
            0 <= i < find(entries, second) ==> (#[trigger] entries[i]).second != second,
        find(entries, second) < entries.len() ==> entries[find(entries, second)].second == second,
    decreases entries.len(),
{
    if entries.len() > 0 && entries[0].second != second {
        let rest = entries.drop_first();
        lemma_find_bounds(rest, second);
        assert forall|i: int| 0 <= i < find(entries, second) implies (
        #[trigger] entries[i]).second != second by {
            if i > 0 {
                assert(entries[i] == rest[i - 1]);
            }
        }
        if find(entries, second) < entries.len() {
            assert(entries[find(entries, second)] == rest[find(rest, second)]);
        }
    }
}

/// Setting an entry keeps a store's invariant.
pub proof fn set_keeps_invariant(store: HistoryView, entry: EntryView)
    requires
        store.wf(),
    ensures
        store.set(entry).wf(),
{
    lemma_find_bounds(store.entries, entry.second);
    let kept = store.without(entry.second);
    assert forall|i: int| 0 <= i < kept.len() implies (#[trigger] kept[i]).second
        != entry.second by {
        let at = find(store.entries, entry.second);
        if at < store.entries.len() {
            assert(store.entries[at].second == entry.second);
            if i >= at {
                assert(kept[i] == store.entries[i + 1]);
            } else {
                assert(kept[i] == store.entries[i]);
            }
        }
    }
    assert(distinct_seconds(kept)) by {
        assert forall|i: int, j: int| 0 <= i < j < kept.len() implies (#[trigger] kept[i]).second
            != (#[trigger] kept[j]).second by {
            let at = find(store.entries, entry.second);
            let a = if at < store.entries.len() && i >= at {
                i + 1
            } else {
                i
            };
            let b = if at < store.entries.len() && j >= at {
                j + 1
            } else {
                j
            };
            assert(kept[i] == store.entries[a] && kept[j] == store.entries[b]);
        }
    }
    let all = kept.push(entry);
    assert(distinct_seconds(all));
    let after = store.set(entry).entries;
    if all.len() > store.limit {
        assert forall|i: int, j: int| 0 <= i < j < after.len() implies (#[trigger] after[i]).second
            != (#[trigger] after[j]).second by {
            let dropped = all.len() - store.limit;
            assert(after[i] == all[i + dropped] && after[j] == all[j + dropped]);
        }
    }
}

/// What has been set is what is read, and it is the newest entry.
pub proof fn set_entry_is_read_back(store: HistoryView, entry: EntryView)
    requires
        store.wf(),
    ensures
        store.set(entry).get(entry.second) == Some(entry),
        store.set(entry).latest_key() == Some(entry.second),
{
    set_keeps_invariant(store, entry);
    let after = store.set(entry).entries;
    let last = after.len() - 1;
    assert(after[last] == entry);
    lemma_find_is(after, entry.second, last);
}

/// Setting an entry leaves every other second as it was, but for the oldest one of a full
/// store to which a new second is added: that one is dropped.
pub proof fn set_drops_only_the_oldest(store: HistoryView, entry: EntryView, second: Seq<char>)
    requires
        store.wf(),
        second != entry.second,
    ensures
        store.set(entry).get(second) == (if store.entries.len() == store.limit && store.get(
            entry.second,
        ) is None && store.oldest_key() == Some(second) {
            None
        } else {
            store.get(second)
        }),
{
    let kept = store.without(entry.second);
    let all = kept.push(entry);
    let after = store.set(entry).entries;
    let removed = find(store.entries, entry.second);
    let at = find(store.entries, second);
    lemma_find_bounds(store.entries, entry.second);
    lemma_find_bounds(store.entries, second);
    let dropped: int = if all.len() > store.limit {
        all.len() - store.limit
    } else {
        0
    };
    assert(dropped > 0 ==> dropped == 1 && removed == store.entries.len());
    assert forall|i: int| 0 <= i < after.len() implies #[trigger] after[i] == all[i + dropped] by {
    }
    let kept_at = if at < store.entries.len() && removed < at {
        at - 1
    } else if at < store.entries.len() {
        at
    } else {
        kept.len() as int
    };
    assert forall|i: int| 0 <= i < kept.len() && i != kept_at implies (#[trigger] kept[i]).second
        != second by {
        let original = if removed < store.entries.len() && i >= removed {
            i + 1
        } else {
            i
        };
        assert(kept[i] == store.entries[original]);
        if at < store.entries.len() {
            assert(store.entries[at].second == second);
        }
    }
    if at < store.entries.len() && kept_at >= dropped {
        assert(kept[kept_at] == store.entries[at]);
        assert(after[kept_at - dropped] == kept[kept_at]);
        assert forall|i: int| 0 <= i < kept_at - dropped implies (#[trigger] after[i]).second
            != second by {
            assert(after[i] == kept[i + dropped]);
        }
        lemma_find_is(after, second, kept_at - dropped);
    } else {
        assert forall|i: int| 0 <= i < after.len() implies (#[trigger] after[i]).second != second by {
            assert(after[i] == all[i + dropped]);
            if i + dropped < kept.len() {
                assert(all[i + dropped] == kept[i + dropped]);
            }
        }
        lemma_find_is(after, second, after.len() as int);
    }
}

/// An entry carries its result and no error, or its error and no result.
pub proof fn entry_carries_result_or_error(entry: EntryView)
    ensures
        entry.json().get("ok"@) == Some(Json::Bool(entry.ok)),
        entry.json().get("second"@) == Some(Json::Text(entry.second)),
        entry.ok ==> entry.json().get("result"@) == Some(entry.result_json()) && entry.json().get(
            "error"@,
        ) is None,
        !entry.ok ==> entry.json().get("error"@) == Some(entry.error_json()) && entry.json().get(
            "result"@,
        ) is None,
{
    reveal_strlit("second");
    reveal_strlit("collectedAt");
    reveal_strlit("rpcUrl");
    reveal_strlit("durationMs");
    reveal_strlit("ok");
    reveal_strlit("result");
    reveal_strlit("error");
    assert("ok"@.len() == 2 && "error"@.len() == 5 && "second"@.len() == 6 && "result"@.len() == 6
        && "rpcUrl"@.len() == 6 && "collectedAt"@.len() == 11 && "durationMs"@.len() == 10);
    assert("second"@[0] == 's' && "result"@[0] == 'r' && "rpcUrl"@[0] == 'r');
    assert("result"@[1] == 'e' && "rpcUrl"@[1] == 'p');
}

// ---------------------------------------------------------------------------
// Operations
// ---------------------------------------------------------------------------
impl HistoryStore {
    /// An empty store with room for `limit` entries, and for one at least.
    pub fn new(limit: usize) -> (store: HistoryStore)
        ensures
            store@.limit == (if limit < 1 {
                1
            } else {
                limit
            }),
            store@.entries == Seq::<EntryView>::empty(),
            store@.wf(),
    {
        let store = HistoryStore {
            limit: if limit < 1 {
                1
            } else {
                limit
            },
            entries: VecDeque::new(),
        };
        assert(store@.entries =~= Seq::<EntryView>::empty());
        store
    }

    /// The position of the first entry of a second, or the number of entries.
    fn position(&self, second: &str) -> (at: usize)
        ensures
            at == find(self@.entries, second@),
            at <= self.entries@.len(),
    {
        let mut at: usize = 0;
        while at < self.entries.len() && !same_text(self.entries[at].second.as_str(), second)
            invariant
                0 <= at <= self.entries@.len(),
                forall|i: int| 0 <= i < at ==> (#[trigger] self@.entries[i]).second != second@,
            decreases self.entries@.len() - at,
        {
            assert(self@.entries[at as int] == self.entries@[at as int]@);
            at += 1;
        }
        proof {
            if at < self.entries@.len() {
                assert(self@.entries[at as int] == self.entries@[at as int]@);
            }
            lemma_find_is(self@.entries, second@, at as int);
        }
        at
    }

    /// Makes an entry the newest, in place of any other of its second, and drops the
    /// oldest entries beyond the limit.
    pub fn set(&mut self, entry: HistoryEntry)
        ensures
            final(self)@ == old(self)@.set(entry@),
            old(self)@.wf() ==> final(self)@.wf(),
    {
        let at = self.position(entry.second.as_str());
        let ghost before = self@;
        proof {
            if before.wf() {
                set_keeps_invariant(before, entry@);
            }
        }
        if at < self.entries.len() {
            self.entries.remove(at);
        }
        assert(self@.entries =~= before.without(entry@.second));
        let ghost new_entry = entry@;
        let ghost all = before.without(new_entry.second).push(new_entry);
        self.entries.push_back(entry);
        assert(self@.entries =~= all);
        while self.entries.len() > self.limit
            invariant
                self.limit == before.limit,
                self@.entries.len() <= all.len(),
                self@.entries == all.skip(all.len() - self@.entries.len()),
                self@.entries.len() < all.len() ==> self@.entries.len() >= self.limit,
            decreases self.entries@.len(),
        {
            let ghost old_entries = self@.entries;
            self.entries.pop_front();
            assert(self@.entries =~= old_entries.skip(1));
            assert(self@.entries =~= all.skip(all.len() - self@.entries.len()));
        }
        assert(all.skip(0) =~= all);
        assert(self@.entries =~= newest(all, self.limit));
        assert(self@ =~= before.set(new_entry));
    }

    /// The entry of a second.
    pub fn get(&self, second: &str) -> (found: Option<&HistoryEntry>)
        ensures
            match (self@.get(second@), found) {
                (Some(expected), Some(entry)) => entry@ == expected,
                (None, None) => true,
                _ => false,
            },
    {
        let at = self.position(second);
        if at < self.entries.len() {
            Some(&self.entries[at])
        } else {
            None
        }
    }

    /// The key of the oldest entry.
    pub fn oldest_key(&self) -> (key: Option<&str>)
        ensures
            match (self@.oldest_key(), key) {
                (Some(expected), Some(text)) => text@ == expected,
                (None, None) => true,
                _ => false,
            },
    {
        if self.entries.len() > 0 {
            Some(self.entries[0].second.as_str())
        } else {
            None
        }
    }

    /// The key of the newest entry.
    pub fn latest_key(&self) -> (key: Option<&str>)
        ensures
            match (self@.latest_key(), key) {
                (Some(expected), Some(text)) => text@ == expected,
                (None, None) => true,
                _ => false,
            },
    {
        if self.entries.len() > 0 {
            Some(self.entries[self.entries.len() - 1].second.as_str())
        } else {
            None
        }
    }
}

impl CollectorState {
    /// The state of a collector that starts with room for `limit` entries.
    pub fn new(limit: usize, started_at: String) -> (state: CollectorState)
        ensures
            state@.wf(),
            state@.history.limit == (if limit < 1 {
                1
            } else {
                limit
            }),
            state@.history.entries == Seq::<EntryView>::empty(),
            state@.latest_epoch_second is None,
            !state@.collecting,
            state@.started_at == started_at@,
    {
        CollectorState {
            history: HistoryStore::new(limit),
            latest_epoch_second: None,
            collecting: false,
            started_at,
        }
    }
}

impl ErrorInfo {
    /// The error as a JSON object.
    pub fn to_value(&self) -> (value: Value)
        ensures
            json_of(value) == self@.json(),
    {
        let mut members = no_members();
        insert_member(&mut members, "message", text_value(self.message.clone()));
        if let Some(code) = &self.code {
            insert_member(&mut members, "code", copy_value(code));
        }
        if let Some(status) = self.status {
            insert_member(&mut members, "status", number_value(status));
        }
        if let Some(body) = &self.body {
            insert_member(&mut members, "body", copy_value(body));
        }
        object_value(members)
    }
}

impl HistoryEntry {
    /// The entry as a JSON object.
    pub fn to_value(&self) -> (value: Value)
        ensures
            json_of(value) == self@.json(),
    {
        let mut members = no_members();
        insert_member(&mut members, "second", text_value(self.second.clone()));
        insert_member(&mut members, "collectedAt", text_value(self.collected_at.clone()));
        insert_member(&mut members, "rpcUrl", text_value(self.rpc_url.clone()));
        insert_member(&mut members, "durationMs", text_value(decimal(self.duration_ms)));
        insert_member(&mut members, "ok", bool_value(self.ok));
        if self.ok {
            let result = match &self.result {
                Some(value) => copy_value(value),
                None => null_value(),
            };
            insert_member(&mut members, "result", result);
        } else {
            let error = match &self.error {
                Some(info) => info.to_value(),
                None => {
                    let mut unknown = no_members();
                    insert_member(&mut unknown, "message", text_value("Unknown error".to_owned()));
                    object_value(unknown)
                },
            };
            insert_member(&mut members, "error", error);
        }
        object_value(members)
    }
}

/// The entry that is recorded for a second.
pub open spec fn new_entry(
    rpc_url: Seq<char>,
    epoch_second: int,
    collected_at: Seq<char>,
    ok: bool,
    result: Option<Json>,
    error: Option<ErrorView>,
    duration_ms: u128,
) -> EntryView {
    EntryView {
        second: second_text(epoch_second),
        collected_at,
        rpc_url,
        duration_ms,
        ok,
        result,
        error,
    }
}

/// Records an entry for a second, collected at the second `collected_at`.
pub fn record_at(
    rpc_url: &str,
    state: &mut CollectorState,
    epoch_second: i64,
    collected_at: String,
    ok: bool,
    result: Option<Value>,
    error: Option<ErrorInfo>,
    duration_ms: u128,
)
    requires
        nameable(epoch_second as int),
    ensures
        final(state)@ == old(state)@.record(
            epoch_second,
            new_entry(
                rpc_url@,
                epoch_second as int,
                collected_at@,
                ok,
                optional_json(result),
                optional_error(error),
                duration_ms,
            ),
        ),
        old(state)@.wf() ==> final(state)@.wf(),
{
    let key = second_key(epoch_second);
    state.history.set(
        HistoryEntry {
            second: key,
            collected_at,
            rpc_url: rpc_url.to_owned(),
            duration_ms,
            ok,
            result,
            error,
        },
    );
    state.latest_epoch_second = Some(epoch_second);
}

/// Records an entry for a second, collected now. Nothing is recorded exactly while the clock
/// shows a year past 9999.
pub fn record_locked(
    rpc_url: &str,
    state: &mut CollectorState,
    epoch_second: i64,
    ok: bool,
    result: Option<Value>,
    error: Option<ErrorInfo>,
    duration_ms: u128,
) -> (recorded: bool)
    requires
        nameable(epoch_second as int),
    ensures
        exists|time: SystemTime|
            match #[trigger] stamp_at(time) {
                Some(collected_at) => recorded && final(state)@ == old(state)@.record(
                    epoch_second,
                    new_entry(
                        rpc_url@,
                        epoch_second as int,
                        collected_at,
                        ok,
                        optional_json(result),
                        optional_error(error),
                        duration_ms,
                    ),
                ),
                None => !recorded && *final(state) == *old(state),
            },
        old(state)@.wf() ==> final(state)@.wf(),
{
    match now_iso_second() {
        Some(collected_at) => {
            record_at(rpc_url, state, epoch_second, collected_at, ok, result, error, duration_ms);
            true
        },
        None => false,
    }
}

} // verus!
