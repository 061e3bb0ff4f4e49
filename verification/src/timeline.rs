//! The retained timeline: the seconds in the history follow each other without a gap,
//! and every tick of the polling task keeps it so.
use crate::calendar::{nameable, second_names_are_distinct, second_text, FIRST_SECOND};
use crate::json::Json;
use crate::model::{
    distinct_seconds, find, lemma_find_bounds, lemma_find_is, newest, set_drops_only_the_oldest,
    set_entry_is_read_back, set_keeps_invariant, CollectorView, EntryView, ErrorView, HistoryView,
};
use crate::scraper::{
    all_nameable, begun, behind_entry, ended, fill, polled_entry, start_second, tick_possible,
    with_collecting, Tick,
};
use vstd::prelude::*;

verus! {

/// Whether the entries are those of consecutive seconds from `first` on.
pub open spec fn consecutive(entries: Seq<EntryView>, first: int) -> bool {
    forall|i: int|
        0 <= i < entries.len() ==> (#[trigger] entries[i]).second == second_text(first + i)
}

/// Whether the history is that of consecutive seconds, the last of which is the latest
/// second that was collected.
pub open spec fn gapless(state: CollectorView) -> bool {
    let entries = state.history.entries;
    match state.latest_epoch_second {
        None => entries.len() == 0,
        Some(latest) => {
            &&& entries.len() > 0
            &&& nameable(latest as int)
            &&& FIRST_SECOND <= latest - entries.len() + 1
            &&& consecutive(entries, latest - entries.len() + 1)
        },
    }
}

/// A collector that has not collected anything has a timeline without gaps.
pub proof fn empty_timeline_has_no_gap(state: CollectorView)
    requires
        state.history.entries.len() == 0,
        state.latest_epoch_second is None,
    ensures
        gapless(state),
{
}

/// Setting an entry of a new second appends it to the timeline.
proof fn lemma_set_appends(store: HistoryView, all: Seq<EntryView>, entry: EntryView)
    requires
        store.limit >= 1,
        store.entries == newest(all, store.limit),
        forall|i: int| 0 <= i < all.len() ==> (#[trigger] all[i]).second != entry.second,
    ensures
        store.set(entry).entries == newest(all.push(entry), store.limit),
{
    let entries = store.entries;
    let dropped: int = if all.len() <= store.limit {
        0
    } else {
        all.len() - store.limit
    };
    assert forall|i: int| 0 <= i < entries.len() implies (#[trigger] entries[i]).second
        != entry.second by {
        assert(entries[i] == all[i + dropped]);
    }
    lemma_find_is(entries, entry.second, entries.len() as int);
    assert(store.without(entry.second) == entries);
    assert(newest(entries.push(entry), store.limit) =~= newest(all.push(entry), store.limit));
}

/// The entries that fill the seconds from `start` on.
pub open spec fn behind_entries(rpc_url: Seq<char>, start: int, stamps: Seq<i64>) -> Seq<EntryView> {
    Seq::new(stamps.len(), |i: int| behind_entry(rpc_url, start + i, stamps[i]))
}

/// Filling seconds later than all that are retained appends their entries to the timeline.
proof fn lemma_fill_appends(state: CollectorView, rpc_url: Seq<char>, start: int, stamps: Seq<i64>)
    requires
        state.history.wf(),
        gapless(state),
        state.latest_epoch_second matches Some(latest) ==> latest < start,
        nameable(start),
        nameable(start + stamps.len()),
    ensures
        fill(state, rpc_url, start, stamps).history.entries == newest(
            state.history.entries + behind_entries(rpc_url, start, stamps),
            state.history.limit,
        ),
        fill(state, rpc_url, start, stamps).history.limit == state.history.limit,
        fill(state, rpc_url, start, stamps).collecting == state.collecting,
        fill(state, rpc_url, start, stamps).started_at == state.started_at,
    decreases stamps.len(),
{
    let old_entries = state.history.entries;
    if stamps.len() == 0 {
        assert(old_entries + behind_entries(rpc_url, start, stamps) =~= old_entries);
    } else {
        let shorter = stamps.drop_last();
        lemma_fill_appends(state, rpc_url, start, shorter);
        let before = fill(state, rpc_url, start, shorter);
        let all = old_entries + behind_entries(rpc_url, start, shorter);
        let epoch_second = start + stamps.len() - 1;
        let entry = behind_entry(rpc_url, epoch_second, stamps.last());
        lemma_timeline_lacks(state, rpc_url, start, shorter, epoch_second);
        lemma_set_appends(before.history, all, entry);
        assert(all.push(entry) =~= old_entries + behind_entries(rpc_url, start, stamps));
    }
}

/// Neither the retained seconds nor those that were filled hold a later second.
proof fn lemma_timeline_lacks(
    state: CollectorView,
    rpc_url: Seq<char>,
    start: int,
    stamps: Seq<i64>,
    epoch_second: int,
)
    requires
        gapless(state),
        state.latest_epoch_second matches Some(latest) ==> latest < start,
        nameable(start),
        nameable(epoch_second),
        epoch_second == start + stamps.len(),
    ensures
        forall|i: int|
            0 <= i < state.history.entries.len() + stamps.len() ==> (#[trigger] (
            state.history.entries + behind_entries(rpc_url, start, stamps))[i]).second
                != second_text(epoch_second),
{
    let old_entries = state.history.entries;
    let all = old_entries + behind_entries(rpc_url, start, stamps);
    assert forall|i: int| 0 <= i < all.len() implies (#[trigger] all[i]).second != second_text(
        epoch_second,
    ) by {
        if i < old_entries.len() {
            let latest = state.latest_epoch_second->0;
            assert(all[i] == old_entries[i]);
            second_names_are_distinct(latest - old_entries.len() + 1 + i, epoch_second);
        } else {
            second_names_are_distinct(start + i - old_entries.len(), epoch_second);
        }
    }
}

/// The entries of a timeline after a tick that polls: the newest of those that were retained,
/// those that fill the missed seconds, and the one of the polled second.
pub open spec fn extended(
    state: CollectorView,
    rpc_url: Seq<char>,
    now: i64,
    readings: Seq<i64>,
    entry: EntryView,
) -> Seq<EntryView> {
    let missed = behind_entries(rpc_url, start_second(state, now), readings);
    newest((state.history.entries + missed).push(entry), state.history.limit)
}

/// Filling the missed seconds and recording the polled one turns a timeline without gaps into
/// one that ends at the current second.
proof fn lemma_tick_extends(
    state: CollectorView,
    rpc_url: Seq<char>,
    now: i64,
    readings: Seq<i64>,
    entry: EntryView,
)
    requires
        state.wf(),
        gapless(state),
        tick_possible(state, now),
        start_second(state, now) <= now,
        readings.len() == now - start_second(state, now),
        entry.second == second_text(now as int),
    ensures
        ({
            let claimed = with_collecting(state, true);
            let polled = fill(claimed, rpc_url, start_second(state, now), readings);
            let after = polled.record(now, entry);
            &&& gapless(after)
            &&& after.history.entries == extended(state, rpc_url, now, readings, entry)
            &&& after.history.limit == state.history.limit
        }),
{
    let limit = state.history.limit;
    let start = start_second(state, now);
    let claimed = with_collecting(state, true);
    let polled = fill(claimed, rpc_url, start, readings);
    let old_entries = state.history.entries;
    let filled_entries = behind_entries(rpc_url, start, readings);
    assert(gapless(claimed));
    lemma_fill_appends(claimed, rpc_url, start, readings);
    lemma_timeline_lacks(claimed, rpc_url, start, readings, now as int);
    let before = old_entries + filled_entries;
    lemma_set_appends(polled.history, before, entry);
    let all = before.push(entry);
    let first = match state.latest_epoch_second {
        Some(latest) => latest - old_entries.len() + 1,
        None => now as int,
    };
    assert forall|k: int| 0 <= k < all.len() implies (#[trigger] all[k]).second == (if k
        < old_entries.len() {
        second_text(first + k)
    } else {
        second_text(start + k - old_entries.len())
    }) by {
        if k < old_entries.len() {
            assert(all[k] == old_entries[k]);
        } else if k < before.len() {
            assert(all[k] == filled_entries[k - old_entries.len()]);
        }
    }
    lemma_newest_are_consecutive(all, limit, old_entries.len() as int, first, start, now as int);
}

/// The newest entries of an old timeline and a new one are consecutive where the new one
/// follows the old one, or fills the history by itself.
proof fn lemma_newest_are_consecutive(
    all: Seq<EntryView>,
    limit: usize,
    old_count: int,
    first: int,
    start: int,
    now: int,
)
    requires
        0 <= old_count,
        old_count <= limit,
        all.len() == old_count + now - start + 1,
        start <= now,
        now - start + 1 <= limit,
        old_count == 0 || start == first + old_count || now - start + 1 == limit,
        forall|k: int|
            0 <= k < all.len() ==> (#[trigger] all[k]).second == (if k < old_count {
                second_text(first + k)
            } else {
                second_text(start + k - old_count)
            }),
    ensures
        consecutive(newest(all, limit), now - newest(all, limit).len() + 1),
{
    let after = newest(all, limit);
    let dropped = all.len() - after.len();
    assert forall|i: int| 0 <= i < after.len() implies (#[trigger] after[i]).second == second_text(
        now - after.len() + 1 + i,
    ) by {
        assert(after[i] == all[i + dropped]);
    }
}

/// In a timeline without gaps a second is found at its distance from the latest one.
proof fn lemma_found_at(state: CollectorView, latest: i64, epoch_second: int)
    requires
        gapless(state),
        state.latest_epoch_second == Some(latest),
        nameable(epoch_second),
    ensures
        state.history.get(second_text(epoch_second)) == ({
            let first = latest - state.history.entries.len() + 1;
            if first <= epoch_second <= latest {
                Some(state.history.entries[epoch_second - first])
            } else {
                None
            }
        }),
{
    let entries = state.history.entries;
    let first = latest - entries.len() + 1;
    let at = if first <= epoch_second <= latest {
        epoch_second - first
    } else {
        entries.len() as int
    };
    assert forall|i: int| 0 <= i < at implies (#[trigger] entries[i]).second != second_text(
        epoch_second,
    ) by {
        second_names_are_distinct(first + i, epoch_second);
    }
    lemma_find_is(entries, second_text(epoch_second), at);
}

/// A timeline without gaps has no second twice.
proof fn lemma_gapless_is_distinct(state: CollectorView)
    requires
        gapless(state),
    ensures
        distinct_seconds(state.history.entries),
{
    let entries = state.history.entries;
    assert forall|i: int, j: int| 0 <= i < j < entries.len() implies (#[trigger] entries[i]).second
        != (#[trigger] entries[j]).second by {
        let first = state.latest_epoch_second->0 - entries.len() + 1;
        second_names_are_distinct(first + i, first + j);
    }
}

/// The state after a tick: where it polled, with the outcome of the poll recorded.
pub open spec fn after_tick(
    state: CollectorView,
    rpc_url: Seq<char>,
    now: i64,
    tick: Tick,
    collected_at: Seq<char>,
    outcome: Result<Json, ErrorView>,
    duration_ms: u128,
) -> CollectorView {
    if tick == Tick::Poll {
        ended(state, rpc_url, now, collected_at, outcome, duration_ms)
    } else {
        state
    }
}

/// A tick leaves no gap, whatever the outcome of its poll: as long as the clock reads as a
/// second with a name, a timeline without gaps becomes one that ends at the current second,
/// or at a later one that was the latest before, and the state is given free.
pub proof fn tick_leaves_no_gap(
    before: CollectorView,
    claimed: CollectorView,
    rpc_url: Seq<char>,
    now: i64,
    readings: Seq<i64>,
    tick: Tick,
    collected_at: Seq<char>,
    outcome: Result<Json, ErrorView>,
    duration_ms: u128,
)
    requires
        before.wf(),
        !before.collecting,
        gapless(before),
        tick_possible(before, now),
        begun(before, claimed, rpc_url, now, readings, tick),
        all_nameable(readings),
    ensures
        ({
            let after = after_tick(
                claimed,
                rpc_url,
                now,
                tick,
                collected_at,
                outcome,
                duration_ms,
            );
            &&& gapless(after)
            &&& after.wf()
            &&& !after.collecting
            &&& after.latest_epoch_second == Some(
                match before.latest_epoch_second {
                    Some(latest) if latest > now => latest,
                    _ => now,
                },
            )
        }),
{
    assert(tick != Tick::ClockOutOfRange);
    if tick == Tick::Poll {
        let entry = polled_entry(rpc_url, now as int, collected_at, outcome, duration_ms);
        lemma_tick_extends(before, rpc_url, now, readings, entry);
        let after = ended(claimed, rpc_url, now, collected_at, outcome, duration_ms);
        assert(gapless(after));
        lemma_gapless_is_distinct(after);
    }
}

/// A tick that is due polls as long as the clock reads as a second with a name. The outcome of
/// the poll, a failure too, is what is then retained of the current second.
pub proof fn due_second_is_recorded(
    before: CollectorView,
    claimed: CollectorView,
    rpc_url: Seq<char>,
    now: i64,
    readings: Seq<i64>,
    tick: Tick,
    collected_at: Seq<char>,
    outcome: Result<Json, ErrorView>,
    duration_ms: u128,
)
    requires
        before.wf(),
        !before.collecting,
        tick_possible(before, now),
        before.latest_epoch_second matches Some(latest) ==> latest < now,
        begun(before, claimed, rpc_url, now, readings, tick),
        all_nameable(readings),
    ensures
        tick == Tick::Poll,
        ({
            let entry = polled_entry(rpc_url, now as int, collected_at, outcome, duration_ms);
            let after = ended(claimed, rpc_url, now, collected_at, outcome, duration_ms);
            &&& after.history.entries.last() == entry
            &&& after.history.get(second_text(now as int)) == Some(entry)
            &&& after.latest_epoch_second == Some(now)
            &&& !after.collecting
        }),
{
    let start = start_second(before, now);
    let entry = polled_entry(rpc_url, now as int, collected_at, outcome, duration_ms);
    lemma_fill_keeps_invariant(with_collecting(before, true), rpc_url, start, readings);
    set_entry_is_read_back(claimed.history, entry);
}

/// Filling seconds keeps a store's invariant.
proof fn lemma_fill_keeps_invariant(
    state: CollectorView,
    rpc_url: Seq<char>,
    start: int,
    stamps: Seq<i64>,
)
    requires
        state.history.wf(),
    ensures
        fill(state, rpc_url, start, stamps).history.wf(),
    decreases stamps.len(),
{
    if stamps.len() > 0 {
        let shorter = stamps.drop_last();
        lemma_fill_keeps_invariant(state, rpc_url, start, shorter);
        let epoch_second = start + stamps.len() - 1;
        set_keeps_invariant(
            fill(state, rpc_url, start, shorter).history,
            behind_entry(rpc_url, epoch_second, stamps.last()),
        );
    }
}

/// Entries of new seconds stand at the end once they have been set.
proof fn lemma_set_extends_tail(store: HistoryView, tail: Seq<EntryView>, entry: EntryView)
    requires
        store.wf(),
        tail.len() < store.limit,
        tail.len() <= store.entries.len(),
        store.entries.skip(store.entries.len() - tail.len()) == tail,
        forall|i: int| 0 <= i < tail.len() ==> (#[trigger] tail[i]).second != entry.second,
    ensures
        store.set(entry).entries.len() >= tail.len() + 1,
        store.set(entry).entries.skip(store.set(entry).entries.len() - tail.len() - 1)
            == tail.push(entry),
{
    let entries = store.entries;
    let front = entries.len() - tail.len();
    lemma_find_bounds(entries, entry.second);
    let at = find(entries, entry.second);
    if front <= at < entries.len() {
        assert(entries[at] == tail[at - front]);
        assert(false);
    }
    let kept = store.without(entry.second);
    assert forall|i: int| 0 <= i < tail.len() implies #[trigger] tail[i] == kept[kept.len()
        - tail.len() + i] by {
        assert(tail[i] == entries[front + i]);
    }
    let after = store.set(entry).entries;
    assert(after.skip(after.len() - tail.len() - 1) =~= tail.push(entry));
}

/// The seconds that were filled stand at the end of the history, as long as there is room.
proof fn lemma_fill_extends_tail(
    state: CollectorView,
    rpc_url: Seq<char>,
    start: int,
    stamps: Seq<i64>,
)
    requires
        state.history.wf(),
        nameable(start),
        nameable(start + stamps.len()),
        stamps.len() <= state.history.limit,
    ensures
        ({
            let after = fill(state, rpc_url, start, stamps).history;
            &&& after.wf()
            &&& after.limit == state.history.limit
            &&& after.entries.len() >= stamps.len()
            &&& after.entries.skip(after.entries.len() - stamps.len()) == behind_entries(
                rpc_url,
                start,
                stamps,
            )
        }),
    decreases stamps.len(),
{
    let tail = behind_entries(rpc_url, start, stamps);
    if stamps.len() == 0 {
        let entries = state.history.entries;
        assert(entries.skip(entries.len() as int) =~= tail);
    } else {
        let shorter = stamps.drop_last();
        lemma_fill_extends_tail(state, rpc_url, start, shorter);
        let before = fill(state, rpc_url, start, shorter).history;
        let shorter_tail = behind_entries(rpc_url, start, shorter);
        let epoch_second = start + stamps.len() - 1;
        let entry = behind_entry(rpc_url, epoch_second, stamps.last());
        assert forall|i: int| 0 <= i < shorter_tail.len() implies (
        #[trigger] shorter_tail[i]).second != entry.second by {
            second_names_are_distinct(start + i, epoch_second);
        }
        set_keeps_invariant(before, entry);
        lemma_set_extends_tail(before, shorter_tail, entry);
        assert(shorter_tail.push(entry) =~= tail);
    }
}

/// A tick that polls fills what was missed: each second that was not polled in time and is
/// still to be retained has the error entry that says so.
pub proof fn missed_seconds_are_filled(
    before: CollectorView,
    claimed: CollectorView,
    rpc_url: Seq<char>,
    now: i64,
    readings: Seq<i64>,
    collected_at: Seq<char>,
    outcome: Result<Json, ErrorView>,
    duration_ms: u128,
    epoch_second: int,
)
    requires
        before.wf(),
        tick_possible(before, now),
        begun(before, claimed, rpc_url, now, readings, Tick::Poll),
        start_second(before, now) <= epoch_second < now,
    ensures
        ended(claimed, rpc_url, now, collected_at, outcome, duration_ms).history.get(
            second_text(epoch_second),
        ) == Some(
            behind_entry(
                rpc_url,
                epoch_second,
                readings[epoch_second - start_second(before, now)],
            ),
        ),
{
    let start = start_second(before, now);
    let entry = polled_entry(rpc_url, now as int, collected_at, outcome, duration_ms);
    let tail = behind_entries(rpc_url, start, readings);
    lemma_fill_extends_tail(with_collecting(before, true), rpc_url, start, readings);
    assert forall|i: int| 0 <= i < tail.len() implies (#[trigger] tail[i]).second
        != entry.second by {
        second_names_are_distinct(start + i, now as int);
    }
    lemma_set_extends_tail(claimed.history, tail, entry);
    set_keeps_invariant(claimed.history, entry);
    let entries = claimed.history.set(entry).entries;
    let at = entries.len() - tail.len() - 1 + epoch_second - start;
    assert(entries[at] == tail.push(entry)[epoch_second - start]) by {
        assert(entries.skip(entries.len() - tail.len() - 1)[epoch_second - start] == entries[at]);
    }
    lemma_find_is(entries, second_text(epoch_second), at);
}

/// Filling seconds leaves what is retained of every other second as it is, or drops it.
proof fn lemma_fill_keeps_or_drops(
    state: CollectorView,
    rpc_url: Seq<char>,
    start: int,
    stamps: Seq<i64>,
    second: Seq<char>,
)
    requires
        state.history.wf(),
        forall|i: int| 0 <= i < stamps.len() ==> #[trigger] second_text(start + i) != second,
    ensures
        ({
            let found = fill(state, rpc_url, start, stamps).history.get(second);
            found is None || found == state.history.get(second)
        }),
    decreases stamps.len(),
{
    if stamps.len() > 0 {
        let shorter = stamps.drop_last();
        let epoch_second = start + stamps.len() - 1;
        lemma_fill_keeps_or_drops(state, rpc_url, start, shorter, second);
        lemma_fill_keeps_invariant(state, rpc_url, start, shorter);
        assert(second_text(epoch_second) != second) by {
            assert(epoch_second == start + (stamps.len() - 1));
        }
        set_drops_only_the_oldest(
            fill(state, rpc_url, start, shorter).history,
            behind_entry(rpc_url, epoch_second, stamps.last()),
            second,
        );
    }
}

/// A tick that polls does not touch what is retained of the seconds that it does not account
/// for: it stays as it was, or is dropped.
pub proof fn other_seconds_stay_or_are_dropped(
    before: CollectorView,
    claimed: CollectorView,
    rpc_url: Seq<char>,
    now: i64,
    readings: Seq<i64>,
    collected_at: Seq<char>,
    outcome: Result<Json, ErrorView>,
    duration_ms: u128,
    second: Seq<char>,
)
    requires
        before.wf(),
        begun(before, claimed, rpc_url, now, readings, Tick::Poll),
        forall|e: int|
            start_second(before, now) <= e <= now ==> #[trigger] second_text(e) != second,
    ensures
        ({
            let after = ended(claimed, rpc_url, now, collected_at, outcome, duration_ms);
            let found = after.history.get(second);
            found is None || found == before.history.get(second)
        }),
{
    let start = start_second(before, now);
    let state = with_collecting(before, true);
    let entry = polled_entry(rpc_url, now as int, collected_at, outcome, duration_ms);
    lemma_fill_keeps_or_drops(state, rpc_url, start, readings, second);
    lemma_fill_keeps_invariant(state, rpc_url, start, readings);
    assert(second_text(now as int) != second);
    set_drops_only_the_oldest(claimed.history, entry, second);
}

/// In a timeline without gaps, a tick that polls keeps what is retained of an earlier second
/// exactly as long as there is room for it.
pub proof fn earlier_seconds_stay_while_there_is_room(
    before: CollectorView,
    claimed: CollectorView,
    rpc_url: Seq<char>,
    now: i64,
    readings: Seq<i64>,
    collected_at: Seq<char>,
    outcome: Result<Json, ErrorView>,
    duration_ms: u128,
    epoch_second: int,
)
    requires
        before.wf(),
        gapless(before),
        tick_possible(before, now),
        begun(before, claimed, rpc_url, now, readings, Tick::Poll),
        nameable(epoch_second),
        epoch_second < start_second(before, now),
    ensures
        ended(claimed, rpc_url, now, collected_at, outcome, duration_ms).history.get(
            second_text(epoch_second),
        ) == (if epoch_second > now - before.history.limit {
            before.history.get(second_text(epoch_second))
        } else {
            None
        }),
{
    let start = start_second(before, now);
    let entry = polled_entry(rpc_url, now as int, collected_at, outcome, duration_ms);
    lemma_tick_extends(before, rpc_url, now, readings, entry);
    let after = ended(claimed, rpc_url, now, collected_at, outcome, duration_ms);
    assert(gapless(after));
    lemma_found_at(after, now, epoch_second);
    let old_entries = before.history.entries;
    let all = (old_entries + behind_entries(rpc_url, start, readings)).push(entry);
    let entries = after.history.entries;
    let dropped = all.len() - entries.len();
    assert(entries =~= all.skip(dropped));
    let at = epoch_second - (now - entries.len() + 1);
    if at >= 0 {
        assert(entries[at] == all[at + dropped]);
    }
    match before.latest_epoch_second {
        Some(latest) => lemma_found_at(before, latest, epoch_second),
        None => lemma_find_is(old_entries, second_text(epoch_second), 0),
    }
}

/// A second is polled once: after a tick has ended, no other is due at its second or at an
/// earlier one.
pub proof fn second_is_polled_once(
    state: CollectorView,
    now: i64,
    entry: EntryView,
    again: i64,
)
    requires
        again <= now,
    ensures
        start_second(with_collecting(state.record(now, entry), false), again) > again,
{
}

/// The second after the one that was polled is due next, and it alone.
pub proof fn next_second_is_due_next(state: CollectorView, now: i64, entry: EntryView, next: i64)
    requires
        state.wf(),
        next == now + 1,
        tick_possible(with_collecting(state.record(now, entry), false), next),
    ensures
        start_second(with_collecting(state.record(now, entry), false), next) == next,
{
}

} // verus!
