//! Which seconds a tick accounts for, and what it leaves behind of each.
use crate::calendar::{nameable, second_text};
use crate::json::Json;
use crate::model::{find, CollectorView, ErrorView};
use crate::scraper::{
    begun, behind_entry, ended, fill, room, start_second, tick_possible, with_collecting, Tick,
    POLL_INTERVAL_MS, RPC_TIMEOUT_MS,
};
use crate::timeline::{
    gapless, missed_seconds_are_filled, other_seconds_stay_or_are_dropped, tick_leaves_no_gap,
};
use vstd::prelude::*;
use vstd::string::*;

verus! {

/// A collector that has collected nothing has exactly the current second due, whatever its
/// history has room for.
pub proof fn nothing_is_missed_before_the_first_tick(state: CollectorView, now: i64)
    requires
        state.history.limit >= 1,
        state.latest_epoch_second is None,
    ensures
        start_second(state, now) == now,
{
}

/// What is due after the latest second that was collected: nothing at it or before it, and
/// later on the seconds that follow it, of which at most as many as are retained.
pub proof fn due_seconds_follow_the_latest(state: CollectorView, latest: i64, now: i64)
    requires
        state.history.limit >= 1,
        state.latest_epoch_second == Some(latest),
        nameable(latest as int),
        nameable(now as int),
    ensures
        now <= latest ==> start_second(state, now) > now,
        now > latest && now - latest <= state.history.limit ==> start_second(state, now) == latest
            + 1,
        now > latest && now - latest > state.history.limit ==> start_second(state, now) == now
            - state.history.limit + 1,
{
}

/// A tick may begin at every second from the epoch through the year 9999, and a clock that
/// runs ahead of the calendar stops a tick only where there is something to poll.
pub proof fn ticks_are_possible(state: CollectorView, now: i64)
    requires
        state.wf(),
        now >= 0,
    ensures
        tick_possible(state, now) <==> now <= 253_402_300_799,
{
    assert(start_second(state, now) <= now <==> match state.latest_epoch_second {
        Some(latest) => latest < now,
        None => true,
    });
}

/// The first tick of a collector polls, fills nothing, and leaves a history of one entry: that
/// of the current second.
pub proof fn first_tick_leaves_one_entry(
    before: CollectorView,
    claimed: CollectorView,
    rpc_url: Seq<char>,
    now: i64,
    readings: Seq<i64>,
    tick: Tick,
    collected_at: Seq<char>,
    outcome: Result<Json, ErrorView>,
    duration_ms: u128,
)
    requires
        before.wf(),
        !before.collecting,
        before.latest_epoch_second is None,
        before.history.entries.len() == 0,
        begun(before, claimed, rpc_url, now, readings, tick),
    ensures
        tick == Tick::Poll,
        readings.len() == 0,
        claimed.history.entries.len() == 0,
        ended(claimed, rpc_url, now, collected_at, outcome, duration_ms).history.entries.len() == 1,
        ended(claimed, rpc_url, now, collected_at, outcome, duration_ms).history.entries[0].second
            == second_text(now as int),
{
    let after = ended(claimed, rpc_url, now, collected_at, outcome, duration_ms);
    assert(claimed.history == before.history);
    assert(find(before.history.entries, second_text(now as int)) == 0);
    assert(after.history.entries.len() == 1);
}

/// What a tick changes: the entry of the current second, and entries of seconds between the
/// latest one that was collected before, of which there must be one, and the current one.
pub proof fn tick_adds_nothing_before_the_latest(
    before: CollectorView,
    claimed: CollectorView,
    rpc_url: Seq<char>,
    now: i64,
    readings: Seq<i64>,
    collected_at: Seq<char>,
    outcome: Result<Json, ErrorView>,
    duration_ms: u128,
    second: Seq<char>,
)
    requires
        before.wf(),
        begun(before, claimed, rpc_url, now, readings, Tick::Poll),
        ({
            let found = ended(claimed, rpc_url, now, collected_at, outcome, duration_ms).history.get(
                second,
            );
            found is Some && found != before.history.get(second)
        }),
    ensures
        second == second_text(now as int) || before.latest_epoch_second is Some && exists|e: int|
            before.latest_epoch_second->0 < e < now && second == #[trigger] second_text(e),
{
    let start = start_second(before, now);
    if forall|e: int| start <= e <= now ==> #[trigger] second_text(e) != second {
        other_seconds_stay_or_are_dropped(
            before,
            claimed,
            rpc_url,
            now,
            readings,
            collected_at,
            outcome,
            duration_ms,
            second,
        );
        assert(false);
    }
    let e = choose|e: int| start <= e <= now && #[trigger] second_text(e) == second;
    assert(before.latest_epoch_second is None ==> start == now);
}

/// A second that was missed has an entry that says so and nothing else: not ok, no result, no
/// time taken, and the error of a collector that fell behind, stamped when it was filled.
pub proof fn missed_second_has_the_error_of_falling_behind(
    before: CollectorView,
    claimed: CollectorView,
    rpc_url: Seq<char>,
    latest: i64,
    now: i64,
    readings: Seq<i64>,
    collected_at: Seq<char>,
    outcome: Result<Json, ErrorView>,
    duration_ms: u128,
    epoch_second: int,
)
    requires
        before.wf(),
        tick_possible(before, now),
        before.latest_epoch_second == Some(latest),
        latest < epoch_second < now,
        epoch_second > now - before.history.limit,
        begun(before, claimed, rpc_url, now, readings, Tick::Poll),
    ensures
        ({
            let after = ended(claimed, rpc_url, now, collected_at, outcome, duration_ms);
            &&& after.history.get(second_text(epoch_second)) is Some
            &&& after.history.get(second_text(epoch_second))->0.second == second_text(epoch_second)
            &&& after.history.get(second_text(epoch_second))->0.rpc_url == rpc_url
            &&& !after.history.get(second_text(epoch_second))->0.ok
            &&& after.history.get(second_text(epoch_second))->0.result is None
            &&& after.history.get(second_text(epoch_second))->0.duration_ms == 0
            &&& exists|i: int|
                0 <= i < readings.len() && after.history.get(
                    second_text(epoch_second),
                )->0.collected_at == second_text(#[trigger] readings[i] as int)
            &&& after.history.get(second_text(epoch_second))->0.error is Some
            &&& after.history.get(second_text(epoch_second))->0.error->0.message
                == "Collector fell behind before this second could be polled"@
            &&& after.history.get(second_text(epoch_second))->0.error->0.code == Some(
                Json::Text("COLLECTOR_BEHIND"@),
            )
            &&& after.history.get(second_text(epoch_second))->0.error->0.status is None
            &&& after.history.get(second_text(epoch_second))->0.error->0.body is None
        }),
{
    let start = start_second(before, now);
    missed_seconds_are_filled(
        before,
        claimed,
        rpc_url,
        now,
        readings,
        collected_at,
        outcome,
        duration_ms,
        epoch_second,
    );
    assert(0 <= epoch_second - start < readings.len());
    let stamp = readings[epoch_second - start];
    assert(behind_entry(rpc_url, epoch_second, stamp).collected_at == second_text(stamp as int));
}

/// A tick answers `Busy` exactly where another is still collecting, and `UpToDate` exactly
/// where nothing later than the latest second is due; both leave the state alone.
pub proof fn idle_ticks_change_nothing(
    before: CollectorView,
    after: CollectorView,
    rpc_url: Seq<char>,
    now: i64,
    readings: Seq<i64>,
    tick: Tick,
)
    requires
        before.wf(),
        begun(before, after, rpc_url, now, readings, tick),
    ensures
        tick == Tick::Busy <==> before.collecting,
        tick == Tick::UpToDate <==> !before.collecting && match before.latest_epoch_second {
            Some(latest) => now <= latest,
            None => false,
        },
        tick == Tick::Busy || tick == Tick::UpToDate ==> after == before,
{
}

/// A tick stops for the clock exactly where a reading has no name; one that polls has read the
/// clock once for each second that it fills.
pub proof fn clock_alone_stops_a_tick(
    before: CollectorView,
    after: CollectorView,
    rpc_url: Seq<char>,
    now: i64,
    readings: Seq<i64>,
    tick: Tick,
)
    requires
        before.wf(),
        begun(before, after, rpc_url, now, readings, tick),
        tick == Tick::Poll || tick == Tick::ClockOutOfRange,
    ensures
        tick == Tick::ClockOutOfRange <==> exists|i: int|
            0 <= i < readings.len() && !nameable(#[trigger] readings[i] as int),
        tick == Tick::Poll ==> readings.len() == now - start_second(before, now),
        tick == Tick::Poll && readings.len() > 0 ==> before.latest_epoch_second is Some,
{
    if tick == Tick::ClockOutOfRange {
        assert(!nameable(readings[readings.len() - 1] as int));
    }
}

/// While it fills seconds, a tick keeps the room, the time of the start and the claim.
proof fn lemma_fill_keeps_the_rest(
    state: CollectorView,
    rpc_url: Seq<char>,
    start: int,
    stamps: Seq<i64>,
)
    ensures
        fill(state, rpc_url, start, stamps).history.limit == state.history.limit,
        fill(state, rpc_url, start, stamps).started_at == state.started_at,
        fill(state, rpc_url, start, stamps).collecting == state.collecting,
    decreases stamps.len(),
{
    if stamps.len() > 0 {
        lemma_fill_keeps_the_rest(state, rpc_url, start, stamps.drop_last());
    }
}

/// A tick that polls holds the claim until it ends, gives it up then, and leaves the room of
/// the history and the time of the start as they were. The latest second is the polled one.
pub proof fn tick_holds_its_claim_until_it_ends(
    before: CollectorView,
    claimed: CollectorView,
    rpc_url: Seq<char>,
    now: i64,
    readings: Seq<i64>,
    collected_at: Seq<char>,
    outcome: Result<Json, ErrorView>,
    duration_ms: u128,
)
    requires
        begun(before, claimed, rpc_url, now, readings, Tick::Poll),
    ensures
        claimed.collecting,
        ({
            let after = ended(claimed, rpc_url, now, collected_at, outcome, duration_ms);
            &&& !after.collecting
            &&& after.latest_epoch_second == Some(now)
            &&& after.history.limit == before.history.limit
            &&& after.started_at == before.started_at
        }),
{
    lemma_fill_keeps_the_rest(
        with_collecting(before, true),
        rpc_url,
        start_second(before, now),
        readings,
    );
}

/// After a tick at `now`, a timeline without gaps retains exactly the seconds up to `now`, as
/// many as there is room for, from the first that it knew.
pub proof fn retained_seconds_end_at_the_current_one(
    before: CollectorView,
    claimed: CollectorView,
    rpc_url: Seq<char>,
    latest: i64,
    now: i64,
    readings: Seq<i64>,
    collected_at: Seq<char>,
    outcome: Result<Json, ErrorView>,
    duration_ms: u128,
    i: int,
)
    requires
        before.wf(),
        !before.collecting,
        gapless(before),
        before.latest_epoch_second == Some(latest),
        tick_possible(before, now),
        begun(before, claimed, rpc_url, now, readings, Tick::Poll),
        ({
            let entries = ended(
                claimed,
                rpc_url,
                now,
                collected_at,
                outcome,
                duration_ms,
            ).history.entries;
            0 <= i < entries.len()
        }),
    ensures
        ({
            let entries = ended(
                claimed,
                rpc_url,
                now,
                collected_at,
                outcome,
                duration_ms,
            ).history.entries;
            entries[i].second == second_text(now - entries.len() + 1 + i)
        }),
{
    tick_leaves_no_gap(
        before,
        claimed,
        rpc_url,
        now,
        readings,
        Tick::Poll,
        collected_at,
        outcome,
        duration_ms,
    );
}

/// A claim changes the flag, and nothing else.
pub proof fn claim_changes_the_flag_alone(state: CollectorView, collecting: bool)
    ensures
        with_collecting(state, collecting).collecting == collecting,
        with_collecting(state, collecting).history == state.history,
        with_collecting(state, collecting).latest_epoch_second == state.latest_epoch_second,
        with_collecting(state, collecting).started_at == state.started_at,
{
}

/// A tick that has missed nothing leaves the history and the latest second alone until it ends.
pub proof fn tick_without_missed_seconds_fills_nothing(
    before: CollectorView,
    claimed: CollectorView,
    rpc_url: Seq<char>,
    latest: i64,
    now: i64,
    readings: Seq<i64>,
)
    requires
        before.wf(),
        before.latest_epoch_second is None || before.latest_epoch_second == Some(latest) && now
            == latest + 1,
        begun(before, claimed, rpc_url, now, readings, Tick::Poll),
    ensures
        readings.len() == 0,
        claimed.history == before.history,
        claimed.latest_epoch_second == before.latest_epoch_second,
{
}

/// Missed seconds are filled in order, one after the other, each by the entry that says that
/// it was missed, under the stamp that was read for it.
pub proof fn seconds_are_filled_in_order(
    state: CollectorView,
    rpc_url: Seq<char>,
    start: int,
    stamps: Seq<i64>,
    stamp: i64,
)
    requires
        i64::MIN <= start,
        start + stamps.len() <= i64::MAX,
    ensures
        fill(state, rpc_url, start, Seq::empty()) == state,
        ({
            let earlier = fill(state, rpc_url, start, stamps);
            let after = fill(state, rpc_url, start, stamps.push(stamp));
            let epoch_second = start + stamps.len();
            &&& after.history == earlier.history.set(behind_entry(rpc_url, epoch_second, stamp))
            &&& after.latest_epoch_second == Some(epoch_second as i64)
            &&& after.collecting == earlier.collecting
            &&& after.started_at == earlier.started_at
        }),
{
    assert(stamps.push(stamp).drop_last() =~= stamps);
}

/// The entry of a missed second: not ok, no result, no time taken, and the error of a collector
/// that fell behind.
pub proof fn missed_entry_has_its_fields(rpc_url: Seq<char>, epoch_second: int, stamp: i64)
    ensures
        behind_entry(rpc_url, epoch_second, stamp).second == second_text(epoch_second),
        behind_entry(rpc_url, epoch_second, stamp).collected_at == second_text(stamp as int),
        behind_entry(rpc_url, epoch_second, stamp).rpc_url == rpc_url,
        behind_entry(rpc_url, epoch_second, stamp).duration_ms == 0,
        !behind_entry(rpc_url, epoch_second, stamp).ok,
        behind_entry(rpc_url, epoch_second, stamp).result is None,
        behind_entry(rpc_url, epoch_second, stamp).error is Some,
        behind_entry(rpc_url, epoch_second, stamp).error->0.message
            == "Collector fell behind before this second could be polled"@,
        behind_entry(rpc_url, epoch_second, stamp).error->0.code == Some(
            Json::Text("COLLECTOR_BEHIND"@),
        ),
        behind_entry(rpc_url, epoch_second, stamp).error->0.status is None,
        behind_entry(rpc_url, epoch_second, stamp).error->0.body is None,
{
}

/// The endpoint is given less than a second to answer, and the task looks at the clock several
/// times a second, so that no second is missed for want of looking.
pub proof fn polling_fits_into_a_second()
    ensures
        RPC_TIMEOUT_MS == 900,
        POLL_INTERVAL_MS == 250,
        RPC_TIMEOUT_MS < 1000,
        4 * POLL_INTERVAL_MS <= 1000,
{
}

} // verus!
