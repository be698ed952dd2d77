//! What each step does to the state, told field by field on the state before and after it.
use crate::app::{brought, countable, AppView, Status};
use crate::binary64::{lemma_named_patterns, Binary64};
use crate::json::{json, JsonView};
use crate::options::PlotFlags;
use crate::save::{asks_for, pretty_json, SaveRequest};
use crate::series::{law_pushed_entries, newer_half, pushed};
use crate::states::Step;
use crate::telemetry::{all_segments, first_queue_length, points_of, sample_of, Sample};
use serde_json::Value;
use vstd::arithmetic::power2::pow2;
use vstd::prelude::*;

verus! {

/// Whether a series has got a new last entry and kept those before it, but for the oldest one where
/// it was full with ten thousand entries.
pub open spec fn has_grown<T>(before: Seq<T>, after: Seq<T>, entry: T) -> bool {
    let lost: int = if before.len() < 10000 {
        0
    } else {
        1
    };
    &&& after.len() == before.len() + 1 - lost
    &&& after[after.len() - 1] == entry
    &&& forall|i: int| 0 <= i < after.len() - 1 ==> #[trigger] after[i] == before[i + lost]
}

/// Whether a series has lost the older half of its entries, rounded down, and kept the others.
pub open spec fn has_been_halved<T>(before: Seq<T>, after: Seq<T>) -> bool {
    &&& after.len() == before.len() - before.len() as int / 2
    &&& forall|i: int|
        0 <= i < after.len() ==> #[trigger] after[i] == before[before.len() as int / 2 + i]
}

/// Whether the upper end of an axis is the larger one of what it was and a value.
pub open spec fn has_been_raised(before: Binary64, after: Binary64, value: Binary64) -> bool {
    &&& after == before || after == value
    &&& value.is_nan() || before.is_nan() ==> after == before
    &&& !value.is_nan() && !before.is_nan() ==> after.units() >= before.units() && after.units()
        >= value.units()
}

/// Whether the upper end of an axis of counts is the largest one of what it was and two counts.
pub open spec fn has_been_raised_to(before: u64, after: u64, a: u64, b: u64) -> bool {
    &&& after == before || after == a || after == b
    &&& after >= before && after >= a && after >= b
}

/// Whether two states watch the same process with the same plots.
pub open spec fn watch_the_same(before: AppView, after: AppView) -> bool {
    &&& after.url == before.url
    &&& after.api_key == before.api_key
    &&& after.is_remote == before.is_remote
    &&& after.plots == before.plots
}

/// Whether the clock has moved by one poll. It counts up to two to the power of 53.
pub open spec fn clock_has_moved(before: AppView, after: AppView) -> bool {
    after.tick == if before.tick < 9007199254740992 {
        before.tick + 1
    } else {
        before.tick as int
    }
}

/// Whether all series and axes are as before.
pub open spec fn record_is_kept(before: AppView, after: AppView) -> bool {
    &&& after.queue_lengths == before.queue_lengths
    &&& after.max_y_queue == before.max_y_queue
    &&& after.search_latencies == before.search_latencies
    &&& after.filtered_search_latencies == before.filtered_search_latencies
    &&& after.max_y_search == before.max_y_search
    &&& after.max_y_filtered_search == before.max_y_filtered_search
    &&& after.plain_points == before.plain_points
    &&& after.indexed_points == before.indexed_points
    &&& after.max_y_points == before.max_y_points
    &&& after.total_segments == before.total_segments
    &&& after.plain_segments == before.plain_segments
    &&& after.nonplain_segments == before.nonplain_segments
    &&& after.pending_optimizations == before.pending_optimizations
    &&& after.opt_statuses == before.opt_statuses
    &&& after.max_y_segments == before.max_y_segments
    &&& after.recording == before.recording
    &&& after.last_json == before.last_json
}

/// A new entry makes a series grow, and loses it the oldest one where it is full.
pub proof fn law_new_entry_is_last<T>(series: Seq<T>, entry: T)
    ensures
        has_grown(series, pushed(series, entry), entry),
{
    law_pushed_entries(series, entry);
}

/// Dropping the older half keeps the newer one.
pub proof fn law_newer_half_is_kept<T>(series: Seq<T>)
    ensures
        has_been_halved(series, newer_half(series)),
{
}

/// Whether a sample has been entered: every series has got the value of that sample at the current
/// tick, each axis has been raised to the values that it shows, and the recording has started with
/// a queue length above zero.
pub open spec fn sample_is_entered(before: AppView, sample: Sample, after: AppView) -> bool {
    let tick = before.tick;
    &&& has_grown(before.queue_lengths, after.queue_lengths, (tick, sample.queue_length))
    &&& has_grown(before.plain_points, after.plain_points, (tick, sample.plain_points))
    &&& has_grown(before.indexed_points, after.indexed_points, (tick, sample.indexed_points))
    &&& has_grown(before.total_segments, after.total_segments, (tick, sample.total_segments))
    &&& has_grown(before.plain_segments, after.plain_segments, (tick, sample.plain_segments))
    &&& has_grown(
        before.nonplain_segments,
        after.nonplain_segments,
        (tick, sample.nonplain_segments),
    )
    &&& has_grown(
        before.pending_optimizations,
        after.pending_optimizations,
        (tick, sample.pending_optimizations),
    )
    &&& has_grown(before.opt_statuses, after.opt_statuses, (tick, sample.opt_kind))
    &&& has_been_raised(before.max_y_queue, after.max_y_queue, sample.queue_length)
    &&& has_been_raised_to(
        before.max_y_points,
        after.max_y_points,
        sample.plain_points,
        sample.indexed_points,
    )
    &&& has_been_raised_to(
        before.max_y_segments,
        after.max_y_segments,
        sample.total_segments,
        sample.pending_optimizations,
    )
    &&& match sample.search_latency {
        Some(latency) => {
            &&& has_grown(before.search_latencies, after.search_latencies, (tick, latency))
            &&& has_been_raised(before.max_y_search, after.max_y_search, latency)
        },
        None => {
            &&& after.search_latencies == before.search_latencies
            &&& after.max_y_search == before.max_y_search
        },
    }
    &&& match sample.filtered_search_latency {
        Some(latency) => {
            &&& has_grown(
                before.filtered_search_latencies,
                after.filtered_search_latencies,
                (tick, latency),
            )
            &&& has_been_raised(
                before.max_y_filtered_search,
                after.max_y_filtered_search,
                latency,
            )
        },
        None => {
            &&& after.filtered_search_latencies == before.filtered_search_latencies
            &&& after.max_y_filtered_search == before.max_y_filtered_search
        },
    }
    &&& after.recording <==> before.recording || (!sample.queue_length.is_nan()
        && sample.queue_length.units() > 0)
    &&& after.status == Status::Online
    &&& after.tick == before.tick
    &&& after.last_json == before.last_json
    &&& after.save_msg == before.save_msg
    &&& watch_the_same(before, after)
}

/// Entering a sample gives every series its value, raises the axes and starts the recording.
pub proof fn law_sample_is_entered(state: AppView, sample: Sample)
    ensures
        sample_is_entered(state, sample, state.recorded(sample)),
{
    lemma_named_patterns();
    assert((Binary64 { bits: 0 }).exponent() == 0);
    law_new_entry_is_last(state.queue_lengths, (state.tick, sample.queue_length));
    law_new_entry_is_last(state.plain_points, (state.tick, sample.plain_points));
    law_new_entry_is_last(state.indexed_points, (state.tick, sample.indexed_points));
    law_new_entry_is_last(state.total_segments, (state.tick, sample.total_segments));
    law_new_entry_is_last(state.plain_segments, (state.tick, sample.plain_segments));
    law_new_entry_is_last(state.nonplain_segments, (state.tick, sample.nonplain_segments));
    law_new_entry_is_last(state.pending_optimizations, (state.tick, sample.pending_optimizations));
    law_new_entry_is_last(state.opt_statuses, (state.tick, sample.opt_kind));
    if let Some(latency) = sample.search_latency {
        law_new_entry_is_last(state.search_latencies, (state.tick, latency));
    }
    if let Some(latency) = sample.filtered_search_latency {
        law_new_entry_is_last(state.filtered_search_latencies, (state.tick, latency));
    }
}

/// Whether a poll has taken in a document that gives a sample: the sample has been entered, the
/// document is kept as the last one, whatever was kept before, and the clock has moved.
pub open spec fn document_is_taken_in(
    before: AppView,
    document: JsonView,
    sample: Sample,
    after: AppView,
) -> bool {
    &&& after.last_json == Some(document)
    &&& clock_has_moved(before, after)
    &&& sample_is_entered(
        before,
        sample,
        AppView { last_json: before.last_json, tick: before.tick, ..after },
    )
}

/// A poll that brings a document with a queue length takes it in, with the sample that it gives.
pub proof fn law_poll_takes_in_its_document(state: AppView, document: JsonView)
    requires
        first_queue_length(document) is Some,
    ensures
        state.polled(Ok(document)).last_json == Some(document),
        document_is_taken_in(
            state,
            document,
            sample_of(document)->0,
            state.polled(Ok(document)),
        ),
{
    let after = state.polled(Ok(document));
    let sample = sample_of(document)->0;
    law_sample_is_entered(state, sample);
    assert((AppView { last_json: state.last_json, tick: state.tick, ..after }) == state.recorded(
        sample,
    ));
}

/// A poll that fails, or brings a document without a queue length, keeps all that was recorded and
/// moves the clock. A failure shows as waiting before the first poll has been counted, and as
/// offline later; a document without a queue length leaves the status.
pub proof fn law_poll_without_a_queue_length(state: AppView, document: JsonView)
    requires
        first_queue_length(document) is None,
    ensures
        record_is_kept(state, state.polled(Ok(document))),
        record_is_kept(state, state.polled(Err(()))),
        clock_has_moved(state, state.polled(Ok(document))),
        clock_has_moved(state, state.polled(Err(()))),
        watch_the_same(state, state.polled(Ok(document))),
        watch_the_same(state, state.polled(Err(()))),
        state.polled(Ok(document)).save_msg == state.save_msg,
        state.polled(Err(())).save_msg == state.save_msg,
        state.polled(Ok(document)).status == state.status,
        state.tick == 0 ==> state.polled(Err(())).status == Status::WaitingForProcess,
        state.tick > 0 ==> state.polled(Err(())).status == Status::Offline,
{
}

/// A poll brings what the answer holds, and can be taken in exactly where its points, if they are
/// to be counted, fit 64 bits.
pub proof fn law_poll_brings_what_the_answer_holds(value: Value)
    ensures
        brought(Ok(value)) == Ok::<JsonView, ()>(json(value)),
        brought(Err(())) == Err::<JsonView, ()>(()),
        countable(Err(())),
        countable(Ok(json(value))) <==> (first_queue_length(json(value)) is Some ==> points_of(
            all_segments(json(value)),
            true,
        ) < 0x1_0000_0000_0000_0000 && points_of(all_segments(json(value)), false)
            < 0x1_0000_0000_0000_0000),
{
}

/// Whether every series has lost its older half, and nothing else has changed.
pub open spec fn older_halves_are_dropped(before: AppView, after: AppView) -> bool {
    &&& has_been_halved(before.queue_lengths, after.queue_lengths)
    &&& has_been_halved(before.search_latencies, after.search_latencies)
    &&& has_been_halved(before.filtered_search_latencies, after.filtered_search_latencies)
    &&& has_been_halved(before.plain_points, after.plain_points)
    &&& has_been_halved(before.indexed_points, after.indexed_points)
    &&& has_been_halved(before.total_segments, after.total_segments)
    &&& has_been_halved(before.plain_segments, after.plain_segments)
    &&& has_been_halved(before.nonplain_segments, after.nonplain_segments)
    &&& has_been_halved(before.pending_optimizations, after.pending_optimizations)
    &&& has_been_halved(before.opt_statuses, after.opt_statuses)
    &&& after.max_y_queue == before.max_y_queue
    &&& after.max_y_search == before.max_y_search
    &&& after.max_y_filtered_search == before.max_y_filtered_search
    &&& after.max_y_points == before.max_y_points
    &&& after.max_y_segments == before.max_y_segments
    &&& after.tick == before.tick
    &&& after.status == before.status
    &&& after.recording == before.recording
    &&& after.last_json == before.last_json
    &&& after.save_msg == before.save_msg
    &&& watch_the_same(before, after)
}

/// Dropping the older half takes it from every series, and changes nothing else.
pub proof fn law_every_series_is_halved(state: AppView)
    ensures
        older_halves_are_dropped(state, state.halved()),
{
    law_newer_half_is_kept(state.queue_lengths);
    law_newer_half_is_kept(state.search_latencies);
    law_newer_half_is_kept(state.filtered_search_latencies);
    law_newer_half_is_kept(state.plain_points);
    law_newer_half_is_kept(state.indexed_points);
    law_newer_half_is_kept(state.total_segments);
    law_newer_half_is_kept(state.plain_segments);
    law_newer_half_is_kept(state.nonplain_segments);
    law_newer_half_is_kept(state.pending_optimizations);
    law_newer_half_is_kept(state.opt_statuses);
}

/// Whether nothing has been recorded, and the axes reach as far as they do at the start: ten queue
/// entries and segments, a hundred microseconds and points.
pub open spec fn is_blank(state: AppView) -> bool {
    &&& state.queue_lengths.len() == 0
    &&& state.search_latencies.len() == 0
    &&& state.filtered_search_latencies.len() == 0
    &&& state.plain_points.len() == 0
    &&& state.indexed_points.len() == 0
    &&& state.total_segments.len() == 0
    &&& state.plain_segments.len() == 0
    &&& state.nonplain_segments.len() == 0
    &&& state.pending_optimizations.len() == 0
    &&& state.opt_statuses.len() == 0
    &&& state.max_y_queue.units() == 10 * pow2(1074)
    &&& state.max_y_search.units() == 100 * pow2(1074)
    &&& state.max_y_filtered_search.units() == 100 * pow2(1074)
    &&& state.max_y_points == 100
    &&& state.max_y_segments == 10
    &&& state.tick == 0
    &&& state.status == Status::WaitingForProcess
    &&& !state.recording
    &&& state.last_json is None
    &&& state.save_msg is None
}

/// The start and a reset leave a blank state; a reset goes on with the same process and plots.
pub proof fn law_reset_leaves_a_blank_state(
    state: AppView,
    url: Seq<char>,
    api_key: Option<Seq<char>>,
    is_remote: bool,
    plots: PlotFlags,
)
    ensures
        is_blank(state.restarted()),
        watch_the_same(state, state.restarted()),
        is_blank(AppView::initial(url, api_key, is_remote, plots)),
        ({
            let first = AppView::initial(url, api_key, is_remote, plots);
            &&& first.url == url
            &&& first.api_key == api_key
            &&& first.is_remote == is_remote
            &&& first.plots == plots
        }),
{
    lemma_named_patterns();
}

/// After dropping, each series is what it was without its first entries, half as many as it had,
/// rounded down.
pub proof fn law_first_halves_are_skipped(state: AppView)
    ensures
        state.halved().queue_lengths == state.queue_lengths.skip(
            state.queue_lengths.len() as int / 2,
        ),
        state.halved().search_latencies == state.search_latencies.skip(
            state.search_latencies.len() as int / 2,
        ),
        state.halved().filtered_search_latencies == state.filtered_search_latencies.skip(
            state.filtered_search_latencies.len() as int / 2,
        ),
        state.halved().plain_points == state.plain_points.skip(
            state.plain_points.len() as int / 2,
        ),
        state.halved().indexed_points == state.indexed_points.skip(
            state.indexed_points.len() as int / 2,
        ),
        state.halved().total_segments == state.total_segments.skip(
            state.total_segments.len() as int / 2,
        ),
        state.halved().plain_segments == state.plain_segments.skip(
            state.plain_segments.len() as int / 2,
        ),
        state.halved().nonplain_segments == state.nonplain_segments.skip(
            state.nonplain_segments.len() as int / 2,
        ),
        state.halved().pending_optimizations == state.pending_optimizations.skip(
            state.pending_optimizations.len() as int / 2,
        ),
        state.halved().opt_statuses == state.opt_statuses.skip(
            state.opt_statuses.len() as int / 2,
        ),
        state.halved().max_y_queue == state.max_y_queue,
        state.halved().max_y_search == state.max_y_search,
        state.halved().max_y_filtered_search == state.max_y_filtered_search,
        state.halved().max_y_points == state.max_y_points,
        state.halved().max_y_segments == state.max_y_segments,
        state.halved().status == state.status,
        state.halved().recording == state.recording,
        state.halved().tick == state.tick,
        state.halved().last_json == state.last_json,
        state.halved().save_msg == state.save_msg,
        state.halved().url == state.url,
        state.halved().api_key == state.api_key,
        state.halved().is_remote == state.is_remote,
        state.halved().plots == state.plots,
{
}

/// How many entries a series of a given length loses to a new one: it holds ten thousand at most.
pub open spec fn surplus(length: nat) -> int {
    if length < 10000 {
        0
    } else {
        1
    }
}

/// Entering a sample pushes each of its values at the current tick onto the series of that name,
/// and skips the oldest entry of a series that is full. A latency that the sample lacks leaves its
/// series alone.
pub proof fn law_values_are_pushed(state: AppView, sample: Sample)
    ensures
        ({
            let (tick, after) = (state.tick, state.recorded(sample));
            &&& after.queue_lengths == state.queue_lengths.push(
                (tick, sample.queue_length),
            ).skip(surplus(state.queue_lengths.len()))
            &&& after.plain_points == state.plain_points.push(
                (tick, sample.plain_points),
            ).skip(surplus(state.plain_points.len()))
            &&& after.indexed_points == state.indexed_points.push(
                (tick, sample.indexed_points),
            ).skip(surplus(state.indexed_points.len()))
            &&& after.total_segments == state.total_segments.push(
                (tick, sample.total_segments),
            ).skip(surplus(state.total_segments.len()))
            &&& after.plain_segments == state.plain_segments.push(
                (tick, sample.plain_segments),
            ).skip(surplus(state.plain_segments.len()))
            &&& after.nonplain_segments == state.nonplain_segments.push(
                (tick, sample.nonplain_segments),
            ).skip(surplus(state.nonplain_segments.len()))
            &&& after.pending_optimizations == state.pending_optimizations.push(
                (tick, sample.pending_optimizations),
            ).skip(surplus(state.pending_optimizations.len()))
            &&& after.opt_statuses == state.opt_statuses.push(
                (tick, sample.opt_kind),
            ).skip(surplus(state.opt_statuses.len()))
            &&& sample.search_latency matches Some(latency) ==> after.search_latencies
                == state.search_latencies.push((tick, latency)).skip(
                surplus(state.search_latencies.len()),
            )
            &&& sample.filtered_search_latency matches Some(latency)
                ==> after.filtered_search_latencies == state.filtered_search_latencies.push(
                (tick, latency),
            ).skip(surplus(state.filtered_search_latencies.len()))
            &&& sample.search_latency is None ==> after.search_latencies == state.search_latencies
            &&& sample.filtered_search_latency is None ==> after.filtered_search_latencies
                == state.filtered_search_latencies
        }),
        state.recorded(sample).status == Status::Online,
        state.recorded(sample).tick == state.tick,
        state.recorded(sample).last_json == state.last_json,
        state.recorded(sample).save_msg == state.save_msg,
        state.recorded(sample).url == state.url,
        state.recorded(sample).api_key == state.api_key,
        state.recorded(sample).is_remote == state.is_remote,
        state.recorded(sample).plots == state.plots,
{
    lemma_pushed_skips(state.queue_lengths, (state.tick, sample.queue_length));
    lemma_pushed_skips(state.plain_points, (state.tick, sample.plain_points));
    lemma_pushed_skips(state.indexed_points, (state.tick, sample.indexed_points));
    lemma_pushed_skips(state.total_segments, (state.tick, sample.total_segments));
    lemma_pushed_skips(state.plain_segments, (state.tick, sample.plain_segments));
    lemma_pushed_skips(state.nonplain_segments, (state.tick, sample.nonplain_segments));
    lemma_pushed_skips(state.pending_optimizations, (state.tick, sample.pending_optimizations));
    lemma_pushed_skips(state.opt_statuses, (state.tick, sample.opt_kind));
    if let Some(latency) = sample.search_latency {
        lemma_pushed_skips(state.search_latencies, (state.tick, latency));
    }
    if let Some(latency) = sample.filtered_search_latency {
        lemma_pushed_skips(state.filtered_search_latencies, (state.tick, latency));
    }
}

proof fn lemma_pushed_skips<T>(series: Seq<T>, entry: T)
    ensures
        pushed(series, entry) == series.push(entry).skip(surplus(series.len())),
{
    assert(pushed(series, entry) =~= series.push(entry).skip(surplus(series.len())));
}

/// Entering a sample raises the upper end of an axis to the values that lie above it, and leaves it
/// alone otherwise.
pub proof fn law_axes_are_raised(state: AppView, sample: Sample)
    requires
        !state.max_y_queue.is_nan(),
        !state.max_y_search.is_nan(),
        !state.max_y_filtered_search.is_nan(),
    ensures
        ({
            let (value, after) = (sample.queue_length, state.recorded(sample));
            after.max_y_queue == if !value.is_nan() && value.units() > state.max_y_queue.units() {
                value
            } else {
                state.max_y_queue
            }
        }),
        state.recorded(sample).max_y_search == match sample.search_latency {
            Some(value) => if !value.is_nan() && value.units() > state.max_y_search.units() {
                value
            } else {
                state.max_y_search
            },
            None => state.max_y_search,
        },
        state.recorded(sample).max_y_filtered_search == match sample.filtered_search_latency {
            Some(value) => if !value.is_nan() && value.units()
                > state.max_y_filtered_search.units() {
                value
            } else {
                state.max_y_filtered_search
            },
            None => state.max_y_filtered_search,
        },
        ({
            let (max, after) = (state.max_y_points, state.recorded(sample).max_y_points);
            &&& after >= max && after >= sample.plain_points && after >= sample.indexed_points
            &&& after == max || after == sample.plain_points || after == sample.indexed_points
        }),
        ({
            let (max, after) = (state.max_y_segments, state.recorded(sample).max_y_segments);
            &&& after >= max && after >= sample.total_segments && after
                >= sample.pending_optimizations
            &&& after == max || after == sample.total_segments || after
                == sample.pending_optimizations
        }),
        state.recorded(sample).recording <==> state.recording || (!sample.queue_length.is_nan()
            && sample.queue_length.units() > 0),
{
    law_sample_is_entered(state, sample);
}

/// A poll is counted up to two to the power of 53, whatever it brings. One that brings a document
/// with a queue length keeps that document and enters its sample; of any other one, nothing but the
/// count and, where it fails, the status is left.
pub proof fn law_poll_is_counted(state: AppView, document: JsonView)
    ensures
        ({
            let tick = if state.tick < 9007199254740992 {
                (state.tick + 1) as u64
            } else {
                state.tick
            };
            let failure = if state.tick == 0 {
                Status::WaitingForProcess
            } else {
                Status::Offline
            };
            &&& state.polled(Err(())) == (AppView { tick, status: failure, ..state })
            &&& first_queue_length(document) is None ==> state.polled(Ok(document)) == (AppView {
                tick,
                ..state
            })
            &&& first_queue_length(document) is Some ==> state.polled(Ok(document)) == (AppView {
                tick,
                last_json: Some(document),
                ..state.recorded(sample_of(document)->0)
            })
        }),
{
}

/// A reset empties every series and brings back the axes, the clock and the status of the start.
pub proof fn law_reset_empties_every_series(state: AppView)
    ensures
        state.restarted().queue_lengths.len() == 0,
        state.restarted().search_latencies.len() == 0,
        state.restarted().filtered_search_latencies.len() == 0,
        state.restarted().plain_points.len() == 0,
        state.restarted().indexed_points.len() == 0,
        state.restarted().total_segments.len() == 0,
        state.restarted().plain_segments.len() == 0,
        state.restarted().nonplain_segments.len() == 0,
        state.restarted().pending_optimizations.len() == 0,
        state.restarted().opt_statuses.len() == 0,
        state.restarted().max_y_queue.units() == 10 * pow2(1074),
        state.restarted().max_y_search.units() == 100 * pow2(1074),
        state.restarted().max_y_filtered_search.units() == 100 * pow2(1074),
        state.restarted().max_y_points == 100,
        state.restarted().max_y_segments == 10,
        state.restarted().tick == 0,
        state.restarted().status == Status::WaitingForProcess,
        !state.restarted().recording,
        state.restarted().last_json is None,
        state.restarted().save_msg is None,
        state.restarted().url == state.url,
        state.restarted().api_key == state.api_key,
        state.restarted().is_remote == state.is_remote,
        state.restarted().plots == state.plots,
{
    lemma_named_patterns();
}

/// Whether a step brings a document with a queue length.
pub open spec fn brings_sample(step: Step) -> bool {
    match step {
        Step::Poll(Ok(document)) => first_queue_length(document) is Some,
        _ => false,
    }
}

/// Over any steps, the last document is that of the latest poll with a queue length since the last
/// reset, and what is asked to be written is the rendering of it.
pub proof fn law_last_document_is_the_latest(
    state: AppView,
    steps: Seq<Step>,
    k: int,
    document: JsonView,
)
    requires
        0 <= k < steps.len(),
        steps[k] == Step::Poll(Ok(document)),
        first_queue_length(document) is Some,
        forall|i: int|
            k < i < steps.len() ==> !brings_sample(#[trigger] steps[i]) && !(steps[i] is Reset),
    ensures
        state.after(steps).last_json == Some(document),
        state.after(steps).last_rendered() == Some(pretty_json(document)),
    decreases steps.len(),
{
    let before = steps.drop_last();
    let last = steps.len() - 1;
    if k < last {
        assert(!brings_sample(steps[last]) && !(steps[last] is Reset));
        assert forall|i: int| k < i < before.len() implies !brings_sample(#[trigger] before[i])
            && !(before[i] is Reset) by {
            assert(before[i] == steps[i]);
        }
        law_last_document_is_the_latest(state, before, k, document);
    }
}

/// Where no poll since a reset has brought a queue length, there is no document to write.
pub proof fn law_no_document_before_the_first_sample(state: AppView, steps: Seq<Step>)
    requires
        state.last_json is None,
        forall|i: int| 0 <= i < steps.len() ==> !brings_sample(#[trigger] steps[i]),
    ensures
        state.after(steps).last_json is None,
        state.after(steps).last_rendered() is None,
    decreases steps.len(),
{
    if steps.len() > 0 {
        let before = steps.drop_last();
        assert forall|i: int| 0 <= i < before.len() implies !brings_sample(
            #[trigger] before[i],
        ) by {
            assert(before[i] == steps[i]);
        }
        assert(!brings_sample(steps[steps.len() - 1]));
        law_no_document_before_the_first_sample(state, before);
    }
}

/// Whether two states differ in nothing but what is told of the last attempt to save.
pub open spec fn only_tells(before: AppView, after: AppView, text: Seq<char>, now: u64) -> bool {
    &&& after.save_msg == Some((text, now))
    &&& record_is_kept(before, after)
    &&& after.tick == before.tick
    &&& after.status == before.status
    &&& watch_the_same(before, after)
}

/// Saving asks for a file named after the time of day that holds the rendering of the last
/// document, and changes nothing; where there is no document, or it cannot be rendered, it asks for
/// none and says so.
pub proof fn law_saving_asks_for_the_last_document(
    state: AppView,
    request: Option<SaveRequest>,
    stamp: Seq<char>,
    now: u64,
)
    requires
        asks_for(request, state.last_rendered(), stamp),
    ensures
        ({
            let after = state.save_prepared(state.last_rendered(), now);
            match state.last_json {
                Some(document) => match pretty_json(document) {
                    Ok(text) => {
                        &&& request is Some
                        &&& request->0.content@ == text
                        &&& request->0.filename@ == "telemetry_"@ + stamp + ".json"@
                        &&& after == state
                    },
                    Err(message) => {
                        &&& request is None
                        &&& only_tells(state, after, "JSON error: "@ + message, now)
                    },
                },
                None => {
                    &&& request is None
                    &&& only_tells(state, after, "No data to save yet"@, now)
                },
            }
        }),
{
}

/// The end of an attempt to save tells the name of the file that was written, or the error.
pub proof fn law_outcome_of_saving_is_told(
    state: AppView,
    filename: Seq<char>,
    message: Seq<char>,
    now: u64,
)
    ensures
        only_tells(
            state,
            state.save_finished(filename, Ok(()), now),
            "Saved: "@ + filename,
            now,
        ),
        only_tells(
            state,
            state.save_finished(filename, Err(message), now),
            "Save error: "@ + message,
            now,
        ),
{
}

/// An attempt to save changes nothing but what is told of it.
pub proof fn law_saving_changes_only_the_message(
    state: AppView,
    filename: Seq<char>,
    message: Seq<char>,
    now: u64,
)
    ensures
        state.save_finished(filename, Ok(()), now) == (AppView {
            save_msg: Some(("Saved: "@ + filename, now)),
            ..state
        }),
        state.save_finished(filename, Err(message), now) == (AppView {
            save_msg: Some(("Save error: "@ + message, now)),
            ..state
        }),
        state.save_prepared(Some(Err(message)), now) == (AppView {
            save_msg: Some(("JSON error: "@ + message, now)),
            ..state
        }),
        state.save_prepared(None, now) == (AppView {
            save_msg: Some(("No data to save yet"@, now)),
            ..state
        }),
        state.save_prepared(Some(Ok(message)), now) == state,
{
}

/// What was told is shown for three seconds, counted in nanoseconds.
pub proof fn law_outcome_is_shown_for_three_seconds(
    state: AppView,
    text: Seq<char>,
    time: u64,
    now: u64,
)
    requires
        state.save_msg == Some((text, time)),
    ensures
        now < time + 3_000_000_000 ==> state.save_info(now) == " | "@ + text,
        now >= time + 3_000_000_000 ==> state.save_info(now).len() == 0,
{
}

/// Where nothing was told, nothing is shown.
pub proof fn law_nothing_is_shown_before_saving(state: AppView, now: u64)
    requires
        state.save_msg is None,
    ensures
        state.save_info(now).len() == 0,
{
}

} // verus!
