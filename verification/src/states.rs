//! What holds of the monitor in every state, and what each step keeps.
use crate::app::{next_tick, raised, AppView, Status, TICK_LIMIT};
use crate::binary64::{lemma_named_patterns, one, Binary64, HUNDRED_BITS, TEN_BITS, ZERO_BITS};
use crate::charts::{at_least_one, count_at_least_one, is_ordered};
use crate::json::JsonView;
use crate::laws::law_segments_are_plain_or_not;
use crate::options::PlotFlags;
use crate::readings::{is_measured, law_samples_are_measured};
use crate::series::{law_pushed_entries, newer_half, pushed, ticks, MAX_POINTS};
use crate::telemetry::{all_segments, sample_of, Sample};
use vstd::prelude::*;

verus! {

/// Whether a series is bounded, lies before a tick, and is ordered in time. Two entries share a
/// tick only where the clock stands still.
pub open spec fn is_series<T>(series: Seq<(u64, T)>, tick: u64) -> bool {
    &&& series.len() <= MAX_POINTS
    &&& forall|i: int|
        0 <= i < series.len() ==> (#[trigger] series[i]).0 < tick || (series[i].0 == tick && tick
            == TICK_LIMIT)
    &&& forall|i: int, j: int|
        0 <= i < j < series.len() ==> (#[trigger] series[i]).0 < (#[trigger] series[j]).0 || (
        series[i].0 == series[j].0 && series[i].0 == TICK_LIMIT)
}

/// Whether the values of a series are numbers that do not lie above the upper end of its axis.
pub open spec fn is_below(series: Seq<(u64, Binary64)>, max: Binary64) -> bool {
    forall|i: int|
        0 <= i < series.len() ==> !(#[trigger] series[i]).1.is_nan() && series[i].1.units()
            <= max.units()
}

/// Whether no count of a series lies above the upper end of its axis.
pub open spec fn is_count_below(series: Seq<(u64, u64)>, max: u64) -> bool {
    forall|i: int| 0 <= i < series.len() ==> (#[trigger] series[i]).1 <= max
}

/// Whether the upper end of an axis is a number and has not sunk below where it started.
pub open spec fn is_axis_end(max: Binary64, start: int) -> bool {
    !max.is_nan() && max.units() >= start * one()
}

impl AppView {
    /// The series that get an entry from every sample have the same ticks.
    pub open spec fn is_aligned(self) -> bool {
        &&& ticks(self.plain_points) == ticks(self.queue_lengths)
        &&& ticks(self.indexed_points) == ticks(self.queue_lengths)
        &&& ticks(self.total_segments) == ticks(self.queue_lengths)
        &&& ticks(self.plain_segments) == ticks(self.queue_lengths)
        &&& ticks(self.nonplain_segments) == ticks(self.queue_lengths)
        &&& ticks(self.pending_optimizations) == ticks(self.queue_lengths)
        &&& ticks(self.opt_statuses) == ticks(self.queue_lengths)
    }

    /// The segments at each tick are those that are plain and those that are not.
    pub open spec fn adds_up(self) -> bool {
        forall|i: int|
            0 <= i < self.total_segments.len() ==> (#[trigger] self.total_segments[i]).1
                == self.plain_segments[i].1 + self.nonplain_segments[i].1
    }

    /// The series are bounded and ordered in time.
    pub open spec fn has_series(self) -> bool {
        &&& is_series(self.queue_lengths, self.tick)
        &&& is_series(self.search_latencies, self.tick)
        &&& is_series(self.filtered_search_latencies, self.tick)
        &&& self.tick <= TICK_LIMIT
    }

    /// The values are numbers that do not lie above the upper end of their axis.
    pub open spec fn fits_axes(self) -> bool {
        &&& is_below(self.queue_lengths, self.max_y_queue)
        &&& is_below(self.search_latencies, self.max_y_search)
        &&& is_below(self.filtered_search_latencies, self.max_y_filtered_search)
        &&& is_count_below(self.plain_points, self.max_y_points)
        &&& is_count_below(self.indexed_points, self.max_y_points)
        &&& is_count_below(self.total_segments, self.max_y_segments)
        &&& is_count_below(self.plain_segments, self.max_y_segments)
        &&& is_count_below(self.nonplain_segments, self.max_y_segments)
        &&& is_count_below(self.pending_optimizations, self.max_y_segments)
    }

    /// The upper ends of the axes are at least what they start with.
    pub open spec fn has_axes(self) -> bool {
        &&& is_axis_end(self.max_y_queue, 10)
        &&& is_axis_end(self.max_y_search, 100)
        &&& is_axis_end(self.max_y_filtered_search, 100)
        &&& self.max_y_points >= 100
        &&& self.max_y_segments >= 10
    }

    /// Before the recording starts, no queue length above zero is in the series; where there is
    /// a sample, there is the document that gave the last one.
    pub open spec fn remembers(self) -> bool {
        &&& !self.recording ==> is_below(self.queue_lengths, Binary64 { bits: ZERO_BITS })
        &&& self.queue_lengths.len() > 0 ==> self.last_json is Some
        &&& self.status == Status::Online ==> self.last_json is Some
    }

    /// What holds in every state.
    pub open spec fn well_formed(self) -> bool {
        &&& self.is_aligned()
        &&& self.adds_up()
        &&& self.has_series()
        &&& self.fits_axes()
        &&& self.has_axes()
        &&& self.remembers()
    }
}

/// A bounded series keeps its order when an entry is added at the current tick, and all of it
/// lies before the next one.
proof fn lemma_pushed_series<T>(series: Seq<(u64, T)>, tick: u64, value: T)
    requires
        is_series(series, tick),
        tick <= TICK_LIMIT,
    ensures
        is_series(pushed(series, (tick, value)), next_tick(tick)),
        is_series(series, next_tick(tick)),
        ticks(pushed(series, (tick, value))) == pushed(ticks(series), tick),
{
    law_pushed_entries(series, (tick, value));
    law_pushed_entries(ticks(series), tick);
    assert(ticks(pushed(series, (tick, value))) =~= pushed(ticks(series), tick));
}

proof fn lemma_ticks_determine_series<T, U>(a: Seq<(u64, T)>, b: Seq<(u64, U)>, tick: u64)
    requires
        is_series(a, tick),
        ticks(b) == ticks(a),
    ensures
        is_series(b, tick),
{
    assert(a.len() == ticks(a).len() && b.len() == ticks(b).len());
    assert forall|i: int| 0 <= i < b.len() implies (#[trigger] b[i]).0 == a[i].0 by {
        assert(ticks(a)[i] == a[i].0 && ticks(b)[i] == b[i].0);
    }
}

/// In every state, each series that gets an entry from every sample is bounded and ordered in
/// time.
pub proof fn law_all_series_are_ordered(state: AppView)
    requires
        state.well_formed(),
    ensures
        is_series(state.plain_points, state.tick),
        is_series(state.indexed_points, state.tick),
        is_series(state.total_segments, state.tick),
        is_series(state.plain_segments, state.tick),
        is_series(state.nonplain_segments, state.tick),
        is_series(state.pending_optimizations, state.tick),
        is_series(state.opt_statuses, state.tick),
        is_ordered(state.opt_statuses),
{
    lemma_ticks_determine_series(state.queue_lengths, state.plain_points, state.tick);
    lemma_ticks_determine_series(state.queue_lengths, state.indexed_points, state.tick);
    lemma_ticks_determine_series(state.queue_lengths, state.total_segments, state.tick);
    lemma_ticks_determine_series(state.queue_lengths, state.plain_segments, state.tick);
    lemma_ticks_determine_series(state.queue_lengths, state.nonplain_segments, state.tick);
    lemma_ticks_determine_series(state.queue_lengths, state.pending_optimizations, state.tick);
    lemma_ticks_determine_series(state.queue_lengths, state.opt_statuses, state.tick);
}

/// The state before the first poll is well-formed.
pub proof fn law_initial_state(
    url: Seq<char>,
    api_key: Option<Seq<char>>,
    is_remote: bool,
    plots: PlotFlags,
)
    ensures
        AppView::initial(url, api_key, is_remote, plots).well_formed(),
{
    let state = AppView::initial(url, api_key, is_remote, plots);
    lemma_named_patterns();
    assert((Binary64 { bits: TEN_BITS }).exponent() == 1026);
    assert((Binary64 { bits: HUNDRED_BITS }).exponent() == 1029);
    assert(ticks(state.plain_points) =~= ticks(state.queue_lengths));
    assert(ticks(state.indexed_points) =~= ticks(state.queue_lengths));
    assert(ticks(state.total_segments) =~= ticks(state.queue_lengths));
    assert(ticks(state.plain_segments) =~= ticks(state.queue_lengths));
    assert(ticks(state.nonplain_segments) =~= ticks(state.queue_lengths));
    assert(ticks(state.pending_optimizations) =~= ticks(state.queue_lengths));
    assert(ticks(state.opt_statuses) =~= ticks(state.queue_lengths));
}

/// A series of values that fit an axis fits it after a new value.
proof fn lemma_pushed_below(
    series: Seq<(u64, Binary64)>,
    tick: u64,
    value: Binary64,
    max: Binary64,
    start: int,
)
    requires
        is_below(series, max),
        is_axis_end(max, start),
        !value.is_nan(),
    ensures
        is_below(pushed(series, (tick, value)), raised(max, value)),
        is_axis_end(raised(max, value), start),
{
    law_pushed_entries(series, (tick, value));
}

/// A series of counts that fit an axis fits every longer one, after a new count that fits it too.
proof fn lemma_pushed_count_below(
    series: Seq<(u64, u64)>,
    tick: u64,
    value: u64,
    max: u64,
    longer: u64,
)
    requires
        is_count_below(series, max),
        max <= longer,
        value <= longer,
    ensures
        is_count_below(pushed(series, (tick, value)), longer),
{
    law_pushed_entries(series, (tick, value));
}

/// The series that get an entry from every sample stay aligned.
proof fn lemma_recorded_is_aligned(state: AppView, sample: Sample)
    requires
        state.well_formed(),
    ensures
        state.recorded(sample).is_aligned(),
        is_series(state.recorded(sample).queue_lengths, next_tick(state.tick)),
{
    law_all_series_are_ordered(state);
    let tick = state.tick;
    lemma_pushed_series(state.queue_lengths, tick, sample.queue_length);
    lemma_pushed_series(state.plain_points, tick, sample.plain_points);
    lemma_pushed_series(state.indexed_points, tick, sample.indexed_points);
    lemma_pushed_series(state.total_segments, tick, sample.total_segments);
    lemma_pushed_series(state.plain_segments, tick, sample.plain_segments);
    lemma_pushed_series(state.nonplain_segments, tick, sample.nonplain_segments);
    lemma_pushed_series(state.pending_optimizations, tick, sample.pending_optimizations);
    lemma_pushed_series(state.opt_statuses, tick, sample.opt_kind);
}

/// The segments of a new sample add up, and so do those before it.
proof fn lemma_recorded_adds_up(state: AppView, sample: Sample)
    requires
        state.well_formed(),
        sample.total_segments == sample.plain_segments + sample.nonplain_segments,
    ensures
        state.recorded(sample).adds_up(),
{
    assert(state.total_segments.len() == ticks(state.total_segments).len());
    assert(state.plain_segments.len() == ticks(state.plain_segments).len());
    assert(state.nonplain_segments.len() == ticks(state.nonplain_segments).len());
    law_pushed_entries(state.total_segments, (state.tick, sample.total_segments));
    law_pushed_entries(state.plain_segments, (state.tick, sample.plain_segments));
    law_pushed_entries(state.nonplain_segments, (state.tick, sample.nonplain_segments));
}

/// The values of a new sample fit the axes, and so do those before it.
proof fn lemma_recorded_fits_axes(state: AppView, sample: Sample)
    requires
        state.well_formed(),
        is_measured(sample),
        sample.total_segments == sample.plain_segments + sample.nonplain_segments,
    ensures
        state.recorded(sample).fits_axes(),
        state.recorded(sample).has_axes(),
{
    let tick = state.tick;
    let after = state.recorded(sample);
    lemma_pushed_below(state.queue_lengths, tick, sample.queue_length, state.max_y_queue, 10);
    if let Some(latency) = sample.search_latency {
        lemma_pushed_below(state.search_latencies, tick, latency, state.max_y_search, 100);
    }
    if let Some(latency) = sample.filtered_search_latency {
        lemma_pushed_below(
            state.filtered_search_latencies,
            tick,
            latency,
            state.max_y_filtered_search,
            100,
        );
    }
    lemma_pushed_count_below(
        state.plain_points,
        tick,
        sample.plain_points,
        state.max_y_points,
        after.max_y_points,
    );
    lemma_pushed_count_below(
        state.indexed_points,
        tick,
        sample.indexed_points,
        state.max_y_points,
        after.max_y_points,
    );
    lemma_pushed_count_below(
        state.total_segments,
        tick,
        sample.total_segments,
        state.max_y_segments,
        after.max_y_segments,
    );
    lemma_pushed_count_below(
        state.plain_segments,
        tick,
        sample.plain_segments,
        state.max_y_segments,
        after.max_y_segments,
    );
    lemma_pushed_count_below(
        state.nonplain_segments,
        tick,
        sample.nonplain_segments,
        state.max_y_segments,
        after.max_y_segments,
    );
    lemma_pushed_count_below(
        state.pending_optimizations,
        tick,
        sample.pending_optimizations,
        state.max_y_segments,
        after.max_y_segments,
    );
}

/// Before the recording starts, only queue lengths that are not above zero have been seen.
proof fn lemma_recorded_remembers(state: AppView, sample: Sample)
    requires
        state.well_formed(),
        is_measured(sample),
        !state.recorded(sample).recording,
    ensures
        is_below(state.recorded(sample).queue_lengths, Binary64 { bits: ZERO_BITS }),
{
    lemma_named_patterns();
    law_pushed_entries(state.queue_lengths, (state.tick, sample.queue_length));
}

/// A poll keeps the state well-formed, whatever it brings.
pub proof fn law_poll_keeps_well_formed(state: AppView, result: Result<JsonView, ()>)
    requires
        state.well_formed(),
        match result {
            Ok(document) => document.well_formed() && (sample_of(document) is Some ==> all_segments(
                document,
            ).len() <= u64::MAX),
            Err(_) => true,
        },
    ensures
        state.polled(result).well_formed(),
{
    let after = state.polled(result);
    lemma_pushed_series(state.queue_lengths, state.tick, Binary64 { bits: 0 });
    lemma_pushed_series(state.search_latencies, state.tick, Binary64 { bits: 0 });
    lemma_pushed_series(state.filtered_search_latencies, state.tick, Binary64 { bits: 0 });
    if let Ok(document) = result {
        if let Some(sample) = sample_of(document) {
            law_segments_are_plain_or_not(document);
            law_samples_are_measured(document);
            assert(sample.total_segments == sample.plain_segments + sample.nonplain_segments);
            lemma_recorded_is_aligned(state, sample);
            lemma_recorded_adds_up(state, sample);
            lemma_recorded_fits_axes(state, sample);
            if !after.recording {
                lemma_recorded_remembers(state, sample);
            }
            if let Some(latency) = sample.search_latency {
                lemma_pushed_series(state.search_latencies, state.tick, latency);
            }
            if let Some(latency) = sample.filtered_search_latency {
                lemma_pushed_series(state.filtered_search_latencies, state.tick, latency);
            }
            let recorded = state.recorded(sample);
            assert(after.queue_lengths == recorded.queue_lengths);
            assert(after.is_aligned());
            assert(after.adds_up());
            assert(after.has_series());
            assert(after.fits_axes());
            assert(after.has_axes());
            assert(after.remembers());
        }
    }
}

/// Dropping the older half of each series keeps the state well-formed.
pub proof fn law_halving_keeps_well_formed(state: AppView)
    requires
        state.well_formed(),
    ensures
        state.halved().well_formed(),
{
    let after = state.halved();
    law_all_series_are_ordered(state);
    lemma_half_of_ticks(state.queue_lengths);
    lemma_half_of_ticks(state.plain_points);
    lemma_half_of_ticks(state.indexed_points);
    lemma_half_of_ticks(state.total_segments);
    lemma_half_of_ticks(state.plain_segments);
    lemma_half_of_ticks(state.nonplain_segments);
    lemma_half_of_ticks(state.pending_optimizations);
    lemma_half_of_ticks(state.opt_statuses);
    assert(state.total_segments.len() == ticks(state.total_segments).len());
    assert(state.plain_segments.len() == ticks(state.plain_segments).len());
    assert(state.nonplain_segments.len() == ticks(state.nonplain_segments).len());
    let half = state.total_segments.len() as int / 2;
    assert forall|i: int| 0 <= i < after.total_segments.len() implies (
    #[trigger] after.total_segments[i]).1 == after.plain_segments[i].1
        + after.nonplain_segments[i].1 by {
        assert(after.total_segments[i] == state.total_segments[i + half]);
        assert(after.plain_segments[i] == state.plain_segments[i + half]);
        assert(after.nonplain_segments[i] == state.nonplain_segments[i + half]);
    }
}

proof fn lemma_half_of_ticks<T>(series: Seq<(u64, T)>)
    ensures
        ticks(newer_half(series)) == newer_half(ticks(series)),
{
    assert(ticks(newer_half(series)) =~= newer_half(ticks(series)));
}

/// An attempt to save keeps the state well-formed.
pub proof fn law_saving_keeps_well_formed(state: AppView, text: Seq<char>, now: u64)
    requires
        state.well_formed(),
    ensures
        state.told(text, now).well_formed(),
{
    let after = state.told(text, now);
    assert(after.is_aligned());
    assert(after.adds_up());
    assert(after.has_series());
    assert(after.fits_axes());
    assert(after.has_axes());
    assert(after.remembers());
}

/// A reset forgets everything that has happened since the start.
pub proof fn law_reset_forgets(
    state: AppView,
    result: Result<JsonView, ()>,
    text: Seq<char>,
    now: u64,
)
    ensures
        state.polled(result).restarted() == state.restarted(),
        state.halved().restarted() == state.restarted(),
        state.told(text, now).restarted() == state.restarted(),
        state.restarted().restarted() == state.restarted(),
{
}

/// A poll that fails, or brings a document without a queue length, leaves all but the status and
/// the clock as it was; the document leaves the status too.
pub proof fn law_poll_without_sample_changes_little(state: AppView, result: Result<JsonView, ()>)
    requires
        match result {
            Ok(document) => sample_of(document) is None,
            Err(_) => true,
        },
    ensures
        state.polled(result) == (AppView {
            tick: next_tick(state.tick),
            status: state.polled(result).status,
            ..state
        }),
        result is Ok ==> state.polled(result).status == state.status,
        result is Err ==> state.polled(result).status != Status::Online,
        result is Err ==> (state.polled(result).status == Status::WaitingForProcess <==> state.tick
            == 0),
{
}

/// Once a queue length above zero has been seen, the recording goes on until a reset.
pub proof fn law_recording_goes_on(state: AppView, result: Result<JsonView, ()>)
    requires
        state.recording,
    ensures
        state.polled(result).recording,
        state.halved().recording,
        !state.restarted().recording,
{
}

/// The upper ends of the axes never sink between two resets.
pub proof fn law_axes_never_sink(state: AppView, result: Result<JsonView, ()>)
    ensures
        !state.max_y_queue.above(state.polled(result).max_y_queue),
        !state.max_y_search.above(state.polled(result).max_y_search),
        !state.max_y_filtered_search.above(state.polled(result).max_y_filtered_search),
        state.has_axes() ==> {
            &&& state.max_y_queue.units() <= state.polled(result).max_y_queue.units()
            &&& state.max_y_search.units() <= state.polled(result).max_y_search.units()
            &&& state.max_y_filtered_search.units() <= state.polled(
                result,
            ).max_y_filtered_search.units()
        },
        state.polled(result).max_y_points >= state.max_y_points,
        state.polled(result).max_y_segments >= state.max_y_segments,
        state.halved().max_y_queue == state.max_y_queue,
        state.halved().max_y_search == state.max_y_search,
        state.halved().max_y_filtered_search == state.max_y_filtered_search,
        state.halved().max_y_points == state.max_y_points,
        state.halved().max_y_segments == state.max_y_segments,
{
}

/// What happens to the monitor.
pub enum Step {
    Poll(Result<JsonView, ()>),
    Reset,
    DropFirstHalf,
    Tell(Seq<char>, u64),
}

impl AppView {
    /// The state after a step.
    pub open spec fn stepped(self, step: Step) -> AppView {
        match step {
            Step::Poll(result) => self.polled(result),
            Step::Reset => self.restarted(),
            Step::DropFirstHalf => self.halved(),
            Step::Tell(text, now) => self.told(text, now),
        }
    }

    /// The state after some steps.
    pub open spec fn after(self, steps: Seq<Step>) -> AppView
        decreases steps.len(),
    {
        if steps.len() == 0 {
            self
        } else {
            self.after(steps.drop_last()).stepped(steps.last())
        }
    }
}

/// Whether a document that a step brings is well-formed, and its segments can be counted in 64
/// bits. Both hold of every document in memory.
pub open spec fn is_readable(step: Step) -> bool {
    match step {
        Step::Poll(Ok(document)) => document.well_formed() && all_segments(document).len()
            <= u64::MAX,
        _ => true,
    }
}

/// Every state that the monitor can reach is well-formed, and it watches the same process with
/// the same plots as at the start.
pub proof fn law_every_state_is_well_formed(
    url: Seq<char>,
    api_key: Option<Seq<char>>,
    is_remote: bool,
    plots: PlotFlags,
    steps: Seq<Step>,
)
    requires
        forall|i: int| 0 <= i < steps.len() ==> is_readable(#[trigger] steps[i]),
    ensures
        AppView::initial(url, api_key, is_remote, plots).after(steps).well_formed(),
        AppView::initial(url, api_key, is_remote, plots).after(steps).restarted()
            == AppView::initial(url, api_key, is_remote, plots),
    decreases steps.len(),
{
    if steps.len() == 0 {
        law_initial_state(url, api_key, is_remote, plots);
    } else {
        let before = steps.drop_last();
        assert forall|i: int| 0 <= i < before.len() implies is_readable(#[trigger] before[i]) by {
            assert(before[i] == steps[i]);
        }
        law_every_state_is_well_formed(url, api_key, is_remote, plots, before);
        let state = AppView::initial(url, api_key, is_remote, plots).after(before);
        assert(is_readable(steps[steps.len() - 1]));
        match steps.last() {
            Step::Poll(result) => {
                law_poll_keeps_well_formed(state, result);
            },
            Step::Reset => {
                law_initial_state(url, api_key, is_remote, plots);
            },
            Step::DropFirstHalf => {
                law_halving_keeps_well_formed(state);
            },
            Step::Tell(text, now) => {
                law_saving_keeps_well_formed(state, text, now);
            },
        }
    }
}

/// In every state that the monitor can reach, all that has been recorded is a number that does not
/// lie above the upper end of its axis, and the axes reach at least as far as at the start.
pub proof fn law_values_fit_their_axes(
    url: Seq<char>,
    api_key: Option<Seq<char>>,
    is_remote: bool,
    plots: PlotFlags,
    steps: Seq<Step>,
)
    requires
        forall|i: int| 0 <= i < steps.len() ==> is_readable(#[trigger] steps[i]),
    ensures
        ({
            let state = AppView::initial(url, api_key, is_remote, plots).after(steps);
            &&& is_below(state.queue_lengths, state.max_y_queue)
            &&& is_below(state.search_latencies, state.max_y_search)
            &&& is_below(state.filtered_search_latencies, state.max_y_filtered_search)
            &&& is_count_below(state.plain_points, state.max_y_points)
            &&& is_count_below(state.indexed_points, state.max_y_points)
            &&& is_count_below(state.total_segments, state.max_y_segments)
            &&& is_count_below(state.plain_segments, state.max_y_segments)
            &&& is_count_below(state.nonplain_segments, state.max_y_segments)
            &&& is_count_below(state.pending_optimizations, state.max_y_segments)
            &&& is_axis_end(state.max_y_queue, 10)
            &&& is_axis_end(state.max_y_search, 100)
            &&& is_axis_end(state.max_y_filtered_search, 100)
            &&& state.max_y_points >= 100
            &&& state.max_y_segments >= 10
        }),
{
    law_every_state_is_well_formed(url, api_key, is_remote, plots, steps);
}

/// Whether all ticks of a series lie between two ticks.
pub open spec fn lies_between<T>(series: Seq<(u64, T)>, first: u64, last: u64) -> bool {
    forall|i: int| 0 <= i < series.len() ==> first <= (#[trigger] series[i]).0 <= last
}

/// In every well-formed state, the charts reach as far as what they show: the range of ticks of
/// the queue lengths and of the segments goes from the first to the last one, and nothing lies
/// above the range of values.
pub proof fn law_charts_hold_what_they_show(state: AppView)
    requires
        state.well_formed(),
    ensures
        state.queue_lengths.len() > 0 ==> lies_between(
            state.queue_lengths,
            state.queue_lengths.first().0,
            state.queue_lengths.last().0,
        ),
        is_below(state.queue_lengths, at_least_one(state.max_y_queue)),
        ({
            let end = at_least_one(state.max_y_search.larger(state.max_y_filtered_search));
            &&& is_below(state.search_latencies, end)
            &&& is_below(state.filtered_search_latencies, end)
        }),
        ({
            let end = count_at_least_one(state.max_y_points);
            &&& is_count_below(state.plain_points, end)
            &&& is_count_below(state.indexed_points, end)
        }),
        state.total_segments.len() > 0 ==> {
            let (first, last) = (state.total_segments.first().0, state.total_segments.last().0);
            &&& lies_between(state.total_segments, first, last)
            &&& lies_between(state.plain_segments, first, last)
            &&& lies_between(state.nonplain_segments, first, last)
            &&& lies_between(state.pending_optimizations, first, last)
            &&& lies_between(state.opt_statuses, first, last)
        },
        ({
            let end = count_at_least_one(state.max_y_segments);
            &&& is_count_below(state.total_segments, end)
            &&& is_count_below(state.plain_segments, end)
            &&& is_count_below(state.nonplain_segments, end)
            &&& is_count_below(state.pending_optimizations, end)
        }),
{
    lemma_named_patterns();
    law_all_series_are_ordered(state);
    if state.total_segments.len() > 0 {
        let all = state.total_segments;
        assert(lies_between(all, all.first().0, all.last().0));
        lemma_ticks_lie_between(all, state.plain_segments);
        lemma_ticks_lie_between(all, state.nonplain_segments);
        lemma_ticks_lie_between(all, state.pending_optimizations);
        lemma_ticks_lie_between(all, state.opt_statuses);
    }
}

proof fn lemma_ticks_lie_between<T, U>(a: Seq<(u64, T)>, b: Seq<(u64, U)>)
    requires
        lies_between(a, a.first().0, a.last().0),
        ticks(b) == ticks(a),
    ensures
        lies_between(b, a.first().0, a.last().0),
{
    assert(a.len() == ticks(a).len() && b.len() == ticks(b).len());
    assert forall|i: int| 0 <= i < b.len() implies a.first().0 <= (
    #[trigger] b[i]).0 <= a.last().0 by {
        assert(ticks(a)[i] == a[i].0 && ticks(b)[i] == b[i].0);
    }
}

/// The number of polls since the last reset, or since the start.
pub open spec fn polls_since_reset(steps: Seq<Step>) -> nat
    decreases steps.len(),
{
    if steps.len() == 0 {
        0
    } else {
        match steps.last() {
            Step::Poll(_) => polls_since_reset(steps.drop_last()) + 1,
            Step::Reset => 0,
            _ => polls_since_reset(steps.drop_last()),
        }
    }
}

/// The clock counts the polls since the last reset, whatever they bring, up to where it stands
/// still.
pub proof fn law_clock_counts_polls(state: AppView, steps: Seq<Step>)
    requires
        state.tick == 0,
    ensures
        state.after(steps).tick == if polls_since_reset(steps) < TICK_LIMIT {
            polls_since_reset(steps) as int
        } else {
            TICK_LIMIT as int
        },
    decreases steps.len(),
{
    if steps.len() > 0 {
        law_clock_counts_polls(state, steps.drop_last());
    }
}

} // verus!
