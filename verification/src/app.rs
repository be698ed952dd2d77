//! The state of the monitor and what changes it.
use crate::binary64::{Binary64, HUNDRED_BITS, TEN_BITS, ZERO_BITS};
use crate::history::{
    document_is_taken_in, is_blank, law_every_series_is_halved, law_poll_takes_in_its_document,
    law_reset_leaves_a_blank_state, law_sample_is_entered, older_halves_are_dropped,
    sample_is_entered, watch_the_same,
};
use crate::json::{json, Json, JsonView};
use crate::options::{telemetry_url, AccessConfig, Endpoint, PlotFlags, DEFAULT_URL};
use crate::series::{drain_half, newer_half, push_bounded, pushed};
use crate::states::{
    law_halving_keeps_well_formed, law_initial_state, law_poll_keeps_well_formed,
};
use crate::telemetry::{
    checked_segment_points, find_update_queue_length, first_queue_length, points_fit, read_sample,
    sample_of, OptKind, Sample,
};
use serde_json::Value;
use vstd::prelude::*;

verus! {

/// The number of polls that are told apart: two to the power of 53. The clock stands still from
/// there on.
pub const TICK_LIMIT: u64 = 0x20_0000_0000_0000;

/// The contact with the watched process.
#[derive(Clone, Copy, Debug, PartialEq, Eq, Structural)]
pub enum Status {
    WaitingForProcess,
    Online,
    Offline,
}

/// The state of the monitor. A series holds, with the poll at which it was taken, one entry for
/// each sample that gave a value for it.
#[derive(Debug)]
pub struct App {
    pub queue_lengths: Vec<(u64, Binary64)>,
    pub max_y_queue: Binary64,
    pub search_latencies: Vec<(u64, Binary64)>,
    pub filtered_search_latencies: Vec<(u64, Binary64)>,
    pub max_y_search: Binary64,
    pub max_y_filtered_search: Binary64,
    pub plain_points: Vec<(u64, u64)>,
    pub indexed_points: Vec<(u64, u64)>,
    pub max_y_points: u64,
    pub total_segments: Vec<(u64, u64)>,
    pub plain_segments: Vec<(u64, u64)>,
    pub nonplain_segments: Vec<(u64, u64)>,
    pub pending_optimizations: Vec<(u64, u64)>,
    pub opt_statuses: Vec<(u64, OptKind)>,
    pub max_y_segments: u64,
    /// The number of polls so far, up to [`TICK_LIMIT`].
    pub tick: u64,
    pub status: Status,
    /// Whether a queue length above zero has been seen.
    pub recording: bool,
    /// The last document that gave a sample.
    pub last_json: Option<Value>,
    /// The outcome of the last attempt to save, with the time of it in nanoseconds.
    pub save_msg: Option<(String, u64)>,
    pub url: String,
    pub api_key: Option<String>,
    pub is_remote: bool,
    pub plots: PlotFlags,
}

/// The mathematical counterpart of [`App`].
#[verifier::ext_equal]
pub struct AppView {
    pub queue_lengths: Seq<(u64, Binary64)>,
    pub max_y_queue: Binary64,
    pub search_latencies: Seq<(u64, Binary64)>,
    pub filtered_search_latencies: Seq<(u64, Binary64)>,
    pub max_y_search: Binary64,
    pub max_y_filtered_search: Binary64,
    pub plain_points: Seq<(u64, u64)>,
    pub indexed_points: Seq<(u64, u64)>,
    pub max_y_points: u64,
    pub total_segments: Seq<(u64, u64)>,
    pub plain_segments: Seq<(u64, u64)>,
    pub nonplain_segments: Seq<(u64, u64)>,
    pub pending_optimizations: Seq<(u64, u64)>,
    pub opt_statuses: Seq<(u64, OptKind)>,
    pub max_y_segments: u64,
    pub tick: u64,
    pub status: Status,
    pub recording: bool,
    pub last_json: Option<JsonView>,
    pub save_msg: Option<(Seq<char>, u64)>,
    pub url: Seq<char>,
    pub api_key: Option<Seq<char>>,
    pub is_remote: bool,
    pub plots: PlotFlags,
}

impl View for App {
    type V = AppView;

    open spec fn view(&self) -> AppView {
        AppView {
            queue_lengths: self.queue_lengths@,
            max_y_queue: self.max_y_queue,
            search_latencies: self.search_latencies@,
            filtered_search_latencies: self.filtered_search_latencies@,
            max_y_search: self.max_y_search,
            max_y_filtered_search: self.max_y_filtered_search,
            plain_points: self.plain_points@,
            indexed_points: self.indexed_points@,
            max_y_points: self.max_y_points,
            total_segments: self.total_segments@,
            plain_segments: self.plain_segments@,
            nonplain_segments: self.nonplain_segments@,
            pending_optimizations: self.pending_optimizations@,
            opt_statuses: self.opt_statuses@,
            max_y_segments: self.max_y_segments,
            tick: self.tick,
            status: self.status,
            recording: self.recording,
            last_json: match self.last_json {
                Some(document) => Some(json(document)),
                None => None,
            },
            save_msg: match self.save_msg {
                Some((text, time)) => Some((text@, time)),
                None => None,
            },
            url: self.url@,
            api_key: match self.api_key {
                Some(key) => Some(key@),
                None => None,
            },
            is_remote: self.is_remote,
            plots: self.plots,
        }
    }
}

/// The number of polls after one more.
pub open spec fn next_tick(tick: u64) -> u64 {
    if tick < TICK_LIMIT {
        (tick + 1) as u64
    } else {
        tick
    }
}

/// A series after a value that a sample may lack.
pub open spec fn pushed_if_some(
    series: Seq<(u64, Binary64)>,
    tick: u64,
    value: Option<Binary64>,
) -> Seq<(u64, Binary64)> {
    match value {
        Some(value) => pushed(series, (tick, value)),
        None => series,
    }
}

/// The upper end of an axis after a value.
pub open spec fn raised(max: Binary64, value: Binary64) -> Binary64 {
    if value.above(max) {
        value
    } else {
        max
    }
}

/// The upper end of an axis after a value that a sample may lack.
pub open spec fn raised_if_some(max: Binary64, value: Option<Binary64>) -> Binary64 {
    match value {
        Some(value) => raised(max, value),
        None => max,
    }
}

/// The largest of three counts.
pub open spec fn largest(a: u64, b: u64, c: u64) -> u64 {
    if b > a && b >= c {
        b
    } else if c > a {
        c
    } else {
        a
    }
}

/// Raises the upper end of an axis to a value above it.
fn raise(max: &mut Binary64, value: Binary64)
    ensures
        *final(max) == raised(*old(max), value),
{
    if value.greater_than(max) {
        *max = value;
    }
}

/// Raises the upper end of an axis to the larger of two counts.
fn raise_count(max: &mut u64, a: u64, b: u64)
    ensures
        *final(max) == largest(*old(max), a, b),
{
    let larger: u64 = if a >= b {
        a
    } else {
        b
    };
    if larger > *max {
        *max = larger;
    }
}

impl AppView {
    /// The state before the first poll.
    pub open spec fn initial(
        url: Seq<char>,
        api_key: Option<Seq<char>>,
        is_remote: bool,
        plots: PlotFlags,
    ) -> AppView {
        AppView {
            queue_lengths: Seq::empty(),
            max_y_queue: Binary64 { bits: TEN_BITS },
            search_latencies: Seq::empty(),
            filtered_search_latencies: Seq::empty(),
            max_y_search: Binary64 { bits: HUNDRED_BITS },
            max_y_filtered_search: Binary64 { bits: HUNDRED_BITS },
            plain_points: Seq::empty(),
            indexed_points: Seq::empty(),
            max_y_points: 100,
            total_segments: Seq::empty(),
            plain_segments: Seq::empty(),
            nonplain_segments: Seq::empty(),
            pending_optimizations: Seq::empty(),
            opt_statuses: Seq::empty(),
            max_y_segments: 10,
            tick: 0,
            status: Status::WaitingForProcess,
            recording: false,
            last_json: None,
            save_msg: None,
            url,
            api_key,
            is_remote,
            plots,
        }
    }

    /// The state that watches the same process with the same plots from the start.
    pub open spec fn restarted(self) -> AppView {
        AppView::initial(self.url, self.api_key, self.is_remote, self.plots)
    }

    /// The state without the older half of each series.
    pub open spec fn halved(self) -> AppView {
        AppView {
            queue_lengths: newer_half(self.queue_lengths),
            search_latencies: newer_half(self.search_latencies),
            filtered_search_latencies: newer_half(self.filtered_search_latencies),
            plain_points: newer_half(self.plain_points),
            indexed_points: newer_half(self.indexed_points),
            total_segments: newer_half(self.total_segments),
            plain_segments: newer_half(self.plain_segments),
            nonplain_segments: newer_half(self.nonplain_segments),
            pending_optimizations: newer_half(self.pending_optimizations),
            opt_statuses: newer_half(self.opt_statuses),
            ..self
        }
    }

    /// The state after a sample has been entered at the current tick.
    pub open spec fn recorded(self, sample: Sample) -> AppView {
        AppView {
            status: Status::Online,
            recording: self.recording || sample.queue_length.above(Binary64 { bits: ZERO_BITS }),
            queue_lengths: pushed(self.queue_lengths, (self.tick, sample.queue_length)),
            max_y_queue: raised(self.max_y_queue, sample.queue_length),
            search_latencies: pushed_if_some(
                self.search_latencies,
                self.tick,
                sample.search_latency,
            ),
            max_y_search: raised_if_some(self.max_y_search, sample.search_latency),
            filtered_search_latencies: pushed_if_some(
                self.filtered_search_latencies,
                self.tick,
                sample.filtered_search_latency,
            ),
            max_y_filtered_search: raised_if_some(
                self.max_y_filtered_search,
                sample.filtered_search_latency,
            ),
            plain_points: pushed(self.plain_points, (self.tick, sample.plain_points)),
            indexed_points: pushed(self.indexed_points, (self.tick, sample.indexed_points)),
            max_y_points: largest(self.max_y_points, sample.plain_points, sample.indexed_points),
            total_segments: pushed(self.total_segments, (self.tick, sample.total_segments)),
            plain_segments: pushed(self.plain_segments, (self.tick, sample.plain_segments)),
            nonplain_segments: pushed(
                self.nonplain_segments,
                (self.tick, sample.nonplain_segments),
            ),
            pending_optimizations: pushed(
                self.pending_optimizations,
                (self.tick, sample.pending_optimizations),
            ),
            opt_statuses: pushed(self.opt_statuses, (self.tick, sample.opt_kind)),
            max_y_segments: largest(
                self.max_y_segments,
                sample.total_segments,
                sample.pending_optimizations,
            ),
            ..self
        }
    }

    /// The state after a poll that brought a document, or failed.
    pub open spec fn polled(self, result: Result<JsonView, ()>) -> AppView {
        let after = match result {
            Ok(document) => match sample_of(document) {
                Some(sample) => AppView {
                    last_json: Some(document),
                    ..self.recorded(sample)
                },
                None => self,
            },
            Err(_) => AppView {
                status: if self.tick == 0 {
                    Status::WaitingForProcess
                } else {
                    Status::Offline
                },
                ..self
            },
        };
        AppView { tick: next_tick(self.tick), ..after }
    }
}

/// What a poll brought.
pub open spec fn brought(result: Result<Value, ()>) -> Result<JsonView, ()> {
    match result {
        Ok(document) => Ok(json(document)),
        Err(_) => Err(()),
    }
}

/// Whether the points in a document that gives a sample can be counted.
pub open spec fn countable(result: Result<JsonView, ()>) -> bool {
    match result {
        Ok(document) => first_queue_length(document) is Some ==> points_fit(document),
        Err(_) => true,
    }
}

impl App {
    /// The state before the first poll of the process that the access file gives, or of the
    /// local one.
    pub fn new(skip_access: bool, access: Option<AccessConfig>, plots: PlotFlags) -> (app: App)
        ensures
            match access {
                Some(config) if !skip_access => app@ == AppView::initial(
                    telemetry_url(config.url@),
                    Some(config.api_key@),
                    true,
                    plots,
                ),
                _ => app@ == AppView::initial(DEFAULT_URL@, None, false, plots),
            },
            app@.well_formed(),
    {
        let endpoint = Endpoint::choose_endpoint(skip_access, access);
        let app = App {
            queue_lengths: Vec::new(),
            max_y_queue: Binary64 { bits: TEN_BITS },
            search_latencies: Vec::new(),
            filtered_search_latencies: Vec::new(),
            max_y_search: Binary64 { bits: HUNDRED_BITS },
            max_y_filtered_search: Binary64 { bits: HUNDRED_BITS },
            plain_points: Vec::new(),
            indexed_points: Vec::new(),
            max_y_points: 100,
            total_segments: Vec::new(),
            plain_segments: Vec::new(),
            nonplain_segments: Vec::new(),
            pending_optimizations: Vec::new(),
            opt_statuses: Vec::new(),
            max_y_segments: 10,
            tick: 0,
            status: Status::WaitingForProcess,
            recording: false,
            last_json: None,
            save_msg: None,
            url: endpoint.url,
            api_key: endpoint.api_key,
            is_remote: endpoint.is_remote,
            plots,
        };
        proof {
            law_initial_state(app@.url, app@.api_key, app.is_remote, app.plots);
        }
        app
    }

    /// Forgets everything but what to watch and what to show.
    pub fn reset(&mut self)
        ensures
            final(self)@ == old(self)@.restarted(),
            is_blank(final(self)@),
            watch_the_same(old(self)@, final(self)@),
            final(self)@.well_formed(),
    {
        proof {
            law_reset_leaves_a_blank_state(
                self@,
                self@.url,
                self@.api_key,
                self.is_remote,
                self.plots,
            );
            law_initial_state(self@.url, self@.api_key, self.is_remote, self.plots);
        }
        self.queue_lengths.clear();
        self.search_latencies.clear();
        self.filtered_search_latencies.clear();
        self.plain_points.clear();
        self.indexed_points.clear();
        self.total_segments.clear();
        self.plain_segments.clear();
        self.nonplain_segments.clear();
        self.pending_optimizations.clear();
        self.opt_statuses.clear();
        self.tick = 0;
        self.status = Status::WaitingForProcess;
        self.max_y_queue = Binary64 { bits: TEN_BITS };
        self.max_y_search = Binary64 { bits: HUNDRED_BITS };
        self.max_y_filtered_search = Binary64 { bits: HUNDRED_BITS };
        self.max_y_points = 100;
        self.max_y_segments = 10;
        self.recording = false;
        self.last_json = None;
        self.save_msg = None;
    }

    /// Drops the older half of each series.
    pub fn drop_first_half(&mut self)
        ensures
            final(self)@ == old(self)@.halved(),
            older_halves_are_dropped(old(self)@, final(self)@),
            old(self)@.well_formed() ==> final(self)@.well_formed(),
    {
        proof {
            law_every_series_is_halved(self@);
            if self@.well_formed() {
                law_halving_keeps_well_formed(self@);
            }
        }
        drain_half(&mut self.queue_lengths);
        drain_half(&mut self.search_latencies);
        drain_half(&mut self.filtered_search_latencies);
        drain_half(&mut self.plain_points);
        drain_half(&mut self.indexed_points);
        drain_half(&mut self.total_segments);
        drain_half(&mut self.plain_segments);
        drain_half(&mut self.nonplain_segments);
        drain_half(&mut self.pending_optimizations);
        drain_half(&mut self.opt_statuses);
    }

    /// Enters the measurements of a sample at the current tick.
    fn record_measurements(&mut self, sample: &Sample)
        ensures
            final(self)@ == (AppView {
                queue_lengths: old(self)@.recorded(*sample).queue_lengths,
                max_y_queue: old(self)@.recorded(*sample).max_y_queue,
                search_latencies: old(self)@.recorded(*sample).search_latencies,
                max_y_search: old(self)@.recorded(*sample).max_y_search,
                filtered_search_latencies: old(self)@.recorded(*sample).filtered_search_latencies,
                max_y_filtered_search: old(self)@.recorded(*sample).max_y_filtered_search,
                ..old(self)@
            }),
            final(self).last_json == old(self).last_json,
    {
        let tick: u64 = self.tick;
        push_bounded(&mut self.queue_lengths, (tick, sample.queue_length));
        raise(&mut self.max_y_queue, sample.queue_length);
        if let Some(latency) = sample.search_latency {
            push_bounded(&mut self.search_latencies, (tick, latency));
            raise(&mut self.max_y_search, latency);
        }
        if let Some(latency) = sample.filtered_search_latency {
            push_bounded(&mut self.filtered_search_latencies, (tick, latency));
            raise(&mut self.max_y_filtered_search, latency);
        }
    }

    /// Enters the counts of a sample at the current tick.
    fn record_counts(&mut self, sample: &Sample)
        ensures
            final(self)@ == (AppView {
                plain_points: old(self)@.recorded(*sample).plain_points,
                indexed_points: old(self)@.recorded(*sample).indexed_points,
                max_y_points: old(self)@.recorded(*sample).max_y_points,
                total_segments: old(self)@.recorded(*sample).total_segments,
                plain_segments: old(self)@.recorded(*sample).plain_segments,
                nonplain_segments: old(self)@.recorded(*sample).nonplain_segments,
                pending_optimizations: old(self)@.recorded(*sample).pending_optimizations,
                opt_statuses: old(self)@.recorded(*sample).opt_statuses,
                max_y_segments: old(self)@.recorded(*sample).max_y_segments,
                ..old(self)@
            }),
            final(self).last_json == old(self).last_json,
    {
        let tick: u64 = self.tick;
        push_bounded(&mut self.plain_points, (tick, sample.plain_points));
        push_bounded(&mut self.indexed_points, (tick, sample.indexed_points));
        raise_count(&mut self.max_y_points, sample.plain_points, sample.indexed_points);
        push_bounded(&mut self.total_segments, (tick, sample.total_segments));
        push_bounded(&mut self.plain_segments, (tick, sample.plain_segments));
        push_bounded(&mut self.nonplain_segments, (tick, sample.nonplain_segments));
        push_bounded(&mut self.pending_optimizations, (tick, sample.pending_optimizations));
        push_bounded(&mut self.opt_statuses, (tick, sample.opt_kind));
        raise_count(
            &mut self.max_y_segments,
            sample.total_segments,
            sample.pending_optimizations,
        );
    }

    /// Enters a sample at the current tick.
    pub fn record(&mut self, sample: &Sample)
        ensures
            final(self)@ == old(self)@.recorded(*sample),
            sample_is_entered(old(self)@, *sample, final(self)@),
            final(self).last_json == old(self).last_json,
    {
        proof {
            law_sample_is_entered(self@, *sample);
        }
        self.status = Status::Online;
        if !self.recording && sample.queue_length.greater_than(&Binary64 { bits: ZERO_BITS }) {
            self.recording = true;
        }
        self.record_measurements(sample);
        self.record_counts(sample);
    }

    /// Takes in what a poll brought: a document, or a failure.
    pub fn apply_poll_result(&mut self, result: Result<Value, ()>)
        requires
            countable(brought(result)),
        ensures
            final(self)@ == old(self)@.polled(brought(result)),
            match result {
                Ok(value) => match first_queue_length(json(value)) {
                    Some(_) => {
                        &&& final(self).last_json == Some(value)
                        &&& document_is_taken_in(
                            old(self)@,
                            json(value),
                            sample_of(json(value))->0,
                            final(self)@,
                        )
                    },
                    None => final(self).last_json == old(self).last_json,
                },
                Err(_) => final(self).last_json == old(self).last_json,
            },
            old(self)@.well_formed() ==> final(self)@.well_formed(),
    {
        match result {
            Ok(value) => {
                let document = Json::read(&value);
                let sample = read_sample(&document);
                proof {
                    if first_queue_length(json(value)) is Some {
                        law_poll_takes_in_its_document(self@, json(value));
                    }
                    if self@.well_formed() {
                        law_poll_keeps_well_formed(self@, brought(result));
                    }
                }
                if let Some(sample) = sample {
                    self.record(&sample);
                    self.last_json = Some(value);
                }
            },
            Err(_) => {
                proof {
                    if self@.well_formed() {
                        law_poll_keeps_well_formed(self@, brought(result));
                    }
                }
                self.status = if self.tick == 0 {
                    Status::WaitingForProcess
                } else {
                    Status::Offline
                };
            },
        }
        if self.tick < TICK_LIMIT {
            self.tick = self.tick + 1;
        }
    }

    /// Takes in what a poll brought, unless its points cannot be counted.
    pub fn try_apply_poll_result(&mut self, result: Result<Value, ()>) -> (applied: bool)
        ensures
            applied == countable(brought(result)),
            applied ==> final(self)@ == old(self)@.polled(brought(result)),
            !applied ==> *final(self) == *old(self),
            old(self)@.well_formed() ==> final(self)@.well_formed(),
    {
        if let Ok(value) = &result {
            let document = Json::read(value);
            if find_update_queue_length(&document).is_some() && checked_segment_points(
                &document,
            ).is_none() {
                return false;
            }
        }
        self.apply_poll_result(result);
        true
    }
}

} // verus!
