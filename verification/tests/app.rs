use serde_json::Value;
use telemetry_monitor::app::{App, Status, TICK_LIMIT};
use telemetry_monitor::binary64::Binary64;
use telemetry_monitor::options::PlotFlags;
use telemetry_monitor::series::{drain_half, push_bounded, MAX_POINTS};
use telemetry_monitor::telemetry::{OptKind, Sample};

fn of(value: f64) -> Binary64 {
    Binary64 { bits: value.to_bits() }
}

fn fresh() -> App {
    App::new(true, None, PlotFlags { queue: true, search: true, points: true, segments: true })
}

fn document(text: &str) -> Result<Value, ()> {
    Ok(serde_json::from_str(text).unwrap())
}

fn queue(length: &str) -> Result<Value, ()> {
    document(&format!("{{\"update_queue\": {{\"length\": {length}}}}}"))
}

fn full() -> Result<Value, ()> {
    document(
        "{\"update_queue\": {\"length\": 12.5}, \"result\": {
            \"requests\": {\"grpc\": {\"responses\": {\"/qdrant.Points/QueryBatch\": {\"avg_duration_micros\": 250.25}}}},
            \"collections\": {\"collections\": [{\"shards\": [{\"local\": {
                \"segments\": [
                    {\"info\": {\"num_points\": 120}, \"config\": {\"vector_data\": {\"\": {\"index\": {\"type\": \"plain\"}}}},
                     \"vector_index_searches\": [{\"filtered_plain\": {\"avg_duration_micros\": 90}}]},
                    {\"info\": {\"num_points\": 30}}
                ],
                \"optimizations\": {\"log\": [{\"status\": \"optimizing\", \"name\": \"merge\"}, {\"status\": \"done\"}]}
            }}]}]}
        }}",
    )
}

#[test]
fn first_state_is_empty() {
    let app = fresh();
    assert_eq!(app.tick, 0);
    assert_eq!(app.status, Status::WaitingForProcess);
    assert!(!app.recording);
    assert_eq!(app.max_y_queue, of(10.0));
    assert_eq!(app.max_y_search, of(100.0));
    assert_eq!(app.max_y_filtered_search, of(100.0));
    assert_eq!(app.max_y_points, 100);
    assert_eq!(app.max_y_segments, 10);
    assert!(app.queue_lengths.is_empty() && app.opt_statuses.is_empty());
    assert!(app.last_json.is_none() && app.save_msg.is_none());
}

#[test]
fn document_is_entered_into_every_series() {
    let mut app = fresh();
    assert!(app.try_apply_poll_result(full()));
    assert_eq!(app.tick, 1);
    assert_eq!(app.status, Status::Online);
    assert!(app.recording);
    assert_eq!(app.queue_lengths, vec![(0, of(12.5))]);
    assert_eq!(app.max_y_queue, of(12.5));
    assert_eq!(app.search_latencies, vec![(0, of(250.25))]);
    assert_eq!(app.max_y_search, of(250.25));
    assert_eq!(app.filtered_search_latencies, vec![(0, of(90.0))]);
    assert_eq!(app.max_y_filtered_search, of(100.0));
    assert_eq!(app.plain_points, vec![(0, 120)]);
    assert_eq!(app.indexed_points, vec![(0, 30)]);
    assert_eq!(app.max_y_points, 120);
    assert_eq!(app.total_segments, vec![(0, 2)]);
    assert_eq!(app.plain_segments, vec![(0, 1)]);
    assert_eq!(app.nonplain_segments, vec![(0, 1)]);
    assert_eq!(app.pending_optimizations, vec![(0, 1)]);
    assert_eq!(app.opt_statuses, vec![(0, OptKind::MergeOnly)]);
    assert_eq!(app.max_y_segments, 10);
    assert_eq!(app.last_json, full().ok());
}

#[test]
fn missing_latencies_leave_their_series_alone() {
    let mut app = fresh();
    app.apply_poll_result(full());
    app.apply_poll_result(queue("1"));
    assert_eq!(app.queue_lengths.len(), 2);
    assert_eq!(app.search_latencies.len(), 1);
    assert_eq!(app.filtered_search_latencies.len(), 1);
    assert_eq!(app.opt_statuses, vec![(0, OptKind::MergeOnly), (1, OptKind::Idle)]);
}

#[test]
fn failure_before_any_poll_is_waiting_and_offline_later() {
    let mut app = fresh();
    app.apply_poll_result(Err(()));
    assert_eq!(app.status, Status::WaitingForProcess);
    assert_eq!(app.tick, 1);
    app.apply_poll_result(Err(()));
    assert_eq!(app.status, Status::Offline);
    app.apply_poll_result(queue("0"));
    assert_eq!(app.status, Status::Online);
    app.apply_poll_result(Err(()));
    assert_eq!(app.status, Status::Offline);
    assert_eq!(app.tick, 4);
    assert_eq!(app.queue_lengths, vec![(2, of(0.0))]);
}

#[test]
fn document_without_a_queue_length_only_moves_the_clock() {
    let mut app = fresh();
    app.apply_poll_result(queue("2"));
    let before = app.last_json.clone();
    app.apply_poll_result(document("{\"result\": {}}"));
    assert_eq!(app.tick, 2);
    assert_eq!(app.status, Status::Online);
    assert_eq!(app.queue_lengths.len(), 1);
    assert_eq!(app.last_json, before);
}

#[test]
fn recording_starts_with_a_queue_length_above_zero() {
    let mut app = fresh();
    app.apply_poll_result(queue("0"));
    app.apply_poll_result(queue("-3"));
    assert!(!app.recording);
    app.apply_poll_result(queue("0.5"));
    assert!(app.recording);
    app.apply_poll_result(queue("0"));
    app.drop_first_half();
    assert!(app.recording);
}

#[test]
fn document_with_too_many_points_is_not_taken_in() {
    let text = "{\"update_queue\": {\"length\": 1}, \"result\": {\"collections\": {\"collections\": [{\"shards\": [{\"local\": {\"segments\": [
        {\"info\": {\"num_points\": 18446744073709551615}}, {\"info\": {\"num_points\": 1}}]}}]}]}}}";
    let mut app = fresh();
    assert!(!app.try_apply_poll_result(document(text)));
    assert_eq!(app.tick, 0);
    assert!(app.queue_lengths.is_empty());
    let unread = text.replace("update_queue", "other");
    assert!(app.try_apply_poll_result(document(&unread)));
    assert_eq!(app.tick, 1);
    assert!(app.try_apply_poll_result(Err(())));
    assert_eq!(app.tick, 2);
}

#[test]
fn axes_grow_with_the_values() {
    let mut app = fresh();
    let mut sample = Sample {
        queue_length: of(4.0),
        search_latency: Some(of(40.0)),
        filtered_search_latency: Some(of(400.0)),
        plain_points: 4,
        indexed_points: 400,
        total_segments: 3,
        plain_segments: 1,
        nonplain_segments: 2,
        pending_optimizations: 30,
        opt_kind: OptKind::Both,
    };
    app.record(&sample);
    assert_eq!(app.max_y_queue, of(10.0));
    assert_eq!(app.max_y_search, of(100.0));
    assert_eq!(app.max_y_filtered_search, of(400.0));
    assert_eq!(app.max_y_points, 400);
    assert_eq!(app.max_y_segments, 30);
    sample.plain_points = 500;
    sample.total_segments = 40;
    sample.queue_length = of(f64::NAN);
    app.record(&sample);
    assert_eq!(app.max_y_points, 500);
    assert_eq!(app.max_y_segments, 40);
    assert_eq!(app.max_y_queue, of(10.0));
    assert_eq!(app.tick, 0);
}

#[test]
fn reset_leads_back_to_the_first_state() {
    let mut app = fresh();
    app.apply_poll_result(full());
    app.apply_poll_result(Err(()));
    app.save_json("stamp", 5);
    app.reset();
    let first = fresh();
    assert_eq!(app.queue_lengths, first.queue_lengths);
    assert_eq!(app.search_latencies, first.search_latencies);
    assert_eq!(app.filtered_search_latencies, first.filtered_search_latencies);
    assert_eq!(app.plain_points, first.plain_points);
    assert_eq!(app.indexed_points, first.indexed_points);
    assert_eq!(app.total_segments, first.total_segments);
    assert_eq!(app.plain_segments, first.plain_segments);
    assert_eq!(app.nonplain_segments, first.nonplain_segments);
    assert_eq!(app.pending_optimizations, first.pending_optimizations);
    assert_eq!(app.opt_statuses, first.opt_statuses);
    assert_eq!(app.max_y_queue, first.max_y_queue);
    assert_eq!(app.max_y_search, first.max_y_search);
    assert_eq!(app.max_y_filtered_search, first.max_y_filtered_search);
    assert_eq!(app.max_y_points, first.max_y_points);
    assert_eq!(app.max_y_segments, first.max_y_segments);
    assert_eq!(app.tick, 0);
    assert_eq!(app.status, Status::WaitingForProcess);
    assert!(!app.recording);
    assert!(app.last_json.is_none() && app.save_msg.is_none());
    assert_eq!(app.url, first.url);
    assert_eq!(app.plots, first.plots);
}

#[test]
fn older_half_of_each_series_is_dropped() {
    let mut app = fresh();
    for length in 0..5 {
        app.apply_poll_result(queue(&format!("{length}")));
    }
    app.drop_first_half();
    assert_eq!(app.queue_lengths, vec![(2, of(2.0)), (3, of(3.0)), (4, of(4.0))]);
    assert_eq!(app.opt_statuses.len(), 3);
    assert_eq!(app.tick, 5);
    app.drop_first_half();
    app.drop_first_half();
    assert_eq!(app.queue_lengths, vec![(4, of(4.0))]);
    app.drop_first_half();
    assert_eq!(app.queue_lengths, vec![(4, of(4.0))]);
}

#[test]
fn half_of_an_empty_series_is_empty() {
    let mut series: Vec<u8> = Vec::new();
    drain_half(&mut series);
    assert!(series.is_empty());
}

#[test]
fn series_holds_the_newest_entries() {
    let mut series: Vec<usize> = Vec::new();
    for entry in 0..MAX_POINTS + 3 {
        push_bounded(&mut series, entry);
    }
    assert_eq!(series.len(), MAX_POINTS);
    assert_eq!(series[0], 3);
    assert_eq!(series[MAX_POINTS - 1], MAX_POINTS + 2);
}

#[test]
fn clock_stands_still_at_its_limit() {
    let mut app = fresh();
    app.tick = TICK_LIMIT - 1;
    app.apply_poll_result(Err(()));
    assert_eq!(app.tick, TICK_LIMIT);
    app.apply_poll_result(queue("1"));
    assert_eq!(app.tick, TICK_LIMIT);
    assert_eq!((TICK_LIMIT as f64) + 1.0, TICK_LIMIT as f64);
    assert_ne!((TICK_LIMIT as f64) - 1.0, TICK_LIMIT as f64);
}

#[test]
fn nothing_is_saved_before_the_first_document() {
    let mut app = fresh();
    assert!(app.save_json("20240101_000000", 7).is_none());
    assert_eq!(app.save_msg, Some(("No data to save yet".to_string(), 7)));
}

#[test]
fn last_document_is_saved_in_pretty_form() {
    let mut app = fresh();
    app.apply_poll_result(queue("-2"));
    let request = app.save_json("20240101_000000", 7).unwrap();
    assert_eq!(request.filename, "telemetry_20240101_000000.json");
    assert_eq!(request.content, "{\n  \"update_queue\": {\n    \"length\": -2\n  }\n}");
    assert!(app.save_msg.is_none());
    app.finish_save(&request.filename, Ok(()), 8);
    assert_eq!(app.save_msg, Some(("Saved: telemetry_20240101_000000.json".to_string(), 8)));
    app.finish_save(&request.filename, Err("disk full".to_string()), 9);
    assert_eq!(app.save_msg, Some(("Save error: disk full".to_string(), 9)));
}

#[test]
fn error_in_rendering_is_told() {
    let mut app = fresh();
    assert!(app.prepare_save(Some(Err("bad key".to_string())), "now", 3).is_none());
    assert_eq!(app.save_msg, Some(("JSON error: bad key".to_string(), 3)));
    let request = app.prepare_save(Some(Ok("text".to_string())), "now", 4).unwrap();
    assert_eq!(request.filename, "telemetry_now.json");
    assert_eq!(request.content, "text");
}

fn lies_on_axis(series: &[(u64, Binary64)], max: Binary64) -> bool {
    series.iter().all(|entry| f64::from_bits(entry.1.bits) <= f64::from_bits(max.bits))
}

fn counts_lie_on_axis(series: &[(u64, u64)], max: u64) -> bool {
    series.iter().all(|entry| entry.1 <= max)
}

fn assert_values_on_axes(app: &App) {
    assert!(lies_on_axis(&app.queue_lengths, app.max_y_queue));
    assert!(lies_on_axis(&app.search_latencies, app.max_y_search));
    assert!(lies_on_axis(&app.filtered_search_latencies, app.max_y_filtered_search));
    assert!(counts_lie_on_axis(&app.plain_points, app.max_y_points));
    assert!(counts_lie_on_axis(&app.indexed_points, app.max_y_points));
    assert!(counts_lie_on_axis(&app.total_segments, app.max_y_segments));
    assert!(counts_lie_on_axis(&app.plain_segments, app.max_y_segments));
    assert!(counts_lie_on_axis(&app.nonplain_segments, app.max_y_segments));
    assert!(counts_lie_on_axis(&app.pending_optimizations, app.max_y_segments));
    assert!(lies_on_axis(&[(0, of(10.0))], app.max_y_queue));
    assert!(lies_on_axis(&[(0, of(100.0))], app.max_y_search));
    assert!(lies_on_axis(&[(0, of(100.0))], app.max_y_filtered_search));
    assert!(app.max_y_points >= 100 && app.max_y_segments >= 10);
}

#[test]
fn values_lie_on_their_axes_in_every_state() {
    let mut app = fresh();
    assert_values_on_axes(&app);
    app.apply_poll_result(full());
    assert_values_on_axes(&app);
    app.apply_poll_result(queue("1.7976931348623157e308"));
    app.apply_poll_result(queue("-2.5"));
    assert_values_on_axes(&app);
    assert_eq!(app.max_y_queue, of(f64::MAX));
    app.apply_poll_result(Err(()));
    app.save_json("stamp", 5);
    app.drop_first_half();
    assert_values_on_axes(&app);
    app.reset();
    assert_values_on_axes(&app);
}

#[test]
fn sum_of_latencies_may_be_infinite_but_stays_a_number() {
    let text = "{\"update_queue\": {\"length\": 1}, \"result\": {\"collections\": {\"collections\": [{\"shards\": [{\"local\": {\"segments\": [
        {\"vector_index_searches\": [
            {\"filtered_plain\": {\"avg_duration_micros\": 1.7976931348623157e308}},
            {\"filtered_plain\": {\"avg_duration_micros\": 1.7976931348623157e308}},
            {\"filtered_plain\": {\"avg_duration_micros\": -1.7976931348623157e308}}
        ]}]}}]}]}}}";
    let mut app = fresh();
    app.apply_poll_result(document(text));
    assert_eq!(app.filtered_search_latencies, vec![(0, of(f64::INFINITY))]);
    assert_eq!(app.max_y_filtered_search, of(f64::INFINITY));
    assert_values_on_axes(&app);
}

#[test]
fn clock_counts_the_polls_since_the_last_reset() {
    let mut app = fresh();
    app.apply_poll_result(Err(()));
    app.apply_poll_result(queue("1"));
    app.drop_first_half();
    app.apply_poll_result(queue("2"));
    app.save_json("stamp", 5);
    assert_eq!(app.tick, 3);
    app.reset();
    assert_eq!(app.tick, 0);
    app.apply_poll_result(document("{}"));
    app.drop_first_half();
    app.apply_poll_result(Err(()));
    assert_eq!(app.tick, 2);
}

#[test]
fn charts_reach_as_far_as_what_they_show() {
    let mut app = fresh();
    app.apply_poll_result(full());
    app.apply_poll_result(Err(()));
    app.apply_poll_result(queue("40"));
    let queue = app.queue_frame().unwrap();
    assert_eq!((queue.x_min, queue.x_max, queue.y_max), (0, 2, of(40.0)));
    assert!(lies_on_axis(&app.queue_lengths, queue.y_max));
    let search = app.search_frame().unwrap();
    assert_eq!((search.x_min, search.x_max, search.y_max), (0, 0, of(250.25)));
    assert!(lies_on_axis(&app.search_latencies, search.y_max));
    assert!(lies_on_axis(&app.filtered_search_latencies, search.y_max));
    let points = app.points_frame().unwrap();
    assert_eq!((points.x_min, points.x_max, points.y_max), (0, 2, 120));
    let segments = app.segments_frame().unwrap();
    assert_eq!((segments.x_min, segments.x_max, segments.y_max), (0, 2, 10));
    assert!(app.opt_statuses.iter().all(|s| segments.x_min <= s.0 && s.0 <= segments.x_max));
}
