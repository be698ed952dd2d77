use serde_json::Value;
use telemetry_monitor::binary64::Binary64;
use telemetry_monitor::json::Json;
use telemetry_monitor::telemetry::{
    checked_segment_points, count_pending_optimizations, count_segments, detect_optimization_kind,
    filtered_plain_averages, find_filtered_plain_sum, find_query_batch_avg, find_segment_points,
    find_update_queue_length, is_plain_segment, log_entries, read_sample, segments, shards,
    OptKind, Sample,
};

fn read(text: &str) -> Json {
    let value: Value = serde_json::from_str(text).unwrap();
    Json::read(&value)
}

fn number(value: Option<Binary64>) -> Option<f64> {
    value.map(|v| f64::from_bits(v.bits))
}

fn of(value: f64) -> Binary64 {
    Binary64 { bits: value.to_bits() }
}

fn with_shards(shards: &str) -> String {
    format!("{{\"result\": {{\"collections\": {{\"collections\": [{{\"shards\": [{shards}]}}]}}}}}}")
}

fn with_segments(segments: &str) -> String {
    with_shards(&format!("{{\"local\": {{\"segments\": [{segments}]}}}}"))
}

fn with_log(log: &str) -> String {
    with_shards(&format!("{{\"local\": {{\"optimizations\": {{\"log\": [{log}]}}}}}}"))
}

fn segment(index: &str, points: u64) -> String {
    format!(
        "{{\"info\": {{\"num_points\": {points}}}, \"config\": {{\"vector_data\": {{\"\": {{\"index\": {{\"type\": \"{index}\"}}}}}}}}}}"
    )
}

#[test]
fn queue_length_is_found_at_any_depth() {
    let text = "{\"result\": [{\"x\": 1}, {\"deep\": {\"update_queue\": {\"length\": 42}}}]}";
    assert_eq!(number(find_update_queue_length(&read(text))), Some(42.0));
}

#[test]
fn first_queue_length_in_document_order_counts() {
    let text = "{\"b\": {\"update_queue\": {\"length\": 2}}, \"a\": [0, {\"update_queue\": {\"length\": 1}}]}";
    assert_eq!(number(find_update_queue_length(&read(text))), Some(1.0));
    let own = "{\"a\": {\"update_queue\": {\"length\": 1}}, \"update_queue\": {\"length\": 9}}";
    assert_eq!(number(find_update_queue_length(&read(own))), Some(9.0));
}

#[test]
fn queue_without_a_length_is_passed_over() {
    let text = "{\"update_queue\": {\"length\": \"3\", \"update_queue\": {\"length\": 5.5}}}";
    assert_eq!(number(find_update_queue_length(&read(text))), Some(5.5));
    let later = "{\"update_queue\": {}, \"z\": {\"update_queue\": {\"length\": -1}}}";
    assert_eq!(number(find_update_queue_length(&read(later))), Some(-1.0));
}

#[test]
fn no_queue_length_is_found() {
    for text in ["null", "1", "\"update_queue\"", "[]", "{}", "{\"update_queue\": 3}", "{\"length\": 3}"] {
        assert_eq!(find_update_queue_length(&read(text)), None, "{text}");
    }
}

#[test]
fn query_batch_average_is_found_by_its_path() {
    let text = "{\"result\": {\"requests\": {\"grpc\": {\"responses\": {\"/qdrant.Points/QueryBatch\": {\"avg_duration_micros\": 812.5}}}}}}";
    let value: Value = serde_json::from_str(text).unwrap();
    let expected = value
        .pointer("/result/requests/grpc/responses/~1qdrant.Points~1QueryBatch/avg_duration_micros")
        .and_then(|v| v.as_f64());
    assert_eq!(expected, Some(812.5));
    assert_eq!(number(find_query_batch_avg(&Json::read(&value))), expected);
    assert_eq!(find_query_batch_avg(&read("{\"result\": {\"requests\": {}}}")), None);
}

#[test]
fn filtered_averages_are_added_up_over_all_segments() {
    let searching = |averages: &str| format!("{{\"vector_index_searches\": [{averages}]}}");
    let entry = |average: &str| format!("{{\"filtered_plain\": {{\"avg_duration_micros\": {average}}}}}");
    let text = with_segments(&format!(
        "{}, {{}}, {}",
        searching(&format!("{}, {{}}, {}", entry("0.1"), entry("\"none\""))),
        searching(&format!("{}, {}", entry("0.2"), entry("0.3")))
    ));
    let document = read(&text);
    let averages: Vec<f64> =
        filtered_plain_averages(&document).iter().map(|a| f64::from_bits(a.bits)).collect();
    assert_eq!(averages, vec![0.1, 0.2, 0.3]);
    assert_eq!(number(find_filtered_plain_sum(&document)), Some(0.1 + 0.2 + 0.3));
}

#[test]
fn no_filtered_average_gives_no_sum() {
    assert_eq!(find_filtered_plain_sum(&read(&with_segments("{}, {}"))), None);
    let zero = with_segments(
        "{\"vector_index_searches\": [{\"filtered_plain\": {\"avg_duration_micros\": 0}}]}",
    );
    assert_eq!(number(find_filtered_plain_sum(&read(&zero))), Some(0.0));
}

#[test]
fn points_are_split_by_index_type() {
    let text = with_segments(&format!(
        "{}, {}, {}, {{}}",
        segment("plain", 10),
        segment("hnsw", 200),
        segment("plain", 3)
    ));
    assert_eq!(find_segment_points(&read(&text)), (13, 200));
    assert_eq!(find_segment_points(&read("{}")), (0, 0));
}

#[test]
fn points_beyond_64_bits_are_not_counted() {
    let most = u64::MAX;
    let fits = with_segments(&format!("{}, {}", segment("plain", most), segment("hnsw", most)));
    assert_eq!(checked_segment_points(&read(&fits)), Some((most, most)));
    let plain = with_segments(&format!("{}, {}", segment("plain", most), segment("plain", 1)));
    assert_eq!(checked_segment_points(&read(&plain)), None);
    let other = with_segments(&format!("{}, {}", segment("hnsw", 1), segment("hnsw", most)));
    assert_eq!(checked_segment_points(&read(&other)), None);
}

#[test]
fn points_that_are_no_counts_are_left_out() {
    let text = with_segments(
        "{\"info\": {\"num_points\": -5}}, {\"info\": {\"num_points\": 1.5}}, {\"info\": {\"num_points\": 4}}",
    );
    assert_eq!(find_segment_points(&read(&text)), (0, 4));
}

#[test]
fn segments_are_counted_over_all_shards() {
    let text = "{\"result\": {\"collections\": {\"collections\": [
        {\"shards\": [{\"local\": {\"segments\": [{}, {}]}}, {\"local\": {\"segments\": [{}]}}]},
        {\"shards\": null},
        {\"shards\": [{\"remote\": {}}, {\"local\": {\"segments\": {}}}, {\"local\": {\"segments\": [{}]}}]}
    ]}}}";
    let document = read(text);
    assert_eq!(shards(&document).len(), 5);
    assert_eq!(segments(&document).len(), 4);
    assert_eq!(count_segments(&document), (4, 0, 4));
}

#[test]
fn plain_and_other_segments_add_up() {
    let text = with_segments(&format!(
        "{}, {}, {}",
        segment("plain", 1),
        segment("hnsw", 1),
        segment("plain", 1)
    ));
    assert_eq!(count_segments(&read(&text)), (3, 2, 1));
}

#[test]
fn first_vector_by_name_decides_whether_a_segment_is_plain() {
    let vectors = |a: &str, b: &str| {
        format!(
            "{{\"config\": {{\"vector_data\": {{\"b\": {{\"index\": {{\"type\": \"{b}\"}}}}, \"a\": {{\"index\": {{\"type\": \"{a}\"}}}}}}}}}}"
        )
    };
    assert!(is_plain_segment(&read(&vectors("plain", "hnsw"))));
    assert!(!is_plain_segment(&read(&vectors("hnsw", "plain"))));
    assert!(!is_plain_segment(&read("{\"config\": {\"vector_data\": {}}}")));
    assert!(!is_plain_segment(&read("{\"config\": {\"vector_data\": [{\"index\": {\"type\": \"plain\"}}]}}")));
    assert!(!is_plain_segment(&read("{}")));
}

#[test]
fn entries_that_are_not_done_are_pending() {
    let text = with_log(
        "{\"status\": \"done\"}, {\"status\": \"optimizing\"}, {\"status\": 3}, {}, {\"status\": \"Done\"}",
    );
    let document = read(&text);
    assert_eq!(log_entries(&document).len(), 5);
    assert_eq!(count_pending_optimizations(&document), 4);
    assert_eq!(count_pending_optimizations(&read("{}")), 0);
}

#[test]
fn running_optimizations_are_told_apart() {
    let merge = "{\"status\": \"optimizing\", \"name\": \"merge\"}";
    let index = "{\"status\": \"optimizing\", \"name\": \"indexing\"}";
    let nameless = "{\"status\": \"optimizing\"}";
    let done = "{\"status\": \"done\", \"name\": \"merge\"}";
    let kind = |log: &str| detect_optimization_kind(&read(&with_log(log)));
    assert_eq!(kind(""), OptKind::Idle);
    assert_eq!(kind(done), OptKind::Idle);
    assert_eq!(kind(&format!("{done}, {merge}, {merge}")), OptKind::MergeOnly);
    assert_eq!(kind(index), OptKind::IndexOnly);
    assert_eq!(kind(nameless), OptKind::IndexOnly);
    assert_eq!(kind(&format!("{index}, {merge}")), OptKind::Both);
}

#[test]
fn running_optimization_is_counted_as_pending() {
    let document = read(&with_log("{\"status\": \"optimizing\", \"name\": \"merge\"}"));
    assert_eq!(detect_optimization_kind(&document), OptKind::MergeOnly);
    assert_eq!(count_pending_optimizations(&document), 1);
}

#[test]
fn sample_gathers_all_that_a_document_gives() {
    let text = format!(
        "{{\"update_queue\": {{\"length\": 3}}, \"result\": {{\"collections\": {{\"collections\": [{{\"shards\": [{{\"local\": {{\"segments\": [{}, {}], \"optimizations\": {{\"log\": [{{\"status\": \"optimizing\"}}]}}}}}}]}}]}}}}}}",
        segment("plain", 7),
        segment("hnsw", 8)
    );
    assert_eq!(
        read_sample(&read(&text)),
        Some(Sample {
            queue_length: of(3.0),
            search_latency: None,
            filtered_search_latency: None,
            plain_points: 7,
            indexed_points: 8,
            total_segments: 2,
            plain_segments: 1,
            nonplain_segments: 1,
            pending_optimizations: 1,
            opt_kind: OptKind::IndexOnly,
        })
    );
    assert_eq!(read_sample(&read("{}")), None);
}

#[test]
fn merge_beside_another_optimization_counts_as_two_pending() {
    let document = read(&with_log(
        "{\"status\": \"optimizing\", \"name\": \"merge\"}, {\"status\": \"done\"}, {\"status\": \"optimizing\", \"name\": \"indexing\"}",
    ));
    assert_eq!(detect_optimization_kind(&document), OptKind::Both);
    assert_eq!(count_pending_optimizations(&document), 2);
}

fn shard(segments: &str, log: &str) -> String {
    format!("{{\"local\": {{\"segments\": [{segments}], \"optimizations\": {{\"log\": [{log}]}}}}}}")
}

fn with_collections(collections: &[String]) -> Json {
    read(&format!(
        "{{\"result\": {{\"collections\": {{\"collections\": [{}]}}}}}}",
        collections.join(", ")
    ))
}

fn collection(shards: &[String]) -> String {
    format!("{{\"shards\": [{}]}}", shards.join(", "))
}

#[test]
fn order_of_the_parts_does_not_matter() {
    let merge = "{\"status\": \"optimizing\", \"name\": \"merge\"}";
    let index = "{\"status\": \"optimizing\", \"name\": \"indexing\"}";
    let (a, b, c) = (segment("plain", 1), segment("hnsw", 20), segment("plain", 300));
    let first = shard(&format!("{a}, {b}"), merge);
    let turned = shard(&format!("{b}, {a}"), merge);
    let second = shard(&c, index);
    let third = shard("", "{\"status\": \"done\"}, {}");
    let arrangements = [
        with_collections(&[
            collection(&[first.clone(), second.clone()]),
            collection(&[third.clone()]),
        ]),
        with_collections(&[
            collection(&[third.clone()]),
            collection(&[first.clone(), second.clone()]),
        ]),
        with_collections(&[
            collection(&[second.clone(), first.clone()]),
            collection(&[third.clone()]),
        ]),
        with_collections(&[collection(&[turned, second]), collection(&[third])]),
    ];
    for document in &arrangements {
        assert_eq!(find_segment_points(document), (301, 20));
        assert_eq!(count_segments(document), (3, 2, 1));
        assert_eq!(count_pending_optimizations(document), 3);
        assert_eq!(detect_optimization_kind(document), OptKind::Both);
    }
}

#[test]
fn counts_of_joined_collections_add_up() {
    let a = collection(&[shard(
        &format!("{}, {}", segment("plain", 5), segment("hnsw", 7)),
        "{\"status\": \"optimizing\", \"name\": \"merge\"}, {\"status\": \"done\"}",
    )]);
    let b = collection(&[shard(&segment("plain", 11), "{\"status\": \"optimizing\"}, {}")]);
    let (left, right) = (with_collections(&[a.clone()]), with_collections(&[b.clone()]));
    let joined = with_collections(&[a, b]);
    assert_eq!(find_segment_points(&left), (5, 7));
    assert_eq!(find_segment_points(&right), (11, 0));
    assert_eq!(find_segment_points(&joined), (16, 7));
    assert_eq!(count_segments(&joined), (3, 2, 1));
    assert_eq!(count_pending_optimizations(&left), 1);
    assert_eq!(count_pending_optimizations(&right), 2);
    assert_eq!(count_pending_optimizations(&joined), 3);
    assert_eq!(detect_optimization_kind(&left), OptKind::MergeOnly);
    assert_eq!(detect_optimization_kind(&right), OptKind::IndexOnly);
    assert_eq!(detect_optimization_kind(&joined), OptKind::Both);
}
