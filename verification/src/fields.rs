//! What is read where a document holds the fields that are looked for, key by key.
use crate::arrangement::lemma_items_of_joined;
use crate::json::{JsonView, Number};
use crate::paths::{holds, law_held_is_found};
use crate::readings::{lemma_field_is_well_formed, lemma_parts_are_well_formed};
use crate::telemetry::{
    all_collections, all_items_at, all_log_entries, all_segments, all_shards, averages_of,
    filtered_plain_averages_in, first_queue_length, is_plain, items_at, num_points, points_of,
    query_batch_average,
};
use vstd::prelude::*;

verus! {

/// Following a path whose first key an object holds is following the rest of it from what it holds.
pub proof fn law_path_starts_with_its_first_key(
    node: JsonView,
    key: Seq<char>,
    inner: JsonView,
    rest: Seq<Seq<char>>,
)
    requires
        node.well_formed(),
        holds(node, key, inner),
    ensures
        node.at(seq![key] + rest) == inner.at(rest),
        node.at(seq![key]) == Some(inner),
        inner.well_formed(),
{
    law_held_is_found(node, key, inner);
    lemma_field_is_well_formed(node, key);
    assert((seq![key] + rest).drop_first() =~= rest);
    assert(seq![key].drop_first() =~= Seq::empty());
    reveal_with_fuel(JsonView::at, 2);
}

/// Nothing but an object leads anywhere, and an object leads nowhere by a key that it does not
/// hold.
pub proof fn law_path_ends_without_its_first_key(
    node: JsonView,
    key: Seq<char>,
    rest: Seq<Seq<char>>,
)
    requires
        node.well_formed(),
        forall|inner: JsonView| !#[trigger] holds(node, key, inner),
    ensures
        node.at(seq![key] + rest) is None,
{
    if let Some(inner) = node.field(key) {
        law_held_is_found(node, key, inner);
    }
}

proof fn lemma_two_keys(
    node: JsonView,
    first: Seq<char>,
    inner: JsonView,
    second: Seq<char>,
    end: JsonView,
)
    requires
        node.well_formed(),
        holds(node, first, inner),
        holds(inner, second, end),
    ensures
        node.at(seq![first, second]) == Some(end),
        inner.well_formed(),
        end.well_formed(),
{
    law_path_starts_with_its_first_key(node, first, inner, seq![second]);
    law_path_starts_with_its_first_key(inner, second, end, Seq::empty());
    assert(seq![first] + seq![second] =~= seq![first, second]);
}

proof fn lemma_three_keys(
    node: JsonView,
    first: Seq<char>,
    inner: JsonView,
    second: Seq<char>,
    innermost: JsonView,
    third: Seq<char>,
    end: JsonView,
)
    requires
        node.well_formed(),
        holds(node, first, inner),
        holds(inner, second, innermost),
        holds(innermost, third, end),
    ensures
        node.at(seq![first, second, third]) == Some(end),
        end.well_formed(),
{
    law_path_starts_with_its_first_key(node, first, inner, seq![second, third]);
    lemma_two_keys(inner, second, innermost, third, end);
    assert(seq![first] + seq![second, third] =~= seq![first, second, third]);
}

proof fn lemma_items_of_one(holder: JsonView, path: Seq<Seq<char>>)
    ensures
        all_items_at(seq![holder], path) == items_at(holder, path),
{
    assert(seq![holder].drop_last() =~= Seq::empty());
    reveal_with_fuel(all_items_at, 2);
    assert(all_items_at(seq![holder], path) =~= items_at(holder, path));
}

/// The collections are the array under `result`, `collections`, `collections`.
pub proof fn law_collections_are_read(
    document: JsonView,
    result: JsonView,
    outer: JsonView,
    collections: Seq<JsonView>,
)
    requires
        document.well_formed(),
        holds(document, "result"@, result),
        holds(result, "collections"@, outer),
        holds(outer, "collections"@, JsonView::Array(collections)),
    ensures
        all_collections(document) == collections,
{
    lemma_three_keys(
        document,
        "result"@,
        result,
        "collections"@,
        outer,
        "collections"@,
        JsonView::Array(collections),
    );
}

/// The shards of a single collection are the array under `shards`.
pub proof fn law_shards_are_read(
    document: JsonView,
    collection: JsonView,
    shards: Seq<JsonView>,
)
    requires
        document.well_formed(),
        all_collections(document) == seq![collection],
        holds(collection, "shards"@, JsonView::Array(shards)),
    ensures
        all_shards(document) == shards,
{
    lemma_parts_are_well_formed(document);
    assert(all_collections(document)[0].well_formed());
    law_path_starts_with_its_first_key(
        collection,
        "shards"@,
        JsonView::Array(shards),
        Seq::empty(),
    );
    lemma_items_of_one(collection, seq!["shards"@]);
}

/// The segments of a single shard are the array under `local`, `segments`.
pub proof fn law_segments_are_read(
    document: JsonView,
    shard: JsonView,
    local: JsonView,
    segments: Seq<JsonView>,
)
    requires
        document.well_formed(),
        all_shards(document) == seq![shard],
        holds(shard, "local"@, local),
        holds(local, "segments"@, JsonView::Array(segments)),
    ensures
        all_segments(document) == segments,
{
    lemma_parts_are_well_formed(document);
    assert(all_shards(document)[0].well_formed());
    lemma_two_keys(shard, "local"@, local, "segments"@, JsonView::Array(segments));
    lemma_items_of_one(shard, seq!["local"@, "segments"@]);
}

/// The log entries of a single shard are the array under `local`, `optimizations`, `log`.
pub proof fn law_log_entries_are_read(
    document: JsonView,
    shard: JsonView,
    local: JsonView,
    optimizations: JsonView,
    entries: Seq<JsonView>,
)
    requires
        document.well_formed(),
        all_shards(document) == seq![shard],
        holds(shard, "local"@, local),
        holds(local, "optimizations"@, optimizations),
        holds(optimizations, "log"@, JsonView::Array(entries)),
    ensures
        all_log_entries(document) == entries,
{
    lemma_parts_are_well_formed(document);
    assert(all_shards(document)[0].well_formed());
    lemma_three_keys(
        shard,
        "local"@,
        local,
        "optimizations"@,
        optimizations,
        "log"@,
        JsonView::Array(entries),
    );
    lemma_items_of_one(shard, seq!["local"@, "optimizations"@, "log"@]);
}

/// The averages of a single segment are those of the entries in the array under
/// `vector_index_searches`.
pub proof fn law_searches_are_read(document: JsonView, segment: JsonView, entries: Seq<JsonView>)
    requires
        document.well_formed(),
        all_segments(document) == seq![segment],
        holds(segment, "vector_index_searches"@, JsonView::Array(entries)),
    ensures
        filtered_plain_averages_in(document) == averages_of(entries),
{
    lemma_parts_are_well_formed(document);
    assert(all_segments(document)[0].well_formed());
    law_path_starts_with_its_first_key(
        segment,
        "vector_index_searches"@,
        JsonView::Array(entries),
        Seq::empty(),
    );
    lemma_items_of_one(segment, seq!["vector_index_searches"@]);
}

/// The parts of a document whose shards or segments are those of two others, one after the other,
/// are those of the two, one after the other.
pub proof fn law_joined_shards_and_segments(joined: JsonView, a: JsonView, b: JsonView)
    ensures
        all_collections(joined) == all_collections(a) + all_collections(b) ==> all_shards(joined)
            == all_shards(a) + all_shards(b),
        all_shards(joined) == all_shards(a) + all_shards(b) ==> all_segments(joined)
            == all_segments(a) + all_segments(b) && all_log_entries(joined) == all_log_entries(a)
            + all_log_entries(b),
        all_segments(joined) == all_segments(a) + all_segments(b) ==> filtered_plain_averages_in(
            joined,
        ) == filtered_plain_averages_in(a) + filtered_plain_averages_in(b),
{
    let path = seq!["vector_index_searches"@];
    lemma_items_of_joined(all_collections(a), all_collections(b), seq!["shards"@]);
    lemma_items_of_joined(all_shards(a), all_shards(b), seq!["local"@, "segments"@]);
    lemma_items_of_joined(
        all_shards(a),
        all_shards(b),
        seq!["local"@, "optimizations"@, "log"@],
    );
    lemma_items_of_joined(all_segments(a), all_segments(b), path);
    law_averages_of_joined_entries(
        all_items_at(all_segments(a), path),
        all_items_at(all_segments(b), path),
    );
}

/// The averages of entries are those of the first ones followed by those of the others.
pub proof fn law_averages_of_joined_entries(a: Seq<JsonView>, b: Seq<JsonView>)
    ensures
        averages_of(a + b) == averages_of(a) + averages_of(b),
    decreases b.len(),
{
    if b.len() == 0 {
        assert(a + b =~= a);
    } else {
        law_averages_of_joined_entries(a, b.drop_last());
        assert((a + b).drop_last() =~= a + b.drop_last());
    }
    assert(averages_of(a + b) =~= averages_of(a) + averages_of(b));
}

/// An entry gives the average under `filtered_plain`, `avg_duration_micros` where that is a number,
/// and none where it is something else.
pub proof fn law_average_is_read(
    entry: JsonView,
    filtered: JsonView,
    average: JsonView,
)
    requires
        entry.well_formed(),
        holds(entry, "filtered_plain"@, filtered),
        holds(filtered, "avg_duration_micros"@, average),
    ensures
        match average {
            JsonView::Number(number) => match number.binary64 {
                Some(value) => averages_of(seq![entry]) == seq![value],
                None => averages_of(seq![entry]).len() == 0,
            },
            _ => averages_of(seq![entry]).len() == 0,
        },
{
    lemma_two_keys(entry, "filtered_plain"@, filtered, "avg_duration_micros"@, average);
    assert(seq![entry].drop_last() =~= Seq::empty());
    reveal_with_fuel(averages_of, 2);
    if let JsonView::Number(number) = average {
        if let Some(value) = number.binary64 {
            assert(averages_of(seq![entry]) =~= seq![value]);
        }
    }
}

/// The average of the query batches is the number under its keys.
pub proof fn law_query_batch_average_is_read(
    document: JsonView,
    result: JsonView,
    requests: JsonView,
    grpc: JsonView,
    responses: JsonView,
    batch: JsonView,
    number: Number,
)
    requires
        document.well_formed(),
        holds(document, "result"@, result),
        holds(result, "requests"@, requests),
        holds(requests, "grpc"@, grpc),
        holds(grpc, "responses"@, responses),
        holds(responses, "/qdrant.Points/QueryBatch"@, batch),
        holds(batch, "avg_duration_micros"@, JsonView::Number(number)),
    ensures
        query_batch_average(document) == number.binary64,
{
    let end = JsonView::Number(number);
    let lower = seq!["responses"@, "/qdrant.Points/QueryBatch"@, "avg_duration_micros"@];
    let middle = seq![
        "grpc"@,
        "responses"@,
        "/qdrant.Points/QueryBatch"@,
        "avg_duration_micros"@,
    ];
    let upper = seq![
        "requests"@,
        "grpc"@,
        "responses"@,
        "/qdrant.Points/QueryBatch"@,
        "avg_duration_micros"@,
    ];
    law_path_starts_with_its_first_key(document, "result"@, result, upper);
    law_path_starts_with_its_first_key(result, "requests"@, requests, middle);
    law_path_starts_with_its_first_key(requests, "grpc"@, grpc, lower);
    lemma_three_keys(
        grpc,
        "responses"@,
        responses,
        "/qdrant.Points/QueryBatch"@,
        batch,
        "avg_duration_micros"@,
        end,
    );
    assert(seq!["grpc"@] + lower =~= middle);
    assert(seq!["requests"@] + middle =~= upper);
    assert(seq!["result"@] + upper =~= seq![
        "result"@,
        "requests"@,
        "grpc"@,
        "responses"@,
        "/qdrant.Points/QueryBatch"@,
        "avg_duration_micros"@,
    ]);
}

/// A segment whose first vector has an index with a type is plain exactly where the type is the
/// text `plain`, whatever its other vectors have.
pub proof fn law_index_type_is_read(
    segment: JsonView,
    config: JsonView,
    vectors: Seq<(Seq<char>, JsonView)>,
    index: JsonView,
    index_type: JsonView,
)
    requires
        segment.well_formed(),
        holds(segment, "config"@, config),
        holds(config, "vector_data"@, JsonView::Object(vectors)),
        vectors.len() > 0,
        holds(vectors[0].1, "index"@, index),
        holds(index, "type"@, index_type),
    ensures
        is_plain(segment) <==> index_type == JsonView::Text("plain"@),
{
    lemma_two_keys(segment, "config"@, config, "vector_data"@, JsonView::Object(vectors));
    assert(vectors[0].1.well_formed());
    lemma_two_keys(vectors[0].1, "index"@, index, "type"@, index_type);
}

/// A segment without vectors is not plain.
pub proof fn law_segment_without_vectors_is_not_plain(segment: JsonView, config: JsonView)
    requires
        segment.well_formed(),
        holds(segment, "config"@, config),
        holds(config, "vector_data"@, JsonView::Object(Seq::empty())),
    ensures
        !is_plain(segment),
{
    lemma_two_keys(
        segment,
        "config"@,
        config,
        "vector_data"@,
        JsonView::Object(Seq::empty()),
    );
}

/// The points of a segment are the count under `info`, `num_points`, and none where that is no
/// count; they are added to those of the plain segments or to those of the others, with what the
/// segments before it add.
pub proof fn law_points_are_read(
    segments: Seq<JsonView>,
    segment: JsonView,
    info: JsonView,
    points: JsonView,
)
    requires
        segment.well_formed(),
        holds(segment, "info"@, info),
        holds(info, "num_points"@, points),
    ensures
        ({
            let count = match points {
                JsonView::Number(number) => match number.unsigned {
                    Some(count) => count as int,
                    None => 0,
                },
                _ => 0,
            };
            let after = segments.push(segment);
            &&& num_points(segment) == count
            &&& points_of(after, is_plain(segment)) == points_of(segments, is_plain(segment))
                + count
            &&& points_of(after, !is_plain(segment)) == points_of(segments, !is_plain(segment))
        }),
{
    lemma_two_keys(segment, "info"@, info, "num_points"@, points);
    assert(segments.push(segment).drop_last() =~= segments);
}

/// Nothing but an array or an object gives a queue length.
pub proof fn law_scalars_give_no_queue_length(node: JsonView)
    requires
        !(node is Array),
        !(node is Object),
    ensures
        first_queue_length(node) is None,
{
    reveal_with_fuel(JsonView::at, 2);
}

} // verus!
