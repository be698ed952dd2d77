//! What holds of the numbers that are read from a well-formed document.
use crate::addition::law_sum_of_finite_values_is_no_nan;
use crate::json::{first_field, JsonView};
use crate::laws::{
    children, comes_before, gives_length, law_first_queue_length, law_found_is_a_field, node_at,
};
use crate::telemetry::{
    all_collections, all_items_at, all_log_entries, all_segments, all_shards, averages_of,
    filtered_plain_average, filtered_plain_averages_in, first_queue_length, items_at,
    own_queue_length, sample_of, Sample,
};
use vstd::prelude::*;

verus! {

/// Whether some documents are well-formed.
pub open spec fn all_well_formed(documents: Seq<JsonView>) -> bool {
    forall|i: int| 0 <= i < documents.len() ==> (#[trigger] documents[i]).well_formed()
}

pub(crate) proof fn lemma_field_is_well_formed(document: JsonView, key: Seq<char>)
    requires
        document.well_formed(),
    ensures
        document.field(key) matches Some(found) ==> found.well_formed(),
{
    if let JsonView::Object(fields) = document {
        law_found_is_a_field(fields, key);
        if let Some(value) = first_field(fields, key) {
            let i = choose|i: int| 0 <= i < fields.len() && fields[i] == (key, value);
            assert(fields[i].1.well_formed());
        }
    }
}

pub(crate) proof fn lemma_end_of_path_is_well_formed(document: JsonView, path: Seq<Seq<char>>)
    requires
        document.well_formed(),
    ensures
        document.at(path) matches Some(found) ==> found.well_formed(),
    decreases path.len(),
{
    if path.len() > 0 {
        lemma_field_is_well_formed(document, path[0]);
        if let Some(inner) = document.field(path[0]) {
            lemma_end_of_path_is_well_formed(inner, path.drop_first());
        }
    }
}

pub(crate) proof fn lemma_items_are_well_formed(holders: Seq<JsonView>, path: Seq<Seq<char>>)
    requires
        all_well_formed(holders),
    ensures
        all_well_formed(all_items_at(holders, path)),
    decreases holders.len(),
{
    if holders.len() > 0 {
        let before = holders.drop_last();
        assert forall|i: int| 0 <= i < before.len() implies (
        #[trigger] before[i]).well_formed() by {
            assert(before[i] == holders[i]);
        }
        lemma_items_are_well_formed(before, path);
        assert(holders[holders.len() - 1].well_formed());
        lemma_end_of_path_is_well_formed(holders.last(), path);
        let (first, rest) = (all_items_at(before, path), items_at(holders.last(), path));
        assert forall|i: int| 0 <= i < (first + rest).len() implies (
        #[trigger] (first + rest)[i]).well_formed() by {
            if i < first.len() {
                assert(first[i].well_formed());
            } else {
                assert(rest[i - first.len()].well_formed());
            }
        }
    }
}

pub(crate) proof fn lemma_parts_are_well_formed(document: JsonView)
    requires
        document.well_formed(),
    ensures
        all_well_formed(all_collections(document)),
        all_well_formed(all_shards(document)),
        all_well_formed(all_segments(document)),
        all_well_formed(all_log_entries(document)),
{
    lemma_end_of_path_is_well_formed(
        document,
        seq!["result"@, "collections"@, "collections"@],
    );
    assert(all_well_formed(all_collections(document)));
    lemma_items_are_well_formed(all_collections(document), seq!["shards"@]);
    lemma_items_are_well_formed(all_shards(document), seq!["local"@, "segments"@]);
    lemma_items_are_well_formed(
        all_shards(document),
        seq!["local"@, "optimizations"@, "log"@],
    );
}

proof fn lemma_averages_are_finite(entries: Seq<JsonView>)
    requires
        all_well_formed(entries),
    ensures
        forall|i: int|
            0 <= i < averages_of(entries).len() ==> (#[trigger] averages_of(
                entries,
            )[i]).is_finite(),
    decreases entries.len(),
{
    if entries.len() > 0 {
        let before = entries.drop_last();
        assert forall|i: int| 0 <= i < before.len() implies (
        #[trigger] before[i]).well_formed() by {
            assert(before[i] == entries[i]);
        }
        lemma_averages_are_finite(before);
        assert(entries[entries.len() - 1].well_formed());
        lemma_end_of_path_is_well_formed(
            entries.last(),
            seq!["filtered_plain"@, "avg_duration_micros"@],
        );
        if let Some(average) = filtered_plain_average(entries.last()) {
            assert(average.is_finite());
            assert forall|i: int| 0 <= i < averages_of(entries).len() implies (
            #[trigger] averages_of(entries)[i]).is_finite() by {
                if i < averages_of(before).len() {
                    assert(averages_of(before)[i].is_finite());
                }
            }
        }
    }
}

pub(crate) proof fn lemma_node_is_well_formed(document: JsonView, path: Seq<int>)
    requires
        document.well_formed(),
    ensures
        node_at(document, path) matches Some(node) ==> node.well_formed(),
    decreases path.len(),
{
    if path.len() > 0 && 0 <= path[0] < children(document).len() {
        let i = path[0];
        match document {
            JsonView::Array(items) => {
                assert(items[i].well_formed());
            },
            JsonView::Object(fields) => {
                assert(fields[i].1.well_formed());
            },
            _ => {},
        }
        lemma_node_is_well_formed(children(document)[i], path.drop_first());
    }
}

proof fn lemma_queue_length_is_finite(document: JsonView)
    requires
        document.well_formed(),
    ensures
        first_queue_length(document) matches Some(length) ==> length.is_finite(),
{
    law_first_queue_length(document);
    if let Some(length) = first_queue_length(document) {
        let path = choose|path: Seq<int>| #[trigger]
            gives_length(document, path) && own_queue_length(node_at(document, path)->0) == Some(
                length,
            ) && (forall|other: Seq<int>| #[trigger]
                gives_length(document, other) ==> !comes_before(other, path));
        lemma_node_is_well_formed(document, path);
        lemma_end_of_path_is_well_formed(
            node_at(document, path)->0,
            seq!["update_queue"@, "length"@],
        );
    }
}

/// Whether the measurements of a sample are numbers. A sum of latencies may be infinite.
pub open spec fn is_measured(sample: Sample) -> bool {
    &&& sample.queue_length.is_finite()
    &&& sample.search_latency matches Some(latency) ==> latency.is_finite()
    &&& sample.filtered_search_latency matches Some(latency) ==> !latency.is_nan()
}

/// The queue length and the latencies that a well-formed document gives are numbers.
pub proof fn law_samples_are_measured(document: JsonView)
    requires
        document.well_formed(),
    ensures
        sample_of(document) matches Some(sample) ==> is_measured(sample),
{
    lemma_queue_length_is_finite(document);
    lemma_end_of_path_is_well_formed(
        document,
        seq![
            "result"@,
            "requests"@,
            "grpc"@,
            "responses"@,
            "/qdrant.Points/QueryBatch"@,
            "avg_duration_micros"@,
        ],
    );
    lemma_parts_are_well_formed(document);
    let entries = all_items_at(all_segments(document), seq!["vector_index_searches"@]);
    lemma_items_are_well_formed(all_segments(document), seq!["vector_index_searches"@]);
    lemma_averages_are_finite(entries);
    law_sum_of_finite_values_is_no_nan(filtered_plain_averages_in(document));
}

} // verus!
