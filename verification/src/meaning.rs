//! What the readings of a document mean: each is told by the fields that the document holds.
use crate::addition::running_sum;
use crate::arrangement::{
    law_counts_of_joined_collections, lemma_count_of_joined, lemma_items_of_joined,
};
use crate::binary64::Binary64;
use crate::fields::law_averages_of_joined_entries;
use crate::json::{JsonView, Number};
use crate::laws::{
    comes_before, gives_length, law_first_queue_length, law_found_is_a_field, node_at,
};
use crate::paths::{
    counts, gathers, gives, holds, law_held_is_found, law_path_is_followed, leads, lemma_counts,
    lemma_gathered, lemma_gives, lemma_lists, lists,
};
use crate::readings::{
    all_well_formed, lemma_end_of_path_is_well_formed, lemma_field_is_well_formed,
    lemma_items_are_well_formed, lemma_node_is_well_formed, lemma_parts_are_well_formed,
};
use crate::telemetry::{
    all_collections, all_items_at, all_log_entries, all_segments, all_shards, averages_of,
    filtered_plain_average, filtered_plain_averages_in, filtered_plain_sum, first_in_fields,
    first_in_items, first_queue_length, is_merge, is_optimizing, is_pending, is_plain, kind_of,
    num_points, own_queue_length, points_fit, points_of, query_batch_average, runs,
    sample_of, OptKind,
};
use vstd::prelude::*;

verus! {

/// Whether a node of a document holds an update queue whose length is a given number.
pub open spec fn length_at(document: JsonView, place: Seq<int>, length: Binary64) -> bool {
    match node_at(document, place) {
        Some(node) => gives(node, seq!["update_queue"@, "length"@], length),
        None => false,
    }
}

proof fn lemma_length_at(document: JsonView, place: Seq<int>, length: Binary64)
    requires
        document.well_formed(),
    ensures
        length_at(document, place, length) <==> (gives_length(document, place) && own_queue_length(
            node_at(document, place)->0,
        ) == Some(length)),
{
    lemma_node_is_well_formed(document, place);
    if let Some(node) = node_at(document, place) {
        lemma_gives(node, seq!["update_queue"@, "length"@], length);
    }
}

/// Whether a queue length is the number under `length` of the field `update_queue` of the first
/// node that has such a number; where it is none, whether no node has one.
pub open spec fn is_first_length(document: JsonView, found: Option<Binary64>) -> bool {
    match found {
        Some(length) => exists|place: Seq<int>| #[trigger]
            length_at(document, place, length) && (forall|other: Seq<int>, number: Binary64|
             #[trigger]
                length_at(document, other, number) ==> !comes_before(other, place)),
        None => forall|place: Seq<int>, number: Binary64| !#[trigger]
            length_at(document, place, number),
    }
}

/// The queue length that is found is the number under `length` of the field `update_queue` of the
/// first node that has such a number; none is found only where no node has one.
pub proof fn law_queue_length_is_that_of_the_first_queue(document: JsonView)
    requires
        document.well_formed(),
    ensures
        is_first_length(document, first_queue_length(document)),
{
    law_first_queue_length(document);
    assert forall|other: Seq<int>, number: Binary64| #[trigger]
        length_at(document, other, number) implies gives_length(document, other) by {
        lemma_length_at(document, other, number);
    }
    if let Some(length) = first_queue_length(document) {
        let place = choose|path: Seq<int>| #[trigger]
            gives_length(document, path) && own_queue_length(node_at(document, path)->0) == Some(
                length,
            ) && (forall|other: Seq<int>| #[trigger]
                gives_length(document, other) ==> !comes_before(other, path));
        lemma_length_at(document, place, length);
    }
}

/// Where the document itself holds an update queue with a length, that length is found, whatever
/// else the queue and the document hold.
pub proof fn law_own_queue_comes_first(document: JsonView, queue: JsonView, length: JsonView)
    requires
        document.well_formed(),
        holds(document, "update_queue"@, queue),
        holds(queue, "length"@, length),
        length matches JsonView::Number(number) && number.binary64 is Some,
    ensures
        first_queue_length(document) == length->Number_0.binary64,
{
    let path = seq!["update_queue"@, "length"@];
    law_held_is_found(document, "update_queue"@, queue);
    lemma_end_of_path_is_well_formed(document, seq!["update_queue"@]);
    assert(document.at(seq!["update_queue"@]) == Some(queue)) by {
        reveal_with_fuel(JsonView::at, 3);
    }
    law_held_is_found(queue, "length"@, length);
    assert(path.drop_first() =~= seq!["length"@]);
    assert(document.at(path) == Some(length)) by {
        reveal_with_fuel(JsonView::at, 3);
    }
}

proof fn lemma_later_items(a: Seq<JsonView>, b: Seq<JsonView>, from: nat)
    requires
        from <= a.len() + b.len(),
    ensures
        from >= a.len() ==> first_in_items(a + b, from) == first_in_items(
            b,
            (from - a.len()) as nat,
        ),
        from <= a.len() ==> first_in_items(a + b, from) == if first_in_items(a, from) is Some {
            first_in_items(a, from)
        } else {
            first_in_items(b, 0)
        },
    decreases a.len() + b.len() - from,
{
    if from < a.len() + b.len() {
        lemma_later_items(a, b, from + 1);
        if from < a.len() {
            assert((a + b)[from as int] == a[from as int]);
        } else {
            assert((a + b)[from as int] == b[from - a.len()]);
        }
    }
}

/// Of two arrays one after the other, the first one that gives a queue length counts.
pub proof fn law_earlier_items_come_first(a: Seq<JsonView>, b: Seq<JsonView>)
    ensures
        first_queue_length(JsonView::Array(a + b)) == if first_queue_length(
            JsonView::Array(a),
        ) is Some {
            first_queue_length(JsonView::Array(a))
        } else {
            first_queue_length(JsonView::Array(b))
        },
{
    lemma_later_items(a, b, 0);
    reveal_with_fuel(JsonView::at, 2);
}

proof fn lemma_later_fields(
    a: Seq<(Seq<char>, JsonView)>,
    b: Seq<(Seq<char>, JsonView)>,
    from: nat,
)
    requires
        from <= a.len() + b.len(),
    ensures
        from >= a.len() ==> first_in_fields(a + b, from) == first_in_fields(
            b,
            (from - a.len()) as nat,
        ),
        from <= a.len() ==> first_in_fields(a + b, from) == if first_in_fields(a, from) is Some {
            first_in_fields(a, from)
        } else {
            first_in_fields(b, 0)
        },
    decreases a.len() + b.len() - from,
{
    if from < a.len() + b.len() {
        lemma_later_fields(a, b, from + 1);
        if from < a.len() {
            assert((a + b)[from as int] == a[from as int]);
        } else {
            assert((a + b)[from as int] == b[from - a.len()]);
        }
    }
}

/// Of the fields of an object without a queue length of its own, the first one that gives a queue
/// length counts.
pub proof fn law_earlier_fields_come_first(
    a: Seq<(Seq<char>, JsonView)>,
    b: Seq<(Seq<char>, JsonView)>,
)
    requires
        JsonView::Object(a + b).well_formed(),
        forall|queue: JsonView, length: Number|
            #[trigger] holds(JsonView::Object(a + b), "update_queue"@, queue) && #[trigger] holds(
                queue,
                "length"@,
                JsonView::Number(length),
            ) ==> length.binary64 is None,
    ensures
        first_queue_length(JsonView::Object(a + b)) == if first_queue_length(
            JsonView::Object(a),
        ) is Some {
            first_queue_length(JsonView::Object(a))
        } else {
            first_queue_length(JsonView::Object(b))
        },
{
    lemma_later_fields(a, b, 0);
    let whole = JsonView::Object(a + b);
    law_found_is_a_field(a, "update_queue"@);
    law_found_is_a_field(b, "update_queue"@);
    law_found_is_a_field(a + b, "update_queue"@);
    if let Some(queue) = JsonView::Object(a).field("update_queue"@) {
        let i = choose|i: int| 0 <= i < a.len() && a[i] == ("update_queue"@, queue);
        assert((a + b)[i] == a[i]);
        assert(holds(whole, "update_queue"@, queue));
    }
    if let Some(queue) = JsonView::Object(b).field("update_queue"@) {
        let i = choose|i: int| 0 <= i < b.len() && b[i] == ("update_queue"@, queue);
        assert((a + b)[a.len() + i] == b[i]);
        assert(holds(whole, "update_queue"@, queue));
    }
    lemma_no_own_length(whole, JsonView::Object(a));
    lemma_no_own_length(whole, JsonView::Object(b));
    lemma_no_own_length(whole, whole);
}

/// A node whose update queue is that of an object without a queue length gives none itself.
proof fn lemma_no_own_length(whole: JsonView, part: JsonView)
    requires
        whole.well_formed(),
        part.field("update_queue"@) matches Some(queue) ==> holds(whole, "update_queue"@, queue),
        forall|queue: JsonView, length: Number|
            #[trigger] holds(whole, "update_queue"@, queue) && #[trigger] holds(
                queue,
                "length"@,
                JsonView::Number(length),
            ) ==> length.binary64 is None,
    ensures
        own_queue_length(part) is None,
{
    let path = seq!["update_queue"@, "length"@];
    reveal_with_fuel(JsonView::at, 3);
    assert(path.drop_first()[0] == "length"@);
    if let Some(queue) = part.field("update_queue"@) {
        law_held_is_found(whole, "update_queue"@, queue);
        lemma_field_is_well_formed(whole, "update_queue"@);
        if let Some(JsonView::Number(length)) = queue.field("length"@) {
            law_held_is_found(queue, "length"@, JsonView::Number(length));
            assert(holds(queue, "length"@, JsonView::Number(length)));
        }
    }
}

/// The collections are what the document lists under `result`, `collections`, `collections`; the
/// shards are what the collections list under `shards`; the segments and the log entries are what
/// the shards list under `local`: all of them, in the order of the document.
pub proof fn law_parts_are_gathered(document: JsonView)
    requires
        document.well_formed(),
    ensures
        lists(
            document,
            seq!["result"@, "collections"@, "collections"@],
            all_collections(document),
        ),
        gathers(all_collections(document), seq!["shards"@], all_shards(document)),
        gathers(all_shards(document), seq!["local"@, "segments"@], all_segments(document)),
        gathers(
            all_shards(document),
            seq!["local"@, "optimizations"@, "log"@],
            all_log_entries(document),
        ),
{
    lemma_parts_are_well_formed(document);
    lemma_lists(
        document,
        seq!["result"@, "collections"@, "collections"@],
        all_collections(document),
    );
    lemma_gathered(all_collections(document), seq!["shards"@]);
    lemma_gathered(all_shards(document), seq!["local"@, "segments"@]);
    lemma_gathered(all_shards(document), seq!["local"@, "optimizations"@, "log"@]);
}

/// A well-formed node lists nothing else than what it lists.
pub proof fn law_list_is_determined(
    node: JsonView,
    path: Seq<Seq<char>>,
    a: Seq<JsonView>,
    b: Seq<JsonView>,
)
    requires
        node.well_formed(),
        lists(node, path, a),
        lists(node, path, b),
    ensures
        a == b,
{
    lemma_lists(node, path, a);
    lemma_lists(node, path, b);
}

/// Whether a segment holds the given vectors under `config`, `vector_data`.
pub open spec fn has_vectors(segment: JsonView, vectors: Seq<(Seq<char>, JsonView)>) -> bool {
    leads(segment, seq!["config"@, "vector_data"@], JsonView::Object(vectors))
}

/// Whether the first vector of a segment has an index whose type is the text `plain`.
pub open spec fn has_plain_index(segment: JsonView) -> bool {
    exists|vectors: Seq<(Seq<char>, JsonView)>| #[trigger]
        has_vectors(segment, vectors) && vectors.len() > 0 && leads(
            vectors[0].1,
            seq!["index"@, "type"@],
            JsonView::Text("plain"@),
        )
}

/// A segment is plain exactly where its first vector has an index of type `plain`.
pub proof fn law_plain_segment_is_told_by_its_first_index(segment: JsonView)
    requires
        segment.well_formed(),
    ensures
        is_plain(segment) <==> has_plain_index(segment),
{
    let path = seq!["config"@, "vector_data"@];
    let inner = seq!["index"@, "type"@];
    let plain = JsonView::Text("plain"@);
    lemma_end_of_path_is_well_formed(segment, path);
    if has_plain_index(segment) {
        let vectors = choose|vectors: Seq<(Seq<char>, JsonView)>| #[trigger]
            has_vectors(segment, vectors) && vectors.len() > 0 && leads(
                vectors[0].1,
                inner,
                plain,
            );
        law_path_is_followed(segment, path, JsonView::Object(vectors));
        assert(vectors[0].1.well_formed());
        law_path_is_followed(vectors[0].1, inner, plain);
    }
    if is_plain(segment) {
        let vectors = segment.at(path)->0->Object_0;
        law_path_is_followed(segment, path, JsonView::Object(vectors));
        assert(vectors[0].1.well_formed());
        law_path_is_followed(vectors[0].1, inner, plain);
        assert(has_vectors(segment, vectors));
    }
}

/// Whether a segment holds a count under `info`, `num_points`.
pub open spec fn has_points(segment: JsonView, count: u64) -> bool {
    counts(segment, seq!["info"@, "num_points"@], count)
}

/// The points of a segment are the count under `info`, `num_points`, and zero where there is no
/// count.
pub proof fn law_points_are_told_by_their_field(segment: JsonView, count: u64)
    requires
        segment.well_formed(),
    ensures
        has_points(segment, count) ==> num_points(segment) == count,
        (forall|other: u64| !#[trigger] has_points(segment, other)) ==> num_points(segment) == 0,
{
    let path = seq!["info"@, "num_points"@];
    lemma_counts(segment, path, count);
    if let Some(found) = segment.at(path) {
        if let Some(points) = found.unsigned() {
            lemma_counts(segment, path, points);
            assert(has_points(segment, points));
        }
    }
}

/// The points of segments are those of their parts together, split by the type of the index: a
/// single segment adds its own points to one of the two sums and nothing to the other.
pub proof fn law_points_are_added_up(a: Seq<JsonView>, b: Seq<JsonView>, segment: JsonView)
    requires
        segment.well_formed(),
    ensures
        forall|plain: bool| #[trigger]
            points_of(a + b, plain) == points_of(a, plain) + points_of(b, plain),
        points_of(Seq::empty(), true) == 0,
        points_of(Seq::empty(), false) == 0,
        has_plain_index(segment) ==> points_of(seq![segment], true) == num_points(segment)
            && points_of(seq![segment], false) == 0,
        !has_plain_index(segment) ==> points_of(seq![segment], true) == 0 && points_of(
            seq![segment],
            false,
        ) == num_points(segment),
{
    assert forall|plain: bool| #[trigger]
        points_of(a + b, plain) == points_of(a, plain) + points_of(b, plain) by {
        lemma_points_of_joined(a, b, plain);
    }
    law_plain_segment_is_told_by_its_first_index(segment);
    reveal_with_fuel(points_of, 2);
    assert(seq![segment].drop_last() =~= Seq::empty());
}

proof fn lemma_points_of_joined(a: Seq<JsonView>, b: Seq<JsonView>, plain: bool)
    ensures
        points_of(a + b, plain) == points_of(a, plain) + points_of(b, plain),
    decreases b.len(),
{
    if b.len() == 0 {
        assert(a + b =~= a);
    } else {
        lemma_points_of_joined(a, b.drop_last(), plain);
        assert((a + b).drop_last() =~= a + b.drop_last());
    }
}

/// The points of a document can be counted exactly where neither sum exceeds 64 bits.
pub proof fn law_points_fit_64_bits(document: JsonView)
    ensures
        points_fit(document) <==> (points_of(all_segments(document), true) < 0x1_0000_0000_0000_0000
            && points_of(all_segments(document), false) < 0x1_0000_0000_0000_0000),
{
}

/// A log entry is pending unless its status is the text `done`, it runs exactly where its status is
/// the text `optimizing`, and it is a merge exactly where its name is the text `merge`.
pub proof fn law_log_entry_is_told_by_its_fields(entry: JsonView)
    requires
        entry.well_formed(),
    ensures
        is_pending(entry) <==> !holds(entry, "status"@, JsonView::Text("done"@)),
        is_optimizing(entry) <==> holds(entry, "status"@, JsonView::Text("optimizing"@)),
        is_merge(entry) <==> holds(entry, "name"@, JsonView::Text("merge"@)),
{
    law_held_is_found(entry, "status"@, JsonView::Text("done"@));
    law_held_is_found(entry, "status"@, JsonView::Text("optimizing"@));
    law_held_is_found(entry, "name"@, JsonView::Text("merge"@));
}

/// Whether an entry is of a merge that runs, or of some other optimization that runs.
pub open spec fn is_running(entry: JsonView, merge: bool) -> bool {
    &&& holds(entry, "status"@, JsonView::Text("optimizing"@))
    &&& holds(entry, "name"@, JsonView::Text("merge"@)) == merge
}

/// Whether a kind shows a merge exactly where some entry with the status `optimizing` has the name
/// `merge`, and an index exactly where some entry with that status has another name or none.
pub open spec fn is_kind_of(kind: OptKind, entries: Seq<JsonView>) -> bool {
    let merge = exists|i: int| 0 <= i < entries.len() && is_running(#[trigger] entries[i], true);
    let other = exists|i: int| 0 <= i < entries.len() && is_running(#[trigger] entries[i], false);
    &&& kind == OptKind::Both <==> merge && other
    &&& kind == OptKind::MergeOnly <==> merge && !other
    &&& kind == OptKind::IndexOnly <==> !merge && other
    &&& kind == OptKind::Idle <==> !merge && !other
}

/// The kind shows a merge exactly where some entry with the status `optimizing` has the name
/// `merge`, and an index exactly where some entry with that status has another name or none.
pub proof fn law_kind_is_told_by_the_entries(document: JsonView)
    requires
        document.well_formed(),
    ensures
        is_kind_of(
            kind_of(runs(all_log_entries(document), true), runs(all_log_entries(document), false)),
            all_log_entries(document),
        ),
        ({
            let entries = all_log_entries(document);
            let kind = kind_of(runs(entries, true), runs(entries, false));
            &&& kind == OptKind::MergeOnly || kind == OptKind::Both <==> exists|i: int|
                0 <= i < entries.len() && holds(
                    #[trigger] entries[i],
                    "status"@,
                    JsonView::Text("optimizing"@),
                ) && holds(entries[i], "name"@, JsonView::Text("merge"@))
            &&& kind == OptKind::IndexOnly || kind == OptKind::Both <==> exists|i: int|
                0 <= i < entries.len() && holds(
                    #[trigger] entries[i],
                    "status"@,
                    JsonView::Text("optimizing"@),
                ) && !holds(entries[i], "name"@, JsonView::Text("merge"@))
        }),
{
    lemma_parts_are_well_formed(document);
    let entries = all_log_entries(document);
    assert forall|merge: bool|
        runs(entries, merge) == exists|i: int|
            0 <= i < entries.len() && is_running(#[trigger] entries[i], merge) by {
        if runs(entries, merge) {
            let i = choose|i: int|
                0 <= i < entries.len() && is_optimizing(#[trigger] entries[i]) && is_merge(
                    entries[i],
                ) == merge;
            law_log_entry_is_told_by_its_fields(entries[i]);
            assert(is_running(entries[i], merge));
        }
        if exists|i: int| 0 <= i < entries.len() && is_running(#[trigger] entries[i], merge) {
            let i = choose|i: int|
                0 <= i < entries.len() && is_running(#[trigger] entries[i], merge);
            law_log_entry_is_told_by_its_fields(entries[i]);
            assert(is_optimizing(entries[i]) && is_merge(entries[i]) == merge);
        }
    }
    assert(runs(entries, true) == exists|i: int|
        0 <= i < entries.len() && is_running(#[trigger] entries[i], true));
    assert(runs(entries, false) == exists|i: int|
        0 <= i < entries.len() && is_running(#[trigger] entries[i], false));
}

/// A single entry that runs shows as a merge where its name is the text `merge`, and as an index
/// for every other name.
pub proof fn law_kind_of_a_single_entry(entry: JsonView, name: Seq<char>)
    requires
        entry.well_formed(),
        holds(entry, "status"@, JsonView::Text("optimizing"@)),
        holds(entry, "name"@, JsonView::Text(name)),
    ensures
        kind_of(runs(seq![entry], true), runs(seq![entry], false)) == if name == "merge"@ {
            OptKind::MergeOnly
        } else {
            OptKind::IndexOnly
        },
{
    law_log_entry_is_told_by_its_fields(entry);
    law_held_is_found(entry, "name"@, JsonView::Text(name));
    law_held_is_found(entry, "name"@, JsonView::Text("merge"@));
    assert(seq![entry][0] == entry);
}

/// Every entry counts as pending whose status is not the text `done`: joined lists add up, and a
/// single entry counts as one or none.
pub proof fn law_pending_entries_are_counted(a: Seq<JsonView>, b: Seq<JsonView>, entry: JsonView)
    requires
        entry.well_formed(),
    ensures
        (a + b).filter(|e: JsonView| is_pending(e)).len() == a.filter(
            |e: JsonView| is_pending(e),
        ).len() + b.filter(|e: JsonView| is_pending(e)).len(),
        seq![entry].filter(|e: JsonView| is_pending(e)).len() == if holds(
            entry,
            "status"@,
            JsonView::Text("done"@),
        ) {
            0nat
        } else {
            1nat
        },
{
    law_log_entry_is_told_by_its_fields(entry);
    lemma_count_of_joined(a, b, |e: JsonView| is_pending(e));
    reveal(Seq::filter);
    reveal_with_fuel(Seq::filter, 3);
    assert(seq![entry].drop_last() =~= Seq::empty());
}

/// The average of the query batches is the number that the document gives under its path.
pub proof fn law_query_batch_average_is_that_of_its_path(document: JsonView, average: Binary64)
    requires
        document.well_formed(),
    ensures
        query_batch_average(document) == Some(average) <==> gives(
            document,
            seq![
                "result"@,
                "requests"@,
                "grpc"@,
                "responses"@,
                "/qdrant.Points/QueryBatch"@,
                "avg_duration_micros"@,
            ],
            average,
        ),
{
    lemma_gives(
        document,
        seq![
            "result"@,
            "requests"@,
            "grpc"@,
            "responses"@,
            "/qdrant.Points/QueryBatch"@,
            "avg_duration_micros"@,
        ],
        average,
    );
}

/// Whether some values are those that an entry gives for filtered plain searches: one, or none.
pub open spec fn is_average_of(values: Seq<Binary64>, entry: JsonView) -> bool {
    let path = seq!["filtered_plain"@, "avg_duration_micros"@];
    ||| values.len() == 1 && gives(entry, path, values[0])
    ||| values.len() == 0 && forall|other: Binary64| !#[trigger] gives(entry, path, other)
}

/// Whether some averages are those that entries give, one after the other.
pub open spec fn are_averages_of(averages: Seq<Binary64>, entries: Seq<JsonView>) -> bool {
    exists|parts: Seq<Seq<Binary64>>|
        parts.len() == entries.len() && #[trigger] parts.flatten() == averages && forall|i: int|
            0 <= i < entries.len() ==> is_average_of(#[trigger] parts[i], entries[i])
}

/// The value that an entry gives for filtered plain searches, if any.
spec fn average_part(entry: JsonView) -> Seq<Binary64> {
    match filtered_plain_average(entry) {
        Some(average) => seq![average],
        None => Seq::empty(),
    }
}

proof fn lemma_averages_are_flattened(entries: Seq<JsonView>)
    ensures
        Seq::new(entries.len(), |i: int| average_part(entries[i])).flatten() == averages_of(
            entries,
        ),
    decreases entries.len(),
{
    let parts = Seq::new(entries.len(), |i: int| average_part(entries[i]));
    parts.lemma_flatten_and_flatten_alt_are_equivalent();
    if entries.len() > 0 {
        let before = entries.drop_last();
        let fewer = Seq::new(before.len(), |i: int| average_part(before[i]));
        lemma_averages_are_flattened(before);
        fewer.lemma_flatten_and_flatten_alt_are_equivalent();
        assert(parts.drop_last() =~= fewer);
        assert(parts.flatten_alt() =~= averages_of(entries));
    }
}

proof fn lemma_averages_are_given(entries: Seq<JsonView>)
    requires
        all_well_formed(entries),
    ensures
        are_averages_of(averages_of(entries), entries),
{
    let path = seq!["filtered_plain"@, "avg_duration_micros"@];
    let parts = Seq::new(entries.len(), |i: int| average_part(entries[i]));
    lemma_averages_are_flattened(entries);
    assert forall|i: int| 0 <= i < entries.len() implies is_average_of(
        #[trigger] parts[i],
        entries[i],
    ) by {
        let entry = entries[i];
        assert(entry.well_formed());
        assert forall|other: Binary64| #[trigger] gives(entry, path, other) implies
            filtered_plain_average(entry) == Some(other) by {
            lemma_gives(entry, path, other);
        }
        if let Some(average) = filtered_plain_average(entry) {
            lemma_gives(entry, path, average);
        }
    }
}

/// Whether some entries are what segments list under `vector_index_searches`, one after the other.
pub open spec fn are_searches_of(entries: Seq<JsonView>, segments: Seq<JsonView>) -> bool {
    gathers(segments, seq!["vector_index_searches"@], entries)
}

/// Whether some averages are those that the entries on searches in all segments of a document give
/// for filtered plain searches, in the order of the document.
pub open spec fn are_filtered_averages(averages: Seq<Binary64>, document: JsonView) -> bool {
    exists|entries: Seq<JsonView>| #[trigger]
        are_searches_of(entries, all_segments(document)) && are_averages_of(averages, entries)
}

/// The averages of filtered plain searches are what the entries under `vector_index_searches` give
/// under `filtered_plain`, `avg_duration_micros`: those of all segments of all shards, in the order
/// of the document.
pub proof fn law_averages_are_those_of_all_segments(document: JsonView)
    requires
        document.well_formed(),
    ensures
        are_filtered_averages(filtered_plain_averages_in(document), document),
{
    lemma_parts_are_well_formed(document);
    let entries = all_items_at(all_segments(document), seq!["vector_index_searches"@]);
    lemma_gathered(all_segments(document), seq!["vector_index_searches"@]);
    lemma_items_are_well_formed(all_segments(document), seq!["vector_index_searches"@]);
    lemma_averages_are_given(entries);
    assert(are_searches_of(entries, all_segments(document)));
}

/// Where the collections of a document are those of two others, one after the other, its averages
/// are those of the first followed by those of the second.
pub proof fn law_averages_of_joined_collections(joined: JsonView, a: JsonView, b: JsonView)
    requires
        all_collections(joined) == all_collections(a) + all_collections(b),
    ensures
        filtered_plain_averages_in(joined) == filtered_plain_averages_in(a)
            + filtered_plain_averages_in(b),
{
    let path = seq!["vector_index_searches"@];
    law_counts_of_joined_collections(joined, a, b);
    lemma_items_of_joined(all_segments(a), all_segments(b), path);
    law_averages_of_joined_entries(
        all_items_at(all_segments(a), path),
        all_items_at(all_segments(b), path),
    );
}

/// The averages of a document whose collections list one shard are those of all entries of all
/// segments of that shard, in order.
pub proof fn law_averages_of_a_single_shard(
    document: JsonView,
    shard: JsonView,
    segments: Seq<JsonView>,
)
    requires
        document.well_formed(),
        all_shards(document) == seq![shard],
        lists(shard, seq!["local"@, "segments"@], segments),
    ensures
        exists|entries: Seq<JsonView>| #[trigger]
            are_searches_of(entries, segments) && are_averages_of(
                filtered_plain_averages_in(document),
                entries,
            ),
{
    let path = seq!["local"@, "segments"@];
    lemma_parts_are_well_formed(document);
    assert(all_shards(document)[0].well_formed());
    lemma_lists(shard, path, segments);
    assert(seq![shard].drop_last() =~= Seq::empty());
    reveal_with_fuel(all_items_at, 2);
    assert(all_segments(document) =~= segments);
    law_averages_are_those_of_all_segments(document);
}

/// There is a sum of filtered plain searches exactly where some entry gives an average, and it is
/// what adding the averages one by one to zero gives.
pub proof fn law_filtered_sum_adds_all_averages(document: JsonView)
    ensures
        filtered_plain_sum(document) is Some <==> filtered_plain_averages_in(document).len() > 0,
        filtered_plain_sum(document) matches Some(sum) ==> sum == running_sum(
            filtered_plain_averages_in(document),
        ),
{
}

/// A document gives a sample exactly where it gives a queue length, and the sample is made of the
/// readings of that document, each in its place.
pub proof fn law_sample_is_made_of_the_readings(document: JsonView)
    requires
        points_fit(document),
        all_segments(document).len() <= u64::MAX,
        all_log_entries(document).len() <= u64::MAX,
    ensures
        sample_of(document) is Some <==> first_queue_length(document) is Some,
        sample_of(document) matches Some(sample) ==> {
            &&& Some(sample.queue_length) == first_queue_length(document)
            &&& sample.search_latency == query_batch_average(document)
            &&& sample.filtered_search_latency == filtered_plain_sum(document)
            &&& sample.plain_points == points_of(all_segments(document), true)
            &&& sample.indexed_points == points_of(all_segments(document), false)
            &&& sample.total_segments == all_segments(document).len()
            &&& sample.plain_segments == all_segments(document).filter(
                |s: JsonView| is_plain(s),
            ).len()
            &&& sample.nonplain_segments == all_segments(document).filter(
                |s: JsonView| !is_plain(s),
            ).len()
            &&& sample.pending_optimizations == all_log_entries(document).filter(
                |e: JsonView| is_pending(e),
            ).len()
            &&& sample.opt_kind == kind_of(
                runs(all_log_entries(document), true),
                runs(all_log_entries(document), false),
            )
        },
{
    lemma_filter_is_shorter(all_segments(document), |s: JsonView| is_plain(s));
    lemma_filter_is_shorter(all_segments(document), |s: JsonView| !is_plain(s));
    lemma_filter_is_shorter(all_log_entries(document), |e: JsonView| is_pending(e));
}

proof fn lemma_filter_is_shorter(list: Seq<JsonView>, wanted: spec_fn(JsonView) -> bool)
    ensures
        list.filter(wanted).len() <= list.len(),
    decreases list.len(),
{
    reveal(Seq::filter);
    if list.len() > 0 {
        lemma_filter_is_shorter(list.drop_last(), wanted);
    }
}

} // verus!
