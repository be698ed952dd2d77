//! What a telemetry document says about the process that sent it.
use crate::addition::{running_sum, sum_of};
use crate::binary64::Binary64;
use crate::json::{texts, views, Json, JsonView};
use crate::meaning::{
    are_filtered_averages, has_plain_index, is_first_length, is_kind_of,
    law_averages_are_those_of_all_segments, law_kind_is_told_by_the_entries,
    law_parts_are_gathered, law_plain_segment_is_told_by_its_first_index,
    law_queue_length_is_that_of_the_first_queue,
};
use crate::paths::gathers;
use crate::text::same_text;
use vstd::prelude::*;

verus! {

/// The optimizations that run, by kind.
#[derive(Clone, Copy, Debug, PartialEq, Eq, Structural)]
pub enum OptKind {
    /// No optimization runs.
    Idle,
    /// Only merges run.
    MergeOnly,
    /// Only optimizations other than merges run.
    IndexOnly,
    /// A merge and some other optimization run.
    Both,
}

/// The items of the array that a path leads to; none where it leads to no array.
pub open spec fn items_at(document: JsonView, path: Seq<Seq<char>>) -> Seq<JsonView> {
    match document.at(path) {
        Some(found) => match found.items() {
            Some(items) => items,
            None => Seq::empty(),
        },
        None => Seq::empty(),
    }
}

/// The items that a path leads to from each of the holders, in the order of the holders.
pub open spec fn all_items_at(holders: Seq<JsonView>, path: Seq<Seq<char>>) -> Seq<JsonView>
    decreases holders.len(),
{
    if holders.len() == 0 {
        Seq::empty()
    } else {
        all_items_at(holders.drop_last(), path) + items_at(holders.last(), path)
    }
}

/// The collections.
pub open spec fn all_collections(document: JsonView) -> Seq<JsonView> {
    items_at(document, seq!["result"@, "collections"@, "collections"@])
}

/// The shards of all collections.
pub open spec fn all_shards(document: JsonView) -> Seq<JsonView> {
    all_items_at(all_collections(document), seq!["shards"@])
}

/// The segments of all local shards.
pub open spec fn all_segments(document: JsonView) -> Seq<JsonView> {
    all_items_at(all_shards(document), seq!["local"@, "segments"@])
}

/// The optimization log entries of all local shards.
pub open spec fn all_log_entries(document: JsonView) -> Seq<JsonView> {
    all_items_at(all_shards(document), seq!["local"@, "optimizations"@, "log"@])
}

/// Adds the items of the array that a path leads to.
fn collect_items<'a>(found: &mut Vec<&'a Json>, holder: &'a Json, path: &[&str])
    ensures
        views(final(found)@) == views(old(found)@) + items_at(holder@, texts(path@)),
{
    if let Some(inner) = holder.lookup(path) {
        if let Some(items) = inner.as_array() {
            let ghost start = found@;
            let ghost shows = items_at(holder@, texts(path@));
            let mut i: usize = 0;
            assert(views(found@) =~= views(start) + shows.take(0));
            while i < items.len()
                invariant
                    i <= items@.len(),
                    shows == items@.map_values(|item: Json| item@),
                    views(found@) == views(start) + shows.take(i as int),
                decreases items@.len() - i,
            {
                let ghost before = found@;
                found.push(&items[i]);
                assert(views(found@) =~= views(before).push(items@[i as int]@));
                assert(shows.take(i + 1) =~= shows.take(i as int).push(shows[i as int]));
                assert(views(found@) =~= views(start) + shows.take(i + 1));
                i += 1;
            }
            assert(shows.take(items@.len() as int) =~= shows);
            return;
        }
    }
    assert(views(found@) =~= views(found@) + Seq::<JsonView>::empty());
}

/// The items that a path leads to from each of the holders.
fn collect_all<'a>(holders: &Vec<&'a Json>, path: &[&str]) -> (found: Vec<&'a Json>)
    ensures
        views(found@) == all_items_at(views(holders@), texts(path@)),
{
    let mut found: Vec<&'a Json> = Vec::new();
    let mut i: usize = 0;
    let ghost all = views(holders@);
    assert(views(found@) =~= all_items_at(all.take(0), texts(path@)));
    while i < holders.len()
        invariant
            i <= holders@.len(),
            all == views(holders@),
            views(found@) == all_items_at(all.take(i as int), texts(path@)),
        decreases holders@.len() - i,
    {
        collect_items(&mut found, holders[i], path);
        assert(all.take(i + 1).drop_last() =~= all.take(i as int));
        assert(all.take(i + 1).last() == holders@[i as int]@);
        i += 1;
    }
    assert(all.take(holders@.len() as int) =~= all);
    found
}

/// The shards of all collections.
pub fn shards<'a>(document: &'a Json) -> (found: Vec<&'a Json>)
    ensures
        views(found@) == all_shards(document@),
        document@.well_formed() ==> gathers(
            all_collections(document@),
            seq!["shards"@],
            views(found@),
        ),
{
    proof {
        if document@.well_formed() {
            law_parts_are_gathered(document@);
        }
    }
    let mut collections: Vec<&'a Json> = Vec::new();
    let path = ["result", "collections", "collections"];
    assert(texts(path@) =~= seq!["result"@, "collections"@, "collections"@]);
    assert(views(collections@) =~= Seq::<JsonView>::empty());
    collect_items(&mut collections, document, &path);
    assert(views(collections@) =~= items_at(document@, texts(path@)));
    let inner = ["shards"];
    assert(texts(inner@) =~= seq!["shards"@]);
    collect_all(&collections, &inner)
}

/// The segments of all local shards, in the order in which the document lists them.
pub fn segments<'a>(document: &'a Json) -> (found: Vec<&'a Json>)
    ensures
        views(found@) == all_segments(document@),
        document@.well_formed() ==> gathers(
            all_shards(document@),
            seq!["local"@, "segments"@],
            views(found@),
        ),
{
    proof {
        if document@.well_formed() {
            law_parts_are_gathered(document@);
        }
    }
    let path = ["local", "segments"];
    assert(texts(path@) =~= seq!["local"@, "segments"@]);
    collect_all(&shards(document), &path)
}

/// The optimization log entries of all local shards, in the order in which the document lists
/// them.
pub fn log_entries<'a>(document: &'a Json) -> (found: Vec<&'a Json>)
    ensures
        views(found@) == all_log_entries(document@),
        document@.well_formed() ==> gathers(
            all_shards(document@),
            seq!["local"@, "optimizations"@, "log"@],
            views(found@),
        ),
{
    proof {
        if document@.well_formed() {
            law_parts_are_gathered(document@);
        }
    }
    let path = ["local", "optimizations", "log"];
    assert(texts(path@) =~= seq!["local"@, "optimizations"@, "log"@]);
    collect_all(&shards(document), &path)
}

/// Whether the first named vector of a segment has an index of type `plain`.
pub open spec fn is_plain(segment: JsonView) -> bool {
    match segment.at(seq!["config"@, "vector_data"@]) {
        Some(vectors) => match vectors.fields() {
            Some(fields) => fields.len() > 0 && match fields[0].1.at(seq!["index"@, "type"@]) {
                Some(index_type) => index_type.text() == Some("plain"@),
                None => false,
            },
            None => false,
        },
        None => false,
    }
}

/// The number of points of a segment; zero where it gives none.
pub open spec fn num_points(segment: JsonView) -> nat {
    match segment.at(seq!["info"@, "num_points"@]) {
        Some(found) => match found.unsigned() {
            Some(points) => points as nat,
            None => 0,
        },
        None => 0,
    }
}

/// The points of those segments that are plain, or of those that are not.
pub open spec fn points_of(segments: Seq<JsonView>, plain: bool) -> nat
    decreases segments.len(),
{
    if segments.len() == 0 {
        0
    } else {
        points_of(segments.drop_last(), plain) + if is_plain(segments.last()) == plain {
            num_points(segments.last())
        } else {
            0
        }
    }
}

/// Whether the points of the plain segments, and those of the others, can be counted in 64 bits.
pub open spec fn points_fit(document: JsonView) -> bool {
    &&& points_of(all_segments(document), true) <= u64::MAX
    &&& points_of(all_segments(document), false) <= u64::MAX
}

/// Whether a log entry is not done: its status is missing, no text, or other than `done`.
pub open spec fn is_pending(entry: JsonView) -> bool {
    match entry.field("status"@) {
        Some(status) => status.text() != Some("done"@),
        None => true,
    }
}

/// Whether a log entry is of an optimization that runs.
pub open spec fn is_optimizing(entry: JsonView) -> bool {
    match entry.field("status"@) {
        Some(status) => status.text() == Some("optimizing"@),
        None => false,
    }
}

/// Whether a log entry is of a merge.
pub open spec fn is_merge(entry: JsonView) -> bool {
    match entry.field("name"@) {
        Some(name) => name.text() == Some("merge"@),
        None => false,
    }
}

/// Whether some merge runs, or (with `merge` false) some optimization that is no merge.
pub open spec fn runs(entries: Seq<JsonView>, merge: bool) -> bool {
    exists|i: int|
        0 <= i < entries.len() && is_optimizing(#[trigger] entries[i]) && is_merge(entries[i])
            == merge
}

/// The kind for running merges and running other optimizations.
pub open spec fn kind_of(merge: bool, other: bool) -> OptKind {
    if merge && other {
        OptKind::Both
    } else if merge {
        OptKind::MergeOnly
    } else if other {
        OptKind::IndexOnly
    } else {
        OptKind::Idle
    }
}

/// Whether a field of an entry is a given text.
fn field_is(entry: &Json, key: &str, expected: &str) -> (is: bool)
    ensures
        is == match entry@.field(key@) {
            Some(found) => found.text() == Some(expected@),
            None => false,
        },
{
    match entry.get(key) {
        Some(found) => match found.as_str() {
            Some(text) => same_text(text, expected),
            None => false,
        },
        None => false,
    }
}

/// Whether the first named vector of a segment has an index of type `plain`.
pub fn is_plain_segment(segment: &Json) -> (plain: bool)
    ensures
        plain == is_plain(segment@),
        segment@.well_formed() ==> plain == has_plain_index(segment@),
{
    proof {
        if segment@.well_formed() {
            law_plain_segment_is_told_by_its_first_index(segment@);
        }
    }
    let path = ["config", "vector_data"];
    assert(texts(path@) =~= seq!["config"@, "vector_data"@]);
    let inner = ["index", "type"];
    assert(texts(inner@) =~= seq!["index"@, "type"@]);
    match segment.lookup(&path) {
        Some(vectors) => match vectors {
            Json::Object(fields) => {
                if fields.len() == 0 {
                    return false;
                }
                assert(vectors@.fields()->0[0].1 == fields@[0].1@);
                match fields[0].1.lookup(&inner) {
                    Some(index_type) => match index_type.as_str() {
                        Some(text) => same_text(text, "plain"),
                        None => false,
                    },
                    None => false,
                }
            },
            _ => false,
        },
        None => false,
    }
}

/// The number of points of a segment.
fn points_in(segment: &Json) -> (points: u64)
    ensures
        points == num_points(segment@),
{
    let path = ["info", "num_points"];
    assert(texts(path@) =~= seq!["info"@, "num_points"@]);
    match segment.lookup(&path) {
        Some(found) => match found.as_u64() {
            Some(points) => points,
            None => 0,
        },
        None => 0,
    }
}

/// The points of the first segments are at most those of all.
proof fn lemma_points_grow(segments: Seq<JsonView>, count: int, plain: bool)
    requires
        0 <= count <= segments.len(),
    ensures
        points_of(segments.take(count), plain) <= points_of(segments, plain),
    decreases segments.len() - count,
{
    if count == segments.len() {
        assert(segments.take(count) =~= segments);
    } else {
        lemma_points_grow(segments, count + 1, plain);
        assert(segments.take(count + 1).drop_last() =~= segments.take(count));
    }
}

/// The points of the plain segments and those of the others, where both can be counted in 64
/// bits.
pub fn checked_segment_points(document: &Json) -> (points: Option<(u64, u64)>)
    ensures
        points == if points_fit(document@) {
            Some(
                (
                    points_of(all_segments(document@), true) as u64,
                    points_of(all_segments(document@), false) as u64,
                ),
            )
        } else {
            None
        },
{
    let found = segments(document);
    let ghost all = all_segments(document@);
    let mut plain: u64 = 0;
    let mut indexed: u64 = 0;
    let mut i: usize = 0;
    while i < found.len()
        invariant
            i <= found@.len(),
            all == views(found@),
            all == all_segments(document@),
            plain == points_of(all.take(i as int), true),
            indexed == points_of(all.take(i as int), false),
        decreases found@.len() - i,
    {
        proof {
            assert(all.take(i + 1).drop_last() =~= all.take(i as int));
            assert(all.take(i + 1).last() == found@[i as int]@);
            lemma_points_grow(all, i + 1, true);
            lemma_points_grow(all, i + 1, false);
        }
        let points = points_in(found[i]);
        if is_plain_segment(found[i]) {
            if points > u64::MAX - plain {
                return None;
            }
            plain = plain + points;
        } else {
            if points > u64::MAX - indexed {
                return None;
            }
            indexed = indexed + points;
        }
        i += 1;
    }
    assert(all.take(found@.len() as int) =~= all);
    Some((plain, indexed))
}

/// The points of the plain segments and those of the others.
pub fn find_segment_points(document: &Json) -> (points: (u64, u64))
    requires
        points_fit(document@),
    ensures
        points.0 == points_of(all_segments(document@), true),
        points.1 == points_of(all_segments(document@), false),
{
    checked_segment_points(document).unwrap()
}

/// The number of segments, of those that are plain and of those that are not.
pub fn count_segments(document: &Json) -> (counts: (u64, u64, u64))
    ensures
        counts.0 == all_segments(document@).len(),
        counts.1 == all_segments(document@).filter(|s: JsonView| is_plain(s)).len(),
        counts.2 == all_segments(document@).filter(|s: JsonView| !is_plain(s)).len(),
{
    let found = segments(document);
    let ghost all = all_segments(document@);
    let ghost is = |s: JsonView| is_plain(s);
    let ghost is_not = |s: JsonView| !is_plain(s);
    let mut total: u64 = 0;
    let mut plain: u64 = 0;
    let mut nonplain: u64 = 0;
    let mut i: usize = 0;
    proof {
        reveal(Seq::filter);
    }
    while i < found.len()
        invariant
            i <= found@.len(),
            all == views(found@),
            is == (|s: JsonView| is_plain(s)),
            is_not == (|s: JsonView| !is_plain(s)),
            total == i,
            plain <= i,
            nonplain <= i,
            plain == all.take(i as int).filter(is).len(),
            nonplain == all.take(i as int).filter(is_not).len(),
        decreases found@.len() - i,
    {
        proof {
            reveal(Seq::filter);
            assert(all.take(i + 1).drop_last() =~= all.take(i as int));
            assert(all.take(i + 1).last() == found@[i as int]@);
        }
        total = total + 1;
        if is_plain_segment(found[i]) {
            plain = plain + 1;
        } else {
            nonplain = nonplain + 1;
        }
        i += 1;
    }
    assert(all.take(found@.len() as int) =~= all);
    (total, plain, nonplain)
}

/// The number of optimization log entries that are not done.
pub fn count_pending_optimizations(document: &Json) -> (count: u64)
    ensures
        count == all_log_entries(document@).filter(|e: JsonView| is_pending(e)).len(),
{
    let found = log_entries(document);
    let ghost all = all_log_entries(document@);
    let ghost pending = |e: JsonView| is_pending(e);
    let mut count: u64 = 0;
    let mut i: usize = 0;
    proof {
        reveal(Seq::filter);
    }
    while i < found.len()
        invariant
            i <= found@.len(),
            all == views(found@),
            pending == (|e: JsonView| is_pending(e)),
            count <= i,
            count == all.take(i as int).filter(pending).len(),
        decreases found@.len() - i,
    {
        proof {
            reveal(Seq::filter);
            assert(all.take(i + 1).drop_last() =~= all.take(i as int));
            assert(all.take(i + 1).last() == found@[i as int]@);
        }
        if !field_is(found[i], "status", "done") {
            count = count + 1;
        }
        i += 1;
    }
    assert(all.take(found@.len() as int) =~= all);
    count
}

/// The kind of the optimizations that the log shows as running.
pub fn detect_optimization_kind(document: &Json) -> (kind: OptKind)
    ensures
        kind == kind_of(
            runs(all_log_entries(document@), true),
            runs(all_log_entries(document@), false),
        ),
        document@.well_formed() ==> is_kind_of(kind, all_log_entries(document@)),
{
    proof {
        if document@.well_formed() {
            law_kind_is_told_by_the_entries(document@);
        }
    }
    let found = log_entries(document);
    let ghost all = all_log_entries(document@);
    let mut merge = false;
    let mut other = false;
    let mut i: usize = 0;
    while i < found.len()
        invariant
            i <= found@.len(),
            all == views(found@),
            merge == runs(all.take(i as int), true),
            other == runs(all.take(i as int), false),
        decreases found@.len() - i,
    {
        let ghost (before, after) = (all.take(i as int), all.take(i + 1));
        let ghost entry = found@[i as int]@;
        let optimizing = field_is(found[i], "status", "optimizing");
        let merging = field_is(found[i], "name", "merge");
        proof {
            assert(after[i as int] == entry);
            assert forall|k: int| 0 <= k < i implies #[trigger] before[k] == after[k] by {}
            assert forall|wanted: bool|
                runs(after, wanted) == (runs(before, wanted) || (is_optimizing(entry) && is_merge(
                    entry,
                ) == wanted)) by {
                if runs(before, wanted) {
                    let k = choose|k: int|
                        0 <= k < before.len() && is_optimizing(#[trigger] before[k]) && is_merge(
                            before[k],
                        ) == wanted;
                    assert(before[k] == after[k]);
                }
                if runs(after, wanted) {
                    let k = choose|k: int|
                        0 <= k < after.len() && is_optimizing(#[trigger] after[k]) && is_merge(
                            after[k],
                        ) == wanted;
                    if k < i {
                        assert(before[k] == after[k]);
                    }
                }
            }
        }
        if optimizing {
            if merging {
                merge = true;
            } else {
                other = true;
            }
        }
        i += 1;
    }
    assert(all.take(found@.len() as int) =~= all);
    if merge && other {
        OptKind::Both
    } else if merge {
        OptKind::MergeOnly
    } else if other {
        OptKind::IndexOnly
    } else {
        OptKind::Idle
    }
}

/// The queue length that a node of a document gives itself.
pub open spec fn own_queue_length(node: JsonView) -> Option<Binary64> {
    match node.at(seq!["update_queue"@, "length"@]) {
        Some(length) => length.binary64(),
        None => None,
    }
}

/// The first queue length in a document: the one that the document gives itself, or else the
/// first one in what it holds.
pub open spec fn first_queue_length(document: JsonView) -> Option<Binary64>
    decreases document, 0nat,
{
    if own_queue_length(document) is Some {
        own_queue_length(document)
    } else {
        match document {
            JsonView::Object(fields) => first_in_fields(fields, 0),
            JsonView::Array(items) => first_in_items(items, 0),
            _ => None,
        }
    }
}

/// The first queue length in the items from position `from` on.
pub open spec fn first_in_items(items: Seq<JsonView>, from: nat) -> Option<Binary64>
    decreases items, items.len() - from,
{
    if from >= items.len() {
        None
    } else if first_queue_length(items[from as int]) is Some {
        first_queue_length(items[from as int])
    } else {
        first_in_items(items, from + 1)
    }
}

/// The first queue length in the values of the fields from position `from` on.
pub open spec fn first_in_fields(fields: Seq<(Seq<char>, JsonView)>, from: nat) -> Option<Binary64>
    decreases fields, fields.len() - from,
{
    if from >= fields.len() {
        None
    } else {
        proof {
            assert(decreases_to!(fields => fields[from as int]));
            assert(decreases_to!(fields[from as int] => fields[from as int].1));
        }
        if first_queue_length(fields[from as int].1) is Some {
            first_queue_length(fields[from as int].1)
        } else {
            first_in_fields(fields, from + 1)
        }
    }
}

/// The first queue length in a document.
pub fn find_update_queue_length(document: &Json) -> (length: Option<Binary64>)
    ensures
        length == first_queue_length(document@),
        document@.well_formed() ==> is_first_length(document@, length),
    decreases document,
{
    proof {
        if document@.well_formed() {
            law_queue_length_is_that_of_the_first_queue(document@);
        }
    }
    let path = ["update_queue", "length"];
    assert(texts(path@) =~= seq!["update_queue"@, "length"@]);
    if let Some(found) = document.lookup(&path) {
        if let Some(length) = found.as_binary64() {
            return Some(length);
        }
    }
    match document {
        Json::Object(fields) => {
            let ghost all = document@->Object_0;
            let mut i: usize = 0;
            while i < fields.len()
                invariant
                    i <= fields@.len(),
                    document == Json::Object(*fields),
                    all.len() == fields@.len(),
                    forall|k: int| 0 <= k < all.len() ==> #[trigger] all[k].1 == fields@[k].1@,
                    first_queue_length(document@) == first_in_fields(all, i as nat),
                    document@.well_formed() ==> is_first_length(
                        document@,
                        first_queue_length(document@),
                    ),
                decreases fields@.len() - i,
            {
                assert(all[i as int].1 == fields@[i as int].1@);
                assert(decreases_to!(document => fields));
                assert(decreases_to!(fields@ => fields@[i as int]));
                assert(decreases_to!(fields@[i as int] => fields@[i as int].1));
                if let Some(length) = find_update_queue_length(&fields[i].1) {
                    return Some(length);
                }
                i += 1;
            }
            None
        },
        Json::Array(items) => {
            let ghost all = document@->Array_0;
            let mut i: usize = 0;
            while i < items.len()
                invariant
                    i <= items@.len(),
                    document == Json::Array(*items),
                    all.len() == items@.len(),
                    forall|k: int| 0 <= k < all.len() ==> #[trigger] all[k] == items@[k]@,
                    first_queue_length(document@) == first_in_items(all, i as nat),
                    document@.well_formed() ==> is_first_length(
                        document@,
                        first_queue_length(document@),
                    ),
                decreases items@.len() - i,
            {
                assert(all[i as int] == items@[i as int]@);
                if let Some(length) = find_update_queue_length(&items[i]) {
                    return Some(length);
                }
                i += 1;
            }
            None
        },
        _ => None,
    }
}

/// The average duration of a query batch in the responses to gRPC requests.
pub open spec fn query_batch_average(document: JsonView) -> Option<Binary64> {
    match document.at(
        seq![
            "result"@,
            "requests"@,
            "grpc"@,
            "responses"@,
            "/qdrant.Points/QueryBatch"@,
            "avg_duration_micros"@,
        ],
    ) {
        Some(average) => average.binary64(),
        None => None,
    }
}

/// The average duration of a query batch in the responses to gRPC requests.
pub fn find_query_batch_avg(document: &Json) -> (average: Option<Binary64>)
    ensures
        average == query_batch_average(document@),
{
    let path = [
        "result",
        "requests",
        "grpc",
        "responses",
        "/qdrant.Points/QueryBatch",
        "avg_duration_micros",
    ];
    assert(texts(path@) =~= seq![
        "result"@,
        "requests"@,
        "grpc"@,
        "responses"@,
        "/qdrant.Points/QueryBatch"@,
        "avg_duration_micros"@,
    ]);
    match document.lookup(&path) {
        Some(found) => found.as_binary64(),
        None => None,
    }
}

/// The average duration of filtered plain searches that an entry on the searches in a vector
/// index gives.
pub open spec fn filtered_plain_average(entry: JsonView) -> Option<Binary64> {
    match entry.at(seq!["filtered_plain"@, "avg_duration_micros"@]) {
        Some(average) => average.binary64(),
        None => None,
    }
}

/// The averages that the entries give, in the order of the entries.
pub open spec fn averages_of(entries: Seq<JsonView>) -> Seq<Binary64>
    decreases entries.len(),
{
    if entries.len() == 0 {
        Seq::empty()
    } else {
        match filtered_plain_average(entries.last()) {
            Some(average) => averages_of(entries.drop_last()).push(average),
            None => averages_of(entries.drop_last()),
        }
    }
}

/// The average durations of filtered plain searches in all segments.
pub open spec fn filtered_plain_averages_in(document: JsonView) -> Seq<Binary64> {
    averages_of(all_items_at(all_segments(document), seq!["vector_index_searches"@]))
}

/// The average durations of filtered plain searches in all segments, in the order in which the
/// document lists them.
pub fn filtered_plain_averages(document: &Json) -> (averages: Vec<Binary64>)
    ensures
        averages@ == filtered_plain_averages_in(document@),
        document@.well_formed() ==> are_filtered_averages(averages@, document@),
{
    proof {
        if document@.well_formed() {
            law_averages_are_those_of_all_segments(document@);
        }
    }
    let outer = ["vector_index_searches"];
    assert(texts(outer@) =~= seq!["vector_index_searches"@]);
    let entries = collect_all(&segments(document), &outer);
    let path = ["filtered_plain", "avg_duration_micros"];
    assert(texts(path@) =~= seq!["filtered_plain"@, "avg_duration_micros"@]);
    let ghost all = views(entries@);
    let mut averages: Vec<Binary64> = Vec::new();
    let mut i: usize = 0;
    assert(averages@ =~= averages_of(all.take(0)));
    while i < entries.len()
        invariant
            i <= entries@.len(),
            all == views(entries@),
            texts(path@) == seq!["filtered_plain"@, "avg_duration_micros"@],
            averages@ == averages_of(all.take(i as int)),
        decreases entries@.len() - i,
    {
        assert(all.take(i + 1).drop_last() =~= all.take(i as int));
        assert(all.take(i + 1).last() == entries@[i as int]@);
        if let Some(found) = entries[i].lookup(&path) {
            if let Some(average) = found.as_binary64() {
                averages.push(average);
            }
        }
        i += 1;
    }
    assert(all.take(entries@.len() as int) =~= all);
    averages
}

/// The sum of the average durations of filtered plain searches, where there are any.
pub open spec fn filtered_plain_sum(document: JsonView) -> Option<Binary64> {
    if filtered_plain_averages_in(document).len() > 0 {
        Some(running_sum(filtered_plain_averages_in(document)))
    } else {
        None
    }
}

/// The sum of the average durations of filtered plain searches, where there are any.
pub fn find_filtered_plain_sum(document: &Json) -> (sum: Option<Binary64>)
    ensures
        sum == filtered_plain_sum(document@),
{
    let averages = filtered_plain_averages(document);
    if averages.len() > 0 {
        Some(sum_of(&averages))
    } else {
        None
    }
}

/// What one telemetry document adds to the plots.
#[derive(Clone, Copy, Debug, PartialEq, Eq, Structural)]
pub struct Sample {
    pub queue_length: Binary64,
    pub search_latency: Option<Binary64>,
    pub filtered_search_latency: Option<Binary64>,
    pub plain_points: u64,
    pub indexed_points: u64,
    pub total_segments: u64,
    pub plain_segments: u64,
    pub nonplain_segments: u64,
    pub pending_optimizations: u64,
    pub opt_kind: OptKind,
}

/// The sample that a document gives; none where it gives no queue length.
pub open spec fn sample_of(document: JsonView) -> Option<Sample> {
    match first_queue_length(document) {
        Some(queue_length) => Some(
            Sample {
                queue_length,
                search_latency: query_batch_average(document),
                filtered_search_latency: filtered_plain_sum(document),
                plain_points: points_of(all_segments(document), true) as u64,
                indexed_points: points_of(all_segments(document), false) as u64,
                total_segments: all_segments(document).len() as u64,
                plain_segments: all_segments(document).filter(
                    |s: JsonView| is_plain(s),
                ).len() as u64,
                nonplain_segments: all_segments(document).filter(
                    |s: JsonView| !is_plain(s),
                ).len() as u64,
                pending_optimizations: all_log_entries(document).filter(
                    |e: JsonView| is_pending(e),
                ).len() as u64,
                opt_kind: kind_of(
                    runs(all_log_entries(document), true),
                    runs(all_log_entries(document), false),
                ),
            },
        ),
        None => None,
    }
}

/// The sample that a document gives; none where it gives no queue length.
pub fn read_sample(document: &Json) -> (sample: Option<Sample>)
    requires
        first_queue_length(document@) is Some ==> points_fit(document@),
    ensures
        sample == sample_of(document@),
        sample is Some ==> all_segments(document@).len() <= u64::MAX,
{
    match find_update_queue_length(document) {
        Some(queue_length) => {
            let (plain_points, indexed_points) = find_segment_points(document);
            let (total_segments, plain_segments, nonplain_segments) = count_segments(document);
            Some(
                Sample {
                    queue_length,
                    search_latency: find_query_batch_avg(document),
                    filtered_search_latency: find_filtered_plain_sum(document),
                    plain_points,
                    indexed_points,
                    total_segments,
                    plain_segments,
                    nonplain_segments,
                    pending_optimizations: count_pending_optimizations(document),
                    opt_kind: detect_optimization_kind(document),
                },
            )
        },
        None => None,
    }
}

} // verus!
