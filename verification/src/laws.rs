//! What holds of telemetry documents and of the monitor as a whole.
use crate::binary64::Binary64;
use crate::json::{first_field, keys_ascend, keys_of, text_before, JsonView};
use crate::telemetry::{
    all_log_entries, all_segments, first_in_fields, first_in_items, first_queue_length, is_merge,
    is_optimizing, is_pending, is_plain, kind_of, num_points, own_queue_length, points_of, runs,
    OptKind,
};
use vstd::prelude::*;

verus! {

proof fn lemma_text_is_not_before_itself(text: Seq<char>)
    ensures
        !text_before(text, text),
    decreases text.len(),
{
    if text.len() > 0 {
        lemma_text_is_not_before_itself(text.drop_first());
    }
}

/// In an object whose keys ascend, each field is what is found under its key.
pub proof fn law_each_field_is_found(fields: Seq<(Seq<char>, JsonView)>, i: int)
    requires
        keys_ascend(keys_of(fields)),
        0 <= i < fields.len(),
    ensures
        first_field(fields, fields[i].0) == Some(fields[i].1),
    decreases fields.len(),
{
    if i > 0 {
        let keys = keys_of(fields);
        assert(text_before(keys[0], keys[i]));
        lemma_text_is_not_before_itself(keys[0]);
        let rest = fields.drop_first();
        assert(keys_of(rest) =~= keys.drop_first());
        assert(rest[i - 1] == fields[i]);
        law_each_field_is_found(rest, i - 1);
    }
}

/// What is found under a key is a field with that key.
pub proof fn law_found_is_a_field(fields: Seq<(Seq<char>, JsonView)>, key: Seq<char>)
    ensures
        match first_field(fields, key) {
            Some(value) => fields.contains((key, value)),
            None => forall|i: int| 0 <= i < fields.len() ==> (#[trigger] fields[i]).0 != key,
        },
    decreases fields.len(),
{
    if fields.len() > 0 && fields[0].0 != key {
        let rest = fields.drop_first();
        law_found_is_a_field(rest, key);
        match first_field(rest, key) {
            Some(value) => {
                let i = choose|i: int| 0 <= i < rest.len() && rest[i] == (key, value);
                assert(fields[i + 1] == (key, value));
            },
            None => {
                assert forall|i: int| 0 <= i < fields.len() implies (#[trigger] fields[i]).0
                    != key by {
                    if i > 0 {
                        assert(rest[i - 1] == fields[i]);
                    }
                }
            },
        }
    } else if fields.len() > 0 {
        assert(fields[0] == (key, fields[0].1));
    }
}

/// What an array or an object holds, in the order in which it is walked.
pub open spec fn children(node: JsonView) -> Seq<JsonView> {
    match node {
        JsonView::Array(items) => items,
        JsonView::Object(fields) => fields.map_values(|field: (Seq<char>, JsonView)| field.1),
        _ => Seq::empty(),
    }
}

/// The node that is reached by taking one child after another.
pub open spec fn node_at(document: JsonView, path: Seq<int>) -> Option<JsonView>
    decreases path.len(),
{
    if path.len() == 0 {
        Some(document)
    } else if 0 <= path[0] < children(document).len() {
        node_at(children(document)[path[0]], path.drop_first())
    } else {
        None
    }
}

/// Whether one node comes before another in the text of a document: it holds it, or it stands
/// in an earlier child of the innermost node that holds both.
pub open spec fn comes_before(a: Seq<int>, b: Seq<int>) -> bool
    decreases a.len(),
{
    if b.len() == 0 {
        false
    } else if a.len() == 0 {
        true
    } else if a[0] != b[0] {
        a[0] < b[0]
    } else {
        comes_before(a.drop_first(), b.drop_first())
    }
}

/// Whether a node gives a queue length itself.
pub open spec fn gives_length(document: JsonView, path: Seq<int>) -> bool {
    match node_at(document, path) {
        Some(node) => own_queue_length(node) is Some,
        None => false,
    }
}

/// The first queue length among the children from position `from` on.
pub open spec fn first_in_children(document: JsonView, from: nat) -> Option<Binary64> {
    match document {
        JsonView::Array(items) => first_in_items(items, from),
        JsonView::Object(fields) => first_in_fields(fields, from),
        _ => None,
    }
}

proof fn lemma_first_in_children(document: JsonView, from: nat)
    ensures
        first_in_children(document, from) == if from >= children(document).len() {
            None
        } else if first_queue_length(children(document)[from as int]) is Some {
            first_queue_length(children(document)[from as int])
        } else {
            first_in_children(document, from + 1)
        },
        first_queue_length(document) == if own_queue_length(document) is Some {
            own_queue_length(document)
        } else {
            first_in_children(document, 0)
        },
{
}

/// The queue length that is found is that of the first node that gives one; where none is
/// found, no node of the document gives one.
pub proof fn law_first_queue_length(document: JsonView)
    ensures
        match first_queue_length(document) {
            Some(length) => exists|path: Seq<int>| #[trigger]
                gives_length(document, path) && own_queue_length(node_at(document, path)->0)
                    == Some(length) && (forall|other: Seq<int>| #[trigger]
                    gives_length(document, other) ==> !comes_before(other, path)),
            None => forall|path: Seq<int>| !#[trigger] gives_length(document, path),
        },
    decreases document, 1nat, 0nat,
{
    lemma_first_in_children(document, 0);
    if own_queue_length(document) is Some {
        let path = Seq::<int>::empty();
        assert(gives_length(document, path));
    } else {
        lemma_length_in_children(document, 0);
    }
}

proof fn lemma_length_in_children(document: JsonView, from: nat)
    requires
        own_queue_length(document) is None,
        from <= children(document).len(),
    ensures
        match first_in_children(document, from) {
            Some(length) => exists|path: Seq<int>| #[trigger]
                gives_length(document, path) && path.len() > 0 && path[0] >= from
                    && own_queue_length(node_at(document, path)->0) == Some(length) && (forall|
                    other: Seq<int>,
                | #[trigger]
                    gives_length(document, other) && other.len() > 0 && other[0] >= from
                        ==> !comes_before(other, path)) && (forall|other: Seq<int>| #[trigger]
                    gives_length(document, other) ==> other.len() > 0),
            None => forall|path: Seq<int>| #[trigger]
                gives_length(document, path) ==> path.len() > 0 && path[0] < from,
        },
    decreases document, 0nat, children(document).len() - from,
{
    let all = children(document);
    lemma_first_in_children(document, from);
    assert forall|other: Seq<int>| #[trigger] gives_length(document, other) implies other.len() > 0
        && 0 <= other[0] < all.len() by {}
    if from < all.len() {
        let child = all[from as int];
        match document {
            JsonView::Array(items) => {
                assert(decreases_to!(document => items));
                assert(decreases_to!(items => items[from as int]));
            },
            JsonView::Object(fields) => {
                assert(decreases_to!(document => fields));
                assert(decreases_to!(fields => fields[from as int]));
                assert(decreases_to!(fields[from as int] => fields[from as int].1));
            },
            _ => {},
        }
        law_first_queue_length(child);
        if first_queue_length(child) is Some {
            let inner = choose|path: Seq<int>| #[trigger]
                gives_length(child, path) && own_queue_length(node_at(child, path)->0)
                    == first_queue_length(child) && (forall|other: Seq<int>| #[trigger]
                    gives_length(child, other) ==> !comes_before(other, path));
            let path = seq![from as int] + inner;
            assert(path.drop_first() =~= inner);
            assert(node_at(document, path) == node_at(child, inner));
            assert(gives_length(document, path));
            assert forall|other: Seq<int>| #[trigger]
                gives_length(document, other) && other[0] >= from implies !comes_before(
                other,
                path,
            ) by {
                if other[0] == from {
                    assert(gives_length(child, other.drop_first()));
                }
            }
        } else {
            lemma_length_in_children(document, from + 1);
            assert forall|other: Seq<int>| #[trigger]
                gives_length(document, other) implies other[0] != from by {
                if other[0] == from {
                    assert(gives_length(child, other.drop_first()));
                }
            }
        }
    }
}

/// Splitting a sequence by a condition loses nothing.
proof fn lemma_filters_partition(all: Seq<JsonView>, wanted: spec_fn(JsonView) -> bool)
    ensures
        all.filter(wanted).len() + all.filter(|x: JsonView| !wanted(x)).len() == all.len(),
    decreases all.len(),
{
    reveal(Seq::filter);
    if all.len() > 0 {
        lemma_filters_partition(all.drop_last(), wanted);
    }
}

/// Every segment is counted either as plain or as not plain.
pub proof fn law_segments_are_plain_or_not(document: JsonView)
    ensures
        all_segments(document).filter(|s: JsonView| is_plain(s)).len() + all_segments(
            document,
        ).filter(|s: JsonView| !is_plain(s)).len() == all_segments(document).len(),
{
    let wanted = |s: JsonView| is_plain(s);
    lemma_filters_partition(all_segments(document), wanted);
    assert((|s: JsonView| !is_plain(s)) =~= (|s: JsonView| !wanted(s)));
}

/// The points of some segments.
pub open spec fn all_points(segments: Seq<JsonView>) -> nat
    decreases segments.len(),
{
    if segments.len() == 0 {
        0
    } else {
        all_points(segments.drop_last()) + num_points(segments.last())
    }
}

/// Every point is counted either as plain or as indexed.
pub proof fn law_points_are_plain_or_indexed(segments: Seq<JsonView>)
    ensures
        points_of(segments, true) + points_of(segments, false) == all_points(segments),
    decreases segments.len(),
{
    if segments.len() > 0 {
        law_points_are_plain_or_indexed(segments.drop_last());
    }
}

/// No optimization is shown as running exactly where no log entry is of one that runs.
pub proof fn law_idle_means_nothing_runs(entries: Seq<JsonView>)
    ensures
        kind_of(runs(entries, true), runs(entries, false)) == OptKind::Idle <==> forall|i: int|
            0 <= i < entries.len() ==> !is_optimizing(#[trigger] entries[i]),
{
    let idle = forall|i: int| 0 <= i < entries.len() ==> !is_optimizing(#[trigger] entries[i]);
    if !idle {
        let i = choose|i: int| 0 <= i < entries.len() && is_optimizing(#[trigger] entries[i]);
        assert(runs(entries, is_merge(entries[i])));
    }
}

/// An optimization that runs is pending.
pub proof fn law_running_is_pending(entry: JsonView)
    requires
        is_optimizing(entry),
    ensures
        is_pending(entry),
{
    reveal_strlit("optimizing");
    reveal_strlit("done");
    assert("optimizing"@.len() != "done"@.len());
}

/// Where a document shows an optimization as running, it counts one as pending; where it shows a
/// merge and some other one, it counts two.
pub proof fn law_running_is_counted(document: JsonView)
    ensures
        ({
            let entries = all_log_entries(document);
            let kind = kind_of(runs(entries, true), runs(entries, false));
            let pending = entries.filter(|e: JsonView| is_pending(e)).len();
            &&& kind != OptKind::Idle ==> pending >= 1
            &&& kind == OptKind::Both ==> pending >= 2
        }),
{
    let entries = all_log_entries(document);
    let pending = |e: JsonView| is_pending(e);
    assert forall|i: int|
        0 <= i < entries.len() && is_optimizing(#[trigger] entries[i]) implies pending(
        entries[i],
    ) by {
        law_running_is_pending(entries[i]);
    }
    if runs(entries, true) {
        let i = choose|i: int|
            0 <= i < entries.len() && is_optimizing(#[trigger] entries[i]) && is_merge(entries[i])
                == true;
        lemma_filter_keeps(entries, pending, i);
        if runs(entries, false) {
            let j = choose|j: int|
                0 <= j < entries.len() && is_optimizing(#[trigger] entries[j]) && is_merge(
                    entries[j],
                ) == false;
            lemma_filter_keeps_both(entries, pending, i, j);
        }
    } else if runs(entries, false) {
        let j = choose|j: int|
            0 <= j < entries.len() && is_optimizing(#[trigger] entries[j]) && is_merge(entries[j])
                == false;
        lemma_filter_keeps(entries, pending, j);
    }
}

proof fn lemma_filter_keeps(all: Seq<JsonView>, wanted: spec_fn(JsonView) -> bool, i: int)
    requires
        0 <= i < all.len(),
        wanted(all[i]),
    ensures
        all.filter(wanted).len() >= 1,
    decreases all.len(),
{
    reveal(Seq::filter);
    if i < all.len() - 1 {
        lemma_filter_keeps(all.drop_last(), wanted, i);
    }
}

proof fn lemma_filter_keeps_both(
    all: Seq<JsonView>,
    wanted: spec_fn(JsonView) -> bool,
    i: int,
    j: int,
)
    requires
        0 <= i < all.len(),
        0 <= j < all.len(),
        i != j,
        wanted(all[i]),
        wanted(all[j]),
    ensures
        all.filter(wanted).len() >= 2,
    decreases all.len(),
{
    reveal(Seq::filter);
    let rest = all.drop_last();
    if i == all.len() - 1 {
        lemma_filter_keeps(rest, wanted, j);
    } else if j == all.len() - 1 {
        lemma_filter_keeps(rest, wanted, i);
    } else {
        lemma_filter_keeps_both(rest, wanted, i, j);
    }
}

} // verus!
