//! How the counts of a document depend on how its parts are arranged: not on their order, and as
//! sums over its collections.
use crate::json::JsonView;
use crate::telemetry::{
    all_collections, all_items_at, all_log_entries, all_segments, all_shards, is_merge,
    is_optimizing, is_pending, is_plain, items_at, kind_of, num_points, points_of, runs,
};
use vstd::prelude::*;
use vstd::seq_lib::{group_to_multiset_ensures, lemma_multiset_commutative};

verus! {

/// Whether two lists hold the same, each as often, in any order.
pub open spec fn same_parts(a: Seq<JsonView>, b: Seq<JsonView>) -> bool {
    a.to_multiset() == b.to_multiset()
}

/// Whether two lists of segments agree in all that is counted of them.
pub open spec fn same_segment_counts(a: Seq<JsonView>, b: Seq<JsonView>) -> bool {
    &&& points_of(a, true) == points_of(b, true)
    &&& points_of(a, false) == points_of(b, false)
    &&& a.len() == b.len()
    &&& a.filter(|s: JsonView| is_plain(s)).len() == b.filter(|s: JsonView| is_plain(s)).len()
    &&& a.filter(|s: JsonView| !is_plain(s)).len() == b.filter(|s: JsonView| !is_plain(s)).len()
}

/// Whether two lists of log entries agree in all that is told of them.
pub open spec fn same_log_counts(a: Seq<JsonView>, b: Seq<JsonView>) -> bool {
    &&& a.filter(|e: JsonView| is_pending(e)).len() == b.filter(|e: JsonView| is_pending(e)).len()
    &&& kind_of(runs(a, true), runs(a, false)) == kind_of(runs(b, true), runs(b, false))
}

/// The sum of a measure over a list.
spec fn total(list: Seq<JsonView>, measure: spec_fn(JsonView) -> nat) -> nat
    decreases list.len(),
{
    if list.len() == 0 {
        0
    } else {
        total(list.drop_last(), measure) + measure(list.last())
    }
}

proof fn lemma_total_of_joined(
    a: Seq<JsonView>,
    b: Seq<JsonView>,
    measure: spec_fn(JsonView) -> nat,
)
    ensures
        total(a + b, measure) == total(a, measure) + total(b, measure),
    decreases b.len(),
{
    if b.len() == 0 {
        assert(a + b =~= a);
    } else {
        lemma_total_of_joined(a, b.drop_last(), measure);
        assert((a + b).drop_last() =~= a + b.drop_last());
    }
}

proof fn lemma_total_without(list: Seq<JsonView>, i: int, measure: spec_fn(JsonView) -> nat)
    requires
        0 <= i < list.len(),
    ensures
        total(list, measure) == total(list.remove(i), measure) + measure(list[i]),
{
    let (before, after) = (list.take(i), list.skip(i + 1));
    assert(list =~= before.push(list[i]) + after);
    assert(list.remove(i) =~= before + after);
    assert(before.push(list[i]).drop_last() =~= before);
    lemma_total_of_joined(before.push(list[i]), after, measure);
    lemma_total_of_joined(before, after, measure);
}

proof fn lemma_total_of_reordered(
    a: Seq<JsonView>,
    b: Seq<JsonView>,
    measure: spec_fn(JsonView) -> nat,
)
    requires
        same_parts(a, b),
    ensures
        total(a, measure) == total(b, measure),
    decreases a.len(),
{
    broadcast use group_to_multiset_ensures;

    assert(a.len() == a.to_multiset().len() && b.len() == b.to_multiset().len());
    if a.len() > 0 {
        let last = a.len() - 1;
        assert(a.to_multiset().count(a[last]) > 0);
        assert(b.contains(a[last]));
        let i = choose|i: int| 0 <= i < b.len() && b[i] == a[last];
        assert(a.remove(last).to_multiset() == b.remove(i).to_multiset());
        lemma_total_without(a, last, measure);
        lemma_total_without(b, i, measure);
        lemma_total_of_reordered(a.remove(last), b.remove(i), measure);
    }
}

/// What a segment adds to the points of those that are plain, or of those that are not.
spec fn points_measure(plain: bool) -> spec_fn(JsonView) -> nat {
    |s: JsonView|
        if is_plain(s) == plain {
            num_points(s)
        } else {
            0
        }
}

/// What a part adds to the number of those that meet a condition.
spec fn count_measure(wanted: spec_fn(JsonView) -> bool) -> spec_fn(JsonView) -> nat {
    |part: JsonView|
        if wanted(part) {
            1
        } else {
            0
        }
}

/// How often a part is among those that a path leads to.
spec fn item_measure(path: Seq<Seq<char>>, item: JsonView) -> spec_fn(JsonView) -> nat {
    |holder: JsonView| items_at(holder, path).to_multiset().count(item)
}

proof fn lemma_points_are_a_total(segments: Seq<JsonView>, plain: bool)
    ensures
        points_of(segments, plain) == total(segments, points_measure(plain)),
    decreases segments.len(),
{
    if segments.len() > 0 {
        lemma_points_are_a_total(segments.drop_last(), plain);
    }
}

proof fn lemma_count_is_a_total(list: Seq<JsonView>, wanted: spec_fn(JsonView) -> bool)
    ensures
        list.filter(wanted).len() == total(list, count_measure(wanted)),
    decreases list.len(),
{
    reveal(Seq::filter);
    if list.len() > 0 {
        lemma_count_is_a_total(list.drop_last(), wanted);
    }
}

proof fn lemma_item_count_is_a_total(holders: Seq<JsonView>, path: Seq<Seq<char>>, item: JsonView)
    ensures
        all_items_at(holders, path).to_multiset().count(item) == total(
            holders,
            item_measure(path, item),
        ),
    decreases holders.len(),
{
    broadcast use group_to_multiset_ensures;

    if holders.len() == 0 {
        assert(!all_items_at(holders, path).contains(item));
    } else {
        lemma_item_count_is_a_total(holders.drop_last(), path, item);
        lemma_multiset_commutative(
            all_items_at(holders.drop_last(), path),
            items_at(holders.last(), path),
        );
    }
}

/// Lists that hold the same lead to the same, in any order.
proof fn lemma_items_of_reordered(a: Seq<JsonView>, b: Seq<JsonView>, path: Seq<Seq<char>>)
    requires
        same_parts(a, b),
    ensures
        same_parts(all_items_at(a, path), all_items_at(b, path)),
{
    assert forall|item: JsonView| #[trigger]
        all_items_at(a, path).to_multiset().count(item) == all_items_at(
            b,
            path,
        ).to_multiset().count(item) by {
        lemma_item_count_is_a_total(a, path, item);
        lemma_item_count_is_a_total(b, path, item);
        lemma_total_of_reordered(a, b, item_measure(path, item));
    }
    assert(all_items_at(a, path).to_multiset() =~= all_items_at(b, path).to_multiset());
}

/// The order of what each part of a list holds does not decide what all parts hold together.
pub proof fn law_order_within_parts(a: Seq<JsonView>, b: Seq<JsonView>, path: Seq<Seq<char>>)
    requires
        a.len() == b.len(),
        forall|i: int|
            0 <= i < a.len() ==> same_parts(
                items_at(#[trigger] a[i], path),
                items_at(b[i], path),
            ),
    ensures
        same_parts(all_items_at(a, path), all_items_at(b, path)),
    decreases a.len(),
{
    if a.len() > 0 {
        let last = a.len() - 1;
        let (before_a, before_b) = (a.drop_last(), b.drop_last());
        assert forall|i: int| 0 <= i < before_a.len() implies same_parts(
            items_at(#[trigger] before_a[i], path),
            items_at(before_b[i], path),
        ) by {
            assert(before_a[i] == a[i] && before_b[i] == b[i]);
        }
        law_order_within_parts(before_a, before_b, path);
        assert(same_parts(items_at(a[last], path), items_at(b[last], path)));
        lemma_multiset_commutative(
            all_items_at(before_a, path),
            items_at(a[last], path),
        );
        lemma_multiset_commutative(
            all_items_at(before_b, path),
            items_at(b[last], path),
        );
    }
}

/// The order of segments does not decide what is counted of them.
pub proof fn law_order_of_segments(a: Seq<JsonView>, b: Seq<JsonView>)
    requires
        same_parts(a, b),
    ensures
        same_segment_counts(a, b),
{
    broadcast use group_to_multiset_ensures;

    assert(a.len() == a.to_multiset().len() && b.len() == b.to_multiset().len());
    let (plain, other) = (|s: JsonView| is_plain(s), |s: JsonView| !is_plain(s));
    lemma_points_are_a_total(a, true);
    lemma_points_are_a_total(b, true);
    lemma_points_are_a_total(a, false);
    lemma_points_are_a_total(b, false);
    lemma_count_is_a_total(a, plain);
    lemma_count_is_a_total(b, plain);
    lemma_count_is_a_total(a, other);
    lemma_count_is_a_total(b, other);
    lemma_total_of_reordered(a, b, points_measure(true));
    lemma_total_of_reordered(a, b, points_measure(false));
    lemma_total_of_reordered(a, b, count_measure(plain));
    lemma_total_of_reordered(a, b, count_measure(other));
}

proof fn lemma_runs_in_reordered(a: Seq<JsonView>, b: Seq<JsonView>, merge: bool)
    requires
        same_parts(a, b),
        runs(a, merge),
    ensures
        runs(b, merge),
{
    broadcast use group_to_multiset_ensures;

    let i = choose|i: int|
        0 <= i < a.len() && is_optimizing(#[trigger] a[i]) && is_merge(a[i]) == merge;
    assert(a.to_multiset().count(a[i]) > 0);
    assert(b.contains(a[i]));
}

/// The order of log entries does not decide what is told of them.
pub proof fn law_order_of_log_entries(a: Seq<JsonView>, b: Seq<JsonView>)
    requires
        same_parts(a, b),
    ensures
        same_log_counts(a, b),
{
    let pending = |e: JsonView| is_pending(e);
    lemma_count_is_a_total(a, pending);
    lemma_count_is_a_total(b, pending);
    lemma_total_of_reordered(a, b, count_measure(pending));
    assert forall|merge: bool| #[trigger] runs(a, merge) == runs(b, merge) by {
        if runs(a, merge) {
            lemma_runs_in_reordered(a, b, merge);
        } else if runs(b, merge) {
            lemma_runs_in_reordered(b, a, merge);
        }
    }
}

/// The order of shards, in one collection or over all, does not decide what is counted.
pub proof fn law_order_of_shards(a: JsonView, b: JsonView)
    requires
        same_parts(all_shards(a), all_shards(b)),
    ensures
        same_parts(all_segments(a), all_segments(b)),
        same_segment_counts(all_segments(a), all_segments(b)),
        same_log_counts(all_log_entries(a), all_log_entries(b)),
{
    lemma_items_of_reordered(all_shards(a), all_shards(b), seq!["local"@, "segments"@]);
    lemma_items_of_reordered(
        all_shards(a),
        all_shards(b),
        seq!["local"@, "optimizations"@, "log"@],
    );
    law_order_of_segments(all_segments(a), all_segments(b));
    law_order_of_log_entries(all_log_entries(a), all_log_entries(b));
}

/// The order of collections does not decide what is counted.
pub proof fn law_order_of_collections(a: JsonView, b: JsonView)
    requires
        same_parts(all_collections(a), all_collections(b)),
    ensures
        same_parts(all_shards(a), all_shards(b)),
        same_segment_counts(all_segments(a), all_segments(b)),
        same_log_counts(all_log_entries(a), all_log_entries(b)),
{
    lemma_items_of_reordered(all_collections(a), all_collections(b), seq!["shards"@]);
    law_order_of_shards(a, b);
}

pub(crate) proof fn lemma_items_of_joined(a: Seq<JsonView>, b: Seq<JsonView>, path: Seq<Seq<char>>)
    ensures
        all_items_at(a + b, path) == all_items_at(a, path) + all_items_at(b, path),
    decreases b.len(),
{
    if b.len() == 0 {
        assert(a + b =~= a);
        assert(all_items_at(a + b, path) =~= all_items_at(a, path) + all_items_at(b, path));
    } else {
        lemma_items_of_joined(a, b.drop_last(), path);
        assert((a + b).drop_last() =~= a + b.drop_last());
        assert(all_items_at(a + b, path) =~= all_items_at(a, path) + all_items_at(b, path));
    }
}

proof fn lemma_runs_in_joined(a: Seq<JsonView>, b: Seq<JsonView>, merge: bool)
    ensures
        runs(a + b, merge) == (runs(a, merge) || runs(b, merge)),
{
    if runs(a, merge) {
        let i = choose|i: int|
            0 <= i < a.len() && is_optimizing(#[trigger] a[i]) && is_merge(a[i]) == merge;
        assert((a + b)[i] == a[i]);
    } else if runs(b, merge) {
        let i = choose|i: int|
            0 <= i < b.len() && is_optimizing(#[trigger] b[i]) && is_merge(b[i]) == merge;
        assert((a + b)[a.len() + i] == b[i]);
    } else if runs(a + b, merge) {
        let i = choose|i: int|
            0 <= i < (a + b).len() && is_optimizing(#[trigger] (a + b)[i]) && is_merge((a + b)[i])
                == merge;
        if i < a.len() {
            assert(a[i] == (a + b)[i]);
        } else {
            assert(b[i - a.len()] == (a + b)[i]);
        }
    }
}

/// Where the collections of a document are those of two others, one after the other, its segments
/// and log entries are too; the points, the segments and the pending optimizations of the two add
/// up, and an optimization runs where it runs in one of the two.
pub proof fn law_counts_of_joined_collections(joined: JsonView, a: JsonView, b: JsonView)
    requires
        all_collections(joined) == all_collections(a) + all_collections(b),
    ensures
        all_segments(joined) == all_segments(a) + all_segments(b),
        all_log_entries(joined) == all_log_entries(a) + all_log_entries(b),
        forall|plain: bool| #[trigger]
            points_of(all_segments(joined), plain) == points_of(all_segments(a), plain)
                + points_of(all_segments(b), plain),
        all_segments(joined).filter(|s: JsonView| is_plain(s)).len() == all_segments(a).filter(
            |s: JsonView| is_plain(s),
        ).len() + all_segments(b).filter(|s: JsonView| is_plain(s)).len(),
        all_segments(joined).filter(|s: JsonView| !is_plain(s)).len() == all_segments(a).filter(
            |s: JsonView| !is_plain(s),
        ).len() + all_segments(b).filter(|s: JsonView| !is_plain(s)).len(),
        all_log_entries(joined).filter(|e: JsonView| is_pending(e)).len() == all_log_entries(
            a,
        ).filter(|e: JsonView| is_pending(e)).len() + all_log_entries(b).filter(
            |e: JsonView| is_pending(e),
        ).len(),
        forall|merge: bool| #[trigger]
            runs(all_log_entries(joined), merge) == (runs(all_log_entries(a), merge) || runs(
                all_log_entries(b),
                merge,
            )),
{
    lemma_items_of_joined(all_collections(a), all_collections(b), seq!["shards"@]);
    lemma_items_of_joined(all_shards(a), all_shards(b), seq!["local"@, "segments"@]);
    lemma_items_of_joined(
        all_shards(a),
        all_shards(b),
        seq!["local"@, "optimizations"@, "log"@],
    );
    let (sa, sb) = (all_segments(a), all_segments(b));
    assert forall|plain: bool| #[trigger]
        points_of(all_segments(joined), plain) == points_of(sa, plain) + points_of(sb, plain) by {
        lemma_points_are_a_total(sa, plain);
        lemma_points_are_a_total(sb, plain);
        lemma_points_are_a_total(sa + sb, plain);
        lemma_total_of_joined(sa, sb, points_measure(plain));
    }
    lemma_count_of_joined(sa, sb, |s: JsonView| is_plain(s));
    lemma_count_of_joined(sa, sb, |s: JsonView| !is_plain(s));
    let (la, lb) = (all_log_entries(a), all_log_entries(b));
    lemma_count_of_joined(la, lb, |e: JsonView| is_pending(e));
    assert forall|merge: bool| #[trigger]
        runs(all_log_entries(joined), merge) == (runs(la, merge) || runs(lb, merge)) by {
        lemma_runs_in_joined(la, lb, merge);
    }
}

pub(crate) proof fn lemma_count_of_joined(
    a: Seq<JsonView>,
    b: Seq<JsonView>,
    wanted: spec_fn(JsonView) -> bool,
)
    ensures
        (a + b).filter(wanted).len() == a.filter(wanted).len() + b.filter(wanted).len(),
{
    lemma_count_is_a_total(a, wanted);
    lemma_count_is_a_total(b, wanted);
    lemma_count_is_a_total(a + b, wanted);
    lemma_total_of_joined(a, b, count_measure(wanted));
}

} // verus!
