//! What a document holds, as a relation between its nodes: an object holds a value under a key
//! where the pair of both is one of its fields.
use crate::binary64::Binary64;
use crate::json::{JsonView, Number};
use crate::laws::{law_each_field_is_found, law_found_is_a_field};
use crate::readings::{all_well_formed, lemma_field_is_well_formed};
use crate::telemetry::{all_items_at, items_at};
use vstd::prelude::*;

verus! {

/// Whether a node is an object with a given field.
pub open spec fn holds(node: JsonView, key: Seq<char>, value: JsonView) -> bool {
    match node {
        JsonView::Object(fields) => fields.contains((key, value)),
        _ => false,
    }
}

/// Whether one comes from a node to another by following fields with given keys.
pub open spec fn leads(node: JsonView, path: Seq<Seq<char>>, end: JsonView) -> bool
    decreases path.len(),
{
    if path.len() == 0 {
        node == end
    } else {
        exists|inner: JsonView| #[trigger]
            holds(node, path[0], inner) && leads(inner, path.drop_first(), end)
    }
}

/// Whether a path leads to a number that is read as a given value.
pub open spec fn gives(node: JsonView, path: Seq<Seq<char>>, value: Binary64) -> bool {
    exists|number: Number| #[trigger]
        leads(node, path, JsonView::Number(number)) && number.binary64 == Some(value)
}

/// Whether a path leads to a number that is read as a given count.
pub open spec fn counts(node: JsonView, path: Seq<Seq<char>>, count: u64) -> bool {
    exists|number: Number| #[trigger]
        leads(node, path, JsonView::Number(number)) && number.unsigned == Some(count)
}

/// Whether a path leads to an array of the given items, or to no array where there are none.
pub open spec fn lists(node: JsonView, path: Seq<Seq<char>>, items: Seq<JsonView>) -> bool {
    ||| leads(node, path, JsonView::Array(items))
    ||| items.len() == 0 && forall|other: Seq<JsonView>| !#[trigger]
        leads(node, path, JsonView::Array(other))
}

/// Whether a list is made of what a path leads to from each of the holders, one after the other.
pub open spec fn gathers(
    holders: Seq<JsonView>,
    path: Seq<Seq<char>>,
    list: Seq<JsonView>,
) -> bool {
    exists|parts: Seq<Seq<JsonView>>|
        parts.len() == holders.len() && #[trigger] parts.flatten() == list && forall|i: int|
            0 <= i < holders.len() ==> lists(holders[i], path, #[trigger] parts[i])
}

/// A well-formed object holds a value exactly where that is what is found under the key.
pub proof fn law_held_is_found(node: JsonView, key: Seq<char>, value: JsonView)
    requires
        node.well_formed(),
    ensures
        holds(node, key, value) <==> node.field(key) == Some(value),
{
    if let JsonView::Object(fields) = node {
        law_found_is_a_field(fields, key);
        if fields.contains((key, value)) {
            let i = choose|i: int| 0 <= i < fields.len() && fields[i] == (key, value);
            law_each_field_is_found(fields, i);
        }
    }
}

/// In a well-formed document a path leads to a node exactly where following its keys finds it.
pub proof fn law_path_is_followed(node: JsonView, path: Seq<Seq<char>>, end: JsonView)
    requires
        node.well_formed(),
    ensures
        leads(node, path, end) <==> node.at(path) == Some(end),
    decreases path.len(),
{
    if path.len() > 0 {
        let rest = path.drop_first();
        lemma_field_is_well_formed(node, path[0]);
        if leads(node, path, end) {
            let inner = choose|inner: JsonView| #[trigger]
                holds(node, path[0], inner) && leads(inner, rest, end);
            law_held_is_found(node, path[0], inner);
            law_path_is_followed(inner, rest, end);
        }
        if node.at(path) == Some(end) {
            let inner = node.field(path[0])->0;
            law_held_is_found(node, path[0], inner);
            law_path_is_followed(inner, rest, end);
            assert(holds(node, path[0], inner));
        }
    }
}

pub(crate) proof fn lemma_gives(node: JsonView, path: Seq<Seq<char>>, value: Binary64)
    requires
        node.well_formed(),
    ensures
        gives(node, path, value) <==> (node.at(path) is Some && node.at(path)->0.binary64() == Some(
            value,
        )),
{
    if gives(node, path, value) {
        let number = choose|number: Number| #[trigger]
            leads(node, path, JsonView::Number(number)) && number.binary64 == Some(value);
        law_path_is_followed(node, path, JsonView::Number(number));
    }
    if let Some(JsonView::Number(number)) = node.at(path) {
        law_path_is_followed(node, path, JsonView::Number(number));
    }
}

pub(crate) proof fn lemma_counts(node: JsonView, path: Seq<Seq<char>>, count: u64)
    requires
        node.well_formed(),
    ensures
        counts(node, path, count) <==> (node.at(path) is Some && node.at(path)->0.unsigned()
            == Some(count)),
{
    if counts(node, path, count) {
        let number = choose|number: Number| #[trigger]
            leads(node, path, JsonView::Number(number)) && number.unsigned == Some(count);
        law_path_is_followed(node, path, JsonView::Number(number));
    }
    if let Some(JsonView::Number(number)) = node.at(path) {
        law_path_is_followed(node, path, JsonView::Number(number));
    }
}

pub(crate) proof fn lemma_lists(node: JsonView, path: Seq<Seq<char>>, items: Seq<JsonView>)
    requires
        node.well_formed(),
    ensures
        lists(node, path, items) <==> items == items_at(node, path),
{
    let found = items_at(node, path);
    law_path_is_followed(node, path, JsonView::Array(items));
    law_path_is_followed(node, path, JsonView::Array(found));
    assert forall|other: Seq<JsonView>| #[trigger]
        leads(node, path, JsonView::Array(other)) implies node.at(path) == Some(
        JsonView::Array(other),
    ) by {
        law_path_is_followed(node, path, JsonView::Array(other));
    }
    if items.len() == 0 {
        assert(items =~= Seq::empty());
    }
    if found.len() == 0 {
        assert(found =~= Seq::empty());
    }
}

proof fn lemma_items_are_flattened(holders: Seq<JsonView>, path: Seq<Seq<char>>)
    ensures
        Seq::new(holders.len(), |i: int| items_at(holders[i], path)).flatten() == all_items_at(
            holders,
            path,
        ),
    decreases holders.len(),
{
    let parts = Seq::new(holders.len(), |i: int| items_at(holders[i], path));
    parts.lemma_flatten_and_flatten_alt_are_equivalent();
    if holders.len() > 0 {
        let before = holders.drop_last();
        let fewer = Seq::new(before.len(), |i: int| items_at(before[i], path));
        lemma_items_are_flattened(before, path);
        fewer.lemma_flatten_and_flatten_alt_are_equivalent();
        assert(parts.drop_last() =~= fewer);
    }
}

pub(crate) proof fn lemma_gathered(holders: Seq<JsonView>, path: Seq<Seq<char>>)
    requires
        all_well_formed(holders),
    ensures
        gathers(holders, path, all_items_at(holders, path)),
{
    let parts = Seq::new(holders.len(), |i: int| items_at(holders[i], path));
    lemma_items_are_flattened(holders, path);
    assert forall|i: int| 0 <= i < holders.len() implies lists(
        holders[i],
        path,
        #[trigger] parts[i],
    ) by {
        lemma_lists(holders[i], path, parts[i]);
    }
}

} // verus!
