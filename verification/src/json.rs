//! JSON documents, and how a `serde_json::Value` is read into one.
use crate::binary64::Binary64;
use crate::text::same_text;
use serde_json::Value;
use vstd::prelude::*;

verus! {

/// A JSON number, as the integers it can be read as and as the binary64 value it is read as.
#[derive(Clone, Copy, Debug, PartialEq, Eq, Structural)]
pub struct Number {
    pub unsigned: Option<u64>,
    pub signed: Option<i64>,
    pub binary64: Option<Binary64>,
}

impl Number {
    /// Whether the binary64 value that the number is read as is finite.
    pub open spec fn is_finite(self) -> bool {
        match self.binary64 {
            Some(value) => value.is_finite(),
            None => true,
        }
    }
}

/// A JSON document. The fields of an object stand in the order in which they are walked.
#[derive(Debug)]
pub enum Json {
    Null,
    Bool(bool),
    Number(Number),
    Text(String),
    Array(Vec<Json>),
    Object(Vec<(String, Json)>),
}

/// The mathematical counterpart of [`Json`].
pub enum JsonView {
    Null,
    Bool(bool),
    Number(Number),
    Text(Seq<char>),
    Array(Seq<JsonView>),
    Object(Seq<(Seq<char>, JsonView)>),
}

impl Json {
    /// The document, without regard to how it is stored.
    pub open spec fn view(&self) -> JsonView
        decreases self,
    {
        match self {
            Json::Null => JsonView::Null,
            Json::Bool(b) => JsonView::Bool(*b),
            Json::Number(n) => JsonView::Number(*n),
            Json::Text(s) => JsonView::Text(s@),
            Json::Array(items) => JsonView::Array(
                Seq::new(
                    items@.len(),
                    |i: int|
                        if 0 <= i < items@.len() {
                            items@[i].view()
                        } else {
                            JsonView::Null
                        },
                ),
            ),
            Json::Object(fields) => JsonView::Object(
                Seq::new(
                    fields@.len(),
                    |i: int|
                        if 0 <= i < fields@.len() {
                            (fields@[i].0@, fields@[i].1.view())
                        } else {
                            (Seq::empty(), JsonView::Null)
                        },
                ),
            ),
        }
    }
}

/// The value of the first field with the given key.
pub open spec fn first_field(fields: Seq<(Seq<char>, JsonView)>, key: Seq<char>) -> Option<JsonView>
    decreases fields.len(),
{
    if fields.len() == 0 {
        None
    } else if fields[0].0 == key {
        Some(fields[0].1)
    } else {
        first_field(fields.drop_first(), key)
    }
}

impl JsonView {
    /// The fields of an object.
    pub open spec fn fields(self) -> Option<Seq<(Seq<char>, JsonView)>> {
        match self {
            JsonView::Object(fields) => Some(fields),
            _ => None,
        }
    }

    /// The items of an array.
    pub open spec fn items(self) -> Option<Seq<JsonView>> {
        match self {
            JsonView::Array(items) => Some(items),
            _ => None,
        }
    }

    /// The characters of a string.
    pub open spec fn text(self) -> Option<Seq<char>> {
        match self {
            JsonView::Text(text) => Some(text),
            _ => None,
        }
    }

    /// The number, where it is an integer between zero and `u64::MAX`.
    pub open spec fn unsigned(self) -> Option<u64> {
        match self {
            JsonView::Number(number) => number.unsigned,
            _ => None,
        }
    }

    /// The number as a binary64 value.
    pub open spec fn binary64(self) -> Option<Binary64> {
        match self {
            JsonView::Number(number) => number.binary64,
            _ => None,
        }
    }

    /// What an object holds under a key.
    pub open spec fn field(self, key: Seq<char>) -> Option<JsonView> {
        match self {
            JsonView::Object(fields) => first_field(fields, key),
            _ => None,
        }
    }

    /// What is reached by following keys from object to object.
    pub open spec fn at(self, path: Seq<Seq<char>>) -> Option<JsonView>
        decreases path.len(),
    {
        if path.len() == 0 {
            Some(self)
        } else {
            match self.field(path[0]) {
                Some(inner) => inner.at(path.drop_first()),
                None => None,
            }
        }
    }
}

/// The order of texts by their first different character.
pub open spec fn text_before(a: Seq<char>, b: Seq<char>) -> bool
    decreases a.len(),
{
    if b.len() == 0 {
        false
    } else if a.len() == 0 {
        true
    } else if a[0] != b[0] {
        (a[0] as int) < (b[0] as int)
    } else {
        text_before(a.drop_first(), b.drop_first())
    }
}

/// Whether each key comes before those that follow it.
pub open spec fn keys_ascend(keys: Seq<Seq<char>>) -> bool {
    forall|i: int, j: int|
        0 <= i < j < keys.len() ==> text_before(#[trigger] keys[i], #[trigger] keys[j])
}

/// The keys of some fields.
pub open spec fn keys_of<T>(fields: Seq<(Seq<char>, T)>) -> Seq<Seq<char>> {
    fields.map_values(|field: (Seq<char>, T)| field.0)
}

impl JsonView {
    /// Whether the numbers in a document are finite, and the keys of every object in it ascend,
    /// so that none occurs twice.
    pub open spec fn well_formed(self) -> bool
        decreases self,
    {
        match self {
            JsonView::Number(number) => number.is_finite(),
            JsonView::Array(items) => forall|i: int|
                0 <= i < items.len() ==> (#[trigger] items[i]).well_formed(),
            JsonView::Object(fields) => {
                &&& keys_ascend(keys_of(fields))
                &&& forall|i: int|
                    0 <= i < fields.len() ==> {
                        proof {
                            assert(decreases_to!(fields => fields[i]));
                        }
                        (#[trigger] fields[i]).1.well_formed()
                    }
            },
            _ => true,
        }
    }
}

/// What an optional reference to a document shows.
pub open spec fn shown(found: Option<&Json>) -> Option<JsonView> {
    match found {
        Some(document) => Some(document@),
        None => None,
    }
}

/// The documents that a sequence of references shows.
pub open spec fn views(documents: Seq<&Json>) -> Seq<JsonView> {
    documents.map_values(|document: &Json| document@)
}

/// The texts that a sequence of string slices shows.
pub open spec fn texts(slices: Seq<&str>) -> Seq<Seq<char>> {
    slices.map_values(|slice: &str| slice@)
}

impl Json {
    /// The items of an array.
    pub fn as_array(&self) -> (items: Option<&Vec<Json>>)
        ensures
            match items {
                Some(items) => self@.items() == Some(
                    items@.map_values(|item: Json| item@),
                ),
                None => self@.items() is None,
            },
    {
        match self {
            Json::Array(items) => {
                assert(self@.items()->0 =~= items@.map_values(|item: Json| item@));
                Some(items)
            },
            _ => None,
        }
    }

    /// The characters of a string.
    pub fn as_str(&self) -> (text: Option<&str>)
        ensures
            match text {
                Some(text) => self@.text() == Some(text@),
                None => self@.text() is None,
            },
    {
        match self {
            Json::Text(text) => Some(text.as_str()),
            _ => None,
        }
    }

    /// The number, where it is an integer between zero and `u64::MAX`.
    pub fn as_u64(&self) -> (number: Option<u64>)
        ensures
            number == self@.unsigned(),
    {
        match self {
            Json::Number(number) => number.unsigned,
            _ => None,
        }
    }

    /// The number as a binary64 value.
    pub fn as_binary64(&self) -> (number: Option<Binary64>)
        ensures
            number == self@.binary64(),
    {
        match self {
            Json::Number(number) => number.binary64,
            _ => None,
        }
    }

    /// What an object holds under a key.
    pub fn get(&self, key: &str) -> (found: Option<&Json>)
        ensures
            shown(found) == self@.field(key@),
    {
        match self {
            Json::Object(fields) => {
                let ghost all = self@->Object_0;
                let mut i: usize = 0;
                assert(all.skip(0) =~= all);
                while i < fields.len()
                    invariant
                        i <= fields@.len(),
                        all.len() == fields@.len(),
                        self@ == JsonView::Object(all),
                        forall|k: int|
                            0 <= k < fields@.len() ==> #[trigger] all[k] == (
                                fields@[k].0@,
                                fields@[k].1@,
                            ),
                        self@.field(key@) == first_field(all.skip(i as int), key@),
                    decreases fields@.len() - i,
                {
                    assert(all.skip(i as int)[0] == all[i as int]);
                    assert(all.skip(i as int).drop_first() =~= all.skip(i + 1));
                    if same_text(fields[i].0.as_str(), key) {
                        return Some(&fields[i].1);
                    }
                    i += 1;
                }
                None
            },
            _ => None,
        }
    }

    /// What is reached by following keys from object to object.
    pub fn lookup(&self, path: &[&str]) -> (found: Option<&Json>)
        ensures
            shown(found) == self@.at(texts(path@)),
    {
        let ghost keys = texts(path@);
        let mut here = self;
        let mut i: usize = 0;
        assert(keys.skip(0) =~= keys);
        while i < path.len()
            invariant
                i <= path@.len(),
                keys == texts(path@),
                here@.at(keys.skip(i as int)) == self@.at(keys),
            decreases path@.len() - i,
        {
            assert(keys.skip(i as int)[0] == path@[i as int]@);
            assert(keys.skip(i as int).drop_first() =~= keys.skip(i + 1));
            match here.get(path[i]) {
                Some(inner) => {
                    here = inner;
                },
                None => {
                    return None;
                },
            }
            i += 1;
        }
        Some(here)
    }
}

/// The value type of serde_json, which is carried along and taken apart by [`layer`].
#[verifier::external_type_specification]
#[verifier::external_body]
pub struct ExValue(serde_json::Value);

/// The document that a `serde_json::Value` holds: arrays item by item, objects field by field in
/// the order of their keys, numbers as `as_u64`, `as_i64` and `as_f64` read them.
pub uninterp spec fn json(value: serde_json::Value) -> JsonView;

/// The outermost layer of a `serde_json::Value`.
pub(crate) enum Layer<'a> {
    Null,
    Bool(bool),
    Number(Number),
    Text(&'a String),
    Array(&'a Vec<Value>),
    Object(Vec<(&'a String, &'a Value)>),
}

impl<'a> Layer<'a> {
    /// Whether a document has this outermost layer.
    pub(crate) open spec fn is_layer_of(self, document: JsonView) -> bool {
        match self {
            Layer::Null => document == JsonView::Null,
            Layer::Bool(b) => document == JsonView::Bool(b),
            Layer::Number(n) => document == JsonView::Number(n) && n.is_finite(),
            Layer::Text(s) => document == JsonView::Text(s@),
            Layer::Array(items) => document == JsonView::Array(
                Seq::new(items@.len(), |i: int| json(items@[i])),
            ),
            Layer::Object(fields) => {
                &&& document == JsonView::Object(
                    Seq::new(fields@.len(), |i: int| (fields@[i].0@, json(*fields@[i].1))),
                )
                &&& keys_ascend(Seq::new(fields@.len(), |i: int| fields@[i].0@))
            },
        }
    }
}

/// Tells the variants of `serde_json::Value` apart and hands out their fields: a number as its
/// methods `as_u64`, `as_i64` and `as_f64` read it, which gives no infinity and nothing that is no
/// number, an object as `serde_json::Map::iter` walks it.
/// What comes out is the outermost layer of the document that the value holds. Without the
/// feature `preserve_order` the map is a `BTreeMap`, so the keys of an object come out in ascending
/// order; the order of `String` by bytes is that of the characters.
#[verifier::external_body]
fn layer<'a>(value: &'a Value) -> (layer: Layer<'a>)
    ensures
        layer.is_layer_of(json(*value)),
{
    match value {
        Value::Null => Layer::Null,
        Value::Bool(b) => Layer::Bool(*b),
        Value::Number(n) => Layer::Number(
            Number {
                unsigned: n.as_u64(),
                signed: n.as_i64(),
                binary64: n.as_f64().map(|x| Binary64 { bits: x.to_bits() }),
            },
        ),
        Value::String(s) => Layer::Text(s),
        Value::Array(items) => Layer::Array(items),
        Value::Object(fields) => Layer::Object(fields.iter().collect()),
    }
}

impl Json {
    /// The document that a `serde_json::Value` holds.
    pub fn read(value: &Value) -> (document: Json)
        ensures
            document@ == json(*value),
            document@.well_formed(),
        decreases json(*value),
    {
        match layer(value) {
            Layer::Null => Json::Null,
            Layer::Bool(b) => Json::Bool(b),
            Layer::Number(n) => Json::Number(n),
            Layer::Text(s) => Json::Text(s.clone()),
            Layer::Array(items) => {
                let mut read: Vec<Json> = Vec::new();
                let mut i: usize = 0;
                while i < items.len()
                    invariant
                        i <= items@.len(),
                        read@.len() == i,
                        json(*value) == JsonView::Array(
                            Seq::new(items@.len(), |k: int| json(items@[k])),
                        ),
                        forall|k: int|
                            0 <= k < i ==> (#[trigger] read@[k])@ == json(items@[k])
                                && read@[k]@.well_formed(),
                    decreases items@.len() - i,
                {
                    proof {
                        let all = json(*value)->Array_0;
                        assert(all[i as int] == json(items@[i as int]));
                    }
                    read.push(Json::read(&items[i]));
                    i += 1;
                }
                let document = Json::Array(read);
                assert(document@->Array_0 =~= json(*value)->Array_0);
                assert forall|k: int| 0 <= k < read@.len() implies (
                #[trigger] document@->Array_0[k]).well_formed() by {
                    assert(read@[k]@.well_formed());
                }
                document
            },
            Layer::Object(fields) => {
                let mut read: Vec<(String, Json)> = Vec::new();
                let mut i: usize = 0;
                while i < fields.len()
                    invariant
                        i <= fields@.len(),
                        read@.len() == i,
                        json(*value) == JsonView::Object(
                            Seq::new(fields@.len(), |k: int| (fields@[k].0@, json(*fields@[k].1))),
                        ),
                        forall|k: int|
                            0 <= k < i ==> (#[trigger] read@[k]).0@ == fields@[k].0@
                                && read@[k].1@ == json(*fields@[k].1)
                                && read@[k].1@.well_formed(),
                    decreases fields@.len() - i,
                {
                    proof {
                        let all = json(*value)->Object_0;
                        assert(all[i as int] == (fields@[i as int].0@, json(*fields@[i as int].1)));
                        assert(decreases_to!(json(*value) => all));
                        assert(decreases_to!(all => all[i as int]));
                        assert(decreases_to!(all[i as int] => all[i as int].1));
                    }
                    read.push((fields[i].0.clone(), Json::read(fields[i].1)));
                    i += 1;
                }
                let document = Json::Object(read);
                assert(document@->Object_0 =~= json(*value)->Object_0);
                assert forall|k: int| 0 <= k < read@.len() implies (
                #[trigger] document@->Object_0[k]).1.well_formed() by {
                    assert(read@[k].1@.well_formed());
                }
                assert(keys_of(document@->Object_0) =~= Seq::new(
                    fields@.len(),
                    |k: int| fields@[k].0@,
                ));
                document
            },
        }
    }
}

} // verus!
