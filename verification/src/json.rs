//! JSON documents as plain values.

use vstd::prelude::*;

verus! {

/// A JSON value.
#[derive(Debug)]
pub enum Json {
    /// The null value.
    Null,
    /// A boolean.
    Bool(bool),
    /// A number.
    Number(u64),
    /// A string.
    Str(String),
    /// An array.
    Array(Vec<Json>),
    /// An object, as its keys and values; of two fields with one key the later
    /// one counts.
    Object(Vec<(String, Json)>),
}

/// What a `Json` stands for.
#[verifier::ext_equal]
pub enum JsonView {
    Null,
    Bool(bool),
    Number(u64),
    Str(Seq<char>),
    Array(Seq<JsonView>),
    Object(Map<Seq<char>, JsonView>),
}

/// What a value stands for.
pub open spec fn json_view(value: Json) -> JsonView
    decreases value,
{
    match value {
        Json::Null => JsonView::Null,
        Json::Bool(b) => JsonView::Bool(b),
        Json::Number(n) => JsonView::Number(n),
        Json::Str(s) => JsonView::Str(s@),
        Json::Array(items) => JsonView::Array(json_items_view(items@)),
        Json::Object(fields) => object(json_fields_view(fields@)),
    }
}

/// What the values of an array stand for.
pub open spec fn json_items_view(items: Seq<Json>) -> Seq<JsonView>
    decreases items,
{
    if items.len() == 0 {
        Seq::empty()
    } else {
        json_items_view(items.drop_last()).push(json_view(items.last()))
    }
}

/// What the keys and values of an object stand for.
pub open spec fn json_fields_view(fields: Seq<(String, Json)>) -> Seq<(Seq<char>, JsonView)>
    decreases fields,
{
    if fields.len() == 0 {
        Seq::empty()
    } else {
        json_fields_view(fields.drop_last()).push((fields.last().0@, json_view(fields.last().1)))
    }
}

/// The fields of an object by their keys; of two with one key the later one
/// counts.
pub open spec fn by_key(fields: Seq<(Seq<char>, JsonView)>) -> Map<Seq<char>, JsonView>
    decreases fields.len(),
{
    if fields.len() == 0 {
        Map::empty()
    } else {
        by_key(fields.drop_last()).insert(fields.last().0, fields.last().1)
    }
}

/// The object of some fields.
pub open spec fn object(fields: Seq<(Seq<char>, JsonView)>) -> JsonView {
    JsonView::Object(by_key(fields))
}

impl JsonView {
    /// The value at a key of an object.
    pub open spec fn get(self, key: Seq<char>) -> Option<JsonView> {
        match self {
            JsonView::Object(fields) if fields.contains_key(key) => Some(fields[key]),
            _ => None,
        }
    }
}

/// The value at the key of a field is that of the field, if no later field has
/// the same key.
pub proof fn lemma_object_field(fields: Seq<(Seq<char>, JsonView)>, i: int)
    requires
        0 <= i < fields.len(),
        forall|j: int| i < j < fields.len() ==> (#[trigger] fields[j]).0 != fields[i].0,
    ensures
        object(fields).get(fields[i].0) == Some(fields[i].1),
    decreases fields.len(),
{
    if i < fields.len() - 1 {
        lemma_object_field(fields.drop_last(), i);
        assert(fields[fields.len() - 1].0 != fields[i].0);
    }
}

/// The array of some texts.
pub open spec fn text_array(list: Seq<Seq<char>>) -> JsonView {
    JsonView::Array(list.map_values(|s: Seq<char>| JsonView::Str(s)))
}

/// A text, or null where there is none.
pub open spec fn text_or_null(text: Option<Seq<char>>) -> JsonView {
    match text {
        Some(s) => JsonView::Str(s),
        None => JsonView::Null,
    }
}

impl DeepView for Json {
    type V = JsonView;

    open spec fn deep_view(&self) -> JsonView {
        json_view(*self)
    }
}

/// The views of arrays and objects hold, at each position, the view of what the
/// array or object holds there.
pub proof fn lemma_json_items_view(items: Seq<Json>)
    ensures
        json_items_view(items).len() == items.len(),
        forall|i: int|
            0 <= i < items.len() ==> #[trigger] json_items_view(items)[i] == json_view(items[i]),
    decreases items.len(),
{
    if items.len() > 0 {
        lemma_json_items_view(items.drop_last());
    }
}

/// See `lemma_json_items_view`.
pub proof fn lemma_json_fields_view(fields: Seq<(String, Json)>)
    ensures
        json_fields_view(fields).len() == fields.len(),
        forall|i: int|
            0 <= i < fields.len() ==> #[trigger] json_fields_view(fields)[i] == (
                fields[i].0@,
                json_view(fields[i].1),
            ),
    decreases fields.len(),
{
    if fields.len() > 0 {
        lemma_json_fields_view(fields.drop_last());
    }
}

/// Makes an array of values.
pub fn make_array(items: Vec<Json>) -> (value: Json)
    ensures
        value.deep_view() == JsonView::Array(items.deep_view()),
{
    proof {
        lemma_json_items_view(items@);
        assert(json_items_view(items@) =~= items.deep_view());
    }
    Json::Array(items)
}

/// Makes an object of fields.
pub fn make_object(fields: Vec<(String, Json)>) -> (value: Json)
    ensures
        value.deep_view() == object(fields.deep_view()),
{
    proof {
        lemma_json_fields_view(fields@);
        assert(json_fields_view(fields@) =~= fields.deep_view());
    }
    Json::Object(fields)
}

/// Makes a string.
pub fn make_text(text: &str) -> (value: Json)
    ensures
        value.deep_view() == JsonView::Str(text@),
{
    Json::Str(text.to_owned())
}

/// Makes a string, or null where there is no text.
pub fn make_text_or_null(text: Option<&str>) -> (value: Json)
    ensures
        value.deep_view() == text_or_null(text.deep_view()),
{
    match text {
        Some(s) => Json::Str(s.to_owned()),
        None => Json::Null,
    }
}

/// Makes an array of strings.
pub fn make_text_array(list: &Vec<String>) -> (value: Json)
    ensures
        value.deep_view() == text_array(list.deep_view()),
{
    let mut items: Vec<Json> = Vec::new();
    let mut i: usize = 0;
    while i < list.len()
        invariant
            i <= list.len(),
            items.len() == i,
            forall|j: int| 0 <= j < i ==> json_view(#[trigger] items@[j]) == JsonView::Str(list@[j]@),
        decreases list.len() - i,
    {
        items.push(Json::Str(list[i].clone()));
        i = i + 1;
    }
    let ghost texts = list.deep_view().map_values(|s: Seq<char>| JsonView::Str(s));
    assert(items.deep_view() =~= texts);
    make_array(items)
}

/// A value of the `serde_json` crate.
#[verifier::external_type_specification]
#[verifier::external_body]
pub struct ExJsonValue(serde_json::Value);

/// An error of the `serde_json` crate.
#[verifier::external_type_specification]
#[verifier::external_body]
pub struct ExJsonError(serde_json::Error);

/// What a value of the `serde_json` crate holds.
pub uninterp spec fn json_contents(value: serde_json::Value) -> JsonView;

/// `serde_json::Value::Null` is the null value.
#[verifier::external_body]
fn null_value() -> (value: serde_json::Value)
    ensures
        json_contents(value) == JsonView::Null,
{
    serde_json::Value::Null
}

/// `serde_json::Value::from` of a boolean is that boolean.
#[verifier::external_body]
fn bool_value(b: bool) -> (value: serde_json::Value)
    ensures
        json_contents(value) == JsonView::Bool(b),
{
    serde_json::Value::from(b)
}

/// `serde_json::Value::from` of an unsigned integer is that number.
#[verifier::external_body]
fn number_value(n: u64) -> (value: serde_json::Value)
    ensures
        json_contents(value) == JsonView::Number(n),
{
    serde_json::Value::from(n)
}

/// `serde_json::Value::from` of a `String` is that string.
#[verifier::external_body]
fn text_value(text: String) -> (value: serde_json::Value)
    ensures
        json_contents(value) == JsonView::Str(text@),
{
    serde_json::Value::from(text)
}

/// `serde_json::Value::from` of a `Vec` of values is the array of those values,
/// in order.
#[verifier::external_body]
fn array_value(items: Vec<serde_json::Value>) -> (value: serde_json::Value)
    ensures
        json_contents(value) == JsonView::Array(
            items@.map_values(|v: serde_json::Value| json_contents(v)),
        ),
{
    serde_json::Value::from(items)
}

/// An object of the `serde_json` crate.
#[verifier::external_type_specification]
#[verifier::external_body]
#[verifier::reject_recursive_types(K)]
#[verifier::reject_recursive_types(V)]
pub struct ExJsonMap<K, V>(serde_json::Map<K, V>);

/// The fields that an object of the `serde_json` crate holds.
pub uninterp spec fn map_contents(
    fields: serde_json::Map<String, serde_json::Value>,
) -> Map<Seq<char>, JsonView>;

/// `serde_json::Map::new` makes an object without fields.
#[verifier::external_body]
fn empty_map() -> (fields: serde_json::Map<String, serde_json::Value>)
    ensures
        map_contents(fields).is_empty(),
{
    serde_json::Map::new()
}

/// `serde_json::Map::insert` adds a field, or replaces the value of the field
/// of that key.
#[verifier::external_body]
fn insert_field(
    fields: &mut serde_json::Map<String, serde_json::Value>,
    key: String,
    value: serde_json::Value,
)
    ensures
        map_contents(*final(fields)) == map_contents(*old(fields)).insert(
            key@,
            json_contents(value),
        ),
{
    fields.insert(key, value);
}

/// `serde_json::Value::from` of an object is that object.
#[verifier::external_body]
fn object_value(fields: serde_json::Map<String, serde_json::Value>) -> (value: serde_json::Value)
    ensures
        json_contents(value) == JsonView::Object(map_contents(fields)),
{
    serde_json::Value::from(fields)
}

/// The value of the `serde_json` crate that holds a value.
pub fn to_serde_json(value: Json) -> (outside: serde_json::Value)
    ensures
        json_contents(outside) == value.deep_view(),
    decreases value,
{
    match value {
        Json::Null => null_value(),
        Json::Bool(b) => bool_value(b),
        Json::Number(n) => number_value(n),
        Json::Str(s) => text_value(s),
        Json::Array(items) => {
            let mut outside: Vec<serde_json::Value> = Vec::new();
            for item in it: items
                invariant
                    it.seq() == items@,
                    value == Json::Array(items),
                    outside.len() == it.index(),
                    forall|j: int|
                        0 <= j < it.index() ==> json_contents(#[trigger] outside@[j]) == json_view(
                            items@[j],
                        ),
            {
                assert(item == items@[it.index() as int]);
                assert(decreases_to!(value => value->Array_0));
                assert(decreases_to!(items => items@));
                assert(decreases_to!(items@ => items@[it.index() as int]));
                outside.push(to_serde_json(item));
            }
            proof {
                lemma_json_items_view(items@);
                assert(outside@.map_values(|v: serde_json::Value| json_contents(v))
                    =~= json_items_view(items@));
            }
            array_value(outside)
        },
        Json::Object(fields) => {
            let ghost views = json_fields_view(fields@);
            proof {
                lemma_json_fields_view(fields@);
            }
            let mut outside = empty_map();
            for field in it: fields
                invariant
                    it.seq() == fields@,
                    value == Json::Object(fields),
                    views.len() == fields.len(),
                    forall|j: int|
                        0 <= j < fields.len() ==> #[trigger] views[j] == (
                            fields@[j].0@,
                            json_view(fields@[j].1),
                        ),
                    map_contents(outside) == by_key(views.take(it.index() as int)),
            {
                assert(field == fields@[it.index() as int]);
                assert(decreases_to!(value => value->Object_0));
                assert(decreases_to!(fields => fields@));
                assert(decreases_to!(fields@ => fields@[it.index() as int]));
                assert(decreases_to!(field => field.1));
                assert(views.take(it.index() + 1).drop_last() =~= views.take(it.index() as int));
                assert(views.take(it.index() + 1).last() == views[it.index() as int]);
                insert_field(&mut outside, field.0, to_serde_json(field.1));
            }
            assert(views.take(fields.len() as int) =~= views);
            object_value(outside)
        },
    }
}

} // verus!
