//! Laws of JSON values.

use crate::json::{
    json_fields_view, lemma_json_fields_view, lemma_json_items_view, lemma_object_field, object,
    text_array, text_or_null, Json, JsonView,
};
use vstd::prelude::*;

verus! {

/// A value stands for a value of the same kind that holds the same.
pub proof fn law_json_view(value: Json)
    ensures
        match value {
            Json::Null => value.deep_view() == JsonView::Null,
            Json::Bool(b) => value.deep_view() == JsonView::Bool(b),
            Json::Number(n) => value.deep_view() == JsonView::Number(n),
            Json::Str(s) => value.deep_view() == JsonView::Str(s@),
            Json::Array(items) => value.deep_view() matches JsonView::Array(views) && views.len()
                == items.len() && forall|i: int|
                0 <= i < items.len() ==> #[trigger] views[i] == items@[i].deep_view(),
            Json::Object(fields) => forall|i: int|
                0 <= i < fields.len() && (forall|j: int|
                    i < j < fields.len() ==> (#[trigger] fields@[j]).0@ != fields@[i].0@)
                    ==> value.deep_view().get((#[trigger] fields@[i]).0@) == Some(
                    fields@[i].1.deep_view(),
                ),
        },
{
    match value {
        Json::Array(items) => lemma_json_items_view(items@),
        Json::Object(fields) => {
            let views = json_fields_view(fields@);
            lemma_json_fields_view(fields@);
            assert forall|i: int|
                0 <= i < fields.len() && (forall|j: int|
                    i < j < fields.len() ==> (#[trigger] fields@[j]).0@ != fields@[i].0@) implies value.deep_view().get(
                (#[trigger] fields@[i]).0@,
            ) == Some(fields@[i].1.deep_view()) by {
                assert forall|j: int| i < j < views.len() implies (#[trigger] views[j]).0
                    != views[i].0 by {
                    assert(fields@[j].0@ != fields@[i].0@);
                }
                lemma_object_field(views, i);
            }
        },
        _ => {},
    }
}

/// An object holds the last value given under each key, and no other keys.
pub proof fn law_object(
    before: Seq<(Seq<char>, JsonView)>,
    key: Seq<char>,
    value: JsonView,
    after: Seq<(Seq<char>, JsonView)>,
)
    requires
        forall|i: int| 0 <= i < after.len() ==> (#[trigger] after[i]).0 != key,
    ensures
        object(before + seq![(key, value)] + after).get(key) == Some(value),
        object(after).get(key) is None,
    decreases after.len(),
{
    let fields = before + seq![(key, value)] + after;
    if after.len() > 0 {
        assert(fields.drop_last() =~= before + seq![(key, value)] + after.drop_last());
        assert(fields.last() == after[after.len() - 1]);
        law_object(before, key, value, after.drop_last());
    } else {
        assert(fields.last() == (key, value));
    }
}

/// An object of fields with distinct keys holds each of them.
pub proof fn law_object_fields(fields: Seq<(Seq<char>, JsonView)>)
    requires
        forall|i: int, j: int|
            0 <= i < j < fields.len() ==> (#[trigger] fields[i]).0 != (#[trigger] fields[j]).0,
    ensures
        forall|i: int|
            0 <= i < fields.len() ==> object(fields).get((#[trigger] fields[i]).0) == Some(
                fields[i].1,
            ),
{
    assert forall|i: int| 0 <= i < fields.len() implies object(fields).get(
        (#[trigger] fields[i]).0,
    ) == Some(fields[i].1) by {
        lemma_object_field(fields, i);
    }
}

/// Texts are written as an array of strings, each at its place, and a text that
/// may be missing as a string or null.
pub proof fn law_texts_written(list: Seq<Seq<char>>, text: Seq<char>)
    ensures
        text_array(list) matches JsonView::Array(items) && items.len() == list.len() && forall|i: int|
            0 <= i < list.len() ==> #[trigger] items[i] == JsonView::Str(list[i]),
        text_or_null(Some(text)) == JsonView::Str(text),
        text_or_null(None) == JsonView::Null,
{
}

} // verus!
