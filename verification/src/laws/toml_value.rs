//! Laws of TOML values.

use crate::toml_value::{lemma_fields_view, lemma_items_view, texts, Toml, TomlView};
use vstd::prelude::*;

verus! {

/// A value stands for a value of the same kind that holds the same: a string its
/// text, a number or a boolean itself, an array its values and a table its keys
/// and values, in order.
pub proof fn law_toml_view(value: Toml)
    ensures
        match value {
            Toml::Str(s) => value.deep_view() == TomlView::Str(s@),
            Toml::Integer(n) => value.deep_view() == TomlView::Integer(n),
            Toml::Boolean(b) => value.deep_view() == TomlView::Boolean(b),
            Toml::Array(items) => value.deep_view() matches TomlView::Array(views) && views.len()
                == items.len() && forall|i: int|
                0 <= i < items.len() ==> #[trigger] views[i] == items@[i].deep_view(),
            Toml::Table(fields) => value.deep_view() matches TomlView::Table(views) && views.len()
                == fields.len() && forall|i: int|
                0 <= i < fields.len() ==> #[trigger] views[i] == (
                    fields@[i].0@,
                    fields@[i].1.deep_view(),
                ),
            Toml::Other => value.deep_view() == TomlView::Other,
        },
{
    match value {
        Toml::Array(items) => lemma_items_view(items@),
        Toml::Table(fields) => lemma_fields_view(fields@),
        _ => {},
    }
}

/// The value at a key of a table is that of the first field of the key. Without
/// such a field, and in what is no table, there is none.
pub proof fn law_get(
    before: Seq<(Seq<char>, TomlView)>,
    key: Seq<char>,
    value: TomlView,
    after: Seq<(Seq<char>, TomlView)>,
    other: TomlView,
)
    requires
        forall|i: int| 0 <= i < before.len() ==> (#[trigger] before[i]).0 != key,
        !(other is Table),
    ensures
        TomlView::Table(before + seq![(key, value)] + after).get(key) == Some(value),
        TomlView::Table(before).get(key) is None,
        other.get(key) is None,
    decreases before.len(),
{
    let fields = before + seq![(key, value)] + after;
    if before.len() > 0 {
        assert(fields[0] == before[0]);
        assert(fields.drop_first() =~= before.drop_first() + seq![(key, value)] + after);
        law_get(before.drop_first(), key, value, after, other);
    } else {
        assert(fields[0] == (key, value));
    }
}

/// What is read at a key as a text, a boolean, an array or the texts of an array
/// is what stands there, if it is of that kind.
pub proof fn law_typed_value(value: TomlView, key: Seq<char>)
    ensures
        forall|s: Seq<char>| #[trigger]
            value.text_at(key) == Some(s) <==> value.get(key) == Some(TomlView::Str(s)),
        forall|b: bool| #[trigger]
            value.boolean_at(key) == Some(b) <==> value.get(key) == Some(TomlView::Boolean(b)),
        forall|items: Seq<TomlView>| #[trigger]
            value.items_at(key) == Some(items) <==> value.get(key) == Some(TomlView::Array(items)),
        match value.get(key) {
            Some(TomlView::Array(items)) => value.texts_at(key) == texts(items),
            _ => value.texts_at(key).len() == 0,
        },
        match value {
            TomlView::Str(s) => value.text() == Some(s),
            _ => value.text() is None,
        },
        match value {
            TomlView::Boolean(b) => value.boolean() == Some(b),
            _ => value.boolean() is None,
        },
        match value {
            TomlView::Array(items) => value.items() == Some(items) && value.texts() == texts(items),
            _ => value.items() is None && value.texts().len() == 0,
        },
{
}

/// Of two keys the first one that is there counts.
pub proof fn law_get_either(value: TomlView, key: Seq<char>, other: Seq<char>)
    ensures
        value.get(key) is Some ==> value.get_either(key, other) == value.get(key),
        value.get(key) is None ==> value.get_either(key, other) == value.get(other),
{
}

/// The texts among some values are those of the first values followed by those of
/// the others; a string is one text, and any other value none.
pub proof fn law_texts(first: Seq<TomlView>, second: Seq<TomlView>, s: Seq<char>, other: TomlView)
    requires
        !(other is Str),
    ensures
        texts(first + second) == texts(first) + texts(second),
        texts(seq![TomlView::Str(s)]) == seq![s],
        texts(seq![other]).len() == 0,
        texts(Seq::empty()).len() == 0,
    decreases second.len(),
{
    assert(texts(Seq::<TomlView>::empty()) =~= Seq::empty());
    assert(seq![TomlView::Str(s)].drop_last() =~= Seq::empty());
    assert(texts(seq![TomlView::Str(s)]) =~= seq![s]);
    assert(seq![other].drop_last() =~= Seq::empty());
    if second.len() > 0 {
        assert((first + second).drop_last() =~= first + second.drop_last());
        law_texts(first, second.drop_last(), s, other);
        assert(texts(first + second) =~= texts(first) + texts(second));
    } else {
        assert(first + second =~= first);
        assert(texts(first) + texts(second) =~= texts(first));
    }
}

} // verus!
