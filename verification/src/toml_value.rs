//! TOML documents as plain values.

use crate::text::same_text;
use vstd::prelude::*;

verus! {

/// A TOML value.
#[derive(Debug)]
pub enum Toml {
    /// A string.
    Str(String),
    /// An integer.
    Integer(i64),
    /// A boolean.
    Boolean(bool),
    /// An array.
    Array(Vec<Toml>),
    /// A table, as its keys and values in the order of the table.
    Table(Vec<(String, Toml)>),
    /// A float or a date.
    Other,
}

/// What a `Toml` stands for.
#[verifier::ext_equal]
pub enum TomlView {
    Str(Seq<char>),
    Integer(i64),
    Boolean(bool),
    Array(Seq<TomlView>),
    Table(Seq<(Seq<char>, TomlView)>),
    Other,
}

/// What a value stands for.
pub open spec fn toml_view(value: Toml) -> TomlView
    decreases value,
{
    match value {
        Toml::Str(s) => TomlView::Str(s@),
        Toml::Integer(n) => TomlView::Integer(n),
        Toml::Boolean(b) => TomlView::Boolean(b),
        Toml::Array(items) => TomlView::Array(items_view(items@)),
        Toml::Table(fields) => TomlView::Table(fields_view(fields@)),
        Toml::Other => TomlView::Other,
    }
}

/// What the values of an array stand for.
pub open spec fn items_view(items: Seq<Toml>) -> Seq<TomlView>
    decreases items,
{
    if items.len() == 0 {
        Seq::empty()
    } else {
        items_view(items.drop_last()).push(toml_view(items.last()))
    }
}

/// What the keys and values of a table stand for.
pub open spec fn fields_view(fields: Seq<(String, Toml)>) -> Seq<(Seq<char>, TomlView)>
    decreases fields,
{
    if fields.len() == 0 {
        Seq::empty()
    } else {
        fields_view(fields.drop_last()).push((fields.last().0@, toml_view(fields.last().1)))
    }
}

impl DeepView for Toml {
    type V = TomlView;

    open spec fn deep_view(&self) -> TomlView {
        toml_view(*self)
    }
}

/// The views of arrays and tables hold, at each position, the view of what the
/// array or table holds there.
pub proof fn lemma_items_view(items: Seq<Toml>)
    ensures
        items_view(items).len() == items.len(),
        forall|i: int| 0 <= i < items.len() ==> #[trigger] items_view(items)[i] == toml_view(items[i]),
    decreases items.len(),
{
    if items.len() > 0 {
        lemma_items_view(items.drop_last());
    }
}

/// See `lemma_items_view`.
pub proof fn lemma_fields_view(fields: Seq<(String, Toml)>)
    ensures
        fields_view(fields).len() == fields.len(),
        forall|i: int|
            0 <= i < fields.len() ==> #[trigger] fields_view(fields)[i] == (
                fields[i].0@,
                toml_view(fields[i].1),
            ),
    decreases fields.len(),
{
    if fields.len() > 0 {
        lemma_fields_view(fields.drop_last());
    }
}

/// Whether no key occurs twice.
pub open spec fn distinct_keys(fields: Seq<(Seq<char>, TomlView)>) -> bool {
    forall|i: int, j: int|
        0 <= i < j < fields.len() ==> (#[trigger] fields[i]).0 != (#[trigger] fields[j]).0
}

/// Whether no table in a value has a key twice.
pub open spec fn well_keyed(value: TomlView) -> bool
    decreases value,
{
    match value {
        TomlView::Array(items) => items_well_keyed(items),
        TomlView::Table(fields) => distinct_keys(fields) && fields_well_keyed(fields),
        _ => true,
    }
}

/// Whether no table in the values of an array has a key twice.
pub open spec fn items_well_keyed(items: Seq<TomlView>) -> bool
    decreases items,
{
    items.len() == 0 || items_well_keyed(items.drop_last()) && well_keyed(items.last())
}

/// Whether no table in the values of a table has a key twice.
pub open spec fn fields_well_keyed(fields: Seq<(Seq<char>, TomlView)>) -> bool
    decreases fields,
{
    fields.len() == 0 || fields_well_keyed(fields.drop_last()) && well_keyed(fields.last().1)
}

/// What holds of each value of an array holds of the array.
proof fn lemma_items_well_keyed(items: Seq<TomlView>)
    requires
        forall|i: int| 0 <= i < items.len() ==> well_keyed(#[trigger] items[i]),
    ensures
        items_well_keyed(items),
    decreases items.len(),
{
    if items.len() > 0 {
        assert forall|i: int| 0 <= i < items.len() - 1 implies well_keyed(
            #[trigger] items.drop_last()[i],
        ) by {
            assert(well_keyed(items[i]));
        }
        lemma_items_well_keyed(items.drop_last());
        assert(well_keyed(items[items.len() - 1]));
    }
}

/// What holds of each value of a table holds of the values together, and the
/// other way round.
pub proof fn lemma_fields_well_keyed(fields: Seq<(Seq<char>, TomlView)>)
    ensures
        fields_well_keyed(fields) <==> forall|i: int|
            0 <= i < fields.len() ==> well_keyed((#[trigger] fields[i]).1),
    decreases fields.len(),
{
    if fields.len() > 0 {
        let rest = fields.drop_last();
        lemma_fields_well_keyed(rest);
        if fields_well_keyed(fields) {
            assert forall|i: int| 0 <= i < fields.len() implies well_keyed(
                (#[trigger] fields[i]).1,
            ) by {
                if i < rest.len() {
                    assert(rest[i] == fields[i]);
                }
            }
        } else if forall|i: int| 0 <= i < fields.len() ==> well_keyed((#[trigger] fields[i]).1) {
            assert forall|i: int| 0 <= i < rest.len() implies well_keyed((#[trigger] rest[i]).1) by {
                assert(rest[i] == fields[i]);
            }
            assert(well_keyed(fields[fields.len() - 1].1));
        }
    }
}

/// No table in the value at a key has a key twice, if none in the whole has.
pub proof fn lemma_get_well_keyed(value: TomlView, key: Seq<char>)
    requires
        well_keyed(value),
    ensures
        value.get(key) matches Some(found) ==> well_keyed(found),
{
    if let TomlView::Table(fields) = value {
        lemma_fields_well_keyed(fields);
        lemma_field_in(fields, key);
    }
}

/// The value of a field is that of one of the fields.
proof fn lemma_field_in(fields: Seq<(Seq<char>, TomlView)>, key: Seq<char>)
    ensures
        field(fields, key) matches Some(found) ==> exists|i: int|
            0 <= i < fields.len() && (#[trigger] fields[i]).1 == found,
    decreases fields.len(),
{
    if fields.len() > 0 && fields[0].0 != key {
        let rest = fields.drop_first();
        lemma_field_in(rest, key);
        if let Some(found) = field(rest, key) {
            let i = choose|i: int| 0 <= i < rest.len() && (#[trigger] rest[i]).1 == found;
            assert(fields[i + 1].1 == found);
        }
    }
}

/// The value of the first field of that key.
pub open spec fn field(fields: Seq<(Seq<char>, TomlView)>, key: Seq<char>) -> Option<TomlView>
    decreases fields.len(),
{
    if fields.len() == 0 {
        None
    } else if fields[0].0 == key {
        Some(fields[0].1)
    } else {
        field(fields.drop_first(), key)
    }
}

impl TomlView {
    /// The value at a key of a table; other values have no keys.
    pub open spec fn get(self, key: Seq<char>) -> Option<TomlView> {
        match self {
            TomlView::Table(fields) => field(fields, key),
            _ => None,
        }
    }

    /// The text of a string.
    pub open spec fn text(self) -> Option<Seq<char>> {
        match self {
            TomlView::Str(s) => Some(s),
            _ => None,
        }
    }

    /// The value of a boolean.
    pub open spec fn boolean(self) -> Option<bool> {
        match self {
            TomlView::Boolean(b) => Some(b),
            _ => None,
        }
    }

    /// The values of an array.
    pub open spec fn items(self) -> Option<Seq<TomlView>> {
        match self {
            TomlView::Array(items) => Some(items),
            _ => None,
        }
    }

    /// The keys and values of a table.
    pub open spec fn fields(self) -> Option<Seq<(Seq<char>, TomlView)>> {
        match self {
            TomlView::Table(fields) => Some(fields),
            _ => None,
        }
    }
}

/// The texts among some values, in order.
pub open spec fn texts(items: Seq<TomlView>) -> Seq<Seq<char>>
    decreases items.len(),
{
    if items.len() == 0 {
        Seq::empty()
    } else {
        match items.last().text() {
            Some(s) => texts(items.drop_last()).push(s),
            None => texts(items.drop_last()),
        }
    }
}

impl TomlView {
    /// The text at a key.
    pub open spec fn text_at(self, key: Seq<char>) -> Option<Seq<char>> {
        match self.get(key) {
            Some(value) => value.text(),
            None => None,
        }
    }

    /// The boolean at a key.
    pub open spec fn boolean_at(self, key: Seq<char>) -> Option<bool> {
        match self.get(key) {
            Some(value) => value.boolean(),
            None => None,
        }
    }

    /// The array at a key.
    pub open spec fn items_at(self, key: Seq<char>) -> Option<Seq<TomlView>> {
        match self.get(key) {
            Some(value) => value.items(),
            None => None,
        }
    }

    /// The value at the first of two keys that is there.
    pub open spec fn get_either(self, key: Seq<char>, other: Seq<char>) -> Option<TomlView> {
        match self.get(key) {
            Some(value) => Some(value),
            None => self.get(other),
        }
    }

    /// The texts of the array at a key; none where there is no array.
    pub open spec fn texts_at(self, key: Seq<char>) -> Seq<Seq<char>> {
        match self.get(key) {
            Some(value) => value.texts(),
            None => Seq::empty(),
        }
    }
}

impl TomlView {
    /// The texts of an array; none for other values.
    pub open spec fn texts(self) -> Seq<Seq<char>> {
        match self.items() {
            Some(items) => texts(items),
            None => Seq::empty(),
        }
    }
}

/// The texts among some values, in order.
pub fn texts_of(items: &Vec<Toml>) -> (found: Vec<String>)
    ensures
        found.deep_view() == texts(items.deep_view()),
{
    let mut found: Vec<String> = Vec::new();
    let mut i: usize = 0;
    let ghost all = items.deep_view();
    assert(found.deep_view() =~= texts(all.take(0)));
    while i < items.len()
        invariant
            i <= items.len(),
            all == items.deep_view(),
            found.deep_view() == texts(all.take(i as int)),
        decreases items.len() - i,
    {
        assert(all.take(i + 1).drop_last() =~= all.take(i as int));
        assert(all.take(i + 1).last() == items@[i as int].deep_view());
        let ghost before = found.deep_view();
        if let Some(s) = items[i].as_str() {
            found.push(s.to_owned());
            assert(found.deep_view() =~= before.push(s@));
        }
        i = i + 1;
    }
    assert(all.take(items.len() as int) =~= all);
    found
}

impl Toml {
    /// The texts of an array; none for other values.
    pub fn texts(&self) -> (found: Vec<String>)
        ensures
            found.deep_view() == self.deep_view().texts(),
    {
        match self.as_array() {
            Some(items) => texts_of(items),
            None => {
                let none: Vec<String> = Vec::new();
                assert(none.deep_view() =~= Seq::<Seq<char>>::empty());
                none
            },
        }
    }

    /// The text at a key.
    pub fn text_at(&self, key: &str) -> (text: Option<&str>)
        ensures
            text.deep_view() == self.deep_view().text_at(key@),
    {
        match self.get(key) {
            Some(value) => value.as_str(),
            None => None,
        }
    }

    /// The boolean at a key.
    pub fn bool_at(&self, key: &str) -> (value: Option<bool>)
        ensures
            value == self.deep_view().boolean_at(key@),
    {
        match self.get(key) {
            Some(value) => value.as_bool(),
            None => None,
        }
    }

    /// The array at a key.
    pub fn array_at(&self, key: &str) -> (items: Option<&Vec<Toml>>)
        ensures
            items.deep_view() == self.deep_view().items_at(key@),
    {
        match self.get(key) {
            Some(value) => value.as_array(),
            None => None,
        }
    }

    /// The value at the first of two keys that is there.
    pub fn get_either(&self, key: &str, other: &str) -> (value: Option<&Toml>)
        ensures
            value.deep_view() == self.deep_view().get_either(key@, other@),
    {
        match self.get(key) {
            Some(value) => Some(value),
            None => self.get(other),
        }
    }

    /// The texts of the array at a key; none where there is no array.
    pub fn texts_at(&self, key: &str) -> (found: Vec<String>)
        ensures
            found.deep_view() == self.deep_view().texts_at(key@),
    {
        match self.get(key) {
            Some(value) => value.texts(),
            None => {
                let none: Vec<String> = Vec::new();
                assert(none.deep_view() =~= Seq::<Seq<char>>::empty());
                none
            },
        }
    }
}

impl Toml {
    /// The value at a key of a table; other values have no keys.
    pub fn get(&self, key: &str) -> (value: Option<&Toml>)
        ensures
            value.deep_view() == self.deep_view().get(key@),
    {
        match self {
            Toml::Table(fields) => {
                let ghost all = fields_view(fields@);
                proof {
                    lemma_fields_view(fields@);
                }
                let mut i: usize = 0;
                assert(all.skip(0) =~= all);
                while i < fields.len()
                    invariant
                        i <= fields.len(),
                        *self == Toml::Table(*fields),
                        all == fields_view(fields@),
                        all.len() == fields.len(),
                        forall|j: int|
                            0 <= j < fields.len() ==> #[trigger] all[j] == (
                                fields@[j].0@,
                                toml_view(fields@[j].1),
                            ),
                        field(all, key@) == field(all.skip(i as int), key@),
                    decreases fields.len() - i,
                {
                    assert(all.skip(i as int)[0] == all[i as int]);
                    assert(all.skip(i as int).drop_first() =~= all.skip(i + 1));
                    if same_text(fields[i].0.as_str(), key) {
                        return Some(&fields[i].1);
                    }
                    i = i + 1;
                }
                None
            },
            _ => None,
        }
    }

    /// The text of a string.
    pub fn as_str(&self) -> (text: Option<&str>)
        ensures
            text.deep_view() == self.deep_view().text(),
    {
        match self {
            Toml::Str(s) => Some(s.as_str()),
            _ => None,
        }
    }

    /// The value of a boolean.
    pub fn as_bool(&self) -> (value: Option<bool>)
        ensures
            value == self.deep_view().boolean(),
    {
        match self {
            Toml::Boolean(b) => Some(*b),
            _ => None,
        }
    }

    /// The values of an array.
    pub fn as_array(&self) -> (items: Option<&Vec<Toml>>)
        ensures
            items.deep_view() == self.deep_view().items(),
    {
        match self {
            Toml::Array(items) => {
                proof {
                    lemma_items_view(items@);
                    assert(items.deep_view() =~= items_view(items@));
                }
                Some(items)
            },
            _ => None,
        }
    }

    /// The keys and values of a table.
    pub fn as_table(&self) -> (fields: Option<&Vec<(String, Toml)>>)
        ensures
            fields.deep_view() == self.deep_view().fields(),
    {
        match self {
            Toml::Table(fields) => {
                proof {
                    lemma_fields_view(fields@);
                    assert(fields.deep_view() =~= fields_view(fields@));
                }
                Some(fields)
            },
            _ => None,
        }
    }
}

/// A value of the `toml` crate.
#[verifier::external_type_specification]
#[verifier::external_body]
pub struct ExTomlValue(toml::Value);

/// An error of the `toml` crate.
#[verifier::external_type_specification]
#[verifier::external_body]
pub struct ExTomlError(toml::de::Error);

/// What a value of the `toml` crate holds.
pub uninterp spec fn toml_contents(value: toml::Value) -> TomlView;

/// The document that `str::parse::<toml::Value>` reads from a text, or the error
/// that it reports.
pub uninterp spec fn toml_document(text: Seq<char>) -> Result<TomlView, toml::de::Error>;

/// `str::parse::<toml::Value>` reads a text as a TOML document, or reports an
/// error. What it reads and what it reports depend on the text alone.
#[verifier::external_body]
fn read_document(text: &str) -> (value: Result<toml::Value, toml::de::Error>)
    ensures
        match (value, toml_document(text@)) {
            (Ok(v), Ok(contents)) => toml_contents(v) == contents,
            (Err(error), Err(cause)) => error == cause,
            _ => false,
        },
{
    text.parse::<toml::Value>()
}

/// The outermost layer of a value of the `toml` crate.
enum Layer {
    Str(String),
    Integer(i64),
    Boolean(bool),
    Array(Vec<toml::Value>),
    Table(Vec<(String, toml::Value)>),
    Other,
}

/// What an outermost layer holds.
spec fn layer_contents(layer: Layer) -> TomlView {
    match layer {
        Layer::Str(s) => TomlView::Str(s@),
        Layer::Integer(n) => TomlView::Integer(n),
        Layer::Boolean(b) => TomlView::Boolean(b),
        Layer::Array(items) => TomlView::Array(items@.map_values(|v: toml::Value| toml_contents(v))),
        Layer::Table(fields) => TomlView::Table(
            fields@.map_values(|f: (String, toml::Value)| (f.0@, toml_contents(f.1))),
        ),
        Layer::Other => TomlView::Other,
    }
}

/// The variants of `toml::Value` tell strings, integers, floats, booleans,
/// dates, arrays and tables apart; a table is walked by its `into_iter`, and, as
/// a map, has no key twice.
#[verifier::external_body]
fn outer_layer(value: toml::Value) -> (layer: Layer)
    ensures
        layer_contents(layer) == toml_contents(value),
        layer_contents(layer) matches TomlView::Table(fields) ==> distinct_keys(fields),
{
    match value {
        toml::Value::String(s) => Layer::Str(s),
        toml::Value::Integer(n) => Layer::Integer(n),
        toml::Value::Float(_) => Layer::Other,
        toml::Value::Boolean(b) => Layer::Boolean(b),
        toml::Value::Datetime(_) => Layer::Other,
        toml::Value::Array(items) => Layer::Array(items),
        toml::Value::Table(fields) => Layer::Table(fields.into_iter().collect()),
    }
}

/// The plain value of a value of the `toml` crate.
fn plain_value(value: toml::Value) -> (plain: Toml)
    ensures
        plain.deep_view() == toml_contents(value),
        well_keyed(plain.deep_view()),
    decreases toml_contents(value),
{
    match outer_layer(value) {
        Layer::Str(s) => Toml::Str(s),
        Layer::Integer(n) => Toml::Integer(n),
        Layer::Boolean(b) => Toml::Boolean(b),
        Layer::Array(items) => {
            let ghost contents = toml_contents(value)->Array_0;
            let mut plain: Vec<Toml> = Vec::new();
            for item in it: items
                invariant
                    it.seq() == items@,
                    toml_contents(value) == TomlView::Array(contents),
                    contents == items@.map_values(|v: toml::Value| toml_contents(v)),
                    plain.len() == it.index(),
                    forall|j: int|
                        0 <= j < it.index() ==> toml_view(#[trigger] plain@[j]) == contents[j]
                            && well_keyed(contents[j]),
            {
                assert(contents[it.index() as int] == toml_contents(item));
                assert(decreases_to!(toml_contents(value) => toml_contents(value)->Array_0));
                assert(decreases_to!(contents => contents[it.index() as int]));
                plain.push(plain_value(item));
            }
            proof {
                lemma_items_view(plain@);
                assert(items_view(plain@) =~= contents);
                assert forall|j: int| 0 <= j < contents.len() implies well_keyed(
                    #[trigger] contents[j],
                ) by {
                    assert(toml_view(plain@[j]) == contents[j]);
                }
                lemma_items_well_keyed(contents);
            }
            Toml::Array(plain)
        },
        Layer::Table(fields) => {
            let ghost contents = toml_contents(value)->Table_0;
            let mut plain: Vec<(String, Toml)> = Vec::new();
            for field in it: fields
                invariant
                    it.seq() == fields@,
                    toml_contents(value) == TomlView::Table(contents),
                    distinct_keys(contents),
                    contents == fields@.map_values(
                        |f: (String, toml::Value)| (f.0@, toml_contents(f.1)),
                    ),
                    plain.len() == it.index(),
                    forall|j: int|
                        0 <= j < it.index() ==> contents[j] == (
                            (#[trigger] plain@[j]).0@,
                            toml_view(plain@[j].1),
                        ) && well_keyed(contents[j].1),
            {
                assert(contents[it.index() as int] == (field.0@, toml_contents(field.1)));
                assert(decreases_to!(toml_contents(value) => toml_contents(value)->Table_0));
                assert(decreases_to!(contents => contents[it.index() as int]));
                assert(decreases_to!(contents[it.index() as int] => contents[it.index() as int].1));
                plain.push((field.0, plain_value(field.1)));
            }
            proof {
                lemma_fields_view(plain@);
                assert(fields_view(plain@) =~= contents);
                assert forall|j: int| 0 <= j < contents.len() implies well_keyed(
                    (#[trigger] contents[j]).1,
                ) by {
                    assert(contents[j] == (plain@[j].0@, toml_view(plain@[j].1)));
                }
                lemma_fields_well_keyed(contents);
            }
            Toml::Table(plain)
        },
        Layer::Other => Toml::Other,
    }
}

/// Reads a text as a TOML document. No table in it has a key twice.
pub fn parse_toml(text: &str) -> (document: Result<Toml, toml::de::Error>)
    ensures
        match (document, toml_document(text@)) {
            (Ok(value), Ok(contents)) => value.deep_view() == contents && well_keyed(contents),
            (Err(error), Err(cause)) => error == cause,
            _ => false,
        },
{
    match read_document(text) {
        Ok(value) => Ok(plain_value(value)),
        Err(error) => Err(error),
    }
}

} // verus!
