//! The features that a manifest declares.

use crate::json::{by_key, make_object, make_text_array, text_array, Json, JsonView};
use crate::text::same_text;
use crate::toml_value::{distinct_keys, Toml, TomlView};
use vstd::prelude::*;

verus! {

/// The features of a package by their names, each with what it turns on.
#[derive(Debug)]
pub struct Features {
    entries: Vec<(String, Vec<String>)>,
}

/// The features of a package by their names, each with what it turns on.
pub type FeatureMap = Map<Seq<char>, Seq<Seq<char>>>;

/// Entries by their names; of two with one name the later one counts.
pub open spec fn entry_map(entries: Seq<(Seq<char>, Seq<Seq<char>>)>) -> FeatureMap
    decreases entries.len(),
{
    if entries.len() == 0 {
        Map::empty()
    } else {
        entry_map(entries.drop_last()).insert(entries.last().0, entries.last().1)
    }
}

/// Whether no name occurs twice.
spec fn distinct_names(entries: Seq<(Seq<char>, Seq<Seq<char>>)>) -> bool {
    forall|i: int, j: int|
        0 <= i < j < entries.len() ==> (#[trigger] entries[i]).0 != (#[trigger] entries[j]).0
}

/// Entries with distinct names are the entries of their map.
proof fn lemma_entry_map(entries: Seq<(Seq<char>, Seq<Seq<char>>)>)
    requires
        distinct_names(entries),
    ensures
        entry_map(entries).dom().finite(),
        entry_map(entries).len() == entries.len(),
        forall|i: int|
            0 <= i < entries.len() ==> entry_map(entries).contains_key((#[trigger] entries[i]).0)
                && entry_map(entries)[entries[i].0] == entries[i].1,
        forall|name: Seq<char>| #[trigger]
            entry_map(entries).contains_key(name) ==> exists|i: int|
                0 <= i < entries.len() && (#[trigger] entries[i]).0 == name,
    decreases entries.len(),
{
    if entries.len() > 0 {
        let rest = entries.drop_last();
        lemma_entry_map(rest);
        let name = entries.last().0;
        if entry_map(rest).contains_key(name) {
            let i = choose|i: int| 0 <= i < rest.len() && (#[trigger] rest[i]).0 == name;
            assert(entries[i].0 == entries[entries.len() - 1].0);
        }
        assert forall|i: int| 0 <= i < entries.len() implies entry_map(entries).contains_key(
            (#[trigger] entries[i]).0,
        ) && entry_map(entries)[entries[i].0] == entries[i].1 by {
            if i < rest.len() {
                assert(rest[i] == entries[i]);
            }
        }
        assert forall|k: Seq<char>| #[trigger] entry_map(entries).contains_key(k) implies exists|i: int|
            0 <= i < entries.len() && (#[trigger] entries[i]).0 == k by {
            if k == name {
                assert(entries[entries.len() - 1].0 == k);
            } else {
                assert(entry_map(rest).contains_key(k));
                let i = choose|i: int| 0 <= i < rest.len() && (#[trigger] rest[i]).0 == k;
                assert(entries[i].0 == k);
            }
        }
    }
}

impl DeepView for Features {
    type V = FeatureMap;

    closed spec fn deep_view(&self) -> FeatureMap {
        entry_map(self.entries.deep_view())
    }
}

/// The features that a table declares: under each key the texts of the array
/// there, or nothing where there is no array.
pub open spec fn feature_table(fields: Seq<(Seq<char>, TomlView)>) -> FeatureMap
    decreases fields.len(),
{
    if fields.len() == 0 {
        Map::empty()
    } else {
        feature_table(fields.drop_last()).insert(fields.last().0, fields.last().1.texts())
    }
}

/// The features that a manifest declares.
pub open spec fn features_of(manifest: TomlView) -> FeatureMap {
    match manifest.get("features"@) {
        Some(TomlView::Table(fields)) => feature_table(fields),
        _ => Map::empty(),
    }
}

/// Replacing the value of an entry is inserting it under its name.
proof fn lemma_replace(entries: Seq<(Seq<char>, Seq<Seq<char>>)>, at: int, list: Seq<Seq<char>>)
    requires
        distinct_names(entries),
        0 <= at < entries.len(),
    ensures
        distinct_names(entries.update(at, (entries[at].0, list))),
        entry_map(entries.update(at, (entries[at].0, list))) == entry_map(entries).insert(
            entries[at].0,
            list,
        ),
{
    let name = entries[at].0;
    let after = entries.update(at, (name, list));
    assert forall|i: int, j: int| 0 <= i < j < after.len() implies (#[trigger] after[i]).0 != (
    #[trigger] after[j]).0 by {
        assert(entries[i].0 != entries[j].0);
    }
    lemma_entry_map(entries);
    lemma_entry_map(after);
    let left = entry_map(after);
    let right = entry_map(entries).insert(name, list);
    assert forall|k: Seq<char>| #[trigger] left.dom().contains(k) implies right.dom().contains(k)
        && left[k] == right[k] by {
        assert(left.contains_key(k));
        let i = choose|i: int| 0 <= i < after.len() && (#[trigger] after[i]).0 == k;
        assert(entries[i].0 == k);
        assert(after[i].0 == k);
        if i != at {
            assert(entries[i] == after[i]);
        }
    }
    assert forall|k: Seq<char>| #[trigger] right.dom().contains(k) implies left.dom().contains(k) by {
        if k == name {
            assert(after[at].0 == k);
        } else {
            assert(entry_map(entries).contains_key(k));
            let i = choose|i: int| 0 <= i < entries.len() && (#[trigger] entries[i]).0 == k;
            assert(after[i].0 == k);
        }
    }
    assert(left =~= right);
}

/// Sets the list of a feature.
fn set_feature(entries: &mut Vec<(String, Vec<String>)>, name: &str, list: Vec<String>)
    requires
        distinct_names(old(entries).deep_view()),
    ensures
        distinct_names(final(entries).deep_view()),
        entry_map(final(entries).deep_view()) == entry_map(old(entries).deep_view()).insert(
            name@,
            list.deep_view(),
        ),
{
    let ghost before = entries.deep_view();
    let mut i: usize = 0;
    while i < entries.len()
        invariant
            i <= entries.len(),
            before == entries.deep_view(),
            before == old(entries).deep_view(),
            distinct_names(before),
            forall|j: int| 0 <= j < i ==> (#[trigger] before[j]).0 != name@,
        decreases entries.len() - i,
    {
        assert(before[i as int] == entries@[i as int].deep_view());
        if same_text(entries[i].0.as_str(), name) {
            proof {
                lemma_replace(before, i as int, list.deep_view());
            }
            entries.set(i, (name.to_owned(), list));
            assert(entries.deep_view() =~= before.update(i as int, (name@, list.deep_view())));
            return ;
        }
        i = i + 1;
    }
    entries.push((name.to_owned(), list));
    proof {
        let after = entries.deep_view();
        assert(after =~= before.push((name@, list.deep_view())));
        assert(after.drop_last() =~= before);
    }
}

/// Parses the `[features]` table of a manifest.
pub fn parse_features(manifest: &Toml) -> (features: Features)
    ensures
        features.deep_view() == features_of(manifest.deep_view()),
{
    let mut entries: Vec<(String, Vec<String>)> = Vec::new();
    assert(entries.deep_view() =~= Seq::empty());
    if let Some(value) = manifest.get("features") {
        if let Some(table) = value.as_table() {
            let ghost fields = table.deep_view();
            let mut i: usize = 0;
            assert(fields.take(0) =~= Seq::empty());
            while i < table.len()
                invariant
                    i <= table.len(),
                    fields == table.deep_view(),
                    distinct_names(entries.deep_view()),
                    entry_map(entries.deep_view()) == feature_table(fields.take(i as int)),
                decreases table.len() - i,
            {
                proof {
                    assert(fields.take(i + 1).drop_last() =~= fields.take(i as int));
                    assert(fields.take(i + 1).last() == table@[i as int].deep_view());
                }
                let list = table[i].1.texts();
                set_feature(&mut entries, table[i].0.as_str(), list);
                i = i + 1;
            }
            assert(fields.take(fields.len() as int) =~= fields);
        }
    }
    Features { entries }
}

impl Features {
    #[verifier::type_invariant]
    spec fn names_occur_once(&self) -> bool {
        distinct_names(self.entries.deep_view())
    }

    /// No features.
    pub fn none() -> (features: Features)
        ensures
            features.deep_view() == Map::<Seq<char>, Seq<Seq<char>>>::empty(),
    {
        let entries: Vec<(String, Vec<String>)> = Vec::new();
        assert(entries.deep_view() =~= Seq::empty());
        Features { entries }
    }

    /// The number of features.
    pub fn len(&self) -> (n: usize)
        ensures
            n == self.deep_view().len(),
    {
        proof {
            use_type_invariant(self);
            lemma_entry_map(self.entries.deep_view());
        }
        self.entries.len()
    }

    /// What a feature turns on.
    pub fn get(&self, name: &str) -> (list: Option<&Vec<String>>)
        ensures
            match list {
                Some(l) => self.deep_view().contains_key(name@) && self.deep_view()[name@] == l.deep_view(),
                None => !self.deep_view().contains_key(name@),
            },
    {
        let ghost all = self.entries.deep_view();
        proof {
            use_type_invariant(self);
            lemma_entry_map(all);
        }
        let mut i: usize = 0;
        while i < self.entries.len()
            invariant
                i <= self.entries.len(),
                all == self.entries.deep_view(),
                forall|k: int|
                    0 <= k < all.len() ==> entry_map(all).contains_key((#[trigger] all[k]).0)
                        && entry_map(all)[all[k].0] == all[k].1,
                forall|j: int| 0 <= j < i ==> (#[trigger] all[j]).0 != name@,
            decreases self.entries.len() - i,
        {
            assert(all[i as int] == self.entries@[i as int].deep_view());
            if same_text(self.entries[i].0.as_str(), name) {
                return Some(&self.entries[i].1);
            }
            i = i + 1;
        }
        None
    }
}

/// Features as metadata writes them.
pub open spec fn features_json(features: FeatureMap) -> JsonView {
    JsonView::Object(features.map_values(|list: Seq<Seq<char>>| text_array(list)))
}

/// The object of entries is that of their map.
proof fn lemma_features_json(entries: Seq<(Seq<char>, Seq<Seq<char>>)>)
    ensures
        by_key(
            entries.map_values(|e: (Seq<char>, Seq<Seq<char>>)| (e.0, text_array(e.1))),
        ) == entry_map(entries).map_values(|list: Seq<Seq<char>>| text_array(list)),
    decreases entries.len(),
{
    let fields = entries.map_values(|e: (Seq<char>, Seq<Seq<char>>)| (e.0, text_array(e.1)));
    let lists = entry_map(entries).map_values(|list: Seq<Seq<char>>| text_array(list));
    if entries.len() > 0 {
        lemma_features_json(entries.drop_last());
        assert(fields.drop_last() =~= entries.drop_last().map_values(
            |e: (Seq<char>, Seq<Seq<char>>)| (e.0, text_array(e.1)),
        ));
        assert(by_key(fields) =~= lists);
    } else {
        assert(by_key(fields) =~= lists);
    }
}

/// Writes features as metadata.
pub fn features_to_json(features: &Features) -> (value: Json)
    ensures
        value.deep_view() == features_json(features.deep_view()),
{
    let ghost all = features.entries.deep_view();
    let ghost views = all.map_values(|e: (Seq<char>, Seq<Seq<char>>)| (e.0, text_array(e.1)));
    let mut fields: Vec<(String, Json)> = Vec::new();
    let mut i: usize = 0;
    while i < features.entries.len()
        invariant
            i <= features.entries.len(),
            all == features.entries.deep_view(),
            views == all.map_values(|e: (Seq<char>, Seq<Seq<char>>)| (e.0, text_array(e.1))),
            fields.len() == i,
            forall|j: int| 0 <= j < i ==> (#[trigger] fields@[j]).deep_view() == views[j],
        decreases features.entries.len() - i,
    {
        let entry = &features.entries[i];
        assert(all[i as int] == entry.deep_view());
        fields.push((entry.0.clone(), make_text_array(&entry.1)));
        i = i + 1;
    }
    proof {
        assert(fields.deep_view() =~= views);
        lemma_features_json(all);
    }
    make_object(fields)
}

/// A table declares a feature for each of its keys and no others, each with the
/// texts of the array at the key.
pub proof fn law_features_of_table(fields: Seq<(Seq<char>, TomlView)>)
    requires
        distinct_keys(fields),
    ensures
        feature_table(fields).dom().finite(),
        feature_table(fields).len() == fields.len(),
        forall|i: int|
            0 <= i < fields.len() ==> feature_table(fields).contains_key((#[trigger] fields[i]).0)
                && feature_table(fields)[fields[i].0] == fields[i].1.texts(),
{
    let entries = fields.map_values(|f: (Seq<char>, TomlView)| (f.0, f.1.texts()));
    lemma_feature_entries(fields);
    assert forall|i: int, j: int| 0 <= i < j < entries.len() implies (#[trigger] entries[i]).0 != (
    #[trigger] entries[j]).0 by {
        assert(fields[i].0 != fields[j].0);
    }
    lemma_entry_map(entries);
    assert forall|i: int| 0 <= i < fields.len() implies feature_table(fields).contains_key(
        (#[trigger] fields[i]).0,
    ) && feature_table(fields)[fields[i].0] == fields[i].1.texts() by {
        assert(entries[i].0 == fields[i].0);
    }
}

/// The features of a table are those of its entries.
proof fn lemma_feature_entries(fields: Seq<(Seq<char>, TomlView)>)
    ensures
        feature_table(fields) == entry_map(
            fields.map_values(|f: (Seq<char>, TomlView)| (f.0, f.1.texts())),
        ),
    decreases fields.len(),
{
    if fields.len() > 0 {
        let entries = fields.map_values(|f: (Seq<char>, TomlView)| (f.0, f.1.texts()));
        lemma_feature_entries(fields.drop_last());
        assert(entries.drop_last() =~= fields.drop_last().map_values(
            |f: (Seq<char>, TomlView)| (f.0, f.1.texts()),
        ));
    }
}

} // verus!
