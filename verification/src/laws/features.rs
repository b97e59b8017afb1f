//! Laws of features.

use crate::features::{features_json, features_of, law_features_of_table, FeatureMap};
use crate::json::text_array;
use crate::toml_value::{distinct_keys, TomlView};
use vstd::prelude::*;

verus! {

/// A manifest declares a feature for each key of its `[features]` table, and no
/// others, each with the texts of the array at the key. Without such a table it
/// declares none.
pub proof fn law_features_of_manifest(manifest: TomlView)
    ensures
        match manifest.get("features"@) {
            Some(TomlView::Table(fields)) => distinct_keys(fields) ==> {
                &&& features_of(manifest).dom().finite()
                &&& features_of(manifest).len() == fields.len()
                &&& forall|i: int|
                    0 <= i < fields.len() ==> features_of(manifest).contains_key(
                        (#[trigger] fields[i]).0,
                    ) && features_of(manifest)[fields[i].0] == fields[i].1.texts()
            },
            _ => forall|name: Seq<char>| !#[trigger] features_of(manifest).contains_key(name),
        },
{
    if let Some(TomlView::Table(fields)) = manifest.get("features"@) {
        if distinct_keys(fields) {
            law_features_of_table(fields);
        }
    }
}

/// Features are written as an object that holds, under the name of each feature
/// and no other key, the list of what it turns on.
pub proof fn law_features_written(features: FeatureMap, name: Seq<char>)
    ensures
        features.contains_key(name) ==> features_json(features).get(name) == Some(
            text_array(features[name]),
        ),
        !features.contains_key(name) ==> features_json(features).get(name) is None,
{
}

} // verus!
