use lockfile_metadata::features::{features_to_json, parse_features, Features};
use lockfile_metadata::json::to_serde_json;
use lockfile_metadata::toml_value::parse_toml;

#[test]
fn test_parse_features() {
    let toml = parse_toml(
        r#"
            [features]
            default = ["std"]
            std = ["serde/std"]
            alloc = []
        "#,
    )
    .unwrap();

    let features = parse_features(&toml);
    assert_eq!(features.len(), 3);
    assert_eq!(features.get("default").unwrap(), &vec!["std"]);
    assert_eq!(features.get("std").unwrap(), &vec!["serde/std"]);
    assert!(features.get("alloc").unwrap().is_empty());
}

#[test]
fn features_of_other_values() {
    let toml = parse_toml("[features]\na = \"x\"\nb = [\"y\", 1, \"z\"]").unwrap();
    let features = parse_features(&toml);
    assert_eq!(features.len(), 2);
    assert!(features.get("a").unwrap().is_empty());
    assert_eq!(features.get("b").unwrap(), &vec!["y", "z"]);
    assert!(features.get("c").is_none());

    assert_eq!(parse_features(&parse_toml("features = 1").unwrap()).len(), 0);
    assert_eq!(parse_features(&parse_toml("").unwrap()).len(), 0);
    assert_eq!(Features::none().len(), 0);
}

#[test]
fn features_are_written() {
    let toml = parse_toml("[features]\na = [\"x\", \"y\"]\nb = []").unwrap();
    let value = to_serde_json(features_to_json(&parse_features(&toml)));
    assert_eq!(value.to_string(), r#"{"a":["x","y"],"b":[]}"#);
}
