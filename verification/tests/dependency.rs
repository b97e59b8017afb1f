use lockfile_metadata::dependency::{
    dep_spec_to_json, parse_dep_table, parse_single_dep, DepKind, DepSpec,
};
use lockfile_metadata::json::to_serde_json;
use lockfile_metadata::toml_value::{parse_toml, Toml};

fn toml(text: &str) -> Toml {
    parse_toml(text).unwrap()
}

fn dep(text: &str, workspace: Option<&str>) -> DepSpec {
    let document = toml(text);
    let shared = workspace.map(toml);
    parse_single_dep("dep", document.get("dep").unwrap(), shared.as_ref())
}

#[test]
fn dependency_by_version_alone() {
    let spec = dep("dep = \"1.0\"", None);
    assert_eq!(spec.name, "dep");
    assert_eq!(spec.package, None);
    assert_eq!(spec.version_req, "1.0");
    assert!(!spec.optional);
    assert!(spec.default_features);
    assert!(spec.features.is_empty());
    assert_eq!(spec.source, None);
    assert_eq!(spec.package_name(), "dep");
}

#[test]
fn dependency_by_table() {
    let spec = dep(
        r#"dep = { package = "real", version = "^2", optional = true, default-features = false, features = ["a", 1, "b"] }"#,
        None,
    );
    assert_eq!(spec.name, "dep");
    assert_eq!(spec.package, Some("real".to_string()));
    assert_eq!(spec.version_req, "^2");
    assert!(spec.optional);
    assert!(!spec.default_features);
    assert_eq!(spec.features, vec!["a", "b"]);
    assert_eq!(spec.source, None);
    assert_eq!(spec.package_name(), "real");

    let spec = dep("dep = { path = \"../dep\" }", None);
    assert_eq!(spec.version_req, "*");
    assert!(!spec.optional);
    assert!(spec.default_features);
}

#[test]
fn dependency_of_another_value() {
    let spec = dep("dep = 7", None);
    assert_eq!(spec.version_req, "*");
    assert!(spec.default_features);
}

#[test]
fn underscored_setting_counts_only_when_inherited() {
    assert!(dep("dep = { version = \"1\", default_features = false }", None).default_features);
    assert!(
        !dep(
            "dep = { workspace = true, default_features = false }",
            Some("dep = \"1\"")
        )
        .default_features
    );
}

#[test]
fn git_dependency_has_source_hint() {
    let source = |settings: &str| dep(&format!("dep = {{ {} }}", settings), None).source;
    assert_eq!(source("git = \"u\""), Some("git+u".to_string()));
    assert_eq!(
        source("git = \"u\", tag = \"t\", branch = \"b\", rev = \"r\""),
        Some("git+u?tag=t".to_string())
    );
    assert_eq!(
        source("git = \"u\", branch = \"b\", rev = \"r\""),
        Some("git+u?branch=b".to_string())
    );
    assert_eq!(
        source("git = \"u\", rev = \"r\""),
        Some("git+u?rev=r".to_string())
    );
    assert_eq!(source("tag = \"t\""), None);
}

#[test]
fn member_takes_dependency_over() {
    let shared = r#"dep = { package = "real", version = "3", features = ["a"], optional = true, git = "u" }"#;
    let spec = dep("dep = { workspace = true, features = [\"b\"] }", Some(shared));
    assert_eq!(spec.name, "dep");
    assert_eq!(spec.package, Some("real".to_string()));
    assert_eq!(spec.version_req, "3");
    assert_eq!(spec.features, vec!["a", "b"]);
    assert!(spec.optional);
    assert!(spec.default_features);
    assert_eq!(spec.source, Some("git+u".to_string()));

    let spec = dep(
        "dep = { workspace = true, optional = false, default-features = false }",
        Some(shared),
    );
    assert!(!spec.optional);
    assert!(!spec.default_features);
    assert_eq!(spec.features, vec!["a"]);
}

#[test]
fn missing_workspace_dependency_accepts_any_version() {
    let spec = dep("dep = { workspace = true, features = [\"b\"] }", Some("other = \"1\""));
    assert_eq!(spec.version_req, "*");
    assert!(spec.features.is_empty());
    assert_eq!(dep("dep = { workspace = true }", None).version_req, "*");
    // A declaration of the workspace cannot itself be taken over.
    let spec = dep(
        "dep = { workspace = true }",
        Some("dep = { workspace = true, version = \"1\" }"),
    );
    assert_eq!(spec.version_req, "*");
}

#[test]
fn setting_of_false_is_not_inherited() {
    let spec = dep(
        "dep = { workspace = false, version = \"1\" }",
        Some("dep = \"2\""),
    );
    assert_eq!(spec.version_req, "1");
}

#[test]
fn table_declares_one_dependency_per_key() {
    let document = toml("[dependencies]\nb = \"2\"\na = \"1\"");
    let deps = parse_dep_table(document.get("dependencies"), None);
    assert_eq!(deps.len(), 2);
    assert_eq!(deps[0].name, "a");
    assert_eq!(deps[0].version_req, "1");
    assert_eq!(deps[1].name, "b");
    assert!(parse_dep_table(None, None).is_empty());
    assert!(parse_dep_table(toml("x = 1").get("x"), None).is_empty());
}

#[test]
fn dependency_is_written() {
    let spec = dep("dep = { package = \"real\", version = \"1\", features = [\"f\"] }", None);
    let value = to_serde_json(dep_spec_to_json(&spec, DepKind::Build, Some("cfg(unix)")));
    assert_eq!(
        value.to_string(),
        [
            r#"{"features":["f"],"kind":"build","name":"real","optional":false,"registry":null,"#,
            r#""rename":"dep","req":"1","source":null,"target":"cfg(unix)","uses_default_features":true}"#,
        ]
        .concat()
    );
    let spec = dep("dep = { version = \"1\", git = \"u\" }", None);
    let value = to_serde_json(dep_spec_to_json(&spec, DepKind::Normal, None));
    assert!(value["kind"].is_null());
    assert!(value["rename"].is_null());
    assert!(value["target"].is_null());
    assert_eq!(value["name"], "dep");
    assert_eq!(value["source"], "git+u");
    let value = to_serde_json(dep_spec_to_json(&spec, DepKind::Dev, None));
    assert_eq!(value["kind"], "dev");
}

#[test]
fn keys_of_a_table_are_distinct() {
    // A key that occurs twice is no TOML.
    assert!(parse_toml("[dependencies]\na = \"1\"\na = \"2\"").is_err());
    let document = toml("[dependencies]\na = \"1\"\n\"a-b\" = \"2\"\na_b = \"3\"");
    let deps = parse_dep_table(document.get("dependencies"), None);
    let names: Vec<&str> = deps.iter().map(|dep| dep.name.as_str()).collect();
    assert_eq!(names, vec!["a", "a-b", "a_b"]);
}
