use lockfile_metadata::assignment::assign;
use lockfile_metadata::dependency::{DeclaredDep, DepKind, DepSpec};
use lockfile_metadata::json::to_serde_json;
use lockfile_metadata::lock::LockPackage;
use lockfile_metadata::node::{
    build_node, build_node_json, build_node_with, find_deps, score_pair,
};

fn package(name: &str, version: &str, source: Option<&str>, deps: &[&str]) -> LockPackage {
    LockPackage {
        name: name.to_string(),
        version: version.to_string(),
        source: source.map(String::from),
        checksum: None,
        dependencies: deps.iter().map(|d| d.to_string()).collect(),
    }
}

fn declared(key: &str, package: Option<&str>, req: &str, source: Option<&str>) -> DeclaredDep {
    DeclaredDep {
        spec: DepSpec {
            name: key.to_string(),
            package: package.map(String::from),
            version_req: req.to_string(),
            optional: false,
            default_features: true,
            features: Vec::new(),
            source: source.map(String::from),
        },
        kind: DepKind::Normal,
        target: None,
    }
}

#[test]
fn assignment_takes_the_highest_scores_first() {
    assert_eq!(assign(&vec![vec![1, 5], vec![2, 9]], 2), vec![0, 1]);
    assert_eq!(assign(&vec![vec![3, 8, 1], vec![2, 9, 4]], 3), vec![0, 1]);
    assert_eq!(assign(&vec![vec![0, 7], vec![0, 6]], 2), vec![1, 0]);
    assert_eq!(assign(&vec![], 2), Vec::<usize>::new());
}

#[test]
fn assignment_breaks_ties_by_position() {
    assert_eq!(assign(&vec![vec![0, 0], vec![0, 0]], 2), vec![0, 1]);
    assert_eq!(assign(&vec![vec![5, 5, 5], vec![5, 5, 5]], 3), vec![0, 1]);
    assert_eq!(assign(&vec![vec![1, 2], vec![2, 2]], 2), vec![1, 0]);
}

#[test]
fn scores_of_declarations() {
    let score = |req: &str, declared_source: Option<&str>, version: &str, source: Option<&str>, admits: bool| {
        score_pair(
            &declared("p", None, req, declared_source).spec,
            &package("p", version, source, &[]),
            admits,
        )
    };
    let registry = Some("registry+x");
    // The version.
    assert_eq!(score("1", None, "1.0.0", registry, true), 280);
    assert_eq!(score("1", None, "1.0.0", registry, false), 80);
    assert_eq!(score("=1.0.0", None, "1.0.0", registry, false), 280);
    assert_eq!(score("*", None, "1.0.0", registry, true), 80);
    assert_eq!(score("1", None, "", registry, true), 80);
    // The source, where the declaration has none.
    assert_eq!(score("*", None, "1.0.0", Some("sparse+x"), false), 80);
    assert_eq!(score("*", None, "1.0.0", Some("git+u"), false), 20);
    assert_eq!(score("*", None, "1.0.0", Some("git+u?tag=hard_fork"), false), 0);
    assert_eq!(score("*", None, "1.0.0", None, false), 0);
    // The source, where the declaration has one.
    assert_eq!(score("*", Some("git+u?tag=t"), "1.0.0", Some("git+u?tag=t#c"), false), 100);
    assert_eq!(score("*", Some("git+u?tag=t"), "1.0.0", Some("git+u?tag=t"), false), 100);
    assert_eq!(score("*", Some("git+u?tag=t"), "1.0.0", Some("git+u?tag=t2#c"), false), 100);
    assert_eq!(score("*", Some("git+u?tag=hard-fork-test"), "1.0.0", Some("git+v?tag=hard_fork"), false), 50);
    assert_eq!(score("*", Some("git+u?tag=s"), "1.0.0", Some("git+u?tag=t"), false), 30);
    assert_eq!(score("*", Some("git+u?tag=hard_fork"), "1.0.0", Some("git+u?tag=t"), false), 0);
    assert_eq!(score("*", Some("git+u"), "1.0.0", None, false), 0);
}

#[test]
fn entries_are_found_or_missing() {
    let packages = vec![package("a", "1.0.0", None, &[]), package("b", "1.0.0", None, &[])];
    let entries = vec!["b".to_string(), "c 1.0.0".to_string(), "a".to_string()];
    let (found, missing) = find_deps(&packages, &entries);
    assert_eq!(found, vec![1, 0]);
    assert_eq!(missing, vec!["c 1.0.0"]);
}

#[test]
fn node_of_a_package() {
    let packages = vec![
        package("app", "0.1.0", None, &["my-dep", "other 2.0.0", "gone"]),
        package("my-dep", "1.0.0", Some("registry+x"), &[]),
        package("other", "2.0.0", Some("registry+x"), &[]),
    ];
    let specs = vec![
        declared("my-dep", None, "1", None),
        declared("new-name", Some("other"), "2", None),
    ];
    let (node, missing) = build_node(&packages[0], &specs, &packages);
    assert_eq!(node.id, "path+file:///app#0.1.0");
    assert_eq!(
        node.dependencies,
        vec!["my-dep 1.0.0 (registry+x)", "other 2.0.0 (registry+x)"]
    );
    assert_eq!(node.deps.len(), 2);
    assert_eq!(node.deps[0].name, "my_dep");
    assert_eq!(node.deps[0].pkg, node.dependencies[0]);
    assert_eq!(node.deps[1].name, "new_name");
    assert_eq!(node.deps[1].pkg, node.dependencies[1]);
    assert_eq!(missing, vec!["gone"]);
}

#[test]
fn versions_of_one_package_are_told_apart() {
    let packages = vec![
        package("app", "0.1.0", None, &["yamux 0.13.3", "yamux 0.12.1"]),
        package("yamux", "0.12.1", Some("registry+x"), &[]),
        package("yamux", "0.13.3", Some("registry+x"), &[]),
    ];
    let specs = vec![
        declared("yamux012", Some("yamux"), "0.12", None),
        declared("yamux013", Some("yamux"), "0.13", None),
    ];
    let (node, _) = build_node(&packages[0], &specs, &packages);
    assert_eq!(node.deps[0].pkg, "yamux 0.13.3 (registry+x)");
    assert_eq!(node.deps[0].name, "yamux013");
    assert_eq!(node.deps[1].pkg, "yamux 0.12.1 (registry+x)");
    assert_eq!(node.deps[1].name, "yamux012");
    assert_eq!(node.deps[0].dep_kinds.len(), 2);
}

#[test]
fn declarations_of_one_package_are_assigned_once_each() {
    // Both dependencies would take the first declaration for themselves.
    let packages = vec![
        package("app", "0.1.0", None, &["p 1.0.0", "p 1.1.0"]),
        package("p", "1.0.0", Some("registry+x"), &[]),
        package("p", "1.1.0", Some("registry+x"), &[]),
    ];
    let specs = vec![
        declared("first", Some("p"), "1", None),
        declared("second", Some("p"), "1", None),
    ];
    let (node, _) = build_node(&packages[0], &specs, &packages);
    assert_eq!(node.deps[0].name, "first");
    assert_eq!(node.deps[1].name, "second");
    // With too few declarations each dependency takes its own best one.
    let specs = vec![declared("first", Some("p"), "1", None)];
    let (node, _) = build_node(&packages[0], &specs, &packages);
    assert_eq!(node.deps[0].name, "first");
    assert_eq!(node.deps[1].name, "first");
}

#[test]
fn assigned_declaration_without_rename_gives_package_name() {
    let packages = vec![
        package("app", "0.1.0", None, &["my-p 1.0.0", "my-p 2.0.0"]),
        package("my-p", "1.0.0", Some("registry+x"), &[]),
        package("my-p", "2.0.0", Some("registry+x"), &[]),
    ];
    let specs = vec![
        declared("my-p", None, "1", None),
        declared("old-p", Some("my-p"), "2", None),
    ];
    let (node, _) = build_node(&packages[0], &specs, &packages);
    assert_eq!(node.deps[0].name, "my_p");
    assert_eq!(node.deps[1].name, "old_p");
}

#[test]
fn node_with_given_verdicts() {
    let packages = vec![
        package("app", "0.1.0", None, &["p 1.0.0", "p 2.0.0"]),
        package("p", "1.0.0", Some("registry+x"), &[]),
        package("p", "2.0.0", Some("registry+x"), &[]),
    ];
    let specs = vec![
        declared("a", Some("p"), "x", None),
        declared("b", Some("p"), "y", None),
    ];
    let found = vec![1, 2];
    let node = build_node_with(
        &packages[0],
        &specs,
        &packages,
        &found,
        &vec![vec![false, true], vec![true, false]],
    );
    assert_eq!(node.deps[0].name, "b");
    assert_eq!(node.deps[1].name, "a");
}

#[test]
fn node_is_written() {
    let packages = vec![
        package("app", "0.1.0", None, &["dep"]),
        package("dep", "1.0.0", None, &[]),
    ];
    let mut spec = declared("dep", None, "1", None);
    spec.kind = DepKind::Dev;
    spec.target = Some("cfg(unix)".to_string());
    let (value, missing) = build_node_json(&packages[0], &vec![spec], &packages);
    assert!(missing.is_empty());
    assert_eq!(
        to_serde_json(value).to_string(),
        [
            r#"{"dependencies":["path+file:///dep#1.0.0"],"#,
            r#""deps":[{"dep_kinds":[{"kind":"dev","target":"cfg(unix)"}],"#,
            r#""name":"dep","pkg":"path+file:///dep#1.0.0"}],"#,
            r#""features":[],"id":"path+file:///app#0.1.0"}"#,
        ]
        .concat()
    );
}

/// The names of the dependencies on two releases of `foo` by their tags, in that
/// order, with a declaration for each tag.
fn names_by_tag(first: &str, second: &str, declared_tags: [&str; 2], req: &str) -> Vec<String> {
    let source = |tag: &str| format!("git+https://h/r?tag={}", tag);
    let entry = |tag: &str| format!("foo 1.0.0 ({})", source(tag));
    let entries = [entry(first), entry(second)];
    let packages = vec![
        package("app", "0.1.0", None, &[entries[0].as_str(), entries[1].as_str()]),
        package("foo", "1.0.0", Some(&format!("{}#b", source(first))), &[]),
        package("foo", "1.0.0", Some(&format!("{}#c", source(second))), &[]),
    ];
    let specs = declared_tags
        .iter()
        .map(|tag| declared(&format!("foo-{}", tag), Some("foo"), req, Some(&source(tag))))
        .collect();
    let (node, missing) = build_node(&packages[0], &specs, &packages);
    assert!(missing.is_empty());
    node.deps.iter().map(|dep| dep.name.clone()).collect()
}

#[test]
fn sources_of_one_package_are_told_apart() {
    for req in ["*", "1"] {
        assert_eq!(names_by_tag("a", "b", ["b", "a"], req), vec!["foo_a", "foo_b"]);
        assert_eq!(names_by_tag("b", "a", ["b", "a"], req), vec!["foo_b", "foo_a"]);
        assert_eq!(names_by_tag("v1", "v10", ["v1", "v10"], req), vec!["foo_v1", "foo_v10"]);
    }
}

#[test]
fn equal_scores_of_sources_go_by_position() {
    // The source of tag v10 starts with that of tag v1: both score the same.
    assert_eq!(names_by_tag("v10", "v1", ["v1", "v10"], "*"), vec!["foo_v1", "foo_v10"]);
    assert_eq!(names_by_tag("v10", "v1", ["v10", "v1"], "*"), vec!["foo_v10", "foo_v1"]);
}
