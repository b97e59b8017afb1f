use lockfile_metadata::error::LockfileError;
use lockfile_metadata::json::{make_object, make_text, to_serde_json, Json};
use lockfile_metadata::lock::{parse_cargo_lock, LockPackage};
use lockfile_metadata::manifest::{read_manifest, CrateFiles, ManifestData};
use lockfile_metadata::metadata::{
    build_document, build_metadata, list_member_ids, metadata_from_document, PackageInput,
};
use lockfile_metadata::package::package_targets;
use lockfile_metadata::workspace::WorkspaceMember;

const LOCK: &str = r#"
[[package]]
name = "app"
version = "0.1.0"
dependencies = ["helper", "my-dep 1.0.0", "gone"]

[[package]]
name = "helper"
version = "0.2.0"

[[package]]
name = "my-dep"
version = "1.0.0"
source = "registry+https://github.com/rust-lang/crates.io-index"
"#;

const FILES: CrateFiles = CrateFiles {
    build_rs: false,
    src: true,
    lib_rs: true,
    main_rs: false,
};

fn input(pkg: &LockPackage, manifest: Option<ManifestData>) -> PackageInput {
    let dir = format!("/w/{}", pkg.name);
    let src_paths = package_targets(pkg, &manifest)
        .iter()
        .map(|target| format!("{}/{}", dir, target.path))
        .collect();
    PackageInput {
        manifest,
        manifest_path: format!("{}/Cargo.toml", dir),
        src_paths,
    }
}

fn member(name: &str, entry: usize) -> WorkspaceMember {
    WorkspaceMember {
        name: name.to_string(),
        entry,
    }
}

fn document(members: &Vec<WorkspaceMember>) -> (Json, Vec<Vec<String>>) {
    let packages = parse_cargo_lock(LOCK).unwrap();
    let manifest = read_manifest(
        "[package]\nedition = \"2021\"\n[dependencies]\nhelper = { path = \"../helper\" }\nrenamed = { package = \"my-dep\", version = \"1\" }",
        None,
        None,
        &FILES,
    )
    .unwrap();
    let inputs = vec![
        input(&packages[0], Some(manifest)),
        input(&packages[1], None),
        input(&packages[2], None),
    ];
    build_document(&packages, members, &inputs, "/w", "/w/target")
}

#[test]
fn document_is_written() {
    let (value, missing) = document(&vec![member("app", 0)]);
    assert_eq!(missing.len(), 3);
    assert_eq!(missing[0], vec!["gone"]);
    assert!(missing[1].is_empty());
    assert!(missing[2].is_empty());
    let value = to_serde_json(value);
    assert_eq!(value["version"], 1);
    assert_eq!(value["packages"].as_array().unwrap().len(), 3);
    assert_eq!(value["packages"][1]["name"], "helper");
    assert!(value["packages"][1]["source"].is_null());
    assert_eq!(
        value["packages"][2]["source"],
        "registry+https://github.com/rust-lang/crates.io-index"
    );
    assert_eq!(
        value["workspace_members"].to_string(),
        r#"["path+file:///app#0.1.0","path+file:///helper#0.2.0"]"#
    );
    assert_eq!(value["workspace_root"], "/w");
    assert_eq!(value["target_directory"], "/w/target");
    assert!(value["resolve"]["root"].is_null());
    assert_eq!(value["resolve"]["nodes"].as_array().unwrap().len(), 3);
    assert_eq!(value["resolve"]["nodes"][0]["deps"][1]["name"], "renamed");
}

#[test]
fn document_becomes_metadata() {
    let (value, _) = document(&vec![member("app", 0)]);
    let metadata = metadata_from_document(value).unwrap();
    assert_eq!(metadata.packages.len(), 3);
    assert_eq!(metadata.packages[0].name, "app");
    assert_eq!(metadata.packages[0].edition.as_str(), "2021");
    assert_eq!(metadata.packages[0].targets[0].src_path, "/w/app/src/lib.rs");
    assert_eq!(metadata.packages[2].version.to_string(), "1.0.0");
    assert_eq!(metadata.packages[0].dependencies[1].name, "my-dep");
    assert_eq!(
        metadata.packages[0].dependencies[1].rename,
        Some("renamed".to_string())
    );
    assert_eq!(metadata.workspace_members.len(), 2);
    assert_eq!(metadata.workspace_root, "/w");
    let resolve = metadata.resolve.unwrap();
    assert_eq!(resolve.root, None);
    assert_eq!(resolve.nodes.len(), 3);
    // What a node depends on is a package of the document.
    for node in &resolve.nodes {
        for dep in &node.deps {
            assert!(metadata.packages.iter().any(|pkg| pkg.id == dep.pkg));
        }
    }
}

#[test]
fn document_of_another_shape_is_refused() {
    assert!(matches!(
        metadata_from_document(make_object(vec![("version".to_string(), make_text("1"))])),
        Err(LockfileError::Document(_))
    ));
}

#[test]
fn local_packages_and_listed_members_are_members() {
    let packages = parse_cargo_lock(LOCK).unwrap();
    assert_eq!(
        list_member_ids(&packages, &vec![]),
        vec!["path+file:///app#0.1.0", "path+file:///helper#0.2.0"]
    );
    assert_eq!(list_member_ids(&packages, &vec![member("my-dep", 0)]).len(), 3);
}

#[test]
fn only_member_is_the_root() {
    let packages = parse_cargo_lock("[[package]]\nname = \"app\"\nversion = \"0.1.0\"").unwrap();
    let inputs = vec![input(&packages[0], None)];
    let (metadata, missing) =
        build_metadata(&packages, &vec![member("app", 0)], &inputs, "/w", "/t");
    let metadata = metadata.unwrap();
    assert_eq!(missing, vec![Vec::<String>::new()]);
    let root = metadata.resolve.unwrap().root.unwrap();
    assert_eq!(root.repr, "path+file:///app#0.1.0");
    assert_eq!(metadata.target_directory, "/t");
}

#[test]
fn later_field_of_an_object_counts() {
    let value = make_object(vec![
        ("k".to_string(), make_text("first")),
        ("b".to_string(), Json::Bool(true)),
        ("k".to_string(), make_text("second")),
    ]);
    assert_eq!(to_serde_json(value).to_string(), r#"{"b":true,"k":"second"}"#);
}

#[test]
fn package_without_a_version_number_is_refused() {
    let packages = parse_cargo_lock("[[package]]\nname = \"app\"\nversion = \"x\"").unwrap();
    let inputs = vec![input(&packages[0], None)];
    let (metadata, _) = build_metadata(&packages, &vec![], &inputs, "/w", "/t");
    assert!(matches!(metadata, Err(LockfileError::Document(_))));
}
