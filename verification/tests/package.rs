use lockfile_metadata::json::to_serde_json;
use lockfile_metadata::lock::LockPackage;
use lockfile_metadata::manifest::{read_manifest, CrateFiles, ManifestData};
use lockfile_metadata::package::{build_package_json, list_declared_deps, package_targets};

fn package(name: &str, deps: &[&str]) -> LockPackage {
    LockPackage {
        name: name.to_string(),
        version: "1.2.3".to_string(),
        source: None,
        checksum: None,
        dependencies: deps.iter().map(|d| d.to_string()).collect(),
    }
}

fn manifest(text: &str, files: CrateFiles) -> Option<ManifestData> {
    Some(read_manifest(text, None, None, &files).unwrap())
}

const SOURCES_ONLY: CrateFiles = CrateFiles {
    build_rs: false,
    src: true,
    lib_rs: false,
    main_rs: false,
};

#[test]
fn package_without_manifest_builds_a_library() {
    let targets = package_targets(&package("my-lib", &[]), &None);
    assert_eq!(targets.len(), 1);
    assert_eq!(targets[0].kind, vec!["lib"]);
    assert_eq!(targets[0].crate_types, vec!["lib"]);
    assert_eq!(targets[0].name, "my_lib");
    assert_eq!(targets[0].path, "src/lib.rs");
    assert!(targets[0].doctest);
}

#[test]
fn package_that_builds_nothing_builds_a_library() {
    let targets = package_targets(&package("my-lib", &[]), &manifest("", SOURCES_ONLY));
    assert_eq!(targets.len(), 1);
    assert_eq!(targets[0].name, "my_lib");
}

#[test]
fn targets_of_a_manifest() {
    let files = CrateFiles {
        build_rs: true,
        src: true,
        lib_rs: true,
        main_rs: true,
    };
    let targets = package_targets(
        &package("my-lib", &[]),
        &manifest("[package]\nname = \"my-lib\"", files),
    );
    assert_eq!(targets.len(), 3);
    assert_eq!(targets[0].kind, vec!["lib"]);
    assert_eq!(targets[0].name, "my_lib");
    assert_eq!(targets[1].kind, vec!["custom-build"]);
    assert_eq!(targets[1].crate_types, vec!["bin"]);
    assert_eq!(targets[1].name, "build-script-build");
    assert_eq!(targets[1].path, "build.rs");
    assert!(!targets[1].doctest);
    assert_eq!(targets[2].kind, vec!["bin"]);
    assert_eq!(targets[2].name, "my-lib");
    assert_eq!(targets[2].path, "src/main.rs");
    assert!(!targets[2].doctest);
}

#[test]
fn library_of_a_manifest() {
    let lib = |text: &str| package_targets(&package("p", &[]), &manifest(text, SOURCES_ONLY));
    let targets = lib("[lib]\nname = \"the-lib\"\npath = \"lib.rs\"\ncrate-type = [\"cdylib\", \"rlib\"]");
    assert_eq!(targets.len(), 1);
    assert_eq!(targets[0].kind, vec!["cdylib", "rlib"]);
    assert_eq!(targets[0].crate_types, vec!["cdylib", "rlib"]);
    assert_eq!(targets[0].name, "the_lib");
    assert_eq!(targets[0].path, "lib.rs");
    let targets = lib("[lib]\nproc-macro = true\ncrate-type = [\"rlib\"]");
    assert_eq!(targets[0].kind, vec!["proc-macro"]);
}

#[test]
fn declared_dependencies_of_a_manifest() {
    let text = "[dev-dependencies]\nd = \"1\"\n[dependencies]\nn = \"1\"\n[build-dependencies]\nb = \"1\"\n[target.x.dependencies]\nt = \"1\"";
    let list = list_declared_deps(&package("p", &["ignored"]), &manifest(text, SOURCES_ONLY));
    let names: Vec<&str> = list.iter().map(|dep| dep.spec.name.as_str()).collect();
    assert_eq!(names, vec!["n", "b", "d", "t"]);
    assert_eq!(list[3].target, Some("x".to_string()));
    assert_eq!(list[0].target, None);
}

#[test]
fn declared_dependencies_of_a_lock_file() {
    let list = list_declared_deps(&package("p", &["a 1.0.0 (registry+x)", "b"]), &None);
    assert_eq!(list.len(), 2);
    assert_eq!(list[0].spec.name, "a");
    assert_eq!(list[0].spec.version_req, "=1.0.0");
    assert_eq!(list[0].spec.source, Some("registry+x".to_string()));
    assert_eq!(list[1].spec.version_req, "*");
    assert_eq!(list[1].spec.source, None);
}

#[test]
fn package_is_written() {
    let (value, deps) = build_package_json(
        &package("p", &["a 1.0.0"]),
        &None,
        "/w/Cargo.toml",
        &vec!["/w/src/lib.rs".to_string()],
    );
    assert_eq!(deps.len(), 1);
    let value = to_serde_json(value);
    assert_eq!(value["name"], "p");
    assert_eq!(value["version"], "1.2.3");
    assert_eq!(value["id"], "path+file:///p#1.2.3");
    assert!(value["source"].is_null());
    assert_eq!(value["dependencies"][0]["req"], "=1.0.0");
    assert_eq!(value["targets"][0]["src_path"], "/w/src/lib.rs");
    assert_eq!(value["targets"][0]["edition"], "2015");
    assert_eq!(value["features"].to_string(), "{}");
    assert_eq!(value["manifest_path"], "/w/Cargo.toml");
    assert_eq!(value["edition"], "2015");
    assert_eq!(value["authors"].to_string(), "[]");
    assert!(value["links"].is_null());

    let text = "[package]\nedition = \"2021\"\nauthors = [\"A\"]\nlinks = \"z\"\n[features]\nf = [\"g\"]\n[lib]";
    let (value, _) = build_package_json(
        &package("p", &[]),
        &manifest(text, SOURCES_ONLY),
        "/w/Cargo.toml",
        &vec!["/w/src/lib.rs".to_string()],
    );
    let value = to_serde_json(value);
    assert_eq!(value["edition"], "2021");
    assert_eq!(value["authors"].to_string(), r#"["A"]"#);
    assert_eq!(value["links"], "z");
    assert_eq!(value["features"].to_string(), r#"{"f":["g"]}"#);
}
