use lockfile_metadata::dependency::DepKind;
use lockfile_metadata::manifest::{
    parse_bin_targets, parse_lib_target, read_manifest, CrateFiles, ManifestData,
};
use lockfile_metadata::toml_value::parse_toml;

const NOTHING: CrateFiles = CrateFiles {
    build_rs: false,
    src: false,
    lib_rs: false,
    main_rs: false,
};

fn read(text: &str, workspace: &str, files: CrateFiles) -> ManifestData {
    let root = parse_toml(workspace).unwrap();
    read_manifest(text, root.get("package"), root.get("dependencies"), &files).unwrap()
}

#[test]
fn manifest_is_read() {
    let data = read(
        r#"
[package]
name = "demo"
edition = "2021"
authors = ["A", "B"]
links = "z"
default-run = "tool"
build = "other.rs"

[features]
default = ["x"]
x = []

[dependencies]
serde = "1"

[build-dependencies]
cc = "1.1"

[dev-dependencies]
tempdir = "0.3"

[target.'cfg(unix)'.dependencies]
libc = "0.2"

[target.'cfg(unix)'.build-dependencies]
pkg = "0.3"

[target.'cfg(windows)'.dev-dependencies]
win = "0.4"
"#,
        "",
        NOTHING,
    );
    assert_eq!(data.edition, "2021");
    assert_eq!(data.authors, vec!["A", "B"]);
    assert_eq!(data.links, Some("z".to_string()));
    assert_eq!(data.default_run, Some("tool".to_string()));
    assert!(data.has_build_rs);
    assert_eq!(data.build_script_path, Some("other.rs".to_string()));
    assert_eq!(data.features.len(), 2);
    assert_eq!(data.normal_deps.len(), 1);
    assert_eq!(data.normal_deps[0].name, "serde");
    assert_eq!(data.build_deps[0].name, "cc");
    assert_eq!(data.dev_deps[0].name, "tempdir");
    assert_eq!(data.target_deps.len(), 3);
    assert_eq!(data.target_deps[0].target, "cfg(unix)");
    assert_eq!(data.target_deps[0].kind, DepKind::Normal);
    assert_eq!(data.target_deps[0].deps[0].name, "libc");
    assert_eq!(data.target_deps[1].target, "cfg(unix)");
    assert_eq!(data.target_deps[1].kind, DepKind::Build);
    assert_eq!(data.target_deps[2].target, "cfg(windows)");
    assert_eq!(data.target_deps[2].kind, DepKind::Dev);
}

#[test]
fn settings_are_taken_from_the_workspace() {
    let workspace = r#"
[package]
edition = "2018"
authors = ["W"]

[dependencies]
serde = { version = "1.2", features = ["derive"] }
"#;
    let data = read(
        r#"
[package]
name = "demo"
edition = { workspace = true }
authors = { workspace = true }

[dependencies]
serde = { workspace = true, features = ["std"] }
"#,
        workspace,
        NOTHING,
    );
    assert_eq!(data.edition, "2018");
    assert_eq!(data.authors, vec!["W"]);
    assert_eq!(data.normal_deps[0].version_req, "1.2");
    assert_eq!(data.normal_deps[0].features, vec!["derive", "std"]);
}

#[test]
fn edition_has_a_default() {
    assert_eq!(read("", "", NOTHING).edition, "2015");
    assert_eq!(read("[package]\nedition = \"\"", "", NOTHING).edition, "2015");
    assert_eq!(
        read("[package]\nedition = { workspace = true }", "", NOTHING).edition,
        "2015"
    );
    assert_eq!(read("[package]\nedition = 2021", "", NOTHING).edition, "2015");
}

#[test]
fn build_script_by_setting_or_file() {
    let with_file = CrateFiles {
        build_rs: true,
        ..NOTHING
    };
    assert!(read("", "", with_file).has_build_rs);
    assert!(!read("", "", NOTHING).has_build_rs);
    assert!(!read("[package]\nbuild = false", "", with_file).has_build_rs);
    assert!(read("[package]\nbuild = true", "", NOTHING).has_build_rs);
    assert!(!read("[package]\nbuild = \"\"", "", with_file).has_build_rs);
    assert!(!read("[package]\nbuild = 1", "", with_file).has_build_rs);
    assert_eq!(read("", "", with_file).build_script_path, None);
}

#[test]
fn library_by_table_or_files() {
    let lib = parse_lib_target(
        &parse_toml("[lib]\nname = \"n\"\npath = \"p.rs\"\ncrate-type = [\"cdylib\", \"rlib\"]").unwrap(),
        &CrateFiles { src: true, ..NOTHING },
    );
    assert_eq!(lib.has_lib, Some(true));
    assert_eq!(lib.name, Some("n".to_string()));
    assert_eq!(lib.path, Some("p.rs".to_string()));
    assert_eq!(lib.crate_types, vec!["cdylib", "rlib"]);
    assert!(!lib.is_proc_macro);

    let empty = parse_toml("").unwrap();
    assert_eq!(parse_lib_target(&empty, &NOTHING).has_lib, Some(true));
    let sources = CrateFiles { src: true, ..NOTHING };
    assert_eq!(parse_lib_target(&empty, &sources).has_lib, None);
    let library = CrateFiles {
        src: true,
        lib_rs: true,
        ..NOTHING
    };
    assert_eq!(parse_lib_target(&empty, &library).has_lib, Some(true));
}

#[test]
fn procedural_macro_by_setting_or_crate_type() {
    let is_macro = |text: &str| parse_lib_target(&parse_toml(text).unwrap(), &NOTHING).is_proc_macro;
    assert!(is_macro("[lib]\nproc-macro = true"));
    assert!(is_macro("[lib]\nproc_macro = true"));
    assert!(is_macro("[lib]\ncrate_type = [\"proc-macro\"]"));
    assert!(!is_macro("[lib]\nproc-macro = false\nproc_macro = true"));
    assert!(!is_macro("[lib]\nproc-macro = \"yes\""));
}

#[test]
fn programs_by_tables_or_file() {
    let with_main = CrateFiles {
        main_rs: true,
        ..NOTHING
    };
    let bins = |text: &str, files: &CrateFiles| parse_bin_targets(&parse_toml(text).unwrap(), files);
    assert_eq!(
        bins("[[bin]]\nname = \"a\"\npath = \"a.rs\"\n[[bin]]\n", &with_main),
        vec![
            ("a".to_string(), "a.rs".to_string()),
            ("unknown".to_string(), "src/main.rs".to_string())
        ]
    );
    assert_eq!(
        bins("[package]\nname = \"demo\"", &with_main),
        vec![("demo".to_string(), "src/main.rs".to_string())]
    );
    assert_eq!(
        bins("", &with_main),
        vec![("unknown".to_string(), "src/main.rs".to_string())]
    );
    assert!(bins("[package]\nname = \"demo\"", &NOTHING).is_empty());
}
