use lockfile_metadata::error::LockfileError;
use lockfile_metadata::lock::{
    make_package_id, parse_cargo_lock, parse_lock_dep_string, resolve_lock_dep, LockPackage,
};

#[test]
fn test_parse_lock_dep_string() {
    let (name, version, source) = parse_lock_dep_string("serde 1.0.123");
    assert_eq!(name, "serde");
    assert_eq!(version, "1.0.123");
    assert_eq!(source, None);

    let (name, version, source) = parse_lock_dep_string(
        "serde 1.0.123 (registry+https://github.com/rust-lang/crates.io-index)",
    );
    assert_eq!(name, "serde");
    assert_eq!(version, "1.0.123");
    assert_eq!(
        source,
        Some("registry+https://github.com/rust-lang/crates.io-index".to_string())
    );
}

#[test]
fn test_make_package_id() {
    let pkg = LockPackage {
        name: "serde".to_string(),
        version: "1.0.123".to_string(),
        source: Some("registry+https://github.com/rust-lang/crates.io-index".to_string()),
        checksum: None,
        dependencies: Vec::new(),
    };
    assert_eq!(
        make_package_id(&pkg),
        "serde 1.0.123 (registry+https://github.com/rust-lang/crates.io-index)"
    );

    let local_pkg = LockPackage {
        name: "my-crate".to_string(),
        version: "0.1.0".to_string(),
        source: None,
        checksum: None,
        dependencies: Vec::new(),
    };
    assert_eq!(make_package_id(&local_pkg), "path+file:///my-crate#0.1.0");
}

fn package(name: &str, version: &str, source: Option<&str>) -> LockPackage {
    LockPackage {
        name: name.to_string(),
        version: version.to_string(),
        source: source.map(String::from),
        checksum: None,
        dependencies: Vec::new(),
    }
}

#[test]
fn lock_file_is_read_in_order() {
    let packages = parse_cargo_lock(
        r#"
version = 3

[[package]]
name = "app"
version = "0.1.0"
dependencies = ["serde 1.0.0", 7, "toml"]

[[package]]
name = "serde"
version = "1.0.0"
source = "registry+https://example.org/index"
checksum = "abcd"
"#,
    )
    .unwrap();
    assert_eq!(packages.len(), 2);
    assert_eq!(packages[0].name, "app");
    assert_eq!(packages[0].version, "0.1.0");
    assert_eq!(packages[0].source, None);
    assert_eq!(packages[0].checksum, None);
    assert_eq!(packages[0].dependencies, vec!["serde 1.0.0", "toml"]);
    assert_eq!(packages[1].name, "serde");
    assert_eq!(
        packages[1].source,
        Some("registry+https://example.org/index".to_string())
    );
    assert_eq!(packages[1].checksum, Some("abcd".to_string()));
    assert!(packages[1].dependencies.is_empty());
}

#[test]
fn lock_file_that_is_not_toml_is_refused() {
    assert!(matches!(
        parse_cargo_lock("[[package"),
        Err(LockfileError::LockSyntax(_))
    ));
}

#[test]
fn lock_file_without_packages_is_refused() {
    assert!(matches!(
        parse_cargo_lock("version = 3"),
        Err(LockfileError::MissingPackages)
    ));
    assert!(matches!(
        parse_cargo_lock("package = \"serde\""),
        Err(LockfileError::MissingPackages)
    ));
}

#[test]
fn locked_package_needs_name_and_version() {
    assert!(matches!(
        parse_cargo_lock("[[package]]\nversion = \"1.0.0\""),
        Err(LockfileError::MissingName)
    ));
    match parse_cargo_lock("[[package]]\nname = \"serde\"\nversion = 1") {
        Err(LockfileError::MissingVersion(name)) => assert_eq!(name, "serde"),
        other => panic!("{:?}", other),
    }
    // The first package that is wrong decides.
    assert!(matches!(
        parse_cargo_lock("[[package]]\nname = \"a\"\n[[package]]\nversion = \"1.0.0\""),
        Err(LockfileError::MissingVersion(_))
    ));
}

#[test]
fn dep_string_with_name_only() {
    assert_eq!(
        parse_lock_dep_string("serde"),
        ("serde".to_string(), String::new(), None)
    );
    assert_eq!(
        parse_lock_dep_string(""),
        (String::new(), String::new(), None)
    );
}

#[test]
fn dep_string_source_keeps_spaces_and_loses_parentheses() {
    assert_eq!(
        parse_lock_dep_string("a 1 ((x y))"),
        (
            "a".to_string(),
            "1".to_string(),
            Some("x y".to_string())
        )
    );
}

#[test]
fn package_id_is_read_back_as_entry() {
    let pkg = package("serde", "1.0.0", Some("git+https://example.org/serde#abc"));
    assert_eq!(
        parse_lock_dep_string(&make_package_id(&pkg)),
        (pkg.name.clone(), pkg.version.clone(), pkg.source.clone())
    );
}

#[test]
fn package_ids_differ() {
    let local = package("a", "1", None);
    let registry = package("a", "1", Some("registry+x"));
    let git = package("a", "1", Some("git+x"));
    assert_ne!(make_package_id(&local), make_package_id(&registry));
    assert_ne!(make_package_id(&git), make_package_id(&registry));
    assert_ne!(make_package_id(&local), make_package_id(&package("a", "2", None)));
}

#[test]
fn entries_name_packages() {
    let packages = vec![
        package("a", "1.0.0", None),
        package("b", "1.0.0", Some("registry+x")),
        package("b", "2.0.0", Some("registry+x")),
        package("c", "1.0.0", Some("git+https://example.org/c?tag=v1#111")),
        package("c", "1.0.0", Some("git+https://example.org/c?tag=v2#222")),
    ];
    assert_eq!(resolve_lock_dep(&packages, "a"), Some(0));
    assert_eq!(resolve_lock_dep(&packages, "a 1.0.0"), Some(0));
    // A name that is not unique names the first package.
    assert_eq!(resolve_lock_dep(&packages, "b"), Some(1));
    assert_eq!(resolve_lock_dep(&packages, "b 2.0.0"), Some(2));
    assert_eq!(resolve_lock_dep(&packages, "b 1.0.0 (registry+x)"), Some(1));
    // The commit may be left out.
    assert_eq!(
        resolve_lock_dep(&packages, "c 1.0.0 (git+https://example.org/c?tag=v1)"),
        Some(3)
    );
    assert_eq!(
        resolve_lock_dep(&packages, "c 1.0.0 (git+https://example.org/c?tag=v2)"),
        Some(4)
    );
    assert_eq!(
        resolve_lock_dep(&packages, "c 1.0.0 (git+https://example.org/c?tag=v2#222)"),
        Some(4)
    );
    // An unknown source is passed over.
    assert_eq!(resolve_lock_dep(&packages, "b 2.0.0 (registry+y)"), Some(2));
    assert_eq!(resolve_lock_dep(&packages, "c 1.0.0"), Some(3));
    assert_eq!(resolve_lock_dep(&packages, "b 3.0.0"), None);
    assert_eq!(resolve_lock_dep(&packages, "d"), None);
}

#[test]
fn local_package_is_preferred_to_unknown_source() {
    let packages = vec![
        package("a", "1.0.0", Some("registry+x")),
        package("a", "1.0.0", None),
    ];
    assert_eq!(resolve_lock_dep(&packages, "a 1.0.0 (registry+y)"), Some(1));
    assert_eq!(resolve_lock_dep(&packages, "a 1.0.0"), Some(1));
}

#[test]
fn last_package_of_a_key_counts() {
    let packages = vec![
        package("a", "1.0.0", Some("git+u?tag=t#1")),
        package("a", "1.0.0", Some("git+u?tag=t#2")),
    ];
    assert_eq!(resolve_lock_dep(&packages, "a 1.0.0 (git+u?tag=t)"), Some(1));
}
