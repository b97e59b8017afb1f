use lockfile_metadata::error::LockfileError;
use lockfile_metadata::git_source::{
    build_git_source_index, source_matches_mapping, GitSourceMapping,
};
use lockfile_metadata::lock::LockPackage;
use std::path::PathBuf;

#[test]
fn test_source_matches_mapping() {
    assert!(source_matches_mapping(
        "https://github.com/user/repo?tag=v1.0#abc123",
        "https://github.com/user/repo",
        "abc123"
    ));

    assert!(source_matches_mapping(
        "https://github.com/user/repo.git?tag=v1.0#abc123",
        "https://github.com/user/repo",
        "abc123"
    ));

    assert!(!source_matches_mapping(
        "https://github.com/user/repo?tag=v1.0#abc123",
        "https://github.com/user/repo",
        "def456"
    ));
}

#[test]
fn source_matches_whatever_the_case() {
    assert!(source_matches_mapping(
        "https://GitHub.com/User/Repo#abc123",
        "https://github.com/user/repo",
        "abc123"
    ));
    assert!(source_matches_mapping(
        "https://github.com/user/repo#abc123",
        "HTTPS://GITHUB.COM/USER/REPO",
        "abc123"
    ));
    // The commit is compared as it is written.
    assert!(!source_matches_mapping(
        "https://github.com/user/repo#ABC123",
        "https://github.com/user/repo",
        "abc123"
    ));
}

#[test]
fn source_matches_with_slashes_and_git_suffix() {
    assert!(source_matches_mapping("u/r#1", "u/r//", "1"));
    assert!(source_matches_mapping("u/r#1", "u/r.git/", "1"));
    assert!(source_matches_mapping("u/r/?x#1", "u/r", "1"));
    assert!(source_matches_mapping("u/r.git#1", "u/r.git", "1"));
    assert!(!source_matches_mapping("u/r.git.git#1", "u/r", "1"));
    assert!(!source_matches_mapping("u/other#1", "u/r", "1"));
    assert!(!source_matches_mapping("u/r", "u/r", ""));
    assert!(source_matches_mapping("u/r#", "u/r", ""));
}

#[test]
fn mapping_is_parsed() {
    let mapping = GitSourceMapping::parse("https://example.org/repo#abc=/nix/store/x").unwrap();
    assert_eq!(mapping.url, "https://example.org/repo");
    assert_eq!(mapping.rev, "abc");
    assert_eq!(mapping.local_path, PathBuf::from("/nix/store/x"));
    // The last `=` and the last `#` before it count.
    let mapping = GitSourceMapping::parse("u?a=b#c#d=p#q").unwrap();
    assert_eq!(mapping.url, "u?a=b#c");
    assert_eq!(mapping.rev, "d");
    assert_eq!(mapping.local_path, PathBuf::from("p#q"));
    let copy = mapping.clone();
    assert_eq!(copy.url, mapping.url);
    assert_eq!(copy.local_path, mapping.local_path);
}

#[test]
fn mapping_of_another_form_is_refused() {
    for text in ["", "url", "url#rev", "url=path", "url=path#rev"] {
        match GitSourceMapping::parse(text) {
            Err(LockfileError::InvalidGitSource(given)) => assert_eq!(given, text),
            other => panic!("{:?}", other),
        }
    }
}

fn package(source: Option<&str>) -> LockPackage {
    LockPackage {
        name: "a".to_string(),
        version: "1.0.0".to_string(),
        source: source.map(String::from),
        checksum: None,
        dependencies: Vec::new(),
    }
}

#[test]
fn index_holds_fetched_sources() {
    let mappings = vec![
        GitSourceMapping::parse("https://example.org/a#111=/first").unwrap(),
        GitSourceMapping::parse("https://example.org/a.git#111=/second").unwrap(),
        GitSourceMapping::parse("https://example.org/b#222=/third").unwrap(),
    ];
    let packages = vec![
        package(Some("git+https://example.org/a?branch=main#111")),
        package(Some("registry+https://example.org/a#111")),
        package(None),
        package(Some("git+https://example.org/c#333")),
        package(Some("git+https://example.org/b#222")),
    ];
    let index = build_git_source_index(&mappings, &packages);
    // The later mapping counts.
    assert_eq!(
        index.get("git+https://example.org/a?branch=main#111"),
        Some(&PathBuf::from("/second"))
    );
    assert_eq!(
        index.get("git+https://example.org/b#222"),
        Some(&PathBuf::from("/third"))
    );
    assert_eq!(index.get("git+https://example.org/c#333"), None);
    assert_eq!(index.get("registry+https://example.org/a#111"), None);
    // Only sources of the lock file are in it.
    assert_eq!(index.get("git+https://example.org/a#111"), None);
}
