use lockfile_metadata::choice::{ask_semver, choose_dep_kind_and_name, find_dep_kind_and_name};
use lockfile_metadata::dependency::{DeclaredDep, DepKind, DepSpec};
use lockfile_metadata::versions::{admits_by_semver, requirement_speaks_for};

fn declared(key: &str, package: Option<&str>, req: &str, source: Option<&str>) -> DeclaredDep {
    DeclaredDep {
        spec: DepSpec {
            name: key.to_string(),
            package: package.map(String::from),
            version_req: req.to_string(),
            optional: false,
            default_features: true,
            features: Vec::new(),
            source: source.map(String::from),
        },
        kind: DepKind::Normal,
        target: None,
    }
}

fn name(version: &str, source: Option<&str>, specs: &Vec<DeclaredDep>) -> Option<String> {
    find_dep_kind_and_name("p", version, source, specs).1
}

#[test]
fn requirements_by_semantic_versioning() {
    assert!(admits_by_semver("^1.2", "1.9.0"));
    assert!(!admits_by_semver("^1.2", "2.0.0"));
    assert!(admits_by_semver(">=1, <3", "2.5.0"));
    assert!(!admits_by_semver("not a requirement", "1.0.0"));
    assert!(!admits_by_semver("1", "not a version"));
    let specs = vec![
        declared("a", None, "1", None),
        declared("b", None, "2", None),
        declared("c", None, "*", None),
    ];
    assert_eq!(ask_semver(&specs, "1.5.0"), vec![true, false, true]);
}

#[test]
fn requirements_that_speak_for_a_version() {
    assert!(!requirement_speaks_for("*", "1.0.0", true));
    assert!(requirement_speaks_for("=1.0.0", "1.0.0", false));
    assert!(!requirement_speaks_for("=1.0.0", "1.0.1", true));
    assert!(requirement_speaks_for("1", "1.0.0", true));
    assert!(!requirement_speaks_for("1", "1.0.0", false));
}

#[test]
fn dependency_that_nothing_declares() {
    let (kinds, name) = find_dep_kind_and_name("p", "1.0.0", None, &Vec::new());
    assert_eq!(kinds.len(), 1);
    assert_eq!(kinds[0].kind, DepKind::Normal);
    assert_eq!(kinds[0].target, None);
    assert_eq!(name, None);
}

#[test]
fn only_candidate_is_taken() {
    let specs = vec![
        declared("renamed", Some("p"), "9", Some("git+other")),
        declared("q", None, "1", None),
    ];
    assert_eq!(name("1.0.0", Some("registry+x"), &specs), Some("renamed".to_string()));
    // A key without a rename gives no name.
    let specs = vec![declared("p", None, "1", None)];
    assert_eq!(name("1.0.0", None, &specs), None);
    // A key that is the package's name refers to it too.
    let specs = vec![declared("p", Some("else"), "1", None)];
    assert_eq!(name("1.0.0", None, &specs), Some("p".to_string()));
}

#[test]
fn kinds_of_all_candidates() {
    let mut build = declared("p", None, "1", None);
    build.kind = DepKind::Build;
    let mut dev = declared("p", None, "1", None);
    dev.kind = DepKind::Dev;
    dev.target = Some("cfg(unix)".to_string());
    let (kinds, _) = find_dep_kind_and_name("p", "1.0.0", None, &vec![build, dev]);
    assert_eq!(kinds.len(), 2);
    assert_eq!(kinds[0].kind, DepKind::Build);
    assert_eq!(kinds[0].target, None);
    assert_eq!(kinds[1].kind, DepKind::Dev);
    assert_eq!(kinds[1].target, Some("cfg(unix)".to_string()));
}

#[test]
fn source_is_tried_before_version() {
    let specs = vec![
        declared("by_version", Some("p"), "1", None),
        declared("by_source", Some("p"), "2", Some("git+u?tag=t")),
    ];
    assert_eq!(
        name("1.0.0", Some("git+u?tag=t#abc"), &specs),
        Some("by_source".to_string())
    );
    assert_eq!(
        name("1.0.0", Some("git+u?tag=s#abc"), &specs),
        Some("by_version".to_string())
    );
    assert_eq!(name("1.0.0", None, &specs), Some("by_version".to_string()));
}

#[test]
fn version_tells_two_declarations_apart() {
    let specs = vec![
        declared("p012", Some("p"), "0.12", None),
        declared("p013", Some("p"), "=0.13.1", None),
    ];
    assert_eq!(name("0.12.4", Some("registry+x"), &specs), Some("p012".to_string()));
    assert_eq!(name("0.13.1", Some("registry+x"), &specs), Some("p013".to_string()));
    // Where no version fits, the first declaration without a source is taken.
    assert_eq!(name("0.14.0", Some("registry+x"), &specs), Some("p012".to_string()));
}

#[test]
fn repository_tells_two_declarations_apart() {
    let specs = vec![
        declared("plain", Some("p"), "*", None),
        declared("git", Some("p"), "*", Some("git+u?tag=t")),
    ];
    assert_eq!(name("1.0.0", Some("git+u?rev=r"), &specs), Some("git".to_string()));
    assert_eq!(name("1.0.0", Some("git+v?rev=r"), &specs), Some("plain".to_string()));
    assert_eq!(name("1.0.0", Some("registry+x"), &specs), Some("plain".to_string()));
    // Two declarations of the repository leave it open.
    let specs = vec![
        declared("one", Some("p"), "*", Some("git+u?tag=s")),
        declared("two", Some("p"), "*", Some("git+u?tag=t")),
    ];
    assert_eq!(name("1.0.0", Some("git+u?rev=r"), &specs), None);
}

#[test]
fn verdicts_of_semantic_versioning_decide() {
    let specs = vec![
        declared("first", Some("p"), "1", None),
        declared("second", Some("p"), "1", None),
    ];
    let chosen = |verdicts: Vec<bool>| {
        choose_dep_kind_and_name("p", "1.0.0", None, &specs, &verdicts).1
    };
    assert_eq!(chosen(vec![true, true]), Some("first".to_string()));
    assert_eq!(chosen(vec![false, true]), Some("second".to_string()));
    assert_eq!(chosen(vec![false, false]), Some("first".to_string()));
}

#[test]
fn same_tag_is_tried_before_a_tag_it_starts_with() {
    let specs = vec![
        declared("foo-v1", Some("foo"), "*", Some("git+https://h/r?tag=v1")),
        declared("foo-v10", Some("foo"), "*", Some("git+https://h/r?tag=v10")),
    ];
    let name = |source: &str| find_dep_kind_and_name("foo", "1.0.0", Some(source), &specs).1;
    assert_eq!(name("git+https://h/r?tag=v10#c"), Some("foo-v10".to_string()));
    assert_eq!(name("git+https://h/r?tag=v1#c"), Some("foo-v1".to_string()));
    assert_eq!(name("git+https://h/r?tag=v10"), Some("foo-v10".to_string()));
    // Without the same source, one that the locked source starts with will do.
    assert_eq!(name("git+https://h/r?tag=v12#c"), Some("foo-v1".to_string()));
}
