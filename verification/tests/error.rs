use lockfile_metadata::error::LockfileError;
use lockfile_metadata::git_source::GitSourceMapping;
use lockfile_metadata::json::Json;
use lockfile_metadata::lock::parse_cargo_lock;
use lockfile_metadata::manifest::{read_manifest, CrateFiles};
use lockfile_metadata::metadata::metadata_from_document;
use lockfile_metadata::workspace::{read_member, MemberRead};

fn message(error: LockfileError) -> Option<String> {
    error.message("/w/a/Cargo.toml")
}

#[test]
fn messages_of_errors() {
    assert_eq!(
        message(GitSourceMapping::parse("url").unwrap_err()).unwrap(),
        "Invalid git-source 'url': expected 'url#rev=path'"
    );
    assert_eq!(
        message(parse_cargo_lock("[").unwrap_err()).unwrap(),
        "parsing Cargo.lock TOML"
    );
    assert_eq!(
        message(parse_cargo_lock("").unwrap_err()).unwrap(),
        "Cargo.lock missing [[package]] array"
    );
    assert_eq!(
        message(parse_cargo_lock("[[package]]").unwrap_err()).unwrap(),
        "package missing name"
    );
    assert_eq!(
        message(parse_cargo_lock("[[package]]\nname = \"serde\"").unwrap_err()).unwrap(),
        "package serde missing version"
    );
    assert_eq!(
        message(LockfileError::MissingMembers).unwrap(),
        "No [workspace] members found in root Cargo.toml"
    );
    assert_eq!(
        message(LockfileError::MemberNotText).unwrap(),
        "workspace member is not a string"
    );
    assert_eq!(
        message(LockfileError::MemberUnreadable(0)).unwrap(),
        "reading /w/a/Cargo.toml"
    );
    assert_eq!(
        message(LockfileError::MemberSyntax(0)).unwrap(),
        "parsing /w/a/Cargo.toml"
    );
    assert_eq!(
        message(metadata_from_document(Json::Null).unwrap_err()).unwrap(),
        "deserializing constructed metadata"
    );
}

#[test]
fn manifest_error_is_that_of_the_parser() {
    let files = CrateFiles {
        build_rs: false,
        src: false,
        lib_rs: false,
        main_rs: false,
    };
    let error = read_manifest("[package", None, None, &files).unwrap_err();
    assert!(matches!(error, LockfileError::ManifestSyntax(_)));
    assert_eq!(message(error), None);
}

#[test]
fn errors_carry_that_of_their_text() {
    let of = |text: &str| text.parse::<toml::Value>().unwrap_err().to_string();
    let files = CrateFiles {
        build_rs: false,
        src: false,
        lib_rs: false,
        main_rs: false,
    };
    for text in ["[package", "a = ", "a = 1\na = 2"] {
        match parse_cargo_lock(text) {
            Err(LockfileError::LockSyntax(error)) => assert_eq!(error.to_string(), of(text)),
            other => panic!("{:?}", other),
        }
        match read_manifest(text, None, None, &files) {
            Err(LockfileError::ManifestSyntax(error)) => assert_eq!(error.to_string(), of(text)),
            other => panic!("{:?}", other),
        }
        match read_member(text, None) {
            MemberRead::Broken(error) => assert_eq!(error.to_string(), of(text)),
            other => panic!("{:?}", other),
        }
    }
    let cause = serde_json::from_value::<cargo_metadata::Metadata>(serde_json::Value::Null)
        .unwrap_err()
        .to_string();
    match metadata_from_document(Json::Null) {
        Err(LockfileError::Document(error)) => assert_eq!(error.to_string(), cause),
        other => panic!("{:?}", other),
    }
}
