use lockfile_metadata::error::LockfileError;
use lockfile_metadata::toml_value::{parse_toml, Toml};
use lockfile_metadata::workspace::{
    check_manifest_name, find_member, get_workspace_members, list_member_entries, read_member,
    read_workspace_root, workspace_context, MemberRead,
};

#[test]
fn toml_values_keep_their_kinds() {
    let document = parse_toml(
        "b = true\na = [1, \"x\", 2.5]\nt = { z = 1, y = \"w\" }\nd = 1979-05-27\n",
    )
    .unwrap();
    assert_eq!(document.get("b").unwrap().as_bool(), Some(true));
    let items = document.get("a").unwrap().as_array().unwrap();
    assert_eq!(items.len(), 3);
    assert!(matches!(items[0], Toml::Integer(1)));
    assert_eq!(items[1].as_str(), Some("x"));
    assert!(matches!(items[2], Toml::Other));
    assert!(matches!(document.get("d"), Some(Toml::Other)));
    let fields = document.get("t").unwrap().as_table().unwrap();
    assert_eq!(fields.len(), 2);
    assert_eq!(document.get("t").unwrap().text_at("y"), Some("w"));
    assert!(document.get("none").is_none());
    assert!(parse_toml("a = ").is_err());
}

#[test]
fn member_entries_of_a_root_manifest() {
    let root = parse_toml("[workspace]\nmembers = [\"a\", 1, \"b/c\"]").unwrap();
    assert_eq!(
        list_member_entries(&root).unwrap(),
        vec![Some("a".to_string()), None, Some("b/c".to_string())]
    );
    for text in ["", "[workspace]", "[workspace]\nmembers = 1"] {
        assert!(matches!(
            list_member_entries(&parse_toml(text).unwrap()),
            Err(LockfileError::MissingMembers)
        ));
    }
}

#[test]
fn members_are_named_by_manifest_or_directory() {
    let reads = vec![
        read_member("[package]\nname = \"first\"", Some("dir".to_string())),
        MemberRead::Missing,
        read_member("", Some("second".to_string())),
        read_member("[package]\nname = 1", None),
    ];
    let members = get_workspace_members(&reads).unwrap();
    assert_eq!(members.len(), 3);
    assert_eq!((members[0].name.as_str(), members[0].entry), ("first", 0));
    assert_eq!((members[1].name.as_str(), members[1].entry), ("second", 2));
    assert_eq!((members[2].name.as_str(), members[2].entry), ("unknown", 3));
    assert_eq!(find_member(&members, "second"), Some(1));
    assert_eq!(find_member(&members, "third"), None);
}

#[test]
fn wrong_members_are_refused() {
    let good = || read_member("[package]\nname = \"a\"", None);
    assert!(matches!(
        get_workspace_members(&vec![good(), MemberRead::NotText]),
        Err(LockfileError::MemberNotText)
    ));
    assert!(matches!(
        get_workspace_members(&vec![good(), MemberRead::Unreadable, MemberRead::NotText]),
        Err(LockfileError::MemberUnreadable(1))
    ));
    assert!(matches!(
        get_workspace_members(&vec![read_member("[", None)]),
        Err(LockfileError::MemberSyntax(0))
    ));
}

#[test]
fn root_manifest_passes_settings_on() {
    let root = read_workspace_root(Some(
        "[workspace.package]\nedition = \"2021\"\n[workspace.dependencies]\nserde = \"1\"",
    ))
    .unwrap();
    let (package, deps) = workspace_context(&root);
    assert_eq!(package.unwrap().text_at("edition"), Some("2021"));
    assert_eq!(deps.unwrap().text_at("serde"), Some("1"));
    let root = read_workspace_root(Some("[package]")).unwrap();
    let (package, deps) = workspace_context(&root);
    assert!(package.is_none() && deps.is_none());
    assert!(read_workspace_root(None).is_none());
    assert!(read_workspace_root(Some("[")).is_none());
}

#[test]
fn manifest_is_recognised_by_name() {
    assert!(check_manifest_name("[package]\nname = \"a\"", "a"));
    assert!(!check_manifest_name("[package]\nname = \"a\"", "b"));
    assert!(!check_manifest_name("name = \"a\"", "a"));
    assert!(!check_manifest_name("[package", "a"));
}
