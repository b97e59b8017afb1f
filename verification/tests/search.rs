use lockfile_metadata::git_source::{build_git_source_index, GitSourceMapping};
use lockfile_metadata::lock::LockPackage;
use lockfile_metadata::error::LockfileError;
use lockfile_metadata::manifest::CrateFiles;
use lockfile_metadata::origin::{
    find_and_read_manifest, list_manifest_parts, manifest_origins, root_for, search_workspace,
    ManifestOrigin, OriginRead,
};
use lockfile_metadata::search::{
    find_crate_in_git_source, searches_directory, ManifestSearch, NextStep, Probe,
    RepositorySearch,
};
use lockfile_metadata::toml_value::parse_toml;
use std::path::PathBuf;

/// Runs a search over directories given by their paths: `named` has the manifest,
/// and the sub-directories of a directory are those of `tree` below it.
fn run(mut search: ManifestSearch<String>, tree: &[&str], named: &[&str]) -> (Option<String>, usize) {
    let mut looked_at = 0;
    while let Some(probe) = search.next() {
        looked_at += 1;
        let dir = match &probe {
            Probe::Member(path) => Some(format!("/{}", path)),
            Probe::Members(_) => None,
            Probe::Entry(dir) => Some(dir.clone()),
            Probe::Tree(dir, _) => Some(dir.clone()),
        };
        let found = matches!(&dir, Some(d) if named.contains(&d.as_str()));
        match search.looked_at(probe, found) {
            NextStep::Found(_) => return (dir, looked_at),
            NextStep::List(probe) => {
                let parent = match &probe {
                    Probe::Members(path) => format!("/{}", path.trim_end_matches('/')),
                    Probe::Tree(dir, _) => dir.clone(),
                    _ => unreachable!(),
                };
                let children = tree
                    .iter()
                    .filter_map(|path| match path.rsplit_once('/') {
                        Some((above, name)) if above == parent => {
                            Some((name.to_string(), path.to_string()))
                        }
                        _ => None,
                    })
                    .collect();
                search.listed(&probe, children);
            }
            NextStep::Continue => {}
        }
    }
    (None, looked_at)
}

const TREE: [&str; 8] = [
    "/r/a", "/r/a/b", "/r/a/b/c", "/r/target", "/r/target/x", "/r/.git", "/r/node_modules", "/r/z",
];

#[test]
fn directories_that_are_not_searched() {
    assert!(searches_directory("src"));
    assert!(searches_directory(""));
    assert!(searches_directory("targets"));
    assert!(!searches_directory(".git"));
    assert!(!searches_directory("target"));
    assert!(!searches_directory("node_modules"));
}

#[test]
fn search_goes_depth_first() {
    let below = |levels: u32| ManifestSearch::below("/r".to_string(), levels);
    assert_eq!(run(below(4), &TREE, &["/r"]), (Some("/r".to_string()), 1));
    assert_eq!(
        run(below(4), &TREE, &["/r/a/b/c", "/r/z"]),
        (Some("/r/a/b/c".to_string()), 4)
    );
    assert_eq!(
        run(below(3), &TREE, &["/r/a/b/c", "/r/z"]),
        (Some("/r/z".to_string()), 4)
    );
    assert_eq!(run(below(3), &TREE, &["/r/a/b/c"]), (None, 4));
    assert_eq!(run(below(4), &TREE, &["/r/target/x", "/r/.git"]), (None, 5));
    assert_eq!(run(below(0), &TREE, &["/r"]), (None, 0));
}

#[test]
fn repository_is_searched_by_members_first() {
    let root = parse_toml(
        "[package]\nname = \"top\"\n[workspace]\nmembers = [\"r/z\", 1, \"r/a/*\"]",
    )
    .unwrap();
    match find_crate_in_git_source(Some(&root), "top", "/r".to_string()) {
        RepositorySearch::AtRoot(dir) => assert_eq!(dir, "/r"),
        other => panic!("{:?}", other),
    }
    let start = || match find_crate_in_git_source(Some(&root), "p", "/r".to_string()) {
        RepositorySearch::Search(search) => search,
        other => panic!("{:?}", other),
    };
    assert_eq!(
        run(start(), &TREE, &["/r/a", "/r/z"]),
        (Some("/r/z".to_string()), 1)
    );
    // The entries of the directory before the `*`.
    assert_eq!(
        run(start(), &TREE, &["/r/a", "/r/a/b"]),
        (Some("/r/a/b".to_string()), 3)
    );
    // The whole repository.
    assert_eq!(
        run(start(), &TREE, &["/r/a/b/c"]),
        (Some("/r/a/b/c".to_string()), 7)
    );
    assert_eq!(run(start(), &TREE, &[]).0, None);
}

#[test]
fn repository_without_root_manifest_is_searched_whole() {
    match find_crate_in_git_source(None, "p", "/r".to_string()) {
        RepositorySearch::Search(search) => {
            assert_eq!(run(search, &TREE, &["/r/z"]), (Some("/r/z".to_string()), 5))
        }
        other => panic!("{:?}", other),
    }
}

fn package(source: Option<&str>) -> LockPackage {
    LockPackage {
        name: "p".to_string(),
        version: "1.0.0".to_string(),
        source: source.map(String::from),
        checksum: None,
        dependencies: Vec::new(),
    }
}

#[test]
fn workspace_is_searched_for_local_packages() {
    let root = "/r".to_string();
    assert!(search_workspace(&package(None), true, root.clone()).is_none());
    assert!(search_workspace(&package(Some("registry+x")), false, root.clone()).is_none());
    let search = search_workspace(&package(None), false, root).unwrap();
    let deep = ["/r/1", "/r/1/2", "/r/1/2/3", "/r/1/2/3/4", "/r/1/2/3/4/5"];
    assert_eq!(
        run(search, &deep, &["/r/1/2/3/4"]),
        (Some("/r/1/2/3/4".to_string()), 5)
    );
    let search = search_workspace(&package(None), false, "/r".to_string()).unwrap();
    assert_eq!(run(search, &deep, &["/r/1/2/3/4/5"]), (None, 5));
}

#[test]
fn origins_of_manifests() {
    let mappings = vec![GitSourceMapping::parse("u#1=/fetched").unwrap()];
    let git = package(Some("git+u#1"));
    let registry = package(Some("registry+x"));
    let sparse = package(Some("sparse+x"));
    let local = package(None);
    let packages = vec![git.clone(), registry.clone()];
    let index = build_git_source_index(&mappings, &packages);

    let list = manifest_origins(&local, true, &index, true);
    assert_eq!(list.len(), 1);
    assert!(matches!(list[0], ManifestOrigin::Directory));
    assert!(manifest_origins(&local, false, &index, true).is_empty());

    let list = manifest_origins(&git, true, &index, true);
    assert_eq!(list.len(), 2);
    match &list[1] {
        ManifestOrigin::Repository(path) => assert_eq!(path, &PathBuf::from("/fetched")),
        other => panic!("{:?}", other),
    }
    assert!(manifest_origins(&package(Some("git+v#1")), false, &index, true).is_empty());

    for pkg in [&registry, &sparse] {
        let list = manifest_origins(pkg, false, &index, true);
        assert_eq!(list.len(), 1);
        match &list[0] {
            ManifestOrigin::Registry(parts) => {
                assert_eq!(parts, &vec!["p", "1.0.0", "Cargo.toml"])
            }
            other => panic!("{:?}", other),
        }
        assert!(manifest_origins(pkg, false, &index, false).is_empty());
    }
}

#[test]
fn parts_of_manifest_paths() {
    assert_eq!(list_manifest_parts(&package(None), true), vec!["Cargo.toml"]);
    assert_eq!(
        list_manifest_parts(&package(None), false),
        vec!["target", "lockfile-metadata", "p", "1.0.0", "Cargo.toml"]
    );
}

fn manifest_text<'a>(text: &str) -> OriginRead<'a> {
    OriginRead::Manifest {
        text: text.to_string(),
        root: None,
        files: CrateFiles {
            build_rs: false,
            src: false,
            lib_rs: false,
            main_rs: false,
        },
    }
}

#[test]
fn first_manifest_counts() {
    let edition = |name: &str| manifest_text(&format!("[package]\nedition = \"{}\"", name));
    let reads = vec![OriginRead::Missing, edition("2018"), edition("2021")];
    let data = find_and_read_manifest(&reads).unwrap().unwrap();
    assert_eq!(data.edition, "2018");
    // A manifest that cannot be used counts too.
    assert!(matches!(
        find_and_read_manifest(&vec![manifest_text("["), edition("2021")]),
        Err(LockfileError::ManifestSyntax(_))
    ));
    assert!(matches!(
        find_and_read_manifest(&vec![OriginRead::Unreadable, edition("2021")]),
        Err(LockfileError::ManifestUnreadable)
    ));
    assert_eq!(LockfileError::ManifestUnreadable.message("p"), None);
    assert!(find_and_read_manifest(&vec![OriginRead::Missing]).unwrap().is_none());
    assert!(find_and_read_manifest(&vec![]).unwrap().is_none());
}

#[test]
fn manifest_takes_settings_from_its_root() {
    let root = parse_toml(
        "[workspace.package]\nedition = \"2021\"\n[workspace.dependencies]\nserde = \"1.5\"",
    )
    .unwrap();
    let mut read = manifest_text(
        "[package]\nedition = { workspace = true }\n[dependencies]\nserde = { workspace = true }",
    );
    if let OriginRead::Manifest { root: shared, .. } = &mut read {
        *shared = Some(&root);
    }
    let data = find_and_read_manifest(&vec![read]).unwrap().unwrap();
    assert_eq!(data.edition, "2021");
    assert_eq!(data.normal_deps[0].version_req, "1.5");
}

#[test]
fn root_manifest_by_origin() {
    let workspace = parse_toml("[workspace.package]\nedition = \"2018\"").unwrap();
    let repository = parse_toml("[workspace.package]\nedition = \"2021\"").unwrap();
    let edition = |origin: ManifestOrigin| {
        let mut read = manifest_text("[package]\nedition = { workspace = true }");
        if let OriginRead::Manifest { root, .. } = &mut read {
            *root = root_for(&origin, Some(&workspace), Some(&repository));
        }
        find_and_read_manifest(&vec![read]).unwrap().unwrap().edition
    };
    assert_eq!(edition(ManifestOrigin::Directory), "2018");
    assert_eq!(edition(ManifestOrigin::Repository(PathBuf::from("/r"))), "2021");
    // Nothing is passed on to the manifest of a registry.
    assert_eq!(edition(ManifestOrigin::Registry(vec!["p".to_string()])), "2015");
}
