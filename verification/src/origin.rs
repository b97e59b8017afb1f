//! Where the manifest of a package is looked for.

use crate::choice::is_registry;
use crate::error::LockfileError;
use crate::git_source::{path_text, GitSourceIndex};
use crate::lock::{LockPackage, LockPackageView};
use crate::manifest::{
    has_distinct_deps, manifest_data, read_manifest, CrateFiles, ManifestData, ManifestView,
};
use crate::search::{ManifestSearch, ProbeView};
use crate::text::starts_with;
use crate::toml_value::{toml_document, Toml, TomlView};
use crate::workspace::{passed_on, workspace_context};
use std::path::PathBuf;
use vstd::prelude::*;

verus! {

/// A place that may hold the manifest of a package.
#[derive(Debug)]
pub enum ManifestOrigin {
    /// The directory of the package in the workspace.
    Directory,
    /// The repository that was fetched to that path.
    Repository(PathBuf),
    /// The manifest at that path, given by its parts, below the directory of
    /// registry manifests.
    Registry(Vec<String>),
}

/// What a `ManifestOrigin` stands for.
#[verifier::ext_equal]
pub enum ManifestOriginView {
    Directory,
    Repository(Seq<char>),
    Registry(Seq<Seq<char>>),
}

impl DeepView for ManifestOrigin {
    type V = ManifestOriginView;

    open spec fn deep_view(&self) -> ManifestOriginView {
        match self {
            ManifestOrigin::Directory => ManifestOriginView::Directory,
            ManifestOrigin::Repository(path) => ManifestOriginView::Repository(path_text(*path)),
            ManifestOrigin::Registry(parts) => ManifestOriginView::Registry(parts.deep_view()),
        }
    }
}

/// The repository of a package that comes from one that was fetched.
pub open spec fn repository_origin(
    source: Option<Seq<char>>,
    fetched: Map<Seq<char>, Seq<char>>,
) -> Seq<ManifestOriginView> {
    match source {
        Some(s) if "git+"@.is_prefix_of(s) && fetched.contains_key(s) => seq![
            ManifestOriginView::Repository(fetched[s]),
        ],
        _ => Seq::empty(),
    }
}

/// The registry manifest of a package that comes from a registry.
pub open spec fn registry_origin(
    pkg: LockPackageView,
    has_registry: bool,
) -> Seq<ManifestOriginView> {
    match pkg.source {
        Some(s) if is_registry(s) && has_registry => seq![
            ManifestOriginView::Registry(seq![pkg.name, pkg.version, "Cargo.toml"@]),
        ],
        _ => Seq::empty(),
    }
}

/// The places that may hold the manifest of a package. The first of them that
/// holds one decides.
pub open spec fn origins(
    pkg: LockPackageView,
    has_directory: bool,
    fetched: Map<Seq<char>, Seq<char>>,
    has_registry: bool,
) -> Seq<ManifestOriginView> {
    let directory = if has_directory {
        seq![ManifestOriginView::Directory]
    } else {
        Seq::empty()
    };
    directory + repository_origin(pkg.source, fetched) + registry_origin(pkg, has_registry)
}

/// Lists the places that may hold the manifest of a package.
pub fn manifest_origins(
    pkg: &LockPackage,
    has_directory: bool,
    git_source_index: &GitSourceIndex,
    has_registry: bool,
) -> (list: Vec<ManifestOrigin>)
    ensures
        list.deep_view() == origins(pkg.deep_view(), has_directory, git_source_index@, has_registry),
{
    let mut list: Vec<ManifestOrigin> = Vec::new();
    if has_directory {
        list.push(ManifestOrigin::Directory);
    }
    if let Some(source) = &pkg.source {
        if starts_with(source.as_str(), "git+") {
            if let Some(path) = git_source_index.get(source.as_str()) {
                list.push(ManifestOrigin::Repository(path.clone()));
            }
        }
    }
    let ghost first = list.deep_view();
    proof {
        assert(first =~= (if has_directory {
            seq![ManifestOriginView::Directory]
        } else {
            Seq::empty()
        }) + repository_origin(pkg.source.deep_view(), git_source_index@));
    }
    if let Some(source) = &pkg.source {
        if (starts_with(source.as_str(), "registry+") || starts_with(source.as_str(), "sparse+"))
            && has_registry {
            let parts: Vec<String> = vec![
                pkg.name.clone(),
                pkg.version.clone(),
                "Cargo.toml".to_owned(),
            ];
            assert(parts.deep_view() =~= seq![pkg.name@, pkg.version@, "Cargo.toml"@]);
            list.push(ManifestOrigin::Registry(parts));
        }
    }
    assert(list.deep_view() =~= first + registry_origin(pkg.deep_view(), has_registry));
    list
}

/// The root manifest that passes settings on to a manifest: that of the workspace
/// to one in it, that of the repository to one in a repository, and none to one
/// of a registry.
pub open spec fn origin_root(
    origin: ManifestOriginView,
    workspace: Option<TomlView>,
    repository: Option<TomlView>,
) -> Option<TomlView> {
    match origin {
        ManifestOriginView::Directory => workspace,
        ManifestOriginView::Repository(_) => repository,
        ManifestOriginView::Registry(_) => None,
    }
}

/// The root manifest that passes settings on to a manifest, given those of the
/// workspace and of the repository.
pub fn root_for<'a>(
    origin: &ManifestOrigin,
    workspace: Option<&'a Toml>,
    repository: Option<&'a Toml>,
) -> (root: Option<&'a Toml>)
    ensures
        root.deep_view() == origin_root(
            origin.deep_view(),
            workspace.deep_view(),
            repository.deep_view(),
        ),
{
    match origin {
        ManifestOrigin::Directory => workspace,
        ManifestOrigin::Repository(_) => repository,
        ManifestOrigin::Registry(_) => None,
    }
}

/// What was found at a place that may hold the manifest of a package.
#[derive(Debug)]
pub enum OriginRead<'a> {
    /// There is no manifest.
    Missing,
    /// The manifest cannot be read.
    Unreadable,
    /// The manifest.
    Manifest {
        /// Its text.
        text: String,
        /// The root manifest that passes settings on to it.
        root: Option<&'a Toml>,
        /// The files beside it.
        files: CrateFiles,
    },
}

/// What an `OriginRead` stands for.
#[verifier::ext_equal]
pub enum OriginReadView {
    Missing,
    Unreadable,
    Manifest { text: Seq<char>, root: Option<TomlView>, files: CrateFiles },
}

impl<'a> DeepView for OriginRead<'a> {
    type V = OriginReadView;

    open spec fn deep_view(&self) -> OriginReadView {
        match self {
            OriginRead::Missing => OriginReadView::Missing,
            OriginRead::Unreadable => OriginReadView::Unreadable,
            OriginRead::Manifest { text, root, files } => OriginReadView::Manifest {
                text: text@,
                root: root.deep_view(),
                files: *files,
            },
        }
    }
}

/// Why what a package's manifest says is not known.
pub enum ManifestFault {
    /// The manifest cannot be read.
    Unreadable,
    /// The manifest is not TOML, as that error says.
    Broken(toml::de::Error),
}

/// What the text of a manifest says of a package.
pub open spec fn manifest_of(text: Seq<char>, root: Option<TomlView>, files: CrateFiles) -> Result<
    ManifestView,
    ManifestFault,
> {
    let (package, deps) = match root {
        Some(document) => passed_on(document),
        None => (None, None),
    };
    match toml_document(text) {
        Ok(manifest) => Ok(manifest_data(manifest, package, deps, files)),
        Err(cause) => Err(ManifestFault::Broken(cause)),
    }
}

/// What the manifest of a package says, by what was found at the places that may
/// hold it: the first manifest counts, even one that cannot be used.
pub open spec fn found_manifest(reads: Seq<OriginReadView>) -> Result<
    Option<ManifestView>,
    ManifestFault,
>
    decreases reads.len(),
{
    if reads.len() == 0 {
        Ok(None)
    } else {
        match reads[0] {
            OriginReadView::Missing => found_manifest(reads.drop_first()),
            OriginReadView::Unreadable => Err(ManifestFault::Unreadable),
            OriginReadView::Manifest { text, root, files } => match manifest_of(text, root, files) {
                Ok(manifest) => Ok(Some(manifest)),
                Err(fault) => Err(fault),
            },
        }
    }
}

/// Reads the manifest of a package, given what was found at the places that may
/// hold it. No two dependencies are declared under one key of a table.
pub fn find_and_read_manifest(reads: &Vec<OriginRead<'_>>) -> (manifest: Result<
    Option<ManifestData>,
    LockfileError,
>)
    ensures
        match (manifest, found_manifest(reads.deep_view())) {
            (Ok(data), Ok(view)) => data.deep_view() == view && (view matches Some(m)
                ==> has_distinct_deps(m)),
            (Err(LockfileError::ManifestUnreadable), Err(ManifestFault::Unreadable)) => true,
            (Err(LockfileError::ManifestSyntax(error)), Err(ManifestFault::Broken(cause))) => error
                == cause,
            _ => false,
        },
{
    let ghost all = reads.deep_view();
    let mut i: usize = 0;
    assert(all.skip(0) =~= all);
    while i < reads.len()
        invariant
            i <= reads.len(),
            all == reads.deep_view(),
            found_manifest(all.skip(i as int)) == found_manifest(all),
        decreases reads.len() - i,
    {
        proof {
            assert(all.skip(i as int).drop_first() =~= all.skip(i + 1));
            assert(all.skip(i as int)[0] == reads@[i as int].deep_view());
        }
        match &reads[i] {
            OriginRead::Missing => {},
            OriginRead::Unreadable => {
                return Err(LockfileError::ManifestUnreadable);
            },
            OriginRead::Manifest { text, root, files } => {
                let (package, deps) = match root {
                    Some(document) => workspace_context(document),
                    None => (None, None),
                };
                return match read_manifest(text.as_str(), package, deps, files) {
                    Ok(data) => Ok(Some(data)),
                    Err(error) => Err(error),
                };
            },
        }
        i = i + 1;
    }
    Ok(None)
}

/// The first manifest that was found counts: places without one make no
/// difference, nor do places after it.
pub proof fn law_first_manifest_counts(
    before: Seq<OriginReadView>,
    read: OriginReadView,
    after: Seq<OriginReadView>,
)
    requires
        forall|i: int| 0 <= i < before.len() ==> (#[trigger] before[i]) is Missing,
        !(read is Missing),
    ensures
        found_manifest(before + seq![read] + after) == found_manifest(seq![read]),
    decreases before.len(),
{
    let reads = before + seq![read] + after;
    if before.len() > 0 {
        assert(reads[0] == before[0]);
        assert(reads.drop_first() =~= before.drop_first() + seq![read] + after);
        law_first_manifest_counts(before.drop_first(), read, after);
    } else {
        assert(reads[0] == read);
        assert(seq![read][0] == read);
    }
}

/// How many levels of a workspace are searched for a local package.
pub const WORKSPACE_LEVELS: u32 = 5;

/// Starts a search of the workspace for a local package that is not one of its
/// members.
pub fn search_workspace<P>(
    pkg: &LockPackage,
    is_member: bool,
    root: P,
) -> (search: Option<ManifestSearch<P>>)
    ensures
        match search {
            Some(s) => !is_member && pkg.source is None && s.wf() && s.queue() == seq![
                ProbeView::Tree(root, WORKSPACE_LEVELS),
            ],
            None => is_member || pkg.source is Some,
        },
{
    if !is_member && pkg.source.is_none() {
        Some(ManifestSearch::below(root, WORKSPACE_LEVELS))
    } else {
        None
    }
}

/// The parts of the path of a package's manifest. They go below the directory of
/// the package, or, for a package that has none, below the workspace root, where
/// they name a place that need not be there.
pub open spec fn manifest_parts(pkg: LockPackageView, has_directory: bool) -> Seq<Seq<char>> {
    if has_directory {
        seq!["Cargo.toml"@]
    } else {
        seq!["target"@, "lockfile-metadata"@, pkg.name, pkg.version, "Cargo.toml"@]
    }
}

/// Lists the parts of the path of a package's manifest.
pub fn list_manifest_parts(pkg: &LockPackage, has_directory: bool) -> (parts: Vec<String>)
    ensures
        parts.deep_view() == manifest_parts(pkg.deep_view(), has_directory),
{
    let parts: Vec<String> = if has_directory {
        vec!["Cargo.toml".to_owned()]
    } else {
        vec![
            "target".to_owned(),
            "lockfile-metadata".to_owned(),
            pkg.name.clone(),
            pkg.version.clone(),
            "Cargo.toml".to_owned(),
        ]
    };
    assert(parts.deep_view() =~= manifest_parts(pkg.deep_view(), has_directory));
    parts
}

/// A package has at most one place outside the workspace that may hold its
/// manifest, and a local package has none.
pub proof fn law_one_outside_origin(
    pkg: LockPackageView,
    fetched: Map<Seq<char>, Seq<char>>,
    has_registry: bool,
)
    ensures
        origins(pkg, false, fetched, has_registry).len() <= 1,
        pkg.source is None ==> origins(pkg, false, fetched, has_registry).len() == 0,
{
    reveal_strlit("git+");
    reveal_strlit("registry+");
    reveal_strlit("sparse+");
    if let Some(s) = pkg.source {
        if "git+"@.is_prefix_of(s) && is_registry(s) {
            assert(s[0] == "git+"@[0]);
            assert("registry+"@.is_prefix_of(s) ==> s[0] == "registry+"@[0]);
            assert("sparse+"@.is_prefix_of(s) ==> s[0] == "sparse+"@[0]);
        }
    }
}

/// A package of a registry that has no directory in the workspace has its manifest
/// at its name and version below the directory of registry manifests, or, without
/// such a directory, nowhere. What that manifest says is what its text says, with
/// nothing taken over from a workspace.
pub proof fn law_registry_manifest(
    pkg: LockPackageView,
    fetched: Map<Seq<char>, Seq<char>>,
    workspace: Option<TomlView>,
    repository: Option<TomlView>,
    text: Seq<char>,
    files: CrateFiles,
)
    requires
        pkg.source matches Some(source) && is_registry(source),
    ensures
        origins(pkg, false, fetched, false).len() == 0,
        ({
            let places = origins(pkg, false, fetched, true);
            let root = origin_root(places[0], workspace, repository);
            let read = OriginReadView::Manifest { text, root, files };
            &&& places == seq![
                ManifestOriginView::Registry(seq![pkg.name, pkg.version, "Cargo.toml"@]),
            ]
            &&& found_manifest(seq![read]) == match toml_document(text) {
                Ok(manifest) => Ok::<_, ManifestFault>(
                    Some(manifest_data(manifest, None, None, files)),
                ),
                Err(cause) => Err(ManifestFault::Broken(cause)),
            }
            &&& found_manifest(seq![OriginReadView::Missing]) == Ok::<
                Option<ManifestView>,
                ManifestFault,
            >(None)
        }),
{
    law_one_outside_origin(pkg, fetched, true);
    let places = origins(pkg, false, fetched, true);
    assert(registry_origin(pkg, true).len() == 1);
    assert(repository_origin(pkg.source, fetched).len() == 0);
    assert(places =~= registry_origin(pkg, true));
    let root = origin_root(places[0], workspace, repository);
    let read = OriginReadView::Manifest { text, root, files };
    assert(seq![read][0] == read);
    assert(seq![OriginReadView::Missing].drop_first() =~= Seq::empty());
    assert(found_manifest(Seq::<OriginReadView>::empty()) == Ok::<
        Option<ManifestView>,
        ManifestFault,
    >(None));
}

} // verus!
