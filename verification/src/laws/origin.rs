//! Laws of where manifests are looked for.

use crate::lock::LockPackageView;
use crate::manifest::{manifest_data, CrateFiles, ManifestView};
use crate::origin::{
    found_manifest, manifest_parts, origin_root, origins, ManifestFault, ManifestOriginView,
    OriginReadView,
};
use crate::toml_value::{toml_document, TomlView};
use vstd::prelude::*;

verus! {

/// The manifest of a package is looked for in its directory first, if it has one;
/// then in its repository, if it comes from one that was fetched; then, if it comes
/// from a registry and there is a directory of registry manifests, there, under its
/// name and version.
pub proof fn law_origins(
    pkg: LockPackageView,
    has_directory: bool,
    fetched: Map<Seq<char>, Seq<char>>,
    has_registry: bool,
)
    ensures
        ({
            let places = origins(pkg, has_directory, fetched, has_registry);
            let directory: int = if has_directory {
                1
            } else {
                0
            };
            let of_git = pkg.source matches Some(s) && ("git+"@).is_prefix_of(s)
                && fetched.contains_key(s);
            let git: int = if of_git {
                1
            } else {
                0
            };
            let of_registry = has_registry && (pkg.source matches Some(s) && (("registry+"@)
                .is_prefix_of(s) || ("sparse+"@).is_prefix_of(s)));
            let registry: int = if of_registry {
                1
            } else {
                0
            };
            &&& places.len() == directory + git + registry
            &&& has_directory ==> places[0] == ManifestOriginView::Directory
            &&& of_git ==> places[directory] == ManifestOriginView::Repository(
                fetched[pkg.source->0],
            )
            &&& of_registry ==> places[directory + git] == ManifestOriginView::Registry(
                seq![pkg.name, pkg.version, "Cargo.toml"@],
            )
        }),
{
}

/// The workspace passes settings on to the manifests in it, a repository to those
/// in the repository, and nothing to those of a registry.
pub proof fn law_origin_root(
    path: Seq<char>,
    parts: Seq<Seq<char>>,
    workspace: Option<TomlView>,
    repository: Option<TomlView>,
)
    ensures
        origin_root(ManifestOriginView::Directory, workspace, repository) == workspace,
        origin_root(ManifestOriginView::Repository(path), workspace, repository) == repository,
        origin_root(ManifestOriginView::Registry(parts), workspace, repository) is None,
{
}

/// A manifest that was found says what its text says, with the package settings and
/// the dependencies of the `[workspace]` table of its root manifest. One that
/// cannot be read or is not TOML is reported as such, and nothing is said where
/// there is none.
pub proof fn law_found_manifest(text: Seq<char>, root: Option<TomlView>, files: CrateFiles)
    ensures
        ({
            let workspace = match root {
                Some(document) => document.get("workspace"@),
                None => None,
            };
            let package = match workspace {
                Some(table) => table.get("package"@),
                None => None,
            };
            let deps = match workspace {
                Some(table) => table.get("dependencies"@),
                None => None,
            };
            let read = found_manifest(seq![OriginReadView::Manifest { text, root, files }]);
            match toml_document(text) {
                Ok(manifest) => read == Ok::<Option<ManifestView>, ManifestFault>(
                    Some(manifest_data(manifest, package, deps, files)),
                ),
                Err(cause) => read == Err::<Option<ManifestView>, ManifestFault>(
                    ManifestFault::Broken(cause),
                ),
            }
        }),
        found_manifest(seq![OriginReadView::Unreadable]) == Err::<
            Option<ManifestView>,
            ManifestFault,
        >(ManifestFault::Unreadable),
        found_manifest(seq![OriginReadView::Missing]) == Ok::<Option<ManifestView>, ManifestFault>(
            None,
        ),
        found_manifest(Seq::empty()) == Ok::<Option<ManifestView>, ManifestFault>(None),
{
    let read = OriginReadView::Manifest { text, root, files };
    assert(seq![read][0] == read);
    assert(seq![OriginReadView::Unreadable][0] == OriginReadView::Unreadable);
    assert(seq![OriginReadView::Missing].drop_first() =~= Seq::empty());
    assert(found_manifest(Seq::<OriginReadView>::empty()) == Ok::<
        Option<ManifestView>,
        ManifestFault,
    >(None));
}

/// The manifest of a package with a directory is the `Cargo.toml` in it. That of
/// any other has a place of its own below the target directory, by its name and
/// version, so that packages of different names or versions have different ones.
pub proof fn law_manifest_parts(pkg: LockPackageView, other: LockPackageView)
    ensures
        manifest_parts(pkg, true) == seq!["Cargo.toml"@],
        manifest_parts(pkg, false).len() == 5,
        manifest_parts(pkg, false)[0] == "target"@,
        manifest_parts(pkg, false)[1] == "lockfile-metadata"@,
        manifest_parts(pkg, false)[2] == pkg.name,
        manifest_parts(pkg, false)[3] == pkg.version,
        manifest_parts(pkg, false)[4] == "Cargo.toml"@,
        manifest_parts(pkg, false) == manifest_parts(other, false) ==> pkg.name == other.name
            && pkg.version == other.version,
{
}

} // verus!
