//! Laws of the packages of the metadata document.

use crate::dependency::{dep_json, DeclaredDepView, DepKind};
use crate::features::features_json;
use crate::json::{object, text_array, JsonView};
use crate::laws::json::law_object_fields;
use crate::laws::manifest::law_programs;
use crate::lock::{lock_dep, LockPackageView};
use crate::manifest::{manifest_data, CrateFiles, ManifestView, TargetDepsView};
use crate::package::{
    bins_of, build_script_of, declared_deps, lib_of, package_fields, package_json,
    tagged_sections, target_fields, targets, TargetView,
};
use crate::text::replaced;
use crate::toml_value::TomlView;
use vstd::prelude::*;

verus! {

/// A package with a manifest declares the dependencies of its crate, then those of
/// its build script and those of its tests, on all platforms, and then those by
/// platform.
pub proof fn law_declared_in_order(pkg: LockPackageView, manifest: ManifestView)
    ensures
        ({
            let deps = declared_deps(pkg, Some(manifest));
            let n = manifest.normal_deps.len() as int;
            let b = manifest.build_deps.len() as int;
            let d = manifest.dev_deps.len() as int;
            let by_platform = tagged_sections(manifest.target_deps);
            &&& deps.len() == n + b + d + by_platform.len()
            &&& forall|i: int|
                0 <= i < n ==> (#[trigger] deps[i]) == (DeclaredDepView {
                    spec: manifest.normal_deps[i],
                    kind: DepKind::Normal,
                    target: None,
                })
            &&& forall|i: int|
                n <= i < n + b ==> (#[trigger] deps[i]) == (DeclaredDepView {
                    spec: manifest.build_deps[i - n],
                    kind: DepKind::Build,
                    target: None,
                })
            &&& forall|i: int|
                n + b <= i < n + b + d ==> (#[trigger] deps[i]) == (DeclaredDepView {
                    spec: manifest.dev_deps[i - n - b],
                    kind: DepKind::Dev,
                    target: None,
                })
            &&& forall|i: int|
                n + b + d <= i < deps.len() ==> (#[trigger] deps[i]) == by_platform[i - n - b - d]
        }),
{
}

/// Each platform adds its dependencies, in order, limited to it and of its kind.
pub proof fn law_platform_tagged(sections: Seq<TargetDepsView>, section: TargetDepsView)
    ensures
        tagged_sections(Seq::empty()).len() == 0,
        ({
            let before = tagged_sections(sections);
            let after = tagged_sections(sections.push(section));
            &&& before.is_prefix_of(after)
            &&& after.len() == before.len() + section.deps.len()
            &&& forall|i: int|
                before.len() <= i < after.len() ==> (#[trigger] after[i]) == (DeclaredDepView {
                    spec: section.deps[i - before.len()],
                    kind: section.kind,
                    target: Some(section.target),
                })
        }),
{
    let all = sections.push(section);
    assert(all.drop_last() =~= sections);
    assert(all.last() == section);
    let before = tagged_sections(sections);
    assert(before =~= tagged_sections(all).take(before.len() as int));
}

/// Without a manifest an entry of the lock file declares a normal dependency on
/// all platforms, on what it names and on exactly the version that it gives, with
/// default features and nothing else.
pub proof fn law_locked_dep(pkg: LockPackageView, i: int)
    requires
        0 <= i < pkg.dependencies.len(),
    ensures
        ({
            let deps = declared_deps(pkg, None);
            let dep = deps[i];
            let (name, version, source) = lock_dep(pkg.dependencies[i]);
            &&& deps.len() == pkg.dependencies.len()
            &&& dep.kind == DepKind::Normal
            &&& dep.target is None
            &&& dep.spec.name == name
            &&& dep.spec.package is None
            &&& version.len() > 0 ==> dep.spec.version_req == "="@ + version
            &&& version.len() == 0 ==> dep.spec.version_req == "*"@
            &&& dep.spec.source == source
            &&& dep.spec.features.len() == 0
            &&& !dep.spec.optional
            &&& dep.spec.default_features
        }),
{
}

/// Whether a target is the library that is taken for granted.
pub open spec fn is_default_lib(target: TargetView, name: Seq<char>) -> bool {
    &&& target.kind == seq!["lib"@]
    &&& target.crate_types == seq!["lib"@]
    &&& target.name == replaced(name, '-', '_')
    &&& target.path == "src/lib.rs"@
    &&& target.doctest
}

/// Whether a target is the library of a manifest: under the name and the path that
/// the manifest gives, else under those of the package, and of the crate types
/// that it gives, a procedural macro before all.
pub open spec fn is_lib_of(target: TargetView, name: Seq<char>, manifest: ManifestView) -> bool {
    let given = manifest.lib.name;
    let types = manifest.lib.crate_types;
    &&& given is Some ==> target.name == replaced(given->0, '-', '_')
    &&& given is None ==> target.name == replaced(name, '-', '_')
    &&& manifest.lib.path is Some ==> target.path == manifest.lib.path->0
    &&& manifest.lib.path is None ==> target.path == "src/lib.rs"@
    &&& manifest.lib.is_proc_macro ==> target.kind == seq!["proc-macro"@]
    &&& !manifest.lib.is_proc_macro && types.len() > 0 ==> target.kind == types
    &&& !manifest.lib.is_proc_macro && types.len() == 0 ==> target.kind == seq!["lib"@]
    &&& target.crate_types == target.kind
    &&& target.doctest
}

/// Whether a target is the build script of a manifest.
pub open spec fn is_build_script_of(target: TargetView, manifest: ManifestView) -> bool {
    &&& target.kind == seq!["custom-build"@]
    &&& target.crate_types == seq!["bin"@]
    &&& target.name == "build-script-build"@
    &&& manifest.build_script_path is Some ==> target.path == manifest.build_script_path->0
    &&& manifest.build_script_path is None ==> target.path == "build.rs"@
    &&& !target.doctest
}

/// Whether a target is a program of that name and root file.
pub open spec fn is_program(target: TargetView, name: Seq<char>, path: Seq<char>) -> bool {
    &&& target.kind == seq!["bin"@]
    &&& target.crate_types == seq!["bin"@]
    &&& target.name == name
    &&& target.path == path
    &&& !target.doctest
}

/// A package builds the library of its manifest, its build script and its
/// programs, in that order and each where there is one. Where there is none of
/// them, or no manifest, it builds a default library.
pub proof fn law_targets(name: Seq<char>, manifest: ManifestView)
    ensures
        ({
            let built = targets(name, Some(manifest));
            let lib: int = if manifest.lib.has_lib == Some(true) {
                1
            } else {
                0
            };
            let script: int = if manifest.has_build_rs {
                1
            } else {
                0
            };
            let bins = manifest.bin_targets;
            let n = lib + script + bins.len();
            &&& n == 0 ==> built.len() == 1 && is_default_lib(built[0], name)
            &&& n > 0 ==> built.len() == n
            &&& lib == 1 ==> is_lib_of(built[0], name, manifest)
            &&& script == 1 ==> is_build_script_of(built[lib], manifest)
            &&& forall|i: int|
                0 <= i < bins.len() ==> is_program(
                    #[trigger] built[lib + script + i],
                    bins[i].0,
                    bins[i].1,
                )
        }),
        ({
            let built = targets(name, None);
            built.len() == 1 && is_default_lib(built[0], name)
        }),
{
    let built = targets(name, Some(manifest));
    let first = lib_of(name, manifest) + build_script_of(manifest);
    let bins = bins_of(manifest);
    assert forall|i: int| 0 <= i < bins.len() implies is_program(
        #[trigger] built[first.len() + i],
        manifest.bin_targets[i].0,
        manifest.bin_targets[i].1,
    ) by {
        assert(built[first.len() + i] == bins[i]);
    }
}

/// Each `[[bin]]` table of a manifest that gives a name and a path is built as a
/// program of that name from the root file at that path.
pub proof fn law_declared_program_built(
    name: Seq<char>,
    manifest: TomlView,
    workspace_package: Option<TomlView>,
    workspace_deps: Option<TomlView>,
    files: CrateFiles,
    tables: Seq<TomlView>,
    i: int,
    bin: Seq<char>,
    path: Seq<char>,
)
    requires
        manifest.get("bin"@) == Some(TomlView::Array(tables)),
        0 <= i < tables.len(),
        tables[i].get("name"@) == Some(TomlView::Str(bin)),
        tables[i].get("path"@) == Some(TomlView::Str(path)),
    ensures
        ({
            let data = manifest_data(manifest, workspace_package, workspace_deps, files);
            let built = targets(name, Some(data));
            exists|j: int| 0 <= j < built.len() && is_program(#[trigger] built[j], bin, path)
        }),
{
    let data = manifest_data(manifest, workspace_package, workspace_deps, files);
    law_programs(manifest, workspace_package, workspace_deps, files);
    law_targets(name, data);
    let lib: int = if data.lib.has_lib == Some(true) {
        1
    } else {
        0
    };
    let script: int = if data.has_build_rs {
        1
    } else {
        0
    };
    assert(data.bin_targets[i] == (bin, path));
    assert(is_program(targets(name, Some(data))[lib + script + i], bin, path));
}

/// Whether a value is the written form of a target.
pub open spec fn is_target_written(
    written: JsonView,
    target: TargetView,
    src_path: Seq<char>,
    edition: Seq<char>,
) -> bool {
    &&& written.get("kind"@) == Some(text_array(target.kind))
    &&& written.get("crate_types"@) == Some(text_array(target.crate_types))
    &&& written.get("name"@) == Some(JsonView::Str(target.name))
    &&& written.get("src_path"@) == Some(JsonView::Str(src_path))
    &&& written.get("edition"@) == Some(JsonView::Str(edition))
    &&& written.get("doctest"@) == Some(JsonView::Bool(target.doctest))
}

/// The written form of a target holds what the target does.
proof fn lemma_target_written(target: TargetView, src_path: Seq<char>, edition: Seq<char>)
    ensures
        is_target_written(
            object(target_fields(target, src_path, edition)),
            target,
            src_path,
            edition,
        ),
{
    reveal_strlit("kind");
    reveal_strlit("crate_types");
    reveal_strlit("name");
    reveal_strlit("src_path");
    reveal_strlit("edition");
    reveal_strlit("doctest");
    assert("kind"@.len() == 4 && "name"@.len() == 4 && "kind"@[0] != "name"@[0]);
    assert("crate_types"@.len() == 11 && "src_path"@.len() == 8);
    assert("edition"@.len() == 7 && "doctest"@.len() == 7 && "edition"@[0] != "doctest"@[0]);
    let fields = target_fields(target, src_path, edition);
    law_object_fields(fields);
    assert(fields[0].0 == "kind"@ && fields[1].0 == "crate_types"@ && fields[2].0 == "name"@);
    assert(fields[3].0 == "src_path"@ && fields[4].0 == "edition"@ && fields[5].0 == "doctest"@);
}

/// The written form of a package holds under their keys what the lock file says of
/// it, the dependencies that it declares and the targets that it builds, each with
/// the path of its root file, and what its manifest says, or the defaults without
/// one.
pub proof fn law_package_written(
    pkg: LockPackageView,
    manifest: Option<ManifestView>,
    manifest_path: Seq<char>,
    src_paths: Seq<Seq<char>>,
)
    ensures
        ({
            let written = package_json(pkg, manifest, manifest_path, src_paths);
            let edition = match manifest {
                Some(m) => m.edition,
                None => "2015"@,
            };
            let declared = declared_deps(pkg, manifest);
            let built = targets(pkg.name, manifest);
            &&& written.get("name"@) == Some(JsonView::Str(pkg.name))
            &&& written.get("version"@) == Some(JsonView::Str(pkg.version))
            &&& written.get("id"@) == Some(JsonView::Str(pkg.id()))
            &&& written.get("source"@) == Some(
                match pkg.source {
                    Some(source) => JsonView::Str(source),
                    None => JsonView::Null,
                },
            )
            &&& written.get("dependencies"@) matches Some(JsonView::Array(deps)) && deps.len()
                == declared.len() && forall|i: int|
                0 <= i < deps.len() ==> #[trigger] deps[i] == dep_json(
                    declared[i].spec,
                    declared[i].kind,
                    declared[i].target,
                )
            &&& written.get("targets"@) matches Some(JsonView::Array(items)) && items.len()
                == built.len() && forall|i: int|
                0 <= i < items.len() ==> is_target_written(
                    #[trigger] items[i],
                    built[i],
                    src_paths[i],
                    edition,
                )
            &&& written.get("manifest_path"@) == Some(JsonView::Str(manifest_path))
            &&& written.get("edition"@) == Some(JsonView::Str(edition))
            &&& match manifest {
                Some(m) => {
                    &&& written.get("features"@) == Some(features_json(m.features))
                    &&& written.get("authors"@) == Some(text_array(m.authors))
                    &&& written.get("links"@) == Some(
                        match m.links {
                            Some(links) => JsonView::Str(links),
                            None => JsonView::Null,
                        },
                    )
                },
                None => {
                    &&& written.get("features"@) matches Some(features) && features is Object
                        && forall|key: Seq<char>| (#[trigger] features.get(key)) is None
                    &&& written.get("authors"@) == Some(JsonView::Array(Seq::empty()))
                    &&& written.get("links"@) == Some(JsonView::Null)
                },
            }
        }),
{
    reveal_strlit("name");
    reveal_strlit("version");
    reveal_strlit("id");
    reveal_strlit("source");
    reveal_strlit("dependencies");
    reveal_strlit("targets");
    reveal_strlit("features");
    reveal_strlit("manifest_path");
    reveal_strlit("edition");
    reveal_strlit("authors");
    reveal_strlit("links");
    assert("name"@.len() == 4 && "id"@.len() == 2 && "source"@.len() == 6);
    assert("dependencies"@.len() == 12 && "features"@.len() == 8);
    assert("manifest_path"@.len() == 13 && "links"@.len() == 5);
    assert("version"@.len() == 7 && "targets"@.len() == 7);
    assert("edition"@.len() == 7 && "authors"@.len() == 7);
    assert("version"@[0] == 'v' && "targets"@[0] == 't');
    assert("edition"@[0] == 'e' && "authors"@[0] == 'a');
    let fields = package_fields(pkg, manifest, manifest_path, src_paths);
    law_object_fields(fields);
    assert(fields[0].0 == "name"@ && fields[1].0 == "version"@ && fields[2].0 == "id"@);
    assert(fields[3].0 == "source"@ && fields[4].0 == "dependencies"@);
    assert(fields[5].0 == "targets"@ && fields[6].0 == "features"@);
    assert(fields[7].0 == "manifest_path"@ && fields[8].0 == "edition"@);
    assert(fields[9].0 == "authors"@ && fields[10].0 == "links"@);
    let edition = match manifest {
        Some(m) => m.edition,
        None => "2015"@,
    };
    let built = targets(pkg.name, manifest);
    let items = package_json(pkg, manifest, manifest_path, src_paths).get(
        "targets"@,
    )->0->Array_0;
    assert forall|i: int| 0 <= i < items.len() implies is_target_written(
        #[trigger] items[i],
        built[i],
        src_paths[i],
        edition,
    ) by {
        lemma_target_written(built[i], src_paths[i], edition);
    }
    if manifest is None {
        assert(text_array(Seq::empty())->Array_0 =~= Seq::<JsonView>::empty());
    }
}

} // verus!
