//! Laws of manifests.

use crate::dependency::{single_dep, DepKind, DepSpecView};
use crate::features::features_of;
use crate::laws::dependency::law_dep_taken_over;
use crate::manifest::{manifest_data, target_sections, CrateFiles, TargetDepsView};
use crate::toml_value::TomlView;
use vstd::prelude::*;

verus! {

/// The value at a key of the `[package]` table.
pub open spec fn package_setting(manifest: TomlView, key: Seq<char>) -> Option<TomlView> {
    match manifest.get("package"@) {
        Some(package) => package.get(key),
        None => None,
    }
}

/// The value that the workspace has for a setting that is left to it.
pub open spec fn left_to_workspace(
    setting: Option<TomlView>,
    workspace_package: Option<TomlView>,
    key: Seq<char>,
) -> Option<TomlView> {
    match (setting, workspace_package) {
        (Some(value), Some(shared)) if value.get("workspace"@) == Some(
            TomlView::Boolean(true),
        ) => shared.get(key),
        _ => None,
    }
}

/// The edition is the package's own, or, where the package leaves it to the
/// workspace, the workspace's; it is 2015 where neither says one.
pub proof fn law_edition(
    manifest: TomlView,
    workspace_package: Option<TomlView>,
    workspace_deps: Option<TomlView>,
    files: CrateFiles,
)
    ensures
        ({
            let edition = manifest_data(
                manifest,
                workspace_package,
                workspace_deps,
                files,
            ).edition;
            let own = package_setting(manifest, "edition"@);
            let shared = left_to_workspace(own, workspace_package, "edition"@);
            match (own, shared) {
                (Some(TomlView::Str(text)), _) if text.len() > 0 => edition == text,
                (Some(TomlView::Str(_)), _) => edition == "2015"@,
                (_, Some(TomlView::Str(text))) if text.len() > 0 => edition == text,
                _ => edition == "2015"@,
            }
        }),
{
}

/// The authors are the package's own, or, where the package leaves them to the
/// workspace, the workspace's; the native library, the program to run and the
/// features are the package's own.
pub proof fn law_package_settings(
    manifest: TomlView,
    workspace_package: Option<TomlView>,
    workspace_deps: Option<TomlView>,
    files: CrateFiles,
)
    ensures
        ({
            let data = manifest_data(manifest, workspace_package, workspace_deps, files);
            let own = package_setting(manifest, "authors"@);
            let shared = left_to_workspace(own, workspace_package, "authors"@);
            &&& match (own, shared) {
                (Some(TomlView::Array(items)), _) => data.authors == TomlView::Array(items).texts(),
                (_, Some(TomlView::Array(items))) => data.authors == TomlView::Array(items).texts(),
                _ => data.authors.len() == 0,
            }
            &&& data.links == match package_setting(manifest, "links"@) {
                Some(TomlView::Str(text)) => Some(text),
                _ => None,
            }
            &&& data.features == features_of(manifest)
            &&& data.default_run == match package_setting(manifest, "default-run"@) {
                Some(TomlView::Str(text)) => Some(text),
                _ => None,
            }
        }),
{
}

/// There is a build script where the package names one, and under that name; or
/// where it says that there is one; or, where it says nothing, where the default
/// file is there.
pub proof fn law_build_script(
    manifest: TomlView,
    workspace_package: Option<TomlView>,
    workspace_deps: Option<TomlView>,
    files: CrateFiles,
)
    ensures
        ({
            let data = manifest_data(manifest, workspace_package, workspace_deps, files);
            match package_setting(manifest, "build"@) {
                Some(TomlView::Str(path)) => if path.len() > 0 {
                    data.has_build_rs && data.build_script_path == Some(path)
                } else {
                    !data.has_build_rs && data.build_script_path is None
                },
                Some(TomlView::Boolean(setting)) => data.has_build_rs == setting
                    && data.build_script_path is None,
                Some(_) => !data.has_build_rs && data.build_script_path is None,
                None => data.has_build_rs == files.build_rs && data.build_script_path is None,
            }
        }),
{
}

/// A `[lib]` table declares a library with the name, path and crate types that it
/// gives. It is a procedural macro where the table says so or gives that crate
/// type. Without a table there is a library, of default settings, unless there are
/// sources without its root file.
pub proof fn law_library(
    manifest: TomlView,
    workspace_package: Option<TomlView>,
    workspace_deps: Option<TomlView>,
    files: CrateFiles,
)
    ensures
        ({
            let lib = manifest_data(manifest, workspace_package, workspace_deps, files).lib;
            match manifest.get("lib"@) {
                Some(table) => {
                    let types = match table.get("crate-type"@) {
                        Some(value) => Some(value),
                        None => table.get("crate_type"@),
                    };
                    let setting = match table.get("proc-macro"@) {
                        Some(value) => Some(value),
                        None => table.get("proc_macro"@),
                    };
                    &&& lib.has_lib == Some(true)
                    &&& lib.name == match table.get("name"@) {
                        Some(TomlView::Str(name)) => Some(name),
                        _ => None,
                    }
                    &&& lib.path == match table.get("path"@) {
                        Some(TomlView::Str(path)) => Some(path),
                        _ => None,
                    }
                    &&& match types {
                        Some(value) => lib.crate_types == value.texts(),
                        None => lib.crate_types.len() == 0,
                    }
                    &&& lib.is_proc_macro <==> setting == Some(TomlView::Boolean(true))
                        || lib.crate_types.contains("proc-macro"@)
                },
                None => {
                    &&& lib.has_lib == Some(true) <==> files.lib_rs || !files.src
                    &&& lib.has_lib != Some(false)
                    &&& lib.name is None
                    &&& lib.path is None
                    &&& lib.crate_types.len() == 0
                    &&& !lib.is_proc_macro
                },
            }
        }),
{
}

/// Each `[[bin]]` table declares a program, in order, with the name and the path
/// that it gives. Without such tables the package's own program is there where its
/// root file is.
pub proof fn law_programs(
    manifest: TomlView,
    workspace_package: Option<TomlView>,
    workspace_deps: Option<TomlView>,
    files: CrateFiles,
)
    ensures
        ({
            let bins = manifest_data(
                manifest,
                workspace_package,
                workspace_deps,
                files,
            ).bin_targets;
            match manifest.get("bin"@) {
                Some(TomlView::Array(tables)) => {
                    &&& bins.len() == tables.len()
                    &&& forall|i: int|
                        0 <= i < tables.len() ==> {
                            &&& (#[trigger] bins[i]).0 == match tables[i].get("name"@) {
                                Some(TomlView::Str(name)) => name,
                                _ => "unknown"@,
                            }
                            &&& bins[i].1 == match tables[i].get("path"@) {
                                Some(TomlView::Str(path)) => path,
                                _ => "src/main.rs"@,
                            }
                        }
                },
                _ => if files.main_rs {
                    &&& bins.len() == 1
                    &&& bins[0].1 == "src/main.rs"@
                    &&& bins[0].0 == match package_setting(manifest, "name"@) {
                        Some(TomlView::Str(name)) => name,
                        _ => "unknown"@,
                    }
                } else {
                    bins.len() == 0
                },
            }
        }),
{
}

/// Whether some dependencies are those that a table declares, one for each of its
/// entries and in order.
pub open spec fn are_declared(
    deps: Seq<DepSpecView>,
    table: Option<TomlView>,
    workspace_deps: Option<TomlView>,
) -> bool {
    match table {
        Some(TomlView::Table(entries)) => {
            &&& deps.len() == entries.len()
            &&& forall|i: int|
                0 <= i < deps.len() ==> #[trigger] deps[i] == single_dep(
                    entries[i].0,
                    entries[i].1,
                    workspace_deps,
                )
        },
        _ => deps.len() == 0,
    }
}

/// The dependencies of the crate, of its build script and of its tests are those
/// that the tables of these names declare, read with the workspace's declarations.
pub proof fn law_dependencies(
    manifest: TomlView,
    workspace_package: Option<TomlView>,
    workspace_deps: Option<TomlView>,
    files: CrateFiles,
)
    ensures
        ({
            let data = manifest_data(manifest, workspace_package, workspace_deps, files);
            &&& are_declared(data.normal_deps, manifest.get("dependencies"@), workspace_deps)
            &&& are_declared(data.build_deps, manifest.get("build-dependencies"@), workspace_deps)
            &&& are_declared(data.dev_deps, manifest.get("dev-dependencies"@), workspace_deps)
        }),
{
}

/// The table of a platform that declares dependencies of a kind.
pub open spec fn platform_table(platform: TomlView, kind: DepKind) -> Option<TomlView> {
    match kind {
        DepKind::Normal => platform.get("dependencies"@),
        DepKind::Build => platform.get("build-dependencies"@),
        DepKind::Dev => platform.get("dev-dependencies"@),
    }
}

/// Whether there are entries in a table.
pub open spec fn has_entries(table: Option<TomlView>) -> bool {
    table matches Some(value) && value matches TomlView::Table(entries) && entries.len() > 0
}

/// Whether some dependencies are those that a platform declares of their kind.
pub open spec fn are_of_platform(
    section: TargetDepsView,
    platform: (Seq<char>, TomlView),
    workspace_deps: Option<TomlView>,
) -> bool {
    &&& section.target == platform.0
    &&& section.deps.len() > 0
    &&& are_declared(section.deps, platform_table(platform.1, section.kind), workspace_deps)
}

/// A manifest without platforms has no dependencies by platform, and one more
/// platform adds its own at the end: those of the crate, of the build script and
/// of the tests, each where there are any.
pub proof fn law_platform_added(
    platforms: Seq<(Seq<char>, TomlView)>,
    platform: (Seq<char>, TomlView),
    workspace_deps: Option<TomlView>,
)
    ensures
        target_sections(Seq::empty(), workspace_deps).len() == 0,
        ({
            let before = target_sections(platforms, workspace_deps);
            let after = target_sections(platforms.push(platform), workspace_deps);
            let normal: int = if has_entries(platform_table(platform.1, DepKind::Normal)) {
                1
            } else {
                0
            };
            let build: int = if has_entries(platform_table(platform.1, DepKind::Build)) {
                1
            } else {
                0
            };
            let dev: int = if has_entries(platform_table(platform.1, DepKind::Dev)) {
                1
            } else {
                0
            };
            let n = before.len() as int;
            &&& before.is_prefix_of(after)
            &&& after.len() == n + normal + build + dev
            &&& normal == 1 ==> after[n].kind == DepKind::Normal
            &&& build == 1 ==> after[n + normal].kind == DepKind::Build
            &&& dev == 1 ==> after[n + normal + build].kind == DepKind::Dev
            &&& forall|j: int|
                n <= j < after.len() ==> are_of_platform(
                    #[trigger] after[j],
                    platform,
                    workspace_deps,
                )
        }),
{
    let all = platforms.push(platform);
    assert(all.drop_last() =~= platforms);
    assert(all.last() == platform);
    let before = target_sections(platforms, workspace_deps);
    let after = target_sections(all, workspace_deps);
    assert(before =~= after.take(before.len() as int));
}

/// The dependencies by platform of a manifest are those of its `[target]` table,
/// and there are none without one.
pub proof fn law_platforms(
    manifest: TomlView,
    workspace_package: Option<TomlView>,
    workspace_deps: Option<TomlView>,
    files: CrateFiles,
)
    ensures
        ({
            let sections = manifest_data(
                manifest,
                workspace_package,
                workspace_deps,
                files,
            ).target_deps;
            match manifest.get("target"@) {
                Some(TomlView::Table(platforms)) => sections == target_sections(
                    platforms,
                    workspace_deps,
                ),
                _ => sections.len() == 0,
            }
        }),
{
}

/// The dependencies that a platform declares of one kind are listed.
pub proof fn law_platform_listed(
    platforms: Seq<(Seq<char>, TomlView)>,
    workspace_deps: Option<TomlView>,
    i: int,
    kind: DepKind,
)
    requires
        0 <= i < platforms.len(),
        has_entries(platform_table(platforms[i].1, kind)),
    ensures
        exists|j: int|
            0 <= j < target_sections(platforms, workspace_deps).len() && (
            #[trigger] target_sections(platforms, workspace_deps)[j]).kind == kind
                && are_of_platform(
                target_sections(platforms, workspace_deps)[j],
                platforms[i],
                workspace_deps,
            ),
    decreases platforms.len(),
{
    let rest = platforms.drop_last();
    let before = target_sections(rest, workspace_deps);
    let all = target_sections(platforms, workspace_deps);
    assert(rest.push(platforms.last()) =~= platforms);
    law_platform_added(rest, platforms.last(), workspace_deps);
    if i < rest.len() {
        law_platform_listed(rest, workspace_deps, i, kind);
        let j = choose|j: int|
            0 <= j < before.len() && (#[trigger] before[j]).kind == kind && are_of_platform(
                before[j],
                rest[i],
                workspace_deps,
            );
        assert(all[j] == before[j]);
    } else {
        let n = before.len() as int;
        let platform = platforms[i].1;
        let normal: int = if has_entries(platform_table(platform, DepKind::Normal)) {
            1
        } else {
            0
        };
        let build: int = if has_entries(platform_table(platform, DepKind::Build)) {
            1
        } else {
            0
        };
        match kind {
            DepKind::Normal => {
                assert(are_of_platform(all[n], platforms[i], workspace_deps));
            },
            DepKind::Build => {
                assert(are_of_platform(all[n + normal], platforms[i], workspace_deps));
            },
            DepKind::Dev => {
                assert(are_of_platform(all[n + normal + build], platforms[i], workspace_deps));
            },
        }
    }
}

/// Whether a dependency is an entry taken over from the workspace's declaration of
/// its key: with the requirement, the package and the source of the declaration,
/// and its features followed by those of the entry.
pub open spec fn is_taken_over(
    dep: DepSpecView,
    key: Seq<char>,
    entry: TomlView,
    shared: TomlView,
) -> bool {
    let base = single_dep(key, shared, None);
    &&& dep.name == key
    &&& dep.version_req == base.version_req
    &&& dep.package == base.package
    &&& dep.source == base.source
    &&& dep.features == base.features + entry.texts_at("features"@)
}

/// Whether every entry of a table that is taken over from the workspace is so
/// among some dependencies.
pub open spec fn takes_over(
    deps: Seq<DepSpecView>,
    table: Option<TomlView>,
    workspace_deps: TomlView,
) -> bool {
    forall|entries: Seq<(Seq<char>, TomlView)>, i: int|
        table == Some(TomlView::Table(entries)) && 0 <= i < entries.len() && entries[i].1.get(
            "workspace"@,
        ) == Some(TomlView::Boolean(true)) && workspace_deps.get((#[trigger] entries[i]).0) is Some
            ==> i < deps.len() && is_taken_over(
            deps[i],
            entries[i].0,
            entries[i].1,
            workspace_deps.get(entries[i].0)->0,
        )
}

/// Declared dependencies are taken over from the workspace where they are to be.
proof fn lemma_takes_over(
    deps: Seq<DepSpecView>,
    table: Option<TomlView>,
    workspace_deps: TomlView,
)
    requires
        are_declared(deps, table, Some(workspace_deps)),
    ensures
        takes_over(deps, table, workspace_deps),
{
    assert forall|entries: Seq<(Seq<char>, TomlView)>, i: int|
        table == Some(TomlView::Table(entries)) && 0 <= i < entries.len() && entries[i].1.get(
            "workspace"@,
        ) == Some(TomlView::Boolean(true)) && workspace_deps.get(
            (#[trigger] entries[i]).0,
        ) is Some implies i < deps.len() && is_taken_over(
        deps[i],
        entries[i].0,
        entries[i].1,
        workspace_deps.get(entries[i].0)->0,
    ) by {
        assert(deps[i] == single_dep(entries[i].0, entries[i].1, Some(workspace_deps)));
        law_dep_taken_over(
            entries[i].0,
            entries[i].1,
            workspace_deps,
            workspace_deps.get(entries[i].0)->0,
        );
    }
}

/// In every dependency table of a manifest, those by platform included, the
/// entries that are left to the workspace are taken over from its declarations.
pub proof fn law_taken_over_everywhere(
    manifest: TomlView,
    workspace_package: Option<TomlView>,
    workspace_deps: TomlView,
    files: CrateFiles,
)
    ensures
        ({
            let data = manifest_data(manifest, workspace_package, Some(workspace_deps), files);
            &&& takes_over(data.normal_deps, manifest.get("dependencies"@), workspace_deps)
            &&& takes_over(data.build_deps, manifest.get("build-dependencies"@), workspace_deps)
            &&& takes_over(data.dev_deps, manifest.get("dev-dependencies"@), workspace_deps)
            &&& forall|platforms: Seq<(Seq<char>, TomlView)>, i: int, kind: DepKind|
                manifest.get("target"@) == Some(TomlView::Table(platforms)) && 0 <= i
                    < platforms.len() && has_entries(
                    #[trigger] platform_table(platforms[i].1, kind),
                ) ==> exists|j: int|
                    0 <= j < data.target_deps.len() && (#[trigger] data.target_deps[j]).target
                        == platforms[i].0 && data.target_deps[j].kind == kind && takes_over(
                        data.target_deps[j].deps,
                        platform_table(platforms[i].1, kind),
                        workspace_deps,
                    )
        }),
{
    let shared = Some(workspace_deps);
    let data = manifest_data(manifest, workspace_package, shared, files);
    law_dependencies(manifest, workspace_package, shared, files);
    lemma_takes_over(data.normal_deps, manifest.get("dependencies"@), workspace_deps);
    lemma_takes_over(data.build_deps, manifest.get("build-dependencies"@), workspace_deps);
    lemma_takes_over(data.dev_deps, manifest.get("dev-dependencies"@), workspace_deps);
    law_platforms(manifest, workspace_package, shared, files);
    assert forall|platforms: Seq<(Seq<char>, TomlView)>, i: int, kind: DepKind|
        manifest.get("target"@) == Some(TomlView::Table(platforms)) && 0 <= i < platforms.len()
            && has_entries(#[trigger] platform_table(platforms[i].1, kind)) implies exists|j: int|
        0 <= j < data.target_deps.len() && (#[trigger] data.target_deps[j]).target
            == platforms[i].0 && data.target_deps[j].kind == kind && takes_over(
            data.target_deps[j].deps,
            platform_table(platforms[i].1, kind),
            workspace_deps,
        ) by {
        law_platform_listed(platforms, shared, i, kind);
        let sections = target_sections(platforms, shared);
        let j = choose|j: int|
            0 <= j < sections.len() && (#[trigger] sections[j]).kind == kind && are_of_platform(
                sections[j],
                platforms[i],
                shared,
            );
        assert(data.target_deps[j] == sections[j]);
        lemma_takes_over(
            sections[j].deps,
            platform_table(platforms[i].1, kind),
            workspace_deps,
        );
    }
}

} // verus!
