//! What a manifest says of a package.

use crate::dependency::{
    dep_table, distinct_deps, inherits, law_table_declares_keys, parse_dep_table, DepKind, DepSpec,
    DepSpecView,
};
use crate::error::LockfileError;
use crate::features::{features_of, parse_features, FeatureMap, Features};
use crate::text::{own_optional, same_text};
use crate::toml_value::{
    lemma_fields_well_keyed, lemma_get_well_keyed, parse_toml, toml_document, well_keyed, Toml,
    TomlView,
};
use vstd::prelude::*;

verus! {

/// Which files of a crate are there.
#[derive(Debug, Clone, Copy)]
pub struct CrateFiles {
    /// Whether there is a `build.rs`.
    pub build_rs: bool,
    /// Whether there is a `src` directory.
    pub src: bool,
    /// Whether there is a `src/lib.rs`.
    pub lib_rs: bool,
    /// Whether there is a `src/main.rs`.
    pub main_rs: bool,
}

/// The library of a package.
#[derive(Debug)]
pub struct LibTarget {
    /// Whether there is one; nothing where the files say that there is none.
    pub has_lib: Option<bool>,
    /// Its name.
    pub name: Option<String>,
    /// The path of its root file.
    pub path: Option<String>,
    /// The types of crate that it is built as.
    pub crate_types: Vec<String>,
    /// Whether it is a procedural macro.
    pub is_proc_macro: bool,
}

/// What a `LibTarget` stands for.
#[verifier::ext_equal]
pub struct LibTargetView {
    pub has_lib: Option<bool>,
    pub name: Option<Seq<char>>,
    pub path: Option<Seq<char>>,
    pub crate_types: Seq<Seq<char>>,
    pub is_proc_macro: bool,
}

impl DeepView for LibTarget {
    type V = LibTargetView;

    open spec fn deep_view(&self) -> LibTargetView {
        LibTargetView {
            has_lib: self.has_lib,
            name: self.name.deep_view(),
            path: self.path.deep_view(),
            crate_types: self.crate_types.deep_view(),
            is_proc_macro: self.is_proc_macro,
        }
    }
}

/// Whether a `[lib]` table declares a procedural macro, by its setting or by its
/// crate types.
pub open spec fn declares_proc_macro(lib: TomlView, crate_types: Seq<Seq<char>>) -> bool {
    ||| lib.get_either("proc-macro"@, "proc_macro"@) matches Some(value) && value.boolean() == Some(
        true,
    )
    ||| crate_types.contains("proc-macro"@)
}

/// The library of a package: as the `[lib]` table says or, without one, a
/// library of default settings if its root file is there or there are no
/// sources to look at.
pub open spec fn lib_target(manifest: TomlView, files: CrateFiles) -> LibTargetView {
    match manifest.get("lib"@) {
        Some(lib) => {
            let crate_types = match lib.get_either("crate-type"@, "crate_type"@) {
                Some(value) => value.texts(),
                None => Seq::empty(),
            };
            LibTargetView {
                has_lib: Some(true),
                name: lib.text_at("name"@),
                path: lib.text_at("path"@),
                crate_types,
                is_proc_macro: declares_proc_macro(lib, crate_types),
            }
        },
        None => LibTargetView {
            has_lib: if files.lib_rs || !files.src {
                Some(true)
            } else {
                None
            },
            name: None,
            path: None,
            crate_types: Seq::empty(),
            is_proc_macro: false,
        },
    }
}

/// Whether a text is in a list.
fn contains_entry(list: &Vec<String>, text: &str) -> (found: bool)
    ensures
        found == list.deep_view().contains(text@),
{
    let ghost all = list.deep_view();
    let mut i: usize = 0;
    while i < list.len()
        invariant
            i <= list.len(),
            all == list.deep_view(),
            forall|j: int| 0 <= j < i ==> #[trigger] all[j] != text@,
        decreases list.len() - i,
    {
        assert(all[i as int] == list@[i as int]@);
        if same_text(list[i].as_str(), text) {
            return true;
        }
        i = i + 1;
    }
    false
}

/// Parses the `[lib]` table of a manifest.
pub fn parse_lib_target(manifest: &Toml, files: &CrateFiles) -> (lib: LibTarget)
    ensures
        lib.deep_view() == lib_target(manifest.deep_view(), *files),
{
    match manifest.get("lib") {
        Some(lib) => {
            let crate_types: Vec<String> = match lib.get_either("crate-type", "crate_type") {
                Some(value) => value.texts(),
                None => Vec::new(),
            };
            let setting: bool = match lib.get_either("proc-macro", "proc_macro") {
                Some(value) => match value.as_bool() {
                    Some(on) => on,
                    None => false,
                },
                None => false,
            };
            assert(crate_types.deep_view() =~= match lib.deep_view().get_either(
                "crate-type"@,
                "crate_type"@,
            ) {
                Some(value) => value.texts(),
                None => Seq::empty(),
            });
            let is_proc_macro = setting || contains_entry(&crate_types, "proc-macro");
            LibTarget {
                has_lib: Some(true),
                name: own_optional(lib.text_at("name")),
                path: own_optional(lib.text_at("path")),
                crate_types,
                is_proc_macro,
            }
        },
        None => {
            let lib = LibTarget {
                has_lib: if files.lib_rs || !files.src {
                    Some(true)
                } else {
                    None
                },
                name: None,
                path: None,
                crate_types: Vec::new(),
                is_proc_macro: false,
            };
            assert(lib.crate_types.deep_view() =~= Seq::empty());
            lib
        },
    }
}

/// A text, or another where there is none.
pub open spec fn text_or(text: Option<Seq<char>>, other: Seq<char>) -> Seq<char> {
    match text {
        Some(s) => s,
        None => other,
    }
}

/// Takes ownership of a text, or of another where there is none.
fn own_or(text: Option<&str>, other: &str) -> (owned: String)
    ensures
        owned@ == text_or(text.deep_view(), other@),
{
    match text {
        Some(s) => s.to_owned(),
        None => other.to_owned(),
    }
}

/// The text at a key of a value that may be missing.
pub open spec fn text_in(value: Option<TomlView>, key: Seq<char>) -> Option<Seq<char>> {
    match value {
        Some(v) => v.text_at(key),
        None => None,
    }
}

/// The text at a key of a value that may be missing.
fn find_text<'a>(value: Option<&'a Toml>, key: &str) -> (text: Option<&'a str>)
    ensures
        text.deep_view() == text_in(value.deep_view(), key@),
{
    match value {
        Some(v) => v.text_at(key),
        None => None,
    }
}

/// The programs of a package as names and paths of root files: as the `[[bin]]`
/// tables say or, without such, the program of the package's name if its root
/// file is there.
pub open spec fn bin_targets(manifest: TomlView, files: CrateFiles) -> Seq<(Seq<char>, Seq<char>)> {
    match manifest.items_at("bin"@) {
        Some(bins) => bins.map_values(
            |bin: TomlView|
                (
                    text_or(bin.text_at("name"@), "unknown"@),
                    text_or(bin.text_at("path"@), "src/main.rs"@),
                ),
        ),
        None => if files.main_rs {
            seq![
                (
                    text_or(text_in(manifest.get("package"@), "name"@), "unknown"@),
                    "src/main.rs"@,
                ),
            ]
        } else {
            Seq::empty()
        },
    }
}

/// Parses the `[[bin]]` tables of a manifest.
pub fn parse_bin_targets(manifest: &Toml, files: &CrateFiles) -> (bins: Vec<(String, String)>)
    ensures
        bins.deep_view() == bin_targets(manifest.deep_view(), *files),
{
    let ghost views = bin_targets(manifest.deep_view(), *files);
    let mut bins: Vec<(String, String)> = Vec::new();
    match manifest.array_at("bin") {
        Some(tables) => {
            let mut i: usize = 0;
            while i < tables.len()
                invariant
                    i <= tables.len(),
                    views == bin_targets(manifest.deep_view(), *files),
                    manifest.deep_view().items_at("bin"@) == Some(tables.deep_view()),
                    bins.len() == i,
                    forall|j: int| 0 <= j < i ==> (#[trigger] bins@[j]).deep_view() == views[j],
                decreases tables.len() - i,
            {
                let bin = &tables[i];
                bins.push(
                    (
                        own_or(bin.text_at("name"), "unknown"),
                        own_or(bin.text_at("path"), "src/main.rs"),
                    ),
                );
                i = i + 1;
            }
        },
        None => {
            if files.main_rs {
                let name = own_or(find_text(manifest.get("package"), "name"), "unknown");
                bins.push((name, "src/main.rs".to_owned()));
            }
        },
    }
    assert(bins.deep_view() =~= views);
    bins
}

/// The dependencies for one platform and one purpose.
#[derive(Debug)]
pub struct TargetDeps {
    /// The platform.
    pub target: String,
    /// The dependencies.
    pub deps: Vec<DepSpec>,
    /// What they are for.
    pub kind: DepKind,
}

/// What a `TargetDeps` stands for.
#[verifier::ext_equal]
pub struct TargetDepsView {
    pub target: Seq<char>,
    pub deps: Seq<DepSpecView>,
    pub kind: DepKind,
}

impl DeepView for TargetDeps {
    type V = TargetDepsView;

    open spec fn deep_view(&self) -> TargetDepsView {
        TargetDepsView { target: self.target@, deps: self.deps.deep_view(), kind: self.kind }
    }
}

/// The dependencies of one table for one platform, if there are any.
pub open spec fn target_section(
    target: Seq<char>,
    table: Option<TomlView>,
    kind: DepKind,
    workspace_deps: Option<TomlView>,
) -> Seq<TargetDepsView> {
    let deps = dep_table(table, workspace_deps);
    if deps.len() == 0 {
        Seq::empty()
    } else {
        seq![TargetDepsView { target, deps, kind }]
    }
}

/// The dependencies by platform, in the order of the `[target]` table, and for
/// each platform those of the crate, of the build script and of tests.
pub open spec fn target_sections(
    fields: Seq<(Seq<char>, TomlView)>,
    workspace_deps: Option<TomlView>,
) -> Seq<TargetDepsView>
    decreases fields.len(),
{
    if fields.len() == 0 {
        Seq::empty()
    } else {
        let (target, value) = fields.last();
        target_sections(fields.drop_last(), workspace_deps) + target_section(
            target,
            value.get("dependencies"@),
            DepKind::Normal,
            workspace_deps,
        ) + target_section(target, value.get("build-dependencies"@), DepKind::Build, workspace_deps)
            + target_section(target, value.get("dev-dependencies"@), DepKind::Dev, workspace_deps)
    }
}

/// The dependencies by platform of a manifest.
pub open spec fn target_deps(
    manifest: TomlView,
    workspace_deps: Option<TomlView>,
) -> Seq<TargetDepsView> {
    match manifest.get("target"@) {
        Some(TomlView::Table(fields)) => target_sections(fields, workspace_deps),
        _ => Seq::empty(),
    }
}

/// Adds the dependencies of one table for one platform, if there are any.
fn add_target_section(
    sections: &mut Vec<TargetDeps>,
    target: &str,
    table: Option<&Toml>,
    kind: DepKind,
    workspace_deps: Option<&Toml>,
)
    ensures
        final(sections).deep_view() == old(sections).deep_view() + target_section(
            target@,
            table.deep_view(),
            kind,
            workspace_deps.deep_view(),
        ),
{
    let deps = parse_dep_table(table, workspace_deps);
    if deps.len() > 0 {
        sections.push(TargetDeps { target: target.to_owned(), deps, kind });
    }
    assert(sections.deep_view() =~= old(sections).deep_view() + target_section(
        target@,
        table.deep_view(),
        kind,
        workspace_deps.deep_view(),
    ));
}

/// Parses the `[target]` table of a manifest.
pub fn parse_target_deps(
    manifest: &Toml,
    workspace_deps: Option<&Toml>,
) -> (sections: Vec<TargetDeps>)
    ensures
        sections.deep_view() == target_deps(manifest.deep_view(), workspace_deps.deep_view()),
{
    let mut sections: Vec<TargetDeps> = Vec::new();
    assert(sections.deep_view() =~= Seq::empty());
    if let Some(value) = manifest.get("target") {
        if let Some(table) = value.as_table() {
            let ghost fields = table.deep_view();
            let mut i: usize = 0;
            assert(fields.take(0) =~= Seq::empty());
            while i < table.len()
                invariant
                    i <= table.len(),
                    fields == table.deep_view(),
                    sections.deep_view() == target_sections(
                        fields.take(i as int),
                        workspace_deps.deep_view(),
                    ),
                decreases table.len() - i,
            {
                proof {
                    assert(fields.take(i + 1).drop_last() =~= fields.take(i as int));
                    assert(fields.take(i + 1).last() == table@[i as int].deep_view());
                }
                let target: &str = table[i].0.as_str();
                let entry = &table[i].1;
                add_target_section(
                    &mut sections,
                    target,
                    entry.get("dependencies"),
                    DepKind::Normal,
                    workspace_deps,
                );
                add_target_section(
                    &mut sections,
                    target,
                    entry.get("build-dependencies"),
                    DepKind::Build,
                    workspace_deps,
                );
                add_target_section(
                    &mut sections,
                    target,
                    entry.get("dev-dependencies"),
                    DepKind::Dev,
                    workspace_deps,
                );
                i = i + 1;
            }
            assert(fields.take(fields.len() as int) =~= fields);
        }
    }
    sections
}

/// What a manifest says of a package.
#[derive(Debug)]
pub struct ManifestData {
    /// The edition of the language.
    pub edition: String,
    /// The authors.
    pub authors: Vec<String>,
    /// The native library that the package links to.
    pub links: Option<String>,
    /// The features.
    pub features: Features,
    /// The dependencies of the crate.
    pub normal_deps: Vec<DepSpec>,
    /// The dependencies of the build script.
    pub build_deps: Vec<DepSpec>,
    /// The dependencies of tests.
    pub dev_deps: Vec<DepSpec>,
    /// The dependencies by platform.
    pub target_deps: Vec<TargetDeps>,
    /// The library.
    pub lib: LibTarget,
    /// Whether there is a build script.
    pub has_build_rs: bool,
    /// The path of the build script, where it is not the default.
    pub build_script_path: Option<String>,
    /// The programs, as names and paths of root files.
    pub bin_targets: Vec<(String, String)>,
    /// The program to run by default.
    pub default_run: Option<String>,
}

/// What a `ManifestData` stands for.
#[verifier::ext_equal]
pub struct ManifestView {
    pub edition: Seq<char>,
    pub authors: Seq<Seq<char>>,
    pub links: Option<Seq<char>>,
    pub features: FeatureMap,
    pub normal_deps: Seq<DepSpecView>,
    pub build_deps: Seq<DepSpecView>,
    pub dev_deps: Seq<DepSpecView>,
    pub target_deps: Seq<TargetDepsView>,
    pub lib: LibTargetView,
    pub has_build_rs: bool,
    pub build_script_path: Option<Seq<char>>,
    pub bin_targets: Seq<(Seq<char>, Seq<char>)>,
    pub default_run: Option<Seq<char>>,
}

impl DeepView for ManifestData {
    type V = ManifestView;

    open spec fn deep_view(&self) -> ManifestView {
        ManifestView {
            edition: self.edition@,
            authors: self.authors.deep_view(),
            links: self.links.deep_view(),
            features: self.features.deep_view(),
            normal_deps: self.normal_deps.deep_view(),
            build_deps: self.build_deps.deep_view(),
            dev_deps: self.dev_deps.deep_view(),
            target_deps: self.target_deps.deep_view(),
            lib: self.lib.deep_view(),
            has_build_rs: self.has_build_rs,
            build_script_path: self.build_script_path.deep_view(),
            bin_targets: self.bin_targets.deep_view(),
            default_run: self.default_run.deep_view(),
        }
    }
}

/// The edition of a package: its own or, where it says so, that of the
/// workspace; the first edition where that gives none or an empty one.
pub open spec fn edition(
    package: Option<TomlView>,
    workspace_package: Option<TomlView>,
) -> Seq<char> {
    let given = match package {
        Some(pkg) => match pkg.get("edition"@) {
            Some(TomlView::Str(own)) => Some(own),
            Some(value) if inherits(value) => text_in(workspace_package, "edition"@),
            _ => None,
        },
        None => None,
    };
    match given {
        Some(text) if text.len() > 0 => text,
        _ => "2015"@,
    }
}

/// The authors of a package: its own or, where it says so, those of the
/// workspace.
pub open spec fn authors(
    package: Option<TomlView>,
    workspace_package: Option<TomlView>,
) -> Seq<Seq<char>> {
    match package {
        Some(pkg) => match pkg.get("authors"@) {
            Some(TomlView::Array(own)) => TomlView::Array(own).texts(),
            Some(value) if inherits(value) && workspace_package is Some =>
                workspace_package->0.texts_at("authors"@),
            _ => Seq::empty(),
        },
        None => Seq::empty(),
    }
}

/// Whether a package has a build script, and the path of one that is not the
/// default: as the package says, else by whether the default file is there.
pub open spec fn build_script(
    package: Option<TomlView>,
    files: CrateFiles,
) -> (bool, Option<Seq<char>>) {
    let setting = match package {
        Some(pkg) => pkg.get("build"@),
        None => None,
    };
    match setting {
        Some(TomlView::Str(path)) => if path.len() > 0 {
            (true, Some(path))
        } else {
            (false, None)
        },
        Some(value) => (value.boolean() == Some(true), None),
        None => (files.build_rs, None),
    }
}

/// What a manifest says of a package, with what the workspace passes on to its
/// members and the files that are there.
pub open spec fn manifest_data(
    manifest: TomlView,
    workspace_package: Option<TomlView>,
    workspace_deps: Option<TomlView>,
    files: CrateFiles,
) -> ManifestView {
    let package = manifest.get("package"@);
    ManifestView {
        edition: edition(package, workspace_package),
        authors: authors(package, workspace_package),
        links: text_in(package, "links"@),
        features: features_of(manifest),
        normal_deps: dep_table(manifest.get("dependencies"@), workspace_deps),
        build_deps: dep_table(manifest.get("build-dependencies"@), workspace_deps),
        dev_deps: dep_table(manifest.get("dev-dependencies"@), workspace_deps),
        target_deps: target_deps(manifest, workspace_deps),
        lib: lib_target(manifest, files),
        has_build_rs: build_script(package, files).0,
        build_script_path: build_script(package, files).1,
        bin_targets: bin_targets(manifest, files),
        default_run: text_in(package, "default-run"@),
    }
}

/// The edition of a package.
fn find_edition(package: Option<&Toml>, workspace_package: Option<&Toml>) -> (text: String)
    ensures
        text@ == edition(package.deep_view(), workspace_package.deep_view()),
{
    let mut given: Option<&str> = None;
    if let Some(pkg) = package {
        if let Some(value) = pkg.get("edition") {
            match value {
                Toml::Str(own) => {
                    given = Some(own.as_str());
                },
                _ => {
                    if value.bool_at("workspace") == Some(true) {
                        given = find_text(workspace_package, "edition");
                    }
                },
            }
        }
    }
    match given {
        Some(text) => {
            if text.is_empty() {
                "2015".to_owned()
            } else {
                text.to_owned()
            }
        },
        None => "2015".to_owned(),
    }
}

/// The authors of a package.
fn find_authors(package: Option<&Toml>, workspace_package: Option<&Toml>) -> (list: Vec<String>)
    ensures
        list.deep_view() == authors(package.deep_view(), workspace_package.deep_view()),
{
    if let Some(pkg) = package {
        if let Some(value) = pkg.get("authors") {
            if value.as_array().is_some() {
                return value.texts();
            }
            if value.bool_at("workspace") == Some(true) {
                if let Some(shared) = workspace_package {
                    return shared.texts_at("authors");
                }
            }
        }
    }
    let none: Vec<String> = Vec::new();
    assert(none.deep_view() =~= Seq::empty());
    none
}

/// Whether a package has a build script, and the path of one that is not the
/// default.
fn find_build_script(package: Option<&Toml>, files: &CrateFiles) -> (script: (bool, Option<String>))
    ensures
        script.deep_view() == build_script(package.deep_view(), *files),
{
    let setting: Option<&Toml> = match package {
        Some(pkg) => pkg.get("build"),
        None => None,
    };
    match setting {
        Some(value) => match value {
            Toml::Str(path) => {
                if path.as_str().is_empty() {
                    (false, None)
                } else {
                    (true, Some(path.clone()))
                }
            },
            _ => (value.as_bool() == Some(true), None),
        },
        None => (files.build_rs, None),
    }
}

/// Takes from a manifest what it says of a package.
pub fn manifest_from_toml(
    manifest: &Toml,
    workspace_package: Option<&Toml>,
    workspace_deps: Option<&Toml>,
    files: &CrateFiles,
) -> (data: ManifestData)
    ensures
        data.deep_view() == manifest_data(
            manifest.deep_view(),
            workspace_package.deep_view(),
            workspace_deps.deep_view(),
            *files,
        ),
{
    let package = manifest.get("package");
    let (has_build_rs, build_script_path) = find_build_script(package, files);
    ManifestData {
        edition: find_edition(package, workspace_package),
        authors: find_authors(package, workspace_package),
        links: own_optional(find_text(package, "links")),
        features: parse_features(manifest),
        normal_deps: parse_dep_table(manifest.get("dependencies"), workspace_deps),
        build_deps: parse_dep_table(manifest.get("build-dependencies"), workspace_deps),
        dev_deps: parse_dep_table(manifest.get("dev-dependencies"), workspace_deps),
        target_deps: parse_target_deps(manifest, workspace_deps),
        lib: parse_lib_target(manifest, files),
        has_build_rs,
        build_script_path,
        bin_targets: parse_bin_targets(manifest, files),
        default_run: own_optional(find_text(package, "default-run")),
    }
}

/// Whether no dependency table of a manifest declares two dependencies under one
/// key.
pub open spec fn has_distinct_deps(manifest: ManifestView) -> bool {
    &&& distinct_deps(manifest.normal_deps)
    &&& distinct_deps(manifest.build_deps)
    &&& distinct_deps(manifest.dev_deps)
    &&& forall|i: int|
        0 <= i < manifest.target_deps.len() ==> distinct_deps(
            (#[trigger] manifest.target_deps[i]).deps,
        )
}

/// The dependencies of a table have distinct keys.
proof fn lemma_distinct_dep_table(table: Option<TomlView>, workspace_deps: Option<TomlView>)
    requires
        table matches Some(value) ==> well_keyed(value),
    ensures
        distinct_deps(dep_table(table, workspace_deps)),
{
    if let Some(TomlView::Table(fields)) = table {
        law_table_declares_keys(fields, workspace_deps);
    }
}

/// The dependencies of each platform have distinct keys.
proof fn lemma_distinct_target_sections(
    fields: Seq<(Seq<char>, TomlView)>,
    workspace_deps: Option<TomlView>,
)
    requires
        forall|i: int| 0 <= i < fields.len() ==> well_keyed((#[trigger] fields[i]).1),
    ensures
        forall|i: int|
            0 <= i < target_sections(fields, workspace_deps).len() ==> distinct_deps(
                (#[trigger] target_sections(fields, workspace_deps)[i]).deps,
            ),
    decreases fields.len(),
{
    if fields.len() > 0 {
        let rest = fields.drop_last();
        let value = fields.last().1;
        assert(well_keyed(fields[fields.len() - 1].1));
        assert forall|i: int| 0 <= i < rest.len() implies well_keyed((#[trigger] rest[i]).1) by {
            assert(rest[i] == fields[i]);
        }
        lemma_distinct_target_sections(rest, workspace_deps);
        lemma_get_well_keyed(value, "dependencies"@);
        lemma_get_well_keyed(value, "build-dependencies"@);
        lemma_get_well_keyed(value, "dev-dependencies"@);
        lemma_distinct_dep_table(value.get("dependencies"@), workspace_deps);
        lemma_distinct_dep_table(value.get("build-dependencies"@), workspace_deps);
        lemma_distinct_dep_table(value.get("dev-dependencies"@), workspace_deps);
        let before = target_sections(rest, workspace_deps);
        let all = target_sections(fields, workspace_deps);
        assert forall|i: int| 0 <= i < all.len() implies distinct_deps((#[trigger] all[i]).deps) by {
            if i < before.len() {
                assert(all[i] == before[i]);
            }
        }
    }
}

/// A manifest in which no table has a key twice declares no two dependencies
/// under one key of a table.
pub proof fn law_manifest_deps_distinct(
    manifest: TomlView,
    workspace_package: Option<TomlView>,
    workspace_deps: Option<TomlView>,
    files: CrateFiles,
)
    requires
        well_keyed(manifest),
    ensures
        has_distinct_deps(manifest_data(manifest, workspace_package, workspace_deps, files)),
{
    lemma_get_well_keyed(manifest, "dependencies"@);
    lemma_get_well_keyed(manifest, "build-dependencies"@);
    lemma_get_well_keyed(manifest, "dev-dependencies"@);
    lemma_get_well_keyed(manifest, "target"@);
    lemma_distinct_dep_table(manifest.get("dependencies"@), workspace_deps);
    lemma_distinct_dep_table(manifest.get("build-dependencies"@), workspace_deps);
    lemma_distinct_dep_table(manifest.get("dev-dependencies"@), workspace_deps);
    if let Some(TomlView::Table(fields)) = manifest.get("target"@) {
        lemma_fields_well_keyed(fields);
        lemma_distinct_target_sections(fields, workspace_deps);
    }
}

/// Reads a manifest. No two dependencies are declared under one key of a table.
pub fn read_manifest(
    text: &str,
    workspace_package: Option<&Toml>,
    workspace_deps: Option<&Toml>,
    files: &CrateFiles,
) -> (data: Result<ManifestData, LockfileError>)
    ensures
        match (data, toml_document(text@)) {
            (Ok(d), Ok(manifest)) => d.deep_view() == manifest_data(
                manifest,
                workspace_package.deep_view(),
                workspace_deps.deep_view(),
                *files,
            ) && has_distinct_deps(d.deep_view()),
            (Err(LockfileError::ManifestSyntax(error)), Err(cause)) => error == cause,
            _ => false,
        },
{
    match parse_toml(text) {
        Ok(manifest) => {
            proof {
                law_manifest_deps_distinct(
                    manifest.deep_view(),
                    workspace_package.deep_view(),
                    workspace_deps.deep_view(),
                    *files,
                );
            }
            Ok(manifest_from_toml(&manifest, workspace_package, workspace_deps, files))
        },
        Err(error) => Err(LockfileError::ManifestSyntax(error)),
    }
}

/// A package is never without an edition.
pub proof fn law_edition_is_given(package: Option<TomlView>, workspace_package: Option<TomlView>)
    ensures
        edition(package, workspace_package).len() > 0,
{
    reveal_strlit("2015");
    assert("2015"@.len() == 4);
}

} // verus!
