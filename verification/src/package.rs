//! The packages of the metadata document.

use crate::dependency::{
    dep_json, dep_spec_to_json, simple_dep, DeclaredDep, DeclaredDepView, DepKind, DepSpec,
    DepSpecView,
};
use crate::features::{features_json, features_to_json, Features};
use crate::json::{
    make_array, make_object, make_text, make_text_array, object, text_array, text_or_null, Json,
    JsonView,
};
use crate::lock::{lock_dep, make_package_id, parse_lock_dep_string, LockPackage, LockPackageView};
use crate::manifest::{text_or, ManifestData, ManifestView, TargetDepsView};
use crate::text::{copy_texts, replaced, underscored};
use crate::versions::{law_exact_requirement, speaks_for};
use vstd::prelude::*;
use vstd::string::StringExecFns;

verus! {

/// Dependencies of one kind and one platform.
pub open spec fn tagged(deps: Seq<DepSpecView>, kind: DepKind, target: Option<Seq<char>>) -> Seq<
    DeclaredDepView,
> {
    deps.map_values(|spec: DepSpecView| DeclaredDepView { spec, kind, target })
}

/// Dependencies by platform, one after the other.
pub open spec fn tagged_sections(sections: Seq<TargetDepsView>) -> Seq<DeclaredDepView>
    decreases sections.len(),
{
    if sections.len() == 0 {
        Seq::empty()
    } else {
        let section = sections.last();
        tagged_sections(sections.drop_last()) + tagged(
            section.deps,
            section.kind,
            Some(section.target),
        )
    }
}

/// The dependency that an entry of a lock file stands for where there is no
/// manifest: exactly the locked version, or any where none is given.
pub open spec fn locked_dep(entry: Seq<char>) -> DeclaredDepView {
    let (name, version, source) = lock_dep(entry);
    DeclaredDepView {
        spec: DepSpecView {
            source,
            ..simple_dep(
                name,
                if version.len() > 0 {
                    "="@ + version
                } else {
                    "*"@
                },
            )
        },
        kind: DepKind::Normal,
        target: None,
    }
}

/// The dependencies that a package declares: those of its manifest, or, without
/// one, those of the lock file.
pub open spec fn declared_deps(
    pkg: LockPackageView,
    manifest: Option<ManifestView>,
) -> Seq<DeclaredDepView> {
    match manifest {
        Some(m) => tagged(m.normal_deps, DepKind::Normal, None) + tagged(
            m.build_deps,
            DepKind::Build,
            None,
        ) + tagged(m.dev_deps, DepKind::Dev, None) + tagged_sections(m.target_deps),
        None => pkg.dependencies.map_values(|entry: Seq<char>| locked_dep(entry)),
    }
}

/// Adds dependencies of one kind and one platform.
fn add_tagged(list: &mut Vec<DeclaredDep>, deps: &Vec<DepSpec>, kind: DepKind, target: Option<&str>)
    ensures
        final(list).deep_view() == old(list).deep_view() + tagged(
            deps.deep_view(),
            kind,
            target.deep_view(),
        ),
{
    let ghost before = list.deep_view();
    let ghost added = tagged(deps.deep_view(), kind, target.deep_view());
    let mut i: usize = 0;
    assert(list.deep_view() =~= before + added.take(0));
    while i < deps.len()
        invariant
            i <= deps.len(),
            added == tagged(deps.deep_view(), kind, target.deep_view()),
            list.deep_view() == before + added.take(i as int),
        decreases deps.len() - i,
    {
        let ghost so_far = list.deep_view();
        let own_target: Option<String> = match target {
            Some(t) => Some(t.to_owned()),
            None => None,
        };
        let dep = DeclaredDep { spec: deps[i].clone(), kind, target: own_target };
        assert(dep.deep_view() =~= added[i as int]);
        list.push(dep);
        assert(list.deep_view() =~= so_far.push(added[i as int]));
        assert(list.deep_view() =~= before + added.take(i + 1));
        i = i + 1;
    }
    assert(added.take(added.len() as int) =~= added);
}

/// Lists the dependencies that a package declares.
pub fn list_declared_deps(
    pkg: &LockPackage,
    manifest: &Option<ManifestData>,
) -> (list: Vec<DeclaredDep>)
    ensures
        list.deep_view() == declared_deps(pkg.deep_view(), manifest.deep_view()),
{
    let mut list: Vec<DeclaredDep> = Vec::new();
    assert(list.deep_view() =~= Seq::empty());
    match manifest {
        Some(m) => {
            add_tagged(&mut list, &m.normal_deps, DepKind::Normal, None);
            add_tagged(&mut list, &m.build_deps, DepKind::Build, None);
            add_tagged(&mut list, &m.dev_deps, DepKind::Dev, None);
            let ghost first = list.deep_view();
            let ghost sections = m.target_deps.deep_view();
            let mut i: usize = 0;
            proof {
                assert(first =~= tagged(m.normal_deps.deep_view(), DepKind::Normal, None) + tagged(
                    m.build_deps.deep_view(),
                    DepKind::Build,
                    None,
                ) + tagged(m.dev_deps.deep_view(), DepKind::Dev, None));
                assert(sections.take(0) =~= Seq::empty());
                assert(first + tagged_sections(sections.take(0)) =~= first);
            }
            while i < m.target_deps.len()
                invariant
                    i <= m.target_deps.len(),
                    sections == m.target_deps.deep_view(),
                    list.deep_view() == first + tagged_sections(sections.take(i as int)),
                decreases m.target_deps.len() - i,
            {
                let section = &m.target_deps[i];
                proof {
                    assert(sections.take(i + 1).drop_last() =~= sections.take(i as int));
                    assert(sections.take(i + 1).last() == section.deep_view());
                }
                add_tagged(&mut list, &section.deps, section.kind, Some(section.target.as_str()));
                assert(list.deep_view() =~= first + tagged_sections(sections.take(i + 1)));
                i = i + 1;
            }
            assert(sections.take(sections.len() as int) =~= sections);
        },
        None => {
            let ghost views = declared_deps(pkg.deep_view(), None);
            let mut i: usize = 0;
            while i < pkg.dependencies.len()
                invariant
                    i <= pkg.dependencies.len(),
                    views == declared_deps(pkg.deep_view(), None),
                    list.len() == i,
                    forall|j: int| 0 <= j < i ==> (#[trigger] list@[j]).deep_view() == views[j],
                decreases pkg.dependencies.len() - i,
            {
                let (name, version, source) = parse_lock_dep_string(pkg.dependencies[i].as_str());
                let version_req: String = if version.as_str().is_empty() {
                    "*".to_owned()
                } else {
                    let mut exact = "=".to_owned();
                    exact.append(version.as_str());
                    exact
                };
                let spec = DepSpec {
                    name,
                    package: None,
                    version_req,
                    optional: false,
                    default_features: true,
                    features: Vec::new(),
                    source,
                };
                assert(spec.features.deep_view() =~= Seq::empty());
                list.push(DeclaredDep { spec, kind: DepKind::Normal, target: None });
                i = i + 1;
            }
            assert(list.deep_view() =~= views);
        },
    }
    list
}

/// Something that a package builds.
#[derive(Debug)]
pub struct Target {
    /// The kinds of target that it is.
    pub kind: Vec<String>,
    /// The types of crate that it is built as.
    pub crate_types: Vec<String>,
    /// Its name.
    pub name: String,
    /// The path of its root file, seen from the directory of the manifest.
    pub path: String,
    /// Whether its documentation is tested.
    pub doctest: bool,
}

/// What a `Target` stands for.
#[verifier::ext_equal]
pub struct TargetView {
    pub kind: Seq<Seq<char>>,
    pub crate_types: Seq<Seq<char>>,
    pub name: Seq<char>,
    pub path: Seq<char>,
    pub doctest: bool,
}

impl DeepView for Target {
    type V = TargetView;

    open spec fn deep_view(&self) -> TargetView {
        TargetView {
            kind: self.kind.deep_view(),
            crate_types: self.crate_types.deep_view(),
            name: self.name@,
            path: self.path@,
            doctest: self.doctest,
        }
    }
}

/// The library that is taken for granted where nothing says what is built.
pub open spec fn default_lib(name: Seq<char>) -> TargetView {
    TargetView {
        kind: seq!["lib"@],
        crate_types: seq!["lib"@],
        name: replaced(name, '-', '_'),
        path: "src/lib.rs"@,
        doctest: true,
    }
}

/// The library of a manifest.
pub open spec fn lib_of(name: Seq<char>, manifest: ManifestView) -> Seq<TargetView> {
    let types = if manifest.lib.is_proc_macro {
        seq!["proc-macro"@]
    } else if manifest.lib.crate_types.len() > 0 {
        manifest.lib.crate_types
    } else {
        seq!["lib"@]
    };
    if manifest.lib.has_lib == Some(true) {
        seq![
            TargetView {
                kind: types,
                crate_types: types,
                name: replaced(text_or(manifest.lib.name, name), '-', '_'),
                path: text_or(manifest.lib.path, "src/lib.rs"@),
                doctest: true,
            },
        ]
    } else {
        Seq::empty()
    }
}

/// The build script of a manifest.
pub open spec fn build_script_of(manifest: ManifestView) -> Seq<TargetView> {
    if manifest.has_build_rs {
        seq![
            TargetView {
                kind: seq!["custom-build"@],
                crate_types: seq!["bin"@],
                name: "build-script-build"@,
                path: text_or(manifest.build_script_path, "build.rs"@),
                doctest: false,
            },
        ]
    } else {
        Seq::empty()
    }
}

/// The programs of a manifest.
pub open spec fn bins_of(manifest: ManifestView) -> Seq<TargetView> {
    manifest.bin_targets.map_values(
        |bin: (Seq<char>, Seq<char>)|
            TargetView {
                kind: seq!["bin"@],
                crate_types: seq!["bin"@],
                name: bin.0,
                path: bin.1,
                doctest: false,
            },
    )
}

/// What a package builds: the library, the build script and the programs of its
/// manifest, or a default library where there is no manifest or it has none of
/// them.
pub open spec fn targets(name: Seq<char>, manifest: Option<ManifestView>) -> Seq<TargetView> {
    let declared = match manifest {
        Some(m) => lib_of(name, m) + build_script_of(m) + bins_of(m),
        None => Seq::empty(),
    };
    if declared.len() == 0 {
        seq![default_lib(name)]
    } else {
        declared
    }
}

/// A list of one text.
fn single(text: &str) -> (list: Vec<String>)
    ensures
        list.deep_view() == seq![text@],
{
    let list: Vec<String> = vec![text.to_owned()];
    assert(list.deep_view() =~= seq![text@]);
    list
}

/// Lists what a package builds.
pub fn package_targets(pkg: &LockPackage, manifest: &Option<ManifestData>) -> (list: Vec<Target>)
    ensures
        list.deep_view() == targets(pkg.name@, manifest.deep_view()),
{
    let mut list: Vec<Target> = Vec::new();
    assert(list.deep_view() =~= Seq::empty());
    if let Some(m) = manifest {
        let ghost view = m.deep_view();
        if m.lib.has_lib == Some(true) {
            let kind: Vec<String> = if m.lib.is_proc_macro {
                single("proc-macro")
            } else if m.lib.crate_types.len() > 0 {
                copy_texts(&m.lib.crate_types)
            } else {
                single("lib")
            };
            let crate_types = copy_texts(&kind);
            let name: String = match &m.lib.name {
                Some(own) => underscored(own.as_str()),
                None => underscored(pkg.name.as_str()),
            };
            let path: String = match &m.lib.path {
                Some(own) => own.clone(),
                None => "src/lib.rs".to_owned(),
            };
            list.push(Target { kind, crate_types, name, path, doctest: true });
        }
        assert(list.deep_view() =~= lib_of(pkg.name@, view));
        if m.has_build_rs {
            let path: String = match &m.build_script_path {
                Some(own) => own.clone(),
                None => "build.rs".to_owned(),
            };
            list.push(
                Target {
                    kind: single("custom-build"),
                    crate_types: single("bin"),
                    name: "build-script-build".to_owned(),
                    path,
                    doctest: false,
                },
            );
        }
        let ghost first = lib_of(pkg.name@, view) + build_script_of(view);
        assert(list.deep_view() =~= first);
        let ghost bins = bins_of(view);
        let mut i: usize = 0;
        assert(list.deep_view() =~= first + bins.take(0));
        while i < m.bin_targets.len()
            invariant
                i <= m.bin_targets.len(),
                bins == bins_of(view),
                view == m.deep_view(),
                list.deep_view() == first + bins.take(i as int),
            decreases m.bin_targets.len() - i,
        {
            let ghost so_far = list.deep_view();
            let bin = &m.bin_targets[i];
            let target = Target {
                kind: single("bin"),
                crate_types: single("bin"),
                name: bin.0.clone(),
                path: bin.1.clone(),
                doctest: false,
            };
            assert(target.deep_view() =~= bins[i as int]);
            list.push(target);
            assert(list.deep_view() =~= so_far.push(bins[i as int]));
            assert(list.deep_view() =~= first + bins.take(i + 1));
            i = i + 1;
        }
        assert(bins.take(bins.len() as int) =~= bins);
    }
    if list.len() == 0 {
        list.push(
            Target {
                kind: single("lib"),
                crate_types: single("lib"),
                name: underscored(pkg.name.as_str()),
                path: "src/lib.rs".to_owned(),
                doctest: true,
            },
        );
        assert(list.deep_view() =~= seq![default_lib(pkg.name@)]);
    }
    list
}

/// The edition of a package without a manifest is the first.
pub open spec fn package_edition(manifest: Option<ManifestView>) -> Seq<char> {
    match manifest {
        Some(m) => m.edition,
        None => "2015"@,
    }
}

/// The fields of a target in metadata, with the path of its root file.
pub open spec fn target_fields(target: TargetView, src_path: Seq<char>, edition: Seq<char>) -> Seq<
    (Seq<char>, JsonView),
> {
    seq![
        ("kind"@, text_array(target.kind)),
        ("crate_types"@, text_array(target.crate_types)),
        ("name"@, JsonView::Str(target.name)),
        ("src_path"@, JsonView::Str(src_path)),
        ("edition"@, JsonView::Str(edition)),
        ("doctest"@, JsonView::Bool(target.doctest)),
    ]
}

/// The targets of a package as metadata writes them.
pub open spec fn targets_json(
    built: Seq<TargetView>,
    src_paths: Seq<Seq<char>>,
    edition: Seq<char>,
) -> JsonView {
    JsonView::Array(
        Seq::new(built.len(), |i: int| object(target_fields(built[i], src_paths[i], edition))),
    )
}

/// The fields of a package in metadata, with the paths of its manifest and of
/// the root files of its targets.
pub open spec fn package_fields(
    pkg: LockPackageView,
    manifest: Option<ManifestView>,
    manifest_path: Seq<char>,
    src_paths: Seq<Seq<char>>,
) -> Seq<(Seq<char>, JsonView)> {
    seq![
        ("name"@, JsonView::Str(pkg.name)),
        ("version"@, JsonView::Str(pkg.version)),
        ("id"@, JsonView::Str(pkg.id())),
        ("source"@, text_or_null(pkg.source)),
        (
            "dependencies"@,
            JsonView::Array(
                declared_deps(pkg, manifest).map_values(
                    |dep: DeclaredDepView| dep_json(dep.spec, dep.kind, dep.target),
                ),
            ),
        ),
        (
            "targets"@,
            targets_json(targets(pkg.name, manifest), src_paths, package_edition(manifest)),
        ),
        (
            "features"@,
            features_json(
                match manifest {
                    Some(m) => m.features,
                    None => Map::empty(),
                },
            ),
        ),
        ("manifest_path"@, JsonView::Str(manifest_path)),
        ("edition"@, JsonView::Str(package_edition(manifest))),
        (
            "authors"@,
            text_array(
                match manifest {
                    Some(m) => m.authors,
                    None => Seq::empty(),
                },
            ),
        ),
        (
            "links"@,
            text_or_null(
                match manifest {
                    Some(m) => m.links,
                    None => None,
                },
            ),
        ),
    ]
}

/// A package as metadata writes it.
pub open spec fn package_json(
    pkg: LockPackageView,
    manifest: Option<ManifestView>,
    manifest_path: Seq<char>,
    src_paths: Seq<Seq<char>>,
) -> JsonView {
    object(package_fields(pkg, manifest, manifest_path, src_paths))
}

/// Writes a target as metadata.
fn target_to_json(target: &Target, src_path: &str, edition: &str) -> (value: Json)
    ensures
        value.deep_view() == object(target_fields(target.deep_view(), src_path@, edition@)),
{
    let fields: Vec<(String, Json)> = vec![
        ("kind".to_owned(), make_text_array(&target.kind)),
        ("crate_types".to_owned(), make_text_array(&target.crate_types)),
        ("name".to_owned(), make_text(target.name.as_str())),
        ("src_path".to_owned(), make_text(src_path)),
        ("edition".to_owned(), make_text(edition)),
        ("doctest".to_owned(), Json::Bool(target.doctest)),
    ];
    assert(fields.deep_view() =~= target_fields(target.deep_view(), src_path@, edition@));
    make_object(fields)
}

/// Writes the targets of a package as metadata.
fn targets_to_json(
    pkg: &LockPackage,
    manifest: &Option<ManifestData>,
    src_paths: &Vec<String>,
    edition: &str,
) -> (value: Json)
    requires
        src_paths.len() == targets(pkg.name@, manifest.deep_view()).len(),
    ensures
        value.deep_view() == targets_json(
            targets(pkg.name@, manifest.deep_view()),
            src_paths.deep_view(),
            edition@,
        ),
{
    let built = package_targets(pkg, manifest);
    let ghost views = targets_json(built.deep_view(), src_paths.deep_view(), edition@)->Array_0;
    let mut items: Vec<Json> = Vec::new();
    let mut i: usize = 0;
    while i < built.len()
        invariant
            i <= built.len(),
            src_paths.len() == built.len(),
            views == targets_json(built.deep_view(), src_paths.deep_view(), edition@)->Array_0,
            items.len() == i,
            forall|j: int| 0 <= j < i ==> (#[trigger] items@[j]).deep_view() == views[j],
        decreases built.len() - i,
    {
        items.push(target_to_json(&built[i], src_paths[i].as_str(), edition));
        i = i + 1;
    }
    assert(items.deep_view() =~= views);
    make_array(items)
}

/// Writes declared dependencies as metadata.
fn deps_to_json(deps: &Vec<DeclaredDep>) -> (value: Json)
    ensures
        value.deep_view() == JsonView::Array(
            deps.deep_view().map_values(
                |dep: DeclaredDepView| dep_json(dep.spec, dep.kind, dep.target),
            ),
        ),
{
    let ghost views = deps.deep_view().map_values(
        |dep: DeclaredDepView| dep_json(dep.spec, dep.kind, dep.target),
    );
    let mut items: Vec<Json> = Vec::new();
    let mut i: usize = 0;
    while i < deps.len()
        invariant
            i <= deps.len(),
            views == deps.deep_view().map_values(
                |dep: DeclaredDepView| dep_json(dep.spec, dep.kind, dep.target),
            ),
            items.len() == i,
            forall|j: int| 0 <= j < i ==> (#[trigger] items@[j]).deep_view() == views[j],
        decreases deps.len() - i,
    {
        let dep = &deps[i];
        let target: Option<&str> = match &dep.target {
            Some(t) => Some(t.as_str()),
            None => None,
        };
        items.push(dep_spec_to_json(&dep.spec, dep.kind, target));
        i = i + 1;
    }
    assert(items.deep_view() =~= views);
    make_array(items)
}

/// Builds a package as metadata writes it, and lists the dependencies that it
/// declares. The path of the manifest and the paths of the root files of the
/// targets, in the order of `package_targets`, are given.
pub fn build_package_json(
    pkg: &LockPackage,
    manifest: &Option<ManifestData>,
    manifest_path: &str,
    src_paths: &Vec<String>,
) -> (outcome: (Json, Vec<DeclaredDep>))
    requires
        src_paths.len() == targets(pkg.name@, manifest.deep_view()).len(),
    ensures
        outcome.0.deep_view() == package_json(
            pkg.deep_view(),
            manifest.deep_view(),
            manifest_path@,
            src_paths.deep_view(),
        ),
        outcome.1.deep_view() == declared_deps(pkg.deep_view(), manifest.deep_view()),
{
    let deps = list_declared_deps(pkg, manifest);
    let edition: &str = match manifest {
        Some(m) => m.edition.as_str(),
        None => "2015",
    };
    let features: Json = match manifest {
        Some(m) => features_to_json(&m.features),
        None => features_to_json(&Features::none()),
    };
    let authors: Json = match manifest {
        Some(m) => make_text_array(&m.authors),
        None => {
            let none: Vec<String> = Vec::new();
            assert(none.deep_view() =~= Seq::empty());
            make_text_array(&none)
        },
    };
    let links: Json = match manifest {
        Some(m) => match &m.links {
            Some(name) => make_text(name.as_str()),
            None => Json::Null,
        },
        None => Json::Null,
    };
    let source: Json = match &pkg.source {
        Some(s) => make_text(s.as_str()),
        None => Json::Null,
    };
    let id = make_package_id(pkg);
    let fields: Vec<(String, Json)> = vec![
        ("name".to_owned(), make_text(pkg.name.as_str())),
        ("version".to_owned(), make_text(pkg.version.as_str())),
        ("id".to_owned(), make_text(id.as_str())),
        ("source".to_owned(), source),
        ("dependencies".to_owned(), deps_to_json(&deps)),
        ("targets".to_owned(), targets_to_json(pkg, manifest, src_paths, edition)),
        ("features".to_owned(), features),
        ("manifest_path".to_owned(), make_text(manifest_path)),
        ("edition".to_owned(), make_text(edition)),
        ("authors".to_owned(), authors),
        ("links".to_owned(), links),
    ];
    assert(fields.deep_view() =~= package_fields(
        pkg.deep_view(),
        manifest.deep_view(),
        manifest_path@,
        src_paths.deep_view(),
    ));
    (make_object(fields), deps)
}

/// Every package builds something.
pub proof fn law_package_has_target(name: Seq<char>, manifest: Option<ManifestView>)
    ensures
        targets(name, manifest).len() > 0,
{
}

/// A package without a manifest builds a library of its name, for the edition
/// 2015, and declares a dependency for each entry of its dependency list.
pub proof fn law_package_without_manifest(pkg: LockPackageView)
    ensures
        targets(pkg.name, None) == seq![default_lib(pkg.name)],
        package_edition(None) == "2015"@,
        declared_deps(pkg, None).len() == pkg.dependencies.len(),
        forall|i: int|
            0 <= i < pkg.dependencies.len() ==> #[trigger] declared_deps(pkg, None)[i]
                == locked_dep(pkg.dependencies[i]),
{
}

/// The dependency that an entry of a lock file stands for names what the entry
/// names, and speaks for the version that the entry gives and no other.
pub proof fn law_locked_dep_is_exact(entry: Seq<char>, version: Seq<char>, by_semver: bool)
    ensures
        ({
            let (name, locked, source) = lock_dep(entry);
            let dep = locked_dep(entry).spec;
            &&& dep.package_name() == name
            &&& dep.source == source
            &&& speaks_for(dep.version_req, version, by_semver) == (locked.len() > 0 && version
                == locked)
        }),
{
    let (_, locked, _) = lock_dep(entry);
    law_exact_requirement(locked, version, by_semver);
}

} // verus!
