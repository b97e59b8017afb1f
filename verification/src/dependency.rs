//! Dependencies as manifests declare them.

use crate::json::{
    make_object, make_text, make_text_array, make_text_or_null, object, text_array, text_or_null,
    Json, JsonView,
};
use crate::text::{copy_optional, copy_texts, own_optional};
use crate::toml_value::{distinct_keys, well_keyed, Toml, TomlView};
use vstd::prelude::*;
use vstd::string::StringExecFns;

verus! {

/// A dependency that a manifest declares.
#[derive(Debug)]
pub struct DepSpec {
    /// The key of the dependency.
    pub name: String,
    /// The package that it names, where the key renames it.
    pub package: Option<String>,
    /// The versions that it accepts.
    pub version_req: String,
    /// Whether it is optional.
    pub optional: bool,
    /// Whether it turns the default features on.
    pub default_features: bool,
    /// The features that it turns on.
    pub features: Vec<String>,
    /// Where the package is to come from.
    pub source: Option<String>,
}

/// What a `DepSpec` stands for.
#[verifier::ext_equal]
pub struct DepSpecView {
    pub name: Seq<char>,
    pub package: Option<Seq<char>>,
    pub version_req: Seq<char>,
    pub optional: bool,
    pub default_features: bool,
    pub features: Seq<Seq<char>>,
    pub source: Option<Seq<char>>,
}

impl DeepView for DepSpec {
    type V = DepSpecView;

    open spec fn deep_view(&self) -> DepSpecView {
        DepSpecView {
            name: self.name@,
            package: self.package.deep_view(),
            version_req: self.version_req@,
            optional: self.optional,
            default_features: self.default_features,
            features: self.features.deep_view(),
            source: self.source.deep_view(),
        }
    }
}

impl Clone for DepSpec {
    fn clone(&self) -> (copy: Self)
        ensures
            copy.deep_view() == self.deep_view(),
    {
        DepSpec {
            name: self.name.clone(),
            package: copy_optional(&self.package),
            version_req: self.version_req.clone(),
            optional: self.optional,
            default_features: self.default_features,
            features: copy_texts(&self.features),
            source: copy_optional(&self.source),
        }
    }
}

impl DepSpecView {
    /// The package that the dependency names.
    pub open spec fn package_name(self) -> Seq<char> {
        match self.package {
            Some(package) => package,
            None => self.name,
        }
    }
}

impl DepSpec {
    /// The package that the dependency names.
    pub fn package_name(&self) -> (name: &str)
        ensures
            name@ == self.deep_view().package_name(),
    {
        match &self.package {
            Some(package) => package.as_str(),
            None => self.name.as_str(),
        }
    }
}

/// A dependency that accepts one requirement and says nothing else.
pub open spec fn simple_dep(name: Seq<char>, version_req: Seq<char>) -> DepSpecView {
    DepSpecView {
        name,
        package: None,
        version_req,
        optional: false,
        default_features: true,
        features: Seq::empty(),
        source: None,
    }
}

/// Where a dependency given by a table is to come from: its git repository,
/// with the tag, else the branch, else the revision that the table names.
pub open spec fn git_hint(table: TomlView) -> Option<Seq<char>> {
    match table.text_at("git"@) {
        None => None,
        Some(git) => Some(
            match (table.text_at("tag"@), table.text_at("branch"@), table.text_at("rev"@)) {
                (Some(tag), _, _) => "git+"@ + git + "?tag="@ + tag,
                (None, Some(branch), _) => "git+"@ + git + "?branch="@ + branch,
                (None, None, Some(rev)) => "git+"@ + git + "?rev="@ + rev,
                (None, None, None) => "git+"@ + git,
            },
        ),
    }
}

/// A dependency given by a table.
pub open spec fn detailed_dep(name: Seq<char>, table: TomlView) -> DepSpecView {
    DepSpecView {
        name,
        package: table.text_at("package"@),
        version_req: match table.text_at("version"@) {
            Some(version) => version,
            None => "*"@,
        },
        optional: table.boolean_at("optional"@) == Some(true),
        default_features: table.boolean_at("default-features"@) != Some(false),
        features: table.texts_at("features"@),
        source: git_hint(table),
    }
}

/// Whether a value asks to be taken from the workspace.
pub open spec fn inherits(value: TomlView) -> bool {
    value.boolean_at("workspace"@) == Some(true)
}

/// A dependency by its own declaration alone.
pub open spec fn own_dep(name: Seq<char>, value: TomlView) -> DepSpecView {
    match value {
        TomlView::Str(version) => simple_dep(name, version),
        TomlView::Table(_) => if inherits(value) {
            simple_dep(name, "*"@)
        } else {
            detailed_dep(name, value)
        },
        _ => simple_dep(name, "*"@),
    }
}

/// The setting for default features that a table makes under either spelling.
pub open spec fn default_features_setting(table: TomlView) -> Option<bool> {
    match table.get_either("default-features"@, "default_features"@) {
        Some(value) => value.boolean(),
        None => None,
    }
}

/// A dependency of the workspace with the settings of the member that takes it
/// over: features are added, the other settings replaced where they are made.
pub open spec fn inherited_dep(base: DepSpecView, table: TomlView) -> DepSpecView {
    DepSpecView {
        features: base.features + table.texts_at("features"@),
        optional: match table.boolean_at("optional"@) {
            Some(optional) => optional,
            None => base.optional,
        },
        default_features: match default_features_setting(table) {
            Some(setting) => setting,
            None => base.default_features,
        },
        ..base
    }
}

/// The declaration of that name in the workspace's dependencies.
pub open spec fn workspace_dep(
    name: Seq<char>,
    workspace_deps: Option<TomlView>,
) -> Option<TomlView> {
    match workspace_deps {
        Some(deps) => deps.get(name),
        None => None,
    }
}

/// The dependency that an entry of a dependency table declares.
pub open spec fn single_dep(
    name: Seq<char>,
    value: TomlView,
    workspace_deps: Option<TomlView>,
) -> DepSpecView {
    match workspace_dep(name, workspace_deps) {
        Some(shared) if inherits(value) => inherited_dep(own_dep(name, shared), value),
        _ => own_dep(name, value),
    }
}

/// A dependency that accepts one requirement and says nothing else.
fn make_simple_dep(name: &str, version_req: &str) -> (dep: DepSpec)
    ensures
        dep.deep_view() == simple_dep(name@, version_req@),
{
    let dep = DepSpec {
        name: name.to_owned(),
        package: None,
        version_req: version_req.to_owned(),
        optional: false,
        default_features: true,
        features: Vec::new(),
        source: None,
    };
    assert(dep.deep_view() =~= simple_dep(name@, version_req@));
    dep
}

/// Where a dependency given by a table is to come from.
fn make_git_hint(table: &Toml) -> (hint: Option<String>)
    ensures
        hint.deep_view() == git_hint(table.deep_view()),
{
    match table.text_at("git") {
        None => None,
        Some(git) => {
            let mut hint = "git+".to_owned();
            hint.append(git);
            if let Some(tag) = table.text_at("tag") {
                hint.append("?tag=");
                hint.append(tag);
            } else if let Some(branch) = table.text_at("branch") {
                hint.append("?branch=");
                hint.append(branch);
            } else if let Some(rev) = table.text_at("rev") {
                hint.append("?rev=");
                hint.append(rev);
            }
            Some(hint)
        },
    }
}

/// A dependency by its own declaration alone.
fn parse_own_dep(name: &str, value: &Toml) -> (dep: DepSpec)
    ensures
        dep.deep_view() == own_dep(name@, value.deep_view()),
{
    match value {
        Toml::Str(version) => make_simple_dep(name, version.as_str()),
        Toml::Table(_) => {
            if value.bool_at("workspace") == Some(true) {
                return make_simple_dep(name, "*");
            }
            DepSpec {
                name: name.to_owned(),
                package: own_optional(value.text_at("package")),
                version_req: match value.text_at("version") {
                    Some(version) => version.to_owned(),
                    None => "*".to_owned(),
                },
                optional: match value.bool_at("optional") {
                    Some(optional) => optional,
                    None => false,
                },
                default_features: match value.bool_at("default-features") {
                    Some(setting) => setting,
                    None => true,
                },
                features: value.texts_at("features"),
                source: make_git_hint(value),
            }
        },
        _ => make_simple_dep(name, "*"),
    }
}

/// Parses an entry of a dependency table.
pub fn parse_single_dep(name: &str, value: &Toml, workspace_deps: Option<&Toml>) -> (dep: DepSpec)
    ensures
        dep.deep_view() == single_dep(name@, value.deep_view(), workspace_deps.deep_view()),
{
    if value.bool_at("workspace") == Some(true) {
        if let Some(deps) = workspace_deps {
            if let Some(shared) = deps.get(name) {
                let mut dep = parse_own_dep(name, shared);
                let ghost base = dep.deep_view();
                let mut extra = value.texts_at("features");
                let ghost added = extra.deep_view();
                dep.features.append(&mut extra);
                assert(dep.features.deep_view() =~= base.features + added);
                if let Some(optional) = value.bool_at("optional") {
                    dep.optional = optional;
                }
                let setting: Option<bool> = match value.get_either(
                    "default-features",
                    "default_features",
                ) {
                    Some(made) => made.as_bool(),
                    None => None,
                };
                if let Some(on) = setting {
                    dep.default_features = on;
                }
                assert(dep.deep_view() =~= inherited_dep(base, value.deep_view()));
                return dep;
            }
        }
    }
    parse_own_dep(name, value)
}

/// The dependencies that a dependency table declares, in its order.
pub open spec fn dep_table(
    table: Option<TomlView>,
    workspace_deps: Option<TomlView>,
) -> Seq<DepSpecView> {
    match table {
        Some(TomlView::Table(fields)) => fields.map_values(
            |f: (Seq<char>, TomlView)| single_dep(f.0, f.1, workspace_deps),
        ),
        _ => Seq::empty(),
    }
}

/// Whether no two dependencies are declared under one key.
pub open spec fn distinct_deps(deps: Seq<DepSpecView>) -> bool {
    forall|i: int, j: int|
        0 <= i < j < deps.len() ==> (#[trigger] deps[i]).name != (#[trigger] deps[j]).name
}

/// Parses a dependency table. No two of the dependencies have one name, if no key
/// of the table occurs twice.
pub fn parse_dep_table(table: Option<&Toml>, workspace_deps: Option<&Toml>) -> (deps: Vec<DepSpec>)
    ensures
        deps.deep_view() == dep_table(table.deep_view(), workspace_deps.deep_view()),
        (table.deep_view() matches Some(value) ==> well_keyed(value)) ==> distinct_deps(
            deps.deep_view(),
        ),
{
    let ghost views = dep_table(table.deep_view(), workspace_deps.deep_view());
    let mut deps: Vec<DepSpec> = Vec::new();
    if let Some(value) = table {
        if let Some(fields) = value.as_table() {
            let mut i: usize = 0;
            while i < fields.len()
                invariant
                    i <= fields.len(),
                    table.deep_view() == Some(TomlView::Table(fields.deep_view())),
                    views == dep_table(table.deep_view(), workspace_deps.deep_view()),
                    deps.len() == i,
                    forall|j: int| 0 <= j < i ==> (#[trigger] deps@[j]).deep_view() == views[j],
                decreases fields.len() - i,
            {
                deps.push(parse_single_dep(fields[i].0.as_str(), &fields[i].1, workspace_deps));
                i = i + 1;
            }
        }
    }
    assert(deps.deep_view() =~= views);
    proof {
        if let Some(TomlView::Table(fields)) = table.deep_view() {
            if distinct_keys(fields) {
                law_table_declares_keys(fields, workspace_deps.deep_view());
            }
        }
    }
    deps
}

/// What a dependency is for.
#[derive(Debug, Clone, Copy, PartialEq, Eq, Structural)]
pub enum DepKind {
    /// The crate itself.
    Normal,
    /// The build script.
    Build,
    /// Tests, examples and benchmarks.
    Dev,
}

impl DepKind {
    /// The kind as metadata writes it.
    pub open spec fn json(self) -> JsonView {
        match self {
            DepKind::Normal => JsonView::Null,
            DepKind::Build => JsonView::Str("build"@),
            DepKind::Dev => JsonView::Str("dev"@),
        }
    }

    /// The kind as metadata writes it.
    pub fn to_json(self) -> (value: Json)
        ensures
            value.deep_view() == self.json(),
    {
        match self {
            DepKind::Normal => Json::Null,
            DepKind::Build => make_text("build"),
            DepKind::Dev => make_text("dev"),
        }
    }
}

/// A dependency of a package, with what it is for and the platform that it is
/// limited to.
#[derive(Debug)]
pub struct DeclaredDep {
    /// The dependency.
    pub spec: DepSpec,
    /// What it is for.
    pub kind: DepKind,
    /// The platform that it is limited to.
    pub target: Option<String>,
}

/// What a `DeclaredDep` stands for.
#[verifier::ext_equal]
pub struct DeclaredDepView {
    pub spec: DepSpecView,
    pub kind: DepKind,
    pub target: Option<Seq<char>>,
}

impl DeepView for DeclaredDep {
    type V = DeclaredDepView;

    open spec fn deep_view(&self) -> DeclaredDepView {
        DeclaredDepView {
            spec: self.spec.deep_view(),
            kind: self.kind,
            target: self.target.deep_view(),
        }
    }
}

/// The fields of a dependency of a package in metadata.
pub open spec fn dep_fields(
    dep: DepSpecView,
    kind: DepKind,
    target: Option<Seq<char>>,
) -> Seq<(Seq<char>, JsonView)> {
    seq![
        ("name"@, JsonView::Str(dep.package_name())),
        ("source"@, text_or_null(dep.source)),
        ("req"@, JsonView::Str(dep.version_req)),
        ("kind"@, kind.json()),
        (
            "rename"@,
            if dep.package is Some {
                JsonView::Str(dep.name)
            } else {
                JsonView::Null
            },
        ),
        ("optional"@, JsonView::Bool(dep.optional)),
        ("uses_default_features"@, JsonView::Bool(dep.default_features)),
        ("features"@, text_array(dep.features)),
        ("target"@, text_or_null(target)),
        ("registry"@, JsonView::Null),
    ]
}

/// A dependency of a package as metadata writes it.
pub open spec fn dep_json(dep: DepSpecView, kind: DepKind, target: Option<Seq<char>>) -> JsonView {
    object(dep_fields(dep, kind, target))
}

/// Writes a dependency of a package as metadata.
pub fn dep_spec_to_json(dep: &DepSpec, kind: DepKind, target: Option<&str>) -> (value: Json)
    ensures
        value.deep_view() == dep_json(dep.deep_view(), kind, target.deep_view()),
{
    let rename = match &dep.package {
        Some(_) => make_text(dep.name.as_str()),
        None => Json::Null,
    };
    let source = match &dep.source {
        Some(source) => make_text(source.as_str()),
        None => Json::Null,
    };
    let fields: Vec<(String, Json)> = vec![
        ("name".to_owned(), make_text(dep.package_name())),
        ("source".to_owned(), source),
        ("req".to_owned(), make_text(dep.version_req.as_str())),
        ("kind".to_owned(), kind.to_json()),
        ("rename".to_owned(), rename),
        ("optional".to_owned(), Json::Bool(dep.optional)),
        ("uses_default_features".to_owned(), Json::Bool(dep.default_features)),
        ("features".to_owned(), make_text_array(&dep.features)),
        ("target".to_owned(), make_text_or_null(target)),
        ("registry".to_owned(), Json::Null),
    ];
    assert(fields.deep_view() =~= dep_fields(dep.deep_view(), kind, target.deep_view()));
    make_object(fields)
}

/// A dependency table declares one dependency for each of its keys, in order and
/// under that key, and no two under one key.
pub proof fn law_table_declares_keys(
    fields: Seq<(Seq<char>, TomlView)>,
    workspace_deps: Option<TomlView>,
)
    requires
        distinct_keys(fields),
    ensures
        ({
            let deps = dep_table(Some(TomlView::Table(fields)), workspace_deps);
            &&& deps.len() == fields.len()
            &&& forall|i: int|
                0 <= i < deps.len() ==> (#[trigger] deps[i]) == single_dep(
                    fields[i].0,
                    fields[i].1,
                    workspace_deps,
                ) && deps[i].name == fields[i].0
            &&& distinct_deps(deps)
        }),
{
    let deps = dep_table(Some(TomlView::Table(fields)), workspace_deps);
    assert forall|i: int, j: int| 0 <= i < j < deps.len() implies (#[trigger] deps[i]).name != (
    #[trigger] deps[j]).name by {
        assert(fields[i].0 != fields[j].0);
    }
}

/// Where there is no table there are no dependencies.
pub proof fn law_no_table_no_deps(table: Option<TomlView>, workspace_deps: Option<TomlView>)
    requires
        !(table matches Some(TomlView::Table(_))),
    ensures
        dep_table(table, workspace_deps) == Seq::<DepSpecView>::empty(),
{
}

/// A member that takes a dependency over from the workspace has the package, the
/// requirement and the source of the workspace's declaration, and its features
/// followed by those that the member adds. Without such a declaration it accepts
/// any version.
pub proof fn law_member_takes_dep_over(
    name: Seq<char>,
    value: TomlView,
    workspace_deps: Option<TomlView>,
)
    requires
        inherits(value),
    ensures
        ({
            let dep = single_dep(name, value, workspace_deps);
            match workspace_dep(name, workspace_deps) {
                Some(shared) => {
                    let base = own_dep(name, shared);
                    &&& dep.package == base.package
                    &&& dep.version_req == base.version_req
                    &&& dep.source == base.source
                    &&& dep.features == base.features + value.texts_at("features"@)
                },
                None => dep == simple_dep(name, "*"@),
            }
        }),
{
}

} // verus!
