//! Laws of dependency declarations.

use crate::dependency::{dep_fields, dep_json, single_dep, DepKind, DepSpecView};
use crate::json::{text_array, JsonView};
use crate::laws::json::law_object_fields;
use crate::toml_value::TomlView;
use vstd::prelude::*;

verus! {

/// A declaration that is a string asks for that version and for nothing else,
/// whatever the workspace declares.
pub proof fn law_dep_of_version(
    name: Seq<char>,
    version: Seq<char>,
    workspace_deps: Option<TomlView>,
)
    ensures
        ({
            let dep = single_dep(name, TomlView::Str(version), workspace_deps);
            &&& dep.name == name
            &&& dep.version_req == version
            &&& dep.package is None
            &&& dep.source is None
            &&& dep.features.len() == 0
            &&& !dep.optional
            &&& dep.default_features
        }),
{
}

/// A declaration that is neither a string nor a table accepts any version and says
/// nothing else.
pub proof fn law_dep_of_other_value(
    name: Seq<char>,
    value: TomlView,
    workspace_deps: Option<TomlView>,
)
    requires
        !(value is Str) && !(value is Table),
    ensures
        ({
            let dep = single_dep(name, value, workspace_deps);
            &&& dep.name == name
            &&& dep.version_req == "*"@
            &&& dep.package is None
            &&& dep.source is None
            &&& dep.features.len() == 0
            &&& !dep.optional
            &&& dep.default_features
        }),
{
}

/// A table that is not taken over from the workspace gives each setting under its
/// own key: the package, the version, which is any without one, and the features.
/// The dependency is optional only where the table says so, and has its default
/// features unless the table turns them off.
pub proof fn law_dep_of_table(name: Seq<char>, table: TomlView, workspace_deps: Option<TomlView>)
    requires
        table is Table,
        table.get("workspace"@) != Some(TomlView::Boolean(true)),
    ensures
        ({
            let dep = single_dep(name, table, workspace_deps);
            &&& dep.name == name
            &&& dep.package == match table.get("package"@) {
                Some(TomlView::Str(package)) => Some(package),
                _ => None,
            }
            &&& dep.version_req == match table.get("version"@) {
                Some(TomlView::Str(version)) => version,
                _ => "*"@,
            }
            &&& dep.optional <==> table.get("optional"@) == Some(TomlView::Boolean(true))
            &&& dep.default_features <==> table.get("default-features"@) != Some(
                TomlView::Boolean(false),
            )
            &&& dep.features == table.texts_at("features"@)
            &&& dep.source is Some <==> table.get("git"@) is Some && table.get("git"@)->0 is Str
        }),
{
}

/// A dependency on a repository has that repository as its source, with a tag, a
/// branch or a revision where one is given; of several the tag counts, then the
/// branch.
pub proof fn law_dep_of_repository(
    name: Seq<char>,
    table: TomlView,
    workspace_deps: Option<TomlView>,
    git: Seq<char>,
)
    requires
        table is Table,
        table.get("workspace"@) != Some(TomlView::Boolean(true)),
        table.get("git"@) == Some(TomlView::Str(git)),
    ensures
        ({
            let source = single_dep(name, table, workspace_deps).source;
            let tag = table.get("tag"@);
            let branch = table.get("branch"@);
            let rev = table.get("rev"@);
            let has_tag = tag matches Some(t) && t is Str;
            let has_branch = branch matches Some(b) && b is Str;
            let has_rev = rev matches Some(r) && r is Str;
            &&& has_tag ==> source == Some("git+"@ + git + "?tag="@ + tag->0->Str_0)
            &&& !has_tag && has_branch ==> source == Some(
                "git+"@ + git + "?branch="@ + branch->0->Str_0,
            )
            &&& !has_tag && !has_branch && has_rev ==> source == Some(
                "git+"@ + git + "?rev="@ + rev->0->Str_0,
            )
            &&& !has_tag && !has_branch && !has_rev ==> source == Some("git+"@ + git)
        }),
{
}

/// An entry that is taken over from the workspace is the workspace's declaration,
/// read by itself, with the settings of the entry: the features of the entry come
/// after those of the declaration, and its `optional` and its setting for default
/// features count where they are made.
pub proof fn law_dep_taken_over(
    name: Seq<char>,
    entry: TomlView,
    workspace_deps: TomlView,
    shared: TomlView,
)
    requires
        entry.get("workspace"@) == Some(TomlView::Boolean(true)),
        workspace_deps.get(name) == Some(shared),
    ensures
        ({
            let dep = single_dep(name, entry, Some(workspace_deps));
            let base = single_dep(name, shared, None);
            &&& dep.name == name
            &&& dep.package == base.package
            &&& dep.version_req == base.version_req
            &&& dep.source == base.source
            &&& dep.features == base.features + entry.texts_at("features"@)
            &&& match entry.get("optional"@) {
                Some(TomlView::Boolean(optional)) => dep.optional == optional,
                _ => dep.optional == base.optional,
            }
            &&& match (entry.get("default-features"@), entry.get("default_features"@)) {
                (Some(TomlView::Boolean(setting)), _) => dep.default_features == setting,
                (None, Some(TomlView::Boolean(setting))) => dep.default_features == setting,
                _ => dep.default_features == base.default_features,
            }
        }),
{
}

/// An entry that is to be taken over from the workspace, but that the workspace
/// does not declare, accepts any version and says nothing else.
pub proof fn law_dep_not_declared(
    name: Seq<char>,
    entry: TomlView,
    workspace_deps: Option<TomlView>,
)
    requires
        entry.get("workspace"@) == Some(TomlView::Boolean(true)),
        workspace_deps matches Some(deps) ==> deps.get(name) is None,
    ensures
        ({
            let dep = single_dep(name, entry, workspace_deps);
            &&& dep.name == name
            &&& dep.version_req == "*"@
            &&& dep.package is None
            &&& dep.source is None
            &&& dep.features.len() == 0
            &&& !dep.optional
            &&& dep.default_features
        }),
{
}

/// The object written for a dependency holds each setting of the declaration under
/// its own key: the package that it names, its key where it renames the package,
/// and the rest as it was declared.
pub proof fn law_dep_written(dep: DepSpecView, kind: DepKind, target: Option<Seq<char>>)
    ensures
        ({
            let written = dep_json(dep, kind, target);
            &&& written.get("name"@) == Some(
                JsonView::Str(
                    match dep.package {
                        Some(package) => package,
                        None => dep.name,
                    },
                ),
            )
            &&& written.get("rename"@) == Some(
                match dep.package {
                    Some(_) => JsonView::Str(dep.name),
                    None => JsonView::Null,
                },
            )
            &&& written.get("source"@) == Some(
                match dep.source {
                    Some(source) => JsonView::Str(source),
                    None => JsonView::Null,
                },
            )
            &&& written.get("req"@) == Some(JsonView::Str(dep.version_req))
            &&& written.get("kind"@) == Some(
                match kind {
                    DepKind::Normal => JsonView::Null,
                    DepKind::Build => JsonView::Str("build"@),
                    DepKind::Dev => JsonView::Str("dev"@),
                },
            )
            &&& written.get("optional"@) == Some(JsonView::Bool(dep.optional))
            &&& written.get("uses_default_features"@) == Some(JsonView::Bool(dep.default_features))
            &&& written.get("features"@) == Some(text_array(dep.features))
            &&& written.get("target"@) == Some(
                match target {
                    Some(platform) => JsonView::Str(platform),
                    None => JsonView::Null,
                },
            )
            &&& written.get("registry"@) == Some(JsonView::Null)
        }),
{
    reveal_strlit("name");
    reveal_strlit("source");
    reveal_strlit("req");
    reveal_strlit("kind");
    reveal_strlit("rename");
    reveal_strlit("optional");
    reveal_strlit("uses_default_features");
    reveal_strlit("features");
    reveal_strlit("target");
    reveal_strlit("registry");
    assert("name"@.len() == 4 && "kind"@.len() == 4 && "name"@[0] != "kind"@[0]);
    assert("source"@.len() == 6 && "rename"@.len() == 6 && "target"@.len() == 6);
    assert("source"@[0] != "rename"@[0] && "source"@[0] != "target"@[0]);
    assert("rename"@[0] != "target"@[0]);
    assert("optional"@.len() == 8 && "features"@.len() == 8 && "registry"@.len() == 8);
    assert("optional"@[0] != "features"@[0] && "optional"@[0] != "registry"@[0]);
    assert("features"@[0] != "registry"@[0]);
    assert("req"@.len() == 3 && "uses_default_features"@.len() == 21);
    let fields = dep_fields(dep, kind, target);
    law_object_fields(fields);
    assert(fields[0].0 == "name"@ && fields[1].0 == "source"@ && fields[2].0 == "req"@);
    assert(fields[3].0 == "kind"@ && fields[4].0 == "rename"@ && fields[5].0 == "optional"@);
    assert(fields[6].0 == "uses_default_features"@ && fields[7].0 == "features"@);
    assert(fields[8].0 == "target"@ && fields[9].0 == "registry"@);
}

} // verus!
