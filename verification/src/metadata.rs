//! The metadata document of a workspace.

use crate::error::LockfileError;
use crate::git_source::GitSourceMapping;
use crate::json::{
    json_contents, lemma_object_field, make_array, make_object, make_text, make_text_array, object,
    text_array, text_or_null, to_serde_json, Json, JsonView,
};
use crate::lock::{is_package_id, make_package_id, LockPackage, LockPackageView};
use crate::manifest::{ManifestData, ManifestView};
use crate::node::{
    build_node_json, found_deps, law_node_edges, missing_deps, node_fields, node_json,
    resolved_node, semver_table,
};
use crate::package::{build_package_json, declared_deps, package_fields, package_json, targets};
use crate::seqs::first_index;
use crate::workspace::{find_member, is_member_named, WorkspaceMember};
use std::path::PathBuf;
use vstd::prelude::*;

verus! {

/// Configuration for building metadata from lockfile
pub struct LockfileConfig {
    /// Path to the Cargo.lock file
    pub cargo_lock: PathBuf,
    /// Path to the workspace root (directory containing root Cargo.toml)
    pub workspace_root: PathBuf,
    /// Git source mappings
    pub git_sources: Vec<GitSourceMapping>,
    /// Optional path to directory with extracted crates.io manifests
    /// Structure: manifests_dir/name/version/Cargo.toml
    pub crates_io_manifests: Option<PathBuf>,
}

/// What was found out about a package of the lock file.
#[derive(Debug)]
pub struct PackageInput {
    /// What its manifest says, if one was found.
    pub manifest: Option<ManifestData>,
    /// The path of its manifest.
    pub manifest_path: String,
    /// The paths of the root files of its targets.
    pub src_paths: Vec<String>,
}

/// What a `PackageInput` stands for.
#[verifier::ext_equal]
pub struct PackageInputView {
    pub manifest: Option<ManifestView>,
    pub manifest_path: Seq<char>,
    pub src_paths: Seq<Seq<char>>,
}

impl DeepView for PackageInput {
    type V = PackageInputView;

    open spec fn deep_view(&self) -> PackageInputView {
        PackageInputView {
            manifest: self.manifest.deep_view(),
            manifest_path: self.manifest_path@,
            src_paths: self.src_paths.deep_view(),
        }
    }
}

/// Whether a package counts as a member of the workspace: it is listed as one,
/// or it is local.
pub open spec fn counts_as_member(pkg: LockPackageView, members: Seq<(Seq<char>, int)>) -> bool {
    pkg.source is None || first_index(members, is_member_named(pkg.name)) is Some
}

/// The identifiers of the packages that count as members of the workspace.
pub open spec fn member_ids(packages: Seq<LockPackageView>, members: Seq<(Seq<char>, int)>) -> Seq<
    Seq<char>,
>
    decreases packages.len(),
{
    if packages.len() == 0 {
        Seq::empty()
    } else {
        let rest = member_ids(packages.drop_last(), members);
        let pkg = packages.last();
        if counts_as_member(pkg, members) {
            rest.push(pkg.id())
        } else {
            rest
        }
    }
}

/// Whether there is an input for each package, with a path for each target.
pub open spec fn inputs_fit(packages: Seq<LockPackageView>, inputs: Seq<PackageInputView>) -> bool {
    &&& inputs.len() == packages.len()
    &&& forall|i: int|
        0 <= i < inputs.len() ==> (#[trigger] inputs[i]).src_paths.len() == targets(
            packages[i].name,
            inputs[i].manifest,
        ).len()
}

/// The packages of the metadata document.
pub open spec fn package_list(
    packages: Seq<LockPackageView>,
    inputs: Seq<PackageInputView>,
) -> Seq<JsonView> {
    Seq::new(
        packages.len(),
        |i: int|
            package_json(
                packages[i],
                inputs[i].manifest,
                inputs[i].manifest_path,
                inputs[i].src_paths,
            ),
    )
}

/// The nodes of the metadata document.
pub open spec fn node_list(
    packages: Seq<LockPackageView>,
    inputs: Seq<PackageInputView>,
) -> Seq<JsonView> {
    Seq::new(
        packages.len(),
        |i: int|
            node_json(
                resolved_node(
                    packages[i],
                    declared_deps(packages[i], inputs[i].manifest),
                    packages,
                ),
            ),
    )
}

/// The fields of the resolved graph: the only member of the workspace as its
/// root, if there is exactly one, and the nodes.
pub open spec fn resolve_fields(
    ids: Seq<Seq<char>>,
    nodes: Seq<JsonView>,
) -> Seq<(Seq<char>, JsonView)> {
    seq![
        (
            "root"@,
            if ids.len() == 1 {
                JsonView::Str(ids[0])
            } else {
                JsonView::Null
            },
        ),
        ("nodes"@, JsonView::Array(nodes)),
    ]
}

/// The fields of the metadata document.
pub open spec fn document_fields(
    packages: Seq<LockPackageView>,
    members: Seq<(Seq<char>, int)>,
    inputs: Seq<PackageInputView>,
    workspace_root: Seq<char>,
    target_directory: Seq<char>,
) -> Seq<(Seq<char>, JsonView)> {
    let ids = member_ids(packages, members);
    seq![
        ("version"@, JsonView::Number(1)),
        ("packages"@, JsonView::Array(package_list(packages, inputs))),
        ("workspace_members"@, text_array(ids)),
        ("workspace_root"@, JsonView::Str(workspace_root)),
        ("target_directory"@, JsonView::Str(target_directory)),
        ("resolve"@, object(resolve_fields(ids, node_list(packages, inputs)))),
    ]
}

/// The metadata document.
pub open spec fn document(
    packages: Seq<LockPackageView>,
    members: Seq<(Seq<char>, int)>,
    inputs: Seq<PackageInputView>,
    workspace_root: Seq<char>,
    target_directory: Seq<char>,
) -> JsonView {
    object(document_fields(packages, members, inputs, workspace_root, target_directory))
}

/// Lists the identifiers of the packages that count as members of the
/// workspace.
pub fn list_member_ids(
    packages: &Vec<LockPackage>,
    members: &Vec<WorkspaceMember>,
) -> (ids: Vec<String>)
    ensures
        ids.deep_view() == member_ids(packages.deep_view(), members.deep_view()),
{
    let ghost all = packages.deep_view();
    let ghost listed = members.deep_view();
    let mut ids: Vec<String> = Vec::new();
    let mut i: usize = 0;
    assert(ids.deep_view() =~= member_ids(all.take(0), listed));
    while i < packages.len()
        invariant
            i <= packages.len(),
            all == packages.deep_view(),
            listed == members.deep_view(),
            ids.deep_view() == member_ids(all.take(i as int), listed),
        decreases packages.len() - i,
    {
        let ghost before = ids.deep_view();
        let pkg = &packages[i];
        proof {
            assert(all.take(i + 1).drop_last() =~= all.take(i as int));
            assert(all.take(i + 1).last() == pkg.deep_view());
        }
        if pkg.source.is_none() || find_member(members, pkg.name.as_str()).is_some() {
            let id = make_package_id(pkg);
            ids.push(id);
            assert(ids.deep_view() =~= before.push(id@));
        }
        i = i + 1;
    }
    assert(all.take(all.len() as int) =~= all);
    ids
}

/// Builds the metadata document, and lists for each package the entries of its
/// dependency list that name no package.
pub fn build_document(
    packages: &Vec<LockPackage>,
    members: &Vec<WorkspaceMember>,
    inputs: &Vec<PackageInput>,
    workspace_root: &str,
    target_directory: &str,
) -> (outcome: (Json, Vec<Vec<String>>))
    requires
        inputs_fit(packages.deep_view(), inputs.deep_view()),
    ensures
        outcome.0.deep_view() == document(
            packages.deep_view(),
            members.deep_view(),
            inputs.deep_view(),
            workspace_root@,
            target_directory@,
        ),
        outcome.1.len() == packages.len(),
        forall|i: int|
            0 <= i < packages.len() ==> (#[trigger] outcome.1@[i]).deep_view() == missing_deps(
                packages.deep_view(),
                packages@[i].dependencies.deep_view(),
            ),
{
    let ghost all = packages.deep_view();
    let ghost given = inputs.deep_view();
    let mut package_items: Vec<Json> = Vec::new();
    let mut nodes: Vec<Json> = Vec::new();
    let mut missing: Vec<Vec<String>> = Vec::new();
    let mut i: usize = 0;
    while i < packages.len()
        invariant
            i <= packages.len(),
            all == packages.deep_view(),
            given == inputs.deep_view(),
            inputs_fit(all, given),
            package_items.len() == i,
            nodes.len() == i,
            missing.len() == i,
            forall|j: int|
                0 <= j < i ==> (#[trigger] package_items@[j]).deep_view() == package_list(
                    all,
                    given,
                )[j],
            forall|j: int|
                0 <= j < i ==> (#[trigger] nodes@[j]).deep_view() == node_list(all, given)[j],
            forall|j: int|
                0 <= j < i ==> (#[trigger] missing@[j]).deep_view() == missing_deps(
                    all,
                    packages@[j].dependencies.deep_view(),
                ),
        decreases packages.len() - i,
    {
        let pkg = &packages[i];
        let input = &inputs[i];
        proof {
            assert(all[i as int] == pkg.deep_view());
            assert(given[i as int] == input.deep_view());
        }
        let (value, deps) = build_package_json(
            pkg,
            &input.manifest,
            input.manifest_path.as_str(),
            &input.src_paths,
        );
        let (node, unknown) = build_node_json(pkg, &deps, packages);
        package_items.push(value);
        nodes.push(node);
        missing.push(unknown);
        i = i + 1;
    }
    proof {
        assert(package_items.deep_view() =~= package_list(all, given));
        assert(nodes.deep_view() =~= node_list(all, given));
    }
    let ids = list_member_ids(packages, members);
    let root: Json = if ids.len() == 1 {
        make_text(ids[0].as_str())
    } else {
        Json::Null
    };
    let resolve: Vec<(String, Json)> = vec![
        ("root".to_owned(), root),
        ("nodes".to_owned(), make_array(nodes)),
    ];
    assert(resolve.deep_view() =~= resolve_fields(ids.deep_view(), node_list(all, given)));
    let fields: Vec<(String, Json)> = vec![
        ("version".to_owned(), Json::Number(1)),
        ("packages".to_owned(), make_array(package_items)),
        ("workspace_members".to_owned(), make_text_array(&ids)),
        ("workspace_root".to_owned(), make_text(workspace_root)),
        ("target_directory".to_owned(), make_text(target_directory)),
        ("resolve".to_owned(), make_object(resolve)),
    ];
    assert(fields.deep_view() =~= document_fields(
        all,
        members.deep_view(),
        given,
        workspace_root@,
        target_directory@,
    ));
    (make_object(fields), missing)
}

/// Metadata of the `cargo_metadata` crate.
#[verifier::external_type_specification]
#[verifier::external_body]
pub struct ExMetadata(cargo_metadata::Metadata);

/// The metadata that `serde_json::from_value` reads from a document, or the error
/// that it reports.
pub uninterp spec fn metadata_of(
    document: JsonView,
) -> Result<cargo_metadata::Metadata, serde_json::Error>;

/// `serde_json::from_value` reads metadata from a document, or reports an error.
/// What it reads and what it reports depend on what the document holds alone.
#[verifier::external_body]
fn read_metadata(document: serde_json::Value) -> (metadata: Result<
    cargo_metadata::Metadata,
    serde_json::Error,
>)
    ensures
        metadata == metadata_of(json_contents(document)),
{
    serde_json::from_value(document)
}

/// Whether an outcome is what reading a document gives: the metadata, or the error
/// that was reported.
pub open spec fn is_reading(
    outcome: Result<cargo_metadata::Metadata, LockfileError>,
    document: JsonView,
) -> bool {
    match (outcome, metadata_of(document)) {
        (Ok(metadata), Ok(read)) => metadata == read,
        (Err(LockfileError::Document(error)), Err(cause)) => error == cause,
        _ => false,
    }
}

/// Reads metadata from a document.
pub fn metadata_from_document(document: Json) -> (metadata: Result<
    cargo_metadata::Metadata,
    LockfileError,
>)
    ensures
        is_reading(metadata, document.deep_view()),
{
    match read_metadata(to_serde_json(document)) {
        Ok(metadata) => Ok(metadata),
        Err(error) => Err(LockfileError::Document(error)),
    }
}

/// Builds metadata from the packages of a lock file, the members of the workspace
/// and what was found out about each package, and lists for each package the
/// entries of its dependency list that name no package.
pub fn build_metadata(
    packages: &Vec<LockPackage>,
    members: &Vec<WorkspaceMember>,
    inputs: &Vec<PackageInput>,
    workspace_root: &str,
    target_directory: &str,
) -> (outcome: (Result<cargo_metadata::Metadata, LockfileError>, Vec<Vec<String>>))
    requires
        inputs_fit(packages.deep_view(), inputs.deep_view()),
    ensures
        is_reading(
            outcome.0,
            document(
                packages.deep_view(),
                members.deep_view(),
                inputs.deep_view(),
                workspace_root@,
                target_directory@,
            ),
        ),
        outcome.1.len() == packages.len(),
        forall|i: int|
            0 <= i < packages.len() ==> (#[trigger] outcome.1@[i]).deep_view() == missing_deps(
                packages.deep_view(),
                packages@[i].dependencies.deep_view(),
            ),
{
    let (built, missing) = build_document(
        packages,
        members,
        inputs,
        workspace_root,
        target_directory,
    );
    (metadata_from_document(built), missing)
}

/// The parts of a metadata document are found under their keys.
pub proof fn law_document_parts(
    packages: Seq<LockPackageView>,
    members: Seq<(Seq<char>, int)>,
    inputs: Seq<PackageInputView>,
    workspace_root: Seq<char>,
    target_directory: Seq<char>,
)
    ensures
        ({
            let whole = document(packages, members, inputs, workspace_root, target_directory);
            let ids = member_ids(packages, members);
            let resolve = object(resolve_fields(ids, node_list(packages, inputs)));
            &&& whole.get("version"@) == Some(JsonView::Number(1))
            &&& whole.get("packages"@) == Some(JsonView::Array(package_list(packages, inputs)))
            &&& whole.get("workspace_members"@) == Some(text_array(ids))
            &&& whole.get("workspace_root"@) == Some(JsonView::Str(workspace_root))
            &&& whole.get("target_directory"@) == Some(JsonView::Str(target_directory))
            &&& whole.get("resolve"@) == Some(resolve)
            &&& resolve.get("nodes"@) == Some(JsonView::Array(node_list(packages, inputs)))
            &&& resolve.get("root"@) == Some(
                if ids.len() == 1 {
                    JsonView::Str(ids[0])
                } else {
                    JsonView::Null
                },
            )
        }),
{
    reveal_strlit("version");
    reveal_strlit("packages");
    reveal_strlit("workspace_members");
    reveal_strlit("workspace_root");
    reveal_strlit("target_directory");
    reveal_strlit("resolve");
    reveal_strlit("root");
    reveal_strlit("nodes");
    let fields = document_fields(packages, members, inputs, workspace_root, target_directory);
    assert("version"@.len() == 7 && "packages"@.len() == 8 && "workspace_members"@.len() == 17);
    assert("workspace_root"@.len() == 14 && "target_directory"@.len() == 16);
    assert("resolve"@.len() == 7 && "version"@[0] != "resolve"@[0]);
    lemma_object_field(fields, 0);
    lemma_object_field(fields, 1);
    lemma_object_field(fields, 2);
    lemma_object_field(fields, 3);
    lemma_object_field(fields, 4);
    lemma_object_field(fields, 5);
    let parts = resolve_fields(member_ids(packages, members), node_list(packages, inputs));
    assert("root"@.len() == 4 && "nodes"@.len() == 5);
    lemma_object_field(parts, 0);
    lemma_object_field(parts, 1);
}

/// A metadata document has a package and a node for each package of the lock
/// file, in the same order and under the same identifier, the package with its
/// name, version and source.
pub proof fn law_packages_and_nodes(
    packages: Seq<LockPackageView>,
    inputs: Seq<PackageInputView>,
    i: int,
)
    requires
        0 <= i < packages.len(),
    ensures
        package_list(packages, inputs).len() == packages.len(),
        node_list(packages, inputs).len() == packages.len(),
        ({
            let pkg = packages[i];
            let id = JsonView::Str(pkg.id());
            &&& package_list(packages, inputs)[i].get("id"@) == Some(id)
            &&& package_list(packages, inputs)[i].get("name"@) == Some(JsonView::Str(pkg.name))
            &&& package_list(packages, inputs)[i].get("version"@) == Some(
                JsonView::Str(pkg.version),
            )
            &&& package_list(packages, inputs)[i].get("source"@) == Some(text_or_null(pkg.source))
            &&& node_list(packages, inputs)[i].get("id"@) == Some(id)
        }),
{
    reveal_strlit("name");
    reveal_strlit("version");
    reveal_strlit("id");
    reveal_strlit("source");
    reveal_strlit("dependencies");
    reveal_strlit("targets");
    reveal_strlit("features");
    reveal_strlit("manifest_path");
    reveal_strlit("edition");
    reveal_strlit("authors");
    reveal_strlit("links");
    reveal_strlit("deps");
    let input = inputs[i];
    let fields = package_fields(
        packages[i],
        input.manifest,
        input.manifest_path,
        input.src_paths,
    );
    assert("name"@.len() == 4 && "version"@.len() == 7 && "id"@.len() == 2);
    assert("source"@.len() == 6 && "dependencies"@.len() == 12 && "features"@.len() == 8);
    assert("manifest_path"@.len() == 13 && "links"@.len() == 5 && "deps"@.len() == 4);
    assert("targets"@.len() == 7 && "version"@[0] != "targets"@[0]);
    assert("edition"@.len() == 7 && "version"@[0] != "edition"@[0]);
    assert("authors"@.len() == 7 && "version"@[0] != "authors"@[0]);
    lemma_object_field(fields, 0);
    lemma_object_field(fields, 1);
    lemma_object_field(fields, 2);
    lemma_object_field(fields, 3);
    let n = resolved_node(packages[i], declared_deps(packages[i], input.manifest), packages);
    lemma_object_field(node_fields(n), 0);
}

/// Whether a text is the identifier of a package that counts as a member of the
/// workspace.
pub open spec fn is_member_id(
    packages: Seq<LockPackageView>,
    members: Seq<(Seq<char>, int)>,
    id: Seq<char>,
) -> bool {
    exists|i: int|
        0 <= i < packages.len() && counts_as_member(#[trigger] packages[i], members) && id
            == packages[i].id()
}

/// The members of the workspace are the identifiers of the packages that count
/// as such: those of the listed members, and those of all local packages.
pub proof fn law_members_are_counted(packages: Seq<LockPackageView>, members: Seq<(Seq<char>, int)>)
    ensures
        forall|id: Seq<char>| #[trigger]
            member_ids(packages, members).contains(id) <==> is_member_id(packages, members, id),
    decreases packages.len(),
{
    if packages.len() > 0 {
        let rest = packages.drop_last();
        let before = member_ids(rest, members);
        let ids = member_ids(packages, members);
        law_members_are_counted(rest, members);
        assert forall|id: Seq<char>| #[trigger] ids.contains(id) implies is_member_id(
            packages,
            members,
            id,
        ) by {
            let k = choose|k: int| 0 <= k < ids.len() && ids[k] == id;
            if k < before.len() {
                assert(before[k] == id);
                assert(before.contains(id));
                let i = choose|i: int|
                    0 <= i < rest.len() && counts_as_member(#[trigger] rest[i], members) && id
                        == rest[i].id();
                assert(packages[i] == rest[i]);
            } else {
                assert(packages[packages.len() - 1].id() == id);
            }
        }
        assert forall|id: Seq<char>| is_member_id(packages, members, id) implies #[trigger] ids.contains(
            id,
        ) by {
            let i = choose|i: int|
                0 <= i < packages.len() && counts_as_member(#[trigger] packages[i], members) && id
                    == packages[i].id();
            if i < rest.len() {
                assert(rest[i] == packages[i]);
                assert(before.contains(id));
                let k = choose|k: int| 0 <= k < before.len() && before[k] == id;
                assert(ids[k] == id);
            } else {
                assert(ids[before.len() as int] == id);
            }
        }
    } else {
        assert forall|id: Seq<char>| !#[trigger] member_ids(packages, members).contains(id) by {}
    }
}

/// Whether the package at position `i` is the only one that counts as a member
/// of the workspace.
pub open spec fn is_only_member(
    packages: Seq<LockPackageView>,
    members: Seq<(Seq<char>, int)>,
    i: int,
) -> bool {
    &&& 0 <= i < packages.len()
    &&& counts_as_member(packages[i], members)
    &&& forall|j: int|
        0 <= j < packages.len() && j != i ==> !counts_as_member(#[trigger] packages[j], members)
}

/// Without packages that count there are no members.
proof fn lemma_no_members(packages: Seq<LockPackageView>, members: Seq<(Seq<char>, int)>)
    requires
        forall|j: int|
            0 <= j < packages.len() ==> !counts_as_member(#[trigger] packages[j], members),
    ensures
        member_ids(packages, members).len() == 0,
{
    law_members_are_counted(packages, members);
    if member_ids(packages, members).len() > 0 {
        assert(member_ids(packages, members).contains(member_ids(packages, members)[0]));
    }
}

/// The resolved graph has a root if and only if exactly one package counts as a
/// member of the workspace, and then that package is the root.
pub proof fn law_root_is_only_member(packages: Seq<LockPackageView>, members: Seq<(Seq<char>, int)>)
    ensures
        member_ids(packages, members).len() == 1 <==> exists|i: int|
            is_only_member(packages, members, i),
        forall|i: int| #[trigger]
            is_only_member(packages, members, i) ==> member_ids(packages, members) == seq![
                packages[i].id(),
            ],
    decreases packages.len(),
{
    if packages.len() > 0 {
        let rest = packages.drop_last();
        let last = packages.len() - 1;
        let ids = member_ids(packages, members);
        law_root_is_only_member(rest, members);
        if counts_as_member(packages[last], members) {
            if member_ids(rest, members).len() == 0 {
                assert forall|j: int| 0 <= j < packages.len() && j != last implies !counts_as_member(
                    #[trigger] packages[j],
                    members,
                ) by {
                    law_members_are_counted(rest, members);
                    assert(rest[j] == packages[j]);
                    if counts_as_member(rest[j], members) {
                        assert(member_ids(rest, members).contains(rest[j].id()));
                    }
                }
                assert(is_only_member(packages, members, last));
            }
        } else if member_ids(rest, members).len() == 1 {
            let i = choose|i: int| is_only_member(rest, members, i);
            assert(rest[i] == packages[i]);
            assert forall|j: int| 0 <= j < packages.len() && j != i implies !counts_as_member(
                #[trigger] packages[j],
                members,
            ) by {
                if j < last {
                    assert(rest[j] == packages[j]);
                }
            }
            assert(is_only_member(packages, members, i));
        }
        assert forall|i: int| #[trigger] is_only_member(packages, members, i) implies ids == seq![
            packages[i].id(),
        ] by {
            if i == last {
                assert forall|j: int| 0 <= j < rest.len() implies !counts_as_member(
                    #[trigger] rest[j],
                    members,
                ) by {
                    assert(rest[j] == packages[j]);
                }
                lemma_no_members(rest, members);
            } else {
                assert forall|j: int| 0 <= j < rest.len() && j != i implies !counts_as_member(
                    #[trigger] rest[j],
                    members,
                ) by {
                    assert(rest[j] == packages[j]);
                }
                assert(is_only_member(rest, members, i));
            }
        }
    }
}

/// The resolved graph is closed: what a node depends on is the identifier of a
/// package of the lock file.
pub proof fn law_graph_is_closed(
    packages: Seq<LockPackageView>,
    inputs: Seq<PackageInputView>,
    i: int,
)
    requires
        0 <= i < packages.len(),
    ensures
        ({
            let n = resolved_node(
                packages[i],
                declared_deps(packages[i], inputs[i].manifest),
                packages,
            );
            &&& node_list(packages, inputs)[i] == node_json(n)
            &&& forall|k: int|
                0 <= k < n.dependencies.len() ==> is_package_id(
                    packages,
                    #[trigger] n.dependencies[k],
                )
        }),
{
    let specs = declared_deps(packages[i], inputs[i].manifest);
    let found = found_deps(packages, packages[i].dependencies);
    law_node_edges(packages[i], specs, packages, semver_table(packages, found, specs));
}

} // verus!
