//! Laws of the metadata document.

use crate::error::LockfileError;
use crate::json::JsonView;
use crate::lock::LockPackageView;
use crate::metadata::{
    counts_as_member, is_reading, member_ids, metadata_of, node_list, package_list,
    PackageInputView,
};
use crate::node::{node_json, resolved_node};
use crate::package::{declared_deps, package_json};
use crate::seqs::lemma_first_index;
use crate::workspace::is_member_named;
use vstd::prelude::*;

verus! {

/// A package counts as a member of the workspace if and only if it is local or a
/// member of its name is listed.
pub proof fn law_counts_as_member(pkg: LockPackageView, members: Seq<(Seq<char>, int)>)
    ensures
        counts_as_member(pkg, members) <==> pkg.source is None || exists|i: int|
            0 <= i < members.len() && (#[trigger] members[i]).0 == pkg.name,
{
    lemma_first_index(members, is_member_named(pkg.name));
    if exists|i: int| 0 <= i < members.len() && (#[trigger] members[i]).0 == pkg.name {
        let i = choose|i: int| 0 <= i < members.len() && (#[trigger] members[i]).0 == pkg.name;
        assert(is_member_named(pkg.name)(members[i]));
    }
}

/// The members of the workspace come in the order of the lock file: one more
/// package adds its identifier at the end, if it counts as a member, and nothing
/// otherwise.
pub proof fn law_members_in_order(
    packages: Seq<LockPackageView>,
    pkg: LockPackageView,
    members: Seq<(Seq<char>, int)>,
)
    ensures
        member_ids(Seq::empty(), members).len() == 0,
        counts_as_member(pkg, members) ==> member_ids(packages.push(pkg), members) == member_ids(
            packages,
            members,
        ).push(pkg.id()),
        !counts_as_member(pkg, members) ==> member_ids(packages.push(pkg), members) == member_ids(
            packages,
            members,
        ),
{
    assert(packages.push(pkg).drop_last() =~= packages);
}

/// Each package is written with what was found out about it, and its node from the
/// dependencies that it declares.
pub proof fn law_each_with_its_input(
    packages: Seq<LockPackageView>,
    inputs: Seq<PackageInputView>,
    i: int,
)
    requires
        0 <= i < packages.len(),
    ensures
        package_list(packages, inputs).len() == packages.len(),
        package_list(packages, inputs)[i] == package_json(
            packages[i],
            inputs[i].manifest,
            inputs[i].manifest_path,
            inputs[i].src_paths,
        ),
        node_list(packages, inputs).len() == packages.len(),
        node_list(packages, inputs)[i] == node_json(
            resolved_node(
                packages[i],
                declared_deps(packages[i], inputs[i].manifest),
                packages,
            ),
        ),
{
}

/// Reading a document gives the metadata that was read from it, or the error that
/// was reported, and nothing else.
pub proof fn law_reading(
    outcome: Result<cargo_metadata::Metadata, LockfileError>,
    document: JsonView,
)
    ensures
        match metadata_of(document) {
            Ok(read) => is_reading(outcome, document) <==> outcome == Ok::<
                cargo_metadata::Metadata,
                LockfileError,
            >(read),
            Err(cause) => is_reading(outcome, document) <==> outcome == Err::<
                cargo_metadata::Metadata,
                LockfileError,
            >(LockfileError::Document(cause)),
        },
{
}

} // verus!
