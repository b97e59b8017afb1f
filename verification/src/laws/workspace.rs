//! Laws of workspaces.

use crate::error::LockfileError;
use crate::toml_value::TomlView;
use crate::workspace::{
    is_manifest_of, is_member_named, member_entries, member_name, passed_on, reports_member,
    MemberFault,
};
use vstd::prelude::*;

verus! {

/// A root manifest passes on the package settings and the dependencies of its
/// `[workspace]` table, and nothing without one.
pub proof fn law_passed_on(root: TomlView)
    ensures
        match root.get("workspace"@) {
            Some(workspace) => passed_on(root).0 == workspace.get("package"@) && passed_on(root).1
                == workspace.get("dependencies"@),
            None => passed_on(root).0 is None && passed_on(root).1 is None,
        },
{
}

/// The members of a workspace are listed in the array `members` of its
/// `[workspace]` table; each entry that is a string is a path.
pub proof fn law_member_entries(root: TomlView)
    ensures
        match root.get("workspace"@) {
            Some(workspace) => match workspace.get("members"@) {
                Some(TomlView::Array(items)) => member_entries(root) matches Some(entries)
                    && entries.len() == items.len() && forall|i: int|
                    0 <= i < items.len() ==> #[trigger] entries[i] == match items[i] {
                        TomlView::Str(path) => Some(path),
                        _ => None,
                    },
                _ => member_entries(root) is None,
            },
            None => member_entries(root) is None,
        },
{
}

/// A member has the name of its package, else that of its directory, else an
/// unknown one.
pub proof fn law_member_name(document: TomlView, directory: Option<Seq<char>>, name: Seq<char>)
    ensures
        ({
            let own = match document.get("package"@) {
                Some(package) => package.get("name"@),
                None => None,
            };
            &&& match (own, directory) {
                (Some(TomlView::Str(given)), _) => member_name(document, directory) == given,
                (_, Some(given)) => member_name(document, directory) == given,
                (_, None) => member_name(document, directory) == "unknown"@,
            }
            &&& is_manifest_of(document, name) <==> own == Some(TomlView::Str(name))
        }),
{
}

/// Each fault of a list of members has an error of its own, which says at which
/// entry it is.
pub proof fn law_member_faults(error: LockfileError, at: int)
    ensures
        reports_member(error, MemberFault::NotText) <==> error is MemberNotText,
        reports_member(error, MemberFault::Unreadable(at)) <==> (
        error matches LockfileError::MemberUnreadable(i) && i == at),
        reports_member(error, MemberFault::Broken(at)) <==> (
        error matches LockfileError::MemberSyntax(i) && i == at),
{
}

/// A member is found by its name.
pub proof fn law_found_by_name(member: (Seq<char>, int), name: Seq<char>)
    ensures
        is_member_named(name)(member) <==> member.0 == name,
{
}

} // verus!
