//! Laws of versions and requirements.

use crate::versions::{requirement_admits, requirement_of, semver_admits, speaks_for, version_of};
use vstd::prelude::*;

verus! {

/// A requirement that is neither the wildcard nor exact speaks for the versions
/// that satisfy it.
pub proof fn law_other_requirement(requirement: Seq<char>, version: Seq<char>, by_semver: bool)
    requires
        requirement != "*"@,
        !("="@).is_prefix_of(requirement),
    ensures
        speaks_for(requirement, version, by_semver) == by_semver,
{
}

/// A version satisfies a requirement if and only if both can be read and the
/// requirement that was read admits the version that was read.
pub proof fn law_semver(requirement: Seq<char>, version: Seq<char>)
    ensures
        semver_admits(requirement, version) <==> requirement_of(requirement) is Some && version_of(
            version,
        ) is Some && requirement_admits(
            requirement_of(requirement)->0,
            version_of(version)->0,
        ),
{
}

} // verus!
