//! Versions and the requirements on them.

use crate::text::{same_text, take_prefix_off, without_prefix};
use vstd::prelude::*;

verus! {

/// A version requirement of the `semver` crate.
#[verifier::external_type_specification]
#[verifier::external_body]
pub struct ExVersionReq(semver::VersionReq);

/// A version of the `semver` crate.
#[verifier::external_type_specification]
#[verifier::external_body]
pub struct ExVersion(semver::Version);

/// An error of the `semver` crate.
#[verifier::external_type_specification]
#[verifier::external_body]
pub struct ExVersionError(semver::Error);

/// The requirement that `semver::VersionReq::parse` reads from a text; nothing
/// where it reports an error.
pub uninterp spec fn requirement_of(text: Seq<char>) -> Option<semver::VersionReq>;

/// The version that `semver::Version::parse` reads from a text; nothing where it
/// reports an error.
pub uninterp spec fn version_of(text: Seq<char>) -> Option<semver::Version>;

/// Whether `semver::VersionReq::matches` finds that a version satisfies a
/// requirement.
pub uninterp spec fn requirement_admits(
    requirement: semver::VersionReq,
    version: semver::Version,
) -> bool;

/// `semver::VersionReq::parse` reads a requirement from a text, or reports an
/// error, depending on the text alone.
pub assume_specification[ semver::VersionReq::parse ](text: &str) -> (requirement: Result<
    semver::VersionReq,
    semver::Error,
>)
    ensures
        match requirement {
            Ok(r) => requirement_of(text@) == Some(r),
            Err(_) => requirement_of(text@) is None,
        },
;

/// `semver::Version::parse` reads a version from a text, or reports an error,
/// depending on the text alone.
pub assume_specification[ semver::Version::parse ](text: &str) -> (version: Result<
    semver::Version,
    semver::Error,
>)
    ensures
        match version {
            Ok(v) => version_of(text@) == Some(v),
            Err(_) => version_of(text@) is None,
        },
;

/// `semver::VersionReq::matches` tells whether a version satisfies a
/// requirement, depending on the two alone.
pub assume_specification[ semver::VersionReq::matches ](
    requirement: &semver::VersionReq,
    version: &semver::Version,
) -> (admits: bool)
    ensures
        admits == requirement_admits(*requirement, *version),
;

/// Whether a version satisfies a requirement by the rules of semantic
/// versioning. A text that is no version satisfies nothing, and nothing
/// satisfies a text that is no requirement.
pub open spec fn semver_admits(requirement: Seq<char>, version: Seq<char>) -> bool {
    match (requirement_of(requirement), version_of(version)) {
        (Some(r), Some(v)) => requirement_admits(r, v),
        _ => false,
    }
}

/// Tells whether a version satisfies a requirement by the rules of semantic
/// versioning.
pub fn admits_by_semver(requirement: &str, version: &str) -> (admits: bool)
    ensures
        admits == semver_admits(requirement@, version@),
{
    match (semver::VersionReq::parse(requirement), semver::Version::parse(version)) {
        (Ok(r), Ok(v)) => r.matches(&v),
        _ => false,
    }
}

/// Whether a requirement speaks for a version, given what semantic versioning
/// says of the two: the wildcard speaks for none, an exact requirement for the
/// version that it spells out, and any other for those that satisfy it.
pub open spec fn speaks_for(requirement: Seq<char>, version: Seq<char>, by_semver: bool) -> bool {
    if requirement == "*"@ {
        false
    } else {
        match without_prefix(requirement, "="@) {
            Some(exact) => version == exact,
            None => by_semver,
        }
    }
}

/// Tells whether a requirement speaks for a version.
pub fn requirement_speaks_for(requirement: &str, version: &str, by_semver: bool) -> (speaks: bool)
    ensures
        speaks == speaks_for(requirement@, version@, by_semver),
{
    if same_text(requirement, "*") {
        false
    } else {
        match take_prefix_off(requirement, "=") {
            Some(exact) => same_text(version, exact),
            None => by_semver,
        }
    }
}

/// The wildcard speaks for no version, and an exact requirement for the version
/// that it spells out alone, whatever semantic versioning says.
pub proof fn law_exact_requirement(exact: Seq<char>, version: Seq<char>, by_semver: bool)
    ensures
        !speaks_for("*"@, version, by_semver),
        speaks_for("="@ + exact, version, by_semver) == (version == exact),
{
    reveal_strlit("*");
    reveal_strlit("=");
    let requirement = "="@ + exact;
    assert(requirement[0] == '=');
    assert("*"@[0] == '*');
    assert("="@ =~= requirement.subrange(0, 1));
    assert(requirement.skip(1) =~= exact);
}

} // verus!
