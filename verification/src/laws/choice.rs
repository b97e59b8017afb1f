//! Laws of the choice of the declaration behind a dependency.

use crate::choice::{
    best_candidate, by_repository, by_source, candidates, dep_kinds, is_registry, no_source,
    refers_to, renamed_to, same_repository, semver_row, source_is, source_starts, version_speaks,
    Candidate, DepKindInfoView,
};
use crate::dependency::{DeclaredDepView, DepKind};
use crate::laws::seqs::{is_listing, law_filter};
use crate::seqs::{first_index, lemma_first_index, lemma_first_index_at, lemma_first_index_none};
use crate::text::before_first;
use crate::versions::{semver_admits, speaks_for};
use vstd::prelude::*;

verus! {

/// The test for the declarations that refer to a package: they name it, or have
/// its name as their key.
pub open spec fn refers(name: Seq<char>) -> spec_fn(DeclaredDepView) -> bool {
    |dep: DeclaredDepView| dep.spec.package == Some(name) || dep.spec.name == name
}

/// The candidates for a dependency are the declarations that refer to its package,
/// each with its own verdict of semantic versioning, all of them and in order.
pub proof fn law_candidates(
    specs: Seq<DeclaredDepView>,
    by_semver: Seq<bool>,
    name: Seq<char>,
    at: Seq<int>,
)
    requires
        by_semver.len() == specs.len(),
        is_listing(specs, refers(name), at),
    ensures
        candidates(specs, by_semver, name).len() == at.len(),
        forall|k: int|
            0 <= k < at.len() ==> #[trigger] candidates(specs, by_semver, name)[k] == (
                specs[at[k]],
                by_semver[at[k]],
            ),
{
    let all = specs.zip_with(by_semver);
    assert forall|i: int| 0 <= i < all.len() && refers_to(name)(#[trigger] all[i]) implies at.contains(
        i,
    ) by {
        assert(refers(name)(specs[i]));
    }
    assert forall|k: int| 0 <= k < at.len() implies 0 <= #[trigger] at[k] < all.len() && refers_to(
        name,
    )(all[at[k]]) by {
        assert(refers(name)(specs[at[k]]));
    }
    law_filter(all, refers_to(name), at);
}

/// What semantic versioning says of a declaration is said of its own requirement.
pub proof fn law_semver_row(specs: Seq<DeclaredDepView>, version: Seq<char>)
    ensures
        semver_row(specs, version).len() == specs.len(),
        forall|i: int|
            0 <= i < specs.len() ==> #[trigger] semver_row(specs, version)[i] == semver_admits(
                specs[i].spec.version_req,
                version,
            ),
{
}

/// The only candidate is taken.
pub proof fn law_only_candidate(
    candidate: Candidate,
    version: Seq<char>,
    source: Option<Seq<char>>,
)
    ensures
        best_candidate(seq![candidate], version, source) == Some(candidate),
{
}

/// Of several candidates the first that declares the locked source, but for its
/// commit, is taken.
pub proof fn law_source_first(
    found: Seq<Candidate>,
    version: Seq<char>,
    locked: Seq<char>,
    i: int,
)
    requires
        0 <= i < found.len(),
        found[i].0.spec.source == Some(before_first(locked, '#')),
        forall|j: int|
            0 <= j < i ==> (#[trigger] found[j]).0.spec.source != Some(before_first(locked, '#')),
    ensures
        best_candidate(found, version, Some(locked)) == Some(found[i]),
{
    assert forall|j: int| 0 <= j < i implies !source_is(locked)(#[trigger] found[j]) by {}
    lemma_first_index_at(found, source_is(locked), i);
}

/// Whether a candidate declares a source that the locked source starts with.
pub open spec fn declares_start(candidate: Candidate, locked: Seq<char>) -> bool {
    candidate.0.spec.source matches Some(declared) && declared.is_prefix_of(locked)
}

/// Where none declares the locked source, the first of several candidates whose
/// source it starts with is taken.
pub proof fn law_start_of_source_next(
    found: Seq<Candidate>,
    version: Seq<char>,
    locked: Seq<char>,
    i: int,
)
    requires
        0 <= i < found.len(),
        forall|j: int|
            0 <= j < found.len() ==> (#[trigger] found[j]).0.spec.source != Some(
                before_first(locked, '#'),
            ),
        declares_start(found[i], locked),
        forall|j: int| 0 <= j < i ==> !declares_start(#[trigger] found[j], locked),
    ensures
        best_candidate(found, version, Some(locked)) == Some(found[i]),
{
    assert forall|j: int| 0 <= j < found.len() implies !source_is(locked)(#[trigger] found[j]) by {}
    lemma_first_index_none(found, source_is(locked));
    assert forall|j: int| 0 <= j < i implies !source_starts(locked)(#[trigger] found[j]) by {
        assert(!declares_start(found[j], locked));
    }
    lemma_first_index_at(found, source_starts(locked), i);
}

/// Whether the source of no candidate goes with the locked source.
pub open spec fn no_source_goes(found: Seq<Candidate>, source: Option<Seq<char>>) -> bool {
    source matches Some(locked) ==> forall|j: int|
        0 <= j < found.len() ==> !declares_start(#[trigger] found[j], locked)
            && found[j].0.spec.source != Some(before_first(locked, '#'))
}

/// No choice by source is made where no source goes with the locked one.
proof fn lemma_no_source_goes(found: Seq<Candidate>, source: Option<Seq<char>>)
    requires
        no_source_goes(found, source),
    ensures
        by_source(found, source) is None,
{
    if let Some(locked) = source {
        assert forall|j: int| 0 <= j < found.len() implies !source_is(locked)(#[trigger] found[j]) by {
            assert(!declares_start(found[j], locked));
        }
        assert forall|j: int| 0 <= j < found.len() implies !source_starts(locked)(
            #[trigger] found[j],
        ) by {
            assert(!declares_start(found[j], locked));
        }
        lemma_first_index_none(found, source_is(locked));
        lemma_first_index_none(found, source_starts(locked));
    }
}

/// Whether the requirement of a candidate speaks for a version.
pub open spec fn speaks(candidate: Candidate, version: Seq<char>) -> bool {
    speaks_for(candidate.0.spec.version_req, version, candidate.1)
}

/// Where no source goes with the locked one, the first of several candidates whose
/// requirement speaks for the locked version is taken.
pub proof fn law_version_next(
    found: Seq<Candidate>,
    version: Seq<char>,
    source: Option<Seq<char>>,
    i: int,
)
    requires
        0 <= i < found.len(),
        no_source_goes(found, source),
        speaks(found[i], version),
        forall|j: int| 0 <= j < i ==> !speaks(#[trigger] found[j], version),
    ensures
        best_candidate(found, version, source) == Some(found[i]),
{
    lemma_no_source_goes(found, source);
    assert forall|j: int| 0 <= j < i implies !version_speaks(version)(#[trigger] found[j]) by {
        assert(!speaks(found[j], version));
    }
    lemma_first_index_at(found, version_speaks(version), i);
}

/// Whether neither source nor version tell the candidates apart.
pub open spec fn is_undecided(
    found: Seq<Candidate>,
    version: Seq<char>,
    source: Option<Seq<char>>,
) -> bool {
    &&& found.len() != 1
    &&& no_source_goes(found, source)
    &&& forall|j: int| 0 <= j < found.len() ==> !speaks(#[trigger] found[j], version)
}

/// Whether a source is that of a registry.
pub open spec fn of_registry(source: Seq<char>) -> bool {
    ("registry+"@).is_prefix_of(source) || ("sparse+"@).is_prefix_of(source)
}

/// A registry is told by the start of its source.
pub proof fn law_registry(source: Seq<char>)
    ensures
        is_registry(source) <==> of_registry(source),
{
}

/// The test for candidates of the repository of a locked source: the sources are
/// the same up to their first `?`.
pub open spec fn of_repository(locked: Seq<char>) -> spec_fn(Candidate) -> bool {
    |c: Candidate|
        c.0.spec.source matches Some(declared) && before_first(declared, '?') == before_first(
            locked,
            '?',
        )
}

/// Nothing speaks for a candidate where nothing decides.
proof fn lemma_undecided(found: Seq<Candidate>, version: Seq<char>, source: Option<Seq<char>>)
    requires
        is_undecided(found, version, source),
    ensures
        best_candidate(found, version, source) == by_repository(found, source),
{
    lemma_no_source_goes(found, source);
    assert forall|j: int| 0 <= j < found.len() implies !version_speaks(version)(
        #[trigger] found[j],
    ) by {
        assert(!speaks(found[j], version));
    }
    lemma_first_index_none(found, version_speaks(version));
}

/// Where neither source nor version decide on a package of a repository, the
/// candidate of that repository is taken, if there is exactly one.
pub proof fn law_repository_next(
    found: Seq<Candidate>,
    version: Seq<char>,
    locked: Seq<char>,
    i: int,
)
    requires
        is_undecided(found, version, Some(locked)),
        !of_registry(locked),
        0 <= i < found.len(),
        of_repository(locked)(found[i]),
        forall|j: int|
            0 <= j < found.len() && j != i ==> !of_repository(locked)(#[trigger] found[j]),
    ensures
        best_candidate(found, version, Some(locked)) == Some(found[i]),
{
    lemma_undecided(found, version, Some(locked));
    let at = seq![i];
    assert forall|j: int| 0 <= j < found.len() && same_repository(locked)(
        #[trigger] found[j],
    ) implies at.contains(j) by {
        if j != i {
            assert(!of_repository(locked)(found[j]));
        }
        assert(at[0] == i);
    }
    assert(same_repository(locked)(found[i]));
    law_filter(found, same_repository(locked), at);
    assert(found.filter(same_repository(locked))[0] == found[at[0]]);
}

/// Where nothing else decides, the first candidate without a source is taken, and
/// none where all have one: for a local package, for one of a registry, and for
/// one of a repository that none or several of the candidates declare.
pub proof fn law_no_source_last(
    found: Seq<Candidate>,
    version: Seq<char>,
    source: Option<Seq<char>>,
    at: Seq<int>,
)
    requires
        is_undecided(found, version, source),
        source matches Some(locked) ==> of_registry(locked) || is_listing(
            found,
            of_repository(locked),
            at,
        ) && at.len() != 1,
    ensures
        match best_candidate(found, version, source) {
            Some(c) => exists|i: int|
                0 <= i < found.len() && #[trigger] found[i] == c && c.0.spec.source is None
                    && forall|j: int| 0 <= j < i ==> (#[trigger] found[j]).0.spec.source is Some,
            None => forall|j: int|
                0 <= j < found.len() ==> (#[trigger] found[j]).0.spec.source is Some,
        },
{
    lemma_undecided(found, version, source);
    if let Some(locked) = source {
        if !of_registry(locked) {
            assert forall|j: int| 0 <= j < found.len() && same_repository(locked)(
                #[trigger] found[j],
            ) implies at.contains(j) by {
                assert(of_repository(locked)(found[j]));
            }
            assert forall|k: int| 0 <= k < at.len() implies 0 <= #[trigger] at[k] < found.len()
                && same_repository(locked)(found[at[k]]) by {
                assert(of_repository(locked)(found[at[k]]));
            }
            law_filter(found, same_repository(locked), at);
        }
    }
    lemma_first_index(found, no_source());
    if let Some(i) = first_index(found, no_source()) {
        assert forall|j: int| 0 <= j < i implies (#[trigger] found[j]).0.spec.source is Some by {
            assert(!no_source()(found[j]));
        }
        assert(found[i] == best_candidate(found, version, source)->0);
    } else {
        assert forall|j: int| 0 <= j < found.len() implies (#[trigger] found[j]).0.spec.source is Some by {
            assert(!no_source()(found[j]));
        }
    }
}

/// A dependency is renamed to the key of its declaration if and only if that
/// declaration names a package.
pub proof fn law_renamed(candidate: Candidate)
    ensures
        candidate.0.spec.package is Some ==> renamed_to(Some(candidate)) == Some(
            candidate.0.spec.name,
        ),
        candidate.0.spec.package is None ==> renamed_to(Some(candidate)) is None,
        renamed_to(None) is None,
{
}

/// A dependency is for all that the declarations that refer to its package are
/// for, each with its platform, in order. One that nothing declares is a normal
/// dependency on all platforms.
pub proof fn law_kinds(
    specs: Seq<DeclaredDepView>,
    by_semver: Seq<bool>,
    name: Seq<char>,
    at: Seq<int>,
)
    requires
        by_semver.len() == specs.len(),
        is_listing(specs, refers(name), at),
    ensures
        ({
            let kinds = dep_kinds(candidates(specs, by_semver, name));
            if at.len() == 0 {
                kinds == seq![DepKindInfoView { kind: DepKind::Normal, target: None }]
            } else {
                &&& kinds.len() == at.len()
                &&& forall|k: int|
                    0 <= k < at.len() ==> (#[trigger] kinds[k]).kind == specs[at[k]].kind
                        && kinds[k].target == specs[at[k]].target
            }
        }),
{
    law_candidates(specs, by_semver, name, at);
}

} // verus!
