//! Choosing the declaration behind a dependency of a lock file.

use crate::dependency::{DeclaredDep, DeclaredDepView, DepKind};
use crate::seqs::{first_match, lemma_first_index, lemma_first_index_at, lemma_first_index_none};
use crate::text::{before_first, copy_optional, cut_at_first, same_text, starts_with};
use crate::versions::{admits_by_semver, requirement_speaks_for, semver_admits, speaks_for};
use vstd::prelude::*;

verus! {

/// What a dependency of the resolved graph is for, and the platform that it is
/// limited to.
#[derive(Debug)]
pub struct DepKindInfo {
    /// What it is for.
    pub kind: DepKind,
    /// The platform that it is limited to.
    pub target: Option<String>,
}

/// What a `DepKindInfo` stands for.
#[verifier::ext_equal]
pub struct DepKindInfoView {
    pub kind: DepKind,
    pub target: Option<Seq<char>>,
}

impl DeepView for DepKindInfo {
    type V = DepKindInfoView;

    open spec fn deep_view(&self) -> DepKindInfoView {
        DepKindInfoView { kind: self.kind, target: self.target.deep_view() }
    }
}

/// A declaration that may be behind a dependency, and whether its requirement
/// admits the locked version by semantic versioning.
pub type Candidate = (DeclaredDepView, bool);

/// The test for the declarations that name a package or have its name as key.
pub open spec fn refers_to(name: Seq<char>) -> spec_fn(Candidate) -> bool {
    |c: Candidate| c.0.spec.package_name() == name || c.0.spec.name == name
}

/// The declarations that refer to a package.
pub open spec fn candidates(
    specs: Seq<DeclaredDepView>,
    by_semver: Seq<bool>,
    name: Seq<char>,
) -> Seq<Candidate> {
    specs.zip_with(by_semver).filter(refers_to(name))
}

/// The test for declarations of the locked source: the declared one is all of it
/// but for the commit, which stands from the first `#` on.
pub open spec fn source_is(locked: Seq<char>) -> spec_fn(Candidate) -> bool {
    |c: Candidate| c.0.spec.source == Some(before_first(locked, '#'))
}

/// The test for declarations of a source that the locked source starts with.
pub open spec fn source_starts(locked: Seq<char>) -> spec_fn(Candidate) -> bool {
    |c: Candidate| c.0.spec.source matches Some(declared) && declared.is_prefix_of(locked)
}

/// The test for declarations whose requirement speaks for the locked version.
pub open spec fn version_speaks(version: Seq<char>) -> spec_fn(Candidate) -> bool {
    |c: Candidate| speaks_for(c.0.spec.version_req, version, c.1)
}

/// The test for declarations without a source.
pub open spec fn no_source() -> spec_fn(Candidate) -> bool {
    |c: Candidate| c.0.spec.source is None
}

/// The test for declarations of the same repository as the locked source.
pub open spec fn same_repository(locked: Seq<char>) -> spec_fn(Candidate) -> bool {
    |c: Candidate|
        c.0.spec.source matches Some(declared) && before_first(declared, '?') == before_first(
            locked,
            '?',
        )
}

/// Whether a source is a registry.
pub open spec fn is_registry(source: Seq<char>) -> bool {
    "registry+"@.is_prefix_of(source) || "sparse+"@.is_prefix_of(source)
}

/// The declaration chosen by the repository of the locked source: the one of
/// that repository if there is exactly one, else the first without a source.
pub open spec fn by_repository(
    found: Seq<Candidate>,
    source: Option<Seq<char>>,
) -> Option<Candidate> {
    match source {
        Some(locked) if !is_registry(locked) && found.filter(same_repository(locked)).len() == 1 =>
            Some(found.filter(same_repository(locked))[0]),
        _ => first_match(found, no_source()),
    }
}

/// The declaration chosen by the locked source: the first of that source, else
/// the first of a source that the locked one starts with.
pub open spec fn by_source(found: Seq<Candidate>, source: Option<Seq<char>>) -> Option<Candidate> {
    match source {
        Some(locked) => match first_match(found, source_is(locked)) {
            Some(c) => Some(c),
            None => first_match(found, source_starts(locked)),
        },
        None => None,
    }
}

/// The declaration behind a dependency: the only candidate or, among several,
/// the one by source, else the first whose requirement speaks for the locked
/// version, else the one by repository.
pub open spec fn best_candidate(
    found: Seq<Candidate>,
    version: Seq<char>,
    source: Option<Seq<char>>,
) -> Option<Candidate> {
    if found.len() == 1 {
        Some(found[0])
    } else {
        match (by_source(found, source), first_match(found, version_speaks(version))) {
            (Some(c), _) => Some(c),
            (None, Some(c)) => Some(c),
            (None, None) => by_repository(found, source),
        }
    }
}

/// The kinds of a dependency: those of all candidates, or a normal dependency
/// where there are none.
pub open spec fn dep_kinds(found: Seq<Candidate>) -> Seq<DepKindInfoView> {
    if found.len() == 0 {
        seq![DepKindInfoView { kind: DepKind::Normal, target: None }]
    } else {
        found.map_values(|c: Candidate| DepKindInfoView { kind: c.0.kind, target: c.0.target })
    }
}

/// The key of the declaration behind a dependency, where it renames a package.
pub open spec fn renamed_to(chosen: Option<Candidate>) -> Option<Seq<char>> {
    match chosen {
        Some(c) if c.0.spec.package is Some => Some(c.0.spec.name),
        _ => None,
    }
}

/// The candidates at some positions.
spec fn at_positions(all: Seq<Candidate>, found: Seq<usize>) -> Seq<Candidate> {
    found.map_values(|i: usize| all[i as int])
}

/// The positions of the declarations that refer to a package.
fn find_candidates(
    dep_specs: &Vec<DeclaredDep>,
    by_semver: &Vec<bool>,
    name: &str,
) -> (found: Vec<usize>)
    requires
        by_semver.len() == dep_specs.len(),
    ensures
        forall|k: int| 0 <= k < found.len() ==> #[trigger] found@[k] < dep_specs.len(),
        at_positions(dep_specs.deep_view().zip_with(by_semver@), found@) == candidates(
            dep_specs.deep_view(),
            by_semver@,
            name@,
        ),
{
    let ghost all = dep_specs.deep_view().zip_with(by_semver@);
    let mut found: Vec<usize> = Vec::new();
    let mut i: usize = 0;
    proof {
        reveal(Seq::filter);
        assert(at_positions(all, found@) =~= all.take(0).filter(refers_to(name@)));
    }
    while i < dep_specs.len()
        invariant
            i <= dep_specs.len(),
            by_semver.len() == dep_specs.len(),
            all == dep_specs.deep_view().zip_with(by_semver@),
            forall|k: int| 0 <= k < found.len() ==> #[trigger] found@[k] < dep_specs.len(),
            at_positions(all, found@) == all.take(i as int).filter(refers_to(name@)),
        decreases dep_specs.len() - i,
    {
        let spec = &dep_specs[i].spec;
        let ghost before = found@;
        proof {
            reveal(Seq::filter);
            assert(all.take(i + 1).drop_last() =~= all.take(i as int));
            assert(all.take(i + 1).last() == all[i as int]);
        }
        if same_text(spec.package_name(), name) || same_text(spec.name.as_str(), name) {
            found.push(i);
            assert(at_positions(all, found@) =~= at_positions(all, before).push(all[i as int]));
        }
        i = i + 1;
    }
    assert(all.take(all.len() as int) =~= all);
    found
}

/// A test on candidates.
enum Test<'a> {
    SourceIs(&'a str),
    SourceStarts(&'a str),
    VersionSpeaks(&'a str),
    NoSource,
    SameRepository(&'a str),
}

/// The candidates that a test asks for.
spec fn passing(test: Test<'_>) -> spec_fn(Candidate) -> bool {
    match test {
        Test::SourceIs(locked) => source_is(locked@),
        Test::SourceStarts(locked) => source_starts(locked@),
        Test::VersionSpeaks(version) => version_speaks(version@),
        Test::NoSource => no_source(),
        Test::SameRepository(locked) => same_repository(locked@),
    }
}

/// Applies a test to a candidate.
fn passes(dep: &DeclaredDep, by_semver: bool, test: &Test<'_>) -> (yes: bool)
    ensures
        yes == passing(*test)((dep.deep_view(), by_semver)),
{
    match test {
        Test::SourceIs(locked) => match &dep.spec.source {
            Some(declared) => same_text(declared.as_str(), cut_at_first(locked, '#')),
            None => false,
        },
        Test::SourceStarts(locked) => match &dep.spec.source {
            Some(declared) => starts_with(locked, declared.as_str()),
            None => false,
        },
        Test::VersionSpeaks(version) => requirement_speaks_for(
            dep.spec.version_req.as_str(),
            version,
            by_semver,
        ),
        Test::NoSource => dep.spec.source.is_none(),
        Test::SameRepository(locked) => match &dep.spec.source {
            Some(declared) => same_text(cut_at_first(declared.as_str(), '?'), cut_at_first(locked, '?')),
            None => false,
        },
    }
}

/// The first candidate that passes a test.
fn first_passing(
    dep_specs: &Vec<DeclaredDep>,
    by_semver: &Vec<bool>,
    found: &Vec<usize>,
    test: &Test<'_>,
) -> (first: Option<usize>)
    requires
        by_semver.len() == dep_specs.len(),
        forall|k: int| 0 <= k < found.len() ==> #[trigger] found@[k] < dep_specs.len(),
    ensures
        ({
            let all = dep_specs.deep_view().zip_with(by_semver@);
            match first {
                Some(i) => i < dep_specs.len() && first_match(
                    at_positions(all, found@),
                    passing(*test),
                ) == Some(all[i as int]),
                None => first_match(at_positions(all, found@), passing(*test)) is None,
            }
        }),
{
    let ghost all = dep_specs.deep_view().zip_with(by_semver@);
    let ghost list = at_positions(all, found@);
    let mut k: usize = 0;
    while k < found.len()
        invariant
            k <= found.len(),
            by_semver.len() == dep_specs.len(),
            all == dep_specs.deep_view().zip_with(by_semver@),
            list == at_positions(all, found@),
            forall|j: int| 0 <= j < found.len() ==> #[trigger] found@[j] < dep_specs.len(),
            forall|j: int| 0 <= j < k ==> !passing(*test)(#[trigger] list[j]),
        decreases found.len() - k,
    {
        let i = found[k];
        assert(list[k as int] == all[i as int]);
        if passes(&dep_specs[i], by_semver[i], test) {
            proof {
                lemma_first_index_at(list, passing(*test), k as int);
            }
            return Some(i);
        }
        k = k + 1;
    }
    proof {
        lemma_first_index_none(list, passing(*test));
    }
    None
}

/// The candidate that passes a test, if it is the only one.
fn only_passing(
    dep_specs: &Vec<DeclaredDep>,
    by_semver: &Vec<bool>,
    found: &Vec<usize>,
    test: &Test<'_>,
) -> (only: Option<usize>)
    requires
        by_semver.len() == dep_specs.len(),
        forall|k: int| 0 <= k < found.len() ==> #[trigger] found@[k] < dep_specs.len(),
    ensures
        ({
            let all = dep_specs.deep_view().zip_with(by_semver@);
            let kept = at_positions(all, found@).filter(passing(*test));
            match only {
                Some(i) => i < dep_specs.len() && kept.len() == 1 && kept[0] == all[i as int],
                None => kept.len() != 1,
            }
        }),
{
    let ghost all = dep_specs.deep_view().zip_with(by_semver@);
    let ghost list = at_positions(all, found@);
    let mut kept: Vec<usize> = Vec::new();
    let mut k: usize = 0;
    proof {
        reveal(Seq::filter);
        assert(at_positions(all, kept@) =~= list.take(0).filter(passing(*test)));
    }
    while k < found.len()
        invariant
            k <= found.len(),
            by_semver.len() == dep_specs.len(),
            all == dep_specs.deep_view().zip_with(by_semver@),
            list == at_positions(all, found@),
            forall|j: int| 0 <= j < found.len() ==> #[trigger] found@[j] < dep_specs.len(),
            forall|j: int| 0 <= j < kept.len() ==> #[trigger] kept@[j] < dep_specs.len(),
            at_positions(all, kept@) == list.take(k as int).filter(passing(*test)),
        decreases found.len() - k,
    {
        let i = found[k];
        let ghost before = kept@;
        proof {
            reveal(Seq::filter);
            assert(list.take(k + 1).drop_last() =~= list.take(k as int));
            assert(list.take(k + 1).last() == all[i as int]);
        }
        if passes(&dep_specs[i], by_semver[i], test) {
            kept.push(i);
            assert(at_positions(all, kept@) =~= at_positions(all, before).push(all[i as int]));
        }
        k = k + 1;
    }
    assert(list.take(list.len() as int) =~= list);
    if kept.len() == 1 {
        Some(kept[0])
    } else {
        None
    }
}

/// Chooses the declaration behind a dependency.
fn choose_candidate(
    dep_version: &str,
    dep_source: Option<&str>,
    dep_specs: &Vec<DeclaredDep>,
    by_semver: &Vec<bool>,
    found: &Vec<usize>,
) -> (chosen: Option<usize>)
    requires
        by_semver.len() == dep_specs.len(),
        forall|k: int| 0 <= k < found.len() ==> #[trigger] found@[k] < dep_specs.len(),
    ensures
        ({
            let all = dep_specs.deep_view().zip_with(by_semver@);
            let best = best_candidate(at_positions(all, found@), dep_version@, dep_source.deep_view());
            match chosen {
                Some(i) => i < dep_specs.len() && best == Some(all[i as int]),
                None => best is None,
            }
        }),
{
    if found.len() == 1 {
        return Some(found[0]);
    }
    if let Some(locked) = dep_source {
        let of_source = first_passing(dep_specs, by_semver, found, &Test::SourceIs(locked));
        if of_source.is_some() {
            return of_source;
        }
        let starting = first_passing(dep_specs, by_semver, found, &Test::SourceStarts(locked));
        if starting.is_some() {
            return starting;
        }
    }
    let by_version = first_passing(dep_specs, by_semver, found, &Test::VersionSpeaks(dep_version));
    if by_version.is_some() {
        return by_version;
    }
    if let Some(locked) = dep_source {
        if !starts_with(locked, "registry+") && !starts_with(locked, "sparse+") {
            let only = only_passing(dep_specs, by_semver, found, &Test::SameRepository(locked));
            if only.is_some() {
                return only;
            }
        }
    }
    first_passing(dep_specs, by_semver, found, &Test::NoSource)
}

/// The kinds of a dependency and the key that renames it, given what semantic
/// versioning says of each declaration's requirement and the locked version.
pub fn choose_dep_kind_and_name(
    dep_name: &str,
    dep_version: &str,
    dep_source: Option<&str>,
    dep_specs: &Vec<DeclaredDep>,
    by_semver: &Vec<bool>,
) -> (choice: (Vec<DepKindInfo>, Option<String>))
    requires
        by_semver.len() == dep_specs.len(),
    ensures
        ({
            let found = candidates(dep_specs.deep_view(), by_semver@, dep_name@);
            &&& choice.0.deep_view() == dep_kinds(found)
            &&& choice.1.deep_view() == renamed_to(
                best_candidate(found, dep_version@, dep_source.deep_view()),
            )
        }),
{
    let ghost all = dep_specs.deep_view().zip_with(by_semver@);
    let found = find_candidates(dep_specs, by_semver, dep_name);
    let chosen = choose_candidate(dep_version, dep_source, dep_specs, by_semver, &found);
    let name: Option<String> = match chosen {
        Some(i) => {
            assert(all[i as int].0 == dep_specs@[i as int].deep_view());
            match &dep_specs[i].spec.package {
                Some(_) => Some(dep_specs[i].spec.name.clone()),
                None => None,
            }
        },
        None => None,
    };
    let mut kinds: Vec<DepKindInfo> = Vec::new();
    let ghost list = at_positions(all, found@);
    if found.len() == 0 {
        kinds.push(DepKindInfo { kind: DepKind::Normal, target: None });
        assert(kinds.deep_view() =~= dep_kinds(list));
    } else {
        let mut k: usize = 0;
        while k < found.len()
            invariant
                k <= found.len(),
                by_semver.len() == dep_specs.len(),
                all == dep_specs.deep_view().zip_with(by_semver@),
                list == at_positions(all, found@),
                found.len() > 0,
                forall|j: int| 0 <= j < found.len() ==> #[trigger] found@[j] < dep_specs.len(),
                kinds.len() == k,
                forall|j: int| 0 <= j < k ==> (#[trigger] kinds@[j]).deep_view() == dep_kinds(list)[j],
            decreases found.len() - k,
        {
            let dep = &dep_specs[found[k]];
            assert(list[k as int] == all[found@[k as int] as int]);
            kinds.push(DepKindInfo { kind: dep.kind, target: copy_optional(&dep.target) });
            k = k + 1;
        }
        assert(kinds.deep_view() =~= dep_kinds(list));
    }
    (kinds, name)
}

/// What semantic versioning says of each declaration's requirement and a
/// version.
pub open spec fn semver_row(specs: Seq<DeclaredDepView>, version: Seq<char>) -> Seq<bool> {
    specs.map_values(|dep: DeclaredDepView| semver_admits(dep.spec.version_req, version))
}

/// Asks semantic versioning about each declaration's requirement and a version.
pub fn ask_semver(dep_specs: &Vec<DeclaredDep>, version: &str) -> (row: Vec<bool>)
    ensures
        row@ == semver_row(dep_specs.deep_view(), version@),
{
    let mut row: Vec<bool> = Vec::new();
    let mut i: usize = 0;
    while i < dep_specs.len()
        invariant
            i <= dep_specs.len(),
            row.len() == i,
            forall|j: int|
                0 <= j < i ==> #[trigger] row@[j] == semver_row(dep_specs.deep_view(), version@)[j],
        decreases dep_specs.len() - i,
    {
        row.push(admits_by_semver(dep_specs[i].spec.version_req.as_str(), version));
        i = i + 1;
    }
    assert(row@ =~= semver_row(dep_specs.deep_view(), version@));
    row
}

/// The kinds of a dependency and the key that renames it.
pub fn find_dep_kind_and_name(
    dep_name: &str,
    dep_version: &str,
    dep_source: Option<&str>,
    dep_specs: &Vec<DeclaredDep>,
) -> (choice: (Vec<DepKindInfo>, Option<String>))
    ensures
        ({
            let found = candidates(
                dep_specs.deep_view(),
                semver_row(dep_specs.deep_view(), dep_version@),
                dep_name@,
            );
            &&& choice.0.deep_view() == dep_kinds(found)
            &&& choice.1.deep_view() == renamed_to(
                best_candidate(found, dep_version@, dep_source.deep_view()),
            )
        }),
{
    let by_semver = ask_semver(dep_specs, dep_version);
    choose_dep_kind_and_name(dep_name, dep_version, dep_source, dep_specs, &by_semver)
}

/// The declaration behind a dependency is one of the declarations that name the
/// package or have its name as key. There is one whenever exactly one such
/// declaration is made, or one of them has no source.
pub proof fn law_best_candidate_refers(
    specs: Seq<DeclaredDepView>,
    by_semver: Seq<bool>,
    name: Seq<char>,
    version: Seq<char>,
    source: Option<Seq<char>>,
)
    ensures
        ({
            let found = candidates(specs, by_semver, name);
            match best_candidate(found, version, source) {
                Some(c) => found.contains(c) && specs.zip_with(by_semver).contains(c) && refers_to(
                    name,
                )(c),
                None => found.len() != 1 && forall|i: int|
                    0 <= i < found.len() ==> (#[trigger] found[i]).0.spec.source is Some,
            }
        }),
{
    let all = specs.zip_with(by_semver);
    let found = candidates(specs, by_semver, name);
    lemma_filter_members(all, refers_to(name));
    lemma_first_index(found, version_speaks(version));
    lemma_first_index(found, no_source());
    if let Some(locked) = source {
        lemma_first_index(found, source_is(locked));
        lemma_first_index(found, source_starts(locked));
        lemma_filter_members(found, same_repository(locked));
    }
    if best_candidate(found, version, source) is None {
        assert forall|i: int| 0 <= i < found.len() implies (#[trigger] found[i]).0.spec.source is Some by {
            assert(!no_source()(found[i]));
        }
    }
}

/// Where a declaration of the locked source refers to the package, the
/// declaration behind the dependency is one of that source, whatever the
/// versions.
pub proof fn law_source_decides(
    found: Seq<Candidate>,
    version: Seq<char>,
    locked: Seq<char>,
    i: int,
)
    requires
        0 <= i < found.len(),
        source_is(locked)(found[i]),
    ensures
        best_candidate(found, version, Some(locked)) matches Some(c) && source_is(locked)(c),
{
    lemma_first_index(found, source_is(locked));
}

/// What a filter keeps is in the list and passes.
proof fn lemma_filter_members(list: Seq<Candidate>, test: spec_fn(Candidate) -> bool)
    ensures
        forall|i: int|
            0 <= i < list.filter(test).len() ==> list.contains(#[trigger] list.filter(test)[i])
                && test(list.filter(test)[i]),
    decreases list.len(),
{
    reveal(Seq::filter);
    if list.len() > 0 {
        let rest = list.drop_last();
        lemma_filter_members(rest, test);
        let kept = list.filter(test);
        assert forall|i: int| 0 <= i < kept.len() implies list.contains(#[trigger] kept[i]) && test(
            kept[i],
        ) by {
            if i < rest.filter(test).len() {
                assert(kept[i] == rest.filter(test)[i]);
                let k = choose|k: int| 0 <= k < rest.len() && rest[k] == kept[i];
                assert(list[k] == kept[i]);
            } else {
                assert(list[list.len() - 1] == kept[i]);
            }
        }
    }
}

/// A dependency is for something: it has the kinds of all declarations that
/// refer to its package, one for each, or is a normal dependency.
pub proof fn law_dep_kinds_of_candidates(found: Seq<Candidate>)
    ensures
        dep_kinds(found).len() > 0,
        found.len() > 0 ==> dep_kinds(found).len() == found.len(),
        forall|i: int|
            0 <= i < found.len() ==> (#[trigger] dep_kinds(found)[i]).kind == found[i].0.kind
                && dep_kinds(found)[i].target == found[i].0.target,
{
}

} // verus!
