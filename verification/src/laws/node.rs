//! Laws of the resolved dependency graph.

use crate::assignment::{assignment, is_assignment, lemma_assignment_unique};
use crate::choice::{best_candidate, candidates};
use crate::dependency::{DeclaredDepView, DepKind, DepSpecView};
use crate::json::{object, text_array, JsonView};
use crate::laws::choice::{law_kinds, refers};
use crate::laws::json::law_object_fields;
use crate::laws::seqs::{is_listing, law_positions};
use crate::lock::{resolved, LockPackageView};
use crate::node::{
    assigned_declaration, declares, dep_kind_fields, found_deps, found_names, is_text,
    missing_deps, node, node_dep_fields, node_dep_name, node_fields, node_json, pair_score,
    resolved_node, score_table, semver_table, source_score, NodeDepView, NodeView,
};
use crate::seqs::positions;
use crate::text::{occurs_in, replaced};
use crate::versions::{semver_admits, speaks_for};
use vstd::prelude::*;

verus! {

/// Whether a source is one of a hard fork.
pub open spec fn of_hard_fork(source: Seq<char>) -> bool {
    occurs_in("hard-fork-test"@, source) || occurs_in("hard_fork"@, source)
}

/// How well a declared source goes with a locked one: best where the locked source
/// starts with it, else better where both are hard forks than where neither is,
/// and not at all where one is.
pub proof fn law_score_of_source(declared: Seq<char>, locked: Seq<char>)
    ensures
        locked.len() == 0 ==> source_score(Some(declared), locked) == 0,
        locked.len() > 0 && declared.is_prefix_of(locked) ==> source_score(Some(declared), locked)
            == 100,
        locked.len() > 0 && !declared.is_prefix_of(locked) && of_hard_fork(declared)
            && of_hard_fork(locked) ==> source_score(Some(declared), locked) == 50,
        locked.len() > 0 && !declared.is_prefix_of(locked) && !of_hard_fork(declared)
            && !of_hard_fork(locked) ==> source_score(Some(declared), locked) == 30,
        locked.len() > 0 && !declared.is_prefix_of(locked) && of_hard_fork(declared)
            != of_hard_fork(locked) ==> source_score(Some(declared), locked) == 0,
{
}

/// A declaration without a source goes well with a registry, a little with another
/// source that is no hard fork, and not at all with a hard fork or a local package.
pub proof fn law_score_without_source(locked: Seq<char>)
    ensures
        ({
            let registry = ("registry+"@).is_prefix_of(locked) || ("sparse+"@).is_prefix_of(locked);
            &&& registry ==> source_score(None, locked) == 80
            &&& !registry && locked.len() > 0 && !of_hard_fork(locked) ==> source_score(
                None,
                locked,
            ) == 20
            &&& !registry && of_hard_fork(locked) ==> source_score(None, locked) == 0
            &&& !registry && locked.len() == 0 ==> source_score(None, locked) == 0
        }),
{
}

/// A requirement that speaks for the locked version adds 200 to the score of the
/// sources.
pub proof fn law_score_of_pair(dep: DepSpecView, pkg: LockPackageView, by_semver: bool)
    ensures
        ({
            let locked = match pkg.source {
                Some(source) => source,
                None => Seq::<char>::empty(),
            };
            let speaks = pkg.version.len() > 0 && speaks_for(
                dep.version_req,
                pkg.version,
                by_semver,
            );
            &&& speaks ==> pair_score(dep, pkg, by_semver) == 200 + source_score(dep.source, locked)
            &&& !speaks ==> pair_score(dep, pkg, by_semver) == source_score(dep.source, locked)
        }),
{
}

/// What the entries of a dependency list name, and which of them name nothing, is
/// found entry by entry, in order.
pub proof fn law_found_in_order(
    packages: Seq<LockPackageView>,
    entries: Seq<Seq<char>>,
    entry: Seq<char>,
)
    ensures
        found_deps(packages, Seq::empty()).len() == 0,
        missing_deps(packages, Seq::empty()).len() == 0,
        match resolved(packages, entry) {
            Some(i) => {
                &&& found_deps(packages, entries.push(entry)) == found_deps(packages, entries).push(
                    i,
                )
                &&& missing_deps(packages, entries.push(entry)) == missing_deps(packages, entries)
            },
            None => {
                &&& found_deps(packages, entries.push(entry)) == found_deps(packages, entries)
                &&& missing_deps(packages, entries.push(entry)) == missing_deps(
                    packages,
                    entries,
                ).push(entry)
            },
        },
{
    assert(entries.push(entry).drop_last() =~= entries);
}

/// A node has the identifier of its package, and the identifiers of the packages
/// that its entries name, in order; each dependency is for all that the
/// declarations that refer to its package are for, each with its platform, or a
/// normal dependency where there are none.
pub proof fn law_node(
    pkg: LockPackageView,
    specs: Seq<DeclaredDepView>,
    packages: Seq<LockPackageView>,
    by_semver: Seq<Seq<bool>>,
    k: int,
    at: Seq<int>,
)
    requires
        0 <= k < found_deps(packages, pkg.dependencies).len(),
        by_semver[k].len() == specs.len(),
        is_listing(
            specs,
            refers(packages[found_deps(packages, pkg.dependencies)[k]].name),
            at,
        ),
    ensures
        ({
            let found = found_deps(packages, pkg.dependencies);
            let n = node(pkg, specs, packages, by_semver);
            &&& n.id == pkg.id()
            &&& n.dependencies.len() == found.len()
            &&& n.deps.len() == found.len()
            &&& n.dependencies[k] == packages[found[k]].id()
            &&& n.deps[k].pkg == packages[found[k]].id()
            &&& n.deps[k].name == node_dep_name(packages, found, specs, by_semver, k)
            &&& at.len() == 0 ==> {
                &&& n.deps[k].dep_kinds.len() == 1
                &&& n.deps[k].dep_kinds[0].kind == DepKind::Normal
                &&& n.deps[k].dep_kinds[0].target is None
            }
            &&& at.len() > 0 ==> n.deps[k].dep_kinds.len() == at.len()
            &&& forall|i: int|
                0 <= i < at.len() ==> (#[trigger] n.deps[k].dep_kinds[i]).kind
                    == specs[at[i]].kind && n.deps[k].dep_kinds[i].target == specs[at[i]].target
        }),
{
    let found = found_deps(packages, pkg.dependencies);
    law_kinds(specs, by_semver[k], packages[found[k]].name, at);
}

/// The node of a package rests on what semantic versioning says of the requirement
/// of each declaration and the version of each dependency.
pub proof fn law_resolved_node(
    pkg: LockPackageView,
    specs: Seq<DeclaredDepView>,
    packages: Seq<LockPackageView>,
    by_semver: Seq<Seq<bool>>,
)
    requires
        by_semver.len() == found_deps(packages, pkg.dependencies).len(),
        forall|k: int| 0 <= k < by_semver.len() ==> (#[trigger] by_semver[k]).len() == specs.len(),
        forall|k: int, d: int|
            0 <= k < by_semver.len() && 0 <= d < specs.len() ==> #[trigger] by_semver[k][d]
                == semver_admits(
                specs[d].spec.version_req,
                packages[found_deps(packages, pkg.dependencies)[k]].version,
            ),
    ensures
        resolved_node(pkg, specs, packages) == node(pkg, specs, packages, by_semver),
{
    let found = found_deps(packages, pkg.dependencies);
    let table = semver_table(packages, found, specs);
    assert forall|k: int| 0 <= k < table.len() implies #[trigger] table[k] == by_semver[k] by {
        assert(table[k] =~= by_semver[k]);
    }
    assert(table =~= by_semver);
}

/// The test for declarations of a package.
pub open spec fn is_of_package(name: Seq<char>) -> spec_fn(DeclaredDepView) -> bool {
    |dep: DeclaredDepView|
        match dep.spec.package {
            Some(package) => package == name,
            None => dep.spec.name == name,
        }
}

/// The test for dependencies on a package, by their positions among the packages.
pub open spec fn is_on_package(
    packages: Seq<LockPackageView>,
    name: Seq<char>,
) -> spec_fn(int) -> bool {
    |i: int| packages[i].name == name
}

/// The rows and columns of an assignment are the dependencies on a package and the
/// declarations of it.
proof fn lemma_rows_and_columns(
    packages: Seq<LockPackageView>,
    found: Seq<int>,
    specs: Seq<DeclaredDepView>,
    name: Seq<char>,
    rows: Seq<int>,
    columns: Seq<int>,
)
    requires
        is_listing(found, is_on_package(packages, name), rows),
        is_listing(specs, is_of_package(name), columns),
    ensures
        rows == positions(found_names(packages, found), is_text(name)),
        columns == positions(specs, declares(name)),
{
    let names = found_names(packages, found);
    assert forall|i: int| 0 <= i < names.len() && is_text(name)(#[trigger] names[i]) implies rows.contains(
        i,
    ) by {
        assert(is_on_package(packages, name)(found[i]));
    }
    assert forall|k: int| 0 <= k < rows.len() implies 0 <= #[trigger] rows[k] < names.len()
        && is_text(name)(names[rows[k]]) by {
        assert(is_on_package(packages, name)(found[rows[k]]));
    }
    assert(is_listing(names, is_text(name), rows));
    law_positions(names, is_text(name), rows);
    assert forall|i: int| 0 <= i < specs.len() && declares(name)(#[trigger] specs[i]) implies columns.contains(
        i,
    ) by {
        assert(is_of_package(name)(specs[i]));
    }
    assert forall|k: int| 0 <= k < columns.len() implies 0 <= #[trigger] columns[k] < specs.len()
        && declares(name)(specs[columns[k]]) by {
        assert(is_of_package(name)(specs[columns[k]]));
    }
    assert(is_listing(specs, declares(name), columns));
    law_positions(specs, declares(name), columns);
}

/// Declarations are assigned to the dependencies on a package if and only if there
/// are several such dependencies and a declaration of the package for each. They
/// are assigned by the scores of the pairs.
pub proof fn law_assigned_by_score(
    packages: Seq<LockPackageView>,
    found: Seq<int>,
    specs: Seq<DeclaredDepView>,
    by_semver: Seq<Seq<bool>>,
    rows: Seq<int>,
    columns: Seq<int>,
    scores: Seq<Seq<i32>>,
    chosen: Seq<int>,
    r: int,
)
    requires
        0 <= r < rows.len(),
        0 <= rows[r] < found.len(),
        is_listing(found, is_on_package(packages, packages[found[rows[r]]].name), rows),
        is_listing(specs, is_of_package(packages[found[rows[r]]].name), columns),
        scores.len() == rows.len(),
        forall|s: int| 0 <= s < scores.len() ==> (#[trigger] scores[s]).len() == columns.len(),
        forall|s: int, c: int|
            0 <= s < rows.len() && 0 <= c < columns.len() ==> #[trigger] scores[s][c] == pair_score(
                specs[columns[c]].spec,
                packages[found[rows[s]]],
                by_semver[rows[s]][columns[c]],
            ),
        is_assignment(scores, columns.len() as int, chosen),
    ensures
        assigned_declaration(packages, found, specs, by_semver, rows[r]) == if rows.len() > 1
            && columns.len() >= rows.len() {
            Some(columns[chosen[r]])
        } else {
            None::<int>
        },
{
    let k = rows[r];
    let name = packages[found[k]].name;
    lemma_rows_and_columns(packages, found, specs, name, rows, columns);
    let table = score_table(packages, found, specs, by_semver, rows, columns);
    assert forall|s: int| 0 <= s < table.len() implies #[trigger] table[s] == scores[s] by {
        assert forall|c: int| 0 <= c < columns.len() implies table[s][c] == scores[s][c] by {
            let score = pair_score(
                specs[columns[c]].spec,
                packages[found[rows[s]]],
                by_semver[rows[s]][columns[c]],
            );
            assert(scores[s][c] == score);
        }
        assert(scores[s].len() == columns.len());
        assert(table[s] =~= scores[s]);
    }
    assert(table =~= scores);
    lemma_assignment_unique(
        scores,
        columns.len() as int,
        chosen,
        assignment(scores, columns.len() as int),
    );
    let at = rows.index_of(k);
    assert(rows.contains(k));
    assert(rows[at] == k);
    if at < r {
        assert(rows[at] < rows[r]);
    } else if r < at {
        assert(rows[r] < rows[at]);
    }
}

/// A dependency with an assigned declaration is known by the key of the declaration
/// where it names a package, else by the name of its own package; one without by
/// the key of the declaration behind it, where that names a package, else by the
/// name of its own package. A `-` in it becomes a `_`.
pub proof fn law_name_of_dep(
    packages: Seq<LockPackageView>,
    found: Seq<int>,
    specs: Seq<DeclaredDepView>,
    by_semver: Seq<Seq<bool>>,
    k: int,
)
    ensures
        ({
            let pkg = packages[found[k]];
            let name = node_dep_name(packages, found, specs, by_semver, k);
            match assigned_declaration(packages, found, specs, by_semver, k) {
                Some(d) => {
                    &&& specs[d].spec.package is Some ==> name == replaced(
                        specs[d].spec.name,
                        '-',
                        '_',
                    )
                    &&& specs[d].spec.package is None ==> name == replaced(pkg.name, '-', '_')
                },
                None => match best_candidate(
                    candidates(specs, by_semver[k], pkg.name),
                    pkg.version,
                    pkg.source,
                ) {
                    Some(c) => {
                        &&& c.0.spec.package is Some ==> name == replaced(c.0.spec.name, '-', '_')
                        &&& c.0.spec.package is None ==> name == replaced(pkg.name, '-', '_')
                    },
                    None => name == replaced(pkg.name, '-', '_'),
                },
            }
        }),
{
}

/// Whether a value is the written form of a dependency of a node: under their keys
/// its name, its package and its kinds, each kind with its platform, all of them
/// and in order.
pub open spec fn is_dep_written(written: JsonView, dep: NodeDepView) -> bool {
    &&& written.get("name"@) == Some(JsonView::Str(dep.name))
    &&& written.get("pkg"@) == Some(JsonView::Str(dep.pkg))
    &&& written.get("dep_kinds"@) matches Some(JsonView::Array(kinds)) && kinds.len()
        == dep.dep_kinds.len() && forall|i: int|
        0 <= i < kinds.len() ==> {
            &&& (#[trigger] kinds[i]).get("kind"@) == Some(
                match dep.dep_kinds[i].kind {
                    DepKind::Normal => JsonView::Null,
                    DepKind::Build => JsonView::Str("build"@),
                    DepKind::Dev => JsonView::Str("dev"@),
                },
            )
            &&& kinds[i].get("target"@) == Some(
                match dep.dep_kinds[i].target {
                    Some(platform) => JsonView::Str(platform),
                    None => JsonView::Null,
                },
            )
        }
}

/// The written form of a dependency holds what the dependency does.
proof fn lemma_dep_written(dep: NodeDepView)
    ensures
        is_dep_written(object(node_dep_fields(dep)), dep),
{
    reveal_strlit("name");
    reveal_strlit("pkg");
    reveal_strlit("dep_kinds");
    reveal_strlit("kind");
    reveal_strlit("target");
    assert("name"@.len() == 4 && "pkg"@.len() == 3 && "dep_kinds"@.len() == 9);
    assert("kind"@.len() == 4 && "target"@.len() == 6);
    let fields = node_dep_fields(dep);
    law_object_fields(fields);
    assert(fields[0].0 == "name"@ && fields[1].0 == "pkg"@ && fields[2].0 == "dep_kinds"@);
    let written = object(fields);
    let kinds = written.get("dep_kinds"@)->0->Array_0;
    assert forall|i: int| 0 <= i < kinds.len() implies {
        &&& (#[trigger] kinds[i]).get("kind"@) == Some(
            match dep.dep_kinds[i].kind {
                DepKind::Normal => JsonView::Null,
                DepKind::Build => JsonView::Str("build"@),
                DepKind::Dev => JsonView::Str("dev"@),
            },
        )
        &&& kinds[i].get("target"@) == Some(
            match dep.dep_kinds[i].target {
                Some(platform) => JsonView::Str(platform),
                None => JsonView::Null,
            },
        )
    } by {
        let parts = dep_kind_fields(dep.dep_kinds[i]);
        law_object_fields(parts);
        assert(parts[0].0 == "kind"@ && parts[1].0 == "target"@);
        assert(kinds[i] == object(parts));
    }
}

/// The written form of a node holds under their keys its identifier, those of its
/// dependencies, its dependencies, and no features.
pub proof fn law_node_written(n: NodeView)
    ensures
        node_json(n).get("id"@) == Some(JsonView::Str(n.id)),
        node_json(n).get("dependencies"@) == Some(text_array(n.dependencies)),
        node_json(n).get("deps"@) matches Some(JsonView::Array(deps)) && deps.len() == n.deps.len()
            && forall|k: int|
            0 <= k < deps.len() ==> is_dep_written(#[trigger] deps[k], n.deps[k]),
        node_json(n).get("features"@) matches Some(JsonView::Array(features)) && features.len()
            == 0,
{
    reveal_strlit("id");
    reveal_strlit("dependencies");
    reveal_strlit("deps");
    reveal_strlit("features");
    assert("id"@.len() == 2 && "dependencies"@.len() == 12);
    assert("deps"@.len() == 4 && "features"@.len() == 8);
    let fields = node_fields(n);
    law_object_fields(fields);
    assert(fields[0].0 == "id"@ && fields[1].0 == "dependencies"@);
    assert(fields[2].0 == "deps"@ && fields[3].0 == "features"@);
    let deps = node_json(n).get("deps"@)->0->Array_0;
    assert forall|k: int| 0 <= k < deps.len() implies is_dep_written(
        #[trigger] deps[k],
        n.deps[k],
    ) by {
        lemma_dep_written(n.deps[k]);
    }
}

/// In the written form of a package's node, a dependency has one entry under
/// `dep_kinds` for each declaration that refers to its package, with the kind and
/// the platform of that declaration, in order. One that nothing declares has a
/// single entry, of a normal dependency on all platforms.
pub proof fn law_kinds_written(
    pkg: LockPackageView,
    specs: Seq<DeclaredDepView>,
    packages: Seq<LockPackageView>,
    k: int,
    at: Seq<int>,
)
    requires
        0 <= k < found_deps(packages, pkg.dependencies).len(),
        is_listing(
            specs,
            refers(packages[found_deps(packages, pkg.dependencies)[k]].name),
            at,
        ),
    ensures
        ({
            let written = node_json(resolved_node(pkg, specs, packages));
            let deps = written.get("deps"@)->0->Array_0;
            let kinds = deps[k].get("dep_kinds"@)->0->Array_0;
            &&& written.get("deps"@) matches Some(JsonView::Array(_))
            &&& deps.len() == found_deps(packages, pkg.dependencies).len()
            &&& deps[k].get("dep_kinds"@) matches Some(JsonView::Array(_))
            &&& at.len() == 0 ==> {
                &&& kinds.len() == 1
                &&& kinds[0].get("kind"@) == Some(JsonView::Null)
                &&& kinds[0].get("target"@) == Some(JsonView::Null)
            }
            &&& at.len() > 0 ==> kinds.len() == at.len()
            &&& forall|i: int|
                0 <= i < at.len() ==> {
                    &&& (#[trigger] kinds[i]).get("kind"@) == Some(
                        match specs[at[i]].kind {
                            DepKind::Normal => JsonView::Null,
                            DepKind::Build => JsonView::Str("build"@),
                            DepKind::Dev => JsonView::Str("dev"@),
                        },
                    )
                    &&& kinds[i].get("target"@) == Some(
                        match specs[at[i]].target {
                            Some(platform) => JsonView::Str(platform),
                            None => JsonView::Null,
                        },
                    )
                }
        }),
{
    let found = found_deps(packages, pkg.dependencies);
    let table = semver_table(packages, found, specs);
    let n = resolved_node(pkg, specs, packages);
    law_node(pkg, specs, packages, table, k, at);
    law_node_written(n);
    let deps = node_json(n).get("deps"@)->0->Array_0;
    assert(is_dep_written(deps[k], n.deps[k]));
}

} // verus!
