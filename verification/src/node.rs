//! The nodes of the resolved dependency graph.

use crate::assignment::{
    assign, assignment, is_assignment, law_assignment_exists, law_highest_pair_assigned, outranks,
};
use crate::choice::{
    ask_semver, best_candidate, candidates, choose_dep_kind_and_name, dep_kinds, is_registry,
    renamed_to, semver_row, DepKindInfo, DepKindInfoView,
};
use crate::dependency::{DeclaredDep, DeclaredDepView, DepSpec, DepSpecView};
use crate::json::{
    make_array, make_object, make_text, make_text_array, make_text_or_null, object, text_array,
    text_or_null, Json, JsonView,
};
use crate::lock::{
    is_package_id, lemma_resolved_in_range, make_package_id, resolve_lock_dep, resolved,
    LockPackage, LockPackageView,
};
use crate::seqs::{ints, lemma_positions, positions};
use crate::text::{contains_text, occurs_in, replaced, same_text, starts_with, underscored};
use crate::versions::{requirement_speaks_for, speaks_for};
use vstd::prelude::*;

verus! {

/// A dependency in the resolved graph.
#[derive(Debug)]
pub struct NodeDep {
    /// The name under which the dependent crate knows it.
    pub name: String,
    /// The identifier of the package.
    pub pkg: String,
    /// What it is for.
    pub dep_kinds: Vec<DepKindInfo>,
}

/// What a `NodeDep` stands for.
#[verifier::ext_equal]
pub struct NodeDepView {
    pub name: Seq<char>,
    pub pkg: Seq<char>,
    pub dep_kinds: Seq<DepKindInfoView>,
}

impl DeepView for NodeDep {
    type V = NodeDepView;

    open spec fn deep_view(&self) -> NodeDepView {
        NodeDepView {
            name: self.name@,
            pkg: self.pkg@,
            dep_kinds: self.dep_kinds.deep_view(),
        }
    }
}

/// Whether a source names a hard fork.
pub open spec fn names_hard_fork(source: Seq<char>) -> bool {
    occurs_in("hard-fork-test"@, source) || occurs_in("hard_fork"@, source)
}

/// How well the source of a declaration goes with a locked source. A source
/// that the locked one starts with goes best; of others those that are both
/// hard forks, then those that are both none. Without a source a registry goes
/// well, and a source that is no hard fork a little.
pub open spec fn source_score(declared: Option<Seq<char>>, locked: Seq<char>) -> int {
    match declared {
        Some(source) => if locked.len() == 0 {
            0
        } else if source.is_prefix_of(locked) {
            100
        } else if names_hard_fork(locked) && names_hard_fork(source) {
            50
        } else if !names_hard_fork(locked) && !names_hard_fork(source) {
            30
        } else {
            0
        },
        None => if is_registry(locked) {
            80
        } else if locked.len() > 0 && !names_hard_fork(locked) {
            20
        } else {
            0
        },
    }
}

/// The text of a source; empty for a local package.
pub open spec fn source_text(source: Option<Seq<char>>) -> Seq<char> {
    match source {
        Some(s) => s,
        None => Seq::empty(),
    }
}

/// How well a declaration goes with a locked package. A requirement that speaks
/// for the locked version counts more than any source.
pub open spec fn pair_score(dep: DepSpecView, pkg: LockPackageView, by_semver: bool) -> int {
    let version_score: int = if pkg.version.len() > 0 && speaks_for(
        dep.version_req,
        pkg.version,
        by_semver,
    ) {
        200
    } else {
        0
    };
    version_score + source_score(dep.source, source_text(pkg.source))
}

/// Tells whether a source names a hard fork.
fn source_names_hard_fork(source: &str) -> (yes: bool)
    ensures
        yes == names_hard_fork(source@),
{
    contains_text(source, "hard-fork-test") || contains_text(source, "hard_fork")
}

/// Scores how well a declaration goes with a locked package.
pub fn score_pair(dep: &DepSpec, pkg: &LockPackage, by_semver: bool) -> (score: i32)
    ensures
        score == pair_score(dep.deep_view(), pkg.deep_view(), by_semver),
{
    let locked: &str = match &pkg.source {
        Some(source) => source.as_str(),
        None => "",
    };
    proof {
        reveal_strlit("");
        assert(locked@ =~= source_text(pkg.source.deep_view()));
    }
    let mut score: i32 = 0;
    if !pkg.version.as_str().is_empty() && requirement_speaks_for(
        dep.version_req.as_str(),
        pkg.version.as_str(),
        by_semver,
    ) {
        score = 200;
    }
    match &dep.source {
        Some(source) => {
            if !locked.is_empty() {
                if starts_with(locked, source.as_str()) {
                    score = score + 100;
                } else {
                    let locked_forks = source_names_hard_fork(locked);
                    let declared_forks = source_names_hard_fork(source.as_str());
                    if locked_forks && declared_forks {
                        score = score + 50;
                    } else if !locked_forks && !declared_forks {
                        score = score + 30;
                    }
                }
            }
        },
        None => {
            if starts_with(locked, "registry+") || starts_with(locked, "sparse+") {
                score = score + 80;
            } else if !locked.is_empty() && !source_names_hard_fork(locked) {
                score = score + 20;
            }
        },
    }
    score
}

/// The packages that the entries of a dependency list name, in order; entries
/// that name none are passed over.
pub open spec fn found_deps(packages: Seq<LockPackageView>, entries: Seq<Seq<char>>) -> Seq<int>
    decreases entries.len(),
{
    if entries.len() == 0 {
        Seq::empty()
    } else {
        let rest = found_deps(packages, entries.drop_last());
        match resolved(packages, entries.last()) {
            Some(i) => rest.push(i),
            None => rest,
        }
    }
}

/// The entries of a dependency list that name no package.
pub open spec fn missing_deps(packages: Seq<LockPackageView>, entries: Seq<Seq<char>>) -> Seq<
    Seq<char>,
>
    decreases entries.len(),
{
    if entries.len() == 0 {
        Seq::empty()
    } else {
        let rest = missing_deps(packages, entries.drop_last());
        match resolved(packages, entries.last()) {
            Some(_) => rest,
            None => rest.push(entries.last()),
        }
    }
}

/// The names of the packages that a dependency list names.
pub open spec fn found_names(packages: Seq<LockPackageView>, found: Seq<int>) -> Seq<Seq<char>> {
    found.map_values(|i: int| packages[i].name)
}

/// The test for a text.
pub open spec fn is_text(text: Seq<char>) -> spec_fn(Seq<char>) -> bool {
    |s: Seq<char>| s == text
}

/// The test for declarations of a package.
pub open spec fn declares(name: Seq<char>) -> spec_fn(DeclaredDepView) -> bool {
    |dep: DeclaredDepView| dep.spec.package_name() == name
}

/// The scores of the dependencies at the positions `rows` and the declarations
/// at the positions `columns`.
pub open spec fn score_table(
    packages: Seq<LockPackageView>,
    found: Seq<int>,
    specs: Seq<DeclaredDepView>,
    by_semver: Seq<Seq<bool>>,
    rows: Seq<int>,
    columns: Seq<int>,
) -> Seq<Seq<i32>> {
    Seq::new(
        rows.len(),
        |r: int|
            Seq::new(
                columns.len(),
                |c: int|
                    pair_score(
                        specs[columns[c]].spec,
                        packages[found[rows[r]]],
                        by_semver[rows[r]][columns[c]],
                    ) as i32,
            ),
    )
}

/// The name of the dependency at position `k` by its own best declaration.
pub open spec fn own_name(
    packages: Seq<LockPackageView>,
    found: Seq<int>,
    specs: Seq<DeclaredDepView>,
    by_semver: Seq<Seq<bool>>,
    k: int,
) -> Seq<char> {
    let pkg = packages[found[k]];
    let best = best_candidate(candidates(specs, by_semver[k], pkg.name), pkg.version, pkg.source);
    replaced(
        match renamed_to(best) {
            Some(name) => name,
            None => pkg.name,
        },
        '-',
        '_',
    )
}

/// The declaration assigned to the dependency at position `k`. Declarations are
/// assigned, by score, where a package occurs several times among the
/// dependencies and has a declaration for each.
pub open spec fn assigned_declaration(
    packages: Seq<LockPackageView>,
    found: Seq<int>,
    specs: Seq<DeclaredDepView>,
    by_semver: Seq<Seq<bool>>,
    k: int,
) -> Option<int> {
    let name = packages[found[k]].name;
    let rows = positions(found_names(packages, found), is_text(name));
    let columns = positions(specs, declares(name));
    if rows.len() <= 1 || columns.len() < rows.len() {
        None
    } else {
        let scores = score_table(packages, found, specs, by_semver, rows, columns);
        Some(columns[assignment(scores, columns.len() as int)[rows.index_of(k)]])
    }
}

/// The name of the dependency at position `k`: by the declaration assigned to
/// it, else by its own best declaration.
pub open spec fn node_dep_name(
    packages: Seq<LockPackageView>,
    found: Seq<int>,
    specs: Seq<DeclaredDepView>,
    by_semver: Seq<Seq<bool>>,
    k: int,
) -> Seq<char> {
    match assigned_declaration(packages, found, specs, by_semver, k) {
        Some(d) => replaced(
            if specs[d].spec.package is Some {
                specs[d].spec.name
            } else {
                packages[found[k]].name
            },
            '-',
            '_',
        ),
        None => own_name(packages, found, specs, by_semver, k),
    }
}

/// The dependency at position `k`.
pub open spec fn node_dep(
    packages: Seq<LockPackageView>,
    found: Seq<int>,
    specs: Seq<DeclaredDepView>,
    by_semver: Seq<Seq<bool>>,
    k: int,
) -> NodeDepView {
    let pkg = packages[found[k]];
    NodeDepView {
        name: node_dep_name(packages, found, specs, by_semver, k),
        pkg: pkg.id(),
        dep_kinds: dep_kinds(candidates(specs, by_semver[k], pkg.name)),
    }
}

/// The positions of the dependencies of that name.
fn same_package(packages: &Vec<LockPackage>, found: &Vec<usize>, name: &str) -> (rows: Vec<usize>)
    requires
        forall|j: int| 0 <= j < found.len() ==> #[trigger] found@[j] < packages.len(),
    ensures
        ints(rows@) == positions(
            found_names(packages.deep_view(), ints(found@)),
            is_text(name@),
        ),
{
    let ghost names = found_names(packages.deep_view(), ints(found@));
    let mut rows: Vec<usize> = Vec::new();
    let mut j: usize = 0;
    assert(ints(rows@) =~= positions(names.take(0), is_text(name@)));
    while j < found.len()
        invariant
            j <= found.len(),
            names == found_names(packages.deep_view(), ints(found@)),
            forall|i: int| 0 <= i < found.len() ==> #[trigger] found@[i] < packages.len(),
            ints(rows@) == positions(names.take(j as int), is_text(name@)),
        decreases found.len() - j,
    {
        let ghost before = rows@;
        assert(names.take(j + 1).drop_last() =~= names.take(j as int));
        assert(names.take(j + 1).last() == packages@[found@[j as int] as int].name@);
        if same_text(packages[found[j]].name.as_str(), name) {
            rows.push(j);
            assert(ints(rows@) =~= ints(before).push(j as int));
        }
        j = j + 1;
    }
    assert(names.take(names.len() as int) =~= names);
    rows
}

/// The positions of the declarations of a package.
fn declarations(dep_specs: &Vec<DeclaredDep>, name: &str) -> (columns: Vec<usize>)
    ensures
        ints(columns@) == positions(dep_specs.deep_view(), declares(name@)),
{
    let ghost specs = dep_specs.deep_view();
    let mut columns: Vec<usize> = Vec::new();
    let mut j: usize = 0;
    assert(ints(columns@) =~= positions(specs.take(0), declares(name@)));
    while j < dep_specs.len()
        invariant
            j <= dep_specs.len(),
            specs == dep_specs.deep_view(),
            ints(columns@) == positions(specs.take(j as int), declares(name@)),
        decreases dep_specs.len() - j,
    {
        let ghost before = columns@;
        assert(specs.take(j + 1).drop_last() =~= specs.take(j as int));
        assert(specs.take(j + 1).last() == dep_specs@[j as int].deep_view());
        if same_text(dep_specs[j].spec.package_name(), name) {
            columns.push(j);
            assert(ints(columns@) =~= ints(before).push(j as int));
        }
        j = j + 1;
    }
    assert(specs.take(specs.len() as int) =~= specs);
    columns
}

/// Whether the verdicts of semantic versioning have a row for each dependency
/// and, in it, a column for each declaration.
pub open spec fn is_table(by_semver: Seq<Seq<bool>>, rows: nat, columns: nat) -> bool {
    &&& by_semver.len() == rows
    &&& forall|r: int| 0 <= r < rows ==> (#[trigger] by_semver[r]).len() == columns
}

/// The scores of some dependencies and some declarations.
fn make_score_table(
    packages: &Vec<LockPackage>,
    found: &Vec<usize>,
    dep_specs: &Vec<DeclaredDep>,
    by_semver: &Vec<Vec<bool>>,
    rows: &Vec<usize>,
    columns: &Vec<usize>,
) -> (scores: Vec<Vec<i32>>)
    requires
        forall|j: int| 0 <= j < found.len() ==> #[trigger] found@[j] < packages.len(),
        is_table(by_semver.deep_view(), found@.len(), dep_specs@.len()),
        forall|j: int| 0 <= j < rows.len() ==> #[trigger] rows@[j] < found.len(),
        forall|j: int| 0 <= j < columns.len() ==> #[trigger] columns@[j] < dep_specs.len(),
    ensures
        scores.len() == rows.len(),
        forall|r: int| 0 <= r < scores.len() ==> (#[trigger] scores@[r]).len() == columns.len(),
        scores.deep_view() == score_table(
            packages.deep_view(),
            ints(found@),
            dep_specs.deep_view(),
            by_semver.deep_view(),
            ints(rows@),
            ints(columns@),
        ),
{
    let ghost table = score_table(
        packages.deep_view(),
        ints(found@),
        dep_specs.deep_view(),
        by_semver.deep_view(),
        ints(rows@),
        ints(columns@),
    );
    let mut scores: Vec<Vec<i32>> = Vec::new();
    let mut r: usize = 0;
    while r < rows.len()
        invariant
            r <= rows.len(),
            forall|j: int| 0 <= j < found.len() ==> #[trigger] found@[j] < packages.len(),
            is_table(by_semver.deep_view(), found@.len(), dep_specs@.len()),
            forall|j: int| 0 <= j < rows.len() ==> #[trigger] rows@[j] < found.len(),
            forall|j: int| 0 <= j < columns.len() ==> #[trigger] columns@[j] < dep_specs.len(),
            table == score_table(
                packages.deep_view(),
                ints(found@),
                dep_specs.deep_view(),
                by_semver.deep_view(),
                ints(rows@),
                ints(columns@),
            ),
            scores.len() == r,
            forall|j: int|
                0 <= j < r ==> (#[trigger] scores@[j]).len() == columns.len()
                    && scores@[j].deep_view() == table[j],
        decreases rows.len() - r,
    {
        let row = rows[r];
        let pkg = &packages[found[row]];
        let mut line: Vec<i32> = Vec::new();
        let mut c: usize = 0;
        assert(by_semver.deep_view()[row as int] == by_semver@[row as int].deep_view());
        while c < columns.len()
            invariant
                c <= columns.len(),
                r < rows.len(),
                row == rows@[r as int],
                row < found.len(),
                found@[row as int] < packages.len(),
                pkg == &packages@[found@[row as int] as int],
                by_semver.len() == found.len(),
                by_semver.deep_view()[row as int] == by_semver@[row as int].deep_view(),
                by_semver@[row as int].len() == dep_specs.len(),
                forall|j: int| 0 <= j < columns.len() ==> #[trigger] columns@[j] < dep_specs.len(),
                table == score_table(
                    packages.deep_view(),
                    ints(found@),
                    dep_specs.deep_view(),
                    by_semver.deep_view(),
                    ints(rows@),
                    ints(columns@),
                ),
                line.len() == c,
                forall|j: int| 0 <= j < c ==> #[trigger] line@[j] == table[r as int][j],
            decreases columns.len() - c,
        {
            let column = columns[c];
            line.push(score_pair(&dep_specs[column].spec, pkg, by_semver[row][column]));
            c = c + 1;
        }
        assert(line.deep_view() =~= table[r as int]);
        scores.push(line);
        r = r + 1;
    }
    assert(scores.deep_view() =~= table);
    scores
}

/// The name of a dependency by the declaration assigned to it; nothing where
/// declarations are not assigned.
fn assigned_name(
    packages: &Vec<LockPackage>,
    found: &Vec<usize>,
    dep_specs: &Vec<DeclaredDep>,
    by_semver: &Vec<Vec<bool>>,
    k: usize,
) -> (name: Option<String>)
    requires
        forall|j: int| 0 <= j < found.len() ==> #[trigger] found@[j] < packages.len(),
        is_table(by_semver.deep_view(), found@.len(), dep_specs@.len()),
        k < found.len(),
    ensures
        ({
            let views = packages.deep_view();
            let specs = dep_specs.deep_view();
            let verdicts = by_semver.deep_view();
            node_dep_name(views, ints(found@), specs, verdicts, k as int) == match name {
                Some(n) => n@,
                None => own_name(views, ints(found@), specs, verdicts, k as int),
            }
        }),
{
    let ghost views = packages.deep_view();
    let ghost specs = dep_specs.deep_view();
    let name: &str = packages[found[k]].name.as_str();
    let rows = same_package(packages, found, name);
    let columns = declarations(dep_specs, name);
    if rows.len() <= 1 || columns.len() < rows.len() {
        return None;
    }
    let ghost names = found_names(views, ints(found@));
    let ghost row_positions = positions(names, is_text(name@));
    let ghost column_positions = positions(specs, declares(name@));
    proof {
        lemma_positions(names, is_text(name@));
        lemma_positions(specs, declares(name@));
        assert forall|j: int| 0 <= j < rows.len() implies #[trigger] rows@[j] < found.len() by {
            assert(ints(rows@)[j] == row_positions[j]);
        }
        assert forall|j: int| 0 <= j < columns.len() implies #[trigger] columns@[j]
            < dep_specs.len() by {
            assert(ints(columns@)[j] == column_positions[j]);
        }
        assert(is_text(name@)(names[k as int]));
        assert(row_positions.contains(k as int));
    }
    let scores = make_score_table(packages, found, dep_specs, by_semver, &rows, &columns);
    let chosen = assign(&scores, columns.len());
    let mut r: usize = 0;
    while rows[r] != k
        invariant
            r < rows.len(),
            ints(rows@) == row_positions,
            row_positions.contains(k as int),
            forall|j: int| 0 <= j < r ==> #[trigger] rows@[j] != k,
        decreases rows.len() - r,
    {
        proof {
            let at = choose|at: int| 0 <= at < row_positions.len() && row_positions[at] == k;
            assert(rows@[at] == k);
        }
        r = r + 1;
    }
    proof {
        let at = row_positions.index_of(k as int);
        assert(row_positions[at] == k);
        assert(row_positions[r as int] == k);
        assert(at == r);
        assert(ints(chosen@)[r as int] == chosen@[r as int]);
        assert(ints(columns@)[chosen@[r as int] as int] == columns@[chosen@[r as int] as int]);
    }
    let dep = &dep_specs[columns[chosen[r]]].spec;
    match &dep.package {
        Some(_) => Some(underscored(dep.name.as_str())),
        None => Some(underscored(name)),
    }
}

/// Each position of `found_deps` is that of a package.
pub proof fn lemma_found_in_range(packages: Seq<LockPackageView>, entries: Seq<Seq<char>>)
    ensures
        found_deps(packages, entries).len() <= entries.len(),
        forall|k: int|
            0 <= k < found_deps(packages, entries).len() ==> 0 <= #[trigger] found_deps(
                packages,
                entries,
            )[k] < packages.len(),
    decreases entries.len(),
{
    if entries.len() > 0 {
        lemma_found_in_range(packages, entries.drop_last());
        lemma_resolved_in_range(packages, entries.last());
    }
}

/// Finds the packages that a dependency list names, and the entries that name
/// none.
pub fn find_deps(packages: &Vec<LockPackage>, entries: &Vec<String>) -> (outcome: (Vec<usize>, Vec<
    String,
>))
    ensures
        ints(outcome.0@) == found_deps(packages.deep_view(), entries.deep_view()),
        forall|j: int| 0 <= j < outcome.0.len() ==> #[trigger] outcome.0@[j] < packages.len(),
        outcome.1.deep_view() == missing_deps(packages.deep_view(), entries.deep_view()),
{
    let ghost views = packages.deep_view();
    let ghost all = entries.deep_view();
    let mut found: Vec<usize> = Vec::new();
    let mut missing: Vec<String> = Vec::new();
    let mut i: usize = 0;
    proof {
        assert(ints(found@) =~= found_deps(views, all.take(0)));
        assert(missing.deep_view() =~= missing_deps(views, all.take(0)));
    }
    while i < entries.len()
        invariant
            i <= entries.len(),
            views == packages.deep_view(),
            all == entries.deep_view(),
            ints(found@) == found_deps(views, all.take(i as int)),
            forall|j: int| 0 <= j < found.len() ==> #[trigger] found@[j] < packages.len(),
            missing.deep_view() == missing_deps(views, all.take(i as int)),
        decreases entries.len() - i,
    {
        let ghost found_before = found@;
        let ghost missing_before = missing.deep_view();
        assert(all.take(i + 1).drop_last() =~= all.take(i as int));
        assert(all.take(i + 1).last() == entries@[i as int]@);
        match resolve_lock_dep(packages, entries[i].as_str()) {
            Some(index) => {
                found.push(index);
                assert(ints(found@) =~= ints(found_before).push(index as int));
            },
            None => {
                missing.push(entries[i].clone());
                assert(missing.deep_view() =~= missing_before.push(entries@[i as int]@));
            },
        }
        i = i + 1;
    }
    assert(all.take(all.len() as int) =~= all);
    (found, missing)
}

/// A node of the resolved graph.
#[derive(Debug)]
pub struct Node {
    /// The identifier of the package.
    pub id: String,
    /// The identifiers of the packages that it depends on.
    pub dependencies: Vec<String>,
    /// The dependencies with their names and kinds.
    pub deps: Vec<NodeDep>,
}

/// What a `Node` stands for.
#[verifier::ext_equal]
pub struct NodeView {
    pub id: Seq<char>,
    pub dependencies: Seq<Seq<char>>,
    pub deps: Seq<NodeDepView>,
}

impl DeepView for Node {
    type V = NodeView;

    open spec fn deep_view(&self) -> NodeView {
        NodeView {
            id: self.id@,
            dependencies: self.dependencies.deep_view(),
            deps: self.deps.deep_view(),
        }
    }
}

/// The node of a package, given what semantic versioning says of each of its
/// dependencies and each of its declarations.
pub open spec fn node(
    pkg: LockPackageView,
    specs: Seq<DeclaredDepView>,
    packages: Seq<LockPackageView>,
    by_semver: Seq<Seq<bool>>,
) -> NodeView {
    let found = found_deps(packages, pkg.dependencies);
    NodeView {
        id: pkg.id(),
        dependencies: found.map_values(|i: int| packages[i].id()),
        deps: Seq::new(found.len(), |k: int| node_dep(packages, found, specs, by_semver, k)),
    }
}

/// Builds the node of a package whose dependencies were found, given what
/// semantic versioning says of each of them and each declaration.
pub fn build_node_with(
    pkg: &LockPackage,
    dep_specs: &Vec<DeclaredDep>,
    packages: &Vec<LockPackage>,
    found: &Vec<usize>,
    by_semver: &Vec<Vec<bool>>,
) -> (built: Node)
    requires
        ints(found@) == found_deps(packages.deep_view(), pkg.dependencies.deep_view()),
        is_table(by_semver.deep_view(), found@.len(), dep_specs@.len()),
    ensures
        built.deep_view() == node(
            pkg.deep_view(),
            dep_specs.deep_view(),
            packages.deep_view(),
            by_semver.deep_view(),
        ),
{
    let ghost views = packages.deep_view();
    let ghost specs = dep_specs.deep_view();
    let ghost verdicts = by_semver.deep_view();
    let ghost whole = node(pkg.deep_view(), specs, views, verdicts);
    let mut dependencies: Vec<String> = Vec::new();
    let mut deps: Vec<NodeDep> = Vec::new();
    proof {
        lemma_found_in_range(views, pkg.dependencies.deep_view());
        assert forall|j: int| 0 <= j < found.len() implies #[trigger] found@[j] < packages.len() by {
            assert(ints(found@)[j] == found@[j]);
        }
    }
    let mut k: usize = 0;
    while k < found.len()
        invariant
            k <= found.len(),
            views == packages.deep_view(),
            specs == dep_specs.deep_view(),
            verdicts == by_semver.deep_view(),
            whole == node(pkg.deep_view(), specs, views, verdicts),
            ints(found@) == found_deps(packages.deep_view(), pkg.dependencies.deep_view()),
            forall|j: int| 0 <= j < found.len() ==> #[trigger] found@[j] < packages.len(),
            is_table(verdicts, found@.len(), dep_specs@.len()),
            dependencies.len() == k,
            deps.len() == k,
            forall|j: int| 0 <= j < k ==> (#[trigger] dependencies@[j])@ == whole.dependencies[j],
            forall|j: int| 0 <= j < k ==> (#[trigger] deps@[j]).deep_view() == whole.deps[j],
        decreases found.len() - k,
    {
        let dep_pkg = &packages[found[k]];
        assert(ints(found@)[k as int] == found@[k as int]);
        assert(views[found@[k as int] as int] == dep_pkg.deep_view());
        assert(verdicts[k as int] =~= by_semver@[k as int]@);
        let source: Option<&str> = match &dep_pkg.source {
            Some(s) => Some(s.as_str()),
            None => None,
        };
        let (kinds, own) = choose_dep_kind_and_name(
            dep_pkg.name.as_str(),
            dep_pkg.version.as_str(),
            source,
            dep_specs,
            &by_semver[k],
        );
        let name: String = match assigned_name(packages, found, dep_specs, by_semver, k) {
            Some(assigned) => assigned,
            None => match own {
                Some(renamed) => underscored(renamed.as_str()),
                None => underscored(dep_pkg.name.as_str()),
            },
        };
        let dep = NodeDep { name, pkg: make_package_id(dep_pkg), dep_kinds: kinds };
        assert(dep.deep_view() =~= node_dep(views, ints(found@), specs, verdicts, k as int));
        dependencies.push(make_package_id(dep_pkg));
        deps.push(dep);
        k = k + 1;
    }
    let built = Node { id: make_package_id(pkg), dependencies, deps };
    assert(built.dependencies.deep_view() =~= whole.dependencies);
    assert(built.deps.deep_view() =~= whole.deps);
    built
}

/// What semantic versioning says of each dependency and each declaration.
pub open spec fn semver_table(
    packages: Seq<LockPackageView>,
    found: Seq<int>,
    specs: Seq<DeclaredDepView>,
) -> Seq<Seq<bool>> {
    found.map_values(|i: int| semver_row(specs, packages[i].version))
}

/// The node of a package.
pub open spec fn resolved_node(
    pkg: LockPackageView,
    specs: Seq<DeclaredDepView>,
    packages: Seq<LockPackageView>,
) -> NodeView {
    node(
        pkg,
        specs,
        packages,
        semver_table(packages, found_deps(packages, pkg.dependencies), specs),
    )
}

/// Builds the node of a package, and lists the entries of its dependency list
/// that name no package.
pub fn build_node(
    pkg: &LockPackage,
    dep_specs: &Vec<DeclaredDep>,
    packages: &Vec<LockPackage>,
) -> (outcome: (Node, Vec<String>))
    ensures
        outcome.0.deep_view() == resolved_node(
            pkg.deep_view(),
            dep_specs.deep_view(),
            packages.deep_view(),
        ),
        outcome.1.deep_view() == missing_deps(packages.deep_view(), pkg.dependencies.deep_view()),
{
    let (found, missing) = find_deps(packages, &pkg.dependencies);
    let ghost verdicts = semver_table(packages.deep_view(), ints(found@), dep_specs.deep_view());
    let mut by_semver: Vec<Vec<bool>> = Vec::new();
    let mut k: usize = 0;
    while k < found.len()
        invariant
            k <= found.len(),
            forall|j: int| 0 <= j < found.len() ==> #[trigger] found@[j] < packages.len(),
            verdicts == semver_table(packages.deep_view(), ints(found@), dep_specs.deep_view()),
            by_semver.len() == k,
            forall|j: int| 0 <= j < k ==> (#[trigger] by_semver@[j]).deep_view() == verdicts[j],
        decreases found.len() - k,
    {
        let row = ask_semver(dep_specs, packages[found[k]].version.as_str());
        assert(row.deep_view() =~= row@);
        by_semver.push(row);
        k = k + 1;
    }
    assert(by_semver.deep_view() =~= verdicts);
    (build_node_with(pkg, dep_specs, packages, &found, &by_semver), missing)
}

/// The fields of a dependency's kind in metadata.
pub open spec fn dep_kind_fields(info: DepKindInfoView) -> Seq<(Seq<char>, JsonView)> {
    seq![("kind"@, info.kind.json()), ("target"@, text_or_null(info.target))]
}

/// The fields of a dependency of a node in metadata.
pub open spec fn node_dep_fields(dep: NodeDepView) -> Seq<(Seq<char>, JsonView)> {
    seq![
        ("name"@, JsonView::Str(dep.name)),
        ("pkg"@, JsonView::Str(dep.pkg)),
        (
            "dep_kinds"@,
            JsonView::Array(
                dep.dep_kinds.map_values(|info: DepKindInfoView| object(dep_kind_fields(info))),
            ),
        ),
    ]
}

/// The fields of a node in metadata.
pub open spec fn node_fields(n: NodeView) -> Seq<(Seq<char>, JsonView)> {
    seq![
        ("id"@, JsonView::Str(n.id)),
        ("dependencies"@, text_array(n.dependencies)),
        (
            "deps"@,
            JsonView::Array(n.deps.map_values(|dep: NodeDepView| object(node_dep_fields(dep)))),
        ),
        ("features"@, JsonView::Array(Seq::empty())),
    ]
}

/// A node as metadata writes it.
pub open spec fn node_json(n: NodeView) -> JsonView {
    object(node_fields(n))
}

/// Writes a dependency's kind as metadata.
fn dep_kind_to_json(info: &DepKindInfo) -> (value: Json)
    ensures
        value.deep_view() == object(dep_kind_fields(info.deep_view())),
{
    let target: Option<&str> = match &info.target {
        Some(t) => Some(t.as_str()),
        None => None,
    };
    let fields: Vec<(String, Json)> = vec![
        ("kind".to_owned(), info.kind.to_json()),
        ("target".to_owned(), make_text_or_null(target)),
    ];
    assert(fields.deep_view() =~= dep_kind_fields(info.deep_view()));
    make_object(fields)
}

/// Writes a dependency of a node as metadata.
fn node_dep_to_json(dep: &NodeDep) -> (value: Json)
    ensures
        value.deep_view() == object(node_dep_fields(dep.deep_view())),
{
    let ghost views = dep.dep_kinds.deep_view().map_values(
        |info: DepKindInfoView| object(dep_kind_fields(info)),
    );
    let mut kinds: Vec<Json> = Vec::new();
    let mut i: usize = 0;
    while i < dep.dep_kinds.len()
        invariant
            i <= dep.dep_kinds.len(),
            views == dep.dep_kinds.deep_view().map_values(
                |info: DepKindInfoView| object(dep_kind_fields(info)),
            ),
            kinds.len() == i,
            forall|j: int| 0 <= j < i ==> (#[trigger] kinds@[j]).deep_view() == views[j],
        decreases dep.dep_kinds.len() - i,
    {
        kinds.push(dep_kind_to_json(&dep.dep_kinds[i]));
        i = i + 1;
    }
    assert(kinds.deep_view() =~= views);
    let fields: Vec<(String, Json)> = vec![
        ("name".to_owned(), make_text(dep.name.as_str())),
        ("pkg".to_owned(), make_text(dep.pkg.as_str())),
        ("dep_kinds".to_owned(), make_array(kinds)),
    ];
    assert(fields.deep_view() =~= node_dep_fields(dep.deep_view()));
    make_object(fields)
}

/// Writes a node as metadata.
pub fn node_to_json(n: &Node) -> (value: Json)
    ensures
        value.deep_view() == node_json(n.deep_view()),
{
    let ghost views = n.deps.deep_view().map_values(
        |dep: NodeDepView| object(node_dep_fields(dep)),
    );
    let mut deps: Vec<Json> = Vec::new();
    let mut i: usize = 0;
    while i < n.deps.len()
        invariant
            i <= n.deps.len(),
            views == n.deps.deep_view().map_values(
                |dep: NodeDepView| object(node_dep_fields(dep)),
            ),
            deps.len() == i,
            forall|j: int| 0 <= j < i ==> (#[trigger] deps@[j]).deep_view() == views[j],
        decreases n.deps.len() - i,
    {
        deps.push(node_dep_to_json(&n.deps[i]));
        i = i + 1;
    }
    assert(deps.deep_view() =~= views);
    let none: Vec<Json> = Vec::new();
    assert(none.deep_view() =~= Seq::<JsonView>::empty());
    let fields: Vec<(String, Json)> = vec![
        ("id".to_owned(), make_text(n.id.as_str())),
        ("dependencies".to_owned(), make_text_array(&n.dependencies)),
        ("deps".to_owned(), make_array(deps)),
        ("features".to_owned(), make_array(none)),
    ];
    assert(fields.deep_view() =~= node_fields(n.deep_view()));
    make_object(fields)
}

/// Builds the node of a package as metadata writes it, and lists the entries of
/// its dependency list that name no package.
pub fn build_node_json(
    pkg: &LockPackage,
    dep_specs: &Vec<DeclaredDep>,
    packages: &Vec<LockPackage>,
) -> (outcome: (Json, Vec<String>))
    ensures
        outcome.0.deep_view() == node_json(
            resolved_node(pkg.deep_view(), dep_specs.deep_view(), packages.deep_view()),
        ),
        outcome.1.deep_view() == missing_deps(packages.deep_view(), pkg.dependencies.deep_view()),
{
    let (built, missing) = build_node(pkg, dep_specs, packages);
    (node_to_json(&built), missing)
}

/// A node lists the identifier of each dependency, in one order, with and
/// without its name and kinds. Each is the identifier of a locked package, and
/// each dependency is for something.
pub proof fn law_node_edges(
    pkg: LockPackageView,
    specs: Seq<DeclaredDepView>,
    packages: Seq<LockPackageView>,
    by_semver: Seq<Seq<bool>>,
)
    ensures
        ({
            let n = node(pkg, specs, packages, by_semver);
            &&& n.deps.len() == n.dependencies.len()
            &&& forall|k: int|
                0 <= k < n.deps.len() ==> (#[trigger] n.deps[k]).pkg == n.dependencies[k]
                    && n.deps[k].dep_kinds.len() > 0
            &&& forall|k: int|
                0 <= k < n.dependencies.len() ==> is_package_id(
                    packages,
                    #[trigger] n.dependencies[k],
                )
        }),
{
    let found = found_deps(packages, pkg.dependencies);
    let n = node(pkg, specs, packages, by_semver);
    lemma_found_in_range(packages, pkg.dependencies);
    assert forall|k: int| 0 <= k < n.dependencies.len() implies is_package_id(
        packages,
        #[trigger] n.dependencies[k],
    ) by {
        let i = found[k];
        assert(n.dependencies[k] == packages[i].id());
    }
}

/// Each entry of a dependency list either names a package that is found or is
/// listed as missing.
pub proof fn law_entries_found_or_missing(packages: Seq<LockPackageView>, entries: Seq<Seq<char>>)
    ensures
        found_deps(packages, entries).len() + missing_deps(packages, entries).len()
            == entries.len(),
        forall|k: int|
            0 <= k < entries.len() ==> match resolved(packages, #[trigger] entries[k]) {
                Some(i) => found_deps(packages, entries).contains(i),
                None => missing_deps(packages, entries).contains(entries[k]),
            },
    decreases entries.len(),
{
    if entries.len() > 0 {
        let rest = entries.drop_last();
        law_entries_found_or_missing(packages, rest);
        let found = found_deps(packages, entries);
        let missing = missing_deps(packages, entries);
        assert forall|k: int| 0 <= k < entries.len() implies match resolved(
            packages,
            #[trigger] entries[k],
        ) {
            Some(i) => found.contains(i),
            None => missing.contains(entries[k]),
        } by {
            if k < rest.len() {
                assert(rest[k] == entries[k]);
                match resolved(packages, entries[k]) {
                    Some(i) => {
                        let before = found_deps(packages, rest);
                        let j = choose|j: int| 0 <= j < before.len() && before[j] == i;
                        assert(found[j] == i);
                    },
                    None => {
                        let before = missing_deps(packages, rest);
                        let j = choose|j: int| 0 <= j < before.len() && before[j] == entries[k];
                        assert(missing[j] == entries[k]);
                    },
                }
            } else {
                match resolved(packages, entries[k]) {
                    Some(i) => {
                        assert(found[found.len() - 1] == i);
                    },
                    None => {
                        assert(missing[missing.len() - 1] == entries[k]);
                    },
                }
            }
        }
    }
}

/// What is known of the table behind an assigned declaration.
proof fn lemma_assigned(
    packages: Seq<LockPackageView>,
    found: Seq<int>,
    specs: Seq<DeclaredDepView>,
    by_semver: Seq<Seq<bool>>,
    k: int,
)
    requires
        0 <= k < found.len(),
        assigned_declaration(packages, found, specs, by_semver, k) is Some,
    ensures
        ({
            let name = packages[found[k]].name;
            let rows = positions(found_names(packages, found), is_text(name));
            let columns = positions(specs, declares(name));
            let scores = score_table(packages, found, specs, by_semver, rows, columns);
            &&& 0 <= rows.index_of(k) < rows.len()
            &&& rows[rows.index_of(k)] == k
            &&& is_assignment(
                scores,
                columns.len() as int,
                assignment(scores, columns.len() as int),
            )
            &&& scores.len() == rows.len()
            &&& forall|r: int| 0 <= r < scores.len() ==> (#[trigger] scores[r]).len() == columns.len()
        }),
{
    let name = packages[found[k]].name;
    let names = found_names(packages, found);
    let rows = positions(names, is_text(name));
    let columns = positions(specs, declares(name));
    let scores = score_table(packages, found, specs, by_semver, rows, columns);
    lemma_positions(names, is_text(name));
    assert(is_text(name)(names[k]));
    assert(rows.contains(k));
    law_assignment_exists(scores, columns.len() as int);
}

/// Dependencies on one package are assigned declarations of that package, and no
/// two the same. If one of them is assigned a declaration, so is the other.
pub proof fn law_assigned_declarations_differ(
    packages: Seq<LockPackageView>,
    found: Seq<int>,
    specs: Seq<DeclaredDepView>,
    by_semver: Seq<Seq<bool>>,
    k: int,
    l: int,
)
    requires
        0 <= k < found.len(),
        0 <= l < found.len(),
        k != l,
        packages[found[k]].name == packages[found[l]].name,
    ensures
        match (
            assigned_declaration(packages, found, specs, by_semver, k),
            assigned_declaration(packages, found, specs, by_semver, l),
        ) {
            (Some(d), Some(e)) => {
                &&& d != e
                &&& 0 <= d < specs.len()
                &&& specs[d].spec.package_name() == packages[found[k]].name
            },
            (None, None) => true,
            _ => false,
        },
{
    if assigned_declaration(packages, found, specs, by_semver, k) is Some {
        let name = packages[found[k]].name;
        let rows = positions(found_names(packages, found), is_text(name));
        let columns = positions(specs, declares(name));
        let scores = score_table(packages, found, specs, by_semver, rows, columns);
        let chosen = assignment(scores, columns.len() as int);
        lemma_assigned(packages, found, specs, by_semver, k);
        lemma_assigned(packages, found, specs, by_semver, l);
        lemma_positions(specs, declares(name));
        let r = rows.index_of(k);
        let s = rows.index_of(l);
        assert(r != s);
        assert(chosen[r] != chosen[s]);
        assert(columns[chosen[r]] != columns[chosen[s]]);
    }
}

/// Whether a declaration's requirement speaks for a dependency's locked version.
pub open spec fn speaks_for_dep(
    packages: Seq<LockPackageView>,
    found: Seq<int>,
    specs: Seq<DeclaredDepView>,
    by_semver: Seq<Seq<bool>>,
    k: int,
    d: int,
) -> bool {
    packages[found[k]].version.len() > 0 && speaks_for(
        specs[d].spec.version_req,
        packages[found[k]].version,
        by_semver[k][d],
    )
}

/// A version counts more than any source: a declaration that speaks for the
/// version of one dependency on a package, and for none of the others, is
/// assigned to that dependency, if no other declaration of the package speaks
/// for its version.
pub proof fn law_version_decides(
    packages: Seq<LockPackageView>,
    found: Seq<int>,
    specs: Seq<DeclaredDepView>,
    by_semver: Seq<Seq<bool>>,
    k: int,
    d: int,
)
    requires
        0 <= k < found.len(),
        0 <= d < specs.len(),
        assigned_declaration(packages, found, specs, by_semver, k) is Some,
        specs[d].spec.package_name() == packages[found[k]].name,
        speaks_for_dep(packages, found, specs, by_semver, k, d),
        forall|l: int|
            0 <= l < found.len() && l != k && packages[#[trigger] found[l]].name
                == packages[found[k]].name ==> !speaks_for_dep(
                packages,
                found,
                specs,
                by_semver,
                l,
                d,
            ),
        forall|e: int|
            0 <= e < specs.len() && e != d && (#[trigger] specs[e]).spec.package_name()
                == packages[found[k]].name ==> !speaks_for_dep(
                packages,
                found,
                specs,
                by_semver,
                k,
                e,
            ),
    ensures
        assigned_declaration(packages, found, specs, by_semver, k) == Some(d),
{
    let name = packages[found[k]].name;
    let names = found_names(packages, found);
    let rows = positions(names, is_text(name));
    let columns = positions(specs, declares(name));
    let scores = score_table(packages, found, specs, by_semver, rows, columns);
    lemma_assigned(packages, found, specs, by_semver, k);
    lemma_positions(names, is_text(name));
    lemma_positions(specs, declares(name));
    let r = rows.index_of(k);
    assert(declares(name)(specs[d]));
    assert(columns.contains(d));
    let c = choose|c: int| 0 <= c < columns.len() && columns[c] == d;
    assert(scores[r][c] >= 200);
    assert forall|e: int| 0 <= e < columns.len() && e != c implies #[trigger] outranks(
        scores,
        r,
        c,
        r,
        e,
    ) by {
        assert(columns[e] != d);
        assert(declares(name)(specs[columns[e]]));
        assert(!speaks_for_dep(packages, found, specs, by_semver, k, columns[e]));
        assert(scores[r][e] <= 100);
    }
    assert forall|s: int| 0 <= s < scores.len() && s != r implies #[trigger] outranks(
        scores,
        r,
        c,
        s,
        c,
    ) by {
        let l = rows[s];
        assert(l != k);
        assert(is_text(name)(names[l]));
        assert(packages[found[l]].name == name);
        assert(!speaks_for_dep(packages, found, specs, by_semver, l, d));
        assert(scores[s][c] <= 100);
    }
    law_highest_pair_assigned(scores, columns.len() as int, r, c);
}

/// Whether a dependency's locked source starts with a declaration's source.
pub open spec fn goes_with_source(
    packages: Seq<LockPackageView>,
    found: Seq<int>,
    specs: Seq<DeclaredDepView>,
    k: int,
    d: int,
) -> bool {
    let locked = source_text(packages[found[k]].source);
    locked.len() > 0 && (specs[d].spec.source matches Some(source) && source.is_prefix_of(locked))
}

/// Where versions do not decide, the source does: a declaration of a source that
/// the locked source of one dependency on a package starts with, and that of none
/// of the others, is assigned to that dependency, if its locked source starts with
/// that of no other declaration of the package.
pub proof fn law_source_decides_assignment(
    packages: Seq<LockPackageView>,
    found: Seq<int>,
    specs: Seq<DeclaredDepView>,
    by_semver: Seq<Seq<bool>>,
    k: int,
    d: int,
)
    requires
        0 <= k < found.len(),
        0 <= d < specs.len(),
        assigned_declaration(packages, found, specs, by_semver, k) is Some,
        specs[d].spec.package_name() == packages[found[k]].name,
        goes_with_source(packages, found, specs, k, d),
        forall|l: int|
            0 <= l < found.len() && l != k && packages[#[trigger] found[l]].name
                == packages[found[k]].name ==> !goes_with_source(packages, found, specs, l, d)
                && !speaks_for_dep(packages, found, specs, by_semver, l, d),
        forall|e: int|
            0 <= e < specs.len() && e != d && (#[trigger] specs[e]).spec.package_name()
                == packages[found[k]].name ==> !goes_with_source(packages, found, specs, k, e)
                && !speaks_for_dep(packages, found, specs, by_semver, k, e),
    ensures
        assigned_declaration(packages, found, specs, by_semver, k) == Some(d),
{
    let name = packages[found[k]].name;
    let names = found_names(packages, found);
    let rows = positions(names, is_text(name));
    let columns = positions(specs, declares(name));
    let scores = score_table(packages, found, specs, by_semver, rows, columns);
    lemma_assigned(packages, found, specs, by_semver, k);
    lemma_positions(names, is_text(name));
    lemma_positions(specs, declares(name));
    let r = rows.index_of(k);
    assert(declares(name)(specs[d]));
    assert(columns.contains(d));
    let c = choose|c: int| 0 <= c < columns.len() && columns[c] == d;
    assert(scores[r][c] >= 100);
    assert forall|e: int| 0 <= e < columns.len() && e != c implies #[trigger] outranks(
        scores,
        r,
        c,
        r,
        e,
    ) by {
        assert(columns[e] != d);
        assert(declares(name)(specs[columns[e]]));
        assert(!goes_with_source(packages, found, specs, k, columns[e]));
        assert(!speaks_for_dep(packages, found, specs, by_semver, k, columns[e]));
        assert(scores[r][e] <= 80);
    }
    assert forall|s: int| 0 <= s < scores.len() && s != r implies #[trigger] outranks(
        scores,
        r,
        c,
        s,
        c,
    ) by {
        let l = rows[s];
        assert(l != k);
        assert(is_text(name)(names[l]));
        assert(packages[found[l]].name == name);
        assert(!goes_with_source(packages, found, specs, l, d));
        assert(!speaks_for_dep(packages, found, specs, by_semver, l, d));
        assert(scores[s][c] <= 80);
    }
    law_highest_pair_assigned(scores, columns.len() as int, r, c);
}

/// A package that occurs once among the dependencies and that one declaration
/// refers to is known by the key of that declaration, if it renames the package,
/// else by the name of the package.
pub proof fn law_single_dep_name(
    packages: Seq<LockPackageView>,
    found: Seq<int>,
    specs: Seq<DeclaredDepView>,
    by_semver: Seq<Seq<bool>>,
    k: int,
)
    requires
        0 <= k < found.len(),
        forall|l: int|
            0 <= l < found.len() && l != k ==> packages[#[trigger] found[l]].name
                != packages[found[k]].name,
        candidates(specs, by_semver[k], packages[found[k]].name).len() == 1,
    ensures
        ({
            let pkg = packages[found[k]];
            let dep = candidates(specs, by_semver[k], pkg.name)[0].0.spec;
            node_dep_name(packages, found, specs, by_semver, k) == replaced(
                if dep.package is Some {
                    dep.name
                } else {
                    pkg.name
                },
                '-',
                '_',
            )
        }),
{
    let name = packages[found[k]].name;
    let names = found_names(packages, found);
    let rows = positions(names, is_text(name));
    lemma_positions(names, is_text(name));
    if rows.len() > 1 {
        assert(rows[0] < rows[1]);
        assert(is_text(name)(names[rows[0]]));
        assert(is_text(name)(names[rows[1]]));
        assert(packages[found[rows[0]]].name == name);
        assert(packages[found[rows[1]]].name == name);
    }
}

/// The name by which a dependency is known has no `-`.
pub proof fn law_dep_name_has_no_dash(
    packages: Seq<LockPackageView>,
    found: Seq<int>,
    specs: Seq<DeclaredDepView>,
    by_semver: Seq<Seq<bool>>,
    k: int,
)
    ensures
        !node_dep_name(packages, found, specs, by_semver, k).contains('-'),
{
}

} // verus!
