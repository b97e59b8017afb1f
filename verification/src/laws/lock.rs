//! Laws of lock files.

use crate::error::LockfileError;
use crate::lock::{
    has_key, is_named, is_release, lock_dep, lock_packages, locked_package, locked_packages,
    package_id, reports, resolved, LockFault, LockPackageView,
};
use crate::seqs::{lemma_first_index, lemma_last_index};
use crate::text::{lemma_split_first, split_first, trimmed_end, trimmed_start};
use crate::toml_value::TomlView;
use vstd::prelude::*;

verus! {

/// A table of a lock file describes a package if and only if it gives a name and a
/// version. The package has what the table gives under the key of each of its
/// fields.
pub proof fn law_locked_package(table: TomlView)
    ensures
        match (table.get("name"@), table.get("version"@)) {
            (Some(TomlView::Str(name)), Some(TomlView::Str(version))) => {
                &&& locked_package(table) matches Ok(pkg)
                &&& pkg.name == name
                &&& pkg.version == version
                &&& pkg.source == match table.get("source"@) {
                    Some(TomlView::Str(source)) => Some(source),
                    _ => None,
                }
                &&& pkg.checksum == match table.get("checksum"@) {
                    Some(TomlView::Str(checksum)) => Some(checksum),
                    _ => None,
                }
                &&& pkg.dependencies == table.texts_at("dependencies"@)
            },
            (Some(TomlView::Str(name)), _) => locked_package(table) == Err::<
                LockPackageView,
                LockFault,
            >(LockFault::NoVersion(name)),
            _ => locked_package(table) == Err::<LockPackageView, LockFault>(LockFault::NoName),
        },
{
}

/// The packages of some tables are those that the tables describe, one each and in
/// order. There are none only where a table describes none, and the first such
/// table says why.
pub proof fn law_locked_packages(tables: Seq<TomlView>)
    ensures
        match locked_packages(tables) {
            Ok(packages) => packages.len() == tables.len() && forall|i: int|
                0 <= i < tables.len() ==> locked_package(tables[i]) == Ok::<
                    LockPackageView,
                    LockFault,
                >(#[trigger] packages[i]),
            Err(fault) => exists|i: int|
                0 <= i < tables.len() && locked_package(#[trigger] tables[i]) == Err::<
                    LockPackageView,
                    LockFault,
                >(fault) && forall|j: int| 0 <= j < i ==> locked_package(#[trigger] tables[j]) is Ok,
        },
    decreases tables.len(),
{
    if tables.len() > 0 {
        let rest = tables.drop_last();
        law_locked_packages(rest);
        match locked_packages(rest) {
            Ok(before) => {
                if let Ok(packages) = locked_packages(tables) {
                    assert forall|i: int| 0 <= i < tables.len() implies locked_package(tables[i])
                        == Ok::<LockPackageView, LockFault>(#[trigger] packages[i]) by {
                        if i < rest.len() {
                            assert(packages[i] == before[i]);
                            assert(rest[i] == tables[i]);
                        }
                    }
                } else {
                    assert forall|j: int| 0 <= j < tables.len() - 1 implies locked_package(
                        #[trigger] tables[j],
                    ) is Ok by {
                        assert(locked_package(rest[j]) == Ok::<LockPackageView, LockFault>(
                            before[j],
                        ));
                    }
                    assert(locked_package(tables[tables.len() - 1]) is Err);
                }
            },
            Err(fault) => {
                let i = choose|i: int|
                    0 <= i < rest.len() && locked_package(#[trigger] rest[i]) == Err::<
                        LockPackageView,
                        LockFault,
                    >(fault) && forall|j: int|
                        0 <= j < i ==> locked_package(#[trigger] rest[j]) is Ok;
                assert(tables[i] == rest[i]);
                assert forall|j: int| 0 <= j < i implies locked_package(#[trigger] tables[j]) is Ok by {
                    assert(rest[j] == tables[j]);
                }
            },
        }
    }
}

/// The packages of a lock file are those of its array `package`, and it has none to
/// give without one. Each fault has an error of its own.
pub proof fn law_lock_packages(document: TomlView, error: LockfileError, name: Seq<char>)
    ensures
        match document.get("package"@) {
            Some(TomlView::Array(tables)) => lock_packages(document) == locked_packages(tables),
            _ => lock_packages(document) == Err::<Seq<LockPackageView>, LockFault>(
                LockFault::NoPackages,
            ),
        },
        reports(error, LockFault::NoPackages) <==> error is MissingPackages,
        reports(error, LockFault::NoName) <==> error is MissingName,
        reports(error, LockFault::NoVersion(name)) <==> (error matches LockfileError::MissingVersion(
            given,
        ) && given@ == name),
{
}

/// The identifier of a package is its name, its version and, in parentheses, its
/// source, or, for a local package, a file URL of its name and its version.
pub proof fn law_package_id(name: Seq<char>, version: Seq<char>, source: Seq<char>)
    ensures
        ({
            let id = package_id(name, version, Some(source));
            let n = name.len() as int;
            let v = version.len() as int;
            &&& id.len() == n + v + source.len() + 4
            &&& id.take(n) == name
            &&& id[n] == ' '
            &&& id.subrange(n + 1, n + 1 + v) == version
            &&& id[n + 1 + v] == ' '
            &&& id[n + 2 + v] == '('
            &&& id.subrange(n + 3 + v, id.len() - 1) == source
            &&& id.last() == ')'
        }),
        ({
            let id = package_id(name, version, None);
            let start = "path+file:///"@;
            let n = (start.len() + name.len()) as int;
            &&& id.take(start.len() as int) == start
            &&& id.subrange(start.len() as int, n) == name
            &&& id[n] == '#'
            &&& id.skip(n + 1) == version
        }),
{
    reveal_strlit(" ");
    reveal_strlit(" (");
    reveal_strlit(")");
    reveal_strlit("#");
    reveal_strlit("path+file:///");
    let n = name.len() as int;
    let v = version.len() as int;
    let id = package_id(name, version, Some(source));
    assert(id.take(n) =~= name);
    assert(id.subrange(n + 1, n + 1 + v) =~= version);
    assert(id.subrange(n + 3 + v, id.len() - 1) =~= source);
    let local = package_id(name, version, None);
    let start = "path+file:///"@;
    let m = (start.len() + name.len()) as int;
    assert(local.take(start.len() as int) =~= start);
    assert(local.subrange(start.len() as int, m) =~= name);
    assert(local.skip(m + 1) =~= version);
}

/// What stands after the second space of a dependency entry is the source, without
/// the parentheses around it; further spaces belong to it.
pub proof fn law_entry_source(name: Seq<char>, version: Seq<char>, rest: Seq<char>)
    requires
        !name.contains(' '),
        !version.contains(' '),
    ensures
        lock_dep(name + seq![' '] + version + seq![' '] + rest) == (
            name,
            version,
            Some(trimmed_end(trimmed_start(rest, '('), ')')),
        ),
{
    let tail = version + seq![' '] + rest;
    assert(name + seq![' '] + version + seq![' '] + rest =~= name + seq![' '] + tail);
    lemma_split_first(name, ' ', tail);
    lemma_split_first(version, ' ', rest);
}

/// Whether a package is one that an entry gives in full: its name, its version and
/// its source, the source as it is or without the part from its first `#` on.
pub open spec fn is_given(pkg: LockPackageView, entry: Seq<char>) -> bool {
    let (name, version, source) = lock_dep(entry);
    &&& pkg.name == name
    &&& pkg.version == version
    &&& pkg.source == source || (pkg.source matches Some(own) && split_first(own, '#') matches Some(
        parts,
    ) && source == Some(parts.0))
}

/// Whether a package has the name and the version that an entry gives.
pub open spec fn is_given_release(pkg: LockPackageView, entry: Seq<char>) -> bool {
    pkg.name == lock_dep(entry).0 && pkg.version == lock_dep(entry).1
}

/// An entry with a version names the last package that it gives in full. Where
/// there is none it names the last local package of its name and version, and
/// where there is none of these either the first of its name and version.
pub proof fn law_entry_with_version(packages: Seq<LockPackageView>, entry: Seq<char>, i: int)
    requires
        lock_dep(entry).1.len() > 0,
        0 <= i < packages.len(),
    ensures
        is_given(packages[i], entry) && (forall|j: int|
            i < j < packages.len() ==> !is_given(#[trigger] packages[j], entry)) ==> resolved(
            packages,
            entry,
        ) == Some(i),
        (forall|j: int| 0 <= j < packages.len() ==> !is_given(#[trigger] packages[j], entry))
            && is_given_release(packages[i], entry) && packages[i].source is None && (forall|j: int|
            i < j < packages.len() ==> !(is_given_release(#[trigger] packages[j], entry)
                && packages[j].source is None)) ==> resolved(packages, entry) == Some(i),
        (forall|j: int|
            0 <= j < packages.len() ==> !is_given(#[trigger] packages[j], entry) && !(
            is_given_release(packages[j], entry) && packages[j].source is None))
            && is_given_release(packages[i], entry) && (forall|j: int|
            0 <= j < i ==> !is_given_release(#[trigger] packages[j], entry)) ==> resolved(
            packages,
            entry,
        ) == Some(i),
{
    let (name, version, source) = lock_dep(entry);
    lemma_last_index(packages, has_key(name, version, source));
    lemma_last_index(packages, has_key(name, version, None));
    lemma_first_index(packages, is_release(name, version));
    assert forall|j: int| 0 <= j < packages.len() implies has_key(name, version, source)(
        #[trigger] packages[j],
    ) == is_given(packages[j], entry) by {}
    assert forall|j: int| 0 <= j < packages.len() implies has_key(name, version, None)(
        #[trigger] packages[j],
    ) == (is_given_release(packages[j], entry) && packages[j].source is None) by {}
    assert forall|j: int| 0 <= j < packages.len() implies is_release(name, version)(
        #[trigger] packages[j],
    ) == is_given_release(packages[j], entry) by {}
}

/// An entry without a version names the first package of its name.
pub proof fn law_entry_without_version(packages: Seq<LockPackageView>, entry: Seq<char>, i: int)
    requires
        lock_dep(entry).1.len() == 0,
        0 <= i < packages.len(),
        packages[i].name == lock_dep(entry).0,
        forall|j: int| 0 <= j < i ==> (#[trigger] packages[j]).name != lock_dep(entry).0,
    ensures
        resolved(packages, entry) == Some(i),
{
    let name = lock_dep(entry).0;
    lemma_first_index(packages, is_named(name));
    assert(is_named(name)(packages[i]));
}

} // verus!
