//! The packages of a lock file.

use crate::error::LockfileError;
use crate::seqs::{
    first_index, last_index, lemma_first_index, lemma_first_index_at, lemma_first_index_none,
    lemma_last_index, lemma_last_index_at, lemma_last_index_none,
};
use crate::text::{
    is_char, lemma_split_first, lemma_split_first_none, own_optional, same_text, split_at_first,
    split_first, trim_end, trim_start, trimmed_end, trimmed_start,
};
use crate::toml_value::{parse_toml, toml_document, Toml, TomlView};
use vstd::prelude::*;
use vstd::string::StringExecFns;

verus! {

/// A package of a lock file.
#[derive(Debug, Clone)]
pub struct LockPackage {
    /// The package's name.
    pub name: String,
    /// The package's version.
    pub version: String,
    /// Where the package comes from; nothing for a local package.
    pub source: Option<String>,
    /// The checksum of the package's archive.
    pub checksum: Option<String>,
    /// The package's dependencies, as the lock file writes them.
    pub dependencies: Vec<String>,
}

/// What a `LockPackage` stands for.
#[verifier::ext_equal]
pub struct LockPackageView {
    pub name: Seq<char>,
    pub version: Seq<char>,
    pub source: Option<Seq<char>>,
    pub checksum: Option<Seq<char>>,
    pub dependencies: Seq<Seq<char>>,
}

impl DeepView for LockPackage {
    type V = LockPackageView;

    open spec fn deep_view(&self) -> LockPackageView {
        LockPackageView {
            name: self.name@,
            version: self.version@,
            source: self.source.deep_view(),
            checksum: self.checksum.deep_view(),
            dependencies: self.dependencies.deep_view(),
        }
    }
}

/// Why the packages of a lock file cannot be taken from it.
pub enum LockFault {
    /// There is no list of packages.
    NoPackages,
    /// A package has no name.
    NoName,
    /// The package of that name has no version.
    NoVersion(Seq<char>),
}

/// The package that a table of a lock file describes.
pub open spec fn locked_package(table: TomlView) -> Result<LockPackageView, LockFault> {
    match (table.text_at("name"@), table.text_at("version"@)) {
        (None, _) => Err(LockFault::NoName),
        (Some(name), None) => Err(LockFault::NoVersion(name)),
        (Some(name), Some(version)) => Ok(
            LockPackageView {
                name,
                version,
                source: table.text_at("source"@),
                checksum: table.text_at("checksum"@),
                dependencies: table.texts_at("dependencies"@),
            },
        ),
    }
}

/// The packages that some tables of a lock file describe, or what is wrong with
/// the first of them that describes none.
pub open spec fn locked_packages(tables: Seq<TomlView>) -> Result<Seq<LockPackageView>, LockFault>
    decreases tables.len(),
{
    if tables.len() == 0 {
        Ok(Seq::empty())
    } else {
        match (locked_packages(tables.drop_last()), locked_package(tables.last())) {
            (Err(fault), _) => Err(fault),
            (Ok(_), Err(fault)) => Err(fault),
            (Ok(packages), Ok(package)) => Ok(packages.push(package)),
        }
    }
}

/// The packages of a lock file.
pub open spec fn lock_packages(document: TomlView) -> Result<Seq<LockPackageView>, LockFault> {
    match document.items_at("package"@) {
        Some(tables) => locked_packages(tables),
        None => Err(LockFault::NoPackages),
    }
}

/// Whether an error reports a fault.
pub open spec fn reports(error: LockfileError, fault: LockFault) -> bool {
    match fault {
        LockFault::NoPackages => error is MissingPackages,
        LockFault::NoName => error is MissingName,
        LockFault::NoVersion(name) => error matches LockfileError::MissingVersion(n) && n@ == name,
    }
}

/// Takes a package from a table of a lock file.
fn package_from_toml(table: &Toml) -> (package: Result<LockPackage, LockfileError>)
    ensures
        match (package, locked_package(table.deep_view())) {
            (Ok(p), Ok(view)) => p.deep_view() == view,
            (Err(error), Err(fault)) => reports(error, fault),
            _ => false,
        },
{
    match table.text_at("name") {
        None => Err(LockfileError::MissingName),
        Some(name) => match table.text_at("version") {
            None => Err(LockfileError::MissingVersion(name.to_owned())),
            Some(version) => Ok(
                LockPackage {
                    name: name.to_owned(),
                    version: version.to_owned(),
                    source: own_optional(table.text_at("source")),
                    checksum: own_optional(table.text_at("checksum")),
                    dependencies: table.texts_at("dependencies"),
                },
            ),
        },
    }
}

/// What stands wrong with the first tables stands wrong with all of them.
proof fn lemma_fault_stays(tables: Seq<TomlView>, n: int)
    requires
        0 <= n <= tables.len(),
        locked_packages(tables.take(n)) is Err,
    ensures
        locked_packages(tables) == locked_packages(tables.take(n)),
    decreases tables.len(),
{
    if n == tables.len() {
        assert(tables.take(n) =~= tables);
    } else {
        assert(tables.drop_last().take(n) =~= tables.take(n));
        lemma_fault_stays(tables.drop_last(), n);
    }
}

/// Takes the packages from a lock file.
pub fn packages_from_toml(document: &Toml) -> (packages: Result<Vec<LockPackage>, LockfileError>)
    ensures
        match (packages, lock_packages(document.deep_view())) {
            (Ok(p), Ok(view)) => p.deep_view() == view,
            (Err(error), Err(fault)) => reports(error, fault),
            _ => false,
        },
{
    match document.array_at("package") {
        None => Err(LockfileError::MissingPackages),
        Some(tables) => {
            let ghost all = tables.deep_view();
            let mut packages: Vec<LockPackage> = Vec::new();
            let mut i: usize = 0;
            assert(packages.deep_view() =~= Seq::empty());
            assert(all.take(0) =~= Seq::empty());
            while i < tables.len()
                invariant
                    i <= tables.len(),
                    all == tables.deep_view(),
                    document.deep_view().items_at("package"@) == Some(all),
                    locked_packages(all.take(i as int)) == Ok::<Seq<LockPackageView>, LockFault>(
                        packages.deep_view(),
                    ),
                decreases tables.len() - i,
            {
                let ghost before = packages.deep_view();
                proof {
                    assert(all.take(i + 1).drop_last() =~= all.take(i as int));
                    assert(all.take(i + 1).last() == tables@[i as int].deep_view());
                }
                match package_from_toml(&tables[i]) {
                    Ok(package) => {
                        packages.push(package);
                        assert(packages.deep_view() =~= before.push(package.deep_view()));
                    },
                    Err(error) => {
                        proof {
                            lemma_fault_stays(all, i + 1);
                        }
                        return Err(error);
                    },
                }
                i = i + 1;
            }
            assert(all.take(all.len() as int) =~= all);
            Ok(packages)
        },
    }
}

/// Parses a lock file.
pub fn parse_cargo_lock(content: &str) -> (packages: Result<Vec<LockPackage>, LockfileError>)
    ensures
        match (packages, toml_document(content@)) {
            (Err(LockfileError::LockSyntax(error)), Err(cause)) => error == cause,
            (_, Err(_)) => false,
            (_, Ok(document)) => match (packages, lock_packages(document)) {
                (Ok(p), Ok(view)) => p.deep_view() == view,
                (Err(error), Err(fault)) => reports(error, fault),
                _ => false,
            },
        },
{
    match parse_toml(content) {
        Ok(document) => packages_from_toml(&document),
        Err(error) => Err(LockfileError::LockSyntax(error)),
    }
}

/// The identifier of a package: its name, version and source, or, for a local
/// package, a file URL made of its name and version.
pub open spec fn package_id(
    name: Seq<char>,
    version: Seq<char>,
    source: Option<Seq<char>>,
) -> Seq<char> {
    match source {
        Some(source) => name + " "@ + version + " ("@ + source + ")"@,
        None => "path+file:///"@ + name + "#"@ + version,
    }
}

impl LockPackageView {
    /// The identifier of the package.
    pub open spec fn id(self) -> Seq<char> {
        package_id(self.name, self.version, self.source)
    }
}

/// Whether a text is the identifier of one of the packages.
pub open spec fn is_package_id(packages: Seq<LockPackageView>, id: Seq<char>) -> bool {
    exists|i: int| 0 <= i < packages.len() && id == (#[trigger] packages[i]).id()
}

/// Makes the identifier of a package.
pub fn make_package_id(pkg: &LockPackage) -> (id: String)
    ensures
        id@ == pkg.deep_view().id(),
{
    match &pkg.source {
        Some(source) => {
            let mut id = pkg.name.clone();
            id.append(" ");
            id.append(pkg.version.as_str());
            id.append(" (");
            id.append(source.as_str());
            id.append(")");
            id
        },
        None => {
            let mut id = "path+file:///".to_owned();
            id.append(pkg.name.as_str());
            id.append("#");
            id.append(pkg.version.as_str());
            id
        },
    }
}

/// What a dependency entry of a lock file names: a name, then, if there is a
/// first space, the version up to the second space, then, if there is one, the
/// source after it without the parentheses around it.
pub open spec fn lock_dep(s: Seq<char>) -> (Seq<char>, Seq<char>, Option<Seq<char>>) {
    match split_first(s, ' ') {
        None => (s, Seq::empty(), None),
        Some((name, rest)) => match split_first(rest, ' ') {
            None => (name, rest, None),
            Some((version, source)) => (
                name,
                version,
                Some(trimmed_end(trimmed_start(source, '('), ')')),
            ),
        },
    }
}

/// Parses a dependency entry of a lock file: `name`, `name version` or
/// `name version (source)`.
pub fn parse_lock_dep_string(s: &str) -> (dep: (String, String, Option<String>))
    ensures
        dep.deep_view() == lock_dep(s@),
{
    match split_at_first(s, ' ') {
        None => (s.to_owned(), String::new(), None),
        Some((name, rest)) => match split_at_first(rest, ' ') {
            None => (name.to_owned(), rest.to_owned(), None),
            Some((version, source)) => {
                let inner = trim_end(trim_start(source, '('), ')');
                (name.to_owned(), version.to_owned(), Some(inner.to_owned()))
            },
        },
    }
}

/// Whether a dependency entry can name a package by that name, version and
/// source: the source is written in full, or without the part from its first
/// `#` on.
pub open spec fn has_key(
    name: Seq<char>,
    version: Seq<char>,
    source: Option<Seq<char>>,
) -> spec_fn(LockPackageView) -> bool {
    |pkg: LockPackageView|
        {
            &&& pkg.name == name
            &&& pkg.version == version
            &&& pkg.source == source || short_source(pkg.source) is Some && short_source(pkg.source)
                == source
        }
}

/// A source without the part from its first `#` on; nothing where there is no
/// such part.
pub open spec fn short_source(source: Option<Seq<char>>) -> Option<Seq<char>> {
    match source {
        Some(s) => match split_first(s, '#') {
            Some((short, _)) => Some(short),
            None => None,
        },
        None => None,
    }
}

/// The package of that name, version and source; of several the last.
pub open spec fn lookup(
    packages: Seq<LockPackageView>,
    name: Seq<char>,
    version: Seq<char>,
    source: Option<Seq<char>>,
) -> Option<int> {
    last_index(packages, has_key(name, version, source))
}

/// The test for a package's name.
pub open spec fn is_named(name: Seq<char>) -> spec_fn(LockPackageView) -> bool {
    |pkg: LockPackageView| pkg.name == name
}

/// The test for a package's name and version.
pub open spec fn is_release(
    name: Seq<char>,
    version: Seq<char>,
) -> spec_fn(LockPackageView) -> bool {
    |pkg: LockPackageView| pkg.name == name && pkg.version == version
}

/// The package that a dependency entry names. An entry with a version names
/// the package of its name, version and source, else the local one of its name
/// and version, else the first of its name and version; an entry without names
/// the first package of its name.
pub open spec fn resolved(packages: Seq<LockPackageView>, entry: Seq<char>) -> Option<int> {
    let (name, version, source) = lock_dep(entry);
    if version.len() == 0 {
        first_index(packages, is_named(name))
    } else {
        match lookup(packages, name, version, source) {
            Some(i) => Some(i),
            None => match lookup(packages, name, version, None) {
                Some(i) => Some(i),
                None => first_index(packages, is_release(name, version)),
            },
        }
    }
}

/// Whether a package has that name, version and source.
fn package_has_key(
    pkg: &LockPackage,
    name: &str,
    version: &str,
    source: Option<&str>,
) -> (has: bool)
    ensures
        has == has_key(name@, version@, source.deep_view())(pkg.deep_view()),
{
    if !same_text(pkg.name.as_str(), name) || !same_text(pkg.version.as_str(), version) {
        return false;
    }
    match (&pkg.source, source) {
        (None, None) => true,
        (Some(own), Some(given)) => {
            if same_text(own.as_str(), given) {
                return true;
            }
            match split_at_first(own.as_str(), '#') {
                Some((short, _)) => same_text(short, given),
                None => false,
            }
        },
        _ => false,
    }
}

/// The package of that name, version and source; of several the last.
fn lookup_package(
    packages: &Vec<LockPackage>,
    name: &str,
    version: &str,
    source: Option<&str>,
) -> (found: Option<usize>)
    ensures
        match found {
            Some(i) => lookup(packages.deep_view(), name@, version@, source.deep_view()) == Some(
                i as int,
            ),
            None => lookup(packages.deep_view(), name@, version@, source.deep_view()) is None,
        },
{
    let ghost all = packages.deep_view();
    let ghost sought = has_key(name@, version@, source.deep_view());
    let mut i: usize = packages.len();
    while i > 0
        invariant
            i <= packages.len(),
            all == packages.deep_view(),
            sought == has_key(name@, version@, source.deep_view()),
            forall|j: int| i <= j < all.len() ==> !sought(#[trigger] all[j]),
        decreases i,
    {
        i = i - 1;
        if package_has_key(&packages[i], name, version, source) {
            proof {
                lemma_last_index_at(all, sought, i as int);
            }
            return Some(i);
        }
    }
    proof {
        lemma_last_index_none(all, sought);
    }
    None
}

/// The first package of that name, and of that version where one is given.
fn first_package(packages: &Vec<LockPackage>, name: &str, version: Option<&str>) -> (found: Option<
    usize,
>)
    ensures
        ({
            let sought = match version {
                Some(v) => is_release(name@, v@),
                None => is_named(name@),
            };
            match found {
                Some(i) => first_index(packages.deep_view(), sought) == Some(i as int),
                None => first_index(packages.deep_view(), sought) is None,
            }
        }),
{
    let ghost all = packages.deep_view();
    let ghost sought = match version {
        Some(v) => is_release(name@, v@),
        None => is_named(name@),
    };
    let mut i: usize = 0;
    while i < packages.len()
        invariant
            i <= packages.len(),
            all == packages.deep_view(),
            sought == match version {
                Some(v) => is_release(name@, v@),
                None => is_named(name@),
            },
            forall|j: int| 0 <= j < i ==> !sought(#[trigger] all[j]),
        decreases packages.len() - i,
    {
        let right_version = match version {
            Some(v) => same_text(packages[i].version.as_str(), v),
            None => true,
        };
        assert(all[i as int] == packages@[i as int].deep_view());
        if same_text(packages[i].name.as_str(), name) && right_version {
            proof {
                lemma_first_index_at(all, sought, i as int);
            }
            return Some(i);
        }
        i = i + 1;
    }
    proof {
        lemma_first_index_none(all, sought);
    }
    None
}

/// Finds the package that a dependency entry names.
pub fn resolve_lock_dep(packages: &Vec<LockPackage>, entry: &str) -> (found: Option<usize>)
    ensures
        match found {
            Some(i) => i < packages.len() && resolved(packages.deep_view(), entry@) == Some(i as int),
            None => resolved(packages.deep_view(), entry@) is None,
        },
{
    let (name, version, source) = parse_lock_dep_string(entry);
    let found: Option<usize>;
    if version.as_str().is_empty() {
        found = first_package(packages, name.as_str(), None);
    } else {
        let given: Option<&str> = match &source {
            Some(s) => Some(s.as_str()),
            None => None,
        };
        found = match lookup_package(packages, name.as_str(), version.as_str(), given) {
            Some(i) => Some(i),
            None => match lookup_package(packages, name.as_str(), version.as_str(), None) {
                Some(i) => Some(i),
                None => first_package(packages, name.as_str(), Some(version.as_str())),
            },
        };
    }
    proof {
        lemma_resolved_in_range(packages.deep_view(), entry@);
    }
    found
}

/// A dependency entry is read back as what was written into it: a name, a name
/// and a version, or a name, a version and a source. The identifier of a package
/// with a source is such an entry.
pub proof fn law_entry_read_back(name: Seq<char>, version: Seq<char>, source: Seq<char>)
    requires
        !name.contains(' '),
        !version.contains(' '),
        source.len() > 0 ==> source[0] != '(' && source.last() != ')',
    ensures
        lock_dep(name) == (name, Seq::<char>::empty(), None::<Seq<char>>),
        lock_dep(name + " "@ + version) == (name, version, None::<Seq<char>>),
        lock_dep(package_id(name, version, Some(source))) == (name, version, Some(source)),
{
    reveal_strlit(" ");
    reveal_strlit(" (");
    reveal_strlit(")");
    lemma_split_first_none(name, ' ');
    assert(" "@ =~= seq![' ']);
    lemma_split_first(name, ' ', version);
    lemma_split_first_none(version, ' ');
    let wrapped = seq!['('] + source + seq![')'];
    let rest = version + seq![' '] + wrapped;
    assert(package_id(name, version, Some(source)) =~= name + seq![' '] + rest);
    lemma_split_first(name, ' ', rest);
    lemma_split_first(version, ' ', wrapped);
    assert(wrapped.drop_first() =~= source + seq![')']);
    assert(trimmed_start(wrapped, '(') == trimmed_start(source + seq![')'], '('));
    assert(trimmed_start(source + seq![')'], '(') == source + seq![')']);
    assert((source + seq![')']).drop_last() =~= source);
    assert(trimmed_end(source + seq![')'], ')') == trimmed_end(source, ')'));
}

/// Packages with the same identifier have the same name, version and source.
pub proof fn law_ids_tell_packages_apart(a: LockPackageView, b: LockPackageView)
    requires
        !a.name.contains(' ') && !a.name.contains('#') && !a.version.contains(' '),
        !b.name.contains(' ') && !b.name.contains('#') && !b.version.contains(' '),
        a.id() == b.id(),
    ensures
        a.name == b.name,
        a.version == b.version,
        a.source == b.source,
{
    lemma_id_parts(a);
    lemma_id_parts(b);
    match (a.source, b.source) {
        (Some(s), Some(t)) => {
            let left = seq!['('] + s + seq![')'];
            let right = seq!['('] + t + seq![')'];
            assert(left == right);
            assert(left.subrange(1, left.len() - 1) =~= s);
            assert(right.subrange(1, right.len() - 1) =~= t);
        },
        _ => {},
    }
}

/// The parts of a package's identifier.
proof fn lemma_id_parts(pkg: LockPackageView)
    requires
        !pkg.name.contains(' ') && !pkg.name.contains('#') && !pkg.version.contains(' '),
    ensures
        ({
            let id = pkg.id();
            match pkg.source {
                Some(source) => {
                    let wrapped = seq!['('] + source + seq![')'];
                    let rest = pkg.version + seq![' '] + wrapped;
                    &&& split_first(id, ' ') == Some((pkg.name, rest))
                    &&& split_first(rest, ' ') == Some((pkg.version, wrapped))
                },
                None => {
                    &&& split_first(id, ' ') is None
                    &&& split_first(id, '#') == Some(("path+file:///"@ + pkg.name, pkg.version))
                    &&& ("path+file:///"@ + pkg.name).skip("path+file:///"@.len() as int)
                        == pkg.name
                },
            }
        }),
{
    reveal_strlit(" ");
    reveal_strlit(" (");
    reveal_strlit(")");
    reveal_strlit("#");
    reveal_strlit("path+file:///");
    let id = pkg.id();
    match pkg.source {
        Some(source) => {
            let wrapped = seq!['('] + source + seq![')'];
            let rest = pkg.version + seq![' '] + wrapped;
            assert(id =~= pkg.name + seq![' '] + rest);
            lemma_split_first(pkg.name, ' ', rest);
            lemma_split_first(pkg.version, ' ', wrapped);
        },
        None => {
            let start = "path+file:///"@ + pkg.name;
            assert forall|j: int| 0 <= j < start.len() implies start[j] != ' ' && start[j] != '#' by {
                if j >= "path+file:///"@.len() {
                    assert(pkg.name.contains(pkg.name[j - "path+file:///"@.len()]));
                }
            }
            assert(id =~= start + seq!['#'] + pkg.version);
            lemma_split_first(start, '#', pkg.version);
            assert forall|j: int| 0 <= j < id.len() implies id[j] != ' ' by {
                if j > start.len() {
                    assert(pkg.version.contains(pkg.version[j - start.len() - 1]));
                }
            }
            lemma_split_first_none(id, ' ');
            assert(start.skip("path+file:///"@.len() as int) =~= pkg.name);
        },
    }
}

/// A dependency entry names a package if and only if there is one of its name
/// and, where it gives one, its version; the package that it names is such a
/// one.
pub proof fn law_entry_names_release(packages: Seq<LockPackageView>, entry: Seq<char>)
    ensures
        ({
            let (name, version, _) = lock_dep(entry);
            match resolved(packages, entry) {
                Some(i) => {
                    &&& 0 <= i < packages.len()
                    &&& packages[i].name == name
                    &&& version.len() > 0 ==> packages[i].version == version
                },
                None => forall|i: int|
                    0 <= i < packages.len() ==> (#[trigger] packages[i]).name != name || version.len()
                        > 0 && packages[i].version != version,
            }
        }),
{
    let (name, version, source) = lock_dep(entry);
    lemma_first_index(packages, is_named(name));
    lemma_first_index(packages, is_release(name, version));
    lemma_last_index(packages, has_key(name, version, source));
    lemma_last_index(packages, has_key(name, version, None));
}

/// Whether no package but the one at position `i` satisfies `p`.
pub open spec fn is_only(
    packages: Seq<LockPackageView>,
    i: int,
    p: spec_fn(LockPackageView) -> bool,
) -> bool {
    forall|j: int| 0 <= j < packages.len() && j != i ==> !p(#[trigger] packages[j])
}

/// A package is named by its name alone where no other has that name, by its
/// name and version where no other has both, and by its identifier where no
/// other can be named by the same name, version and source. The same holds where
/// the identifier is written without the part of the source from its first `#`
/// on.
pub proof fn law_entry_names_package(packages: Seq<LockPackageView>, i: int)
    requires
        0 <= i < packages.len(),
        !packages[i].name.contains(' '),
        !packages[i].version.contains(' '),
        packages[i].version.len() > 0,
        packages[i].source matches Some(s) ==> s.len() > 0 ==> s[0] != '(' && s.last() != ')',
    ensures
        ({
            let pkg = packages[i];
            &&& is_only(packages, i, is_named(pkg.name)) ==> resolved(packages, pkg.name) == Some(i)
            &&& is_only(packages, i, is_release(pkg.name, pkg.version)) ==> resolved(
                packages,
                pkg.name + " "@ + pkg.version,
            ) == Some(i)
            &&& pkg.source is Some && is_only(
                packages,
                i,
                has_key(pkg.name, pkg.version, pkg.source),
            ) ==> resolved(packages, pkg.id()) == Some(i)
            &&& match short_source(pkg.source) {
                Some(short) => (short.len() > 0 ==> short.last() != ')') && is_only(
                    packages,
                    i,
                    has_key(pkg.name, pkg.version, Some(short)),
                ) ==> resolved(packages, package_id(pkg.name, pkg.version, Some(short))) == Some(i),
                None => true,
            }
        }),
{
    let pkg = packages[i];
    let source = match pkg.source {
        Some(s) => s,
        None => Seq::empty(),
    };
    law_entry_read_back(pkg.name, pkg.version, source);
    lemma_first_index(packages, is_named(pkg.name));
    lemma_first_index(packages, is_release(pkg.name, pkg.version));
    lemma_last_index(packages, has_key(pkg.name, pkg.version, pkg.source));
    lemma_last_index(packages, has_key(pkg.name, pkg.version, None));
    assert(is_named(pkg.name)(packages[i]));
    assert(is_release(pkg.name, pkg.version)(packages[i]));
    assert(has_key(pkg.name, pkg.version, pkg.source)(packages[i]));
    if let Some(short) = short_source(pkg.source) {
        lemma_first_index(source, is_char('#'));
        if short.len() > 0 ==> short.last() != ')' {
            law_entry_read_back(pkg.name, pkg.version, short);
        }
        lemma_last_index(packages, has_key(pkg.name, pkg.version, Some(short)));
        assert(has_key(pkg.name, pkg.version, Some(short))(packages[i]));
    }
    if is_only(packages, i, is_release(pkg.name, pkg.version)) {
        assert forall|j: int| 0 <= j < packages.len() && j != i implies !has_key(
            pkg.name,
            pkg.version,
            None,
        )(#[trigger] packages[j]) by {
            assert(!is_release(pkg.name, pkg.version)(packages[j]));
        }
    }
}

/// What a dependency entry names is one of the packages.
pub proof fn lemma_resolved_in_range(packages: Seq<LockPackageView>, entry: Seq<char>)
    ensures
        resolved(packages, entry) matches Some(i) ==> 0 <= i < packages.len(),
{
    let (name, version, source) = lock_dep(entry);
    lemma_first_index(packages, is_named(name));
    lemma_first_index(packages, is_release(name, version));
    lemma_last_index(packages, has_key(name, version, source));
    lemma_last_index(packages, has_key(name, version, None));
}

} // verus!
