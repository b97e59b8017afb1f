//! Git sources that were fetched beforehand.

use crate::error::LockfileError;
use crate::lock::{LockPackage, LockPackageView};
use crate::seqs::{last_index, lemma_last_index, lemma_last_index_at, lemma_last_index_none};
use crate::text::{
    before_first, cut_at_first, is_char, lemma_split_first, lemma_split_first_none,
    lemma_split_last, lowercase, same_text, split_at_last, split_last, take_prefix_off,
    take_suffix_off, trim_end, trimmed_end, without_prefix, without_suffix,
};
use std::path::PathBuf;
use vstd::prelude::*;

verus! {

/// A path of the file system, carried through as it is.
#[verifier::external_type_specification]
#[verifier::external_body]
pub struct ExPathBuf(PathBuf);

/// The text that a path was made from.
pub uninterp spec fn path_text(path: PathBuf) -> Seq<char>;

/// `PathBuf::from` copies the given text into a path.
#[verifier::external_body]
fn path_from(text: &str) -> (path: PathBuf)
    ensures
        path_text(path) == text@,
{
    PathBuf::from(text)
}

/// `PathBuf::clone` copies a path with the text that it holds.
pub assume_specification[ <PathBuf as Clone>::clone ](path: &PathBuf) -> (copy: PathBuf)
    ensures
        path_text(copy) == path_text(*path),
;

/// A git source mapping: (url, rev, local_path)
#[derive(Debug, Clone)]
pub struct GitSourceMapping {
    /// The git URL (e.g., "https://github.com/user/repo")
    pub url: String,
    /// The git revision hash
    pub rev: String,
    /// Local path to the pre-fetched source
    pub local_path: PathBuf,
}

/// What a `GitSourceMapping` stands for.
#[verifier::ext_equal]
pub struct GitSourceView {
    pub url: Seq<char>,
    pub rev: Seq<char>,
    pub local_path: Seq<char>,
}

impl DeepView for GitSourceMapping {
    type V = GitSourceView;

    open spec fn deep_view(&self) -> GitSourceView {
        GitSourceView { url: self.url@, rev: self.rev@, local_path: path_text(self.local_path) }
    }
}

/// The mapping that a text of the form `url#rev=path` describes: the path
/// stands after the last `=`, the revision after the last `#` before it.
pub open spec fn git_source(s: Seq<char>) -> Option<GitSourceView> {
    match split_last(s, '=') {
        None => None,
        Some((url_rev, local_path)) => match split_last(url_rev, '#') {
            None => None,
            Some((url, rev)) => Some(GitSourceView { url, rev, local_path }),
        },
    }
}

impl GitSourceMapping {
    /// Parse a "url#rev=path" string into a GitSourceMapping
    pub fn parse(s: &str) -> (mapping: Result<GitSourceMapping, LockfileError>)
        ensures
            match mapping {
                Ok(m) => git_source(s@) == Some(m.deep_view()),
                Err(LockfileError::InvalidGitSource(text)) => git_source(s@) is None && text@ == s@,
                Err(_) => false,
            },
    {
        match split_at_last(s, '=') {
            None => Err(LockfileError::InvalidGitSource(s.to_owned())),
            Some((url_rev, local_path)) => match split_at_last(url_rev, '#') {
                None => Err(LockfileError::InvalidGitSource(s.to_owned())),
                Some((url, rev)) => Ok(
                    GitSourceMapping {
                        url: url.to_owned(),
                        rev: rev.to_owned(),
                        local_path: path_from(local_path),
                    },
                ),
            },
        }
    }
}

/// The URL of a repository in the form in which URLs are compared, but for the
/// case of its letters: without slashes at its end, then without a `.git`.
pub open spec fn repository(url: Seq<char>) -> Seq<char> {
    let trimmed = trimmed_end(url, '/');
    match without_suffix(trimmed, ".git"@) {
        Some(rest) => rest,
        None => trimmed,
    }
}

/// The URL of a repository in the form in which URLs are compared, but for the
/// case of its letters.
pub fn repository_of<'a>(url: &'a str) -> (repo: &'a str)
    ensures
        repo@ == repository(url@),
{
    let trimmed = trim_end(url, '/');
    match take_suffix_off(trimmed, ".git") {
        Some(rest) => rest,
        None => trimmed,
    }
}

/// The URL of a locked git source without its query, and its commit, which
/// stands after the last `#`.
pub open spec fn locked_parts(source_url: Seq<char>) -> Option<(Seq<char>, Seq<char>)> {
    match split_last(source_url, '#') {
        Some((base, commit)) => Some((before_first(base, '?'), commit)),
        None => None,
    }
}

/// The URL of a locked git source without its query, and its commit.
pub fn split_locked<'a>(source_url: &'a str) -> (parts: Option<(&'a str, &'a str)>)
    ensures
        parts.deep_view() == locked_parts(source_url@),
{
    match split_at_last(source_url, '#') {
        Some((base, commit)) => Some((cut_at_first(base, '?'), commit)),
        None => None,
    }
}

/// Whether a locked git source is the one of a mapping: its commit is the
/// mapping's revision, and its repository the mapping's, whatever the case of
/// the letters.
pub open spec fn source_matches(
    source_url: Seq<char>,
    mapping_url: Seq<char>,
    mapping_rev: Seq<char>,
) -> bool {
    match locked_parts(source_url) {
        Some((url, commit)) => commit == mapping_rev && lowercase(repository(url)) == lowercase(
            repository(mapping_url),
        ),
        None => false,
    }
}

/// Tells whether a locked git source is the one of a mapping.
pub fn source_matches_mapping(
    source_url: &str,
    mapping_url: &str,
    mapping_rev: &str,
) -> (matches: bool)
    ensures
        matches == source_matches(source_url@, mapping_url@, mapping_rev@),
{
    match split_locked(source_url) {
        Some((url, commit)) => {
            if !same_text(commit, mapping_rev) {
                return false;
            }
            let locked = repository_of(url).to_lowercase();
            let mapped = repository_of(mapping_url).to_lowercase();
            same_text(locked.as_str(), mapped.as_str())
        },
        None => false,
    }
}

/// The test for the mappings of a source of a lock file.
pub open spec fn covers(source: Seq<char>) -> spec_fn(GitSourceView) -> bool {
    |mapping: GitSourceView|
        match without_prefix(source, "git+"@) {
            Some(url) => source_matches(url, mapping.url, mapping.rev),
            None => false,
        }
}

/// Where the source of a lock file was fetched to: the path of the last mapping
/// that covers it.
pub open spec fn fetched_path(
    mappings: Seq<GitSourceView>,
    source: Seq<char>,
) -> Option<Seq<char>> {
    match last_index(mappings, covers(source)) {
        Some(i) => Some(mappings[i].local_path),
        None => None,
    }
}

/// Whether a package of a lock file comes from that source.
pub open spec fn is_locked_source(packages: Seq<LockPackageView>, source: Seq<char>) -> bool {
    exists|i: int| 0 <= i < packages.len() && (#[trigger] packages[i]).source == Some(source)
}

/// Where the sources of a lock file were fetched to.
pub open spec fn fetched_sources(
    mappings: Seq<GitSourceView>,
    packages: Seq<LockPackageView>,
) -> Map<Seq<char>, Seq<char>> {
    Map::new(
        |source: Seq<char>|
            is_locked_source(packages, source) && fetched_path(mappings, source) is Some,
        |source: Seq<char>| fetched_path(mappings, source)->0,
    )
}

/// Where the sources of a lock file were fetched to.
#[derive(Debug)]
pub struct GitSourceIndex {
    entries: Vec<(String, PathBuf)>,
}

/// What the entries of an index stand for; of two for one source the later one
/// counts.
pub closed spec fn index_map(entries: Seq<(String, PathBuf)>) -> Map<Seq<char>, Seq<char>>
    decreases entries.len(),
{
    if entries.len() == 0 {
        Map::empty()
    } else {
        index_map(entries.drop_last()).insert(entries.last().0@, path_text(entries.last().1))
    }
}

impl View for GitSourceIndex {
    type V = Map<Seq<char>, Seq<char>>;

    closed spec fn view(&self) -> Map<Seq<char>, Seq<char>> {
        index_map(self.entries@)
    }
}

/// The last mapping that covers a source.
fn last_covering(git_sources: &Vec<GitSourceMapping>, source: &str) -> (found: Option<usize>)
    ensures
        match found {
            Some(i) => i < git_sources.len() && last_index(
                git_sources.deep_view(),
                covers(source@),
            ) == Some(i as int),
            None => last_index(git_sources.deep_view(), covers(source@)) is None,
        },
{
    let ghost all = git_sources.deep_view();
    let mut i: usize = git_sources.len();
    while i > 0
        invariant
            i <= git_sources.len(),
            all == git_sources.deep_view(),
            forall|j: int| i <= j < all.len() ==> !covers(source@)(#[trigger] all[j]),
        decreases i,
    {
        i = i - 1;
        let mapping = &git_sources[i];
        assert(all[i as int] == mapping.deep_view());
        if let Some(url) = take_prefix_off(source, "git+") {
            if source_matches_mapping(url, mapping.url.as_str(), mapping.rev.as_str()) {
                proof {
                    lemma_last_index_at(all, covers(source@), i as int);
                }
                return Some(i);
            }
        }
    }
    proof {
        lemma_last_index_none(all, covers(source@));
    }
    None
}

/// Finds where the sources of a lock file were fetched to.
pub fn build_git_source_index(
    git_sources: &Vec<GitSourceMapping>,
    lock_packages: &Vec<LockPackage>,
) -> (index: GitSourceIndex)
    ensures
        index@ == fetched_sources(git_sources.deep_view(), lock_packages.deep_view()),
{
    let ghost mappings = git_sources.deep_view();
    let ghost packages = lock_packages.deep_view();
    let mut entries: Vec<(String, PathBuf)> = Vec::new();
    let mut i: usize = 0;
    assert(index_map(entries@) =~= fetched_sources(mappings, packages.take(0)));
    while i < lock_packages.len()
        invariant
            i <= lock_packages.len(),
            mappings == git_sources.deep_view(),
            packages == lock_packages.deep_view(),
            index_map(entries@) == fetched_sources(mappings, packages.take(i as int)),
        decreases lock_packages.len() - i,
    {
        let ghost before = entries@;
        let ghost known = packages.take(i as int);
        let ghost extended = packages.take(i + 1);
        proof {
            assert(extended[i as int].source == lock_packages@[i as int].source.deep_view());
            assert forall|s: Seq<char>| is_locked_source(extended, s) == (is_locked_source(known, s)
                || packages[i as int].source == Some(s)) by {
                if is_locked_source(known, s) {
                    let k = choose|k: int|
                        0 <= k < known.len() && (#[trigger] known[k]).source == Some(s);
                    assert(extended[k].source == Some(s));
                }
                if is_locked_source(extended, s) {
                    let k = choose|k: int|
                        0 <= k < extended.len() && (#[trigger] extended[k]).source == Some(s);
                    if k < i {
                        assert(known[k].source == Some(s));
                    }
                }
            }
        }
        if let Some(source) = &lock_packages[i].source {
            if let Some(m) = last_covering(git_sources, source.as_str()) {
                entries.push((source.clone(), git_sources[m].local_path.clone()));
                assert(entries@.drop_last() =~= before);
                assert(mappings[m as int] == git_sources@[m as int].deep_view());
            }
        }
        assert(index_map(entries@) =~= fetched_sources(mappings, extended));
        i = i + 1;
    }
    assert(packages.take(packages.len() as int) =~= packages);
    GitSourceIndex { entries }
}

impl GitSourceIndex {
    /// Where a source was fetched to.
    pub fn get(&self, source: &str) -> (path: Option<&PathBuf>)
        ensures
            match path {
                Some(p) => self@.contains_key(source@) && self@[source@] == path_text(*p),
                None => !self@.contains_key(source@),
            },
    {
        let ghost all = self.entries@;
        let mut i: usize = self.entries.len();
        assert(all.take(all.len() as int) =~= all);
        while i > 0
            invariant
                i <= self.entries.len(),
                all == self.entries@,
                self@ == index_map(all),
                index_map(all).contains_key(source@) == index_map(all.take(i as int)).contains_key(
                    source@,
                ),
                index_map(all).contains_key(source@) ==> index_map(all)[source@] == index_map(
                    all.take(i as int),
                )[source@],
            decreases i,
        {
            i = i - 1;
            assert(all.take(i + 1).drop_last() =~= all.take(i as int));
            if same_text(self.entries[i].0.as_str(), source) {
                return Some(&self.entries[i].1);
            }
        }
        None
    }
}

/// A mapping is read back as what was written into it.
pub proof fn law_mapping_read_back(url: Seq<char>, rev: Seq<char>, local_path: Seq<char>)
    requires
        !rev.contains('#'),
        !local_path.contains('='),
    ensures
        git_source(url + "#"@ + rev + "="@ + local_path) == Some(
            GitSourceView { url, rev, local_path },
        ),
{
    reveal_strlit("#");
    reveal_strlit("=");
    let url_rev = url + seq!['#'] + rev;
    assert(url + "#"@ + rev + "="@ + local_path =~= url_rev + seq!['='] + local_path);
    lemma_split_last(url_rev, '=', local_path);
    lemma_split_last(url, '#', rev);
}

/// A text is a mapping if and only if it has a `#` before its last `=`.
pub proof fn law_mapping_form(s: Seq<char>)
    ensures
        git_source(s) is Some <==> exists|i: int, j: int|
            0 <= i < j < s.len() && s[i] == '#' && s[j] == '=' && forall|k: int|
                j < k < s.len() ==> s[k] != '=',
{
    lemma_last_index(s, is_char('='));
    match last_index(s, is_char('=')) {
        Some(j) => {
            let url_rev = s.take(j);
            lemma_last_index(url_rev, is_char('#'));
            match last_index(url_rev, is_char('#')) {
                Some(i) => {
                    assert(s[i] == url_rev[i]);
                    assert forall|k: int| j < k < s.len() implies s[k] != '=' by {
                        assert(!is_char('=')(s[k]));
                    }
                },
                None => {
                    assert forall|i: int, l: int|
                        0 <= i < l < s.len() && s[i] == '#' && s[l] == '=' && (forall|k: int|
                            l < k < s.len() ==> s[k] != '=') implies false by {
                        assert(l == j) by {
                            if l > j {
                                assert(!is_char('=')(s[l]));
                            }
                        }
                        assert(!is_char('#')(url_rev[i]));
                    }
                },
            }
        },
        None => {
            assert forall|l: int| 0 <= l < s.len() implies s[l] != '=' by {
                assert(!is_char('=')(s[l]));
            }
        },
    }
}

/// A locked source matches the mapping of its own repository and commit, with
/// or without a query, and with or without a `.git` at the end of the locked
/// URL.
pub proof fn law_source_matches_own_mapping(url: Seq<char>, query: Seq<char>, rev: Seq<char>)
    requires
        !url.contains('?'),
        !rev.contains('#'),
    ensures
        source_matches(url + "#"@ + rev, url, rev),
        source_matches(url + "?"@ + query + "#"@ + rev, url, rev),
        (url.len() > 0 ==> url.last() != '/') && !(".git"@).is_suffix_of(url) ==> {
            &&& source_matches(url + ".git"@ + "#"@ + rev, url, rev)
            &&& source_matches(url + ".git"@ + "?"@ + query + "#"@ + rev, url, rev)
            &&& source_matches(url + "#"@ + rev, url + ".git"@, rev)
        },
{
    reveal_strlit("#");
    reveal_strlit("?");
    reveal_strlit(".git");
    lemma_locked_parts(url, query, rev);
    let full = url + ".git"@;
    assert(!full.contains('?')) by {
        if full.contains('?') {
            let k = choose|k: int| 0 <= k < full.len() && full[k] == '?';
            if k < url.len() {
                assert(url.contains(url[k]));
            }
        }
    }
    lemma_locked_parts(full, query, rev);
    if (url.len() > 0 ==> url.last() != '/') && !(".git"@).is_suffix_of(url) {
        assert(trimmed_end(url, '/') == url);
        assert(full.last() == 't');
        assert(trimmed_end(full, '/') == full);
        assert(full.subrange(full.len() - 4, full.len() as int) =~= ".git"@);
        assert(full.take(full.len() - 4) =~= url);
    }
}

/// The URL and the commit of a locked source with and without a query.
proof fn lemma_locked_parts(url: Seq<char>, query: Seq<char>, rev: Seq<char>)
    requires
        !url.contains('?'),
        !rev.contains('#'),
    ensures
        locked_parts(url + "#"@ + rev) == Some((url, rev)),
        locked_parts(url + "?"@ + query + "#"@ + rev) == Some((url, rev)),
{
    reveal_strlit("#");
    reveal_strlit("?");
    assert("#"@ =~= seq!['#']);
    assert("?"@ =~= seq!['?']);
    lemma_split_last(url, '#', rev);
    lemma_split_last(url + seq!['?'] + query, '#', rev);
    lemma_split_first_none(url, '?');
    lemma_split_first(url, '?', query);
}

/// A locked source matches no mapping of another revision than its commit.
pub proof fn law_source_matches_one_revision(
    source_url: Seq<char>,
    first: GitSourceView,
    second: GitSourceView,
)
    requires
        source_matches(source_url, first.url, first.rev),
        source_matches(source_url, second.url, second.rev),
    ensures
        first.rev == second.rev,
{
}

/// Slashes at the end of a mapping's URL make no difference.
pub proof fn law_source_match_ignores_slash(
    source_url: Seq<char>,
    mapping_url: Seq<char>,
    mapping_rev: Seq<char>,
)
    ensures
        source_matches(source_url, mapping_url + "/"@, mapping_rev) == source_matches(
            source_url,
            mapping_url,
            mapping_rev,
        ),
{
    reveal_strlit("/");
    assert((mapping_url + "/"@).drop_last() =~= mapping_url);
}

/// A source that two mappings cover was fetched to where the later one says.
pub proof fn law_later_mapping_counts(
    mappings: Seq<GitSourceView>,
    packages: Seq<LockPackageView>,
    later: GitSourceView,
    source: Seq<char>,
)
    requires
        is_locked_source(packages, source),
        covers(source)(later),
    ensures
        fetched_sources(mappings.push(later), packages).contains_key(source),
        fetched_sources(mappings.push(later), packages)[source] == later.local_path,
{
    assert(mappings.push(later).last() == later);
}

/// Where a source was fetched to is said by a mapping that covers it, and by no
/// mapping only where none covers it.
pub proof fn law_index_holds_covered_sources(
    mappings: Seq<GitSourceView>,
    packages: Seq<LockPackageView>,
    source: Seq<char>,
)
    ensures
        ({
            let index = fetched_sources(mappings, packages);
            if index.contains_key(source) {
                &&& is_locked_source(packages, source)
                &&& exists|i: int|
                    0 <= i < mappings.len() && covers(source)(#[trigger] mappings[i])
                        && index[source] == mappings[i].local_path
            } else {
                !is_locked_source(packages, source) || forall|i: int|
                    0 <= i < mappings.len() ==> !covers(source)(#[trigger] mappings[i])
            }
        }),
{
    lemma_last_index(mappings, covers(source));
}

} // verus!
