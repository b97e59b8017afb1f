//! Laws of git sources.

use crate::git_source::{
    covers, fetched_sources, git_source, is_locked_source, locked_parts, repository,
    source_matches, GitSourceView,
};
use crate::laws::text::{law_split_last, law_without_prefix, law_without_suffix};
use crate::lock::LockPackageView;
use crate::seqs::{last_index, lemma_last_index};
use crate::text::{before_first, lemma_split_last, lowercase, split_last, trimmed_end};
use vstd::prelude::*;

verus! {

/// A mapping that is read from a text is written in it: the URL, a `#`, the
/// revision, a `=` and the path. The path has no `=` and the revision no `#`.
pub proof fn law_mapping_written(s: Seq<char>)
    ensures
        git_source(s) matches Some(mapping) ==> {
            &&& s == mapping.url + "#"@ + mapping.rev + "="@ + mapping.local_path
            &&& !mapping.local_path.contains('=')
            &&& !mapping.rev.contains('#')
        },
{
    reveal_strlit("#");
    reveal_strlit("=");
    assert("#"@ =~= seq!['#']);
    assert("="@ =~= seq!['=']);
    law_split_last(s, '=');
    if let Some((url_rev, _)) = split_last(s, '=') {
        law_split_last(url_rev, '#');
    }
}

/// URLs are compared without slashes at their end and without one `.git` before
/// them, and are otherwise left as they are.
pub proof fn law_repository(url: Seq<char>)
    ensures
        repository(url + "/"@) == repository(url),
        repository(url + ".git"@) == url,
        (url.len() > 0 ==> url.last() != '/') && !(".git"@).is_suffix_of(url) ==> repository(url)
            == url,
{
    reveal_strlit("/");
    reveal_strlit(".git");
    assert((url + "/"@).drop_last() =~= url);
    let full = url + ".git"@;
    assert(full.last() == 't');
    assert(trimmed_end(full, '/') == full);
    law_without_suffix(url, ".git"@);
}

/// The commit of a locked source stands after its last `#`, and its URL before it,
/// up to the first `?`.
pub proof fn law_locked_parts(base: Seq<char>, commit: Seq<char>, other: Seq<char>)
    requires
        !commit.contains('#'),
        !other.contains('#'),
    ensures
        locked_parts(base + "#"@ + commit) == Some((before_first(base, '?'), commit)),
        locked_parts(other) is None,
{
    reveal_strlit("#");
    assert("#"@ =~= seq!['#']);
    lemma_split_last(base, '#', commit);
    law_split_last(other, '#');
    if let Some((before, after)) = split_last(other, '#') {
        assert(other[before.len() as int] == '#');
    }
}

/// A locked source matches a mapping if and only if its commit is the mapping's
/// revision and the two URLs, as they are compared, are the same but for the case
/// of their letters. One without a commit matches none.
pub proof fn law_source_match(
    base: Seq<char>,
    commit: Seq<char>,
    other: Seq<char>,
    mapping_url: Seq<char>,
    mapping_rev: Seq<char>,
)
    requires
        !commit.contains('#'),
        !other.contains('#'),
    ensures
        source_matches(base + "#"@ + commit, mapping_url, mapping_rev) <==> commit == mapping_rev
            && lowercase(repository(before_first(base, '?'))) == lowercase(repository(mapping_url)),
        !source_matches(other, mapping_url, mapping_rev),
{
    law_locked_parts(base, commit, other);
}

/// A mapping covers a source of a lock file if and only if the source is a git
/// source and, without its `git+`, matches the mapping.
pub proof fn law_covers(url: Seq<char>, source: Seq<char>, mapping: GitSourceView)
    ensures
        covers("git+"@ + url)(mapping) == source_matches(url, mapping.url, mapping.rev),
        !("git+"@).is_prefix_of(source) ==> !covers(source)(mapping),
{
    law_without_prefix(url, "git+"@);
}

/// A mapping makes no difference to the sources that it does not cover.
pub proof fn law_other_mapping_ignored(
    mappings: Seq<GitSourceView>,
    packages: Seq<LockPackageView>,
    later: GitSourceView,
    source: Seq<char>,
)
    requires
        !covers(source)(later),
    ensures
        fetched_sources(mappings.push(later), packages).contains_key(source) == fetched_sources(
            mappings,
            packages,
        ).contains_key(source),
        fetched_sources(mappings, packages).contains_key(source) ==> fetched_sources(
            mappings.push(later),
            packages,
        )[source] == fetched_sources(mappings, packages)[source],
{
    let all = mappings.push(later);
    assert(all.last() == later);
    assert(all.drop_last() =~= mappings);
    lemma_last_index(mappings, covers(source));
    if let Some(i) = last_index(mappings, covers(source)) {
        assert(all[i] == mappings[i]);
    }
}

/// The sources of a lock file are those of its packages.
pub proof fn law_locked_sources(packages: Seq<LockPackageView>, source: Seq<char>)
    ensures
        is_locked_source(packages, source) <==> packages.map_values(
            |pkg: LockPackageView| pkg.source,
        ).contains(Some(source)),
{
    let sources = packages.map_values(|pkg: LockPackageView| pkg.source);
    if is_locked_source(packages, source) {
        let i = choose|i: int|
            0 <= i < packages.len() && (#[trigger] packages[i]).source == Some(source);
        assert(sources[i] == Some(source));
    }
    if sources.contains(Some(source)) {
        let i = choose|i: int| 0 <= i < sources.len() && sources[i] == Some(source);
        assert(packages[i].source == Some(source));
    }
}

} // verus!
