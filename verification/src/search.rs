//! Searching directories for the manifest of a package.

use crate::text::{before_first, same_text, split_at_first, split_first, starts_with};
use crate::toml_value::{Toml, TomlView};
use crate::workspace::{document_is_named, is_manifest_of};
use vstd::prelude::*;

verus! {

/// A place to look for a manifest. Directories are of a type of the caller's.
#[derive(Debug)]
pub enum Probe<P> {
    /// The directory at that path of the repository.
    Member(String),
    /// The entries of the directory at that path of the repository.
    Members(String),
    /// That directory.
    Entry(P),
    /// That directory and those below it, so many levels in all.
    Tree(P, u32),
}

/// What a `Probe` stands for.
pub enum ProbeView<P> {
    Member(Seq<char>),
    Members(Seq<char>),
    Entry(P),
    Tree(P, u32),
}

impl<P> Probe<P> {
    /// What the probe stands for.
    pub open spec fn view(self) -> ProbeView<P> {
        match self {
            Probe::Member(path) => ProbeView::Member(path@),
            Probe::Members(path) => ProbeView::Members(path@),
            Probe::Entry(dir) => ProbeView::Entry(dir),
            Probe::Tree(dir, levels) => ProbeView::Tree(dir, levels),
        }
    }
}

/// Whether a place is worth looking at: a directory tree of some levels, or no
/// directory tree.
pub open spec fn has_levels<P>(probe: ProbeView<P>) -> bool {
    probe matches ProbeView::Tree(_, levels) ==> levels > 0
}

/// A search for the manifest of a package.
#[derive(Debug)]
pub struct ManifestSearch<P> {
    pending: Vec<Probe<P>>,
}

impl<P> ManifestSearch<P> {
    /// The places still to look at, in order.
    pub closed spec fn queue(&self) -> Seq<ProbeView<P>> {
        Seq::new(
            self.pending@.len(),
            |i: int| self.pending@[self.pending@.len() - 1 - i].view(),
        )
    }

    /// Whether every place still to look at is worth it.
    pub open spec fn wf(&self) -> bool {
        forall|i: int| 0 <= i < self.queue().len() ==> has_levels(#[trigger] self.queue()[i])
    }
}

/// Whether a directory of that name is searched.
pub open spec fn is_searched(name: Seq<char>) -> bool {
    !"."@.is_prefix_of(name) && name != "target"@ && name != "node_modules"@
}

/// Tells whether a directory of that name is searched.
pub fn searches_directory(name: &str) -> (searched: bool)
    ensures
        searched == is_searched(name@),
{
    !starts_with(name, ".") && !same_text(name, "target") && !same_text(name, "node_modules")
}

/// The directories to search among some sub-directories, so many levels each.
pub open spec fn subtrees<P>(children: Seq<(Seq<char>, P)>, levels: u32) -> Seq<ProbeView<P>>
    decreases children.len(),
{
    if children.len() == 0 || levels == 0 {
        Seq::empty()
    } else {
        let rest = subtrees(children.drop_first(), levels);
        if is_searched(children[0].0) {
            seq![ProbeView::Tree(children[0].1, levels)] + rest
        } else {
            rest
        }
    }
}

/// The places that a listing adds to a search.
pub open spec fn listed_probes<P>(
    probe: ProbeView<P>,
    children: Seq<(Seq<char>, P)>,
) -> Seq<ProbeView<P>> {
    match probe {
        ProbeView::Members(_) => children.map_values(
            |child: (Seq<char>, P)| ProbeView::Entry(child.1),
        ),
        ProbeView::Tree(_, levels) if levels > 0 => subtrees(children, (levels - 1) as u32),
        _ => Seq::empty(),
    }
}

/// What the caller calls its sub-directories.
pub open spec fn child_views<P>(children: Seq<(String, P)>) -> Seq<(Seq<char>, P)> {
    children.map_values(|child: (String, P)| (child.0@, child.1))
}

/// The places that a listing adds are worth looking at.
proof fn lemma_listed_have_levels<P>(probe: ProbeView<P>, children: Seq<(Seq<char>, P)>)
    ensures
        forall|i: int|
            0 <= i < listed_probes(probe, children).len() ==> has_levels(
                #[trigger] listed_probes(probe, children)[i],
            ),
{
    if let ProbeView::Tree(_, levels) = probe {
        if levels > 0 {
            lemma_subtrees_have_levels(children, (levels - 1) as u32);
        }
    }
}

/// See `lemma_listed_have_levels`.
proof fn lemma_subtrees_have_levels<P>(children: Seq<(Seq<char>, P)>, levels: u32)
    ensures
        forall|i: int|
            0 <= i < subtrees(children, levels).len() ==> has_levels(
                #[trigger] subtrees(children, levels)[i],
            ),
    decreases children.len(),
{
    if children.len() > 0 {
        let rest = subtrees(children.drop_first(), levels);
        lemma_subtrees_have_levels(children.drop_first(), levels);
        let all = subtrees(children, levels);
        assert forall|i: int| 0 <= i < all.len() implies has_levels(#[trigger] all[i]) by {
            if is_searched(children[0].0) {
                if i > 0 {
                    assert(all[i] == rest[i - 1]);
                }
            } else {
                assert(all[i] == rest[i]);
            }
        }
    }
}

/// What to do after a place was looked at.
#[derive(Debug)]
pub enum NextStep<P> {
    /// The manifest was found there.
    Found(Probe<P>),
    /// The directory there is to be listed.
    List(Probe<P>),
    /// Look at the next place.
    Continue,
}

impl<P> ManifestSearch<P> {
    /// Starts a search of a directory and those below it, so many levels in all.
    pub fn below(dir: P, levels: u32) -> (search: ManifestSearch<P>)
        ensures
            search.queue() == if levels == 0 {
                Seq::empty()
            } else {
                seq![ProbeView::Tree(dir, levels)]
            },
            search.wf(),
    {
        let mut pending: Vec<Probe<P>> = Vec::new();
        if levels > 0 {
            pending.push(Probe::Tree(dir, levels));
        }
        let search = ManifestSearch { pending };
        assert(search.queue() =~= if levels == 0 {
            Seq::empty()
        } else {
            seq![ProbeView::Tree(dir, levels)]
        });
        search
    }

    /// The next place to look at.
    pub fn next(&mut self) -> (probe: Option<Probe<P>>)
        ensures
            match probe {
                Some(p) => old(self).queue().len() > 0 && p.view() == old(self).queue()[0]
                    && final(self).queue() == old(self).queue().drop_first(),
                None => old(self).queue().len() == 0 && final(self).queue() == old(self).queue(),
            },
            old(self).wf() ==> final(self).wf(),
    {
        let ghost before = self.queue();
        let probe = self.pending.pop();
        assert(probe is Some ==> self.queue() =~= before.drop_first());
        assert(probe is None ==> self.queue() =~= before);
        probe
    }

    /// Takes in whether a manifest of the package is at a place: it is found
    /// there, or directories that can hold more are to be listed.
    pub fn looked_at(&self, probe: Probe<P>, named: bool) -> (step: NextStep<P>)
        ensures
            match step {
                NextStep::Found(p) => named && p == probe,
                NextStep::List(p) => !named && p == probe && (probe is Members || probe is Tree),
                NextStep::Continue => !named && (probe is Member || probe is Entry),
            },
    {
        if named {
            return NextStep::Found(probe);
        }
        match probe {
            Probe::Member(_) => NextStep::Continue,
            Probe::Entry(_) => NextStep::Continue,
            Probe::Members(_) => NextStep::List(probe),
            Probe::Tree(_, _) => NextStep::List(probe),
        }
    }

    /// Takes in the listing of a directory: all its entries for a list of
    /// members, its sub-directories for a directory tree.
    pub fn listed(&mut self, probe: &Probe<P>, children: Vec<(String, P)>)
        ensures
            final(self).queue() == listed_probes(probe.view(), child_views(children@)) + old(
                self,
            ).queue(),
            old(self).wf() ==> final(self).wf(),
    {
        proof {
            lemma_listed_have_levels(probe.view(), child_views(children@));
        }
        let ghost all = child_views(children@);
        let ghost before = self.queue();
        let mut rest = children;
        match probe {
            Probe::Members(_) => {
                assert(all.skip(all.len() as int) =~= Seq::empty());
                assert(self.queue() =~= listed_probes(probe.view(), all.skip(rest.len() as int)) + before);
                loop
                    invariant_except_break
                        rest.len() <= all.len(),
                        child_views(rest@) == all.take(rest.len() as int),
                        probe.view() is Members,
                        self.queue() == listed_probes(probe.view(), all.skip(rest.len() as int))
                            + before,
                    ensures
                        self.queue() == listed_probes(probe.view(), all) + before,
                    decreases rest.len(),
                {
                    let ghost shown = child_views(rest@);
                    let ghost count = rest.len() as int;
                    let ghost so_far = self.queue();
                    match rest.pop() {
                        Some(child) => {
                            proof {
                                assert(shown[count - 1] == (child.0@, child.1));
                                assert(all[count - 1] == shown[count - 1]);
                                assert(child_views(rest@) =~= all.take(count - 1));
                                assert(all.skip(count - 1) =~= seq![all[count - 1]] + all.skip(count));
                            }
                            self.pending.push(Probe::Entry(child.1));
                            assert(self.queue() =~= seq![ProbeView::Entry(child.1)] + so_far);
                            assert(self.queue() =~= listed_probes(
                                probe.view(),
                                all.skip(count - 1),
                            ) + before);
                        },
                        None => {
                            assert(all.skip(0) =~= all);
                            break ;
                        },
                    }
                }
            },
            Probe::Tree(_, levels) => {
                if *levels <= 1 {
                    assert(self.queue() =~= listed_probes(probe.view(), all) + before);
                    return ;
                }
                let below: u32 = *levels - 1;
                assert(all.skip(all.len() as int) =~= Seq::empty());
                assert(self.queue() =~= subtrees(all.skip(rest.len() as int), below) + before);
                loop
                    invariant_except_break
                        rest.len() <= all.len(),
                        below > 0,
                        child_views(rest@) == all.take(rest.len() as int),
                        self.queue() == subtrees(all.skip(rest.len() as int), below) + before,
                    ensures
                        self.queue() == subtrees(all, below) + before,
                    decreases rest.len(),
                {
                    let ghost shown = child_views(rest@);
                    let ghost count = rest.len() as int;
                    let ghost so_far = self.queue();
                    match rest.pop() {
                        Some(child) => {
                            proof {
                                assert(shown[count - 1] == (child.0@, child.1));
                                assert(all[count - 1] == shown[count - 1]);
                                assert(child_views(rest@) =~= all.take(count - 1));
                                assert(all.skip(count - 1).drop_first() =~= all.skip(count));
                            }
                            if searches_directory(child.0.as_str()) {
                                self.pending.push(Probe::Tree(child.1, below));
                                assert(self.queue() =~= seq![ProbeView::Tree(child.1, below)] + so_far);
                            }
                            assert(self.queue() =~= subtrees(all.skip(count - 1), below) + before);
                        },
                        None => {
                            assert(all.skip(0) =~= all);
                            break ;
                        },
                    }
                }
            },
            _ => {
                assert(self.queue() =~= listed_probes(probe.view(), all) + before);
            },
        }
    }
}

/// The place to look at for a member of a repository: its directory, or, where
/// the path has a `*`, the entries of the directory before it.
pub open spec fn member_probe<P>(member: Seq<char>) -> ProbeView<P> {
    if split_first(member, '*') is Some {
        ProbeView::Members(before_first(member, '*'))
    } else {
        ProbeView::Member(member)
    }
}

/// The members that the root manifest of a repository lists.
pub open spec fn repository_members(root: Option<TomlView>) -> Seq<Seq<char>> {
    match root {
        Some(document) => match document.get("workspace"@) {
            Some(workspace) => workspace.texts_at("members"@),
            None => Seq::empty(),
        },
        None => Seq::empty(),
    }
}

/// How many levels of a repository are searched.
pub const REPOSITORY_LEVELS: u32 = 4;

/// The places to look at in a repository: those of its members, then all of it.
pub open spec fn repository_probes<P>(root: Option<TomlView>, dir: P) -> Seq<ProbeView<P>> {
    repository_members(root).map_values(|member: Seq<char>| member_probe(member)).push(
        ProbeView::Tree(dir, REPOSITORY_LEVELS),
    )
}

/// The start of a search of a repository.
#[derive(Debug)]
pub enum RepositorySearch<P> {
    /// The root manifest is that of the package.
    AtRoot(P),
    /// The repository is to be searched.
    Search(ManifestSearch<P>),
}

/// Starts a search of a repository, given its root manifest if it has one.
pub fn find_crate_in_git_source<P>(
    root: Option<&Toml>,
    crate_name: &str,
    dir: P,
) -> (search: RepositorySearch<P>)
    ensures
        match search {
            RepositorySearch::AtRoot(at) => at == dir && (root.deep_view() matches Some(document)
                && is_manifest_of(document, crate_name@)),
            RepositorySearch::Search(s) => s.wf() && !(root.deep_view() matches Some(document)
                && is_manifest_of(document, crate_name@)) && s.queue() == repository_probes(
                root.deep_view(),
                dir,
            ),
        },
{
    let mut members: Vec<String> = Vec::new();
    if let Some(document) = root {
        if document_is_named(document, crate_name) {
            return RepositorySearch::AtRoot(dir);
        }
        if let Some(workspace) = document.get("workspace") {
            members = workspace.texts_at("members");
        }
    }
    let ghost listed = repository_members(root.deep_view());
    let ghost probes = listed.map_values(|member: Seq<char>| member_probe::<P>(member));
    let ghost whole = repository_probes(root.deep_view(), dir);
    assert(members.deep_view() =~= listed);
    let mut search: ManifestSearch<P> = ManifestSearch { pending: Vec::new() };
    search.pending.push(Probe::Tree(dir, REPOSITORY_LEVELS));
    let mut i: usize = members.len();
    assert(search.queue() =~= whole.skip(i as int));
    while i > 0
        invariant
            i <= members.len(),
            members.deep_view() == listed,
            listed == repository_members(root.deep_view()),
            whole == repository_probes(root.deep_view(), dir),
            search.queue() == whole.skip(i as int),
        decreases i,
    {
        i = i - 1;
        let ghost so_far = search.queue();
        let member: &str = members[i].as_str();
        assert(listed[i as int] == member@);
        let probe: Probe<P> = match split_at_first(member, '*') {
            Some((before, _)) => Probe::Members(before.to_owned()),
            None => Probe::Member(member.to_owned()),
        };
        assert(probe.view() == whole[i as int]);
        search.pending.push(probe);
        assert(search.queue() =~= seq![probe.view()] + so_far);
        assert(search.queue() =~= whole.skip(i as int));
    }
    assert(whole.skip(0) =~= whole);
    RepositorySearch::Search(search)
}

/// What a search meets with: where the manifest of the package is, and what the
/// listings of directories hold.
#[verifier::reject_recursive_types(P)]
pub struct Files<P> {
    /// Whether the manifest is in the directory at that path of the repository.
    pub member_named: spec_fn(Seq<char>) -> bool,
    /// Whether the manifest is in that directory.
    pub named: spec_fn(P) -> bool,
    /// The entries of the directory at that path of the repository.
    pub entries: spec_fn(Seq<char>) -> Seq<(Seq<char>, P)>,
    /// The sub-directories of that directory.
    pub subdirectories: spec_fn(P) -> Seq<(Seq<char>, P)>,
}

/// Where a manifest was found.
pub enum Place<P> {
    Member(Seq<char>),
    Directory(P),
}

/// The first manifest in a directory and those below it, so many levels in all:
/// the directory comes first, then each sub-directory that is searched, with
/// all below it, in the order of the listing.
pub open spec fn in_tree<P>(files: Files<P>, dir: P, levels: nat) -> Option<Place<P>>
    decreases levels, 0nat,
{
    if levels == 0 {
        None
    } else if (files.named)(dir) {
        Some(Place::Directory(dir))
    } else {
        in_forest(files, (files.subdirectories)(dir), (levels - 1) as nat)
    }
}

/// The first manifest in some directories and those below them.
pub open spec fn in_forest<P>(
    files: Files<P>,
    dirs: Seq<(Seq<char>, P)>,
    levels: nat,
) -> Option<Place<P>>
    decreases levels, dirs.len() + 1,
{
    if dirs.len() == 0 {
        None
    } else {
        let first = if is_searched(dirs[0].0) {
            in_tree(files, dirs[0].1, levels)
        } else {
            None
        };
        match first {
            Some(place) => Some(place),
            None => in_forest(files, dirs.drop_first(), levels),
        }
    }
}

/// The first manifest in some directories.
pub open spec fn in_entries<P>(files: Files<P>, dirs: Seq<(Seq<char>, P)>) -> Option<Place<P>>
    decreases dirs.len(),
{
    if dirs.len() == 0 {
        None
    } else if (files.named)(dirs[0].1) {
        Some(Place::Directory(dirs[0].1))
    } else {
        in_entries(files, dirs.drop_first())
    }
}

/// The first manifest at a place to look at.
pub open spec fn at_probe<P>(files: Files<P>, probe: ProbeView<P>) -> Option<Place<P>> {
    match probe {
        ProbeView::Member(path) => if (files.member_named)(path) {
            Some(Place::Member(path))
        } else {
            None
        },
        ProbeView::Members(path) => in_entries(files, (files.entries)(path)),
        ProbeView::Entry(dir) => if (files.named)(dir) {
            Some(Place::Directory(dir))
        } else {
            None
        },
        ProbeView::Tree(dir, levels) => in_tree(files, dir, levels as nat),
    }
}

/// The first manifest at some places to look at.
pub open spec fn in_queue<P>(files: Files<P>, queue: Seq<ProbeView<P>>) -> Option<Place<P>>
    decreases queue.len(),
{
    if queue.len() == 0 {
        None
    } else {
        match at_probe(files, queue[0]) {
            Some(place) => Some(place),
            None => in_queue(files, queue.drop_first()),
        }
    }
}

/// Whether looking at a place finds the manifest there.
pub open spec fn is_named_at<P>(files: Files<P>, probe: ProbeView<P>) -> bool {
    match probe {
        ProbeView::Member(path) => (files.member_named)(path),
        ProbeView::Members(_) => false,
        ProbeView::Entry(dir) => (files.named)(dir),
        ProbeView::Tree(dir, _) => (files.named)(dir),
    }
}

/// What listing a place shows.
pub open spec fn listing_at<P>(files: Files<P>, probe: ProbeView<P>) -> Seq<(Seq<char>, P)> {
    match probe {
        ProbeView::Members(path) => (files.entries)(path),
        ProbeView::Tree(dir, _) => (files.subdirectories)(dir),
        _ => Seq::empty(),
    }
}

/// Places one after the other.
proof fn lemma_in_queue_concat<P>(
    files: Files<P>,
    first: Seq<ProbeView<P>>,
    rest: Seq<ProbeView<P>>,
)
    ensures
        in_queue(files, first + rest) == match in_queue(files, first) {
            Some(place) => Some(place),
            None => in_queue(files, rest),
        },
    decreases first.len(),
{
    if first.len() == 0 {
        assert(first + rest =~= rest);
    } else {
        lemma_in_queue_concat(files, first.drop_first(), rest);
        assert((first + rest).drop_first() =~= first.drop_first() + rest);
    }
}

/// Searching sub-directories is searching their trees.
proof fn lemma_in_subtrees<P>(files: Files<P>, dirs: Seq<(Seq<char>, P)>, levels: u32)
    ensures
        in_queue(files, subtrees(dirs, levels)) == in_forest(files, dirs, levels as nat),
    decreases dirs.len(),
{
    if dirs.len() > 0 {
        lemma_in_subtrees(files, dirs.drop_first(), levels);
        if levels > 0 && is_searched(dirs[0].0) {
            let first = seq![ProbeView::Tree(dirs[0].1, levels)];
            lemma_in_queue_concat(files, first, subtrees(dirs.drop_first(), levels));
            assert(first.drop_first() =~= Seq::empty());
            assert(in_queue(files, first.drop_first()) is None);
            assert(in_queue(files, first) == in_tree(files, dirs[0].1, levels as nat));
        }
    }
}

/// Searching entries is looking at each.
proof fn lemma_in_entries<P>(files: Files<P>, dirs: Seq<(Seq<char>, P)>)
    ensures
        in_queue(
            files,
            dirs.map_values(|child: (Seq<char>, P)| ProbeView::Entry(child.1)),
        ) == in_entries(files, dirs),
    decreases dirs.len(),
{
    if dirs.len() > 0 {
        let probes = dirs.map_values(|child: (Seq<char>, P)| ProbeView::Entry(child.1));
        lemma_in_entries(files, dirs.drop_first());
        assert(probes.drop_first() =~= dirs.drop_first().map_values(
            |child: (Seq<char>, P)| ProbeView::Entry(child.1),
        ));
    }
}

/// A search ends at the first manifest in its places. Looking at the next place
/// finds it, or leaves a search with the same end: that of the places that the
/// listing adds and of the places that were left.
pub proof fn law_search_step<P>(files: Files<P>, queue: Seq<ProbeView<P>>)
    requires
        queue.len() > 0,
        has_levels(queue[0]),
    ensures
        is_named_at(files, queue[0]) ==> in_queue(files, queue) == at_probe(files, queue[0])
            && at_probe(files, queue[0]) is Some,
        !is_named_at(files, queue[0]) ==> in_queue(files, queue) == in_queue(
            files,
            listed_probes(queue[0], listing_at(files, queue[0])) + queue.drop_first(),
        ),
{
    let probe = queue[0];
    let added = listed_probes(probe, listing_at(files, probe));
    lemma_in_queue_concat(files, added, queue.drop_first());
    match probe {
        ProbeView::Members(path) => {
            lemma_in_entries(files, (files.entries)(path));
        },
        ProbeView::Tree(dir, levels) => {
            lemma_in_subtrees(files, (files.subdirectories)(dir), (levels - 1) as u32);
        },
        _ => {},
    }
}

/// The number of places that a search of a directory and those below it looks
/// at.
pub open spec fn tree_work<P>(files: Files<P>, dir: P, levels: nat) -> nat
    decreases levels, 0nat,
{
    if levels == 0 {
        0
    } else {
        1 + forest_work(files, (files.subdirectories)(dir), (levels - 1) as nat)
    }
}

/// The number of places that a search of some directories and those below them
/// looks at.
pub open spec fn forest_work<P>(files: Files<P>, dirs: Seq<(Seq<char>, P)>, levels: nat) -> nat
    decreases levels, dirs.len() + 1,
{
    if dirs.len() == 0 {
        0
    } else {
        let first = if is_searched(dirs[0].0) {
            tree_work(files, dirs[0].1, levels)
        } else {
            0
        };
        first + forest_work(files, dirs.drop_first(), levels)
    }
}

/// The number of places that a search with these places to look at still looks
/// at, if it finds nothing.
pub open spec fn queue_work<P>(files: Files<P>, queue: Seq<ProbeView<P>>) -> nat
    decreases queue.len(),
{
    if queue.len() == 0 {
        0
    } else {
        let first = match queue[0] {
            ProbeView::Member(_) => 1,
            ProbeView::Members(path) => 1 + (files.entries)(path).len(),
            ProbeView::Entry(_) => 1,
            ProbeView::Tree(dir, levels) => tree_work(files, dir, levels as nat),
        };
        first + queue_work(files, queue.drop_first())
    }
}

/// See `law_search_ends`.
proof fn lemma_queue_work_concat<P>(
    files: Files<P>,
    first: Seq<ProbeView<P>>,
    rest: Seq<ProbeView<P>>,
)
    ensures
        queue_work(files, first + rest) == queue_work(files, first) + queue_work(files, rest),
    decreases first.len(),
{
    if first.len() == 0 {
        assert(first + rest =~= rest);
    } else {
        lemma_queue_work_concat(files, first.drop_first(), rest);
        assert((first + rest).drop_first() =~= first.drop_first() + rest);
    }
}

/// See `law_search_ends`.
proof fn lemma_subtrees_work<P>(files: Files<P>, dirs: Seq<(Seq<char>, P)>, levels: u32)
    ensures
        queue_work(files, subtrees(dirs, levels)) == forest_work(files, dirs, levels as nat),
    decreases dirs.len(),
{
    if dirs.len() > 0 {
        lemma_subtrees_work(files, dirs.drop_first(), levels);
        if levels > 0 && is_searched(dirs[0].0) {
            let all = subtrees(dirs, levels);
            assert(all[0] == ProbeView::Tree(dirs[0].1, levels));
            assert(all.drop_first() =~= subtrees(dirs.drop_first(), levels));
        } else if levels == 0 {
            assert(tree_work(files, dirs[0].1, 0) == 0);
            assert(subtrees(dirs.drop_first(), levels) =~= Seq::empty());
        }
    }
}

/// See `law_search_ends`.
proof fn lemma_entries_work<P>(files: Files<P>, dirs: Seq<(Seq<char>, P)>)
    ensures
        queue_work(
            files,
            dirs.map_values(|child: (Seq<char>, P)| ProbeView::Entry(child.1)),
        ) == dirs.len(),
    decreases dirs.len(),
{
    if dirs.len() > 0 {
        let probes = dirs.map_values(|child: (Seq<char>, P)| ProbeView::Entry(child.1));
        lemma_entries_work(files, dirs.drop_first());
        assert(probes.drop_first() =~= dirs.drop_first().map_values(
            |child: (Seq<char>, P)| ProbeView::Entry(child.1),
        ));
    }
}

/// A search comes to an end: each place looked at leaves one fewer to look at,
/// those that its listing adds counted in.
pub proof fn law_search_ends<P>(files: Files<P>, queue: Seq<ProbeView<P>>)
    requires
        queue.len() > 0,
        has_levels(queue[0]),
    ensures
        queue_work(
            files,
            listed_probes(queue[0], listing_at(files, queue[0])) + queue.drop_first(),
        ) + 1 == queue_work(files, queue),
{
    let probe = queue[0];
    let added = listed_probes(probe, listing_at(files, probe));
    lemma_queue_work_concat(files, added, queue.drop_first());
    match probe {
        ProbeView::Members(path) => {
            lemma_entries_work(files, (files.entries)(path));
        },
        ProbeView::Tree(dir, levels) => {
            lemma_subtrees_work(files, (files.subdirectories)(dir), (levels - 1) as u32);
        },
        _ => {},
    }
}

/// A search of a directory and those below it ends at the first manifest there.
pub proof fn law_search_below<P>(files: Files<P>, dir: P, levels: u32)
    requires
        levels > 0,
    ensures
        in_queue(files, seq![ProbeView::Tree(dir, levels)]) == in_tree(files, dir, levels as nat),
{
    let queue = seq![ProbeView::Tree(dir, levels)];
    assert(queue.drop_first() =~= Seq::empty());
    assert(in_queue(files, queue.drop_first()) is None);
}

/// Whether the manifest is at a place.
pub open spec fn is_at<P>(files: Files<P>, place: Place<P>) -> bool {
    match place {
        Place::Member(path) => (files.member_named)(path),
        Place::Directory(dir) => (files.named)(dir),
    }
}

/// See `law_found_is_there`.
proof fn lemma_tree_sound<P>(files: Files<P>, dir: P, levels: nat)
    ensures
        in_tree(files, dir, levels) matches Some(place) ==> is_at(files, place),
    decreases levels, 0nat,
{
    if levels > 0 && !(files.named)(dir) {
        lemma_forest_sound(files, (files.subdirectories)(dir), (levels - 1) as nat);
    }
}

/// See `law_found_is_there`.
proof fn lemma_forest_sound<P>(files: Files<P>, dirs: Seq<(Seq<char>, P)>, levels: nat)
    ensures
        in_forest(files, dirs, levels) matches Some(place) ==> is_at(files, place),
    decreases levels, dirs.len() + 1,
{
    if dirs.len() > 0 {
        lemma_tree_sound(files, dirs[0].1, levels);
        lemma_forest_sound(files, dirs.drop_first(), levels);
    }
}

/// See `law_found_is_there`.
proof fn lemma_entries_sound<P>(files: Files<P>, dirs: Seq<(Seq<char>, P)>)
    ensures
        in_entries(files, dirs) matches Some(place) ==> is_at(files, place),
    decreases dirs.len(),
{
    if dirs.len() > 0 {
        lemma_entries_sound(files, dirs.drop_first());
    }
}

/// Where a search ends with a place, the manifest is at that place.
pub proof fn law_found_is_there<P>(files: Files<P>, queue: Seq<ProbeView<P>>)
    ensures
        in_queue(files, queue) matches Some(place) ==> is_at(files, place),
    decreases queue.len(),
{
    if queue.len() > 0 {
        match queue[0] {
            ProbeView::Members(path) => {
                lemma_entries_sound(files, (files.entries)(path));
            },
            ProbeView::Tree(dir, levels) => {
                lemma_tree_sound(files, dir, levels as nat);
            },
            _ => {},
        }
        law_found_is_there(files, queue.drop_first());
    }
}

/// See `law_deeper_search_finds`.
proof fn lemma_deeper_forest<P>(
    files: Files<P>,
    dirs: Seq<(Seq<char>, P)>,
    levels: nat,
    deeper: nat,
)
    requires
        levels <= deeper,
        in_forest(files, dirs, levels) is Some,
    ensures
        in_forest(files, dirs, deeper) is Some,
    decreases levels, dirs.len() + 1,
{
    if is_searched(dirs[0].0) && in_tree(files, dirs[0].1, levels) is Some {
        law_deeper_search_finds(files, dirs[0].1, levels, deeper);
    } else {
        lemma_deeper_forest(files, dirs.drop_first(), levels, deeper);
    }
}

/// A search of more levels finds a manifest wherever one of fewer levels does.
pub proof fn law_deeper_search_finds<P>(files: Files<P>, dir: P, levels: nat, deeper: nat)
    requires
        levels <= deeper,
        in_tree(files, dir, levels) is Some,
    ensures
        in_tree(files, dir, deeper) is Some,
    decreases levels, 0nat,
{
    if !(files.named)(dir) {
        lemma_deeper_forest(
            files,
            (files.subdirectories)(dir),
            (levels - 1) as nat,
            (deeper - 1) as nat,
        );
    }
}

} // verus!
