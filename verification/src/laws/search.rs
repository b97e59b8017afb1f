//! Laws of the search for manifests.

use crate::laws::text::law_split_first;
use crate::origin::WORKSPACE_LEVELS;
use crate::search::{
    child_views, in_entries, in_forest, in_tree, is_searched, listed_probes, repository_probes,
    Files, Place, ProbeView, REPOSITORY_LEVELS,
};
use crate::text::{before_first, split_first};
use crate::toml_value::TomlView;
use vstd::prelude::*;

verus! {

/// Every directory is searched but hidden ones, build directories and those of
/// installed modules.
pub proof fn law_searched_directories(name: Seq<char>)
    ensures
        is_searched(name) <==> !(name.len() > 0 && name[0] == '.') && name != "target"@ && name
            != "node_modules"@,
{
    reveal_strlit(".");
    assert("."@.len() == 1 && "."@[0] == '.');
    if name.len() > 0 && name[0] == '.' {
        assert("."@ =~= name.subrange(0, 1));
    }
}

/// The listing of a directory tree adds the trees of its sub-directories, one level
/// less each, in order and but for those that are not searched; at the last level
/// it adds nothing.
pub proof fn law_listing_of_tree<P>(
    dir: P,
    levels: u32,
    child: (Seq<char>, P),
    others: Seq<(Seq<char>, P)>,
)
    requires
        levels > 0,
    ensures
        ({
            let all = listed_probes(ProbeView::Tree(dir, levels), seq![child] + others);
            let rest = listed_probes(ProbeView::Tree(dir, levels), others);
            &&& levels > 1 && is_searched(child.0) ==> all == seq![
                ProbeView::Tree(child.1, (levels - 1) as u32),
            ] + rest
            &&& levels == 1 || !is_searched(child.0) ==> all == rest
        }),
        listed_probes(ProbeView::Tree(dir, levels), Seq::empty()).len() == 0,
{
    let children = seq![child] + others;
    assert(children.drop_first() =~= others);
    assert(children[0] == child);
    if levels == 1 {
        assert(listed_probes(ProbeView::Tree(dir, levels), children) =~= Seq::empty());
        assert(listed_probes(ProbeView::Tree(dir, levels), others) =~= Seq::empty());
    }
}

/// The listing of the entries of a directory adds each of them, in order; that of
/// anything else adds nothing.
pub proof fn law_listing_of_entries<P>(path: Seq<char>, dir: P, children: Seq<(Seq<char>, P)>)
    ensures
        ({
            let added = listed_probes(ProbeView::Members(path), children);
            &&& added.len() == children.len()
            &&& forall|i: int|
                0 <= i < children.len() ==> #[trigger] added[i] == ProbeView::Entry(children[i].1)
        }),
        listed_probes(ProbeView::<P>::Member(path), children).len() == 0,
        listed_probes(ProbeView::Entry(dir), children).len() == 0,
{
}

/// The manifest in a directory comes before those below it, and without levels
/// there is none to find.
pub proof fn law_directory_first<P>(files: Files<P>, dir: P, levels: nat)
    ensures
        levels == 0 ==> in_tree(files, dir, levels) is None,
        levels > 0 && (files.named)(dir) ==> in_tree(files, dir, levels) == Some(
            Place::Directory(dir),
        ),
        levels > 0 && !(files.named)(dir) ==> in_tree(files, dir, levels) == in_forest(
            files,
            (files.subdirectories)(dir),
            (levels - 1) as nat,
        ),
{
}

/// Of several directories the first one that has a manifest in it or below it
/// counts, but for those that are not searched.
pub proof fn law_directories_in_order<P>(
    files: Files<P>,
    child: (Seq<char>, P),
    others: Seq<(Seq<char>, P)>,
    levels: nat,
)
    ensures
        in_forest(files, Seq::empty(), levels) is None,
        is_searched(child.0) && in_tree(files, child.1, levels) is Some ==> in_forest(
            files,
            seq![child] + others,
            levels,
        ) == in_tree(files, child.1, levels),
        !is_searched(child.0) || in_tree(files, child.1, levels) is None ==> in_forest(
            files,
            seq![child] + others,
            levels,
        ) == in_forest(files, others, levels),
        in_entries(files, seq![child] + others) == if (files.named)(child.1) {
            Some(Place::Directory(child.1))
        } else {
            in_entries(files, others)
        },
        in_entries(files, Seq::empty()) is None,
{
    let all = seq![child] + others;
    assert(all.drop_first() =~= others);
    assert(all[0] == child);
}

/// A repository is searched first where its root manifest lists members, in that
/// order: in the directory of each, or, where there is a `*` in its path, in the
/// entries of the directory before it. Then all of it is searched, four levels
/// deep; a workspace is searched five levels deep.
pub proof fn law_repository_places<P>(root: TomlView, workspace: TomlView, dir: P)
    requires
        root.get("workspace"@) == Some(workspace),
    ensures
        ({
            let members = workspace.texts_at("members"@);
            let places = repository_probes(Some(root), dir);
            &&& places.len() == members.len() + 1
            &&& forall|i: int|
                0 <= i < members.len() ==> #[trigger] places[i] == if members[i].contains('*') {
                    ProbeView::<P>::Members(before_first(members[i], '*'))
                } else {
                    ProbeView::<P>::Member(members[i])
                }
            &&& places.last() == ProbeView::Tree(dir, 4)
        }),
        WORKSPACE_LEVELS == 5,
        REPOSITORY_LEVELS == 4,
{
    let members = workspace.texts_at("members"@);
    let places = repository_probes(Some(root), dir);
    assert forall|i: int| 0 <= i < members.len() implies #[trigger] places[i]
        == if members[i].contains('*') {
        ProbeView::<P>::Members(before_first(members[i], '*'))
    } else {
        ProbeView::<P>::Member(members[i])
    } by {
        law_split_first(members[i], '*');
        if let Some((before, after)) = split_first(members[i], '*') {
            assert(members[i][before.len() as int] == '*');
        }
    }
}

/// A repository without a root manifest, or whose root manifest has no
/// `[workspace]` table, is searched as a whole at once.
pub proof fn law_plain_repository<P>(root: Option<TomlView>, dir: P)
    requires
        root matches Some(document) ==> document.get("workspace"@) is None,
    ensures
        repository_probes(root, dir) == seq![ProbeView::Tree(dir, 4)],
{
    assert(repository_probes(root, dir) =~= seq![ProbeView::Tree(dir, 4)]);
}

/// The sub-directories that a caller lists are taken with their names, in order.
pub proof fn law_children_taken<P>(children: Seq<(String, P)>)
    ensures
        child_views(children).len() == children.len(),
        forall|i: int|
            0 <= i < children.len() ==> (#[trigger] child_views(children)[i]).0 == children[i].0@
                && child_views(children)[i].1 == children[i].1,
{
}

} // verus!
