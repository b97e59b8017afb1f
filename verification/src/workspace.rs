//! The members of a workspace.

use crate::error::LockfileError;
use crate::manifest::{text_in, text_or};
use crate::seqs::{first_index, lemma_first_index_at, lemma_first_index_none};
use crate::text::{own_optional, same_text};
use crate::toml_value::{parse_toml, toml_document, Toml, TomlView};
use vstd::prelude::*;

verus! {

/// What a root manifest passes on to the members of its workspace: the package
/// settings and the dependencies.
pub open spec fn passed_on(root: TomlView) -> (Option<TomlView>, Option<TomlView>) {
    match root.get("workspace"@) {
        Some(workspace) => (workspace.get("package"@), workspace.get("dependencies"@)),
        None => (None, None),
    }
}

/// What a root manifest passes on to the members of its workspace.
pub fn workspace_context<'a>(root: &'a Toml) -> (context: (Option<&'a Toml>, Option<&'a Toml>))
    ensures
        context.deep_view() == passed_on(root.deep_view()),
{
    match root.get("workspace") {
        Some(workspace) => (workspace.get("package"), workspace.get("dependencies")),
        None => (None, None),
    }
}

/// Reads a root manifest for what it passes on. Without a text, and from a text
/// that is not TOML, nothing is passed on.
pub fn read_workspace_root(text: Option<&str>) -> (root: Option<Toml>)
    ensures
        root.deep_view() == match text {
            Some(t) => match toml_document(t@) {
                Ok(document) => Some(document),
                Err(_) => None,
            },
            None => None,
        },
{
    match text {
        Some(t) => match parse_toml(t) {
            Ok(root) => Some(root),
            Err(_) => None,
        },
        None => None,
    }
}

/// The entries of the list of workspace members, each a path if it is a string.
pub open spec fn member_entries(root: TomlView) -> Option<Seq<Option<Seq<char>>>> {
    match root.get("workspace"@) {
        Some(workspace) => match workspace.items_at("members"@) {
            Some(items) => Some(items.map_values(|item: TomlView| item.text())),
            None => None,
        },
        None => None,
    }
}

/// Lists the entries of the list of workspace members.
pub fn list_member_entries(root: &Toml) -> (entries: Result<Vec<Option<String>>, LockfileError>)
    ensures
        match entries {
            Ok(list) => member_entries(root.deep_view()) == Some(list.deep_view()),
            Err(LockfileError::MissingMembers) => member_entries(root.deep_view()) is None,
            Err(_) => false,
        },
{
    let workspace = match root.get("workspace") {
        Some(w) => w,
        None => {
            return Err(LockfileError::MissingMembers);
        },
    };
    let items = match workspace.array_at("members") {
        Some(i) => i,
        None => {
            return Err(LockfileError::MissingMembers);
        },
    };
    let ghost views = items.deep_view().map_values(|item: TomlView| item.text());
    let mut list: Vec<Option<String>> = Vec::new();
    let mut i: usize = 0;
    while i < items.len()
        invariant
            i <= items.len(),
            views == items.deep_view().map_values(|item: TomlView| item.text()),
            list.len() == i,
            forall|j: int| 0 <= j < i ==> (#[trigger] list@[j]).deep_view() == views[j],
        decreases items.len() - i,
    {
        list.push(own_optional(items[i].as_str()));
        i = i + 1;
    }
    assert(list.deep_view() =~= views);
    Ok(list)
}

/// What was found at an entry of the list of workspace members.
#[derive(Debug)]
pub enum MemberRead {
    /// The entry is not a string.
    NotText,
    /// There is no manifest.
    Missing,
    /// The manifest cannot be read.
    Unreadable,
    /// The manifest is not TOML, as that error says.
    Broken(toml::de::Error),
    /// The manifest, and the name of the directory that it is in.
    Manifest {
        /// The manifest.
        document: Toml,
        /// The name of the directory.
        directory: Option<String>,
    },
}

/// What a `MemberRead` stands for.
#[verifier::ext_equal]
pub enum MemberReadView {
    NotText,
    Missing,
    Unreadable,
    Broken(toml::de::Error),
    Manifest { document: TomlView, directory: Option<Seq<char>> },
}

impl DeepView for MemberRead {
    type V = MemberReadView;

    open spec fn deep_view(&self) -> MemberReadView {
        match self {
            MemberRead::NotText => MemberReadView::NotText,
            MemberRead::Missing => MemberReadView::Missing,
            MemberRead::Unreadable => MemberReadView::Unreadable,
            MemberRead::Broken(error) => MemberReadView::Broken(*error),
            MemberRead::Manifest { document, directory } => MemberReadView::Manifest {
                document: document.deep_view(),
                directory: directory.deep_view(),
            },
        }
    }
}

/// Takes in the text of a member's manifest.
pub fn read_member(text: &str, directory: Option<String>) -> (read: MemberRead)
    ensures
        read.deep_view() == match toml_document(text@) {
            Ok(document) => MemberReadView::Manifest {
                document,
                directory: directory.deep_view(),
            },
            Err(cause) => MemberReadView::Broken(cause),
        },
{
    match parse_toml(text) {
        Ok(document) => MemberRead::Manifest { document, directory },
        Err(error) => MemberRead::Broken(error),
    }
}

/// The name of a member: that of its package, else that of its directory.
pub open spec fn member_name(document: TomlView, directory: Option<Seq<char>>) -> Seq<char> {
    text_or(text_in(document.get("package"@), "name"@), text_or(directory, "unknown"@))
}

/// Why the members of a workspace cannot be listed.
pub enum MemberFault {
    /// An entry is not a string.
    NotText,
    /// The manifest at that entry cannot be read.
    Unreadable(int),
    /// The manifest at that entry is not TOML.
    Broken(int),
}

/// The members of a workspace as names and positions in the list of members, or
/// what is wrong with the first entry at which something is. Entries without a
/// manifest are passed over.
pub open spec fn members(reads: Seq<MemberReadView>) -> Result<Seq<(Seq<char>, int)>, MemberFault>
    decreases reads.len(),
{
    if reads.len() == 0 {
        Ok(Seq::empty())
    } else {
        match members(reads.drop_last()) {
            Err(fault) => Err(fault),
            Ok(found) => match reads.last() {
                MemberReadView::NotText => Err(MemberFault::NotText),
                MemberReadView::Missing => Ok(found),
                MemberReadView::Unreadable => Err(MemberFault::Unreadable(reads.len() - 1)),
                MemberReadView::Broken(_) => Err(MemberFault::Broken(reads.len() - 1)),
                MemberReadView::Manifest { document, directory } => Ok(
                    found.push((member_name(document, directory), reads.len() - 1)),
                ),
            },
        }
    }
}

/// A member of a workspace.
#[derive(Debug)]
pub struct WorkspaceMember {
    /// Its name.
    pub name: String,
    /// Its position in the list of members.
    pub entry: usize,
}

impl DeepView for WorkspaceMember {
    type V = (Seq<char>, int);

    open spec fn deep_view(&self) -> (Seq<char>, int) {
        (self.name@, self.entry as int)
    }
}

/// Whether an error reports a fault.
pub open spec fn reports_member(error: LockfileError, fault: MemberFault) -> bool {
    match fault {
        MemberFault::NotText => error is MemberNotText,
        MemberFault::Unreadable(at) => error matches LockfileError::MemberUnreadable(i) && i == at,
        MemberFault::Broken(at) => error matches LockfileError::MemberSyntax(i) && i == at,
    }
}

/// What stands wrong with the first entries stands wrong with all of them.
proof fn lemma_fault_stays(reads: Seq<MemberReadView>, n: int)
    requires
        0 <= n <= reads.len(),
        members(reads.take(n)) is Err,
    ensures
        members(reads) == members(reads.take(n)),
    decreases reads.len(),
{
    if n == reads.len() {
        assert(reads.take(n) =~= reads);
    } else {
        assert(reads.drop_last().take(n) =~= reads.take(n));
        lemma_fault_stays(reads.drop_last(), n);
    }
}

/// The name of a member.
fn name_member(document: &Toml, directory: &Option<String>) -> (name: String)
    ensures
        name@ == member_name(document.deep_view(), directory.deep_view()),
{
    let own: Option<&str> = match document.get("package") {
        Some(package) => package.text_at("name"),
        None => None,
    };
    match own {
        Some(name) => name.to_owned(),
        None => match directory {
            Some(name) => name.clone(),
            None => "unknown".to_owned(),
        },
    }
}

/// Lists the members of a workspace.
pub fn get_workspace_members(
    reads: &Vec<MemberRead>,
) -> (list: Result<Vec<WorkspaceMember>, LockfileError>)
    ensures
        match (list, members(reads.deep_view())) {
            (Ok(l), Ok(view)) => l.deep_view() == view,
            (Err(error), Err(fault)) => reports_member(error, fault),
            _ => false,
        },
{
    let ghost all = reads.deep_view();
    let mut list: Vec<WorkspaceMember> = Vec::new();
    let mut i: usize = 0;
    assert(list.deep_view() =~= Seq::empty());
    assert(all.take(0) =~= Seq::empty());
    while i < reads.len()
        invariant
            i <= reads.len(),
            all == reads.deep_view(),
            members(all.take(i as int)) == Ok::<Seq<(Seq<char>, int)>, MemberFault>(
                list.deep_view(),
            ),
        decreases reads.len() - i,
    {
        let ghost before = list.deep_view();
        proof {
            assert(all.take(i + 1).drop_last() =~= all.take(i as int));
            assert(all.take(i + 1).last() == reads@[i as int].deep_view());
            if members(all.take(i + 1)) is Err {
                lemma_fault_stays(all, i + 1);
            }
        }
        match &reads[i] {
            MemberRead::NotText => {
                return Err(LockfileError::MemberNotText);
            },
            MemberRead::Missing => {},
            MemberRead::Unreadable => {
                return Err(LockfileError::MemberUnreadable(i));
            },
            MemberRead::Broken(_) => {
                return Err(LockfileError::MemberSyntax(i));
            },
            MemberRead::Manifest { document, directory } => {
                let member = WorkspaceMember { name: name_member(document, directory), entry: i };
                list.push(member);
                assert(list.deep_view() =~= before.push(member.deep_view()));
            },
        }
        i = i + 1;
    }
    assert(all.take(all.len() as int) =~= all);
    Ok(list)
}

/// The test for a member's name.
pub open spec fn is_member_named(name: Seq<char>) -> spec_fn((Seq<char>, int)) -> bool {
    |member: (Seq<char>, int)| member.0 == name
}

/// The first member of that name.
pub fn find_member(list: &Vec<WorkspaceMember>, name: &str) -> (found: Option<usize>)
    ensures
        match found {
            Some(i) => i < list.len() && first_index(list.deep_view(), is_member_named(name@))
                == Some(i as int),
            None => first_index(list.deep_view(), is_member_named(name@)) is None,
        },
{
    let ghost all = list.deep_view();
    let mut i: usize = 0;
    while i < list.len()
        invariant
            i <= list.len(),
            all == list.deep_view(),
            forall|j: int| 0 <= j < i ==> !is_member_named(name@)(#[trigger] all[j]),
        decreases list.len() - i,
    {
        assert(all[i as int] == list@[i as int].deep_view());
        if same_text(list[i].name.as_str(), name) {
            proof {
                lemma_first_index_at(all, is_member_named(name@), i as int);
            }
            return Some(i);
        }
        i = i + 1;
    }
    proof {
        lemma_first_index_none(all, is_member_named(name@));
    }
    None
}

/// Whether a manifest is that of the package of that name.
pub open spec fn is_manifest_of(document: TomlView, name: Seq<char>) -> bool {
    text_in(document.get("package"@), "name"@) == Some(name)
}

/// Tells whether a manifest is that of the package of that name.
pub fn document_is_named(document: &Toml, expected: &str) -> (named: bool)
    ensures
        named == is_manifest_of(document.deep_view(), expected@),
{
    match document.get("package") {
        Some(package) => match package.text_at("name") {
            Some(name) => same_text(name, expected),
            None => false,
        },
        None => false,
    }
}

/// Tells whether a text is the manifest of the package of that name.
pub fn check_manifest_name(text: &str, expected: &str) -> (named: bool)
    ensures
        named == (toml_document(text@) matches Ok(document) && is_manifest_of(document, expected@)),
{
    match parse_toml(text) {
        Ok(document) => document_is_named(&document, expected),
        Err(_) => false,
    }
}

/// The members of a workspace are, in order, the entries with a manifest, each
/// named by it. They can be listed if and only if nothing is wrong with any
/// entry.
pub proof fn law_members_of_entries(reads: Seq<MemberReadView>)
    ensures
        match members(reads) {
            Ok(list) => {
                &&& forall|k: int|
                    0 <= k < list.len() ==> {
                        let (name, entry) = #[trigger] list[k];
                        &&& 0 <= entry < reads.len()
                        &&& reads[entry] matches MemberReadView::Manifest { document, directory }
                            && name == member_name(document, directory)
                    }
                &&& forall|k: int, l: int|
                    0 <= k < l < list.len() ==> (#[trigger] list[k]).1 < (#[trigger] list[l]).1
                &&& forall|i: int|
                    0 <= i < reads.len() ==> match #[trigger] reads[i] {
                        MemberReadView::Missing => true,
                        MemberReadView::Manifest { document, directory } => list.contains(
                            (member_name(document, directory), i),
                        ),
                        _ => false,
                    }
            },
            Err(_) => exists|i: int|
                0 <= i < reads.len() && !((#[trigger] reads[i]) is Missing) && !(reads[i] is Manifest),
        },
    decreases reads.len(),
{
    if reads.len() > 0 {
        let rest = reads.drop_last();
        law_members_of_entries(rest);
        match members(rest) {
            Ok(before) => {
                if members(reads) is Ok {
                    let list = members(reads)->Ok_0;
                    assert forall|i: int| 0 <= i < reads.len() implies match #[trigger] reads[i] {
                        MemberReadView::Missing => true,
                        MemberReadView::Manifest { document, directory } => list.contains(
                            (member_name(document, directory), i),
                        ),
                        _ => false,
                    } by {
                        if i < rest.len() {
                            assert(rest[i] == reads[i]);
                            if let MemberReadView::Manifest { document, directory } = reads[i] {
                                let member = (member_name(document, directory), i);
                                let k = choose|k: int| 0 <= k < before.len() && before[k] == member;
                                assert(list[k] == member);
                            }
                        } else if let MemberReadView::Manifest { document, directory } = reads[i] {
                            assert(list[list.len() - 1] == (member_name(document, directory), i));
                        }
                    }
                    assert forall|k: int| 0 <= k < list.len() implies {
                        let (name, entry) = #[trigger] list[k];
                        &&& 0 <= entry < reads.len()
                        &&& reads[entry] matches MemberReadView::Manifest { document, directory }
                            && name == member_name(document, directory)
                    } by {
                        if k < before.len() {
                            assert(before[k] == list[k]);
                            assert(rest[list[k].1] == reads[list[k].1]);
                        }
                    }
                    assert forall|k: int, l: int| 0 <= k < l < list.len() implies (#[trigger] list[k]).1
                        < (#[trigger] list[l]).1 by {
                        assert(before[k] == list[k]);
                        if l < before.len() {
                            assert(before[l] == list[l]);
                        }
                    }
                } else {
                    assert(!(reads[reads.len() - 1] is Missing));
                }
            },
            Err(_) => {
                let i = choose|i: int|
                    0 <= i < rest.len() && !((#[trigger] rest[i]) is Missing) && !(rest[i] is Manifest);
                assert(reads[i] == rest[i]);
            },
        }
    }
}

} // verus!
