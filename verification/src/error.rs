//! What can go wrong.

use vstd::prelude::*;
use vstd::string::StringExecFns;

verus! {

/// The errors of this library.
#[derive(Debug)]
pub enum LockfileError {
    /// A git source argument is not of the form `url#rev=path`.
    InvalidGitSource(String),
    /// A lock file is not TOML.
    LockSyntax(toml::de::Error),
    /// A lock file has no packages.
    MissingPackages,
    /// A package of a lock file has no name.
    MissingName,
    /// The package of that name in a lock file has no version.
    MissingVersion(String),
    /// A manifest is not TOML.
    ManifestSyntax(toml::de::Error),
    /// A manifest cannot be read.
    ManifestUnreadable,
    /// The root manifest lists no workspace members.
    MissingMembers,
    /// An entry of the list of workspace members is not a string.
    MemberNotText,
    /// The manifest at that entry of the list of workspace members cannot be read.
    MemberUnreadable(usize),
    /// The manifest at that entry of the list of workspace members is not TOML.
    MemberSyntax(usize),
    /// The metadata document was refused.
    Document(serde_json::Error),
}

/// The message of an error, where `place` is the path of the manifest that it is
/// about; none for the manifest of a package, of which the file system or the
/// parser says what is wrong.
pub open spec fn error_message(error: LockfileError, place: Seq<char>) -> Option<Seq<char>> {
    match error {
        LockfileError::InvalidGitSource(text) => Some(
            "Invalid git-source '"@ + text@ + "': expected 'url#rev=path'"@,
        ),
        LockfileError::LockSyntax(_) => Some("parsing Cargo.lock TOML"@),
        LockfileError::MissingPackages => Some("Cargo.lock missing [[package]] array"@),
        LockfileError::MissingName => Some("package missing name"@),
        LockfileError::MissingVersion(name) => Some("package "@ + name@ + " missing version"@),
        LockfileError::ManifestSyntax(_) => None,
        LockfileError::ManifestUnreadable => None,
        LockfileError::MissingMembers => Some(
            "No [workspace] members found in root Cargo.toml"@,
        ),
        LockfileError::MemberNotText => Some("workspace member is not a string"@),
        LockfileError::MemberUnreadable(_) => Some("reading "@ + place),
        LockfileError::MemberSyntax(_) => Some("parsing "@ + place),
        LockfileError::Document(_) => Some("deserializing constructed metadata"@),
    }
}

/// Joins three texts.
fn joined(first: &str, second: &str, third: &str) -> (text: String)
    ensures
        text@ == first@ + second@ + third@,
{
    let mut text = first.to_owned();
    text.append(second);
    text.append(third);
    text
}

impl LockfileError {
    /// The message of this error, where `place` is the path of the manifest that
    /// it is about; none for the manifest of a package, of which the file system
    /// or the parser says what is wrong.
    pub fn message(&self, place: &str) -> (message: Option<String>)
        ensures
            message.deep_view() == error_message(*self, place@),
    {
        match self {
            LockfileError::InvalidGitSource(text) => Some(
                joined("Invalid git-source '", text.as_str(), "': expected 'url#rev=path'"),
            ),
            LockfileError::LockSyntax(_) => Some("parsing Cargo.lock TOML".to_owned()),
            LockfileError::MissingPackages => Some("Cargo.lock missing [[package]] array".to_owned()),
            LockfileError::MissingName => Some("package missing name".to_owned()),
            LockfileError::MissingVersion(name) => Some(
                joined("package ", name.as_str(), " missing version"),
            ),
            LockfileError::ManifestSyntax(_) => None,
            LockfileError::ManifestUnreadable => None,
            LockfileError::MissingMembers => Some(
                "No [workspace] members found in root Cargo.toml".to_owned(),
            ),
            LockfileError::MemberNotText => Some("workspace member is not a string".to_owned()),
            LockfileError::MemberUnreadable(_) => {
                let mut text = "reading ".to_owned();
                text.append(place);
                Some(text)
            },
            LockfileError::MemberSyntax(_) => {
                let mut text = "parsing ".to_owned();
                text.append(place);
                Some(text)
            },
            LockfileError::Document(_) => Some("deserializing constructed metadata".to_owned()),
        }
    }
}

} // verus!
