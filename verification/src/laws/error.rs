//! Laws of error messages.

use crate::error::{error_message, LockfileError};
use vstd::prelude::*;

verus! {

/// The message of an error that is about a text, a package or a place quotes it,
/// between words of its own.
pub proof fn law_messages_quote(text: String, at: usize, place: Seq<char>)
    ensures
        error_message(LockfileError::InvalidGitSource(text), place) matches Some(message) && {
            let start = "Invalid git-source '"@;
            let end = "': expected 'url#rev=path'"@;
            &&& start.is_prefix_of(message)
            &&& end.is_suffix_of(message)
            &&& message.subrange(start.len() as int, message.len() - end.len()) == text@
        },
        error_message(LockfileError::MissingVersion(text), place) matches Some(message) && {
            let start = "package "@;
            let end = " missing version"@;
            &&& start.is_prefix_of(message)
            &&& end.is_suffix_of(message)
            &&& message.subrange(start.len() as int, message.len() - end.len()) == text@
        },
        error_message(LockfileError::MemberUnreadable(at), place) matches Some(message) && {
            &&& ("reading "@).is_prefix_of(message)
            &&& message.skip("reading "@.len() as int) == place
        },
        error_message(LockfileError::MemberSyntax(at), place) matches Some(message) && {
            &&& ("parsing "@).is_prefix_of(message)
            &&& message.skip("parsing "@.len() as int) == place
        },
{
    let invalid = error_message(LockfileError::InvalidGitSource(text), place)->0;
    let start = "Invalid git-source '"@;
    let end = "': expected 'url#rev=path'"@;
    assert(invalid.take(start.len() as int) =~= start);
    assert(invalid.skip(invalid.len() - end.len()) =~= end);
    assert(invalid.subrange(start.len() as int, invalid.len() - end.len()) =~= text@);
    let missing = error_message(LockfileError::MissingVersion(text), place)->0;
    let first = "package "@;
    let last = " missing version"@;
    assert(missing.take(first.len() as int) =~= first);
    assert(missing.skip(missing.len() - last.len()) =~= last);
    assert(missing.subrange(first.len() as int, missing.len() - last.len()) =~= text@);
    assert(("reading "@ + place).skip("reading "@.len() as int) =~= place);
    assert(("parsing "@ + place).skip("parsing "@.len() as int) =~= place);
}

} // verus!
