//! Laws of the text operations.

use crate::seqs::{lemma_first_index, lemma_last_index};
use crate::text::{
    before_first, is_char, occurs_at, occurs_in, replaced, split_first, split_last, trimmed_end,
    trimmed_start, without_prefix, without_suffix,
};
use vstd::prelude::*;

verus! {

/// The parts of a text split at the first occurrence of a character make up the
/// text with the character between them, and the first part is without it. A text
/// is not split only where the character does not occur.
pub proof fn law_split_first(s: Seq<char>, c: char)
    ensures
        match split_first(s, c) {
            Some((before, after)) => s == before + seq![c] + after && !before.contains(c),
            None => !s.contains(c),
        },
{
    lemma_first_index(s, is_char(c));
    match split_first(s, c) {
        Some((before, after)) => {
            assert(s =~= before + seq![c] + after);
            assert forall|j: int| 0 <= j < before.len() implies before[j] != c by {
                assert(!is_char(c)(s[j]));
            }
        },
        None => {
            assert forall|j: int| 0 <= j < s.len() implies s[j] != c by {
                assert(!is_char(c)(s[j]));
            }
        },
    }
}

/// The parts of a text split at the last occurrence of a character make up the
/// text with the character between them, and the last part is without it. A text
/// is not split only where the character does not occur.
pub proof fn law_split_last(s: Seq<char>, c: char)
    ensures
        match split_last(s, c) {
            Some((before, after)) => s == before + seq![c] + after && !after.contains(c),
            None => !s.contains(c),
        },
{
    lemma_last_index(s, is_char(c));
    match split_last(s, c) {
        Some((before, after)) => {
            assert(s =~= before + seq![c] + after);
            assert forall|j: int| 0 <= j < after.len() implies after[j] != c by {
                assert(!is_char(c)(s[before.len() + 1 + j]));
            }
        },
        None => {
            assert forall|j: int| 0 <= j < s.len() implies s[j] != c by {
                assert(!is_char(c)(s[j]));
            }
        },
    }
}

/// What stands before the first occurrence of a character is a start of the text
/// without that character, and goes up to the character or to the end.
pub proof fn law_before_first(s: Seq<char>, c: char)
    ensures
        before_first(s, c).is_prefix_of(s),
        !before_first(s, c).contains(c),
        before_first(s, c) == s || s[before_first(s, c).len() as int] == c,
{
    law_split_first(s, c);
}

/// A prefix is taken off exactly the texts that start with it, and what is left
/// stands after it.
pub proof fn law_without_prefix(s: Seq<char>, prefix: Seq<char>)
    ensures
        without_prefix(prefix + s, prefix) == Some(s),
        without_prefix(s, prefix) matches Some(rest) ==> s == prefix + rest,
        without_prefix(s, prefix) is None ==> !prefix.is_prefix_of(s),
{
    assert((prefix + s).skip(prefix.len() as int) =~= s);
    if let Some(rest) = without_prefix(s, prefix) {
        assert(s =~= prefix + rest);
    }
}

/// A suffix is taken off exactly the texts that end with it, and what is left
/// stands before it.
pub proof fn law_without_suffix(s: Seq<char>, suffix: Seq<char>)
    ensures
        without_suffix(s + suffix, suffix) == Some(s),
        without_suffix(s, suffix) matches Some(rest) ==> s == rest + suffix,
        without_suffix(s, suffix) is None ==> !suffix.is_suffix_of(s),
{
    assert((s + suffix).take(s.len() as int) =~= s);
    if let Some(rest) = without_suffix(s, suffix) {
        assert(s =~= rest + suffix);
    }
}

/// A text occurs wherever it stands between two others, and nowhere else.
pub proof fn law_occurs(before: Seq<char>, part: Seq<char>, after: Seq<char>, s: Seq<char>)
    ensures
        occurs_in(part, before + part + after),
        occurs_in(part, s) ==> exists|first: Seq<char>, last: Seq<char>|
            s == #[trigger] (first + part + last),
{
    let whole = before + part + after;
    assert(whole.subrange(before.len() as int, (before.len() + part.len()) as int) =~= part);
    assert(occurs_at(part, whole, before.len() as int));
    if occurs_in(part, s) {
        let at = choose|at: int| #[trigger] occurs_at(part, s, at);
        let first = s.take(at);
        let last = s.skip(at + part.len());
        assert forall|i: int| 0 <= i < part.len() implies #[trigger] part[i] == s[at + i] by {
            assert(s.subrange(at, at + part.len())[i] == s[at + i]);
        }
        assert(s =~= first + part + last);
    }
}

/// Replacing a character changes it wherever it stands, and nothing else.
pub proof fn law_replaced(s: Seq<char>, from: char, to: char)
    ensures
        replaced(s, from, to).len() == s.len(),
        forall|i: int|
            0 <= i < s.len() && s[i] == from ==> #[trigger] replaced(s, from, to)[i] == to,
        forall|i: int|
            0 <= i < s.len() && s[i] != from ==> #[trigger] replaced(s, from, to)[i] == s[i],
{
}

/// Trimming a character off the start of a text takes off a run of it, and all
/// of the run.
pub proof fn law_trimmed_start(s: Seq<char>, c: char)
    ensures
        ({
            let rest = trimmed_start(s, c);
            &&& rest.is_suffix_of(s)
            &&& forall|i: int| 0 <= i < s.len() - rest.len() ==> #[trigger] s[i] == c
            &&& rest.len() > 0 ==> rest[0] != c
        }),
    decreases s.len(),
{
    if s.len() > 0 && s[0] == c {
        let shorter = s.drop_first();
        law_trimmed_start(shorter, c);
        let rest = trimmed_start(shorter, c);
        assert(rest =~= s.subrange(s.len() - rest.len(), s.len() as int));
        assert forall|i: int| 0 <= i < s.len() - rest.len() implies #[trigger] s[i] == c by {
            if i > 0 {
                assert(shorter[i - 1] == s[i]);
            }
        }
    }
}

/// Trimming a character off the end of a text takes off a run of it, and all of
/// the run.
pub proof fn law_trimmed_end(s: Seq<char>, c: char)
    ensures
        ({
            let rest = trimmed_end(s, c);
            &&& rest.is_prefix_of(s)
            &&& forall|i: int| rest.len() <= i < s.len() ==> #[trigger] s[i] == c
            &&& rest.len() > 0 ==> rest.last() != c
        }),
    decreases s.len(),
{
    if s.len() > 0 && s.last() == c {
        let shorter = s.drop_last();
        law_trimmed_end(shorter, c);
        let rest = trimmed_end(shorter, c);
        assert forall|i: int| rest.len() <= i < s.len() implies #[trigger] s[i] == c by {
            if i < shorter.len() {
                assert(shorter[i] == s[i]);
            }
        }
    }
}

} // verus!
