//! Text operations over sequences of characters.

use crate::seqs::{
    first_index, last_index, lemma_first_index_at, lemma_first_index_none, lemma_last_index_at,
    lemma_last_index_none,
};
use vstd::prelude::*;
use vstd::string::{StrSliceExecFns, StringExecFns, StringSliceAdditionalSpecFns};

verus! {

/// Whether two texts are the same.
pub fn same_text(a: &str, b: &str) -> (same: bool)
    ensures
        same == (a@ == b@),
{
    let left: &[u8] = a.as_bytes();
    let right: &[u8] = b.as_bytes();
    proof {
        vstd::utf8::encode_utf8_decode_utf8(a@);
        vstd::utf8::encode_utf8_decode_utf8(b@);
    }
    if left.len() != right.len() {
        return false;
    }
    let mut i: usize = 0;
    while i < left.len()
        invariant
            i <= left.len(),
            left.len() == right.len(),
            left@ == a.spec_bytes(),
            right@ == b.spec_bytes(),
            forall|j: int| 0 <= j < i ==> left@[j] == right@[j],
        decreases left.len() - i,
    {
        if left[i] != right[i] {
            return false;
        }
        i = i + 1;
    }
    assert(left@ =~= right@);
    true
}

/// The characters of a text.
pub fn characters(s: &str) -> (chars: Vec<char>)
    ensures
        chars@ == s@,
{
    let mut chars: Vec<char> = Vec::new();
    for c in it: s.chars()
        invariant
            it.seq() == s@,
            chars@ == s@.take(it.index()),
    {
        chars.push(c);
        assert(chars@ =~= s@.take(it.index() + 1));
    }
    assert(s@.take(s@.len() as int) =~= s@);
    chars
}

/// The test for one character.
pub open spec fn is_char(c: char) -> spec_fn(char) -> bool {
    |x: char| x == c
}

/// The part of `s` before the first `c` and the part after it.
pub open spec fn split_first(s: Seq<char>, c: char) -> Option<(Seq<char>, Seq<char>)> {
    match first_index(s, is_char(c)) {
        Some(i) => Some((s.take(i), s.skip(i + 1))),
        None => None,
    }
}

/// The part of `s` before the last `c` and the part after it.
pub open spec fn split_last(s: Seq<char>, c: char) -> Option<(Seq<char>, Seq<char>)> {
    match last_index(s, is_char(c)) {
        Some(i) => Some((s.take(i), s.skip(i + 1))),
        None => None,
    }
}

/// Splits a text at the first occurrence of a character.
pub fn split_at_first<'a>(s: &'a str, c: char) -> (parts: Option<(&'a str, &'a str)>)
    ensures
        parts.deep_view() == split_first(s@, c),
{
    let chars = characters(s);
    let mut i: usize = 0;
    while i < chars.len()
        invariant
            i <= chars.len(),
            chars@ == s@,
            forall|j: int| 0 <= j < i ==> s@[j] != c,
        decreases chars.len() - i,
    {
        if chars[i] == c {
            proof {
                lemma_first_index_at(s@, is_char(c), i as int);
            }
            return Some((s.substring_char(0, i), s.substring_char(i + 1, chars.len())));
        }
        i = i + 1;
    }
    proof {
        lemma_first_index_none(s@, is_char(c));
    }
    None
}

/// Splits a text at the last occurrence of a character.
pub fn split_at_last<'a>(s: &'a str, c: char) -> (parts: Option<(&'a str, &'a str)>)
    ensures
        parts.deep_view() == split_last(s@, c),
{
    let chars = characters(s);
    let mut i: usize = chars.len();
    while i > 0
        invariant
            i <= chars.len(),
            chars@ == s@,
            forall|j: int| i <= j < chars.len() ==> s@[j] != c,
        decreases i,
    {
        i = i - 1;
        if chars[i] == c {
            proof {
                lemma_last_index_at(s@, is_char(c), i as int);
            }
            return Some((s.substring_char(0, i), s.substring_char(i + 1, chars.len())));
        }
    }
    proof {
        lemma_last_index_none(s@, is_char(c));
    }
    None
}

/// A text splits at a character that does not occur before it.
pub proof fn lemma_split_first(before: Seq<char>, c: char, after: Seq<char>)
    requires
        !before.contains(c),
    ensures
        split_first(before + seq![c] + after, c) == Some((before, after)),
{
    let s = before + seq![c] + after;
    assert forall|j: int| 0 <= j < before.len() implies !is_char(c)(#[trigger] s[j]) by {
        assert(before.contains(before[j]));
    }
    lemma_first_index_at(s, is_char(c), before.len() as int);
    assert(s.take(before.len() as int) =~= before);
    assert(s.skip(before.len() as int + 1) =~= after);
}

/// A text does not split at a character that does not occur in it.
pub proof fn lemma_split_first_none(s: Seq<char>, c: char)
    requires
        !s.contains(c),
    ensures
        split_first(s, c) is None,
{
    assert forall|j: int| 0 <= j < s.len() implies !is_char(c)(#[trigger] s[j]) by {
        assert(s.contains(s[j]));
    }
    lemma_first_index_none(s, is_char(c));
}

/// A text splits at a character that does not occur after it.
pub proof fn lemma_split_last(before: Seq<char>, c: char, after: Seq<char>)
    requires
        !after.contains(c),
    ensures
        split_last(before + seq![c] + after, c) == Some((before, after)),
{
    let s = before + seq![c] + after;
    assert forall|j: int| before.len() < j < s.len() implies !is_char(c)(#[trigger] s[j]) by {
        assert(s[j] == after[j - before.len() - 1]);
        assert(after.contains(after[j - before.len() - 1]));
    }
    lemma_last_index_at(s, is_char(c), before.len() as int);
    assert(s.take(before.len() as int) =~= before);
    assert(s.skip(before.len() as int + 1) =~= after);
}

/// The part of `s` before the first `c`, or all of `s` where there is none.
pub open spec fn before_first(s: Seq<char>, c: char) -> Seq<char> {
    match split_first(s, c) {
        Some((before, _)) => before,
        None => s,
    }
}

/// Cuts a text off before the first occurrence of a character.
pub fn cut_at_first<'a>(s: &'a str, c: char) -> (before: &'a str)
    ensures
        before@ == before_first(s@, c),
{
    match split_at_first(s, c) {
        Some((before, _)) => before,
        None => s,
    }
}

/// Whether `part` stands in `chars` at position `at`.
fn stands_at(chars: &Vec<char>, at: usize, part: &Vec<char>) -> (stands: bool)
    requires
        at + part.len() <= chars.len(),
    ensures
        stands == (chars@.subrange(at as int, at + part.len()) == part@),
{
    let mut i: usize = 0;
    while i < part.len()
        invariant
            i <= part.len(),
            at + part.len() <= chars.len(),
            forall|j: int| 0 <= j < i ==> #[trigger] part@[j] == chars@[at + j],
        decreases part.len() - i,
    {
        if chars[at + i] != part[i] {
            assert(chars@.subrange(at as int, at + part.len())[i as int] != part@[i as int]);
            return false;
        }
        i = i + 1;
    }
    assert(chars@.subrange(at as int, at + part.len()) =~= part@);
    true
}

/// The rest of `s` after `prefix`, where `s` starts with it.
pub open spec fn without_prefix(s: Seq<char>, prefix: Seq<char>) -> Option<Seq<char>> {
    if prefix.is_prefix_of(s) {
        Some(s.skip(prefix.len() as int))
    } else {
        None
    }
}

/// The start of `s` before `suffix`, where `s` ends with it.
pub open spec fn without_suffix(s: Seq<char>, suffix: Seq<char>) -> Option<Seq<char>> {
    if suffix.is_suffix_of(s) {
        Some(s.take(s.len() - suffix.len()))
    } else {
        None
    }
}

/// Takes a prefix off a text.
pub fn take_prefix_off<'a>(s: &'a str, prefix: &str) -> (rest: Option<&'a str>)
    ensures
        rest.deep_view() == without_prefix(s@, prefix@),
{
    let chars = characters(s);
    let start = characters(prefix);
    if start.len() <= chars.len() && stands_at(&chars, 0, &start) {
        Some(s.substring_char(start.len(), chars.len()))
    } else {
        None
    }
}

/// Takes a suffix off a text.
pub fn take_suffix_off<'a>(s: &'a str, suffix: &str) -> (rest: Option<&'a str>)
    ensures
        rest.deep_view() == without_suffix(s@, suffix@),
{
    let chars = characters(s);
    let end = characters(suffix);
    if end.len() <= chars.len() && stands_at(&chars, chars.len() - end.len(), &end) {
        Some(s.substring_char(0, chars.len() - end.len()))
    } else {
        None
    }
}

/// Whether a text starts with another.
pub fn starts_with(s: &str, prefix: &str) -> (starts: bool)
    ensures
        starts == prefix@.is_prefix_of(s@),
{
    take_prefix_off(s, prefix).is_some()
}

/// Whether `part` occurs somewhere in `s`.
pub open spec fn occurs_in(part: Seq<char>, s: Seq<char>) -> bool {
    exists|at: int| #[trigger] occurs_at(part, s, at)
}

/// Whether `part` occurs in `s` at position `at`.
pub open spec fn occurs_at(part: Seq<char>, s: Seq<char>, at: int) -> bool {
    0 <= at <= s.len() - part.len() && s.subrange(at, at + part.len()) == part
}

/// Whether a text contains another.
pub fn contains_text(s: &str, part: &str) -> (found: bool)
    ensures
        found == occurs_in(part@, s@),
{
    let chars = characters(s);
    let sought = characters(part);
    if sought.len() > chars.len() {
        return false;
    }
    let mut at: usize = 0;
    while at <= chars.len() - sought.len()
        invariant
            sought.len() <= chars.len(),
            at <= chars.len() - sought.len() + 1,
            chars@ == s@,
            sought@ == part@,
            forall|k: int| 0 <= k < at ==> !#[trigger] occurs_at(part@, s@, k),
        decreases chars.len() - sought.len() + 1 - at,
    {
        if stands_at(&chars, at, &sought) {
            assert(occurs_at(part@, s@, at as int));
            return true;
        }
        if at == chars.len() - sought.len() {
            assert forall|k: int| !#[trigger] occurs_at(part@, s@, k) by {}
            return false;
        }
        at = at + 1;
    }
    false
}

/// `s` with every `from` replaced by `to`.
pub open spec fn replaced(s: Seq<char>, from: char, to: char) -> Seq<char> {
    s.map_values(|c: char| if c == from { to } else { c })
}

/// Replaces every `-` of a text by `_`.
pub fn underscored(s: &str) -> (text: String)
    ensures
        text@ == replaced(s@, '-', '_'),
{
    let chars = characters(s);
    let mut text = String::new();
    let mut start: usize = 0;
    let mut i: usize = 0;
    proof {
        reveal_strlit("_");
    }
    while i < chars.len()
        invariant
            start <= i <= chars.len(),
            chars@ == s@,
            "_"@ =~= seq!['_'],
            forall|j: int| start <= j < i ==> s@[j] != '-',
            text@ =~= replaced(s@, '-', '_').take(start as int),
        decreases chars.len() - i,
    {
        if chars[i] == '-' {
            text.append(s.substring_char(start, i));
            text.append("_");
            start = i + 1;
        }
        i = i + 1;
    }
    text.append(s.substring_char(start, chars.len()));
    assert(text@ =~= replaced(s@, '-', '_'));
    text
}

/// `s` without the run of `c` at its start.
pub open spec fn trimmed_start(s: Seq<char>, c: char) -> Seq<char>
    decreases s.len(),
{
    if s.len() > 0 && s[0] == c {
        trimmed_start(s.drop_first(), c)
    } else {
        s
    }
}

/// `s` without the run of `c` at its end.
pub open spec fn trimmed_end(s: Seq<char>, c: char) -> Seq<char>
    decreases s.len(),
{
    if s.len() > 0 && s.last() == c {
        trimmed_end(s.drop_last(), c)
    } else {
        s
    }
}

/// Trims a character off the start of a text.
pub fn trim_start<'a>(s: &'a str, c: char) -> (rest: &'a str)
    ensures
        rest@ == trimmed_start(s@, c),
{
    let chars = characters(s);
    let mut i: usize = 0;
    assert(s@.skip(0) =~= s@);
    while i < chars.len() && chars[i] == c
        invariant
            i <= chars.len(),
            chars@ == s@,
            trimmed_start(s@.skip(i as int), c) == trimmed_start(s@, c),
        decreases chars.len() - i,
    {
        assert(s@.skip(i as int).drop_first() =~= s@.skip(i + 1));
        i = i + 1;
    }
    assert(s@.subrange(i as int, s@.len() as int) =~= s@.skip(i as int));
    s.substring_char(i, chars.len())
}

/// Trims a character off the end of a text.
pub fn trim_end<'a>(s: &'a str, c: char) -> (rest: &'a str)
    ensures
        rest@ == trimmed_end(s@, c),
{
    let chars = characters(s);
    let mut i: usize = chars.len();
    assert(s@.take(s@.len() as int) =~= s@);
    while i > 0 && chars[i - 1] == c
        invariant
            i <= chars.len(),
            chars@ == s@,
            trimmed_end(s@.take(i as int), c) == trimmed_end(s@, c),
        decreases i,
    {
        assert(s@.take(i as int).drop_last() =~= s@.take(i - 1));
        i = i - 1;
    }
    s.substring_char(0, i)
}

/// Copies a list of texts.
pub fn copy_texts(list: &Vec<String>) -> (copy: Vec<String>)
    ensures
        copy.deep_view() == list.deep_view(),
{
    let mut copy: Vec<String> = Vec::new();
    let mut i: usize = 0;
    while i < list.len()
        invariant
            i <= list.len(),
            copy.len() == i,
            forall|j: int| 0 <= j < i ==> #[trigger] copy@[j]@ == list@[j]@,
        decreases list.len() - i,
    {
        copy.push(list[i].clone());
        i = i + 1;
    }
    assert(copy.deep_view() =~= list.deep_view());
    copy
}

/// Copies a text that may be missing.
pub fn copy_optional(text: &Option<String>) -> (copy: Option<String>)
    ensures
        copy.deep_view() == text.deep_view(),
{
    match text {
        Some(s) => Some(s.clone()),
        None => None,
    }
}

/// Takes ownership of a text that may be missing.
pub fn own_optional(text: Option<&str>) -> (owned: Option<String>)
    ensures
        owned.deep_view() == text.deep_view(),
{
    match text {
        Some(s) => Some(s.to_owned()),
        None => None,
    }
}

/// What `str::to_lowercase` returns for a text.
pub uninterp spec fn lowercase(s: Seq<char>) -> Seq<char>;

/// `str::to_lowercase` returns a text that depends on the given text alone:
/// its lower-case equivalent under the Unicode character tables.
pub assume_specification[ str::to_lowercase ](s: &str) -> (lower: String)
    ensures
        lower@ == lowercase(s@),
;

} // verus!
