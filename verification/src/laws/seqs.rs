//! Laws of sequences and of the elements that satisfy a predicate.

use crate::seqs::{
    first_index, first_match, ints, lemma_first_index, lemma_positions, positions,
};
use vstd::prelude::*;

verus! {

/// Whether `at` lists the positions of the elements of `s` that satisfy `p`, each
/// once and in order.
pub open spec fn is_listing<T>(s: Seq<T>, p: spec_fn(T) -> bool, at: Seq<int>) -> bool {
    &&& forall|k: int|
        0 <= k < at.len() ==> 0 <= #[trigger] at[k] < s.len() && p(s[at[k]])
    &&& forall|k: int, l: int| 0 <= k < l < at.len() ==> #[trigger] at[k] < #[trigger] at[l]
    &&& forall|i: int| 0 <= i < s.len() && p(#[trigger] s[i]) ==> at.contains(i)
}

/// A listing of all elements is one of all but the last, with or without the last.
proof fn lemma_listing_drop_last<T>(s: Seq<T>, p: spec_fn(T) -> bool, at: Seq<int>)
    requires
        s.len() > 0,
        is_listing(s, p, at),
    ensures
        p(s.last()) ==> at.len() > 0 && at.last() == s.len() - 1 && is_listing(
            s.drop_last(),
            p,
            at.drop_last(),
        ),
        !p(s.last()) ==> is_listing(s.drop_last(), p, at),
{
    let rest = s.drop_last();
    let end = s.len() - 1;
    if p(s.last()) {
        assert(p(s[end]));
        assert(at.contains(end));
        let k = choose|k: int| 0 <= k < at.len() && at[k] == end;
        if k < at.len() - 1 {
            assert(at[k] < at[at.len() - 1]);
        }
        let fewer = at.drop_last();
        assert forall|l: int| 0 <= l < fewer.len() implies 0 <= #[trigger] fewer[l] < rest.len()
            && p(rest[fewer[l]]) by {
            assert(at[l] < at[at.len() - 1]);
            assert(rest[at[l]] == s[at[l]]);
        }
        assert forall|i: int| 0 <= i < rest.len() && p(#[trigger] rest[i]) implies fewer.contains(
            i,
        ) by {
            assert(p(s[i]));
            let l = choose|l: int| 0 <= l < at.len() && at[l] == i;
            assert(fewer[l] == i);
        }
        assert forall|l: int, m: int| 0 <= l < m < fewer.len() implies #[trigger] fewer[l]
            < #[trigger] fewer[m] by {
            assert(at[l] < at[m]);
        }
    } else {
        assert forall|l: int| 0 <= l < at.len() implies 0 <= #[trigger] at[l] < rest.len() && p(
            rest[at[l]],
        ) by {
            assert(p(s[at[l]]));
            if at[l] == end {
                assert(s[at[l]] == s.last());
            }
            assert(rest[at[l]] == s[at[l]]);
        }
        assert forall|i: int| 0 <= i < rest.len() && p(#[trigger] rest[i]) implies at.contains(
            i,
        ) by {
            assert(p(s[i]));
        }
    }
}

/// A filter keeps the elements at the listed positions, in order.
pub proof fn law_filter<T>(s: Seq<T>, p: spec_fn(T) -> bool, at: Seq<int>)
    requires
        is_listing(s, p, at),
    ensures
        s.filter(p).len() == at.len(),
        forall|k: int| 0 <= k < at.len() ==> #[trigger] s.filter(p)[k] == s[at[k]],
    decreases s.len(),
{
    reveal(Seq::filter);
    if s.len() > 0 {
        lemma_listing_drop_last(s, p, at);
        let rest = s.drop_last();
        if p(s.last()) {
            law_filter(rest, p, at.drop_last());
            assert forall|k: int| 0 <= k < at.len() implies #[trigger] s.filter(p)[k] == s[at[k]] by {
                if k < at.len() - 1 {
                    assert(rest.filter(p)[k] == rest[at.drop_last()[k]]);
                    assert(at[k] < at[at.len() - 1]);
                }
            }
        } else {
            law_filter(rest, p, at);
            assert forall|k: int| 0 <= k < at.len() implies #[trigger] s.filter(p)[k] == s[at[k]] by {
                assert(rest.filter(p)[k] == rest[at[k]]);
            }
        }
    } else if at.len() > 0 {
        assert(0 <= at[0] < s.len());
    }
}

/// The positions of the elements that satisfy a predicate are a listing of them,
/// and there is no other.
pub proof fn law_positions<T>(s: Seq<T>, p: spec_fn(T) -> bool, at: Seq<int>)
    ensures
        is_listing(s, p, positions(s, p)),
        is_listing(s, p, at) ==> at == positions(s, p),
    decreases s.len(),
{
    lemma_positions(s, p);
    if is_listing(s, p, at) {
        if s.len() > 0 {
            lemma_listing_drop_last(s, p, at);
            if p(s.last()) {
                law_positions(s.drop_last(), p, at.drop_last());
                assert(at =~= at.drop_last().push(at.last()));
            } else {
                law_positions(s.drop_last(), p, at);
            }
        } else if at.len() > 0 {
            assert(0 <= at[0] < s.len());
        } else {
            assert(at =~= positions(s, p));
        }
    }
}

/// The first match is the element at the first position that satisfies.
pub proof fn law_first_match<T>(s: Seq<T>, p: spec_fn(T) -> bool)
    ensures
        match first_match(s, p) {
            Some(x) => exists|i: int|
                0 <= i < s.len() && #[trigger] s[i] == x && p(x) && forall|j: int|
                    0 <= j < i ==> !p(#[trigger] s[j]),
            None => forall|j: int| 0 <= j < s.len() ==> !p(#[trigger] s[j]),
        },
{
    lemma_first_index(s, p);
    if let Some(i) = first_index(s, p) {
        assert(s[i] == first_match(s, p)->0);
    }
}

/// Machine integers stand for themselves.
pub proof fn law_ints(s: Seq<usize>)
    ensures
        ints(s).len() == s.len(),
        forall|i: int| 0 <= i < s.len() ==> #[trigger] ints(s)[i] == s[i],
{
}

} // verus!
