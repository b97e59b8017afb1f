//! Assigning columns to rows by score.

use crate::seqs::ints;
use vstd::prelude::*;
use vstd::set_lib::{lemma_int_range, lemma_len_subset, lemma_subset_equality, set_int_range};

verus! {

/// Whether the pair of row `r` and column `c` is picked before the pair of row
/// `s` and column `d`: it scores higher or, at equal scores, stands in an
/// earlier row or further left in the same row.
pub open spec fn outranks(scores: Seq<Seq<i32>>, r: int, c: int, s: int, d: int) -> bool {
    scores[r][c] > scores[s][d] || scores[r][c] == scores[s][d] && (r < s || r == s && c < d)
}

/// Whether the pair of row `r` and column `c` could not be picked because the
/// row's or the column's own pair was picked before it.
pub open spec fn is_beaten(scores: Seq<Seq<i32>>, chosen: Seq<int>, r: int, c: int) -> bool {
    ||| outranks(scores, r, chosen[r], r, c)
    ||| exists|s: int|
        0 <= s < chosen.len() && #[trigger] chosen[s] == c && outranks(scores, s, c, r, c)
}

/// Whether `chosen` gives each row a column of its own such that every other
/// pair is beaten. This is the choice that comes of picking pairs from the
/// highest rank down and passing over rows and columns that were picked.
pub open spec fn is_assignment(scores: Seq<Seq<i32>>, columns: int, chosen: Seq<int>) -> bool {
    &&& chosen.len() == scores.len()
    &&& forall|r: int| 0 <= r < chosen.len() ==> 0 <= #[trigger] chosen[r] < columns
    &&& forall|r: int, s: int|
        0 <= r < s < chosen.len() ==> #[trigger] chosen[r] != #[trigger] chosen[s]
    &&& forall|r: int, c: int|
        0 <= r < chosen.len() && 0 <= c < columns && c != chosen[r] ==> #[trigger] is_beaten(
            scores,
            chosen,
            r,
            c,
        )
}

/// The assignment of columns to rows.
pub open spec fn assignment(scores: Seq<Seq<i32>>, columns: int) -> Seq<int> {
    choose|chosen: Seq<int>| is_assignment(scores, columns, chosen)
}

/// The place of a pair among all pairs, counted from the highest rank down.
spec fn place(scores: Seq<Seq<i32>>, columns: int, r: int, c: int) -> int {
    (i32::MAX - scores[r][c]) * (scores.len() * columns) + r * columns + c
}

/// A pair that outranks another has a lower place.
proof fn lemma_place(scores: Seq<Seq<i32>>, columns: int, r: int, c: int, s: int, d: int)
    requires
        0 <= r < scores.len(),
        0 <= s < scores.len(),
        0 <= c < columns,
        0 <= d < columns,
        outranks(scores, r, c, s, d),
    ensures
        0 <= place(scores, columns, r, c) < place(scores, columns, s, d),
{
    let rows = scores.len() as int;
    let all = rows * columns;
    let a = i32::MAX - scores[r][c];
    let b = i32::MAX - scores[s][d];
    assert(0 <= r * columns && r * columns + c < all) by (nonlinear_arith)
        requires
            0 <= r < rows,
            0 <= c < columns,
            all == rows * columns,
    ;
    assert(0 <= s * columns && s * columns + d < all) by (nonlinear_arith)
        requires
            0 <= s < rows,
            0 <= d < columns,
            all == rows * columns,
    ;
    assert(0 <= a * all) by (nonlinear_arith)
        requires
            0 <= a,
            0 <= all,
    ;
    if a < b {
        assert(a * all + all <= b * all) by (nonlinear_arith)
            requires
                a < b,
                0 <= all,
        ;
    } else if r < s {
        assert(r * columns + columns <= s * columns) by (nonlinear_arith)
            requires
                r < s,
                0 <= columns,
        ;
    }
}

/// Two assignments agree on every row, by induction over the place of the pair
/// on which they might not.
proof fn lemma_agree(scores: Seq<Seq<i32>>, columns: int, one: Seq<int>, other: Seq<int>, r: int)
    requires
        is_assignment(scores, columns, one),
        is_assignment(scores, columns, other),
        0 <= r < scores.len(),
    ensures
        one[r] == other[r],
    decreases place(scores, columns, r, one[r]),
{
    let c = one[r];
    if other[r] != c {
        assert(is_beaten(scores, other, r, c));
        if outranks(scores, r, other[r], r, c) {
            lemma_place(scores, columns, r, other[r], r, c);
            lemma_agree(scores, columns, other, one, r);
        } else {
            let s = choose|s: int|
                0 <= s < other.len() && #[trigger] other[s] == c && outranks(scores, s, c, r, c);
            lemma_place(scores, columns, s, c, r, c);
            lemma_agree(scores, columns, other, one, s);
        }
    }
}

/// There is at most one assignment of columns to rows.
pub proof fn lemma_assignment_unique(
    scores: Seq<Seq<i32>>,
    columns: int,
    one: Seq<int>,
    other: Seq<int>,
)
    requires
        is_assignment(scores, columns, one),
        is_assignment(scores, columns, other),
    ensures
        one == other,
{
    assert forall|r: int| 0 <= r < scores.len() implies one[r] == other[r] by {
        lemma_agree(scores, columns, one, other, r);
    }
    assert(one =~= other);
}

/// Some number below `n` is not in a set of fewer than `n` numbers.
proof fn lemma_missing(n: int, set: Set<int>) -> (k: int)
    requires
        set.finite(),
        0 <= set.len() < n,
    ensures
        0 <= k < n,
        !set.contains(k),
{
    lemma_int_range(0, n);
    if forall|k: int| 0 <= k < n ==> set.contains(k) {
        assert(set_int_range(0, n).subset_of(set));
        lemma_len_subset(set_int_range(0, n), set);
    }
    choose|k: int| 0 <= k < n && !set.contains(k)
}

/// The columns that were picked for the rows.
spec fn picks(picked: Seq<Option<usize>>) -> Seq<Option<int>> {
    picked.map_values(
        |pick: Option<usize>|
            match pick {
                Some(c) => Some(c as int),
                None => None,
            },
    )
}

/// Whether a pair can still be picked.
spec fn is_open(chosen: Seq<Option<int>>, used: Seq<bool>, r: int, c: int) -> bool {
    0 <= r < chosen.len() && 0 <= c < used.len() && chosen[r] is None && !used[c]
}

/// `is_beaten` while some rows have no column yet.
spec fn is_beaten_so_far(scores: Seq<Seq<i32>>, chosen: Seq<Option<int>>, r: int, c: int) -> bool {
    ||| chosen[r] is Some && outranks(scores, r, chosen[r]->0, r, c)
    ||| exists|s: int|
        0 <= s < chosen.len() && #[trigger] chosen[s] == Some(c) && outranks(scores, s, c, r, c)
}

/// What holds after some pairs were picked.
spec fn is_partial(
    scores: Seq<Seq<i32>>,
    chosen: Seq<Option<int>>,
    used: Seq<bool>,
    rows_done: Set<int>,
    columns_done: Set<int>,
) -> bool {
    &&& chosen.len() == scores.len()
    &&& forall|r: int| 0 <= r < scores.len() ==> (#[trigger] scores[r]).len() == used.len()
    &&& forall|r: int|
        0 <= r < chosen.len() ==> ((#[trigger] chosen[r]) matches Some(c) ==> 0 <= c
            < used.len() && used[c])
    &&& forall|r: int, s: int|
        0 <= r < s < chosen.len() && chosen[r] is Some ==> #[trigger] chosen[r]
            != #[trigger] chosen[s]
    &&& forall|r: int, c: int|
        0 <= r < chosen.len() && 0 <= c < used.len() && !is_open(chosen, used, r, c) && chosen[r]
            != Some(c) ==> #[trigger] is_beaten_so_far(scores, chosen, r, c)
    &&& rows_done.finite()
    &&& columns_done.finite()
    &&& rows_done.len() == columns_done.len()
    &&& forall|r: int| 0 <= r < chosen.len() ==> ((#[trigger] chosen[r]) is Some <==> rows_done.contains(r))
    &&& forall|c: int| 0 <= c < used.len() ==> (#[trigger] used[c] <==> columns_done.contains(c))
}

/// Finds the pair of the highest rank that can still be picked.
fn best_pair(
    scores: &Vec<Vec<i32>>,
    chosen: &Vec<Option<usize>>,
    used: &Vec<bool>,
) -> (best: Option<(usize, usize)>)
    requires
        chosen.len() == scores.len(),
        forall|r: int| 0 <= r < scores.len() ==> (#[trigger] scores@[r]).len() == used.len(),
    ensures
        match best {
            Some((r, c)) => {
                &&& is_open(picks(chosen@), used@, r as int, c as int)
                &&& forall|s: int, d: int|
                    #[trigger] is_open(picks(chosen@), used@, s, d) && (s != r || d != c) ==> outranks(
                        scores.deep_view(),
                        r as int,
                        c as int,
                        s,
                        d,
                    )
            },
            None => forall|s: int, d: int| !#[trigger] is_open(picks(chosen@), used@, s, d),
        },
{
    let ghost table = scores.deep_view();
    let mut best: Option<(usize, usize)> = None;
    let mut r: usize = 0;
    while r < scores.len()
        invariant
            r <= scores.len(),
            table == scores.deep_view(),
            chosen.len() == scores.len(),
            forall|s: int| 0 <= s < scores.len() ==> (#[trigger] scores@[s]).len() == used.len(),
            match best {
                Some((b, e)) => {
                    &&& is_open(picks(chosen@), used@, b as int, e as int)
                    &&& b < r
                    &&& forall|s: int, d: int|
                        s < r && #[trigger] is_open(picks(chosen@), used@, s, d) && (s != b || d != e)
                            ==> outranks(table, b as int, e as int, s, d)
                },
                None => forall|s: int, d: int|
                    s < r ==> !#[trigger] is_open(picks(chosen@), used@, s, d),
            },
        decreases scores.len() - r,
    {
        let mut c: usize = 0;
        while c < used.len()
            invariant
                c <= used.len(),
                r < scores.len(),
                table == scores.deep_view(),
                chosen.len() == scores.len(),
                forall|s: int| 0 <= s < scores.len() ==> (#[trigger] scores@[s]).len() == used.len(),
                match best {
                    Some((b, e)) => {
                        &&& is_open(picks(chosen@), used@, b as int, e as int)
                        &&& b < r || b == r && e < c
                        &&& forall|s: int, d: int|
                            (s < r || s == r && d < c) && #[trigger] is_open(picks(chosen@), used@, s, d)
                                && (s != b || d != e) ==> outranks(table, b as int, e as int, s, d)
                    },
                    None => forall|s: int, d: int|
                        s < r || s == r && d < c ==> !#[trigger] is_open(picks(chosen@), used@, s, d),
                },
            decreases used.len() - c,
        {
            if chosen[r].is_none() && !used[c] {
                let better = match best {
                    Some((b, e)) => scores[b][e] < scores[r][c],
                    None => true,
                };
                assert(table[r as int][c as int] == scores@[r as int]@[c as int]);
                assert(best matches Some((b, e)) ==> table[b as int][e as int]
                    == scores@[b as int]@[e as int]);
                if better {
                    best = Some((r, c));
                }
            }
            c = c + 1;
        }
        r = r + 1;
    }
    best
}

/// Picking the best pair that is open keeps what `is_partial` says.
proof fn lemma_pick(
    scores: Seq<Seq<i32>>,
    chosen: Seq<Option<int>>,
    used: Seq<bool>,
    rows_done: Set<int>,
    columns_done: Set<int>,
    r: int,
    c: int,
)
    requires
        is_partial(scores, chosen, used, rows_done, columns_done),
        is_open(chosen, used, r, c),
        forall|s: int, d: int|
            #[trigger] is_open(chosen, used, s, d) && (s != r || d != c) ==> outranks(
                scores,
                r,
                c,
                s,
                d,
            ),
    ensures
        is_partial(
            scores,
            chosen.update(r, Some(c)),
            used.update(c, true),
            rows_done.insert(r),
            columns_done.insert(c),
        ),
{
    let after = chosen.update(r, Some(c));
    let marked = used.update(c, true);
    assert forall|s: int, t: int| 0 <= s < t < after.len() && after[s] is Some implies #[trigger] after[s]
        != #[trigger] after[t] by {
        assert(chosen[r] is None);
        if s == r {
            assert(chosen[t] matches Some(d) ==> used[d]);
        } else if t == r {
            assert(chosen[s] matches Some(d) ==> used[d]);
        } else {
            assert(chosen[s] != chosen[t]);
        }
    }
    assert forall|s: int, d: int|
        0 <= s < after.len() && 0 <= d < marked.len() && !is_open(after, marked, s, d) && after[s]
            != Some(d) implies #[trigger] is_beaten_so_far(scores, after, s, d) by {
        if is_open(chosen, used, s, d) {
            assert(outranks(scores, r, c, s, d));
            if s == r {
                assert(after[s] == Some(c));
            } else {
                assert(d == c);
                assert(after[r] == Some(d));
            }
        } else {
            assert(chosen[s] != Some(d));
            assert(is_beaten_so_far(scores, chosen, s, d));
            if !(chosen[s] is Some && outranks(scores, s, chosen[s]->0, s, d)) {
                let t = choose|t: int|
                    0 <= t < chosen.len() && #[trigger] chosen[t] == Some(d) && outranks(
                        scores,
                        t,
                        d,
                        s,
                        d,
                    );
                assert(after[t] == Some(d));
            }
        }
    }
}

/// Among the pairs that are open, one outranks all others.
proof fn lemma_best(
    scores: Seq<Seq<i32>>,
    chosen: Seq<Option<int>>,
    used: Seq<bool>,
    r: int,
    c: int,
) -> (best: (int, int))
    requires
        chosen.len() == scores.len(),
        is_open(chosen, used, r, c),
    ensures
        is_open(chosen, used, best.0, best.1),
        forall|s: int, d: int|
            #[trigger] is_open(chosen, used, s, d) && (s != best.0 || d != best.1) ==> outranks(
                scores,
                best.0,
                best.1,
                s,
                d,
            ),
    decreases place(scores, used.len() as int, r, c),
{
    if exists|s: int, d: int|
        #[trigger] is_open(chosen, used, s, d) && outranks(scores, s, d, r, c) {
        let (s, d) = choose|s: int, d: int|
            #[trigger] is_open(chosen, used, s, d) && outranks(scores, s, d, r, c);
        lemma_place(scores, used.len() as int, s, d, r, c);
        lemma_best(scores, chosen, used, s, d)
    } else {
        (r, c)
    }
}

/// Picking goes on until every row has a column.
proof fn lemma_completes(
    scores: Seq<Seq<i32>>,
    chosen: Seq<Option<int>>,
    used: Seq<bool>,
    rows_done: Set<int>,
    columns_done: Set<int>,
) -> (result: Seq<int>)
    requires
        is_partial(scores, chosen, used, rows_done, columns_done),
        scores.len() <= used.len(),
        rows_done.subset_of(set_int_range(0, scores.len() as int)),
    ensures
        is_assignment(scores, used.len() as int, result),
    decreases scores.len() - rows_done.len(),
{
    let rows = scores.len() as int;
    lemma_int_range(0, rows);
    lemma_len_subset(rows_done, set_int_range(0, rows));
    if rows_done.len() == rows {
        lemma_subset_equality(rows_done, set_int_range(0, rows));
        lemma_finished(scores, chosen, used, rows_done, columns_done);
        chosen.map_values(|pick: Option<int>| pick->0)
    } else {
        let free_row = lemma_missing(rows, rows_done);
        let free_column = lemma_missing(used.len() as int, columns_done);
        let (r, c) = lemma_best(scores, chosen, used, free_row, free_column);
        lemma_pick(scores, chosen, used, rows_done, columns_done, r, c);
        lemma_completes(
            scores,
            chosen.update(r, Some(c)),
            used.update(c, true),
            rows_done.insert(r),
            columns_done.insert(c),
        )
    }
}

/// When every row has a column, the picks are an assignment.
proof fn lemma_finished(
    scores: Seq<Seq<i32>>,
    chosen: Seq<Option<int>>,
    used: Seq<bool>,
    rows_done: Set<int>,
    columns_done: Set<int>,
)
    requires
        is_partial(scores, chosen, used, rows_done, columns_done),
        forall|r: int| 0 <= r < scores.len() ==> rows_done.contains(r),
    ensures
        is_assignment(
            scores,
            used.len() as int,
            chosen.map_values(|pick: Option<int>| pick->0),
        ),
{
    let result = chosen.map_values(|pick: Option<int>| pick->0);
    assert forall|s: int| 0 <= s < chosen.len() implies #[trigger] chosen[s] == Some(result[s]) by {
        assert(chosen[s] is Some);
    }
    assert forall|s: int| 0 <= s < result.len() implies 0 <= #[trigger] result[s] < used.len() by {
        assert(chosen[s] == Some(result[s]));
    }
    assert forall|s: int, t: int| 0 <= s < t < result.len() implies #[trigger] result[s]
        != #[trigger] result[t] by {
        assert(chosen[s] == Some(result[s]));
        assert(chosen[t] == Some(result[t]));
    }
    assert forall|s: int, d: int|
        0 <= s < result.len() && 0 <= d < used.len() && d != result[s] implies #[trigger] is_beaten(
        scores,
        result,
        s,
        d,
    ) by {
        assert(chosen[s] == Some(result[s]));
        assert(is_beaten_so_far(scores, chosen, s, d));
        if !outranks(scores, s, result[s], s, d) {
            let t = choose|t: int|
                0 <= t < chosen.len() && #[trigger] chosen[t] == Some(d) && outranks(
                    scores,
                    t,
                    d,
                    s,
                    d,
                );
            assert(chosen[t] == Some(result[t]));
            assert(result[t] == d);
        }
    }
}

/// Where there are at least as many columns as rows, there is exactly one
/// assignment: every row gets a column, no two rows the same, and a pair is
/// passed over only where one of a higher rank took its row or its column.
pub proof fn law_assignment_exists(scores: Seq<Seq<i32>>, columns: int)
    requires
        forall|r: int| 0 <= r < scores.len() ==> (#[trigger] scores[r]).len() == columns,
        scores.len() <= columns,
    ensures
        is_assignment(scores, columns, assignment(scores, columns)),
        forall|other: Seq<int>| #[trigger]
            is_assignment(scores, columns, other) ==> other == assignment(scores, columns),
{
    let chosen = Seq::new(scores.len(), |r: int| None::<int>);
    let used = Seq::new(columns as nat, |c: int| false);
    assert(is_partial(scores, chosen, used, Set::empty(), Set::empty()));
    let result = lemma_completes(scores, chosen, used, Set::empty(), Set::empty());
    assert(is_assignment(scores, columns, result));
    assert forall|other: Seq<int>| #[trigger] is_assignment(scores, columns, other) implies other
        == assignment(scores, columns) by {
        lemma_assignment_unique(scores, columns, other, assignment(scores, columns));
    }
}

/// A pair that outranks every other pair of its row and of its column is
/// assigned.
pub proof fn law_highest_pair_assigned(scores: Seq<Seq<i32>>, columns: int, r: int, c: int)
    requires
        forall|s: int| 0 <= s < scores.len() ==> (#[trigger] scores[s]).len() == columns,
        scores.len() <= columns,
        0 <= r < scores.len(),
        0 <= c < columns,
        forall|d: int| 0 <= d < columns && d != c ==> #[trigger] outranks(scores, r, c, r, d),
        forall|s: int|
            0 <= s < scores.len() && s != r ==> #[trigger] outranks(scores, r, c, s, c),
    ensures
        assignment(scores, columns)[r] == c,
{
    law_assignment_exists(scores, columns);
    let chosen = assignment(scores, columns);
    if chosen[r] != c {
        assert(is_beaten(scores, chosen, r, c));
        if outranks(scores, r, chosen[r], r, c) {
            assert(outranks(scores, r, c, r, chosen[r]));
        } else {
            let s = choose|s: int|
                0 <= s < chosen.len() && #[trigger] chosen[s] == c && outranks(scores, s, c, r, c);
            assert(outranks(scores, r, c, s, c));
        }
    }
}

/// Assigns a column to each row: picks pairs from the highest score down, passing
/// over rows and columns that were picked; at equal scores the earlier row, then
/// the column further left, comes first.
pub fn assign(scores: &Vec<Vec<i32>>, columns: usize) -> (chosen: Vec<usize>)
    requires
        forall|r: int| 0 <= r < scores.len() ==> (#[trigger] scores@[r]).len() == columns,
        scores.len() <= columns,
    ensures
        chosen.len() == scores.len(),
        forall|r: int| 0 <= r < chosen.len() ==> #[trigger] chosen@[r] < columns,
        is_assignment(scores.deep_view(), columns as int, ints(chosen@)),
        assignment(scores.deep_view(), columns as int) == ints(chosen@),
{
    let ghost table = scores.deep_view();
    let rows = scores.len();
    let mut picked: Vec<Option<usize>> = Vec::new();
    let mut used: Vec<bool> = Vec::new();
    let mut r: usize = 0;
    while r < rows
        invariant
            r <= rows,
            picked.len() == r,
            forall|s: int| 0 <= s < r ==> #[trigger] picked@[s] is None,
        decreases rows - r,
    {
        picked.push(None);
        r = r + 1;
    }
    let mut c: usize = 0;
    while c < columns
        invariant
            c <= columns,
            used.len() == c,
            forall|d: int| 0 <= d < c ==> !#[trigger] used@[d],
        decreases columns - c,
    {
        used.push(false);
        c = c + 1;
    }
    let ghost mut rows_done: Set<int> = Set::empty();
    let ghost mut columns_done: Set<int> = Set::empty();
    let mut round: usize = 0;
    while round < rows
        invariant
            rows == scores.len(),
            table == scores.deep_view(),
            forall|s: int| 0 <= s < scores.len() ==> (#[trigger] scores@[s]).len() == columns,
            rows <= columns,
            used.len() == columns,
            round <= rows,
            is_partial(table, picks(picked@), used@, rows_done, columns_done),
            rows_done.len() == round,
            rows_done.subset_of(set_int_range(0, rows as int)),
        decreases rows - round,
    {
        let best = best_pair(scores, &picked, &used);
        proof {
            let free_row = lemma_missing(rows as int, rows_done);
            let free_column = lemma_missing(columns as int, columns_done);
            assert(picks(picked@)[free_row] is None);
            assert(!used@[free_column]);
            assert(is_open(picks(picked@), used@, free_row, free_column));
        }
        if let Some((row, column)) = best {
            proof {
                lemma_pick(
                    table,
                    picks(picked@),
                    used@,
                    rows_done,
                    columns_done,
                    row as int,
                    column as int,
                );
                assert(picks(picked@.update(row as int, Some(column))) =~= picks(
                    picked@,
                ).update(row as int, Some(column as int)));
                assert(!rows_done.contains(row as int));
                rows_done = rows_done.insert(row as int);
                columns_done = columns_done.insert(column as int);
            }
            picked.set(row, Some(column));
            used.set(column, true);
        }
        round = round + 1;
    }
    let mut chosen: Vec<usize> = Vec::new();
    proof {
        lemma_int_range(0, rows as int);
        lemma_subset_equality(rows_done, set_int_range(0, rows as int));
    }
    let mut i: usize = 0;
    while i < rows
        invariant
            i <= rows,
            rows == picked.len(),
            used.len() == columns,
            is_partial(table, picks(picked@), used@, rows_done, columns_done),
            forall|s: int| 0 <= s < rows ==> rows_done.contains(s),
            chosen.len() == i,
            forall|s: int| 0 <= s < i ==> picked@[s] == Some(#[trigger] chosen@[s]),
        decreases rows - i,
    {
        assert(picks(picked@)[i as int] is Some);
        if let Some(column) = picked[i] {
            chosen.push(column);
        }
        i = i + 1;
    }
    let ghost result = ints(chosen@);
    proof {
        lemma_finished(table, picks(picked@), used@, rows_done, columns_done);
        assert(result =~= picks(picked@).map_values(|pick: Option<int>| pick->0));
        assert forall|s: int| 0 <= s < chosen.len() implies #[trigger] chosen@[s] < columns by {
            assert(result[s] == chosen@[s]);
        }
        assert(is_assignment(table, columns as int, result));
        lemma_assignment_unique(table, columns as int, result, assignment(table, columns as int));
    }
    chosen
}

} // verus!
