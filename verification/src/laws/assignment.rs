//! Laws of assigning columns to rows.

use crate::assignment::{
    assignment, is_assignment, is_beaten, law_assignment_exists, law_highest_pair_assigned,
    outranks,
};
use vstd::prelude::*;

verus! {

/// A pair that scores no less than any other pair of its row and its column, and
/// more than those before it, is assigned.
pub proof fn law_best_score_assigned(scores: Seq<Seq<i32>>, columns: int, r: int, c: int)
    requires
        forall|s: int| 0 <= s < scores.len() ==> (#[trigger] scores[s]).len() == columns,
        scores.len() <= columns,
        0 <= r < scores.len(),
        0 <= c < columns,
        forall|d: int| 0 <= d < c ==> scores[r][c] > #[trigger] scores[r][d],
        forall|d: int| c < d < columns ==> scores[r][c] >= #[trigger] scores[r][d],
        forall|s: int| 0 <= s < r ==> scores[r][c] > (#[trigger] scores[s])[c],
        forall|s: int| r < s < scores.len() ==> scores[r][c] >= (#[trigger] scores[s])[c],
    ensures
        assignment(scores, columns)[r] == c,
{
    assert forall|d: int| 0 <= d < columns && d != c implies #[trigger] outranks(
        scores,
        r,
        c,
        r,
        d,
    ) by {
        assert(scores[r][c] >= scores[r][d]);
    }
    assert forall|s: int| 0 <= s < scores.len() && s != r implies #[trigger] outranks(
        scores,
        r,
        c,
        s,
        c,
    ) by {
        assert(scores[r][c] >= scores[s][c]);
    }
    law_highest_pair_assigned(scores, columns, r, c);
}

/// The position before an element was taken out.
spec fn unshifted(i: int, out: int) -> int {
    if i < out {
        i
    } else {
        i + 1
    }
}

/// The position after an element was taken out.
pub open spec fn shifted(i: int, out: int) -> int {
    if i < out {
        i
    } else {
        i - 1
    }
}

/// The scores without a row and a column.
pub open spec fn scores_without(scores: Seq<Seq<i32>>, r: int, c: int) -> Seq<Seq<i32>> {
    scores.remove(r).map_values(|row: Seq<i32>| row.remove(c))
}

/// Without a row and the column assigned to it, the other rows keep theirs.
pub proof fn law_other_rows_keep_columns(scores: Seq<Seq<i32>>, columns: int, r: int)
    requires
        forall|s: int| 0 <= s < scores.len() ==> (#[trigger] scores[s]).len() == columns,
        scores.len() <= columns,
        0 <= r < scores.len(),
    ensures
        ({
            let c = assignment(scores, columns)[r];
            let rest = assignment(scores_without(scores, r, c), columns - 1);
            &&& 0 <= c < columns
            &&& rest.len() == scores.len() - 1
            &&& forall|s: int|
                0 <= s < scores.len() && s != r ==> #[trigger] assignment(scores, columns)[s] != c
                    && rest[shifted(s, r)] == shifted(assignment(scores, columns)[s], c)
        }),
{
    law_assignment_exists(scores, columns);
    let chosen = assignment(scores, columns);
    let c = chosen[r];
    let fewer = scores_without(scores, r, c);
    let kept = Seq::new(
        (scores.len() - 1) as nat,
        |s: int| shifted(chosen[unshifted(s, r)], c),
    );
    assert forall|s: int| 0 <= s < fewer.len() implies (#[trigger] fewer[s]).len() == columns - 1 by {
        assert(scores.remove(r)[s] == scores[unshifted(s, r)]);
        assert(scores[unshifted(s, r)].len() == columns);
    }
    assert forall|s: int, d: int| 0 <= s < fewer.len() && 0 <= d < columns - 1 implies #[trigger] fewer[s][d]
        == scores[unshifted(s, r)][unshifted(d, c)] by {
        assert(scores.remove(r)[s] == scores[unshifted(s, r)]);
        assert(scores[unshifted(s, r)].len() == columns);
    }
    assert forall|s: int| 0 <= s < kept.len() implies 0 <= #[trigger] kept[s] < columns - 1
        && unshifted(kept[s], c) == chosen[unshifted(s, r)] by {
        let t = unshifted(s, r);
        assert(0 <= chosen[t] < columns);
        if t < r {
            assert(chosen[t] != chosen[r]);
        } else {
            assert(chosen[r] != chosen[t]);
        }
    }
    assert forall|s: int, t: int| 0 <= s < t < kept.len() implies #[trigger] kept[s]
        != #[trigger] kept[t] by {
        assert(chosen[unshifted(s, r)] != chosen[unshifted(t, r)]);
        assert(unshifted(kept[s], c) == chosen[unshifted(s, r)]);
        assert(unshifted(kept[t], c) == chosen[unshifted(t, r)]);
    }
    assert forall|s: int, d: int|
        0 <= s < kept.len() && 0 <= d < columns - 1 && d != kept[s] implies #[trigger] is_beaten(
        fewer,
        kept,
        s,
        d,
    ) by {
        let t = unshifted(s, r);
        let e = unshifted(d, c);
        assert(unshifted(kept[s], c) == chosen[t]);
        assert(e != chosen[t]);
        assert(is_beaten(scores, chosen, t, e));
        assert(fewer[s][d] == scores[t][e]);
        assert(fewer[s][kept[s]] == scores[t][chosen[t]]);
        if !outranks(scores, t, chosen[t], t, e) {
            let u = choose|u: int|
                0 <= u < chosen.len() && #[trigger] chosen[u] == e && outranks(scores, u, e, t, e);
            assert(u != r);
            let v = shifted(u, r);
            assert(unshifted(v, r) == u);
            assert(unshifted(kept[v], c) == chosen[u]);
            assert(kept[v] == d);
            assert(fewer[v][d] == scores[u][e]);
        }
    }
    assert(is_assignment(fewer, columns - 1, kept));
    law_assignment_exists(fewer, columns - 1);
    assert forall|s: int| 0 <= s < scores.len() && s != r implies #[trigger] chosen[s] != c && kept[shifted(
        s,
        r,
    )] == shifted(chosen[s], c) by {
        assert(unshifted(shifted(s, r), r) == s);
        if s < r {
            assert(chosen[s] != chosen[r]);
        } else {
            assert(chosen[r] != chosen[s]);
        }
    }
}

} // verus!
