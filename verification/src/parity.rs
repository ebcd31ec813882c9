//! The parity of the order of the pieces, which every quarter turn changes
//! for corners and edges alike.

use vstd::prelude::*;
use crate::consistency::{lemma_quarter_turn_keeps_consistent, picked};
use crate::coord::smaller_after;
use crate::cubie::{
    inversions, inversions_upto, is_permutation, lemma_compose_assoc, lemma_compose_wf,
    lemma_quarter_turn_wf, CubeState,
};
use crate::moves::Move;

verus! {

/// How many of the places `lo .. hi` of `p` hold less than `x`.
pub open spec fn count_less(p: Seq<int>, x: int, lo: int, hi: int) -> int
    decreases hi - lo,
{
    if hi <= lo {
        0
    } else {
        count_less(p, x, lo, hi - 1) + if p[hi - 1] < x {
            1int
        } else {
            0int
        }
    }
}

/// 1 where the place `j` of `p` holds less than `x`, else 0.
pub open spec fn desc_at(p: Seq<int>, x: int, j: int) -> int {
    if p[j] < x {
        1
    } else {
        0
    }
}

/// The count of smaller entries behind a place is a count of entries less
/// than the one at the place.
pub proof fn lemma_smaller_after_counts(p: Seq<int>, i: int, j: int)
    ensures
        smaller_after(p, i, j) == count_less(p, p[i], i + 1, j),
    decreases j - i,
{
    if j > i + 1 {
        lemma_smaller_after_counts(p, i, j - 1);
    }
}

/// A count over places takes the first place apart as well as the last.
pub proof fn lemma_count_less_first(p: Seq<int>, x: int, lo: int, hi: int)
    requires
        lo < hi,
    ensures
        count_less(p, x, lo, hi) == count_less(p, x, lo + 1, hi) + if p[lo] < x {
            1int
        } else {
            0int
        },
    decreases hi - lo,
{
    if hi > lo + 1 {
        lemma_count_less_first(p, x, lo, hi - 1);
        assert(count_less(p, x, lo + 1, hi) == count_less(p, x, lo + 1, hi - 1) + desc_at(
            p,
            x,
            hi - 1,
        ));
    } else {
        assert(count_less(p, x, lo, lo) == 0);
        assert(count_less(p, x, lo + 1, hi) == 0);
    }
}

/// Sequences that agree on the places counted give the same count.
pub proof fn lemma_count_less_same(p: Seq<int>, q: Seq<int>, x: int, lo: int, hi: int)
    requires
        forall|j: int| lo <= j < hi ==> p[j] == q[j],
    ensures
        count_less(p, x, lo, hi) == count_less(q, x, lo, hi),
    decreases hi - lo,
{
    if hi > lo {
        lemma_count_less_same(p, q, x, lo, hi - 1);
    }
}

/// The sequence `p` with the entries at the places `i` and `i + 1`
/// exchanged.
pub open spec fn exchanged(p: Seq<int>, i: int) -> Seq<int> {
    p.update(i, p[i + 1]).update(i + 1, p[i])
}

/// Exchanging two neighbours keeps the count of places less than `x` in a
/// range that holds both or none of them.
pub proof fn lemma_count_less_exchanged(p: Seq<int>, i: int, x: int, lo: int, hi: int)
    requires
        0 <= i,
        i + 1 < p.len(),
        0 <= lo <= hi <= p.len(),
        (lo <= i && i + 2 <= hi) || hi <= i || i + 2 <= lo,
    ensures
        count_less(exchanged(p, i), x, lo, hi) == count_less(p, x, lo, hi),
    decreases hi - lo,
{
    let q = exchanged(p, i);
    if hi <= i || i + 2 <= lo {
        lemma_count_less_same(p, q, x, lo, hi);
    } else if hi == i + 2 {
        lemma_count_less_same(p, q, x, lo, i);
        assert(count_less(q, x, lo, i + 1) == count_less(q, x, lo, i) + desc_at(q, x, i));
        assert(count_less(q, x, lo, i + 2) == count_less(q, x, lo, i + 1) + desc_at(q, x, i + 1));
        assert(count_less(p, x, lo, i + 1) == count_less(p, x, lo, i) + desc_at(p, x, i));
        assert(count_less(p, x, lo, i + 2) == count_less(p, x, lo, i + 1) + desc_at(p, x, i + 1));
    } else {
        lemma_count_less_exchanged(p, i, x, lo, hi - 1);
    }
}

/// 1 where the entries of `p` at the places `i` and `j` stand in descending
/// order, else 0.
pub open spec fn desc(p: Seq<int>, i: int, j: int) -> int {
    if p[j] < p[i] {
        1
    } else {
        0
    }
}

/// What exchanging the neighbours at `i` and `i + 1` does to the count of
/// smaller entries behind each place.
pub proof fn lemma_smaller_after_exchanged(p: Seq<int>, i: int, k: int)
    requires
        0 <= i,
        i + 1 < p.len(),
        0 <= k < p.len(),
    ensures
        ({
            let q = exchanged(p, i);
            let n = p.len() as int;
            if k == i {
                smaller_after(q, k, n) == smaller_after(p, i + 1, n) + desc(p, i + 1, i)
            } else if k == i + 1 {
                smaller_after(q, k, n) == smaller_after(p, i, n) - desc(p, i, i + 1)
            } else {
                smaller_after(q, k, n) == smaller_after(p, k, n)
            }
        }),
{
    let q = exchanged(p, i);
    let n = p.len() as int;
    lemma_smaller_after_counts(q, k, n);
    lemma_smaller_after_counts(p, k, n);
    if k == i {
        lemma_smaller_after_counts(p, i + 1, n);
        lemma_count_less_first(q, p[i + 1], i + 1, n);
        lemma_count_less_same(p, q, p[i + 1], i + 2, n);
    } else if k == i + 1 {
        lemma_smaller_after_counts(p, i, n);
        lemma_count_less_first(p, p[i], i + 1, n);
        lemma_count_less_same(p, q, p[i], i + 2, n);
    } else if k < i {
        lemma_count_less_exchanged(p, i, p[k], k + 1, n);
    } else {
        lemma_count_less_same(p, q, p[k], k + 1, n);
    }
}

/// What exchanging the neighbours at `i` and `i + 1` does to the number of
/// pairs in descending order among the first `m` places and those behind
/// them.
pub proof fn lemma_inversions_upto_exchanged(p: Seq<int>, i: int, m: int)
    requires
        0 <= i,
        i + 1 < p.len(),
        0 <= m <= p.len(),
    ensures
        ({
            let q = exchanged(p, i);
            let n = p.len() as int;
            if m <= i {
                inversions_upto(q, m) == inversions_upto(p, m)
            } else if m == i + 1 {
                inversions_upto(q, m) == inversions_upto(p, i) + smaller_after(p, i + 1, n) + desc(
                    p,
                    i + 1,
                    i,
                )
            } else {
                inversions_upto(q, m) == inversions_upto(p, m) + desc(p, i + 1, i) - desc(
                    p,
                    i,
                    i + 1,
                )
            }
        }),
    decreases m,
{
    if m > 0 {
        lemma_inversions_upto_exchanged(p, i, m - 1);
        lemma_smaller_after_exchanged(p, i, m - 1);
    }
}

/// Exchanging two neighbours of a sequence without repeated entries changes
/// the parity of its order.
pub proof fn lemma_exchange_changes_parity(p: Seq<int>, i: int)
    requires
        0 <= i,
        i + 1 < p.len(),
        is_permutation(p),
    ensures
        inversions(exchanged(p, i)) % 2 != inversions(p) % 2,
        is_permutation(exchanged(p, i)),
        exchanged(p, i).len() == p.len(),
{
    let q = exchanged(p, i);
    lemma_inversions_upto_exchanged(p, i, p.len() as int);
    assert(p[i] != p[i + 1]);
    assert forall|a: int, b: int| 0 <= a < b < q.len() implies q[a] != q[b] by {
        let a0 = if a == i {
            i + 1
        } else if a == i + 1 {
            i
        } else {
            a
        };
        let b0 = if b == i {
            i + 1
        } else if b == i + 1 {
            i
        } else {
            b
        };
        assert(q[a] == p[a0] && q[b] == p[b0]);
        if a0 < b0 {
            assert(p[a0] != p[b0]);
        } else {
            assert(p[b0] != p[a0]);
        }
    }
}

/// A quarter turn changes the parity of the order of the corners: it
/// amounts to an odd number of exchanges of neighbours.
#[verifier::rlimit(40)]
pub proof fn lemma_quarter_turn_corner_parity(p: Seq<int>, f: int)
    requires
        p.len() == 8,
        is_permutation(p),
    ensures
        inversions(picked(p, CubeState::quarter_turn(f).cp)) % 2 != inversions(p) % 2,
{
    let r = picked(p, CubeState::quarter_turn(f).cp);
    if f == 0 {
        let s0 = p;
        lemma_exchange_changes_parity(s0, 2);
        let s1 = exchanged(s0, 2);
        lemma_exchange_changes_parity(s1, 1);
        let s2 = exchanged(s1, 1);
        lemma_exchange_changes_parity(s2, 0);
        let s3 = exchanged(s2, 0);
        assert(r =~= s3);
    } else if f == 1 {
        let s0 = p;
        lemma_exchange_changes_parity(s0, 6);
        let s1 = exchanged(s0, 6);
        lemma_exchange_changes_parity(s1, 5);
        let s2 = exchanged(s1, 5);
        lemma_exchange_changes_parity(s2, 4);
        let s3 = exchanged(s2, 4);
        assert(r =~= s3);
    } else if f == 2 {
        let s0 = p;
        lemma_exchange_changes_parity(s0, 1);
        let s1 = exchanged(s0, 1);
        lemma_exchange_changes_parity(s1, 4);
        let s2 = exchanged(s1, 4);
        lemma_exchange_changes_parity(s2, 3);
        let s3 = exchanged(s2, 3);
        lemma_exchange_changes_parity(s3, 2);
        let s4 = exchanged(s3, 2);
        lemma_exchange_changes_parity(s4, 3);
        let s5 = exchanged(s4, 3);
        lemma_exchange_changes_parity(s5, 4);
        let s6 = exchanged(s5, 4);
        lemma_exchange_changes_parity(s6, 5);
        let s7 = exchanged(s6, 5);
        assert(r =~= s7);
    } else if f == 3 {
        let s0 = p;
        lemma_exchange_changes_parity(s0, 6);
        let s1 = exchanged(s0, 6);
        lemma_exchange_changes_parity(s1, 5);
        let s2 = exchanged(s1, 5);
        lemma_exchange_changes_parity(s2, 4);
        let s3 = exchanged(s2, 4);
        lemma_exchange_changes_parity(s3, 3);
        let s4 = exchanged(s3, 3);
        lemma_exchange_changes_parity(s4, 2);
        let s5 = exchanged(s4, 2);
        lemma_exchange_changes_parity(s5, 1);
        let s6 = exchanged(s5, 1);
        lemma_exchange_changes_parity(s6, 0);
        let s7 = exchanged(s6, 0);
        lemma_exchange_changes_parity(s7, 1);
        let s8 = exchanged(s7, 1);
        lemma_exchange_changes_parity(s8, 2);
        let s9 = exchanged(s8, 2);
        lemma_exchange_changes_parity(s9, 5);
        let s10 = exchanged(s9, 5);
        lemma_exchange_changes_parity(s10, 6);
        let s11 = exchanged(s10, 6);
        assert(r =~= s11);
    } else if f == 4 {
        let s0 = p;
        lemma_exchange_changes_parity(s0, 2);
        let s1 = exchanged(s0, 2);
        lemma_exchange_changes_parity(s1, 3);
        let s2 = exchanged(s1, 3);
        lemma_exchange_changes_parity(s2, 4);
        let s3 = exchanged(s2, 4);
        assert(r =~= s3);
    } else {
        let s0 = p;
        lemma_exchange_changes_parity(s0, 0);
        let s1 = exchanged(s0, 0);
        lemma_exchange_changes_parity(s1, 5);
        let s2 = exchanged(s1, 5);
        lemma_exchange_changes_parity(s2, 4);
        let s3 = exchanged(s2, 4);
        lemma_exchange_changes_parity(s3, 3);
        let s4 = exchanged(s3, 3);
        lemma_exchange_changes_parity(s4, 2);
        let s5 = exchanged(s4, 2);
        lemma_exchange_changes_parity(s5, 1);
        let s6 = exchanged(s5, 1);
        lemma_exchange_changes_parity(s6, 2);
        let s7 = exchanged(s6, 2);
        lemma_exchange_changes_parity(s7, 3);
        let s8 = exchanged(s7, 3);
        lemma_exchange_changes_parity(s8, 4);
        let s9 = exchanged(s8, 4);
        lemma_exchange_changes_parity(s9, 5);
        let s10 = exchanged(s9, 5);
        lemma_exchange_changes_parity(s10, 6);
        let s11 = exchanged(s10, 6);
        assert(r =~= s11);
    }
}

/// A quarter turn changes the parity of the order of the edges: it
/// amounts to an odd number of exchanges of neighbours.
#[verifier::rlimit(40)]
pub proof fn lemma_quarter_turn_edge_parity(p: Seq<int>, f: int)
    requires
        p.len() == 12,
        is_permutation(p),
    ensures
        inversions(picked(p, CubeState::quarter_turn(f).ep)) % 2 != inversions(p) % 2,
{
    let r = picked(p, CubeState::quarter_turn(f).ep);
    if f == 0 {
        let s0 = p;
        lemma_exchange_changes_parity(s0, 6);
        let s1 = exchanged(s0, 6);
        lemma_exchange_changes_parity(s1, 5);
        let s2 = exchanged(s1, 5);
        lemma_exchange_changes_parity(s2, 4);
        let s3 = exchanged(s2, 4);
        assert(r =~= s3);
    } else if f == 1 {
        let s0 = p;
        lemma_exchange_changes_parity(s0, 10);
        let s1 = exchanged(s0, 10);
        lemma_exchange_changes_parity(s1, 9);
        let s2 = exchanged(s1, 9);
        lemma_exchange_changes_parity(s2, 8);
        let s3 = exchanged(s2, 8);
        assert(r =~= s3);
    } else if f == 2 {
        let s0 = p;
        lemma_exchange_changes_parity(s0, 4);
        let s1 = exchanged(s0, 4);
        lemma_exchange_changes_parity(s1, 3);
        let s2 = exchanged(s1, 3);
        lemma_exchange_changes_parity(s2, 2);
        let s3 = exchanged(s2, 2);
        lemma_exchange_changes_parity(s3, 1);
        let s4 = exchanged(s3, 1);
        lemma_exchange_changes_parity(s4, 8);
        let s5 = exchanged(s4, 8);
        lemma_exchange_changes_parity(s5, 7);
        let s6 = exchanged(s5, 7);
        lemma_exchange_changes_parity(s6, 6);
        let s7 = exchanged(s6, 6);
        lemma_exchange_changes_parity(s7, 5);
        let s8 = exchanged(s7, 5);
        lemma_exchange_changes_parity(s8, 4);
        let s9 = exchanged(s8, 4);
        lemma_exchange_changes_parity(s9, 3);
        let s10 = exchanged(s9, 3);
        lemma_exchange_changes_parity(s10, 2);
        let s11 = exchanged(s10, 2);
        lemma_exchange_changes_parity(s11, 4);
        let s12 = exchanged(s11, 4);
        lemma_exchange_changes_parity(s12, 3);
        let s13 = exchanged(s12, 3);
        lemma_exchange_changes_parity(s13, 5);
        let s14 = exchanged(s13, 5);
        lemma_exchange_changes_parity(s14, 4);
        let s15 = exchanged(s14, 4);
        lemma_exchange_changes_parity(s15, 5);
        let s16 = exchanged(s15, 5);
        lemma_exchange_changes_parity(s16, 6);
        let s17 = exchanged(s16, 6);
        lemma_exchange_changes_parity(s17, 7);
        let s18 = exchanged(s17, 7);
        lemma_exchange_changes_parity(s18, 8);
        let s19 = exchanged(s18, 8);
        assert(r =~= s19);
    } else if f == 3 {
        let s0 = p;
        lemma_exchange_changes_parity(s0, 10);
        let s1 = exchanged(s0, 10);
        lemma_exchange_changes_parity(s1, 9);
        let s2 = exchanged(s1, 9);
        lemma_exchange_changes_parity(s2, 8);
        let s3 = exchanged(s2, 8);
        lemma_exchange_changes_parity(s3, 7);
        let s4 = exchanged(s3, 7);
        lemma_exchange_changes_parity(s4, 6);
        let s5 = exchanged(s4, 6);
        lemma_exchange_changes_parity(s5, 5);
        let s6 = exchanged(s5, 5);
        lemma_exchange_changes_parity(s6, 4);
        let s7 = exchanged(s6, 4);
        lemma_exchange_changes_parity(s7, 3);
        let s8 = exchanged(s7, 3);
        lemma_exchange_changes_parity(s8, 2);
        let s9 = exchanged(s8, 2);
        lemma_exchange_changes_parity(s9, 1);
        let s10 = exchanged(s9, 1);
        lemma_exchange_changes_parity(s10, 0);
        let s11 = exchanged(s10, 0);
        lemma_exchange_changes_parity(s11, 1);
        let s12 = exchanged(s11, 1);
        lemma_exchange_changes_parity(s12, 2);
        let s13 = exchanged(s12, 2);
        lemma_exchange_changes_parity(s13, 7);
        let s14 = exchanged(s13, 7);
        lemma_exchange_changes_parity(s14, 6);
        let s15 = exchanged(s14, 6);
        lemma_exchange_changes_parity(s15, 5);
        let s16 = exchanged(s15, 5);
        lemma_exchange_changes_parity(s16, 4);
        let s17 = exchanged(s16, 4);
        lemma_exchange_changes_parity(s17, 3);
        let s18 = exchanged(s17, 3);
        lemma_exchange_changes_parity(s18, 5);
        let s19 = exchanged(s18, 5);
        lemma_exchange_changes_parity(s19, 4);
        let s20 = exchanged(s19, 4);
        lemma_exchange_changes_parity(s20, 6);
        let s21 = exchanged(s20, 6);
        lemma_exchange_changes_parity(s21, 5);
        let s22 = exchanged(s21, 5);
        lemma_exchange_changes_parity(s22, 7);
        let s23 = exchanged(s22, 7);
        lemma_exchange_changes_parity(s23, 6);
        let s24 = exchanged(s23, 6);
        lemma_exchange_changes_parity(s24, 8);
        let s25 = exchanged(s24, 8);
        lemma_exchange_changes_parity(s25, 9);
        let s26 = exchanged(s25, 9);
        lemma_exchange_changes_parity(s26, 10);
        let s27 = exchanged(s26, 10);
        assert(r =~= s27);
    } else if f == 4 {
        let s0 = p;
        lemma_exchange_changes_parity(s0, 5);
        let s1 = exchanged(s0, 5);
        lemma_exchange_changes_parity(s1, 4);
        let s2 = exchanged(s1, 4);
        lemma_exchange_changes_parity(s2, 3);
        let s3 = exchanged(s2, 3);
        lemma_exchange_changes_parity(s3, 2);
        let s4 = exchanged(s3, 2);
        lemma_exchange_changes_parity(s4, 7);
        let s5 = exchanged(s4, 7);
        lemma_exchange_changes_parity(s5, 6);
        let s6 = exchanged(s5, 6);
        lemma_exchange_changes_parity(s6, 5);
        let s7 = exchanged(s6, 5);
        lemma_exchange_changes_parity(s7, 4);
        let s8 = exchanged(s7, 4);
        lemma_exchange_changes_parity(s8, 3);
        let s9 = exchanged(s8, 3);
        lemma_exchange_changes_parity(s9, 5);
        let s10 = exchanged(s9, 5);
        lemma_exchange_changes_parity(s10, 4);
        let s11 = exchanged(s10, 4);
        lemma_exchange_changes_parity(s11, 6);
        let s12 = exchanged(s11, 6);
        lemma_exchange_changes_parity(s12, 5);
        let s13 = exchanged(s12, 5);
        lemma_exchange_changes_parity(s13, 6);
        let s14 = exchanged(s13, 6);
        lemma_exchange_changes_parity(s14, 7);
        let s15 = exchanged(s14, 7);
        assert(r =~= s15);
    } else {
        let s0 = p;
        lemma_exchange_changes_parity(s0, 3);
        let s1 = exchanged(s0, 3);
        lemma_exchange_changes_parity(s1, 2);
        let s2 = exchanged(s1, 2);
        lemma_exchange_changes_parity(s2, 1);
        let s3 = exchanged(s2, 1);
        lemma_exchange_changes_parity(s3, 0);
        let s4 = exchanged(s3, 0);
        lemma_exchange_changes_parity(s4, 9);
        let s5 = exchanged(s4, 9);
        lemma_exchange_changes_parity(s5, 8);
        let s6 = exchanged(s5, 8);
        lemma_exchange_changes_parity(s6, 7);
        let s7 = exchanged(s6, 7);
        lemma_exchange_changes_parity(s7, 6);
        let s8 = exchanged(s7, 6);
        lemma_exchange_changes_parity(s8, 5);
        let s9 = exchanged(s8, 5);
        lemma_exchange_changes_parity(s9, 4);
        let s10 = exchanged(s9, 4);
        lemma_exchange_changes_parity(s10, 3);
        let s11 = exchanged(s10, 3);
        lemma_exchange_changes_parity(s11, 2);
        let s12 = exchanged(s11, 2);
        lemma_exchange_changes_parity(s12, 1);
        let s13 = exchanged(s12, 1);
        lemma_exchange_changes_parity(s13, 3);
        let s14 = exchanged(s13, 3);
        lemma_exchange_changes_parity(s14, 2);
        let s15 = exchanged(s14, 2);
        lemma_exchange_changes_parity(s15, 4);
        let s16 = exchanged(s15, 4);
        lemma_exchange_changes_parity(s16, 3);
        let s17 = exchanged(s16, 3);
        lemma_exchange_changes_parity(s17, 4);
        let s18 = exchanged(s17, 4);
        lemma_exchange_changes_parity(s18, 5);
        let s19 = exchanged(s18, 5);
        lemma_exchange_changes_parity(s19, 6);
        let s20 = exchanged(s19, 6);
        lemma_exchange_changes_parity(s20, 7);
        let s21 = exchanged(s20, 7);
        lemma_exchange_changes_parity(s21, 8);
        let s22 = exchanged(s21, 8);
        lemma_exchange_changes_parity(s22, 9);
        let s23 = exchanged(s22, 9);
        assert(r =~= s23);
    }
}

/// A quarter turn keeps a solvable cube solvable.
pub proof fn lemma_quarter_turn_keeps_solvable(s: CubeState, f: int)
    requires
        s.solvable(),
    ensures
        s.compose(CubeState::quarter_turn(f)).solvable(),
{
    let q = CubeState::quarter_turn(f);
    let r = s.compose(q);
    lemma_quarter_turn_keeps_consistent(s, f);
    lemma_quarter_turn_corner_parity(s.cp, f);
    lemma_quarter_turn_edge_parity(s.ep, f);
    assert(r.cp =~= picked(s.cp, q.cp));
    assert(r.ep =~= picked(s.ep, q.ep));
}

/// A move keeps a solvable cube solvable.
pub proof fn lemma_move_keeps_solvable(s: CubeState, m: Move)
    requires
        s.solvable(),
    ensures
        s.apply(m).solvable(),
{
    let f = m.spec_face();
    let q = CubeState::quarter_turn(f);
    lemma_quarter_turn_wf(f);
    lemma_compose_wf(q, q);
    lemma_quarter_turn_keeps_solvable(s, f);
    if m.spec_turns() >= 2 {
        lemma_quarter_turn_keeps_solvable(s.compose(q), f);
        lemma_compose_assoc(s, q, q);
    }
    if m.spec_turns() == 3 {
        lemma_quarter_turn_keeps_solvable(s.compose(q).compose(q), f);
        lemma_compose_assoc(s, q.compose(q), q);
    }
}

/// Moves keep a solvable cube solvable.
pub proof fn lemma_moves_keep_solvable(s: CubeState, ms: Seq<Move>)
    requires
        s.solvable(),
    ensures
        s.apply_all(ms).solvable(),
    decreases ms.len(),
{
    if ms.len() > 0 {
        lemma_moves_keep_solvable(s, ms.drop_last());
        lemma_move_keeps_solvable(s.apply_all(ms.drop_last()), ms.last());
    }
}

/// The solved cube is solvable.
pub proof fn lemma_solved_solvable()
    ensures
        CubeState::solved().solvable(),
{
    let s = CubeState::solved();
    crate::consistency::lemma_solved_consistent();
    crate::ranking::lemma_ascending_no_smaller(s.cp, 0, 8);
    lemma_ascending_inversions(s.cp, 8);
    lemma_ascending_inversions(s.ep, 12);
}

/// An ascending sequence has no pair in descending order.
pub proof fn lemma_ascending_inversions(p: Seq<int>, n: int)
    requires
        forall|a: int, b: int| 0 <= a < b < p.len() ==> p[a] < p[b],
        0 <= n <= p.len(),
    ensures
        inversions_upto(p, n) == 0,
    decreases n,
{
    if n > 0 {
        lemma_ascending_inversions(p, n - 1);
        crate::ranking::lemma_ascending_no_smaller(p, n - 1, p.len() as int);
    }
}

/// Every cube that moves make of the solved cube is solvable: each piece
/// is there once, the twists and flips add up, and corners and edges have
/// orders of the same parity.
pub proof fn lemma_scramble_solvable(ms: Seq<Move>)
    ensures
        CubeState::solved().apply_all(ms).solvable(),
{
    lemma_solved_solvable();
    lemma_moves_keep_solvable(CubeState::solved(), ms);
}

} // verus!
