//! What a coordinate tells about the cube: equal coordinates mean equal
//! twists, equal slice places, or pieces in the same relative order.

use vstd::prelude::*;
use crate::coord::{
    binom, combo_rank, digits_value, lemma_binom_nonnegative, lemma_smaller_after_bound,
    perm_rank, rank_prefix, smaller_after,
};
use crate::cubie::is_permutation;

verus! {

/// Two numbers with the same quotient and remainder layout are equal part
/// by part.
pub proof fn lemma_split_unique(a: int, b: int, c: int, d: int, k: int)
    requires
        k > 0,
        0 <= b < k,
        0 <= d < k,
        a * k + b == c * k + d,
    ensures
        a == c,
        b == d,
{
    assert(a == c) by (nonlinear_arith)
        requires
            k > 0,
            0 <= b < k,
            0 <= d < k,
            a * k + b == c * k + d,
    ;
    assert(a * k == c * k);
}

/// Digit sequences of one length with the same value are the same.
pub proof fn lemma_digits_injective(s: Seq<int>, t: Seq<int>, base: int)
    requires
        base >= 1,
        s.len() == t.len(),
        forall|i: int| 0 <= i < s.len() ==> 0 <= #[trigger] s[i] < base,
        forall|i: int| 0 <= i < t.len() ==> 0 <= #[trigger] t[i] < base,
        digits_value(s, base) == digits_value(t, base),
    ensures
        s == t,
    decreases s.len(),
{
    if s.len() > 0 {
        assert(0 <= s.last() < base);
        assert(0 <= t.last() < base);
        lemma_split_unique(
            digits_value(s.drop_last(), base),
            s.last(),
            digits_value(t.drop_last(), base),
            t.last(),
            base,
        );
        lemma_digits_injective(s.drop_last(), t.drop_last(), base);
        assert(s =~= s.drop_last().push(s.last()));
        assert(t =~= t.drop_last().push(t.last()));
    } else {
        assert(s =~= t);
    }
}

/// The entries of both sequences stand in the same order to each other.
pub open spec fn same_order(p: Seq<int>, q: Seq<int>) -> bool {
    &&& p.len() == q.len()
    &&& forall|i: int, j: int|
        0 <= i < p.len() && 0 <= j < p.len() ==> ((p[i] < p[j]) == (q[i] < q[j]))
}

/// Sequences in the same order have the same counts of smaller entries
/// behind each place.
pub proof fn lemma_same_order_counts(p: Seq<int>, q: Seq<int>, i: int, j: int)
    requires
        same_order(p, q),
        0 <= i < p.len(),
        j <= p.len(),
    ensures
        smaller_after(p, i, j) == smaller_after(q, i, j),
    decreases j - i,
{
    if j > i + 1 {
        lemma_same_order_counts(p, q, i, j - 1);
        assert((p[j - 1] < p[i]) == (q[j - 1] < q[i]));
    }
}

/// Sequences in the same order have the same rank.
pub proof fn lemma_same_order_rank_prefix(p: Seq<int>, q: Seq<int>, i: int)
    requires
        same_order(p, q),
        0 <= i <= p.len(),
    ensures
        rank_prefix(p, i) == rank_prefix(q, i),
    decreases i,
{
    if i > 0 {
        lemma_same_order_rank_prefix(p, q, i - 1);
        lemma_same_order_counts(p, q, i - 1, p.len() as int);
    }
}

/// Sequences in the same order have the same rank.
pub proof fn lemma_same_order_rank(p: Seq<int>, q: Seq<int>)
    requires
        same_order(p, q),
    ensures
        perm_rank(p) == perm_rank(q),
{
    lemma_same_order_rank_prefix(p, q, p.len() as int);
}

/// Sequences of one length with the same rank have the same count of
/// smaller entries behind each place.
pub proof fn lemma_rank_gives_counts(p: Seq<int>, q: Seq<int>, i: int)
    requires
        p.len() == q.len(),
        0 <= i <= p.len(),
        rank_prefix(p, i) == rank_prefix(q, i),
    ensures
        forall|k: int|
            0 <= k < i ==> smaller_after(p, k, p.len() as int) == smaller_after(
                q,
                k,
                q.len() as int,
            ),
    decreases i,
{
    if i > 0 {
        let n = p.len() as int;
        lemma_smaller_after_bound(p, i - 1, n);
        lemma_smaller_after_bound(q, i - 1, n);
        lemma_split_unique(
            rank_prefix(p, i - 1),
            smaller_after(p, i - 1, n),
            rank_prefix(q, i - 1),
            smaller_after(q, i - 1, n),
            n - (i - 1),
        );
        lemma_rank_gives_counts(p, q, i - 1);
    }
}

/// Where every place behind `i` that is smaller in `q` is smaller in `p`,
/// `q` counts no more smaller places than `p`; and fewer where `p` has a
/// smaller place at `witness` that `q` has not.
pub proof fn lemma_count_compare(p: Seq<int>, q: Seq<int>, i: int, j: int, witness: int)
    requires
        p.len() == q.len(),
        0 <= i < j <= p.len(),
        forall|k: int| i < k < j && q[k] < q[i] ==> p[k] < p[i],
    ensures
        smaller_after(q, i, j) <= smaller_after(p, i, j),
        i < witness < j && p[witness] < p[i] && !(q[witness] < q[i]) ==> smaller_after(q, i, j)
            < smaller_after(p, i, j),
    decreases j - i,
{
    if j > i + 1 {
        lemma_count_compare(p, q, i, j - 1, witness);
    }
}

/// Sequences without repeated entries that have the same count of smaller
/// entries behind each place stand in the same order from place `i` on.
pub proof fn lemma_counts_give_order(p: Seq<int>, q: Seq<int>, i: int)
    requires
        p.len() == q.len(),
        is_permutation(p),
        is_permutation(q),
        0 <= i <= p.len(),
        forall|k: int|
            0 <= k < p.len() ==> smaller_after(p, k, p.len() as int) == smaller_after(
                q,
                k,
                q.len() as int,
            ),
    ensures
        forall|a: int, b: int|
            i <= a < p.len() && i <= b < p.len() ==> ((p[a] < p[b]) == (q[a] < q[b])),
    decreases p.len() - i,
{
    let n = p.len() as int;
    if i < n {
        lemma_counts_give_order(p, q, i + 1);
        assert forall|k: int| i < k < n implies ((p[k] < p[i]) == (q[k] < q[i])) by {
            if p[k] < p[i] && !(q[k] < q[i]) {
                assert(q[k] != q[i]);
                assert forall|t: int| i < t < n && q[t] < q[i] implies p[t] < p[i] by {
                    assert(q[t] < q[k]);
                    assert((p[t] < p[k]) == (q[t] < q[k]));
                }
                lemma_count_compare(p, q, i, n, k);
            }
            if q[k] < q[i] && !(p[k] < p[i]) {
                assert(p[k] != p[i]);
                assert forall|t: int| i < t < n && p[t] < p[i] implies q[t] < q[i] by {
                    assert(p[t] < p[k]);
                    assert((p[t] < p[k]) == (q[t] < q[k]));
                }
                lemma_count_compare(q, p, i, n, k);
            }
        }
        assert forall|a: int, b: int| i <= a < n && i <= b < n implies ((p[a] < p[b]) == (q[a]
            < q[b])) by {
            if a == i && b == i {
            } else if a == i {
                assert((p[b] < p[i]) == (q[b] < q[i]));
                assert(p[b] != p[i]);
                assert(q[b] != q[i]);
            } else if b == i {
                assert((p[a] < p[i]) == (q[a] < q[i]));
            }
        }
    }
}

/// Sequences of one length without repeated entries that have the same
/// rank stand in the same order.
pub proof fn lemma_rank_gives_order(p: Seq<int>, q: Seq<int>)
    requires
        p.len() == q.len(),
        is_permutation(p),
        is_permutation(q),
        perm_rank(p) == perm_rank(q),
    ensures
        same_order(p, q),
{
    lemma_rank_gives_counts(p, q, p.len() as int);
    lemma_counts_give_order(p, q, 0);
}

/// A sequence of rank 0 ascends.
pub proof fn lemma_rank_zero_ascends(p: Seq<int>)
    requires
        is_permutation(p),
        perm_rank(p) == 0,
    ensures
        forall|a: int, b: int| 0 <= a < b < p.len() ==> p[a] < p[b],
{
    let q = Seq::new(p.len(), |i: int| i);
    lemma_ascending_rank_zero(q, q.len() as int);
    lemma_rank_gives_order(p, q);
    assert forall|a: int, b: int| 0 <= a < b < p.len() implies p[a] < p[b] by {
        assert((p[a] < p[b]) == (q[a] < q[b]));
    }
}

/// An ascending sequence has no smaller entry behind any place.
pub proof fn lemma_ascending_no_smaller(p: Seq<int>, i: int, j: int)
    requires
        forall|a: int, b: int| 0 <= a < b < p.len() ==> p[a] < p[b],
        0 <= i < p.len(),
        j <= p.len(),
    ensures
        smaller_after(p, i, j) == 0,
    decreases j - i,
{
    if j > i + 1 {
        lemma_ascending_no_smaller(p, i, j - 1);
    }
}

/// An ascending sequence has rank 0.
pub proof fn lemma_ascending_rank_zero(p: Seq<int>, i: int)
    requires
        forall|a: int, b: int| 0 <= a < b < p.len() ==> p[a] < p[b],
        0 <= i <= p.len(),
    ensures
        rank_prefix(p, i) == 0,
    decreases i,
{
    if i > 0 {
        lemma_ascending_rank_zero(p, i - 1);
        lemma_ascending_no_smaller(p, i - 1, p.len() as int);
    }
}

/// How many of the places below `i` hold a slice edge, a piece below 4.
pub open spec fn members(ep: Seq<int>, i: int) -> int
    decreases i,
{
    if i <= 0 {
        0
    } else {
        members(ep, i - 1) + if ep[i - 1] < 4 {
            1int
        } else {
            0int
        }
    }
}

/// Both sequences hold slice edges in the same places.
pub open spec fn same_slice(p: Seq<int>, q: Seq<int>) -> bool {
    &&& p.len() == q.len()
    &&& forall|i: int| 0 <= i < p.len() ==> ((#[trigger] p[i] < 4) == (q[i] < 4))
}

/// The count of slice edges is never negative and never above the number
/// of places counted.
pub proof fn lemma_members_bound(ep: Seq<int>, i: int)
    ensures
        0 <= members(ep, i),
        i >= 0 ==> members(ep, i) <= i,
    decreases i,
{
    if i > 0 {
        lemma_members_bound(ep, i - 1);
    }
}

/// Where no slice edge is counted, none is there.
pub proof fn lemma_members_none(ep: Seq<int>, i: int)
    requires
        members(ep, i) == 0,
    ensures
        forall|t: int| 0 <= t < i ==> !(#[trigger] ep[t] < 4),
    decreases i,
{
    if i > 0 {
        lemma_members_bound(ep, i - 1);
        lemma_members_none(ep, i - 1);
    }
}

/// The rank of `k` slice places among the places below `i` is below the
/// number of ways to choose them.
pub proof fn lemma_combo_rank_bound(ep: Seq<int>, i: int, k: int)
    requires
        0 <= i,
        members(ep, i) == k,
    ensures
        0 <= combo_rank(ep, i, k) < binom(i as nat, k as nat),
    decreases i,
{
    lemma_members_bound(ep, i);
    if i > 0 && k > 0 {
        lemma_members_bound(ep, i - 1);
        lemma_binom_nonnegative((i - 1) as nat, (k - 1) as nat);
        lemma_binom_nonnegative((i - 1) as nat, k as nat);
        if ep[i - 1] < 4 {
            lemma_combo_rank_bound(ep, i - 1, k - 1);
        } else {
            lemma_combo_rank_bound(ep, i - 1, k);
        }
    }
}

/// Two ways to place `k` slice edges in the places below `i` that have the
/// same rank are the same.
pub proof fn lemma_combo_rank_injective(p: Seq<int>, q: Seq<int>, i: int, k: int)
    requires
        0 <= i,
        members(p, i) == k,
        members(q, i) == k,
        combo_rank(p, i, k) == combo_rank(q, i, k),
    ensures
        forall|t: int| 0 <= t < i ==> ((#[trigger] p[t] < 4) == (q[t] < 4)),
    decreases i,
{
    lemma_members_bound(p, i);
    if i > 0 {
        lemma_members_bound(p, i - 1);
        lemma_members_bound(q, i - 1);
        if k == 0 {
            lemma_members_none(p, i);
            lemma_members_none(q, i);
        } else {
            lemma_binom_nonnegative((i - 1) as nat, k as nat);
            if p[i - 1] < 4 && q[i - 1] < 4 {
                lemma_combo_rank_injective(p, q, i - 1, k - 1);
            } else if !(p[i - 1] < 4) && !(q[i - 1] < 4) {
                lemma_combo_rank_injective(p, q, i - 1, k);
            } else if p[i - 1] < 4 {
                lemma_combo_rank_bound(p, i - 1, k - 1);
                lemma_combo_rank_bound(q, i - 1, k);
            } else {
                lemma_combo_rank_bound(q, i - 1, k - 1);
                lemma_combo_rank_bound(p, i - 1, k);
            }
        }
    }
}

/// Sequences that hold slice edges in the same places have the same count
/// and the same rank.
pub proof fn lemma_same_slice_rank(p: Seq<int>, q: Seq<int>, i: int, k: int)
    requires
        same_slice(p, q),
        i <= p.len(),
    ensures
        members(p, i) == members(q, i),
        combo_rank(p, i, k) == combo_rank(q, i, k),
    decreases i,
{
    if i > 0 {
        assert((p[i - 1] < 4) == (q[i - 1] < 4));
        lemma_same_slice_rank(p, q, i - 1, k);
        lemma_same_slice_rank(p, q, i - 1, k - 1);
    }
}

} // verus!
