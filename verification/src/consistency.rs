//! The cubes that the search is sound on, and what the moves keep of them.

use vstd::prelude::*;
use vstd::arithmetic::div_mod::lemma_add_mod_noop;
use crate::cubie::{
    is_permutation, lemma_compose_assoc, lemma_compose_wf, lemma_quarter_turn_wf, total, CubeState,
};
use crate::moves::Move;
use crate::ranking::members;

verus! {

impl CubeState {
    /// A cube put together from the right pieces: every piece is there once,
    /// the corner twists add up to a multiple of 3 and the edge flips to a
    /// multiple of 2.
    pub open spec fn consistent(self) -> bool {
        &&& self.wf()
        &&& is_permutation(self.cp)
        &&& is_permutation(self.ep)
        &&& total(self.co) % 3 == 0
        &&& total(self.eo) % 2 == 0
    }

    /// A cube of the subgroup that the first phase reaches: no corner is
    /// twisted, no edge is flipped, and the four slice places hold the four
    /// slice edges.
    pub open spec fn in_subgroup(self) -> bool {
        &&& forall|i: int| 0 <= i < 8 ==> #[trigger] self.co[i] == 0
        &&& forall|i: int| 0 <= i < 12 ==> #[trigger] self.eo[i] == 0
        &&& forall|i: int| 0 <= i < 12 ==> ((#[trigger] self.ep[i] < 4) == (i < 4))
    }
}

/// The entries of `p` picked in the order `idx`.
pub open spec fn picked(p: Seq<int>, idx: Seq<int>) -> Seq<int> {
    Seq::new(idx.len(), |i: int| p[idx[i]])
}

/// Picking each place once from a sequence without repeated entries gives
/// a sequence without repeated entries.
pub proof fn lemma_picked_is_permutation(p: Seq<int>, idx: Seq<int>)
    requires
        is_permutation(p),
        is_permutation(idx),
        forall|i: int| 0 <= i < idx.len() ==> 0 <= #[trigger] idx[i] < p.len(),
    ensures
        is_permutation(picked(p, idx)),
{
    let r = picked(p, idx);
    assert forall|i: int, j: int| 0 <= i < j < r.len() implies r[i] != r[j] by {
        let a = idx[i];
        let b = idx[j];
        assert(a != b);
        if a < b {
            assert(p[a] != p[b]);
        } else {
            assert(p[b] != p[a]);
        }
    }
}

/// A quarter turn takes each place from another place, none twice.
#[verifier::rlimit(40)]
pub proof fn lemma_quarter_turn_is_permutation(f: int)
    ensures
        is_permutation(CubeState::quarter_turn(f).cp),
        is_permutation(CubeState::quarter_turn(f).ep),
{
}

/// Sequences whose entries leave the same remainders have sums that leave
/// the same remainder.
pub proof fn lemma_total_mod(a: Seq<int>, b: Seq<int>, m: int)
    requires
        0 < m,
        a.len() == b.len(),
        forall|i: int| 0 <= i < a.len() ==> #[trigger] a[i] % m == b[i] % m,
    ensures
        total(a) % m == total(b) % m,
    decreases a.len(),
{
    if a.len() > 0 {
        let a0 = a.drop_last();
        let b0 = b.drop_last();
        assert forall|i: int| 0 <= i < a0.len() implies #[trigger] a0[i] % m == b0[i] % m by {
            assert(a[i] % m == b[i] % m);
        }
        lemma_total_mod(a0, b0, m);
        assert(a.last() % m == b.last() % m);
        lemma_add_mod_noop(total(a0), a.last(), m);
        lemma_add_mod_noop(total(b0), b.last(), m);
    }
}

/// The twists of `s` picked as the quarter turn of face `f` picks them,
/// each with the twist of the turn added.
pub open spec fn twists_added(s: CubeState, f: int) -> Seq<int> {
    let q = CubeState::quarter_turn(f);
    Seq::new(8, |i: int| s.co[q.cp[i]] + q.co[i])
}

/// The flips of `s` picked as the quarter turn of face `f` picks them, each
/// with the flip of the turn added.
pub open spec fn flips_added(s: CubeState, f: int) -> Seq<int> {
    let q = CubeState::quarter_turn(f);
    Seq::new(12, |i: int| s.eo[q.ep[i]] + q.eo[i])
}

/// The twists with those of a quarter turn added sum to the twists of the
/// cube and a multiple of 3.
#[verifier::rlimit(40)]
pub proof fn lemma_twists_added_total(s: CubeState, f: int)
    requires
        s.wf(),
    ensures
        total(twists_added(s, f)) == total(s.co) || total(twists_added(s, f)) == total(s.co) + 6,
{
    let u = twists_added(s, f);
    lemma_total_8(s.co);
    lemma_total_8(u);
    if f == 0 {
        assert(u[0] == s.co[3] + 0);
        assert(u[1] == s.co[0] + 0);
        assert(u[2] == s.co[1] + 0);
        assert(u[3] == s.co[2] + 0);
        assert(u[4] == s.co[4] + 0);
        assert(u[5] == s.co[5] + 0);
        assert(u[6] == s.co[6] + 0);
        assert(u[7] == s.co[7] + 0);
    } else if f == 1 {
        assert(u[0] == s.co[0] + 0);
        assert(u[1] == s.co[1] + 0);
        assert(u[2] == s.co[2] + 0);
        assert(u[3] == s.co[3] + 0);
        assert(u[4] == s.co[7] + 0);
        assert(u[5] == s.co[4] + 0);
        assert(u[6] == s.co[5] + 0);
        assert(u[7] == s.co[6] + 0);
    } else if f == 2 {
        assert(u[0] == s.co[0] + 0);
        assert(u[1] == s.co[2] + 1);
        assert(u[2] == s.co[5] + 2);
        assert(u[3] == s.co[3] + 0);
        assert(u[4] == s.co[4] + 0);
        assert(u[5] == s.co[6] + 1);
        assert(u[6] == s.co[1] + 2);
        assert(u[7] == s.co[7] + 0);
    } else if f == 3 {
        assert(u[0] == s.co[7] + 2);
        assert(u[1] == s.co[1] + 0);
        assert(u[2] == s.co[2] + 0);
        assert(u[3] == s.co[0] + 1);
        assert(u[4] == s.co[3] + 2);
        assert(u[5] == s.co[5] + 0);
        assert(u[6] == s.co[6] + 0);
        assert(u[7] == s.co[4] + 1);
    } else if f == 4 {
        assert(u[0] == s.co[0] + 0);
        assert(u[1] == s.co[1] + 0);
        assert(u[2] == s.co[3] + 1);
        assert(u[3] == s.co[4] + 2);
        assert(u[4] == s.co[5] + 1);
        assert(u[5] == s.co[2] + 2);
        assert(u[6] == s.co[6] + 0);
        assert(u[7] == s.co[7] + 0);
    } else {
        assert(u[0] == s.co[1] + 1);
        assert(u[1] == s.co[6] + 2);
        assert(u[2] == s.co[2] + 0);
        assert(u[3] == s.co[3] + 0);
        assert(u[4] == s.co[4] + 0);
        assert(u[5] == s.co[5] + 0);
        assert(u[6] == s.co[7] + 1);
        assert(u[7] == s.co[0] + 2);
    }
}

/// The flips with those of a quarter turn added sum to the flips of the
/// cube and a multiple of 2.
#[verifier::rlimit(40)]
pub proof fn lemma_flips_added_total(s: CubeState, f: int)
    requires
        s.wf(),
    ensures
        total(flips_added(s, f)) == total(s.eo) || total(flips_added(s, f)) == total(s.eo) + 4,
{
    let u = flips_added(s, f);
    lemma_total_12(s.eo);
    lemma_total_12(u);
    if f == 0 {
        assert(u[0] == s.eo[0] + 0);
        assert(u[1] == s.eo[1] + 0);
        assert(u[2] == s.eo[2] + 0);
        assert(u[3] == s.eo[3] + 0);
        assert(u[4] == s.eo[7] + 0);
        assert(u[5] == s.eo[4] + 0);
        assert(u[6] == s.eo[5] + 0);
        assert(u[7] == s.eo[6] + 0);
        assert(u[8] == s.eo[8] + 0);
        assert(u[9] == s.eo[9] + 0);
        assert(u[10] == s.eo[10] + 0);
        assert(u[11] == s.eo[11] + 0);
    } else if f == 1 {
        assert(u[0] == s.eo[0] + 0);
        assert(u[1] == s.eo[1] + 0);
        assert(u[2] == s.eo[2] + 0);
        assert(u[3] == s.eo[3] + 0);
        assert(u[4] == s.eo[4] + 0);
        assert(u[5] == s.eo[5] + 0);
        assert(u[6] == s.eo[6] + 0);
        assert(u[7] == s.eo[7] + 0);
        assert(u[8] == s.eo[11] + 0);
        assert(u[9] == s.eo[8] + 0);
        assert(u[10] == s.eo[9] + 0);
        assert(u[11] == s.eo[10] + 0);
    } else if f == 2 {
        assert(u[0] == s.eo[0] + 0);
        assert(u[1] == s.eo[5] + 0);
        assert(u[2] == s.eo[9] + 0);
        assert(u[3] == s.eo[3] + 0);
        assert(u[4] == s.eo[4] + 0);
        assert(u[5] == s.eo[2] + 0);
        assert(u[6] == s.eo[6] + 0);
        assert(u[7] == s.eo[7] + 0);
        assert(u[8] == s.eo[8] + 0);
        assert(u[9] == s.eo[1] + 0);
        assert(u[10] == s.eo[10] + 0);
        assert(u[11] == s.eo[11] + 0);
    } else if f == 3 {
        assert(u[0] == s.eo[11] + 0);
        assert(u[1] == s.eo[1] + 0);
        assert(u[2] == s.eo[2] + 0);
        assert(u[3] == s.eo[7] + 0);
        assert(u[4] == s.eo[4] + 0);
        assert(u[5] == s.eo[5] + 0);
        assert(u[6] == s.eo[6] + 0);
        assert(u[7] == s.eo[0] + 0);
        assert(u[8] == s.eo[8] + 0);
        assert(u[9] == s.eo[9] + 0);
        assert(u[10] == s.eo[10] + 0);
        assert(u[11] == s.eo[3] + 0);
    } else if f == 4 {
        assert(u[0] == s.eo[0] + 0);
        assert(u[1] == s.eo[1] + 0);
        assert(u[2] == s.eo[6] + 1);
        assert(u[3] == s.eo[8] + 1);
        assert(u[4] == s.eo[4] + 0);
        assert(u[5] == s.eo[5] + 0);
        assert(u[6] == s.eo[3] + 1);
        assert(u[7] == s.eo[7] + 0);
        assert(u[8] == s.eo[2] + 1);
        assert(u[9] == s.eo[9] + 0);
        assert(u[10] == s.eo[10] + 0);
        assert(u[11] == s.eo[11] + 0);
    } else {
        assert(u[0] == s.eo[4] + 1);
        assert(u[1] == s.eo[10] + 1);
        assert(u[2] == s.eo[2] + 0);
        assert(u[3] == s.eo[3] + 0);
        assert(u[4] == s.eo[1] + 1);
        assert(u[5] == s.eo[5] + 0);
        assert(u[6] == s.eo[6] + 0);
        assert(u[7] == s.eo[7] + 0);
        assert(u[8] == s.eo[8] + 0);
        assert(u[9] == s.eo[9] + 0);
        assert(u[10] == s.eo[0] + 1);
        assert(u[11] == s.eo[11] + 0);
    }
}

/// A quarter turn keeps the sum of the corner twists a multiple of 3.
pub proof fn lemma_quarter_turn_keeps_twist(s: CubeState, f: int)
    requires
        s.wf(),
        total(s.co) % 3 == 0,
    ensures
        total(s.compose(CubeState::quarter_turn(f)).co) % 3 == 0,
{
    let q = CubeState::quarter_turn(f);
    let r = s.compose(q);
    let u = twists_added(s, f);
    assert forall|i: int| 0 <= i < 8 implies #[trigger] r.co[i] % 3 == u[i] % 3 by {
        assert(r.co[i] == u[i] % 3);
    }
    lemma_total_mod(r.co, u, 3);
    lemma_twists_added_total(s, f);
}

/// A quarter turn keeps the sum of the edge flips a multiple of 2.
pub proof fn lemma_quarter_turn_keeps_flip(s: CubeState, f: int)
    requires
        s.wf(),
        total(s.eo) % 2 == 0,
    ensures
        total(s.compose(CubeState::quarter_turn(f)).eo) % 2 == 0,
{
    let q = CubeState::quarter_turn(f);
    let r = s.compose(q);
    let u = flips_added(s, f);
    assert forall|i: int| 0 <= i < 12 implies #[trigger] r.eo[i] % 2 == u[i] % 2 by {
        assert(r.eo[i] == u[i] % 2);
    }
    lemma_total_mod(r.eo, u, 2);
    lemma_flips_added_total(s, f);
}

/// A quarter turn keeps a cube consistent.
pub proof fn lemma_quarter_turn_keeps_consistent(s: CubeState, f: int)
    requires
        s.consistent(),
    ensures
        s.compose(CubeState::quarter_turn(f)).consistent(),
{
    let q = CubeState::quarter_turn(f);
    let r = s.compose(q);
    lemma_quarter_turn_wf(f);
    lemma_compose_wf(s, q);
    lemma_quarter_turn_is_permutation(f);
    lemma_picked_is_permutation(s.cp, q.cp);
    lemma_picked_is_permutation(s.ep, q.ep);
    assert(r.cp =~= picked(s.cp, q.cp));
    assert(r.ep =~= picked(s.ep, q.ep));
    lemma_quarter_turn_keeps_twist(s, f);
    lemma_quarter_turn_keeps_flip(s, f);
}

/// The sum of eight entries, written out.
pub proof fn lemma_total_8(s: Seq<int>)
    requires
        s.len() == 8,
    ensures
        total(s) == s[0] + s[1] + s[2] + s[3] + s[4] + s[5] + s[6] + s[7],
{
    let s7 = s.drop_last();
    let s6 = s7.drop_last();
    let s5 = s6.drop_last();
    let s4 = s5.drop_last();
    let s3 = s4.drop_last();
    let s2 = s3.drop_last();
    let s1 = s2.drop_last();
    let s0 = s1.drop_last();
    assert(total(s0) == 0);
    assert(total(s1) == s[0]);
    assert(total(s2) == s[0] + s[1]);
    assert(total(s3) == s[0] + s[1] + s[2]);
    assert(total(s4) == s[0] + s[1] + s[2] + s[3]);
    assert(total(s5) == s[0] + s[1] + s[2] + s[3] + s[4]);
    assert(total(s6) == s[0] + s[1] + s[2] + s[3] + s[4] + s[5]);
    assert(total(s7) == s[0] + s[1] + s[2] + s[3] + s[4] + s[5] + s[6]);
}

/// The sum of twelve entries, written out.
pub proof fn lemma_total_12(s: Seq<int>)
    requires
        s.len() == 12,
    ensures
        total(s) == s[0] + s[1] + s[2] + s[3] + s[4] + s[5] + s[6] + s[7] + s[8] + s[9] + s[10]
            + s[11],
{
    let s11 = s.drop_last();
    let s10 = s11.drop_last();
    let s9 = s10.drop_last();
    let s8 = s9.drop_last();
    lemma_total_8(s8);
    assert(total(s9) == total(s8) + s[8]);
    assert(total(s10) == total(s9) + s[9]);
    assert(total(s11) == total(s10) + s[10]);
}

/// A move keeps a cube consistent.
pub proof fn lemma_move_keeps_consistent(s: CubeState, m: Move)
    requires
        s.consistent(),
    ensures
        s.apply(m).consistent(),
{
    let f = m.spec_face();
    let q = CubeState::quarter_turn(f);
    lemma_quarter_turn_wf(f);
    lemma_compose_wf(q, q);
    lemma_quarter_turn_keeps_consistent(s, f);
    if m.spec_turns() >= 2 {
        lemma_quarter_turn_keeps_consistent(s.compose(q), f);
        lemma_compose_assoc(s, q, q);
    }
    if m.spec_turns() == 3 {
        lemma_quarter_turn_keeps_consistent(s.compose(q).compose(q), f);
        lemma_compose_assoc(s, q.compose(q), q);
    }
}

/// Moves keep a cube consistent.
pub proof fn lemma_moves_keep_consistent(s: CubeState, ms: Seq<Move>)
    requires
        s.consistent(),
    ensures
        s.apply_all(ms).consistent(),
    decreases ms.len(),
{
    if ms.len() > 0 {
        lemma_moves_keep_consistent(s, ms.drop_last());
        lemma_move_keeps_consistent(s.apply_all(ms.drop_last()), ms.last());
    }
}

/// The solved cube is consistent and lies in the subgroup.
pub proof fn lemma_solved_consistent()
    ensures
        CubeState::solved().consistent(),
        CubeState::solved().in_subgroup(),
{
    let s = CubeState::solved();
    lemma_total_8(s.co);
    lemma_total_12(s.eo);
}

/// How many of the first `n` places hold a piece below `k`.
pub open spec fn count_below(p: Seq<int>, n: int, k: int) -> int
    decreases n,
{
    if n <= 0 {
        0
    } else {
        count_below(p, n - 1, k) + if p[n - 1] < k {
            1int
        } else {
            0int
        }
    }
}

/// In a sequence without repeated entries, raising the bound by one lets
/// at most one more place count, and none fewer.
pub proof fn lemma_count_below_step(p: Seq<int>, n: int, k: int)
    requires
        is_permutation(p),
        0 <= n <= p.len(),
    ensures
        count_below(p, n, k) <= count_below(p, n, k + 1) <= count_below(p, n, k) + 1,
        count_below(p, n, k + 1) == count_below(p, n, k) + 1 ==> exists|i: int|
            0 <= i < n && p[i] == k,
    decreases n,
{
    if n > 0 {
        lemma_count_below_step(p, n - 1, k);
        if p[n - 1] == k {
            if count_below(p, n - 1, k + 1) == count_below(p, n - 1, k) + 1 {
                let i = choose|i: int| 0 <= i < n - 1 && p[i] == k;
                assert(p[i] != p[n - 1]);
            }
        }
    }
}

/// In a sequence without repeated entries, raising the bound by `d` lets
/// at most `d` more places count.
pub proof fn lemma_count_below_steps(p: Seq<int>, n: int, k: int, d: int)
    requires
        is_permutation(p),
        0 <= n <= p.len(),
        0 <= d,
    ensures
        count_below(p, n, k) <= count_below(p, n, k + d) <= count_below(p, n, k) + d,
    decreases d,
{
    if d > 0 {
        lemma_count_below_steps(p, n, k, d - 1);
        lemma_count_below_step(p, n, k + d - 1);
    }
}

/// No place holds a piece below the least, and every place one below a
/// bound that none reaches.
pub proof fn lemma_count_below_ends(p: Seq<int>, n: int, lo: int, hi: int)
    requires
        0 <= n <= p.len(),
        forall|i: int| 0 <= i < n ==> lo <= #[trigger] p[i] < hi,
    ensures
        count_below(p, n, lo) == 0,
        count_below(p, n, hi) == n,
    decreases n,
{
    if n > 0 {
        lemma_count_below_ends(p, n - 1, lo, hi);
        assert(lo <= p[n - 1] < hi);
    }
}

/// The count of slice edges is the count of pieces below 4.
pub proof fn lemma_members_count(p: Seq<int>, n: int)
    ensures
        members(p, n) == count_below(p, n, 4),
    decreases n,
{
    if n > 0 {
        lemma_members_count(p, n - 1);
    }
}

/// Twelve different pieces in twelve places: four of the places hold the
/// four slice edges.
pub proof fn lemma_permutation_members(ep: Seq<int>)
    requires
        ep.len() == 12,
        is_permutation(ep),
        forall|i: int| 0 <= i < 12 ==> 0 <= #[trigger] ep[i] < 12,
    ensures
        members(ep, 12) == 4,
{
    lemma_members_count(ep, 12);
    lemma_count_below_ends(ep, 12, 0, 12);
    lemma_count_below_steps(ep, 12, 0, 4);
    lemma_count_below_steps(ep, 12, 4, 8);
}

} // verus!
