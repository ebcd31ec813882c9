//! Why a table can stand for the cube: the coordinate of a cube after a
//! move depends on the coordinate before it alone, and coordinates at zero
//! pin the cube down.

use vstd::prelude::*;
use crate::consistency::{
    lemma_move_keeps_consistent, lemma_permutation_members, lemma_solved_consistent,
};
use crate::coord::{
    co_index, cp_index, digits_value, e_combo_index, e_ep_index, eo_index, ud_ep_index,
};
use crate::cubie::{
    is_permutation, lemma_compose_wf, lemma_of_move_wf, lemma_quarter_turn_wf, total, CubeState,
};
use crate::moves::Move;
use crate::ranking::{
    lemma_ascending_rank_zero, lemma_combo_rank_injective, lemma_digits_injective,
    lemma_rank_gives_order, lemma_rank_zero_ascends, lemma_same_order_rank, lemma_same_slice_rank,
    same_order, same_slice,
};
use crate::tables::Coordinate;

verus! {

/// Two cubes of the subgroup composed lie in the subgroup.
pub proof fn lemma_in_subgroup_compose(a: CubeState, b: CubeState)
    requires
        a.wf(),
        b.wf(),
        a.in_subgroup(),
        b.in_subgroup(),
    ensures
        a.compose(b).in_subgroup(),
{
    let r = a.compose(b);
    assert forall|i: int| 0 <= i < 8 implies #[trigger] r.co[i] == 0 by {
        assert(0 <= b.cp[i] < 8);
        assert(a.co[b.cp[i]] == 0);
        assert(b.co[i] == 0);
    }
    assert forall|i: int| 0 <= i < 12 implies #[trigger] r.eo[i] == 0 by {
        assert(0 <= b.ep[i] < 12);
        assert(a.eo[b.ep[i]] == 0);
        assert(b.eo[i] == 0);
    }
    assert forall|i: int| 0 <= i < 12 implies ((#[trigger] r.ep[i] < 4) == (i < 4)) by {
        assert(0 <= b.ep[i] < 12);
        assert((b.ep[i] < 4) == (i < 4));
        assert((a.ep[b.ep[i]] < 4) == (b.ep[i] < 4));
    }
}

/// A quarter turn of the up or down face lies in the subgroup.
#[verifier::rlimit(40)]
pub proof fn lemma_level_turn_in_subgroup(f: int)
    requires
        0 <= f < 2,
    ensures
        CubeState::quarter_turn(f).in_subgroup(),
{
}

/// A half turn of a side face lies in the subgroup.
#[verifier::rlimit(40)]
pub proof fn lemma_side_half_turn_in_subgroup(f: int)
    requires
        2 <= f,
    ensures
        CubeState::quarter_turn(f).compose(CubeState::quarter_turn(f)).in_subgroup(),
{
    let q = CubeState::quarter_turn(f);
    let h = q.compose(q);
    assert forall|i: int| 0 <= i < 8 implies #[trigger] h.co[i] == 0 by {}
    assert forall|i: int| 0 <= i < 12 implies #[trigger] h.eo[i] == 0 by {}
    assert forall|i: int| 0 <= i < 12 implies ((#[trigger] h.ep[i] < 4) == (i < 4)) by {}
}

/// Each move of the second phase lies in the subgroup.
pub proof fn lemma_phase2_move_in_subgroup(m: Move)
    requires
        m.spec_is_phase2(),
    ensures
        CubeState::of_move(m).in_subgroup(),
        CubeState::of_move(m).wf(),
{
    let f = m.spec_face();
    let q = CubeState::quarter_turn(f);
    lemma_of_move_wf(m);
    lemma_quarter_turn_wf(f);
    lemma_compose_wf(q, q);
    if f < 2 {
        lemma_level_turn_in_subgroup(f);
        lemma_in_subgroup_compose(q, q);
        lemma_in_subgroup_compose(q.compose(q), q);
    } else {
        lemma_side_half_turn_in_subgroup(f);
    }
}

/// A move of the second phase keeps a cube in the subgroup.
pub proof fn lemma_phase2_move_keeps_subgroup(s: CubeState, m: Move)
    requires
        s.wf(),
        s.in_subgroup(),
        m.spec_is_phase2(),
    ensures
        s.apply(m).in_subgroup(),
{
    lemma_phase2_move_in_subgroup(m);
    lemma_in_subgroup_compose(s, CubeState::of_move(m));
}

/// Consistent cubes with the same twist coordinate have the same twists,
/// and after the same turn the same twist coordinate again.
pub proof fn lemma_co_congruent(s1: CubeState, s2: CubeState, t: CubeState)
    requires
        s1.consistent(),
        s2.consistent(),
        co_index(s1.co) == co_index(s2.co),
    ensures
        s1.co == s2.co,
        co_index(s1.compose(t).co) == co_index(s2.compose(t).co),
{
    let a = s1.co.take(7);
    let b = s2.co.take(7);
    assert forall|i: int| 0 <= i < 7 implies 0 <= #[trigger] a[i] < 3 by {
        assert(0 <= s1.co[i] < 3);
    }
    assert forall|i: int| 0 <= i < 7 implies 0 <= #[trigger] b[i] < 3 by {
        assert(0 <= s2.co[i] < 3);
    }
    lemma_digits_injective(a, b, 3);
    assert(s1.co.drop_last() =~= a);
    assert(s2.co.drop_last() =~= b);
    assert(total(s1.co) == total(a) + s1.co[7]);
    assert(total(s2.co) == total(b) + s2.co[7]);
    assert(0 <= s1.co[7] < 3);
    assert(0 <= s2.co[7] < 3);
    assert(s1.co[7] == s2.co[7]);
    assert forall|i: int| 0 <= i < 8 implies s1.co[i] == s2.co[i] by {
        if i < 7 {
            assert(a[i] == b[i]);
        }
    }
    assert(s1.co =~= s2.co);
    assert(s1.compose(t).co =~= s2.compose(t).co);
}

/// Consistent cubes with the same flip coordinate have the same flips, and
/// after the same turn the same flip coordinate again.
pub proof fn lemma_eo_congruent(s1: CubeState, s2: CubeState, t: CubeState)
    requires
        s1.consistent(),
        s2.consistent(),
        eo_index(s1.eo) == eo_index(s2.eo),
    ensures
        s1.eo == s2.eo,
        eo_index(s1.compose(t).eo) == eo_index(s2.compose(t).eo),
{
    let a = s1.eo.take(11);
    let b = s2.eo.take(11);
    assert forall|i: int| 0 <= i < 11 implies 0 <= #[trigger] a[i] < 2 by {
        assert(0 <= s1.eo[i] < 2);
    }
    assert forall|i: int| 0 <= i < 11 implies 0 <= #[trigger] b[i] < 2 by {
        assert(0 <= s2.eo[i] < 2);
    }
    lemma_digits_injective(a, b, 2);
    assert(s1.eo.drop_last() =~= a);
    assert(s2.eo.drop_last() =~= b);
    assert(total(s1.eo) == total(a) + s1.eo[11]);
    assert(total(s2.eo) == total(b) + s2.eo[11]);
    assert(0 <= s1.eo[11] < 2);
    assert(0 <= s2.eo[11] < 2);
    assert(s1.eo[11] == s2.eo[11]);
    assert forall|i: int| 0 <= i < 12 implies s1.eo[i] == s2.eo[i] by {
        if i < 11 {
            assert(a[i] == b[i]);
        }
    }
    assert(s1.eo =~= s2.eo);
    assert(s1.compose(t).eo =~= s2.compose(t).eo);
}

/// Consistent cubes with the same slice coordinate hold the slice edges in
/// the same places, and after the same turn they have the same slice
/// coordinate again.
pub proof fn lemma_e_combo_congruent(s1: CubeState, s2: CubeState, t: CubeState)
    requires
        s1.consistent(),
        s2.consistent(),
        t.wf(),
        e_combo_index(s1.ep) == e_combo_index(s2.ep),
    ensures
        same_slice(s1.ep, s2.ep),
        e_combo_index(s1.compose(t).ep) == e_combo_index(s2.compose(t).ep),
{
    lemma_permutation_members(s1.ep);
    lemma_permutation_members(s2.ep);
    lemma_combo_rank_injective(s1.ep, s2.ep, 12, 4);
    let r1 = s1.compose(t).ep;
    let r2 = s2.compose(t).ep;
    assert forall|i: int| 0 <= i < 12 implies ((#[trigger] r1[i] < 4) == (r2[i] < 4)) by {
        assert(0 <= t.ep[i] < 12);
        assert((s1.ep[t.ep[i]] < 4) == (s2.ep[t.ep[i]] < 4));
    }
    lemma_same_slice_rank(r1, r2, 12, 4);
}

/// Sequences in the same order, picked in the same way, are in the same
/// order.
pub proof fn lemma_same_order_picked(p: Seq<int>, q: Seq<int>, idx: Seq<int>)
    requires
        same_order(p, q),
        forall|i: int| 0 <= i < idx.len() ==> 0 <= #[trigger] idx[i] < p.len(),
    ensures
        same_order(
            Seq::new(idx.len(), |i: int| p[idx[i]]),
            Seq::new(idx.len(), |i: int| q[idx[i]]),
        ),
{
    let a = Seq::new(idx.len(), |i: int| p[idx[i]]);
    let b = Seq::new(idx.len(), |i: int| q[idx[i]]);
    assert forall|i: int, j: int| 0 <= i < a.len() && 0 <= j < a.len() implies ((a[i] < a[j]) == (
    b[i] < b[j])) by {
        assert(0 <= idx[i] < p.len());
        assert(0 <= idx[j] < p.len());
    }
}

/// Consistent cubes with the same corner order coordinate have their
/// corners in the same order, and after the same turn they have the same
/// coordinate again.
pub proof fn lemma_cp_congruent(s1: CubeState, s2: CubeState, t: CubeState)
    requires
        s1.consistent(),
        s2.consistent(),
        t.wf(),
        cp_index(s1.cp) == cp_index(s2.cp),
    ensures
        same_order(s1.cp, s2.cp),
        cp_index(s1.compose(t).cp) == cp_index(s2.compose(t).cp),
{
    lemma_rank_gives_order(s1.cp, s2.cp);
    assert forall|i: int| 0 <= i < t.cp.len() implies 0 <= #[trigger] t.cp[i] < s1.cp.len() by {
        assert(0 <= t.cp[i] < 8);
    }
    lemma_same_order_picked(s1.cp, s2.cp, t.cp);
    assert(s1.compose(t).cp =~= Seq::new(8, |i: int| s1.cp[t.cp[i]]));
    assert(s2.compose(t).cp =~= Seq::new(8, |i: int| s2.cp[t.cp[i]]));
    lemma_same_order_rank(s1.compose(t).cp, s2.compose(t).cp);
}

/// A part of a sequence without repeated entries has none either.
pub proof fn lemma_subrange_is_permutation(p: Seq<int>, from: int, to: int)
    requires
        is_permutation(p),
        0 <= from <= to <= p.len(),
    ensures
        is_permutation(p.subrange(from, to)),
{
    let r = p.subrange(from, to);
    assert forall|i: int, j: int| 0 <= i < j < r.len() implies r[i] != r[j] by {
        assert(p[from + i] != p[from + j]);
    }
}

/// Consistent cubes with the same coordinate of the order of the edges
/// outside the slice have these edges in the same order, and after the same
/// turn of the subgroup they have the same coordinate again.
pub proof fn lemma_ud_ep_congruent(s1: CubeState, s2: CubeState, t: CubeState)
    requires
        s1.consistent(),
        s2.consistent(),
        t.wf(),
        t.in_subgroup(),
        ud_ep_index(s1.ep) == ud_ep_index(s2.ep),
    ensures
        same_order(s1.ep.subrange(4, 12), s2.ep.subrange(4, 12)),
        ud_ep_index(s1.compose(t).ep) == ud_ep_index(s2.compose(t).ep),
{
    let p = s1.ep.subrange(4, 12);
    let q = s2.ep.subrange(4, 12);
    lemma_subrange_is_permutation(s1.ep, 4, 12);
    lemma_subrange_is_permutation(s2.ep, 4, 12);
    lemma_rank_gives_order(p, q);
    let idx = Seq::new(8, |i: int| t.ep[4 + i] - 4);
    assert forall|i: int| 0 <= i < idx.len() implies 0 <= #[trigger] idx[i] < p.len() by {
        assert(0 <= t.ep[4 + i] < 12);
        assert((t.ep[4 + i] < 4) == (4 + i < 4));
    }
    lemma_same_order_picked(p, q, idx);
    let a = s1.compose(t).ep.subrange(4, 12);
    let b = s2.compose(t).ep.subrange(4, 12);
    assert forall|i: int| 0 <= i < 8 implies a[i] == p[idx[i]] && b[i] == q[idx[i]] by {
        assert(0 <= t.ep[4 + i] < 12);
        assert((t.ep[4 + i] < 4) == (4 + i < 4));
    }
    assert(a =~= Seq::new(idx.len(), |i: int| p[idx[i]]));
    assert(b =~= Seq::new(idx.len(), |i: int| q[idx[i]]));
    lemma_same_order_rank(a, b);
}

/// Consistent cubes with the same coordinate of the order of the slice
/// edges have these edges in the same order, and after the same turn of the
/// subgroup they have the same coordinate again.
pub proof fn lemma_e_ep_congruent(s1: CubeState, s2: CubeState, t: CubeState)
    requires
        s1.consistent(),
        s2.consistent(),
        t.wf(),
        t.in_subgroup(),
        e_ep_index(s1.ep) == e_ep_index(s2.ep),
    ensures
        same_order(s1.ep.subrange(0, 4), s2.ep.subrange(0, 4)),
        e_ep_index(s1.compose(t).ep) == e_ep_index(s2.compose(t).ep),
{
    let p = s1.ep.subrange(0, 4);
    let q = s2.ep.subrange(0, 4);
    lemma_subrange_is_permutation(s1.ep, 0, 4);
    lemma_subrange_is_permutation(s2.ep, 0, 4);
    lemma_rank_gives_order(p, q);
    let idx = Seq::new(4, |i: int| t.ep[i]);
    assert forall|i: int| 0 <= i < idx.len() implies 0 <= #[trigger] idx[i] < p.len() by {
        assert(0 <= t.ep[i] < 12);
        assert((t.ep[i] < 4) == (i < 4));
    }
    lemma_same_order_picked(p, q, idx);
    let a = s1.compose(t).ep.subrange(0, 4);
    let b = s2.compose(t).ep.subrange(0, 4);
    assert forall|i: int| 0 <= i < 4 implies a[i] == p[idx[i]] && b[i] == q[idx[i]] by {
        assert(0 <= t.ep[i] < 12);
        assert((t.ep[i] < 4) == (i < 4));
    }
    assert(a =~= Seq::new(idx.len(), |i: int| p[idx[i]]));
    assert(b =~= Seq::new(idx.len(), |i: int| q[idx[i]]));
    lemma_same_order_rank(a, b);
}

impl Coordinate {
    /// The cubes on which the table of the coordinate is right: the
    /// consistent ones, for a coordinate of the second phase those of the
    /// subgroup.
    pub open spec fn class(self, s: CubeState) -> bool {
        s.consistent() && (self.spec_is_phase2() ==> s.in_subgroup())
    }
}

/// The moves of a coordinate's phase keep a cube in the coordinate's class.
pub proof fn lemma_class_kept(kind: Coordinate, s: CubeState, i: int)
    requires
        kind.class(s),
        0 <= i < kind.spec_move_count(),
    ensures
        kind.class(s.apply(kind.spec_move(i))),
{
    let m = kind.spec_move(i);
    lemma_move_keeps_consistent(s, m);
    if kind.spec_is_phase2() {
        lemma_phase2_move_keeps_subgroup(s, m);
    }
}

/// Two cubes of a coordinate's class with the same value of the coordinate
/// have the same value again after the same move of the coordinate's phase.
pub proof fn lemma_coordinate_congruent(kind: Coordinate, s1: CubeState, s2: CubeState, i: int)
    requires
        kind.class(s1),
        kind.class(s2),
        kind.of(s1) == kind.of(s2),
        0 <= i < kind.spec_move_count(),
    ensures
        kind.of(s1.apply(kind.spec_move(i))) == kind.of(s2.apply(kind.spec_move(i))),
{
    let m = kind.spec_move(i);
    let t = CubeState::of_move(m);
    lemma_of_move_wf(m);
    match kind {
        Coordinate::Co => {
            lemma_co_congruent(s1, s2, t);
        },
        Coordinate::Eo => {
            lemma_eo_congruent(s1, s2, t);
        },
        Coordinate::ECombo => {
            lemma_e_combo_congruent(s1, s2, t);
        },
        Coordinate::Cp => {
            lemma_cp_congruent(s1, s2, t);
        },
        Coordinate::UdEp => {
            lemma_phase2_move_in_subgroup(m);
            lemma_ud_ep_congruent(s1, s2, t);
        },
        Coordinate::EEp => {
            lemma_phase2_move_in_subgroup(m);
            lemma_e_ep_congruent(s1, s2, t);
        },
    }
}

/// Where the slice places hold the slice edges, the slice coordinate is 0.
pub proof fn lemma_slice_in_place_rank(ep: Seq<int>)
    requires
        ep.len() == 12,
        forall|i: int| 0 <= i < 12 ==> ((#[trigger] ep[i] < 4) == (i < 4)),
    ensures
        e_combo_index(ep) == 0,
{
    let solved = CubeState::solved().ep;
    assert forall|i: int| 0 <= i < 12 implies ((#[trigger] ep[i] < 4) == (solved[i] < 4)) by {}
    lemma_same_slice_rank(ep, solved, 12, 4);
    reveal_with_fuel(crate::coord::combo_rank, 13);
    reveal_with_fuel(crate::coord::binom, 5);
    assert(crate::coord::combo_rank(solved, 12, 4) == 0);
}

/// All six coordinates of the solved cube are 0.
pub proof fn lemma_solved_coordinates()
    ensures
        forall|kind: Coordinate| #[trigger] kind.of(CubeState::solved()) == 0,
{
    let s = CubeState::solved();
    assert(co_index(s.co) == 0) by {
        reveal_with_fuel(digits_value, 8);
    }
    assert(eo_index(s.eo) == 0) by {
        reveal_with_fuel(digits_value, 12);
    }
    lemma_slice_in_place_rank(s.ep);
    lemma_ascending_rank_zero(s.cp, 8);
    lemma_ascending_rank_zero(s.ep.subrange(4, 12), 8);
    lemma_ascending_rank_zero(s.ep.subrange(0, 4), 4);
    assert forall|kind: Coordinate| #[trigger] kind.of(s) == 0 by {
        match kind {
            Coordinate::Co => {},
            Coordinate::Eo => {},
            Coordinate::ECombo => {},
            Coordinate::Cp => {},
            Coordinate::UdEp => {},
            Coordinate::EEp => {},
        }
    }
}

/// A consistent cube whose twist, flip and slice coordinates are 0 lies in
/// the subgroup.
pub proof fn lemma_phase1_goal(s: CubeState)
    requires
        s.consistent(),
        co_index(s.co) == 0,
        eo_index(s.eo) == 0,
        e_combo_index(s.ep) == 0,
    ensures
        s.in_subgroup(),
{
    let solved = CubeState::solved();
    lemma_solved_consistent();
    lemma_solved_coordinates();
    assert(Coordinate::Co.of(solved) == 0);
    assert(Coordinate::Eo.of(solved) == 0);
    assert(Coordinate::ECombo.of(solved) == 0);
    lemma_co_congruent(s, solved, solved);
    lemma_eo_congruent(s, solved, solved);
    lemma_e_combo_congruent(s, solved, solved);
    assert forall|i: int| 0 <= i < 12 implies ((#[trigger] s.ep[i] < 4) == (i < 4)) by {
        assert((s.ep[i] < 4) == (solved.ep[i] < 4));
    }
}

/// Eight ascending numbers from `lo` up to below `lo + 8` are the numbers
/// from `lo` on in order.
pub proof fn lemma_ascending_fills(p: Seq<int>, n: int, lo: int, i: int)
    requires
        p.len() == n,
        0 <= i < n,
        forall|a: int, b: int| 0 <= a < b < p.len() ==> p[a] < p[b],
        forall|a: int| 0 <= a < n ==> lo <= #[trigger] p[a] < lo + n,
    ensures
        p[i] == lo + i,
{
    lemma_ascending_at_least(p, lo, i);
    lemma_ascending_at_most(p, n, lo, i);
}

/// The entry at place `i` of an ascending sequence of numbers from `lo` up
/// is at least `lo + i`.
pub proof fn lemma_ascending_at_least(p: Seq<int>, lo: int, i: int)
    requires
        0 <= i < p.len(),
        forall|a: int, b: int| 0 <= a < b < p.len() ==> p[a] < p[b],
        forall|a: int| 0 <= a < p.len() ==> lo <= #[trigger] p[a],
    ensures
        p[i] >= lo + i,
    decreases i,
{
    if i > 0 {
        lemma_ascending_at_least(p, lo, i - 1);
        assert(p[i - 1] < p[i]);
    } else {
        assert(lo <= p[0]);
    }
}

/// The entry at place `i` of an ascending sequence of `n` numbers below
/// `lo + n` is at most `lo + i`.
pub proof fn lemma_ascending_at_most(p: Seq<int>, n: int, lo: int, i: int)
    requires
        p.len() == n,
        0 <= i < n,
        forall|a: int, b: int| 0 <= a < b < p.len() ==> p[a] < p[b],
        forall|a: int| 0 <= a < n ==> #[trigger] p[a] < lo + n,
    ensures
        p[i] <= lo + i,
    decreases n - i,
{
    if i < n - 1 {
        lemma_ascending_at_most(p, n, lo, i + 1);
        assert(p[i] < p[i + 1]);
    } else {
        assert(p[n - 1] < lo + n);
    }
}

/// A consistent cube of the subgroup whose three order coordinates are 0 is
/// the solved cube.
pub proof fn lemma_phase2_goal(s: CubeState)
    requires
        s.consistent(),
        s.in_subgroup(),
        cp_index(s.cp) == 0,
        ud_ep_index(s.ep) == 0,
        e_ep_index(s.ep) == 0,
    ensures
        s == CubeState::solved(),
{
    let solved = CubeState::solved();
    lemma_rank_zero_ascends(s.cp);
    let outer = s.ep.subrange(4, 12);
    let inner = s.ep.subrange(0, 4);
    lemma_subrange_is_permutation(s.ep, 4, 12);
    lemma_subrange_is_permutation(s.ep, 0, 4);
    lemma_rank_zero_ascends(outer);
    lemma_rank_zero_ascends(inner);
    assert forall|a: int| 0 <= a < 8 implies 4 <= #[trigger] outer[a] < 4 + 8 by {
        assert(0 <= s.ep[4 + a] < 12);
        assert((s.ep[4 + a] < 4) == (4 + a < 4));
    }
    assert forall|a: int| 0 <= a < 4 implies 0 <= #[trigger] inner[a] < 0 + 4 by {
        assert(0 <= s.ep[a] < 12);
        assert((s.ep[a] < 4) == (a < 4));
    }
    assert forall|i: int| 0 <= i < 8 implies s.cp[i] == solved.cp[i] by {
        lemma_ascending_fills(s.cp, 8, 0, i);
    }
    assert forall|i: int| 0 <= i < 12 implies s.ep[i] == solved.ep[i] by {
        if i < 4 {
            lemma_ascending_fills(inner, 4, 0, i);
            assert(inner[i] == s.ep[i]);
        } else {
            lemma_ascending_fills(outer, 8, 4, i - 4);
            assert(outer[i - 4] == s.ep[i]);
        }
    }
    assert(s.cp =~= solved.cp);
    assert(s.co =~= solved.co);
    assert(s.ep =~= solved.ep);
    assert(s.eo =~= solved.eo);
}

/// The value of a coordinate on a cube of its class is one of its values.
pub proof fn lemma_coordinate_range(kind: Coordinate, s: CubeState)
    requires
        s.consistent(),
    ensures
        0 <= kind.of(s) < kind.spec_count(),
{
    match kind {
        Coordinate::Co => {
            let d = s.co.take(7);
            assert forall|i: int| 0 <= i < d.len() implies 0 <= #[trigger] d[i] < 3 by {
                assert(0 <= s.co[i] < 3);
            }
            crate::coord::lemma_digits_value_bound(d, 3);
            reveal_with_fuel(crate::coord::power, 8);
        },
        Coordinate::Eo => {
            let d = s.eo.take(11);
            assert forall|i: int| 0 <= i < d.len() implies 0 <= #[trigger] d[i] < 2 by {
                assert(0 <= s.eo[i] < 2);
            }
            crate::coord::lemma_digits_value_bound(d, 2);
            reveal_with_fuel(crate::coord::power, 12);
        },
        Coordinate::ECombo => {
            lemma_permutation_members(s.ep);
            crate::ranking::lemma_combo_rank_bound(s.ep, 12, 4);
            crate::coord::lemma_binom_12_4();
        },
        Coordinate::Cp => {
            crate::coord::lemma_rank_prefix_bound(s.cp, 8);
            crate::coord::lemma_arrangements_values();
        },
        Coordinate::UdEp => {
            crate::coord::lemma_rank_prefix_bound(s.ep.subrange(4, 12), 8);
            crate::coord::lemma_arrangements_values();
        },
        Coordinate::EEp => {
            crate::coord::lemma_rank_prefix_bound(s.ep.subrange(0, 4), 4);
            crate::coord::lemma_arrangements_values();
        },
    }
}

} // verus!
