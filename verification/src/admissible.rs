//! Why the search may cut off where the distance tables say so: a table's
//! distance never exceeds the number of moves that really lead to the goal.

use vstd::prelude::*;
use crate::coord::digits_value;
use crate::cubie::{lemma_move_then_inverse, CubeState};
use crate::moves::Move;
use crate::solver::{Phase1State, Phase2State};
use crate::soundness::{all_phase2, lemma_apply_all_concat, lemma_apply_all_one};
use crate::tables::{
    entry, pair_entry, steady, Coordinate, MoveTable, Pruning, PruningTable, UNREACHED,
};
use crate::transitions::{
    lemma_class_kept, lemma_coordinate_range, lemma_slice_in_place_rank, lemma_solved_coordinates,
};

verus! {

impl Coordinate {
    /// Whether the move belongs to the coordinate's phase.
    pub open spec fn has_move(self, m: Move) -> bool {
        self.spec_is_phase2() ==> m.spec_is_phase2()
    }

    /// The place of the move `m` in the order of the coordinate's phase.
    pub open spec fn place(self, m: Move) -> int {
        if !self.spec_is_phase2() || m.spec_face() < 2 {
            m.spec_index()
        } else {
            4 + m.spec_face()
        }
    }
}

/// A move of a coordinate's phase stands at its place in the phase's order.
pub proof fn lemma_place(kind: Coordinate, m: Move)
    requires
        kind.has_move(m),
    ensures
        0 <= kind.place(m) < kind.spec_move_count(),
        kind.spec_move(kind.place(m)) == m,
{
}

/// The move that undoes a move of a phase belongs to the phase.
pub proof fn lemma_inverse_in_phase(kind: Coordinate, m: Move)
    requires
        kind.has_move(m),
    ensures
        kind.has_move(m.spec_inverse()),
{
}

/// Every move of the list belongs to the coordinate's phase.
pub open spec fn all_of_phase(kind: Coordinate, ms: Seq<Move>) -> bool {
    forall|i: int| 0 <= i < ms.len() ==> kind.has_move(#[trigger] ms[i])
}

/// The first move made, then the others, are all the moves made.
pub proof fn lemma_apply_all_first(s: CubeState, ms: Seq<Move>)
    requires
        ms.len() > 0,
    ensures
        s.apply_all(ms) == s.apply(ms[0]).apply_all(ms.drop_first()),
{
    lemma_apply_all_concat(s, seq![ms[0]], ms.drop_first());
    lemma_apply_all_one(s, ms[0]);
    assert(seq![ms[0]] + ms.drop_first() =~= ms);
}

/// Whether the move tables are known to be right on the cube `c` and on all
/// that moves of the phase of `kind` make of it: they are right on every
/// cube of the class, or `c` is what the moves `from` of the phase make of
/// the solved cube.
pub open spec fn right_from(
    mt: MoveTable,
    kind: Coordinate,
    from: Seq<Move>,
    c: CubeState,
) -> bool {
    mt.right() || (mt.sound() && all_of_phase(kind, from) && c == CubeState::solved().apply_all(
        from,
    ))
}

/// With move tables that are right on a cube and on what moves make of it,
/// and a steady distance table, the distance of the pair of the cube is at
/// most the number of moves of the phase that bring both coordinates of the
/// pair to 0.
pub proof fn lemma_pair_distance(
    mt: MoveTable,
    pt: PruningTable,
    which: Pruning,
    from: Seq<Move>,
    c: CubeState,
    ms: Seq<Move>,
)
    requires
        right_from(mt, which.first(), from, c),
        pt.follows(mt),
        which.first().class(c),
        ms.len() <= 254,
        all_of_phase(which.first(), ms),
        which.first().of(c.apply_all(ms)) == 0,
        which.second().of(c.apply_all(ms)) == 0,
    ensures
        pt.distance(which, which.first().of(c), which.second().of(c)) <= ms.len(),
    decreases ms.len(),
{
    let k1 = which.first();
    let k2 = which.second();
    let dist = pt.entries(which);
    let n2 = k2.spec_count();
    let mc = k1.spec_move_count();
    assert(k1.spec_is_phase2() == k2.spec_is_phase2());
    assert(k2.spec_move_count() == mc);
    assert(steady(dist, mt.entries(k1), k1.spec_count(), mt.entries(k2), n2, mc));
    if ms.len() == 0 {
        assert(c.apply_all(ms) == c);
    } else {
        let m = ms[0];
        let rest = ms.drop_first();
        let next = c.apply(m);
        lemma_apply_all_first(c, ms);
        lemma_place(k1, m);
        lemma_class_kept(k1, c, k1.place(m));
        assert forall|i: int| 0 <= i < rest.len() implies k1.has_move(#[trigger] rest[i]) by {
            assert(rest[i] == ms[i + 1]);
        }
        let longer = from.push(m);
        if !mt.right() {
            assert(longer.drop_last() =~= from);
            assert forall|i: int| 0 <= i < longer.len() implies k1.has_move(
                #[trigger] longer[i],
            ) by {
                if i < from.len() {
                    assert(longer[i] == from[i]);
                }
            }
            assert forall|i: int| 0 <= i < longer.len() implies k2.has_move(
                #[trigger] longer[i],
            ) by {
                assert(k1.has_move(longer[i]));
            }
            assert(k1.table_right_from_solved(mt.entries(k1)));
            assert(k2.table_right_from_solved(mt.entries(k2)));
        }
        lemma_pair_distance(mt, pt, which, longer, next, rest);
        let back = m.spec_inverse();
        lemma_inverse_in_phase(k1, m);
        lemma_place(k1, back);
        let j = k1.place(back);
        assert(k2.spec_move(j) == back);
        lemma_move_then_inverse(c, m);
        assert(next.apply(back) == c);
        lemma_coordinate_range(k1, next);
        lemma_coordinate_range(k2, next);
        assert(k2.class(next));
        if mt.right() {
            assert(k1.table_right(mt.entries(k1)));
            assert(k2.table_right(mt.entries(k2)));
        } else {
            let made = CubeState::solved().apply_all(longer);
            assert(made == next);
            assert(entry(mt.entries(k1), k1.spec_move_count(), k1.of(made), j) == k1.of(
                made.apply(k1.spec_move(j)),
            ));
            assert(entry(mt.entries(k2), k2.spec_move_count(), k2.of(made), j) == k2.of(
                made.apply(k2.spec_move(j)),
            ));
        }
        assert(entry(mt.entries(k1), k1.spec_move_count(), k1.of(next), j) == k1.of(c));
        assert(entry(mt.entries(k2), k2.spec_move_count(), k2.of(next), j) == k2.of(c));
        let a = k1.of(next);
        let b = k2.of(next);
        assert(pair_entry(dist, n2, a, b) <= rest.len());
        assert(pair_entry(dist, n2, a, b) != UNREACHED);
        let a2 = entry(mt.entries(k1), mc, a, j);
        let b2 = entry(mt.entries(k2), mc, b, j);
        assert(pair_entry(dist, n2, a2, b2) <= pair_entry(dist, n2, a, b) + 1);
    }
}

/// A sequence of zeros is the number 0 in any base.
pub proof fn lemma_zero_digits(s: Seq<int>, base: int)
    requires
        forall|i: int| 0 <= i < s.len() ==> #[trigger] s[i] == 0,
    ensures
        digits_value(s, base) == 0,
    decreases s.len(),
{
    if s.len() > 0 {
        assert(s.last() == 0);
        let head = s.drop_last();
        assert forall|i: int| 0 <= i < head.len() implies #[trigger] head[i] == 0 by {
            assert(head[i] == s[i]);
        }
        lemma_zero_digits(head, base);
        assert(digits_value(head, base) * base == 0) by (nonlinear_arith)
            requires
                digits_value(head, base) == 0,
        ;
    }
}

/// The coordinates of the first phase of a cube of the subgroup are at the
/// goal.
pub proof fn lemma_subgroup_coordinates(s: CubeState)
    requires
        s.wf(),
        s.in_subgroup(),
    ensures
        Coordinate::Co.of(s) == 0,
        Coordinate::Eo.of(s) == 0,
        Coordinate::ECombo.of(s) == 0,
        Phase1State::spec_of(s).spec_is_solved(),
{
    let a = s.co.take(7);
    assert forall|i: int| 0 <= i < a.len() implies #[trigger] a[i] == 0 by {
        assert(s.co[i] == 0);
    }
    lemma_zero_digits(a, 3);
    let b = s.eo.take(11);
    assert forall|i: int| 0 <= i < b.len() implies #[trigger] b[i] == 0 by {
        assert(s.eo[i] == 0);
    }
    lemma_zero_digits(b, 2);
    lemma_slice_in_place_rank(s.ep);
}

/// With right move tables and steady distance tables, the first phase does
/// not cut off a cube that `ms.len()` moves bring into the subgroup.
pub proof fn lemma_phase1_bound(mt: MoveTable, pt: PruningTable, c: CubeState, ms: Seq<Move>)
    requires
        mt.right(),
        pt.follows(mt),
        c.consistent(),
        ms.len() <= 254,
        c.apply_all(ms).in_subgroup(),
    ensures
        Phase1State::spec_of(c).spec_bound(pt) <= ms.len(),
        !Phase1State::spec_of(c).spec_prune(pt, ms.len() as int),
{
    crate::consistency::lemma_moves_keep_consistent(c, ms);
    lemma_subgroup_coordinates(c.apply_all(ms));
    lemma_pair_distance(mt, pt, Pruning::CoE, Seq::empty(), c, ms);
    lemma_pair_distance(mt, pt, Pruning::EoE, Seq::empty(), c, ms);
    lemma_coordinate_range(Coordinate::Co, c);
    lemma_coordinate_range(Coordinate::Eo, c);
    lemma_coordinate_range(Coordinate::ECombo, c);
}

/// With right move tables and steady distance tables, the second phase does
/// not cut off a cube of the subgroup that `ms.len()` moves of the phase
/// solve.
pub proof fn lemma_phase2_bound(mt: MoveTable, pt: PruningTable, c: CubeState, ms: Seq<Move>)
    requires
        mt.right(),
        pt.follows(mt),
        c.consistent(),
        c.in_subgroup(),
        ms.len() <= 254,
        all_phase2(ms),
        c.apply_all(ms) == CubeState::solved(),
    ensures
        Phase2State::spec_of(c).spec_bound(pt) <= ms.len(),
        !Phase2State::spec_of(c).spec_prune(pt, ms.len() as int),
{
    lemma_solved_coordinates();
    assert(Coordinate::Cp.of(CubeState::solved()) == 0);
    assert(Coordinate::UdEp.of(CubeState::solved()) == 0);
    assert(Coordinate::EEp.of(CubeState::solved()) == 0);
    assert forall|i: int| 0 <= i < ms.len() implies Coordinate::Cp.has_move(#[trigger] ms[i]) by {
        assert(ms[i].spec_is_phase2());
    }
    assert forall|i: int| 0 <= i < ms.len() implies Coordinate::UdEp.has_move(
        #[trigger] ms[i],
    ) by {
        assert(ms[i].spec_is_phase2());
    }
    lemma_pair_distance(mt, pt, Pruning::CpE, Seq::empty(), c, ms);
    lemma_pair_distance(mt, pt, Pruning::EpE, Seq::empty(), c, ms);
    lemma_coordinate_range(Coordinate::Cp, c);
    lemma_coordinate_range(Coordinate::UdEp, c);
    lemma_coordinate_range(Coordinate::EEp, c);
}

/// With move tables that are right on a cube of the subgroup and on what
/// moves of the second phase make of it, and steady distance tables, the
/// second phase does not cut off the cube where `ms.len()` moves of the
/// phase solve it.
pub proof fn lemma_phase2_bound_from(
    mt: MoveTable,
    pt: PruningTable,
    from: Seq<Move>,
    c: CubeState,
    ms: Seq<Move>,
)
    requires
        right_from(mt, Coordinate::Cp, from, c),
        pt.follows(mt),
        c.consistent(),
        c.in_subgroup(),
        ms.len() <= 254,
        all_phase2(ms),
        c.apply_all(ms) == CubeState::solved(),
    ensures
        Phase2State::spec_of(c).spec_bound(pt) <= ms.len(),
        !Phase2State::spec_of(c).spec_prune(pt, ms.len() as int),
{
    if mt.right() {
        lemma_phase2_bound(mt, pt, c, ms);
    } else {
        assert forall|k: int| 0 <= k < from.len() implies (#[trigger] from[k]).spec_is_phase2() by {
            assert(Coordinate::Cp.has_move(from[k]));
        }
        lemma_phase2_bound_made(mt, pt, from, ms);
    }
}

/// With the move tables as they are built and steady distance tables, the
/// first phase does not cut off a cube, made of the solved cube by the moves
/// `from`, that `ms.len()` moves bring into the subgroup.
pub proof fn lemma_phase1_bound_made(
    mt: MoveTable,
    pt: PruningTable,
    from: Seq<Move>,
    ms: Seq<Move>,
)
    requires
        mt.sound(),
        pt.follows(mt),
        ms.len() <= 254,
        CubeState::solved().apply_all(from).apply_all(ms).in_subgroup(),
    ensures
        Phase1State::spec_of(CubeState::solved().apply_all(from)).spec_bound(pt) <= ms.len(),
        !Phase1State::spec_of(CubeState::solved().apply_all(from)).spec_prune(
            pt,
            ms.len() as int,
        ),
{
    let c = CubeState::solved().apply_all(from);
    crate::tables::lemma_made_class(Coordinate::Co, from);
    crate::consistency::lemma_moves_keep_consistent(c, ms);
    lemma_subgroup_coordinates(c.apply_all(ms));
    lemma_pair_distance(mt, pt, Pruning::CoE, from, c, ms);
    lemma_pair_distance(mt, pt, Pruning::EoE, from, c, ms);
    lemma_coordinate_range(Coordinate::Co, c);
    lemma_coordinate_range(Coordinate::Eo, c);
    lemma_coordinate_range(Coordinate::ECombo, c);
}

/// With the move tables as they are built and steady distance tables, the
/// second phase does not cut off a cube, made of the solved cube by the
/// moves `from` of the second phase, that `ms.len()` moves of the phase
/// solve.
pub proof fn lemma_phase2_bound_made(
    mt: MoveTable,
    pt: PruningTable,
    from: Seq<Move>,
    ms: Seq<Move>,
)
    requires
        mt.sound(),
        pt.follows(mt),
        all_phase2(from),
        ms.len() <= 254,
        all_phase2(ms),
        CubeState::solved().apply_all(from).apply_all(ms) == CubeState::solved(),
    ensures
        Phase2State::spec_of(CubeState::solved().apply_all(from)).spec_bound(pt) <= ms.len(),
        !Phase2State::spec_of(CubeState::solved().apply_all(from)).spec_prune(
            pt,
            ms.len() as int,
        ),
{
    let c = CubeState::solved().apply_all(from);
    lemma_solved_coordinates();
    assert(Coordinate::Cp.of(CubeState::solved()) == 0);
    assert(Coordinate::UdEp.of(CubeState::solved()) == 0);
    assert(Coordinate::EEp.of(CubeState::solved()) == 0);
    assert forall|i: int| 0 <= i < ms.len() implies Coordinate::Cp.has_move(#[trigger] ms[i]) by {
        assert(ms[i].spec_is_phase2());
    }
    assert forall|i: int| 0 <= i < ms.len() implies Coordinate::UdEp.has_move(
        #[trigger] ms[i],
    ) by {
        assert(ms[i].spec_is_phase2());
    }
    assert forall|i: int| 0 <= i < from.len() implies Coordinate::Cp.has_move(
        #[trigger] from[i],
    ) by {
        assert(from[i].spec_is_phase2());
    }
    assert forall|i: int| 0 <= i < from.len() implies Coordinate::UdEp.has_move(
        #[trigger] from[i],
    ) by {
        assert(from[i].spec_is_phase2());
    }
    crate::tables::lemma_made_class(Coordinate::Cp, from);
    lemma_pair_distance(mt, pt, Pruning::CpE, from, c, ms);
    lemma_pair_distance(mt, pt, Pruning::EpE, from, c, ms);
    lemma_coordinate_range(Coordinate::Cp, c);
    lemma_coordinate_range(Coordinate::UdEp, c);
    lemma_coordinate_range(Coordinate::EEp, c);
}

} // verus!
