//! The cube one move away from solved: the search undoes the move, where
//! the move that undoes it is the first that the search meets.

use vstd::prelude::*;
use crate::admissible::{
    lemma_phase1_bound_made, lemma_phase2_bound_made, lemma_place, lemma_subgroup_coordinates,
};
use crate::consistency::{lemma_move_keeps_consistent, lemma_solved_consistent};
use crate::cubie::{
    lemma_compose_wf, lemma_move_then_inverse, lemma_of_move_wf, lemma_solved_compose, CubeState,
};
use crate::moves::{move_at, phase2_move_at, Move};
use crate::solver::{
    last_move, may_follow, phase1_search, phase1_try, phase2_depths, phase2_limit, phase2_search,
    phase2_try, solve_from, solve_spec, Phase1State, Phase2State, SolutionModel,
};
use crate::soundness::{
    lemma_apply_all_one, lemma_phase1_next_made, lemma_phase1_state_solved,
    lemma_phase2_next_made, lemma_phase2_state_solved,
};
use crate::tables::{Coordinate, MoveTable, PruningTable};
use crate::transitions::{lemma_phase2_move_keeps_subgroup, lemma_solved_coordinates};

verus! {

/// The corner places of a move applied to the solved cube, written out.
pub open spec fn corners_of(m: Move) -> Seq<int> {
    CubeState::of_move(m).cp
}

/// Different moves turn the solved cube into different cubes.
pub proof fn lemma_of_move_injective(a: Move, b: Move)
    requires
        CubeState::of_move(a) == CubeState::of_move(b),
    ensures
        a == b,
{
    lemma_corner_marks(a);
    lemma_corner_marks(b);
}

/// The corners in the places 0, 2 and 4 after a move applied to the solved
/// cube tell the move.
#[verifier::rlimit(40)]
pub proof fn lemma_corner_marks(m: Move)
    ensures
        ({
            let c = corners_of(m);
            (c[0], c[2], c[4]) == marks(m)
        }),
{
    let q = CubeState::quarter_turn(m.spec_face());
    let h = q.compose(q);
    let t = h.compose(q);
    assert(q.cp.len() == 8 && h.cp.len() == 8 && t.cp.len() == 8);
}

/// The corners in the places 0, 2 and 4 after the move `m` applied to the
/// solved cube.
pub open spec fn marks(m: Move) -> (int, int, int) {
    match m {
        Move::U => (3, 1, 4),
        Move::U2 => (2, 0, 4),
        Move::U3 => (1, 3, 4),
        Move::D => (0, 2, 7),
        Move::D2 => (0, 2, 6),
        Move::D3 => (0, 2, 5),
        Move::R => (0, 5, 4),
        Move::R2 => (0, 6, 4),
        Move::R3 => (0, 1, 4),
        Move::L => (7, 2, 3),
        Move::L2 => (4, 2, 0),
        Move::L3 => (3, 2, 7),
        Move::F => (0, 3, 5),
        Move::F2 => (0, 4, 2),
        Move::F3 => (0, 5, 3),
        Move::B => (1, 2, 4),
        Move::B2 => (6, 2, 4),
        Move::B3 => (7, 2, 4),
    }
}

/// A move changes the solved cube.
pub proof fn lemma_move_changes_solved(m: Move)
    ensures
        CubeState::solved().apply(m) != CubeState::solved(),
{
    lemma_corner_marks(m);
    lemma_of_move_wf(m);
    lemma_solved_compose(CubeState::of_move(m));
}

/// Only the move that undoes `m` brings the solved cube after `m` back.
pub proof fn lemma_unique_undo(m: Move, x: Move)
    requires
        CubeState::solved().apply(m).apply(x) == CubeState::solved(),
    ensures
        x == m.spec_inverse(),
{
    let solved = CubeState::solved();
    let c = solved.apply(m);
    lemma_of_move_wf(m);
    lemma_of_move_wf(x.spec_inverse());
    lemma_compose_wf(solved, CubeState::of_move(m));
    lemma_move_then_inverse(c, x);
    lemma_solved_compose(CubeState::of_move(m));
    lemma_solved_compose(CubeState::of_move(x.spec_inverse()));
    lemma_of_move_injective(m, x.spec_inverse());
}

/// Whether the corner place `i` lies in the layer of the side face `f`.
pub open spec fn in_layer(f: int, i: int) -> bool {
    if f == 2 {
        i == 1 || i == 2 || i == 5 || i == 6
    } else if f == 3 {
        i == 0 || i == 3 || i == 4 || i == 7
    } else if f == 4 {
        i == 2 || i == 3 || i == 4 || i == 5
    } else {
        i == 0 || i == 1 || i == 6 || i == 7
    }
}

/// A quarter turn of a side face twists the corners of its layer and leaves
/// the others where they are, untwisted.
#[verifier::rlimit(40)]
pub proof fn lemma_side_turn_shape(m: Move)
    requires
        !m.spec_is_phase2(),
    ensures
        forall|i: int|
            0 <= i < 8 ==> if in_layer(m.spec_face(), i) {
                #[trigger] CubeState::of_move(m).co[i] != 0
            } else {
                CubeState::of_move(m).co[i] == 0 && CubeState::of_move(m).cp[i] == i
            },
{
    let f = m.spec_face();
    let q = CubeState::quarter_turn(f);
    let h = q.compose(q);
    let k = h.compose(q);
    assert(q.co.len() == 8 && h.co.len() == 8 && k.co.len() == 8);
    assert(q.cp.len() == 8 && h.cp.len() == 8 && k.cp.len() == 8);
    let t = CubeState::of_move(m);
    assert(t == q || t == k);
}

/// A quarter turn of a side face twists a corner.
pub proof fn lemma_side_turn_twists(m: Move)
    requires
        !m.spec_is_phase2(),
    ensures
        !CubeState::of_move(m).in_subgroup(),
        !CubeState::solved().apply(m).in_subgroup(),
{
    let t = CubeState::of_move(m);
    lemma_of_move_wf(m);
    lemma_solved_compose(t);
    lemma_side_turn_shape(m);
    let at = if m.spec_face() == 2 {
        1int
    } else if m.spec_face() == 3 {
        0int
    } else if m.spec_face() == 4 {
        2int
    } else {
        0int
    };
    assert(in_layer(m.spec_face(), at));
    assert(t.co[at] != 0);
}

/// A corner place in the layer of the side face `a` and outside that of the
/// side face `b`.
pub open spec fn apart(a: int, b: int) -> int {
    if a == 2 {
        if b == 4 {
            1
        } else if b == 5 {
            2
        } else {
            1
        }
    } else if a == 3 {
        if b == 5 {
            3
        } else {
            0
        }
    } else if a == 4 {
        if b == 2 {
            3
        } else {
            2
        }
    } else {
        if b == 3 {
            1
        } else {
            0
        }
    }
}

/// Quarter turns of two different side faces, one after the other, leave a
/// corner twisted.
pub proof fn lemma_two_side_turns_twist(a: Move, b: Move)
    requires
        !a.spec_is_phase2(),
        !b.spec_is_phase2(),
        a.spec_face() != b.spec_face(),
    ensures
        !CubeState::solved().apply(a).apply(b).in_subgroup(),
{
    let ta = CubeState::of_move(a);
    let tb = CubeState::of_move(b);
    lemma_of_move_wf(a);
    lemma_of_move_wf(b);
    lemma_solved_compose(ta);
    lemma_side_turn_shape(a);
    lemma_side_turn_shape(b);
    let c = ta.compose(tb);
    let at = apart(a.spec_face(), b.spec_face());
    assert(0 <= at < 8);
    assert(in_layer(a.spec_face(), at));
    assert(!in_layer(b.spec_face(), at));
    assert(ta.co[at] != 0);
    assert(tb.co[at] == 0 && tb.cp[at] == at);
    assert(0 <= ta.co[at] < 3);
    assert(c.co[at] == (ta.co[tb.cp[at]] + tb.co[at]) % 3);
    assert(c.co[at] != 0);
}

/// The solved cube after a move of the second phase is consistent and lies
/// in the subgroup; after any move it is consistent.
pub proof fn lemma_one_move_class(m: Move)
    ensures
        CubeState::solved().apply(m).consistent(),
        m.spec_is_phase2() ==> CubeState::solved().apply(m).in_subgroup(),
        CubeState::solved().apply(m).apply(m.spec_inverse()) == CubeState::solved(),
{
    lemma_solved_consistent();
    lemma_move_keeps_consistent(CubeState::solved(), m);
    if m.spec_is_phase2() {
        lemma_phase2_move_keeps_subgroup(CubeState::solved(), m);
    }
    lemma_move_then_inverse(CubeState::solved(), m);
}

/// All coordinates of the second phase of the solved cube are at the goal.
pub proof fn lemma_solved_states()
    ensures
        Phase1State::spec_of(CubeState::solved()).spec_is_solved(),
        Phase2State::spec_of(CubeState::solved()).spec_is_solved(),
{
    lemma_solved_coordinates();
    let s = CubeState::solved();
    assert(Coordinate::Co.of(s) == 0);
    assert(Coordinate::Eo.of(s) == 0);
    assert(Coordinate::ECombo.of(s) == 0);
    assert(Coordinate::Cp.of(s) == 0);
    assert(Coordinate::UdEp.of(s) == 0);
    assert(Coordinate::EEp.of(s) == 0);
}

/// With the move tables as they are built, the second phase with one move,
/// tried from a place on that is not behind that of the undoing move, undoes
/// a move of the second phase made on the solved cube.
pub proof fn lemma_phase2_try_undoes(mt: MoveTable, pt: PruningTable, m: Move, i: int)
    requires
        mt.sound(),
        m.spec_is_phase2(),
        0 <= i <= Coordinate::Cp.place(m.spec_inverse()),
    ensures
        phase2_try(
            mt,
            pt,
            Phase2State::spec_of(CubeState::solved().apply(m)),
            1,
            None,
            i,
        ) == Some(seq![m.spec_inverse()]),
    decreases 10 - i,
{
    let solved = CubeState::solved();
    let c = solved.apply(m);
    let back = m.spec_inverse();
    let j = Coordinate::Cp.place(back);
    let made = seq![m];
    lemma_one_move_class(m);
    lemma_place(Coordinate::Cp, back);
    lemma_apply_all_one(solved, m);
    assert(made[0].spec_is_phase2());
    lemma_phase2_next_made(mt, made, i);
    let x = phase2_move_at(i);
    let next = c.apply(x);
    let st = Phase2State::spec_of(c);
    let after = st.spec_next(mt, i);
    assert(after == Phase2State::spec_of(next));
    assert(may_follow(None, x));
    if i == j {
        lemma_solved_states();
        assert(x == back);
        assert(next == solved);
        assert(phase2_search(mt, pt, after, 0, Some(x)) == Some(Seq::<Move>::empty()));
        assert(seq![back] + Seq::<Move>::empty() =~= seq![back]);
        assert(phase2_try(mt, pt, st, 1, None, i) == Some(seq![x] + Seq::<Move>::empty()));
    } else {
        lemma_phase2_try_undoes(mt, pt, m, i + 1);
        if after.spec_is_solved() {
            lemma_phase2_state_solved(next);
            lemma_unique_undo(m, x);
            assert(Coordinate::Cp.spec_move(i) == x);
            assert(false);
        }
        assert(phase2_search(mt, pt, after, 0, Some(x)) is None);
        assert(phase2_try(mt, pt, st, 1, None, i) == phase2_try(mt, pt, st, 1, None, i + 1));
    }
}

/// With the move tables as they are built, the first phase with one move,
/// tried from a place on that is not behind that of the undoing move, undoes
/// a turn of a side face made on the solved cube: a counter-clockwise
/// quarter turn with any budget, and any such turn with a budget of one
/// move.
pub proof fn lemma_phase1_try_undoes(
    mt: MoveTable,
    pt: PruningTable,
    m: Move,
    budget: int,
    i: int,
)
    requires
        mt.sound(),
        !m.spec_is_phase2(),
        m.spec_turns() == 3 || budget == 1,
        1 <= budget,
        0 <= i <= m.spec_inverse().spec_index(),
    ensures
        phase1_try(
            mt,
            pt,
            CubeState::solved().apply(m),
            budget,
            Phase1State::spec_of(CubeState::solved().apply(m)),
            1,
            Seq::empty(),
            i,
        ) == Some(SolutionModel { phase1: seq![m.spec_inverse()], phase2: Seq::empty() }),
    decreases 18 - i,
{
    let solved = CubeState::solved();
    let c = solved.apply(m);
    let back = m.spec_inverse();
    let j = back.spec_index();
    let none = Seq::<Move>::empty();
    let made = seq![m];
    lemma_one_move_class(m);
    lemma_apply_all_one(solved, m);
    assert(c.apply_all(none) == c);
    lemma_phase1_next_made(mt, made, i);
    let x = move_at(i);
    let next = c.apply(x);
    let path = none.push(x);
    let st = Phase1State::spec_of(c);
    let after = st.spec_next(mt, i);
    assert(after == Phase1State::spec_of(next));
    assert(may_follow(last_move(none), x));
    assert(path =~= seq![x]);
    lemma_apply_all_one(c, x);
    assert(c.apply_all(path) == next);
    let st2 = Phase2State::spec_of(next);
    if i == j {
        lemma_solved_states();
        assert(x == back);
        assert(next == solved);
        assert(phase2_search(mt, pt, st2, 0, last_move(path)) == Some(none));
        assert(phase2_depths(mt, pt, st2, last_move(path), 0, budget - 1) == Some(none));
        assert(phase2_limit(budget, path.len() as int) == budget - 1);
        assert(phase1_search(mt, pt, c, budget, after, 0, path) == Some(
            SolutionModel { phase1: path, phase2: none },
        ));
        assert(phase1_try(mt, pt, c, budget, st, 1, none, i) == Some(
            SolutionModel { phase1: path, phase2: none },
        ));
    } else {
        lemma_phase1_try_undoes(mt, pt, m, budget, i + 1);
        if after.spec_is_solved() {
            lemma_phase1_state_solved(next);
            if budget == 1 {
                if st2.spec_is_solved() {
                    lemma_phase2_state_solved(next);
                    lemma_unique_undo(m, x);
                    assert(false);
                }
                assert(phase2_search(mt, pt, st2, 0, last_move(path)) is None);
                assert(phase2_depths(mt, pt, st2, last_move(path), 1, 0) is None);
                assert(phase2_depths(mt, pt, st2, last_move(path), 0, 0) is None);
            } else {
                lemma_side_turn_twists(m);
                if x.spec_is_phase2() {
                    lemma_of_move_wf(x);
                    lemma_compose_wf(c, CubeState::of_move(x));
                    lemma_phase2_move_keeps_subgroup(next, x.spec_inverse());
                    lemma_move_then_inverse(c, x);
                } else {
                    lemma_two_side_turns_twist(m, x);
                }
                assert(false);
            }
        }
        assert(phase1_search(mt, pt, c, budget, after, 0, path) is None);
        assert(phase1_try(mt, pt, c, budget, st, 1, none, i) == phase1_try(
            mt,
            pt,
            c,
            budget,
            st,
            1,
            none,
            i + 1,
        ));
    }
}

/// The solution that undoes the move `m`: the undoing move, in the second
/// phase where `m` is a move of that phase, else in the first.
pub open spec fn undone_by(m: Move) -> SolutionModel {
    if m.spec_is_phase2() {
        SolutionModel { phase1: Seq::empty(), phase2: seq![m.spec_inverse()] }
    } else {
        SolutionModel { phase1: seq![m.spec_inverse()], phase2: Seq::empty() }
    }
}

/// With the move tables and distance tables as they are built, the search
/// undoes a move made on the solved cube by the one move that undoes it:
/// with a budget of one move whatever the move, and with any budget of at
/// least one move where the move is one of the second phase or a
/// counter-clockwise quarter turn. (After a clockwise quarter turn of a side
/// face the search with a larger budget first meets the same turn again,
/// which leads into the subgroup, and goes on from there.)
pub proof fn lemma_one_move_is_undone(mt: MoveTable, pt: PruningTable, m: Move, budget: int)
    requires
        mt.sound(),
        pt.follows(mt),
        1 <= budget <= 255,
        m.spec_is_phase2() || m.spec_turns() == 3 || budget == 1,
    ensures
        solve_spec(mt, pt, CubeState::solved().apply(m), budget) == Some(undone_by(m)),
{
    let solved = CubeState::solved();
    let c = solved.apply(m);
    let back = m.spec_inverse();
    let none = Seq::<Move>::empty();
    let one = seq![back];
    let made = seq![m];
    lemma_one_move_class(m);
    lemma_apply_all_one(c, back);
    lemma_apply_all_one(solved, m);
    assert(c.apply_all(none) == c);
    let st1 = Phase1State::spec_of(c);
    if m.spec_is_phase2() {
        let st2 = Phase2State::spec_of(c);
        lemma_subgroup_coordinates(c);
        assert(one[0].spec_is_phase2());
        assert(made[0].spec_is_phase2());
        lemma_phase2_bound_made(mt, pt, made, one);
        lemma_place(Coordinate::Cp, back);
        lemma_phase2_try_undoes(mt, pt, m, 0);
        if st2.spec_is_solved() {
            lemma_phase2_state_solved(c);
            lemma_move_changes_solved(m);
        }
        assert(phase2_search(mt, pt, st2, 0, None) is None);
        assert(phase2_search(mt, pt, st2, 1, None) == Some(one));
        assert(phase2_depths(mt, pt, st2, None, 1, budget) == Some(one));
        assert(phase2_depths(mt, pt, st2, None, 0, budget) == Some(one));
        assert(phase1_search(mt, pt, c, budget, st1, 0, none) == Some(undone_by(m)));
    } else {
        lemma_side_turn_twists(m);
        if st1.spec_is_solved() {
            lemma_phase1_state_solved(c);
        }
        assert(phase1_search(mt, pt, c, budget, st1, 0, none) is None);
        lemma_solved_consistent();
        assert(c.apply_all(one).in_subgroup());
        lemma_phase1_bound_made(mt, pt, made, one);
        lemma_phase1_try_undoes(mt, pt, m, budget, 0);
        assert(phase1_search(mt, pt, c, budget, st1, 1, none) == Some(undone_by(m)));
        assert(solve_from(mt, pt, c, budget, 1) == Some(undone_by(m)));
    }
}

} // verus!
