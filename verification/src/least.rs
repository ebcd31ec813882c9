//! Which solution the search returns: of those of the kind it looks for,
//! the one that it tries first.

use vstd::prelude::*;
use crate::admissible::{
    lemma_apply_all_first, lemma_phase1_bound, lemma_phase2_bound_from, lemma_place,
    lemma_subgroup_coordinates, right_from,
};
use crate::consistency::lemma_moves_keep_consistent;
use crate::cubie::CubeState;
use crate::moves::{move_at, phase2_move_at, Move};
use crate::solver::{
    last_move, may_follow, phase1_search, phase1_try, phase2_depths, phase2_limit, phase2_search,
    phase2_try, solve_from, solve_spec, Phase1State, Phase2State,
};
use crate::soundness::{
    all_phase2, canonical, is_candidate, lemma_apply_all_concat, lemma_phase1_next,
    lemma_phase1_search_sound, lemma_phase2_next_from, lemma_phase2_search_sound,
};
use crate::tables::{Coordinate, MoveTable, PruningTable};
use crate::transitions::lemma_solved_coordinates;

verus! {

/// Whether the moves `a` are tried no later than the moves `b`, as many:
/// at the first place where they differ, `a` has the move that comes
/// earlier in the order of the moves.
pub open spec fn not_after(a: Seq<Move>, b: Seq<Move>) -> bool
    decreases a.len(),
{
    &&& a.len() == b.len()
    &&& a.len() > 0 ==> a[0].spec_index() < b[0].spec_index() || (a[0] == b[0] && not_after(
        a.drop_first(),
        b.drop_first(),
    ))
}

/// Whether the second phase, searching with more and more moves, meets the
/// moves `a` no later than the moves `b`: `a` are fewer, or as many and
/// tried no later.
pub open spec fn tail_first(a: Seq<Move>, b: Seq<Move>) -> bool {
    a.len() < b.len() || not_after(a, b)
}

/// Whether the first phase with a given number of moves meets the solution
/// with the rest `lead1` of its first phase and the second phase `tail1` no
/// later than the one with `lead2` and `tail2`: at the first place where the
/// first phases differ the earlier move decides, and where they do not
/// differ the second phases do.
pub open spec fn lead_first(
    lead1: Seq<Move>,
    tail1: Seq<Move>,
    lead2: Seq<Move>,
    tail2: Seq<Move>,
) -> bool
    decreases lead1.len(),
{
    &&& lead1.len() == lead2.len()
    &&& if lead1.len() == 0 {
        tail_first(tail1, tail2)
    } else {
        lead1[0].spec_index() < lead2[0].spec_index() || (lead1[0] == lead2[0] && lead_first(
            lead1.drop_first(),
            tail1,
            lead2.drop_first(),
            tail2,
        ))
    }
}

/// Whether the search meets the solution `(lead1, tail1)` no later than
/// the solution `(lead2, tail2)`: its first phase is shorter, or as long and
/// met no later.
pub open spec fn tried_first(
    lead1: Seq<Move>,
    tail1: Seq<Move>,
    lead2: Seq<Move>,
    tail2: Seq<Move>,
) -> bool {
    lead1.len() < lead2.len() || lead_first(lead1, tail1, lead2, tail2)
}

/// The moves of a list that the search tries, without its first move, are
/// tried after that move.
pub proof fn lemma_canonical_rest(prev: Option<Move>, a: Seq<Move>, b: Seq<Move>)
    requires
        a.len() > 0,
        canonical(prev, a + b),
    ensures
        may_follow(prev, a[0]),
        canonical(Some(a[0]), a.drop_first() + b),
{
    assert((a + b).drop_first() =~= a.drop_first() + b);
    assert((a + b)[0] == a[0]);
}

/// With move tables that are right on the cube and on what moves of the
/// second phase make of it, and steady distance tables, the second phase
/// with `ms.len()` moves finds moves that it tries no later than `ms`, where
/// `ms` solve the cube and are moves that it tries.
pub proof fn lemma_phase2_search_least(
    mt: MoveTable,
    pt: PruningTable,
    from: Seq<Move>,
    c: CubeState,
    prev: Option<Move>,
    ms: Seq<Move>,
)
    requires
        right_from(mt, Coordinate::Cp, from, c),
        pt.follows(mt),
        c.consistent(),
        c.in_subgroup(),
        ms.len() <= 255,
        all_phase2(ms),
        canonical(prev, ms),
        c.apply_all(ms) == CubeState::solved(),
    ensures
        match phase2_search(mt, pt, Phase2State::spec_of(c), ms.len(), prev) {
            Some(found) => not_after(found, ms),
            None => false,
        },
    decreases ms.len(), 11int,
{
    if ms.len() == 0 {
        assert(c.apply_all(ms) == c);
        lemma_solved_coordinates();
        assert(Coordinate::Cp.of(c) == 0);
        assert(Coordinate::UdEp.of(c) == 0);
        assert(Coordinate::EEp.of(c) == 0);
    } else {
        if ms.len() <= 254 {
            lemma_phase2_bound_from(mt, pt, from, c, ms);
        }
        lemma_place(Coordinate::Cp, ms[0]);
        lemma_phase2_try_least(mt, pt, from, c, prev, ms, 0);
    }
}

/// With move tables that are right on the cube and on what moves of the
/// second phase make of it, and steady distance tables, the second phase,
/// trying the moves from a place on that is not behind that of the first
/// move of `ms`, finds moves that it tries no later than `ms`.
pub proof fn lemma_phase2_try_least(
    mt: MoveTable,
    pt: PruningTable,
    from: Seq<Move>,
    c: CubeState,
    prev: Option<Move>,
    ms: Seq<Move>,
    i: int,
)
    requires
        right_from(mt, Coordinate::Cp, from, c),
        pt.follows(mt),
        c.consistent(),
        c.in_subgroup(),
        0 < ms.len() <= 255,
        all_phase2(ms),
        canonical(prev, ms),
        c.apply_all(ms) == CubeState::solved(),
        0 <= i <= Coordinate::Cp.place(ms[0]),
    ensures
        match phase2_try(mt, pt, Phase2State::spec_of(c), ms.len(), prev, i) {
            Some(found) => not_after(found, ms),
            None => false,
        },
    decreases ms.len(), 10 - i,
{
    let m = ms[0];
    let at = Coordinate::Cp.place(m);
    let x = phase2_move_at(i);
    let st = Phase2State::spec_of(c);
    assert(m.spec_is_phase2());
    lemma_place(Coordinate::Cp, m);
    lemma_phase2_next_from(mt, from, c, i);
    let after = st.spec_next(mt, i);
    let depth = (ms.len() - 1) as nat;
    if i == at {
        let rest = ms.drop_first();
        lemma_apply_all_first(c, ms);
        assert forall|k: int| 0 <= k < rest.len() implies (#[trigger] rest[k]).spec_is_phase2() by {
            assert(rest[k] == ms[k + 1]);
        }
        lemma_phase2_search_least(mt, pt, from.push(m), c.apply(m), Some(m), rest);
        let found = seq![m] + phase2_search(mt, pt, after, depth, Some(m))->0;
        assert(found.drop_first() =~= phase2_search(mt, pt, after, depth, Some(m))->0);
    } else {
        lemma_phase2_try_least(mt, pt, from, c, prev, ms, i + 1);
        if may_follow(prev, x) {
            lemma_phase2_search_sound(mt, pt, from.push(x), c.apply(x), depth, Some(x));
            match phase2_search(mt, pt, after, depth, Some(x)) {
                Some(rest) => {
                    let found = seq![x] + rest;
                    assert(found[0] == x);
                    assert(x.spec_index() < m.spec_index());
                },
                None => {},
            }
        }
    }
}

/// With move tables that are right on the cube and on what moves of the
/// second phase make of it, and steady distance tables, the second phase
/// within its limit finds moves that it meets no later than `ms`, where `ms`
/// solve the cube, are within the limit and are moves that it tries.
pub proof fn lemma_phase2_depths_least(
    mt: MoveTable,
    pt: PruningTable,
    from: Seq<Move>,
    c: CubeState,
    prev: Option<Move>,
    ms: Seq<Move>,
    depth: int,
    max: int,
)
    requires
        right_from(mt, Coordinate::Cp, from, c),
        pt.follows(mt),
        c.consistent(),
        c.in_subgroup(),
        ms.len() <= 255,
        all_phase2(ms),
        canonical(prev, ms),
        c.apply_all(ms) == CubeState::solved(),
        0 <= depth <= ms.len() <= max,
    ensures
        match phase2_depths(mt, pt, Phase2State::spec_of(c), prev, depth, max) {
            Some(found) => tail_first(found, ms),
            None => false,
        },
    decreases ms.len() - depth,
{
    if depth < ms.len() {
        lemma_phase2_depths_least(mt, pt, from, c, prev, ms, depth + 1, max);
        lemma_phase2_search_sound(mt, pt, from, c, depth as nat, prev);
    } else {
        lemma_phase2_search_least(mt, pt, from, c, prev, ms);
    }
}

/// With right move tables and steady distance tables, the first phase ends
/// at a node, from which `ms1` and then `tail` are a solution of the kind
/// that the search looks for, with a solution that it meets no later.
pub proof fn lemma_phase1_search_least(
    mt: MoveTable,
    pt: PruningTable,
    initial: CubeState,
    budget: int,
    path: Seq<Move>,
    ms1: Seq<Move>,
    tail: Seq<Move>,
)
    requires
        mt.right(),
        pt.follows(mt),
        initial.consistent(),
        budget <= 255,
        canonical(last_move(path), ms1 + tail),
        all_phase2(tail),
        initial.apply_all(path + ms1).in_subgroup(),
        initial.apply_all(path + ms1).apply_all(tail) == CubeState::solved(),
        tail.len() <= phase2_limit(budget, (path + ms1).len() as int),
    ensures
        match phase1_search(
            mt,
            pt,
            initial,
            budget,
            Phase1State::spec_of(initial.apply_all(path)),
            ms1.len(),
            path,
        ) {
            Some(solution) => path.len() <= solution.phase1.len() && lead_first(
                solution.phase1.skip(path.len() as int),
                solution.phase2,
                ms1,
                tail,
            ),
            None => false,
        },
    decreases ms1.len(), 19int,
{
    let cube = initial.apply_all(path);
    lemma_moves_keep_consistent(initial, path);
    if ms1.len() == 0 {
        assert(path + ms1 =~= path);
        assert(ms1 + tail =~= tail);
        lemma_subgroup_coordinates(cube);
        lemma_phase2_depths_least(
            mt,
            pt,
            Seq::empty(),
            cube,
            last_move(path),
            tail,
            0,
            phase2_limit(budget, path.len() as int),
        );
        assert(path.skip(path.len() as int) =~= Seq::<Move>::empty());
    } else {
        lemma_apply_all_concat(initial, path, ms1);
        if ms1.len() <= 254 {
            lemma_phase1_bound(mt, pt, cube, ms1);
        }
        lemma_phase1_try_least(mt, pt, initial, budget, path, ms1, tail, 0);
    }
}

/// With right move tables and steady distance tables, the first phase,
/// trying the moves from a place on that is not behind that of the first
/// move of `ms1`, ends with a solution that it meets no later than `ms1` and
/// then `tail`.
pub proof fn lemma_phase1_try_least(
    mt: MoveTable,
    pt: PruningTable,
    initial: CubeState,
    budget: int,
    path: Seq<Move>,
    ms1: Seq<Move>,
    tail: Seq<Move>,
    i: int,
)
    requires
        mt.right(),
        pt.follows(mt),
        initial.consistent(),
        budget <= 255,
        ms1.len() > 0,
        canonical(last_move(path), ms1 + tail),
        all_phase2(tail),
        initial.apply_all(path + ms1).in_subgroup(),
        initial.apply_all(path + ms1).apply_all(tail) == CubeState::solved(),
        tail.len() <= phase2_limit(budget, (path + ms1).len() as int),
        0 <= i <= ms1[0].spec_index(),
    ensures
        match phase1_try(
            mt,
            pt,
            initial,
            budget,
            Phase1State::spec_of(initial.apply_all(path)),
            ms1.len(),
            path,
            i,
        ) {
            Some(solution) => path.len() <= solution.phase1.len() && lead_first(
                solution.phase1.skip(path.len() as int),
                solution.phase2,
                ms1,
                tail,
            ),
            None => false,
        },
    decreases ms1.len(), 18 - i,
{
    let m = ms1[0];
    let at = m.spec_index();
    let x = move_at(i);
    let cube = initial.apply_all(path);
    let st = Phase1State::spec_of(cube);
    let n = path.len() as int;
    let depth = (ms1.len() - 1) as nat;
    let longer = path.push(x);
    lemma_moves_keep_consistent(initial, path);
    lemma_phase1_next(mt, cube, i);
    assert(longer.drop_last() =~= path);
    assert(initial.apply_all(longer) == cube.apply(x));
    let after = st.spec_next(mt, i);
    if i == at {
        let rest = ms1.drop_first();
        lemma_canonical_rest(last_move(path), ms1, tail);
        assert(longer + rest =~= path + ms1);
        lemma_phase1_search_least(mt, pt, initial, budget, longer, rest, tail);
        lemma_phase1_search_sound(mt, pt, initial, budget, depth, longer);
        match phase1_search(mt, pt, initial, budget, after, depth, longer) {
            Some(solution) => {
                let got = solution.phase1.skip(n);
                assert(solution.phase1.take(n + 1)[n] == m);
                assert(got[0] == m);
                assert(got.drop_first() =~= solution.phase1.skip(n + 1));
            },
            None => {},
        }
    } else {
        lemma_phase1_try_least(mt, pt, initial, budget, path, ms1, tail, i + 1);
        if may_follow(last_move(path), x) {
            lemma_phase1_search_sound(mt, pt, initial, budget, depth, longer);
            match phase1_search(mt, pt, initial, budget, after, depth, longer) {
                Some(solution) => {
                    let got = solution.phase1.skip(n);
                    assert(solution.phase1.take(n + 1)[n] == x);
                    assert(got[0] == x);
                    assert(x.spec_index() < m.spec_index());
                    assert(got.len() == ms1.len());
                },
                None => {},
            }
        }
    }
}

/// With right move tables and steady distance tables, the search from the
/// depth `depth` of the first phase on returns a solution that it meets no
/// later than `lead` and then `tail`, where these are a solution of the kind
/// that it looks for with at least `depth` moves in the first phase.
pub proof fn lemma_solve_from_least(
    mt: MoveTable,
    pt: PruningTable,
    initial: CubeState,
    budget: int,
    lead: Seq<Move>,
    tail: Seq<Move>,
    depth: int,
)
    requires
        mt.right(),
        pt.follows(mt),
        initial.consistent(),
        budget <= 255,
        is_candidate(initial, budget, lead, tail),
        0 <= depth <= lead.len(),
    ensures
        match solve_from(mt, pt, initial, budget, depth) {
            Some(solution) => tried_first(solution.phase1, solution.phase2, lead, tail),
            None => false,
        },
    decreases lead.len() - depth,
{
    let none = Seq::<Move>::empty();
    let st = Phase1State::spec_of(initial);
    assert(initial.apply_all(none) == initial);
    lemma_phase1_search_sound(mt, pt, initial, budget, depth as nat, none);
    if depth < lead.len() {
        lemma_solve_from_least(mt, pt, initial, budget, lead, tail, depth + 1);
    } else {
        assert(none + lead =~= lead);
        lemma_phase1_search_least(mt, pt, initial, budget, none, lead, tail);
        match phase1_search(mt, pt, initial, budget, st, depth as nat, none) {
            Some(solution) => {
                assert(solution.phase1.skip(0) =~= solution.phase1);
            },
            None => {},
        }
    }
}

/// With right move tables and steady distance tables, the search returns,
/// of the solutions of the kind that it looks for, the one that it meets
/// first: that with the shortest first phase, among these that whose first
/// phase has the earlier move where two differ, then that with the shortest
/// second phase, and that whose second phase has the earlier move where two
/// differ.
pub proof fn lemma_solve_least(
    mt: MoveTable,
    pt: PruningTable,
    initial: CubeState,
    budget: int,
    lead: Seq<Move>,
    tail: Seq<Move>,
)
    requires
        mt.right(),
        pt.follows(mt),
        initial.consistent(),
        budget <= 255,
        is_candidate(initial, budget, lead, tail),
    ensures
        match solve_spec(mt, pt, initial, budget) {
            Some(solution) => tried_first(solution.phase1, solution.phase2, lead, tail),
            None => false,
        },
{
    lemma_solve_from_least(mt, pt, initial, budget, lead, tail, 0);
}

/// Of two lists of moves, each tried no later than the other, neither
/// differs from the other.
pub proof fn lemma_not_after_both(a: Seq<Move>, b: Seq<Move>)
    requires
        not_after(a, b),
        not_after(b, a),
    ensures
        a == b,
    decreases a.len(),
{
    if a.len() > 0 {
        lemma_not_after_both(a.drop_first(), b.drop_first());
        assert(a =~= seq![a[0]] + a.drop_first());
        assert(b =~= seq![b[0]] + b.drop_first());
    } else {
        assert(a =~= b);
    }
}

/// Of two solutions with first phases of one length, each met no later
/// than the other, neither differs from the other.
pub proof fn lemma_lead_first_both(
    lead1: Seq<Move>,
    tail1: Seq<Move>,
    lead2: Seq<Move>,
    tail2: Seq<Move>,
)
    requires
        lead_first(lead1, tail1, lead2, tail2),
        lead_first(lead2, tail2, lead1, tail1),
    ensures
        lead1 == lead2,
        tail1 == tail2,
    decreases lead1.len(),
{
    if lead1.len() > 0 {
        lemma_lead_first_both(lead1.drop_first(), tail1, lead2.drop_first(), tail2);
        assert(lead1 =~= seq![lead1[0]] + lead1.drop_first());
        assert(lead2 =~= seq![lead2[0]] + lead2.drop_first());
    } else {
        assert(lead1 =~= lead2);
        lemma_not_after_both(tail1, tail2);
    }
}

/// Only one solution is met no later than every other: of two solutions,
/// each met no later than the other, neither differs from the other.
pub proof fn lemma_tried_first_both(
    lead1: Seq<Move>,
    tail1: Seq<Move>,
    lead2: Seq<Move>,
    tail2: Seq<Move>,
)
    requires
        tried_first(lead1, tail1, lead2, tail2),
        tried_first(lead2, tail2, lead1, tail1),
    ensures
        lead1 == lead2,
        tail1 == tail2,
{
    lemma_lead_first_both(lead1, tail1, lead2, tail2);
}

} // verus!
