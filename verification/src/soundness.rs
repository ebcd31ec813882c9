//! What the search promises. Whatever the tables hold, the moves it returns
//! are moves that it tries one after another, within the budget. With the
//! move tables as they are built, the first phase of what it returns for a
//! cube made of the solved cube leads into the subgroup. With right tables,
//! the moves it returns solve the cube they were found for.

use vstd::prelude::*;
use crate::admissible::right_from;
use crate::consistency::{lemma_move_keeps_consistent, lemma_moves_keep_consistent};
use crate::cubie::CubeState;
use crate::moves::{move_at, phase2_move_at, Move};
use crate::solver::{
    last_move, may_follow, phase1_search, phase1_try, phase2_depths, phase2_limit, phase2_search,
    phase2_try, solve_from, solve_spec, Phase1State, Phase2State, SolutionModel,
};
use crate::tables::{entry, Coordinate, MoveTable, PruningTable};
use crate::transitions::{
    lemma_coordinate_range, lemma_phase1_goal, lemma_phase2_goal, lemma_phase2_move_keeps_subgroup,
    lemma_solved_coordinates,
};

verus! {

/// Moves made one list after another are the moves of the joined list.
pub proof fn lemma_apply_all_concat(s: CubeState, a: Seq<Move>, b: Seq<Move>)
    ensures
        s.apply_all(a + b) == s.apply_all(a).apply_all(b),
    decreases b.len(),
{
    if b.len() == 0 {
        assert(a + b =~= a);
    } else {
        lemma_apply_all_concat(s, a, b.drop_last());
        assert((a + b).drop_last() =~= a + b.drop_last());
        assert((a + b).last() == b.last());
    }
}

/// One move made is the list of that move made.
pub proof fn lemma_apply_all_one(s: CubeState, m: Move)
    ensures
        s.apply_all(seq![m]) == s.apply(m),
{
    let one = seq![m];
    assert(one.drop_last() =~= Seq::<Move>::empty());
    assert(s.apply_all(one.drop_last()) == s);
}

/// Every move of the list belongs to the second phase.
pub open spec fn all_phase2(ms: Seq<Move>) -> bool {
    forall|i: int| 0 <= i < ms.len() ==> (#[trigger] ms[i]).spec_is_phase2()
}

/// Whether the search tries the moves `ms` one after another, after a path
/// that ended with `prev`: no move follows one that rules it out.
pub open spec fn canonical(prev: Option<Move>, ms: Seq<Move>) -> bool
    decreases ms.len(),
{
    if ms.len() == 0 {
        true
    } else {
        may_follow(prev, ms[0]) && canonical(Some(ms[0]), ms.drop_first())
    }
}

/// Whether the moves `lead` and then `tail` are a solution of the kind that the
/// search looks for: moves that it tries one after another, `lead` leading
/// into the subgroup, `tail` of the second phase leading on to the solved
/// cube, both together within the budget.
pub open spec fn is_candidate(
    initial: CubeState,
    budget: int,
    lead: Seq<Move>,
    tail: Seq<Move>,
) -> bool {
    &&& canonical(None, lead + tail)
    &&& all_phase2(tail)
    &&& initial.apply_all(lead).in_subgroup()
    &&& initial.apply_all(lead).apply_all(tail) == CubeState::solved()
    &&& tail.len() <= phase2_limit(budget, lead.len() as int)
}

/// With right tables, the coordinates that the tables give after a move of
/// the second phase are those of the cube after the move.
pub proof fn lemma_phase2_next(mt: MoveTable, c: CubeState, i: int)
    requires
        mt.right(),
        c.consistent(),
        c.in_subgroup(),
        0 <= i < 10,
    ensures
        Phase2State::spec_of(c).spec_next(mt, i) == Phase2State::spec_of(
            c.apply(phase2_move_at(i)),
        ),
        c.apply(phase2_move_at(i)).consistent(),
        c.apply(phase2_move_at(i)).in_subgroup(),
{
    let m = phase2_move_at(i);
    let next = c.apply(m);
    lemma_move_keeps_consistent(c, m);
    lemma_phase2_move_keeps_subgroup(c, m);
    lemma_coordinate_range(Coordinate::Cp, c);
    lemma_coordinate_range(Coordinate::UdEp, c);
    lemma_coordinate_range(Coordinate::EEp, c);
    assert(Coordinate::Cp.table_right(mt.entries(Coordinate::Cp)));
    assert(Coordinate::UdEp.table_right(mt.entries(Coordinate::UdEp)));
    assert(Coordinate::EEp.table_right(mt.entries(Coordinate::EEp)));
    assert(Coordinate::Cp.class(c));
    assert(Coordinate::UdEp.class(c));
    assert(Coordinate::EEp.class(c));
    assert(entry(
        mt.entries(Coordinate::Cp),
        Coordinate::Cp.spec_move_count(),
        Coordinate::Cp.of(c),
        i,
    ) == Coordinate::Cp.of(
        next,
    ));
    assert(entry(
        mt.entries(Coordinate::UdEp),
        Coordinate::UdEp.spec_move_count(),
        Coordinate::UdEp.of(c),
        i,
    )
        == Coordinate::UdEp.of(next));
    assert(entry(
        mt.entries(Coordinate::EEp),
        Coordinate::EEp.spec_move_count(),
        Coordinate::EEp.of(c),
        i,
    ) == Coordinate::EEp.of(
        next,
    ));
}

/// With right tables, the coordinates that the tables give after a move of
/// the first phase are those of the cube after the move.
pub proof fn lemma_phase1_next(mt: MoveTable, c: CubeState, i: int)
    requires
        mt.right(),
        c.consistent(),
        0 <= i < 18,
    ensures
        Phase1State::spec_of(c).spec_next(mt, i) == Phase1State::spec_of(c.apply(move_at(i))),
        c.apply(move_at(i)).consistent(),
{
    let m = move_at(i);
    let next = c.apply(m);
    lemma_move_keeps_consistent(c, m);
    lemma_coordinate_range(Coordinate::Co, c);
    lemma_coordinate_range(Coordinate::Eo, c);
    lemma_coordinate_range(Coordinate::ECombo, c);
    assert(Coordinate::Co.table_right(mt.entries(Coordinate::Co)));
    assert(Coordinate::Eo.table_right(mt.entries(Coordinate::Eo)));
    assert(Coordinate::ECombo.table_right(mt.entries(Coordinate::ECombo)));
    assert(Coordinate::Co.class(c));
    assert(Coordinate::Eo.class(c));
    assert(Coordinate::ECombo.class(c));
    assert(entry(
        mt.entries(Coordinate::Co),
        Coordinate::Co.spec_move_count(),
        Coordinate::Co.of(c),
        i,
    ) == Coordinate::Co.of(
        next,
    ));
    assert(entry(
        mt.entries(Coordinate::Eo),
        Coordinate::Eo.spec_move_count(),
        Coordinate::Eo.of(c),
        i,
    ) == Coordinate::Eo.of(
        next,
    ));
    assert(entry(
        mt.entries(Coordinate::ECombo),
        Coordinate::ECombo.spec_move_count(),
        Coordinate::ECombo.of(c),
        i,
    )
        == Coordinate::ECombo.of(next));
}

/// With the move tables as they are built, the coordinates that the tables
/// give after a move of the first phase are those of the cube after the
/// move, for every cube that moves make of the solved cube.
pub proof fn lemma_phase1_next_made(mt: MoveTable, ms: Seq<Move>, i: int)
    requires
        mt.sound(),
        0 <= i < 18,
    ensures
        Phase1State::spec_of(CubeState::solved().apply_all(ms)).spec_next(mt, i)
            == Phase1State::spec_of(CubeState::solved().apply_all(ms).apply(move_at(i))),
        CubeState::solved().apply_all(ms).consistent(),
        CubeState::solved().apply_all(ms).apply(move_at(i)).consistent(),
{
    let c = CubeState::solved().apply_all(ms);
    let next = c.apply(move_at(i));
    assert(crate::admissible::all_of_phase(Coordinate::Co, ms));
    assert(crate::admissible::all_of_phase(Coordinate::Eo, ms));
    assert(crate::admissible::all_of_phase(Coordinate::ECombo, ms));
    crate::tables::lemma_made_class(Coordinate::Co, ms);
    lemma_move_keeps_consistent(c, move_at(i));
    lemma_coordinate_range(Coordinate::Co, c);
    lemma_coordinate_range(Coordinate::Eo, c);
    lemma_coordinate_range(Coordinate::ECombo, c);
    assert(Coordinate::Co.table_right_from_solved(mt.entries(Coordinate::Co)));
    assert(Coordinate::Eo.table_right_from_solved(mt.entries(Coordinate::Eo)));
    assert(Coordinate::ECombo.table_right_from_solved(mt.entries(Coordinate::ECombo)));
    assert(entry(
        mt.entries(Coordinate::Co),
        Coordinate::Co.spec_move_count(),
        Coordinate::Co.of(c),
        i,
    ) == Coordinate::Co.of(next));
    assert(entry(
        mt.entries(Coordinate::Eo),
        Coordinate::Eo.spec_move_count(),
        Coordinate::Eo.of(c),
        i,
    ) == Coordinate::Eo.of(next));
    assert(entry(
        mt.entries(Coordinate::ECombo),
        Coordinate::ECombo.spec_move_count(),
        Coordinate::ECombo.of(c),
        i,
    ) == Coordinate::ECombo.of(next));
}

/// With the move tables as they are built, the coordinates that the tables
/// give after a move of the second phase are those of the cube after the
/// move, for every cube that moves of the second phase make of the solved
/// cube.
pub proof fn lemma_phase2_next_made(mt: MoveTable, ms: Seq<Move>, i: int)
    requires
        mt.sound(),
        all_phase2(ms),
        0 <= i < 10,
    ensures
        Phase2State::spec_of(CubeState::solved().apply_all(ms)).spec_next(mt, i)
            == Phase2State::spec_of(CubeState::solved().apply_all(ms).apply(phase2_move_at(i))),
        CubeState::solved().apply_all(ms).consistent(),
        CubeState::solved().apply_all(ms).in_subgroup(),
        CubeState::solved().apply_all(ms).apply(phase2_move_at(i)).consistent(),
        CubeState::solved().apply_all(ms).apply(phase2_move_at(i)).in_subgroup(),
{
    let c = CubeState::solved().apply_all(ms);
    let m = phase2_move_at(i);
    let next = c.apply(m);
    assert forall|k: int| 0 <= k < ms.len() implies Coordinate::Cp.has_move(#[trigger] ms[k]) by {
        assert(ms[k].spec_is_phase2());
    }
    assert forall|k: int| 0 <= k < ms.len() implies Coordinate::UdEp.has_move(
        #[trigger] ms[k],
    ) by {
        assert(ms[k].spec_is_phase2());
    }
    assert forall|k: int| 0 <= k < ms.len() implies Coordinate::EEp.has_move(#[trigger] ms[k]) by {
        assert(ms[k].spec_is_phase2());
    }
    crate::tables::lemma_made_class(Coordinate::Cp, ms);
    lemma_move_keeps_consistent(c, m);
    lemma_phase2_move_keeps_subgroup(c, m);
    lemma_coordinate_range(Coordinate::Cp, c);
    lemma_coordinate_range(Coordinate::UdEp, c);
    lemma_coordinate_range(Coordinate::EEp, c);
    assert(Coordinate::Cp.table_right_from_solved(mt.entries(Coordinate::Cp)));
    assert(Coordinate::UdEp.table_right_from_solved(mt.entries(Coordinate::UdEp)));
    assert(Coordinate::EEp.table_right_from_solved(mt.entries(Coordinate::EEp)));
    assert(entry(
        mt.entries(Coordinate::Cp),
        Coordinate::Cp.spec_move_count(),
        Coordinate::Cp.of(c),
        i,
    ) == Coordinate::Cp.of(next));
    assert(entry(
        mt.entries(Coordinate::UdEp),
        Coordinate::UdEp.spec_move_count(),
        Coordinate::UdEp.of(c),
        i,
    ) == Coordinate::UdEp.of(next));
    assert(entry(
        mt.entries(Coordinate::EEp),
        Coordinate::EEp.spec_move_count(),
        Coordinate::EEp.of(c),
        i,
    ) == Coordinate::EEp.of(next));
}

/// With move tables that are right on a cube of the subgroup and on what
/// moves of the second phase make of it, the coordinates that the tables
/// give after a move of the second phase are those of the cube after the
/// move, on which the tables are right as well.
pub proof fn lemma_phase2_next_from(mt: MoveTable, from: Seq<Move>, c: CubeState, i: int)
    requires
        right_from(mt, Coordinate::Cp, from, c),
        c.consistent(),
        c.in_subgroup(),
        0 <= i < 10,
    ensures
        Phase2State::spec_of(c).spec_next(mt, i) == Phase2State::spec_of(
            c.apply(phase2_move_at(i)),
        ),
        c.apply(phase2_move_at(i)).consistent(),
        c.apply(phase2_move_at(i)).in_subgroup(),
        right_from(mt, Coordinate::Cp, from.push(phase2_move_at(i)), c.apply(phase2_move_at(i))),
{
    let m = phase2_move_at(i);
    if mt.right() {
        lemma_phase2_next(mt, c, i);
    } else {
        assert forall|k: int| 0 <= k < from.len() implies (#[trigger] from[k]).spec_is_phase2() by {
            assert(Coordinate::Cp.has_move(from[k]));
        }
        lemma_phase2_next_made(mt, from, i);
        let longer = from.push(m);
        assert(longer.drop_last() =~= from);
        assert(CubeState::solved().apply_all(longer) == c.apply(m));
        assert forall|k: int| 0 <= k < longer.len() implies Coordinate::Cp.has_move(
            #[trigger] longer[k],
        ) by {
            if k < from.len() {
                assert(longer[k] == from[k]);
                assert(Coordinate::Cp.has_move(from[k]));
            }
        }
    }
}

/// With move tables that are right on a cube and on what moves make of it,
/// the coordinates that the tables give after a move of the first phase are
/// those of the cube after the move, on which the tables are right as well.
pub proof fn lemma_phase1_next_from(mt: MoveTable, from: Seq<Move>, c: CubeState, i: int)
    requires
        right_from(mt, Coordinate::Co, from, c),
        c.consistent(),
        0 <= i < 18,
    ensures
        Phase1State::spec_of(c).spec_next(mt, i) == Phase1State::spec_of(c.apply(move_at(i))),
        c.apply(move_at(i)).consistent(),
        right_from(mt, Coordinate::Co, from.push(move_at(i)), c.apply(move_at(i))),
{
    let m = move_at(i);
    if mt.right() {
        lemma_phase1_next(mt, c, i);
    } else {
        lemma_phase1_next_made(mt, from, i);
        let longer = from.push(m);
        assert(longer.drop_last() =~= from);
        assert(CubeState::solved().apply_all(longer) == c.apply(m));
    }
}

/// With the move tables as they are built, a move of the first phase and
/// then the move that undoes it bring the coordinates of the first phase
/// back, for every cube that moves make of the solved cube.
pub proof fn lemma_phase1_next_back_made(mt: MoveTable, ms: Seq<Move>, i: int)
    requires
        mt.sound(),
        0 <= i < 18,
    ensures
        Phase1State::spec_of(CubeState::solved().apply_all(ms)).spec_next(mt, i).spec_next(
            mt,
            move_at(i).spec_inverse().spec_index(),
        ) == Phase1State::spec_of(CubeState::solved().apply_all(ms)),
{
    let c = CubeState::solved().apply_all(ms);
    let m = move_at(i);
    let longer = ms.push(m);
    assert(longer.drop_last() =~= ms);
    lemma_phase1_next_made(mt, ms, i);
    lemma_phase1_next_made(mt, longer, m.spec_inverse().spec_index());
    crate::cubie::lemma_move_then_inverse(c, m);
}

/// With the move tables as they are built, a move of the second phase and
/// then the move that undoes it bring the coordinates of the second phase
/// back, for every cube that moves of the second phase make of the solved
/// cube.
pub proof fn lemma_phase2_next_back_made(mt: MoveTable, ms: Seq<Move>, i: int)
    requires
        mt.sound(),
        all_phase2(ms),
        0 <= i < 10,
    ensures
        Phase2State::spec_of(CubeState::solved().apply_all(ms)).spec_next(mt, i).spec_next(
            mt,
            Coordinate::Cp.place(phase2_move_at(i).spec_inverse()),
        ) == Phase2State::spec_of(CubeState::solved().apply_all(ms)),
{
    let c = CubeState::solved().apply_all(ms);
    let m = phase2_move_at(i);
    let longer = ms.push(m);
    assert(longer.drop_last() =~= ms);
    assert forall|k: int| 0 <= k < longer.len() implies (#[trigger] longer[k]).spec_is_phase2() by {
        if k < ms.len() {
            assert(ms[k].spec_is_phase2());
        }
    }
    crate::admissible::lemma_place(Coordinate::Cp, m.spec_inverse());
    lemma_phase2_next_made(mt, ms, i);
    lemma_phase2_next_made(mt, longer, Coordinate::Cp.place(m.spec_inverse()));
    crate::cubie::lemma_move_then_inverse(c, m);
}

/// With right tables, a move of the first phase and then the move that
/// undoes it bring the coordinates of the first phase of every consistent
/// cube back.
pub proof fn lemma_phase1_next_back(mt: MoveTable, c: CubeState, i: int)
    requires
        mt.right(),
        c.consistent(),
        0 <= i < 18,
    ensures
        Phase1State::spec_of(c).spec_next(mt, i).spec_next(
            mt,
            move_at(i).spec_inverse().spec_index(),
        ) == Phase1State::spec_of(c),
{
    lemma_phase1_next(mt, c, i);
    lemma_phase1_next(mt, c.apply(move_at(i)), move_at(i).spec_inverse().spec_index());
    crate::cubie::lemma_move_then_inverse(c, move_at(i));
}

/// With right tables, a move of the second phase and then the move that
/// undoes it bring the coordinates of the second phase of every consistent
/// cube of the subgroup back.
pub proof fn lemma_phase2_next_back(mt: MoveTable, c: CubeState, i: int)
    requires
        mt.right(),
        c.consistent(),
        c.in_subgroup(),
        0 <= i < 10,
    ensures
        Phase2State::spec_of(c).spec_next(mt, i).spec_next(
            mt,
            Coordinate::Cp.place(phase2_move_at(i).spec_inverse()),
        ) == Phase2State::spec_of(c),
{
    let m = phase2_move_at(i);
    crate::admissible::lemma_place(Coordinate::Cp, m.spec_inverse());
    lemma_phase2_next(mt, c, i);
    lemma_phase2_next(mt, c.apply(m), Coordinate::Cp.place(m.spec_inverse()));
    crate::cubie::lemma_move_then_inverse(c, m);
}

/// A consistent cube of the subgroup whose coordinates of the second phase
/// are at the goal is solved.
pub proof fn lemma_phase2_state_solved(c: CubeState)
    requires
        c.consistent(),
        c.in_subgroup(),
        Phase2State::spec_of(c).spec_is_solved(),
    ensures
        c == CubeState::solved(),
{
    lemma_coordinate_range(Coordinate::Cp, c);
    lemma_coordinate_range(Coordinate::UdEp, c);
    lemma_coordinate_range(Coordinate::EEp, c);
    lemma_phase2_goal(c);
}

/// A consistent cube whose coordinates of the first phase are at the goal
/// lies in the subgroup.
pub proof fn lemma_phase1_state_solved(c: CubeState)
    requires
        c.consistent(),
        Phase1State::spec_of(c).spec_is_solved(),
    ensures
        c.in_subgroup(),
{
    lemma_coordinate_range(Coordinate::Co, c);
    lemma_coordinate_range(Coordinate::Eo, c);
    lemma_coordinate_range(Coordinate::ECombo, c);
    lemma_phase1_goal(c);
}

/// With move tables that are right on a consistent cube of the subgroup
/// and on what moves of the second phase make of it, what the second phase
/// finds for the cube solves it, with exactly `depth` moves of the second
/// phase.
pub proof fn lemma_phase2_search_sound(
    mt: MoveTable,
    pt: PruningTable,
    from: Seq<Move>,
    c: CubeState,
    depth: nat,
    prev: Option<Move>,
)
    requires
        right_from(mt, Coordinate::Cp, from, c),
        c.consistent(),
        c.in_subgroup(),
    ensures
        match phase2_search(mt, pt, Phase2State::spec_of(c), depth, prev) {
            Some(found) => c.apply_all(found) == CubeState::solved() && found.len() == depth
                && all_phase2(found) && canonical(prev, found),
            None => true,
        },
    decreases depth, 11int,
{
    let st = Phase2State::spec_of(c);
    if depth == 0 {
        if st.spec_is_solved() {
            lemma_phase2_state_solved(c);
        }
    } else if !st.spec_prune(pt, depth as int) {
        lemma_phase2_try_sound(mt, pt, from, c, depth, prev, 0);
    }
}

/// With move tables that are right on the cube and on what moves of the
/// second phase make of it, what the second phase finds from place `i` of
/// its order on solves the cube.
pub proof fn lemma_phase2_try_sound(
    mt: MoveTable,
    pt: PruningTable,
    from: Seq<Move>,
    c: CubeState,
    depth: nat,
    prev: Option<Move>,
    i: int,
)
    requires
        right_from(mt, Coordinate::Cp, from, c),
        c.consistent(),
        c.in_subgroup(),
        0 <= i,
    ensures
        match phase2_try(mt, pt, Phase2State::spec_of(c), depth, prev, i) {
            Some(found) => c.apply_all(found) == CubeState::solved() && found.len() == depth
                && all_phase2(found) && canonical(prev, found),
            None => true,
        },
    decreases depth, 10 - i,
{
    let st = Phase2State::spec_of(c);
    if i < 10 && depth > 0 {
        let m = phase2_move_at(i);
        lemma_phase2_try_sound(mt, pt, from, c, depth, prev, i + 1);
        lemma_phase2_next_from(mt, from, c, i);
        let next = c.apply(m);
        lemma_phase2_search_sound(mt, pt, from.push(m), next, (depth - 1) as nat, Some(m));
        match phase2_search(mt, pt, st.spec_next(mt, i), (depth - 1) as nat, Some(m)) {
            Some(rest) => {
                lemma_apply_all_concat(c, seq![m], rest);
                lemma_apply_all_one(c, m);
                let found = seq![m] + rest;
                assert forall|k: int| 0 <= k < found.len() implies (
                #[trigger] found[k]).spec_is_phase2() by {
                    if k > 0 {
                        assert(found[k] == rest[k - 1]);
                    }
                }
                assert(found.drop_first() =~= rest);
                assert(found[0] == m);
            },
            None => {},
        }
    }
}

/// With move tables that are right on the cube and on what moves of the
/// second phase make of it, what the second phase finds with `depth` moves
/// or more, up to `max`, solves the cube.
pub proof fn lemma_phase2_depths_sound(
    mt: MoveTable,
    pt: PruningTable,
    from: Seq<Move>,
    c: CubeState,
    prev: Option<Move>,
    depth: int,
    max: int,
)
    requires
        right_from(mt, Coordinate::Cp, from, c),
        c.consistent(),
        c.in_subgroup(),
    ensures
        match phase2_depths(mt, pt, Phase2State::spec_of(c), prev, depth, max) {
            Some(found) => c.apply_all(found) == CubeState::solved() && found.len() <= max
                && all_phase2(found) && canonical(prev, found),
            None => true,
        },
    decreases max + 1 - depth,
{
    if 0 <= depth <= max {
        lemma_phase2_search_sound(mt, pt, from, c, depth as nat, prev);
        lemma_phase2_depths_sound(mt, pt, from, c, prev, depth + 1, max);
    }
}

/// What holds of a solution with which the first phase ends at a node
/// reached by `path`: its first phase begins with `path`, what follows of
/// it and its second phase are moves that the search tries one after
/// another, the first phase leads into the subgroup and the second, of moves
/// of that phase and within what is left of the budget, on to the solved
/// cube.
pub open spec fn found_from(
    initial: CubeState,
    budget: int,
    path: Seq<Move>,
    solution: SolutionModel,
) -> bool {
    &&& path.len() <= solution.phase1.len()
    &&& solution.phase1.take(path.len() as int) == path
    &&& canonical(last_move(path), solution.phase1.skip(path.len() as int) + solution.phase2)
    &&& all_phase2(solution.phase2)
    &&& initial.apply_all(solution.phase1).in_subgroup()
    &&& initial.apply_all(solution.phase1).apply_all(solution.phase2) == CubeState::solved()
    &&& solution.phase2.len() <= phase2_limit(budget, solution.phase1.len() as int)
}

/// With right tables, a solution with which the first phase ends is one of
/// the kind that the search looks for and begins with the path so far.
pub proof fn lemma_phase1_search_sound(
    mt: MoveTable,
    pt: PruningTable,
    initial: CubeState,
    budget: int,
    depth: nat,
    path: Seq<Move>,
)
    requires
        mt.right(),
        initial.consistent(),
    ensures
        match phase1_search(
            mt,
            pt,
            initial,
            budget,
            Phase1State::spec_of(initial.apply_all(path)),
            depth,
            path,
        ) {
            Some(solution) => found_from(initial, budget, path, solution)
                && solution.phase1.len() == path.len() + depth,
            None => true,
        },
    decreases depth, 19int,
{
    let cube = initial.apply_all(path);
    let st = Phase1State::spec_of(cube);
    lemma_moves_keep_consistent(initial, path);
    if depth == 0 && st.spec_is_solved() {
        lemma_phase1_state_solved(cube);
        let limit = phase2_limit(budget, path.len() as int);
        lemma_phase2_depths_sound(mt, pt, Seq::empty(), cube, last_move(path), 0, limit);
        match phase2_depths(mt, pt, Phase2State::spec_of(cube), last_move(path), 0, limit) {
            Some(found) => {
                assert(path.take(path.len() as int) =~= path);
                assert(path.skip(path.len() as int) + found =~= found);
            },
            None => {},
        }
    } else if !(depth == 0 || st.spec_prune(pt, depth as int)) {
        lemma_phase1_try_sound(mt, pt, initial, budget, depth, path, 0);
    }
}

/// With right tables, a solution with which the first phase ends when it
/// tries the moves from place `i` on is one of the kind that the search
/// looks for.
pub proof fn lemma_phase1_try_sound(
    mt: MoveTable,
    pt: PruningTable,
    initial: CubeState,
    budget: int,
    depth: nat,
    path: Seq<Move>,
    i: int,
)
    requires
        mt.right(),
        initial.consistent(),
        0 <= i,
    ensures
        match phase1_try(
            mt,
            pt,
            initial,
            budget,
            Phase1State::spec_of(initial.apply_all(path)),
            depth,
            path,
            i,
        ) {
            Some(solution) => found_from(initial, budget, path, solution)
                && solution.phase1.len() == path.len() + depth,
            None => true,
        },
    decreases depth, 18 - i,
{
    let cube = initial.apply_all(path);
    let st = Phase1State::spec_of(cube);
    if i < 18 && depth > 0 {
        let m = move_at(i);
        lemma_moves_keep_consistent(initial, path);
        lemma_phase1_try_sound(mt, pt, initial, budget, depth, path, i + 1);
        lemma_phase1_next(mt, cube, i);
        let longer = path.push(m);
        assert(longer.drop_last() =~= path);
        assert(initial.apply_all(longer) == cube.apply(m));
        lemma_phase1_search_sound(mt, pt, initial, budget, (depth - 1) as nat, longer);
        if may_follow(last_move(path), m) {
            match phase1_search(
                mt,
                pt,
                initial,
                budget,
                st.spec_next(mt, i),
                (depth - 1) as nat,
                longer,
            ) {
                Some(solution) => {
                    let n = path.len() as int;
                    let moves = solution.phase1.skip(n) + solution.phase2;
                    assert(solution.phase1.take(n + 1)[n] == m);
                    assert(solution.phase1.take(n) =~= solution.phase1.take(n + 1).drop_last());
                    assert(moves[0] == m);
                    assert(moves.drop_first() =~= solution.phase1.skip(n + 1) + solution.phase2);
                },
                None => {},
            }
        }
    }
}

/// With right tables, the solution that the search returns for a
/// consistent cube, from the depth `depth` of the first phase on, is one of
/// the kind that it looks for.
pub proof fn lemma_solve_from_sound(
    mt: MoveTable,
    pt: PruningTable,
    initial: CubeState,
    budget: int,
    depth: int,
)
    requires
        mt.right(),
        initial.consistent(),
    ensures
        match solve_from(mt, pt, initial, budget, depth) {
            Some(solution) => is_candidate(initial, budget, solution.phase1, solution.phase2),
            None => true,
        },
    decreases budget + 1 - depth,
{
    if 0 <= depth <= budget {
        let none = Seq::<Move>::empty();
        assert(initial.apply_all(none) == initial);
        lemma_phase1_search_sound(mt, pt, initial, budget, depth as nat, none);
        lemma_solve_from_sound(mt, pt, initial, budget, depth + 1);
        match phase1_search(
            mt,
            pt,
            initial,
            budget,
            Phase1State::spec_of(initial),
            depth as nat,
            none,
        ) {
            Some(solution) => {
                assert(solution.phase1.skip(0) =~= solution.phase1);
            },
            None => {},
        }
    }
}

/// With right tables, the solution that the search returns for a
/// consistent cube is one of the kind that it looks for: its moves, made on
/// that cube, leave it solved, the first phase leading into the subgroup and
/// the second, of moves of that phase, on from there; they are moves that
/// the search tries one after another, and no more than the budget.
pub proof fn lemma_solution_solves(
    mt: MoveTable,
    pt: PruningTable,
    initial: CubeState,
    budget: int,
)
    requires
        mt.right(),
        initial.consistent(),
    ensures
        match solve_spec(mt, pt, initial, budget) {
            Some(solution) => is_candidate(initial, budget, solution.phase1, solution.phase2)
                && initial.apply_all(solution.all()) == CubeState::solved() && solution.len()
                <= budget,
            None => true,
        },
{
    lemma_solve_from_sound(mt, pt, initial, budget, 0);
    match solve_spec(mt, pt, initial, budget) {
        Some(solution) => {
            lemma_apply_all_concat(initial, solution.phase1, solution.phase2);
        },
        None => {},
    }
}

/// Whatever the tables hold, what the second phase finds with `depth` moves
/// has that many, all of the second phase, each of which the search tries
/// after the one before it.
pub proof fn lemma_phase2_search_shape(
    mt: MoveTable,
    pt: PruningTable,
    st: Phase2State,
    depth: nat,
    prev: Option<Move>,
)
    ensures
        match phase2_search(mt, pt, st, depth, prev) {
            Some(found) => found.len() == depth && all_phase2(found) && canonical(prev, found),
            None => true,
        },
    decreases depth, 11int,
{
    if depth > 0 && !st.spec_prune(pt, depth as int) {
        lemma_phase2_try_shape(mt, pt, st, depth, prev, 0);
    }
}

/// Whatever the tables hold, what the second phase finds from place `i` of
/// its order on has `depth` moves, all of the second phase, each of which
/// the search tries after the one before it.
pub proof fn lemma_phase2_try_shape(
    mt: MoveTable,
    pt: PruningTable,
    st: Phase2State,
    depth: nat,
    prev: Option<Move>,
    i: int,
)
    requires
        0 <= i,
    ensures
        match phase2_try(mt, pt, st, depth, prev, i) {
            Some(found) => found.len() == depth && all_phase2(found) && canonical(prev, found),
            None => true,
        },
    decreases depth, 10 - i,
{
    if i < 10 && depth > 0 {
        let m = phase2_move_at(i);
        lemma_phase2_try_shape(mt, pt, st, depth, prev, i + 1);
        lemma_phase2_search_shape(mt, pt, st.spec_next(mt, i), (depth - 1) as nat, Some(m));
        match phase2_search(mt, pt, st.spec_next(mt, i), (depth - 1) as nat, Some(m)) {
            Some(rest) => {
                let found = seq![m] + rest;
                assert forall|k: int| 0 <= k < found.len() implies (
                #[trigger] found[k]).spec_is_phase2() by {
                    if k > 0 {
                        assert(found[k] == rest[k - 1]);
                    }
                }
                assert(found.drop_first() =~= rest);
                assert(found[0] == m);
            },
            None => {},
        }
    }
}

/// Whatever the tables hold, what the second phase finds within its limit
/// has no more moves than the limit, all of the second phase, each of which
/// the search tries after the one before it.
pub proof fn lemma_phase2_depths_shape(
    mt: MoveTable,
    pt: PruningTable,
    st: Phase2State,
    prev: Option<Move>,
    depth: int,
    max: int,
)
    ensures
        match phase2_depths(mt, pt, st, prev, depth, max) {
            Some(found) => found.len() <= max && all_phase2(found) && canonical(prev, found),
            None => true,
        },
    decreases max + 1 - depth,
{
    if 0 <= depth <= max {
        lemma_phase2_search_shape(mt, pt, st, depth as nat, prev);
        lemma_phase2_depths_shape(mt, pt, st, prev, depth + 1, max);
    }
}

/// What holds, whatever the tables hold, of a solution with which the first
/// phase ends at a node reached by `path`: its first phase begins with
/// `path`, what follows of it and its second phase are moves that the search
/// tries one after another, and the second phase has moves of that phase, no
/// more than are left of the budget.
pub open spec fn shaped_from(budget: int, path: Seq<Move>, solution: SolutionModel) -> bool {
    &&& path.len() <= solution.phase1.len()
    &&& solution.phase1.take(path.len() as int) == path
    &&& canonical(last_move(path), solution.phase1.skip(path.len() as int) + solution.phase2)
    &&& all_phase2(solution.phase2)
    &&& solution.phase2.len() <= phase2_limit(budget, solution.phase1.len() as int)
}

/// Whatever the tables hold, a solution with which the first phase ends is
/// shaped as the search makes them and begins with the path so far.
pub proof fn lemma_phase1_search_shape(
    mt: MoveTable,
    pt: PruningTable,
    initial: CubeState,
    budget: int,
    st: Phase1State,
    depth: nat,
    path: Seq<Move>,
)
    ensures
        match phase1_search(mt, pt, initial, budget, st, depth, path) {
            Some(solution) => shaped_from(budget, path, solution),
            None => true,
        },
    decreases depth, 19int,
{
    if depth == 0 && st.spec_is_solved() {
        let limit = phase2_limit(budget, path.len() as int);
        let at = Phase2State::spec_of(initial.apply_all(path));
        lemma_phase2_depths_shape(mt, pt, at, last_move(path), 0, limit);
        match phase2_depths(mt, pt, at, last_move(path), 0, limit) {
            Some(found) => {
                assert(path.take(path.len() as int) =~= path);
                assert(path.skip(path.len() as int) + found =~= found);
            },
            None => {},
        }
    } else if !(depth == 0 || st.spec_prune(pt, depth as int)) {
        lemma_phase1_try_shape(mt, pt, initial, budget, st, depth, path, 0);
    }
}

/// Whatever the tables hold, a solution with which the first phase ends
/// when it tries the moves from place `i` on is shaped as the search makes
/// them.
pub proof fn lemma_phase1_try_shape(
    mt: MoveTable,
    pt: PruningTable,
    initial: CubeState,
    budget: int,
    st: Phase1State,
    depth: nat,
    path: Seq<Move>,
    i: int,
)
    requires
        0 <= i,
    ensures
        match phase1_try(mt, pt, initial, budget, st, depth, path, i) {
            Some(solution) => shaped_from(budget, path, solution),
            None => true,
        },
    decreases depth, 18 - i,
{
    if i < 18 && depth > 0 {
        let m = move_at(i);
        let longer = path.push(m);
        let after = st.spec_next(mt, i);
        assert(longer.drop_last() =~= path);
        lemma_phase1_try_shape(mt, pt, initial, budget, st, depth, path, i + 1);
        lemma_phase1_search_shape(mt, pt, initial, budget, after, (depth - 1) as nat, longer);
        if may_follow(last_move(path), m) {
            match phase1_search(mt, pt, initial, budget, after, (depth - 1) as nat, longer) {
                Some(solution) => {
                    let n = path.len() as int;
                    let moves = solution.phase1.skip(n) + solution.phase2;
                    assert(solution.phase1.take(n + 1)[n] == m);
                    assert(solution.phase1.take(n) =~= solution.phase1.take(n + 1).drop_last());
                    assert(moves[0] == m);
                    assert(moves.drop_first() =~= solution.phase1.skip(n + 1) + solution.phase2);
                },
                None => {},
            }
        }
    }
}

/// Whatever the tables hold, a solution that the search returns from the
/// depth `depth` of the first phase on is shaped as the search makes them.
pub proof fn lemma_solve_from_shape(
    mt: MoveTable,
    pt: PruningTable,
    initial: CubeState,
    budget: int,
    depth: int,
)
    ensures
        match solve_from(mt, pt, initial, budget, depth) {
            Some(solution) => shaped_from(budget, Seq::empty(), solution),
            None => true,
        },
    decreases budget + 1 - depth,
{
    if 0 <= depth <= budget {
        let st = Phase1State::spec_of(initial);
        lemma_phase1_search_shape(mt, pt, initial, budget, st, depth as nat, Seq::empty());
        lemma_solve_from_shape(mt, pt, initial, budget, depth + 1);
    }
}

/// Whatever the tables hold and whatever the cube is: the moves of a
/// solution that the search returns are moves that it tries one after
/// another, those of the second phase are moves of that phase, and both
/// phases together have no more moves than the budget.
pub proof fn lemma_solution_shape(mt: MoveTable, pt: PruningTable, initial: CubeState, budget: int)
    ensures
        match solve_spec(mt, pt, initial, budget) {
            Some(solution) => canonical(None, solution.all()) && all_phase2(solution.phase2)
                && solution.len() <= budget,
            None => true,
        },
{
    lemma_solve_from_shape(mt, pt, initial, budget, 0);
    match solve_spec(mt, pt, initial, budget) {
        Some(solution) => {
            assert(solution.phase1.skip(0) =~= solution.phase1);
        },
        None => {},
    }
}

/// With move tables that are right on the cube at a node of the first
/// phase and on what moves make of it, the first phase of a solution with
/// which the search ends from there leads into the subgroup.
pub proof fn lemma_phase1_search_leads(
    mt: MoveTable,
    pt: PruningTable,
    from: Seq<Move>,
    initial: CubeState,
    budget: int,
    depth: nat,
    path: Seq<Move>,
)
    requires
        right_from(mt, Coordinate::Co, from, initial.apply_all(path)),
        initial.apply_all(path).consistent(),
    ensures
        match phase1_search(
            mt,
            pt,
            initial,
            budget,
            Phase1State::spec_of(initial.apply_all(path)),
            depth,
            path,
        ) {
            Some(solution) => initial.apply_all(solution.phase1).in_subgroup(),
            None => true,
        },
    decreases depth, 19int,
{
    let cube = initial.apply_all(path);
    let st = Phase1State::spec_of(cube);
    if depth == 0 && st.spec_is_solved() {
        lemma_phase1_state_solved(cube);
    } else if !(depth == 0 || st.spec_prune(pt, depth as int)) {
        lemma_phase1_try_leads(mt, pt, from, initial, budget, depth, path, 0);
    }
}

/// With move tables that are right on the cube at a node of the first
/// phase and on what moves make of it, the first phase of a solution with
/// which the search ends when it tries the moves from place `i` on leads
/// into the subgroup.
pub proof fn lemma_phase1_try_leads(
    mt: MoveTable,
    pt: PruningTable,
    from: Seq<Move>,
    initial: CubeState,
    budget: int,
    depth: nat,
    path: Seq<Move>,
    i: int,
)
    requires
        right_from(mt, Coordinate::Co, from, initial.apply_all(path)),
        initial.apply_all(path).consistent(),
        0 <= i,
    ensures
        match phase1_try(
            mt,
            pt,
            initial,
            budget,
            Phase1State::spec_of(initial.apply_all(path)),
            depth,
            path,
            i,
        ) {
            Some(solution) => initial.apply_all(solution.phase1).in_subgroup(),
            None => true,
        },
    decreases depth, 18 - i,
{
    let cube = initial.apply_all(path);
    if i < 18 && depth > 0 {
        let m = move_at(i);
        lemma_phase1_try_leads(mt, pt, from, initial, budget, depth, path, i + 1);
        lemma_phase1_next_from(mt, from, cube, i);
        let longer = path.push(m);
        assert(longer.drop_last() =~= path);
        assert(initial.apply_all(longer) == cube.apply(m));
        lemma_phase1_search_leads(
            mt,
            pt,
            from.push(m),
            initial,
            budget,
            (depth - 1) as nat,
            longer,
        );
    }
}

/// With move tables that are right on the cube and on what moves make of
/// it, the first phase of a solution that the search returns from the depth
/// `depth` of the first phase on leads into the subgroup.
pub proof fn lemma_solve_from_leads(
    mt: MoveTable,
    pt: PruningTable,
    from: Seq<Move>,
    initial: CubeState,
    budget: int,
    depth: int,
)
    requires
        right_from(mt, Coordinate::Co, from, initial),
        initial.consistent(),
    ensures
        match solve_from(mt, pt, initial, budget, depth) {
            Some(solution) => initial.apply_all(solution.phase1).in_subgroup(),
            None => true,
        },
    decreases budget + 1 - depth,
{
    if 0 <= depth <= budget {
        let none = Seq::<Move>::empty();
        assert(initial.apply_all(none) == initial);
        lemma_phase1_search_leads(mt, pt, from, initial, budget, depth as nat, none);
        lemma_solve_from_leads(mt, pt, from, initial, budget, depth + 1);
    }
}

/// With the move tables as they are built, whether or not every value was
/// reached: the first phase of a solution that the search returns for a cube
/// that moves make of the solved cube leads into the subgroup.
pub proof fn lemma_solution_leads(mt: MoveTable, pt: PruningTable, from: Seq<Move>, budget: int)
    requires
        mt.sound(),
    ensures
        match solve_spec(mt, pt, CubeState::solved().apply_all(from), budget) {
            Some(solution) => CubeState::solved().apply_all(from).apply_all(
                solution.phase1,
            ).in_subgroup(),
            None => true,
        },
{
    let initial = CubeState::solved().apply_all(from);
    assert(crate::admissible::all_of_phase(Coordinate::Co, from));
    crate::tables::lemma_made_class(Coordinate::Co, from);
    lemma_solve_from_leads(mt, pt, from, initial, budget, 0);
}

/// For the solved cube the search returns the solution without moves,
/// whatever the tables hold and whatever the budget is.
pub proof fn lemma_solved_needs_no_move(mt: MoveTable, pt: PruningTable, budget: int)
    requires
        budget >= 0,
    ensures
        solve_spec(mt, pt, CubeState::solved(), budget) == Some(
            SolutionModel { phase1: Seq::empty(), phase2: Seq::empty() },
        ),
{
    let solved = CubeState::solved();
    lemma_solved_coordinates();
    assert(Coordinate::Co.of(solved) == 0);
    assert(Coordinate::Eo.of(solved) == 0);
    assert(Coordinate::ECombo.of(solved) == 0);
    assert(Coordinate::Cp.of(solved) == 0);
    assert(Coordinate::UdEp.of(solved) == 0);
    assert(Coordinate::EEp.of(solved) == 0);
    let none = Seq::<Move>::empty();
    assert(solved.apply_all(none) == solved);
    let st2 = Phase2State::spec_of(solved);
    assert(phase2_search(mt, pt, st2, 0, last_move(none)) == Some(none));
    assert(phase2_depths(mt, pt, st2, last_move(none), 0, budget) == Some(none));
    assert(phase1_search(mt, pt, solved, budget, Phase1State::spec_of(solved), 0, none) == Some(
        SolutionModel { phase1: none, phase2: none },
    ));
}

} // verus!
