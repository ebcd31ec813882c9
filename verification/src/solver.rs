//! The two-phase search. The first phase brings the cube into the subgroup
//! in which no corner is twisted, no edge flipped and the slice edges are in
//! the slice; the second phase solves it there with the ten moves that keep
//! it in that subgroup. Both phases search by iterative deepening over the
//! coordinates, cutting off where a distance table shows that the goal is
//! out of reach.

use vstd::prelude::*;
use vstd::string::StringExecFns;
use crate::cubie::{CubeState, CubieCube};
use crate::least::{lemma_solve_least, tail_first, tried_first};
use crate::moves::{is_move_available, move_at, phase2_move_at, spec_is_move_available, Move};
use crate::normal::{
    lemma_solved_within_budget, lemma_subgroup_cube_is_solved, lemma_subgroup_scramble_is_solved,
};
use crate::one_move::{lemma_one_move_is_undone, undone_by};
use crate::soundness::{
    all_phase2, canonical, is_candidate, lemma_phase1_next, lemma_phase1_next_made,
    lemma_phase2_next, lemma_phase2_next_made, lemma_solution_leads, lemma_solution_shape,
    lemma_solution_solves, lemma_solved_needs_no_move,
};
use crate::tables::{
    every_value_reached, lemma_sound_right, phase1_move, phase2_move, Coordinate, DataTable,
    MoveTable, Pruning, PruningTable,
};

verus! {

/// The coordinates that the first phase brings to zero.
#[derive(Clone, Copy, Debug)]
pub struct Phase1State {
    /// The twist coordinate.
    pub co_index: usize,
    /// The flip coordinate.
    pub eo_index: usize,
    /// The slice coordinate.
    pub e_combo_index: usize,
}

/// The coordinates that the second phase brings to zero.
#[derive(Clone, Copy, Debug)]
pub struct Phase2State {
    /// The corner order coordinate.
    pub cp_index: usize,
    /// The coordinate of the order of the edges outside the slice.
    pub ep_index: usize,
    /// The coordinate of the order of the slice edges.
    pub e_ep_index: usize,
}

/// The larger of two table entries.
pub open spec fn larger(a: int, b: int) -> int {
    if a >= b {
        a
    } else {
        b
    }
}

impl Phase1State {
    /// Each coordinate is a value of its kind.
    pub open spec fn wf(self) -> bool {
        &&& self.co_index < Coordinate::Co.spec_count()
        &&& self.eo_index < Coordinate::Eo.spec_count()
        &&& self.e_combo_index < Coordinate::ECombo.spec_count()
    }

    /// The coordinates of the cube `s`.
    pub open spec fn spec_of(s: CubeState) -> Phase1State {
        Phase1State {
            co_index: Coordinate::Co.of(s) as usize,
            eo_index: Coordinate::Eo.of(s) as usize,
            e_combo_index: Coordinate::ECombo.of(s) as usize,
        }
    }

    /// All three coordinates are zero.
    pub open spec fn spec_is_solved(self) -> bool {
        self.co_index == 0 && self.eo_index == 0 && self.e_combo_index == 0
    }

    /// The coordinates that `table` gives after the move at place `m` of the
    /// first phase's order.
    pub open spec fn spec_next(self, table: MoveTable, m: int) -> Phase1State {
        Phase1State {
            co_index: table.next(Coordinate::Co, self.co_index as int, m) as usize,
            eo_index: table.next(Coordinate::Eo, self.eo_index as int, m) as usize,
            e_combo_index: table.next(Coordinate::ECombo, self.e_combo_index as int, m) as usize,
        }
    }

    /// The number of moves below which `table` rules the goal out.
    pub open spec fn spec_bound(self, table: PruningTable) -> int {
        larger(
            table.distance(Pruning::CoE, self.co_index as int, self.e_combo_index as int),
            table.distance(Pruning::EoE, self.eo_index as int, self.e_combo_index as int),
        )
    }

    /// Whether `table` rules out that `depth` moves reach the goal.
    pub open spec fn spec_prune(self, table: PruningTable, depth: int) -> bool {
        self.spec_bound(table) > depth
    }

    /// The coordinates of the cube `value`.
    pub fn from(value: CubieCube) -> (r: Phase1State)
        requires
            value@.wf(),
        ensures
            r == Self::spec_of(value@),
            r.wf(),
    {
        Phase1State {
            co_index: Coordinate::Co.coordinate(&value),
            eo_index: Coordinate::Eo.coordinate(&value),
            e_combo_index: Coordinate::ECombo.coordinate(&value),
        }
    }

    /// Whether all three coordinates are zero.
    pub fn is_solved(&self) -> (r: bool)
        ensures
            r == self.spec_is_solved(),
    {
        self.co_index == 0 && self.eo_index == 0 && self.e_combo_index == 0
    }

    /// The coordinates after the move at place `move_index` of the first
    /// phase's order: what the table gives. Where these are the coordinates
    /// of a cube that moves make of the solved cube, or of any consistent
    /// cube where every value of every coordinate is reached, the result
    /// holds the coordinates of that cube after the move.
    pub fn next(&self, table: &MoveTable, move_index: usize) -> (r: Phase1State)
        requires
            self.wf(),
            move_index < 18,
        ensures
            r == self.spec_next(*table, move_index as int),
            r.wf(),
            forall|ms: Seq<Move>|
                *self == Phase1State::spec_of(#[trigger] CubeState::solved().apply_all(ms)) ==> r
                    == Phase1State::spec_of(
                    CubeState::solved().apply_all(ms).apply(move_at(move_index as int)),
                ),
            every_value_reached() ==> forall|c: CubeState|
                c.consistent() && *self == #[trigger] Phase1State::spec_of(c) ==> r
                    == Phase1State::spec_of(c.apply(move_at(move_index as int))),
    {
        let r = Phase1State {
            co_index: table.lookup(Coordinate::Co, self.co_index, move_index),
            eo_index: table.lookup(Coordinate::Eo, self.eo_index, move_index),
            e_combo_index: table.lookup(Coordinate::ECombo, self.e_combo_index, move_index),
        };
        proof {
            assert forall|ms: Seq<Move>|
                *self == Phase1State::spec_of(
                    #[trigger] CubeState::solved().apply_all(ms),
                ) implies r == Phase1State::spec_of(
                CubeState::solved().apply_all(ms).apply(move_at(move_index as int)),
            ) by {
                lemma_phase1_next_made(*table, ms, move_index as int);
            }
            if every_value_reached() {
                lemma_sound_right(*table);
                assert forall|c: CubeState|
                    c.consistent() && *self == #[trigger] Phase1State::spec_of(c) implies r
                    == Phase1State::spec_of(c.apply(move_at(move_index as int))) by {
                    lemma_phase1_next(*table, c, move_index as int);
                }
            }
        }
        r
    }

    /// Whether `table` rules out that `depth` moves reach the goal.
    pub fn prune(&self, table: &PruningTable, depth: u8) -> (r: bool)
        requires
            self.wf(),
        ensures
            r == self.spec_prune(*table, depth as int),
    {
        let co_e_dist: u8 = table.lookup(Pruning::CoE, self.co_index, self.e_combo_index);
        let eo_e_dist: u8 = table.lookup(Pruning::EoE, self.eo_index, self.e_combo_index);
        let max: u8 = if co_e_dist >= eo_e_dist {
            co_e_dist
        } else {
            eo_e_dist
        };
        max > depth
    }
}

impl Phase2State {
    /// Each coordinate is a value of its kind.
    pub open spec fn wf(self) -> bool {
        &&& self.cp_index < Coordinate::Cp.spec_count()
        &&& self.ep_index < Coordinate::UdEp.spec_count()
        &&& self.e_ep_index < Coordinate::EEp.spec_count()
    }

    /// The coordinates of the cube `s`.
    pub open spec fn spec_of(s: CubeState) -> Phase2State {
        Phase2State {
            cp_index: Coordinate::Cp.of(s) as usize,
            ep_index: Coordinate::UdEp.of(s) as usize,
            e_ep_index: Coordinate::EEp.of(s) as usize,
        }
    }

    /// All three coordinates are zero.
    pub open spec fn spec_is_solved(self) -> bool {
        self.cp_index == 0 && self.ep_index == 0 && self.e_ep_index == 0
    }

    /// The coordinates that `table` gives after the move at place `m` of the
    /// second phase's order.
    pub open spec fn spec_next(self, table: MoveTable, m: int) -> Phase2State {
        Phase2State {
            cp_index: table.next(Coordinate::Cp, self.cp_index as int, m) as usize,
            ep_index: table.next(Coordinate::UdEp, self.ep_index as int, m) as usize,
            e_ep_index: table.next(Coordinate::EEp, self.e_ep_index as int, m) as usize,
        }
    }

    /// The number of moves below which `table` rules the goal out.
    pub open spec fn spec_bound(self, table: PruningTable) -> int {
        larger(
            table.distance(Pruning::CpE, self.cp_index as int, self.e_ep_index as int),
            table.distance(Pruning::EpE, self.ep_index as int, self.e_ep_index as int),
        )
    }

    /// Whether `table` rules out that `depth` moves reach the goal.
    pub open spec fn spec_prune(self, table: PruningTable, depth: int) -> bool {
        self.spec_bound(table) > depth
    }

    /// The coordinates of the cube `value`.
    pub fn from(value: CubieCube) -> (r: Phase2State)
        requires
            value@.wf(),
        ensures
            r == Self::spec_of(value@),
            r.wf(),
    {
        Phase2State {
            cp_index: Coordinate::Cp.coordinate(&value),
            ep_index: Coordinate::UdEp.coordinate(&value),
            e_ep_index: Coordinate::EEp.coordinate(&value),
        }
    }

    /// Whether all three coordinates are zero.
    pub fn is_solved(&self) -> (r: bool)
        ensures
            r == self.spec_is_solved(),
    {
        self.cp_index == 0 && self.ep_index == 0 && self.e_ep_index == 0
    }

    /// The coordinates after the move at place `move_index` of the second
    /// phase's order: what the table gives. Where these are the coordinates
    /// of a cube that moves of the second phase make of the solved cube, or
    /// of any consistent cube of the subgroup where every value of every
    /// coordinate is reached, the result holds the coordinates of that cube
    /// after the move.
    pub fn next(&self, table: &MoveTable, move_index: usize) -> (r: Phase2State)
        requires
            self.wf(),
            move_index < 10,
        ensures
            r == self.spec_next(*table, move_index as int),
            r.wf(),
            forall|ms: Seq<Move>|
                all_phase2(ms) && *self == Phase2State::spec_of(
                    #[trigger] CubeState::solved().apply_all(ms),
                ) ==> r == Phase2State::spec_of(
                    CubeState::solved().apply_all(ms).apply(phase2_move_at(move_index as int)),
                ),
            every_value_reached() ==> forall|c: CubeState|
                c.consistent() && c.in_subgroup() && *self == #[trigger] Phase2State::spec_of(c)
                    ==> r == Phase2State::spec_of(c.apply(phase2_move_at(move_index as int))),
    {
        let r = Phase2State {
            cp_index: table.lookup(Coordinate::Cp, self.cp_index, move_index),
            ep_index: table.lookup(Coordinate::UdEp, self.ep_index, move_index),
            e_ep_index: table.lookup(Coordinate::EEp, self.e_ep_index, move_index),
        };
        proof {
            assert forall|ms: Seq<Move>|
                all_phase2(ms) && *self == Phase2State::spec_of(
                    #[trigger] CubeState::solved().apply_all(ms),
                ) implies r == Phase2State::spec_of(
                CubeState::solved().apply_all(ms).apply(phase2_move_at(move_index as int)),
            ) by {
                lemma_phase2_next_made(*table, ms, move_index as int);
            }
            if every_value_reached() {
                lemma_sound_right(*table);
                assert forall|c: CubeState|
                    c.consistent() && c.in_subgroup() && *self == #[trigger] Phase2State::spec_of(
                        c,
                    ) implies r == Phase2State::spec_of(
                    c.apply(phase2_move_at(move_index as int)),
                ) by {
                    lemma_phase2_next(*table, c, move_index as int);
                }
            }
        }
        r
    }

    /// Whether `table` rules out that `depth` moves reach the goal.
    pub fn prune(&self, table: &PruningTable, depth: u8) -> (r: bool)
        requires
            self.wf(),
        ensures
            r == self.spec_prune(*table, depth as int),
    {
        let cp_e_dist: u8 = table.lookup(Pruning::CpE, self.cp_index, self.e_ep_index);
        let ep_e_dist: u8 = table.lookup(Pruning::EpE, self.ep_index, self.e_ep_index);
        let max: u8 = if cp_e_dist >= ep_e_dist {
            cp_e_dist
        } else {
            ep_e_dist
        };
        max > depth
    }
}

/// A solution as mathematics: the moves of the first phase, then those of
/// the second.
pub struct SolutionModel {
    /// The moves of the first phase.
    pub phase1: Seq<Move>,
    /// The moves of the second phase.
    pub phase2: Seq<Move>,
}

impl SolutionModel {
    /// All moves, first phase first.
    pub open spec fn all(self) -> Seq<Move> {
        self.phase1 + self.phase2
    }

    /// The number of moves.
    pub open spec fn len(self) -> nat {
        self.phase1.len() + self.phase2.len()
    }
}

/// The last move of `path`, if it has one.
pub open spec fn last_move(path: Seq<Move>) -> Option<Move> {
    if path.len() == 0 {
        None
    } else {
        Some(path.last())
    }
}

/// Whether the search tries `m` after a path that ended with `prev`.
pub open spec fn may_follow(prev: Option<Move>, m: Move) -> bool {
    match prev {
        Some(p) => spec_is_move_available(p, m),
        None => true,
    }
}

/// What the second phase finds from the coordinates `st` with exactly
/// `depth` moves, after a path that ended with `prev`: nothing where the
/// distance tables rule the goal out, else the first success among the ten
/// moves tried in order, each followed by a search one move shorter.
pub open spec fn phase2_search(
    mt: MoveTable,
    pt: PruningTable,
    st: Phase2State,
    depth: nat,
    prev: Option<Move>,
) -> Option<Seq<Move>>
    decreases depth, 11int,
{
    if depth == 0 {
        if st.spec_is_solved() {
            Some(Seq::empty())
        } else {
            None
        }
    } else if st.spec_prune(pt, depth as int) {
        None
    } else {
        phase2_try(mt, pt, st, depth, prev, 0)
    }
}

/// What the second phase finds from `st` with exactly `depth >= 1` moves,
/// trying the moves from place `i` of its order on.
pub open spec fn phase2_try(
    mt: MoveTable,
    pt: PruningTable,
    st: Phase2State,
    depth: nat,
    prev: Option<Move>,
    i: int,
) -> Option<Seq<Move>>
    decreases depth, 10 - i,
{
    if i < 0 || i >= 10 || depth == 0 {
        None
    } else if !may_follow(prev, phase2_move_at(i)) {
        phase2_try(mt, pt, st, depth, prev, i + 1)
    } else {
        match phase2_search(
            mt,
            pt,
            st.spec_next(mt, i),
            (depth - 1) as nat,
            Some(phase2_move_at(i)),
        ) {
            Some(rest) => Some(seq![phase2_move_at(i)] + rest),
            None => phase2_try(mt, pt, st, depth, prev, i + 1),
        }
    }
}

/// What the second phase finds from `st` with `depth`, `depth + 1`, ...
/// moves, up to and including `max`: the first success.
pub open spec fn phase2_depths(
    mt: MoveTable,
    pt: PruningTable,
    st: Phase2State,
    prev: Option<Move>,
    depth: int,
    max: int,
) -> Option<Seq<Move>>
    decreases max + 1 - depth,
{
    if depth < 0 || depth > max {
        None
    } else {
        match phase2_search(mt, pt, st, depth as nat, prev) {
            Some(found) => Some(found),
            None => phase2_depths(mt, pt, st, prev, depth + 1, max),
        }
    }
}

/// The most moves that the second phase may make after the first phase has
/// made `made` moves of a budget `budget`: what is left of the budget.
pub open spec fn phase2_limit(budget: int, made: int) -> int {
    budget - made
}

/// What the first phase finds at a node reached by the moves `path` from
/// the cube `initial`, with exactly `depth` moves left and the coordinates
/// `st`: `None` where the search goes on elsewhere, a solution where `depth`
/// is 0, the coordinates are at the goal and the second phase, started on
/// the cube itself, succeeds within what is left of the budget.
pub open spec fn phase1_search(
    mt: MoveTable,
    pt: PruningTable,
    initial: CubeState,
    budget: int,
    st: Phase1State,
    depth: nat,
    path: Seq<Move>,
) -> Option<SolutionModel>
    decreases depth, 19int,
{
    if depth == 0 && st.spec_is_solved() {
        match phase2_depths(
            mt,
            pt,
            Phase2State::spec_of(initial.apply_all(path)),
            last_move(path),
            0,
            phase2_limit(budget, path.len() as int),
        ) {
            Some(found) => Some(SolutionModel { phase1: path, phase2: found }),
            None => None,
        }
    } else if depth == 0 || st.spec_prune(pt, depth as int) {
        None
    } else {
        phase1_try(mt, pt, initial, budget, st, depth, path, 0)
    }
}

/// What the first phase finds at a node with `depth >= 1` moves left,
/// trying the moves from place `i` of its order on.
pub open spec fn phase1_try(
    mt: MoveTable,
    pt: PruningTable,
    initial: CubeState,
    budget: int,
    st: Phase1State,
    depth: nat,
    path: Seq<Move>,
    i: int,
) -> Option<SolutionModel>
    decreases depth, 18 - i,
{
    if i < 0 || i >= 18 || depth == 0 {
        None
    } else if !may_follow(last_move(path), move_at(i)) {
        phase1_try(mt, pt, initial, budget, st, depth, path, i + 1)
    } else {
        match phase1_search(
            mt,
            pt,
            initial,
            budget,
            st.spec_next(mt, i),
            (depth - 1) as nat,
            path.push(move_at(i)),
        ) {
            Some(solution) => Some(solution),
            None => phase1_try(mt, pt, initial, budget, st, depth, path, i + 1),
        }
    }
}

/// What the search returns for the cube `initial` when the first phase is
/// given `depth`, `depth + 1`, ... moves, up to and including `budget`: the
/// solution that the first of these searches finds, if one finds any.
pub open spec fn solve_from(
    mt: MoveTable,
    pt: PruningTable,
    initial: CubeState,
    budget: int,
    depth: int,
) -> Option<SolutionModel>
    decreases budget + 1 - depth,
{
    if depth < 0 || depth > budget {
        None
    } else {
        match phase1_search(
            mt,
            pt,
            initial,
            budget,
            Phase1State::spec_of(initial),
            depth as nat,
            Seq::empty(),
        ) {
            Some(solution) => Some(solution),
            None => solve_from(mt, pt, initial, budget, depth + 1),
        }
    }
}

/// What the search returns for the cube `initial` with the tables `mt` and
/// `pt` and a budget of `budget` moves for both phases together.
pub open spec fn solve_spec(
    mt: MoveTable,
    pt: PruningTable,
    initial: CubeState,
    budget: int,
) -> Option<SolutionModel> {
    solve_from(mt, pt, initial, budget, 0)
}

/// The search is a function of the tables, the budget and the cube: equal
/// inputs give equal results.
pub proof fn lemma_solve_deterministic(
    mt1: MoveTable,
    pt1: PruningTable,
    initial1: CubeState,
    budget1: int,
    mt2: MoveTable,
    pt2: PruningTable,
    initial2: CubeState,
    budget2: int,
)
    requires
        mt1 == mt2,
        pt1 == pt2,
        initial1 == initial2,
        budget1 == budget2,
    ensures
        solve_spec(mt1, pt1, initial1, budget1) == solve_spec(mt2, pt2, initial2, budget2),
{
}

/// A two-phase solution.
#[derive(Debug, Clone)]
pub struct Solution {
    /// The moves of the first phase.
    pub phase1: Vec<Move>,
    /// The moves of the second phase.
    pub phase2: Vec<Move>,
}

impl View for Solution {
    type V = SolutionModel;

    open spec fn view(&self) -> SolutionModel {
        SolutionModel { phase1: self.phase1@, phase2: self.phase2@ }
    }
}

/// A copy of the moves `v`.
pub fn copy_moves(v: &Vec<Move>) -> (r: Vec<Move>)
    ensures
        r@ == v@,
{
    let mut r: Vec<Move> = Vec::new();
    let mut i: usize = 0;
    while i < v.len()
        invariant
            i <= v.len(),
            r@ == v@.take(i as int),
        decreases v.len() - i,
    {
        r.push(v[i]);
        proof {
            assert(v@.take(i as int).push(v@[i as int]) =~= v@.take(i as int + 1));
        }
        i += 1;
    }
    proof {
        assert(v@.take(v.len() as int) =~= v@);
    }
    r
}

/// The moves in the usual notation, with one blank between two of them.
pub open spec fn joined(ms: Seq<Move>) -> Seq<char>
    decreases ms.len(),
{
    if ms.len() == 0 {
        Seq::empty()
    } else if ms.len() == 1 {
        ms[0].spec_name()
    } else {
        joined(ms.drop_last()) + seq![' '] + ms.last().spec_name()
    }
}

/// The moves `v` in the usual notation, with one blank between two of them.
pub fn moves_to_string(v: &Vec<Move>) -> (r: String)
    ensures
        r@ == joined(v@),
{
    let mut r = String::new();
    let mut i: usize = 0;
    while i < v.len()
        invariant
            i <= v.len(),
            r@ == joined(v@.take(i as int)),
        decreases v.len() - i,
    {
        proof {
            let next = v@.take(i as int + 1);
            assert(next.drop_last() =~= v@.take(i as int));
            assert(next.last() == v@[i as int]);
            reveal_strlit(" ");
            assert(" "@ =~= seq![' ']);
            if i == 0 {
                assert(next[0] == v@[0]);
                assert(Seq::<char>::empty() + v@[0].spec_name() =~= v@[0].spec_name());
            }
        }
        if i > 0 {
            r.append(" ");
        }
        r.append(v[i].name());
        i += 1;
    }
    proof {
        assert(v@.take(v.len() as int) =~= v@);
    }
    r
}

impl Solution {
    /// The moves of the first phase in the usual notation.
    pub fn phase1_to_string(&self) -> (r: String)
        ensures
            r@ == joined(self@.phase1),
    {
        moves_to_string(&self.phase1)
    }

    /// The moves of the second phase in the usual notation.
    pub fn phase2_to_string(&self) -> (r: String)
        ensures
            r@ == joined(self@.phase2),
    {
        moves_to_string(&self.phase2)
    }

    /// All moves in the usual notation, first phase first.
    pub fn to_string(&self) -> (r: String)
        ensures
            r@ == joined(self@.all()),
    {
        let all = self.get_all_moves();
        moves_to_string(&all)
    }

    /// The number of moves.
    pub fn len(&self) -> (r: usize)
        requires
            self.phase1.len() + self.phase2.len() <= usize::MAX,
        ensures
            r == self@.len(),
    {
        self.phase1.len() + self.phase2.len()
    }

    /// Whether the solution has no move.
    pub fn is_empty(&self) -> (r: bool)
        ensures
            r == (self@.len() == 0),
    {
        self.phase1.len() == 0 && self.phase2.len() == 0
    }

    /// All moves, first phase first.
    pub fn get_all_moves(&self) -> (r: Vec<Move>)
        ensures
            r@ == self@.all(),
    {
        let mut solution = copy_moves(&self.phase1);
        let mut i: usize = 0;
        while i < self.phase2.len()
            invariant
                i <= self.phase2.len(),
                solution@ == self.phase1@ + self.phase2@.take(i as int),
            decreases self.phase2.len() - i,
        {
            solution.push(self.phase2[i]);
            proof {
                assert((self.phase1@ + self.phase2@.take(i as int)).push(self.phase2@[i as int])
                    =~= self.phase1@ + self.phase2@.take(i as int + 1));
            }
            i += 1;
        }
        proof {
            assert(self.phase2@.take(self.phase2.len() as int) =~= self.phase2@);
        }
        solution
    }

    /// A copy of the solution.
    pub fn duplicate(&self) -> (r: Solution)
        ensures
            r@ == self@,
    {
        Solution { phase1: copy_moves(&self.phase1), phase2: copy_moves(&self.phase2) }
    }
}

/// The view of a solution that may be absent.
pub open spec fn model(o: Option<Solution>) -> Option<SolutionModel> {
    match o {
        Some(s) => Some(s@),
        None => None,
    }
}

/// The best solution after `found` has been reached, when `best` was the
/// best before: `found`, unless `best` is no longer.
pub open spec fn record(best: Option<SolutionModel>, found: SolutionModel) -> Option<
    SolutionModel,
> {
    match best {
        Some(b) => if b.len() > found.len() {
            Some(found)
        } else {
            Some(b)
        },
        None => Some(found),
    }
}

/// Neither phase of the solution, if there is one, has more than 255 moves.
pub open spec fn is_short(best: Option<SolutionModel>) -> bool {
    match best {
        Some(b) => b.phase1.len() <= 255 && b.phase2.len() <= 255,
        None => true,
    }
}

/// The two-phase solver: the tables it reads, the budget of moves, and the
/// scratch of one search.
pub struct Solver<'a> {
    data_table: &'a DataTable,
    max_length: u8,
    initial_state: CubieCube,
    solution_phase1: Vec<Move>,
    solution_phase2: Vec<Move>,
    best_solution: Option<Solution>,
}

impl<'a> Solver<'a> {
    /// The tables that the solver reads.
    pub closed spec fn tables(&self) -> DataTable {
        *self.data_table
    }

    /// The most moves that the first phase may make.
    pub closed spec fn budget(&self) -> u8 {
        self.max_length
    }

    /// Whether the scratch is empty: no cube but the solved one, no path, no
    /// solution.
    pub closed spec fn is_clear(&self) -> bool {
        &&& self.initial_state@ == CubeState::solved()
        &&& self.solution_phase1@.len() == 0
        &&& self.solution_phase2@.len() == 0
        &&& self.best_solution is None
    }

    /// A solver on the tables `data_table` with a budget of `max_length`
    /// moves for both phases together.
    pub fn new(data_table: &'a DataTable, max_length: u8) -> (r: Self)
        ensures
            r.tables() == *data_table,
            r.budget() == max_length,
            r.is_clear(),
    {
        Solver {
            data_table,
            initial_state: CubieCube::default(),
            max_length,
            solution_phase1: Vec::new(),
            solution_phase2: Vec::new(),
            best_solution: None,
        }
    }

    /// Resets the solver state.
    pub fn clear(&mut self)
        ensures
            final(self).tables() == old(self).tables(),
            final(self).budget() == old(self).budget(),
            final(self).is_clear(),
    {
        self.initial_state = CubieCube::default();
        self.solution_phase1.clear();
        self.solution_phase2.clear();
        self.best_solution = None;
    }

    /// The last move of the path so far, of the second phase if it has
    /// begun.
    fn last_of_path(&self) -> (r: Option<Move>)
        ensures
            r == last_move(self.solution_phase1@ + self.solution_phase2@),
    {
        let n2 = self.solution_phase2.len();
        let n1 = self.solution_phase1.len();
        if n2 > 0 {
            Some(self.solution_phase2[n2 - 1])
        } else if n1 > 0 {
            proof {
                assert(self.solution_phase1@ + self.solution_phase2@ =~= self.solution_phase1@);
            }
            Some(self.solution_phase1[n1 - 1])
        } else {
            None
        }
    }

    fn solve_phase2(&mut self, state: Phase2State, depth: u8) -> (found: bool)
        requires
            state.wf(),
            old(self).solution_phase1@.len() <= 255,
            old(self).solution_phase2@.len() + depth <= 255,
            is_short(model(old(self).best_solution)),
        ensures
            final(self).data_table == old(self).data_table,
            final(self).max_length == old(self).max_length,
            final(self).initial_state == old(self).initial_state,
            final(self).solution_phase1@ == old(self).solution_phase1@,
            final(self).solution_phase2@ == old(self).solution_phase2@,
            is_short(model(final(self).best_solution)),
            ({
                let r = phase2_search(
                    old(self).data_table.moves(),
                    old(self).data_table.distances(),
                    state,
                    depth as nat,
                    last_move(old(self).solution_phase1@ + old(self).solution_phase2@),
                );
                &&& found == (r is Some)
                &&& found ==> model(final(self).best_solution) == record(
                    model(old(self).best_solution),
                    SolutionModel {
                        phase1: old(self).solution_phase1@,
                        phase2: old(self).solution_phase2@ + r->0,
                    },
                )
                &&& !found ==> model(final(self).best_solution) == model(
                    old(self).best_solution,
                )
            }),
        decreases depth,
    {
        let ghost mt = self.data_table.moves();
        let ghost pt = self.data_table.distances();
        let ghost lead = self.solution_phase1@;
        let ghost tail = self.solution_phase2@;
        let ghost best = model(self.best_solution);
        let ghost prev = last_move(lead + tail);
        if depth == 0 && state.is_solved() {
            let solution = Solution {
                phase1: copy_moves(&self.solution_phase1),
                phase2: copy_moves(&self.solution_phase2),
            };
            let replace: bool = match &self.best_solution {
                Some(best_solution) => best_solution.len() > solution.len(),
                None => true,
            };
            if replace {
                self.best_solution = Some(solution);
            }
            proof {
                assert(tail + Seq::<Move>::empty() =~= tail);
            }
            return true;
        }
        if depth == 0 || state.prune(self.data_table.pruning_table(), depth) {
            return false;
        }
        let before: Option<Move> = self.last_of_path();
        let mut i: usize = 0;
        while i < 10
            invariant
                i <= 10,
                depth >= 1,
                state.wf(),
                self.data_table == old(self).data_table,
                self.max_length == old(self).max_length,
                self.initial_state == old(self).initial_state,
                mt == self.data_table.moves(),
                pt == self.data_table.distances(),
                self.solution_phase1@ == lead,
                self.solution_phase2@ == tail,
                lead == old(self).solution_phase1@,
                tail == old(self).solution_phase2@,
                best == model(old(self).best_solution),
                lead.len() <= 255,
                tail.len() + depth <= 255,
                model(self.best_solution) == best,
                is_short(best),
                before == prev,
                prev == last_move(lead + tail),
                !state.spec_prune(pt, depth as int),
                phase2_try(mt, pt, state, depth as nat, prev, 0) == phase2_try(
                    mt,
                    pt,
                    state,
                    depth as nat,
                    prev,
                    i as int,
                ),
            decreases 10 - i,
        {
            let m: Move = phase2_move(i);
            let available: bool = match before {
                Some(p) => is_move_available(p, m),
                None => true,
            };
            if available {
                self.solution_phase2.push(m);
                let new_state = state.next(self.data_table.move_table(), i);
                proof {
                    assert(lead + tail.push(m) =~= (lead + tail).push(m));
                }
                let found = self.solve_phase2(new_state, depth - 1);
                self.solution_phase2.pop();
                proof {
                    assert(tail.push(m).drop_last() =~= tail);
                }
                if found {
                    proof {
                        let rest = phase2_search(
                            mt,
                            pt,
                            new_state,
                            (depth - 1) as nat,
                            Some(m),
                        )->0;
                        assert(tail.push(m) + rest =~= tail + (seq![m] + rest));
                        assert(phase2_try(mt, pt, state, depth as nat, prev, i as int) == Some(
                            seq![m] + rest,
                        ));
                        assert(phase2_search(mt, pt, state, depth as nat, prev) == Some(
                            seq![m] + rest,
                        ));
                    }
                    return true;
                }
            }
            i += 1;
        }
        false
    }

    fn solve_phase1(&mut self, state: Phase1State, depth: u8) -> (found: bool)
        requires
            state.wf(),
            old(self).initial_state@.wf(),
            old(self).solution_phase1@.len() + depth <= 255,
            old(self).solution_phase2@.len() == 0,
            is_short(model(old(self).best_solution)),
        ensures
            final(self).data_table == old(self).data_table,
            final(self).max_length == old(self).max_length,
            final(self).initial_state == old(self).initial_state,
            final(self).solution_phase1@ == old(self).solution_phase1@,
            final(self).solution_phase2@ == old(self).solution_phase2@,
            is_short(model(final(self).best_solution)),
            ({
                let r = phase1_search(
                    old(self).data_table.moves(),
                    old(self).data_table.distances(),
                    old(self).initial_state@,
                    old(self).max_length as int,
                    state,
                    depth as nat,
                    old(self).solution_phase1@,
                );
                &&& found == (r is Some)
                &&& model(final(self).best_solution) == match r {
                    Some(solution) => record(model(old(self).best_solution), solution),
                    None => model(old(self).best_solution),
                }
            }),
        decreases depth,
    {
        let ghost mt = self.data_table.moves();
        let ghost pt = self.data_table.distances();
        let ghost initial = self.initial_state@;
        let ghost budget = self.max_length as int;
        let ghost lead = self.solution_phase1@;
        let ghost best = model(self.best_solution);
        if depth == 0 && state.is_solved() {
            let cube_state = self.initial_state.apply_moves(self.solution_phase1.as_slice());
            let made: usize = self.solution_phase1.len();
            if made > self.max_length as usize {
                return false;
            }
            let max_depth: u8 = self.max_length - made as u8;
            let phase2_state = Phase2State::from(cube_state);
            let before: Option<Move> = self.last_of_path();
            proof {
                assert(lead + self.solution_phase2@ =~= lead);
            }
            let mut phase2_depth: u16 = 0;
            while phase2_depth <= max_depth as u16
                invariant
                    phase2_depth <= max_depth + 1,
                    max_depth == phase2_limit(budget, lead.len() as int),
                    depth == 0,
                    state.spec_is_solved(),
                    initial == old(self).initial_state@,
                    budget == old(self).max_length as int,
                    phase2_state.wf(),
                    phase2_state == Phase2State::spec_of(initial.apply_all(lead)),
                    self.data_table == old(self).data_table,
                    self.max_length == old(self).max_length,
                    self.initial_state == old(self).initial_state,
                    mt == self.data_table.moves(),
                    pt == self.data_table.distances(),
                    self.solution_phase1@ == lead,
                    self.solution_phase2@.len() == 0,
                    lead == old(self).solution_phase1@,
                    self.solution_phase2@ == old(self).solution_phase2@,
                    best == model(old(self).best_solution),
                    lead.len() <= 255,
                    model(self.best_solution) == best,
                    is_short(best),
                    before == last_move(lead),
                    phase2_depths(mt, pt, phase2_state, before, 0, max_depth as int)
                        == phase2_depths(
                        mt,
                        pt,
                        phase2_state,
                        before,
                        phase2_depth as int,
                        max_depth as int,
                    ),
                decreases max_depth + 1 - phase2_depth,
            {
                proof {
                    assert(lead + self.solution_phase2@ =~= lead);
                }
                if self.solve_phase2(phase2_state, phase2_depth as u8) {
                    proof {
                        let rest = phase2_search(
                            mt,
                            pt,
                            phase2_state,
                            phase2_depth as nat,
                            before,
                        )->0;
                        assert(Seq::<Move>::empty() + rest =~= rest);
                        assert(old(self).solution_phase2@ =~= Seq::<Move>::empty());
                        assert(phase2_depths(
                            mt,
                            pt,
                            phase2_state,
                            before,
                            phase2_depth as int,
                            max_depth as int,
                        ) == Some(rest));
                        assert(phase1_search(mt, pt, initial, budget, state, depth as nat, lead)
                            == Some(SolutionModel { phase1: lead, phase2: rest }));
                    }
                    return true;
                }
                phase2_depth += 1;
            }
            return false;
        }
        if depth == 0 || state.prune(self.data_table.pruning_table(), depth) {
            return false;
        }
        let before: Option<Move> = self.last_of_path();
        proof {
            assert(lead + self.solution_phase2@ =~= lead);
        }
        let mut i: usize = 0;
        while i < 18
            invariant
                i <= 18,
                depth >= 1,
                state.wf(),
                initial.wf(),
                initial == self.initial_state@,
                budget == self.max_length as int,
                self.data_table == old(self).data_table,
                self.max_length == old(self).max_length,
                self.initial_state == old(self).initial_state,
                mt == self.data_table.moves(),
                pt == self.data_table.distances(),
                self.solution_phase1@ == lead,
                self.solution_phase2@.len() == 0,
                lead == old(self).solution_phase1@,
                self.solution_phase2@ == old(self).solution_phase2@,
                best == model(old(self).best_solution),
                lead.len() + depth <= 255,
                model(self.best_solution) == best,
                is_short(best),
                before == last_move(lead),
                !state.spec_prune(pt, depth as int),
                phase1_try(mt, pt, initial, budget, state, depth as nat, lead, 0) == phase1_try(
                    mt,
                    pt,
                    initial,
                    budget,
                    state,
                    depth as nat,
                    lead,
                    i as int,
                ),
            decreases 18 - i,
        {
            let m: Move = phase1_move(i);
            let available: bool = match before {
                Some(p) => is_move_available(p, m),
                None => true,
            };
            if available {
                self.solution_phase1.push(m);
                let new_state = state.next(self.data_table.move_table(), i);
                let found = self.solve_phase1(new_state, depth - 1);
                self.solution_phase1.pop();
                proof {
                    assert(lead.push(m).drop_last() =~= lead);
                }
                if found {
                    return true;
                }
            }
            i += 1;
        }
        false
    }

    /// The search itself: the first phase with 0, 1, ... moves up to the
    /// budget, until one of these searches ends.
    fn search(&mut self, state: CubieCube) -> (r: Option<Solution>)
        requires
            state@.wf(),
        ensures
            final(self).data_table == old(self).data_table,
            final(self).max_length == old(self).max_length,
            model(r) == solve_spec(
                old(self).data_table.moves(),
                old(self).data_table.distances(),
                state@,
                old(self).max_length as int,
            ),
    {
        self.solution_phase1.clear();
        self.solution_phase2.clear();
        self.best_solution = None;
        self.initial_state = state;
        let ghost mt = self.data_table.moves();
        let ghost pt = self.data_table.distances();
        let first = Phase1State::from(state);
        let mut depth: u16 = 0;
        while depth <= self.max_length as u16
            invariant
                depth <= self.max_length + 1,
                first.wf(),
                first == Phase1State::spec_of(state@),
                state@.wf(),
                self.data_table == old(self).data_table,
                self.max_length == old(self).max_length,
                self.initial_state == state,
                mt == self.data_table.moves(),
                pt == self.data_table.distances(),
                self.solution_phase1@.len() == 0,
                self.solution_phase2@.len() == 0,
                self.best_solution is None,
                solve_from(mt, pt, state@, self.max_length as int, 0) == solve_from(
                    mt,
                    pt,
                    state@,
                    self.max_length as int,
                    depth as int,
                ),
            decreases self.max_length + 1 - depth,
        {
            proof {
                assert(self.solution_phase1@ =~= Seq::<Move>::empty());
            }
            let found = self.solve_phase1(first, depth as u8);
            if found {
                return match &self.best_solution {
                    Some(solution) => Some(solution.duplicate()),
                    None => None,
                };
            }
            depth += 1;
        }
        None
    }

    /// Solves the cube using the two phase algorithm: the first solution
    /// that the search meets, or `None` where it meets none within the
    /// budget. The scratch of an earlier search is dropped first.
    ///
    /// Whatever is returned has moves that the search tries one after
    /// another, in its second phase moves of that phase, and no more moves
    /// than the budget.
    ///
    /// For the solved cube the solution without moves is returned,
    /// whatever the budget. For the solved cube after one move the move that
    /// undoes it is returned: with a budget of one move whatever the move,
    /// with a larger budget where the move is one of the second phase or a
    /// counter-clockwise quarter turn. For a cube that moves make of the
    /// solved cube, the first phase of what is returned leads into the
    /// subgroup. For a cube that moves of the second phase make of the solved
    /// cube, and that moves of that phase within the budget solve, a
    /// solution is returned that has no first phase, solves the cube, and
    /// is met no later than any such moves.
    ///
    /// Where every value of every coordinate is reached, which
    /// `DataTable::is_complete` tells, and the cube is consistent, a
    /// solution is returned exactly where no more moves than the budget
    /// solve the cube, and what is returned is, of the solutions of the kind
    /// that the search looks for, the one that it meets first.
    pub fn solve(&mut self, state: CubieCube) -> (r: Option<Solution>)
        requires
            state@.wf(),
        ensures
            final(self).tables() == old(self).tables(),
            final(self).budget() == old(self).budget(),
            model(r) == solve_spec(
                old(self).tables().moves(),
                old(self).tables().distances(),
                state@,
                old(self).budget() as int,
            ),
            state@ == CubeState::solved() ==> model(r) == Some(
                SolutionModel { phase1: Seq::empty(), phase2: Seq::empty() },
            ),
            forall|m: Move|
                #![trigger CubeState::solved().apply(m)]
                state@ == CubeState::solved().apply(m) && old(self).budget() >= 1 && (
                m.spec_is_phase2() || m.spec_turns() == 3 || old(self).budget() == 1)
                    ==> model(r) == Some(undone_by(m)),
            match model(r) {
                Some(solution) => canonical(None, solution.all()) && all_phase2(solution.phase2)
                    && solution.len() <= old(self).budget(),
                None => true,
            },
            forall|from: Seq<Move>|
                state@ == #[trigger] CubeState::solved().apply_all(from) ==> match model(r) {
                    Some(solution) => state@.apply_all(solution.phase1).in_subgroup(),
                    None => true,
                },
            forall|from: Seq<Move>|
                state@ == #[trigger] CubeState::solved().apply_all(from) && all_phase2(from)
                    && from.len() <= old(self).budget() ==> match model(r) {
                    Some(solution) => solution.phase1.len() == 0 && state@.apply_all(
                        solution.phase2,
                    ) == CubeState::solved() && solution.phase2.len() <= from.len(),
                    None => false,
                },
            forall|from: Seq<Move>, tail: Seq<Move>|
                #![trigger CubeState::solved().apply_all(from), state@.apply_all(tail)]
                state@ == CubeState::solved().apply_all(from) && all_phase2(from) && all_phase2(
                    tail,
                ) && canonical(None, tail) && tail.len() <= old(self).budget() && state@.apply_all(
                    tail,
                ) == CubeState::solved() ==> match model(r) {
                    Some(solution) => solution.phase1.len() == 0 && state@.apply_all(
                        solution.phase2,
                    ) == CubeState::solved() && tail_first(solution.phase2, tail),
                    None => false,
                },
            every_value_reached() && state@.consistent() ==> match model(r) {
                Some(solution) => is_candidate(
                    state@,
                    old(self).budget() as int,
                    solution.phase1,
                    solution.phase2,
                ) && state@.apply_all(solution.all()) == CubeState::solved() && solution.len()
                    <= old(self).budget() && forall|lead: Seq<Move>, tail: Seq<Move>|
                    is_candidate(state@, old(self).budget() as int, lead, tail) ==> tried_first(
                        solution.phase1,
                        solution.phase2,
                        lead,
                        tail,
                    ),
                None => forall|ms: Seq<Move>|
                    ms.len() <= old(self).budget() ==> #[trigger] state@.apply_all(ms)
                        != CubeState::solved(),
            },
    {
        let ghost mt = self.data_table.moves();
        let ghost pt = self.data_table.distances();
        let ghost budget = self.max_length as int;
        let _distances: &PruningTable = self.data_table.pruning_table();
        let _moves: &MoveTable = self.data_table.move_table();
        let r = self.search(state);
        proof {
            if every_value_reached() && state@.consistent() {
                lemma_sound_right(mt);
                lemma_solution_solves(mt, pt, state@, budget);
                assert forall|lead: Seq<Move>, tail: Seq<Move>|
                    is_candidate(state@, budget, lead, tail) implies match solve_spec(
                    mt,
                    pt,
                    state@,
                    budget,
                ) {
                    Some(solution) => tried_first(solution.phase1, solution.phase2, lead, tail),
                    None => false,
                } by {
                    lemma_solve_least(mt, pt, state@, budget, lead, tail);
                }
                assert forall|ms: Seq<Move>|
                    ms.len() <= budget && #[trigger] state@.apply_all(ms)
                        == CubeState::solved() implies solve_spec(mt, pt, state@, budget)
                    is Some by {
                    lemma_solved_within_budget(mt, pt, state@, budget, ms);
                }
            }
            if state@ == CubeState::solved() {
                lemma_solved_needs_no_move(mt, pt, budget);
            }
            lemma_solution_shape(mt, pt, state@, budget);
            assert forall|from: Seq<Move>|
                state@ == #[trigger] CubeState::solved().apply_all(from) implies match solve_spec(
                mt,
                pt,
                state@,
                budget,
            ) {
                Some(solution) => state@.apply_all(solution.phase1).in_subgroup(),
                None => true,
            } by {
                lemma_solution_leads(mt, pt, from, budget);
            }
            assert forall|from: Seq<Move>|
                state@ == #[trigger] CubeState::solved().apply_all(from) && all_phase2(from)
                    && from.len() <= budget implies match solve_spec(mt, pt, state@, budget) {
                Some(solution) => solution.phase1.len() == 0 && state@.apply_all(solution.phase2)
                    == CubeState::solved() && solution.phase2.len() <= from.len(),
                None => false,
            } by {
                lemma_subgroup_scramble_is_solved(mt, pt, from, budget);
            }
            assert forall|from: Seq<Move>, tail: Seq<Move>|
                #![trigger CubeState::solved().apply_all(from), state@.apply_all(tail)]
                state@ == CubeState::solved().apply_all(from) && all_phase2(from) && all_phase2(
                    tail,
                ) && canonical(None, tail) && tail.len() <= budget && state@.apply_all(tail)
                    == CubeState::solved() implies match solve_spec(mt, pt, state@, budget) {
                Some(solution) => solution.phase1.len() == 0 && state@.apply_all(solution.phase2)
                    == CubeState::solved() && tail_first(solution.phase2, tail),
                None => false,
            } by {
                lemma_subgroup_cube_is_solved(mt, pt, from, budget, tail);
            }
            assert forall|m: Move|
                #![trigger CubeState::solved().apply(m)]
                state@ == CubeState::solved().apply(m) && budget >= 1 && (m.spec_is_phase2()
                    || m.spec_turns() == 3 || budget == 1) implies solve_spec(
                mt,
                pt,
                state@,
                budget,
            ) == Some(undone_by(m)) by {
                lemma_one_move_is_undone(mt, pt, m, budget);
            }
        }
        r
    }
}

} // verus!
