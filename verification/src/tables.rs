//! The lookup tables of the search: for each coordinate the value that
//! each move leads to, and for pairs of coordinates a count of moves that
//! bounds the way to the goal from below. They are built once, by exploring
//! forward from the solved cube, and only read afterwards.

use vstd::prelude::*;
use crate::coord::{
    co_index, co_to_index, cp_index, cp_to_index, e_combo_index, e_combo_to_index, e_ep_index,
    e_ep_to_index, eo_index, eo_to_index, ud_ep_index, ud_ep_to_index,
};
use crate::admissible::{all_of_phase, lemma_place};
use crate::consistency::lemma_solved_consistent;
use crate::cubie::{lemma_compose_wf, CubeState, CubieCube};
use crate::transitions::{lemma_class_kept, lemma_coordinate_congruent, lemma_coordinate_range};
use crate::moves::{move_at, phase2_move_at, Move};

verus! {

/// The six coordinates.
#[derive(Clone, Copy, Debug, PartialEq, Eq, Structural)]
pub enum Coordinate {
    /// The twists of the corners.
    Co,
    /// The flips of the edges.
    Eo,
    /// The places of the four slice edges.
    ECombo,
    /// The order of the corners.
    Cp,
    /// The order of the eight edges outside the slice.
    UdEp,
    /// The order of the four slice edges.
    EEp,
}

impl Coordinate {
    /// The number of values of the coordinate.
    pub open spec fn spec_count(self) -> int {
        match self {
            Coordinate::Co => 2187,
            Coordinate::Eo => 2048,
            Coordinate::ECombo => 495,
            Coordinate::Cp => 40320,
            Coordinate::UdEp => 40320,
            Coordinate::EEp => 24,
        }
    }

    /// Whether the coordinate belongs to the second phase.
    pub open spec fn spec_is_phase2(self) -> bool {
        match self {
            Coordinate::Co => false,
            Coordinate::Eo => false,
            Coordinate::ECombo => false,
            Coordinate::Cp => true,
            Coordinate::UdEp => true,
            Coordinate::EEp => true,
        }
    }

    /// The number of moves of the coordinate's phase: 18 or 10.
    pub open spec fn spec_move_count(self) -> int {
        if self.spec_is_phase2() {
            10
        } else {
            18
        }
    }

    /// The move at place `i` of the order of the coordinate's phase.
    pub open spec fn spec_move(self, i: int) -> Move {
        if self.spec_is_phase2() {
            phase2_move_at(i)
        } else {
            move_at(i)
        }
    }

    /// The value of the coordinate on the cube `s`.
    pub open spec fn of(self, s: CubeState) -> int {
        match self {
            Coordinate::Co => co_index(s.co),
            Coordinate::Eo => eo_index(s.eo),
            Coordinate::ECombo => e_combo_index(s.ep),
            Coordinate::Cp => cp_index(s.cp),
            Coordinate::UdEp => ud_ep_index(s.ep),
            Coordinate::EEp => e_ep_index(s.ep),
        }
    }

    /// The number of values of the coordinate.
    pub fn count(self) -> (r: usize)
        ensures
            r == self.spec_count(),
    {
        match self {
            Coordinate::Co => 2187,
            Coordinate::Eo => 2048,
            Coordinate::ECombo => 495,
            Coordinate::Cp => 40320,
            Coordinate::UdEp => 40320,
            Coordinate::EEp => 24,
        }
    }

    /// Whether the coordinate belongs to the second phase.
    #[verifier::when_used_as_spec(spec_is_phase2)]
    pub fn is_phase2(self) -> (r: bool)
        ensures
            r == self.spec_is_phase2(),
    {
        match self {
            Coordinate::Co => false,
            Coordinate::Eo => false,
            Coordinate::ECombo => false,
            Coordinate::Cp => true,
            Coordinate::UdEp => true,
            Coordinate::EEp => true,
        }
    }

    /// The number of moves of the coordinate's phase.
    pub fn move_count(self) -> (r: usize)
        ensures
            r == self.spec_move_count(),
    {
        if self.is_phase2() {
            10
        } else {
            18
        }
    }

    /// The value of the coordinate on the cube `c`.
    pub fn coordinate(self, c: &CubieCube) -> (r: usize)
        requires
            c@.wf(),
        ensures
            r == self.of(c@),
            r < self.spec_count(),
    {
        proof {
            let s = c@;
            assert forall|i: int| 0 <= i < 8 implies #[trigger] c.co[i] < 3 by {
                assert(0 <= s.co[i] < 3);
            }
            assert forall|i: int| 0 <= i < 12 implies #[trigger] c.eo[i] < 2 by {
                assert(0 <= s.eo[i] < 2);
            }
        }
        match self {
            Coordinate::Co => co_to_index(&c.co) as usize,
            Coordinate::Eo => eo_to_index(&c.eo) as usize,
            Coordinate::ECombo => e_combo_to_index(&c.ep) as usize,
            Coordinate::Cp => cp_to_index(&c.cp) as usize,
            Coordinate::UdEp => ud_ep_to_index(&c.ep) as usize,
            Coordinate::EEp => e_ep_to_index(&c.ep) as usize,
        }
    }
}

/// The move at place `i` of the second phase's order.
pub fn phase2_move(i: usize) -> (r: Move)
    requires
        i < 10,
    ensures
        r == phase2_move_at(i as int),
        r.spec_is_phase2(),
{
    if i == 0 {
        Move::U
    } else if i == 1 {
        Move::U2
    } else if i == 2 {
        Move::U3
    } else if i == 3 {
        Move::D
    } else if i == 4 {
        Move::D2
    } else if i == 5 {
        Move::D3
    } else if i == 6 {
        Move::R2
    } else if i == 7 {
        Move::L2
    } else if i == 8 {
        Move::F2
    } else {
        Move::B2
    }
}

/// The move at place `i` of the first phase's order.
pub fn phase1_move(i: usize) -> (r: Move)
    requires
        i < 18,
    ensures
        r == move_at(i as int),
        r.spec_index() == i,
{
    match Move::from_index(i) {
        Some(m) => m,
        None => Move::U,
    }
}

/// How many entries of `s` are true.
pub open spec fn count_true(s: Seq<bool>) -> nat
    decreases s.len(),
{
    if s.len() == 0 {
        0
    } else {
        count_true(s.drop_last()) + if s.last() {
            1nat
        } else {
            0nat
        }
    }
}

/// No more entries are true than there are entries.
pub proof fn lemma_count_true_bound(s: Seq<bool>)
    ensures
        count_true(s) <= s.len(),
    decreases s.len(),
{
    if s.len() > 0 {
        lemma_count_true_bound(s.drop_last());
    }
}

/// A sequence of false entries has none that is true.
pub proof fn lemma_count_true_none(s: Seq<bool>)
    requires
        forall|i: int| 0 <= i < s.len() ==> !#[trigger] s[i],
    ensures
        count_true(s) == 0,
    decreases s.len(),
{
    if s.len() > 0 {
        lemma_count_true_none(s.drop_last());
    }
}

/// Setting a false entry to true adds one to the count.
pub proof fn lemma_count_true_set(s: Seq<bool>, i: int)
    requires
        0 <= i < s.len(),
        !s[i],
    ensures
        count_true(s.update(i, true)) == count_true(s) + 1,
    decreases s.len(),
{
    let t = s.update(i, true);
    if i == s.len() - 1 {
        assert(t.drop_last() =~= s.drop_last());
    } else {
        lemma_count_true_set(s.drop_last(), i);
        assert(t.drop_last() =~= s.drop_last().update(i, true));
    }
}

/// A place in a table of rows of `width` entries lies inside the table.
pub proof fn lemma_flat_index(row: int, rows: int, col: int, width: int)
    requires
        0 <= row < rows,
        0 <= col < width,
    ensures
        0 <= row * width + col < rows * width,
{
    assert(row * width + col < rows * width) by (nonlinear_arith)
        requires
            0 <= row < rows,
            0 <= col < width,
    ;
    assert(0 <= row * width) by (nonlinear_arith)
        requires
            0 <= row,
            0 <= width,
    ;
}

/// The eighteen moves as cubes, in the first phase's order.
pub fn move_cubes() -> (r: Vec<CubieCube>)
    ensures
        r.len() == 18,
        forall|i: int| 0 <= i < 18 ==> (#[trigger] r[i])@ == CubeState::of_move(move_at(i)),
        forall|i: int| 0 <= i < 18 ==> (#[trigger] r[i])@.wf(),
{
    let mut r: Vec<CubieCube> = Vec::new();
    let mut i: usize = 0;
    while i < 18
        invariant
            i <= 18,
            r.len() == i,
            forall|j: int| 0 <= j < i ==> (#[trigger] r[j])@ == CubeState::of_move(move_at(j)),
            forall|j: int| 0 <= j < i ==> (#[trigger] r[j])@.wf(),
        decreases 18 - i,
    {
        r.push(CubieCube::of_move(phase1_move(i)));
        i += 1;
    }
    r
}

/// The entry of the table `table` of rows of `width` entries at row `row`
/// and column `col`.
pub open spec fn entry(table: Seq<u16>, width: int, row: int, col: int) -> int {
    table[row * width + col] as int
}

impl Coordinate {
    /// Whether the table `table` is right: for every cube of the class of
    /// the coordinate it gives, at the row of the cube's value and the
    /// column of a move, the value of the cube after the move.
    pub open spec fn table_right(self, table: Seq<u16>) -> bool {
        forall|s: CubeState, i: int|
            #![trigger entry(table, self.spec_move_count(), self.of(s), i)]
            self.class(s) && 0 <= i < self.spec_move_count() ==> entry(
                table,
                self.spec_move_count(),
                self.of(s),
                i,
            ) == self.of(s.apply(self.spec_move(i)))
    }
}

impl Coordinate {
    /// Whether the table `table` is right on every cube that moves of the
    /// coordinate's phase make of the solved cube: at the row of the cube's
    /// value and the column of a move it gives the value of the cube after
    /// the move.
    pub open spec fn table_right_from_solved(self, table: Seq<u16>) -> bool {
        forall|ms: Seq<Move>, i: int|
            #![trigger entry(
                table,
                self.spec_move_count(),
                self.of(CubeState::solved().apply_all(ms)),
                i,
            )]
            all_of_phase(self, ms) && 0 <= i < self.spec_move_count() ==> entry(
                table,
                self.spec_move_count(),
                self.of(CubeState::solved().apply_all(ms)),
                i,
            ) == self.of(CubeState::solved().apply_all(ms).apply(self.spec_move(i)))
    }

    /// Whether moves of the coordinate's phase make of the solved cube a
    /// cube with the value `c`.
    pub open spec fn reaches(self, c: int) -> bool {
        exists|ms: Seq<Move>|
            all_of_phase(self, ms) && #[trigger] self.of(CubeState::solved().apply_all(ms)) == c
    }

    /// Whether every value of the coordinate is that of a cube that moves
    /// of its phase make of the solved cube.
    pub open spec fn all_reached(self) -> bool {
        forall|c: int| 0 <= c < self.spec_count() ==> #[trigger] self.reaches(c)
    }
}

/// A cube that moves of a coordinate's phase make of the solved cube is of
/// the coordinate's class.
pub proof fn lemma_made_class(kind: Coordinate, ms: Seq<Move>)
    requires
        all_of_phase(kind, ms),
    ensures
        kind.class(CubeState::solved().apply_all(ms)),
    decreases ms.len(),
{
    lemma_solved_consistent();
    if ms.len() > 0 {
        let before = ms.drop_last();
        assert forall|i: int| 0 <= i < before.len() implies kind.has_move(
            #[trigger] before[i],
        ) by {
            assert(before[i] == ms[i]);
        }
        lemma_made_class(kind, before);
        assert(kind.has_move(ms[ms.len() - 1]));
        lemma_place(kind, ms.last());
        lemma_class_kept(kind, CubeState::solved().apply_all(before), kind.place(ms.last()));
    }
}

/// A table that is right on every cube made of the solved cube is right on
/// every cube of the coordinate's class, where every value is reached.
pub proof fn lemma_all_reached_table_right(kind: Coordinate, table: Seq<u16>)
    requires
        kind.table_right_from_solved(table),
        kind.all_reached(),
    ensures
        kind.table_right(table),
{
    let mc = kind.spec_move_count();
    assert forall|s: CubeState, i: int|
        #![trigger entry(table, mc, kind.of(s), i)]
        kind.class(s) && 0 <= i < mc implies entry(table, mc, kind.of(s), i) == kind.of(
        s.apply(kind.spec_move(i)),
    ) by {
        lemma_coordinate_range(kind, s);
        assert(kind.reaches(kind.of(s)));
        let ms = choose|ms: Seq<Move>|
            all_of_phase(kind, ms) && #[trigger] kind.of(CubeState::solved().apply_all(ms))
                == kind.of(s);
        let t = CubeState::solved().apply_all(ms);
        lemma_made_class(kind, ms);
        lemma_coordinate_congruent(kind, s, t, i);
        assert(entry(table, mc, kind.of(t), i) == kind.of(t.apply(kind.spec_move(i))));
    }
}

/// Where every entry is true, as many are true as there are entries.
pub proof fn lemma_count_true_full(s: Seq<bool>)
    requires
        forall|i: int| 0 <= i < s.len() ==> #[trigger] s[i],
    ensures
        count_true(s) == s.len(),
    decreases s.len(),
{
    if s.len() > 0 {
        lemma_count_true_full(s.drop_last());
        assert(s[s.len() - 1]);
    }
}

/// Where as many entries are true as there are entries, all are.
pub proof fn lemma_count_true_all(s: Seq<bool>)
    requires
        count_true(s) == s.len(),
    ensures
        forall|i: int| 0 <= i < s.len() ==> #[trigger] s[i],
    decreases s.len(),
{
    if s.len() > 0 {
        lemma_count_true_bound(s.drop_last());
        lemma_count_true_all(s.drop_last());
        assert forall|i: int| 0 <= i < s.len() implies #[trigger] s[i] by {
            if i < s.len() - 1 {
                assert(s.drop_last()[i]);
            }
        }
    }
}

/// Two places of a table are the same place only in the same row and
/// column.
pub proof fn lemma_flat_index_unique(row: int, col: int, row2: int, col2: int, width: int)
    requires
        0 <= col < width,
        0 <= col2 < width,
        row * width + col == row2 * width + col2,
    ensures
        row == row2,
        col == col2,
{
    crate::ranking::lemma_split_unique(row, col, row2, col2, width);
}

/// What the exploration knows of the table while it runs: every value seen
/// has a cube in the queue that has it, the cubes of the queue are of the
/// class and have different values, and the rows of the cubes before
/// `done`, and the first `cols` entries of the row of the cube at `done`,
/// hold the values of that cube after each move, all of them seen.
pub open spec fn exploring(
    kind: Coordinate,
    table: Seq<u16>,
    seen: Seq<bool>,
    queue: Seq<CubieCube>,
    slot: Seq<int>,
    done: int,
    cols: int,
) -> bool {
    let mc = kind.spec_move_count();
    &&& seen.len() == kind.spec_count()
    &&& slot.len() == kind.spec_count()
    &&& table.len() == kind.spec_count() * mc
    &&& forall|c: int|
        0 <= c < seen.len() && #[trigger] seen[c] ==> 0 <= slot[c] < queue.len() && kind.of(
            queue[slot[c]]@,
        ) == c
    &&& forall|q: int|
        0 <= q < queue.len() ==> kind.class((#[trigger] queue[q])@) && 0 <= kind.of(queue[q]@)
            < seen.len() && seen[kind.of(queue[q]@)] && slot[kind.of(queue[q]@)] == q
    &&& forall|c: int, i: int|
        #![trigger entry(table, mc, c, i)]
        0 <= c < seen.len() && seen[c] && 0 <= i < mc && (slot[c] < done || (slot[c] == done && i
            < cols)) ==> {
            &&& entry(table, mc, c, i) == kind.of(queue[slot[c]]@.apply(kind.spec_move(i)))
            &&& 0 <= entry(table, mc, c, i) < seen.len()
            &&& seen[entry(table, mc, c, i)]
        }
}

/// What the exploration knows of the cubes of its queue: the first is the
/// solved cube, and each is made of the solved cube by the moves of the
/// coordinate's phase that `paths` holds for it.
pub open spec fn made_by(kind: Coordinate, queue: Seq<CubieCube>, paths: Seq<Seq<Move>>) -> bool {
    &&& paths.len() == queue.len()
    &&& queue.len() >= 1
    &&& queue[0]@ == CubeState::solved()
    &&& forall|q: int|
        0 <= q < queue.len() ==> all_of_phase(kind, #[trigger] paths[q]) && queue[q]@
            == CubeState::solved().apply_all(paths[q])
}

/// An exploration that has expanded every cube of its queue has seen the
/// value of every cube that moves of the phase make of the solved cube.
pub proof fn lemma_explored_sees(
    kind: Coordinate,
    table: Seq<u16>,
    seen: Seq<bool>,
    queue: Seq<CubieCube>,
    slot: Seq<int>,
    ms: Seq<Move>,
)
    requires
        exploring(kind, table, seen, queue, slot, queue.len() as int, 0),
        queue.len() >= 1,
        queue[0]@ == CubeState::solved(),
        all_of_phase(kind, ms),
    ensures
        0 <= kind.of(CubeState::solved().apply_all(ms)) < seen.len(),
        seen[kind.of(CubeState::solved().apply_all(ms))],
    decreases ms.len(),
{
    let mc = kind.spec_move_count();
    if ms.len() == 0 {
        assert(CubeState::solved().apply_all(ms) == queue[0]@);
    } else {
        let before = ms.drop_last();
        let m = ms.last();
        assert forall|i: int| 0 <= i < before.len() implies kind.has_move(
            #[trigger] before[i],
        ) by {
            assert(before[i] == ms[i]);
        }
        lemma_explored_sees(kind, table, seen, queue, slot, before);
        let s = CubeState::solved().apply_all(before);
        let c = kind.of(s);
        let r = queue[slot[c]];
        assert(kind.has_move(ms[ms.len() - 1]));
        lemma_place(kind, m);
        let i = kind.place(m);
        lemma_made_class(kind, before);
        assert(kind.class(r@));
        lemma_coordinate_congruent(kind, s, r@, i);
        assert(seen[entry(table, mc, c, i)]);
    }
}

/// An exploration that has expanded every cube of its queue has a table
/// that is right on every cube that moves of the phase make of the solved
/// cube.
pub proof fn lemma_explored_table_right_from_solved(
    kind: Coordinate,
    table: Seq<u16>,
    seen: Seq<bool>,
    queue: Seq<CubieCube>,
    slot: Seq<int>,
)
    requires
        exploring(kind, table, seen, queue, slot, queue.len() as int, 0),
        queue.len() >= 1,
        queue[0]@ == CubeState::solved(),
    ensures
        kind.table_right_from_solved(table),
{
    let mc = kind.spec_move_count();
    assert forall|ms: Seq<Move>, i: int|
        #![trigger entry(table, mc, kind.of(CubeState::solved().apply_all(ms)), i)]
        all_of_phase(kind, ms) && 0 <= i < mc implies entry(
        table,
        mc,
        kind.of(CubeState::solved().apply_all(ms)),
        i,
    ) == kind.of(CubeState::solved().apply_all(ms).apply(kind.spec_move(i))) by {
        let s = CubeState::solved().apply_all(ms);
        lemma_explored_sees(kind, table, seen, queue, slot, ms);
        lemma_made_class(kind, ms);
        let r = queue[slot[kind.of(s)]];
        assert(kind.class(r@));
        lemma_coordinate_congruent(kind, s, r@, i);
    }
}

/// An exploration that has expanded every cube of its queue has as many
/// cubes in its queue as the coordinate has values exactly where every value
/// is reached.
pub proof fn lemma_explored_all_reached(
    kind: Coordinate,
    table: Seq<u16>,
    seen: Seq<bool>,
    queue: Seq<CubieCube>,
    slot: Seq<int>,
    paths: Seq<Seq<Move>>,
)
    requires
        exploring(kind, table, seen, queue, slot, queue.len() as int, 0),
        made_by(kind, queue, paths),
        queue.len() == count_true(seen),
    ensures
        queue.len() == kind.spec_count() <==> kind.all_reached(),
{
    if queue.len() == kind.spec_count() {
        lemma_count_true_all(seen);
        assert forall|c: int| 0 <= c < kind.spec_count() implies #[trigger] kind.reaches(c) by {
            assert(seen[c]);
            let q = slot[c];
            assert(all_of_phase(kind, paths[q]));
            assert(kind.of(CubeState::solved().apply_all(paths[q])) == c);
        }
    }
    if kind.all_reached() {
        assert forall|c: int| 0 <= c < seen.len() implies #[trigger] seen[c] by {
            assert(kind.reaches(c));
            let ms = choose|ms: Seq<Move>|
                all_of_phase(kind, ms) && #[trigger] kind.of(CubeState::solved().apply_all(ms))
                    == c;
            lemma_explored_sees(kind, table, seen, queue, slot, ms);
        }
        lemma_count_true_full(seen);
    }
}

/// The table of one coordinate: at `value * moves + move` the value that
/// the move leads to, found by exploring forward from the solved cube. A
/// value is expanded when it is first reached; rows of values that are never
/// reached stay 0. The table is right on every cube that moves of the
/// coordinate's phase make of the solved cube. The flag returned says whether
/// every value of the coordinate is that of such a cube; where it is, the
/// table is right on every cube of the coordinate's class.
#[verifier::rlimit(40)]
pub fn build_move_table(kind: Coordinate, cubes: &Vec<CubieCube>) -> (r: (Vec<u16>, bool))
    requires
        cubes.len() == 18,
        forall|i: int| 0 <= i < 18 ==> (#[trigger] cubes[i])@ == CubeState::of_move(move_at(i)),
        forall|i: int| 0 <= i < 18 ==> (#[trigger] cubes[i])@.wf(),
    ensures
        r.0.len() == kind.spec_count() * kind.spec_move_count(),
        forall|j: int| 0 <= j < r.0.len() ==> #[trigger] r.0[j] < kind.spec_count(),
        kind.table_right_from_solved(r.0@),
        r.1 <==> kind.all_reached(),
        r.1 ==> kind.table_right(r.0@),
{
    let n: usize = kind.count();
    let mc: usize = kind.move_count();
    let phase2: bool = kind.is_phase2();
    let mut table: Vec<u16> = vec![0u16; n * mc];
    let mut seen: Vec<bool> = vec![false; n];
    let mut queue: Vec<CubieCube> = Vec::new();
    let start = CubieCube::solved();
    proof {
        lemma_solved_consistent();
    }
    let first = kind.coordinate(&start);
    let ghost mut slot: Seq<int> = Seq::new(n as nat, |c: int| 0int);
    let ghost mut paths: Seq<Seq<Move>> = seq![Seq::<Move>::empty()];
    proof {
        lemma_count_true_none(seen@);
        lemma_count_true_set(seen@, first as int);
    }
    seen[first] = true;
    queue.push(start);
    let mut head: usize = 0;
    proof {
        slot = slot.update(first as int, 0);
        assert(queue@[0] == start);
        assert(exploring(kind, table@, seen@, queue@, slot, 0, 0));
        assert(CubeState::solved().apply_all(paths[0]) == CubeState::solved());
        assert(made_by(kind, queue@, paths));
    }
    while head < queue.len()
        invariant
            n == kind.spec_count(),
            mc == kind.spec_move_count(),
            phase2 == kind.spec_is_phase2(),
            cubes.len() == 18,
            forall|i: int| 0 <= i < 18 ==> (#[trigger] cubes[i])@ == CubeState::of_move(move_at(i)),
            forall|i: int| 0 <= i < 18 ==> (#[trigger] cubes[i])@.wf(),
            table.len() == n * mc,
            seen.len() == n,
            forall|j: int| 0 <= j < table.len() ==> #[trigger] table[j] < n,
            queue.len() == count_true(seen@),
            head <= queue.len(),
            exploring(kind, table@, seen@, queue@, slot, head as int, 0),
            made_by(kind, queue@, paths),
        decreases n - head,
    {
        proof {
            lemma_count_true_bound(seen@);
        }
        let s: CubieCube = queue[head];
        let c: usize = kind.coordinate(&s);
        let mut m: usize = 0;
        while m < mc
            invariant
                n == kind.spec_count(),
                mc == kind.spec_move_count(),
                phase2 == kind.spec_is_phase2(),
                cubes.len() == 18,
                forall|i: int|
                    0 <= i < 18 ==> (#[trigger] cubes[i])@ == CubeState::of_move(move_at(i)),
                forall|i: int| 0 <= i < 18 ==> (#[trigger] cubes[i])@.wf(),
                table.len() == n * mc,
                seen.len() == n,
                forall|j: int| 0 <= j < table.len() ==> #[trigger] table[j] < n,
                queue.len() == count_true(seen@),
                head < queue.len(),
                s == queue@[head as int],
                kind.class(s@),
                c == kind.of(s@),
                c < n,
                m <= mc,
                exploring(kind, table@, seen@, queue@, slot, head as int, m as int),
                made_by(kind, queue@, paths),
            decreases mc - m,
        {
            let which: usize = if phase2 {
                phase2_move(m).index()
            } else {
                m
            };
            let turn: CubieCube = cubes[which];
            proof {
                assert(turn@ == CubeState::of_move(kind.spec_move(m as int)));
                lemma_compose_wf(s@, turn@);
                lemma_flat_index(c as int, n as int, m as int, mc as int);
                lemma_class_kept(kind, s@, m as int);
            }
            let next: CubieCube = s.multiply(turn);
            let c2: usize = kind.coordinate(&next);
            let ghost old_table = table@;
            let ghost old_seen = seen@;
            let ghost old_queue = queue@;
            let ghost old_slot = slot;
            table[c * mc + m] = c2 as u16;
            if !seen[c2] {
                proof {
                    lemma_count_true_set(seen@, c2 as int);
                    lemma_count_true_bound(seen@.update(c2 as int, true));
                    slot = slot.update(c2 as int, queue.len() as int);
                    let way = paths[head as int].push(kind.spec_move(m as int));
                    assert(way.drop_last() =~= paths[head as int]);
                    assert forall|k: int| 0 <= k < way.len() implies kind.has_move(
                        #[trigger] way[k],
                    ) by {
                        if k < way.len() - 1 {
                            assert(way[k] == paths[head as int][k]);
                        }
                    }
                    paths = paths.push(way);
                }
                seen[c2] = true;
                queue.push(next);
            }
            proof {
                let w = mc as int;
                assert forall|x: int|
                    0 <= x < seen@.len() && #[trigger] seen@[x] implies 0 <= slot[x] < queue@.len()
                    && kind.of(queue@[slot[x]]@) == x by {
                    if x == c2 && !old_seen[c2 as int] {
                    } else {
                        assert(old_seen[x]);
                        assert(queue@[old_slot[x]] == old_queue[old_slot[x]]);
                    }
                }
                assert forall|q: int| 0 <= q < queue@.len() implies kind.class(
                    (#[trigger] queue@[q])@,
                ) && 0 <= kind.of(queue@[q]@) < seen@.len() && seen@[kind.of(queue@[q]@)]
                    && slot[kind.of(queue@[q]@)] == q by {
                    if q < old_queue.len() {
                        assert(queue@[q] == old_queue[q]);
                        assert(old_seen[kind.of(old_queue[q]@)]);
                    }
                }
                assert forall|x: int, i: int|
                    #![trigger entry(table@, w, x, i)]
                    0 <= x < seen@.len() && seen@[x] && 0 <= i < w && (slot[x] < head || (slot[x]
                        == head && i < m + 1)) implies {
                    &&& entry(table@, w, x, i) == kind.of(
                        queue@[slot[x]]@.apply(kind.spec_move(i)),
                    )
                    &&& 0 <= entry(table@, w, x, i) < seen@.len()
                    &&& seen@[entry(table@, w, x, i)]
                } by {
                    assert(old_seen[x]);
                    assert(slot[x] == old_slot[x]);
                    assert(queue@[slot[x]] == old_queue[old_slot[x]]);
                    lemma_flat_index(x, n as int, i, w);
                    if x == c && i == m {
                        assert(old_slot[c as int] == head);
                    } else {
                        if x * w + i == c * w + m {
                            lemma_flat_index_unique(x, i, c as int, m as int, w);
                        }
                        assert(entry(table@, w, x, i) == entry(old_table, w, x, i));
                        if x == c {
                            assert(old_slot[c as int] == head);
                        }
                        assert(old_seen[entry(old_table, w, x, i)]);
                    }
                }
                assert(exploring(kind, table@, seen@, queue@, slot, head as int, m as int + 1));
                assert forall|q: int| 0 <= q < queue@.len() implies all_of_phase(
                    kind,
                    #[trigger] paths[q],
                ) && queue@[q]@ == CubeState::solved().apply_all(paths[q]) by {
                    if q < old_queue.len() {
                        assert(queue@[q] == old_queue[q]);
                    }
                }
                assert(queue@[0] == old_queue[0]);
            }
            m += 1;
        }
        proof {
            let w = mc as int;
            assert forall|x: int, i: int|
                #![trigger entry(table@, w, x, i)]
                0 <= x < seen@.len() && seen@[x] && 0 <= i < w && (slot[x] < head + 1 || (slot[x]
                    == head + 1 && i < 0)) implies {
                &&& entry(table@, w, x, i) == kind.of(queue@[slot[x]]@.apply(kind.spec_move(i)))
                &&& 0 <= entry(table@, w, x, i) < seen@.len()
                &&& seen@[entry(table@, w, x, i)]
            } by {}
        }
        head += 1;
    }
    let complete: bool = queue.len() == n;
    proof {
        lemma_explored_table_right_from_solved(kind, table@, seen@, queue@, slot);
        lemma_explored_all_reached(kind, table@, seen@, queue@, slot, paths);
        if complete {
            lemma_all_reached_table_right(kind, table@);
        }
    }
    (table, complete)
}

/// The marker of a pair that the exploration has not reached.
pub const UNREACHED: u8 = 255;

/// The entry of the distance table `dist` of rows of `n2` entries for the
/// pair (`a`, `b`).
pub open spec fn pair_entry(dist: Seq<u8>, n2: int, a: int, b: int) -> int {
    dist[a * n2 + b] as int
}

/// Whether the distance table `dist` is steady along the move tables
/// `first` and `second`: the pair (0, 0) has distance 0, and from a pair
/// that was reached every move leads to a pair that was reached, with a
/// distance at most one larger.
pub open spec fn steady(
    dist: Seq<u8>,
    first: Seq<u16>,
    n1: int,
    second: Seq<u16>,
    n2: int,
    mc: int,
) -> bool {
    &&& pair_entry(dist, n2, 0, 0) == 0
    &&& forall|a: int, b: int, m: int|
        #![trigger pair_entry(dist, n2, entry(first, mc, a, m), entry(second, mc, b, m))]
        0 <= a < n1 && 0 <= b < n2 && 0 <= m < mc && pair_entry(dist, n2, a, b) != UNREACHED ==> {
            &&& pair_entry(dist, n2, entry(first, mc, a, m), entry(second, mc, b, m))
                != UNREACHED
            &&& pair_entry(dist, n2, entry(first, mc, a, m), entry(second, mc, b, m))
                <= pair_entry(dist, n2, a, b) + 1
        }
}

/// Whether `ms` is a list of places of moves among `mc` moves.
pub open spec fn is_walk(ms: Seq<int>, mc: int) -> bool {
    forall|i: int| 0 <= i < ms.len() ==> 0 <= #[trigger] ms[i] < mc
}

/// The pair that the moves at the places `ms` lead to from the pair (0, 0)
/// along the move tables `first` and `second`.
pub open spec fn walk_end(first: Seq<u16>, second: Seq<u16>, mc: int, ms: Seq<int>) -> (int, int)
    decreases ms.len(),
{
    if ms.len() == 0 {
        (0, 0)
    } else {
        let from = walk_end(first, second, mc, ms.drop_last());
        (entry(first, mc, from.0, ms.last()), entry(second, mc, from.1, ms.last()))
    }
}

/// Whether every distance of the table `dist` is that of a way: to each
/// pair that was reached some moves lead from the pair (0, 0), as many as
/// its distance says where that is below 254.
pub open spec fn traced(
    dist: Seq<u8>,
    first: Seq<u16>,
    n1: int,
    second: Seq<u16>,
    n2: int,
    mc: int,
) -> bool {
    forall|a: int, b: int|
        0 <= a < n1 && 0 <= b < n2 && #[trigger] pair_entry(dist, n2, a, b) != UNREACHED
            ==> exists|ms: Seq<int>|
            {
                &&& is_walk(ms, mc)
                &&& #[trigger] walk_end(first, second, mc, ms) == (a, b)
                &&& pair_entry(dist, n2, a, b) < 254 ==> ms.len() == pair_entry(dist, n2, a, b)
            }
}

/// What the exploration of the pairs knows of the ways to the pairs seen:
/// `route` holds for each of them moves that lead to it from the pair (0,
/// 0), as many as its distance says where that is below 254.
pub open spec fn routed(
    dist: Seq<u8>,
    seen: Seq<bool>,
    queue: Seq<(u16, u16)>,
    slot: Seq<int>,
    route: Seq<Seq<int>>,
    first: Seq<u16>,
    second: Seq<u16>,
    mc: int,
) -> bool {
    &&& route.len() == seen.len()
    &&& forall|x: int|
        0 <= x < seen.len() && #[trigger] seen[x] ==> {
            &&& is_walk(route[x], mc)
            &&& walk_end(first, second, mc, route[x]) == (
                queue[slot[x]].0 as int,
                queue[slot[x]].1 as int,
            )
            &&& dist[x] < 254 ==> route[x].len() == dist[x]
        }
}

/// Along a steady distance table, the pair that a list of moves leads to
/// from the pair (0, 0) was reached, and its distance is at most the number
/// of the moves.
pub proof fn lemma_walk_distance(
    dist: Seq<u8>,
    first: Seq<u16>,
    n1: int,
    second: Seq<u16>,
    n2: int,
    mc: int,
    ms: Seq<int>,
)
    requires
        steady(dist, first, n1, second, n2, mc),
        is_walk(ms, mc),
        0 < n1,
        0 < n2,
        first.len() == n1 * mc,
        second.len() == n2 * mc,
        forall|j: int| 0 <= j < first.len() ==> #[trigger] first[j] < n1,
        forall|j: int| 0 <= j < second.len() ==> #[trigger] second[j] < n2,
    ensures
        ({
            let end = walk_end(first, second, mc, ms);
            &&& 0 <= end.0 < n1
            &&& 0 <= end.1 < n2
            &&& pair_entry(dist, n2, end.0, end.1) != UNREACHED
            &&& pair_entry(dist, n2, end.0, end.1) <= ms.len()
        }),
    decreases ms.len(),
{
    if ms.len() > 0 {
        let before = ms.drop_last();
        let m = ms.last();
        assert forall|i: int| 0 <= i < before.len() implies 0 <= #[trigger] before[i] < mc by {
            assert(before[i] == ms[i]);
        }
        lemma_walk_distance(dist, first, n1, second, n2, mc, before);
        let from = walk_end(first, second, mc, before);
        assert(0 <= m < mc);
        lemma_flat_index(from.0, n1, m, mc);
        lemma_flat_index(from.1, n2, m, mc);
        assert(entry(first, mc, from.0, m) == first[from.0 * mc + m]);
        assert(entry(second, mc, from.1, m) == second[from.1 * mc + m]);
        assert(pair_entry(dist, n2, entry(first, mc, from.0, m), entry(second, mc, from.1, m))
            <= pair_entry(dist, n2, from.0, from.1) + 1);
    }
}

/// The place of the pair `p` in a table of rows of `n2` entries.
pub open spec fn flat(p: (u16, u16), n2: int) -> int {
    p.0 * n2 + p.1
}

/// What the exploration of the pairs knows while it runs: the pairs seen
/// are those of the queue, each once, with their distances set; the
/// distances along the queue do not fall and stay within one of that of the
/// pair at `done`; and from the pairs before `done`, and by the first
/// `cols` moves from the pair at `done`, only pairs seen are reached, with
/// distances at most one larger.
pub open spec fn exploring_pairs(
    dist: Seq<u8>,
    seen: Seq<bool>,
    queue: Seq<(u16, u16)>,
    slot: Seq<int>,
    first: Seq<u16>,
    n1: int,
    second: Seq<u16>,
    n2: int,
    mc: int,
    done: int,
    cols: int,
) -> bool {
    &&& dist.len() == n1 * n2
    &&& seen.len() == n1 * n2
    &&& slot.len() == n1 * n2
    &&& queue.len() >= 1
    &&& queue[0] == (0u16, 0u16)
    &&& dist[0] == 0
    &&& forall|x: int|
        0 <= x < seen.len() ==> (#[trigger] seen[x] <==> dist[x] != UNREACHED)
    &&& forall|x: int|
        0 <= x < seen.len() && #[trigger] seen[x] ==> 0 <= slot[x] < queue.len() && flat(
            queue[slot[x]],
            n2,
        ) == x
    &&& forall|q: int|
        0 <= q < queue.len() ==> (#[trigger] queue[q]).0 < n1 && queue[q].1 < n2 && 0 <= flat(
            queue[q],
            n2,
        ) < seen.len() && seen[flat(queue[q], n2)] && slot[flat(queue[q], n2)] == q
    &&& forall|q1: int, q2: int|
        0 <= q1 <= q2 < queue.len() ==> dist[flat(#[trigger] queue[q1], n2)] <= dist[flat(
            #[trigger] queue[q2],
            n2,
        )]
    &&& done < queue.len() ==> forall|q: int|
        0 <= q < queue.len() ==> dist[flat(#[trigger] queue[q], n2)] <= dist[flat(
            queue[done],
            n2,
        )] + 1
    &&& forall|a: int, b: int, m: int|
        #![trigger pair_entry(dist, n2, entry(first, mc, a, m), entry(second, mc, b, m))]
        0 <= a < n1 && 0 <= b < n2 && 0 <= m < mc && seen[a * n2 + b] && (slot[a * n2 + b] < done
            || (slot[a * n2 + b] == done && m < cols)) ==> {
            &&& pair_entry(dist, n2, entry(first, mc, a, m), entry(second, mc, b, m))
                != UNREACHED
            &&& pair_entry(dist, n2, entry(first, mc, a, m), entry(second, mc, b, m))
                <= pair_entry(dist, n2, a, b) + 1
        }
}

/// The distance table of a pair of coordinates: at `a * n2 + b` the number
/// of moves after which the exploration from the pair (0, 0) first reached
/// the pair (a, b), `UNREACHED` where it never did. `first` and `second`
/// are the move tables of the two coordinates, with `n1` and `n2` values
/// and `mc` moves each.
#[verifier::rlimit(40)]
pub fn build_pruning_table(
    first: &Vec<u16>,
    n1: usize,
    second: &Vec<u16>,
    n2: usize,
    mc: usize,
) -> (dist: Vec<u8>)
    requires
        1 <= n1 <= 65536,
        1 <= n2 <= 65536,
        1 <= mc <= 18,
        n1 * n2 <= 0x7fff_ffff,
        first.len() == n1 * mc,
        second.len() == n2 * mc,
        forall|j: int| 0 <= j < first.len() ==> #[trigger] first[j] < n1,
        forall|j: int| 0 <= j < second.len() ==> #[trigger] second[j] < n2,
    ensures
        dist.len() == n1 * n2,
        steady(dist@, first@, n1 as int, second@, n2 as int, mc as int),
        traced(dist@, first@, n1 as int, second@, n2 as int, mc as int),
{
    let mut dist: Vec<u8> = vec![UNREACHED; n1 * n2];
    let mut seen: Vec<bool> = vec![false; n1 * n2];
    let mut queue: Vec<(u16, u16)> = Vec::new();
    let ghost mut slot: Seq<int> = Seq::new((n1 * n2) as nat, |x: int| 0int);
    let ghost mut route: Seq<Seq<int>> = Seq::new((n1 * n2) as nat, |x: int| Seq::<int>::empty());
    proof {
        lemma_flat_index(0, n1 as int, 0, n2 as int);
        lemma_count_true_none(seen@);
        lemma_count_true_set(seen@, 0);
    }
    dist[0] = 0;
    seen[0] = true;
    queue.push((0u16, 0u16));
    let mut head: usize = 0;
    proof {
        assert(queue@[0] == (0u16, 0u16));
        assert(flat(queue@[0], n2 as int) == 0) by (nonlinear_arith)
            requires
                queue@[0] == (0u16, 0u16),
        ;
        assert forall|x: int, y: int, i: int|
            #![trigger pair_entry(
                dist@,
                n2 as int,
                entry(first@, mc as int, x, i),
                entry(second@, mc as int, y, i),
            )]
            0 <= x < n1 && 0 <= y < n2 && 0 <= i < mc && seen@[x * n2 + y] && (slot[x * n2 + y]
                < 0 || (slot[x * n2 + y] == 0 && i < 0)) implies false by {
            lemma_flat_index(x, n1 as int, y, n2 as int);
        }
        assert(exploring_pairs(
            dist@,
            seen@,
            queue@,
            slot,
            first@,
            n1 as int,
            second@,
            n2 as int,
            mc as int,
            0,
            0,
        ));
    }
    proof {
        assert(routed(dist@, seen@, queue@, slot, route, first@, second@, mc as int));
    }
    while head < queue.len()
        invariant
            1 <= n1 <= 65536,
            1 <= n2 <= 65536,
            1 <= mc <= 18,
            n1 * n2 <= 0x7fff_ffff,
            first.len() == n1 * mc,
            second.len() == n2 * mc,
            forall|j: int| 0 <= j < first.len() ==> #[trigger] first[j] < n1,
            forall|j: int| 0 <= j < second.len() ==> #[trigger] second[j] < n2,
            dist.len() == n1 * n2,
            seen.len() == n1 * n2,
            queue.len() == count_true(seen@),
            head <= queue.len(),
            exploring_pairs(
                dist@,
                seen@,
                queue@,
                slot,
                first@,
                n1 as int,
                second@,
                n2 as int,
                mc as int,
                head as int,
                0,
            ),
            routed(dist@, seen@, queue@, slot, route, first@, second@, mc as int),
        decreases n1 * n2 - head,
    {
        proof {
            lemma_count_true_bound(seen@);
        }
        let (a, b): (u16, u16) = queue[head];
        proof {
            assert(queue@[head as int].0 < n1 && queue@[head as int].1 < n2);
            lemma_flat_index(a as int, n1 as int, b as int, n2 as int);
            assert(seen@[flat(queue@[head as int], n2 as int)]);
        }
        let here: u8 = dist[a as usize * n2 + b as usize];
        let step: u8 = if here < 254 {
            here + 1
        } else {
            254
        };
        let mut m: usize = 0;
        while m < mc
            invariant
                1 <= n1 <= 65536,
                1 <= n2 <= 65536,
                1 <= mc <= 18,
                n1 * n2 <= 0x7fff_ffff,
                first.len() == n1 * mc,
                second.len() == n2 * mc,
                forall|j: int| 0 <= j < first.len() ==> #[trigger] first[j] < n1,
                forall|j: int| 0 <= j < second.len() ==> #[trigger] second[j] < n2,
                dist.len() == n1 * n2,
                seen.len() == n1 * n2,
                queue.len() == count_true(seen@),
                head < queue.len(),
                (a, b) == queue@[head as int],
                a < n1,
                b < n2,
                here == dist@[a * n2 + b],
                here != UNREACHED,
                step == (if here < 254 {
                    here + 1
                } else {
                    254int
                }),
                m <= mc,
                exploring_pairs(
                    dist@,
                    seen@,
                    queue@,
                    slot,
                    first@,
                    n1 as int,
                    second@,
                    n2 as int,
                    mc as int,
                    head as int,
                    m as int,
                ),
                routed(dist@, seen@, queue@, slot, route, first@, second@, mc as int),
            decreases mc - m,
        {
            proof {
                lemma_flat_index(a as int, n1 as int, m as int, mc as int);
                lemma_flat_index(b as int, n2 as int, m as int, mc as int);
            }
            let a2: u16 = first[a as usize * mc + m];
            let b2: u16 = second[b as usize * mc + m];
            proof {
                lemma_flat_index(a2 as int, n1 as int, b2 as int, n2 as int);
            }
            let at: usize = a2 as usize * n2 + b2 as usize;
            let ghost old_dist = dist@;
            let ghost old_seen = seen@;
            let ghost old_queue = queue@;
            let ghost old_slot = slot;
            let ghost old_route = route;
            let ghost w = n2 as int;
            let ghost root = a * n2 + b;
            proof {
                assert(old_slot[root] == head);
                if old_seen[at as int] {
                    let q = old_slot[at as int];
                    assert(flat(old_queue[q], w) == at);
                    assert(old_dist[flat(old_queue[q], w)] <= old_dist[flat(
                        old_queue[head as int],
                        w,
                    )] + 1);
                }
            }
            if !seen[at] {
                proof {
                    lemma_count_true_set(seen@, at as int);
                    lemma_count_true_bound(seen@.update(at as int, true));
                    slot = slot.update(at as int, queue.len() as int);
                    route = route.update(at as int, route[root].push(m as int));
                }
                seen[at] = true;
                dist[at] = step;
                queue.push((a2, b2));
            }
            proof {
                let fresh = !old_seen[at as int];
                assert(fresh ==> at != 0);
                assert(dist@[at as int] <= here + 1);
                assert(dist@[at as int] != UNREACHED);
                assert forall|x: int| 0 <= x < seen@.len() implies (#[trigger] seen@[x]
                    <==> dist@[x] != UNREACHED) by {
                    if x != at {
                        assert(old_seen[x] <==> old_dist[x] != UNREACHED);
                    }
                }
                assert forall|x: int| 0 <= x < seen@.len() && #[trigger] seen@[x] implies 0
                    <= slot[x] < queue@.len() && flat(queue@[slot[x]], w) == x by {
                    if x == at && fresh {
                    } else {
                        assert(old_seen[x]);
                        assert(queue@[old_slot[x]] == old_queue[old_slot[x]]);
                    }
                }
                assert forall|q: int| 0 <= q < queue@.len() implies (#[trigger] queue@[q]).0 < n1
                    && queue@[q].1 < n2 && 0 <= flat(queue@[q], w) < seen@.len() && seen@[flat(
                    queue@[q],
                    w,
                )] && slot[flat(queue@[q], w)] == q by {
                    if q < old_queue.len() {
                        assert(queue@[q] == old_queue[q]);
                        assert(old_seen[flat(old_queue[q], w)]);
                    } else {
                        assert(queue@[q] == (a2, b2));
                        assert(flat(queue@[q], w) == at);
                    }
                }
                assert forall|q: int| 0 <= q < queue@.len() implies dist@[flat(
                    #[trigger] queue@[q],
                    w,
                )] <= dist@[flat(queue@[head as int], w)] + 1 by {
                    if q < old_queue.len() {
                        assert(queue@[q] == old_queue[q]);
                        assert(old_seen[flat(old_queue[q], w)]);
                        assert(old_dist[flat(old_queue[q], w)] <= old_dist[flat(
                            old_queue[head as int],
                            w,
                        )] + 1);
                    }
                }
                assert forall|q1: int, q2: int| 0 <= q1 <= q2 < queue@.len() implies dist@[flat(
                    #[trigger] queue@[q1],
                    w,
                )] <= dist@[flat(#[trigger] queue@[q2], w)] by {
                    if q2 < old_queue.len() {
                        assert(queue@[q1] == old_queue[q1]);
                        assert(queue@[q2] == old_queue[q2]);
                        assert(old_seen[flat(old_queue[q1], w)]);
                        assert(old_seen[flat(old_queue[q2], w)]);
                        assert(old_dist[flat(old_queue[q1], w)] <= old_dist[flat(
                            old_queue[q2],
                            w,
                        )]);
                    } else if q1 < old_queue.len() {
                        assert(queue@[q1] == old_queue[q1]);
                        assert(old_seen[flat(old_queue[q1], w)]);
                        assert(old_dist[flat(old_queue[q1], w)] <= old_dist[flat(
                            old_queue[head as int],
                            w,
                        )] + 1);
                        assert(old_dist[flat(old_queue[q1], w)] != UNREACHED);
                    }
                }
                assert forall|x: int, y: int, i: int|
                    #![trigger pair_entry(
                        dist@,
                        w,
                        entry(first@, mc as int, x, i),
                        entry(second@, mc as int, y, i),
                    )]
                    0 <= x < n1 && 0 <= y < n2 && 0 <= i < mc && seen@[x * w + y] && (slot[x * w
                        + y] < head || (slot[x * w + y] == head && i < m + 1)) implies {
                    &&& pair_entry(
                        dist@,
                        w,
                        entry(first@, mc as int, x, i),
                        entry(second@, mc as int, y, i),
                    ) != UNREACHED
                    &&& pair_entry(
                        dist@,
                        w,
                        entry(first@, mc as int, x, i),
                        entry(second@, mc as int, y, i),
                    ) <= pair_entry(dist@, w, x, y) + 1
                } by {
                    lemma_flat_index(x, n1 as int, y, w);
                    lemma_flat_index(x, n1 as int, i, mc as int);
                    lemma_flat_index(y, w, i, mc as int);
                    let x2 = entry(first@, mc as int, x, i);
                    let y2 = entry(second@, mc as int, y, i);
                    lemma_flat_index(x2, n1 as int, y2, w);
                    if x * w + y == root {
                        lemma_flat_index_unique(x, y, a as int, b as int, w);
                    }
                    if fresh && x * w + y == at {
                        assert(slot[at as int] == old_queue.len());
                    } else {
                        assert(old_seen[x * w + y]);
                        assert(slot[x * w + y] == old_slot[x * w + y]);
                        assert(pair_entry(dist@, w, x, y) == pair_entry(old_dist, w, x, y));
                        if x == a && y == b && i == m {
                        } else {
                            assert(pair_entry(old_dist, w, x2, y2) != UNREACHED);
                            assert(old_seen[x2 * w + y2]);
                            assert(pair_entry(dist@, w, x2, y2) == pair_entry(old_dist, w, x2, y2));
                        }
                    }
                }
                assert forall|x: int| 0 <= x < seen@.len() && #[trigger] seen@[x] implies {
                    &&& is_walk(route[x], mc as int)
                    &&& walk_end(first@, second@, mc as int, route[x]) == (
                        queue@[slot[x]].0 as int,
                        queue@[slot[x]].1 as int,
                    )
                    &&& dist@[x] < 254 ==> route[x].len() == dist@[x]
                } by {
                    if x == at && fresh {
                        let way = old_route[root].push(m as int);
                        assert(old_seen[root]);
                        assert(way.drop_last() =~= old_route[root]);
                        assert(way.last() == m);
                        assert(old_queue[old_slot[root]] == (a, b));
                    } else {
                        assert(old_seen[x]);
                        assert(queue@[old_slot[x]] == old_queue[old_slot[x]]);
                    }
                }
                assert(exploring_pairs(
                    dist@,
                    seen@,
                    queue@,
                    slot,
                    first@,
                    n1 as int,
                    second@,
                    n2 as int,
                    mc as int,
                    head as int,
                    m as int + 1,
                ));
            }
            m += 1;
        }
        proof {
            let w = n2 as int;
            if head + 1 < queue@.len() {
                assert forall|q: int| 0 <= q < queue@.len() implies dist@[flat(
                    #[trigger] queue@[q],
                    w,
                )] <= dist@[flat(queue@[head as int + 1], w)] + 1 by {
                    assert(dist@[flat(queue@[q], w)] <= dist@[flat(queue@[head as int], w)] + 1);
                    assert(dist@[flat(queue@[head as int], w)] <= dist@[flat(
                        queue@[head as int + 1],
                        w,
                    )]);
                }
            }
            assert(exploring_pairs(
                dist@,
                seen@,
                queue@,
                slot,
                first@,
                n1 as int,
                second@,
                n2 as int,
                mc as int,
                head as int + 1,
                0,
            ));
        }
        head += 1;
    }
    proof {
        let w = n2 as int;
        assert(pair_entry(dist@, w, 0, 0) == 0);
        assert forall|x: int, y: int, i: int|
            #![trigger pair_entry(
                dist@,
                w,
                entry(first@, mc as int, x, i),
                entry(second@, mc as int, y, i),
            )]
            0 <= x < n1 && 0 <= y < n2 && 0 <= i < mc && pair_entry(dist@, w, x, y)
                != UNREACHED implies {
            &&& pair_entry(
                dist@,
                w,
                entry(first@, mc as int, x, i),
                entry(second@, mc as int, y, i),
            ) != UNREACHED
            &&& pair_entry(
                dist@,
                w,
                entry(first@, mc as int, x, i),
                entry(second@, mc as int, y, i),
            ) <= pair_entry(dist@, w, x, y) + 1
        } by {
            lemma_flat_index(x, n1 as int, y, w);
            assert(seen@[x * w + y]);
        }
        assert forall|x: int, y: int|
            0 <= x < n1 && 0 <= y < n2 && #[trigger] pair_entry(dist@, w, x, y)
                != UNREACHED implies exists|ms: Seq<int>|
            {
                &&& is_walk(ms, mc as int)
                &&& #[trigger] walk_end(first@, second@, mc as int, ms) == (x, y)
                &&& pair_entry(dist@, w, x, y) < 254 ==> ms.len() == pair_entry(dist@, w, x, y)
            } by {
            lemma_flat_index(x, n1 as int, y, w);
            let at = x * w + y;
            assert(seen@[at]);
            let p = queue@[slot[at]];
            assert(flat(p, w) == at);
            lemma_flat_index_unique(p.0 as int, p.1 as int, x, y, w);
            assert(walk_end(first@, second@, mc as int, route[at]) == (x, y));
        }
    }
    dist
}

/// The pairs of coordinates for which a distance table is kept.
#[derive(Clone, Copy, Debug, PartialEq, Eq, Structural)]
pub enum Pruning {
    /// Corner twists with the slice places.
    CoE,
    /// Edge flips with the slice places.
    EoE,
    /// Corner order with the order of the slice edges.
    CpE,
    /// Order of the other edges with the order of the slice edges.
    EpE,
}

impl Pruning {
    /// The coordinate that selects the row.
    pub open spec fn first(self) -> Coordinate {
        match self {
            Pruning::CoE => Coordinate::Co,
            Pruning::EoE => Coordinate::Eo,
            Pruning::CpE => Coordinate::Cp,
            Pruning::EpE => Coordinate::UdEp,
        }
    }

    /// The coordinate that selects the place in the row.
    pub open spec fn second(self) -> Coordinate {
        match self {
            Pruning::CoE => Coordinate::ECombo,
            Pruning::EoE => Coordinate::ECombo,
            Pruning::CpE => Coordinate::EEp,
            Pruning::EpE => Coordinate::EEp,
        }
    }
}

/// Whether every value of every coordinate is that of a cube that moves of
/// the coordinate's phase make of the solved cube.
pub open spec fn every_value_reached() -> bool {
    forall|kind: Coordinate| #[trigger] kind.all_reached()
}

/// Move tables that are right on every cube made of the solved cube are
/// right on every cube of the class, where every value is reached.
pub proof fn lemma_sound_right(moves: MoveTable)
    requires
        moves.sound(),
        every_value_reached(),
    ensures
        moves.right(),
{
    assert forall|kind: Coordinate| kind.table_right(#[trigger] moves.entries(kind)) by {
        assert(kind.all_reached());
        lemma_all_reached_table_right(kind, moves.entries(kind));
    }
}

/// For each coordinate, the value that each move of its phase leads to.
pub struct MoveTable {
    co: Vec<u16>,
    eo: Vec<u16>,
    e_combo: Vec<u16>,
    cp: Vec<u16>,
    ep: Vec<u16>,
    e_ep: Vec<u16>,
    complete: bool,
}

impl MoveTable {
    /// The table of the coordinate `kind`, row after row.
    pub closed spec fn entries(&self, kind: Coordinate) -> Seq<u16> {
        match kind {
            Coordinate::Co => self.co@,
            Coordinate::Eo => self.eo@,
            Coordinate::ECombo => self.e_combo@,
            Coordinate::Cp => self.cp@,
            Coordinate::UdEp => self.ep@,
            Coordinate::EEp => self.e_ep@,
        }
    }

    /// The value of `kind` that the table gives for value `c` after the move
    /// at place `m` of the phase's order.
    pub open spec fn next(&self, kind: Coordinate, c: int, m: int) -> int {
        self.entries(kind)[c * kind.spec_move_count() + m] as int
    }

    /// Every table has a row for each value, and every entry is a value.
    pub open spec fn wf(&self) -> bool {
        forall|kind: Coordinate|
            {
                &&& (#[trigger] self.entries(kind)).len() == kind.spec_count()
                    * kind.spec_move_count()
                &&& forall|j: int|
                    0 <= j < self.entries(kind).len() ==> #[trigger] self.entries(kind)[j]
                        < kind.spec_count()
            }
    }

    /// Every table is right on every cube of its coordinate's class.
    pub open spec fn right(&self) -> bool {
        forall|kind: Coordinate| kind.table_right(#[trigger] self.entries(kind))
    }

    /// Every table is right on every cube that moves of its coordinate's
    /// phase make of the solved cube.
    pub open spec fn sound(&self) -> bool {
        forall|kind: Coordinate| kind.table_right_from_solved(#[trigger] self.entries(kind))
    }

    #[verifier::type_invariant]
    spec fn inv(&self) -> bool {
        self.wf() && self.sound() && self.complete == every_value_reached()
    }

    /// Whether every value of every coordinate is that of a cube that moves
    /// of the coordinate's phase make of the solved cube, as the exploration
    /// found it. Where it is, every table is right on every cube of its
    /// coordinate's class.
    pub fn is_complete(&self) -> (r: bool)
        ensures
            r == every_value_reached(),
            r ==> self.right(),
            self.wf(),
            self.sound(),
    {
        proof {
            use_type_invariant(self);
            if self.complete {
                lemma_sound_right(*self);
            }
        }
        self.complete
    }

    /// The tables, built by exploring forward from the solved cube: they
    /// are right on every cube that moves of the phase make of the solved
    /// cube, and on every cube of the class where every value is reached.
    pub fn new() -> (r: MoveTable)
        ensures
            r.wf(),
            r.sound(),
            every_value_reached() ==> r.right(),
    {
        let cubes = move_cubes();
        let (co, all_co) = build_move_table(Coordinate::Co, &cubes);
        let (eo, all_eo) = build_move_table(Coordinate::Eo, &cubes);
        let (e_combo, all_e_combo) = build_move_table(Coordinate::ECombo, &cubes);
        let (cp, all_cp) = build_move_table(Coordinate::Cp, &cubes);
        let (ep, all_ep) = build_move_table(Coordinate::UdEp, &cubes);
        let (e_ep, all_e_ep) = build_move_table(Coordinate::EEp, &cubes);
        let complete: bool = all_co && all_eo && all_e_combo && all_cp && all_ep && all_e_ep;
        proof {
            if complete {
                assert forall|kind: Coordinate| #[trigger] kind.all_reached() by {
                    match kind {
                        Coordinate::Co => {},
                        Coordinate::Eo => {},
                        Coordinate::ECombo => {},
                        Coordinate::Cp => {},
                        Coordinate::UdEp => {},
                        Coordinate::EEp => {},
                    }
                }
            } else {
                assert(!Coordinate::Co.all_reached() || !Coordinate::Eo.all_reached()
                    || !Coordinate::ECombo.all_reached() || !Coordinate::Cp.all_reached()
                    || !Coordinate::UdEp.all_reached() || !Coordinate::EEp.all_reached());
            }
        }
        let r = MoveTable { co, eo, e_combo, cp, ep, e_ep, complete };
        proof {
            assert forall|kind: Coordinate|
                kind.table_right_from_solved(#[trigger] r.entries(kind)) by {
                match kind {
                    Coordinate::Co => {},
                    Coordinate::Eo => {},
                    Coordinate::ECombo => {},
                    Coordinate::Cp => {},
                    Coordinate::UdEp => {},
                    Coordinate::EEp => {},
                }
            }
            if every_value_reached() {
                lemma_sound_right(r);
            }
        }
        r
    }

    /// The value of `kind` that the table gives for value `c` after the move
    /// at place `m` of the phase's order.
    pub fn lookup(&self, kind: Coordinate, c: usize, m: usize) -> (r: usize)
        requires
            c < kind.spec_count(),
            m < kind.spec_move_count(),
        ensures
            r == self.next(kind, c as int, m as int),
            r < kind.spec_count(),
            self.wf(),
            self.sound(),
    {
        proof {
            use_type_invariant(self);
            assert(self.entries(kind).len() == kind.spec_count() * kind.spec_move_count());
            lemma_flat_index(c as int, kind.spec_count(), m as int, kind.spec_move_count());
        }
        let mc: usize = kind.move_count();
        let v: u16 = match kind {
            Coordinate::Co => self.co[c * mc + m],
            Coordinate::Eo => self.eo[c * mc + m],
            Coordinate::ECombo => self.e_combo[c * mc + m],
            Coordinate::Cp => self.cp[c * mc + m],
            Coordinate::UdEp => self.ep[c * mc + m],
            Coordinate::EEp => self.e_ep[c * mc + m],
        };
        v as usize
    }
}

/// For pairs of coordinates, the number of moves after which the
/// exploration from the solved pair first reached the pair.
pub struct PruningTable {
    co_e: Vec<u8>,
    eo_e: Vec<u8>,
    cp_e: Vec<u8>,
    ep_e: Vec<u8>,
}

impl PruningTable {
    /// The table of the pair `which`, row after row.
    pub closed spec fn entries(&self, which: Pruning) -> Seq<u8> {
        match which {
            Pruning::CoE => self.co_e@,
            Pruning::EoE => self.eo_e@,
            Pruning::CpE => self.cp_e@,
            Pruning::EpE => self.ep_e@,
        }
    }

    /// The number of moves that the table gives for the pair (`a`, `b`).
    pub open spec fn distance(&self, which: Pruning, a: int, b: int) -> int {
        self.entries(which)[a * which.second().spec_count() + b] as int
    }

    /// Every table has an entry for each pair.
    pub open spec fn wf(&self) -> bool {
        forall|which: Pruning|
            (#[trigger] self.entries(which)).len() == which.first().spec_count()
                * which.second().spec_count()
    }

    /// Every table is steady along the move tables `moves`, and every
    /// distance in it is that of a way: the pair (0, 0) has distance 0, a
    /// move raises the distance of a pair that was reached by at most one,
    /// and to each pair that was reached as many moves lead as its distance
    /// says.
    pub open spec fn follows(&self, moves: MoveTable) -> bool {
        forall|which: Pruning|
            steady(
                #[trigger] self.entries(which),
                moves.entries(which.first()),
                which.first().spec_count(),
                moves.entries(which.second()),
                which.second().spec_count(),
                which.first().spec_move_count(),
            ) && traced(
                self.entries(which),
                moves.entries(which.first()),
                which.first().spec_count(),
                moves.entries(which.second()),
                which.second().spec_count(),
                which.first().spec_move_count(),
            )
    }

    #[verifier::type_invariant]
    spec fn inv(&self) -> bool {
        self.wf()
    }

    /// The tables, built by exploring the pairs forward from (0, 0) along
    /// the move tables `moves`.
    pub fn new(moves: &MoveTable) -> (r: PruningTable)
        ensures
            r.wf(),
            r.follows(*moves),
    {
        proof {
            use_type_invariant(moves);
            assert(moves.entries(Coordinate::Co).len() == 2187 * 18);
            assert(moves.entries(Coordinate::Eo).len() == 2048 * 18);
            assert(moves.entries(Coordinate::ECombo).len() == 495 * 18);
            assert(moves.entries(Coordinate::Cp).len() == 40320 * 10);
            assert(moves.entries(Coordinate::UdEp).len() == 40320 * 10);
            assert(moves.entries(Coordinate::EEp).len() == 24 * 10);
        }
        let co_e = build_pruning_table(&moves.co, 2187, &moves.e_combo, 495, 18);
        let eo_e = build_pruning_table(&moves.eo, 2048, &moves.e_combo, 495, 18);
        let cp_e = build_pruning_table(&moves.cp, 40320, &moves.e_ep, 24, 10);
        let ep_e = build_pruning_table(&moves.ep, 40320, &moves.e_ep, 24, 10);
        let r = PruningTable { co_e, eo_e, cp_e, ep_e };
        proof {
            assert forall|which: Pruning|
                steady(
                    #[trigger] r.entries(which),
                    moves.entries(which.first()),
                    which.first().spec_count(),
                    moves.entries(which.second()),
                    which.second().spec_count(),
                    which.first().spec_move_count(),
                ) && traced(
                    r.entries(which),
                    moves.entries(which.first()),
                    which.first().spec_count(),
                    moves.entries(which.second()),
                    which.second().spec_count(),
                    which.first().spec_move_count(),
                ) by {
                match which {
                    Pruning::CoE => {},
                    Pruning::EoE => {},
                    Pruning::CpE => {},
                    Pruning::EpE => {},
                }
            }
        }
        r
    }

    /// The number of moves that the table gives for the pair (`a`, `b`).
    pub fn lookup(&self, which: Pruning, a: usize, b: usize) -> (r: u8)
        requires
            a < which.first().spec_count(),
            b < which.second().spec_count(),
        ensures
            r == self.distance(which, a as int, b as int),
    {
        proof {
            use_type_invariant(self);
            assert(self.entries(which).len() == which.first().spec_count()
                * which.second().spec_count());
            lemma_flat_index(
                a as int,
                which.first().spec_count(),
                b as int,
                which.second().spec_count(),
            );
        }
        match which {
            Pruning::CoE => self.co_e[a * 495 + b],
            Pruning::EoE => self.eo_e[a * 495 + b],
            Pruning::CpE => self.cp_e[a * 24 + b],
            Pruning::EpE => self.ep_e[a * 24 + b],
        }
    }
}

/// Both sets of tables.
pub struct DataTable {
    pub(crate) move_table: MoveTable,
    pub(crate) pruning_table: PruningTable,
}

impl DataTable {
    /// The move tables.
    pub closed spec fn moves(&self) -> MoveTable {
        self.move_table
    }

    /// The distance tables.
    pub closed spec fn distances(&self) -> PruningTable {
        self.pruning_table
    }

    #[verifier::type_invariant]
    spec fn inv(&self) -> bool {
        self.pruning_table.follows(self.move_table)
    }

    /// The move tables.
    pub fn move_table(&self) -> (r: &MoveTable)
        ensures
            *r == self.moves(),
            r.wf(),
            r.sound(),
    {
        proof {
            use_type_invariant(&self.move_table);
        }
        &self.move_table
    }

    /// The distance tables.
    pub fn pruning_table(&self) -> (r: &PruningTable)
        ensures
            *r == self.distances(),
            r.wf(),
            r.follows(self.moves()),
    {
        proof {
            use_type_invariant(self);
            use_type_invariant(&self.pruning_table);
        }
        &self.pruning_table
    }

    /// Whether every value of every coordinate is that of a cube that moves
    /// of the coordinate's phase make of the solved cube. Where it is, the
    /// move tables are right on every cube of the coordinate's class.
    pub fn is_complete(&self) -> (r: bool)
        ensures
            r == every_value_reached(),
            r ==> self.moves().right(),
            self.moves().sound(),
            self.distances().follows(self.moves()),
    {
        proof {
            use_type_invariant(self);
        }
        self.move_table.is_complete()
    }
}

impl Default for DataTable {
    /// Builds both sets of tables.
    fn default() -> (r: DataTable)
        ensures
            r.moves().wf(),
            r.distances().wf(),
            r.moves().sound(),
            r.distances().follows(r.moves()),
            every_value_reached() ==> r.moves().right(),
    {
        let move_table = MoveTable::new();
        let pruning_table = PruningTable::new(&move_table);
        proof {
            use_type_invariant(&move_table);
        }
        DataTable { move_table, pruning_table }
    }
}

/// A distance below 254 in a table that follows the move tables is the
/// least number of moves that lead from the pair (0, 0) to its pair: so
/// many moves lead there, and no fewer do.
pub proof fn lemma_distance_is_least(
    moves: MoveTable,
    distances: PruningTable,
    which: Pruning,
    a: int,
    b: int,
    ms: Seq<int>,
)
    requires
        moves.wf(),
        distances.follows(moves),
        0 <= a < which.first().spec_count(),
        0 <= b < which.second().spec_count(),
        distances.distance(which, a, b) < 254,
        is_walk(ms, which.first().spec_move_count()),
        walk_end(
            moves.entries(which.first()),
            moves.entries(which.second()),
            which.first().spec_move_count(),
            ms,
        ) == (a, b),
    ensures
        distances.distance(which, a, b) <= ms.len(),
        exists|way: Seq<int>|
            {
                &&& is_walk(way, which.first().spec_move_count())
                &&& #[trigger] walk_end(
                    moves.entries(which.first()),
                    moves.entries(which.second()),
                    which.first().spec_move_count(),
                    way,
                ) == (a, b)
                &&& way.len() == distances.distance(which, a, b)
            },
{
    let k1 = which.first();
    let k2 = which.second();
    let dist = distances.entries(which);
    let mc = k1.spec_move_count();
    assert(k2.spec_move_count() == mc);
    let t1 = moves.entries(k1);
    let t2 = moves.entries(k2);
    assert(steady(dist, t1, k1.spec_count(), t2, k2.spec_count(), mc));
    assert(traced(dist, t1, k1.spec_count(), t2, k2.spec_count(), mc));
    assert(moves.entries(k1).len() == k1.spec_count() * mc);
    assert(moves.entries(k2).len() == k2.spec_count() * mc);
    lemma_walk_distance(
        dist,
        moves.entries(k1),
        k1.spec_count(),
        moves.entries(k2),
        k2.spec_count(),
        mc,
        ms,
    );
    assert(pair_entry(dist, k2.spec_count(), a, b) != UNREACHED);
}

} // verus!
