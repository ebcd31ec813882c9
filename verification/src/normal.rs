//! Why the search loses nothing by the order in which it tries the moves:
//! every list of moves does the same as a list, no longer, in which each
//! move may follow the one before it. So the search returns a solution
//! wherever no more moves than its budget solve the cube; for a cube that
//! moves of the second phase make of the solved cube this holds of the
//! tables as they are built, whether or not every value was reached.

use vstd::prelude::*;
use crate::admissible::lemma_subgroup_coordinates;
use crate::consistency::lemma_solved_consistent;
use crate::cubie::{
    lemma_apply_all_wf, lemma_compose_assoc, lemma_compose_solved, lemma_compose_wf,
    lemma_move_then_inverse, lemma_of_move_wf, lemma_quarter_turn_order, lemma_quarter_turn_wf,
    lemma_solved_compose, CubeState,
};
use crate::least::{lemma_phase2_depths_least, lemma_solve_least, tail_first};
use crate::moves::{move_at, spec_is_move_available, Move};
use crate::parity::lemma_scramble_solvable;
use crate::solver::{last_move, may_follow, phase2_limit, solve_spec};
use crate::soundness::{
    all_phase2, canonical, is_candidate, lemma_apply_all_concat, lemma_phase2_depths_sound,
};
use crate::tables::{lemma_made_class, Coordinate, MoveTable, PruningTable};

verus! {

/// Each move of the list may follow the one before it.
pub open spec fn in_order(w: Seq<Move>) -> bool {
    forall|i: int| 0 <= i < w.len() - 1 ==> spec_is_move_available(#[trigger] w[i], w[i + 1])
}

/// The search tries a list of moves one after another exactly where the
/// first may follow what came before and each other move the one before it.
pub proof fn lemma_canonical_in_order(prev: Option<Move>, w: Seq<Move>)
    ensures
        canonical(prev, w) <==> (w.len() > 0 ==> may_follow(prev, w[0])) && in_order(w),
    decreases w.len(),
{
    if w.len() > 0 {
        let rest = w.drop_first();
        lemma_canonical_in_order(Some(w[0]), rest);
        if in_order(w) {
            assert forall|i: int| 0 <= i < rest.len() - 1 implies spec_is_move_available(
                #[trigger] rest[i],
                rest[i + 1],
            ) by {
                assert(spec_is_move_available(w[i + 1], w[i + 2]));
            }
            if rest.len() > 0 {
                assert(spec_is_move_available(w[0], w[1]));
            }
        }
        if (rest.len() > 0 ==> may_follow(Some(w[0]), rest[0])) && in_order(rest) {
            assert forall|i: int| 0 <= i < w.len() - 1 implies spec_is_move_available(
                #[trigger] w[i],
                w[i + 1],
            ) by {
                if i > 0 {
                    assert(spec_is_move_available(rest[i - 1], rest[i]));
                }
            }
        }
    }
}

/// The turn of face `f` by `t` quarter turns, `t` being 1, 2 or 3.
pub open spec fn turn_of(f: int, t: int) -> Move {
    move_at(3 * f + t - 1)
}

/// The list `w`, which ends with a turn of the face of `m`, with that turn
/// and `m` made one: both left out where they undo each other.
pub open spec fn merged(w: Seq<Move>, m: Move) -> Seq<Move> {
    let t = (w.last().spec_turns() + m.spec_turns()) % 4;
    if t == 0 {
        w.drop_last()
    } else {
        w.drop_last().push(turn_of(m.spec_face(), t))
    }
}

/// Whether `m` turns the face opposite to that of `y` and the search turns
/// the face of `m` first.
pub open spec fn goes_before(m: Move, y: Move) -> bool {
    m.spec_face() / 2 == y.spec_face() / 2 && m.spec_face() < y.spec_face()
}

/// The list `w`, in which each move may follow the one before it, with the
/// move `m` made after it, again as such a list: `m` is made one with a turn
/// of its face at the end, or behind a turn of the opposite face that it
/// must go before, and else put at the end.
pub open spec fn appended(w: Seq<Move>, m: Move) -> Seq<Move> {
    if w.len() == 0 {
        seq![m]
    } else if w.last().spec_face() == m.spec_face() {
        merged(w, m)
    } else if goes_before(m, w.last()) {
        let head = w.drop_last();
        if head.len() > 0 && head.last().spec_face() == m.spec_face() {
            merged(head, m).push(w.last())
        } else {
            head.push(m).push(w.last())
        }
    } else {
        w.push(m)
    }
}

/// The list `ms` as a list in which each move may follow the one before
/// it.
pub open spec fn normalized(ms: Seq<Move>) -> Seq<Move>
    decreases ms.len(),
{
    if ms.len() == 0 {
        Seq::empty()
    } else {
        appended(normalized(ms.drop_last()), ms.last())
    }
}

/// The cube that the moves `ms` make of the solved cube.
pub open spec fn product(ms: Seq<Move>) -> CubeState {
    CubeState::solved().apply_all(ms)
}

/// Moves made on a cube compose the cube with what they make of the solved
/// cube.
pub proof fn lemma_apply_all_product(s: CubeState, ms: Seq<Move>)
    requires
        s.wf(),
    ensures
        s.apply_all(ms) == s.compose(product(ms)),
        product(ms).wf(),
    decreases ms.len(),
{
    let solved = CubeState::solved();
    lemma_apply_all_wf(solved, ms);
    if ms.len() == 0 {
        lemma_compose_solved(s);
    } else {
        lemma_apply_all_product(s, ms.drop_last());
        lemma_of_move_wf(ms.last());
        lemma_compose_assoc(s, product(ms.drop_last()), CubeState::of_move(ms.last()));
    }
}

/// What a list with one more move makes of the solved cube.
pub proof fn lemma_product_push(w: Seq<Move>, m: Move)
    ensures
        product(w.push(m)) == product(w).compose(CubeState::of_move(m)),
        product(w).wf(),
{
    lemma_apply_all_wf(CubeState::solved(), w);
    assert(w.push(m).drop_last() =~= w);
}

/// Two turns of one face make the turn of that face by the sum of their
/// quarter turns, or none.
#[verifier::rlimit(40)]
pub proof fn lemma_same_face_compose(a: Move, b: Move)
    requires
        a.spec_face() == b.spec_face(),
    ensures
        ({
            let t = (a.spec_turns() + b.spec_turns()) % 4;
            CubeState::of_move(a).compose(CubeState::of_move(b)) == if t == 0 {
                CubeState::solved()
            } else {
                CubeState::of_move(turn_of(a.spec_face(), t))
            }
        }),
{
    let f = a.spec_face();
    let q = CubeState::quarter_turn(f);
    let q2 = q.compose(q);
    let q3 = q2.compose(q);
    lemma_quarter_turn_wf(f);
    lemma_compose_wf(q, q);
    lemma_compose_wf(q2, q);
    lemma_quarter_turn_order(f);
    lemma_solved_compose(q);
    lemma_compose_assoc(q, q, q);
    lemma_compose_assoc(q, q2, q);
    lemma_compose_assoc(q2, q, q);
    lemma_compose_assoc(q2, q2, q);
    lemma_compose_assoc(q3, q, q);
    lemma_compose_assoc(q3, q2, q);
    let t = (a.spec_turns() + b.spec_turns()) % 4;
    if t != 0 {
        assert(turn_of(f, t).spec_face() == f);
        assert(turn_of(f, t).spec_turns() == t);
    }
}

/// Quarter turns of two opposite faces can be made in either order.
#[verifier::rlimit(40)]
pub proof fn lemma_opposite_quarter_turns_commute(f: int)
    requires
        f == 0 || f == 2 || f == 4,
    ensures
        CubeState::quarter_turn(f).compose(CubeState::quarter_turn(f + 1))
            == CubeState::quarter_turn(f + 1).compose(CubeState::quarter_turn(f)),
{
    let a = CubeState::quarter_turn(f).compose(CubeState::quarter_turn(f + 1));
    let b = CubeState::quarter_turn(f + 1).compose(CubeState::quarter_turn(f));
    assert(a.cp =~= b.cp);
    assert(a.co =~= b.co);
    assert(a.ep =~= b.ep);
    assert(a.eo =~= b.eo);
}

/// Where two cubes can be composed in either order, so can the first and
/// the second composed with itself.
pub proof fn lemma_commute_twice(a: CubeState, b: CubeState)
    requires
        a.wf(),
        b.wf(),
        a.compose(b) == b.compose(a),
    ensures
        a.compose(b.compose(b)) == b.compose(b).compose(a),
{
    lemma_compose_assoc(a, b, b);
    lemma_compose_assoc(b, a, b);
    lemma_compose_assoc(b, b, a);
}

/// Turns of two opposite faces can be made in either order.
#[verifier::rlimit(40)]
pub proof fn lemma_opposite_commute(a: Move, b: Move)
    requires
        a.spec_face() / 2 == b.spec_face() / 2,
        a.spec_face() != b.spec_face(),
    ensures
        CubeState::of_move(a).compose(CubeState::of_move(b)) == CubeState::of_move(b).compose(
            CubeState::of_move(a),
        ),
{
    let fa = a.spec_face();
    let fb = b.spec_face();
    let p = CubeState::quarter_turn(fa);
    let q = CubeState::quarter_turn(fb);
    lemma_quarter_turn_wf(fa);
    lemma_quarter_turn_wf(fb);
    if fa < fb {
        lemma_opposite_quarter_turns_commute(fa);
    } else {
        lemma_opposite_quarter_turns_commute(fb);
    }
    let p2 = p.compose(p);
    let p3 = p2.compose(p);
    let q2 = q.compose(q);
    let q3 = q2.compose(q);
    lemma_compose_wf(p, p);
    lemma_compose_wf(p2, p);
    lemma_compose_wf(q, q);
    lemma_compose_wf(q2, q);
    // p with the powers of q
    lemma_commute_twice(p, q);
    lemma_compose_assoc(p, q2, q);
    lemma_compose_assoc(q2, p, q);
    lemma_compose_assoc(q2, q, p);
    assert(p.compose(q3) == q3.compose(p));
    // the powers of q with p composed with itself
    lemma_commute_twice(q, p);
    lemma_commute_twice(q2, p);
    lemma_commute_twice(q3, p);
    // and with p three times
    lemma_compose_assoc(q, p2, p);
    lemma_compose_assoc(p2, q, p);
    lemma_compose_assoc(p2, p, q);
    lemma_compose_assoc(q2, p2, p);
    lemma_compose_assoc(p2, q2, p);
    lemma_compose_assoc(p2, p, q2);
    lemma_compose_assoc(q3, p2, p);
    lemma_compose_assoc(p2, q3, p);
    lemma_compose_assoc(p2, p, q3);
}

/// A list in order with a move after it is, as `appended` arranges it, in
/// order again, no longer than both together, and makes the same of the
/// solved cube; and it holds only moves of the second phase where the list
/// and the move do.
#[verifier::rlimit(40)]
pub proof fn lemma_appended(w: Seq<Move>, m: Move)
    requires
        in_order(w),
    ensures
        in_order(appended(w, m)),
        appended(w, m).len() <= w.len() + 1,
        product(appended(w, m)) == product(w).compose(CubeState::of_move(m)),
        all_phase2(w) && m.spec_is_phase2() ==> all_phase2(appended(w, m)),
{
    let r = appended(w, m);
    let tm = CubeState::of_move(m);
    lemma_of_move_wf(m);
    lemma_product_push(w, m);
    if w.len() == 0 {
        assert(r =~= w.push(m));
    } else {
        let y = w.last();
        let ty = CubeState::of_move(y);
        let head = w.drop_last();
        lemma_of_move_wf(y);
        assert(w =~= head.push(y));
        lemma_product_push(head, y);
        if y.spec_face() == m.spec_face() {
            lemma_merged(w, m);
        } else if goes_before(m, y) {
            lemma_opposite_commute(y, m);
            lemma_compose_assoc(product(head), ty, tm);
            lemma_compose_assoc(product(head), tm, ty);
            if head.len() > 0 {
                assert(spec_is_move_available(w[w.len() - 2], w[w.len() - 1]));
                assert(head.last() == w[w.len() - 2]);
            }
            assert forall|i: int| 0 <= i < head.len() - 1 implies spec_is_move_available(
                #[trigger] head[i],
                head[i + 1],
            ) by {
                assert(spec_is_move_available(w[i], w[i + 1]));
            }
            if head.len() > 0 && head.last().spec_face() == m.spec_face() {
                let front = merged(head, m);
                lemma_merged(head, m);
                lemma_product_push(front, y);
                assert forall|i: int| 0 <= i < r.len() - 1 implies spec_is_move_available(
                    #[trigger] r[i],
                    r[i + 1],
                ) by {
                    if i < front.len() - 1 {
                        assert(spec_is_move_available(front[i], front[i + 1]));
                    } else if front.len() == head.len() {
                        assert(front.last().spec_face() == m.spec_face());
                    } else {
                        assert(front =~= head.drop_last());
                        assert(spec_is_move_available(w[w.len() - 3], w[w.len() - 2]));
                    }
                }
                if all_phase2(w) && m.spec_is_phase2() {
                    assert forall|i: int| 0 <= i < head.len() implies (
                    #[trigger] head[i]).spec_is_phase2() by {
                        assert(w[i].spec_is_phase2());
                    }
                    assert(w[w.len() - 1].spec_is_phase2());
                }
            } else {
                let front = head.push(m);
                lemma_product_push(head, m);
                lemma_product_push(front, y);
                assert forall|i: int| 0 <= i < r.len() - 1 implies spec_is_move_available(
                    #[trigger] r[i],
                    r[i + 1],
                ) by {
                    if i < head.len() - 1 {
                        assert(spec_is_move_available(w[i], w[i + 1]));
                    }
                }
                if all_phase2(w) && m.spec_is_phase2() {
                    assert forall|i: int| 0 <= i < r.len() implies (#[trigger] r[i]).spec_is_phase2(
                    ) by {
                        if i < head.len() {
                            assert(w[i].spec_is_phase2());
                        } else if i == head.len() + 1 {
                            assert(w[w.len() - 1].spec_is_phase2());
                        }
                    }
                }
            }
        } else {
            assert forall|i: int| 0 <= i < r.len() - 1 implies spec_is_move_available(
                #[trigger] r[i],
                r[i + 1],
            ) by {
                if i < w.len() - 1 {
                    assert(spec_is_move_available(w[i], w[i + 1]));
                }
            }
            if all_phase2(w) && m.spec_is_phase2() {
                assert forall|i: int| 0 <= i < r.len() implies (#[trigger] r[i]).spec_is_phase2(
                ) by {
                    if i < w.len() {
                        assert(w[i].spec_is_phase2());
                    }
                }
            }
        }
    }
}

/// A list in order that ends with a turn of the face of `m`, with that turn
/// and `m` made one, is in order, no longer than the list, and makes of the
/// solved cube what the list and then `m` make of it; it ends with a turn of
/// that face or is the list without its last move; and it holds only moves
/// of the second phase where the list and the move do.
pub proof fn lemma_merged(w: Seq<Move>, m: Move)
    requires
        in_order(w),
        w.len() > 0,
        w.last().spec_face() == m.spec_face(),
    ensures
        in_order(merged(w, m)),
        merged(w, m).len() <= w.len(),
        product(merged(w, m)) == product(w).compose(CubeState::of_move(m)),
        merged(w, m) == w.drop_last() || (merged(w, m).len() == w.len() && merged(
            w,
            m,
        ).last().spec_face() == m.spec_face() && merged(w, m).drop_last() == w.drop_last()),
        all_phase2(w) && m.spec_is_phase2() ==> all_phase2(merged(w, m)),
{
    let r = merged(w, m);
    let y = w.last();
    let head = w.drop_last();
    let t = (y.spec_turns() + m.spec_turns()) % 4;
    lemma_of_move_wf(m);
    lemma_of_move_wf(y);
    assert(w =~= head.push(y));
    lemma_product_push(head, y);
    lemma_same_face_compose(y, m);
    lemma_compose_assoc(product(head), CubeState::of_move(y), CubeState::of_move(m));
    lemma_compose_solved(product(head));
    assert forall|i: int| 0 <= i < head.len() - 1 implies spec_is_move_available(
        #[trigger] head[i],
        head[i + 1],
    ) by {
        assert(spec_is_move_available(w[i], w[i + 1]));
    }
    if all_phase2(w) && m.spec_is_phase2() {
        assert forall|i: int| 0 <= i < head.len() implies (#[trigger] head[i]).spec_is_phase2() by {
            assert(w[i].spec_is_phase2());
        }
        assert(w[w.len() - 1].spec_is_phase2());
    }
    if t != 0 {
        let one = turn_of(m.spec_face(), t);
        lemma_product_push(head, one);
        assert(one.spec_face() == y.spec_face());
        assert(r.drop_last() =~= head);
        assert forall|i: int| 0 <= i < r.len() - 1 implies spec_is_move_available(
            #[trigger] r[i],
            r[i + 1],
        ) by {
            assert(spec_is_move_available(w[i], w[i + 1]));
        }
    }
}

/// Every list of moves, as `normalized` arranges it, is in order, no
/// longer, and makes the same of the solved cube; and it holds only moves of
/// the second phase where the list does.
pub proof fn lemma_normalized(ms: Seq<Move>)
    ensures
        in_order(normalized(ms)),
        normalized(ms).len() <= ms.len(),
        product(normalized(ms)) == product(ms),
        all_phase2(ms) ==> all_phase2(normalized(ms)),
    decreases ms.len(),
{
    if ms.len() > 0 {
        let before = ms.drop_last();
        lemma_normalized(before);
        lemma_appended(normalized(before), ms.last());
        if all_phase2(ms) {
            assert forall|i: int| 0 <= i < before.len() implies (
            #[trigger] before[i]).spec_is_phase2() by {
                assert(ms[i].spec_is_phase2());
            }
            assert(ms[ms.len() - 1].spec_is_phase2());
        }
    }
}

/// Every list of moves does on every cube the same as a list, no longer,
/// that the search tries: one in which no move follows a turn of its own
/// face, and of two opposite faces the up, right or front one is turned
/// first.
pub proof fn lemma_normal_form(s: CubeState, ms: Seq<Move>)
    requires
        s.wf(),
    ensures
        canonical(None, normalized(ms)),
        normalized(ms).len() <= ms.len(),
        s.apply_all(normalized(ms)) == s.apply_all(ms),
{
    lemma_normalized(ms);
    lemma_canonical_in_order(None, normalized(ms));
    lemma_apply_all_product(s, ms);
    lemma_apply_all_product(s, normalized(ms));
}

/// With right move tables and steady distance tables, the search returns a
/// solution for a consistent cube wherever no more moves than the budget
/// solve the cube.
pub proof fn lemma_solved_within_budget(
    mt: MoveTable,
    pt: PruningTable,
    initial: CubeState,
    budget: int,
    ms: Seq<Move>,
)
    requires
        mt.right(),
        pt.follows(mt),
        initial.consistent(),
        budget <= 255,
        ms.len() <= budget,
        initial.apply_all(ms) == CubeState::solved(),
    ensures
        solve_spec(mt, pt, initial, budget) is Some,
{
    let w = normalized(ms);
    let none = Seq::<Move>::empty();
    lemma_normal_form(initial, ms);
    lemma_solved_consistent();
    assert(w + none =~= w);
    assert(initial.apply_all(w).apply_all(none) == initial.apply_all(w));
    assert(is_candidate(initial, budget, w, none));
    lemma_solve_least(mt, pt, initial, budget, w, none);
}

/// The moves that undo the moves `ms`: the move that undoes each, the last
/// first.
pub open spec fn undoing(ms: Seq<Move>) -> Seq<Move>
    decreases ms.len(),
{
    if ms.len() == 0 {
        Seq::empty()
    } else {
        seq![ms.last().spec_inverse()] + undoing(ms.drop_last())
    }
}

/// The moves that undo a list of moves are as many and bring every cube
/// back.
pub proof fn lemma_undoing(s: CubeState, ms: Seq<Move>)
    requires
        s.wf(),
    ensures
        undoing(ms).len() == ms.len(),
        s.apply_all(ms).apply_all(undoing(ms)) == s,
    decreases ms.len(),
{
    if ms.len() == 0 {
        assert(s.apply_all(ms) == s);
    } else {
        let before = ms.drop_last();
        let m = ms.last();
        let mid = s.apply_all(before);
        lemma_undoing(s, before);
        lemma_apply_all_wf(s, before);
        lemma_move_then_inverse(mid, m);
        let back = seq![m.spec_inverse()];
        lemma_apply_all_concat(s.apply_all(ms), back, undoing(before));
        crate::soundness::lemma_apply_all_one(s.apply_all(ms), m.spec_inverse());
    }
}

/// With right move tables and steady distance tables, the search returns a
/// solution for every cube that no more moves than the budget make of the
/// solved cube.
pub proof fn lemma_scramble_is_solved(
    mt: MoveTable,
    pt: PruningTable,
    ms: Seq<Move>,
    budget: int,
)
    requires
        mt.right(),
        pt.follows(mt),
        ms.len() <= budget <= 255,
    ensures
        solve_spec(mt, pt, CubeState::solved().apply_all(ms), budget) is Some,
{
    let solved = CubeState::solved();
    lemma_scramble_solvable(ms);
    lemma_solved_consistent();
    lemma_undoing(solved, ms);
    lemma_solved_within_budget(mt, pt, solved.apply_all(ms), budget, undoing(ms));
}

/// The moves that undo moves of the second phase are moves of the second
/// phase.
pub proof fn lemma_undoing_phase2(ms: Seq<Move>)
    requires
        all_phase2(ms),
    ensures
        all_phase2(undoing(ms)),
    decreases ms.len(),
{
    if ms.len() > 0 {
        let before = ms.drop_last();
        assert forall|i: int| 0 <= i < before.len() implies (
        #[trigger] before[i]).spec_is_phase2() by {
            assert(ms[i].spec_is_phase2());
        }
        lemma_undoing_phase2(before);
        assert(ms[ms.len() - 1].spec_is_phase2());
        let u = undoing(ms);
        assert forall|k: int| 0 <= k < u.len() implies (#[trigger] u[k]).spec_is_phase2() by {
            if k > 0 {
                assert(u[k] == undoing(before)[k - 1]);
            }
        }
    }
}

/// With the move tables as they are built and steady distance tables,
/// whether or not every value was reached: for a cube that moves of the
/// second phase make of the solved cube, and that the moves `tail` of that
/// phase solve within the budget, the search returns a solution without a
/// move of the first phase, whose second phase solves the cube and is met no
/// later than `tail`.
pub proof fn lemma_subgroup_cube_is_solved(
    mt: MoveTable,
    pt: PruningTable,
    ms: Seq<Move>,
    budget: int,
    tail: Seq<Move>,
)
    requires
        mt.sound(),
        pt.follows(mt),
        all_phase2(ms),
        all_phase2(tail),
        canonical(None, tail),
        tail.len() <= budget <= 255,
        CubeState::solved().apply_all(ms).apply_all(tail) == CubeState::solved(),
    ensures
        match solve_spec(mt, pt, CubeState::solved().apply_all(ms), budget) {
            Some(solution) => solution.phase1.len() == 0 && all_phase2(solution.phase2)
                && canonical(None, solution.phase2) && CubeState::solved().apply_all(
                ms,
            ).apply_all(solution.phase2) == CubeState::solved() && tail_first(
                solution.phase2,
                tail,
            ),
            None => false,
        },
{
    let c = CubeState::solved().apply_all(ms);
    let none = Seq::<Move>::empty();
    assert forall|k: int| 0 <= k < ms.len() implies Coordinate::Cp.has_move(#[trigger] ms[k]) by {
        assert(ms[k].spec_is_phase2());
    }
    lemma_made_class(Coordinate::Cp, ms);
    lemma_subgroup_coordinates(c);
    assert(c.apply_all(none) == c);
    lemma_phase2_depths_least(mt, pt, ms, c, None, tail, 0, budget);
    lemma_phase2_depths_sound(mt, pt, ms, c, None, 0, budget);
    assert(last_move(none) == None::<Move>);
    assert(phase2_limit(budget, none.len() as int) == budget);
}

/// With the move tables as they are built and steady distance tables,
/// whether or not every value was reached: the search solves every cube
/// that no more moves of the second phase than the budget make of the solved
/// cube, without a move of the first phase and with no more moves of the
/// second than made it.
pub proof fn lemma_subgroup_scramble_is_solved(
    mt: MoveTable,
    pt: PruningTable,
    ms: Seq<Move>,
    budget: int,
)
    requires
        mt.sound(),
        pt.follows(mt),
        all_phase2(ms),
        ms.len() <= budget <= 255,
    ensures
        match solve_spec(mt, pt, CubeState::solved().apply_all(ms), budget) {
            Some(solution) => solution.phase1.len() == 0 && all_phase2(solution.phase2)
                && canonical(None, solution.phase2) && CubeState::solved().apply_all(
                ms,
            ).apply_all(solution.phase2) == CubeState::solved() && solution.phase2.len()
                <= ms.len(),
            None => false,
        },
{
    let solved = CubeState::solved();
    let c = solved.apply_all(ms);
    lemma_solved_consistent();
    lemma_undoing(solved, ms);
    lemma_undoing_phase2(ms);
    lemma_normalized(undoing(ms));
    lemma_apply_all_wf(solved, ms);
    lemma_normal_form(c, undoing(ms));
    lemma_subgroup_cube_is_solved(mt, pt, ms, budget, normalized(undoing(ms)));
}

} // verus!
