//! The cube on the level of its pieces, and the eighteen face turns as
//! permutations and re-orientations of the pieces.
//!
//! Corner places and corner pieces are numbered UBL 0, UBR 1, UFR 2, UFL 3,
//! DFL 4, DFR 5, DBR 6, DBL 7. Edge places and edge pieces are numbered
//! BL 0, BR 1, FR 2, FL 3, UB 4, UR 5, UF 6, UL 7, DF 8, DR 9, DB 10, DL 11,
//! so that the four edges of the middle slice come first.

use vstd::prelude::*;
use crate::coord::smaller_after;
use crate::moves::Move;
use crate::parity::lemma_move_keeps_solvable;

verus! {

/// The mathematical cube: which piece sits in each place, and how it is
/// turned there.
pub struct CubeState {
    /// For each of the 8 corner places, the corner piece in it.
    pub cp: Seq<int>,
    /// For each corner place, the twist of the piece in it: 0, 1 or 2.
    pub co: Seq<int>,
    /// For each of the 12 edge places, the edge piece in it.
    pub ep: Seq<int>,
    /// For each edge place, the flip of the piece in it: 0 or 1.
    pub eo: Seq<int>,
}

/// The sum of the entries of `s`.
pub open spec fn total(s: Seq<int>) -> int
    decreases s.len(),
{
    if s.len() == 0 {
        0
    } else {
        total(s.drop_last()) + s.last()
    }
}

/// No entry of `p` occurs twice.
pub open spec fn is_permutation(p: Seq<int>) -> bool {
    forall|i: int, j: int| 0 <= i < j < p.len() ==> p[i] != p[j]
}

/// The number of pairs of places among the first `n` places and those
/// behind them whose entries stand in descending order.
pub open spec fn inversions_upto(p: Seq<int>, n: int) -> int
    decreases n,
{
    if n <= 0 {
        0
    } else {
        inversions_upto(p, n - 1) + smaller_after(p, n - 1, p.len() as int)
    }
}

/// The number of pairs of places of `p` whose entries stand in descending
/// order.
pub open spec fn inversions(p: Seq<int>) -> int {
    inversions_upto(p, p.len() as int)
}

impl CubeState {
    /// A cube that turning the faces of a solved cube can produce: every
    /// piece is there once, the corner twists add up to a multiple of 3, the
    /// edge flips to a multiple of 2, and the corner order is even exactly
    /// where the edge order is.
    pub open spec fn solvable(self) -> bool {
        &&& self.wf()
        &&& is_permutation(self.cp)
        &&& is_permutation(self.ep)
        &&& total(self.co) % 3 == 0
        &&& total(self.eo) % 2 == 0
        &&& inversions(self.cp) % 2 == inversions(self.ep) % 2
    }

    /// Four sequences of the right lengths whose entries are in range.
    pub open spec fn wf(self) -> bool {
        &&& self.cp.len() == 8
        &&& self.co.len() == 8
        &&& self.ep.len() == 12
        &&& self.eo.len() == 12
        &&& forall|i: int| 0 <= i < 8 ==> 0 <= #[trigger] self.cp[i] < 8
        &&& forall|i: int| 0 <= i < 8 ==> 0 <= #[trigger] self.co[i] < 3
        &&& forall|i: int| 0 <= i < 12 ==> 0 <= #[trigger] self.ep[i] < 12
        &&& forall|i: int| 0 <= i < 12 ==> 0 <= #[trigger] self.eo[i] < 2
    }

    /// Every piece in its own place, untwisted.
    pub open spec fn solved() -> CubeState {
        CubeState {
            cp: Seq::new(8, |i: int| i),
            co: Seq::new(8, |i: int| 0int),
            ep: Seq::new(12, |i: int| i),
            eo: Seq::new(12, |i: int| 0int),
        }
    }

    /// `self` followed by `rhs`: place `i` receives the piece that `self`
    /// holds in the place `rhs` takes it from, with both twists added.
    pub open spec fn compose(self, rhs: CubeState) -> CubeState {
        CubeState {
            cp: Seq::new(8, |i: int| self.cp[rhs.cp[i]]),
            co: Seq::new(8, |i: int| (self.co[rhs.cp[i]] + rhs.co[i]) % 3),
            ep: Seq::new(12, |i: int| self.ep[rhs.ep[i]]),
            eo: Seq::new(12, |i: int| (self.eo[rhs.ep[i]] + rhs.eo[i]) % 2),
        }
    }

    /// A clockwise quarter turn of face `f` (0 up, 1 down, 2 right, 3 left,
    /// 4 front, 5 back), applied to the solved cube.
    pub open spec fn quarter_turn(f: int) -> CubeState {
        if f == 0 {
            CubeState {
                cp: seq![3, 0, 1, 2, 4, 5, 6, 7],
                co: seq![0, 0, 0, 0, 0, 0, 0, 0],
                ep: seq![0, 1, 2, 3, 7, 4, 5, 6, 8, 9, 10, 11],
                eo: seq![0, 0, 0, 0, 0, 0, 0, 0, 0, 0, 0, 0],
            }
        } else if f == 1 {
            CubeState {
                cp: seq![0, 1, 2, 3, 7, 4, 5, 6],
                co: seq![0, 0, 0, 0, 0, 0, 0, 0],
                ep: seq![0, 1, 2, 3, 4, 5, 6, 7, 11, 8, 9, 10],
                eo: seq![0, 0, 0, 0, 0, 0, 0, 0, 0, 0, 0, 0],
            }
        } else if f == 2 {
            CubeState {
                cp: seq![0, 2, 5, 3, 4, 6, 1, 7],
                co: seq![0, 1, 2, 0, 0, 1, 2, 0],
                ep: seq![0, 5, 9, 3, 4, 2, 6, 7, 8, 1, 10, 11],
                eo: seq![0, 0, 0, 0, 0, 0, 0, 0, 0, 0, 0, 0],
            }
        } else if f == 3 {
            CubeState {
                cp: seq![7, 1, 2, 0, 3, 5, 6, 4],
                co: seq![2, 0, 0, 1, 2, 0, 0, 1],
                ep: seq![11, 1, 2, 7, 4, 5, 6, 0, 8, 9, 10, 3],
                eo: seq![0, 0, 0, 0, 0, 0, 0, 0, 0, 0, 0, 0],
            }
        } else if f == 4 {
            CubeState {
                cp: seq![0, 1, 3, 4, 5, 2, 6, 7],
                co: seq![0, 0, 1, 2, 1, 2, 0, 0],
                ep: seq![0, 1, 6, 8, 4, 5, 3, 7, 2, 9, 10, 11],
                eo: seq![0, 0, 1, 1, 0, 0, 1, 0, 1, 0, 0, 0],
            }
        } else {
            CubeState {
                cp: seq![1, 6, 2, 3, 4, 5, 7, 0],
                co: seq![1, 2, 0, 0, 0, 0, 1, 2],
                ep: seq![4, 10, 2, 3, 1, 5, 6, 7, 8, 9, 0, 11],
                eo: seq![1, 1, 0, 0, 1, 0, 0, 0, 0, 0, 1, 0],
            }
        }
    }

    /// The move `m` applied to the solved cube: one, two or three quarter
    /// turns of its face.
    pub open spec fn of_move(m: Move) -> CubeState {
        let q = Self::quarter_turn(m.spec_face());
        if m.spec_turns() == 1 {
            q
        } else if m.spec_turns() == 2 {
            q.compose(q)
        } else {
            q.compose(q).compose(q)
        }
    }

    /// The cube after the move `m`.
    pub open spec fn apply(self, m: Move) -> CubeState {
        self.compose(Self::of_move(m))
    }

    /// The cube after the moves `ms`, first to last.
    pub open spec fn apply_all(self, ms: Seq<Move>) -> CubeState
        decreases ms.len(),
    {
        if ms.len() == 0 {
            self
        } else {
            self.apply_all(ms.drop_last()).apply(ms.last())
        }
    }
}

/// A cube as four arrays, indexed by place.
#[derive(Clone, Copy, Debug, PartialEq, Eq)]
pub struct CubieCube {
    /// The corner piece in each corner place.
    pub cp: [u8; 8],
    /// The twist of the corner in each corner place.
    pub co: [u8; 8],
    /// The edge piece in each edge place.
    pub ep: [u8; 12],
    /// The flip of the edge in each edge place.
    pub eo: [u8; 12],
}

/// The entries of `s` as mathematical integers.
pub open spec fn ints(s: Seq<u8>) -> Seq<int> {
    Seq::new(s.len(), |i: int| s[i] as int)
}

impl View for CubieCube {
    type V = CubeState;

    open spec fn view(&self) -> CubeState {
        CubeState { cp: ints(self.cp@), co: ints(self.co@), ep: ints(self.ep@), eo: ints(self.eo@) }
    }
}

/// Composition keeps entries in range.
pub proof fn lemma_compose_wf(a: CubeState, b: CubeState)
    requires
        a.wf(),
        b.wf(),
    ensures
        a.compose(b).wf(),
{
    let c = a.compose(b);
    assert forall|i: int| 0 <= i < 8 implies 0 <= #[trigger] c.cp[i] < 8 by {
        assert(0 <= b.cp[i] < 8);
    }
    assert forall|i: int| 0 <= i < 12 implies 0 <= #[trigger] c.ep[i] < 12 by {
        assert(0 <= b.ep[i] < 12);
    }
}

/// Each quarter turn is a well-formed cube.
pub proof fn lemma_quarter_turn_wf(f: int)
    ensures
        CubeState::quarter_turn(f).wf(),
{
}

/// Each of the eighteen moves is a well-formed cube.
pub proof fn lemma_of_move_wf(m: Move)
    ensures
        CubeState::of_move(m).wf(),
{
    let q = CubeState::quarter_turn(m.spec_face());
    lemma_quarter_turn_wf(m.spec_face());
    lemma_compose_wf(q, q);
    lemma_compose_wf(q.compose(q), q);
}

/// Composition is associative.
pub proof fn lemma_compose_assoc(a: CubeState, b: CubeState, c: CubeState)
    requires
        b.wf(),
        c.wf(),
    ensures
        a.compose(b).compose(c) == a.compose(b.compose(c)),
{
    let l = a.compose(b).compose(c);
    let r = a.compose(b.compose(c));
    assert forall|i: int| 0 <= i < 8 implies l.cp[i] == r.cp[i] && l.co[i] == r.co[i] by {
        assert(0 <= c.cp[i] < 8);
        assert(0 <= b.cp[c.cp[i]] < 8);
    }
    assert forall|i: int| 0 <= i < 12 implies l.ep[i] == r.ep[i] && l.eo[i] == r.eo[i] by {
        assert(0 <= c.ep[i] < 12);
        assert(0 <= b.ep[c.ep[i]] < 12);
    }
    assert(l.cp =~= r.cp);
    assert(l.co =~= r.co);
    assert(l.ep =~= r.ep);
    assert(l.eo =~= r.eo);
}

/// The solved cube is a right unit of composition.
pub proof fn lemma_compose_solved(s: CubeState)
    requires
        s.wf(),
    ensures
        s.compose(CubeState::solved()) == s,
{
    let r = s.compose(CubeState::solved());
    assert(r.cp =~= s.cp);
    assert(r.co =~= s.co);
    assert(r.ep =~= s.ep);
    assert(r.eo =~= s.eo);
}

/// Four quarter turns of one face bring the solved cube back.
#[verifier::rlimit(40)]
pub proof fn lemma_quarter_turn_order(f: int)
    ensures
        ({
            let q = CubeState::quarter_turn(f);
            q.compose(q).compose(q).compose(q) == CubeState::solved()
        }),
{
    let q = CubeState::quarter_turn(f);
    let q2 = q.compose(q);
    let q3 = q2.compose(q);
    let q4 = q3.compose(q);
    let e = CubeState::solved();
    assert(q4.cp =~= e.cp);
    assert(q4.co =~= e.co);
    assert(q4.ep =~= e.ep);
    assert(q4.eo =~= e.eo);
}

/// The solved cube is a left unit of composition.
pub proof fn lemma_solved_compose(s: CubeState)
    requires
        s.wf(),
    ensures
        CubeState::solved().compose(s) == s,
{
    let r = CubeState::solved().compose(s);
    assert forall|i: int| 0 <= i < 8 implies r.cp[i] == s.cp[i] && r.co[i] == s.co[i] by {
        assert(0 <= s.cp[i] < 8);
        assert(0 <= s.co[i] < 3);
    }
    assert forall|i: int| 0 <= i < 12 implies r.ep[i] == s.ep[i] && r.eo[i] == s.eo[i] by {
        assert(0 <= s.ep[i] < 12);
        assert(0 <= s.eo[i] < 2);
    }
    assert(r.cp =~= s.cp);
    assert(r.co =~= s.co);
    assert(r.ep =~= s.ep);
    assert(r.eo =~= s.eo);
}

/// A move composed with the move that undoes it is the solved cube.
pub proof fn lemma_of_move_inverse(m: Move)
    ensures
        CubeState::of_move(m).compose(CubeState::of_move(m.spec_inverse())) == CubeState::solved(),
{
    let q = CubeState::quarter_turn(m.spec_face());
    let q2 = q.compose(q);
    let q3 = q2.compose(q);
    lemma_quarter_turn_wf(m.spec_face());
    lemma_compose_wf(q, q);
    lemma_compose_wf(q2, q);
    lemma_quarter_turn_order(m.spec_face());
    assert(m.spec_inverse().spec_face() == m.spec_face());
    assert(m.spec_inverse().spec_turns() == 4 - m.spec_turns());
    if m.spec_turns() == 1 {
        lemma_compose_assoc(q, q2, q);
        lemma_compose_assoc(q, q, q);
    } else if m.spec_turns() == 2 {
        lemma_compose_assoc(q2, q, q);
    }
}

/// A half turn composed with itself is the solved cube; a quarter turn
/// composed with itself is the half turn of its face.
pub proof fn lemma_of_move_twice(m: Move)
    ensures
        m.spec_turns() == 2 ==> CubeState::of_move(m).compose(CubeState::of_move(m))
            == CubeState::solved(),
        m.spec_turns() != 2 ==> ({
            let q = CubeState::quarter_turn(m.spec_face());
            let h = q.compose(q);
            &&& CubeState::of_move(m).compose(CubeState::of_move(m)) == h
            &&& h.compose(h) == CubeState::solved()
        }),
{
    let q = CubeState::quarter_turn(m.spec_face());
    let q2 = q.compose(q);
    let q3 = q2.compose(q);
    lemma_quarter_turn_wf(m.spec_face());
    lemma_compose_wf(q, q);
    lemma_compose_wf(q2, q);
    lemma_quarter_turn_order(m.spec_face());
    lemma_compose_assoc(q2, q, q);
    if m.spec_turns() == 3 {
        // q3 q3 = (q3 q2) q = ((q3 q) q) q = (e q) q = q q
        lemma_compose_assoc(q3, q2, q);
        lemma_compose_assoc(q3, q, q);
        lemma_solved_compose(q);
    }
}

/// A move followed by the move that undoes it leaves every well-formed cube
/// as it was.
pub proof fn lemma_move_then_inverse(s: CubeState, m: Move)
    requires
        s.wf(),
    ensures
        s.apply(m).apply(m.spec_inverse()) == s,
{
    lemma_of_move_wf(m);
    lemma_of_move_wf(m.spec_inverse());
    lemma_compose_assoc(s, CubeState::of_move(m), CubeState::of_move(m.spec_inverse()));
    lemma_of_move_inverse(m);
    lemma_compose_solved(s);
}

/// A half turn made twice, and a quarter turn made four times, leave every
/// well-formed cube as it was.
pub proof fn lemma_move_order(s: CubeState, m: Move)
    requires
        s.wf(),
    ensures
        m.spec_turns() == 2 ==> s.apply(m).apply(m) == s,
        m.spec_turns() != 2 ==> s.apply(m).apply(m).apply(m).apply(m) == s,
{
    let t = CubeState::of_move(m);
    let q = CubeState::quarter_turn(m.spec_face());
    let h = q.compose(q);
    lemma_of_move_wf(m);
    lemma_quarter_turn_wf(m.spec_face());
    lemma_compose_wf(q, q);
    lemma_of_move_twice(m);
    lemma_compose_assoc(s, t, t);
    lemma_compose_solved(s);
    if m.spec_turns() != 2 {
        lemma_compose_assoc(s.compose(h), t, t);
        lemma_compose_assoc(s, h, h);
    }
}

impl CubieCube {
    /// The solved cube.
    pub fn solved() -> (r: CubieCube)
        ensures
            r@ == CubeState::solved(),
    {
        let r = CubieCube {
            cp: [0, 1, 2, 3, 4, 5, 6, 7],
            co: [0, 0, 0, 0, 0, 0, 0, 0],
            ep: [0, 1, 2, 3, 4, 5, 6, 7, 8, 9, 10, 11],
            eo: [0, 0, 0, 0, 0, 0, 0, 0, 0, 0, 0, 0],
        };
        proof {
            let want = CubeState::solved();
            assert(r@.cp =~= want.cp);
            assert(r@.co =~= want.co);
            assert(r@.ep =~= want.ep);
            assert(r@.eo =~= want.eo);
        }
        r
    }

    /// `self` followed by `rhs`.
    pub fn multiply(self, rhs: CubieCube) -> (r: CubieCube)
        requires
            rhs@.wf(),
        ensures
            r@ == self@.compose(rhs@),
    {
        let mut res = CubieCube::solved();
        let mut i: usize = 0;
        while i < 8
            invariant
                i <= 8,
                rhs@.wf(),
                forall|j: int| 0 <= j < i ==> res.cp[j] == self.cp[rhs.cp[j] as int],
                forall|j: int|
                    0 <= j < i ==> res.co[j] == (self.co[rhs.cp[j] as int] + rhs.co[j]) % 3,
            decreases 8 - i,
        {
            assert(0 <= rhs@.cp[i as int] < 8);
            let from: usize = rhs.cp[i] as usize;
            let twist: u16 = (self.co[from] as u16 + rhs.co[i] as u16) % 3;
            res.cp[i] = self.cp[from];
            res.co[i] = twist as u8;
            i += 1;
        }
        let mut k: usize = 0;
        while k < 12
            invariant
                k <= 12,
                rhs@.wf(),
                forall|j: int| 0 <= j < 8 ==> res.cp[j] == self.cp[rhs.cp[j] as int],
                forall|j: int|
                    0 <= j < 8 ==> res.co[j] == (self.co[rhs.cp[j] as int] + rhs.co[j]) % 3,
                forall|j: int| 0 <= j < k ==> res.ep[j] == self.ep[rhs.ep[j] as int],
                forall|j: int|
                    0 <= j < k ==> res.eo[j] == (self.eo[rhs.ep[j] as int] + rhs.eo[j]) % 2,
            decreases 12 - k,
        {
            assert(0 <= rhs@.ep[k as int] < 12);
            let from: usize = rhs.ep[k] as usize;
            let flip: u16 = (self.eo[from] as u16 + rhs.eo[k] as u16) % 2;
            res.ep[k] = self.ep[from];
            res.eo[k] = flip as u8;
            k += 1;
        }
        proof {
            let want = self@.compose(rhs@);
            assert(res@.cp =~= want.cp);
            assert(res@.co =~= want.co);
            assert(res@.ep =~= want.ep);
            assert(res@.eo =~= want.eo);
        }
        res
    }

    /// A clockwise quarter turn of face `f`, applied to the solved cube.
    pub fn quarter_turn(f: u8) -> (r: CubieCube)
        ensures
            r@ == CubeState::quarter_turn(f as int),
            r@.wf(),
    {
        let r = if f == 0 {
            CubieCube {
                cp: [3, 0, 1, 2, 4, 5, 6, 7],
                co: [0, 0, 0, 0, 0, 0, 0, 0],
                ep: [0, 1, 2, 3, 7, 4, 5, 6, 8, 9, 10, 11],
                eo: [0, 0, 0, 0, 0, 0, 0, 0, 0, 0, 0, 0],
            }
        } else if f == 1 {
            CubieCube {
                cp: [0, 1, 2, 3, 7, 4, 5, 6],
                co: [0, 0, 0, 0, 0, 0, 0, 0],
                ep: [0, 1, 2, 3, 4, 5, 6, 7, 11, 8, 9, 10],
                eo: [0, 0, 0, 0, 0, 0, 0, 0, 0, 0, 0, 0],
            }
        } else if f == 2 {
            CubieCube {
                cp: [0, 2, 5, 3, 4, 6, 1, 7],
                co: [0, 1, 2, 0, 0, 1, 2, 0],
                ep: [0, 5, 9, 3, 4, 2, 6, 7, 8, 1, 10, 11],
                eo: [0, 0, 0, 0, 0, 0, 0, 0, 0, 0, 0, 0],
            }
        } else if f == 3 {
            CubieCube {
                cp: [7, 1, 2, 0, 3, 5, 6, 4],
                co: [2, 0, 0, 1, 2, 0, 0, 1],
                ep: [11, 1, 2, 7, 4, 5, 6, 0, 8, 9, 10, 3],
                eo: [0, 0, 0, 0, 0, 0, 0, 0, 0, 0, 0, 0],
            }
        } else if f == 4 {
            CubieCube {
                cp: [0, 1, 3, 4, 5, 2, 6, 7],
                co: [0, 0, 1, 2, 1, 2, 0, 0],
                ep: [0, 1, 6, 8, 4, 5, 3, 7, 2, 9, 10, 11],
                eo: [0, 0, 1, 1, 0, 0, 1, 0, 1, 0, 0, 0],
            }
        } else {
            CubieCube {
                cp: [1, 6, 2, 3, 4, 5, 7, 0],
                co: [1, 2, 0, 0, 0, 0, 1, 2],
                ep: [4, 10, 2, 3, 1, 5, 6, 7, 8, 9, 0, 11],
                eo: [1, 1, 0, 0, 1, 0, 0, 0, 0, 0, 1, 0],
            }
        };
        proof {
            let want = CubeState::quarter_turn(f as int);
            assert(r@.cp =~= want.cp);
            assert(r@.co =~= want.co);
            assert(r@.ep =~= want.ep);
            assert(r@.eo =~= want.eo);
            lemma_quarter_turn_wf(f as int);
        }
        r
    }

    /// The move `m` applied to the solved cube.
    pub fn of_move(m: Move) -> (r: CubieCube)
        ensures
            r@ == CubeState::of_move(m),
            r@.wf(),
    {
        let q = CubieCube::quarter_turn(m.face());
        let t = m.turns();
        proof {
            lemma_of_move_wf(m);
        }
        if t == 1 {
            q
        } else if t == 2 {
            q.multiply(q)
        } else {
            q.multiply(q).multiply(q)
        }
    }

    /// The cube after the move `m`.
    pub fn apply_move(self, m: Move) -> (r: CubieCube)
        ensures
            r@ == self@.apply(m),
            self@.wf() ==> r@.wf(),
            self@.solvable() ==> r@.solvable(),
    {
        let t = CubieCube::of_move(m);
        proof {
            if self@.wf() {
                lemma_compose_wf(self@, t@);
            }
            if self@.solvable() {
                lemma_move_keeps_solvable(self@, m);
            }
        }
        self.multiply(t)
    }

    /// The cube after the moves `moves`, first to last.
    pub fn apply_moves(&self, moves: &[Move]) -> (r: CubieCube)
        ensures
            r@ == self@.apply_all(moves@),
            self@.wf() ==> r@.wf(),
            self@.solvable() ==> r@.solvable(),
    {
        let mut cur = *self;
        let mut i: usize = 0;
        while i < moves.len()
            invariant
                i <= moves.len(),
                cur@ == self@.apply_all(moves@.take(i as int)),
                self@.wf() ==> cur@.wf(),
                self@.solvable() ==> cur@.solvable(),
            decreases moves.len() - i,
        {
            proof {
                let next = moves@.take(i as int + 1);
                assert(next.drop_last() =~= moves@.take(i as int));
                assert(next.last() == moves@[i as int]);
            }
            cur = cur.apply_move(moves[i]);
            i += 1;
        }
        proof {
            assert(moves@.take(moves.len() as int) =~= moves@);
        }
        cur
    }

    /// Whether both cubes hold the same pieces, turned the same way.
    pub fn equals(&self, other: &CubieCube) -> (r: bool)
        ensures
            r == (self@ == other@),
    {
        let mut i: usize = 0;
        while i < 8
            invariant
                i <= 8,
                forall|j: int|
                    0 <= j < i ==> self.cp[j] == other.cp[j] && self.co[j] == other.co[j],
            decreases 8 - i,
        {
            if self.cp[i] != other.cp[i] || self.co[i] != other.co[i] {
                proof {
                    assert(self@.cp[i as int] != other@.cp[i as int] || self@.co[i as int]
                        != other@.co[i as int]);
                }
                return false;
            }
            i += 1;
        }
        let mut k: usize = 0;
        while k < 12
            invariant
                k <= 12,
                forall|j: int|
                    0 <= j < 8 ==> self.cp[j] == other.cp[j] && self.co[j] == other.co[j],
                forall|j: int|
                    0 <= j < k ==> self.ep[j] == other.ep[j] && self.eo[j] == other.eo[j],
            decreases 12 - k,
        {
            if self.ep[k] != other.ep[k] || self.eo[k] != other.eo[k] {
                proof {
                    assert(self@.ep[k as int] != other@.ep[k as int] || self@.eo[k as int]
                        != other@.eo[k as int]);
                }
                return false;
            }
            k += 1;
        }
        proof {
            assert(self@.cp =~= other@.cp);
            assert(self@.co =~= other@.co);
            assert(self@.ep =~= other@.ep);
            assert(self@.eo =~= other@.eo);
        }
        true
    }
}

/// Two cubes with the same view are the same cube.
pub proof fn lemma_view_injective(a: CubieCube, b: CubieCube)
    requires
        a@ == b@,
    ensures
        a == b,
{
    assert forall|i: int| 0 <= i < 8 implies a.cp[i] == b.cp[i] && a.co[i] == b.co[i] by {
        assert(a@.cp[i] == a.cp[i] as int);
        assert(b@.cp[i] == b.cp[i] as int);
        assert(a@.co[i] == a.co[i] as int);
        assert(b@.co[i] == b.co[i] as int);
    }
    assert forall|i: int| 0 <= i < 12 implies a.ep[i] == b.ep[i] && a.eo[i] == b.eo[i] by {
        assert(a@.ep[i] == a.ep[i] as int);
        assert(b@.ep[i] == b.ep[i] as int);
        assert(a@.eo[i] == a.eo[i] as int);
        assert(b@.eo[i] == b.eo[i] as int);
    }
    assert(a.cp =~= b.cp);
    assert(a.co =~= b.co);
    assert(a.ep =~= b.ep);
    assert(a.eo =~= b.eo);
}

impl Default for CubieCube {
    /// The solved cube.
    fn default() -> (r: CubieCube)
        ensures
            r@ == CubeState::solved(),
    {
        CubieCube::solved()
    }
}

impl From<&Vec<Move>> for CubieCube {
    /// The solved cube after the moves `moves`.
    fn from(moves: &Vec<Move>) -> (r: CubieCube) {
        let r = CubieCube::solved().apply_moves(moves.as_slice());
        proof {
            lemma_scramble_of_exists(moves@);
            lemma_view_injective(r, scramble_of(moves@));
        }
        r
    }
}

/// The cube whose view is the solved cube after `ms`.
pub open spec fn scramble_of(ms: Seq<Move>) -> CubieCube {
    choose|c: CubieCube| c@ == CubeState::solved().apply_all(ms)
}

/// Moves keep a well-formed cube well-formed.
pub proof fn lemma_apply_all_wf(s: CubeState, ms: Seq<Move>)
    requires
        s.wf(),
    ensures
        s.apply_all(ms).wf(),
    decreases ms.len(),
{
    if ms.len() > 0 {
        lemma_apply_all_wf(s, ms.drop_last());
        lemma_of_move_wf(ms.last());
        lemma_compose_wf(s.apply_all(ms.drop_last()), CubeState::of_move(ms.last()));
    }
}

/// Some array cube has the well-formed state `s` as its view.
pub proof fn lemma_view_onto(s: CubeState) -> (c: CubieCube)
    requires
        s.wf(),
    ensures
        c@ == s,
{
    let c = CubieCube {
        cp: [
            s.cp[0] as u8,
            s.cp[1] as u8,
            s.cp[2] as u8,
            s.cp[3] as u8,
            s.cp[4] as u8,
            s.cp[5] as u8,
            s.cp[6] as u8,
            s.cp[7] as u8,
        ],
        co: [
            s.co[0] as u8,
            s.co[1] as u8,
            s.co[2] as u8,
            s.co[3] as u8,
            s.co[4] as u8,
            s.co[5] as u8,
            s.co[6] as u8,
            s.co[7] as u8,
        ],
        ep: [
            s.ep[0] as u8,
            s.ep[1] as u8,
            s.ep[2] as u8,
            s.ep[3] as u8,
            s.ep[4] as u8,
            s.ep[5] as u8,
            s.ep[6] as u8,
            s.ep[7] as u8,
            s.ep[8] as u8,
            s.ep[9] as u8,
            s.ep[10] as u8,
            s.ep[11] as u8,
        ],
        eo: [
            s.eo[0] as u8,
            s.eo[1] as u8,
            s.eo[2] as u8,
            s.eo[3] as u8,
            s.eo[4] as u8,
            s.eo[5] as u8,
            s.eo[6] as u8,
            s.eo[7] as u8,
            s.eo[8] as u8,
            s.eo[9] as u8,
            s.eo[10] as u8,
            s.eo[11] as u8,
        ],
    };
    assert(c@.cp =~= s.cp);
    assert(c@.co =~= s.co);
    assert(c@.ep =~= s.ep);
    assert(c@.eo =~= s.eo);
    c
}

/// `scramble_of` names a cube that exists.
pub proof fn lemma_scramble_of_exists(ms: Seq<Move>)
    ensures
        scramble_of(ms)@ == CubeState::solved().apply_all(ms),
{
    lemma_apply_all_wf(CubeState::solved(), ms);
    let c = lemma_view_onto(CubeState::solved().apply_all(ms));
    assert(c@ == CubeState::solved().apply_all(ms));
}

impl vstd::std_specs::convert::FromSpecImpl<&Vec<Move>> for CubieCube {
    open spec fn obeys_from_spec() -> bool {
        true
    }

    open spec fn from_spec(moves: &Vec<Move>) -> CubieCube {
        scramble_of(moves@)
    }
}

/// Whether every entry of `p` is below `limit`.
pub fn all_below(p: &[u8], limit: u8) -> (r: bool)
    ensures
        r == (forall|i: int| 0 <= i < p.len() ==> #[trigger] p[i] < limit),
{
    let mut i: usize = 0;
    while i < p.len()
        invariant
            i <= p.len(),
            forall|j: int| 0 <= j < i ==> #[trigger] p[j] < limit,
        decreases p.len() - i,
    {
        if p[i] >= limit {
            return false;
        }
        i += 1;
    }
    true
}

/// Whether no entry of `p` occurs twice.
pub fn all_distinct(p: &[u8]) -> (r: bool)
    ensures
        r == is_permutation(ints(p@)),
{
    let ghost w = ints(p@);
    let mut i: usize = 0;
    while i < p.len()
        invariant
            i <= p.len(),
            w == ints(p@),
            forall|a: int, b: int| 0 <= a < i && a < b < p.len() ==> w[a] != w[b],
        decreases p.len() - i,
    {
        let mut j: usize = i + 1;
        while j < p.len()
            invariant
                i < j <= p.len(),
                w == ints(p@),
                forall|b: int| i < b < j ==> w[i as int] != w[b],
            decreases p.len() - j,
        {
            if p[i] == p[j] {
                proof {
                    assert(w[i as int] == w[j as int]);
                }
                return false;
            }
            j += 1;
        }
        i += 1;
    }
    true
}

/// The sum of the entries of `p`, of at most 65535.
pub fn sum_of(p: &[u8]) -> (r: usize)
    requires
        p.len() <= 65535,
    ensures
        r == total(ints(p@)),
{
    let ghost w = ints(p@);
    let mut acc: usize = 0;
    let mut i: usize = 0;
    while i < p.len()
        invariant
            i <= p.len() <= 65535,
            w == ints(p@),
            acc == total(w.take(i as int)),
            acc <= 255 * i,
        decreases p.len() - i,
    {
        proof {
            let next = w.take(i as int + 1);
            assert(next.drop_last() =~= w.take(i as int));
            assert(next.last() == p[i as int] as int);
        }
        acc = acc + p[i] as usize;
        i += 1;
    }
    proof {
        assert(w.take(p.len() as int) =~= w);
    }
    acc
}

/// The number of pairs of places of `p`, of at most 65535 places, whose
/// entries stand in descending order.
pub fn inversion_count(p: &[u8]) -> (r: usize)
    requires
        p.len() <= 65535,
    ensures
        r == inversions(ints(p@)),
{
    let ghost w = ints(p@);
    let n: usize = p.len();
    let mut acc: usize = 0;
    let mut i: usize = 0;
    while i < n
        invariant
            i <= n <= 65535,
            n == p.len(),
            w == ints(p@),
            acc == inversions_upto(w, i as int),
            acc <= 65535 * i,
        decreases n - i,
    {
        let mut count: usize = 0;
        let mut j: usize = i + 1;
        while j < n
            invariant
                i < j <= n <= 65535,
                n == p.len(),
                w == ints(p@),
                count == smaller_after(w, i as int, j as int),
                count <= j - i - 1,
            decreases n - j,
        {
            if p[j] < p[i] {
                count += 1;
            }
            j += 1;
        }
        acc = acc + count;
        i += 1;
    }
    acc
}

impl CubieCube {
    /// Whether turning the faces of a solved cube can produce this cube.
    pub fn is_solvable(&self) -> (r: bool)
        ensures
            r == self@.solvable(),
    {
        let in_range: bool = all_below(self.cp.as_slice(), 8) && all_below(self.co.as_slice(), 3)
            && all_below(self.ep.as_slice(), 12) && all_below(self.eo.as_slice(), 2);
        proof {
            let s = self@;
            if in_range {
                assert forall|i: int| 0 <= i < 8 implies 0 <= #[trigger] s.cp[i] < 8 by {
                    assert(self.cp[i] < 8);
                }
                assert forall|i: int| 0 <= i < 8 implies 0 <= #[trigger] s.co[i] < 3 by {
                    assert(self.co[i] < 3);
                }
                assert forall|i: int| 0 <= i < 12 implies 0 <= #[trigger] s.ep[i] < 12 by {
                    assert(self.ep[i] < 12);
                }
                assert forall|i: int| 0 <= i < 12 implies 0 <= #[trigger] s.eo[i] < 2 by {
                    assert(self.eo[i] < 2);
                }
                assert(s.wf());
            } else {
                if s.wf() {
                    assert forall|i: int| 0 <= i < 8 implies #[trigger] self.cp[i] < 8 by {
                        assert(0 <= s.cp[i] < 8);
                    }
                    assert forall|i: int| 0 <= i < 8 implies #[trigger] self.co[i] < 3 by {
                        assert(0 <= s.co[i] < 3);
                    }
                    assert forall|i: int| 0 <= i < 12 implies #[trigger] self.ep[i] < 12 by {
                        assert(0 <= s.ep[i] < 12);
                    }
                    assert forall|i: int| 0 <= i < 12 implies #[trigger] self.eo[i] < 2 by {
                        assert(0 <= s.eo[i] < 2);
                    }
                }
                assert(!s.wf());
            }
        }
        if !in_range {
            return false;
        }
        if !all_distinct(self.cp.as_slice()) || !all_distinct(self.ep.as_slice()) {
            return false;
        }
        if sum_of(self.co.as_slice()) % 3 != 0 || sum_of(self.eo.as_slice()) % 2 != 0 {
            return false;
        }
        inversion_count(self.cp.as_slice()) % 2 == inversion_count(self.ep.as_slice()) % 2
    }
}

} // verus!
