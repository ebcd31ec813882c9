//! The eighteen face turns.

use vstd::prelude::*;
use vstd::string::StringExecFns;

verus! {

/// A face turn: a face letter alone is a quarter turn clockwise, `2` a half
/// turn, `3` a quarter turn counter-clockwise.
#[derive(Clone, Copy, Debug, PartialEq, Eq, Structural)]
pub enum Move {
    U,
    U2,
    U3,
    D,
    D2,
    D3,
    R,
    R2,
    R3,
    L,
    L2,
    L3,
    F,
    F2,
    F3,
    B,
    B2,
    B3,
}

/// Every move, in the order in which the first phase tries them.
pub const ALL_MOVES: [Move; 18] = [
    Move::U,
    Move::U2,
    Move::U3,
    Move::D,
    Move::D2,
    Move::D3,
    Move::R,
    Move::R2,
    Move::R3,
    Move::L,
    Move::L2,
    Move::L3,
    Move::F,
    Move::F2,
    Move::F3,
    Move::B,
    Move::B2,
    Move::B3,
];

/// The moves that keep a cube inside the subgroup that the first phase
/// reaches, in the order in which the second phase tries them.
pub const PHASE2_MOVES: [Move; 10] = [
    Move::U,
    Move::U2,
    Move::U3,
    Move::D,
    Move::D2,
    Move::D3,
    Move::R2,
    Move::L2,
    Move::F2,
    Move::B2,
];

/// The move at place `i` of the first phase's order.
pub open spec fn move_at(i: int) -> Move {
    if i == 0 {
        Move::U
    } else if i == 1 {
        Move::U2
    } else if i == 2 {
        Move::U3
    } else if i == 3 {
        Move::D
    } else if i == 4 {
        Move::D2
    } else if i == 5 {
        Move::D3
    } else if i == 6 {
        Move::R
    } else if i == 7 {
        Move::R2
    } else if i == 8 {
        Move::R3
    } else if i == 9 {
        Move::L
    } else if i == 10 {
        Move::L2
    } else if i == 11 {
        Move::L3
    } else if i == 12 {
        Move::F
    } else if i == 13 {
        Move::F2
    } else if i == 14 {
        Move::F3
    } else if i == 15 {
        Move::B
    } else if i == 16 {
        Move::B2
    } else {
        Move::B3
    }
}

/// The move at place `i` of the second phase's order.
pub open spec fn phase2_move_at(i: int) -> Move {
    if i < 6 {
        move_at(i)
    } else if i == 6 {
        Move::R2
    } else if i == 7 {
        Move::L2
    } else if i == 8 {
        Move::F2
    } else {
        Move::B2
    }
}

impl Move {
    /// The place of the move in the first phase's order, below 18.
    pub open spec fn spec_index(self) -> int {
        match self {
            Move::U => 0,
            Move::U2 => 1,
            Move::U3 => 2,
            Move::D => 3,
            Move::D2 => 4,
            Move::D3 => 5,
            Move::R => 6,
            Move::R2 => 7,
            Move::R3 => 8,
            Move::L => 9,
            Move::L2 => 10,
            Move::L3 => 11,
            Move::F => 12,
            Move::F2 => 13,
            Move::F3 => 14,
            Move::B => 15,
            Move::B2 => 16,
            Move::B3 => 17,
        }
    }

    /// The face turned: 0 up, 1 down, 2 right, 3 left, 4 front, 5 back.
    pub open spec fn spec_face(self) -> int {
        self.spec_index() / 3
    }

    /// The number of clockwise quarter turns the move amounts to: 1, 2 or 3.
    pub open spec fn spec_turns(self) -> int {
        self.spec_index() % 3 + 1
    }

    /// The move that undoes `self`: the same face, turned the other way.
    pub open spec fn spec_inverse(self) -> Move {
        move_at(3 * self.spec_face() + (3 - self.spec_turns()))
    }

    /// Whether the move keeps a cube inside the first phase's subgroup: any
    /// turn of the up or down face, a half turn of any other.
    pub open spec fn spec_is_phase2(self) -> bool {
        self.spec_face() < 2 || self.spec_turns() == 2
    }

    pub fn index(self) -> (r: usize)
        ensures
            r == self.spec_index(),
            r < 18,
    {
        match self {
            Move::U => 0,
            Move::U2 => 1,
            Move::U3 => 2,
            Move::D => 3,
            Move::D2 => 4,
            Move::D3 => 5,
            Move::R => 6,
            Move::R2 => 7,
            Move::R3 => 8,
            Move::L => 9,
            Move::L2 => 10,
            Move::L3 => 11,
            Move::F => 12,
            Move::F2 => 13,
            Move::F3 => 14,
            Move::B => 15,
            Move::B2 => 16,
            Move::B3 => 17,
        }
    }

    /// The move at place `i` of the first phase's order; `None` from 18 on.
    pub fn from_index(i: usize) -> (r: Option<Move>)
        ensures
            i < 18 ==> r == Some(move_at(i as int)),
            i >= 18 ==> r is None,
    {
        if i == 0 {
            Some(Move::U)
        } else if i == 1 {
            Some(Move::U2)
        } else if i == 2 {
            Some(Move::U3)
        } else if i == 3 {
            Some(Move::D)
        } else if i == 4 {
            Some(Move::D2)
        } else if i == 5 {
            Some(Move::D3)
        } else if i == 6 {
            Some(Move::R)
        } else if i == 7 {
            Some(Move::R2)
        } else if i == 8 {
            Some(Move::R3)
        } else if i == 9 {
            Some(Move::L)
        } else if i == 10 {
            Some(Move::L2)
        } else if i == 11 {
            Some(Move::L3)
        } else if i == 12 {
            Some(Move::F)
        } else if i == 13 {
            Some(Move::F2)
        } else if i == 14 {
            Some(Move::F3)
        } else if i == 15 {
            Some(Move::B)
        } else if i == 16 {
            Some(Move::B2)
        } else if i == 17 {
            Some(Move::B3)
        } else {
            None
        }
    }

    /// The face turned: 0 up, 1 down, 2 right, 3 left, 4 front, 5 back.
    pub fn face(self) -> (r: u8)
        ensures
            r == self.spec_face(),
            r < 6,
    {
        (self.index() / 3) as u8
    }

    /// The number of clockwise quarter turns: 1, 2 or 3.
    pub fn turns(self) -> (r: u8)
        ensures
            r == self.spec_turns(),
            1 <= r <= 3,
    {
        (self.index() % 3) as u8 + 1
    }

    /// The move that undoes `self`.
    #[verifier::when_used_as_spec(spec_inverse)]
    pub fn get_inverse(self) -> (r: Move)
        ensures
            r == self.spec_inverse(),
            r.spec_face() == self.spec_face(),
            r.spec_turns() + self.spec_turns() == 4,
    {
        match self {
            Move::U => Move::U3,
            Move::U2 => Move::U2,
            Move::U3 => Move::U,
            Move::D => Move::D3,
            Move::D2 => Move::D2,
            Move::D3 => Move::D,
            Move::R => Move::R3,
            Move::R2 => Move::R2,
            Move::R3 => Move::R,
            Move::L => Move::L3,
            Move::L2 => Move::L2,
            Move::L3 => Move::L,
            Move::F => Move::F3,
            Move::F2 => Move::F2,
            Move::F3 => Move::F,
            Move::B => Move::B3,
            Move::B2 => Move::B2,
            Move::B3 => Move::B,
        }
    }

    /// Whether `other` undoes `self`.
    pub fn is_inverse(self, other: Move) -> (r: bool)
        ensures
            r == (other == self.spec_inverse()),
    {
        other == self.get_inverse()
    }

    /// Whether both moves turn the same face.
    pub fn is_same_layer(self, other: Move) -> (r: bool)
        ensures
            r == (self.spec_face() == other.spec_face()),
    {
        self.face() == other.face()
    }

    /// Whether the move belongs to the second phase.
    #[verifier::when_used_as_spec(spec_is_phase2)]
    pub fn is_phase2(self) -> (r: bool)
        ensures
            r == self.spec_is_phase2(),
    {
        self.face() < 2 || self.turns() == 2
    }

    /// The move in the usual notation: the face letter, then `2` for a half
    /// turn or `'` for a counter-clockwise quarter turn.
    pub open spec fn spec_name(self) -> Seq<char> {
        match self {
            Move::U => seq!['U'],
            Move::U2 => seq!['U', '2'],
            Move::U3 => seq!['U', '\''],
            Move::D => seq!['D'],
            Move::D2 => seq!['D', '2'],
            Move::D3 => seq!['D', '\''],
            Move::R => seq!['R'],
            Move::R2 => seq!['R', '2'],
            Move::R3 => seq!['R', '\''],
            Move::L => seq!['L'],
            Move::L2 => seq!['L', '2'],
            Move::L3 => seq!['L', '\''],
            Move::F => seq!['F'],
            Move::F2 => seq!['F', '2'],
            Move::F3 => seq!['F', '\''],
            Move::B => seq!['B'],
            Move::B2 => seq!['B', '2'],
            Move::B3 => seq!['B', '\''],
        }
    }

    /// The move in the usual notation.
    pub fn name(self) -> (r: &'static str)
        ensures
            r@ == self.spec_name(),
    {
        match self {
            Move::U => {
                proof {
                    reveal_strlit("U");
                    assert("U"@ =~= seq!['U']);
                }
                "U"
            },
            Move::U2 => {
                proof {
                    reveal_strlit("U2");
                    assert("U2"@ =~= seq!['U', '2']);
                }
                "U2"
            },
            Move::U3 => {
                proof {
                    reveal_strlit("U'");
                    assert("U'"@ =~= seq!['U', '\'']);
                }
                "U'"
            },
            Move::D => {
                proof {
                    reveal_strlit("D");
                    assert("D"@ =~= seq!['D']);
                }
                "D"
            },
            Move::D2 => {
                proof {
                    reveal_strlit("D2");
                    assert("D2"@ =~= seq!['D', '2']);
                }
                "D2"
            },
            Move::D3 => {
                proof {
                    reveal_strlit("D'");
                    assert("D'"@ =~= seq!['D', '\'']);
                }
                "D'"
            },
            Move::R => {
                proof {
                    reveal_strlit("R");
                    assert("R"@ =~= seq!['R']);
                }
                "R"
            },
            Move::R2 => {
                proof {
                    reveal_strlit("R2");
                    assert("R2"@ =~= seq!['R', '2']);
                }
                "R2"
            },
            Move::R3 => {
                proof {
                    reveal_strlit("R'");
                    assert("R'"@ =~= seq!['R', '\'']);
                }
                "R'"
            },
            Move::L => {
                proof {
                    reveal_strlit("L");
                    assert("L"@ =~= seq!['L']);
                }
                "L"
            },
            Move::L2 => {
                proof {
                    reveal_strlit("L2");
                    assert("L2"@ =~= seq!['L', '2']);
                }
                "L2"
            },
            Move::L3 => {
                proof {
                    reveal_strlit("L'");
                    assert("L'"@ =~= seq!['L', '\'']);
                }
                "L'"
            },
            Move::F => {
                proof {
                    reveal_strlit("F");
                    assert("F"@ =~= seq!['F']);
                }
                "F"
            },
            Move::F2 => {
                proof {
                    reveal_strlit("F2");
                    assert("F2"@ =~= seq!['F', '2']);
                }
                "F2"
            },
            Move::F3 => {
                proof {
                    reveal_strlit("F'");
                    assert("F'"@ =~= seq!['F', '\'']);
                }
                "F'"
            },
            Move::B => {
                proof {
                    reveal_strlit("B");
                    assert("B"@ =~= seq!['B']);
                }
                "B"
            },
            Move::B2 => {
                proof {
                    reveal_strlit("B2");
                    assert("B2"@ =~= seq!['B', '2']);
                }
                "B2"
            },
            Move::B3 => {
                proof {
                    reveal_strlit("B'");
                    assert("B'"@ =~= seq!['B', '\'']);
                }
                "B'"
            },
        }
    }

    /// The move in the usual notation, as an owned string.
    pub fn to_string(&self) -> (r: String)
        ensures
            r@ == self.spec_name(),
    {
        String::from_str(self.name())
    }
}

/// Whether `current` may follow `prev` in a search: never a second turn of
/// the same face, and of two opposite faces the up, right or front one is
/// turned first.
pub open spec fn spec_is_move_available(prev: Move, current: Move) -> bool {
    &&& current.spec_face() != prev.spec_face()
    &&& !(current.spec_face() / 2 == prev.spec_face() / 2 && current.spec_face()
        < prev.spec_face())
}

/// Whether `current` may follow `prev` in a search.
#[verifier::when_used_as_spec(spec_is_move_available)]
pub fn is_move_available(prev: Move, current: Move) -> (r: bool)
    ensures
        r == spec_is_move_available(prev, current),
{
    let p: u8 = prev.face();
    let c: u8 = current.face();
    c != p && !(c / 2 == p / 2 && c < p)
}

} // verus!
