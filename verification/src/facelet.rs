//! The cube as its 54 stickers, and the way from the stickers to the
//! pieces.
//!
//! The stickers are numbered face by face in the order up, right, front,
//! down, left, back, and on each face row by row from its top left, seen
//! from outside with the up face above (for the up face the back, for the
//! down face the front).

use vstd::prelude::*;
use vstd::string::StrSliceExecFns;
use crate::cubie::{CubeState, CubieCube};
use crate::error::Error;

verus! {

/// The colour of a sticker, named by the face whose centre has it.
#[derive(Clone, Copy, Debug, PartialEq, Eq, Structural)]
pub enum Color {
    U,
    R,
    F,
    D,
    L,
    B,
}

/// The colour that the symbol `c` names, if it names one.
pub open spec fn color_of(c: char) -> Option<Color> {
    if c == 'U' {
        Some(Color::U)
    } else if c == 'R' {
        Some(Color::R)
    } else if c == 'F' {
        Some(Color::F)
    } else if c == 'D' {
        Some(Color::D)
    } else if c == 'L' {
        Some(Color::L)
    } else if c == 'B' {
        Some(Color::B)
    } else {
        None
    }
}

/// The colour of the centre of the face that sticker `i` lies on.
pub open spec fn face_color(i: int) -> Color {
    if i < 9 {
        Color::U
    } else if i < 18 {
        Color::R
    } else if i < 27 {
        Color::F
    } else if i < 36 {
        Color::D
    } else if i < 45 {
        Color::L
    } else {
        Color::B
    }
}

/// The sticker of corner place `i` that is number `n` of the place: number
/// 0 lies on the up or down face, the others follow clockwise.
pub open spec fn corner_facelet(i: int, n: int) -> int {
    let k = 3 * i + n;
    if k == 0 {
        0
    } else if k == 1 {
        36
    } else if k == 2 {
        47
    } else if k == 3 {
        2
    } else if k == 4 {
        45
    } else if k == 5 {
        11
    } else if k == 6 {
        8
    } else if k == 7 {
        9
    } else if k == 8 {
        20
    } else if k == 9 {
        6
    } else if k == 10 {
        18
    } else if k == 11 {
        38
    } else if k == 12 {
        27
    } else if k == 13 {
        44
    } else if k == 14 {
        24
    } else if k == 15 {
        29
    } else if k == 16 {
        26
    } else if k == 17 {
        15
    } else if k == 18 {
        35
    } else if k == 19 {
        17
    } else if k == 20 {
        51
    } else if k == 21 {
        33
    } else if k == 22 {
        53
    } else {
        42
    }
}

/// The sticker of edge place `i` that is number `n` of the place: number 0
/// lies on the up or down face, or for a slice place on the front or back.
pub open spec fn edge_facelet(i: int, n: int) -> int {
    let k = 2 * i + n;
    if k == 0 {
        50
    } else if k == 1 {
        39
    } else if k == 2 {
        48
    } else if k == 3 {
        14
    } else if k == 4 {
        23
    } else if k == 5 {
        12
    } else if k == 6 {
        21
    } else if k == 7 {
        41
    } else if k == 8 {
        1
    } else if k == 9 {
        46
    } else if k == 10 {
        5
    } else if k == 11 {
        10
    } else if k == 12 {
        7
    } else if k == 13 {
        19
    } else if k == 14 {
        3
    } else if k == 15 {
        37
    } else if k == 16 {
        28
    } else if k == 17 {
        25
    } else if k == 18 {
        32
    } else if k == 19 {
        16
    } else if k == 20 {
        34
    } else if k == 21 {
        52
    } else if k == 22 {
        30
    } else {
        43
    }
}

/// The colour number `n` of corner piece `j`, numbered as the stickers of
/// its home place.
pub open spec fn corner_color(j: int, n: int) -> Color {
    face_color(corner_facelet(j, n))
}

/// The colour number `n` of edge piece `j`, numbered as the stickers of its
/// home place.
pub open spec fn edge_color(j: int, n: int) -> Color {
    face_color(edge_facelet(j, n))
}

/// Whether the colour is that of the up or the down face.
pub open spec fn is_up_or_down(c: Color) -> bool {
    c == Color::U || c == Color::D
}

/// The number of the sticker of corner place `i` that shows the colour of
/// the up or down face, if one does: the twist of the piece.
pub open spec fn corner_twist(f: Seq<Color>, i: int) -> Option<int> {
    if is_up_or_down(f[corner_facelet(i, 0)]) {
        Some(0)
    } else if is_up_or_down(f[corner_facelet(i, 1)]) {
        Some(1)
    } else if is_up_or_down(f[corner_facelet(i, 2)]) {
        Some(2)
    } else {
        None
    }
}

/// Whether corner place `i` shows the colours of piece `j`, twisted by
/// `twist`.
pub open spec fn corner_matches(f: Seq<Color>, i: int, twist: int, j: int) -> bool {
    &&& f[corner_facelet(i, twist)] == corner_color(j, 0)
    &&& f[corner_facelet(i, (twist + 1) % 3)] == corner_color(j, 1)
    &&& f[corner_facelet(i, (twist + 2) % 3)] == corner_color(j, 2)
}

/// The first corner piece from `j` on whose colours place `i` shows.
pub open spec fn find_corner(f: Seq<Color>, i: int, twist: int, j: int) -> Option<int>
    decreases 8 - j,
{
    if j < 0 || j >= 8 {
        None
    } else if corner_matches(f, i, twist, j) {
        Some(j)
    } else {
        find_corner(f, i, twist, j + 1)
    }
}

/// The corner piece in place `i`, if the stickers of the place are those
/// of a piece.
pub open spec fn corner_piece(f: Seq<Color>, i: int) -> Option<int> {
    match corner_twist(f, i) {
        Some(twist) => find_corner(f, i, twist, 0),
        None => None,
    }
}

/// Whether edge place `i` shows the colours of piece `j`, flipped where
/// `flip` is 1.
pub open spec fn edge_matches(f: Seq<Color>, i: int, flip: int, j: int) -> bool {
    &&& f[edge_facelet(i, flip)] == edge_color(j, 0)
    &&& f[edge_facelet(i, 1 - flip)] == edge_color(j, 1)
}

/// The first edge piece from `j` on whose colours place `i` shows, with its
/// flip.
pub open spec fn find_edge(f: Seq<Color>, i: int, j: int) -> Option<(int, int)>
    decreases 12 - j,
{
    if j < 0 || j >= 12 {
        None
    } else if edge_matches(f, i, 0, j) {
        Some((j, 0int))
    } else if edge_matches(f, i, 1, j) {
        Some((j, 1int))
    } else {
        find_edge(f, i, j + 1)
    }
}

/// The edge piece in place `i`, if the stickers of the place are those of
/// a piece.
pub open spec fn edge_piece(f: Seq<Color>, i: int) -> Option<int> {
    match find_edge(f, i, 0) {
        Some((piece, flip)) => Some(piece),
        None => None,
    }
}

/// The flip of the edge piece in place `i`, if the stickers of the place
/// are those of a piece.
pub open spec fn edge_flip(f: Seq<Color>, i: int) -> Option<int> {
    match find_edge(f, i, 0) {
        Some((piece, flip)) => Some(flip),
        None => None,
    }
}

/// Whether the six centres show the colours of their faces.
pub open spec fn centers_in_place(f: Seq<Color>) -> bool {
    &&& f[4] == Color::U
    &&& f[13] == Color::R
    &&& f[22] == Color::F
    &&& f[31] == Color::D
    &&& f[40] == Color::L
    &&& f[49] == Color::B
}

/// Whether the stickers of every place are those of some piece.
pub open spec fn all_pieces_found(f: Seq<Color>) -> bool {
    &&& forall|i: int| 0 <= i < 8 ==> (#[trigger] corner_piece(f, i)) is Some
    &&& forall|i: int| 0 <= i < 12 ==> (#[trigger] edge_piece(f, i)) is Some
}

/// The pieces that the stickers `f` show, place by place, where the centres
/// are in place and every place shows a piece.
pub open spec fn decode(f: Seq<Color>) -> Option<CubeState> {
    if f.len() == 54 && centers_in_place(f) && all_pieces_found(f) {
        Some(
            CubeState {
                cp: Seq::new(8, |i: int| corner_piece(f, i)->0),
                co: Seq::new(8, |i: int| corner_twist(f, i)->0),
                ep: Seq::new(12, |i: int| edge_piece(f, i)->0),
                eo: Seq::new(12, |i: int| edge_flip(f, i)->0),
            },
        )
    } else {
        None
    }
}

/// The stickers of a cube that shows on each face the colour of its centre.
pub open spec fn solved_colors() -> Seq<Color> {
    Seq::new(54, |i: int| face_color(i))
}

/// The sticker of corner place `i` that is number `n` of the place.
pub fn corner_sticker(i: usize, n: usize) -> (r: usize)
    requires
        i < 8,
        n < 3,
    ensures
        r == corner_facelet(i as int, n as int),
        r < 54,
{
    let k: usize = 3 * i + n;
    if k == 0 {
        0
    } else if k == 1 {
        36
    } else if k == 2 {
        47
    } else if k == 3 {
        2
    } else if k == 4 {
        45
    } else if k == 5 {
        11
    } else if k == 6 {
        8
    } else if k == 7 {
        9
    } else if k == 8 {
        20
    } else if k == 9 {
        6
    } else if k == 10 {
        18
    } else if k == 11 {
        38
    } else if k == 12 {
        27
    } else if k == 13 {
        44
    } else if k == 14 {
        24
    } else if k == 15 {
        29
    } else if k == 16 {
        26
    } else if k == 17 {
        15
    } else if k == 18 {
        35
    } else if k == 19 {
        17
    } else if k == 20 {
        51
    } else if k == 21 {
        33
    } else if k == 22 {
        53
    } else {
        42
    }
}

/// The sticker of edge place `i` that is number `n` of the place.
pub fn edge_sticker(i: usize, n: usize) -> (r: usize)
    requires
        i < 12,
        n < 2,
    ensures
        r == edge_facelet(i as int, n as int),
        r < 54,
{
    let k: usize = 2 * i + n;
    if k == 0 {
        50
    } else if k == 1 {
        39
    } else if k == 2 {
        48
    } else if k == 3 {
        14
    } else if k == 4 {
        23
    } else if k == 5 {
        12
    } else if k == 6 {
        21
    } else if k == 7 {
        41
    } else if k == 8 {
        1
    } else if k == 9 {
        46
    } else if k == 10 {
        5
    } else if k == 11 {
        10
    } else if k == 12 {
        7
    } else if k == 13 {
        19
    } else if k == 14 {
        3
    } else if k == 15 {
        37
    } else if k == 16 {
        28
    } else if k == 17 {
        25
    } else if k == 18 {
        32
    } else if k == 19 {
        16
    } else if k == 20 {
        34
    } else if k == 21 {
        52
    } else if k == 22 {
        30
    } else {
        43
    }
}

/// The colour of the centre of the face that sticker `i` lies on.
pub fn home_color(i: usize) -> (r: Color)
    ensures
        r == face_color(i as int),
{
    if i < 9 {
        Color::U
    } else if i < 18 {
        Color::R
    } else if i < 27 {
        Color::F
    } else if i < 36 {
        Color::D
    } else if i < 45 {
        Color::L
    } else {
        Color::B
    }
}

/// The colour that the symbol `c` names, if it names one.
pub fn symbol_color(c: char) -> (r: Option<Color>)
    ensures
        r == color_of(c),
{
    if c == 'U' {
        Some(Color::U)
    } else if c == 'R' {
        Some(Color::R)
    } else if c == 'F' {
        Some(Color::F)
    } else if c == 'D' {
        Some(Color::D)
    } else if c == 'L' {
        Some(Color::L)
    } else if c == 'B' {
        Some(Color::B)
    } else {
        None
    }
}

/// A cube as the colours of its 54 stickers.
#[derive(Clone, Copy, Debug, PartialEq, Eq)]
pub struct FaceCube {
    /// The colour of each sticker.
    pub f: [Color; 54],
}

impl View for FaceCube {
    type V = Seq<Color>;

    open spec fn view(&self) -> Seq<Color> {
        self.f@
    }
}

/// Whether `s` is a layout: 54 symbols that each name a face.
pub open spec fn is_layout(s: Seq<char>) -> bool {
    &&& s.len() == 54
    &&& forall|i: int| 0 <= i < 54 ==> (#[trigger] color_of(s[i])) is Some
}

impl FaceCube {
    /// The stickers that the layout `s` names, where it is one.
    pub fn parse(s: &str) -> (r: Result<FaceCube, Error>)
        ensures
            match r {
                Ok(cube) => is_layout(s@) && forall|i: int|
                    0 <= i < 54 ==> color_of(s@[i]) == Some(#[trigger] cube@[i]),
                Err(e) => e == Error::MalformedInput && !is_layout(s@),
            },
    {
        if s.unicode_len() != 54 {
            return Err(Error::MalformedInput);
        }
        let mut f: [Color; 54] = [Color::U;54];
        let mut i: usize = 0;
        while i < 54
            invariant
                i <= 54,
                s@.len() == 54,
                forall|j: int| 0 <= j < i ==> color_of(s@[j]) == Some(#[trigger] f@[j]),
            decreases 54 - i,
        {
            match symbol_color(s.get_char(i)) {
                Some(color) => {
                    f[i] = color;
                },
                None => {
                    proof {
                        assert(color_of(s@[i as int]) is None);
                    }
                    return Err(Error::MalformedInput);
                },
            }
            i += 1;
        }
        proof {
            assert forall|j: int| 0 <= j < 54 implies (#[trigger] color_of(s@[j])) is Some by {
                assert(color_of(s@[j]) == Some(f@[j]));
            }
        }
        Ok(FaceCube { f })
    }

    /// The twist of the corner in place `i` and the piece there, where the
    /// stickers of the place are those of a piece.
    pub fn corner_at(&self, i: usize) -> (r: Option<(u8, u8)>)
        requires
            i < 8,
        ensures
            match r {
                Some((piece, twist)) => corner_piece(self@, i as int) == Some(piece as int)
                    && corner_twist(self@, i as int) == Some(twist as int) && piece < 8 && twist
                    < 3,
                None => corner_piece(self@, i as int) is None,
            },
    {
        let c0: Color = self.f[corner_sticker(i, 0)];
        let c1: Color = self.f[corner_sticker(i, 1)];
        let c2: Color = self.f[corner_sticker(i, 2)];
        let twist: usize = if c0 == Color::U || c0 == Color::D {
            0
        } else if c1 == Color::U || c1 == Color::D {
            1
        } else if c2 == Color::U || c2 == Color::D {
            2
        } else {
            return None;
        };
        let a: Color = self.f[corner_sticker(i, twist)];
        let b: Color = self.f[corner_sticker(i, (twist + 1) % 3)];
        let c: Color = self.f[corner_sticker(i, (twist + 2) % 3)];
        let mut j: usize = 0;
        while j < 8
            invariant
                j <= 8,
                i < 8,
                twist < 3,
                corner_twist(self@, i as int) == Some(twist as int),
                a == self@[corner_facelet(i as int, twist as int)],
                b == self@[corner_facelet(i as int, (twist as int + 1) % 3)],
                c == self@[corner_facelet(i as int, (twist as int + 2) % 3)],
                find_corner(self@, i as int, twist as int, 0) == find_corner(
                    self@,
                    i as int,
                    twist as int,
                    j as int,
                ),
            decreases 8 - j,
        {
            if a == home_color(corner_sticker(j, 0)) && b == home_color(corner_sticker(j, 1)) && c
                == home_color(corner_sticker(j, 2)) {
                return Some((j as u8, twist as u8));
            }
            j += 1;
        }
        None
    }

    /// The edge piece in place `i` and its flip, where the stickers of the
    /// place are those of a piece.
    pub fn edge_at(&self, i: usize) -> (r: Option<(u8, u8)>)
        requires
            i < 12,
        ensures
            match r {
                Some((piece, flip)) => edge_piece(self@, i as int) == Some(piece as int)
                    && edge_flip(self@, i as int) == Some(flip as int) && piece < 12 && flip < 2,
                None => edge_piece(self@, i as int) is None,
            },
    {
        let a: Color = self.f[edge_sticker(i, 0)];
        let b: Color = self.f[edge_sticker(i, 1)];
        let mut j: usize = 0;
        while j < 12
            invariant
                j <= 12,
                i < 12,
                a == self@[edge_facelet(i as int, 0)],
                b == self@[edge_facelet(i as int, 1)],
                find_edge(self@, i as int, 0) == find_edge(self@, i as int, j as int),
            decreases 12 - j,
        {
            let x: Color = home_color(edge_sticker(j, 0));
            let y: Color = home_color(edge_sticker(j, 1));
            if a == x && b == y {
                return Some((j as u8, 0));
            }
            if b == x && a == y {
                return Some((j as u8, 1));
            }
            j += 1;
        }
        None
    }

    /// Whether the six centres show the colours of their faces.
    pub fn centers_in_place(&self) -> (r: bool)
        ensures
            r == centers_in_place(self@),
    {
        self.f[4] == Color::U && self.f[13] == Color::R && self.f[22] == Color::F && self.f[31]
            == Color::D && self.f[40] == Color::L && self.f[49] == Color::B
    }

    /// The cube that the stickers show. It is refused where a centre is out
    /// of place, where the stickers of a place are those of no piece, and
    /// where turning the faces of a solved cube cannot produce what they
    /// show.
    pub fn to_cubie(&self) -> (r: Result<CubieCube, Error>)
        ensures
            match r {
                Ok(cube) => decode(self@) == Some(cube@) && cube@.solvable(),
                Err(e) => e == Error::InvalidCubeState && (decode(self@) is None || !decode(
                    self@,
                )->0.solvable()),
            },
    {
        if !self.centers_in_place() {
            return Err(Error::InvalidCubeState);
        }
        let mut cube = CubieCube::solved();
        let mut i: usize = 0;
        while i < 8
            invariant
                i <= 8,
                forall|k: int|
                    0 <= k < i ==> corner_piece(self@, k) == Some(#[trigger] cube.cp[k] as int),
                forall|k: int|
                    0 <= k < i ==> corner_twist(self@, k) == Some(#[trigger] cube.co[k] as int),
            decreases 8 - i,
        {
            match self.corner_at(i) {
                Some((piece, twist)) => {
                    cube.cp[i] = piece;
                    cube.co[i] = twist;
                },
                None => {
                    return Err(Error::InvalidCubeState);
                },
            }
            i += 1;
        }
        let mut k: usize = 0;
        while k < 12
            invariant
                k <= 12,
                forall|j: int|
                    0 <= j < 8 ==> corner_piece(self@, j) == Some(#[trigger] cube.cp[j] as int),
                forall|j: int|
                    0 <= j < 8 ==> corner_twist(self@, j) == Some(#[trigger] cube.co[j] as int),
                forall|j: int|
                    0 <= j < k ==> edge_piece(self@, j) == Some(#[trigger] cube.ep[j] as int),
                forall|j: int|
                    0 <= j < k ==> edge_flip(self@, j) == Some(#[trigger] cube.eo[j] as int),
            decreases 12 - k,
        {
            match self.edge_at(k) {
                Some((piece, flip)) => {
                    cube.ep[k] = piece;
                    cube.eo[k] = flip;
                },
                None => {
                    return Err(Error::InvalidCubeState);
                },
            }
            k += 1;
        }
        proof {
            assert forall|j: int| 0 <= j < 8 implies (#[trigger] corner_piece(self@, j))
                is Some by {
                assert(corner_piece(self@, j) == Some(cube.cp[j] as int));
            }
            assert forall|j: int| 0 <= j < 12 implies (#[trigger] edge_piece(self@, j)) is Some by {
                assert(edge_piece(self@, j) == Some(cube.ep[j] as int));
            }
            let want = decode(self@)->0;
            assert forall|j: int| 0 <= j < 8 implies cube@.cp[j] == want.cp[j] && cube@.co[j]
                == want.co[j] by {
                assert(corner_piece(self@, j) == Some(cube.cp[j] as int));
                assert(corner_twist(self@, j) == Some(cube.co[j] as int));
            }
            assert forall|j: int| 0 <= j < 12 implies cube@.ep[j] == want.ep[j] && cube@.eo[j]
                == want.eo[j] by {
                assert(edge_piece(self@, j) == Some(cube.ep[j] as int));
                assert(edge_flip(self@, j) == Some(cube.eo[j] as int));
            }
            assert(cube@.cp =~= want.cp);
            assert(cube@.co =~= want.co);
            assert(cube@.ep =~= want.ep);
            assert(cube@.eo =~= want.eo);
        }
        if !cube.is_solvable() {
            return Err(Error::InvalidCubeState);
        }
        Ok(cube)
    }
}

/// The stickers of the solved cube show every piece in its own place,
/// untwisted.
pub proof fn lemma_solved_colors_decode()
    ensures
        decode(solved_colors()) == Some(CubeState::solved()),
{
    let f = solved_colors();
    reveal_with_fuel(find_corner, 9);
    reveal_with_fuel(find_edge, 13);
    assert forall|i: int| 0 <= i < 8 implies corner_twist(f, i) == Some(0int) && corner_piece(f, i)
        == Some(i) by {
        assert(corner_matches(f, i, 0, i));
    }
    assert forall|i: int| 0 <= i < 12 implies edge_piece(f, i) == Some(i) && edge_flip(f, i)
        == Some(0int) by {
        assert(edge_matches(f, i, 0, i));
    }
    let got = decode(f)->0;
    let want = CubeState::solved();
    assert(got.cp =~= want.cp);
    assert(got.co =~= want.co);
    assert(got.ep =~= want.ep);
    assert(got.eo =~= want.eo);
}

} // verus!
