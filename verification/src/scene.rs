//! The cube as a scene shows it: 27 small cubes with a place in a 3x3x3
//! grid and a colour on each side, turned layer by layer. From the scene to
//! the sticker layout that the solver reads, and from the solver's moves
//! back to layer turns.
//!
//! A place is `[x, y, z]` with `x` from left to right, `y` from down to up
//! and `z` from back to front. A colour is a number that the embedding
//! application chooses for it.

use std::collections::VecDeque;
use vstd::prelude::*;
use rand::Rng;
use crate::error::Error;
use crate::facelet::{decode, is_layout, FaceCube};
use crate::moves::Move;
use crate::solver::{solve_spec, Solver};
use crate::tables::{DataTable, MoveTable, PruningTable};

verus! {

/// The colour of a side that shows none.
pub const BLACK: u32 = 0;

/// The sense of a quarter turn of a layer, seen against the direction of
/// its axis.
#[derive(Clone, Copy, PartialEq, Eq, Debug, Structural)]
pub enum Direction {
    Clockwise,
    CounterClockwise,
}

/// The axis that a layer turns about.
#[derive(Clone, Copy, PartialEq, Eq, Debug, Structural)]
pub enum RotateAxis {
    X,
    Y,
    Z,
}

/// A quarter turn of one layer.
#[derive(Clone, Copy, PartialEq, Eq, Debug, Structural)]
pub struct Movement {
    /// The axis that the layer turns about.
    pub axis: RotateAxis,
    /// The layer, counted along the axis from 0.
    pub layer: u32,
    /// The sense of the turn.
    pub direction: Direction,
}

/// The sides of a small cube.
#[derive(Clone, Copy, Eq, PartialEq, Hash, Debug, Structural)]
pub enum Face {
    LEFT,
    RIGHT,
    UP,
    DOWN,
    FRONT,
    BACK,
    BEVELED,
}

impl Face {
    /// The place of the side in the colours of a small cube.
    pub open spec fn spec_index(self) -> int {
        match self {
            Face::LEFT => 0,
            Face::RIGHT => 1,
            Face::UP => 2,
            Face::DOWN => 3,
            Face::FRONT => 4,
            Face::BACK => 5,
            Face::BEVELED => 6,
        }
    }

    /// The place of the side in the colours of a small cube.
    pub fn index(self) -> (r: usize)
        ensures
            r == self.spec_index(),
            r < 7,
    {
        match self {
            Face::LEFT => 0,
            Face::RIGHT => 1,
            Face::UP => 2,
            Face::DOWN => 3,
            Face::FRONT => 4,
            Face::BACK => 5,
            Face::BEVELED => 6,
        }
    }
}

/// The size of the puzzle and the colours of its sides.
#[derive(Clone, Copy, PartialEq, Eq, Debug)]
pub struct Settings {
    /// The number of layers along each axis.
    pub layers: u32,
    pub color_up: u32,
    pub color_down: u32,
    pub color_left: u32,
    pub color_right: u32,
    pub color_front: u32,
    pub color_back: u32,
    pub color_beleved: u32,
}

/// A small cube: its place and the colour of each side.
#[derive(Clone, Copy, PartialEq, Eq, Debug)]
pub struct Cube {
    /// The place in the grid.
    pub coord: [i32; 3],
    /// The colour of each side, in the order of `Face`.
    pub colors: [u32; 7],
}

/// The place `c` after the turn `m` of a layer that holds it, in a puzzle
/// of `layers` layers.
pub open spec fn turned_coord(c: Seq<int>, m: Movement, layers: int) -> Seq<int> {
    let x = c[0];
    let y = c[1];
    let z = c[2];
    let top = layers - 1;
    match (m.axis, m.direction) {
        (RotateAxis::X, Direction::Clockwise) => seq![x, z, top - y],
        (RotateAxis::X, Direction::CounterClockwise) => seq![x, top - z, y],
        (RotateAxis::Y, Direction::Clockwise) => seq![top - z, y, x],
        (RotateAxis::Y, Direction::CounterClockwise) => seq![z, y, top - x],
        (RotateAxis::Z, Direction::Clockwise) => seq![y, top - x, z],
        (RotateAxis::Z, Direction::CounterClockwise) => seq![top - y, x, z],
    }
}

/// The side from which the side `face` of a small cube takes its colour in
/// the turn `m`.
pub open spec fn turned_from(face: Face, m: Movement) -> Face {
    match (m.axis, m.direction) {
        (RotateAxis::X, Direction::Clockwise) => match face {
            Face::UP => Face::FRONT,
            Face::DOWN => Face::BACK,
            Face::FRONT => Face::DOWN,
            Face::BACK => Face::UP,
            other => other,
        },
        (RotateAxis::X, Direction::CounterClockwise) => match face {
            Face::UP => Face::BACK,
            Face::DOWN => Face::FRONT,
            Face::FRONT => Face::UP,
            Face::BACK => Face::DOWN,
            other => other,
        },
        (RotateAxis::Y, Direction::Clockwise) => match face {
            Face::FRONT => Face::RIGHT,
            Face::BACK => Face::LEFT,
            Face::LEFT => Face::FRONT,
            Face::RIGHT => Face::BACK,
            other => other,
        },
        (RotateAxis::Y, Direction::CounterClockwise) => match face {
            Face::FRONT => Face::LEFT,
            Face::BACK => Face::RIGHT,
            Face::LEFT => Face::BACK,
            Face::RIGHT => Face::FRONT,
            other => other,
        },
        (RotateAxis::Z, Direction::Clockwise) => match face {
            Face::UP => Face::LEFT,
            Face::DOWN => Face::RIGHT,
            Face::LEFT => Face::DOWN,
            Face::RIGHT => Face::UP,
            other => other,
        },
        (RotateAxis::Z, Direction::CounterClockwise) => match face {
            Face::UP => Face::RIGHT,
            Face::DOWN => Face::LEFT,
            Face::LEFT => Face::UP,
            Face::RIGHT => Face::DOWN,
            other => other,
        },
    }
}

impl Cube {
    /// The place as mathematical integers.
    pub open spec fn place(&self) -> Seq<int> {
        seq![self.coord[0] as int, self.coord[1] as int, self.coord[2] as int]
    }

    /// The colour of the side `face`.
    pub open spec fn spec_color(&self, face: Face) -> u32 {
        self.colors[face.spec_index()]
    }

    /// Whether the cube lies in the grid of a puzzle of `layers` layers.
    pub open spec fn inside(&self, layers: int) -> bool {
        forall|k: int| 0 <= k < 3 ==> 0 <= #[trigger] self.coord[k] < layers
    }

    /// The colour of the side `face`.
    #[verifier::when_used_as_spec(spec_color)]
    pub fn color(&self, face: Face) -> (r: u32)
        ensures
            r == self.spec_color(face),
    {
        self.colors[face.index()]
    }

    /// Gives the side `face` the colour `color`.
    pub fn set_color(&mut self, face: Face, color: u32)
        ensures
            final(self).coord == old(self).coord,
            final(self).spec_color(face) == color,
            forall|other: Face| other != face ==> final(self).spec_color(other) == old(
                self,
            ).spec_color(other),
    {
        self.colors[face.index()] = color;
    }

    /// A small cube at `coord` with all sides black.
    pub fn at(coord: [i32; 3]) -> (r: Cube)
        ensures
            r.coord == coord,
            forall|face: Face| r.spec_color(face) == BLACK,
    {
        Cube { coord, colors: [BLACK;7] }
    }

    #[allow(unused)]
    pub fn down_dace(&self, setting: &Settings) -> (r: bool)
        ensures
            r == (self.coord[1] == 0),
    {
        self.coord[1] == 0
    }

    pub fn up_face(&self, setting: &Settings) -> (r: bool)
        ensures
            r == (self.coord[1] == setting.layers - 1),
    {
        self.coord[1] as i64 == setting.layers as i64 - 1
    }

    #[allow(unused)]
    pub fn left_face(&self, setting: &Settings) -> (r: bool)
        ensures
            r == (self.coord[0] == 0),
    {
        self.coord[0] == 0
    }

    pub fn right_face(&self, setting: &Settings) -> (r: bool)
        ensures
            r == (self.coord[0] == setting.layers - 1),
    {
        self.coord[0] as i64 == setting.layers as i64 - 1
    }

    #[allow(unused)]
    pub fn back_face(&self, setting: &Settings) -> (r: bool)
        ensures
            r == (self.coord[2] == 0),
    {
        self.coord[2] == 0
    }

    pub fn front_face(&self, setting: &Settings) -> (r: bool)
        ensures
            r == (self.coord[2] == setting.layers - 1),
    {
        self.coord[2] as i64 == setting.layers as i64 - 1
    }

    /// The colour that the side `face` gets from `setting` where the cube
    /// lies in the outer layer on that side, and its own where it does not;
    /// the bevel always gets its colour.
    pub open spec fn spec_painted(&self, setting: Settings, face: Face) -> u32 {
        let top = setting.layers - 1;
        match face {
            Face::DOWN => if self.coord[1] == 0 {
                setting.color_down
            } else {
                self.spec_color(face)
            },
            Face::UP => if self.coord[1] == top {
                setting.color_up
            } else {
                self.spec_color(face)
            },
            Face::LEFT => if self.coord[0] == 0 {
                setting.color_left
            } else {
                self.spec_color(face)
            },
            Face::RIGHT => if self.coord[0] == top {
                setting.color_right
            } else {
                self.spec_color(face)
            },
            Face::BACK => if self.coord[2] == 0 {
                setting.color_back
            } else {
                self.spec_color(face)
            },
            Face::FRONT => if self.coord[2] == top {
                setting.color_front
            } else {
                self.spec_color(face)
            },
            Face::BEVELED => setting.color_beleved,
        }
    }

    /// Paints the sides that lie on the outside of the puzzle, and the bevel.
    pub fn set_colors(&mut self, setting: &Settings)
        ensures
            final(self).coord == old(self).coord,
            forall|face: Face|
                final(self).spec_color(face) == old(self).spec_painted(*setting, face),
    {
        if self.down_dace(setting) {
            self.set_color(Face::DOWN, setting.color_down);
        }
        if self.up_face(setting) {
            self.set_color(Face::UP, setting.color_up);
        }
        if self.left_face(setting) {
            self.set_color(Face::LEFT, setting.color_left);
        }
        if self.right_face(setting) {
            self.set_color(Face::RIGHT, setting.color_right);
        }
        if self.back_face(setting) {
            self.set_color(Face::BACK, setting.color_back);
        }
        if self.front_face(setting) {
            self.set_color(Face::FRONT, setting.color_front);
        }
        self.set_color(Face::BEVELED, setting.color_beleved);
    }
}

impl Default for Cube {
    /// A small cube at the origin with all sides black.
    fn default() -> (r: Cube)
        ensures
            r.coord@ == seq![0i32, 0i32, 0i32],
            forall|face: Face| r.spec_color(face) == BLACK,
    {
        let r = Cube::at([0, 0, 0]);
        proof {
            assert(r.coord@ =~= seq![0i32, 0i32, 0i32]);
        }
        r
    }
}

/// Which of the three numbers of a place the turn `m` mirrors: 0, 1 or 2.
pub open spec fn mirrored(m: Movement) -> int {
    match (m.axis, m.direction) {
        (RotateAxis::X, Direction::Clockwise) => 1,
        (RotateAxis::X, Direction::CounterClockwise) => 2,
        (RotateAxis::Y, Direction::Clockwise) => 2,
        (RotateAxis::Y, Direction::CounterClockwise) => 0,
        (RotateAxis::Z, Direction::Clockwise) => 0,
        (RotateAxis::Z, Direction::CounterClockwise) => 1,
    }
}

/// Whether the number that the turn `m` mirrors in the place `c`, mirrored
/// in a puzzle of `layers` layers, is a number of the machine.
pub open spec fn mirror_fits(c: Seq<int>, m: Movement, layers: int) -> bool {
    i32::MIN <= layers - 1 - c[mirrored(m)] <= i32::MAX
}

/// Whether the turn `movement` can be made on the small cube in a puzzle of
/// `settings.layers` layers: whether the number that it mirrors, mirrored,
/// is a number of the machine. It is so for every small cube inside the
/// puzzle.
pub fn turn_fits(cube: &Cube, movement: &Movement, settings: &Settings) -> (r: bool)
    ensures
        r == mirror_fits(cube.place(), *movement, settings.layers as int),
        cube.inside(settings.layers as int) && settings.layers <= i32::MAX ==> r,
{
    let k: usize = if movement.axis == RotateAxis::X {
        if movement.direction == Direction::Clockwise {
            1
        } else {
            2
        }
    } else if movement.axis == RotateAxis::Y {
        if movement.direction == Direction::Clockwise {
            2
        } else {
            0
        }
    } else {
        if movement.direction == Direction::Clockwise {
            0
        } else {
            1
        }
    };
    proof {
        if cube.inside(settings.layers as int) {
            assert(0 <= cube.coord[k as int] < settings.layers);
        }
    }
    let turned: i64 = settings.layers as i64 - 1 - cube.coord[k] as i64;
    turned >= i32::MIN as i64 && turned <= i32::MAX as i64
}

/// Moves the small cube to the place that the turn `movement` of its layer
/// takes it to. A small cube inside the puzzle stays inside.
pub fn adjust_coords(cube: &mut Cube, movement: &Movement, settings: &Settings)
    requires
        mirror_fits(old(cube).place(), *movement, settings.layers as int),
    ensures
        final(cube).place() == turned_coord(old(cube).place(), *movement, settings.layers as int),
        old(cube).inside(settings.layers as int) ==> final(cube).inside(settings.layers as int),
        forall|face: Face| final(cube).spec_color(face) == old(cube).spec_color(face),
{
    let x: i32 = cube.coord[0];
    let y: i32 = cube.coord[1];
    let z: i32 = cube.coord[2];
    proof {
        if old(cube).inside(settings.layers as int) {
            assert(0 <= old(cube).coord[0] < settings.layers);
            assert(0 <= old(cube).coord[1] < settings.layers);
            assert(0 <= old(cube).coord[2] < settings.layers);
        }
    }
    let top: i64 = settings.layers as i64 - 1;
    if movement.axis == RotateAxis::X {
        if movement.direction == Direction::Clockwise {
            cube.coord[1] = z;
            cube.coord[2] = (top - y as i64) as i32;
        } else {
            cube.coord[1] = (top - z as i64) as i32;
            cube.coord[2] = y;
        }
    } else if movement.axis == RotateAxis::Y {
        if movement.direction == Direction::Clockwise {
            cube.coord[0] = (top - z as i64) as i32;
            cube.coord[2] = x;
        } else {
            cube.coord[0] = z;
            cube.coord[2] = (top - x as i64) as i32;
        }
    } else {
        if movement.direction == Direction::Clockwise {
            cube.coord[0] = y;
            cube.coord[1] = (top - x as i64) as i32;
        } else {
            cube.coord[0] = (top - y as i64) as i32;
            cube.coord[1] = x;
        }
    }
    proof {
        assert(final(cube).place() =~= turned_coord(
            old(cube).place(),
            *movement,
            settings.layers as int,
        ));
    }
}

/// Turns the colours of the small cube with the turn `movement` of its
/// layer.
pub fn adjust_faces(cube: &mut Cube, movement: &Movement)
    ensures
        final(cube).coord == old(cube).coord,
        forall|face: Face|
            final(cube).spec_color(face) == old(cube).spec_color(turned_from(face, *movement)),
{
    let up: u32 = cube.color(Face::UP);
    let down: u32 = cube.color(Face::DOWN);
    let front: u32 = cube.color(Face::FRONT);
    let back: u32 = cube.color(Face::BACK);
    let left: u32 = cube.color(Face::LEFT);
    let right: u32 = cube.color(Face::RIGHT);
    if movement.axis == RotateAxis::X {
        if movement.direction == Direction::Clockwise {
            cube.set_color(Face::UP, front);
            cube.set_color(Face::DOWN, back);
            cube.set_color(Face::FRONT, down);
            cube.set_color(Face::BACK, up);
            cube.set_color(Face::LEFT, left);
            cube.set_color(Face::RIGHT, right);
        } else {
            cube.set_color(Face::UP, back);
            cube.set_color(Face::DOWN, front);
            cube.set_color(Face::FRONT, up);
            cube.set_color(Face::BACK, down);
            cube.set_color(Face::LEFT, left);
            cube.set_color(Face::RIGHT, right);
        }
    } else if movement.axis == RotateAxis::Y {
        if movement.direction == Direction::Clockwise {
            cube.set_color(Face::UP, up);
            cube.set_color(Face::DOWN, down);
            cube.set_color(Face::FRONT, right);
            cube.set_color(Face::BACK, left);
            cube.set_color(Face::LEFT, front);
            cube.set_color(Face::RIGHT, back);
        } else {
            cube.set_color(Face::UP, up);
            cube.set_color(Face::DOWN, down);
            cube.set_color(Face::FRONT, left);
            cube.set_color(Face::BACK, right);
            cube.set_color(Face::LEFT, back);
            cube.set_color(Face::RIGHT, front);
        }
    } else {
        if movement.direction == Direction::Clockwise {
            cube.set_color(Face::UP, left);
            cube.set_color(Face::DOWN, right);
            cube.set_color(Face::FRONT, front);
            cube.set_color(Face::BACK, back);
            cube.set_color(Face::LEFT, down);
            cube.set_color(Face::RIGHT, up);
        } else {
            cube.set_color(Face::UP, right);
            cube.set_color(Face::DOWN, left);
            cube.set_color(Face::FRONT, front);
            cube.set_color(Face::BACK, back);
            cube.set_color(Face::LEFT, up);
            cube.set_color(Face::RIGHT, down);
        }
    }
}

impl RotateAxis {
    /// The place of the axis in a place of the grid: 0 for x, 1 for y, 2
    /// for z.
    pub open spec fn spec_index(self) -> int {
        match self {
            RotateAxis::X => 0,
            RotateAxis::Y => 1,
            RotateAxis::Z => 2,
        }
    }

    /// The place of the axis in a place of the grid.
    pub fn index(self) -> (r: usize)
        ensures
            r == self.spec_index(),
    {
        match self {
            RotateAxis::X => 0,
            RotateAxis::Y => 1,
            RotateAxis::Z => 2,
        }
    }
}

impl Direction {
    /// The other sense.
    pub open spec fn spec_opposite(self) -> Direction {
        match self {
            Direction::Clockwise => Direction::CounterClockwise,
            Direction::CounterClockwise => Direction::Clockwise,
        }
    }

    /// The other sense.
    #[verifier::when_used_as_spec(spec_opposite)]
    pub fn opposite(self) -> (r: Direction)
        ensures
            r == self.spec_opposite(),
    {
        match self {
            Direction::Clockwise => Direction::CounterClockwise,
            Direction::CounterClockwise => Direction::Clockwise,
        }
    }
}

impl Movement {
    /// Whether the turn moves the small cube: the cube lies in the layer
    /// turned.
    pub open spec fn spec_moves(self, cube: Cube) -> bool {
        cube.coord[self.axis.spec_index()] == self.layer
    }

    /// Whether the turn moves the small cube.
    pub fn moves(&self, cube: &Cube) -> (r: bool)
        ensures
            r == self.spec_moves(*cube),
    {
        let at: i32 = cube.coord[self.axis.index()];
        at >= 0 && at as u32 == self.layer
    }

    /// The turn that undoes this one.
    pub open spec fn spec_undo(self) -> Movement {
        Movement { axis: self.axis, layer: self.layer, direction: self.direction.spec_opposite() }
    }

    /// The turn that undoes this one.
    #[verifier::when_used_as_spec(spec_undo)]
    pub fn undo(self) -> (r: Movement)
        ensures
            r == self.spec_undo(),
    {
        Movement { axis: self.axis, layer: self.layer, direction: self.direction.opposite() }
    }
}

/// Turns the small cube with its layer where the turn `movement` moves it:
/// both its place and its colours. A small cube inside the puzzle stays
/// inside.
pub fn apply_movement(cube: &mut Cube, movement: &Movement, settings: &Settings)
    requires
        movement.spec_moves(*old(cube)) ==> mirror_fits(
            old(cube).place(),
            *movement,
            settings.layers as int,
        ),
    ensures
        old(cube).inside(settings.layers as int) ==> final(cube).inside(settings.layers as int),
        movement.spec_moves(*old(cube)) ==> final(cube).place() == turned_coord(
            old(cube).place(),
            *movement,
            settings.layers as int,
        ) && forall|face: Face|
            final(cube).spec_color(face) == old(cube).spec_color(turned_from(face, *movement)),
        !movement.spec_moves(*old(cube)) ==> *final(cube) == *old(cube),
{
    if movement.moves(cube) {
        adjust_coords(cube, movement, settings);
        adjust_faces(cube, movement);
    }
}

/// A turn keeps a small cube in the layer turned.
pub proof fn lemma_turn_keeps_layer(c: Seq<int>, m: Movement, layers: int)
    requires
        c.len() == 3,
    ensures
        turned_coord(c, m, layers).len() == 3,
        turned_coord(c, m, layers)[m.axis.spec_index()] == c[m.axis.spec_index()],
{
}

/// A turn followed by the turn that undoes it leaves every place and every
/// colour of a small cube as it was.
pub proof fn lemma_turn_then_undo(c: Seq<int>, m: Movement, layers: int, face: Face)
    requires
        c.len() == 3,
    ensures
        turned_coord(turned_coord(c, m, layers), m.spec_undo(), layers) == c,
        turned_from(turned_from(face, m.spec_undo()), m) == face,
{
    assert(turned_coord(turned_coord(c, m, layers), m.spec_undo(), layers) =~= c);
}

/// The same quarter turn made four times leaves every place and every
/// colour of a small cube as it was.
pub proof fn lemma_turn_four_times(c: Seq<int>, m: Movement, layers: int, face: Face)
    requires
        c.len() == 3,
    ensures
        turned_coord(
            turned_coord(turned_coord(turned_coord(c, m, layers), m, layers), m, layers),
            m,
            layers,
        ) == c,
        turned_from(turned_from(turned_from(turned_from(face, m), m), m), m) == face,
{
    assert(turned_coord(
        turned_coord(turned_coord(turned_coord(c, m, layers), m, layers), m, layers),
        m,
        layers,
    ) =~= c);
}

/// The place on the up face of the sticker of the small cube at `x`, `z`.
pub fn index_u(x: i32, z: i32) -> (r: usize)
    requires
        0 <= x < 3,
        0 <= z < 3,
    ensures
        r == z * 3 + x,
{
    (z * 3 + x) as usize
}

/// The place on the down face of the sticker of the small cube at `x`, `z`.
pub fn index_d(x: i32, z: i32) -> (r: usize)
    requires
        0 <= x < 3,
        0 <= z < 3,
    ensures
        r == (2 - z) * 3 + x,
{
    ((-z + 2) * 3 + x) as usize
}

/// The place on the front face of the sticker of the small cube at `x`,
/// `y`.
pub fn index_f(x: i32, y: i32) -> (r: usize)
    requires
        0 <= x < 3,
        0 <= y < 3,
    ensures
        r == (2 - y) * 3 + x,
{
    ((-y + 2) * 3 + x) as usize
}

/// The place on the back face of the sticker of the small cube at `x`, `y`.
pub fn index_b(x: i32, y: i32) -> (r: usize)
    requires
        0 <= x < 3,
        0 <= y < 3,
    ensures
        r == (2 - y) * 3 + (2 - x),
{
    ((-y + 2) * 3 + (-x + 2)) as usize
}

/// The place on the left face of the sticker of the small cube at `y`, `z`.
pub fn index_l(y: i32, z: i32) -> (r: usize)
    requires
        0 <= y < 3,
        0 <= z < 3,
    ensures
        r == (2 - y) * 3 + z,
{
    ((-y + 2) * 3 + z) as usize
}

/// The place on the right face of the sticker of the small cube at `y`,
/// `z`.
pub fn index_r(y: i32, z: i32) -> (r: usize)
    requires
        0 <= y < 3,
        0 <= z < 3,
    ensures
        r == (2 - y) * 3 + (2 - z),
{
    ((-y + 2) * 3 + (-z + 2)) as usize
}

/// The colours of the six centres, by which a sticker's colour names a
/// face.
#[derive(Clone, Copy, PartialEq, Eq, Debug)]
pub struct CenterColors {
    pub color_up: u32,
    pub color_down: u32,
    pub color_front: u32,
    pub color_back: u32,
    pub color_left: u32,
    pub color_right: u32,
}

/// Whether the small cube lies at `x`, `y`, `z`.
pub open spec fn lies_at(cube: Cube, x: int, y: int, z: int) -> bool {
    cube.coord[0] == x && cube.coord[1] == y && cube.coord[2] == z
}

/// The colour of the side `face` of the last of `cubes` that lies at `x`,
/// `y`, `z`; black where none lies there.
pub open spec fn center_color(cubes: Seq<Cube>, x: int, y: int, z: int, face: Face) -> u32
    decreases cubes.len(),
{
    if cubes.len() == 0 {
        BLACK
    } else if lies_at(cubes.last(), x, y, z) {
        cubes.last().spec_color(face)
    } else {
        center_color(cubes.drop_last(), x, y, z, face)
    }
}

/// The colours that the centres of `cubes` show.
pub open spec fn centers_of(cubes: Seq<Cube>) -> CenterColors {
    CenterColors {
        color_up: center_color(cubes, 1, 2, 1, Face::UP),
        color_down: center_color(cubes, 1, 0, 1, Face::DOWN),
        color_front: center_color(cubes, 1, 1, 2, Face::FRONT),
        color_back: center_color(cubes, 1, 1, 0, Face::BACK),
        color_left: center_color(cubes, 0, 1, 1, Face::LEFT),
        color_right: center_color(cubes, 2, 1, 1, Face::RIGHT),
    }
}

impl CenterColors {
    /// The colours that the centres of `value` show.
    pub fn from(value: &Vec<Cube>) -> (r: CenterColors)
        ensures
            r == centers_of(value@),
    {
        let mut f: u32 = BLACK;
        let mut b: u32 = BLACK;
        let mut u: u32 = BLACK;
        let mut d: u32 = BLACK;
        let mut l: u32 = BLACK;
        let mut r: u32 = BLACK;
        let mut i: usize = 0;
        while i < value.len()
            invariant
                i <= value.len(),
                u == center_color(value@.take(i as int), 1, 2, 1, Face::UP),
                d == center_color(value@.take(i as int), 1, 0, 1, Face::DOWN),
                f == center_color(value@.take(i as int), 1, 1, 2, Face::FRONT),
                b == center_color(value@.take(i as int), 1, 1, 0, Face::BACK),
                l == center_color(value@.take(i as int), 0, 1, 1, Face::LEFT),
                r == center_color(value@.take(i as int), 2, 1, 1, Face::RIGHT),
            decreases value.len() - i,
        {
            let cube: &Cube = &value[i];
            let x: i32 = cube.coord[0];
            let y: i32 = cube.coord[1];
            let z: i32 = cube.coord[2];
            proof {
                let next = value@.take(i as int + 1);
                assert(next.drop_last() =~= value@.take(i as int));
                assert(next.last() == value@[i as int]);
            }
            if x == 2 && y == 1 && z == 1 {
                r = cube.color(Face::RIGHT);
            } else if x == 0 && y == 1 && z == 1 {
                l = cube.color(Face::LEFT);
            } else if y == 2 && x == 1 && z == 1 {
                u = cube.color(Face::UP);
            } else if y == 0 && x == 1 && z == 1 {
                d = cube.color(Face::DOWN);
            } else if z == 2 && x == 1 && y == 1 {
                f = cube.color(Face::FRONT);
            } else if z == 0 && x == 1 && y == 1 {
                b = cube.color(Face::BACK);
            }
            i += 1;
        }
        proof {
            assert(value@.take(value.len() as int) =~= value@);
        }
        CenterColors {
            color_up: u,
            color_down: d,
            color_front: f,
            color_back: b,
            color_left: l,
            color_right: r,
        }
    }
}

/// The letter of the first face, in the order up, down, front, back, left,
/// right, whose centre has the colour `color`.
pub open spec fn symbol_of(centers: CenterColors, color: u32) -> Option<char> {
    if centers.color_up == color {
        Some('U')
    } else if centers.color_down == color {
        Some('D')
    } else if centers.color_front == color {
        Some('F')
    } else if centers.color_back == color {
        Some('B')
    } else if centers.color_left == color {
        Some('L')
    } else if centers.color_right == color {
        Some('R')
    } else {
        None
    }
}

/// The letter of the face whose centre has the colour `color`, where one
/// has it.
pub fn get_original_position(cube_state: &CenterColors, color: &u32) -> (r: Option<char>)
    ensures
        r == symbol_of(*cube_state, *color),
{
    if cube_state.color_up == *color {
        Some('U')
    } else if cube_state.color_down == *color {
        Some('D')
    } else if cube_state.color_front == *color {
        Some('F')
    } else if cube_state.color_back == *color {
        Some('B')
    } else if cube_state.color_left == *color {
        Some('L')
    } else if cube_state.color_right == *color {
        Some('R')
    } else {
        None
    }
}

/// The place in the layout of the sticker on the side `face` of the small
/// cube, where that side lies on the outside of a puzzle of 3 layers.
pub open spec fn slot_of(cube: Cube, face: Face) -> Option<int> {
    let x = cube.coord[0] as int;
    let y = cube.coord[1] as int;
    let z = cube.coord[2] as int;
    match face {
        Face::UP => if y == 2 {
            Some(z * 3 + x)
        } else {
            None
        },
        Face::DOWN => if y == 0 {
            Some(27 + (2 - z) * 3 + x)
        } else {
            None
        },
        Face::FRONT => if z == 2 {
            Some(18 + (2 - y) * 3 + x)
        } else {
            None
        },
        Face::BACK => if z == 0 {
            Some(45 + (2 - y) * 3 + (2 - x))
        } else {
            None
        },
        Face::LEFT => if x == 0 {
            Some(36 + (2 - y) * 3 + z)
        } else {
            None
        },
        Face::RIGHT => if x == 2 {
            Some(9 + (2 - y) * 3 + (2 - z))
        } else {
            None
        },
        Face::BEVELED => None,
    }
}

/// Whether the sticker on the side `face` of the small cube can be
/// written: it lies inside, or its colour is that of a centre.
pub open spec fn side_named(cube: Cube, centers: CenterColors, face: Face) -> bool {
    slot_of(cube, face) is Some ==> symbol_of(centers, cube.spec_color(face)) is Some
}

/// Whether the small cube lies in the grid of 3 layers and each of its
/// outer sides has the colour of a centre.
pub open spec fn showable(cube: Cube, centers: CenterColors) -> bool {
    &&& cube.inside(3)
    &&& side_named(cube, centers, Face::UP)
    &&& side_named(cube, centers, Face::DOWN)
    &&& side_named(cube, centers, Face::FRONT)
    &&& side_named(cube, centers, Face::BACK)
    &&& side_named(cube, centers, Face::LEFT)
    &&& side_named(cube, centers, Face::RIGHT)
}

/// The layout `layout` with the sticker on the side `face` of the small
/// cube written into it.
pub open spec fn with_side(layout: Seq<char>, cube: Cube, centers: CenterColors, face: Face) -> Seq<
    char,
> {
    match slot_of(cube, face) {
        Some(slot) => layout.update(slot, symbol_of(centers, cube.spec_color(face))->0),
        None => layout,
    }
}

/// The layout `layout` with the outer stickers of the small cube written
/// into it.
pub open spec fn with_cube(layout: Seq<char>, cube: Cube, centers: CenterColors) -> Seq<char> {
    with_side(
        with_side(
            with_side(
                with_side(
                    with_side(
                        with_side(layout, cube, centers, Face::UP),
                        cube,
                        centers,
                        Face::DOWN,
                    ),
                    cube,
                    centers,
                    Face::FRONT,
                ),
                cube,
                centers,
                Face::BACK,
            ),
            cube,
            centers,
            Face::LEFT,
        ),
        cube,
        centers,
        Face::RIGHT,
    )
}

/// The layout that `cubes` show: 54 places, `'0'` where no sticker was
/// written, else the letter of the last sticker written there.
pub open spec fn layout_of(cubes: Seq<Cube>, centers: CenterColors) -> Seq<char>
    decreases cubes.len(),
{
    if cubes.len() == 0 {
        Seq::new(54, |i: int| '0')
    } else {
        with_cube(layout_of(cubes.drop_last(), centers), cubes.last(), centers)
    }
}

/// Whether every one of `cubes` can be written.
pub open spec fn all_showable(cubes: Seq<Cube>, centers: CenterColors) -> bool {
    forall|i: int| 0 <= i < cubes.len() ==> showable(#[trigger] cubes[i], centers)
}

/// `String::push` of std: appends the character `c` to the end of the
/// string.
#[verifier::external_body]
fn push_char(s: &mut String, c: char)
    ensures
        final(s)@ == old(s)@.push(c),
{
    s.push(c)
}

/// The string of the symbols `chars`, in their order.
pub fn string_of(chars: &Vec<char>) -> (r: String)
    ensures
        r@ == chars@,
{
    let mut r = String::new();
    let mut i: usize = 0;
    while i < chars.len()
        invariant
            i <= chars.len(),
            r@ == chars@.take(i as int),
        decreases chars.len() - i,
    {
        push_char(&mut r, chars[i]);
        proof {
            assert(chars@.take(i as int).push(chars@[i as int]) =~= chars@.take(i as int + 1));
        }
        i += 1;
    }
    proof {
        assert(chars@.take(chars.len() as int) =~= chars@);
    }
    r
}

/// The sticker layout that the small cubes show, face by face, each
/// sticker as the letter of the face whose centre has its colour. It is
/// refused where a small cube lies outside the grid or shows a colour of no
/// centre on the outside.
pub fn cube_state_to_string(cubes: &Vec<Cube>, cube_state: &CenterColors) -> (r: Result<
    String,
    Error,
>)
    ensures
        match r {
            Ok(s) => all_showable(cubes@, *cube_state) && s@ == layout_of(cubes@, *cube_state),
            Err(e) => e == Error::MalformedInput && !all_showable(cubes@, *cube_state),
        },
{
    let mut ret: Vec<char> = vec!['0'; 54];
    proof {
        assert(ret@ =~= layout_of(cubes@.take(0), *cube_state));
    }
    let mut i: usize = 0;
    while i < cubes.len()
        invariant
            i <= cubes.len(),
            ret@.len() == 54,
            ret@ == layout_of(cubes@.take(i as int), *cube_state),
            forall|j: int| 0 <= j < i ==> showable(#[trigger] cubes@[j], *cube_state),
        decreases cubes.len() - i,
    {
        let cube: &Cube = &cubes[i];
        let x: i32 = cube.coord[0];
        let y: i32 = cube.coord[1];
        let z: i32 = cube.coord[2];
        if x < 0 || x > 2 || y < 0 || y > 2 || z < 0 || z > 2 {
            proof {
                assert(!cube.inside(3)) by {
                    if cube.inside(3) {
                        assert(0 <= cube.coord[0] < 3);
                        assert(0 <= cube.coord[1] < 3);
                        assert(0 <= cube.coord[2] < 3);
                    }
                }
                assert(!showable(cubes@[i as int], *cube_state));
            }
            return Err(Error::MalformedInput);
        }
        proof {
            let next = cubes@.take(i as int + 1);
            assert(next.drop_last() =~= cubes@.take(i as int));
            assert(next.last() == cubes@[i as int]);
            assert(cube.inside(3));
        }
        // U
        if y == 2 {
            let start: usize = 0;
            match get_original_position(cube_state, &cube.color(Face::UP)) {
                Some(c) => {
                    ret[start + index_u(x, z)] = c;
                },
                None => {
                    proof {
                        assert(!side_named(*cube, *cube_state, Face::UP));
                    }
                    return Err(Error::MalformedInput);
                },
            }
        }
        // D
        if y == 0 {
            let start: usize = 27;
            match get_original_position(cube_state, &cube.color(Face::DOWN)) {
                Some(c) => {
                    ret[start + index_d(x, z)] = c;
                },
                None => {
                    proof {
                        assert(!side_named(*cube, *cube_state, Face::DOWN));
                    }
                    return Err(Error::MalformedInput);
                },
            }
        }
        // F
        if z == 2 {
            let start: usize = 18;
            match get_original_position(cube_state, &cube.color(Face::FRONT)) {
                Some(c) => {
                    ret[start + index_f(x, y)] = c;
                },
                None => {
                    proof {
                        assert(!side_named(*cube, *cube_state, Face::FRONT));
                    }
                    return Err(Error::MalformedInput);
                },
            }
        }
        // B
        if z == 0 {
            let start: usize = 45;
            match get_original_position(cube_state, &cube.color(Face::BACK)) {
                Some(c) => {
                    ret[start + index_b(x, y)] = c;
                },
                None => {
                    proof {
                        assert(!side_named(*cube, *cube_state, Face::BACK));
                    }
                    return Err(Error::MalformedInput);
                },
            }
        }
        // L
        if x == 0 {
            let start: usize = 36;
            match get_original_position(cube_state, &cube.color(Face::LEFT)) {
                Some(c) => {
                    ret[start + index_l(y, z)] = c;
                },
                None => {
                    proof {
                        assert(!side_named(*cube, *cube_state, Face::LEFT));
                    }
                    return Err(Error::MalformedInput);
                },
            }
        }
        // R
        if x == 2 {
            let start: usize = 9;
            match get_original_position(cube_state, &cube.color(Face::RIGHT)) {
                Some(c) => {
                    ret[start + index_r(y, z)] = c;
                },
                None => {
                    proof {
                        assert(!side_named(*cube, *cube_state, Face::RIGHT));
                    }
                    return Err(Error::MalformedInput);
                },
            }
        }
        proof {
            assert(showable(*cube, *cube_state));
        }
        i += 1;
    }
    proof {
        assert(cubes@.take(cubes.len() as int) =~= cubes@);
    }
    Ok(string_of(&ret))
}

/// The quarter turns of a layer that the move `step` amounts to: one, or
/// for a half turn the same one twice.
pub open spec fn movements_of(step: Move) -> Seq<Movement> {
    let axis = if step.spec_face() < 2 {
        RotateAxis::Y
    } else if step.spec_face() < 4 {
        RotateAxis::X
    } else {
        RotateAxis::Z
    };
    let layer: u32 = if step.spec_face() % 2 == 0 {
        2
    } else {
        0
    };
    let against = if step.spec_face() % 2 == 0 {
        step.spec_turns() == 3
    } else {
        step.spec_turns() == 1
    };
    let m = Movement {
        axis,
        layer,
        direction: if against {
            Direction::CounterClockwise
        } else {
            Direction::Clockwise
        },
    };
    if step.spec_turns() == 2 {
        seq![m, m]
    } else {
        seq![m]
    }
}

/// The quarter turns of layers that the moves `moves` amount to, in order.
pub open spec fn all_movements(moves: Seq<Move>) -> Seq<Movement>
    decreases moves.len(),
{
    if moves.len() == 0 {
        Seq::empty()
    } else {
        all_movements(moves.drop_last()) + movements_of(moves.last())
    }
}

/// The quarter turns of layers that the moves `moves` amount to, in order.
pub fn generate_moves_from_string(moves: Vec<Move>) -> (ret: Vec<Movement>)
    ensures
        ret@ == all_movements(moves@),
{
    let mut ret: Vec<Movement> = Vec::new();
    let mut i: usize = 0;
    while i < moves.len()
        invariant
            i <= moves.len(),
            ret@ == all_movements(moves@.take(i as int)),
        decreases moves.len() - i,
    {
        let step: Move = moves[i];
        let mut m = Movement { axis: RotateAxis::X, layer: 0, direction: Direction::Clockwise };
        let mut double = false;
        match step {
            Move::U | Move::U2 | Move::U3 => {
                m.axis = RotateAxis::Y;
                m.layer = 2;
                if step == Move::U2 {
                    double = true;
                }
                if step == Move::U3 {
                    m.direction = Direction::CounterClockwise;
                }
            },
            Move::D | Move::D2 | Move::D3 => {
                m.axis = RotateAxis::Y;
                m.layer = 0;
                if step == Move::D2 {
                    double = true;
                }
                if step == Move::D {
                    m.direction = Direction::CounterClockwise;
                }
            },
            Move::R | Move::R2 | Move::R3 => {
                m.axis = RotateAxis::X;
                m.layer = 2;
                if step == Move::R2 {
                    double = true;
                }
                if step == Move::R3 {
                    m.direction = Direction::CounterClockwise;
                }
            },
            Move::L | Move::L2 | Move::L3 => {
                m.axis = RotateAxis::X;
                m.layer = 0;
                if step == Move::L2 {
                    double = true;
                }
                if step == Move::L {
                    m.direction = Direction::CounterClockwise;
                }
            },
            Move::F | Move::F2 | Move::F3 => {
                m.axis = RotateAxis::Z;
                m.layer = 2;
                if step == Move::F2 {
                    double = true;
                }
                if step == Move::F3 {
                    m.direction = Direction::CounterClockwise;
                }
            },
            Move::B | Move::B2 | Move::B3 => {
                m.axis = RotateAxis::Z;
                m.layer = 0;
                if step == Move::B2 {
                    double = true;
                }
                if step == Move::B {
                    m.direction = Direction::CounterClockwise;
                }
            },
        }
        proof {
            let next = moves@.take(i as int + 1);
            assert(next.drop_last() =~= moves@.take(i as int));
            assert(next.last() == step);
            if double {
                assert(ret@.push(m).push(m) =~= ret@ + movements_of(step));
            } else {
                assert(ret@.push(m) =~= ret@ + movements_of(step));
            }
        }
        ret.push(m);
        if double {
            ret.push(m);
        }
        i += 1;
    }
    proof {
        assert(moves@.take(moves.len() as int) =~= moves@);
    }
    ret
}

/// The generator of random numbers of the `rand` crate that belongs to the
/// running thread; nothing of what it holds is known here.
#[verifier::external_type_specification]
#[verifier::external_body]
pub struct ExThreadRng(rand::rngs::ThreadRng);

/// `rand::thread_rng`: a handle on the generator of the running thread.
/// Nothing is claimed of it.
#[verifier::external_body]
fn thread_generator() -> (r: rand::rngs::ThreadRng) {
    rand::thread_rng()
}

/// `Rng::gen_range` of the `rand` crate on the range `0..bound`: a value of
/// that range. The call panics on an empty range, so `bound` must not be 0.
#[verifier::external_body]
fn random_below(rng: &mut rand::rngs::ThreadRng, bound: u32) -> (r: u32)
    requires
        bound > 0,
    ensures
        r < bound,
{
    rng.gen_range(0..bound)
}

/// The turn that three draws select: the axis by a number below 3, the
/// layer, and the direction by a number below 2.
pub open spec fn spec_movement_from_draws(axis: u32, layer: u32, direction: u32) -> Movement {
    Movement {
        axis: if axis == 0 {
            RotateAxis::X
        } else if axis == 1 {
            RotateAxis::Y
        } else {
            RotateAxis::Z
        },
        layer,
        direction: if direction == 0 {
            Direction::Clockwise
        } else {
            Direction::CounterClockwise
        },
    }
}

/// The turn that three draws select.
pub fn movement_from_draws(axis: u32, layer: u32, direction: u32) -> (r: Movement)
    ensures
        r == spec_movement_from_draws(axis, layer, direction),
{
    Movement {
        axis: if axis == 0 {
            RotateAxis::X
        } else if axis == 1 {
            RotateAxis::Y
        } else {
            RotateAxis::Z
        },
        layer,
        direction: if direction == 0 {
            Direction::Clockwise
        } else {
            Direction::CounterClockwise
        },
    }
}

/// `steps` turns drawn at random, each of one of the three layers of an
/// axis.
pub fn gen_random_movements(steps: u32) -> (ret: VecDeque<Movement>)
    ensures
        ret@.len() == steps,
        forall|i: int| 0 <= i < steps ==> (#[trigger] ret@[i]).layer < 3,
{
    let mut rng = thread_generator();
    let mut ret: VecDeque<Movement> = VecDeque::new();
    let mut cnt: u32 = 0;
    while cnt < steps
        invariant
            cnt <= steps,
            ret@.len() == cnt,
            forall|i: int| 0 <= i < cnt ==> (#[trigger] ret@[i]).layer < 3,
        decreases steps - cnt,
    {
        let axis = random_below(&mut rng, 3);
        let layer = random_below(&mut rng, 3);
        let direction = random_below(&mut rng, 2);
        let next = movement_from_draws(axis, layer, direction);
        ret.push_back(next);
        cnt += 1;
    }
    ret
}

/// The budget of moves that `solve` gives the search.
pub const MAX_LENGTH: u8 = 23;

/// What `solve_within` returns for the small cubes `cubes` with the tables
/// `mt` and `pt` and the budget `budget`: the layout is read from the
/// scene, the cube from the layout, and the moves of the solution found for
/// it are made layer turns.
pub open spec fn solve_scene(
    cubes: Seq<Cube>,
    mt: MoveTable,
    pt: PruningTable,
    budget: int,
) -> Result<Seq<Movement>, Error> {
    let centers = centers_of(cubes);
    let layout = layout_of(cubes, centers);
    if !all_showable(cubes, centers) || !is_layout(layout) {
        Err(Error::MalformedInput)
    } else {
        let stickers = Seq::new(54, |i: int| crate::facelet::color_of(layout[i])->0);
        match decode(stickers) {
            Some(state) => if state.solvable() {
                match solve_spec(mt, pt, state, budget) {
                    Some(solution) => Ok(all_movements(solution.all())),
                    None => Err(Error::NoSolutionWithinBudget),
                }
            } else {
                Err(Error::InvalidCubeState)
            },
            None => Err(Error::InvalidCubeState),
        }
    }
}

/// The view of a list of turns that may be an error.
pub open spec fn turns_of(r: Result<Vec<Movement>, Error>) -> Result<Seq<Movement>, Error> {
    match r {
        Ok(v) => Ok(v@),
        Err(e) => Err(e),
    }
}

/// The layer turns that solve the cube that the small cubes `cubes` show,
/// found with the tables `table` and a budget of `max_length` moves. The
/// scene is refused where it shows no layout or no cube that turning the
/// faces of a solved cube can produce; the search may end without a
/// solution within the budget.
pub fn solve_within(cubes: &Vec<Cube>, table: &DataTable, max_length: u8) -> (r: Result<
    Vec<Movement>,
    Error,
>)
    ensures
        turns_of(r) == solve_scene(cubes@, table.moves(), table.distances(), max_length as int),
{
    let cube_state = CenterColors::from(cubes);
    let state_str = match cube_state_to_string(cubes, &cube_state) {
        Ok(s) => s,
        Err(e) => {
            return Err(e);
        },
    };
    let face = match FaceCube::parse(state_str.as_str()) {
        Ok(f) => f,
        Err(e) => {
            return Err(e);
        },
    };
    proof {
        let layout = layout_of(cubes@, cube_state);
        let stickers = Seq::new(54, |i: int| crate::facelet::color_of(layout[i])->0);
        assert(face@ =~= stickers);
    }
    let state = match face.to_cubie() {
        Ok(c) => c,
        Err(e) => {
            return Err(e);
        },
    };
    let mut solver = Solver::new(table, max_length);
    match solver.solve(state) {
        Some(solution) => Ok(generate_moves_from_string(solution.get_all_moves())),
        None => Err(Error::NoSolutionWithinBudget),
    }
}

/// The layer turns that solve the cube that the small cubes `cubes` show,
/// found with the tables `table` and a budget of 23 moves.
pub fn solve(cubes: &Vec<Cube>, table: &DataTable) -> (r: Result<Vec<Movement>, Error>)
    ensures
        turns_of(r) == solve_scene(
            cubes@,
            table.moves(),
            table.distances(),
            MAX_LENGTH as int,
        ),
{
    solve_within(cubes, table, MAX_LENGTH)
}

} // verus!
