use cube_solver::scene::{
    adjust_coords, adjust_faces, apply_movement, cube_state_to_string, gen_random_movements,
    generate_moves_from_string, get_original_position, index_b, index_d, index_f, index_l, index_r,
    index_u, movement_from_draws, solve, solve_within, string_of, turn_fits, CenterColors, Face,
    BLACK, MAX_LENGTH,
};
use cube_solver::{
    Cube, CubieCube, DataTable, Direction, Error, FaceCube, Move, Movement, RotateAxis, Settings,
};

const SOLVED: &str = "UUUUUUUUURRRRRRRRRFFFFFFFFFDDDDDDDDDLLLLLLLLLBBBBBBBBB";

fn settings() -> Settings {
    Settings {
        layers: 3,
        color_up: 11,
        color_down: 12,
        color_left: 13,
        color_right: 14,
        color_front: 15,
        color_back: 16,
        color_beleved: 17,
    }
}

fn solved_scene() -> Vec<Cube> {
    let s = settings();
    let mut cubes = Vec::new();
    for x in 0..3 {
        for y in 0..3 {
            for z in 0..3 {
                let mut cube = Cube::at([x, y, z]);
                cube.set_colors(&s);
                cubes.push(cube);
            }
        }
    }
    cubes
}

fn turn(cubes: &mut Vec<Cube>, m: &Movement) {
    let s = settings();
    let k = match m.axis {
        RotateAxis::X => 0,
        RotateAxis::Y => 1,
        RotateAxis::Z => 2,
    };
    for cube in cubes.iter_mut() {
        if cube.coord[k] == m.layer as i32 {
            adjust_coords(cube, m, &s);
            adjust_faces(cube, m);
        }
    }
}

fn layout(cubes: &Vec<Cube>) -> String {
    let centers = CenterColors::from(cubes);
    cube_state_to_string(cubes, &centers).unwrap()
}

#[test]
fn sticker_places_on_each_face() {
    assert_eq!(index_u(0, 0), 0);
    assert_eq!(index_u(2, 0), 2);
    assert_eq!(index_u(1, 2), 7);
    assert_eq!(index_d(0, 2), 0);
    assert_eq!(index_d(2, 0), 8);
    assert_eq!(index_f(0, 2), 0);
    assert_eq!(index_f(2, 0), 8);
    assert_eq!(index_b(2, 2), 0);
    assert_eq!(index_b(0, 0), 8);
    assert_eq!(index_l(2, 0), 0);
    assert_eq!(index_l(0, 2), 8);
    assert_eq!(index_r(2, 2), 0);
    assert_eq!(index_r(0, 0), 8);
    assert_eq!(index_r(1, 0), 5);
}

#[test]
fn a_new_cube_is_black() {
    let c = Cube::default();
    assert_eq!(c.coord, [0, 0, 0]);
    let faces =
        [Face::LEFT, Face::RIGHT, Face::UP, Face::DOWN, Face::FRONT, Face::BACK, Face::BEVELED];
    for face in faces {
        assert_eq!(c.color(face), BLACK);
    }
    assert_eq!(Face::LEFT.index(), 0);
    assert_eq!(Face::BEVELED.index(), 6);
}

#[test]
fn outer_sides_are_painted() {
    let s = settings();
    let mut corner = Cube::at([2, 2, 0]);
    corner.set_colors(&s);
    assert_eq!(corner.color(Face::RIGHT), 14);
    assert_eq!(corner.color(Face::UP), 11);
    assert_eq!(corner.color(Face::BACK), 16);
    assert_eq!(corner.color(Face::LEFT), BLACK);
    assert_eq!(corner.color(Face::DOWN), BLACK);
    assert_eq!(corner.color(Face::FRONT), BLACK);
    assert_eq!(corner.color(Face::BEVELED), 17);
    assert!(corner.up_face(&s));
    assert!(corner.right_face(&s));
    assert!(corner.back_face(&s));
    assert!(!corner.down_dace(&s));
    assert!(!corner.left_face(&s));
    assert!(!corner.front_face(&s));
}

#[test]
fn layer_turns_move_the_small_cubes() {
    let s = settings();
    let cases = [
        (RotateAxis::X, Direction::Clockwise, [2, 2, 2], [2, 2, 0]),
        (RotateAxis::X, Direction::CounterClockwise, [2, 2, 2], [2, 0, 2]),
        (RotateAxis::Y, Direction::Clockwise, [2, 2, 2], [0, 2, 2]),
        (RotateAxis::Y, Direction::CounterClockwise, [2, 2, 2], [2, 2, 0]),
        (RotateAxis::Z, Direction::Clockwise, [2, 2, 2], [2, 0, 2]),
        (RotateAxis::Z, Direction::CounterClockwise, [2, 2, 2], [0, 2, 2]),
        (RotateAxis::Z, Direction::Clockwise, [1, 2, 2], [2, 1, 2]),
        (RotateAxis::X, Direction::Clockwise, [0, 1, 2], [0, 2, 1]),
    ];
    for (axis, direction, from, to) in cases {
        let mut cube = Cube::at(from);
        let layer = match axis {
            RotateAxis::X => from[0],
            RotateAxis::Y => from[1],
            RotateAxis::Z => from[2],
        } as u32;
        adjust_coords(&mut cube, &Movement { axis, layer, direction }, &s);
        assert_eq!(cube.coord, to);
    }
}

fn shown(c: &Cube) -> [u32; 6] {
    [
        c.color(Face::UP),
        c.color(Face::DOWN),
        c.color(Face::FRONT),
        c.color(Face::BACK),
        c.color(Face::LEFT),
        c.color(Face::RIGHT),
    ]
}

#[test]
fn layer_turns_carry_the_colours() {
    let mut cube = Cube::at([2, 2, 2]);
    cube.set_color(Face::UP, 1);
    cube.set_color(Face::DOWN, 2);
    cube.set_color(Face::FRONT, 3);
    cube.set_color(Face::BACK, 4);
    cube.set_color(Face::LEFT, 5);
    cube.set_color(Face::RIGHT, 6);
    let mut x = cube;
    let cw = Direction::Clockwise;
    adjust_faces(&mut x, &Movement { axis: RotateAxis::X, layer: 2, direction: cw });
    assert_eq!(shown(&x), [3, 4, 2, 1, 5, 6]);
    let mut y = cube;
    let ccw = Direction::CounterClockwise;
    adjust_faces(&mut y, &Movement { axis: RotateAxis::Y, layer: 2, direction: ccw });
    assert_eq!(shown(&y), [1, 2, 5, 6, 4, 3]);
    let mut z = cube;
    adjust_faces(&mut z, &Movement { axis: RotateAxis::Z, layer: 2, direction: cw });
    assert_eq!(shown(&z), [5, 6, 3, 4, 2, 1]);
}

#[test]
fn four_quarter_turns_restore_the_scene() {
    for axis in [RotateAxis::X, RotateAxis::Y, RotateAxis::Z] {
        for direction in [Direction::Clockwise, Direction::CounterClockwise] {
            let mut cubes = solved_scene();
            let m = Movement { axis, layer: 2, direction };
            turn(&mut cubes, &m);
            assert_ne!(layout(&cubes), SOLVED);
            turn(&mut cubes, &m);
            turn(&mut cubes, &m);
            turn(&mut cubes, &m);
            assert_eq!(layout(&cubes), SOLVED);
        }
    }
}

#[test]
fn centres_are_read_from_the_scene() {
    let cubes = solved_scene();
    let centers = CenterColors::from(&cubes);
    assert_eq!(centers.color_up, 11);
    assert_eq!(centers.color_down, 12);
    assert_eq!(centers.color_left, 13);
    assert_eq!(centers.color_right, 14);
    assert_eq!(centers.color_front, 15);
    assert_eq!(centers.color_back, 16);
    assert_eq!(get_original_position(&centers, &11), Some('U'));
    assert_eq!(get_original_position(&centers, &12), Some('D'));
    assert_eq!(get_original_position(&centers, &15), Some('F'));
    assert_eq!(get_original_position(&centers, &16), Some('B'));
    assert_eq!(get_original_position(&centers, &13), Some('L'));
    assert_eq!(get_original_position(&centers, &14), Some('R'));
    assert_eq!(get_original_position(&centers, &17), None);
    let none: Vec<Cube> = Vec::new();
    assert_eq!(CenterColors::from(&none).color_up, BLACK);
}

#[test]
fn layout_of_the_solved_scene() {
    assert_eq!(layout(&solved_scene()), SOLVED);
}

#[test]
fn scene_layout_after_a_right_turn() {
    let mut cubes = solved_scene();
    for m in generate_moves_from_string(vec![Move::R]) {
        turn(&mut cubes, &m);
    }
    assert_eq!(layout(&cubes), "UUFUUFUUFRRRRRRRRRFFDFFDFFDDDBDDBDDBLLLLLLLLLUBBUBBUBB");
}

#[test]
fn scene_and_cubie_model_agree_on_every_move() {
    let all = [
        Move::U, Move::U2, Move::U3, Move::D, Move::D2, Move::D3, Move::R, Move::R2, Move::R3,
        Move::L, Move::L2, Move::L3, Move::F, Move::F2, Move::F3, Move::B, Move::B2, Move::B3,
    ];
    let mut cubes = solved_scene();
    let mut state = CubieCube::solved();
    for round in 0..3 {
        for (i, m) in all.iter().enumerate() {
            if (i + round) % 3 == 1 {
                continue;
            }
            for t in generate_moves_from_string(vec![*m]) {
                turn(&mut cubes, &t);
            }
            state = state.apply_move(*m);
            let face = FaceCube::parse(&layout(&cubes)).unwrap();
            assert_eq!(face.to_cubie().unwrap(), state);
        }
    }
}

#[test]
fn a_cube_outside_the_grid_is_malformed() {
    let mut cubes = solved_scene();
    cubes[0].coord = [3, 0, 0];
    let centers = CenterColors::from(&cubes);
    assert_eq!(cube_state_to_string(&cubes, &centers), Err(Error::MalformedInput));
    cubes[0].coord = [0, -1, 0];
    assert_eq!(cube_state_to_string(&cubes, &centers), Err(Error::MalformedInput));
}

#[test]
fn a_colour_of_no_centre_is_malformed() {
    let mut cubes = solved_scene();
    cubes[26].set_color(Face::UP, 99);
    let centers = CenterColors::from(&cubes);
    assert_eq!(cube_state_to_string(&cubes, &centers), Err(Error::MalformedInput));
    let table_free: Vec<Cube> = vec![Cube::at([1, 1, 1])];
    let c = CenterColors::from(&table_free);
    assert_eq!(cube_state_to_string(&table_free, &c).unwrap(), "0".repeat(54));
}

#[test]
fn moves_become_layer_turns() {
    let y2 = |d| Movement { axis: RotateAxis::Y, layer: 2, direction: d };
    let y0 = |d| Movement { axis: RotateAxis::Y, layer: 0, direction: d };
    let x2 = |d| Movement { axis: RotateAxis::X, layer: 2, direction: d };
    let x0 = |d| Movement { axis: RotateAxis::X, layer: 0, direction: d };
    let z2 = |d| Movement { axis: RotateAxis::Z, layer: 2, direction: d };
    let z0 = |d| Movement { axis: RotateAxis::Z, layer: 0, direction: d };
    let cw = Direction::Clockwise;
    let ccw = Direction::CounterClockwise;
    assert_eq!(generate_moves_from_string(vec![Move::U]), vec![y2(cw)]);
    assert_eq!(generate_moves_from_string(vec![Move::U2]), vec![y2(cw), y2(cw)]);
    assert_eq!(generate_moves_from_string(vec![Move::U3]), vec![y2(ccw)]);
    assert_eq!(generate_moves_from_string(vec![Move::D]), vec![y0(ccw)]);
    assert_eq!(generate_moves_from_string(vec![Move::D2]), vec![y0(cw), y0(cw)]);
    assert_eq!(generate_moves_from_string(vec![Move::D3]), vec![y0(cw)]);
    assert_eq!(generate_moves_from_string(vec![Move::R]), vec![x2(cw)]);
    assert_eq!(generate_moves_from_string(vec![Move::R3]), vec![x2(ccw)]);
    assert_eq!(generate_moves_from_string(vec![Move::L]), vec![x0(ccw)]);
    assert_eq!(generate_moves_from_string(vec![Move::L3]), vec![x0(cw)]);
    assert_eq!(generate_moves_from_string(vec![Move::F]), vec![z2(cw)]);
    assert_eq!(generate_moves_from_string(vec![Move::F3]), vec![z2(ccw)]);
    assert_eq!(generate_moves_from_string(vec![Move::B]), vec![z0(ccw)]);
    assert_eq!(generate_moves_from_string(vec![Move::B2]), vec![z0(cw), z0(cw)]);
    assert_eq!(generate_moves_from_string(vec![Move::B3]), vec![z0(cw)]);
    assert_eq!(
        generate_moves_from_string(vec![Move::R2, Move::U3, Move::L]),
        vec![x2(cw), x2(cw), y2(ccw), x0(ccw)]
    );
    assert_eq!(generate_moves_from_string(vec![]), vec![]);
}

#[test]
fn random_turns_stay_in_the_puzzle() {
    let turns = gen_random_movements(300);
    assert_eq!(turns.len(), 300);
    let mut layers = [0u32; 3];
    let mut axes = [0u32; 3];
    let mut senses = [0u32; 2];
    for t in &turns {
        assert!(t.layer < 3);
        layers[t.layer as usize] += 1;
        match t.axis {
            RotateAxis::X => axes[0] += 1,
            RotateAxis::Y => axes[1] += 1,
            RotateAxis::Z => axes[2] += 1,
        }
        match t.direction {
            Direction::Clockwise => senses[0] += 1,
            Direction::CounterClockwise => senses[1] += 1,
        }
    }
    assert!(layers.iter().all(|n| *n > 0));
    assert!(axes.iter().all(|n| *n > 0));
    assert!(senses.iter().all(|n| *n > 0));
    assert_eq!(gen_random_movements(0).len(), 0);
}

#[test]
fn draws_select_a_turn() {
    assert_eq!(
        movement_from_draws(0, 2, 0),
        Movement { axis: RotateAxis::X, layer: 2, direction: Direction::Clockwise }
    );
    assert_eq!(
        movement_from_draws(1, 0, 1),
        Movement { axis: RotateAxis::Y, layer: 0, direction: Direction::CounterClockwise }
    );
    assert_eq!(
        movement_from_draws(2, 1, 0),
        Movement { axis: RotateAxis::Z, layer: 1, direction: Direction::Clockwise }
    );
}

#[test]
fn a_scrambled_scene_is_solved_by_the_turns_returned() {
    let table = DataTable::default();
    let mut cubes = solved_scene();
    let scramble =
        vec![Move::R, Move::U3, Move::F2, Move::L, Move::D, Move::B3, Move::U2, Move::R3];
    for m in generate_moves_from_string(scramble) {
        turn(&mut cubes, &m);
    }
    assert_ne!(layout(&cubes), SOLVED);
    let turns = solve(&cubes, &table).unwrap();
    for m in &turns {
        turn(&mut cubes, m);
    }
    assert_eq!(layout(&cubes), SOLVED);
}

#[test]
fn outer_layer_turns_drawn_at_random_are_undone() {
    let table = DataTable::default();
    let mut cubes = solved_scene();
    for m in gen_random_movements(40) {
        if m.layer != 1 {
            turn(&mut cubes, &m);
        }
    }
    let turns = solve(&cubes, &table).unwrap();
    for m in &turns {
        turn(&mut cubes, m);
    }
    assert_eq!(layout(&cubes), SOLVED);
}

#[test]
fn a_solved_scene_needs_no_turn() {
    let table = DataTable::default();
    assert_eq!(solve(&solved_scene(), &table), Ok(vec![]));
}

#[test]
fn an_impossible_scene_is_refused() {
    let table = DataTable::default();
    let mut cubes = solved_scene();
    // the small cube at the up-front edge, turned in place
    let at = cubes.iter().position(|c| c.coord == [1, 2, 2]).unwrap();
    let up = cubes[at].color(Face::UP);
    let front = cubes[at].color(Face::FRONT);
    cubes[at].set_color(Face::UP, front);
    cubes[at].set_color(Face::FRONT, up);
    assert_eq!(solve(&cubes, &table), Err(Error::InvalidCubeState));
    let mut outside = solved_scene();
    outside[3].coord = [5, 5, 5];
    assert_eq!(solve(&outside, &table), Err(Error::MalformedInput));
    let empty: Vec<Cube> = Vec::new();
    assert_eq!(solve(&empty, &table), Err(Error::MalformedInput));
}

#[test]
fn a_turn_moves_the_cubes_of_its_layer_only() {
    let s = settings();
    let m = Movement { axis: RotateAxis::Y, layer: 2, direction: Direction::Clockwise };
    let mut top = Cube::at([2, 2, 2]);
    top.set_colors(&s);
    assert!(m.moves(&top));
    let before = top;
    apply_movement(&mut top, &m, &s);
    assert_eq!(top.coord, [0, 2, 2]);
    assert_eq!(top.color(Face::LEFT), before.color(Face::FRONT));
    assert_eq!(top.color(Face::FRONT), before.color(Face::RIGHT));
    let mut low = Cube::at([2, 0, 2]);
    low.set_colors(&s);
    assert!(!m.moves(&low));
    let kept = low;
    apply_movement(&mut low, &m, &s);
    assert_eq!(low, kept);
    let outside = Cube::at([0, -1, 0]);
    let zero = Movement { axis: RotateAxis::Y, layer: 0, direction: Direction::Clockwise };
    assert!(!zero.moves(&outside));
}

#[test]
fn a_turn_carries_a_cube_outside_the_puzzle_too() {
    let s = settings();
    let mut cube = Cube::at([5, 1, -2]);
    let m = Movement { axis: RotateAxis::X, layer: 5, direction: Direction::Clockwise };
    adjust_coords(&mut cube, &m, &s);
    assert_eq!(cube.coord, [5, -2, 1]);
    let back = Movement { axis: RotateAxis::X, layer: 5, direction: Direction::CounterClockwise };
    assert!(back.moves(&cube));
    apply_movement(&mut cube, &back, &s);
    assert_eq!(cube.coord, [5, 1, -2]);
    let mut far = Cube::at([i32::MAX, 7, i32::MIN]);
    let z = Movement { axis: RotateAxis::Z, layer: 1, direction: Direction::CounterClockwise };
    assert!(turn_fits(&far, &z, &s));
    let y = Movement { axis: RotateAxis::Y, layer: 7, direction: Direction::Clockwise };
    assert!(!turn_fits(&far, &y, &s));
    let x = Movement { axis: RotateAxis::X, layer: 0, direction: Direction::CounterClockwise };
    assert!(!turn_fits(&far, &x, &s));
    adjust_coords(&mut far, &z, &s);
    assert_eq!(far.coord, [-5, i32::MAX, i32::MIN]);
    for cube in solved_scene() {
        assert!(turn_fits(&cube, &x, &s) && turn_fits(&cube, &y, &s) && turn_fits(&cube, &z, &s));
    }
}

#[test]
fn a_turn_is_undone_by_the_opposite_turn() {
    let s = settings();
    for axis in [RotateAxis::X, RotateAxis::Y, RotateAxis::Z] {
        for direction in [Direction::Clockwise, Direction::CounterClockwise] {
            let m = Movement { axis, layer: 0, direction };
            assert_eq!(m.undo().axis, axis);
            assert_eq!(m.undo().layer, 0);
            assert_eq!(m.undo().direction, direction.opposite());
            assert_ne!(m.undo().direction, direction);
            let mut cubes = solved_scene();
            turn(&mut cubes, &m);
            turn(&mut cubes, &m.undo());
            assert_eq!(cubes, solved_scene());
            let _ = s;
        }
    }
    assert_eq!(RotateAxis::X.index(), 0);
    assert_eq!(RotateAxis::Y.index(), 1);
    assert_eq!(RotateAxis::Z.index(), 2);
}

#[test]
fn symbols_become_a_string() {
    assert_eq!(string_of(&vec!['U', 'R', '0', 'b']), "UR0b");
    assert_eq!(string_of(&vec![]), "");
    assert_eq!(MAX_LENGTH, 23);
}

#[test]
fn a_budget_too_small_for_the_scene() {
    let table = DataTable::default();
    let mut cubes = solved_scene();
    for m in generate_moves_from_string(vec![Move::R, Move::U, Move::F]) {
        turn(&mut cubes, &m);
    }
    assert_eq!(solve_within(&cubes, &table, 2), Err(Error::NoSolutionWithinBudget));
    assert_eq!(solve_within(&cubes, &table, 0), Err(Error::NoSolutionWithinBudget));
    assert_eq!(solve_within(&cubes, &table, 3).unwrap().len(), 3);
    let turns = solve_within(&cubes, &table, 4).unwrap();
    assert_eq!(turns.len(), 3);
    for m in &turns {
        turn(&mut cubes, m);
    }
    assert_eq!(layout(&cubes), SOLVED);
    assert_eq!(solve_within(&solved_scene(), &table, 0), Ok(vec![]));
    assert_eq!(solve_within(&solved_scene(), &table, 1), Ok(vec![]));
}
