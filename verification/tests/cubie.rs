use cube_solver::cubie::{all_below, all_distinct, inversion_count, sum_of};
use cube_solver::{CubieCube, Move};

#[test]
fn up_turn_cycles_the_upper_layer() {
    let c = CubieCube::solved().apply_move(Move::U);
    assert_eq!(c.cp, [3, 0, 1, 2, 4, 5, 6, 7]);
    assert_eq!(c.co, [0, 0, 0, 0, 0, 0, 0, 0]);
    assert_eq!(c.ep, [0, 1, 2, 3, 7, 4, 5, 6, 8, 9, 10, 11]);
    assert_eq!(c.eo, [0, 0, 0, 0, 0, 0, 0, 0, 0, 0, 0, 0]);
}

#[test]
fn right_turn_twists_corners() {
    let c = CubieCube::solved().apply_move(Move::R);
    assert_eq!(c.cp, [0, 2, 5, 3, 4, 6, 1, 7]);
    assert_eq!(c.co, [0, 1, 2, 0, 0, 1, 2, 0]);
    assert_eq!(c.ep, [0, 5, 9, 3, 4, 2, 6, 7, 8, 1, 10, 11]);
    assert_eq!(c.eo, [0; 12]);
}

#[test]
fn front_turn_flips_edges() {
    let c = CubieCube::solved().apply_move(Move::F);
    assert_eq!(c.cp, [0, 1, 3, 4, 5, 2, 6, 7]);
    assert_eq!(c.co, [0, 0, 1, 2, 1, 2, 0, 0]);
    assert_eq!(c.ep, [0, 1, 6, 8, 4, 5, 3, 7, 2, 9, 10, 11]);
    assert_eq!(c.eo, [0, 0, 1, 1, 0, 0, 1, 0, 1, 0, 0, 0]);
}

#[test]
fn a_sequence_of_moves() {
    let moves = [Move::U, Move::R2, Move::F3, Move::D, Move::L, Move::B2];
    let c = CubieCube::solved().apply_moves(&moves);
    assert_eq!(c.cp, [4, 7, 0, 3, 6, 2, 1, 5]);
    assert_eq!(c.co, [2, 1, 1, 1, 1, 1, 2, 0]);
    assert_eq!(c.ep, [2, 10, 8, 6, 4, 9, 1, 0, 11, 3, 7, 5]);
    assert_eq!(c.eo, [0, 0, 1, 0, 0, 0, 1, 0, 0, 1, 0, 1]);
    let mut step = CubieCube::solved();
    for m in moves {
        step = step.apply_move(m);
    }
    assert_eq!(step, c);
    assert!(c.equals(&step));
    assert!(!c.equals(&CubieCube::solved()));
}

#[test]
fn half_turn_is_two_quarter_turns() {
    let q = CubieCube::quarter_turn(2);
    assert_eq!(CubieCube::of_move(Move::R), q);
    assert_eq!(CubieCube::of_move(Move::R2), q.multiply(q));
    assert_eq!(CubieCube::of_move(Move::R3), q.multiply(q).multiply(q));
    assert_eq!(q.multiply(q).multiply(q).multiply(q), CubieCube::solved());
}

#[test]
fn from_moves_and_default() {
    let v = vec![Move::R, Move::U];
    assert_eq!(CubieCube::from(&v), CubieCube::solved().apply_move(Move::R).apply_move(Move::U));
    assert_eq!(CubieCube::default(), CubieCube::solved());
    let none: Vec<Move> = vec![];
    assert_eq!(CubieCube::from(&none), CubieCube::solved());
}

#[test]
fn reachable_cubes_are_solvable() {
    assert!(CubieCube::solved().is_solvable());
    let c = CubieCube::solved()
        .apply_moves(&[Move::F3, Move::B, Move::L2, Move::U, Move::D3, Move::R]);
    assert!(c.is_solvable());
}

#[test]
fn a_twisted_corner_is_not_solvable() {
    let mut c = CubieCube::solved();
    c.co[0] = 1;
    assert!(!c.is_solvable());
}

#[test]
fn a_flipped_edge_is_not_solvable() {
    let mut c = CubieCube::solved();
    c.eo[5] = 1;
    assert!(!c.is_solvable());
}

#[test]
fn two_swapped_corners_are_not_solvable() {
    let mut c = CubieCube::solved();
    c.cp[0] = 1;
    c.cp[1] = 0;
    assert!(!c.is_solvable());
    c.ep[4] = 5;
    c.ep[5] = 4;
    assert!(c.is_solvable());
}

#[test]
fn a_piece_twice_is_not_solvable() {
    let mut c = CubieCube::solved();
    c.cp[0] = 1;
    assert!(!c.is_solvable());
    let mut d = CubieCube::solved();
    d.ep[11] = 0;
    assert!(!d.is_solvable());
}

#[test]
fn out_of_range_is_not_solvable() {
    let mut c = CubieCube::solved();
    c.cp[0] = 8;
    assert!(!c.is_solvable());
    let mut d = CubieCube::solved();
    d.co[0] = 3;
    assert!(!d.is_solvable());
    let mut e = CubieCube::solved();
    e.eo[0] = 2;
    assert!(!e.is_solvable());
    let mut f = CubieCube::solved();
    f.ep[0] = 12;
    assert!(!f.is_solvable());
}

#[test]
fn counting_helpers() {
    assert!(all_below(&[0, 1, 2], 3));
    assert!(!all_below(&[0, 3, 2], 3));
    assert!(all_distinct(&[4, 2, 9]));
    assert!(!all_distinct(&[4, 2, 4]));
    assert_eq!(sum_of(&[1, 2, 2, 0, 1]), 6);
    assert_eq!(inversion_count(&[0, 1, 2, 3]), 0);
    assert_eq!(inversion_count(&[3, 2, 1, 0]), 6);
    assert_eq!(inversion_count(&[1, 0, 3, 2]), 2);
}
