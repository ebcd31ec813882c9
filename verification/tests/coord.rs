use cube_solver::coord::{
    calculate_combo, co_to_index, cp_to_index, e_combo_to_index, e_ep_to_index, eo_to_index,
    ud_ep_to_index,
};
use cube_solver::{CubieCube, Move};

#[test]
fn solved_cube_has_all_coordinates_zero() {
    let c = CubieCube::solved();
    assert_eq!(co_to_index(&c.co), 0);
    assert_eq!(eo_to_index(&c.eo), 0);
    assert_eq!(e_combo_to_index(&c.ep), 0);
    assert_eq!(cp_to_index(&c.cp), 0);
    assert_eq!(ud_ep_to_index(&c.ep), 0);
    assert_eq!(e_ep_to_index(&c.ep), 0);
}

#[test]
fn twist_coordinate_is_base_three() {
    assert_eq!(co_to_index(&[0, 0, 0, 0, 0, 0, 1, 2]), 1);
    assert_eq!(co_to_index(&[1, 0, 0, 0, 0, 0, 0, 2]), 729);
    assert_eq!(co_to_index(&[2, 2, 2, 2, 2, 2, 2, 1]), 2186);
    assert_eq!(co_to_index(&[0, 1, 2, 0, 0, 1, 2, 0]), 410);
}

#[test]
fn flip_coordinate_is_base_two() {
    assert_eq!(eo_to_index(&[0, 0, 0, 0, 0, 0, 0, 0, 0, 0, 1, 1]), 1);
    assert_eq!(eo_to_index(&[1, 0, 0, 0, 0, 0, 0, 0, 0, 0, 0, 1]), 1024);
    assert_eq!(eo_to_index(&[1, 1, 1, 1, 1, 1, 1, 1, 1, 1, 1, 1]), 2047);
    assert_eq!(eo_to_index(&[0, 0, 1, 1, 0, 0, 1, 0, 1, 0, 0, 0]), 404);
}

#[test]
fn order_coordinates_count_smaller_entries_behind() {
    assert_eq!(cp_to_index(&[0, 1, 2, 3, 4, 5, 7, 6]), 1);
    assert_eq!(cp_to_index(&[1, 0, 2, 3, 4, 5, 6, 7]), 5040);
    assert_eq!(cp_to_index(&[7, 6, 5, 4, 3, 2, 1, 0]), 40319);
    assert_eq!(cp_to_index(&[3, 0, 1, 2, 4, 5, 6, 7]), 15120);
    assert_eq!(ud_ep_to_index(&[0, 1, 2, 3, 11, 10, 9, 8, 7, 6, 5, 4]), 40319);
    assert_eq!(ud_ep_to_index(&[0, 1, 2, 3, 7, 4, 5, 6, 8, 9, 10, 11]), 15120);
    assert_eq!(e_ep_to_index(&[3, 2, 1, 0, 4, 5, 6, 7, 8, 9, 10, 11]), 23);
    assert_eq!(e_ep_to_index(&[0, 1, 3, 2, 4, 5, 6, 7, 8, 9, 10, 11]), 1);
}

#[test]
fn slice_coordinate_ranks_the_four_places() {
    assert_eq!(e_combo_to_index(&[4, 5, 6, 7, 8, 9, 10, 11, 0, 1, 2, 3]), 494);
    assert_eq!(e_combo_to_index(&[3, 2, 1, 0, 4, 5, 6, 7, 8, 9, 10, 11]), 0);
    assert_eq!(e_combo_to_index(&[0, 1, 2, 4, 3, 5, 6, 7, 8, 9, 10, 11]), 1);
    assert_eq!(e_combo_to_index(&[0, 5, 9, 3, 4, 2, 6, 7, 8, 1, 10, 11]), 139);
}

#[test]
fn coordinates_of_a_scramble() {
    let c = CubieCube::solved()
        .apply_moves(&[Move::U, Move::R2, Move::F3, Move::D, Move::L, Move::B2]);
    assert_eq!(co_to_index(&c.co), 1823);
    assert_eq!(eo_to_index(&c.eo), 274);
    assert_eq!(e_combo_to_index(&c.ep), 176);
    assert_eq!(cp_to_index(&c.cp), 24548);
    assert_eq!(ud_ep_to_index(&c.ep), 18859);
    assert_eq!(e_ep_to_index(&c.ep), 5);
    let h = CubieCube::solved().apply_move(Move::R2);
    assert_eq!(cp_to_index(&h.cp), 3420);
    assert_eq!(ud_ep_to_index(&h.ep), 3030);
    assert_eq!(e_ep_to_index(&h.ep), 2);
}

#[test]
fn numbers_of_choices() {
    assert_eq!(calculate_combo(0, 0), 1);
    assert_eq!(calculate_combo(0, 1), 0);
    assert_eq!(calculate_combo(3, 4), 0);
    assert_eq!(calculate_combo(4, 4), 1);
    assert_eq!(calculate_combo(11, 4), 330);
    assert_eq!(calculate_combo(10, 3), 120);
    assert_eq!(calculate_combo(9, 2), 36);
    assert_eq!(calculate_combo(8, 1), 8);
    assert_eq!(calculate_combo(12, 4), 495);
}
