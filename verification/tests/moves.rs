use cube_solver::moves::{is_move_available, Move, ALL_MOVES, PHASE2_MOVES};
use cube_solver::CubieCube;

fn scrambled() -> CubieCube {
    CubieCube::solved().apply_moves(&[Move::R, Move::U3, Move::F2, Move::L, Move::D, Move::B3])
}

#[test]
fn every_move_has_its_place() {
    for (i, m) in ALL_MOVES.iter().enumerate() {
        assert_eq!(m.index(), i);
        assert_eq!(Move::from_index(i), Some(*m));
    }
    assert_eq!(Move::from_index(18), None);
}

#[test]
fn faces_and_turns() {
    assert_eq!(Move::U.face(), 0);
    assert_eq!(Move::D3.face(), 1);
    assert_eq!(Move::R2.face(), 2);
    assert_eq!(Move::L.face(), 3);
    assert_eq!(Move::F3.face(), 4);
    assert_eq!(Move::B2.face(), 5);
    assert_eq!(Move::U.turns(), 1);
    assert_eq!(Move::R2.turns(), 2);
    assert_eq!(Move::F3.turns(), 3);
}

#[test]
fn inverses_are_named() {
    assert_eq!(Move::U.get_inverse(), Move::U3);
    assert_eq!(Move::U3.get_inverse(), Move::U);
    assert_eq!(Move::F2.get_inverse(), Move::F2);
    assert_eq!(Move::L.get_inverse(), Move::L3);
    assert!(Move::B.is_inverse(Move::B3));
    assert!(!Move::B.is_inverse(Move::B));
    assert!(Move::R2.is_inverse(Move::R2));
    assert!(Move::R.is_same_layer(Move::R3));
    assert!(!Move::R.is_same_layer(Move::L));
}

#[test]
fn move_then_inverse_restores_the_cube() {
    let start = scrambled();
    for m in ALL_MOVES {
        let back = start.apply_move(m).apply_move(m.get_inverse());
        assert_eq!(back, start);
    }
}

#[test]
fn quarter_turn_four_times_and_half_turn_twice_restore_the_cube() {
    let start = scrambled();
    for m in ALL_MOVES {
        if m.turns() == 2 {
            assert_eq!(start.apply_move(m).apply_move(m), start);
        } else {
            assert_ne!(start.apply_move(m).apply_move(m), start);
            let four = start.apply_move(m).apply_move(m).apply_move(m).apply_move(m);
            assert_eq!(four, start);
        }
    }
}

#[test]
fn a_face_is_not_turned_twice_in_a_row() {
    assert!(!is_move_available(Move::U, Move::U2));
    assert!(!is_move_available(Move::R3, Move::R));
    assert!(is_move_available(Move::U, Move::R));
    assert!(is_move_available(Move::F2, Move::L3));
}

#[test]
fn opposite_faces_come_in_one_order() {
    assert!(is_move_available(Move::U, Move::D));
    assert!(!is_move_available(Move::D, Move::U));
    assert!(is_move_available(Move::R2, Move::L));
    assert!(!is_move_available(Move::L, Move::R2));
    assert!(is_move_available(Move::F, Move::B3));
    assert!(!is_move_available(Move::B3, Move::F));
}

#[test]
fn phase_two_moves() {
    assert_eq!(PHASE2_MOVES.len(), 10);
    for m in ALL_MOVES {
        assert_eq!(m.is_phase2(), PHASE2_MOVES.contains(&m));
    }
    assert!(Move::U3.is_phase2());
    assert!(Move::B2.is_phase2());
    assert!(!Move::R.is_phase2());
}

#[test]
fn names_in_usual_notation() {
    assert_eq!(Move::U.name(), "U");
    assert_eq!(Move::U2.name(), "U2");
    assert_eq!(Move::U3.name(), "U'");
    assert_eq!(Move::B3.to_string(), "B'");
    assert_eq!(Move::L2.to_string(), "L2");
}
