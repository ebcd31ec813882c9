use cube_solver::coord::{co_to_index, cp_to_index, e_combo_to_index, e_ep_to_index};
use cube_solver::tables::{
    build_move_table, build_pruning_table, move_cubes, phase1_move, phase2_move, Coordinate,
    Pruning, UNREACHED,
};
use cube_solver::{CubieCube, DataTable, Move, ALL_MOVES, PHASE2_MOVES};

#[test]
fn move_tables_follow_the_moves() {
    let table = DataTable::default();
    let moves = table.move_table();
    for (i, m) in ALL_MOVES.iter().enumerate() {
        let c = CubieCube::solved().apply_move(*m);
        assert_eq!(moves.lookup(Coordinate::Co, 0, i), co_to_index(&c.co) as usize);
        assert_eq!(moves.lookup(Coordinate::ECombo, 0, i), e_combo_to_index(&c.ep) as usize);
    }
    for (i, m) in PHASE2_MOVES.iter().enumerate() {
        let c = CubieCube::solved().apply_move(*m);
        assert_eq!(moves.lookup(Coordinate::Cp, 0, i), cp_to_index(&c.cp) as usize);
        assert_eq!(moves.lookup(Coordinate::EEp, 0, i), e_ep_to_index(&c.ep) as usize);
    }
    assert_eq!(moves.lookup(Coordinate::Co, 0, 6), 410);
    assert_eq!(moves.lookup(Coordinate::Cp, 0, 0), 15120);
    assert_eq!(moves.lookup(Coordinate::Cp, 0, 6), 3420);
    assert_eq!(moves.lookup(Coordinate::UdEp, 0, 6), 3030);
}

#[test]
fn move_tables_follow_moves_from_a_scramble() {
    let table = DataTable::default();
    let moves = table.move_table();
    let start = CubieCube::solved().apply_moves(&[Move::R, Move::U3, Move::F2, Move::L]);
    let from = co_to_index(&start.co) as usize;
    for (i, m) in ALL_MOVES.iter().enumerate() {
        let c = start.apply_move(*m);
        assert_eq!(moves.lookup(Coordinate::Co, from, i), co_to_index(&c.co) as usize);
    }
}

#[test]
fn distances_near_the_goal() {
    let table = DataTable::default();
    let moves = table.move_table();
    let dist = table.pruning_table();
    assert_eq!(dist.lookup(Pruning::CoE, 0, 0), 0);
    assert_eq!(dist.lookup(Pruning::EoE, 0, 0), 0);
    assert_eq!(dist.lookup(Pruning::CpE, 0, 0), 0);
    assert_eq!(dist.lookup(Pruning::EpE, 0, 0), 0);
    let co = moves.lookup(Coordinate::Co, 0, 6);
    let e = moves.lookup(Coordinate::ECombo, 0, 6);
    assert_eq!(dist.lookup(Pruning::CoE, co, e), 1);
    let cp = moves.lookup(Coordinate::Cp, 0, 0);
    let ee = moves.lookup(Coordinate::EEp, 0, 0);
    assert_eq!(dist.lookup(Pruning::CpE, cp, ee), 1);
}

#[test]
fn every_pair_of_the_first_phase_is_reached() {
    let cubes = move_cubes();
    let (co, all_co) = build_move_table(Coordinate::Co, &cubes);
    let (e, all_e) = build_move_table(Coordinate::ECombo, &cubes);
    assert!(all_co);
    assert!(all_e);
    let dist = build_pruning_table(&co, 2187, &e, 495, 18);
    assert_eq!(dist.len(), 2187 * 495);
    assert!(dist.iter().all(|d| *d != UNREACHED));
    assert!(dist.iter().all(|d| *d <= 12));
}

#[test]
fn kinds_and_their_sizes() {
    assert_eq!(Coordinate::Co.count(), 2187);
    assert_eq!(Coordinate::Eo.count(), 2048);
    assert_eq!(Coordinate::ECombo.count(), 495);
    assert_eq!(Coordinate::Cp.count(), 40320);
    assert_eq!(Coordinate::UdEp.count(), 40320);
    assert_eq!(Coordinate::EEp.count(), 24);
    assert_eq!(Coordinate::Co.move_count(), 18);
    assert_eq!(Coordinate::Cp.move_count(), 10);
    assert!(Coordinate::EEp.is_phase2());
    assert!(!Coordinate::Eo.is_phase2());
    let c = CubieCube::solved().apply_move(Move::R);
    assert_eq!(Coordinate::Co.coordinate(&c), 410);
    assert_eq!(Coordinate::ECombo.coordinate(&c), 139);
}

#[test]
fn orders_of_the_phases() {
    for i in 0..18 {
        assert_eq!(phase1_move(i), ALL_MOVES[i]);
    }
    for i in 0..10 {
        assert_eq!(phase2_move(i), PHASE2_MOVES[i]);
    }
    let cubes = move_cubes();
    assert_eq!(cubes.len(), 18);
    assert_eq!(cubes[7], CubieCube::solved().apply_move(Move::R2));
}

#[test]
fn the_exploration_reaches_every_value() {
    let table = DataTable::default();
    assert!(table.is_complete());
    assert!(table.move_table().is_complete());
    let cubes = move_cubes();
    for kind in [
        Coordinate::Co,
        Coordinate::Eo,
        Coordinate::ECombo,
        Coordinate::Cp,
        Coordinate::UdEp,
        Coordinate::EEp,
    ] {
        let (rows, all) = build_move_table(kind, &cubes);
        assert!(all);
        assert_eq!(rows.len(), kind.count() * kind.move_count());
        assert!(rows.iter().all(|v| (*v as usize) < kind.count()));
    }
}

#[test]
fn a_move_raises_a_distance_by_at_most_one() {
    let cubes = move_cubes();
    let (cp, _) = build_move_table(Coordinate::Cp, &cubes);
    let (e_ep, _) = build_move_table(Coordinate::EEp, &cubes);
    let dist = build_pruning_table(&cp, 40320, &e_ep, 24, 10);
    assert_eq!(dist[0], 0);
    let mut deepest = 0;
    for a in 0..40320usize {
        for b in 0..24usize {
            let here = dist[a * 24 + b];
            if here == UNREACHED {
                continue;
            }
            if here > deepest {
                deepest = here;
            }
            for m in 0..10usize {
                let a2 = cp[a * 10 + m] as usize;
                let b2 = e_ep[b * 10 + m] as usize;
                let there = dist[a2 * 24 + b2];
                assert!(there != UNREACHED);
                assert!(there <= here + 1);
            }
        }
    }
    assert!(deepest >= 10 && deepest <= 20);
}
