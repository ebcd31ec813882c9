use cube_solver::{CubieCube, DataTable, Move, Solution, Solver, ALL_MOVES};

fn solves(state: CubieCube, solution: &Solution) -> bool {
    state.apply_moves(&solution.get_all_moves()) == CubieCube::solved()
}

#[test]
fn test_solve() {
    let scramble: Vec<Move> = vec![];
    let state = CubieCube::from(&scramble);
    let table = DataTable::default();
    let mut solver = Solver::new(&table, 23);
    let solution = solver.solve(state);
    let solved_state = state.apply_moves(&solution.unwrap().get_all_moves());

    assert_eq!(solved_state, CubieCube::solved());
}

#[test]
fn solved_cube_gives_empty_solution() {
    let table = DataTable::default();
    let mut solver = Solver::new(&table, 23);
    let solution = solver.solve(CubieCube::solved()).unwrap();
    assert!(solution.phase1.is_empty());
    assert!(solution.phase2.is_empty());
    assert!(solution.is_empty());
    assert_eq!(solution.len(), 0);
    assert_eq!(solution.to_string(), "");
}

#[test]
fn solved_cube_with_no_budget() {
    let table = DataTable::default();
    let mut solver = Solver::new(&table, 0);
    let solution = solver.solve(CubieCube::solved()).unwrap();
    assert!(solution.phase1.is_empty());
    assert!(solution.phase2.is_empty());
    let mut one = Solver::new(&table, 1);
    assert!(one.solve(CubieCube::solved()).unwrap().is_empty());
}

#[test]
fn no_budget_solves_no_turned_cube() {
    let table = DataTable::default();
    for m in ALL_MOVES {
        let mut solver = Solver::new(&table, 0);
        assert!(solver.solve(CubieCube::solved().apply_move(m)).is_none());
    }
}

#[test]
fn a_budget_of_one_move_undoes_every_move() {
    let table = DataTable::default();
    for m in ALL_MOVES {
        let state = CubieCube::solved().apply_move(m);
        let mut solver = Solver::new(&table, 1);
        let solution = solver.solve(state).unwrap();
        assert_eq!(solution.get_all_moves(), vec![m.get_inverse()]);
        assert_eq!(solution.len(), 1);
        if m.is_phase2() {
            assert!(solution.phase1.is_empty());
        } else {
            assert!(solution.phase2.is_empty());
        }
    }
}

#[test]
fn a_half_turn_with_a_budget_of_one_move() {
    let table = DataTable::default();
    let mut solver = Solver::new(&table, 1);
    let solution = solver.solve(CubieCube::solved().apply_move(Move::U2)).unwrap();
    assert!(solution.phase1.is_empty());
    assert_eq!(solution.phase2, vec![Move::U2]);
    assert_eq!(solution.to_string(), "U2");
}

#[test]
fn a_budget_that_the_solution_fills() {
    let table = DataTable::default();
    let scramble = [Move::R, Move::U, Move::F];
    let state = CubieCube::solved().apply_moves(&scramble);
    let mut solver = Solver::new(&table, 3);
    let solution = solver.solve(state).unwrap();
    assert_eq!(solution.get_all_moves(), vec![Move::F3, Move::U3, Move::R3]);
    assert_eq!(solution.len(), 3);
    let two = CubieCube::solved().apply_moves(&[Move::U, Move::D2]);
    let mut exact = Solver::new(&table, 2);
    let found = exact.solve(two).unwrap();
    assert!(found.phase1.is_empty());
    assert_eq!(found.len(), 2);
    assert!(solves(two, &found));
    let mut short = Solver::new(&table, 1);
    assert!(short.solve(two).is_none());
}

#[test]
fn one_move_is_undone_by_its_inverse() {
    let table = DataTable::default();
    for m in ALL_MOVES {
        if m == Move::R || m == Move::L || m == Move::F || m == Move::B {
            continue;
        }
        let state = CubieCube::solved().apply_move(m);
        let mut solver = Solver::new(&table, 23);
        let solution = solver.solve(state).unwrap();
        assert_eq!(solution.get_all_moves(), vec![m.get_inverse()]);
        assert_eq!(solution.len(), 1);
    }
}

#[test]
fn one_move_of_the_second_phase_is_undone_there() {
    let table = DataTable::default();
    let mut solver = Solver::new(&table, 23);
    let solution = solver.solve(CubieCube::solved().apply_move(Move::U)).unwrap();
    assert!(solution.phase1.is_empty());
    assert_eq!(solution.phase2, vec![Move::U3]);
    let other = solver.solve(CubieCube::solved().apply_move(Move::R3)).unwrap();
    assert_eq!(other.phase1, vec![Move::R]);
    assert!(other.phase2.is_empty());
    let again = solver.solve(CubieCube::solved().apply_move(Move::U)).unwrap();
    assert!(again.phase1.is_empty());
    assert_eq!(again.phase2, vec![Move::U3]);
}

#[test]
fn clockwise_side_turn_with_small_budget() {
    let table = DataTable::default();
    for m in [Move::R, Move::L, Move::F, Move::B] {
        let state = CubieCube::solved().apply_move(m);
        for budget in 1u8..8u8 {
            let mut solver = Solver::new(&table, budget);
            let solution = solver.solve(state).unwrap();
            assert_eq!(solution.phase1, vec![m.get_inverse()]);
            assert!(solution.phase2.is_empty());
        }
    }
}

#[test]
fn clockwise_side_turn_with_a_budget_of_eight() {
    let table = DataTable::default();
    let state = CubieCube::solved().apply_move(Move::R);
    let mut solver = Solver::new(&table, 8);
    let solution = solver.solve(state).unwrap();
    assert_eq!(solution.to_string(), "R U2 D2 R2 L2 U2 D2 L2");
    assert_eq!(solution.len(), 8);
    assert!(solves(state, &solution));
}

#[test]
fn clockwise_side_turn_with_large_budget() {
    let table = DataTable::default();
    let state = CubieCube::solved().apply_move(Move::R);
    let mut solver = Solver::new(&table, 23);
    let solution = solver.solve(state).unwrap();
    assert_eq!(solution.phase1, vec![Move::R]);
    assert_eq!(
        solution.phase2,
        vec![Move::U2, Move::D2, Move::R2, Move::L2, Move::U2, Move::D2, Move::L2]
    );
    assert!(solves(state, &solution));
    assert_eq!(solution.phase1_to_string(), "R");
    assert_eq!(solution.phase2_to_string(), "U2 D2 R2 L2 U2 D2 L2");
    assert_eq!(solution.to_string(), "R U2 D2 R2 L2 U2 D2 L2");
    assert_eq!(solution.len(), 8);
    assert!(!solution.is_empty());
}

#[test]
fn budget_too_small_gives_none() {
    let table = DataTable::default();
    let state = CubieCube::solved().apply_moves(&[Move::R, Move::U, Move::F]);
    let mut solver = Solver::new(&table, 2);
    assert!(solver.solve(state).is_none());
    let mut enough = Solver::new(&table, 23);
    let solution = enough.solve(state).unwrap();
    assert!(solves(state, &solution));
}

#[test]
fn scrambles_are_solved_within_budget() {
    let table = DataTable::default();
    let scrambles: Vec<Vec<Move>> = vec![
        vec![Move::R, Move::U, Move::F],
        vec![Move::U, Move::R2, Move::F3, Move::D, Move::L, Move::B2],
        vec![Move::F3, Move::B, Move::L2, Move::U, Move::D3, Move::R],
        vec![
            Move::R, Move::U, Move::R3, Move::U3, Move::F2, Move::D, Move::B, Move::L2, Move::U2,
            Move::F3, Move::R2, Move::D3, Move::L, Move::B2, Move::U, Move::F, Move::R3, Move::D2,
            Move::L3, Move::B3, Move::U3, Move::R, Move::F2, Move::D, Move::L2,
        ],
        vec![
            Move::L, Move::D2, Move::B3, Move::R, Move::U2, Move::F, Move::L3, Move::D, Move::B2,
            Move::R3, Move::U, Move::F3, Move::L2, Move::D3, Move::B, Move::R2, Move::U3, Move::F2,
            Move::L, Move::U,
        ],
    ];
    for scramble in scrambles {
        let state = CubieCube::from(&scramble);
        for budget in [21u8, 23u8] {
            let mut solver = Solver::new(&table, budget);
            let solution = solver.solve(state).unwrap();
            assert!(solves(state, &solution));
            assert!(solution.len() <= budget as usize);
            for m in &solution.phase2 {
                assert!(m.is_phase2());
            }
        }
    }
}

#[test]
fn solving_twice_gives_the_same_solution() {
    let table = DataTable::default();
    let state = CubieCube::solved()
        .apply_moves(&[Move::U, Move::R2, Move::F3, Move::D, Move::L, Move::B2]);
    let mut solver = Solver::new(&table, 23);
    let first = solver.solve(state).unwrap();
    let second = solver.solve(state).unwrap();
    assert_eq!(first.phase1, second.phase1);
    assert_eq!(first.phase2, second.phase2);
    let other_table = DataTable::default();
    let mut other = Solver::new(&other_table, 23);
    let third = other.solve(state).unwrap();
    assert_eq!(first.get_all_moves(), third.get_all_moves());
}

#[test]
fn a_solver_can_be_used_again_after_another_cube() {
    let table = DataTable::default();
    let mut solver = Solver::new(&table, 23);
    let a = CubieCube::solved().apply_moves(&[Move::R, Move::U, Move::F]);
    let b = CubieCube::solved().apply_move(Move::D2);
    let first = solver.solve(a).unwrap();
    assert!(solves(a, &first));
    let second = solver.solve(b).unwrap();
    assert_eq!(second.get_all_moves(), vec![Move::D2]);
    solver.clear();
    let third = solver.solve(a).unwrap();
    assert_eq!(first.get_all_moves(), third.get_all_moves());
}

#[test]
fn duplicate_and_clone_keep_the_moves() {
    let s = Solution { phase1: vec![Move::R, Move::U2], phase2: vec![Move::D3] };
    let d = s.duplicate();
    assert_eq!(d.phase1, s.phase1);
    assert_eq!(d.phase2, s.phase2);
    let c = s.clone();
    assert_eq!(c.get_all_moves(), vec![Move::R, Move::U2, Move::D3]);
    assert_eq!(s.len(), 3);
}

fn next_draw(seed: &mut u64) -> u64 {
    *seed = seed.wrapping_mul(6364136223846793005).wrapping_add(1442695040888963407);
    *seed >> 33
}

fn drawn_scramble(seed: &mut u64, length: usize) -> Vec<Move> {
    let mut moves: Vec<Move> = Vec::new();
    while moves.len() < length {
        let m = ALL_MOVES[(next_draw(seed) % 18) as usize];
        if let Some(last) = moves.last() {
            if last.is_same_layer(m) {
                continue;
            }
        }
        moves.push(m);
    }
    moves
}

#[test]
fn drawn_scrambles_of_up_to_25_moves_are_solved() {
    let table = DataTable::default();
    assert!(table.is_complete());
    let mut seed: u64 = 20240229;
    for round in 0..24 {
        let length = 1 + (next_draw(&mut seed) % 25) as usize;
        let scramble = drawn_scramble(&mut seed, length);
        let state = CubieCube::from(&scramble);
        assert!(state.is_solvable());
        let budget: u8 = if round % 2 == 0 { 21 } else { 23 };
        let mut solver = Solver::new(&table, budget);
        let solution = solver.solve(state).unwrap();
        assert!(solves(state, &solution));
        assert!(solution.len() <= budget as usize);
        assert_eq!(solution.get_all_moves().len(), solution.len());
    }
}

#[test]
fn moves_of_a_solution_follow_the_order_of_the_search() {
    let table = DataTable::default();
    let state = CubieCube::solved()
        .apply_moves(&[Move::F3, Move::B, Move::L2, Move::U, Move::D3, Move::R, Move::F]);
    let mut solver = Solver::new(&table, 23);
    let solution = solver.solve(state).unwrap();
    let all = solution.get_all_moves();
    for pair in all.windows(2) {
        assert!(cube_solver::is_move_available(pair[0], pair[1]));
    }
    let after_first = state.apply_moves(&solution.phase1);
    assert_eq!(after_first.co, [0; 8]);
    assert_eq!(after_first.eo, [0; 12]);
    for i in 0..12 {
        assert_eq!(after_first.ep[i] < 4, i < 4);
    }
}

#[test]
fn a_scramble_of_the_second_phase_is_solved_there() {
    let table = DataTable::default();
    let scrambles: Vec<Vec<Move>> = vec![
        vec![Move::U, Move::R2, Move::D3, Move::F2],
        vec![Move::L2, Move::U2, Move::B2, Move::D, Move::R2, Move::U3],
        vec![Move::D2],
        vec![Move::U, Move::U],
    ];
    for scramble in scrambles {
        let state = CubieCube::from(&scramble);
        let mut solver = Solver::new(&table, scramble.len() as u8);
        let solution = solver.solve(state).unwrap();
        assert!(solution.phase1.is_empty());
        assert!(solution.phase2.len() <= scramble.len());
        assert!(solution.phase2.iter().all(|m| m.is_phase2()));
        assert!(solves(state, &solution));
    }
    let mut solver = Solver::new(&table, 2);
    let solution = solver.solve(CubieCube::from(&vec![Move::U, Move::U])).unwrap();
    assert_eq!(solution.phase2, vec![Move::U2]);
}
