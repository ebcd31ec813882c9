use cube_solver::facelet::{corner_sticker, edge_sticker, home_color, symbol_color};
use cube_solver::{Color, CubieCube, Error, FaceCube, Move};

const SOLVED: &str = "UUUUUUUUURRRRRRRRRFFFFFFFFFDDDDDDDDDLLLLLLLLLBBBBBBBBB";

#[test]
fn solved_layout_is_the_solved_cube() {
    let face = FaceCube::parse(SOLVED).unwrap();
    let cube = face.to_cubie().unwrap();
    assert_eq!(cube.cp, [0, 1, 2, 3, 4, 5, 6, 7]);
    assert_eq!(cube.co, [0; 8]);
    assert_eq!(cube.ep, [0, 1, 2, 3, 4, 5, 6, 7, 8, 9, 10, 11]);
    assert_eq!(cube.eo, [0; 12]);
    assert_eq!(cube, CubieCube::solved());
}

#[test]
fn layout_after_a_right_turn() {
    let face = FaceCube::parse("UUFUUFUUFRRRRRRRRRFFDFFDFFDDDBDDBDDBLLLLLLLLLUBBUBBUBB").unwrap();
    assert_eq!(face.to_cubie().unwrap(), CubieCube::solved().apply_move(Move::R));
}

#[test]
fn layouts_of_scrambles() {
    let a = FaceCube::parse("UUUUUULLDFBBFRRFRRFFRFFRDDRRRUDDBDDBFFDLLDLLBLLLUBBUBB").unwrap();
    assert_eq!(
        a.to_cubie().unwrap(),
        CubieCube::solved().apply_moves(&[Move::R, Move::U, Move::F])
    );
    let b = FaceCube::parse("LULBUDLRBURBDRBRFRUBLUFFRLUBDFRDLDUBFLFRLFRUDDBDDBFULF").unwrap();
    let cube = b.to_cubie().unwrap();
    assert_eq!(cube.cp, [4, 7, 0, 3, 6, 2, 1, 5]);
    assert_eq!(cube.co, [2, 1, 1, 1, 1, 1, 2, 0]);
    assert_eq!(cube.ep, [2, 10, 8, 6, 4, 9, 1, 0, 11, 3, 7, 5]);
    assert_eq!(cube.eo, [0, 0, 1, 0, 0, 0, 1, 0, 0, 1, 0, 1]);
}

#[test]
fn wrong_length_is_malformed() {
    assert_eq!(FaceCube::parse(""), Err(Error::MalformedInput));
    assert_eq!(FaceCube::parse(&SOLVED[1..]), Err(Error::MalformedInput));
    let long = format!("{}U", SOLVED);
    assert_eq!(FaceCube::parse(&long), Err(Error::MalformedInput));
}

#[test]
fn unknown_symbol_is_malformed() {
    let bad = SOLVED.replacen('U', "X", 1);
    assert_eq!(FaceCube::parse(&bad), Err(Error::MalformedInput));
    let lower = SOLVED.replacen('B', "b", 1);
    assert_eq!(FaceCube::parse(&lower), Err(Error::MalformedInput));
    let zero = SOLVED.replacen('F', "0", 1);
    assert_eq!(FaceCube::parse(&zero), Err(Error::MalformedInput));
}

#[test]
fn wrong_colour_counts_are_invalid() {
    let bad = SOLVED.replacen('U', "R", 1);
    let face = FaceCube::parse(&bad).unwrap();
    assert_eq!(face.to_cubie(), Err(Error::InvalidCubeState));
}

#[test]
fn a_twisted_corner_is_invalid() {
    // corner UFR turned in place: stickers 8 (U), 9 (R), 20 (F)
    let mut f = FaceCube::parse(SOLVED).unwrap();
    f.f[8] = Color::R;
    f.f[9] = Color::F;
    f.f[20] = Color::U;
    assert_eq!(f.to_cubie(), Err(Error::InvalidCubeState));
}

#[test]
fn a_flipped_edge_is_invalid() {
    // edge UF turned in place: stickers 7 (U) and 19 (F)
    let mut f = FaceCube::parse(SOLVED).unwrap();
    f.f[7] = Color::F;
    f.f[19] = Color::U;
    assert_eq!(f.to_cubie(), Err(Error::InvalidCubeState));
}

#[test]
fn two_swapped_edges_are_invalid() {
    // edges UF (7, 19) and UR (5, 10) exchanged
    let mut f = FaceCube::parse(SOLVED).unwrap();
    f.f[19] = Color::R;
    f.f[10] = Color::F;
    assert_eq!(f.to_cubie(), Err(Error::InvalidCubeState));
}

#[test]
fn a_centre_out_of_place_is_invalid() {
    let mut f = FaceCube::parse(SOLVED).unwrap();
    f.f[4] = Color::D;
    f.f[31] = Color::U;
    assert_eq!(f.to_cubie(), Err(Error::InvalidCubeState));
    assert!(!f.centers_in_place());
}

#[test]
fn places_and_their_stickers() {
    assert_eq!(corner_sticker(2, 0), 8);
    assert_eq!(corner_sticker(2, 1), 9);
    assert_eq!(corner_sticker(2, 2), 20);
    assert_eq!(corner_sticker(7, 2), 42);
    assert_eq!(edge_sticker(6, 0), 7);
    assert_eq!(edge_sticker(6, 1), 19);
    assert_eq!(edge_sticker(0, 0), 50);
    assert_eq!(edge_sticker(11, 1), 43);
    assert_eq!(home_color(0), Color::U);
    assert_eq!(home_color(9), Color::R);
    assert_eq!(home_color(26), Color::F);
    assert_eq!(home_color(27), Color::D);
    assert_eq!(home_color(44), Color::L);
    assert_eq!(home_color(53), Color::B);
    assert_eq!(symbol_color('U'), Some(Color::U));
    assert_eq!(symbol_color('L'), Some(Color::L));
    assert_eq!(symbol_color('u'), None);
    let f = FaceCube::parse(SOLVED).unwrap();
    assert_eq!(f.corner_at(5), Some((5, 0)));
    assert_eq!(f.edge_at(9), Some((9, 0)));
}
