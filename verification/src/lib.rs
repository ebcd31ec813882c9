//! A two-phase solver for the 3x3x3 cube: the cubie model and its eighteen
//! face turns, the coordinates that index the lookup tables, the tables
//! themselves, the iterative-deepening search, and the translation between
//! sticker layouts, cubie states and layer turns of a scene.
//!
//! The code lives in `moves`, `cubie`, `coord`, `tables`, `solver`,
//! `facelet` and `scene`. What is proved of it beyond the contracts lives in
//! the other modules: `ranking` (equal coordinates, equal aspects of the
//! cube), `consistency` and `parity` (what every move keeps), `transitions`
//! (the tables can stand for the cube), `soundness` (what the search returns
//! solves the cube), `admissible` (the distance tables never overestimate),
//! `least` (the search returns the first solution in its order), `normal`
//! (the order loses no solution) and `one_move` (a single move is undone).

pub mod admissible;
pub mod consistency;
pub mod coord;
pub mod cubie;
pub mod error;
pub mod facelet;
pub mod least;
pub mod moves;
pub mod normal;
pub mod one_move;
pub mod parity;
pub mod ranking;
pub mod scene;
pub mod solver;
pub mod soundness;
pub mod tables;
pub mod transitions;

pub use cubie::{CubeState, CubieCube};
pub use error::Error;
pub use facelet::{Color, FaceCube};
pub use moves::{is_move_available, Move, ALL_MOVES, PHASE2_MOVES};
pub use scene::{Cube, Direction, Movement, RotateAxis, Settings};
pub use solver::{Solution, Solver};
pub use tables::{DataTable, MoveTable, PruningTable};
