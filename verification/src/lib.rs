//! Move-decision engine for a turn-based snake game on a rectangular grid.
//!
//! Each turn the engine receives a snapshot of the board and answers with one
//! of the four cardinal directions. The pipeline, leaves first:
//!
//! * [`geometry`]: positions, directions, unit steps and Manhattan distance;
//! * [`board`]: the snapshot types and the collision rule;
//! * [`reach`]: the mathematical theory of walks over free cells;
//! * [`grid`]: the blocked/free occupancy grid and the flood fill over it;
//! * [`numeric`]: the integer square root behind the distance to the center;
//! * [`evaluators`]: food urgency, threat proximity and center control;
//! * [`moves`]: the weighted evaluator over the four candidate moves;
//! * [`duel`]: the payoff-matrix heuristic used against a single opponent;
//! * [`decider`]: the entry point that selects between the two and answers
//!   the fallback direction when no move is safe;
//! * [`symmetry`]: the mirror symmetry of the duel strategy.
//!
//! Scores are integers counted in thousandths of a point. All terms of a score
//! are exact but those that divide or take a root, which are rounded down to
//! a thousandth; every comparison the engine makes is therefore reproducible.

pub mod board;
pub mod decider;
pub mod duel;
pub mod evaluators;
pub mod geometry;
pub mod grid;
pub mod moves;
pub mod numeric;
pub mod reach;
pub mod symmetry;

