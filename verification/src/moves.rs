//! The weighted evaluator: one score per candidate move, and the choice of
//! the best one.

use crate::board::{is_safe_move, Board, Snake};
use crate::evaluators::{
    calculate_food_score, center_score, evaluate_center_control, evaluate_food, evaluate_threats,
    food_direction, food_reward, lemma_center_score_bounds, lemma_threat_sum_bounds, nearest_food,
    threat_score,
};
use crate::geometry::{can_step, get_new_position, manhattan, step, Cell, Coord, Direction};
use crate::grid::{flood_fill, OccupancyGrid};
use crate::reach::reachable;
use vstd::prelude::*;

verus! {

/// The score of a candidate move, in thousandths of a point. A fatal move
/// ranks below every number.
#[derive(Clone, Copy, Debug, PartialEq, Eq, Structural)]
pub enum Score {
    Fatal,
    Points(i128),
}

impl View for Score {
    type V = Option<int>;

    open spec fn view(&self) -> Option<int> {
        match self {
            Score::Fatal => None,
            Score::Points(p) => Some(*p as int),
        }
    }
}

/// `a` is strictly greater than `b`, where `None` stands for a fatal move.
pub open spec fn beats(a: Option<int>, b: Option<int>) -> bool {
    match (a, b) {
        (Some(x), Some(y)) => x > y,
        (Some(_), None) => true,
        _ => false,
    }
}

/// Of `a` and `b`, the direction to keep when `a` stands earlier in the
/// priority order: `b` only when its value is strictly greater.
pub open spec fn keep_better(
    value: spec_fn(Direction) -> Option<int>,
    a: Direction,
    b: Direction,
) -> Direction {
    if beats(value(b), value(a)) { b } else { a }
}

/// The direction of the greatest value; among equal values the one that comes
/// first in the order up, down, left, right.
pub open spec fn first_best(value: spec_fn(Direction) -> Option<int>) -> Direction {
    keep_better(
        value,
        keep_better(value, keep_better(value, Direction::Up, Direction::Down), Direction::Left),
        Direction::Right,
    )
}

impl Score {
    /// Whether this score is strictly greater than `other`.
    pub fn exceeds(&self, other: &Score) -> (greater: bool)
        ensures
            greater == beats(self@, other@),
    {
        match (self, other) {
            (Score::Points(a), Score::Points(b)) => *a > *b,
            (Score::Points(_), Score::Fatal) => true,
            _ => false,
        }
    }
}

/// A candidate move with its score.
#[derive(Clone, Copy, Debug, PartialEq, Eq, Structural)]
pub struct Move {
    pub direction: Direction,
    pub score: Score,
}

impl Move {
    /// A candidate in the given direction with a score of zero.
    pub fn new(direction: Direction) -> (m: Move)
        ensures
            m.direction == direction,
            m.score == Score::Points(0),
    {
        Move { direction, score: Score::Points(0) }
    }
}

/// The food term of a candidate that moves in `direction` onto `pos`: the
/// reward for the nearest food when `direction` is the one that leads toward
/// it, and nothing otherwise.
pub open spec fn food_term(pos: Cell, food: Seq<Coord>, health: int, direction: Direction) -> int {
    if food.len() > 0 && food_direction(pos, food[nearest_food(pos, food)]@) == direction {
        food_reward(manhattan(pos, food[nearest_food(pos, food)]@), health)
    } else {
        0
    }
}

/// The value of the move from `head` in `direction`: `None` when the new
/// position is not safe; otherwise 5 points for each reachable free cell,
/// plus the food term, the threat score and the center score.
pub open spec fn move_value(head: Cell, you: Snake, board: Board, direction: Direction) -> Option<
    int,
> {
    let pos = step(head, direction);
    if board.safe(pos) {
        Some(
            5_000 * reachable(board.free_cells(), pos).len() + food_term(
                pos,
                board.food@,
                you.health as int,
                direction,
            ) + threat_score(pos, board.snakes@, you) + center_score(
                pos,
                board.width as int,
                board.height as int,
            ),
        )
    } else {
        None
    }
}

/// The values of the four moves from `head`, by direction.
pub open spec fn move_values(head: Cell, you: Snake, board: Board) -> spec_fn(Direction) -> Option<
    int,
> {
    |d: Direction| move_value(head, you, board, d)
}

/// The direction that the weighted evaluator selects.
pub open spec fn best_move(head: Cell, you: Snake, board: Board) -> Direction {
    first_best(move_values(head, you, board))
}

/// No direction has a value strictly greater than the selected one, and a
/// direction of equal value never comes before it in the order up, down,
/// left, right. Two directions of equal value therefore always resolve to the
/// same winner.
pub proof fn lemma_first_best_wins(value: spec_fn(Direction) -> Option<int>, other: Direction)
    ensures
        !beats(value(other), value(first_best(value))),
        value(other) == value(first_best(value)) ==> first_best(value).rank() <= other.rank(),
{
}

/// When every candidate is fatal, the selection falls back to the first
/// direction, up.
pub proof fn lemma_first_best_fallback(value: spec_fn(Direction) -> Option<int>)
    requires
        value(Direction::Up) is None,
        value(Direction::Down) is None,
        value(Direction::Left) is None,
        value(Direction::Right) is None,
    ensures
        first_best(value) == Direction::Up,
{
}

/// A fatal candidate is never selected while another candidate is not fatal.
pub proof fn lemma_first_best_survives(value: spec_fn(Direction) -> Option<int>, other: Direction)
    requires
        value(other) is Some,
    ensures
        value(first_best(value)) is Some,
{
    lemma_first_best_wins(value, other);
}

/// Scores the move from `head` in `direction` on the grid of `board`.
fn score_move(
    direction: Direction,
    head: &Coord,
    you: &Snake,
    board: &Board,
    grid: &OccupancyGrid,
) -> (m: Move)
    requires
        can_step(head@),
        board.snakes_have_heads(),
        grid.free_cells() == board.free_cells(),
    ensures
        m.direction == direction,
        m.score@ == move_value(head@, *you, *board, direction),
{
    let mut candidate = Move::new(direction);
    let new_pos = get_new_position(head, direction);
    if !is_safe_move(&new_pos, board) {
        candidate.score = Score::Fatal;
        return candidate;
    }
    let available_space = flood_fill(grid, &new_pos);
    let mut score: i128 = available_space as i128 * 5_000;
    match evaluate_food(&new_pos, board, you.health) {
        Some(signal) => {
            if signal.direction == direction {
                score = score + calculate_food_score(signal.distance, you.health);
            }
        },
        None => {},
    }
    proof {
        assert(board.snakes@.len() == board.snakes.len());
        lemma_threat_sum_bounds(new_pos@, board.snakes@, *you, board.snakes@.len() as int);
        lemma_center_score_bounds(new_pos, *board);
    }
    score = score + evaluate_threats(&new_pos, board, you);
    score = score + evaluate_center_control(&new_pos, board);
    candidate.score = Score::Points(score);
    candidate
}

/// Scores the four moves from `head` and returns the best one: the candidate
/// of the greatest score, and among equal scores the first in the order up,
/// down, left, right. When all four are fatal this is the move up.
pub fn evaluate_moves(head: &Coord, you: &Snake, board: &Board) -> (best: Move)
    requires
        can_step(head@),
        board.snakes_have_heads(),
    ensures
        best.direction == best_move(head@, *you, *board),
        best.score@ == move_value(head@, *you, *board, best.direction),
{
    let grid = OccupancyGrid::build(board);
    let mut best = score_move(Direction::Up, head, you, board, &grid);
    let down = score_move(Direction::Down, head, you, board, &grid);
    if down.score.exceeds(&best.score) {
        best = down;
    }
    let left = score_move(Direction::Left, head, you, board, &grid);
    if left.score.exceeds(&best.score) {
        best = left;
    }
    let right = score_move(Direction::Right, head, you, board, &grid);
    if right.score.exceeds(&best.score) {
        best = right;
    }
    best
}

} // verus!
