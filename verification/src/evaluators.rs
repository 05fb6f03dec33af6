//! The three independent scoring signals of a candidate position: food
//! urgency, threat proximity and center control. All scores are counted in
//! thousandths of a point.

use crate::board::{Board, Snake};
use crate::geometry::{manhattan, manhattan_distance, Cell, Coord, Direction};
use crate::numeric::{floor_sqrt, isqrt, lemma_floor_sqrt};
use vstd::prelude::*;

verus! {

/// What the nearest food tells about a position.
#[derive(Clone, Copy, Debug, PartialEq, Eq, Structural)]
pub struct FoodSignal {
    /// Manhattan distance to the nearest food.
    pub distance: i64,
    /// The distance in thousandths, stretched by half when health is low.
    pub adjusted: i128,
    /// The cardinal direction that leads toward that food.
    pub direction: Direction,
}

/// Among the first `n` food cells, `k` is the first one at the least
/// Manhattan distance from `pos`.
pub open spec fn is_nearest_among(pos: Cell, food: Seq<Coord>, n: int, k: int) -> bool {
    &&& 0 <= k < n <= food.len()
    &&& forall|j: int| 0 <= j < n ==> manhattan(pos, food[k]@) <= manhattan(pos, (#[trigger] food[j])@)
    &&& forall|j: int| 0 <= j < k ==> manhattan(pos, food[k]@) < manhattan(pos, (#[trigger] food[j])@)
}

/// Index of the nearest food cell; among equally near ones, of the first listed.
pub open spec fn nearest_food(pos: Cell, food: Seq<Coord>) -> int {
    choose|k: int| is_nearest_among(pos, food, food.len() as int, k)
}

/// The direction that leads from `pos` toward `target`: along the axis with
/// the larger offset, and along the vertical one when both are equal.
pub open spec fn food_direction(pos: Cell, target: Cell) -> Direction {
    let dx = target.0 - pos.0;
    let dy = target.1 - pos.1;
    let ax = if dx >= 0 { dx } else { -dx };
    let ay = if dy >= 0 { dy } else { -dy };
    if ax > ay {
        if dx > 0 { Direction::Right } else { Direction::Left }
    } else {
        if dy > 0 { Direction::Up } else { Direction::Down }
    }
}

/// A distance in thousandths, multiplied by 1.5 when health is below 25.
pub open spec fn urgency_distance(distance: int, health: int) -> int {
    if health < 25 { distance * 1500 } else { distance * 1000 }
}

/// The signal that the food cell `target` gives at `pos`.
pub open spec fn food_signal(pos: Cell, target: Cell, health: int) -> FoodSignal {
    FoodSignal {
        distance: manhattan(pos, target) as i64,
        adjusted: urgency_distance(manhattan(pos, target), health) as i128,
        direction: food_direction(pos, target),
    }
}

/// The reward for food at the given distance: `100 - distance` points, tripled
/// when health is below 25, and multiplied by 1.5 when it is below 50.
pub open spec fn food_reward(distance: int, health: int) -> int {
    if health < 25 {
        (100 - distance) * 3000
    } else if health < 50 {
        (100 - distance) * 1500
    } else {
        (100 - distance) * 1000
    }
}

/// What one snake adds to the threat score of `pos`: nothing when it is the
/// own agent or its head is more than two steps away; otherwise a penalty of
/// 150 points when the own body is not longer than its body, and a reward of
/// 50 points when it is.
pub open spec fn threat_delta(pos: Cell, snake: Snake, you: Snake) -> int {
    if snake.id@ != you.id@ && manhattan(pos, snake.head()) <= 2 {
        if you.body@.len() <= snake.body@.len() { -150_000 } else { 50_000 }
    } else {
        0
    }
}

/// Sum of the threat deltas of the first `n` snakes.
pub open spec fn threat_sum(pos: Cell, snakes: Seq<Snake>, you: Snake, n: int) -> int
    decreases n,
{
    if n <= 0 {
        0
    } else {
        threat_sum(pos, snakes, you, n - 1) + threat_delta(pos, snakes[n - 1], you)
    }
}

/// The threat score of `pos`: the sum of the threat deltas of all snakes.
pub open spec fn threat_score(pos: Cell, snakes: Seq<Snake>, you: Snake) -> int {
    threat_sum(pos, snakes, you, snakes.len() as int)
}

/// Twice the Euclidean distance from `pos` to the center `(width / 2,
/// height / 2)`, squared. It is a whole number although the center may lie
/// between cells.
pub open spec fn center_offset_squared(pos: Cell, width: int, height: int) -> int {
    (2 * pos.0 - width) * (2 * pos.0 - width) + (2 * pos.1 - height) * (2 * pos.1 - height)
}

/// The center-control score of `pos`: 25 points less twice the Euclidean
/// distance to the center, the distance term rounded down to a thousandth.
pub open spec fn center_score(pos: Cell, width: int, height: int) -> int {
    25_000 - floor_sqrt(1_000_000 * center_offset_squared(pos, width, height))
}

/// At most one food cell is the first of the nearest ones, and it is the one
/// that `nearest_food` names.
pub proof fn lemma_nearest_food(pos: Cell, food: Seq<Coord>, k: int)
    requires
        is_nearest_among(pos, food, food.len() as int, k),
    ensures
        nearest_food(pos, food) == k,
{
    let c = nearest_food(pos, food);
    assert(is_nearest_among(pos, food, food.len() as int, c));
    if c < k {
        assert(manhattan(pos, food[k]@) < manhattan(pos, food[c]@));
        assert(manhattan(pos, food[c]@) <= manhattan(pos, food[k]@));
    } else if k < c {
        assert(manhattan(pos, food[c]@) < manhattan(pos, food[k]@));
        assert(manhattan(pos, food[k]@) <= manhattan(pos, food[c]@));
    }
}

/// Finds the nearest food cell from `pos`; among equally near cells the first
/// listed wins. Returns its distance, the distance adjusted for urgency, and
/// the direction that leads toward it; `None` when the board holds no food.
pub fn evaluate_food(pos: &Coord, board: &Board, health: i32) -> (signal: Option<FoodSignal>)
    ensures
        board.food@.len() == 0 ==> signal is None,
        board.food@.len() > 0 ==> signal == Some(
            food_signal(pos@, board.food@[nearest_food(pos@, board.food@)]@, health as int),
        ),
{
    if board.food.len() == 0 {
        return None;
    }
    let mut best: usize = 0;
    let mut best_dist: i64 = manhattan_distance(pos, &board.food[0]);
    let mut i: usize = 1;
    while i < board.food.len()
        invariant
            1 <= i <= board.food@.len(),
            best_dist == manhattan(pos@, board.food@[best as int]@),
            is_nearest_among(pos@, board.food@, i as int, best as int),
        decreases board.food@.len() - i,
    {
        let dist = manhattan_distance(pos, &board.food[i]);
        if dist < best_dist {
            best = i;
            best_dist = dist;
        }
        i += 1;
    }
    proof {
        lemma_nearest_food(pos@, board.food@, best as int);
    }
    let target = &board.food[best];
    let dx: i64 = target.x as i64 - pos.x as i64;
    let dy: i64 = target.y as i64 - pos.y as i64;
    let ax: i64 = if dx >= 0 { dx } else { -dx };
    let ay: i64 = if dy >= 0 { dy } else { -dy };
    let direction = if ax > ay {
        if dx > 0 { Direction::Right } else { Direction::Left }
    } else {
        if dy > 0 { Direction::Up } else { Direction::Down }
    };
    let adjusted: i128 = if health < 25 { best_dist as i128 * 1500 } else { best_dist as i128 * 1000 };
    Some(FoodSignal { distance: best_dist, adjusted, direction })
}

/// The reward for food at `distance`: `100 - distance` points, tripled when
/// health is below 25, and multiplied by 1.5 when it is below 50.
pub fn calculate_food_score(distance: i64, health: i32) -> (score: i128)
    ensures
        score == food_reward(distance as int, health as int),
{
    let base: i128 = 100 - distance as i128;
    if health < 25 {
        base * 3000
    } else if health < 50 {
        base * 1500
    } else {
        base * 1000
    }
}

/// The center score lies between `25_000 - 2^64` thousandths and 25 points.
pub proof fn lemma_center_score_bounds(pos: Coord, board: Board)
    ensures
        25_000 - 0x1_0000_0000_0000_0000 <= center_score(
            pos@,
            board.width as int,
            board.height as int,
        ) <= 25_000,
{
    let a = 2 * pos.x - board.width;
    let b = 2 * pos.y - board.height;
    assert(0 <= a * a <= 0x2_0000_0000 * 0x2_0000_0000) by (nonlinear_arith)
        requires
            -0x2_0000_0000 <= a <= 0x2_0000_0000,
    ;
    assert(0 <= b * b <= 0x2_0000_0000 * 0x2_0000_0000) by (nonlinear_arith)
        requires
            -0x2_0000_0000 <= b <= 0x2_0000_0000,
    ;
    let n = 1_000_000 * center_offset_squared(pos@, board.width as int, board.height as int);
    lemma_floor_sqrt(n);
    let r = floor_sqrt(n);
    assert(r <= 0x1_0000_0000_0000_0000) by (nonlinear_arith)
        requires
            r * r <= n,
            n <= 0xffff_ffff_ffff_ffff_ffff_ffff_ffff_ffff,
            0 <= r,
    ;
}

/// Each of the first `n` snakes moves the threat sum by at most 150 points.
pub proof fn lemma_threat_sum_bounds(pos: Cell, snakes: Seq<Snake>, you: Snake, n: int)
    requires
        0 <= n,
    ensures
        -150_000 * n <= threat_sum(pos, snakes, you, n) <= 50_000 * n,
    decreases n,
{
    if n > 0 {
        lemma_threat_sum_bounds(pos, snakes, you, n - 1);
    }
}

/// The threat score of `pos`: for every other snake whose head is within two
/// steps, a penalty of 150 points when the own body is not longer than its
/// body, and a reward of 50 points when it is.
pub fn evaluate_threats(pos: &Coord, board: &Board, you: &Snake) -> (score: i128)
    requires
        board.snakes_have_heads(),
    ensures
        score == threat_score(pos@, board.snakes@, *you),
{
    let mut score: i128 = 0;
    let mut i: usize = 0;
    while i < board.snakes.len()
        invariant
            i <= board.snakes@.len(),
            board.snakes_have_heads(),
            score == threat_sum(pos@, board.snakes@, *you, i as int),
        decreases board.snakes@.len() - i,
    {
        proof {
            lemma_threat_sum_bounds(pos@, board.snakes@, *you, i as int);
        }
        let snake = &board.snakes[i];
        if snake.id != you.id {
            let head_dist = manhattan_distance(pos, &snake.body[0]);
            if head_dist <= 2 {
                if you.body.len() <= snake.body.len() {
                    score = score - 150_000;
                } else {
                    score = score + 50_000;
                }
            }
        }
        i += 1;
    }
    score
}

/// The center-control score of `pos`: 25 points less twice the Euclidean
/// distance to the center `(width / 2, height / 2)`, the distance term rounded
/// down to a thousandth.
pub fn evaluate_center_control(pos: &Coord, board: &Board) -> (score: i128)
    ensures
        score == center_score(pos@, board.width as int, board.height as int),
{
    let a: i128 = 2 * (pos.x as i128) - board.width as i128;
    let b: i128 = 2 * (pos.y as i128) - board.height as i128;
    assert(0 <= a * a <= 0x2_0000_0000 * 0x2_0000_0000) by (nonlinear_arith)
        requires
            -0x2_0000_0000 <= a <= 0x2_0000_0000,
    ;
    assert(0 <= b * b <= 0x2_0000_0000 * 0x2_0000_0000) by (nonlinear_arith)
        requires
            -0x2_0000_0000 <= b <= 0x2_0000_0000,
    ;
    let n: i128 = a * a + b * b;
    let scaled: u128 = (1_000_000 * n) as u128;
    let root = isqrt(scaled);
    proof {
        lemma_floor_sqrt(scaled as int);
        assert(root * root <= scaled);
        assert(root <= 0x1_0000_0000_0000_0000) by (nonlinear_arith)
            requires
                root * root <= scaled,
                scaled <= 0xffff_ffff_ffff_ffff_ffff_ffff_ffff_ffff,
                0 <= root,
        ;
    }
    25_000 - root as i128
}

} // verus!
