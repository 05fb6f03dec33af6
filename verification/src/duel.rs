//! The duel strategy, used when exactly two snakes are on the board: a 4 by 4
//! payoff matrix over the own and the opponent's move, reduced to one weight
//! per own move by averaging over the opponent's moves.
//!
//! The opponent is taken to play each of its four moves with equal chance, so
//! the expected payoff of an own move is the mean of its row. The four means
//! are normalised by their sum when that sum is positive, and replaced by
//! four equal weights of 1/4 when it is not. The four weights always share
//! one positive denominator, so they are compared by their numerators.

use crate::board::{Board, GameState, Snake};
use crate::geometry::{
    can_step, get_new_position, manhattan, manhattan_distance, step, Cell, Coord, Direction,
};
use crate::moves::first_best;
use vstd::prelude::*;

verus! {

/// What one food cell adds to a payoff: `10 / (d + 1)` points when the own new
/// head is strictly closer to it, `d` being its distance; `5 / (d + 1)` points
/// less when the opponent's new head is strictly closer, `d` being the
/// opponent's distance; nothing when both are equally far. The quotients are
/// rounded down to a thousandth.
pub open spec fn food_edge(mine: Cell, theirs: Cell, food: Cell) -> int {
    let own = manhattan(mine, food);
    let other = manhattan(theirs, food);
    if own < other {
        10_000int / (own + 1)
    } else if other < own {
        -(5_000int / (other + 1))
    } else {
        0
    }
}

/// Sum of the food terms of the first `n` food cells.
pub open spec fn food_edge_sum(mine: Cell, theirs: Cell, food: Seq<Coord>, n: int) -> int
    decreases n,
{
    if n <= 0 {
        0
    } else {
        food_edge_sum(mine, theirs, food, n - 1) + food_edge(mine, theirs, food[n - 1]@)
    }
}

/// What leaving the board adds to a payoff: 1000 points lost when the own
/// new head does, and 1000 points won when the opponent's does.
pub open spec fn boundary_term(board: Board, own: Cell, other: Cell) -> int {
    (if !board.in_bounds(own) { -1_000_000int } else { 0 }) + (if !board.in_bounds(other) {
        1_000_000int
    } else {
        0
    })
}

/// What running into a body adds to a payoff: 1000 points lost when the own
/// new head runs into the own body, 500 lost when it runs into the
/// opponent's body, and 500 won when the opponent's new head runs into the
/// own body. The last segment of a body never counts.
pub open spec fn collision_term(you: Snake, opponent: Snake, own: Cell, other: Cell) -> int {
    (if you.covers(own) { -1_000_000int } else { 0 }) + (if opponent.covers(own) {
        -500_000int
    } else {
        0
    }) + (if you.covers(other) { 500_000int } else { 0 })
}

/// What meeting head-on adds to a payoff: when both new heads lie on one
/// cell, 100 points, won when the own body is strictly longer and lost
/// otherwise.
pub open spec fn head_on_term(you: Snake, opponent: Snake, own: Cell, other: Cell) -> int {
    if own == other {
        if you.body@.len() > opponent.body@.len() { 100_000 } else { -100_000 }
    } else {
        0
    }
}

/// The flat bonus of 5 points when the own health is lower than the
/// opponent's.
pub open spec fn urgency_term(you: Snake, opponent: Snake) -> int {
    if you.health < opponent.health { 5_000 } else { 0 }
}

/// The payoff of one cell of the matrix, in thousandths of a point, for the
/// own move `mine` against the opponent's move `theirs`: the sum of the
/// boundary term, the collision term, the head-on term, the food terms of
/// all food cells, and the urgency term.
pub open spec fn payoff(
    you: Snake,
    opponent: Snake,
    board: Board,
    mine: Direction,
    theirs: Direction,
) -> int {
    let own = step(you.head(), mine);
    let other = step(opponent.head(), theirs);
    boundary_term(board, own, other) + collision_term(you, opponent, own, other) + head_on_term(
        you,
        opponent,
        own,
        other,
    ) + food_edge_sum(own, other, board.food@, board.food@.len() as int) + urgency_term(
        you,
        opponent,
    )
}

/// Sum of the payoffs of one row: the own move `mine` against each of the
/// opponent's four moves. The expected payoff of `mine` is a quarter of it.
pub open spec fn row_total(you: Snake, opponent: Snake, board: Board, mine: Direction) -> int {
    payoff(you, opponent, board, mine, Direction::Up)
        + payoff(you, opponent, board, mine, Direction::Down)
        + payoff(you, opponent, board, mine, Direction::Left)
        + payoff(you, opponent, board, mine, Direction::Right)
}

/// Sum of all sixteen payoffs: four times the sum of the expected payoffs.
pub open spec fn matrix_total(you: Snake, opponent: Snake, board: Board) -> int {
    row_total(you, opponent, board, Direction::Up)
        + row_total(you, opponent, board, Direction::Down)
        + row_total(you, opponent, board, Direction::Left)
        + row_total(you, opponent, board, Direction::Right)
}

/// The weight of the own move `mine` as a fraction `(numerator,
/// denominator)`: its expected payoff divided by the sum of the four expected
/// payoffs when that sum is positive, and 1/4 otherwise.
pub open spec fn duel_weight(you: Snake, opponent: Snake, board: Board, mine: Direction) -> (
    int,
    int,
) {
    if matrix_total(you, opponent, board) > 0 {
        (row_total(you, opponent, board, mine), matrix_total(you, opponent, board))
    } else {
        (1, 4)
    }
}

/// The numerators of the four weights, by direction.
pub open spec fn duel_values(you: Snake, opponent: Snake, board: Board) -> spec_fn(
    Direction,
) -> Option<int> {
    |d: Direction| Some(duel_weight(you, opponent, board, d).0)
}

/// The move of the greatest weight; among equal weights the first in the
/// order up, down, left, right.
pub open spec fn duel_choice(you: Snake, opponent: Snake, board: Board) -> Direction {
    first_best(duel_values(you, opponent, board))
}

/// The opponent on a board of two snakes: the first one when it is not the
/// own agent, else the second.
pub open spec fn duel_opponent(state: GameState) -> Snake {
    if state.board.snakes@[0].id@ != state.you.id@ {
        state.board.snakes@[0]
    } else {
        state.board.snakes@[1]
    }
}

/// What the duel strategy answers: the chosen move on a board of exactly two
/// snakes, and the fallback direction, up, on any other board.
pub open spec fn duel_move(state: GameState) -> Direction {
    if state.board.snakes@.len() == 2 {
        duel_choice(state.you, duel_opponent(state), state.board)
    } else {
        Direction::Up
    }
}

/// Two heads that stand on adjacent cells can never move onto the same cell:
/// the term for meeting heads needs a gap of one cell between them.
pub proof fn lemma_adjacent_heads_never_meet(a: Cell, b: Cell, mine: Direction, theirs: Direction)
    requires
        manhattan(a, b) == 1,
    ensures
        step(a, mine) != step(b, theirs),
{
}

/// When the sum of the expected payoffs is not positive, all weights are
/// equal and the strategy answers up.
pub proof fn lemma_duel_uniform_fallback(you: Snake, opponent: Snake, board: Board)
    requires
        matrix_total(you, opponent, board) <= 0,
    ensures
        duel_choice(you, opponent, board) == Direction::Up,
{
}

/// When the sum of the expected payoffs is positive, no move has a greater
/// expected payoff than the chosen one, and a move of equal expected payoff
/// never comes before it in the order up, down, left, right.
pub proof fn lemma_duel_choice_is_best(you: Snake, opponent: Snake, board: Board, other: Direction)
    requires
        matrix_total(you, opponent, board) > 0,
    ensures
        row_total(you, opponent, board, other) <= row_total(
            you,
            opponent,
            board,
            duel_choice(you, opponent, board),
        ),
        row_total(you, opponent, board, other) == row_total(
            you,
            opponent,
            board,
            duel_choice(you, opponent, board),
        ) ==> duel_choice(you, opponent, board).rank() <= other.rank(),
{
}

/// Each of the first `n` food cells moves the food sum by at most 10 points.
proof fn lemma_food_edge_sum_bounds(mine: Cell, theirs: Cell, food: Seq<Coord>, n: int)
    requires
        0 <= n,
    ensures
        -10_000 * n <= food_edge_sum(mine, theirs, food, n) <= 10_000 * n,
    decreases n,
{
    if n > 0 {
        lemma_food_edge_sum_bounds(mine, theirs, food, n - 1);
        let own = manhattan(mine, food[n - 1]@);
        let other = manhattan(theirs, food[n - 1]@);
        assert(0 <= 10_000int / (own + 1) <= 10_000) by (nonlinear_arith)
            requires
                0 <= own,
        ;
        assert(0 <= 5_000int / (other + 1) <= 5_000) by (nonlinear_arith)
            requires
                0 <= other,
        ;
    }
}

/// A payoff is bounded by the fixed terms and 10 points per food cell.
proof fn lemma_payoff_bounds(
    you: Snake,
    opponent: Snake,
    board: Board,
    mine: Direction,
    theirs: Direction,
)
    ensures
        -3_000_000 - 10_000 * board.food@.len() <= payoff(you, opponent, board, mine, theirs)
            <= 2_000_000 + 10_000 * board.food@.len(),
{
    lemma_food_edge_sum_bounds(
        step(you.head(), mine),
        step(opponent.head(), theirs),
        board.food@,
        board.food@.len() as int,
    );
}

/// The sum of the food terms of all food cells, for the two new heads.
fn food_balance(mine: &Coord, theirs: &Coord, food: &Vec<Coord>) -> (sum: i128)
    ensures
        sum == food_edge_sum(mine@, theirs@, food@, food@.len() as int),
{
    let mut sum: i128 = 0;
    let mut i: usize = 0;
    while i < food.len()
        invariant
            i <= food@.len(),
            sum == food_edge_sum(mine@, theirs@, food@, i as int),
        decreases food@.len() - i,
    {
        proof {
            lemma_food_edge_sum_bounds(mine@, theirs@, food@, i as int);
            lemma_food_edge_sum_bounds(mine@, theirs@, food@, i + 1);
        }
        let own = manhattan_distance(mine, &food[i]);
        let other = manhattan_distance(theirs, &food[i]);
        if own < other {
            sum = sum + 10_000 / (own as i128 + 1);
        } else if other < own {
            sum = sum - 5_000 / (other as i128 + 1);
        }
        i += 1;
    }
    sum
}

/// The boundary term of the two new heads.
fn boundary_value(board: &Board, own: &Coord, other: &Coord) -> (value: i128)
    ensures
        value == boundary_term(*board, own@, other@),
{
    let mut value: i128 = 0;
    if !board.contains(own) {
        value = value - 1_000_000;
    }
    if !board.contains(other) {
        value = value + 1_000_000;
    }
    value
}

/// The collision term of the two new heads.
fn collision_value(you: &Snake, opponent: &Snake, own: &Coord, other: &Coord) -> (value: i128)
    ensures
        value == collision_term(*you, *opponent, own@, other@),
{
    let mut value: i128 = 0;
    if you.occupies(own) {
        value = value - 1_000_000;
    }
    if opponent.occupies(own) {
        value = value - 500_000;
    }
    if you.occupies(other) {
        value = value + 500_000;
    }
    value
}

/// The head-on term of the two new heads.
fn head_on_value(you: &Snake, opponent: &Snake, own: &Coord, other: &Coord) -> (value: i128)
    ensures
        value == head_on_term(*you, *opponent, own@, other@),
{
    if own.x == other.x && own.y == other.y {
        if you.body.len() > opponent.body.len() { 100_000 } else { -100_000 }
    } else {
        0
    }
}

/// The payoff of the own move `my_move` against the opponent's move
/// `opp_move`, in thousandths of a point.
pub fn compute_payoff(
    my_move: Direction,
    opp_move: Direction,
    you: &Snake,
    opponent: &Snake,
    board: &Board,
) -> (value: i128)
    requires
        you.body@.len() >= 1,
        opponent.body@.len() >= 1,
        can_step(you.head()),
        can_step(opponent.head()),
    ensures
        value == payoff(*you, *opponent, *board, my_move, opp_move),
{
    let own = get_new_position(&you.body[0], my_move);
    let other = get_new_position(&opponent.body[0], opp_move);
    let fixed = boundary_value(board, &own, &other) + collision_value(you, opponent, &own, &other)
        + head_on_value(you, opponent, &own, &other);
    let urgency: i128 = if you.health < opponent.health { 5_000 } else { 0 };
    proof {
        assert(board.food@.len() == board.food.len());
        lemma_food_edge_sum_bounds(own@, other@, board.food@, board.food@.len() as int);
    }
    fixed + food_balance(&own, &other, &board.food) + urgency
}

/// The sum of the payoffs of the own move `my_move` against each of the
/// opponent's four moves.
fn row_sum(my_move: Direction, you: &Snake, opponent: &Snake, board: &Board) -> (sum: i128)
    requires
        you.body@.len() >= 1,
        opponent.body@.len() >= 1,
        can_step(you.head()),
        can_step(opponent.head()),
    ensures
        sum == row_total(*you, *opponent, *board, my_move),
        -12_000_000 - 40_000 * board.food@.len() <= sum <= 8_000_000 + 40_000 * board.food@.len(),
{
    proof {
        assert(board.food@.len() == board.food.len());
        lemma_payoff_bounds(*you, *opponent, *board, my_move, Direction::Up);
        lemma_payoff_bounds(*you, *opponent, *board, my_move, Direction::Down);
        lemma_payoff_bounds(*you, *opponent, *board, my_move, Direction::Left);
        lemma_payoff_bounds(*you, *opponent, *board, my_move, Direction::Right);
    }
    let up = compute_payoff(my_move, Direction::Up, you, opponent, board);
    let down = compute_payoff(my_move, Direction::Down, you, opponent, board);
    let left = compute_payoff(my_move, Direction::Left, you, opponent, board);
    let right = compute_payoff(my_move, Direction::Right, you, opponent, board);
    up + down + left + right
}

/// The duel strategy. On a board of exactly two snakes it chooses the move of
/// the greatest expected payoff when the four expected payoffs have a positive
/// sum, ties going to the first in the order up, down, left, right; and up
/// when the sum is not positive. With any other number of snakes the
/// strategy does not apply and answers the fallback direction, up.
///
/// The strategy weighs payoffs only. That no fatal move is answered while
/// none of the four moves is safe is the caller's part: see
/// [`crate::decider::bilinear_duel`].
pub fn duel_strategy(state: &GameState) -> (direction: Direction)
    requires
        state.wf(),
    ensures
        direction == duel_move(*state),
{
    if state.board.snakes.len() != 2 {
        return Direction::Up;
    }
    let you = &state.you;
    let board = &state.board;
    let opponent = if board.snakes[0].id != you.id { &board.snakes[0] } else { &board.snakes[1] };
    assert(board.snakes@[0].wf() && board.snakes@[1].wf());
    assert(board.food@.len() == board.food.len());
    let up = row_sum(Direction::Up, you, opponent, board);
    let down = row_sum(Direction::Down, you, opponent, board);
    let left = row_sum(Direction::Left, you, opponent, board);
    let right = row_sum(Direction::Right, you, opponent, board);
    let total = up + down + left + right;
    if total <= 0 {
        return Direction::Up;
    }
    let mut best = Direction::Up;
    let mut best_sum = up;
    if down > best_sum {
        best = Direction::Down;
        best_sum = down;
    }
    if left > best_sum {
        best = Direction::Left;
        best_sum = left;
    }
    if right > best_sum {
        best = Direction::Right;
    }
    best
}

} // verus!
