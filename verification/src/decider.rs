//! The entry point of the engine: one snapshot in, one direction out.

use crate::board::{is_safe_move, GameState};
use crate::duel::{duel_move, duel_strategy};
use crate::geometry::{can_step, get_new_position, step, Direction};
use crate::moves::{
    beats, best_move, evaluate_moves, lemma_first_best_fallback, lemma_first_best_survives,
    lemma_first_best_wins, move_value, move_values,
};
use vstd::prelude::*;

verus! {

/// The two ways of choosing a move.
#[derive(Clone, Copy, Debug, PartialEq, Eq, Structural)]
pub enum Strategy {
    /// The weighted evaluator over the four candidate moves.
    Weighted,
    /// The payoff-matrix heuristic against a single opponent.
    Duel,
}

/// The strategy for a board with the given number of snakes: the duel
/// strategy for exactly two, the weighted evaluator for any other number.
pub open spec fn strategy_for(snakes: int) -> Strategy {
    if snakes == 2 { Strategy::Duel } else { Strategy::Weighted }
}

/// None of the four steps from the own head is safe: each leaves the board or
/// runs into a body.
pub open spec fn no_safe_move(state: GameState) -> bool {
    &&& !state.board.safe(step(state.you.head(), Direction::Up))
    &&& !state.board.safe(step(state.you.head(), Direction::Down))
    &&& !state.board.safe(step(state.you.head(), Direction::Left))
    &&& !state.board.safe(step(state.you.head(), Direction::Right))
}

/// The direction the engine answers with: the fallback direction, up, when
/// none of the four moves is safe; otherwise that of the strategy for the
/// number of snakes on the board.
pub open spec fn decision(state: GameState) -> Direction {
    if no_safe_move(state) {
        Direction::Up
    } else {
        match strategy_for(state.board.snakes@.len() as int) {
            Strategy::Duel => duel_move(state),
            Strategy::Weighted => best_move(state.you.head(), state.you, state.board),
        }
    }
}

/// Selects the strategy for a board with the given number of snakes.
pub fn select_strategy(snakes: usize) -> (strategy: Strategy)
    ensures
        strategy == strategy_for(snakes as int),
{
    if snakes == 2 { Strategy::Duel } else { Strategy::Weighted }
}

/// Whether one of the four steps from the own head is safe.
fn has_safe_move(state: &GameState) -> (any: bool)
    requires
        state.you.body@.len() >= 1,
        can_step(state.you.head()),
    ensures
        any == !no_safe_move(*state),
{
    let head = &state.you.body[0];
    is_safe_move(&get_new_position(head, Direction::Up), &state.board) || is_safe_move(
        &get_new_position(head, Direction::Down),
        &state.board,
    ) || is_safe_move(&get_new_position(head, Direction::Left), &state.board) || is_safe_move(
        &get_new_position(head, Direction::Right),
        &state.board,
    )
}

/// The weighted evaluator answers up by itself when none of the four moves
/// is safe, so outside duel mode the answer is always the evaluator's.
pub proof fn lemma_weighted_decision(state: GameState)
    requires
        state.board.snakes@.len() != 2,
    ensures
        decision(state) == best_move(state.you.head(), state.you, state.board),
{
    if no_safe_move(state) {
        lemma_first_best_fallback(move_values(state.you.head(), state.you, state.board));
    }
}

/// Chooses the move for one turn between the two strategies: the duel
/// strategy against a single opponent, the weighted evaluator on any other
/// board. Whatever the strategy, the answer is the fallback direction, up,
/// when none of the four moves is safe.
pub fn bilinear_duel(state: &GameState) -> (direction: Direction)
    requires
        state.wf(),
    ensures
        direction == decision(*state),
        (forall|d: Direction| !state.board.safe(step(state.you.head(), d))) ==> direction
            == Direction::Up,
{
    match select_strategy(state.board.snakes.len()) {
        Strategy::Duel => {
            if has_safe_move(state) {
                duel_strategy(state)
            } else {
                Direction::Up
            }
        },
        Strategy::Weighted => {
            proof {
                lemma_weighted_decision(*state);
            }
            evaluate_moves(&state.you.body[0], &state.you, &state.board).direction
        },
    }
}

/// Decides the move for one turn. The answer depends on the snapshot alone:
/// the engine keeps nothing from one call to the next. When none of the four
/// moves is safe, the answer is the fallback direction, up.
pub fn decide(state: &GameState) -> (direction: Direction)
    requires
        state.wf(),
    ensures
        direction == decision(*state),
        (forall|d: Direction| !state.board.safe(step(state.you.head(), d))) ==> direction
            == Direction::Up,
{
    bilinear_duel(state)
}

/// Decides the move for one turn when the snapshot is valid, and declines
/// when it is not.
pub fn try_decide(state: &GameState) -> (answer: Option<Direction>)
    ensures
        state.wf() ==> answer == Some(decision(*state)),
        !state.wf() ==> answer is None,
{
    if state.is_valid() {
        Some(decide(state))
    } else {
        None
    }
}

/// Outside duel mode the engine never answers with a fatal move while a safe
/// one exists: if some direction leads to a position on the board and clear
/// of every body, so does the answer.
pub proof fn lemma_decide_avoids_fatal(state: GameState, safe: Direction)
    requires
        state.board.snakes@.len() != 2,
        state.board.safe(step(state.you.head(), safe)),
    ensures
        state.board.safe(step(state.you.head(), decision(state))),
{
    lemma_weighted_decision(state);
    lemma_first_best_survives(move_values(state.you.head(), state.you, state.board), safe);
}

/// A single agent on the board never leaves the board nor runs into its own
/// body, the vacating tail excepted, while one of its four moves avoids both.
pub proof fn lemma_decide_alone_is_safe(state: GameState, safe: Direction)
    requires
        state.board.snakes@.len() == 1,
        state.board.snakes@[0].body@ == state.you.body@,
        state.board.in_bounds(step(state.you.head(), safe)),
        !state.you.covers(step(state.you.head(), safe)),
    ensures
        state.board.in_bounds(step(state.you.head(), decision(state))),
        !state.you.covers(step(state.you.head(), decision(state))),
{
    let only = state.board.snakes@[0];
    assert forall|c: (int, int)| state.board.collides(c) == state.you.covers(c) by {
        if state.board.collides(c) {
            let i = choose|i: int|
                0 <= i < state.board.snakes@.len() && (#[trigger] state.board.snakes@[i]).covers(c);
            assert(only.covers(c));
        }
        if state.you.covers(c) {
            assert(only.covers(c));
        }
    }
    lemma_decide_avoids_fatal(state, safe);
}

/// When all four moves are fatal the engine answers with the fallback
/// direction, up, whatever the number of snakes on the board.
pub proof fn lemma_decide_fallback(state: GameState)
    requires
        !state.board.safe(step(state.you.head(), Direction::Up)),
        !state.board.safe(step(state.you.head(), Direction::Down)),
        !state.board.safe(step(state.you.head(), Direction::Left)),
        !state.board.safe(step(state.you.head(), Direction::Right)),
    ensures
        decision(state) == Direction::Up,
{
}

/// Outside duel mode no move scores strictly higher than the answer, and a
/// move of equal score never comes before it in the order up, down, left,
/// right: equal scores always resolve to the same winner.
pub proof fn lemma_decide_tie_break(state: GameState, other: Direction)
    requires
        state.board.snakes@.len() != 2,
    ensures
        !beats(
            move_value(state.you.head(), state.you, state.board, other),
            move_value(state.you.head(), state.you, state.board, decision(state)),
        ),
        move_value(state.you.head(), state.you, state.board, other) == move_value(
            state.you.head(),
            state.you,
            state.board,
            decision(state),
        ) ==> decision(state).rank() <= other.rank(),
{
    lemma_weighted_decision(state);
    lemma_first_best_wins(move_values(state.you.head(), state.you, state.board), other);
}

} // verus!
