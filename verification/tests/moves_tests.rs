use snake_engine::board::{Board, Snake};
use snake_engine::geometry::{get_new_position, Coord, Direction};
use snake_engine::grid::{flood_fill, OccupancyGrid};
use snake_engine::moves::{evaluate_moves, Move, Score};

fn at(x: i32, y: i32) -> Coord {
    Coord { x, y }
}

fn snake(id: &str, body: Vec<Coord>, health: i32) -> Snake {
    let length = body.len();
    Snake { id: id.to_string(), body, health, length }
}

fn me() -> Snake {
    snake("me", vec![at(5, 5), at(4, 5), at(3, 5)], 100)
}

fn board(width: i32, height: i32, snakes: Vec<Snake>) -> Board {
    Board { height, width, food: Vec::new(), hazards: Vec::new(), snakes }
}

#[test]
fn new_move_starts_at_zero() {
    let m = Move::new(Direction::Left);
    assert_eq!(m.direction, Direction::Left);
    assert_eq!(m.score, Score::Points(0));
}

#[test]
fn score_comparison_is_strict() {
    assert!(Score::Points(2).exceeds(&Score::Points(1)));
    assert!(!Score::Points(1).exceeds(&Score::Points(1)));
    assert!(!Score::Points(1).exceeds(&Score::Points(2)));
}

#[test]
fn fatal_score_is_below_every_number() {
    assert!(Score::Points(i128::MIN).exceeds(&Score::Fatal));
    assert!(!Score::Fatal.exceeds(&Score::Points(i128::MIN)));
    assert!(!Score::Fatal.exceeds(&Score::Fatal));
}

#[test]
fn lone_snake_in_the_middle_moves_up() {
    let you = me();
    let b = board(11, 11, vec![me()]);
    let best = evaluate_moves(&you.body[0], &you, &b);
    assert_eq!(best, Move { direction: Direction::Up, score: Score::Points(618_586) });
}

#[test]
fn lone_snake_in_the_middle_takes_a_move_of_greatest_space() {
    let you = me();
    let b = board(11, 11, vec![me()]);
    let best = evaluate_moves(&you.body[0], &you, &b);
    assert_ne!(best.direction, Direction::Left);
    let grid = OccupancyGrid::build(&b);
    let chosen = flood_fill(&grid, &get_new_position(&you.body[0], best.direction));
    assert_eq!(chosen, 119);
    for d in [Direction::Up, Direction::Down, Direction::Left, Direction::Right] {
        assert!(flood_fill(&grid, &get_new_position(&you.body[0], d)) <= chosen);
    }
}

#[test]
fn food_ahead_rewards_the_move_toward_it() {
    let you = me();
    let mut b = board(11, 11, vec![me()]);
    b.food = vec![at(5, 8)];
    let best = evaluate_moves(&you.body[0], &you, &b);
    assert_eq!(best, Move { direction: Direction::Up, score: Score::Points(716_586) });
}

#[test]
fn food_to_the_right_rewards_the_move_right() {
    let you = me();
    let mut b = board(11, 11, vec![me()]);
    b.food = vec![at(9, 5)];
    let best = evaluate_moves(&you.body[0], &you, &b);
    assert_eq!(best, Move { direction: Direction::Right, score: Score::Points(715_586) });
}

#[test]
fn low_health_triples_the_food_reward() {
    let you = snake("me", vec![at(5, 5), at(4, 5), at(3, 5)], 20);
    let mut b = board(11, 11, vec![snake("me", vec![at(5, 5), at(4, 5), at(3, 5)], 20)]);
    b.food = vec![at(9, 5)];
    let best = evaluate_moves(&you.body[0], &you, &b);
    assert_eq!(best, Move { direction: Direction::Right, score: Score::Points(909_586) });
}

#[test]
fn larger_space_outweighs_the_center() {
    let you = snake("me", vec![at(5, 2), at(5, 1), at(5, 0)], 100);
    let mut b = board(11, 11, vec![snake("me", vec![at(5, 2), at(5, 1), at(5, 0)], 100)]);
    b.hazards = vec![at(4, 3), at(6, 3), at(5, 4)];
    let grid = OccupancyGrid::build(&b);
    assert_eq!(flood_fill(&grid, &at(5, 3)), 1);
    assert_eq!(flood_fill(&grid, &at(4, 2)), 115);
    assert_eq!(flood_fill(&grid, &at(6, 2)), 115);
    let best = evaluate_moves(&you.body[0], &you, &b);
    assert_eq!(best, Move { direction: Direction::Right, score: Score::Points(592_929) });
}

#[test]
fn threat_next_to_a_longer_snake_is_charged() {
    let you = me();
    let other = snake("big", vec![at(5, 8), at(5, 9), at(6, 9), at(7, 9)], 100);
    let b = board(11, 11, vec![me(), other]);
    let best = evaluate_moves(&you.body[0], &you, &b);
    assert_eq!(best, Move { direction: Direction::Right, score: Score::Points(603_586) });
}

#[test]
fn all_moves_fatal_falls_back_to_up() {
    let you = snake("me", vec![at(0, 0)], 100);
    let b = board(1, 1, vec![snake("me", vec![at(0, 0)], 100)]);
    let best = evaluate_moves(&you.body[0], &you, &b);
    assert_eq!(best, Move { direction: Direction::Up, score: Score::Fatal });
}

#[test]
fn move_onto_a_hazard_is_scored_without_space() {
    let you = snake("me", vec![at(0, 0), at(0, 0)], 100);
    let mut b = board(2, 1, vec![snake("me", vec![at(0, 0), at(0, 0)], 100)]);
    b.hazards = vec![at(1, 0)];
    let best = evaluate_moves(&you.body[0], &you, &b);
    assert_eq!(best, Move { direction: Direction::Right, score: Score::Points(24_000) });
}

#[test]
fn board_without_listed_snakes_blocks_nothing() {
    let you = me();
    let b = board(11, 11, Vec::new());
    let best = evaluate_moves(&you.body[0], &you, &b);
    assert_eq!(best, Move { direction: Direction::Up, score: Score::Points(628_586) });
}
