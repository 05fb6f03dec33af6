use snake_engine::board::{Board, Snake};
use snake_engine::evaluators::{
    calculate_food_score, evaluate_center_control, evaluate_food, evaluate_threats, FoodSignal,
};
use snake_engine::geometry::{Coord, Direction};
use snake_engine::numeric::isqrt;

fn at(x: i32, y: i32) -> Coord {
    Coord { x, y }
}

fn snake(id: &str, body: Vec<Coord>) -> Snake {
    let length = body.len();
    Snake { id: id.to_string(), body, health: 100, length }
}

fn board_with_food(food: Vec<Coord>) -> Board {
    Board { height: 11, width: 11, food, hazards: Vec::new(), snakes: Vec::new() }
}

fn board_with_snakes(snakes: Vec<Snake>) -> Board {
    Board { height: 11, width: 11, food: Vec::new(), hazards: Vec::new(), snakes }
}

fn sized_board(width: i32, height: i32) -> Board {
    Board { height, width, food: Vec::new(), hazards: Vec::new(), snakes: Vec::new() }
}

#[test]
fn isqrt_of_small_numbers() {
    assert_eq!(isqrt(0), 0);
    assert_eq!(isqrt(1), 1);
    assert_eq!(isqrt(2), 1);
    assert_eq!(isqrt(3), 1);
    assert_eq!(isqrt(4), 2);
    assert_eq!(isqrt(8), 2);
    assert_eq!(isqrt(9), 3);
    assert_eq!(isqrt(99), 9);
    assert_eq!(isqrt(100), 10);
}

#[test]
fn isqrt_rounds_down() {
    assert_eq!(isqrt(2_000_000), 1414);
    assert_eq!(isqrt(10_000_000), 3162);
    assert_eq!(isqrt(999_999_999_999), 999_999);
    assert_eq!(isqrt(1_000_000_000_000), 1_000_000);
}

#[test]
fn isqrt_of_the_largest_number() {
    assert_eq!(isqrt(u128::MAX), 18_446_744_073_709_551_615);
    assert_eq!(isqrt(1u128 << 126), 1u128 << 63);
}

#[test]
fn food_signal_without_food() {
    let b = board_with_food(Vec::new());
    assert_eq!(evaluate_food(&at(2, 2), &b, 100), None);
}

#[test]
fn food_signal_picks_the_nearest_food() {
    let b = board_with_food(vec![at(9, 9), at(2, 4), at(0, 10)]);
    let signal = evaluate_food(&at(2, 2), &b, 100);
    assert_eq!(
        signal,
        Some(FoodSignal { distance: 2, adjusted: 2000, direction: Direction::Up })
    );
}

#[test]
fn food_signal_keeps_the_first_of_equally_near_food() {
    let b = board_with_food(vec![at(5, 2), at(2, 5), at(0, 0)]);
    let signal = evaluate_food(&at(2, 2), &b, 100);
    assert_eq!(
        signal,
        Some(FoodSignal { distance: 3, adjusted: 3000, direction: Direction::Right })
    );
    let swapped = board_with_food(vec![at(2, 5), at(5, 2), at(0, 0)]);
    let signal = evaluate_food(&at(2, 2), &swapped, 100);
    assert_eq!(
        signal,
        Some(FoodSignal { distance: 3, adjusted: 3000, direction: Direction::Up })
    );
}

#[test]
fn food_signal_stretches_the_distance_when_health_is_low() {
    let b = board_with_food(vec![at(5, 2)]);
    assert_eq!(evaluate_food(&at(2, 2), &b, 24).unwrap().adjusted, 4500);
    assert_eq!(evaluate_food(&at(2, 2), &b, 25).unwrap().adjusted, 3000);
    assert_eq!(evaluate_food(&at(2, 2), &b, 24).unwrap().distance, 3);
}

#[test]
fn food_direction_follows_the_larger_offset() {
    let right = board_with_food(vec![at(6, 3)]);
    assert_eq!(evaluate_food(&at(2, 2), &right, 100).unwrap().direction, Direction::Right);
    let left = board_with_food(vec![at(0, 3)]);
    assert_eq!(evaluate_food(&at(2, 2), &left, 100).unwrap().direction, Direction::Left);
    let up = board_with_food(vec![at(3, 6)]);
    assert_eq!(evaluate_food(&at(2, 2), &up, 100).unwrap().direction, Direction::Up);
    let down = board_with_food(vec![at(3, 0)]);
    assert_eq!(evaluate_food(&at(2, 2), &down, 100).unwrap().direction, Direction::Down);
}

#[test]
fn food_direction_prefers_the_vertical_axis_on_equal_offsets() {
    let above = board_with_food(vec![at(4, 4)]);
    assert_eq!(evaluate_food(&at(2, 2), &above, 100).unwrap().direction, Direction::Up);
    let below = board_with_food(vec![at(0, 0)]);
    assert_eq!(evaluate_food(&at(2, 2), &below, 100).unwrap().direction, Direction::Down);
}

#[test]
fn food_direction_on_the_food_itself_is_down() {
    let b = board_with_food(vec![at(2, 2)]);
    assert_eq!(
        evaluate_food(&at(2, 2), &b, 100),
        Some(FoodSignal { distance: 0, adjusted: 0, direction: Direction::Down })
    );
}

#[test]
fn food_score_at_full_health() {
    assert_eq!(calculate_food_score(3, 100), 97_000);
    assert_eq!(calculate_food_score(0, 50), 100_000);
}

#[test]
fn food_score_below_half_health() {
    assert_eq!(calculate_food_score(3, 49), 145_500);
    assert_eq!(calculate_food_score(3, 25), 145_500);
}

#[test]
fn food_score_below_a_quarter_health() {
    assert_eq!(calculate_food_score(3, 24), 291_000);
    assert_eq!(calculate_food_score(3, 0), 291_000);
}

#[test]
fn food_score_turns_negative_beyond_a_hundred_steps() {
    assert_eq!(calculate_food_score(150, 80), -50_000);
    assert_eq!(calculate_food_score(150, 10), -150_000);
}

#[test]
fn threats_without_other_snakes() {
    let me = snake("me", vec![at(5, 5), at(4, 5), at(3, 5)]);
    let b = board_with_snakes(vec![snake("me", vec![at(5, 5), at(4, 5), at(3, 5)])]);
    assert_eq!(evaluate_threats(&at(5, 5), &b, &me), 0);
    let empty = board_with_snakes(Vec::new());
    assert_eq!(evaluate_threats(&at(5, 5), &empty, &me), 0);
}

#[test]
fn threat_from_a_snake_of_equal_length() {
    let me = snake("me", vec![at(5, 5), at(4, 5), at(3, 5)]);
    let b = board_with_snakes(vec![snake("a", vec![at(6, 7), at(6, 8), at(6, 9)])]);
    assert_eq!(evaluate_threats(&at(5, 6), &b, &me), -150_000);
}

#[test]
fn threat_from_a_longer_snake() {
    let me = snake("me", vec![at(5, 5), at(4, 5)]);
    let b = board_with_snakes(vec![snake("a", vec![at(5, 7), at(5, 8), at(5, 9)])]);
    assert_eq!(evaluate_threats(&at(5, 5), &b, &me), -150_000);
}

#[test]
fn reward_next_to_a_shorter_snake() {
    let me = snake("me", vec![at(5, 5), at(4, 5), at(3, 5)]);
    let b = board_with_snakes(vec![snake("a", vec![at(6, 6), at(6, 7)])]);
    assert_eq!(evaluate_threats(&at(5, 5), &b, &me), 50_000);
}

#[test]
fn no_threat_beyond_two_steps() {
    let me = snake("me", vec![at(5, 5), at(4, 5), at(3, 5)]);
    let b = board_with_snakes(vec![snake("a", vec![at(7, 6), at(7, 7), at(7, 8), at(7, 9)])]);
    assert_eq!(evaluate_threats(&at(5, 5), &b, &me), 0);
    assert_eq!(evaluate_threats(&at(6, 5), &b, &me), -150_000);
}

#[test]
fn threats_add_up_over_all_other_snakes() {
    let me = snake("me", vec![at(5, 5), at(4, 5), at(3, 5)]);
    let b = board_with_snakes(vec![
        snake("a", vec![at(5, 7), at(5, 8), at(5, 9)]),
        snake("me", vec![at(5, 5), at(4, 5), at(3, 5)]),
        snake("b", vec![at(6, 5), at(7, 5)]),
        snake("c", vec![at(0, 0), at(0, 1), at(0, 2), at(0, 3)]),
        snake("d", vec![at(4, 4), at(4, 3), at(4, 2), at(4, 1)]),
    ]);
    assert_eq!(evaluate_threats(&at(5, 5), &b, &me), -250_000);
}

#[test]
fn center_score_at_the_center_of_an_even_board() {
    let b = sized_board(10, 10);
    assert_eq!(evaluate_center_control(&at(5, 5), &b), 25_000);
}

#[test]
fn center_score_on_an_odd_board() {
    let b = sized_board(11, 11);
    assert_eq!(evaluate_center_control(&at(5, 5), &b), 23_586);
    assert_eq!(evaluate_center_control(&at(5, 6), &b), 23_586);
    assert_eq!(evaluate_center_control(&at(5, 4), &b), 21_838);
}

#[test]
fn center_score_in_a_corner() {
    let b = sized_board(11, 11);
    assert_eq!(evaluate_center_control(&at(0, 0), &b), 9_444);
    assert_eq!(evaluate_center_control(&at(10, 10), &b), 12_273);
}

#[test]
fn center_score_along_one_axis_is_exact() {
    let b = sized_board(10, 10);
    assert_eq!(evaluate_center_control(&at(2, 5), &b), 19_000);
    assert_eq!(evaluate_center_control(&at(5, 9), &b), 17_000);
}

#[test]
fn center_score_far_off_the_board() {
    let b = sized_board(10, 10);
    assert_eq!(evaluate_center_control(&at(1005, 5), &b), -1_975_000);
}
