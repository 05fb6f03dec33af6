use snake_engine::board::{is_safe_move, Board, GameState, Snake};
use snake_engine::geometry::Coord;

fn at(x: i32, y: i32) -> Coord {
    Coord { x, y }
}

fn snake(id: &str, body: Vec<Coord>) -> Snake {
    let length = body.len();
    Snake { id: id.to_string(), body, health: 100, length }
}

fn board(width: i32, height: i32, snakes: Vec<Snake>) -> Board {
    Board { height, width, food: Vec::new(), hazards: Vec::new(), snakes }
}

fn valid_state() -> GameState {
    let me = snake("me", vec![at(5, 5), at(4, 5), at(3, 5)]);
    let other = snake("other", vec![at(8, 8), at(8, 9)]);
    let mut b = board(11, 11, vec![snake("me", vec![at(5, 5), at(4, 5), at(3, 5)]), other]);
    b.food = vec![at(0, 0), at(10, 10)];
    b.hazards = vec![at(0, 10)];
    GameState { board: b, you: me }
}

#[test]
fn safe_move_on_a_free_cell() {
    let b = board(11, 11, vec![snake("me", vec![at(5, 5), at(4, 5), at(3, 5)])]);
    assert!(is_safe_move(&at(5, 6), &b));
    assert!(is_safe_move(&at(0, 0), &b));
    assert!(is_safe_move(&at(10, 10), &b));
}

#[test]
fn unsafe_move_off_the_board() {
    let b = board(11, 7, Vec::new());
    assert!(!is_safe_move(&at(-1, 0), &b));
    assert!(!is_safe_move(&at(0, -1), &b));
    assert!(!is_safe_move(&at(11, 0), &b));
    assert!(!is_safe_move(&at(0, 7), &b));
    assert!(is_safe_move(&at(10, 6), &b));
}

#[test]
fn unsafe_move_onto_a_body_segment() {
    let b = board(
        11,
        11,
        vec![
            snake("me", vec![at(5, 5), at(4, 5), at(3, 5)]),
            snake("other", vec![at(7, 7), at(7, 8), at(7, 9)]),
        ],
    );
    assert!(!is_safe_move(&at(5, 5), &b));
    assert!(!is_safe_move(&at(4, 5), &b));
    assert!(!is_safe_move(&at(7, 7), &b));
    assert!(!is_safe_move(&at(7, 8), &b));
}

#[test]
fn safe_move_onto_a_vacating_tail() {
    let b = board(
        11,
        11,
        vec![
            snake("me", vec![at(5, 5), at(4, 5), at(3, 5)]),
            snake("other", vec![at(7, 7), at(7, 8), at(7, 9)]),
        ],
    );
    assert!(is_safe_move(&at(3, 5), &b));
    assert!(is_safe_move(&at(7, 9), &b));
}

#[test]
fn tail_stacked_on_another_segment_still_blocks() {
    let b = board(11, 11, vec![snake("me", vec![at(5, 5), at(4, 5), at(4, 5)])]);
    assert!(!is_safe_move(&at(4, 5), &b));
}

#[test]
fn safe_move_ignores_hazards() {
    let mut b = board(11, 11, Vec::new());
    b.hazards = vec![at(2, 2)];
    assert!(is_safe_move(&at(2, 2), &b));
}

#[test]
fn snake_of_one_segment_covers_nothing() {
    let s = snake("me", vec![at(5, 5)]);
    assert!(!s.occupies(&at(5, 5)));
    let b = board(11, 11, vec![s]);
    assert!(is_safe_move(&at(5, 5), &b));
}

#[test]
fn occupies_every_segment_but_the_last() {
    let s = snake("me", vec![at(5, 5), at(4, 5), at(3, 5)]);
    assert!(s.occupies(&at(5, 5)));
    assert!(s.occupies(&at(4, 5)));
    assert!(!s.occupies(&at(3, 5)));
    assert!(!s.occupies(&at(2, 5)));
}

#[test]
fn snake_without_body_occupies_nothing() {
    let s = snake("me", Vec::new());
    assert!(!s.occupies(&at(0, 0)));
}

#[test]
fn board_contains_its_corners_only_inside() {
    let b = board(3, 2, Vec::new());
    assert!(b.contains(&at(0, 0)));
    assert!(b.contains(&at(2, 1)));
    assert!(!b.contains(&at(3, 1)));
    assert!(!b.contains(&at(2, 2)));
    assert!(!b.contains(&at(-1, 0)));
}

#[test]
fn valid_snapshot_is_accepted() {
    assert!(valid_state().is_valid());
}

#[test]
fn snapshot_without_width_is_rejected() {
    let mut s = valid_state();
    s.board.width = 0;
    s.board.food = Vec::new();
    s.board.hazards = Vec::new();
    assert!(!s.is_valid());
}

#[test]
fn snapshot_with_negative_height_is_rejected() {
    let mut s = valid_state();
    s.board.height = -3;
    s.board.food = Vec::new();
    s.board.hazards = Vec::new();
    assert!(!s.is_valid());
}

#[test]
fn snapshot_with_food_off_the_board_is_rejected() {
    let mut s = valid_state();
    s.board.food.push(at(11, 0));
    assert!(!s.is_valid());
}

#[test]
fn snapshot_with_hazard_off_the_board_is_rejected() {
    let mut s = valid_state();
    s.board.hazards.push(at(0, -1));
    assert!(!s.is_valid());
}

#[test]
fn snapshot_with_empty_own_body_is_rejected() {
    let mut s = valid_state();
    s.you.body = Vec::new();
    assert!(!s.is_valid());
}

#[test]
fn snapshot_with_empty_listed_body_is_rejected() {
    let mut s = valid_state();
    s.board.snakes[1].body = Vec::new();
    assert!(!s.is_valid());
}

#[test]
fn snapshot_without_the_own_agent_is_rejected() {
    let mut s = valid_state();
    s.you.id = "stranger".to_string();
    assert!(!s.is_valid());
}

#[test]
fn snapshot_with_repeated_identifier_is_rejected() {
    let mut s = valid_state();
    s.board.snakes[1].id = "me".to_string();
    assert!(!s.is_valid());
}

#[test]
fn snapshot_with_health_out_of_range_is_rejected() {
    let mut s = valid_state();
    s.you.health = 101;
    assert!(!s.is_valid());
    let mut t = valid_state();
    t.board.snakes[1].health = -1;
    assert!(!t.is_valid());
}

#[test]
fn snapshot_with_length_below_body_is_rejected() {
    let mut s = valid_state();
    s.you.length = 2;
    assert!(!s.is_valid());
}

#[test]
fn snapshot_with_head_at_integer_limit_is_rejected() {
    let mut s = valid_state();
    s.you.body[0] = at(i32::MAX, 5);
    assert!(!s.is_valid());
    let mut t = valid_state();
    t.board.snakes[1].body[0] = at(3, i32::MIN);
    assert!(!t.is_valid());
}

#[test]
fn board_and_snake_validity_on_their_own() {
    let s = valid_state();
    assert!(s.board.is_valid());
    assert!(s.you.is_valid());
    let mut b = board(4, 4, Vec::new());
    assert!(b.is_valid());
    b.width = -1;
    assert!(!b.is_valid());
}
