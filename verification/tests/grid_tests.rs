use snake_engine::board::{Board, Snake};
use snake_engine::geometry::Coord;
use snake_engine::grid::{flood_fill, is_move_safe, OccupancyGrid};

fn at(x: i32, y: i32) -> Coord {
    Coord { x, y }
}

fn snake(id: &str, body: Vec<Coord>) -> Snake {
    let length = body.len();
    Snake { id: id.to_string(), body, health: 100, length }
}

fn board(width: i32, height: i32, snakes: Vec<Snake>, hazards: Vec<Coord>) -> Board {
    Board { height, width, food: Vec::new(), hazards, snakes }
}

#[test]
fn flood_fill_on_an_open_board_counts_every_cell_from_every_start() {
    let b = board(5, 4, Vec::new(), Vec::new());
    let grid = OccupancyGrid::build(&b);
    for x in 0..5 {
        for y in 0..4 {
            assert_eq!(flood_fill(&grid, &at(x, y)), 20);
        }
    }
}

#[test]
fn flood_fill_on_an_open_eleven_by_eleven_board() {
    let b = board(11, 11, Vec::new(), Vec::new());
    let grid = OccupancyGrid::build(&b);
    assert_eq!(flood_fill(&grid, &at(0, 0)), 121);
    assert_eq!(flood_fill(&grid, &at(10, 10)), 121);
    assert_eq!(flood_fill(&grid, &at(5, 5)), 121);
}

#[test]
fn flood_fill_on_a_single_cell_board() {
    let b = board(1, 1, Vec::new(), Vec::new());
    let grid = OccupancyGrid::build(&b);
    assert_eq!(flood_fill(&grid, &at(0, 0)), 1);
}

#[test]
fn flood_fill_from_outside_the_board_is_zero() {
    let b = board(5, 4, Vec::new(), Vec::new());
    let grid = OccupancyGrid::build(&b);
    assert_eq!(flood_fill(&grid, &at(-1, 0)), 0);
    assert_eq!(flood_fill(&grid, &at(0, -1)), 0);
    assert_eq!(flood_fill(&grid, &at(5, 0)), 0);
    assert_eq!(flood_fill(&grid, &at(0, 4)), 0);
    assert_eq!(flood_fill(&grid, &at(i32::MAX, i32::MIN)), 0);
}

#[test]
fn flood_fill_from_a_blocked_cell_is_zero() {
    let b = board(
        5,
        5,
        vec![snake("me", vec![at(2, 2), at(2, 1), at(2, 0)])],
        vec![at(4, 4)],
    );
    let grid = OccupancyGrid::build(&b);
    assert_eq!(flood_fill(&grid, &at(2, 2)), 0);
    assert_eq!(flood_fill(&grid, &at(2, 1)), 0);
    assert_eq!(flood_fill(&grid, &at(4, 4)), 0);
}

#[test]
fn flood_fill_leaves_out_blocked_cells() {
    let b = board(
        5,
        5,
        vec![snake("me", vec![at(2, 2), at(2, 1), at(2, 0)])],
        vec![at(4, 4)],
    );
    let grid = OccupancyGrid::build(&b);
    assert_eq!(flood_fill(&grid, &at(0, 0)), 22);
    assert_eq!(flood_fill(&grid, &at(2, 0)), 22);
}

#[test]
fn flood_fill_stops_at_a_wall_of_hazards() {
    let wall = vec![at(2, 0), at(2, 1), at(2, 2), at(2, 3)];
    let b = board(5, 4, Vec::new(), wall);
    let grid = OccupancyGrid::build(&b);
    assert_eq!(flood_fill(&grid, &at(0, 0)), 8);
    assert_eq!(flood_fill(&grid, &at(1, 3)), 8);
    assert_eq!(flood_fill(&grid, &at(3, 0)), 8);
    assert_eq!(flood_fill(&grid, &at(4, 3)), 8);
}

#[test]
fn flood_fill_passes_through_a_gap_in_the_wall() {
    let wall = vec![at(2, 0), at(2, 1), at(2, 3)];
    let b = board(5, 4, Vec::new(), wall);
    let grid = OccupancyGrid::build(&b);
    assert_eq!(flood_fill(&grid, &at(0, 0)), 17);
}

#[test]
fn flood_fill_inside_a_pocket_closed_by_a_body() {
    let body = vec![at(0, 1), at(1, 1), at(1, 0), at(4, 4)];
    let b = board(5, 5, vec![snake("other", body)], Vec::new());
    let grid = OccupancyGrid::build(&b);
    assert_eq!(flood_fill(&grid, &at(0, 0)), 1);
    assert_eq!(flood_fill(&grid, &at(4, 4)), 21);
}

#[test]
fn flood_fill_counts_a_vacating_tail_as_free() {
    let b = board(3, 1, vec![snake("me", vec![at(0, 0), at(1, 0), at(2, 0)])], Vec::new());
    let grid = OccupancyGrid::build(&b);
    assert_eq!(flood_fill(&grid, &at(2, 0)), 1);
    assert_eq!(flood_fill(&grid, &at(1, 0)), 0);
}

#[test]
fn flood_fill_on_a_board_without_cells_is_zero() {
    let b = board(0, 0, Vec::new(), Vec::new());
    let grid = OccupancyGrid::build(&b);
    assert_eq!(flood_fill(&grid, &at(0, 0)), 0);
    let c = board(-4, 3, Vec::new(), Vec::new());
    let grid = OccupancyGrid::build(&c);
    assert_eq!(flood_fill(&grid, &at(0, 0)), 0);
}

#[test]
fn grid_marks_bodies_and_hazards_only() {
    let b = board(
        4,
        4,
        vec![
            snake("me", vec![at(0, 0), at(1, 0), at(2, 0)]),
            snake("other", vec![at(3, 3)]),
        ],
        vec![at(1, 2)],
    );
    let grid = OccupancyGrid::build(&b);
    assert!(!is_move_safe(&at(0, 0), &grid));
    assert!(!is_move_safe(&at(1, 0), &grid));
    assert!(is_move_safe(&at(2, 0), &grid));
    assert!(is_move_safe(&at(3, 3), &grid));
    assert!(!is_move_safe(&at(1, 2), &grid));
    assert!(is_move_safe(&at(2, 2), &grid));
}

#[test]
fn grid_reads_cells_off_the_board_as_blocked() {
    let b = board(4, 3, Vec::new(), Vec::new());
    let grid = OccupancyGrid::build(&b);
    assert!(is_move_safe(&at(3, 2), &grid));
    assert!(!is_move_safe(&at(4, 2), &grid));
    assert!(!is_move_safe(&at(3, 3), &grid));
    assert!(!is_move_safe(&at(-1, 0), &grid));
    assert!(!is_move_safe(&at(0, -1), &grid));
}

#[test]
fn grid_ignores_segments_and_hazards_off_the_board() {
    let b = board(
        3,
        3,
        vec![snake("other", vec![at(-1, 0), at(3, 1), at(1, 7), at(0, 0)])],
        vec![at(5, 5), at(-2, -2)],
    );
    let grid = OccupancyGrid::build(&b);
    assert_eq!(flood_fill(&grid, &at(1, 1)), 9);
}
