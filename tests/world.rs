use snake_game::{Direction, GameState, Snake, SnakeCell, World};

fn cells(w: &World) -> Vec<usize> {
    w.snake_cells().iter().map(|c| c.0).collect()
}

/// A started 8 by 8 world whose head was moved from spawn index 8 to index 0 by one
/// staged move up.
fn world_with_head_at_zero() -> World {
    let mut w = World::new(8, 8);
    assert!(w.place_reward_cell(40));
    w.set_snake_direction(Direction::Up);
    w.start_game();
    w.step();
    assert_eq!(w.snake_head_idx(), 0);
    w
}

#[test]
fn snake_new_builds_backwards_from_spawn() {
    let s = Snake::new(10, 3);
    assert_eq!(s.body, vec![SnakeCell(10), SnakeCell(9), SnakeCell(8)]);
    assert_eq!(s.direction, Direction::Up);
}

#[test]
fn world_new_initial_state() {
    let w = World::new(8, 10);
    assert_eq!(w.width(), 8);
    assert_eq!(w.size(), 64);
    assert_eq!(cells(&w), vec![10, 9, 8]);
    assert_eq!(w.snake_len(), 3);
    assert_eq!(w.snake_head_idx(), 10);
    assert_eq!(w.points(), 0);
    assert_eq!(w.game_state(), None);
    assert_eq!(w.game_state_text(), "No State");
    assert_eq!(w.reward_cell(), None);
    assert!(w.needs_reward_cell());
}

#[test]
fn wrap_right_from_last_column() {
    let w = World::new(8, 7);
    assert_eq!(w.generate_next_cell(&Direction::Right), SnakeCell(0));
    let w = World::new(8, 63);
    assert_eq!(w.generate_next_cell(&Direction::Right), SnakeCell(56));
}

#[test]
fn wrap_left_and_up_from_origin() {
    let w = world_with_head_at_zero();
    assert_eq!(w.generate_next_cell(&Direction::Left), SnakeCell(7));
    assert_eq!(w.generate_next_cell(&Direction::Up), SnakeCell(56));
    assert_eq!(w.generate_next_cell(&Direction::Right), SnakeCell(1));
    assert_eq!(w.generate_next_cell(&Direction::Down), SnakeCell(8));
}

#[test]
fn wrap_down_from_bottom_row() {
    let w = World::new(8, 56);
    assert_eq!(w.generate_next_cell(&Direction::Down), SnakeCell(0));
    assert_eq!(w.generate_next_cell(&Direction::Left), SnakeCell(63));
    let w = World::new(8, 63);
    assert_eq!(w.generate_next_cell(&Direction::Down), SnakeCell(7));
    assert_eq!(w.generate_next_cell(&Direction::Up), SnakeCell(55));
}

#[test]
fn interior_moves_go_to_neighbours() {
    let w = World::new(8, 10);
    assert_eq!(w.generate_next_cell(&Direction::Right), SnakeCell(11));
    assert_eq!(w.generate_next_cell(&Direction::Left), SnakeCell(9));
    assert_eq!(w.generate_next_cell(&Direction::Up), SnakeCell(2));
    assert_eq!(w.generate_next_cell(&Direction::Down), SnakeCell(18));
}

#[test]
fn wrap_on_smallest_grid() {
    let w = World::new(2, 3);
    assert_eq!(w.generate_next_cell(&Direction::Right), SnakeCell(2));
    assert_eq!(w.generate_next_cell(&Direction::Left), SnakeCell(2));
    assert_eq!(w.generate_next_cell(&Direction::Up), SnakeCell(1));
    assert_eq!(w.generate_next_cell(&Direction::Down), SnakeCell(1));
}

#[test]
fn reversal_is_ignored() {
    let mut w = World::new(8, 10);
    w.set_snake_direction(Direction::Right);
    w.set_snake_direction(Direction::Left);
    assert!(w.place_reward_cell(40));
    w.start_game();
    w.step();
    assert_eq!(cells(&w), vec![11, 10, 9]);
    w.step();
    assert_eq!(cells(&w), vec![12, 11, 10]);
}

#[test]
fn end_to_end_first_step_moves_up() {
    let mut w = World::new(8, 10);
    assert_eq!(cells(&w), vec![10, 9, 8]);
    assert!(w.place_reward_cell(40));
    w.start_game();
    w.step();
    assert_eq!(w.snake_head_idx(), 2);
    assert_eq!(cells(&w), vec![2, 10, 9]);
    assert_eq!(w.game_state(), Some(GameState::Playing));
    assert_eq!(w.game_state_text(), "You are Playing");
    assert_eq!(w.reward_cell(), Some(40));
}

#[test]
fn step_before_start_does_nothing() {
    let mut w = World::new(8, 10);
    assert!(w.place_reward_cell(40));
    w.step();
    assert_eq!(cells(&w), vec![10, 9, 8]);
    assert_eq!(w.game_state(), None);
}

#[test]
fn growth_on_reward() {
    let mut w = World::new(8, 10);
    assert!(w.place_reward_cell(2));
    w.start_game();
    w.step();
    assert_eq!(w.snake_len(), 4);
    assert_eq!(w.points(), 1);
    assert_eq!(cells(&w), vec![2, 10, 9, 9]);
    assert_eq!(w.reward_cell(), None);
    assert!(w.needs_reward_cell());
    assert!(!w.place_reward_cell(10));
    assert!(!w.place_reward_cell(2));
    assert!(!w.place_reward_cell(64));
    assert_eq!(w.reward_cell(), None);
    assert!(w.place_reward_cell(30));
    assert_eq!(w.reward_cell(), Some(30));
    assert!(!w.needs_reward_cell());
    assert!(!w.place_reward_cell(31));
    assert_eq!(w.reward_cell(), Some(30));
    w.step();
    assert_eq!(cells(&w), vec![58, 2, 10, 9]);
    assert_eq!(w.snake_len(), 4);
}

#[test]
fn loss_on_self_collision_is_final() {
    let mut w = World::new(2, 3);
    assert!(w.place_reward_cell(0));
    w.start_game();
    w.step();
    assert_eq!(cells(&w), vec![1, 3, 2]);
    assert_eq!(w.game_state(), Some(GameState::Playing));
    w.step();
    assert_eq!(cells(&w), vec![3, 1, 3]);
    assert_eq!(w.game_state(), Some(GameState::Lost));
    assert_eq!(w.game_state_text(), "You have Lost");
    w.step();
    assert_eq!(cells(&w), vec![3, 1, 3]);
    assert_eq!(w.game_state(), Some(GameState::Lost));
    assert_eq!(w.reward_cell(), Some(0));
}

#[test]
fn win_when_grid_is_filled() {
    let mut w = World::new(2, 3);
    assert!(w.place_reward_cell(0));
    w.start_game();
    w.set_snake_direction(Direction::Left);
    w.step();
    assert_eq!(cells(&w), vec![1, 3, 2]);
    w.set_snake_direction(Direction::Left);
    w.step();
    assert_eq!(cells(&w), vec![0, 1, 3, 3]);
    assert_eq!(w.points(), 1);
    assert!(!w.place_reward_cell(3));
    assert!(w.place_reward_cell(2));
    w.set_snake_direction(Direction::Down);
    w.step();
    assert_eq!(cells(&w), vec![2, 0, 1, 3]);
    assert_eq!(w.game_state(), Some(GameState::Won));
    assert_eq!(w.game_state_text(), "You have Won");
    assert_eq!(w.reward_cell(), None);
    assert_eq!(w.points(), 1);
    assert!(!w.needs_reward_cell());
    assert!(!w.place_reward_cell(2));
    w.step();
    assert_eq!(cells(&w), vec![2, 0, 1, 3]);
    assert_eq!(w.game_state(), Some(GameState::Won));
}

#[test]
fn start_game_twice_is_once() {
    let mut w = World::new(8, 10);
    w.start_game();
    assert_eq!(w.game_state(), Some(GameState::Playing));
    w.start_game();
    assert_eq!(w.game_state(), Some(GameState::Playing));
    assert_eq!(cells(&w), vec![10, 9, 8]);
    assert_eq!(w.points(), 0);
}

#[test]
fn staged_move_is_used_once() {
    let mut w = World::new(8, 10);
    assert!(w.place_reward_cell(40));
    w.start_game();
    w.set_snake_direction(Direction::Down);
    assert_eq!(w.snake_head_idx(), 10);
    w.step();
    assert_eq!(cells(&w), vec![18, 10, 9]);
    w.step();
    assert_eq!(cells(&w), vec![26, 18, 10]);
}

#[test]
fn reward_candidate_rules() {
    let body = vec![SnakeCell(10), SnakeCell(9), SnakeCell(8)];
    assert_eq!(World::generate_reward_cell(64, &body, 9), None);
    assert_eq!(World::generate_reward_cell(64, &body, 64), None);
    assert_eq!(World::generate_reward_cell(64, &body, 63), Some(63));
    assert_eq!(World::generate_reward_cell(64, &body, 5), Some(5));
}

#[test]
fn start_game_after_loss_changes_nothing() {
    let mut w = World::new(2, 3);
    assert!(w.place_reward_cell(0));
    w.start_game();
    w.step();
    w.step();
    assert_eq!(w.game_state(), Some(GameState::Lost));
    w.start_game();
    assert_eq!(w.game_state(), Some(GameState::Lost));
    assert_eq!(w.game_state_text(), "You have Lost");
    w.step();
    assert_eq!(cells(&w), vec![3, 1, 3]);
    assert_eq!(w.game_state(), Some(GameState::Lost));
}

#[test]
fn start_game_after_win_changes_nothing() {
    let mut w = World::new(2, 3);
    assert!(w.place_reward_cell(0));
    w.start_game();
    w.step();
    w.set_snake_direction(Direction::Left);
    w.step();
    assert!(w.place_reward_cell(2));
    w.set_snake_direction(Direction::Down);
    w.step();
    assert_eq!(w.game_state(), Some(GameState::Won));
    w.start_game();
    assert_eq!(w.game_state(), Some(GameState::Won));
    assert_eq!(w.reward_cell(), None);
    assert!(!w.needs_reward_cell());
    w.set_snake_direction(Direction::Right);
    w.step();
    assert_eq!(cells(&w), vec![2, 0, 1, 3]);
    assert_eq!(w.game_state(), Some(GameState::Won));
}
