use maze_engine::board::Board;
use maze_engine::collision::player_collision_detection;
use maze_engine::collision::Collider;
use maze_engine::enemies::enemy_candidates_exec;
use maze_engine::enemies::move_enemy;
use maze_engine::enemies::Enemy;
use maze_engine::enemies::EnemyAgent;
use maze_engine::enemies::EnemyAI;
use maze_engine::enemies::EnemyEntity;
use maze_engine::enemies::EnemyRng;
use maze_engine::game::Game;
use maze_engine::input::InputDirectionEvent;
use maze_engine::movement::update_position;
use maze_engine::movement::wrap_around;
use maze_engine::movement::Direction;
use maze_engine::movement::Directions;
use maze_engine::movement::MovableObject;
use maze_engine::movement::Position;
use maze_engine::movement::Velocity;
use maze_engine::pickup::Pickup;
use maze_engine::pickup::PickupItem;
use maze_engine::pickup::PickupKind;
use maze_engine::player::move_player;
use maze_engine::player::player_movement_control;
use maze_engine::player::Player;
use maze_engine::player::PlayerState;
use maze_engine::state::process_game_events;
use maze_engine::state::GameEvent;
use maze_engine::state::GameGlobals;
use maze_engine::state::GameState;
use maze_engine::CELL;
use maze_engine::DOT_SCORE;
use maze_engine::ENEMY_RANGE;
use maze_engine::INITIAL_LIVES;
use maze_engine::PICKUP_RANGE;

const BOX_MAZE: &str = "+-+\n|.|\n+-+";
const CORRIDOR_MAZE: &str = "+---+\n|...|\n+---+";
const WRAP_MAZE: &str = "---\n. .\n---";

fn tall_wrap_maze() -> String {
    // Seven rows; row five is an open wrap path.
    let mut s = String::new();
    for _ in 0..5 {
        s.push_str("---\n");
    }
    s.push_str(". .\n");
    s.push_str("---");
    s
}

#[test]
fn directions_scan_order_and_opposites() {
    let ds = Directions::iterator();
    assert_eq!(
        ds,
        [Directions::Up, Directions::Right, Directions::Down, Directions::Left]
    );
    assert!(Direction::new(Directions::Up, Directions::Up).is_opposite(Directions::Down));
    assert!(Direction::new(Directions::Left, Directions::Up).is_opposite(Directions::Right));
    assert!(!Direction::new(Directions::Left, Directions::Up).is_opposite(Directions::Left));
    assert!(!Direction::new(Directions::Up, Directions::Up).is_opposite(Directions::Left));
}

#[test]
fn grid_alignment_and_distance() {
    assert!(Position::new(CELL, 2 * CELL).is_grid_aligned());
    assert!(Position::new(0, 0).is_grid_aligned());
    assert!(!Position::new(CELL + 500, CELL).is_grid_aligned());
    assert!(Position::new(-CELL, 0).is_grid_aligned());
    let a = Position::new(100, 200);
    let b = Position::new(-50, 400);
    assert_eq!(a.get_distance(&b), 150 + 200);
    assert_eq!(Position::new(-300, 700).get_cell_coords(), Position::new(300, 700));
}

#[test]
fn target_cell_is_one_cell_away_on_one_axis() {
    let p = Position::new(CELL, CELL);
    assert_eq!(p.get_target_cell(Directions::Up), Position::new(CELL, 0));
    assert_eq!(p.get_target_cell(Directions::Down), Position::new(CELL, 2 * CELL));
    assert_eq!(p.get_target_cell(Directions::Left), Position::new(0, CELL));
    assert_eq!(p.get_target_cell(Directions::Right), Position::new(2 * CELL, CELL));
}

#[test]
fn target_cell_snaps_toward_next_boundary_mid_cell() {
    let p = Position::new(CELL + 500, CELL);
    assert_eq!(p.get_target_cell(Directions::Right), Position::new(2 * CELL, CELL));
    assert_eq!(p.get_target_cell(Directions::Left), Position::new(CELL, CELL));
    let q = Position::new(CELL, CELL + 400);
    assert_eq!(q.get_target_cell(Directions::Up), Position::new(CELL, CELL));
    assert_eq!(q.get_target_cell(Directions::Down), Position::new(CELL, 2 * CELL));
}

#[test]
fn update_position_snaps_or_spends_whole_budget() {
    let dest = Position::new(2 * CELL, CELL);
    let mut p = Position::new(CELL, CELL);
    let rem = update_position(&mut p, &dest, 1500);
    assert_eq!(p, dest);
    assert_eq!(rem, 500);
    let mut q = Position::new(CELL, CELL);
    let rem = update_position(&mut q, &dest, 300);
    assert_eq!(q, Position::new(CELL + 300, CELL));
    assert_eq!(rem, 0);
}

#[test]
fn wrap_around_teleports_across_the_margin() {
    let board = Board::from_layout(WRAP_MAZE).unwrap();
    let mut p = Position::new(3 * CELL, CELL);
    wrap_around(&mut p, &board);
    assert_eq!(p, Position::new(-CELL, CELL));
    let mut q = Position::new(-CELL, CELL);
    wrap_around(&mut q, &board);
    assert_eq!(q, Position::new(3 * CELL, CELL));
    let mut r = Position::new(CELL, CELL);
    wrap_around(&mut r, &board);
    assert_eq!(r, Position::new(CELL, CELL));
}

#[test]
fn buffered_input_waits_but_reversal_is_instant() {
    let mut dir = Direction::new(Directions::Right, Directions::Right);
    player_movement_control(&mut dir, InputDirectionEvent::Up);
    assert_eq!(dir.current, Directions::Right);
    assert_eq!(dir.next, Directions::Up);
    let mut rev = Direction::new(Directions::Right, Directions::Right);
    player_movement_control(&mut rev, InputDirectionEvent::Left);
    assert_eq!(rev.current, Directions::Left);
    assert_eq!(rev.next, Directions::Left);
}

#[test]
fn player_blocked_by_wall_does_not_advance() {
    let board = Board::from_layout(BOX_MAZE).unwrap();
    let mut player = Player;
    let mut dir = Direction::new(Directions::Left, Directions::Left);
    let mut pos = Position::new(CELL, CELL);
    move_player(&mut player, &mut dir, &mut pos, &board, 5 * CELL);
    assert_eq!(pos, Position::new(CELL, CELL));
}

#[test]
fn player_walks_corridor_and_stops_at_wall() {
    let board = Board::from_layout(CORRIDOR_MAZE).unwrap();
    let mut player = Player;
    let mut dir = Direction::new(Directions::Right, Directions::Right);
    let mut pos = Position::new(CELL, CELL);
    move_player(&mut player, &mut dir, &mut pos, &board, 2 * CELL + 500);
    // Two full cells, then the remaining half cell is blocked by the wall
    // at column four and discarded.
    assert_eq!(pos, Position::new(3 * CELL, CELL));
    let mut far = Position::new(CELL, CELL);
    move_player(&mut player, &mut dir, &mut far, &board, 10 * CELL);
    assert_eq!(far, Position::new(3 * CELL, CELL));
}

#[test]
fn player_wraps_left_to_right_edge() {
    let board = Board::from_layout(WRAP_MAZE).unwrap();
    let mut player = Player;
    let mut dir = Direction::new(Directions::Left, Directions::Left);
    let mut pos = Position::new(0, CELL);
    move_player(&mut player, &mut dir, &mut pos, &board, 2 * CELL);
    assert_eq!(pos, Position::new(2 * CELL, CELL));
    assert_eq!(dir.current, Directions::Left);
}

#[test]
fn player_wraps_right_to_left_edge() {
    let board = Board::from_layout(WRAP_MAZE).unwrap();
    let mut player = Player;
    let mut dir = Direction::new(Directions::Right, Directions::Right);
    let mut pos = Position::new(2 * CELL, CELL);
    move_player(&mut player, &mut dir, &mut pos, &board, 2 * CELL);
    assert_eq!(pos, Position::new(0, CELL));
}

#[test]
fn enemy_candidates_exclude_walls_and_reverse() {
    let board = Board::from_layout(CORRIDOR_MAZE).unwrap();
    // Mid-corridor heading right: left neighbor is open but is the
    // reverse, so the only candidate is onward.
    let cands = enemy_candidates_exec(
        &Position::new(2 * CELL, CELL),
        &Direction::new(Directions::Right, Directions::Right),
        &board,
    );
    assert_eq!(cands, vec![Directions::Right]);
}

#[test]
fn enemy_reverses_only_in_dead_end() {
    let board = Board::from_layout(CORRIDOR_MAZE).unwrap();
    // Leftmost corridor cell heading left: every neighbor but the reverse
    // is a wall, so reversal is the only option.
    let cands = enemy_candidates_exec(
        &Position::new(CELL, CELL),
        &Direction::new(Directions::Left, Directions::Left),
        &board,
    );
    assert_eq!(cands, vec![Directions::Right]);
}

#[test]
fn enemy_steering_never_picks_reverse_when_open_exists() {
    let board = Board::from_layout(CORRIDOR_MAZE).unwrap();
    for seed in 0..20u64 {
        let mut agent = EnemyAgent::new(EnemyAI::Random, seed);
        let mut dir = Direction::new(Directions::Right, Directions::Right);
        agent.update_direction(&Position::new(2 * CELL, CELL), &mut dir, &board);
        assert_ne!(dir.current, Directions::Left);
    }
}

#[test]
fn enemy_single_candidate_is_deterministic() {
    let board = Board::from_layout(CORRIDOR_MAZE).unwrap();
    for seed in 0..20u64 {
        let mut agent = EnemyAgent::new(EnemyAI::Random, seed);
        let mut dir = Direction::new(Directions::Right, Directions::Right);
        agent.update_direction(&Position::new(CELL, CELL), &mut dir, &board);
        assert_eq!(dir.current, Directions::Right);
    }
}

#[test]
fn enemy_moves_down_open_corridor() {
    let board = Board::from_layout(CORRIDOR_MAZE).unwrap();
    let mut agent = EnemyAgent::new(EnemyAI::Random, 7);
    let mut dir = Direction::new(Directions::Right, Directions::Right);
    let mut pos = Position::new(CELL, CELL);
    move_enemy(&mut agent, &mut dir, &mut pos, &board, CELL);
    assert_eq!(pos, Position::new(2 * CELL, CELL));
}

#[test]
fn rng_indices_stay_in_range() {
    let mut rng = EnemyRng::from_seed(42);
    let mut seen = [false; 4];
    for _ in 0..100 {
        let i = rng.next_index(4);
        assert!(i < 4);
        seen[i] = true;
    }
    assert!(seen.iter().filter(|s| **s).count() > 1);
}

#[test]
fn same_seed_reproduces_the_same_draws() {
    let mut a = EnemyRng::from_seed(5);
    let mut b = EnemyRng::from_seed(5);
    for _ in 0..50 {
        assert_eq!(a.next_index(7), b.next_index(7));
    }
}

#[test]
fn collision_resolves_each_pickup_and_enemy_independently() {
    let player = Position::new(CELL, CELL);
    let near = PickupItem {
        pickup: Pickup::new(DOT_SCORE),
        kind: PickupKind::Dot,
        position: Position::new(CELL + 100, CELL),
        collider: Collider::new(PICKUP_RANGE),
        alive: true,
    };
    let near2 = PickupItem {
        pickup: Pickup::new(30),
        kind: PickupKind::PowerPill,
        position: Position::new(CELL, CELL + 200),
        collider: Collider::new(PICKUP_RANGE),
        alive: true,
    };
    let far = PickupItem {
        pickup: Pickup::new(DOT_SCORE),
        kind: PickupKind::Dot,
        position: Position::new(3 * CELL, CELL),
        collider: Collider::new(PICKUP_RANGE),
        alive: true,
    };
    let mut pickups = vec![near, near2, far];
    let enemy_at = |p: Position, seed: u64| EnemyEntity {
        enemy: Enemy::new(p, EnemyAI::Random),
        agent: EnemyAgent::new(EnemyAI::Random, seed),
        position: p,
        velocity: Velocity::new(1000),
        dir: Direction::new(Directions::Left, Directions::Left),
        collider: Collider::new(ENEMY_RANGE),
    };
    let enemies = vec![
        enemy_at(Position::new(CELL + 500, CELL), 1),
        enemy_at(Position::new(CELL, CELL + 900), 2),
        enemy_at(Position::new(5 * CELL, CELL), 3),
    ];
    let mut globals = GameGlobals { score: 5, show_grid: false, is_debug: false, lives: 2 };
    let events = player_collision_detection(&player, &mut pickups, &enemies, &mut globals);
    assert_eq!(globals.score, 5 + DOT_SCORE + 30);
    assert!(!pickups[0].alive);
    assert!(!pickups[1].alive);
    assert!(pickups[2].alive);
    assert_eq!(events.len(), 2);
    assert!(events.iter().all(|e| *e == GameEvent::PlayerDies));
    // Colliding with an enemy does not remove it and does not touch lives
    // here; lives change only through the events.
    assert_eq!(globals.lives, 2);
}

#[test]
fn events_toggle_state_and_cost_lives() {
    let events = vec![GameEvent::TogglePause, GameEvent::PlayerDies, GameEvent::PlayerDies];
    let mut state = GameState::Running;
    let mut globals = GameGlobals { score: 0, show_grid: false, is_debug: false, lives: 3 };
    process_game_events(&events, &mut state, &mut globals);
    assert_eq!(state, GameState::Paused);
    assert_eq!(globals.lives, 1);
    let toggle_back = vec![GameEvent::TogglePause];
    process_game_events(&toggle_back, &mut state, &mut globals);
    assert_eq!(state, GameState::Running);
}

#[test]
fn pickup_value_round_trips() {
    assert_eq!(Pickup::new(DOT_SCORE).get_value(), DOT_SCORE);
    assert_eq!(Pickup::new(0).get_value(), 0);
}

#[test]
fn travel_budget_scales_with_time() {
    assert_eq!(Velocity::new(8000).travel_budget(250), 2000);
    assert_eq!(Velocity::new(8000).travel_budget(0), 0);
    assert_eq!(Velocity::new(1000).travel_budget(1500), 1500);
    assert_eq!(Velocity::new(333).travel_budget(100), 33);
}

#[test]
fn scenario_a_dot_consumed_on_first_tick() {
    let board = Board::from_layout(BOX_MAZE).unwrap();
    let mut game = Game::new(board, Position::new(CELL, CELL), 1);
    assert_eq!(game.pickups.len(), 1);
    game.tick(250);
    // Blocked by the wall on the left, the player stays on the dot and
    // consumes it.
    assert_eq!(game.player_position, Position::new(CELL, CELL));
    assert_eq!(game.player_state, PlayerState::Idle);
    assert_eq!(game.globals.score, DOT_SCORE);
    assert!(!game.pickups[0].alive);
}

#[test]
fn scenario_a_consumption_is_at_most_once() {
    let board = Board::from_layout(BOX_MAZE).unwrap();
    let mut game = Game::new(board, Position::new(CELL, CELL), 1);
    game.tick(250);
    assert_eq!(game.globals.score, DOT_SCORE);
    for _ in 0..5 {
        game.tick(250);
        assert_eq!(game.globals.score, DOT_SCORE);
        assert!(!game.pickups[0].alive);
    }
}

#[test]
fn scenario_b_wraps_to_far_column() {
    let board = Board::from_layout(&tall_wrap_maze()).unwrap();
    let mut game = Game::new(board, Position::new(0, 5 * CELL), 1);
    game.tick(250);
    assert_eq!(game.player_position, Position::new(2 * CELL, 5 * CELL));
    assert_eq!(game.player_dir.current, Directions::Left);
}

#[test]
fn scenario_c_opposite_request_applies_mid_cell() {
    let board = Board::from_layout(CORRIDOR_MAZE).unwrap();
    let mut game = Game::new(board, Position::new(CELL, CELL), 1);
    game.player_velocity = Velocity::new(1000);
    game.apply_input(InputDirectionEvent::Right);
    assert_eq!(game.player_dir.current, Directions::Right);
    game.tick(500);
    assert_eq!(game.player_position, Position::new(CELL + 500, CELL));
    assert!(!game.player_position.is_grid_aligned());
    game.apply_input(InputDirectionEvent::Left);
    // The exact reverse applies immediately, without waiting for grid
    // alignment.
    assert_eq!(game.player_dir.current, Directions::Left);
    game.tick(500);
    assert_eq!(game.player_position, Position::new(CELL, CELL));
}

#[test]
fn scenario_d_enemy_takes_the_only_open_turn() {
    // A corner: from the corridor's end cell the only open, non-reverse
    // neighbor of an enemy heading down the corridor is the bend.
    let layout = "+-+\n|.|\n|.|\n+-+";
    let board = Board::from_layout(layout).unwrap();
    for seed in 0..10u64 {
        let mut agent = EnemyAgent::new(EnemyAI::Random, seed);
        let mut dir = Direction::new(Directions::Down, Directions::Down);
        let mut pos = Position::new(CELL, 2 * CELL);
        move_enemy(&mut agent, &mut dir, &mut pos, &board, CELL);
        // Down is walled; the single candidate is Up, the reverse — a dead
        // end — so the enemy turns back deterministically.
        assert_eq!(dir.current, Directions::Up);
        assert_eq!(pos, Position::new(CELL, CELL));
    }
}

#[test]
fn paused_game_does_not_advance() {
    let board = Board::from_layout(BOX_MAZE).unwrap();
    let mut game = Game::new(board, Position::new(CELL, CELL), 1);
    game.toggle_pause();
    assert_eq!(game.state, GameState::Paused);
    game.tick(250);
    assert_eq!(game.globals.score, 0);
    assert!(game.pickups[0].alive);
    assert_eq!(game.player_position, Position::new(CELL, CELL));
    game.toggle_pause();
    assert_eq!(game.state, GameState::Running);
    game.tick(250);
    assert_eq!(game.globals.score, DOT_SCORE);
}

#[test]
fn enemy_contact_costs_a_life() {
    let board = Board::from_layout("+--+\n|.1|\n+--+").unwrap();
    let mut game = Game::new(board, Position::new(CELL, CELL), 9);
    assert_eq!(game.enemies.len(), 1);
    assert_eq!(game.globals.lives, INITIAL_LIVES);
    // One cell of travel: the enemy's only open neighbor is the player's
    // cell.
    game.tick(125);
    assert_eq!(game.enemies[0].position, Position::new(CELL, CELL));
    assert_eq!(game.globals.lives, INITIAL_LIVES - 1);
    assert_eq!(game.globals.score, DOT_SCORE);
    assert_eq!(game.state, GameState::Running);
}

#[test]
fn ticks_compose_deterministically_for_the_player() {
    let board1 = Board::from_layout(CORRIDOR_MAZE).unwrap();
    let board2 = Board::from_layout(CORRIDOR_MAZE).unwrap();
    let mut one = Game::new(board1, Position::new(CELL, CELL), 3);
    let mut two = Game::new(board2, Position::new(CELL, CELL), 3);
    one.apply_input(InputDirectionEvent::Right);
    two.apply_input(InputDirectionEvent::Right);
    one.tick(250);
    two.tick(125);
    two.tick(125);
    assert_eq!(one.player_position, two.player_position);
    assert_eq!(one.player_dir, two.player_dir);
}
