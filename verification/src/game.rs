//! The world: explicit ownership of the maze, the player, the enemies and
//! the pickups, with one simulation tick per frame.
//!
//! Data flow per tick: the movement resolver advances the player and then
//! every enemy (steering where grid-aligned), and collision resolution then
//! scans player-to-pickup and player-to-enemy proximity, bumping the score
//! and raising `PlayerDies` events. While paused, a tick changes nothing.
use vstd::arithmetic::div_mod::lemma_fundamental_div_mod;
use vstd::prelude::*;

use crate::board::Board;
use crate::board::CellType;
use crate::collision::death_events;
use crate::collision::lemma_death_events_only_deaths;
use crate::collision::pickups_after;
use crate::collision::player_collision_detection;
use crate::collision::score_after;
use crate::collision::Collider;
use crate::enemies::EnemyAgent;
use crate::enemies::EnemyEntity;
use crate::enemies::move_enemy;
use crate::input::direction_of_event;
use crate::input::InputDirectionEvent;
use crate::movement::in_range;
use crate::movement::lemma_in_range_bounded;
use crate::movement::Direction;
use crate::movement::Directions;
use crate::movement::Position;
use crate::movement::Velocity;
use crate::pickup::Pickup;
use crate::pickup::PickupItem;
use crate::pickup::PickupKind;
use crate::player::input_applied;
use crate::player::move_player;
use crate::player::player_move;
use crate::player::player_movement_control;
use crate::player::Player;
use crate::player::PlayerState;
use crate::state::lives_after;
use crate::state::process_game_events;
use crate::state::toggled;
use crate::state::GameGlobals;
use crate::state::GameState;
use crate::CELL;
use crate::DOT_SCORE;
use crate::ENEMY_RANGE;
use crate::INITIAL_LIVES;
use crate::PICKUP_RANGE;
use crate::PLAYER_VELOCITY;
use crate::POWERPILL_SCORE;

verus! {

/// The direction every entity starts out facing.
pub const STARTING_DIRECTION: Directions = Directions::Left;

/// The pickup placed for a dot cell at cell coordinates `(c, r)`.
pub open spec fn dot_item(r: int, c: int) -> PickupItem {
    PickupItem {
        pickup: Pickup::spec_new(DOT_SCORE),
        kind: PickupKind::Dot,
        position: Position { x: (c * CELL) as i64, y: (r * CELL) as i64 },
        collider: Collider { distance: PICKUP_RANGE },
        alive: true,
    }
}

/// The pickup placed for a power-pill cell at cell coordinates `(c, r)`.
pub open spec fn pill_item(r: int, c: int) -> PickupItem {
    PickupItem {
        pickup: Pickup::spec_new(POWERPILL_SCORE),
        kind: PickupKind::PowerPill,
        position: Position { x: (c * CELL) as i64, y: (r * CELL) as i64 },
        collider: Collider { distance: PICKUP_RANGE },
        alive: true,
    }
}

/// The pickups of row `r` at or after column `c`, left to right.
pub open spec fn row_pickups(board: Board, r: int, c: int) -> Seq<PickupItem>
    decreases board.spec_columns() - c,
{
    if c < 0 || c >= board.spec_columns() {
        seq![]
    } else {
        let rest = row_pickups(board, r, c + 1);
        if board.cell_at(c, r) is Dot {
            seq![dot_item(r, c)] + rest
        } else if board.cell_at(c, r) is PowerPill {
            seq![pill_item(r, c)] + rest
        } else {
            rest
        }
    }
}

/// The pickups of the maze at or after row `r`, in row-major order.
pub open spec fn board_pickups(board: Board, r: int) -> Seq<PickupItem>
    decreases board.spec_rows() - r,
{
    if r < 0 || r >= board.spec_rows() {
        seq![]
    } else {
        row_pickups(board, r, 0) + board_pickups(board, r + 1)
    }
}

/// The whole game world, owned explicitly and updated by `tick`.
pub struct Game {
    pub board: Board,
    pub player: Player,
    pub player_position: Position,
    pub player_dir: Direction,
    pub player_velocity: Velocity,
    pub player_state: PlayerState,
    pub pickups: Vec<PickupItem>,
    pub enemies: Vec<EnemyEntity>,
    pub globals: GameGlobals,
    pub state: GameState,
}

impl Game {
    /// The world invariant: a well-formed maze, every entity within the
    /// maze's coordinate range.
    pub open spec fn wf(self) -> bool {
        &&& self.board.wf()
        &&& in_range(self.player_position, self.board)
        &&& forall|k: int|
            0 <= k < self.pickups@.len() ==> (#[trigger] self.pickups@[k]).position.bounded()
        &&& forall|k: int|
            0 <= k < self.enemies@.len() ==> in_range(
                (#[trigger] self.enemies@[k]).position,
                self.board,
            )
    }

    /// Build the world over a parsed maze: the player at `player_start`
    /// facing left, a pickup on every dot and power-pill cell, and an enemy
    /// for every recorded spawn point, each with its own random source
    /// seeded from `seed`.
    pub fn new(board: Board, player_start: Position, seed: u64) -> (g: Game)
        requires
            board.wf(),
            in_range(player_start, board),
        ensures
            g.wf(),
            g.board == board,
            g.player_position == player_start,
            g.player_dir == (Direction {
                current: STARTING_DIRECTION,
                next: STARTING_DIRECTION,
            }),
            g.player_velocity.speed() == PLAYER_VELOCITY,
            g.player_state == PlayerState::Moving,
            g.state == GameState::Running,
            g.globals == (GameGlobals {
                score: 0,
                show_grid: false,
                is_debug: false,
                lives: INITIAL_LIVES,
            }),
            g.pickups@ == board_pickups(board, 0),
            g.enemies@.len() == board.spec_enemies().len(),
            forall|k: int|
                0 <= k < g.enemies@.len() ==> {
                    let e = #[trigger] g.enemies@[k];
                    &&& e.enemy == board.spec_enemies()[k]
                    &&& e.position == board.spec_enemies()[k].start_position
                    &&& e.dir == (Direction {
                        current: STARTING_DIRECTION,
                        next: STARTING_DIRECTION,
                    })
                    &&& e.velocity.speed() == PLAYER_VELOCITY
                    &&& e.collider.distance == ENEMY_RANGE
                },
    {
        let (rows, columns) = board.get_dimensions();
        let mut pickups: Vec<PickupItem> = Vec::new();
        let mut r: usize = 0;
        while r < rows
            invariant
                r <= rows,
                board.wf(),
                rows == board.spec_rows(),
                columns == board.spec_columns(),
                pickups@ + board_pickups(board, r as int) == board_pickups(board, 0),
                forall|k: int|
                    0 <= k < pickups@.len() ==> (#[trigger] pickups@[k]).position.bounded(),
            decreases rows - r,
        {
            let mut c: usize = 0;
            while c < columns
                invariant
                    c <= columns,
                    r < rows,
                    board.wf(),
                    rows == board.spec_rows(),
                    columns == board.spec_columns(),
                    pickups@ + row_pickups(board, r as int, c as int) + board_pickups(
                        board,
                        r as int + 1,
                    ) == board_pickups(board, 0),
                    forall|k: int|
                        0 <= k < pickups@.len() ==> (#[trigger] pickups@[k]).position.bounded(),
                decreases columns - c,
            {
                proof {
                    board.lemma_classify_cell_center(c as int, r as int);
                }
                let cell = board.get_cell((c as i64) * CELL, (r as i64) * CELL);
                let ghost old_pickups = pickups@;
                match cell {
                    CellType::Dot => {
                        pickups.push(
                            PickupItem {
                                pickup: Pickup::new(DOT_SCORE),
                                kind: PickupKind::Dot,
                                position: Position::new((c as i64) * CELL, (r as i64) * CELL),
                                collider: Collider::new(PICKUP_RANGE),
                                alive: true,
                            },
                        );
                        proof {
                            assert(pickups@.last() == dot_item(r as int, c as int));
                        }
                    },
                    CellType::PowerPill => {
                        pickups.push(
                            PickupItem {
                                pickup: Pickup::new(POWERPILL_SCORE),
                                kind: PickupKind::PowerPill,
                                position: Position::new((c as i64) * CELL, (r as i64) * CELL),
                                collider: Collider::new(PICKUP_RANGE),
                                alive: true,
                            },
                        );
                        proof {
                            assert(pickups@.last() == pill_item(r as int, c as int));
                        }
                    },
                    _ => {},
                }
                proof {
                    assert(old_pickups + row_pickups(board, r as int, c as int) + board_pickups(
                        board,
                        r as int + 1,
                    ) =~= pickups@ + row_pickups(board, r as int, c as int + 1) + board_pickups(
                        board,
                        r as int + 1,
                    ));
                }
                c = c + 1;
            }
            proof {
                assert(pickups@ + row_pickups(board, r as int, columns as int) + board_pickups(
                    board,
                    r as int + 1,
                ) =~= pickups@ + board_pickups(board, r as int + 1));
            }
            r = r + 1;
        }
        proof {
            assert(board_pickups(board, rows as int) =~= Seq::<PickupItem>::empty());
            assert(pickups@ + Seq::<PickupItem>::empty() =~= pickups@);
        }

        let mut enemies: Vec<EnemyEntity> = Vec::new();
        let spawn_count = board.get_enemies().len();
        let mut k: usize = 0;
        while k < spawn_count
            invariant
                k <= spawn_count,
                board.wf(),
                spawn_count == board.spec_enemies().len(),
                enemies@.len() == k,
                forall|t: int|
                    0 <= t < k ==> {
                        let e = #[trigger] enemies@[t];
                        &&& e.enemy == board.spec_enemies()[t]
                        &&& e.position == board.spec_enemies()[t].start_position
                        &&& e.dir == (Direction {
                            current: STARTING_DIRECTION,
                            next: STARTING_DIRECTION,
                        })
                        &&& e.velocity.speed() == PLAYER_VELOCITY
                        &&& e.collider.distance == ENEMY_RANGE
                        &&& in_range(e.position, board)
                    },
            decreases spawn_count - k,
        {
            let spawn = board.get_enemies()[k];
            proof {
                let p = board.spec_enemies()[k as int].start_position;
                assert(board.spawn_ok(board.spec_enemies()[k as int]));
                lemma_aligned_below(p.y as int, board.spec_rows());
            }
            let agent = EnemyAgent::new(spawn.enemy_ai, seed.wrapping_add(k as u64));
            enemies.push(
                EnemyEntity {
                    enemy: spawn,
                    agent,
                    position: spawn.start_position,
                    velocity: Velocity::new(PLAYER_VELOCITY),
                    dir: Direction::new(STARTING_DIRECTION, STARTING_DIRECTION),
                    collider: Collider::new(ENEMY_RANGE),
                },
            );
            k = k + 1;
        }

        Game {
            board,
            player: Player,
            player_position: player_start,
            player_dir: Direction::new(STARTING_DIRECTION, STARTING_DIRECTION),
            player_velocity: Velocity::new(PLAYER_VELOCITY),
            player_state: PlayerState::Moving,
            pickups,
            enemies,
            globals: GameGlobals {
                score: 0,
                show_grid: false,
                is_debug: false,
                lives: INITIAL_LIVES,
            },
            state: GameState::Running,
        }
    }

    /// Hand the player a directional command: it is buffered, and applied
    /// immediately when it reverses the current direction.
    pub fn apply_input(&mut self, event: InputDirectionEvent)
        ensures
            *final(self) == (Game {
                player_dir: input_applied(old(self).player_dir, direction_of_event(event)),
                ..*old(self)
            }),
    {
        player_movement_control(&mut self.player_dir, event);
    }

    /// Flip the run/pause flag; while paused, `tick` changes nothing.
    pub fn toggle_pause(&mut self)
        ensures
            *final(self) == (Game { state: toggled(old(self).state), ..*old(self) }),
    {
        self.state = match self.state {
            GameState::Running => GameState::Paused,
            GameState::Paused => GameState::Running,
        };
    }

    /// One simulation tick of `elapsed_ms` milliseconds: advance the player
    /// exactly as the `player_move` model says, advance every enemy within
    /// the maze, then resolve pickups and enemy contact at the player's new
    /// position. Paused, it changes nothing.
    pub fn tick(&mut self, elapsed_ms: u32)
        requires
            old(self).wf(),
        ensures
            final(self).wf(),
            old(self).state is Paused ==> *final(self) == *old(self),
            old(self).state is Running ==> ({
                let prev = *old(self);
                let budget = (prev.player_velocity.speed() * elapsed_ms) / 1000;
                let moved = player_move(
                    prev.player_position,
                    prev.player_dir,
                    prev.board,
                    budget,
                );
                &&& final(self).board == prev.board
                &&& (final(self).player_position, final(self).player_dir) == moved
                &&& final(self).player_velocity == prev.player_velocity
                &&& final(self).player_state == (if final(self).player_position
                    == prev.player_position {
                    PlayerState::Idle
                } else {
                    PlayerState::Moving
                })
                &&& final(self).pickups@ == pickups_after(
                    final(self).player_position,
                    prev.pickups@,
                )
                &&& final(self).globals.score == score_after(
                    final(self).player_position,
                    prev.pickups@,
                    prev.globals.score as int,
                )
                &&& final(self).globals.lives == lives_after(
                    death_events(final(self).player_position, final(self).enemies@),
                    prev.globals.lives as int,
                )
                &&& final(self).globals.show_grid == prev.globals.show_grid
                &&& final(self).globals.is_debug == prev.globals.is_debug
                &&& final(self).state == prev.state
                &&& final(self).enemies@.len() == prev.enemies@.len()
                &&& (forall|t: int|
                    0 <= t < final(self).enemies@.len() ==> {
                        let e = #[trigger] final(self).enemies@[t];
                        &&& crate::enemies::enemy_move_ok(
                            prev.enemies@[t].position,
                            prev.enemies@[t].dir,
                            e.position,
                            e.dir,
                            prev.board,
                            (prev.enemies@[t].velocity.speed() * elapsed_ms) / 1000,
                        )
                        &&& in_range(e.position, prev.board)
                        &&& e.enemy == prev.enemies@[t].enemy
                        &&& e.dir.next == prev.enemies@[t].dir.next
                        &&& e.velocity == prev.enemies@[t].velocity
                        &&& e.collider == prev.enemies@[t].collider
                        &&& e.agent.enemy_ai == prev.enemies@[t].agent.enemy_ai
                    })
            }),
    {
        match self.state {
            GameState::Paused => {
                return ;
            },
            GameState::Running => {},
        }
        let start_pos = self.player_position;
        let budget = self.player_velocity.travel_budget(elapsed_ms);
        move_player(
            &mut self.player,
            &mut self.player_dir,
            &mut self.player_position,
            &self.board,
            budget,
        );
        self.player_state = if self.player_position == start_pos {
            PlayerState::Idle
        } else {
            PlayerState::Moving
        };

        let ghost mid = *self;
        let enemy_count = self.enemies.len();
        let mut k: usize = 0;
        while k < enemy_count
            invariant
                k <= enemy_count,
                self.board == mid.board,
                self.board.wf(),
                self.player == mid.player,
                self.player_position == mid.player_position,
                self.player_dir == mid.player_dir,
                self.player_velocity == mid.player_velocity,
                self.player_state == mid.player_state,
                self.pickups@ == mid.pickups@,
                self.globals == mid.globals,
                self.state == mid.state,
                enemy_count == mid.enemies@.len(),
                self.enemies@.len() == enemy_count,
                forall|t: int|
                    k <= t < enemy_count ==> #[trigger] self.enemies@[t] == mid.enemies@[t],
                forall|t: int|
                    0 <= t < k ==> {
                        let e = #[trigger] self.enemies@[t];
                        &&& crate::enemies::enemy_move_ok(
                            mid.enemies@[t].position,
                            mid.enemies@[t].dir,
                            e.position,
                            e.dir,
                            mid.board,
                            (mid.enemies@[t].velocity.speed() * elapsed_ms) / 1000,
                        )
                        &&& in_range(e.position, mid.board)
                        &&& e.enemy == mid.enemies@[t].enemy
                        &&& e.dir.next == mid.enemies@[t].dir.next
                        &&& e.velocity == mid.enemies@[t].velocity
                        &&& e.collider == mid.enemies@[t].collider
                        &&& e.agent.enemy_ai == mid.enemies@[t].agent.enemy_ai
                    },
                forall|t: int|
                    0 <= t < enemy_count ==> in_range(
                        (#[trigger] mid.enemies@[t]).position,
                        mid.board,
                    ),
            decreases enemy_count - k,
        {
            let enemy_budget = self.enemies[k].velocity.travel_budget(elapsed_ms);
            let ent = enemy_entity_at(&mut self.enemies, k);
            move_enemy(&mut ent.agent, &mut ent.dir, &mut ent.position, &self.board, enemy_budget);
            k = k + 1;
        }

        proof {
            lemma_in_range_bounded(self.player_position, self.board);
            assert forall|t: int| 0 <= t < self.enemies@.len() implies (
            #[trigger] self.enemies@[t]).position.bounded() by {
                lemma_in_range_bounded(self.enemies@[t].position, self.board);
            }
        }
        let events = player_collision_detection(
            &self.player_position,
            &mut self.pickups,
            &self.enemies,
            &mut self.globals,
        );
        process_game_events(&events, &mut self.state, &mut self.globals);
        proof {
            lemma_death_events_only_deaths(self.player_position, self.enemies@);
            crate::state::lemma_state_after_deaths(events@, mid.state);
            assert forall|t: int| 0 <= t < self.pickups@.len() implies (
            #[trigger] self.pickups@[t]).position.bounded() by {
                assert(self.pickups@[t] == crate::collision::pickup_after(
                    self.player_position,
                    mid.pickups@[t],
                ));
            }
        }
    }
}

/// A mutable borrow of the `i`th enemy in the list.
fn enemy_entity_at(list: &mut Vec<EnemyEntity>, i: usize) -> (element: &mut EnemyEntity)
    requires
        i < old(list)@.len(),
    ensures
        *element == old(list)@[i as int],
        final(list)@ == old(list)@.update(i as int, *final(element)),
{
    &mut list[i]
}

/// An aligned coordinate strictly inside `n` cells sits at cell `n - 1` or
/// earlier.
proof fn lemma_aligned_below(v: int, n: int)
    requires
        v % (CELL as int) == 0,
        0 <= v,
        v < n * CELL,
    ensures
        v <= (n - 1) * CELL,
{
    lemma_fundamental_div_mod(v, CELL as int);
    let q = v / (CELL as int);
    assert(v == (CELL as int) * q);
    assert(q <= n - 1) by (nonlinear_arith)
        requires
            v == (CELL as int) * q,
            0 <= v,
            v < n * CELL,
    ;
    assert(v <= (n - 1) * CELL) by (nonlinear_arith)
        requires
            v == (CELL as int) * q,
            q <= n - 1,
    ;
}

} // verus!
