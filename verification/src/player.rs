//! The player: buffered-input steering and the per-tick movement resolver.
use vstd::prelude::*;

use crate::board::Board;
use crate::board::CellType;
use crate::input::direction_of_event;
use crate::input::InputDirectionEvent;
use crate::movement::blocked_at;
use crate::movement::dist;
use crate::movement::in_range;
use crate::movement::is_blocked;
use crate::movement::lemma_in_range_bounded;
use crate::movement::lemma_step_stays_in_range;
use crate::movement::lemma_target_cell;
use crate::movement::opposite;
use crate::movement::step_toward;
use crate::movement::update_position;
use crate::movement::wrap_around;
use crate::movement::wrap_spec;
use crate::movement::Direction;
use crate::movement::Directions;
use crate::movement::MovableObject;
use crate::movement::Position;
use crate::CELL;

verus! {

/// The player-controlled entity; its direction comes from buffered input.
pub struct Player;

/// Whether the player moved during the last tick.
#[derive(PartialEq, Eq, Structural, Clone, Copy, Debug)]
pub enum PlayerState {
    Moving,
    Idle,
}

/// The player's steering decision at a grid-aligned position: keep the
/// current direction unless a different one is buffered and its adjacent
/// cell is no wall, in which case adopt the buffered direction.
pub open spec fn player_steer(pos: Position, dir: Direction, board: Board) -> Direction {
    if dir.current == dir.next {
        dir
    } else {
        let t = pos.target_cell_spec(dir.next);
        if board.classify(t.x as int, t.y as int) is Wall {
            dir
        } else {
            Direction { current: dir.next, next: dir.next }
        }
    }
}

impl MovableObject for Player {
    /// The player steers deterministically: the new heading is exactly
    /// `player_steer` of the old.
    open spec fn steer_ok(
        pre: Player,
        post: Player,
        pos: Position,
        pre_dir: Direction,
        post_dir: Direction,
        board: Board,
    ) -> bool {
        post_dir == player_steer(pos, pre_dir, board)
    }

    fn update_direction(&mut self, pos: &Position, dir: &mut Direction, board: &Board) {
        if dir.current == dir.next {
            return ;
        }
        proof {
            lemma_in_range_bounded(*pos, *board);
            lemma_target_cell(*pos, dir.next);
        }
        let next_cell = pos.get_target_cell(dir.next);
        let cell = board.get_cell(next_cell.x, next_cell.y);
        if !matches!(cell, CellType::Wall(_)) {
            dir.current = dir.next;
        }
    }
}

/// The heading after a directional command arrives: the command is buffered
/// as the desired direction, and adopted immediately — even mid-cell — when
/// it is the exact reverse of the current direction.
pub open spec fn input_applied(dir: Direction, req: Directions) -> Direction {
    if req == opposite(dir.current) {
        Direction { current: req, next: req }
    } else {
        Direction { current: dir.current, next: req }
    }
}

/// Apply one directional command to the player's heading; see
/// `input_applied`.
pub fn player_movement_control(dir: &mut Direction, event: InputDirectionEvent)
    ensures
        *final(dir) == input_applied(*old(dir), direction_of_event(event)),
{
    let req = match event {
        InputDirectionEvent::Up => Directions::Up,
        InputDirectionEvent::Down => Directions::Down,
        InputDirectionEvent::Left => Directions::Left,
        InputDirectionEvent::Right => Directions::Right,
    };
    let reverse = dir.is_opposite(req);
    dir.next = req;
    if reverse {
        dir.current = req;
    }
}

/// The player's position and heading after spending a travel budget of
/// `budget` subcell units: at each grid-aligned point the steering policy
/// re-decides the heading, then the entity advances toward the adjacent
/// target cell unless that is blocked, wraps around horizontally, and
/// repeats until the budget is spent or a wall stops it.
pub open spec fn player_move(pos: Position, dir: Direction, board: Board, budget: int) -> (
    Position,
    Direction,
)
    decreases budget,
    when board.wf() && in_range(pos, board)
    via player_move_dec
{
    if budget <= 0 {
        (pos, dir)
    } else {
        let d1 = if pos.aligned() {
            player_steer(pos, dir, board)
        } else {
            dir
        };
        let t = pos.target_cell_spec(d1.current);
        if blocked_at(board, t) {
            (pos, d1)
        } else {
            let (p1, rem) = step_toward(pos, t, budget);
            let p2 = wrap_spec(p1, board.spec_columns());
            if rem > 0 {
                player_move(p2, d1, board, rem)
            } else {
                (p2, d1)
            }
        }
    }
}

#[via_fn]
proof fn player_move_dec(pos: Position, dir: Direction, board: Board, budget: int) {
    if budget > 0 {
        let d1 = if pos.aligned() {
            player_steer(pos, dir, board)
        } else {
            dir
        };
        let t = pos.target_cell_spec(d1.current);
        if !blocked_at(board, t) {
            lemma_step_stays_in_range(pos, d1.current, board, budget);
        }
    }
}

/// Movement never crosses a wall: when the target cell adjacent to the
/// player (after steering) is a wall — or anything else that blocks — the
/// position does not advance, whatever the tick's budget.
pub proof fn lemma_wall_blocks(pos: Position, dir: Direction, board: Board, budget: int)
    requires
        board.wf(),
        in_range(pos, board),
        ({
            let d1 = if pos.aligned() {
                player_steer(pos, dir, board)
            } else {
                dir
            };
            blocked_at(board, pos.target_cell_spec(d1.current))
        }),
    ensures
        player_move(pos, dir, board, budget).0 == pos,
{
}

/// Wrap-around at the left edge: a player at `x = 0` heading left through
/// an open wrap path crosses the one-cell margin and comes back in at
/// `x = columns - 1`, the row unchanged, after two cells' worth of budget.
pub proof fn lemma_wrap_around_left(board: Board, y: i64)
    requires
        board.wf(),
        board.spec_columns() >= 1,
        (y as int) % (CELL as int) == 0,
        0 <= y <= (board.spec_rows() - 1) * CELL,
        !(board.cell_at(board.spec_columns() - 1, (y as int) / (CELL as int)) is Wall),
    ensures
        ({
            let start = Position { x: 0, y };
            let dir = Direction { current: Directions::Left, next: Directions::Left };
            player_move(start, dir, board, 2 * CELL) == (
                Position { x: ((board.spec_columns() - 1) * CELL) as i64, y },
                dir,
            )
        }),
{
    let cols = board.spec_columns();
    let start = Position { x: 0, y };
    let dir = Direction { current: Directions::Left, next: Directions::Left };
    lemma_target_cell(start, Directions::Left);
    let t0 = start.target_cell_spec(Directions::Left);
    assert(t0 == (Position { x: -CELL as i64, y }));
    assert(!blocked_at(board, t0));
    let mid = Position { x: (cols * CELL) as i64, y };
    assert(wrap_spec(Position { x: -CELL as i64, y }, cols) == mid);
    assert(step_toward(start, t0, 2 * CELL) == (Position { x: -CELL as i64, y }, CELL as int));
    assert(player_move(start, dir, board, 2 * CELL) == player_move(mid, dir, board, CELL as int));
    vstd::arithmetic::div_mod::lemma_fundamental_div_mod_converse(
        cols * (CELL as int),
        CELL as int,
        cols,
        0,
    );
    assert(mid.aligned());
    lemma_target_cell(mid, Directions::Left);
    let t1 = mid.target_cell_spec(Directions::Left);
    assert(t1 == (Position { x: ((cols - 1) * CELL) as i64, y }));
    board.lemma_classify_cell_center(cols - 1, (y as int) / (CELL as int));
    vstd::arithmetic::div_mod::lemma_fundamental_div_mod(y as int, CELL as int);
    assert(((y as int) / (CELL as int)) * CELL == y);
    assert(!blocked_at(board, t1));
    assert(step_toward(mid, t1, CELL as int) == (t1, 0int));
    assert(wrap_spec(t1, cols) == t1);
    assert(player_move(mid, dir, board, CELL as int) == (t1, dir));
}

/// Wrap-around at the right edge: a player at `x = columns - 1` heading
/// right through an open wrap path crosses the margin and comes back in at
/// `x = 0`, the row unchanged, after two cells' worth of budget.
pub proof fn lemma_wrap_around_right(board: Board, y: i64)
    requires
        board.wf(),
        board.spec_columns() >= 1,
        (y as int) % (CELL as int) == 0,
        0 <= y <= (board.spec_rows() - 1) * CELL,
        !(board.cell_at(0, (y as int) / (CELL as int)) is Wall),
    ensures
        ({
            let start = Position { x: ((board.spec_columns() - 1) * CELL) as i64, y };
            let dir = Direction { current: Directions::Right, next: Directions::Right };
            player_move(start, dir, board, 2 * CELL) == (Position { x: 0, y }, dir)
        }),
{
    let cols = board.spec_columns();
    let start = Position { x: ((cols - 1) * CELL) as i64, y };
    let dir = Direction { current: Directions::Right, next: Directions::Right };
    vstd::arithmetic::div_mod::lemma_fundamental_div_mod_converse(
        (cols - 1) * (CELL as int),
        CELL as int,
        cols - 1,
        0,
    );
    assert(start.aligned());
    lemma_target_cell(start, Directions::Right);
    let t0 = start.target_cell_spec(Directions::Right);
    assert(t0 == (Position { x: (cols * CELL) as i64, y }));
    assert(!blocked_at(board, t0)) by {
        board.lemma_classify_outside_iff(t0.x as int, t0.y as int);
    }
    let mid = Position { x: -CELL as i64, y };
    assert(step_toward(start, t0, 2 * CELL) == (Position { x: (cols * CELL) as i64, y },
    CELL as int));
    assert(wrap_spec(Position { x: (cols * CELL) as i64, y }, cols) == mid);
    assert(player_move(start, dir, board, 2 * CELL) == player_move(mid, dir, board, CELL as int));
    assert(mid.aligned());
    lemma_target_cell(mid, Directions::Right);
    let t1 = mid.target_cell_spec(Directions::Right);
    assert(t1 == (Position { x: 0, y }));
    board.lemma_classify_cell_center(0, (y as int) / (CELL as int));
    vstd::arithmetic::div_mod::lemma_fundamental_div_mod(y as int, CELL as int);
    assert(((y as int) / (CELL as int)) * CELL == y);
    assert(!blocked_at(board, t1));
    assert(step_toward(mid, t1, CELL as int) == (t1, 0int));
    assert(wrap_spec(t1, cols) == t1);
    assert(player_move(mid, dir, board, CELL as int) == (t1, dir));
}

/// Advance the player by a travel budget of `distance` subcell units,
/// mutating heading and position exactly as the `player_move` model says.
pub fn move_player(
    player: &mut Player,
    dir: &mut Direction,
    position: &mut Position,
    board: &Board,
    distance: i64,
)
    requires
        board.wf(),
        in_range(*old(position), *board),
    ensures
        (*final(position), *final(dir)) == player_move(
            *old(position),
            *old(dir),
            *board,
            distance as int,
        ),
        in_range(*final(position), *board),
{
    let ghost target = player_move(*old(position), *old(dir), *board, distance as int);
    let mut budget = distance;
    while budget > 0
        invariant_except_break
            player_move(*position, *dir, *board, budget as int) == target,
        invariant
            board.wf(),
            in_range(*position, *board),
        ensures
            (*position, *dir) == target,
        decreases budget,
    {
        let ghost pre_pos = *position;
        let ghost pre_dir = *dir;
        let ghost pre_budget = budget as int;
        if position.is_grid_aligned() {
            player.update_direction(position, dir, board);
        }
        let ghost d1 = if pre_pos.aligned() {
            player_steer(pre_pos, pre_dir, *board)
        } else {
            pre_dir
        };
        proof {
            assert(*dir == d1);
            lemma_in_range_bounded(*position, *board);
            lemma_target_cell(*position, dir.current);
        }
        let t = position.get_target_cell(dir.current);
        if is_blocked(board, &t) {
            proof {
                assert(player_move(pre_pos, pre_dir, *board, pre_budget) == (pre_pos, d1));
            }
            break ;
        }
        proof {
            lemma_step_stays_in_range(*position, dir.current, *board, budget as int);
        }
        let rem = update_position(position, &t, budget);
        wrap_around(position, board);
        proof {
            assert((*position, *dir) == (
                wrap_spec(step_toward(pre_pos, t, pre_budget).0, board.spec_columns()),
                d1,
            ));
            assert(player_move(pre_pos, pre_dir, *board, pre_budget) == player_move(
                *position,
                *dir,
                *board,
                rem as int,
            ));
        }
        budget = rem;
    }
}

} // verus!
