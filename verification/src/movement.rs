//! Grid positions in fixed-point subcell units, travel directions, and the
//! axis-aligned single-step motion primitive used by the movement resolver.
use vstd::arithmetic::div_mod::lemma_fundamental_div_mod;
use vstd::arithmetic::div_mod::lemma_fundamental_div_mod_converse;
use vstd::prelude::*;

use crate::board::Board;
use crate::board::CellType;
use crate::CELL;
use crate::COORD_LIMIT;
use crate::MAX_DIM;

verus! {

/// The four travel directions on the grid.
#[derive(PartialEq, Eq, Structural, Clone, Copy, Debug)]
pub enum Directions {
    Up,
    Down,
    Left,
    Right,
}

/// The order in which the steering policies scan the four directions.
pub open spec fn direction_order() -> Seq<Directions> {
    seq![Directions::Up, Directions::Right, Directions::Down, Directions::Left]
}

/// The direction opposite to `d`.
pub open spec fn opposite(d: Directions) -> Directions {
    match d {
        Directions::Up => Directions::Down,
        Directions::Down => Directions::Up,
        Directions::Left => Directions::Right,
        Directions::Right => Directions::Left,
    }
}

impl Directions {
    /// All four directions, in steering scan order.
    pub fn iterator() -> (ds: [Directions; 4])
        ensures
            ds@ == direction_order(),
    {
        let ds = [Directions::Up, Directions::Right, Directions::Down, Directions::Left];
        proof {
            assert(ds@ =~= direction_order());
        }
        ds
    }
}

/// An entity's heading: the direction it travels in now and the buffered
/// direction it should adopt when the maze allows it.
#[derive(PartialEq, Eq, Structural, Clone, Copy, Debug)]
pub struct Direction {
    pub current: Directions,
    pub next: Directions,
}

impl Direction {
    pub fn new(current: Directions, next: Directions) -> (d: Direction)
        ensures
            d == (Direction { current, next }),
    {
        Direction { current, next }
    }

    /// Whether `other` is the exact reverse of the current travel direction.
    pub fn is_opposite(&self, other: Directions) -> (r: bool)
        ensures
            r == (other == opposite(self.current)),
    {
        matches!(
            (self.current, other),
            (Directions::Up, Directions::Down)
                | (Directions::Down, Directions::Up)
                | (Directions::Left, Directions::Right)
                | (Directions::Right, Directions::Left)
        )
    }
}

/// A continuous position on the grid, in subcell units: `CELL` units make one
/// maze cell, so cell `(cx, cy)` is centered at `(cx * CELL, cy * CELL)`.
#[derive(PartialEq, Eq, Structural, Clone, Copy, Debug)]
pub struct Position {
    pub x: i64,
    pub y: i64,
}

/// Coordinates small enough that all subcell arithmetic stays far from
/// overflow.
pub open spec fn coord_ok(v: i64) -> bool {
    -COORD_LIMIT <= v <= COORD_LIMIT
}

/// The largest multiple of `CELL` at or below `v` (cell floor).
pub open spec fn align_down(v: int) -> int {
    v - (v % (CELL as int))
}

/// The smallest multiple of `CELL` at or above `v` (cell ceiling).
pub open spec fn align_up(v: int) -> int {
    if v % (CELL as int) == 0 {
        v
    } else {
        align_down(v) + CELL
    }
}

/// Manhattan distance between two positions, in subcell units.
pub open spec fn dist(a: Position, b: Position) -> int {
    abs_int(a.x - b.x) + abs_int(a.y - b.y)
}

pub open spec fn abs_int(v: int) -> int {
    if v < 0 {
        -v
    } else {
        v
    }
}

impl Position {
    pub open spec fn bounded(self) -> bool {
        coord_ok(self.x) && coord_ok(self.y)
    }

    /// A position is grid-aligned when both coordinates sit exactly on a cell
    /// center, i.e. are multiples of `CELL`.
    pub open spec fn aligned(self) -> bool {
        (self.x as int) % (CELL as int) == 0 && (self.y as int) % (CELL as int) == 0
    }

    /// The adjacent cell-center the entity is headed for when travelling in
    /// `dir`: the coordinate on `dir`'s axis snaps to the next cell boundary
    /// (even mid-cell), the other coordinate is kept.
    pub open spec fn target_cell_spec(self, dir: Directions) -> Position {
        match dir {
            Directions::Up => Position { x: self.x, y: (align_up(self.y as int) - CELL) as i64 },
            Directions::Down => Position {
                x: self.x,
                y: (align_down(self.y as int) + CELL) as i64,
            },
            Directions::Left => Position { x: (align_up(self.x as int) - CELL) as i64, y: self.y },
            Directions::Right => Position {
                x: (align_down(self.x as int) + CELL) as i64,
                y: self.y,
            },
        }
    }

    pub fn new(x: i64, y: i64) -> (p: Position)
        ensures
            p == (Position { x, y }),
    {
        Position { x, y }
    }

    /// Both coordinates with their sign dropped.
    pub fn get_cell_coords(&self) -> (p: Position)
        requires
            self.bounded(),
        ensures
            p.x == abs_int(self.x as int),
            p.y == abs_int(self.y as int),
    {
        Position { x: abs_i64(self.x), y: abs_i64(self.y) }
    }

    /// True exactly when the position is grid-aligned.
    pub fn is_grid_aligned(&self) -> (r: bool)
        requires
            self.bounded(),
        ensures
            r == self.aligned(),
    {
        rem_cell(self.x) == 0 && rem_cell(self.y) == 0
    }

    /// The adjacent grid cell in direction `dir`; see `target_cell_spec`.
    pub fn get_target_cell(&self, dir: Directions) -> (t: Position)
        requires
            self.bounded(),
        ensures
            t == self.target_cell_spec(dir),
            t.x == self.x || t.y == self.y,
    {
        proof {
            lemma_align_bounds(self.x as int);
            lemma_align_bounds(self.y as int);
        }
        match dir {
            Directions::Up => Position { x: self.x, y: align_up_cell(self.y) - CELL },
            Directions::Down => Position { x: self.x, y: align_down_cell(self.y) + CELL },
            Directions::Left => Position { x: align_up_cell(self.x) - CELL, y: self.y },
            Directions::Right => Position { x: align_down_cell(self.x) + CELL, y: self.y },
        }
    }

    /// Manhattan distance to `other`, in subcell units.
    pub fn get_distance(&self, other: &Position) -> (d: i64)
        requires
            self.bounded(),
            other.bounded(),
        ensures
            d == dist(*self, *other),
    {
        let dx = if self.x >= other.x {
            self.x - other.x
        } else {
            other.x - self.x
        };
        let dy = if self.y >= other.y {
            self.y - other.y
        } else {
            other.y - self.y
        };
        dx + dy
    }
}

fn abs_i64(v: i64) -> (r: i64)
    requires
        coord_ok(v),
    ensures
        r == abs_int(v as int),
{
    if v < 0 {
        -v
    } else {
        v
    }
}

/// Euclidean remainder of a coordinate by the cell size.
pub fn rem_cell(v: i64) -> (r: i64)
    requires
        coord_ok(v),
    ensures
        r == (v as int) % (CELL as int),
{
    if v >= 0 {
        (((v as u64) % (CELL as u64)) as i64)
    } else {
        let m = (((-v) as u64) % (CELL as u64)) as i64;
        proof {
            let a = -(v as int);
            lemma_fundamental_div_mod(a, CELL as int);
            if m == 0 {
                lemma_fundamental_div_mod_converse(v as int, CELL as int, -(a / (CELL as int)), 0);
            } else {
                lemma_fundamental_div_mod_converse(
                    v as int,
                    CELL as int,
                    -(a / (CELL as int)) - 1,
                    CELL - m,
                );
            }
        }
        if m == 0 {
            0
        } else {
            CELL - m
        }
    }
}

/// The cell floor of a coordinate: the largest multiple of `CELL` at or
/// below `v`.
pub fn align_down_cell(v: i64) -> (r: i64)
    requires
        coord_ok(v),
    ensures
        r == align_down(v as int),
{
    let m = rem_cell(v);
    proof {
        vstd::arithmetic::div_mod::lemma_mod_bound(v as int, CELL as int);
    }
    v - m
}

/// The cell ceiling of a coordinate: the smallest multiple of `CELL` at or
/// above `v`.
pub fn align_up_cell(v: i64) -> (r: i64)
    requires
        coord_ok(v),
    ensures
        r == align_up(v as int),
{
    let m = rem_cell(v);
    proof {
        vstd::arithmetic::div_mod::lemma_mod_bound(v as int, CELL as int);
    }
    if m == 0 {
        v
    } else {
        v - m + CELL
    }
}

/// From any grid-aligned position, the target cell in each direction
/// differs from the position by exactly one cell along exactly one axis:
/// the axis of travel.
pub proof fn lemma_target_cell_adjacent(pos: Position, d: Directions)
    requires
        pos.bounded(),
        pos.aligned(),
    ensures
        ({
            let t = pos.target_cell_spec(d);
            &&& (d is Up ==> t.x == pos.x && t.y == pos.y - CELL)
            &&& (d is Down ==> t.x == pos.x && t.y == pos.y + CELL)
            &&& (d is Left ==> t.y == pos.y && t.x == pos.x - CELL)
            &&& (d is Right ==> t.y == pos.y && t.x == pos.x + CELL)
        }),
{
    lemma_align_bounds(pos.x as int);
    lemma_align_bounds(pos.y as int);
}

/// One sub-step of the movement resolver: from `p`, travel up to `distance`
/// subcell units toward `dest` (which differs from `p` on at most one axis).
/// If the budget covers the whole way, snap exactly onto `dest` and return
/// the budget left over; otherwise move `distance` units along the axis of
/// travel and return a spent budget of zero.
pub open spec fn step_toward(p: Position, dest: Position, distance: int) -> (Position, int) {
    let delta = dist(p, dest);
    if delta < distance {
        (dest, distance - delta)
    } else if dest.y != p.y {
        if dest.y > p.y {
            (Position { x: p.x, y: (p.y + distance) as i64 }, 0)
        } else {
            (Position { x: p.x, y: (p.y - distance) as i64 }, 0)
        }
    } else {
        if dest.x > p.x {
            (Position { x: (p.x + distance) as i64, y: p.y }, 0)
        } else if dest.x < p.x {
            (Position { x: (p.x - distance) as i64, y: p.y }, 0)
        } else {
            (p, 0)
        }
    }
}

/// Advance `position` toward the adjacent cell `dest`, spending at most
/// `distance` of the tick's travel budget; returns the budget left after the
/// move. Mirrors `step_toward` exactly: either the position snaps onto `dest`
/// with budget to spare, or the whole budget is spent on the way.
pub fn update_position(position: &mut Position, dest: &Position, distance: i64) -> (rem: i64)
    requires
        old(position).bounded(),
        dest.bounded(),
        0 <= distance,
        dest.x == old(position).x || dest.y == old(position).y,
    ensures
        (*final(position), rem as int) == step_toward(*old(position), *dest, distance as int),
        final(position).bounded(),
        0 <= rem <= distance,
{
    let delta = position.get_distance(dest);
    if delta < distance {
        position.x = dest.x;
        position.y = dest.y;
        return distance - delta;
    }
    if dest.y > position.y {
        position.y = position.y + distance;
    } else if dest.y < position.y {
        position.y = position.y - distance;
    } else if dest.x > position.x {
        position.x = position.x + distance;
    } else if dest.x < position.x {
        position.x = position.x - distance;
    }
    0
}

/// The position invariant the movement resolver maintains: horizontally on
/// the board or in its one-cell wrap margin, vertically on the board.
pub open spec fn in_range(p: Position, board: Board) -> bool {
    &&& -CELL <= p.x <= board.spec_columns() * CELL
    &&& 0 <= p.y <= (board.spec_rows() - 1) * CELL
}

/// Horizontal wrap-around on a cylinder of `columns + 1` cells: a position
/// whose containing cell index reaches `columns` comes back in from the
/// left margin, one that leaves through the left margin comes back in from
/// the right. Rows do not wrap.
pub open spec fn wrap_spec(p: Position, columns: int) -> Position {
    if p.x >= columns * CELL {
        Position { x: (p.x - (columns + 1) * CELL) as i64, y: p.y }
    } else if p.x <= -CELL {
        Position { x: (p.x + (columns + 1) * CELL) as i64, y: p.y }
    } else {
        p
    }
}

/// The cell index containing a coordinate: truncation toward zero, as the
/// movement resolver and the classifier truncate.
pub open spec fn cell_index_of(v: int) -> int {
    if v >= 0 {
        v / (CELL as int)
    } else {
        -((-v) / (CELL as int))
    }
}

/// On the one-cell margin around the board — every position one sub-step
/// of the resolver can produce — `wrap_spec` is exactly the truncation
/// rule: the row is untouched; a position whose containing cell index is
/// exactly `columns` moves left by `columns + 1` cells, one whose index is
/// negative moves right by `columns + 1` cells, and any other stays put.
/// The one addition is the far end of the margin itself, `x ==
/// (columns + 1) * CELL`, where wrapping continues so that the resolver's
/// position invariant holds on an exact landing there.
pub proof fn lemma_wrap_matches_truncation(p: Position, columns: int)
    requires
        1 <= columns <= MAX_DIM,
        -2 * CELL <= p.x <= (columns + 1) * CELL,
    ensures
        wrap_spec(p, columns).y == p.y,
        cell_index_of(p.x as int) == columns || p.x == (columns + 1) * CELL ==> wrap_spec(
            p,
            columns,
        ).x == p.x - (columns + 1) * CELL,
        cell_index_of(p.x as int) < 0 ==> wrap_spec(p, columns).x == p.x + (columns + 1) * CELL,
        0 <= cell_index_of(p.x as int) < columns ==> wrap_spec(p, columns).x == p.x,
{
    assert(columns * CELL >= CELL && (columns + 1) * CELL >= 2 * CELL) by (nonlinear_arith)
        requires
            columns >= 1,
    ;
    if p.x >= 0 {
        lemma_fundamental_div_mod(p.x as int, CELL as int);
        vstd::arithmetic::div_mod::lemma_mod_bound(p.x as int, CELL as int);
        let q = (p.x as int) / (CELL as int);
        assert(q * CELL <= p.x < (q + 1) * CELL) by (nonlinear_arith)
            requires
                p.x == (CELL as int) * q + (p.x as int) % (CELL as int),
                0 <= (p.x as int) % (CELL as int) < CELL,
        ;
        assert(q >= 0) by (nonlinear_arith)
            requires
                0 <= p.x < (q + 1) * CELL,
        ;
        assert(q >= columns <==> p.x >= columns * CELL) by (nonlinear_arith)
            requires
                q * CELL <= p.x < (q + 1) * CELL,
        ;
    } else {
        lemma_fundamental_div_mod(-(p.x as int), CELL as int);
        vstd::arithmetic::div_mod::lemma_mod_bound(-(p.x as int), CELL as int);
        let q = (-(p.x as int)) / (CELL as int);
        assert(q * CELL <= -(p.x as int) < (q + 1) * CELL) by (nonlinear_arith)
            requires
                -(p.x as int) == (CELL as int) * q + (-(p.x as int)) % (CELL as int),
                0 <= (-(p.x as int)) % (CELL as int) < CELL,
        ;
        assert(q >= 0) by (nonlinear_arith)
            requires
                0 < -(p.x as int) < (q + 1) * CELL,
        ;
        assert(q >= 1 <==> -(p.x as int) >= CELL) by (nonlinear_arith)
            requires
                q * CELL <= -(p.x as int) < (q + 1) * CELL,
        ;
        assert(cell_index_of(p.x as int) < 0 <==> p.x <= -CELL);
    }
}

/// Apply horizontal wrap-around to `position`; see `wrap_spec` and
/// `lemma_wrap_matches_truncation`. The precondition is the one-cell
/// margin around the board: every position a resolver sub-step produces.
pub fn wrap_around(position: &mut Position, board: &Board)
    requires
        board.wf(),
        -2 * CELL <= old(position).x <= (board.spec_columns() + 1) * CELL,
    ensures
        *final(position) == wrap_spec(*old(position), board.spec_columns()),
{
    let (_rows, columns) = board.get_dimensions();
    let edge = (columns as i64) * CELL;
    if position.x >= edge {
        position.x = position.x - (edge + CELL);
    } else if position.x <= -CELL {
        position.x = position.x + (edge + CELL);
    }
}

/// Whether the movement resolver must stop short of the target cell `t`:
/// the target is a wall, or it lies vertically off the board (rows do not
/// wrap, so the resolver never leaves the board vertically).
pub open spec fn blocked_at(board: Board, t: Position) -> bool {
    ||| board.classify(t.x as int, t.y as int) is Wall
    ||| t.y < 0
    ||| t.y > (board.spec_rows() - 1) * CELL
}

/// Whether the target cell `t` stops the movement resolver; see
/// `blocked_at`.
pub fn is_blocked(board: &Board, t: &Position) -> (r: bool)
    requires
        board.wf(),
        t.bounded(),
    ensures
        r == blocked_at(*board, *t),
{
    let c = board.get_cell(t.x, t.y);
    if matches!(c, CellType::Wall(_)) {
        return true;
    }
    let (rows, _columns) = board.get_dimensions();
    t.y < 0 || t.y > ((rows as i64) - 1) * CELL
}

/// The single capability the movement resolver asks of an entity: decide the
/// travel direction from the current position, heading and maze. What a
/// decision may do is pinned by the implementor's `steer_ok` relation.
pub trait MovableObject: Sized {
    /// Relates the entity and heading before a steering decision to those
    /// after it.
    spec fn steer_ok(
        pre: Self,
        post: Self,
        pos: Position,
        pre_dir: Direction,
        post_dir: Direction,
        board: Board,
    ) -> bool;

    /// Re-decide the travel direction at `pos`.
    fn update_direction(&mut self, pos: &Position, dir: &mut Direction, board: &Board)
        requires
            board.wf(),
            in_range(*pos, *board),
        ensures
            Self::steer_ok(*old(self), *final(self), *pos, *old(dir), *final(dir), *board),
    ;
}

/// An entity's travel speed, in subcell units per second.
pub struct Velocity {
    value: u32,
}

impl Velocity {
    pub closed spec fn speed(self) -> u32 {
        self.value
    }

    pub fn new(value: u32) -> (v: Velocity)
        ensures
            v.speed() == value,
    {
        Velocity { value }
    }

    /// The travel budget for a tick of `elapsed_ms` milliseconds, in
    /// subcell units (rounded down).
    pub fn travel_budget(&self, elapsed_ms: u32) -> (b: i64)
        ensures
            b == (self.speed() * elapsed_ms) / 1000,
            b >= 0,
    {
        proof {
            assert((self.value as int) * (elapsed_ms as int) < 0x10000000000000000int)
                by (nonlinear_arith)
                requires
                    self.value < 0x100000000int && elapsed_ms < 0x100000000int,
            ;
            vstd::arithmetic::div_mod::lemma_fundamental_div_mod(
                (self.value as int) * (elapsed_ms as int),
                1000,
            );
            vstd::arithmetic::div_mod::lemma_mod_bound(
                (self.value as int) * (elapsed_ms as int),
                1000,
            );
        }
        (((self.value as u64) * (elapsed_ms as u64)) / 1000) as i64
    }
}

/// The motion state of one entity, as the update loop owns it.
pub struct MovingObjectBundle {
    pub position: Position,
    pub velocity: Velocity,
    pub dir: Direction,
}

/// A position within the board's wrap margin is well inside the coordinate
/// range of every motion primitive.
pub proof fn lemma_in_range_bounded(p: Position, board: Board)
    requires
        board.wf(),
        in_range(p, board),
    ensures
        p.bounded(),
{
}

/// The target cell differs from the position by one unit to one full cell
/// along the axis of travel, and exactly one full cell from an aligned
/// position.
pub proof fn lemma_target_cell(pos: Position, d: Directions)
    requires
        pos.bounded(),
    ensures
        ({
            let t = pos.target_cell_spec(d);
            &&& 1 <= dist(pos, t) <= CELL
            &&& (d is Up ==> t.x == pos.x && pos.y - CELL <= t.y <= pos.y - 1)
            &&& (d is Down ==> t.x == pos.x && pos.y + 1 <= t.y <= pos.y + CELL)
            &&& (d is Left ==> t.y == pos.y && pos.x - CELL <= t.x <= pos.x - 1)
            &&& (d is Right ==> t.y == pos.y && pos.x + 1 <= t.x <= pos.x + CELL)
            &&& (t.x as int) % (CELL as int) == 0 || (t.y as int) % (CELL as int) == 0
            &&& (pos.aligned() ==> dist(pos, t) == CELL && t.aligned())
        }),
{
    lemma_align_bounds(pos.x as int);
    lemma_align_bounds(pos.y as int);
}

/// One sub-step from an in-range position toward an unblocked target cell,
/// followed by wrap-around, lands in range again; budget is left over only
/// on an exact snap onto the target.
pub proof fn lemma_step_stays_in_range(pos: Position, d: Directions, board: Board, distance: int)
    requires
        board.wf(),
        in_range(pos, board),
        !blocked_at(board, pos.target_cell_spec(d)),
        0 <= distance,
    ensures
        ({
            let t = pos.target_cell_spec(d);
            let (p1, rem) = step_toward(pos, t, distance);
            &&& in_range(wrap_spec(p1, board.spec_columns()), board)
            &&& -2 * CELL <= p1.x <= (board.spec_columns() + 1) * CELL
            &&& 0 <= rem < distance || (rem == distance && distance == 0)
            &&& (rem > 0 ==> p1 == t)
        }),
{
    lemma_in_range_bounded(pos, board);
    lemma_target_cell(pos, d);
    let t = pos.target_cell_spec(d);
    let (p1, rem) = step_toward(pos, t, distance);
    let cols = board.spec_columns();
    assert(p1.y == pos.y || (t.y != pos.y && (p1.y == t.y || pos.y < p1.y < t.y || t.y < p1.y
        < pos.y)));
    assert(p1.x == pos.x || (t.x != pos.x && (p1.x == t.x || pos.x < p1.x < t.x || t.x < p1.x
        < pos.x)));
    if d is Up || d is Down {
        assert(0 <= t.y <= (board.spec_rows() - 1) * CELL);
        assert(in_range(wrap_spec(p1, cols), board));
    } else {
        assert(-2 * CELL <= p1.x <= (cols + 1) * CELL);
        assert(in_range(wrap_spec(p1, cols), board));
    }
}

/// The cell floor and ceiling sit within one cell of the coordinate, and are
/// themselves aligned.
pub proof fn lemma_align_bounds(v: int)
    ensures
        v - CELL < align_down(v) <= v <= align_up(v) < v + CELL,
        align_down(v) % (CELL as int) == 0,
        align_up(v) % (CELL as int) == 0,
        align_up(v) - align_down(v) == if v % (CELL as int) == 0 {
            0int
        } else {
            CELL as int
        },
{
    lemma_fundamental_div_mod(v, CELL as int);
    let q = v / (CELL as int);
    let m = v % (CELL as int);
    assert(0 <= m < CELL) by {
        vstd::arithmetic::div_mod::lemma_mod_bound(v, CELL as int);
    }
    assert(align_down(v) == (CELL as int) * q);
    lemma_fundamental_div_mod_converse(align_down(v), CELL as int, q, 0);
    if m != 0 {
        lemma_fundamental_div_mod_converse(align_up(v), CELL as int, q + 1, 0);
    }
}

} // verus!
