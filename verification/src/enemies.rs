//! Enemy spawn descriptors, the seeded random source, and the randomized
//! enemy steering policy: at a grid-aligned point an enemy picks uniformly
//! among the open, non-reversing neighbor cells, reversing only in a dead
//! end.
use rand::Rng;
use rand::SeedableRng;
use vstd::prelude::*;

use crate::board::Board;
use crate::board::CellType;
use crate::movement::blocked_at;
use crate::movement::direction_order;
use crate::movement::in_range;
use crate::movement::is_blocked;
use crate::movement::lemma_in_range_bounded;
use crate::movement::lemma_step_stays_in_range;
use crate::movement::lemma_target_cell;
use crate::movement::opposite;
use crate::movement::step_toward;
use crate::movement::update_position;
use crate::movement::wrap_around;
use crate::movement::wrap_spec;
use crate::movement::Direction;
use crate::movement::Directions;
use crate::movement::MovableObject;
use crate::movement::Position;

verus! {

/// The steering brain an enemy uses; only random roaming exists.
#[derive(PartialEq, Eq, Structural, Clone, Copy, Debug)]
pub enum EnemyAI {
    Random,
}

/// An enemy spawn descriptor, recorded while parsing the maze layout.
#[derive(PartialEq, Eq, Structural, Clone, Copy, Debug)]
pub struct Enemy {
    pub start_position: Position,
    pub enemy_ai: EnemyAI,
}

impl Enemy {
    pub fn new(start_position: Position, _enemy_ai: EnemyAI) -> (e: Enemy)
        ensures
            e == (Enemy { start_position, enemy_ai: EnemyAI::Random }),
    {
        Enemy { start_position, enemy_ai: EnemyAI::Random }
    }
}

#[verifier::external_type_specification]
#[verifier::external_body]
pub struct ExStdRng(rand::rngs::StdRng);

/// A seeded pseudo-random source owned by one enemy, so that every tick is
/// reproducible under a fixed seed.
pub struct EnemyRng {
    inner: rand::rngs::StdRng,
}

impl EnemyRng {
    /// Relies on rand's `StdRng::seed_from_u64`: builds a generator from a
    /// seed, deterministically.
    #[verifier::external_body]
    pub fn from_seed(seed: u64) -> EnemyRng {
        EnemyRng { inner: rand::rngs::StdRng::seed_from_u64(seed) }
    }

    /// Relies on rand's `Rng::gen_range` over `0..n`: returns a value of
    /// that range, and panics only on an empty range, which the
    /// precondition rules out.
    #[verifier::external_body]
    pub fn next_index(&mut self, n: usize) -> (r: usize)
        requires
            n > 0,
        ensures
            r < n,
    {
        self.inner.gen_range(0..n)
    }
}

/// Whether the neighbor cell in direction `d` is open for an enemy: neither
/// a wall nor outside the maze.
pub open spec fn open_neighbor(pos: Position, d: Directions, board: Board) -> bool {
    let t = pos.target_cell_spec(d);
    let c = board.classify(t.x as int, t.y as int);
    !(c is Wall) && !(c is Outside)
}

/// The open neighbors that do not reverse the current heading, in scan
/// order.
pub open spec fn open_non_reverse(pos: Position, dir: Direction, board: Board) -> Seq<
    Directions,
> {
    let s0 = Seq::<Directions>::empty();
    let s1 = if open_neighbor(pos, Directions::Up, board) && Directions::Up != opposite(
        dir.current,
    ) {
        s0.push(Directions::Up)
    } else {
        s0
    };
    let s2 = if open_neighbor(pos, Directions::Right, board) && Directions::Right != opposite(
        dir.current,
    ) {
        s1.push(Directions::Right)
    } else {
        s1
    };
    let s3 = if open_neighbor(pos, Directions::Down, board) && Directions::Down != opposite(
        dir.current,
    ) {
        s2.push(Directions::Down)
    } else {
        s2
    };
    if open_neighbor(pos, Directions::Left, board) && Directions::Left != opposite(dir.current) {
        s3.push(Directions::Left)
    } else {
        s3
    }
}

/// All open neighbors, in scan order.
pub open spec fn open_dirs(pos: Position, board: Board) -> Seq<Directions> {
    let s0 = Seq::<Directions>::empty();
    let s1 = if open_neighbor(pos, Directions::Up, board) {
        s0.push(Directions::Up)
    } else {
        s0
    };
    let s2 = if open_neighbor(pos, Directions::Right, board) {
        s1.push(Directions::Right)
    } else {
        s1
    };
    let s3 = if open_neighbor(pos, Directions::Down, board) {
        s2.push(Directions::Down)
    } else {
        s2
    };
    if open_neighbor(pos, Directions::Left, board) {
        s3.push(Directions::Left)
    } else {
        s3
    }
}

/// The directions an enemy chooses among: the open non-reversing neighbors,
/// or — in a dead end, where none exist — the open neighbors themselves, so
/// that reversal is the only remaining option.
pub open spec fn enemy_candidates(pos: Position, dir: Direction, board: Board) -> Seq<
    Directions,
> {
    let primary = open_non_reverse(pos, dir, board);
    if primary.len() > 0 {
        primary
    } else {
        open_dirs(pos, board)
    }
}

/// Whether the neighbor cell in direction `d` is open; see `open_neighbor`.
fn open_neighbor_exec(pos: &Position, d: Directions, board: &Board) -> (r: bool)
    requires
        board.wf(),
        in_range(*pos, *board),
    ensures
        r == open_neighbor(*pos, d, *board),
{
    proof {
        lemma_in_range_bounded(*pos, *board);
        lemma_target_cell(*pos, d);
    }
    let t = pos.get_target_cell(d);
    let c = board.get_cell(t.x, t.y);
    !matches!(c, CellType::Wall(_)) && !matches!(c, CellType::Outside)
}

/// The enemy's candidate directions; see `enemy_candidates`.
pub fn enemy_candidates_exec(pos: &Position, dir: &Direction, board: &Board) -> (v: Vec<
    Directions,
>)
    requires
        board.wf(),
        in_range(*pos, *board),
    ensures
        v@ == enemy_candidates(*pos, *dir, *board),
{
    let mut primary: Vec<Directions> = Vec::new();
    let mut all_open: Vec<Directions> = Vec::new();
    let dirs = Directions::iterator();
    let mut k: usize = 0;
    while k < 4
        invariant
            k <= 4,
            board.wf(),
            in_range(*pos, *board),
            dirs@ == direction_order(),
            ({
                let s = direction_order().take(k as int);
                &&& all_open@ == s.filter(|d: Directions| open_neighbor(*pos, d, *board))
                &&& primary@ == s.filter(
                    |d: Directions| open_neighbor(*pos, d, *board) && d != opposite(dir.current),
                )
            }),
        decreases 4 - k,
    {
        let d = dirs[k];
        let ghost s = direction_order().take(k as int);
        let ghost s1 = direction_order().take(k as int + 1);
        proof {
            assert(s1.drop_last() =~= s);
            assert(s1.last() == d);
            reveal_with_fuel(Seq::filter, 2);
        }
        let open = open_neighbor_exec(pos, d, board);
        if open {
            all_open.push(d);
        }
        if open && !dir.is_opposite(d) {
            primary.push(d);
        }
        k = k + 1;
    }
    proof {
        assert(direction_order().take(4) =~= direction_order());
        lemma_filter_chains(*pos, *dir, *board);
    }
    if primary.len() > 0 {
        primary
    } else {
        all_open
    }
}

/// The push-chain forms of the candidate sets equal the filtered direction
/// order.
proof fn lemma_filter_chains(pos: Position, dir: Direction, board: Board)
    ensures
        direction_order().filter(|d: Directions| open_neighbor(pos, d, board)) == open_dirs(
            pos,
            board,
        ),
        direction_order().filter(
            |d: Directions| open_neighbor(pos, d, board) && d != opposite(dir.current),
        ) == open_non_reverse(pos, dir, board),
{
    reveal_with_fuel(Seq::filter, 5);
    assert(direction_order().drop_last() =~= seq![Directions::Up, Directions::Right, Directions::Down]);
    assert(direction_order().drop_last().drop_last() =~= seq![Directions::Up, Directions::Right]);
    assert(direction_order().drop_last().drop_last().drop_last() =~= seq![Directions::Up]);
    assert(direction_order().drop_last().drop_last().drop_last().drop_last() =~= Seq::<
        Directions,
    >::empty());
    assert(direction_order().filter(|d: Directions| open_neighbor(pos, d, board)) =~= open_dirs(
        pos,
        board,
    ));
    assert(direction_order().filter(
        |d: Directions| open_neighbor(pos, d, board) && d != opposite(dir.current),
    ) =~= open_non_reverse(pos, dir, board));
}

/// Membership in a pushed sequence: the pushed element, or an element the
/// sequence already held.
proof fn lemma_push_contains<A>(s: Seq<A>, x: A, y: A)
    ensures
        s.push(x).contains(y) <==> (s.contains(y) || y == x),
{
    if s.contains(y) {
        let i = choose|i: int| 0 <= i < s.len() && s[i] == y;
        assert(s.push(x)[i] == y);
    }
    assert(s.push(x)[s.len() as int] == x);
    if s.push(x).contains(y) {
        let i = choose|i: int| 0 <= i < s.push(x).len() && s.push(x)[i] == y;
        if i < s.len() {
            assert(s[i] == y);
        }
    }
}

/// What the candidate set holds: with any open non-reversing neighbor
/// present, exactly the open non-reversing neighbors; in a dead end,
/// exactly the open neighbors.
pub proof fn lemma_candidates_characterized(pos: Position, dir: Direction, board: Board)
    ensures
        forall|d: Directions|
            open_non_reverse(pos, dir, board).contains(d) <==> (open_neighbor(pos, d, board) && d
                != opposite(dir.current)),
        forall|d: Directions| open_dirs(pos, board).contains(d) <==> open_neighbor(pos, d, board),
{
    assert forall|d: Directions|
        open_non_reverse(pos, dir, board).contains(d) <==> (open_neighbor(pos, d, board) && d
            != opposite(dir.current)) by {
        let p = |d2: Directions| open_neighbor(pos, d2, board) && d2 != opposite(dir.current);
        let s0 = Seq::<Directions>::empty();
        let s1 = if p(Directions::Up) {
            s0.push(Directions::Up)
        } else {
            s0
        };
        let s2 = if p(Directions::Right) {
            s1.push(Directions::Right)
        } else {
            s1
        };
        let s3 = if p(Directions::Down) {
            s2.push(Directions::Down)
        } else {
            s2
        };
        if p(Directions::Up) {
            lemma_push_contains(s0, Directions::Up, d);
        }
        if p(Directions::Right) {
            lemma_push_contains(s1, Directions::Right, d);
        }
        if p(Directions::Down) {
            lemma_push_contains(s2, Directions::Down, d);
        }
        if p(Directions::Left) {
            lemma_push_contains(s3, Directions::Left, d);
        }
        assert(!s0.contains(d));
        assert(d is Up || d is Right || d is Down || d is Left);
    }
    assert forall|d: Directions|
        open_dirs(pos, board).contains(d) <==> open_neighbor(pos, d, board) by {
        let p = |d2: Directions| open_neighbor(pos, d2, board);
        let s0 = Seq::<Directions>::empty();
        let s1 = if p(Directions::Up) {
            s0.push(Directions::Up)
        } else {
            s0
        };
        let s2 = if p(Directions::Right) {
            s1.push(Directions::Right)
        } else {
            s1
        };
        let s3 = if p(Directions::Down) {
            s2.push(Directions::Down)
        } else {
            s2
        };
        if p(Directions::Up) {
            lemma_push_contains(s0, Directions::Up, d);
        }
        if p(Directions::Right) {
            lemma_push_contains(s1, Directions::Right, d);
        }
        if p(Directions::Down) {
            lemma_push_contains(s2, Directions::Down, d);
        }
        if p(Directions::Left) {
            lemma_push_contains(s3, Directions::Left, d);
        }
        assert(!s0.contains(d));
        assert(d is Up || d is Right || d is Down || d is Left);
    }
}

/// Enemy steering never selects the reverse of the current heading unless
/// the reverse is the only open neighbor: a candidate that reverses means
/// a dead end, where no other direction is open.
pub proof fn lemma_enemy_never_reverses(pos: Position, dir: Direction, board: Board)
    requires
        enemy_candidates(pos, dir, board).contains(opposite(dir.current)),
    ensures
        forall|d: Directions| d != opposite(dir.current) ==> !open_neighbor(pos, d, board),
{
    lemma_candidates_characterized(pos, dir, board);
    assert(open_non_reverse(pos, dir, board).len() == 0) by {
        if open_non_reverse(pos, dir, board).len() > 0 {
            assert(!open_non_reverse(pos, dir, board).contains(opposite(dir.current)));
        }
    }
    assert forall|d: Directions|
        d != opposite(dir.current) implies !open_neighbor(pos, d, board) by {
        if open_neighbor(pos, d, board) {
            assert(open_non_reverse(pos, dir, board).contains(d));
        }
    }
}

/// Every candidate direction leads to an open neighbor cell — never into a
/// wall and never outside the maze.
pub proof fn lemma_candidates_open(pos: Position, dir: Direction, board: Board)
    ensures
        forall|d: Directions|
            enemy_candidates(pos, dir, board).contains(d) ==> open_neighbor(pos, d, board),
{
    lemma_candidates_characterized(pos, dir, board);
}

/// With exactly one open non-reversing neighbor, enemy steering is
/// deterministic: any chosen candidate is that neighbor.
pub proof fn lemma_single_candidate_deterministic(
    pos: Position,
    dir: Direction,
    board: Board,
    chosen: Directions,
)
    requires
        open_non_reverse(pos, dir, board).len() == 1,
        enemy_candidates(pos, dir, board).contains(chosen),
    ensures
        chosen == open_non_reverse(pos, dir, board)[0],
{
    let i = choose|i: int|
        0 <= i < open_non_reverse(pos, dir, board).len() && open_non_reverse(pos, dir, board)[i]
            == chosen;
    assert(i == 0);
}

/// A runtime enemy: its brain together with its owned random source.
pub struct EnemyAgent {
    pub enemy_ai: EnemyAI,
    pub rng: EnemyRng,
}

impl EnemyAgent {
    pub fn new(enemy_ai: EnemyAI, seed: u64) -> (a: EnemyAgent)
        ensures
            a.enemy_ai == enemy_ai,
    {
        EnemyAgent { enemy_ai, rng: EnemyRng::from_seed(seed) }
    }
}

impl MovableObject for EnemyAgent {
    /// Enemy steering keeps the buffered direction and the brain, never
    /// invents a direction outside the candidate set, and stands still only
    /// when the enemy is fully walled in.
    open spec fn steer_ok(
        pre: EnemyAgent,
        post: EnemyAgent,
        pos: Position,
        pre_dir: Direction,
        post_dir: Direction,
        board: Board,
    ) -> bool {
        let cands = enemy_candidates(pos, pre_dir, board);
        &&& post.enemy_ai == pre.enemy_ai
        &&& post_dir.next == pre_dir.next
        &&& (cands.len() == 0 ==> post_dir == pre_dir)
        &&& (cands.len() > 0 ==> cands.contains(post_dir.current))
    }

    fn update_direction(&mut self, pos: &Position, dir: &mut Direction, board: &Board) {
        match self.enemy_ai {
            EnemyAI::Random => {
                let cands = enemy_candidates_exec(pos, dir, board);
                if cands.len() > 0 {
                    let idx = self.rng.next_index(cands.len());
                    dir.current = cands[idx];
                }
            },
        }
    }
}

/// An enemy as it lives in the world: its spawn descriptor, its brain with
/// the owned random source, and its motion state.
pub struct EnemyEntity {
    pub enemy: Enemy,
    pub agent: EnemyAgent,
    pub position: Position,
    pub velocity: crate::movement::Velocity,
    pub dir: Direction,
    pub collider: crate::collision::Collider,
}

/// One steering decision as the resolver makes it: at a grid-aligned point
/// the heading is re-decided — the buffered direction is kept, the travel
/// direction comes from the candidate set, and a walled-in enemy stands
/// pat; away from alignment the heading is kept as it is.
pub open spec fn enemy_steer_ok(pos: Position, d0: Direction, dc: Direction, board: Board) -> bool {
    if pos.aligned() {
        &&& dc.next == d0.next
        &&& (enemy_candidates(pos, d0, board).len() == 0 ==> dc == d0)
        &&& (enemy_candidates(pos, d0, board).len() > 0 ==> enemy_candidates(
            pos,
            d0,
            board,
        ).contains(dc.current))
    } else {
        dc == d0
    }
}

/// The enemy's trajectory relation for one tick: `(p1, d1)` is a state the
/// resolver can reach from `(p0, d0)` with `budget` subcell units of
/// travel. Each step picks some heading the steering policy allows
/// (existential, since the draw is random), then either stops at a blocked
/// target or advances toward it and wraps, exactly as the player's model
/// does — so a resolver that stands still with budget and an open path
/// does not satisfy it, whatever the draws.
pub open spec fn enemy_move_ok(
    p0: Position,
    d0: Direction,
    p1: Position,
    d1: Direction,
    board: Board,
    budget: int,
) -> bool
    decreases budget,
    when board.wf() && in_range(p0, board)
    via enemy_move_ok_dec
{
    if budget <= 0 {
        p1 == p0 && d1 == d0
    } else {
        exists|dc: Direction|
            #![trigger enemy_steer_ok(p0, d0, dc, board)]
            {
                &&& enemy_steer_ok(p0, d0, dc, board)
                &&& ({
                    let t = p0.target_cell_spec(dc.current);
                    if blocked_at(board, t) {
                        p1 == p0 && d1 == dc
                    } else {
                        let (q, rem) = step_toward(p0, t, budget);
                        let q2 = wrap_spec(q, board.spec_columns());
                        if rem > 0 {
                            enemy_move_ok(q2, dc, p1, d1, board, rem)
                        } else {
                            p1 == q2 && d1 == dc
                        }
                    }
                })
            }
    }
}

#[via_fn]
proof fn enemy_move_ok_dec(
    p0: Position,
    d0: Direction,
    p1: Position,
    d1: Direction,
    board: Board,
    budget: int,
) {
    if budget > 0 {
        lemma_in_range_bounded(p0, board);
        lemma_target_cell(p0, Directions::Up);
        lemma_target_cell(p0, Directions::Down);
        lemma_target_cell(p0, Directions::Left);
        lemma_target_cell(p0, Directions::Right);
    }
}

/// Build one blocked step of the trajectory relation: steering happened,
/// the target is blocked, the enemy stands.
proof fn lemma_enemy_move_blocked(
    p0: Position,
    d0: Direction,
    dc: Direction,
    board: Board,
    budget: int,
)
    requires
        board.wf(),
        in_range(p0, board),
        budget > 0,
        enemy_steer_ok(p0, d0, dc, board),
        blocked_at(board, p0.target_cell_spec(dc.current)),
    ensures
        enemy_move_ok(p0, d0, p0, dc, board, budget),
{
    assert(enemy_steer_ok(p0, d0, dc, board));
}

/// Build one advancing step of the trajectory relation: steering happened,
/// the target is open, the enemy moves toward it, wraps, and continues
/// with the remaining budget.
proof fn lemma_enemy_move_advance(
    p0: Position,
    d0: Direction,
    dc: Direction,
    p1: Position,
    d1: Direction,
    board: Board,
    budget: int,
)
    requires
        board.wf(),
        in_range(p0, board),
        budget > 0,
        enemy_steer_ok(p0, d0, dc, board),
        !blocked_at(board, p0.target_cell_spec(dc.current)),
        ({
            let t = p0.target_cell_spec(dc.current);
            let (q, rem) = step_toward(p0, t, budget);
            let q2 = wrap_spec(q, board.spec_columns());
            if rem > 0 {
                enemy_move_ok(q2, dc, p1, d1, board, rem)
            } else {
                p1 == q2 && d1 == dc
            }
        }),
    ensures
        enemy_move_ok(p0, d0, p1, d1, board, budget),
{
    assert(enemy_steer_ok(p0, d0, dc, board));
}

/// Advance an enemy by a travel budget of `distance` subcell units: the
/// same resolver loop as the player's, except that the heading is
/// re-decided by the random policy at each grid-aligned point. The whole
/// tick satisfies the trajectory relation `enemy_move_ok` — whichever
/// directions the random source picks, the enemy really advances toward
/// each chosen open target until blocked or spent — and the position stays
/// within the maze's range, the buffered direction and brain are
/// untouched, and an enemy standing unaligned before a wall does not move.
pub fn move_enemy(
    agent: &mut EnemyAgent,
    dir: &mut Direction,
    position: &mut Position,
    board: &Board,
    distance: i64,
)
    requires
        board.wf(),
        in_range(*old(position), *board),
    ensures
        enemy_move_ok(
            *old(position),
            *old(dir),
            *final(position),
            *final(dir),
            *board,
            distance as int,
        ),
        in_range(*final(position), *board),
        final(dir).next == old(dir).next,
        final(agent).enemy_ai == old(agent).enemy_ai,
        (!old(position).aligned() && blocked_at(
            *board,
            old(position).target_cell_spec(old(dir).current),
        )) ==> (*final(position) == *old(position) && *final(dir) == *old(dir)),
{
    let mut budget = distance;
    proof {
        assert forall|pf: Position, df: Direction|
            #[trigger] enemy_move_ok(*position, *dir, pf, df, *board, budget as int) implies
            enemy_move_ok(
            *old(position),
            *old(dir),
            pf,
            df,
            *board,
            distance as int,
        ) by {
            assert(*position == *old(position) && *dir == *old(dir) && budget == distance);
        }
        if budget <= 0 {
            assert(enemy_move_ok(*position, *dir, *position, *dir, *board, budget as int));
        }
    }
    while budget > 0
        invariant_except_break
            forall|pf: Position, df: Direction|
                #[trigger] enemy_move_ok(*position, *dir, pf, df, *board, budget as int)
                    ==> enemy_move_ok(
                    *old(position),
                    *old(dir),
                    pf,
                    df,
                    *board,
                    distance as int,
                ),
        invariant
            board.wf(),
            in_range(*position, *board),
            dir.next == old(dir).next,
            agent.enemy_ai == old(agent).enemy_ai,
            budget <= 0 ==> enemy_move_ok(
                *position,
                *dir,
                *position,
                *dir,
                *board,
                budget as int,
            ),
            (!old(position).aligned() && blocked_at(
                *board,
                old(position).target_cell_spec(old(dir).current),
            )) ==> (*position == *old(position) && *dir == *old(dir)),
        ensures
            enemy_move_ok(
                *old(position),
                *old(dir),
                *position,
                *dir,
                *board,
                distance as int,
            ),
        decreases budget,
    {
        let ghost pre_pos = *position;
        let ghost pre_dir = *dir;
        let ghost pre_budget = budget as int;
        if position.is_grid_aligned() {
            agent.update_direction(position, dir, board);
        }
        proof {
            assert(enemy_steer_ok(pre_pos, pre_dir, *dir, *board));
            lemma_in_range_bounded(*position, *board);
            lemma_target_cell(*position, dir.current);
        }
        let t = position.get_target_cell(dir.current);
        if is_blocked(board, &t) {
            proof {
                lemma_enemy_move_blocked(pre_pos, pre_dir, *dir, *board, pre_budget);
            }
            break ;
        }
        proof {
            lemma_step_stays_in_range(*position, dir.current, *board, budget as int);
        }
        let rem = update_position(position, &t, budget);
        wrap_around(position, board);
        proof {
            assert forall|pf: Position, df: Direction|
                #[trigger] enemy_move_ok(*position, *dir, pf, df, *board, rem as int) implies
                enemy_move_ok(
                *old(position),
                *old(dir),
                pf,
                df,
                *board,
                distance as int,
            ) by {
                if rem == 0 {
                    assert(pf == *position && df == *dir);
                }
                lemma_enemy_move_advance(pre_pos, pre_dir, *dir, pf, df, *board, pre_budget);
            }
            if rem <= 0 {
                assert(enemy_move_ok(*position, *dir, *position, *dir, *board, rem as int));
            }
        }
        budget = rem;
    }
}

} // verus!
