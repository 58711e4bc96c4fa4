//! Distance-threshold collision and pickup resolution, run once per tick
//! after all entities have moved.
use vstd::prelude::*;

use crate::enemies::EnemyEntity;
use crate::movement::dist;
use crate::movement::Position;
use crate::pickup::PickupItem;
use crate::state::GameEvent;
use crate::state::GameGlobals;

verus! {

/// A collision radius, in subcell units: two entities interact when their
/// Manhattan distance falls below it.
#[derive(PartialEq, Eq, Structural, Clone, Copy, Debug)]
pub struct Collider {
    pub distance: i64,
}

impl Collider {
    pub fn new(distance: i64) -> (c: Collider)
        ensures
            c == (Collider { distance }),
    {
        Collider { distance }
    }
}

/// Whether the player at `player` consumes the pickup this tick: it is
/// still live and within its pickup radius.
pub open spec fn pickup_hit(player: Position, it: PickupItem) -> bool {
    it.alive && dist(player, it.position) < it.collider.distance
}

/// The pickup after resolution: consumed exactly when its trigger fires.
pub open spec fn pickup_after(player: Position, it: PickupItem) -> PickupItem {
    if pickup_hit(player, it) {
        PickupItem {
            pickup: it.pickup,
            kind: it.kind,
            position: it.position,
            collider: it.collider,
            alive: false,
        }
    } else {
        it
    }
}

/// All pickups after resolution, each judged independently.
pub open spec fn pickups_after(player: Position, items: Seq<PickupItem>) -> Seq<PickupItem> {
    Seq::new(items.len(), |i: int| pickup_after(player, items[i]))
}

/// A score increased by `v`, clamped at the top of the counter's range.
pub open spec fn score_bumped(s: int, v: int) -> int {
    if s + v > usize::MAX {
        usize::MAX as int
    } else {
        s + v
    }
}

/// The score after resolving every pickup in order.
pub open spec fn score_after(player: Position, items: Seq<PickupItem>, s0: int) -> int
    decreases items.len(),
{
    if items.len() == 0 {
        s0
    } else {
        let prev = score_after(player, items.drop_last(), s0);
        if pickup_hit(player, items.last()) {
            score_bumped(prev, items.last().pickup.spec_value() as int)
        } else {
            prev
        }
    }
}

/// Whether the enemy touches the player this tick.
pub open spec fn enemy_hit(player: Position, e: EnemyEntity) -> bool {
    dist(player, e.position) < e.collider.distance
}

/// One `PlayerDies` event for every enemy in contact, in order; contact
/// does not remove the enemy.
pub open spec fn death_events(player: Position, enemies: Seq<EnemyEntity>) -> Seq<GameEvent>
    decreases enemies.len(),
{
    if enemies.len() == 0 {
        seq![]
    } else {
        let prev = death_events(player, enemies.drop_last());
        if enemy_hit(player, enemies.last()) {
            prev + seq![GameEvent::PlayerDies]
        } else {
            prev
        }
    }
}

/// A pickup that is already consumed contributes nothing to any later
/// score resolution: the score is the same as if the pickup were not in
/// the world at all.
pub proof fn lemma_dead_pickup_contributes_nothing(
    player: Position,
    items: Seq<PickupItem>,
    s0: int,
    i: int,
)
    requires
        0 <= i < items.len(),
        !items[i].alive,
    ensures
        score_after(player, items, s0) == score_after(player, items.remove(i), s0),
    decreases items.len(),
{
    if i == items.len() - 1 {
        assert(items.remove(i) =~= items.drop_last());
    } else {
        lemma_dead_pickup_contributes_nothing(player, items.drop_last(), s0, i);
        assert(items.remove(i).drop_last() =~= items.drop_last().remove(i));
        assert(items.remove(i).last() == items.last());
    }
}

/// Pickup consumption is at most once: when a pickup's distance trigger
/// fires on one resolution, the pickup is consumed, every later resolution
/// leaves it consumed, and no later resolution applies its score again —
/// the later score is as if the pickup were gone.
pub proof fn lemma_pickup_consumed_at_most_once(
    player1: Position,
    player2: Position,
    items: Seq<PickupItem>,
    s1: int,
    i: int,
)
    requires
        0 <= i < items.len(),
        pickup_hit(player1, items[i]),
    ensures
        ({
            let after1 = pickups_after(player1, items);
            &&& !after1[i].alive
            &&& !pickups_after(player2, after1)[i].alive
            &&& score_after(player2, after1, s1) == score_after(player2, after1.remove(i), s1)
        }),
{
    let after1 = pickups_after(player1, items);
    lemma_dead_pickup_contributes_nothing(player2, after1, s1, i);
}

/// Every event that enemy contact raises is a `PlayerDies`.
pub proof fn lemma_death_events_only_deaths(player: Position, enemies: Seq<EnemyEntity>)
    ensures
        forall|i: int|
            0 <= i < death_events(player, enemies).len() ==> #[trigger] death_events(
                player,
                enemies,
            )[i] is PlayerDies,
    decreases enemies.len(),
{
    if enemies.len() > 0 {
        lemma_death_events_only_deaths(player, enemies.drop_last());
    }
}

/// Resolve pickups and enemy contact against the player's position: every
/// live pickup within its radius is consumed exactly once and adds its
/// value to the score, and every enemy in contact raises one `PlayerDies`
/// event. Each pickup and enemy is judged independently, with no early
/// exit.
pub fn player_collision_detection(
    player_position: &Position,
    pickups: &mut Vec<PickupItem>,
    enemies: &Vec<EnemyEntity>,
    globals: &mut GameGlobals,
) -> (events: Vec<GameEvent>)
    requires
        player_position.bounded(),
        forall|k: int|
            0 <= k < old(pickups)@.len() ==> (#[trigger] old(pickups)@[k]).position.bounded(),
        forall|k: int| 0 <= k < enemies@.len() ==> (#[trigger] enemies@[k]).position.bounded(),
    ensures
        final(pickups)@ == pickups_after(*player_position, old(pickups)@),
        final(globals).score == score_after(
            *player_position,
            old(pickups)@,
            old(globals).score as int,
        ),
        final(globals).lives == old(globals).lives,
        final(globals).show_grid == old(globals).show_grid,
        final(globals).is_debug == old(globals).is_debug,
        events@ == death_events(*player_position, enemies@),
{
    let ghost initial_pickups = pickups@;
    let ghost s0 = old(globals).score as int;
    let mut i: usize = 0;
    while i < pickups.len()
        invariant
            i <= initial_pickups.len(),
            pickups@.len() == initial_pickups.len(),
            player_position.bounded(),
            forall|k: int|
                0 <= k < initial_pickups.len() ==> (
                #[trigger] initial_pickups[k]).position.bounded(),
            forall|k: int|
                0 <= k < i ==> pickups@[k] == pickup_after(
                    *player_position,
                    #[trigger] initial_pickups[k],
                ),
            forall|k: int| i <= k < initial_pickups.len() ==> pickups@[k]
                == #[trigger] initial_pickups[k],
            globals.score == score_after(*player_position, initial_pickups.take(i as int), s0),
            globals.lives == old(globals).lives,
            globals.show_grid == old(globals).show_grid,
            globals.is_debug == old(globals).is_debug,
        decreases pickups@.len() - i,
    {
        proof {
            assert(initial_pickups.take(i as int + 1).drop_last() =~= initial_pickups.take(
                i as int,
            ));
            assert(initial_pickups.take(i as int + 1).last() == initial_pickups[i as int]);
        }
        let item = pickups[i];
        if item.alive {
            let d = player_position.get_distance(&item.position);
            if d < item.collider.distance {
                globals.score = globals.score.saturating_add(item.pickup.get_value());
                let consumed = PickupItem {
                    pickup: item.pickup,
                    kind: item.kind,
                    position: item.position,
                    collider: item.collider,
                    alive: false,
                };
                pickups.set(i, consumed);
            }
        }
        i = i + 1;
    }
    proof {
        assert(initial_pickups.take(initial_pickups.len() as int) =~= initial_pickups);
        assert(pickups@ =~= pickups_after(*player_position, initial_pickups));
    }
    let mut events: Vec<GameEvent> = Vec::new();
    let mut k: usize = 0;
    while k < enemies.len()
        invariant
            k <= enemies@.len(),
            player_position.bounded(),
            forall|t: int| 0 <= t < enemies@.len() ==> (#[trigger] enemies@[t]).position.bounded(),
            events@ == death_events(*player_position, enemies@.take(k as int)),
        decreases enemies@.len() - k,
    {
        proof {
            assert(enemies@.take(k as int + 1).drop_last() =~= enemies@.take(k as int));
            assert(enemies@.take(k as int + 1).last() == enemies@[k as int]);
        }
        let d = player_position.get_distance(&enemies[k].position);
        if d < enemies[k].collider.distance {
            events.push(GameEvent::PlayerDies);
        }
        k = k + 1;
    }
    proof {
        assert(enemies@.take(enemies@.len() as int) =~= enemies@);
    }
    events
}

} // verus!
