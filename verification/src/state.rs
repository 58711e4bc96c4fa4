//! Session-wide game state: the run/pause flag, game events, and the
//! score and life counters.
use vstd::prelude::*;

verus! {

/// Whether the simulation advances on a tick.
#[derive(PartialEq, Eq, Structural, Clone, Copy, Debug)]
pub enum GameState {
    Running,
    Paused,
}

/// An effect raised during a tick or by the input collaborator.
#[derive(PartialEq, Eq, Structural, Clone, Copy, Debug)]
pub enum GameEvent {
    TogglePause,
    PlayerDies,
}

/// Process-wide mutable counters and flags.
#[derive(PartialEq, Eq, Structural, Clone, Copy, Debug)]
pub struct GameGlobals {
    pub score: usize,
    pub show_grid: bool,
    pub is_debug: bool,
    pub lives: i64,
}

/// The other run/pause state.
pub open spec fn toggled(s: GameState) -> GameState {
    match s {
        GameState::Running => GameState::Paused,
        GameState::Paused => GameState::Running,
    }
}

/// One life fewer, clamped at the bottom of the counter's range.
pub open spec fn one_life_lost(l: int) -> int {
    if l - 1 < i64::MIN {
        i64::MIN as int
    } else {
        l - 1
    }
}

/// The run/pause state after a batch of events.
pub open spec fn state_after(events: Seq<GameEvent>, s: GameState) -> GameState
    decreases events.len(),
{
    if events.len() == 0 {
        s
    } else {
        let prev = state_after(events.drop_last(), s);
        match events.last() {
            GameEvent::TogglePause => toggled(prev),
            GameEvent::PlayerDies => prev,
        }
    }
}

/// The life counter after a batch of events.
pub open spec fn lives_after(events: Seq<GameEvent>, l: int) -> int
    decreases events.len(),
{
    if events.len() == 0 {
        l
    } else {
        let prev = lives_after(events.drop_last(), l);
        match events.last() {
            GameEvent::TogglePause => prev,
            GameEvent::PlayerDies => one_life_lost(prev),
        }
    }
}

/// A batch of only `PlayerDies` events leaves the run/pause state alone.
pub proof fn lemma_state_after_deaths(events: Seq<GameEvent>, s: GameState)
    requires
        forall|i: int| 0 <= i < events.len() ==> #[trigger] events[i] is PlayerDies,
    ensures
        state_after(events, s) == s,
    decreases events.len(),
{
    if events.len() > 0 {
        lemma_state_after_deaths(events.drop_last(), s);
    }
}

/// Apply a batch of game events in order: each toggle flips the run/pause
/// state, and each player death costs one life.
pub fn process_game_events(events: &Vec<GameEvent>, state: &mut GameState, globals: &mut GameGlobals)
    ensures
        *final(state) == state_after(events@, *old(state)),
        final(globals).lives == lives_after(events@, old(globals).lives as int),
        final(globals).score == old(globals).score,
        final(globals).show_grid == old(globals).show_grid,
        final(globals).is_debug == old(globals).is_debug,
{
    let mut i: usize = 0;
    while i < events.len()
        invariant
            i <= events@.len(),
            *state == state_after(events@.take(i as int), *old(state)),
            globals.lives == lives_after(events@.take(i as int), old(globals).lives as int),
            globals.score == old(globals).score,
            globals.show_grid == old(globals).show_grid,
            globals.is_debug == old(globals).is_debug,
        decreases events@.len() - i,
    {
        proof {
            assert(events@.take(i as int + 1).drop_last() =~= events@.take(i as int));
            assert(events@.take(i as int + 1).last() == events@[i as int]);
        }
        match events[i] {
            GameEvent::TogglePause => {
                *state = match *state {
                    GameState::Running => GameState::Paused,
                    GameState::Paused => GameState::Running,
                };
            },
            GameEvent::PlayerDies => {
                globals.lives = match globals.lives.checked_sub(1) {
                    Some(l) => l,
                    None => i64::MIN,
                };
            },
        }
        i = i + 1;
    }
    proof {
        assert(events@.take(events@.len() as int) =~= events@);
    }
}

} // verus!
