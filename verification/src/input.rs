//! Abstract input events, as an input collaborator hands them to the core.
use vstd::prelude::*;

use crate::movement::Directions;

verus! {

/// A directional command from the player.
#[derive(PartialEq, Eq, Structural, Clone, Copy, Debug)]
pub enum InputDirectionEvent {
    Up,
    Down,
    Left,
    Right,
}

/// A request to toggle the run/pause state.
#[derive(PartialEq, Eq, Structural, Clone, Copy, Debug)]
pub enum GameStateChangeEvent {
    Toggle,
}

/// The travel direction a directional command asks for.
pub open spec fn direction_of_event(e: InputDirectionEvent) -> Directions {
    match e {
        InputDirectionEvent::Up => Directions::Up,
        InputDirectionEvent::Down => Directions::Down,
        InputDirectionEvent::Left => Directions::Left,
        InputDirectionEvent::Right => Directions::Right,
    }
}

} // verus!
