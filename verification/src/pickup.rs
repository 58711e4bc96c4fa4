//! Collectible pickups placed on the maze at parse time.
use vstd::prelude::*;

use crate::collision::Collider;
use crate::movement::Position;

verus! {

/// A collectible worth a fixed score when the player reaches it.
#[derive(Clone, Copy)]
pub struct Pickup {
    value: usize,
}

impl Pickup {
    pub closed spec fn spec_value(self) -> usize {
        self.value
    }

    /// The pickup worth `value`, as a specification-level value.
    pub closed spec fn spec_new(value: usize) -> Pickup {
        Pickup { value }
    }

    pub fn new(value: usize) -> (p: Pickup)
        ensures
            p == Pickup::spec_new(value),
            p.spec_value() == value,
    {
        Pickup { value }
    }

    pub fn get_value(&self) -> (v: usize)
        ensures
            v == self.spec_value(),
    {
        self.value
    }
}

/// Marker for a dot pickup.
pub struct Dot;

/// Marker for a power-pill pickup.
pub struct PowerPill;

/// Which glyph a pickup came from.
#[derive(PartialEq, Eq, Structural, Clone, Copy, Debug)]
pub enum PickupKind {
    Dot,
    PowerPill,
}

/// A pickup as it sits in the world: consumed pickups stay in the list with
/// `alive` false, so consumption is idempotent.
#[derive(Clone, Copy)]
pub struct PickupItem {
    pub pickup: Pickup,
    pub kind: PickupKind,
    pub position: Position,
    pub collider: Collider,
    pub alive: bool,
}

} // verus!
