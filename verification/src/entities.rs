//! Entity records: roaming entities to be captured, and units, both
//! controlled and opposing.

use vstd::prelude::*;

use crate::geometry::{in_bounds, spec_in_radius, Coord};
use crate::{INNER_BUSTING_RADIUS, OUTER_BUSTING_RADIUS};

verus! {

/// Behavioral state of a unit.  The last two variants are bookkeeping
/// markers that only ever appear on opposing-unit records: `NotTargetted`
/// marks an opponent no teammate has claimed, `DeathMarked` one already
/// claimed as a stun target this round.
#[derive(Clone, Copy, Debug, PartialEq, Eq, Structural)]
pub enum BusterState {
    Idle,
    Searching,
    MovingToGhost,
    Busting,
    MovingToHome,
    Releasing,
    MovingToAsshole,
    Stunning,
    MovingAwayFromGhost,
    Stunned,
    Camping,
    MovingToCamp,
    NotTargetted,
    DeathMarked,
}

/// A roaming entity: stable identity, position, how many units are
/// currently attempting capture, and its capture resistance.
#[derive(Clone, Copy, Debug, PartialEq, Eq, Structural)]
pub struct Roamer {
    pub entity_id: i32,
    pub coords: Coord,
    pub people_trapping: i32,
    pub stamina: i32,
}

/// Whether the roamer sits in the capture annulus around `buster`: within
/// the outer engagement radius but outside the inner exclusion radius.
pub open spec fn spec_is_bustable(g: Roamer, b: Buster) -> bool {
    spec_in_radius(g.coords, b.coords, OUTER_BUSTING_RADIUS as int) && !spec_in_radius(
        g.coords,
        b.coords,
        INNER_BUSTING_RADIUS as int,
    )
}

/// Whether the roamer is inside the inner exclusion radius around `buster`.
pub open spec fn spec_is_too_close(g: Roamer, b: Buster) -> bool {
    spec_in_radius(g.coords, b.coords, INNER_BUSTING_RADIUS as int)
}

impl Roamer {
    /// A roamer first sighted at `(x, y)`.
    pub fn new(id: i32, x: i32, y: i32, people_trapping: i32, stamina: i32) -> (r: Roamer)
        ensures
            r == (Roamer {
                entity_id: id,
                coords: Coord { x, y },
                people_trapping,
                stamina,
            }),
    {
        Roamer { entity_id: id, coords: Coord::new(x, y), people_trapping, stamina }
    }

    /// Copies the mutable observed fields of `other` into this record,
    /// keeping the identity.
    pub fn transfer_ghost_data(&mut self, other: &Roamer)
        ensures
            *final(self) == (Roamer { entity_id: old(self).entity_id, ..*other }),
    {
        self.coords = Coord::new(other.coords.x, other.coords.y);
        self.people_trapping = other.people_trapping;
        self.stamina = other.stamina;
    }

    /// Whether this roamer sits in the capture annulus around `buster`.
    pub fn is_bustable(&self, buster: &Buster) -> (r: bool)
        requires
            in_bounds(self.coords),
            in_bounds(buster.coords),
        ensures
            r == spec_is_bustable(*self, *buster),
    {
        self.coords.is_in_radius(&buster.coords, OUTER_BUSTING_RADIUS) && !self.coords.is_in_radius(
            &buster.coords,
            INNER_BUSTING_RADIUS,
        )
    }

    /// Whether this roamer is inside the inner exclusion radius around
    /// `buster`.
    pub fn is_too_close(&self, buster: &Buster) -> (r: bool)
        requires
            in_bounds(self.coords),
            in_bounds(buster.coords),
        ensures
            r == spec_is_too_close(*self, *buster),
    {
        self.coords.is_in_radius(&buster.coords, INNER_BUSTING_RADIUS)
    }
}

/// A unit: identity, position, behavioral state, optional identities of its
/// targeted roamer and targeted opposing unit, movement destination,
/// incapacitation cooldown, and the carrying/incapacitated flags.  Targets
/// are held as entity identities into the engine's tracked sets, never as
/// live references.
#[derive(Clone, Copy, Debug, PartialEq, Eq)]
pub struct Buster {
    pub entity_id: i32,
    pub coords: Coord,
    pub state: BusterState,
    pub busting_target_id: Option<i32>,
    pub stunning_target_id: Option<i32>,
    pub movement_target: Coord,
    pub stun_timer: i32,
    pub has_ghost: bool,
    pub is_stunned: bool,
}

/// Whether the unit's incapacitation action is off cooldown.
pub open spec fn spec_can_stun(b: Buster) -> bool {
    b.stun_timer == 0
}

/// Whether `self` is within stun range of `buster`.
pub open spec fn spec_is_stunnable(target: Buster, buster: Buster) -> bool {
    spec_in_radius(target.coords, buster.coords, OUTER_BUSTING_RADIUS as int)
}

impl Buster {
    /// A controlled unit first sighted at `(x, y)`: idle, no targets, full
    /// cooldown available, destination still unset.
    pub fn new(entity_id: i32, x: i32, y: i32, has_ghost: bool, is_stunned: bool) -> (r: Buster)
        ensures
            r == (Buster {
                entity_id,
                coords: Coord { x, y },
                state: BusterState::Idle,
                busting_target_id: None,
                stunning_target_id: None,
                movement_target: Coord { x: -1i32, y: -1i32 },
                stun_timer: 0,
                has_ghost,
                is_stunned,
            }),
    {
        Buster {
            entity_id,
            coords: Coord::new(x, y),
            state: BusterState::Idle,
            busting_target_id: None,
            stunning_target_id: None,
            movement_target: Coord::fake_new(),
            stun_timer: 0,
            has_ghost,
            is_stunned,
        }
    }

    /// An opposing unit first sighted at `(x, y)`: like `new`, but marked
    /// as not yet claimed by any teammate.
    pub fn new_opponent(entity_id: i32, x: i32, y: i32, has_ghost: bool, is_stunned: bool) -> (r:
        Buster)
        ensures
            r == (Buster {
                entity_id,
                coords: Coord { x, y },
                state: BusterState::NotTargetted,
                busting_target_id: None,
                stunning_target_id: None,
                movement_target: Coord { x: -1i32, y: -1i32 },
                stun_timer: 0,
                has_ghost,
                is_stunned,
            }),
    {
        let mut new_opp = Buster::new(entity_id, x, y, has_ghost, is_stunned);
        new_opp.state = BusterState::NotTargetted;
        new_opp
    }

    /// Copies the mutable observed fields of `other` into this record,
    /// keeping identity, behavioral state, targets, destination and
    /// cooldown.
    pub fn transfer_buster_data(&mut self, other: &Buster)
        ensures
            *final(self) == (Buster {
                coords: other.coords,
                has_ghost: other.has_ghost,
                is_stunned: other.is_stunned,
                ..*old(self)
            }),
    {
        self.coords = Coord::new(other.coords.x, other.coords.y);
        self.has_ghost = other.has_ghost;
        self.is_stunned = other.is_stunned;
    }

    /// Advances the incapacitation cooldown by one round.
    pub fn tick(&mut self)
        requires
            old(self).stun_timer >= 0,
        ensures
            *final(self) == (Buster {
                stun_timer: if old(self).stun_timer > 0 {
                    (old(self).stun_timer - 1) as i32
                } else {
                    0
                },
                ..*old(self)
            }),
    {
        if self.stun_timer > 0 {
            self.stun_timer = self.stun_timer - 1;
        }
    }

    /// Whether this unit's incapacitation action is off cooldown.
    pub fn can_stun(&self) -> (r: bool)
        ensures
            r == spec_can_stun(*self),
    {
        self.stun_timer == 0
    }

    /// Whether this unit is within stun range of `buster`.
    pub fn is_stunnable(&self, buster: &Buster) -> (r: bool)
        requires
            in_bounds(self.coords),
            in_bounds(buster.coords),
        ensures
            r == spec_is_stunnable(*self, *buster),
    {
        self.coords.is_in_radius(&buster.coords, OUTER_BUSTING_RADIUS)
    }
}

} // verus!
