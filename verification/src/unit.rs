//! A single unit's orders and life cycle.
//!
//! Positions are of an opaque type `P` chosen by the embedding engine; the unit only
//! stores and copies them. Motion itself (stepping toward a point, picking a wander
//! point) is the engine's business: each frame the unit tells it which kind of motion
//! to perform.
use vstd::prelude::*;
use crate::team::Team;

verus! {

/// What a unit is doing.
#[derive(Clone, Copy, PartialEq, Eq, Debug, Structural)]
pub enum UnitState {
    /// Heading toward its destination.
    Moving,
    /// Arrived; wandering gently around its drift anchor.
    Drifting,
    /// Chasing a nearby enemy.
    Pursuing,
    /// Destroyed; removed at the next frame.
    Dead,
}

/// The kind of motion a unit performs in one frame.
#[derive(Clone, Copy, PartialEq, Eq, Debug, Structural)]
pub enum TickStep {
    /// The unit is dead: it does not move and is to be removed.
    Died,
    /// The unit has just reached its destination: it is placed there, starts drifting
    /// around it, and its wander timer starts from zero.
    Arrived,
    /// The unit keeps walking toward its destination at marching speed.
    Advance,
    /// The unit wanders around its drift anchor at drifting speed.
    Drift,
    /// The unit closes in on its destination (the pursued enemy) at marching speed.
    Pursue,
}

/// A unit's side, orders and life state.
pub struct Unit<P> {
    pub team: Team,
    pub state: UnitState,
    /// Where the unit was told to go (or the enemy it pursues).
    pub destination: P,
    /// The point it wanders around once it has arrived.
    pub drift_anchor: P,
    /// The wander point it currently heads for.
    pub drift_target: P,
    /// The engine id of a pursued unit, if any.
    pub pursue_target_id: Option<i64>,
    pub dead: bool,
}

impl<P: Copy> Unit<P> {
    /// A fresh neutral unit, drifting, with every point at `origin`.
    pub fn new(origin: P) -> (u: Self)
        ensures
            u.team == Team::Neutral,
            u.state == UnitState::Drifting,
            u.destination == origin,
            u.drift_anchor == origin,
            u.drift_target == origin,
            u.pursue_target_id is None,
            !u.dead,
    {
        Unit {
            team: Team::Neutral,
            state: UnitState::Drifting,
            destination: origin,
            drift_anchor: origin,
            drift_target: origin,
            pursue_target_id: None,
            dead: false,
        }
    }

    /// Puts a newly produced unit on `team`'s side, drifting around `anchor`.
    pub fn station(&mut self, team: Team, anchor: P)
        ensures
            final(self).team == team,
            final(self).state == UnitState::Drifting,
            final(self).drift_anchor == anchor,
            final(self).drift_target == anchor,
            final(self).destination == old(self).destination,
            final(self).pursue_target_id == old(self).pursue_target_id,
            final(self).dead == old(self).dead,
    {
        self.team = team;
        self.state = UnitState::Drifting;
        self.drift_anchor = anchor;
        self.drift_target = anchor;
    }

    /// The unit's part of a frame. `arrived` tells whether a moving unit is within one
    /// frame's march of its destination (it is not read in other states).
    ///
    /// A dead unit stays as it is. A unit in the `Dead` state becomes dead. A moving
    /// unit that has arrived starts drifting around its destination. Nothing else
    /// changes the unit here.
    pub fn tick(&mut self, arrived: bool) -> (step: TickStep)
        ensures
            old(self).dead ==> step == TickStep::Died && *final(self) == *old(self),
            !old(self).dead && old(self).state == UnitState::Dead ==> {
                &&& step == TickStep::Died
                &&& *final(self) == (Unit { dead: true, ..*old(self) })
            },
            !old(self).dead && old(self).state == UnitState::Moving && arrived ==> {
                &&& step == TickStep::Arrived
                &&& *final(self) == (Unit {
                    state: UnitState::Drifting,
                    drift_anchor: old(self).destination,
                    drift_target: old(self).destination,
                    ..*old(self)
                })
            },
            !old(self).dead && old(self).state == UnitState::Moving && !arrived ==> step
                == TickStep::Advance && *final(self) == *old(self),
            !old(self).dead && old(self).state == UnitState::Drifting ==> step == TickStep::Drift
                && *final(self) == *old(self),
            !old(self).dead && old(self).state == UnitState::Pursuing ==> step
                == TickStep::Pursue && *final(self) == *old(self),
    {
        if self.dead {
            return TickStep::Died;
        }
        match self.state {
            UnitState::Moving => {
                if arrived {
                    self.drift_anchor = self.destination;
                    self.drift_target = self.destination;
                    self.state = UnitState::Drifting;
                    TickStep::Arrived
                } else {
                    TickStep::Advance
                }
            },
            UnitState::Drifting => TickStep::Drift,
            UnitState::Pursuing => TickStep::Pursue,
            UnitState::Dead => {
                self.dead = true;
                TickStep::Died
            },
        }
    }

    /// Destroys the unit.
    pub fn die(&mut self)
        ensures
            *final(self) == (Unit { dead: true, state: UnitState::Dead, ..*old(self) }),
    {
        self.dead = true;
        self.state = UnitState::Dead;
    }

    /// Orders the unit to walk to `dest`, dropping any pursuit.
    pub fn send_to(&mut self, dest: P)
        ensures
            *final(self) == (Unit {
                destination: dest,
                state: UnitState::Moving,
                pursue_target_id: None,
                ..*old(self)
            }),
    {
        self.destination = dest;
        self.state = UnitState::Moving;
        self.pursue_target_id = None;
    }

    /// Reacts to the nearest enemy within pursuit range (`target`, if any); `here` is the
    /// unit's current position. A drifting unit starts chasing the target and a pursuing
    /// one follows it; moving and dead units keep their orders. With no enemy in range a
    /// pursuing unit gives up and drifts around where it stands: then the result is true
    /// and its wander timer starts from zero.
    pub fn pursue(&mut self, target: Option<P>, here: P) -> (gave_up: bool)
        ensures
            target is Some && old(self).state == UnitState::Drifting ==> !gave_up
                && *final(self) == (Unit {
                destination: target.unwrap(),
                state: UnitState::Pursuing,
                ..*old(self)
            }),
            target is Some && old(self).state == UnitState::Pursuing ==> !gave_up
                && *final(self) == (Unit { destination: target.unwrap(), ..*old(self) }),
            target is None && old(self).state == UnitState::Pursuing ==> gave_up
                && *final(self) == (Unit {
                drift_anchor: here,
                drift_target: here,
                state: UnitState::Drifting,
                ..*old(self)
            }),
            old(self).state != UnitState::Drifting && old(self).state != UnitState::Pursuing
                ==> !gave_up && *final(self) == *old(self),
            target is None && old(self).state == UnitState::Drifting ==> !gave_up
                && *final(self) == *old(self),
    {
        match target {
            Some(t) => {
                if self.state == UnitState::Drifting {
                    self.destination = t;
                    self.state = UnitState::Pursuing;
                } else if self.state == UnitState::Pursuing {
                    self.destination = t;
                }
                false
            },
            None => {
                if self.state == UnitState::Pursuing {
                    self.drift_anchor = here;
                    self.drift_target = here;
                    self.state = UnitState::Drifting;
                    true
                } else {
                    false
                }
            },
        }
    }

    /// Whether the enemy commander may give this unit new orders: an enemy unit that is
    /// drifting or moving (not pursuing, not dead).
    pub fn awaits_enemy_orders(&self) -> (r: bool)
        ensures
            r == (self.team == Team::Enemy && (self.state == UnitState::Drifting || self.state
                == UnitState::Moving)),
    {
        self.team == Team::Enemy && (self.state == UnitState::Drifting || self.state
            == UnitState::Moving)
    }
}

} // verus!
