//! Relative states and the two-body orbits defined by them.
use vstd::prelude::*;

use crate::math::{diff_fits, sum_fits, vec_add, vec_sub, Mass, Time, Vector};

verus! {

/// A relative state: position and velocity measured from the origin of one frame.
#[derive(Debug, Clone, Copy, PartialEq, Eq, Structural)]
pub struct Eci {
    pub position: Vector,
    pub velocity: Vector,
}

/// Whether `a + b` is representable in both position and velocity.
pub open spec fn eci_sum_fits(a: Eci, b: Eci) -> bool {
    sum_fits(a.position, b.position) && sum_fits(a.velocity, b.velocity)
}

/// Whether `a - b` is representable in both position and velocity.
pub open spec fn eci_diff_fits(a: Eci, b: Eci) -> bool {
    diff_fits(a.position, b.position) && diff_fits(a.velocity, b.velocity)
}

/// The state `b` placed on top of the state `a` (a frame's own state plus a state in it).
pub open spec fn eci_add(a: Eci, b: Eci) -> Eci {
    Eci { position: vec_add(a.position, b.position), velocity: vec_add(a.velocity, b.velocity) }
}

/// The state `a` seen from a frame whose own state is `b`.
pub open spec fn eci_sub(a: Eci, b: Eci) -> Eci {
    Eci { position: vec_sub(a.position, b.position), velocity: vec_sub(a.velocity, b.velocity) }
}

impl Eci {
    pub fn new(position: Vector, velocity: Vector) -> (r: Eci)
        ensures
            r.position == position,
            r.velocity == velocity,
    {
        Eci { position, velocity }
    }

    pub fn position(&self) -> (r: Vector)
        ensures
            r == self.position,
    {
        self.position
    }

    pub fn velocity(&self) -> (r: Vector)
        ensures
            r == self.velocity,
    {
        self.velocity
    }

    /// The same position with another velocity.
    pub fn with_velocity(&self, velocity: Vector) -> (r: Eci)
        ensures
            r.position == self.position,
            r.velocity == velocity,
    {
        Eci { position: self.position, velocity }
    }

    /// `self` minus `other`, or `None` where a component leaves the range of `i64`.
    pub fn checked_sub(&self, other: &Eci) -> (r: Option<Eci>)
        ensures
            r is Some <==> eci_diff_fits(*self, *other),
            r is Some ==> r.unwrap() == eci_sub(*self, *other),
    {
        match (self.position.checked_minus(other.position), self.velocity.checked_minus(other.velocity)) {
            (Some(p), Some(v)) => Some(Eci { position: p, velocity: v }),
            _ => None,
        }
    }

    /// `self` plus `other`, or `None` where a component leaves the range of `i64`.
    pub fn checked_add(&self, other: &Eci) -> (r: Option<Eci>)
        ensures
            r is Some <==> eci_sum_fits(*self, *other),
            r is Some ==> r.unwrap() == eci_add(*self, *other),
    {
        match (self.position.checked_plus(other.position), self.velocity.checked_plus(other.velocity)) {
            (Some(p), Some(v)) => Some(Eci { position: p, velocity: v }),
            _ => None,
        }
    }
}

/// A Keplerian two-body orbit, held as the data that determine it: the mass of
/// the primary, and the orbiter's state relative to the primary at one instant
/// (the epoch). Every later or earlier state follows from these in closed form.
#[derive(Debug, Clone, Copy, PartialEq, Eq, Structural)]
pub struct Orbit {
    primary_mass: Mass,
    epoch: Time,
    state: Eci,
}

impl Orbit {
    pub closed spec fn spec_mass(self) -> Mass {
        self.primary_mass
    }

    pub closed spec fn spec_epoch(self) -> Time {
        self.epoch
    }

    pub closed spec fn spec_state(self) -> Eci {
        self.state
    }

    /// The orbit of a body of negligible mass about a primary of mass `mass`,
    /// whose relative state at time `epoch` is `eci`.
    pub fn from_mpv(mass: Mass, epoch: Time, eci: Eci) -> (r: Orbit)
        ensures
            r.spec_mass() == mass,
            r.spec_epoch() == epoch,
            r.spec_state() == eci,
    {
        Orbit { primary_mass: mass, epoch, state: eci }
    }

    /// The mass of the primary.
    pub fn primary_mass(&self) -> (r: Mass)
        ensures
            r == self.spec_mass(),
    {
        self.primary_mass
    }

    /// The instant at which the defining state was taken.
    pub fn epoch(&self) -> (r: Time)
        ensures
            r == self.spec_epoch(),
    {
        self.epoch
    }

    /// The relative state at the epoch.
    pub fn epoch_state(&self) -> (r: Eci)
        ensures
            r == self.spec_state(),
    {
        self.state
    }
}

} // verus!
