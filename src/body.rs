//! Body identities, the two kinds of body, and conversions between a field's
//! frame and the frame of its parent.
use vstd::prelude::*;

use crate::math::{Length, Mass};
use crate::orbit::{eci_add, eci_diff_fits, eci_sub, eci_sum_fits, Eci, Orbit};

verus! {

/// The identity of a body, unique within one system and never reused.
#[derive(Debug, Clone, Copy, PartialEq, Eq, Structural, Hash)]
pub struct BodyId(pub u32);

/// The identity of a large body: one that owns a gravitational field.
#[derive(Debug, Clone, Copy, PartialEq, Eq, Structural, Hash)]
pub struct LargeBodyId(pub BodyId);

/// The identity of a small body: a leaf orbiter without a field.
#[derive(Debug, Clone, Copy, PartialEq, Eq, Structural, Hash)]
pub struct SmallBodyId(pub BodyId);

/// The large-body identity with index `i`.
pub open spec fn lid(i: int) -> LargeBodyId {
    LargeBodyId(BodyId(i as u32))
}

/// The small-body identity with index `i`.
pub open spec fn sid(i: int) -> SmallBodyId {
    SmallBodyId(BodyId(i as u32))
}

impl LargeBodyId {
    /// The untyped identity.
    pub fn body_id(self) -> (r: BodyId)
        ensures
            r == self.0,
    {
        self.0
    }
}

impl SmallBodyId {
    /// The untyped identity.
    pub fn body_id(self) -> (r: BodyId)
        ensures
            r == self.0,
    {
        self.0
    }
}

/// A body that owns a gravitational field (its sphere of influence).
///
/// Its children are listed by identity; the bodies themselves live in the
/// tree that holds this body.
#[derive(Debug, Clone)]
pub struct LargeBody {
    pub id: LargeBodyId,
    /// The large bodies directly inside this field.
    pub large: Vec<LargeBodyId>,
    /// The small bodies directly inside this field.
    pub small: Vec<SmallBodyId>,
    pub surface_radius: Length,
    pub grav_radius: Length,
    pub mass: Mass,
    /// The orbit about the parent field; absent only on the root.
    pub orbit: Option<Orbit>,
}

/// A leaf orbiter: it has no field of its own and always orbits a parent field.
#[derive(Debug, Clone, Copy)]
pub struct SmallBody {
    pub id: SmallBodyId,
    pub mass: Mass,
    pub radius: Length,
    pub orbit: Orbit,
}

/// A body of either kind.
#[derive(Debug, Clone)]
pub enum Body {
    Large(LargeBody),
    Small(SmallBody),
}

/// A shared view of a body of either kind.
#[derive(Debug, Clone, Copy)]
pub enum BodyRef<'t> {
    Large(&'t LargeBody),
    Small(&'t SmallBody),
}

impl Body {
    /// The identity of the body, whatever its kind.
    pub open spec fn spec_id(self) -> BodyId {
        match self {
            Body::Large(b) => b.id.0,
            Body::Small(b) => b.id.0,
        }
    }

    pub fn unwrap_large(self) -> (r: LargeBody)
        requires
            self is Large,
        ensures
            r == self->Large_0,
    {
        match self {
            Body::Large(body) => body,
            Body::Small(_) => unreached(),
        }
    }

    pub fn unwrap_small(self) -> (r: SmallBody)
        requires
            self is Small,
        ensures
            r == self->Small_0,
    {
        match self {
            Body::Small(body) => body,
            Body::Large(_) => unreached(),
        }
    }
}

impl<'t> BodyRef<'t> {
    pub fn borrow_large(self) -> (r: &'t LargeBody)
        requires
            self is Large,
        ensures
            *r == *(self->Large_0),
    {
        match self {
            BodyRef::Large(body) => body,
            BodyRef::Small(_) => unreached(),
        }
    }

    pub fn borrow_small(self) -> (r: &'t SmallBody)
        requires
            self is Small,
        ensures
            *r == *(self->Small_0),
    {
        match self {
            BodyRef::Small(body) => body,
            BodyRef::Large(_) => unreached(),
        }
    }
}

impl LargeBody {
    /// Converts a relative state expressed in this body's parent frame into
    /// this body's own frame. `own` is this body's state in the parent frame
    /// at the instant of the conversion.
    pub fn from_eci_in_parent(&self, own: &Eci, eci_in_parent: &Eci) -> (r: Eci)
        requires
            self.orbit is Some,
            eci_diff_fits(*eci_in_parent, *own),
        ensures
            r == eci_sub(*eci_in_parent, *own),
    {
        Eci::new(
            eci_in_parent.position.minus(own.position),
            eci_in_parent.velocity.minus(own.velocity),
        )
    }

    /// Converts a relative state expressed in this body's own frame into its
    /// parent frame; the inverse of `from_eci_in_parent`.
    pub fn to_eci_in_parent(&self, own: &Eci, eci_in_self: &Eci) -> (r: Eci)
        requires
            self.orbit is Some,
            eci_sum_fits(*own, *eci_in_self),
        ensures
            r == eci_add(*own, *eci_in_self),
    {
        Eci::new(own.position.plus(eci_in_self.position), own.velocity.plus(eci_in_self.velocity))
    }
}

/// Converting a state into a field's frame and back to the parent frame gives
/// the state unchanged, whatever the field's own state.
pub proof fn lemma_frame_round_trip(own: Eci, x: Eci)
    requires
        eci_diff_fits(x, own),
    ensures
        eci_sum_fits(own, eci_sub(x, own)),
        eci_add(own, eci_sub(x, own)) == x,
{
}

/// Converting a state out to the parent frame and back into the field's frame
/// gives the state unchanged.
pub proof fn lemma_frame_round_trip_outward(own: Eci, x: Eci)
    requires
        eci_sum_fits(own, x),
    ensures
        eci_diff_fits(eci_add(own, x), own),
        eci_sub(eci_add(own, x), own) == x,
{
}

/// The description of one field and the fields nested in it, from which a
/// system is built.
#[derive(Debug)]
pub struct LargeBodySchema {
    pub surface_radius: Length,
    pub grav_radius: Length,
    pub mass: Mass,
    /// The state relative to the parent field; required on every field but the root.
    pub eci: Option<Eci>,
    pub children: Vec<LargeBodySchema>,
}

} // verus!
