//! The system: the body tree, the event queue and the counters that hand out
//! identities, and the state transitions that events cause.
use vstd::prelude::*;

use crate::body::{lid, sid, BodyId, LargeBodyId, LargeBodySchema, SmallBodyId};
use crate::event::{Collision, Event, EventId, EventQueue, EventType, FieldChange};
use crate::math::{Length, Mass, Time, Vector, UNBOUNDED};
use crate::orbit::{eci_add, eci_diff_fits, eci_sub, eci_sum_fits, Eci, Orbit};
use crate::tree::{same_but_children, Tree};

verus! {

broadcast use vstd::std_specs::vec::group_vec_axioms;

/// Why a schema was refused.
#[derive(Debug, Clone, Copy, PartialEq, Eq, Structural)]
pub enum SchemaError {
    /// A field other than the root has no relative state, or a field's
    /// surface radius is not below its field radius.
    Invalid,
    /// The schema describes more bodies than there are identities.
    TooManyBodies,
}

/// Whether a schema node below the root is acceptable on its own.
pub open spec fn node_ok(s: LargeBodySchema) -> bool {
    s.eci is Some && s.surface_radius.0 < s.grav_radius.0
}

/// Whether every node below `s` is acceptable.
pub open spec fn nested_ok(s: LargeBodySchema) -> bool
    decreases s,
{
    forall|i: int|
        0 <= i < s.children@.len() ==> node_ok(#[trigger] s.children@[i]) && nested_ok(
            s.children@[i],
        )
}

/// The number of fields that schema `s` describes, itself included.
pub open spec fn schema_size(s: LargeBodySchema) -> nat
    decreases s, 1int,
{
    1 + forest_size(s.children@, s.children@.len() as int)
}

/// The number of fields that the first `n` schemas of `cs` describe.
pub open spec fn forest_size(cs: Seq<LargeBodySchema>, n: int) -> nat
    decreases cs, n,
{
    if n <= 0 || n > cs.len() {
        0
    } else {
        forest_size(cs, n - 1) + schema_size(cs[n - 1])
    }
}

proof fn lemma_forest_size_grows(cs: Seq<LargeBodySchema>, i: int, n: int)
    requires
        0 <= i <= n <= cs.len(),
    ensures
        forest_size(cs, i) <= forest_size(cs, n),
    decreases n - i,
{
    if i < n {
        lemma_forest_size_grows(cs, i, n - 1);
    }
}

/// Whether every node below `s` carries a relative state.
pub open spec fn states_present(s: LargeBodySchema) -> bool
    decreases s,
{
    forall|i: int|
        0 <= i < s.children@.len() ==> (#[trigger] s.children@[i]).eci is Some && states_present(
            s.children@[i],
        )
}

/// Whether every node below `s` carries a relative state; a schema without
/// this is not one that a system can be built from.
pub fn schema_states_present(s: &LargeBodySchema) -> (r: bool)
    ensures
        r == states_present(*s),
    decreases s,
{
    let mut i: usize = 0;
    while i < s.children.len()
        invariant
            i <= s.children@.len(),
            forall|j: int| 0 <= j < i ==> (#[trigger] s.children@[j]).eci is Some && states_present(s.children@[j]),
        decreases s.children@.len() - i,
    {
        let c = &s.children[i];
        proof {
            assert(decreases_to!(s => s.children@[i as int]));
        }
        if c.eci.is_none() || !schema_states_present(c) {
            return false;
        }
        i = i + 1;
    }
    true
}

/// Field `id` of `t` holds the data of schema node `s`, and orbits a primary
/// of mass `m` from the node's relative state at time 0.
pub open spec fn field_built(t: Tree, s: LargeBodySchema, id: int, m: Mass) -> bool {
    &&& t.is_large(id)
    &&& t.large_at(id).surface_radius == s.surface_radius
    &&& t.large_at(id).grav_radius == s.grav_radius
    &&& t.large_at(id).mass == s.mass
    &&& t.large_at(id).orbit is Some
    &&& t.large_at(id).orbit->Some_0.spec_mass() == m
    &&& t.large_at(id).orbit->Some_0.spec_epoch() == Time(0)
    &&& t.large_at(id).orbit->Some_0.spec_state() == s.eci->Some_0
}

/// Below field `id` of `t` stand exactly the fields that `s` nests, with
/// identities in pre-order, and no small bodies.
pub open spec fn subtree_built(t: Tree, s: LargeBodySchema, id: int) -> bool
    decreases s,
{
    &&& t.is_large(id)
    &&& t.large_at(id).small@.len() == 0
    &&& t.large_at(id).large@.len() == s.children@.len()
    &&& forall|j: int|
        0 <= j < s.children@.len() ==> {
            let c = id + 1 + forest_size(s.children@, j);
            &&& #[trigger] t.large_at(id).large@[j] == lid(c)
            &&& field_built(t, s.children@[j], c, s.mass)
            &&& subtree_built(t, s.children@[j], c)
        }
}

/// The first `n` schemas of `cs` stand, in pre-order, as the first `n`
/// large children of field `id`, which has mass `m`.
pub open spec fn children_built(t: Tree, cs: Seq<LargeBodySchema>, id: int, m: Mass, n: int) -> bool {
    forall|j: int|
        0 <= j < n && j < cs.len() ==> {
            let c = id + 1 + forest_size(cs, j);
            &&& #[trigger] t.large_at(id).large@[j] == lid(c)
            &&& field_built(t, cs[j], c, m)
            &&& subtree_built(t, cs[j], c)
        }
}

proof fn lemma_subtree_intro(t: Tree, s: LargeBodySchema, id: int)
    requires
        t.is_large(id),
        t.large_at(id).small@.len() == 0,
        t.large_at(id).large@.len() == s.children@.len(),
        children_built(t, s.children@, id, s.mass, s.children@.len() as int),
    ensures
        subtree_built(t, s, id),
{
    assert forall|j: int| 0 <= j < s.children@.len() implies {
        let c = id + 1 + forest_size(s.children@, j);
        &&& #[trigger] t.large_at(id).large@[j] == lid(c)
        &&& field_built(t, s.children@[j], c, s.mass)
        &&& subtree_built(t, s.children@[j], c)
    } by {
        let c = id + 1 + forest_size(s.children@, j);
        let n = s.children@.len() as int;
        assert(0 <= j < n && j < s.children@.len());
        assert(t.large_at(id).large@[j] == lid(c));
        assert(field_built(t, s.children@[j], c, s.mass));
        assert(subtree_built(t, s.children@[j], c));
    }
}

/// A built subtree stays built in any tree that has the same slots over its identities.
proof fn lemma_built_frame(t1: Tree, t2: Tree, s: LargeBodySchema, id: int)
    requires
        subtree_built(t1, s, id),
        0 <= id,
        id + schema_size(s) <= t1.len(),
        id + schema_size(s) <= t2.len(),
        forall|i: int| id <= i < id + schema_size(s) ==> t2.slots()[i] == t1.slots()[i],
    ensures
        subtree_built(t2, s, id),
    decreases s,
{
    let cs = s.children@;
    assert(t2.slots()[id] == t1.slots()[id]);
    assert forall|j: int| 0 <= j < cs.len() implies {
        let c = id + 1 + forest_size(cs, j);
        &&& #[trigger] t2.large_at(id).large@[j] == lid(c)
        &&& field_built(t2, cs[j], c, s.mass)
        &&& subtree_built(t2, cs[j], c)
    } by {
        let c = id + 1 + forest_size(cs, j);
        assert(t1.large_at(id).large@[j] == lid(c));
        lemma_forest_size_grows(cs, j + 1, cs.len() as int);
        assert(forest_size(cs, j + 1) == forest_size(cs, j) + schema_size(cs[j]));
        assert(decreases_to!(s => cs[j]));
        lemma_built_frame(t1, t2, cs[j], c);
        assert(t2.slots()[c] == t1.slots()[c]);
    }
}

/// Whether a whole schema, with `s` as its root, is acceptable.
pub open spec fn schema_ok(s: LargeBodySchema) -> bool {
    s.surface_radius.0 < UNBOUNDED && nested_ok(s)
}

fn check_nested(s: &LargeBodySchema) -> (r: bool)
    ensures
        r == nested_ok(*s),
    decreases s,
{
    let mut i: usize = 0;
    while i < s.children.len()
        invariant
            i <= s.children@.len(),
            forall|j: int| 0 <= j < i ==> node_ok(#[trigger] s.children@[j]) && nested_ok(s.children@[j]),
        decreases s.children@.len() - i,
    {
        let c = &s.children[i];
        proof {
            assert(decreases_to!(s => s.children@[i as int]));
        }
        let ok = match c.eci {
            Some(_) => c.surface_radius.0 < c.grav_radius.0,
            None => false,
        };
        if !ok || !check_nested(c) {
            return false;
        }
        i = i + 1;
    }
    true
}

/// Adds the fields of `children`, and everything nested in them, inside
/// field `parent`, in pre-order.
fn add_fields(tree: &mut Tree, parent: LargeBodyId, parent_mass: Mass, children: &Vec<LargeBodySchema>) -> (r: Result<(), SchemaError>)
    requires
        old(tree).wf(),
        old(tree).is_large(parent.0.0 as int),
        parent.0.0 as int == old(tree).len() - 1,
        old(tree).large_at(parent.0.0 as int).large@.len() == 0,
        forall|i: int| 0 <= i < children@.len() ==> node_ok(#[trigger] children@[i]) && nested_ok(children@[i]),
    ensures
        final(tree).wf(),
        final(tree).spec_root() == old(tree).spec_root(),
        final(tree).len() >= old(tree).len(),
        final(tree).is_large(parent.0.0 as int),
        same_but_children(final(tree).large_at(parent.0.0 as int), old(tree).large_at(parent.0.0 as int)),
        final(tree).large_at(parent.0.0 as int).small@ == old(tree).large_at(parent.0.0 as int).small@,
        r is Ok ==> final(tree).large_at(parent.0.0 as int).large@.len() == old(tree).large_at(parent.0.0 as int).large@.len() + children@.len(),
        r is Ok ==> final(tree).len() == old(tree).len() + forest_size(children@, children@.len() as int),
        r is Ok ==> children_built(*final(tree), children@, parent.0.0 as int, parent_mass, children@.len() as int),
        r is Ok ==> final(tree).body_total() == old(tree).body_total() + forest_size(children@, children@.len() as int),
        r is Ok <==> old(tree).len() + forest_size(children@, children@.len() as int) <= u32::MAX,
        r is Err ==> r == Err::<(), SchemaError>(SchemaError::TooManyBodies),
        forall|i: int| 0 <= i < old(tree).len() && i != parent.0.0 as int ==> final(tree).slots()[i] == old(tree).slots()[i],
    decreases children,
{
    let mut i: usize = 0;
    while i < children.len()
        invariant
            i <= children@.len(),
            tree.wf(),
            tree.spec_root() == old(tree).spec_root(),
            tree.len() >= old(tree).len(),
            tree.is_large(parent.0.0 as int),
            same_but_children(tree.large_at(parent.0.0 as int), old(tree).large_at(parent.0.0 as int)),
            tree.large_at(parent.0.0 as int).small@ == old(tree).large_at(parent.0.0 as int).small@,
            tree.large_at(parent.0.0 as int).large@.len() == old(tree).large_at(parent.0.0 as int).large@.len() + i,
            tree.len() == old(tree).len() + forest_size(children@, i as int),
            tree.body_total() == old(tree).body_total() + forest_size(children@, i as int),
            old(tree).len() + forest_size(children@, i as int) <= u32::MAX,
            parent.0.0 as int == old(tree).len() - 1,
            old(tree).large_at(parent.0.0 as int).large@.len() == 0,
            children_built(*tree, children@, parent.0.0 as int, parent_mass, i as int),
            forall|j: int| 0 <= j < old(tree).len() && j != parent.0.0 as int ==> tree.slots()[j] == old(tree).slots()[j],
            forall|j: int| 0 <= j < children@.len() ==> node_ok(#[trigger] children@[j]) && nested_ok(children@[j]),
        decreases children@.len() - i,
    {
        let c = &children[i];
        proof {
            assert(node_ok(children@[i as int]));
            assert(decreases_to!(children => children@[i as int].children));
        }
        proof {
            lemma_forest_size_grows(children@, i as int + 1, children@.len() as int);
            assert(forest_size(children@, i as int + 1) == forest_size(children@, i as int) + schema_size(children@[i as int]));
        }
        if tree.id_bound() >= 4294967295 {
            return Err(SchemaError::TooManyBodies);
        }
        let eci = match c.eci {
            Some(e) => e,
            None => unreached(),
        };
        let orbit = Orbit::from_mpv(parent_mass, Time(0), eci);
        let ghost before = *tree;
        proof {
            assert(before.large_at(parent.0.0 as int).large@.len() == i);
        }
        let id = tree.add_large(parent, c.surface_radius, c.grav_radius, c.mass, orbit);
        let ghost mid = *tree;
        proof {
            assert(nested_ok(*c));
        }
        let res = add_fields(tree, id, c.mass, &c.children);
        proof {
            assert(tree.slots()[parent.0.0 as int] == mid.slots()[parent.0.0 as int]);
        }
        if res.is_err() {
            return Err(SchemaError::TooManyBodies);
        }
        proof {
            let after = *tree;
            let p = parent.0.0 as int;
            let k = id.0.0 as int;
            assert(after.is_large(k));
            assert(mid.large_at(k).small@.len() == 0);
            assert(after.large_at(k).small@.len() == 0);
            assert(after.large_at(k).large@.len() == c.children@.len());
            assert(children_built(after, c.children@, k, c.mass, c.children@.len() as int));
            lemma_subtree_intro(after, *c, k);
            assert(field_built(after, *c, id.0.0 as int, parent_mass)) by {
                assert(after.is_large(id.0.0 as int));
            }
            assert forall|j: int| 0 <= j < i + 1 && j < children@.len() implies {
                let cj = p + 1 + forest_size(children@, j);
                &&& #[trigger] after.large_at(p).large@[j] == lid(cj)
                &&& field_built(after, children@[j], cj, parent_mass)
                &&& subtree_built(after, children@[j], cj)
            } by {
                let cj = p + 1 + forest_size(children@, j);
                assert(after.large_at(p).large@ == mid.large_at(p).large@);
                if j < i {
                    assert(before.large_at(p).large@[j] == lid(cj));
                    lemma_forest_size_grows(children@, j + 1, i as int);
                    assert(forest_size(children@, j + 1) == forest_size(children@, j) + schema_size(children@[j]));
                    lemma_built_frame(before, mid, children@[j], cj);
                    lemma_built_frame(mid, after, children@[j], cj);
                    assert(after.slots()[cj] == before.slots()[cj]);
                    assert(mid.large_at(p).large@[j] == before.large_at(p).large@[j]);
                } else {
                    assert(before.large_at(p).large@.len() == i);
                    assert(mid.large_at(p).large@ == before.large_at(p).large@.push(id));
                    assert(mid.large_at(p).large@[j] == id);
                }
            }
            let n = i as int + 1;
            assert(children_built(after, children@, p, parent_mass, n));
        }
        i = i + 1;
    }
    proof {
        lemma_forest_size_grows(children@, i as int, children@.len() as int);
    }
    Ok(())
}

/// Why a field change could not be applied.
#[derive(Debug, Clone, Copy, PartialEq, Eq, Structural)]
pub enum FieldChangeError {
    /// The converted relative state leaves the range of the coordinates.
    OutOfRange,
}

/// Which way a body crossed a field boundary.
#[derive(Debug, Clone, Copy, PartialEq, Eq, Structural)]
pub enum Direction {
    /// Into a field nested in the one it was in.
    ParentToChild,
    /// Out of a field, into the field that contains it.
    ChildToParent,
}

/// Whether `fc` names a body of the tree that lies in `fc.from`, and a large body `fc.to`.
pub open spec fn change_current(t: Tree, fc: FieldChange) -> bool {
    &&& t.has(fc.body.0 as int)
    &&& t.parent_of(fc.body.0 as int) == Some(fc.from)
    &&& t.is_large(fc.to.0.0 as int)
}

/// Whether `fc.to` lies directly inside `fc.from`.
pub open spec fn descends(t: Tree, fc: FieldChange) -> bool {
    t.parent_of(fc.to.0.0 as int) == Some(fc.from)
}

/// Whether `fc.from` lies directly inside `fc.to`.
pub open spec fn ascends(t: Tree, fc: FieldChange) -> bool {
    t.parent_of(fc.from.0.0 as int) == Some(fc.to)
}

/// Whether the two fields of `fc` are a parent and its child, the moving body not being the child.
pub open spec fn change_adjacent(t: Tree, fc: FieldChange) -> bool {
    (descends(t, fc) || ascends(t, fc)) && fc.body != fc.to.0
}

/// Whether the relative state in the new frame is representable.
pub open spec fn change_fits(t: Tree, fc: FieldChange, body_state: Eci, field_state: Eci) -> bool {
    if descends(t, fc) {
        eci_diff_fits(body_state, field_state)
    } else {
        eci_sum_fits(field_state, body_state)
    }
}

/// The body's relative state in the new frame. `body_state` is its state in
/// the old frame; `field_state` is the state of the inner of the two fields
/// in the outer one's frame, both at the instant of the crossing.
pub open spec fn converted_state(t: Tree, fc: FieldChange, body_state: Eci, field_state: Eci) -> Eci {
    if descends(t, fc) {
        eci_sub(body_state, field_state)
    } else {
        eci_add(field_state, body_state)
    }
}

/// The orbit that a body has after a field change at time `at`.
pub open spec fn orbit_after(t: Tree, fc: FieldChange, at: Time, body_state: Eci, field_state: Eci, o: Orbit) -> bool {
    &&& o.spec_mass() == t.large_at(fc.to.0.0 as int).mass
    &&& o.spec_epoch() == at
    &&& o.spec_state() == converted_state(t, fc, body_state, field_state)
}

/// What a collision does to one of the two bodies.
#[derive(Debug, Clone, Copy, PartialEq, Eq, Structural)]
pub enum CollisionResolution {
    /// The body leaves the simulation.
    Remove,
    /// The body stays, with the values that the mutation sets.
    Mutate(BodyMutation),
}

/// New values for a body; a value left unset is kept. On a small body the
/// surface radius is its radius, and it has no field radius.
#[derive(Debug, Clone, Copy, PartialEq, Eq, Structural, Default)]
pub struct BodyMutation {
    pub surface_radius: Option<Length>,
    pub grav_radius: Option<Length>,
    pub mass: Option<Mass>,
    pub velocity: Option<Vector>,
}

/// Why a collision could not be applied.
#[derive(Debug, Clone, Copy, PartialEq, Eq, Structural)]
pub enum CollisionError {
    /// A body is not in the tree, or both identities are the same.
    Stale,
    /// A resolution cannot be applied: it removes the root or a large body
    /// whose field still holds bodies, gives a large body a surface radius not
    /// below its field radius, gives a small body a field radius, or changes
    /// the root's field radius or velocity.
    Rejected,
}

/// The value set, or the value kept.
pub open spec fn or_keep<T>(o: Option<T>, d: T) -> T {
    match o {
        Some(x) => x,
        None => d,
    }
}

/// Whether a collision names two distinct bodies of the tree.
pub open spec fn collision_current(t: Tree, c: Collision) -> bool {
    t.has(c.body1.0 as int) && t.has(c.body2.0 as int) && c.body1 != c.body2
}

/// Whether resolution `r` can be applied to body `b`.
pub open spec fn resolution_ok(t: Tree, b: int, r: CollisionResolution) -> bool {
    match r {
        CollisionResolution::Remove => b != t.root_index() && (t.is_large(b) ==> t.large_at(b).large@.len() == 0
            && t.large_at(b).small@.len() == 0),
        CollisionResolution::Mutate(m) => if t.is_large(b) {
            &&& or_keep(m.surface_radius, t.large_at(b).surface_radius).0 < or_keep(m.grav_radius, t.large_at(b).grav_radius).0
            &&& b == t.root_index() ==> m.grav_radius is None && m.velocity is None
        } else {
            m.grav_radius is None
        },
    }
}

/// The mass of the field that body `b` lies in.
pub open spec fn parent_mass(t: Tree, b: int) -> Mass {
    t.large_at(t.parent_of(b)->Some_0.0.0 as int).mass
}

/// The orbit body `b` has after mutation `m`: a new one from its position in
/// `state` and the new velocity, about the same field, where a velocity is
/// set; the old one otherwise.
pub open spec fn orbit_after_mutation(t: Tree, b: int, m: BodyMutation, at: Time, state: Eci, o: Option<Orbit>) -> bool {
    match m.velocity {
        Some(v) => o is Some && o->Some_0.spec_mass() == parent_mass(t, b) && o->Some_0.spec_epoch() == at
            && o->Some_0.spec_state() == (Eci { position: state.position, velocity: v }),
        None => if t.is_large(b) { o == t.large_at(b).orbit } else { o == Some(t.small_at(b).orbit) },
    }
}

/// What body `b` of `t0` has become in `t1` under resolution `r`.
pub open spec fn resolved(t0: Tree, t1: Tree, b: int, r: CollisionResolution, at: Time, state: Eci) -> bool {
    match r {
        CollisionResolution::Remove => !t1.has(b),
        CollisionResolution::Mutate(m) => if t0.is_large(b) {
            let (o, n) = (t0.large_at(b), t1.large_at(b));
            &&& t1.is_large(b)
            &&& t1.parent_of(b) == t0.parent_of(b)
            &&& n.surface_radius == or_keep(m.surface_radius, o.surface_radius)
            &&& n.grav_radius == or_keep(m.grav_radius, o.grav_radius)
            &&& n.mass == or_keep(m.mass, o.mass)
            &&& orbit_after_mutation(t0, b, m, at, state, n.orbit)
        } else {
            let (o, n) = (t0.small_at(b), t1.small_at(b));
            &&& t1.is_small(b)
            &&& t1.parent_of(b) == t0.parent_of(b)
            &&& n.radius == or_keep(m.surface_radius, o.radius)
            &&& n.mass == or_keep(m.mass, o.mass)
            &&& orbit_after_mutation(t0, b, m, at, state, Some(n.orbit))
        },
    }
}

/// Every body of `t0` but `b` is still in `t1`, of the same kind, with the
/// same data and parent; a large one's child lists have at most shrunk.
pub open spec fn kept_except(t0: Tree, t1: Tree, b: int) -> bool {
    &&& t1.len() == t0.len()
    &&& t1.spec_root() == t0.spec_root()
    &&& forall|i: int| 0 <= i < t0.len() && i != b ==> #[trigger] kept_body(t0, t1, i)
}

/// Body `i` of `t0` is still in `t1` (or still absent), of the same kind,
/// with the same data and parent; if large, its child lists have at most shrunk.
pub open spec fn kept_body(t0: Tree, t1: Tree, i: int) -> bool {
    &&& t1.has(i) == t0.has(i)
    &&& t1.is_large(i) == t0.is_large(i)
    &&& t1.is_small(i) == t0.is_small(i)
    &&& t0.is_large(i) ==> same_but_children(t1.large_at(i), t0.large_at(i))
        && t1.large_at(i).large@.len() <= t0.large_at(i).large@.len()
        && t1.large_at(i).small@.len() <= t0.large_at(i).small@.len()
    &&& t0.is_small(i) ==> t1.small_at(i) == t0.small_at(i)
    &&& t1.parent_of(i) == t0.parent_of(i)
}

/// Takes body `b` out of the tree.
fn remove_one(tree: &mut Tree, b: BodyId)
    requires
        old(tree).wf(),
        old(tree).has(b.0 as int),
        resolution_ok(*old(tree), b.0 as int, CollisionResolution::Remove),
    ensures
        final(tree).wf(),
        !final(tree).has(b.0 as int),
        kept_except(*old(tree), *final(tree), b.0 as int),
        final(tree).body_total() + 1 == old(tree).body_total(),
{
    let ghost t0 = *tree;
    proof {
        assert(t0.parents()[b.0 as int] is Some);
    }
    if tree.contains_large(b) {
        tree.remove_large(LargeBodyId(b));
    } else {
        tree.remove_small(SmallBodyId(b));
    }
    proof {
        let t1 = *tree;
        let f = t0.parent_of(b.0 as int)->Some_0.0.0 as int;
        assert(t0.is_large(f));
        assert forall|i: int| 0 <= i < t0.len() && i != b.0 as int implies #[trigger] kept_body(t0, t1, i) by {
            if i != f {
                assert(t1.slots()[i] == t0.slots()[i]);
            }
        }
    }
}

/// Gives body `b` the values of mutation `m` and orbit `o`.
fn mutate_one(tree: &mut Tree, b: BodyId, m: BodyMutation, o: Option<Orbit>)
    requires
        old(tree).wf(),
        old(tree).has(b.0 as int),
        resolution_ok(*old(tree), b.0 as int, CollisionResolution::Mutate(m)),
        old(tree).is_large(b.0 as int) && b.0 as int != old(tree).root_index() ==> o is Some,
        old(tree).is_large(b.0 as int) && b.0 as int == old(tree).root_index() ==> o is None,
        old(tree).is_small(b.0 as int) ==> o is Some,
    ensures
        final(tree).wf(),
        kept_except(*old(tree), *final(tree), b.0 as int),
        final(tree).parents() == old(tree).parents(),
        final(tree).body_total() == old(tree).body_total(),
        old(tree).is_large(b.0 as int) ==> ({
            let (p, n) = (old(tree).large_at(b.0 as int), final(tree).large_at(b.0 as int));
            &&& final(tree).is_large(b.0 as int)
            &&& n.surface_radius == or_keep(m.surface_radius, p.surface_radius)
            &&& n.grav_radius == or_keep(m.grav_radius, p.grav_radius)
            &&& n.mass == or_keep(m.mass, p.mass)
            &&& n.orbit == o
        }),
        old(tree).is_small(b.0 as int) ==> ({
            let (p, n) = (old(tree).small_at(b.0 as int), final(tree).small_at(b.0 as int));
            &&& final(tree).is_small(b.0 as int)
            &&& n.radius == or_keep(m.surface_radius, p.radius)
            &&& n.mass == or_keep(m.mass, p.mass)
            &&& Some(n.orbit) == o
        }),
{
    let ghost t0 = *tree;
    if tree.contains_large(b) {
        let id = LargeBodyId(b);
        let body = tree.get_large_body(id);
        let surface = match m.surface_radius {
            Some(x) => x,
            None => body.surface_radius,
        };
        let grav = match m.grav_radius {
            Some(x) => x,
            None => body.grav_radius,
        };
        let mass = match m.mass {
            Some(x) => x,
            None => body.mass,
        };
        tree.set_large_data(id, surface, grav, mass, o);
    } else {
        let id = SmallBodyId(b);
        let body = tree.get_small_body(id);
        let radius = match m.surface_radius {
            Some(x) => x,
            None => body.radius,
        };
        let mass = match m.mass {
            Some(x) => x,
            None => body.mass,
        };
        let orbit = match o {
            Some(x) => x,
            None => unreached(),
        };
        tree.set_small_data(id, mass, radius, orbit);
    }
    proof {
        let t1 = *tree;
        assert forall|i: int| 0 <= i < t0.len() && i != b.0 as int implies #[trigger] kept_body(t0, t1, i) by {
            assert(t1.slots()[i] == t0.slots()[i]);
        }
    }
}

/// Executable form of `resolution_ok`.
fn resolution_allowed(tree: &Tree, b: BodyId, r: &CollisionResolution) -> (ok: bool)
    requires
        tree.wf(),
        tree.has(b.0 as int),
    ensures
        ok == resolution_ok(*tree, b.0 as int, *r),
{
    let root = tree.root_id();
    match r {
        CollisionResolution::Remove => {
            if b == root.0 {
                false
            } else if tree.contains_large(b) {
                let body = tree.get_large_body(LargeBodyId(b));
                body.large.len() == 0 && body.small.len() == 0
            } else {
                true
            }
        },
        CollisionResolution::Mutate(m) => {
            if tree.contains_large(b) {
                let body = tree.get_large_body(LargeBodyId(b));
                let surface = match m.surface_radius {
                    Some(x) => x,
                    None => body.surface_radius,
                };
                let grav = match m.grav_radius {
                    Some(x) => x,
                    None => body.grav_radius,
                };
                surface.0 < grav.0 && (b != root.0 || (m.grav_radius.is_none() && m.velocity.is_none()))
            } else {
                m.grav_radius.is_none()
            }
        },
    }
}

/// The orbit body `b` has after mutation `m`, computed against `tree`.
fn orbit_for(tree: &Tree, b: BodyId, m: &BodyMutation, at: Time, state: Eci) -> (o: Option<Orbit>)
    requires
        tree.wf(),
        tree.has(b.0 as int),
        resolution_ok(*tree, b.0 as int, CollisionResolution::Mutate(*m)),
    ensures
        orbit_after_mutation(*tree, b.0 as int, *m, at, state, o),
        tree.is_large(b.0 as int) && b.0 as int != tree.root_index() ==> o is Some,
        tree.is_large(b.0 as int) && b.0 as int == tree.root_index() ==> o is None,
        tree.is_small(b.0 as int) ==> o is Some,
{
    match m.velocity {
        Some(v) => {
            proof {
                assert(b.0 as int != tree.root_index());
                assert(tree.parents()[b.0 as int] is Some);
            }
            let p = match tree.parent(b) {
                Some(p) => p,
                None => unreached(),
            };
            let mass = tree.get_large_body(p).mass;
            Some(Orbit::from_mpv(mass, at, state.with_velocity(v)))
        },
        None => {
            if tree.contains_large(b) {
                tree.get_large_body(LargeBodyId(b)).orbit
            } else {
                Some(tree.get_small_body(SmallBodyId(b)).orbit)
            }
        },
    }
}

/// A simulated system of bodies and its pending events.
#[derive(Debug)]
pub struct System {
    next_event_id: u32,
    tree: Tree,
    event_queue: EventQueue,
}

impl System {
    pub closed spec fn spec_tree(self) -> Tree {
        self.tree
    }

    pub closed spec fn spec_queue(self) -> Seq<Event> {
        self.event_queue.view()
    }

    pub closed spec fn spec_next_event_id(self) -> u32 {
        self.next_event_id
    }

    /// The system's invariant: a well-formed tree, a queue in firing order,
    /// and every pending event's identity below the next one to hand out.
    pub open spec fn wf(self) -> bool {
        &&& self.spec_tree().wf()
        &&& crate::event::in_firing_order(self.spec_queue())
        &&& forall|i: int|
            0 <= i < self.spec_queue().len() ==> (#[trigger] self.spec_queue()[i]).id.0 < self.spec_next_event_id()
    }

    /// The body tree.
    pub fn tree(&self) -> (r: &Tree)
        ensures
            *r == self.spec_tree(),
    {
        &self.tree
    }

    /// The time of the event that fires first, if any is pending.
    pub fn next_event(&self) -> (r: Option<Time>)
        requires
            self.wf(),
        ensures
            self.spec_queue().len() == 0 ==> r is None,
            self.spec_queue().len() > 0 ==> r == Some(self.spec_queue()[0].time),
    {
        match self.event_queue.first() {
            Some(e) => Some(e.time),
            None => None,
        }
    }

    /// Schedules an event of type `ty` at time `time`, under the next event
    /// identity, which is above that of every pending event. `None` when
    /// event identities are exhausted; the system is then unchanged.
    pub fn schedule(&mut self, time: Time, ty: EventType) -> (r: Option<EventId>)
        requires
            old(self).wf(),
        ensures
            final(self).wf(),
            final(self).spec_tree() == old(self).spec_tree(),
            old(self).spec_next_event_id() == u32::MAX ==> r is None && *final(self) == *old(self),
            old(self).spec_next_event_id() < u32::MAX ==> {
                &&& r == Some(EventId(old(self).spec_next_event_id()))
                &&& final(self).spec_next_event_id() == old(self).spec_next_event_id() + 1
                &&& exists|k: int|
                    0 <= k <= old(self).spec_queue().len() && final(self).spec_queue()
                        == old(self).spec_queue().insert(k, Event { id: r->Some_0, time, ty })
            },
    {
        if self.next_event_id == u32::MAX {
            return None;
        }
        let id = EventId(self.next_event_id);
        self.next_event_id = self.next_event_id + 1;
        let ghost pre = self.event_queue.view();
        self.event_queue.insert(Event { id, time, ty });
        proof {
            let post = self.event_queue.view();
            let k = choose|k: int| 0 <= k <= pre.len() && post == pre.insert(k, Event { id, time, ty });
            assert forall|i: int| 0 <= i < post.len() implies (#[trigger] post[i]).id.0 < self.next_event_id by {
                if i < k {
                    assert(post[i] == pre[i]);
                } else if i > k {
                    assert(post[i] == pre[i - 1]);
                }
            }
        }
        Some(id)
    }

    /// Removes and returns the event that fires first, if it is due at or
    /// before `t`; it fires before every event left pending. Otherwise
    /// returns `None` and leaves the queue as it is.
    pub fn pop_due(&mut self, t: Time) -> (r: Option<Event>)
        requires
            old(self).wf(),
        ensures
            final(self).wf(),
            final(self).spec_tree() == old(self).spec_tree(),
            final(self).spec_next_event_id() == old(self).spec_next_event_id(),
            r is Some <==> (old(self).spec_queue().len() > 0 && old(self).spec_queue()[0].time.0 <= t.0),
            r is Some ==> r->Some_0 == old(self).spec_queue()[0] && final(self).spec_queue() == old(self).spec_queue().drop_first(),
            r is None ==> final(self).spec_queue() == old(self).spec_queue(),
            r is Some ==> forall|i: int|
                0 <= i < final(self).spec_queue().len() ==> crate::event::fires_before(r->Some_0, #[trigger] final(self).spec_queue()[i]),
    {
        match self.event_queue.first() {
            None => None,
            Some(e) => {
                if e.time.0 > t.0 {
                    None
                } else {
                    let ghost pre = self.event_queue.view();
                    let r = self.event_queue.pop_first();
                    proof {
                        let post = self.event_queue.view();
                        assert forall|i: int| 0 <= i < post.len() implies (#[trigger] post[i]).id.0 < self.next_event_id by {
                            assert(post[i] == pre[i + 1]);
                        }
                    }
                    r
                }
            },
        }
    }

    /// Adds a small body inside field `parent`, with relative state `eci` at
    /// time `at`, orbiting that field. `None`, with the system unchanged, when
    /// `parent` is not a large body of the tree or body identities are exhausted.
    pub fn add_small_body(&mut self, parent: LargeBodyId, mass: Mass, radius: Length, at: Time, eci: Eci) -> (r: Option<SmallBodyId>)
        requires
            old(self).wf(),
        ensures
            final(self).wf(),
            final(self).spec_queue() == old(self).spec_queue(),
            r is None <==> !old(self).spec_tree().is_large(parent.0.0 as int) || old(self).spec_tree().len() >= u32::MAX,
            r is None ==> *final(self) == *old(self),
            r is Some ==> ({
                let t0 = old(self).spec_tree();
                let t1 = final(self).spec_tree();
                let n = t0.len();
                &&& r == Some(sid(n))
                &&& t1.len() == n + 1
                &&& t1.body_total() == t0.body_total() + 1
                &&& t1.is_small(n)
                &&& t1.parent_of(n) == Some(parent)
                &&& t1.small_at(n).mass == mass
                &&& t1.small_at(n).radius == radius
                &&& t1.small_at(n).orbit.spec_mass() == t0.large_at(parent.0.0 as int).mass
                &&& t1.small_at(n).orbit.spec_epoch() == at
                &&& t1.small_at(n).orbit.spec_state() == eci
                &&& t1.large_at(parent.0.0 as int).small@ == t0.large_at(parent.0.0 as int).small@.push(sid(n))
            }),
    {
        if !self.tree.contains_large(parent.0) || self.tree.id_bound() >= 4294967295 {
            return None;
        }
        let parent_mass = self.tree.get_large_body(parent).mass;
        let orbit = Orbit::from_mpv(parent_mass, at, eci);
        let id = self.tree.add_small(parent, mass, radius, orbit);
        Some(id)
    }

    /// Whether `fc` can be applied to this system: the body lies in
    /// `fc.from`, one of the two fields lies directly inside the other, and
    /// `fc.to` is not the body itself.
    pub fn field_change_valid(&self, fc: FieldChange) -> (r: bool)
        requires
            self.wf(),
        ensures
            r == (change_current(self.spec_tree(), fc) && change_adjacent(self.spec_tree(), fc)),
    {
        let b = fc.body;
        self.tree.contains(b) && self.tree.parent(b) == Some(fc.from) && self.tree.contains_large(fc.to.0)
            && (self.tree.parent(fc.to.0) == Some(fc.from) || self.tree.parent(fc.from.0) == Some(fc.to))
            && b != fc.to.0
    }

    /// The inner of the two fields of a valid field change: the one whose
    /// state in the outer field's frame the conversion needs.
    pub fn inner_field(&self, fc: FieldChange) -> (r: LargeBodyId)
        requires
            self.wf(),
        ensures
            r == if descends(self.spec_tree(), fc) { fc.to } else { fc.from },
    {
        if self.tree.parent(fc.to.0) == Some(fc.from) {
            fc.to
        } else {
            fc.from
        }
    }

    /// Moves `fc.body` from field `fc.from` into field `fc.to`, one of which
    /// lies directly inside the other. `body_state` is the body's relative
    /// state in `fc.from` at time `at`; `field_state` is the state of the
    /// inner field in the outer field's frame at the same instant. The body
    /// keeps its identity and gets the orbit about `fc.to` that its converted
    /// state defines. The change must be valid (`field_change_valid`): a
    /// stale or lateral change is a caller's error. The only failure left is a
    /// converted state out of range, and the system is then unchanged.
    pub fn apply_field_change(&mut self, at: Time, fc: FieldChange, body_state: Eci, field_state: Eci) -> (r: Result<Direction, FieldChangeError>)
        requires
            old(self).wf(),
            change_current(old(self).spec_tree(), fc),
            change_adjacent(old(self).spec_tree(), fc),
        ensures
            final(self).wf(),
            final(self).spec_queue() == old(self).spec_queue(),
            final(self).spec_next_event_id() == old(self).spec_next_event_id(),
            r is Err <==> !change_fits(old(self).spec_tree(), fc, body_state, field_state),
            r is Err ==> *final(self) == *old(self),
            r is Ok ==> ({
                let t0 = old(self).spec_tree();
                let t1 = final(self).spec_tree();
                let b = fc.body.0 as int;
                let to = fc.to.0.0 as int;
                let from = fc.from.0.0 as int;
                &&& r == Ok::<Direction, FieldChangeError>(if descends(t0, fc) { Direction::ParentToChild } else { Direction::ChildToParent })
                &&& t1.len() == t0.len()
                &&& t1.body_total() == t0.body_total()
                &&& t1.parent_of(b) == Some(fc.to)
                &&& t1.contains_child(to, b)
                &&& !t1.contains_child(from, b)
                &&& t0.is_small(b) ==> t1.is_small(b) && t1.small_at(b).id == t0.small_at(b).id
                    && t1.small_at(b).mass == t0.small_at(b).mass && t1.small_at(b).radius == t0.small_at(b).radius
                    && orbit_after(t0, fc, at, body_state, field_state, t1.small_at(b).orbit)
                    && t1.large_at(to).small@ == t0.large_at(to).small@.push(SmallBodyId(fc.body))
                &&& t0.is_large(b) ==> t1.is_large(b) && t1.large_at(b).large@ == t0.large_at(b).large@
                    && t1.large_at(b).small@ == t0.large_at(b).small@ && t1.large_at(b).mass == t0.large_at(b).mass
                    && t1.large_at(b).orbit is Some
                    && orbit_after(t0, fc, at, body_state, field_state, t1.large_at(b).orbit->Some_0)
                    && t1.large_at(to).large@ == t0.large_at(to).large@.push(LargeBodyId(fc.body))
                    && t1.large_at(b).id == t0.large_at(b).id
                    && t1.large_at(b).surface_radius == t0.large_at(b).surface_radius
                    && t1.large_at(b).grav_radius == t0.large_at(b).grav_radius
                &&& forall|i: int| 0 <= i < t0.len() && i != b ==> t1.parent_of(i) == t0.parent_of(i)
                &&& forall|i: int| 0 <= i < t0.len() && i != b && i != from && i != to ==> t1.slots()[i] == t0.slots()[i]
                &&& t1.is_large(from) && same_but_children(t1.large_at(from), t0.large_at(from))
                &&& t1.is_large(to) && same_but_children(t1.large_at(to), t0.large_at(to))
            }),
    {
        let ghost t0 = self.tree;
        let b = fc.body;
        let dir = if self.tree.parent(fc.to.0) == Some(fc.from) {
            Direction::ParentToChild
        } else {
            Direction::ChildToParent
        };
        let new_state = match dir {
            Direction::ParentToChild => {
                if body_state.checked_sub(&field_state).is_none() {
                    return Err(FieldChangeError::OutOfRange);
                }
                self.tree.get_large_body(fc.to).from_eci_in_parent(&field_state, &body_state)
            },
            Direction::ChildToParent => {
                if field_state.checked_add(&body_state).is_none() {
                    return Err(FieldChangeError::OutOfRange);
                }
                self.tree.get_large_body(fc.from).to_eci_in_parent(&field_state, &body_state)
            },
        };
        let to_mass = self.tree.get_large_body(fc.to).mass;
        let orbit = Orbit::from_mpv(to_mass, at, new_state);
        proof {
            assert(t0.parents()[b.0 as int] is Some);
            assert(t0.parents()[b.0 as int] != Some(fc.to)) by {
                if dir == Direction::ParentToChild {
                    assert(t0.parents()[fc.to.0.0 as int]->Some_0.0.0 as int != fc.to.0.0 as int);
                } else {
                    assert(t0.parents()[fc.from.0.0 as int] is Some);
                    assert(t0.parents()[fc.from.0.0 as int]->Some_0.0.0 as int != fc.from.0.0 as int);
                }
            }
            assert(t0.is_large(fc.from.0.0 as int));
            assert(t0.orbits_present());
            assert(fc.to.0.0 as int != t0.root_index() || dir == Direction::ChildToParent);
        }
        if self.tree.contains_large(b) {
            self.tree.move_large(LargeBodyId(b), fc.to, orbit);
        } else {
            self.tree.move_small(SmallBodyId(b), fc.to, orbit);
        }
        proof {
            let t1 = self.tree;
            crate::tree::lemma_parent_index_iff_child(t1, b.0 as int, fc.to.0.0 as int);
            crate::tree::lemma_parent_index_iff_child(t1, b.0 as int, fc.from.0.0 as int);
        }
        Ok(dir)
    }

    /// Applies the outcome of a collision between `c.body1` and `c.body2`:
    /// `r1` to the first and `r2` to the second. Both resolutions are checked
    /// before anything changes, so that the collision applies whole or not at
    /// all; removals are applied first, then mutations. `state1` and `state2`
    /// are the bodies' relative states in their fields at time `at`; a body
    /// given a new velocity gets the orbit about its field that its position
    /// there and the new velocity define. On an error the system is unchanged.
    pub fn apply_collision(
        &mut self,
        at: Time,
        c: Collision,
        r1: CollisionResolution,
        r2: CollisionResolution,
        state1: Eci,
        state2: Eci,
    ) -> (r: Result<(), CollisionError>)
        requires
            old(self).wf(),
        ensures
            final(self).wf(),
            final(self).spec_queue() == old(self).spec_queue(),
            final(self).spec_next_event_id() == old(self).spec_next_event_id(),
            ({
                let t0 = old(self).spec_tree();
                let (b1, b2) = (c.body1.0 as int, c.body2.0 as int);
                &&& r == Err::<(), CollisionError>(CollisionError::Stale) <==> !collision_current(t0, c)
                &&& r == Err::<(), CollisionError>(CollisionError::Rejected) <==> collision_current(t0, c)
                    && !(resolution_ok(t0, b1, r1) && resolution_ok(t0, b2, r2))
            }),
            r is Err ==> *final(self) == *old(self),
            r is Ok ==> ({
                let t0 = old(self).spec_tree();
                let t1 = final(self).spec_tree();
                let (b1, b2) = (c.body1.0 as int, c.body2.0 as int);
                &&& resolved(t0, t1, b1, r1, at, state1)
                &&& resolved(t0, t1, b2, r2, at, state2)
                &&& t1.body_total() + (if r1 is Remove { 1int } else { 0int }) + (if r2 is Remove { 1int } else { 0int })
                    == t0.body_total()
                &&& t1.len() == t0.len()
                &&& forall|i: int| 0 <= i < t0.len() && i != b1 && i != b2 ==> #[trigger] kept_body(t0, t1, i)
            }),
    {
        let (b1, b2) = (c.body1, c.body2);
        if !self.tree.contains(b1) || !self.tree.contains(b2) || b1 == b2 {
            return Err(CollisionError::Stale);
        }
        if !resolution_allowed(&self.tree, b1, &r1) || !resolution_allowed(&self.tree, b2, &r2) {
            return Err(CollisionError::Rejected);
        }
        let o1 = match &r1 {
            CollisionResolution::Mutate(m) => orbit_for(&self.tree, b1, m, at, state1),
            CollisionResolution::Remove => None,
        };
        let o2 = match &r2 {
            CollisionResolution::Mutate(m) => orbit_for(&self.tree, b2, m, at, state2),
            CollisionResolution::Remove => None,
        };
        let ghost t0 = self.tree;
        if let CollisionResolution::Remove = r1 {
            remove_one(&mut self.tree, b1);
        }
        let ghost ta = self.tree;
        proof {
            assert(kept_body(t0, ta, b2.0 as int));
        }
        if let CollisionResolution::Remove = r2 {
            remove_one(&mut self.tree, b2);
        }
        let ghost tb = self.tree;
        proof {
            assert(kept_body(ta, tb, b1.0 as int));
            assert(kept_body(t0, tb, b1.0 as int) || r1 is Remove);
            assert(kept_body(t0, tb, b2.0 as int) || r2 is Remove);
        }
        if let CollisionResolution::Mutate(m) = r1 {
            mutate_one(&mut self.tree, b1, m, o1);
        }
        let ghost tc = self.tree;
        proof {
            assert(kept_body(tb, tc, b2.0 as int));
        }
        if let CollisionResolution::Mutate(m) = r2 {
            mutate_one(&mut self.tree, b2, m, o2);
        }
        proof {
            let td = self.tree;
            assert(kept_body(tc, td, b1.0 as int));
            assert forall|i: int| 0 <= i < t0.len() && i != b1.0 as int && i != b2.0 as int implies #[trigger] kept_body(t0, td, i) by {
                assert(kept_body(t0, ta, i));
                assert(kept_body(ta, tb, i));
                assert(kept_body(tb, tc, i));
                assert(kept_body(tc, td, i));
            }
        }
        Ok(())
    }

    /// Builds a system from a schema. Identities are handed out in pre-order:
    /// the root is 0, then each field before the fields nested in it. The
    /// root's field radius is unbounded whatever the schema says; every other
    /// field orbits its parent, from the schema's relative state at time 0.
    pub fn from_schema(schema: &LargeBodySchema) -> (r: Result<System, SchemaError>)
        requires
            states_present(*schema),
        ensures
            r is Err ==> (r == Err::<System, SchemaError>(SchemaError::Invalid) <==> !schema_ok(*schema)),
            r is Ok ==> schema_ok(*schema),
            r is Ok ==> ({
                let s = r->Ok_0;
                let t = s.spec_tree();
                &&& s.wf()
                &&& s.spec_queue().len() == 0
                &&& t.spec_root() == lid(0)
                &&& t.large_at(0).surface_radius == schema.surface_radius
                &&& t.large_at(0).mass == schema.mass
                &&& t.large_at(0).grav_radius.0 == UNBOUNDED
                &&& t.large_at(0).orbit is None
                &&& t.large_at(0).large@.len() == schema.children@.len()
                &&& t.large_at(0).small@.len() == 0
                &&& t.len() == schema_size(*schema)
                &&& t.body_total() == schema_size(*schema)
                &&& subtree_built(t, *schema, 0)
                &&& s.spec_next_event_id() == 0
            }),
            r == Err::<System, SchemaError>(SchemaError::TooManyBodies) <==> schema_ok(*schema) && schema_size(*schema) > u32::MAX,
    {
        if schema.surface_radius.0 >= UNBOUNDED || !check_nested(schema) {
            return Err(SchemaError::Invalid);
        }
        let mut tree = Tree::new(schema.surface_radius, schema.mass);
        let root = tree.root_id();
        let res = add_fields(&mut tree, root, schema.mass, &schema.children);
        match res {
            Ok(()) => {
                proof {
                    lemma_subtree_intro(tree, *schema, 0);
                }
                let queue = EventQueue::new();
                Ok(System { next_event_id: 0, tree, event_queue: queue })
            },
            Err(e) => Err(e),
        }
    }
}

} // verus!
