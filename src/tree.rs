//! The body tree: every body of a system, kept in slots by identity, with a
//! parent index that names the field each non-root body lies in.
use vstd::prelude::*;

use crate::body::{lid, sid, Body, BodyId, BodyRef, LargeBody, LargeBodyId, SmallBody, SmallBodyId};
use crate::math::{Length, Mass, UNBOUNDED};
use crate::orbit::Orbit;

verus! {

/// The hierarchy of fields. A body's identity is its slot; a removed body
/// leaves its slot empty, so identities are never reused.
#[derive(Debug)]
pub struct Tree {
    root: LargeBodyId,
    slots: Vec<Option<Body>>,
    parent_index: Vec<Option<LargeBodyId>>,
}

/// Removing one entry of a sequence without duplicates.
proof fn lemma_remove_entry<T>(s: Seq<T>, k: int)
    requires
        s.no_duplicates(),
        0 <= k < s.len(),
    ensures
        s.remove(k).no_duplicates(),
        forall|x: T| s.remove(k).contains(x) <==> (s.contains(x) && x != s[k]),
        forall|j: int| 0 <= j < s.len() - 1 ==> #[trigger] s.remove(k)[j] == s[if j < k { j } else { j + 1 }],
{
    let r = s.remove(k);
    assert forall|x: T| r.contains(x) <==> (s.contains(x) && x != s[k]) by {
        if r.contains(x) {
            let j = choose|j: int| 0 <= j < r.len() && r[j] == x;
            if j < k {
                assert(s[j] == x);
            } else {
                assert(s[j + 1] == x);
            }
        }
        if s.contains(x) && x != s[k] {
            let j = choose|j: int| 0 <= j < s.len() && s[j] == x;
            if j < k {
                assert(r[j] == x);
            } else {
                assert(r[j - 1] == x);
            }
        }
    }
}

/// Appending an absent entry to a sequence without duplicates.
proof fn lemma_push_entry<T>(s: Seq<T>, x: T)
    requires
        s.no_duplicates(),
        !s.contains(x),
    ensures
        s.push(x).no_duplicates(),
        forall|y: T| s.push(x).contains(y) <==> (s.contains(y) || y == x),
{
    let r = s.push(x);
    assert forall|y: T| r.contains(y) <==> (s.contains(y) || y == x) by {
        if r.contains(y) {
            let j = choose|j: int| 0 <= j < r.len() && r[j] == y;
            if j < s.len() {
                assert(s[j] == y);
            }
        }
        if s.contains(y) {
            let j = choose|j: int| 0 <= j < s.len() && s[j] == y;
            assert(r[j] == y);
        }
        if y == x {
            assert(r[s.len() as int] == y);
        }
    }
}

/// The number of occupied slots.
pub open spec fn count_present(s: Seq<Option<Body>>) -> nat
    decreases s.len(),
{
    if s.len() == 0 {
        0
    } else {
        count_present(s.drop_last()) + if s.last() is Some { 1nat } else { 0nat }
    }
}

/// Two large bodies that differ at most in their lists of children.
pub open spec fn same_but_children(a: LargeBody, b: LargeBody) -> bool {
    &&& a.id == b.id
    &&& a.surface_radius == b.surface_radius
    &&& a.grav_radius == b.grav_radius
    &&& a.mass == b.mass
    &&& a.orbit == b.orbit
}

impl Tree {
    pub closed spec fn spec_root(self) -> LargeBodyId {
        self.root
    }

    /// The slots, indexed by body identity.
    pub closed spec fn slots(self) -> Seq<Option<Body>> {
        self.slots@
    }

    /// The parent index, indexed by body identity.
    pub closed spec fn parents(self) -> Seq<Option<LargeBodyId>> {
        self.parent_index@
    }

    pub open spec fn root_index(self) -> int {
        self.spec_root().0.0 as int
    }

    pub open spec fn len(self) -> int {
        self.slots().len() as int
    }

    /// Whether the body with identity `i` is in the tree.
    pub open spec fn has(self, i: int) -> bool {
        0 <= i < self.len() && self.slots()[i] is Some
    }

    pub open spec fn is_large(self, i: int) -> bool {
        self.has(i) && self.slots()[i]->Some_0 is Large
    }

    pub open spec fn is_small(self, i: int) -> bool {
        self.has(i) && self.slots()[i]->Some_0 is Small
    }

    pub open spec fn large_at(self, i: int) -> LargeBody {
        self.slots()[i]->Some_0->Large_0
    }

    pub open spec fn small_at(self, i: int) -> SmallBody {
        self.slots()[i]->Some_0->Small_0
    }

    /// The parent index entry of body `i`.
    pub open spec fn parent_of(self, i: int) -> Option<LargeBodyId> {
        if 0 <= i < self.len() {
            self.parents()[i]
        } else {
            None
        }
    }

    /// Whether the child lists of large body `p` hold body `c`.
    pub open spec fn contains_child(self, p: int, c: int) -> bool {
        self.is_large(p) && (self.large_at(p).large@.contains(lid(c))
            || self.large_at(p).small@.contains(sid(c)))
    }

    /// The number of bodies in the tree.
    pub open spec fn body_total(self) -> nat {
        count_present(self.slots())
    }

    pub open spec fn ids_match(self) -> bool {
        forall|i: int| #[trigger] self.has(i) ==> self.slots()[i]->Some_0.spec_id() == BodyId(i as u32)
    }

    pub open spec fn index_complete(self) -> bool {
        forall|i: int|
            0 <= i < self.len() && i != self.root_index() ==> (#[trigger] self.parents()[i] is Some
                <==> self.has(i))
    }

    pub open spec fn index_sound(self) -> bool {
        forall|i: int|
            0 <= i < self.len() && #[trigger] self.parents()[i] is Some ==> {
                let p = self.parents()[i]->Some_0.0.0 as int;
                &&& self.is_large(p)
                &&& self.is_large(i) ==> self.large_at(p).large@.contains(lid(i))
                &&& self.is_small(i) ==> self.large_at(p).small@.contains(sid(i))
            }
    }

    pub open spec fn children_indexed(self) -> bool {
        &&& forall|p: int, k: int|
            self.is_large(p) && 0 <= k < self.large_at(p).large@.len() ==> {
                let c = (#[trigger] self.large_at(p).large@[k]).0.0 as int;
                &&& self.is_large(c)
                &&& c < self.len()
                &&& self.parents()[c] == Some(lid(p))
            }
        &&& forall|p: int, k: int|
            self.is_large(p) && 0 <= k < self.large_at(p).small@.len() ==> {
                let c = (#[trigger] self.large_at(p).small@[k]).0.0 as int;
                &&& self.is_small(c)
                &&& c < self.len()
                &&& self.parents()[c] == Some(lid(p))
            }
    }

    pub open spec fn no_self_parent(self) -> bool {
        forall|i: int|
            0 <= i < self.len() && #[trigger] self.parents()[i] is Some ==> self.parents()[i]->Some_0.0.0 as int != i
    }

    pub open spec fn lists_distinct(self) -> bool {
        forall|p: int|
            #[trigger] self.is_large(p) ==> self.large_at(p).large@.no_duplicates()
                && self.large_at(p).small@.no_duplicates()
    }

    pub open spec fn radii_ordered(self) -> bool {
        forall|p: int|
            #[trigger] self.is_large(p) ==> self.large_at(p).surface_radius.0
                < self.large_at(p).grav_radius.0
    }

    pub open spec fn orbits_present(self) -> bool {
        forall|p: int|
            #[trigger] self.is_large(p) && p != self.root_index() ==> self.large_at(p).orbit is Some
    }

    /// The tree's invariant: the root is a large body without orbit or parent
    /// and with an unbounded field; every other body has a parent index entry
    /// that names a large body listing it as a child, and every listed child
    /// names its lister as parent.
    pub open spec fn wf(self) -> bool {
        &&& self.slots().len() == self.parents().len()
        &&& self.slots().len() <= u32::MAX
        &&& self.is_large(self.root_index())
        &&& self.large_at(self.root_index()).orbit is None
        &&& self.large_at(self.root_index()).grav_radius.0 == UNBOUNDED
        &&& self.parents()[self.root_index()] is None
        &&& self.ids_match()
        &&& self.index_complete()
        &&& self.index_sound()
        &&& self.children_indexed()
        &&& self.no_self_parent()
        &&& self.lists_distinct()
        &&& self.radii_ordered()
        &&& self.orbits_present()
    }
}

/// For every non-root body of a well-formed tree, the parent index names a
/// large body exactly when that body's child lists hold it.
pub proof fn lemma_parent_index_iff_child(tree: Tree, b: int, p: int)
    requires
        tree.wf(),
        tree.has(b),
        b != tree.root_index(),
        0 <= p < tree.len(),
    ensures
        tree.parent_of(b) == Some(lid(p)) <==> tree.contains_child(p, b),
{
    if tree.parent_of(b) == Some(lid(p)) {
        assert(tree.parents()[b] is Some);
        assert((lid(p).0.0 as int) == p);
    }
    if tree.contains_child(p, b) {
        if tree.large_at(p).large@.contains(lid(b)) {
            let k = choose|k: int|
                0 <= k < tree.large_at(p).large@.len() && tree.large_at(p).large@[k] == lid(b);
            assert(tree.large_at(p).large@[k] == lid(b));
        } else {
            let k = choose|k: int|
                0 <= k < tree.large_at(p).small@.len() && tree.large_at(p).small@[k] == sid(b);
            assert(tree.large_at(p).small@[k] == sid(b));
        }
    }
}

impl Tree {
    /// A tree that holds only a root field, with identity 0.
    pub fn new(surface_radius: Length, mass: Mass) -> (r: Tree)
        requires
            surface_radius.0 < UNBOUNDED,
        ensures
            r.wf(),
            r.len() == 1,
            r.root_index() == 0,
            r.spec_root() == lid(0),
            r.large_at(0).large@.len() == 0,
            r.large_at(0).small@.len() == 0,
            r.large_at(0).surface_radius == surface_radius,
            r.large_at(0).mass == mass,
            r.body_total() == 1,
    {
        let id = LargeBodyId(BodyId(0));
        let root = LargeBody {
            id,
            large: Vec::new(),
            small: Vec::new(),
            surface_radius,
            grav_radius: Length::unbounded(),
            mass,
            orbit: None,
        };
        let mut slots: Vec<Option<Body>> = Vec::new();
        slots.push(Some(Body::Large(root)));
        let mut parent_index: Vec<Option<LargeBodyId>> = Vec::new();
        parent_index.push(None);
        let r = Tree { root: id, slots, parent_index };
        proof {
            assert(r.slots().drop_last().len() == 0);
            assert(count_present(r.slots().drop_last()) == 0);
            assert(r.large_at(0).large@.len() == 0);
        }
        r
    }

    /// The identity of the root field.
    pub fn root_id(&self) -> (r: LargeBodyId)
        ensures
            r == self.spec_root(),
    {
        self.root
    }

    /// The number of identities handed out so far, removed bodies included.
    pub fn id_bound(&self) -> (r: usize)
        ensures
            r == self.len(),
    {
        self.slots.len()
    }

    /// Whether the body with this identity is in the tree.
    pub fn contains(&self, id: BodyId) -> (r: bool)
        ensures
            r == self.has(id.0 as int),
    {
        let i = id.0 as usize;
        i < self.slots.len() && self.slots[i].is_some()
    }

    /// Whether the body with this identity is in the tree and is a large body.
    pub fn contains_large(&self, id: BodyId) -> (r: bool)
        ensures
            r == self.is_large(id.0 as int),
    {
        let i = id.0 as usize;
        if i < self.slots.len() {
            match &self.slots[i] {
                Some(Body::Large(_)) => true,
                _ => false,
            }
        } else {
            false
        }
    }

    /// The parent index entry of a body: the field it lies in, or `None` for
    /// the root and for identities not in the tree.
    pub fn parent(&self, id: BodyId) -> (r: Option<LargeBodyId>)
        requires
            self.wf(),
        ensures
            r == self.parent_of(id.0 as int),
    {
        let i = id.0 as usize;
        if i < self.parent_index.len() {
            self.parent_index[i]
        } else {
            None
        }
    }

    /// The number of bodies in the tree.
    pub fn body_count(&self) -> (r: usize)
        requires
            self.wf(),
        ensures
            r == self.body_total(),
    {
        let mut n: usize = 0;
        let mut i: usize = 0;
        while i < self.slots.len()
            invariant
                i <= self.slots@.len(),
                self.slots@.len() <= u32::MAX,
                n == count_present(self.slots@.take(i as int)),
                n <= i,
            decreases self.slots@.len() - i,
        {
            proof {
                assert(self.slots@.take(i as int + 1).drop_last() =~= self.slots@.take(i as int));
            }
            if self.slots[i].is_some() {
                n = n + 1;
            }
            i = i + 1;
        }
        proof {
            assert(self.slots@.take(i as int) =~= self.slots@);
        }
        n
    }

    /// Looks up a large body by identity.
    pub fn get_large_body(&self, id: LargeBodyId) -> (r: &LargeBody)
        requires
            self.wf(),
            self.is_large(id.0.0 as int),
        ensures
            *r == self.large_at(id.0.0 as int),
            r.id == id,
    {
        match &self.slots[id.0.0 as usize] {
            Some(Body::Large(b)) => b,
            _ => unreached(),
        }
    }

    /// Looks up a small body by identity.
    pub fn get_small_body(&self, id: SmallBodyId) -> (r: &SmallBody)
        requires
            self.wf(),
            self.is_small(id.0.0 as int),
        ensures
            *r == self.small_at(id.0.0 as int),
            r.id == id,
    {
        match &self.slots[id.0.0 as usize] {
            Some(Body::Small(b)) => b,
            _ => unreached(),
        }
    }

    /// Looks up a body of either kind by identity.
    pub fn get_body(&self, id: BodyId) -> (r: BodyRef<'_>)
        requires
            self.wf(),
            self.has(id.0 as int),
        ensures
            self.is_large(id.0 as int) ==> r is Large && *(r->Large_0) == self.large_at(id.0 as int),
            self.is_small(id.0 as int) ==> r is Small && *(r->Small_0) == self.small_at(id.0 as int),
    {
        match &self.slots[id.0 as usize] {
            Some(Body::Large(b)) => BodyRef::Large(b),
            Some(Body::Small(b)) => BodyRef::Small(b),
            None => unreached(),
        }
    }

    /// Looks up a body among the direct children of field `parent`.
    pub fn get_child(&self, parent: LargeBodyId, id: BodyId) -> (r: Option<BodyRef<'_>>)
        requires
            self.wf(),
            self.is_large(parent.0.0 as int),
        ensures
            r is Some <==> self.contains_child(parent.0.0 as int, id.0 as int),
            r is Some && self.is_large(id.0 as int) ==> r->Some_0 is Large && *(r->Some_0->Large_0)
                == self.large_at(id.0 as int),
            r is Some && self.is_small(id.0 as int) ==> r->Some_0 is Small && *(r->Some_0->Small_0)
                == self.small_at(id.0 as int),
    {
        let i = id.0 as usize;
        if i < self.slots.len() && self.slots[i].is_some() && i != self.root.0.0 as usize {
            proof {
                lemma_parent_index_iff_child(*self, i as int, parent.0.0 as int);
            }
            if self.parent_index[i] == Some(parent) {
                Some(self.get_body(id))
            } else {
                None
            }
        } else {
            proof {
                if self.contains_child(parent.0.0 as int, id.0 as int) {
                    let p = parent.0.0 as int;
                    let c = id.0 as int;
                    if self.large_at(p).large@.contains(lid(c)) {
                        let k = choose|k: int|
                            0 <= k < self.large_at(p).large@.len() && self.large_at(p).large@[k] == lid(c);
                        assert(self.large_at(p).large@[k] == lid(c));
                    } else {
                        let k = choose|k: int|
                            0 <= k < self.large_at(p).small@.len() && self.large_at(p).small@[k] == sid(c);
                        assert(self.large_at(p).small@[k] == sid(c));
                    }
                }
            }
            None
        }
    }
}

impl Tree {
    fn replace_slot(&mut self, i: usize, v: Option<Body>) -> (r: Option<Body>)
        requires
            i < old(self).slots@.len(),
        ensures
            final(self).slots@ == old(self).slots@.update(i as int, v),
            r == old(self).slots@[i as int],
            final(self).parent_index@ == old(self).parent_index@,
            final(self).root == old(self).root,
    {
        let mut v = v;
        std::mem::swap(&mut v, &mut self.slots[i]);
        v
    }

    fn replace_parent(&mut self, i: usize, v: Option<LargeBodyId>)
        requires
            i < old(self).parent_index@.len(),
        ensures
            final(self).parent_index@ == old(self).parent_index@.update(i as int, v),
            final(self).slots@ == old(self).slots@,
            final(self).root == old(self).root,
    {
        let mut v = v;
        std::mem::swap(&mut v, &mut self.parent_index[i]);
    }

    /// Adds a new large body, with no children, inside field `parent`. Its
    /// identity is the next one not yet handed out.
    pub fn add_large(
        &mut self,
        parent: LargeBodyId,
        surface_radius: Length,
        grav_radius: Length,
        mass: Mass,
        orbit: Orbit,
    ) -> (r: LargeBodyId)
        requires
            old(self).wf(),
            old(self).is_large(parent.0.0 as int),
            old(self).len() < u32::MAX,
            surface_radius.0 < grav_radius.0,
        ensures
            final(self).wf(),
            r == lid(old(self).len()),
            final(self).len() == old(self).len() + 1,
            final(self).spec_root() == old(self).spec_root(),
            final(self).is_large(old(self).len()),
            final(self).large_at(old(self).len()).large@.len() == 0,
            final(self).large_at(old(self).len()).small@.len() == 0,
            final(self).large_at(old(self).len()).surface_radius == surface_radius,
            final(self).large_at(old(self).len()).grav_radius == grav_radius,
            final(self).large_at(old(self).len()).mass == mass,
            final(self).large_at(old(self).len()).orbit == Some(orbit),
            final(self).parent_of(old(self).len()) == Some(parent),
            final(self).large_at(parent.0.0 as int).large@ == old(self).large_at(
                parent.0.0 as int,
            ).large@.push(r),
            final(self).large_at(parent.0.0 as int).small@ == old(self).large_at(
                parent.0.0 as int,
            ).small@,
            same_but_children(
                final(self).large_at(parent.0.0 as int),
                old(self).large_at(parent.0.0 as int),
            ),
            forall|i: int|
                0 <= i < old(self).len() && i != parent.0.0 as int ==> final(self).slots()[i]
                    == old(self).slots()[i],
            forall|i: int| 0 <= i < old(self).len() ==> final(self).parents()[i] == old(self).parents()[i],
            final(self).body_total() == old(self).body_total() + 1,
    {
        let ghost pre = *self;
        let n = self.slots.len();
        let p = parent.0.0 as usize;
        let id = LargeBodyId(BodyId(n as u32));
        let taken = self.replace_slot(p, None);
        let mut host = match taken {
            Some(Body::Large(b)) => b,
            _ => unreached(),
        };
        proof {
            assert(pre.is_large(p as int));
            assert(!host.large@.contains(id)) by {
                if host.large@.contains(id) {
                    let k = choose|k: int| 0 <= k < host.large@.len() && host.large@[k] == id;
                    assert(pre.large_at(p as int).large@[k] == id);
                }
            }
            lemma_push_entry(host.large@, id);
        }
        host.large.push(id);
        self.replace_slot(p, Some(Body::Large(host)));
        let body = LargeBody {
            id,
            large: Vec::new(),
            small: Vec::new(),
            surface_radius,
            grav_radius,
            mass,
            orbit: Some(orbit),
        };
        self.slots.push(Some(Body::Large(body)));
        self.parent_index.push(Some(parent));
        proof {
            let post = *self;
            assert(post.slots() == pre.slots().update(p as int, Some(Body::Large(host))).push(
                Some(Body::Large(body)),
            ));
            assert(post.slots().drop_last() =~= pre.slots().update(p as int, Some(Body::Large(host))));
            lemma_count_update(pre.slots(), p as int, Some(Body::Large(host)));
            assert(post.large_at(n as int) == body);
            assert(post.is_large(p as int));
            assert(post.large_at(p as int) == host);
            assert(post.ids_match()) by {
                assert forall|i: int| #[trigger] post.has(i) implies post.slots()[i]->Some_0.spec_id()
                    == BodyId(i as u32) by {
                    if i < n {
                        assert(pre.has(i));
                    }
                }
            }
            assert(post.index_complete());
            assert(post.index_sound()) by {
                assert forall|i: int|
                    0 <= i < post.len() && #[trigger] post.parents()[i] is Some implies {
                        let q = post.parents()[i]->Some_0.0.0 as int;
                        &&& post.is_large(q)
                        &&& post.is_large(i) ==> post.large_at(q).large@.contains(lid(i))
                        &&& post.is_small(i) ==> post.large_at(q).small@.contains(sid(i))
                    } by {
                    if i < n {
                        assert(pre.parents()[i] is Some);
                        let q = pre.parents()[i]->Some_0.0.0 as int;
                        if q == p as int && post.is_large(i) {
                            assert(pre.large_at(q).large@.contains(lid(i)));
                            let k = choose|k: int| 0 <= k < pre.large_at(q).large@.len() && pre.large_at(q).large@[k] == lid(i);
                            assert(host.large@[k] == lid(i));
                        }
                    } else {
                        assert(host.large@[host.large@.len() - 1] == lid(i));
                    }
                }
            }
            assert(post.children_indexed()) by {
                assert forall|q: int, k: int|
                    post.is_large(q) && 0 <= k < post.large_at(q).large@.len() implies {
                        let c = (#[trigger] post.large_at(q).large@[k]).0.0 as int;
                        &&& post.is_large(c)
                        &&& c < post.len()
                        &&& post.parents()[c] == Some(lid(q))
                    } by {
                    if q != p as int && q < n {
                        assert(pre.large_at(q).large@[k] == post.large_at(q).large@[k]);
                    } else if q == p as int && k < host.large@.len() - 1 {
                        assert(pre.large_at(q).large@[k] == post.large_at(q).large@[k]);
                    }
                }
                assert forall|q: int, k: int|
                    post.is_large(q) && 0 <= k < post.large_at(q).small@.len() implies {
                        let c = (#[trigger] post.large_at(q).small@[k]).0.0 as int;
                        &&& post.is_small(c)
                        &&& c < post.len()
                        &&& post.parents()[c] == Some(lid(q))
                    } by {
                    if q < n {
                        assert(pre.large_at(q).small@[k] == post.large_at(q).small@[k]);
                    }
                }
            }
            assert forall|q: int| #[trigger] post.is_large(q) && q < n implies pre.is_large(q) by {}
            assert(post.lists_distinct());
            assert(post.radii_ordered());
            assert(post.orbits_present());
        }
        id
    }
}

impl Tree {
    /// Adds a new small body inside field `parent`. Its identity is the next
    /// one not yet handed out.
    pub fn add_small(&mut self, parent: LargeBodyId, mass: Mass, radius: Length, orbit: Orbit) -> (r:
        SmallBodyId)
        requires
            old(self).wf(),
            old(self).is_large(parent.0.0 as int),
            old(self).len() < u32::MAX,
        ensures
            final(self).wf(),
            r == sid(old(self).len()),
            final(self).len() == old(self).len() + 1,
            final(self).spec_root() == old(self).spec_root(),
            final(self).is_small(old(self).len()),
            final(self).small_at(old(self).len()) == (SmallBody { id: r, mass, radius, orbit }),
            final(self).parent_of(old(self).len()) == Some(parent),
            final(self).large_at(parent.0.0 as int).small@ == old(self).large_at(
                parent.0.0 as int,
            ).small@.push(r),
            final(self).large_at(parent.0.0 as int).large@ == old(self).large_at(
                parent.0.0 as int,
            ).large@,
            same_but_children(
                final(self).large_at(parent.0.0 as int),
                old(self).large_at(parent.0.0 as int),
            ),
            forall|i: int|
                0 <= i < old(self).len() && i != parent.0.0 as int ==> final(self).slots()[i]
                    == old(self).slots()[i],
            forall|i: int| 0 <= i < old(self).len() ==> final(self).parents()[i] == old(self).parents()[i],
            final(self).body_total() == old(self).body_total() + 1,
    {
        let ghost pre = *self;
        let n = self.slots.len();
        let p = parent.0.0 as usize;
        let id = SmallBodyId(BodyId(n as u32));
        let taken = self.replace_slot(p, None);
        let mut host = match taken {
            Some(Body::Large(b)) => b,
            _ => unreached(),
        };
        proof {
            assert(pre.is_large(p as int));
            assert(!host.small@.contains(id)) by {
                if host.small@.contains(id) {
                    let k = choose|k: int| 0 <= k < host.small@.len() && host.small@[k] == id;
                    assert(pre.large_at(p as int).small@[k] == id);
                }
            }
            lemma_push_entry(host.small@, id);
        }
        host.small.push(id);
        self.replace_slot(p, Some(Body::Large(host)));
        let body = SmallBody { id, mass, radius, orbit };
        self.slots.push(Some(Body::Small(body)));
        self.parent_index.push(Some(parent));
        proof {
            let post = *self;
            assert(post.slots() == pre.slots().update(p as int, Some(Body::Large(host))).push(
                Some(Body::Small(body)),
            ));
            assert(post.slots().drop_last() =~= pre.slots().update(p as int, Some(Body::Large(host))));
            lemma_count_update(pre.slots(), p as int, Some(Body::Large(host)));
            assert(post.small_at(n as int) == body);
            assert(post.is_large(p as int));
            assert(post.large_at(p as int) == host);
            assert(post.ids_match()) by {
                assert forall|i: int| #[trigger] post.has(i) implies post.slots()[i]->Some_0.spec_id()
                    == BodyId(i as u32) by {
                    if i < n {
                        assert(pre.has(i));
                    }
                }
            }
            assert(post.index_complete());
            assert(post.index_sound()) by {
                assert forall|i: int|
                    0 <= i < post.len() && #[trigger] post.parents()[i] is Some implies {
                        let q = post.parents()[i]->Some_0.0.0 as int;
                        &&& post.is_large(q)
                        &&& post.is_large(i) ==> post.large_at(q).large@.contains(lid(i))
                        &&& post.is_small(i) ==> post.large_at(q).small@.contains(sid(i))
                    } by {
                    if i < n {
                        assert(pre.parents()[i] is Some);
                        let q = pre.parents()[i]->Some_0.0.0 as int;
                        if q == p as int && post.is_small(i) {
                            assert(pre.large_at(q).small@.contains(sid(i)));
                            let k = choose|k: int| 0 <= k < pre.large_at(q).small@.len() && pre.large_at(q).small@[k] == sid(i);
                            assert(host.small@[k] == sid(i));
                        }
                    } else {
                        assert(host.small@[host.small@.len() - 1] == sid(i));
                    }
                }
            }
            assert(post.children_indexed()) by {
                assert forall|q: int, k: int|
                    post.is_large(q) && 0 <= k < post.large_at(q).small@.len() implies {
                        let c = (#[trigger] post.large_at(q).small@[k]).0.0 as int;
                        &&& post.is_small(c)
                        &&& c < post.len()
                        &&& post.parents()[c] == Some(lid(q))
                    } by {
                    if q != p as int && q < n {
                        assert(pre.large_at(q).small@[k] == post.large_at(q).small@[k]);
                    } else if q == p as int && k < host.small@.len() - 1 {
                        assert(pre.large_at(q).small@[k] == post.large_at(q).small@[k]);
                    }
                }
                assert forall|q: int, k: int|
                    post.is_large(q) && 0 <= k < post.large_at(q).large@.len() implies {
                        let c = (#[trigger] post.large_at(q).large@[k]).0.0 as int;
                        &&& post.is_large(c)
                        &&& c < post.len()
                        &&& post.parents()[c] == Some(lid(q))
                    } by {
                    if q < n {
                        assert(pre.large_at(q).large@[k] == post.large_at(q).large@[k]);
                    }
                }
            }
            assert forall|q: int| #[trigger] post.is_large(q) implies pre.is_large(q) && q < n by {}
            assert(post.lists_distinct());
            assert(post.radii_ordered());
            assert(post.orbits_present());
        }
        id
    }
}

/// The index at which a small-body identity stands in a list that holds it.
fn small_position(list: &Vec<SmallBodyId>, x: SmallBodyId) -> (r: usize)
    requires
        list@.contains(x),
    ensures
        r < list@.len(),
        list@[r as int] == x,
{
    let mut i: usize = 0;
    while i < list.len()
        invariant
            i <= list@.len(),
            list@.contains(x),
            forall|j: int| 0 <= j < i ==> list@[j] != x,
        decreases list@.len() - i,
    {
        if list[i] == x {
            return i;
        }
        i = i + 1;
    }
    proof {
        let k = choose|k: int| 0 <= k < list@.len() && list@[k] == x;
        assert(list@[k] != x);
    }
    unreached()
}

/// The index at which a large-body identity stands in a list that holds it.
fn large_position(list: &Vec<LargeBodyId>, x: LargeBodyId) -> (r: usize)
    requires
        list@.contains(x),
    ensures
        r < list@.len(),
        list@[r as int] == x,
{
    let mut i: usize = 0;
    while i < list.len()
        invariant
            i <= list@.len(),
            list@.contains(x),
            forall|j: int| 0 <= j < i ==> list@[j] != x,
        decreases list@.len() - i,
    {
        if list[i] == x {
            return i;
        }
        i = i + 1;
    }
    proof {
        let k = choose|k: int| 0 <= k < list@.len() && list@[k] == x;
        assert(list@[k] != x);
    }
    unreached()
}

impl Tree {
    /// Moves a small body from the field it lies in to field `to`, and gives
    /// it a new orbit. Its identity is kept.
    pub fn move_small(&mut self, id: SmallBodyId, to: LargeBodyId, orbit: Orbit)
        requires
            old(self).wf(),
            old(self).is_small(id.0.0 as int),
            old(self).is_large(to.0.0 as int),
            old(self).parent_of(id.0.0 as int) != Some(to),
        ensures
            final(self).wf(),
            final(self).spec_root() == old(self).spec_root(),
            final(self).len() == old(self).len(),
            final(self).body_total() == old(self).body_total(),
            final(self).parent_of(id.0.0 as int) == Some(to),
            final(self).is_small(id.0.0 as int),
            final(self).small_at(id.0.0 as int) == (SmallBody { orbit, ..old(self).small_at(id.0.0 as int) }),
            final(self).large_at(to.0.0 as int).small@ == old(self).large_at(to.0.0 as int).small@.push(id),
            final(self).large_at(to.0.0 as int).large@ == old(self).large_at(to.0.0 as int).large@,
            same_but_children(final(self).large_at(to.0.0 as int), old(self).large_at(to.0.0 as int)),
            ({
                let f = old(self).parent_of(id.0.0 as int)->Some_0.0.0 as int;
                &&& final(self).large_at(f).large@ == old(self).large_at(f).large@
                &&& final(self).large_at(f).small@.len() + 1 == old(self).large_at(f).small@.len()
                &&& forall|x: SmallBodyId| final(self).large_at(f).small@.contains(x) <==> (old(self).large_at(f).small@.contains(x) && x != id)
                &&& same_but_children(final(self).large_at(f), old(self).large_at(f))
                &&& forall|i: int| 0 <= i < old(self).len() && i != f && i != to.0.0 as int && i != id.0.0 as int
                    ==> final(self).slots()[i] == old(self).slots()[i]
            }),
            forall|i: int| 0 <= i < old(self).len() && i != id.0.0 as int ==> final(self).parents()[i] == old(self).parents()[i],
    {
        let ghost pre = *self;
        let c = id.0.0 as usize;
        let t = to.0.0 as usize;
        proof {
            assert(pre.parents()[c as int] is Some);
        }
        let from = match self.parent_index[c] {
            Some(f) => f,
            None => unreached(),
        };
        let f = from.0.0 as usize;
        proof {
            assert(pre.is_large(f as int));
            assert(pre.large_at(f as int).small@.contains(id));
            assert(f != t);
        }
        let taken = self.replace_slot(f, None);
        let mut host_from = match taken {
            Some(Body::Large(b)) => b,
            _ => unreached(),
        };
        let k = small_position(&host_from.small, id);
        proof {
            lemma_remove_entry(host_from.small@, k as int);
        }
        let ghost from_list = host_from.small@;
        host_from.small.remove(k);
        self.replace_slot(f, Some(Body::Large(host_from)));
        let taken = self.replace_slot(t, None);
        let mut host_to = match taken {
            Some(Body::Large(b)) => b,
            _ => unreached(),
        };
        proof {
            assert(pre.is_large(t as int));
            assert(!host_to.small@.contains(id)) by {
                if host_to.small@.contains(id) {
                    let j = choose|j: int| 0 <= j < host_to.small@.len() && host_to.small@[j] == id;
                    assert(pre.large_at(t as int).small@[j] == id);
                }
            }
            lemma_push_entry(host_to.small@, id);
        }
        host_to.small.push(id);
        self.replace_slot(t, Some(Body::Large(host_to)));
        let taken = self.replace_slot(c, None);
        let mut body = match taken {
            Some(Body::Small(b)) => b,
            _ => unreached(),
        };
        body.orbit = orbit;
        self.replace_slot(c, Some(Body::Small(body)));
        self.replace_parent(c, Some(to));
        proof {
            let post = *self;
            let s1 = pre.slots().update(f as int, Some(Body::Large(host_from)));
            let s2 = s1.update(t as int, Some(Body::Large(host_to)));
            assert(post.slots() == s2.update(c as int, Some(Body::Small(body))));
            lemma_count_update(pre.slots(), f as int, Some(Body::Large(host_from)));
            lemma_count_update(s1, t as int, Some(Body::Large(host_to)));
            lemma_count_update(s2, c as int, Some(Body::Small(body)));
            assert(post.large_at(f as int) == host_from);
            assert(post.large_at(t as int) == host_to);
            assert(post.small_at(c as int) == body);
            assert forall|i: int| 0 <= i < post.len() implies (#[trigger] post.has(i) <==> pre.has(i))
                && (post.is_large(i) <==> pre.is_large(i)) && (post.is_small(i) <==> pre.is_small(i)) by {}
            assert(post.ids_match()) by {
                assert forall|i: int| #[trigger] post.has(i) implies post.slots()[i]->Some_0.spec_id()
                    == BodyId(i as u32) by {
                    assert(pre.has(i));
                }
            }
            assert(post.index_complete()) by {
                assert forall|i: int| 0 <= i < post.len() && i != post.root_index() implies (
                    #[trigger] post.parents()[i] is Some <==> post.has(i)) by {
                    assert(pre.parents()[i] is Some <==> pre.has(i));
                }
            }
            assert(post.index_sound()) by {
                assert forall|i: int|
                    0 <= i < post.len() && #[trigger] post.parents()[i] is Some implies {
                        let q = post.parents()[i]->Some_0.0.0 as int;
                        &&& post.is_large(q)
                        &&& post.is_large(i) ==> post.large_at(q).large@.contains(lid(i))
                        &&& post.is_small(i) ==> post.large_at(q).small@.contains(sid(i))
                    } by {
                    if i == c as int {
                        assert(host_to.small@[host_to.small@.len() - 1] == sid(i));
                    } else {
                        assert(pre.parents()[i] is Some);
                        let q = pre.parents()[i]->Some_0.0.0 as int;
                        assert(pre.is_large(q));
                        if post.is_small(i) {
                            assert(pre.large_at(q).small@.contains(sid(i)));
                            assert(sid(i) != id);
                            if q == t as int {
                                let j = choose|j: int| 0 <= j < pre.large_at(q).small@.len() && pre.large_at(q).small@[j] == sid(i);
                                assert(host_to.small@[j] == sid(i));
                            }
                        }
                        if post.is_large(i) {
                            assert(pre.large_at(q).large@.contains(lid(i)));
                        }
                    }
                }
            }
            assert(post.children_indexed()) by {
                assert forall|q: int, j: int|
                    post.is_large(q) && 0 <= j < post.large_at(q).small@.len() implies {
                        let e = (#[trigger] post.large_at(q).small@[j]).0.0 as int;
                        &&& post.is_small(e)
                        &&& e < post.len()
                        &&& post.parents()[e] == Some(lid(q))
                    } by {
                    let e = post.large_at(q).small@[j];
                    assert(pre.is_large(q));
                    if q == f as int {
                        let jj = if j < k { j } else { j + 1 };
                        assert(from_list[jj] == e);
                        assert(e != id);
                    } else if q == t as int {
                        if j < host_to.small@.len() - 1 {
                            assert(pre.large_at(q).small@[j] == e);
                        }
                    } else {
                        assert(pre.large_at(q).small@[j] == e);
                        assert(e != id);
                    }
                }
                assert forall|q: int, j: int|
                    post.is_large(q) && 0 <= j < post.large_at(q).large@.len() implies {
                        let e = (#[trigger] post.large_at(q).large@[j]).0.0 as int;
                        &&& post.is_large(e)
                        &&& e < post.len()
                        &&& post.parents()[e] == Some(lid(q))
                    } by {
                    assert(pre.is_large(q));
                    assert(pre.large_at(q).large@[j] == post.large_at(q).large@[j]);
                }
            }
            assert forall|q: int| #[trigger] post.is_large(q) implies pre.is_large(q) by {}
            assert(post.lists_distinct());
            assert(post.radii_ordered());
            assert(post.orbits_present());
        }
    }

    /// Moves a large body, with everything inside its field, from the field it lies in to field `to`, and gives
    /// it a new orbit. Its identity is kept.
    pub fn move_large(&mut self, id: LargeBodyId, to: LargeBodyId, orbit: Orbit)
        requires
            old(self).wf(),
            old(self).is_large(id.0.0 as int),
            old(self).is_large(to.0.0 as int),
            id.0.0 as int != old(self).root_index(),
            id != to,
            old(self).parent_of(id.0.0 as int) != Some(to),
        ensures
            final(self).wf(),
            final(self).spec_root() == old(self).spec_root(),
            final(self).len() == old(self).len(),
            final(self).body_total() == old(self).body_total(),
            final(self).parent_of(id.0.0 as int) == Some(to),
            final(self).is_large(id.0.0 as int),
            final(self).large_at(id.0.0 as int).orbit == Some(orbit),
            final(self).large_at(id.0.0 as int).large@ == old(self).large_at(id.0.0 as int).large@,
            final(self).large_at(id.0.0 as int).small@ == old(self).large_at(id.0.0 as int).small@,
            final(self).large_at(id.0.0 as int).id == id,
            final(self).large_at(id.0.0 as int).mass == old(self).large_at(id.0.0 as int).mass,
            final(self).large_at(id.0.0 as int).surface_radius == old(self).large_at(id.0.0 as int).surface_radius,
            final(self).large_at(id.0.0 as int).grav_radius == old(self).large_at(id.0.0 as int).grav_radius,
            final(self).large_at(to.0.0 as int).large@ == old(self).large_at(to.0.0 as int).large@.push(id),
            final(self).large_at(to.0.0 as int).small@ == old(self).large_at(to.0.0 as int).small@,
            same_but_children(final(self).large_at(to.0.0 as int), old(self).large_at(to.0.0 as int)),
            ({
                let f = old(self).parent_of(id.0.0 as int)->Some_0.0.0 as int;
                &&& final(self).large_at(f).small@ == old(self).large_at(f).small@
                &&& final(self).large_at(f).large@.len() + 1 == old(self).large_at(f).large@.len()
                &&& forall|x: LargeBodyId| final(self).large_at(f).large@.contains(x) <==> (old(self).large_at(f).large@.contains(x) && x != id)
                &&& same_but_children(final(self).large_at(f), old(self).large_at(f))
                &&& forall|i: int| 0 <= i < old(self).len() && i != f && i != to.0.0 as int && i != id.0.0 as int
                    ==> final(self).slots()[i] == old(self).slots()[i]
            }),
            forall|i: int| 0 <= i < old(self).len() && i != id.0.0 as int ==> final(self).parents()[i] == old(self).parents()[i],
    {
        let ghost pre = *self;
        let c = id.0.0 as usize;
        let t = to.0.0 as usize;
        proof {
            assert(pre.parents()[c as int] is Some);
        }
        let from = match self.parent_index[c] {
            Some(f) => f,
            None => unreached(),
        };
        let f = from.0.0 as usize;
        proof {
            assert(pre.is_large(f as int));
            assert(pre.large_at(f as int).large@.contains(id));
            assert(f != t);
            assert(f != c);
        }
        let taken = self.replace_slot(f, None);
        let mut host_from = match taken {
            Some(Body::Large(b)) => b,
            _ => unreached(),
        };
        let k = large_position(&host_from.large, id);
        proof {
            lemma_remove_entry(host_from.large@, k as int);
        }
        let ghost from_list = host_from.large@;
        host_from.large.remove(k);
        self.replace_slot(f, Some(Body::Large(host_from)));
        let taken = self.replace_slot(t, None);
        let mut host_to = match taken {
            Some(Body::Large(b)) => b,
            _ => unreached(),
        };
        proof {
            assert(pre.is_large(t as int));
            assert(!host_to.large@.contains(id)) by {
                if host_to.large@.contains(id) {
                    let j = choose|j: int| 0 <= j < host_to.large@.len() && host_to.large@[j] == id;
                    assert(pre.large_at(t as int).large@[j] == id);
                }
            }
            lemma_push_entry(host_to.large@, id);
        }
        host_to.large.push(id);
        self.replace_slot(t, Some(Body::Large(host_to)));
        let taken = self.replace_slot(c, None);
        let mut body = match taken {
            Some(Body::Large(b)) => b,
            _ => unreached(),
        };
        body.orbit = Some(orbit);
        self.replace_slot(c, Some(Body::Large(body)));
        self.replace_parent(c, Some(to));
        proof {
            let post = *self;
            let s1 = pre.slots().update(f as int, Some(Body::Large(host_from)));
            let s2 = s1.update(t as int, Some(Body::Large(host_to)));
            assert(post.slots() == s2.update(c as int, Some(Body::Large(body))));
            lemma_count_update(pre.slots(), f as int, Some(Body::Large(host_from)));
            lemma_count_update(s1, t as int, Some(Body::Large(host_to)));
            lemma_count_update(s2, c as int, Some(Body::Large(body)));
            assert(post.large_at(f as int) == host_from);
            assert(post.large_at(t as int) == host_to);
            assert(post.large_at(c as int) == body);
            assert forall|i: int| 0 <= i < post.len() implies (#[trigger] post.has(i) <==> pre.has(i))
                && (post.is_large(i) <==> pre.is_large(i)) && (post.is_small(i) <==> pre.is_small(i)) by {}
            assert(post.ids_match()) by {
                assert forall|i: int| #[trigger] post.has(i) implies post.slots()[i]->Some_0.spec_id()
                    == BodyId(i as u32) by {
                    assert(pre.has(i));
                }
            }
            assert(post.index_complete()) by {
                assert forall|i: int| 0 <= i < post.len() && i != post.root_index() implies (
                    #[trigger] post.parents()[i] is Some <==> post.has(i)) by {
                    assert(pre.parents()[i] is Some <==> pre.has(i));
                }
            }
            assert(post.index_sound()) by {
                assert forall|i: int|
                    0 <= i < post.len() && #[trigger] post.parents()[i] is Some implies {
                        let q = post.parents()[i]->Some_0.0.0 as int;
                        &&& post.is_large(q)
                        &&& post.is_large(i) ==> post.large_at(q).large@.contains(lid(i))
                        &&& post.is_small(i) ==> post.large_at(q).small@.contains(sid(i))
                    } by {
                    if i == c as int {
                        assert(host_to.large@[host_to.large@.len() - 1] == lid(i));
                    } else {
                        assert(pre.parents()[i] is Some);
                        let q = pre.parents()[i]->Some_0.0.0 as int;
                        assert(pre.is_large(q));
                        if post.is_large(i) {
                            assert(pre.large_at(q).large@.contains(lid(i)));
                            assert(lid(i) != id);
                            if q == t as int {
                                let j = choose|j: int| 0 <= j < pre.large_at(q).large@.len() && pre.large_at(q).large@[j] == lid(i);
                                assert(host_to.large@[j] == lid(i));
                            }
                        }
                        if post.is_small(i) {
                            assert(pre.large_at(q).small@.contains(sid(i)));
                        }
                    }
                }
            }
            assert(post.children_indexed()) by {
                assert forall|q: int, j: int|
                    post.is_large(q) && 0 <= j < post.large_at(q).large@.len() implies {
                        let e = (#[trigger] post.large_at(q).large@[j]).0.0 as int;
                        &&& post.is_large(e)
                        &&& e < post.len()
                        &&& post.parents()[e] == Some(lid(q))
                    } by {
                    let e = post.large_at(q).large@[j];
                    assert(pre.is_large(q));
                    if q == f as int {
                        let jj = if j < k { j } else { j + 1 };
                        assert(from_list[jj] == e);
                        assert(e != id);
                    } else if q == t as int {
                        if j < host_to.large@.len() - 1 {
                            assert(pre.large_at(q).large@[j] == e);
                        }
                    } else {
                        assert(pre.large_at(q).large@[j] == e);
                        assert(e != id);
                    }
                }
                assert forall|q: int, j: int|
                    post.is_large(q) && 0 <= j < post.large_at(q).small@.len() implies {
                        let e = (#[trigger] post.large_at(q).small@[j]).0.0 as int;
                        &&& post.is_small(e)
                        &&& e < post.len()
                        &&& post.parents()[e] == Some(lid(q))
                    } by {
                    assert(pre.is_large(q));
                    assert(pre.large_at(q).small@[j] == post.large_at(q).small@[j]);
                }
            }
            assert forall|q: int| #[trigger] post.is_large(q) implies pre.is_large(q) by {}
            assert(post.lists_distinct());
            assert(post.radii_ordered());
            assert(post.orbits_present());
        }
    }
}

impl Tree {
    /// Replaces the surface radius, field radius, mass and orbit of a large
    /// body; its place in the tree and its children are kept.
    pub fn set_large_data(
        &mut self,
        id: LargeBodyId,
        surface_radius: Length,
        grav_radius: Length,
        mass: Mass,
        orbit: Option<Orbit>,
    )
        requires
            old(self).wf(),
            old(self).is_large(id.0.0 as int),
            surface_radius.0 < grav_radius.0,
            id.0.0 as int == old(self).root_index() ==> orbit is None && grav_radius.0 == UNBOUNDED,
            id.0.0 as int != old(self).root_index() ==> orbit is Some,
        ensures
            final(self).wf(),
            final(self).spec_root() == old(self).spec_root(),
            final(self).len() == old(self).len(),
            final(self).parents() == old(self).parents(),
            final(self).body_total() == old(self).body_total(),
            final(self).is_large(id.0.0 as int),
            final(self).large_at(id.0.0 as int).id == id,
            final(self).large_at(id.0.0 as int).large@ == old(self).large_at(id.0.0 as int).large@,
            final(self).large_at(id.0.0 as int).small@ == old(self).large_at(id.0.0 as int).small@,
            final(self).large_at(id.0.0 as int).surface_radius == surface_radius,
            final(self).large_at(id.0.0 as int).grav_radius == grav_radius,
            final(self).large_at(id.0.0 as int).mass == mass,
            final(self).large_at(id.0.0 as int).orbit == orbit,
            forall|i: int| 0 <= i < old(self).len() && i != id.0.0 as int ==> final(self).slots()[i] == old(self).slots()[i],
    {
        let ghost pre = *self;
        let c = id.0.0 as usize;
        let taken = self.replace_slot(c, None);
        let mut body = match taken {
            Some(Body::Large(b)) => b,
            _ => unreached(),
        };
        body.surface_radius = surface_radius;
        body.grav_radius = grav_radius;
        body.mass = mass;
        body.orbit = orbit;
        self.replace_slot(c, Some(Body::Large(body)));
        proof {
            let post = *self;
            assert(post.slots() =~= pre.slots().update(c as int, Some(Body::Large(body))));
            lemma_count_update(pre.slots(), c as int, Some(Body::Large(body)));
            assert(post.large_at(c as int) == body);
            assert forall|i: int| 0 <= i < post.len() implies (#[trigger] post.has(i) <==> pre.has(i))
                && (post.is_large(i) <==> pre.is_large(i)) && (post.is_small(i) <==> pre.is_small(i)) by {}
            assert forall|q: int| #[trigger] post.is_large(q) implies pre.is_large(q) by {}
            assert(post.ids_match()) by {
                assert forall|i: int| #[trigger] post.has(i) implies post.slots()[i]->Some_0.spec_id()
                    == BodyId(i as u32) by {
                    assert(pre.has(i));
                }
            }
            assert(post.index_complete()) by {
                assert forall|i: int| 0 <= i < post.len() && i != post.root_index() implies (
                    #[trigger] post.parents()[i] is Some <==> post.has(i)) by {
                    assert(pre.parents()[i] is Some <==> pre.has(i));
                }
            }
            assert(post.index_sound()) by {
                assert forall|i: int|
                    0 <= i < post.len() && #[trigger] post.parents()[i] is Some implies {
                        let q = post.parents()[i]->Some_0.0.0 as int;
                        &&& post.is_large(q)
                        &&& post.is_large(i) ==> post.large_at(q).large@.contains(lid(i))
                        &&& post.is_small(i) ==> post.large_at(q).small@.contains(sid(i))
                    } by {
                    assert(pre.parents()[i] is Some);
                }
            }
            assert(post.children_indexed()) by {
                assert forall|q: int, j: int|
                    post.is_large(q) && 0 <= j < post.large_at(q).large@.len() implies {
                        let e = (#[trigger] post.large_at(q).large@[j]).0.0 as int;
                        &&& post.is_large(e)
                        &&& e < post.len()
                        &&& post.parents()[e] == Some(lid(q))
                    } by {
                    assert(pre.large_at(q).large@[j] == post.large_at(q).large@[j]);
                }
                assert forall|q: int, j: int|
                    post.is_large(q) && 0 <= j < post.large_at(q).small@.len() implies {
                        let e = (#[trigger] post.large_at(q).small@[j]).0.0 as int;
                        &&& post.is_small(e)
                        &&& e < post.len()
                        &&& post.parents()[e] == Some(lid(q))
                    } by {
                    assert(pre.large_at(q).small@[j] == post.large_at(q).small@[j]);
                }
            }
            assert(post.lists_distinct());
            assert(post.radii_ordered());
            assert(post.orbits_present());
        }
    }

    /// Replaces the mass, radius and orbit of a small body; its place in the
    /// tree is kept.
    pub fn set_small_data(&mut self, id: SmallBodyId, mass: Mass, radius: Length, orbit: Orbit)
        requires
            old(self).wf(),
            old(self).is_small(id.0.0 as int),
        ensures
            final(self).wf(),
            final(self).spec_root() == old(self).spec_root(),
            final(self).len() == old(self).len(),
            final(self).parents() == old(self).parents(),
            final(self).body_total() == old(self).body_total(),
            final(self).is_small(id.0.0 as int),
            final(self).small_at(id.0.0 as int) == (SmallBody { id, mass, radius, orbit }),
            forall|i: int| 0 <= i < old(self).len() && i != id.0.0 as int ==> final(self).slots()[i] == old(self).slots()[i],
    {
        let ghost pre = *self;
        let c = id.0.0 as usize;
        let body = SmallBody { id, mass, radius, orbit };
        self.replace_slot(c, Some(Body::Small(body)));
        proof {
            let post = *self;
            lemma_count_update(pre.slots(), c as int, Some(Body::Small(body)));
            assert(post.small_at(c as int) == body);
            assert(pre.small_at(c as int).id == id);
            assert forall|i: int| 0 <= i < post.len() implies (#[trigger] post.has(i) <==> pre.has(i))
                && (post.is_large(i) <==> pre.is_large(i)) && (post.is_small(i) <==> pre.is_small(i)) by {}
            assert forall|q: int| #[trigger] post.is_large(q) implies pre.is_large(q) && post.large_at(q) == pre.large_at(q) by {}
            assert(post.ids_match()) by {
                assert forall|i: int| #[trigger] post.has(i) implies post.slots()[i]->Some_0.spec_id()
                    == BodyId(i as u32) by {
                    assert(pre.has(i));
                }
            }
            assert(post.index_complete()) by {
                assert forall|i: int| 0 <= i < post.len() && i != post.root_index() implies (
                    #[trigger] post.parents()[i] is Some <==> post.has(i)) by {
                    assert(pre.parents()[i] is Some <==> pre.has(i));
                }
            }
            assert(post.index_sound()) by {
                assert forall|i: int|
                    0 <= i < post.len() && #[trigger] post.parents()[i] is Some implies {
                        let q = post.parents()[i]->Some_0.0.0 as int;
                        &&& post.is_large(q)
                        &&& post.is_large(i) ==> post.large_at(q).large@.contains(lid(i))
                        &&& post.is_small(i) ==> post.large_at(q).small@.contains(sid(i))
                    } by {
                    assert(pre.parents()[i] is Some);
                }
            }
            assert(post.children_indexed()) by {
                assert forall|q: int, j: int|
                    post.is_large(q) && 0 <= j < post.large_at(q).large@.len() implies {
                        let e = (#[trigger] post.large_at(q).large@[j]).0.0 as int;
                        &&& post.is_large(e)
                        &&& e < post.len()
                        &&& post.parents()[e] == Some(lid(q))
                    } by {
                    assert(pre.large_at(q).large@[j] == post.large_at(q).large@[j]);
                }
                assert forall|q: int, j: int|
                    post.is_large(q) && 0 <= j < post.large_at(q).small@.len() implies {
                        let e = (#[trigger] post.large_at(q).small@[j]).0.0 as int;
                        &&& post.is_small(e)
                        &&& e < post.len()
                        &&& post.parents()[e] == Some(lid(q))
                    } by {
                    assert(pre.large_at(q).small@[j] == post.large_at(q).small@[j]);
                }
            }
            assert(post.lists_distinct());
            assert(post.radii_ordered());
            assert(post.orbits_present());
        }
    }
}

impl Tree {
    /// Takes a small body out of the tree. Its identity is not handed out again.
    pub fn remove_small(&mut self, id: SmallBodyId)
        requires
            old(self).wf(),
            old(self).is_small(id.0.0 as int),
        ensures
            final(self).wf(),
            final(self).spec_root() == old(self).spec_root(),
            final(self).len() == old(self).len(),
            !final(self).has(id.0.0 as int),
            final(self).body_total() + 1 == old(self).body_total(),
            ({
                let f = old(self).parent_of(id.0.0 as int)->Some_0.0.0 as int;
                &&& final(self).large_at(f).large@ == old(self).large_at(f).large@
                &&& final(self).large_at(f).small@.len() + 1 == old(self).large_at(f).small@.len()
                &&& forall|x: SmallBodyId| final(self).large_at(f).small@.contains(x) <==> (old(self).large_at(f).small@.contains(x) && x != id)
                &&& same_but_children(final(self).large_at(f), old(self).large_at(f))
                &&& forall|i: int| 0 <= i < old(self).len() && i != f && i != id.0.0 as int
                    ==> final(self).slots()[i] == old(self).slots()[i]
            }),
            forall|i: int| 0 <= i < old(self).len() && i != id.0.0 as int ==> final(self).parents()[i] == old(self).parents()[i],
    {
        let ghost pre = *self;
        let c = id.0.0 as usize;
        proof {
            assert(pre.parents()[c as int] is Some);
        }
        let from = match self.parent_index[c] {
            Some(f) => f,
            None => unreached(),
        };
        let f = from.0.0 as usize;
        proof {
            assert(pre.is_large(f as int));
            assert(pre.large_at(f as int).small@.contains(id));
        }
        let taken = self.replace_slot(f, None);
        let mut host_from = match taken {
            Some(Body::Large(b)) => b,
            _ => unreached(),
        };
        let k = small_position(&host_from.small, id);
        proof {
            lemma_remove_entry(host_from.small@, k as int);
        }
        let ghost from_list = host_from.small@;
        host_from.small.remove(k);
        self.replace_slot(f, Some(Body::Large(host_from)));
        self.replace_slot(c, None);
        self.replace_parent(c, None);
        proof {
            let post = *self;
            let s1 = pre.slots().update(f as int, Some(Body::Large(host_from)));
            assert(post.slots() == s1.update(c as int, None));
            lemma_count_update(pre.slots(), f as int, Some(Body::Large(host_from)));
            lemma_count_clear(s1, c as int);
            assert(post.large_at(f as int) == host_from);
            assert forall|i: int| 0 <= i < post.len() && i != c as int implies (#[trigger] post.has(i) <==> pre.has(i))
                && (post.is_large(i) <==> pre.is_large(i)) && (post.is_small(i) <==> pre.is_small(i)) by {}
            assert forall|q: int| #[trigger] post.is_large(q) implies pre.is_large(q) by {}
            assert(post.ids_match()) by {
                assert forall|i: int| #[trigger] post.has(i) implies post.slots()[i]->Some_0.spec_id()
                    == BodyId(i as u32) by {
                    assert(pre.has(i));
                }
            }
            assert(post.index_complete()) by {
                assert forall|i: int| 0 <= i < post.len() && i != post.root_index() implies (
                    #[trigger] post.parents()[i] is Some <==> post.has(i)) by {
                    assert(pre.parents()[i] is Some <==> pre.has(i));
                }
            }
            assert(post.index_sound()) by {
                assert forall|i: int|
                    0 <= i < post.len() && #[trigger] post.parents()[i] is Some implies {
                        let q = post.parents()[i]->Some_0.0.0 as int;
                        &&& post.is_large(q)
                        &&& post.is_large(i) ==> post.large_at(q).large@.contains(lid(i))
                        &&& post.is_small(i) ==> post.large_at(q).small@.contains(sid(i))
                    } by {
                    assert(pre.parents()[i] is Some);
                    let q = pre.parents()[i]->Some_0.0.0 as int;
                    assert(pre.is_large(q));
                    if post.is_small(i) {
                        assert(pre.large_at(q).small@.contains(sid(i)));
                        assert(sid(i) != id);
                    }
                    if post.is_large(i) {
                        assert(pre.large_at(q).large@.contains(lid(i)));
                    }
                }
            }
            assert(post.children_indexed()) by {
                assert forall|q: int, j: int|
                    post.is_large(q) && 0 <= j < post.large_at(q).small@.len() implies {
                        let e = (#[trigger] post.large_at(q).small@[j]).0.0 as int;
                        &&& post.is_small(e)
                        &&& e < post.len()
                        &&& post.parents()[e] == Some(lid(q))
                    } by {
                    let e = post.large_at(q).small@[j];
                    assert(pre.is_large(q));
                    if q == f as int {
                        let jj = if j < k { j } else { j + 1 };
                        assert(from_list[jj] == e);
                        assert(e != id);
                    } else {
                        assert(pre.large_at(q).small@[j] == e);
                        assert(e != id);
                    }
                }
                assert forall|q: int, j: int|
                    post.is_large(q) && 0 <= j < post.large_at(q).large@.len() implies {
                        let e = (#[trigger] post.large_at(q).large@[j]).0.0 as int;
                        &&& post.is_large(e)
                        &&& e < post.len()
                        &&& post.parents()[e] == Some(lid(q))
                    } by {
                    assert(pre.is_large(q));
                    assert(pre.large_at(q).large@[j] == post.large_at(q).large@[j]);
                }
            }
            assert(post.lists_distinct());
            assert(post.radii_ordered());
            assert(post.orbits_present());
        }
    }

    /// Takes a large body whose field holds no bodies out of the tree. Its identity is not handed out again.
    pub fn remove_large(&mut self, id: LargeBodyId)
        requires
            old(self).wf(),
            old(self).is_large(id.0.0 as int),
            id.0.0 as int != old(self).root_index(),
            old(self).large_at(id.0.0 as int).large@.len() == 0,
            old(self).large_at(id.0.0 as int).small@.len() == 0,
        ensures
            final(self).wf(),
            final(self).spec_root() == old(self).spec_root(),
            final(self).len() == old(self).len(),
            !final(self).has(id.0.0 as int),
            final(self).body_total() + 1 == old(self).body_total(),
            ({
                let f = old(self).parent_of(id.0.0 as int)->Some_0.0.0 as int;
                &&& final(self).large_at(f).small@ == old(self).large_at(f).small@
                &&& final(self).large_at(f).large@.len() + 1 == old(self).large_at(f).large@.len()
                &&& forall|x: LargeBodyId| final(self).large_at(f).large@.contains(x) <==> (old(self).large_at(f).large@.contains(x) && x != id)
                &&& same_but_children(final(self).large_at(f), old(self).large_at(f))
                &&& forall|i: int| 0 <= i < old(self).len() && i != f && i != id.0.0 as int
                    ==> final(self).slots()[i] == old(self).slots()[i]
            }),
            forall|i: int| 0 <= i < old(self).len() && i != id.0.0 as int ==> final(self).parents()[i] == old(self).parents()[i],
    {
        let ghost pre = *self;
        let c = id.0.0 as usize;
        proof {
            assert(pre.parents()[c as int] is Some);
        }
        let from = match self.parent_index[c] {
            Some(f) => f,
            None => unreached(),
        };
        let f = from.0.0 as usize;
        proof {
            assert(pre.is_large(f as int));
            assert(pre.large_at(f as int).large@.contains(id));
            assert(f != c);
        }
        let taken = self.replace_slot(f, None);
        let mut host_from = match taken {
            Some(Body::Large(b)) => b,
            _ => unreached(),
        };
        let k = large_position(&host_from.large, id);
        proof {
            lemma_remove_entry(host_from.large@, k as int);
        }
        let ghost from_list = host_from.large@;
        host_from.large.remove(k);
        self.replace_slot(f, Some(Body::Large(host_from)));
        self.replace_slot(c, None);
        self.replace_parent(c, None);
        proof {
            let post = *self;
            let s1 = pre.slots().update(f as int, Some(Body::Large(host_from)));
            assert(post.slots() == s1.update(c as int, None));
            lemma_count_update(pre.slots(), f as int, Some(Body::Large(host_from)));
            lemma_count_clear(s1, c as int);
            assert(post.large_at(f as int) == host_from);
            assert forall|i: int| 0 <= i < post.len() && i != c as int implies (#[trigger] post.has(i) <==> pre.has(i))
                && (post.is_large(i) <==> pre.is_large(i)) && (post.is_small(i) <==> pre.is_small(i)) by {}
            assert forall|q: int| #[trigger] post.is_large(q) implies pre.is_large(q) by {}
            assert(post.ids_match()) by {
                assert forall|i: int| #[trigger] post.has(i) implies post.slots()[i]->Some_0.spec_id()
                    == BodyId(i as u32) by {
                    assert(pre.has(i));
                }
            }
            assert(post.index_complete()) by {
                assert forall|i: int| 0 <= i < post.len() && i != post.root_index() implies (
                    #[trigger] post.parents()[i] is Some <==> post.has(i)) by {
                    assert(pre.parents()[i] is Some <==> pre.has(i));
                }
            }
            assert(post.index_sound()) by {
                assert forall|i: int|
                    0 <= i < post.len() && #[trigger] post.parents()[i] is Some implies {
                        let q = post.parents()[i]->Some_0.0.0 as int;
                        &&& post.is_large(q)
                        &&& post.is_large(i) ==> post.large_at(q).large@.contains(lid(i))
                        &&& post.is_small(i) ==> post.large_at(q).small@.contains(sid(i))
                    } by {
                    assert(pre.parents()[i] is Some);
                    let q = pre.parents()[i]->Some_0.0.0 as int;
                    assert(pre.is_large(q));
                    if q == c as int {
                        if pre.is_large(i) {
                            assert(pre.large_at(q).large@.contains(lid(i)));
                        } else {
                            assert(pre.large_at(q).small@.contains(sid(i)));
                        }
                    }
                    if post.is_large(i) {
                        assert(pre.large_at(q).large@.contains(lid(i)));
                        assert(lid(i) != id);
                    }
                    if post.is_small(i) {
                        assert(pre.large_at(q).small@.contains(sid(i)));
                    }
                }
            }
            assert(post.children_indexed()) by {
                assert forall|q: int, j: int|
                    post.is_large(q) && 0 <= j < post.large_at(q).large@.len() implies {
                        let e = (#[trigger] post.large_at(q).large@[j]).0.0 as int;
                        &&& post.is_large(e)
                        &&& e < post.len()
                        &&& post.parents()[e] == Some(lid(q))
                    } by {
                    let e = post.large_at(q).large@[j];
                    assert(pre.is_large(q));
                    if q == f as int {
                        let jj = if j < k { j } else { j + 1 };
                        assert(from_list[jj] == e);
                        assert(e != id);
                    } else {
                        assert(pre.large_at(q).large@[j] == e);
                        assert(e != id);
                    }
                }
                assert forall|q: int, j: int|
                    post.is_large(q) && 0 <= j < post.large_at(q).small@.len() implies {
                        let e = (#[trigger] post.large_at(q).small@[j]).0.0 as int;
                        &&& post.is_small(e)
                        &&& e < post.len()
                        &&& post.parents()[e] == Some(lid(q))
                    } by {
                    assert(pre.is_large(q));
                    assert(pre.large_at(q).small@[j] == post.large_at(q).small@[j]);
                }
            }
            assert(post.lists_distinct());
            assert(post.radii_ordered());
            assert(post.orbits_present());
        }
    }
}

/// Emptying an occupied slot lowers the count by one.
proof fn lemma_count_clear(s: Seq<Option<Body>>, i: int)
    requires
        0 <= i < s.len(),
        s[i] is Some,
    ensures
        count_present(s.update(i, None)) + 1 == count_present(s),
    decreases s.len(),
{
    if i == s.len() - 1 {
        assert(s.update(i, None).drop_last() =~= s.drop_last());
    } else {
        assert(s.update(i, None).drop_last() =~= s.drop_last().update(i, None));
        lemma_count_clear(s.drop_last(), i);
    }
}

/// Replacing one slot by another occupied one keeps the count.
proof fn lemma_count_update(s: Seq<Option<Body>>, i: int, v: Option<Body>)
    requires
        0 <= i < s.len(),
        s[i] is Some,
        v is Some,
    ensures
        count_present(s.update(i, v)) == count_present(s),
    decreases s.len(),
{
    if i == s.len() - 1 {
        assert(s.update(i, v).drop_last() =~= s.drop_last());
    } else {
        assert(s.update(i, v).drop_last() =~= s.drop_last().update(i, v));
        lemma_count_update(s.drop_last(), i, v);
    }
}

} // verus!
