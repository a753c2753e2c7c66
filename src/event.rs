//! Scheduled events and the queue that orders them by time, then by identity.
use vstd::prelude::*;

use crate::body::{BodyId, LargeBodyId};
use crate::math::Time;

verus! {

/// The identity of a scheduled event; handed out in increasing order.
#[derive(Debug, Clone, Copy, PartialEq, Eq, Structural, PartialOrd, Ord, Hash)]
pub struct EventId(pub u32);

/// Two bodies meet.
#[derive(Debug, Clone, Copy, PartialEq, Eq, Structural)]
pub struct Collision {
    pub body1: BodyId,
    pub body2: BodyId,
}

/// `body` crosses from field `from` into field `to`; one of the two fields
/// lies directly inside the other.
#[derive(Debug, Clone, Copy, PartialEq, Eq, Structural)]
pub struct FieldChange {
    pub body: BodyId,
    pub from: LargeBodyId,
    pub to: LargeBodyId,
}

/// What happens when an event fires.
#[derive(Debug, Clone, Copy, PartialEq, Eq, Structural)]
pub enum EventType {
    Collision(Collision),
    FieldChange(FieldChange),
    /// A deferred action, named by a tag that the scheduler chose and that is
    /// handed back when the event fires.
    Misc(u64),
}

/// A scheduled event. Its identity is the pair of its id and its time: two
/// events are equal when both agree, whatever they carry.
#[derive(Debug, Clone, Copy)]
pub struct Event {
    pub id: EventId,
    pub time: Time,
    pub ty: EventType,
}

impl PartialEq for Event {
    fn eq(&self, other: &Event) -> (r: bool) {
        self.id.0 == other.id.0 && self.time.0 == other.time.0
    }
}

impl vstd::std_specs::cmp::PartialEqSpecImpl for Event {
    open spec fn obeys_eq_spec() -> bool {
        true
    }

    open spec fn eq_spec(&self, other: &Event) -> bool {
        self.id == other.id && self.time == other.time
    }
}

impl Eq for Event {
}

impl Event {
    pub fn id(&self) -> (r: EventId)
        ensures
            r == self.id,
    {
        self.id
    }

    pub fn time(&self) -> (r: Time)
        ensures
            r == self.time,
    {
        self.time
    }

    pub fn into_type(self) -> (r: EventType)
        ensures
            r == self.ty,
    {
        self.ty
    }
}

/// Whether `a` fires before `b`: earlier time first, then lower identity.
pub open spec fn fires_before(a: Event, b: Event) -> bool {
    a.time.0 < b.time.0 || (a.time.0 == b.time.0 && a.id.0 < b.id.0)
}

/// Whether a sequence of events is in firing order, without two equal keys.
pub open spec fn in_firing_order(s: Seq<Event>) -> bool {
    forall|i: int, j: int| 0 <= i < j < s.len() ==> fires_before(#[trigger] s[i], #[trigger] s[j])
}

/// A queue in firing order is drained in firing order: of two pending
/// events, the one at the lower position comes out first exactly when it has
/// the earlier time, or the same time and the lower identity.
pub proof fn lemma_drain_order(q: Seq<Event>, i: int, j: int)
    requires
        in_firing_order(q),
        0 <= i < q.len(),
        0 <= j < q.len(),
    ensures
        i < j <==> fires_before(q[i], q[j]),
{
    if j < i {
        assert(fires_before(q[j], q[i]));
    }
}

/// Pending events, kept in firing order.
#[derive(Debug)]
pub struct EventQueue {
    events: Vec<Event>,
}

impl EventQueue {
    /// The pending events, in firing order.
    pub closed spec fn view(self) -> Seq<Event> {
        self.events@
    }

    pub open spec fn wf(self) -> bool {
        in_firing_order(self.view())
    }

    pub fn new() -> (r: EventQueue)
        ensures
            r.wf(),
            r.view() == Seq::<Event>::empty(),
    {
        EventQueue { events: Vec::new() }
    }

    pub fn len(&self) -> (r: usize)
        ensures
            r == self.view().len(),
    {
        self.events.len()
    }

    /// The event that fires first, if any.
    pub fn first(&self) -> (r: Option<Event>)
        ensures
            self.view().len() == 0 ==> r is None,
            self.view().len() > 0 ==> r == Some(self.view()[0]),
    {
        if self.events.len() == 0 {
            None
        } else {
            Some(self.events[0])
        }
    }

    /// Adds an event at its place in firing order.
    pub fn insert(&mut self, event: Event)
        requires
            old(self).wf(),
            forall|i: int|
                0 <= i < old(self).view().len() ==> (#[trigger] old(self).view()[i]).id != event.id,
        ensures
            final(self).wf(),
            exists|k: int|
                0 <= k <= old(self).view().len() && final(self).view() == old(self).view().insert(
                    k,
                    event,
                ),
    {
        let mut k: usize = 0;
        while k < self.events.len() && fires_before_exec(&self.events[k], &event)
            invariant
                k <= self.events@.len(),
                forall|i: int| 0 <= i < k ==> fires_before(#[trigger] self.events@[i], event),
            decreases self.events@.len() - k,
        {
            k = k + 1;
        }
        let ghost pre = self.events@;
        self.events.insert(k, event);
        proof {
            let post = self.events@;
            assert(post == pre.insert(k as int, event));
            assert forall|i: int, j: int| 0 <= i < j < post.len() implies fires_before(
                #[trigger] post[i],
                #[trigger] post[j],
            ) by {
                if j < k {
                    assert(post[i] == pre[i] && post[j] == pre[j]);
                } else if j == k {
                    assert(post[i] == pre[i]);
                } else if i < k {
                    assert(post[i] == pre[i] && post[j] == pre[j - 1]);
                    if j - 1 >= k as int {
                        assert(fires_before(pre[k as int], pre[j - 1]) || k as int == j - 1);
                    }
                } else if i == k {
                    assert(post[j] == pre[j - 1]);
                    assert(!fires_before(pre[k as int], event));
                    assert(pre[k as int].id != event.id);
                    if j - 1 > k as int {
                        assert(fires_before(pre[k as int], pre[j - 1]));
                    }
                } else {
                    assert(post[i] == pre[i - 1] && post[j] == pre[j - 1]);
                }
            }
        }
    }

    /// Removes and returns the event that fires first, if any. It fires
    /// before every event left in the queue.
    pub fn pop_first(&mut self) -> (r: Option<Event>)
        requires
            old(self).wf(),
        ensures
            final(self).wf(),
            old(self).view().len() == 0 ==> r is None && final(self).view() == old(self).view(),
            old(self).view().len() > 0 ==> r == Some(old(self).view()[0]) && final(self).view()
                == old(self).view().drop_first(),
            r is Some ==> forall|i: int|
                0 <= i < final(self).view().len() ==> fires_before(r->Some_0, #[trigger] final(self).view()[i]),
    {
        if self.events.len() == 0 {
            None
        } else {
            let ghost pre = self.events@;
            let e = self.events.remove(0);
            proof {
                assert(self.events@ =~= pre.drop_first());
                assert forall|i: int| 0 <= i < self.events@.len() implies fires_before(
                    e,
                    #[trigger] self.events@[i],
                ) by {
                    assert(self.events@[i] == pre[i + 1]);
                }
            }
            Some(e)
        }
    }
}

/// Executable form of `fires_before`.
fn fires_before_exec(a: &Event, b: &Event) -> (r: bool)
    ensures
        r == fires_before(*a, *b),
{
    a.time.0 < b.time.0 || (a.time.0 == b.time.0 && a.id.0 < b.id.0)
}

} // verus!
