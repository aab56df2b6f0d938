//! The typed publish/subscribe bus.
//!
//! An [`Output<T>`] is one topic: the broadcast side, owning one bounded queue
//! per subscriber.  An [`Input<T>`] is a subscriber's handle into the topic it
//! was piped to.  Publishing appends the value to every current queue and
//! never blocks: when a queue is full the oldest undelivered value is dropped
//! in favour of the newest, since telemetry is a latest-value-wins stream.
//! Topics are kept one per message type, so structurally identical types never
//! interfere; the runtime constructs each topic once and passes it around
//! explicitly.

use vstd::prelude::*;

use crate::messages::Message;
use core::marker::PhantomData;

verus! {

/// One publish step on a single subscriber queue: append the new value, and
/// when the queue is already at its bound, drop the oldest value to make room.
pub open spec fn push_bounded<V>(q: Seq<V>, v: V, cap: nat) -> Seq<V> {
    if q.len() < cap {
        q.push(v)
    } else {
        q.drop_first().push(v)
    }
}

/// A whole sequence of publishes applied to a single subscriber queue.
pub open spec fn queue_after<V>(q: Seq<V>, pubs: Seq<V>, cap: nat) -> Seq<V>
    decreases pubs.len(),
{
    if pubs.len() == 0 {
        q
    } else {
        queue_after(push_bounded(q, pubs.first(), cap), pubs.drop_first(), cap)
    }
}

/// The broadcast side of one topic.  Holds every subscriber queue, in
/// subscription order, and the common queue bound.
pub struct Output<T: Message> {
    qs: Vec<Vec<T>>,
    cap: usize,
}

/// A subscriber's handle: the index of its queue inside the topic it was
/// piped to, or nothing while it is not yet attached anywhere.
pub struct Input<T> {
    id: Option<usize>,
    marker: PhantomData<T>,
}

impl<T> Input<T> {
    /// The queue slot this handle is bound to, if any.
    pub closed spec fn id(&self) -> Option<int> {
        match self.id {
            Some(i) => Some(i as int),
            None => None,
        }
    }

    /// A fresh, unattached receiver handle.
    pub fn new() -> (r: Input<T>)
        ensures
            r.id() is None,
    {
        Input { id: None, marker: PhantomData }
    }
}

impl<T: Message> Output<T> {
    /// The abstract state: every subscriber queue, oldest value first.
    pub closed spec fn queues(&self) -> Seq<Seq<T::V>> {
        self.qs@.map_values(|q: Vec<T>| q@.map_values(|x: T| x@))
    }

    /// The bound that every subscriber queue stays within.
    pub closed spec fn capacity(&self) -> nat {
        self.cap as nat
    }

    /// Topic well-formedness: a positive bound, respected by every queue.
    pub closed spec fn wf(&self) -> bool {
        &&& self.cap >= 1
        &&& forall|i: int| 0 <= i < self.qs@.len() ==> #[trigger] self.qs@[i]@.len() <= self.cap
    }

    /// A topic with no subscribers yet.
    pub fn new(cap: usize) -> (r: Output<T>)
        requires
            cap >= 1,
        ensures
            r.wf(),
            r.capacity() == cap as nat,
            r.queues() == Seq::<Seq<T::V>>::empty(),
    {
        let r = Output { qs: Vec::new(), cap };
        proof {
            assert(r.queues() =~~= Seq::<Seq<T::V>>::empty());
        }
        r
    }

    /// How many subscribers the topic currently has.
    pub fn subscribers(&self) -> (n: usize)
        ensures
            n == self.queues().len(),
    {
        self.qs.len()
    }

    /// Attach a receiver handle to this topic.  The handle gets a fresh, empty
    /// queue; from now on it sees exactly the values published after this
    /// call, never anything published before.
    pub fn pipe(&mut self, dest: &mut Input<T>)
        requires
            old(self).wf(),
        ensures
            final(self).wf(),
            final(self).capacity() == old(self).capacity(),
            final(self).queues() == old(self).queues().push(Seq::<T::V>::empty()),
            final(dest).id() == Some(old(self).queues().len() as int),
    {
        dest.id = Some(self.qs.len());
        self.qs.push(Vec::new());
        proof {
            assert(final(self).queues() =~~= old(self).queues().push(Seq::<T::V>::empty()));
        }
    }

    /// Publish one value to every current subscriber.  Total: no queue state
    /// can make it fail or wait, and every queue stays within the bound.
    pub fn send(&mut self, data: T)
        requires
            old(self).wf(),
        ensures
            final(self).wf(),
            final(self).capacity() == old(self).capacity(),
            final(self).queues().len() == old(self).queues().len(),
            forall|i: int| 0 <= i < old(self).queues().len() ==> #[trigger] final(self).queues()[i]
                == push_bounded(old(self).queues()[i], data@, old(self).capacity()),
    {
        let n = self.qs.len();
        let mut i: usize = 0;
        while i < n
            invariant
                i <= n,
                n == self.qs.len(),
                self.cap == old(self).cap,
                self.qs@.len() == old(self).qs@.len(),
                old(self).wf(),
                forall|j: int| 0 <= j < self.qs@.len() ==> #[trigger] self.qs@[j]@.len() <= self.cap,
                forall|j: int| i <= j < n ==> #[trigger] self.qs@[j] == old(self).qs@[j],
                forall|j: int| 0 <= j < i ==> #[trigger] self.queues()[j]
                    == push_bounded(old(self).queues()[j], data@, old(self).capacity()),
            decreases n - i,
        {
            let ghost prev_self = *self;
            let ghost prev = self.qs@;
            let ghost qv = prev[i as int]@.map_values(|x: T| x@);
            let mut q = self.qs.remove(i);
            let ghost q0 = q@;
            let full = q.len() >= self.cap;
            if full {
                q.remove(0);
                proof {
                    assert(q@ =~= q0.drop_first());
                }
            }
            q.push(data.dup());
            self.qs.insert(i, q);
            proof {
                assert(self.qs@ =~= prev.update(i as int, self.qs@[i as int]));
                let f = |x: T| x@;
                if full {
                    assert(q@.map_values(f) =~= qv.drop_first().push(data@));
                    assert(!(qv.len() < self.cap));
                } else {
                    assert(q@.map_values(f) =~= qv.push(data@));
                }
                assert(self.queues()[i as int] == q@.map_values(f));
                assert(self.queues()[i as int] == push_bounded(qv, data@, self.cap as nat));
                assert(old(self).queues()[i as int] == qv);
                assert(forall|j: int| 0 <= j < n && j != i ==> self.qs@[j] == prev[j]);
                assert(forall|j: int| 0 <= j < i ==> #[trigger] self.queues()[j]
                    == prev_self.queues()[j]);
            }
            i = i + 1;
        }
    }

    /// Take the oldest undelivered value for the given subscriber, if there is
    /// one.  A handle that is not bound to a live queue of this topic receives
    /// nothing.
    pub fn recv(&mut self, inp: &Input<T>) -> (r: Option<T>)
        requires
            old(self).wf(),
        ensures
            final(self).wf(),
            final(self).capacity() == old(self).capacity(),
            match inp.id() {
                Some(i) => {
                    if 0 <= i < old(self).queues().len() && old(self).queues()[i].len() > 0 {
                        &&& r matches Some(v) && v@ == old(self).queues()[i].first()
                        &&& final(self).queues() == old(self).queues().update(
                            i,
                            old(self).queues()[i].drop_first(),
                        )
                    } else {
                        r is None && final(self).queues() == old(self).queues()
                    }
                },
                None => r is None && final(self).queues() == old(self).queues(),
            },
    {
        match inp.id {
            None => None,
            Some(id) => {
                if id < self.qs.len() {
                    let mut q = self.qs.remove(id);
                    let r = if q.len() > 0 {
                        Some(q.remove(0))
                    } else {
                        None
                    };
                    self.qs.insert(id, q);
                    proof {
                        if old(self).queues()[id as int].len() > 0 {
                            assert(final(self).queues() =~~= old(self).queues().update(
                                id as int,
                                old(self).queues()[id as int].drop_first(),
                            ));
                        } else {
                            assert(final(self).queues() =~~= old(self).queues());
                        }
                    }
                    r
                } else {
                    None
                }
            },
        }
    }
}

/// Create the broadcast side of a topic, with the given per-subscriber bound.
pub fn advertise<T: Message>(cap: usize) -> (r: Output<T>)
    requires
        cap >= 1,
    ensures
        r.wf(),
        r.capacity() == cap as nat,
        r.queues() == Seq::<Seq<T::V>>::empty(),
{
    Output::new(cap)
}

/// Register a new subscriber against a topic and hand back its receiver
/// handle.  Safe to call after publishing has started: the new queue is empty,
/// so the subscriber only ever sees future values.
pub fn subscribe<T: Message>(out: &mut Output<T>) -> (inp: Input<T>)
    requires
        old(out).wf(),
    ensures
        final(out).wf(),
        final(out).capacity() == old(out).capacity(),
        final(out).queues() == old(out).queues().push(Seq::<T::V>::empty()),
        inp.id() == Some(old(out).queues().len() as int),
{
    let mut inp = Input::new();
    out.pipe(&mut inp);
    inp
}

/// Publishing within the bound is plain appending: a subscriber whose queue
/// starts empty and is never more than `cap` behind sees every published
/// value, exactly once, in publish order.
proof fn lemma_queue_after_within_cap<V>(q: Seq<V>, pubs: Seq<V>, cap: nat)
    requires
        q.len() + pubs.len() <= cap,
    ensures
        queue_after(q, pubs, cap) == q + pubs,
    decreases pubs.len(),
{
    if pubs.len() == 0 {
        assert(q + pubs =~= q);
    } else {
        assert(push_bounded(q, pubs.first(), cap) == q.push(pubs.first()));
        lemma_queue_after_within_cap(q.push(pubs.first()), pubs.drop_first(), cap);
        assert(q.push(pubs.first()) + pubs.drop_first() =~= q + pubs);
    }
}

/// Fan-out correctness: whatever values are published to a topic, a subscriber
/// registered before the first of them, with a queue deep enough to hold them
/// all, holds exactly those values, in publish order.  This holds for each of
/// the N subscriber queues separately, since `send` treats them all alike.
pub proof fn lemma_fanout_in_order<V>(pubs: Seq<V>, cap: nat)
    requires
        pubs.len() <= cap,
    ensures
        queue_after(Seq::<V>::empty(), pubs, cap) == pubs,
{
    lemma_queue_after_within_cap(Seq::<V>::empty(), pubs, cap);
    assert(Seq::<V>::empty() + pubs =~= pubs);
}

proof fn lemma_push_bounded_membership<V>(q: Seq<V>, x: V, cap: nat, v: V)
    requires
        cap >= 1,
        !q.contains(v),
        x != v,
    ensures
        !push_bounded(q, x, cap).contains(v),
{
    let p = push_bounded(q, x, cap);
    if p.contains(v) {
        let i = choose|i: int| 0 <= i < p.len() && p[i] == v;
        if q.len() < cap {
            assert(q[i] == v);
        } else {
            if i < p.len() - 1 {
                assert(p[i] == q.drop_first()[i]);
                assert(q.drop_first()[i] == q[i + 1]);
            }
        }
    }
}

/// No replay: a queue that never held `v` and never has `v` published to it
/// will never yield `v`.  In particular a subscriber created between two
/// publishes starts from an empty queue, so it receives the later value but
/// never the earlier one.
pub proof fn lemma_no_replay<V>(pubs: Seq<V>, v: V, cap: nat)
    requires
        cap >= 1,
        !pubs.contains(v),
    ensures
        !queue_after(Seq::<V>::empty(), pubs, cap).contains(v),
{
    lemma_queue_after_membership(Seq::<V>::empty(), pubs, cap, v);
}

proof fn lemma_queue_after_membership<V>(q: Seq<V>, pubs: Seq<V>, cap: nat, v: V)
    requires
        cap >= 1,
        !q.contains(v),
        !pubs.contains(v),
    ensures
        !queue_after(q, pubs, cap).contains(v),
    decreases pubs.len(),
{
    if pubs.len() > 0 {
        assert(pubs.contains(pubs.first()) || pubs.len() == 0) by {
            assert(pubs[0] == pubs.first());
        };
        lemma_push_bounded_membership(q, pubs.first(), cap, v);
        assert(forall|j: int| 0 <= j < pubs.drop_first().len() ==> #[trigger] pubs.drop_first()[j]
            == pubs[j + 1]);
        assert(!pubs.drop_first().contains(v));
        lemma_queue_after_membership(push_bounded(q, pubs.first(), cap), pubs.drop_first(), cap, v);
    }
}

/// Non-blocking publish: a publish step is defined for every queue state, and
/// a queue within its bound stays within it, however many values are published
/// and whether or not the subscriber ever drains it.
pub proof fn lemma_publish_bounded<V>(q: Seq<V>, pubs: Seq<V>, cap: nat)
    requires
        cap >= 1,
        q.len() <= cap,
    ensures
        queue_after(q, pubs, cap).len() <= cap,
        pubs.len() > 0 ==> queue_after(q, pubs, cap).last() == pubs.last(),
    decreases pubs.len(),
{
    if pubs.len() > 0 {
        lemma_publish_bounded(push_bounded(q, pubs.first(), cap), pubs.drop_first(), cap);
        if pubs.len() == 1 {
            assert(queue_after(q, pubs, cap) == push_bounded(q, pubs.first(), cap));
            assert(push_bounded(q, pubs.first(), cap).last() == pubs.first());
            assert(pubs.first() == pubs.last());
        } else {
            assert(pubs.drop_first().last() == pubs.last());
        }
    }
}

} // verus!
