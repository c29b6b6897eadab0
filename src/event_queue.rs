//! Queue of pending events, earliest first.

use crate::event::Event;
use vstd::multiset::Multiset;
use vstd::prelude::*;

verus! {

broadcast use vstd::seq_lib::group_to_multiset_ensures;

/// The events made absolute: each moved `t` nanoseconds later.
pub open spec fn shifted(events: Seq<Event>, t: u64) -> Seq<Event> {
    events.map_values(|e: Event| Event { time: (e.time + t) as u64, ..e })
}

/// Pending events, popped in order of time. The time of the last popped
/// event is the present: pushed events are relative to it.
pub struct EventQueue {
    queue: Vec<Event>,
    last_time: u64,
}

impl View for EventQueue {
    type V = Multiset<Event>;

    closed spec fn view(&self) -> Multiset<Event> {
        self.queue@.to_multiset()
    }
}

impl EventQueue {
    /// Time of the most recently popped event.
    pub closed spec fn last_time_spec(&self) -> u64 {
        self.last_time
    }

    /// No pending event lies before the present.
    pub closed spec fn wf(&self) -> bool {
        forall|i: int| 0 <= i < self.queue@.len() ==> (#[trigger] self.queue@[i]).time_spec() >= self.last_time
    }

    /// An empty queue at time zero.
    pub fn new() -> (r: Self)
        ensures
            r.wf(),
            r@ =~= Multiset::empty(),
            r.last_time_spec() == 0,
    {
        Self { queue: Vec::new(), last_time: 0 }
    }

    /// Add an event whose time is relative to the present.
    pub fn push(&mut self, event: Event)
        requires
            old(self).wf(),
            old(self).last_time_spec() + event.time_spec() <= u64::MAX,
        ensures
            final(self).wf(),
            final(self).last_time_spec() == old(self).last_time_spec(),
            final(self)@ == old(self)@.insert(
                Event { time: (old(self).last_time_spec() + event.time) as u64, ..event },
            ),
    {
        let mut event = event;
        event.advance(self.last_time);
        self.queue.push(event);
        assert(self.queue@.to_multiset() == old(self).queue@.push(event).to_multiset());
    }

    /// Add all the events, each relative to the present.
    pub fn push_many(&mut self, events: Vec<Event>)
        requires
            old(self).wf(),
            forall|i: int|
                0 <= i < events@.len() ==> old(self).last_time_spec() + (#[trigger] events@[i]).time_spec()
                    <= u64::MAX,
        ensures
            final(self).wf(),
            final(self).last_time_spec() == old(self).last_time_spec(),
            final(self)@.len() == old(self)@.len() + events@.len(),
            final(self)@ == old(self)@.add(shifted(events@, old(self).last_time_spec()).to_multiset()),
    {
        let n = events.len();
        let mut i: usize = 0;
        while i < n
            invariant
                n == events@.len(),
                i <= n,
                self.wf(),
                self.last_time == old(self).last_time,
                self@.len() == old(self)@.len() + i,
                self@ == old(self)@.add(shifted(events@.subrange(0, i as int), old(self).last_time_spec()).to_multiset()),
                forall|k: int|
                    0 <= k < events@.len() ==> old(self).last_time_spec() + (#[trigger] events@[k]).time_spec()
                        <= u64::MAX,
            decreases n - i,
        {
            let ghost before = self@;
            self.push(events[i]);
            proof {
                let t = old(self).last_time_spec();
                let a = shifted(events@.subrange(0, i as int), t);
                let b = shifted(events@.subrange(0, i + 1), t);
                assert(b =~= a.push(Event { time: (events@[i as int].time + t) as u64, ..events@[i as int] }));
                assert(self@ =~= old(self)@.add(b.to_multiset()));
            }
            i = i + 1;
        }
        proof {
            assert(events@.subrange(0, i as int) =~= events@);
        }
    }

    /// Remove and return the earliest pending event, if any; its time
    /// becomes the present.
    pub fn pop(&mut self) -> (r: Option<Event>)
        requires
            old(self).wf(),
        ensures
            final(self).wf(),
            r is None <==> old(self)@.len() == 0,
            r is None ==> final(self)@ == old(self)@ && final(self).last_time_spec()
                == old(self).last_time_spec(),
            r matches Some(e) ==> {
                &&& old(self)@.contains(e)
                &&& final(self)@ == old(self)@.remove(e)
                &&& e.time_spec() >= old(self).last_time_spec()
                &&& final(self).last_time_spec() == e.time_spec()
                &&& forall|x: Event| #[trigger]
                    old(self)@.contains(x) ==> e.time_spec() <= x.time_spec()
            },
    {
        if self.queue.len() == 0 {
            return None;
        }
        let mut best: usize = 0;
        let mut i: usize = 1;
        while i < self.queue.len()
            invariant
                1 <= i <= self.queue@.len(),
                best < i,
                self.queue@ == old(self).queue@,
                self.last_time == old(self).last_time,
                forall|k: int| 0 <= k < i ==> self.queue@[best as int].time_spec() <= (#[trigger] self.queue@[k]).time_spec(),
            decreases self.queue@.len() - i,
        {
            if self.queue[i].time() < self.queue[best].time() {
                best = i;
            }
            i = i + 1;
        }
        let ghost old_q = self.queue@;
        let e = self.queue.remove(best);
        self.last_time = e.time();
        proof {
            assert(old_q.remove(best as int).to_multiset() == old_q.to_multiset().remove(old_q[best as int]));
            assert(old_q.to_multiset().count(e) > 0);
            assert forall|x: Event| #[trigger] old_q.to_multiset().contains(x) implies e.time_spec() <= x.time_spec() by {
                assert(old_q.contains(x));
            }
            assert forall|k: int| 0 <= k < self.queue@.len() implies (#[trigger] self.queue@[k]).time_spec() >= self.last_time by {
                if k < best {
                    assert(self.queue@[k] == old_q[k]);
                } else {
                    assert(self.queue@[k] == old_q[k + 1]);
                }
            }
        }
        Some(e)
    }

    /// Time of the most recently popped event.
    pub fn last_time(&self) -> (r: u64)
        ensures
            r == self.last_time_spec(),
    {
        self.last_time
    }

    /// Number of pending events.
    pub fn len(&self) -> (r: usize)
        ensures
            r == self@.len(),
    {
        self.queue.len()
    }

    /// True if no event is pending.
    pub fn is_empty(&self) -> (r: bool)
        ensures
            r <==> self@.len() == 0,
    {
        self.queue.len() == 0
    }
}

impl Default for EventQueue {
    fn default() -> (r: Self)
        ensures
            r.wf(),
            r@ =~= Multiset::empty(),
            r.last_time_spec() == 0,
    {
        EventQueue::new()
    }
}

} // verus!
