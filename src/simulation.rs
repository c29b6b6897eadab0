//! One replication of the simulation: the event queue, the network and the
//! warm-up and end of the experiment. The caller pops each event, supplies
//! the random draws it needs, and hands it back to `step`.

use crate::error::SimError;
use crate::event::{Event, EventType};
use crate::event_queue::{shifted, EventQueue};
use vstd::multiset::Multiset;
use crate::logical_topology::{is_valid, LogicalTopology, PhysicalToLogicalPolicy};
use crate::network::{generation, handled, link_generator, Draws, Network, Sample};
use crate::physical_topology::PhysicalTopology;
use vstd::prelude::*;

verus! {

broadcast use vstd::seq_lib::group_to_multiset_ensures;

/// What a step did.
#[derive(Debug, PartialEq, Eq, Clone, Copy, Structural)]
pub enum StepKind {
    /// The event was handled; the simulation goes on.
    Continue,
    /// The experiment ended.
    Finished,
}

/// Derive the logical topology of a replication: the one of the policy if
/// it is found and valid, else the empty topology. The flag says which.
pub fn derive_topology(
    policy: &PhysicalToLogicalPolicy,
    physical_topology: &PhysicalTopology,
    rng: &mut rand::rngs::StdRng,
) -> (r: (LogicalTopology, bool))
    requires
        physical_topology.wf(),
    ensures
        r.0.wf(),
        r.1 ==> crate::logical_topology::valid_logical(physical_topology.nodes_spec(), r.0.links_spec())
            && r.0.num_nodes_spec() == physical_topology.nodes_spec().len(),
        !r.1 ==> r.0.num_nodes_spec() == 0 && r.0.links_spec().len() == 0,
        !r.1 ==> crate::logical_topology::greedy_fails(physical_topology.nodes_spec(), physical_topology.edges_spec())
            || exists|ls: Seq<crate::logical_topology::LogicalLink>| #[trigger] crate::logical_topology::derived_ok(
                physical_topology.nodes_spec(),
                physical_topology.edges_spec(),
                ls,
            ) && !crate::logical_topology::valid_logical(physical_topology.nodes_spec(), ls),
{
    match LogicalTopology::from_physical_topology(policy, physical_topology, rng) {
        Ok(t) => {
            if is_valid(t.links(), physical_topology).is_ok() {
                (t, true)
            } else {
                (LogicalTopology::new(), false)
            }
        },
        Err(_) => (LogicalTopology::new(), false),
    }
}

/// The first events of a replication, before those of the network.
pub open spec fn start_events(warmup_ns: u64, duration_ns: u64) -> Seq<Event> {
    seq![
        Event { time: warmup_ns, event_type: EventType::WarmupPeriodEnd, transfer: None },
        Event { time: duration_ns, event_type: EventType::ExperimentEnd, transfer: None },
        Event { time: 0, event_type: EventType::Progress(0), transfer: None },
    ]
}

/// Every event fits after time `t`.
pub open spec fn all_fit(evs: Seq<Event>, t: u64) -> bool {
    forall|q: int| 0 <= q < evs.len() ==> (#[trigger] evs[q]).time <= u64::MAX - t
}

/// Only the queue may differ.
pub open spec fn same_but_queue(a: Simulation, b: Simulation) -> bool {
    &&& b.network_spec() == a.network_spec()
    &&& b.last_time_spec() == a.last_time_spec()
    &&& b.num_events_spec() == a.num_events_spec()
    &&& b.metrics_enabled_spec() == a.metrics_enabled_spec()
    &&& b.warmup_spec() == a.warmup_spec()
    &&& b.duration_spec() == a.duration_spec()
    &&& b.found_spec() == a.found_spec()
}

/// `b` is `a` started: its queue gained the first events, and `init`, the
/// network's first events, which begin with one firing per link.
pub open spec fn started(a: Simulation, b: Simulation, first_delays_ns: Seq<u64>, init: Seq<Event>) -> bool {
    let links = a.network_spec().links_spec();
    &&& init.len() >= links.len()
    &&& forall|k: int| 0 <= k < links.len() ==> #[trigger] init[k] == generation(first_delays_ns[k], link_generator(links[k]))
    &&& b.events_spec() == a.events_spec().add(start_events(a.warmup_spec(), a.duration_spec()).to_multiset()).add(init.to_multiset())
}

/// Events that the simulation handles itself.
pub open spec fn is_control(e: Event) -> bool {
    e.event_type is WarmupPeriodEnd || e.event_type is ExperimentEnd || e.event_type is Progress
}

/// After progress report `p`, the next one is queued a hundredth of the
/// duration later, while it can be numbered and timed.
pub open spec fn progressed(a: Simulation, b: Simulation, p: u16) -> bool {
    let t = a.duration_spec() / 100;
    if p < u16::MAX && t <= u64::MAX - a.last_time_spec() {
        b.events_spec() == a.events_spec().insert(
            Event { time: (a.last_time_spec() + t) as u64, event_type: EventType::Progress((p + 1) as u16), transfer: None },
        )
    } else {
        b.events_spec() == a.events_spec()
    }
}

/// The network handled the event with result `r0`: its events are queued
/// relative to the present, and its samples returned once measurements have
/// started.
pub open spec fn dispatched(
    a: Simulation,
    b: Simulation,
    event: Event,
    draws: Draws,
    r0: Result<(Vec<Event>, Vec<Sample>), SimError>,
    r: Result<(StepKind, Vec<Sample>), SimError>,
) -> bool {
    &&& handled(a.network_spec(), b.network_spec(), a.last_time_spec(), event, draws, r0)
    &&& match r0 {
        Ok((evs, smp)) => {
            &&& r is Ok
            &&& r.unwrap().0 == StepKind::Continue
            &&& r.unwrap().1@ == if b.metrics_enabled_spec() {
                smp@
            } else {
                Seq::<Sample>::empty()
            }
            &&& all_fit(evs@, a.last_time_spec()) ==> b.events_spec() == a.events_spec().add(
                shifted(evs@, a.last_time_spec()).to_multiset(),
            )
        },
        Err(e) => r == Err::<(StepKind, Vec<Sample>), SimError>(e) && b.events_spec() == a.events_spec(),
    }
}

/// One replication.
pub struct Simulation {
    network: Network,
    events: EventQueue,
    duration_ns: u64,
    warmup_ns: u64,
    num_events: u64,
    metrics_enabled: bool,
    logical_topology_found: bool,
}

impl Simulation {
    pub closed spec fn last_time_spec(&self) -> u64 {
        self.events.last_time_spec()
    }

    pub closed spec fn events_spec(&self) -> Multiset<Event> {
        self.events@
    }

    pub closed spec fn network_spec(&self) -> Network {
        self.network
    }

    pub closed spec fn found_spec(&self) -> bool {
        self.logical_topology_found
    }

    pub closed spec fn num_events_spec(&self) -> u64 {
        self.num_events
    }

    pub closed spec fn metrics_enabled_spec(&self) -> bool {
        self.metrics_enabled
    }

    pub closed spec fn warmup_spec(&self) -> u64 {
        self.warmup_ns
    }

    pub closed spec fn duration_spec(&self) -> u64 {
        self.duration_ns
    }

    /// Samples are collected only once the warm-up is over.
    pub closed spec fn wf(&self) -> bool {
        &&& self.network.wf()
        &&& self.events.wf()
        &&& self.metrics_enabled ==> self.events.last_time_spec() >= self.warmup_ns
    }

    /// A replication of `duration_ns` nanoseconds whose first `warmup_ns`
    /// are not measured. Fails if the duration vanishes.
    pub fn new(network: Network, duration_ns: u64, warmup_ns: u64, logical_topology_found: bool) -> (r: Result<Self, SimError>)
        requires
            network.wf(),
        ensures
            r is Ok <==> duration_ns > 0,
            r matches Err(e) ==> e == SimError::ConfigInvalid,
            r matches Ok(s) ==> s.wf() && s.last_time_spec() == 0 && s.num_events_spec() == 0 && !s.metrics_enabled_spec()
                && s.warmup_spec() == warmup_ns && s.duration_spec() == duration_ns && s.events_spec() =~= Multiset::empty()
                && s.network_spec() == network && s.found_spec() == logical_topology_found,
    {
        if duration_ns == 0 {
            return Err(SimError::ConfigInvalid);
        }
        Ok(
            Simulation {
                network,
                events: EventQueue::new(),
                duration_ns,
                warmup_ns,
                num_events: 0,
                metrics_enabled: false,
                logical_topology_found,
            },
        )
    }

    /// The network.
    pub fn network(&self) -> (r: &Network)
        ensures
            *r == self.network_spec(),
    {
        &self.network
    }

    /// Mutable access to the network, to install applications before the
    /// start.
    pub fn network_mut(&mut self) -> (r: &mut Network)
        requires
            old(self).wf(),
        ensures
            *r == old(self).network_spec(),
            final(self).network_spec() == *final(r),
            final(self).events_spec() == old(self).events_spec(),
            final(self).last_time_spec() == old(self).last_time_spec(),
            final(self).num_events_spec() == old(self).num_events_spec(),
            final(self).metrics_enabled_spec() == old(self).metrics_enabled_spec(),
            final(self).warmup_spec() == old(self).warmup_spec(),
            final(self).duration_spec() == old(self).duration_spec(),
            final(self).found_spec() == old(self).found_spec(),
            final(r).wf() ==> final(self).wf(),
    {
        &mut self.network
    }

    /// Whether a logical topology was found.
    pub fn logical_topology_found(&self) -> (r: bool)
        ensures
            r == self.found_spec(),
    {
        self.logical_topology_found
    }

    /// Number of events popped so far, warm-up included.
    pub fn num_events(&self) -> (r: u64)
        ensures
            r == self.num_events_spec(),
    {
        self.num_events
    }

    /// Number of pending events.
    pub fn queue_len(&self) -> (r: usize)
        ensures
            r == self.events_spec().len(),
    {
        self.events.len()
    }

    /// Time of the last event popped.
    pub fn now(&self) -> (r: u64)
        ensures
            r == self.last_time_spec(),
    {
        self.events.last_time()
    }

    /// Push an event relative to the present; one that would fall after the
    /// last representable time, hence after the end of the experiment, is
    /// dropped.
    fn push(&mut self, e: Event)
        requires
            old(self).wf(),
        ensures
            final(self).wf(),
            same_but_queue(*old(self), *final(self)),
            e.time <= u64::MAX - old(self).last_time_spec() ==> final(self).events_spec() == old(self).events_spec().insert(
                Event { time: (old(self).last_time_spec() + e.time) as u64, ..e },
            ),
            e.time > u64::MAX - old(self).last_time_spec() ==> final(self).events_spec() == old(self).events_spec(),
    {
        if e.time <= u64::MAX - self.events.last_time() {
            self.events.push(e);
        }
    }

    /// Push all the events, each relative to the present, dropping those
    /// that would fall after the last representable time.
    fn push_all(&mut self, events: Vec<Event>)
        requires
            old(self).wf(),
        ensures
            final(self).wf(),
            same_but_queue(*old(self), *final(self)),
            all_fit(events@, old(self).last_time_spec()) ==> final(self).events_spec() == old(self).events_spec().add(
                shifted(events@, old(self).last_time_spec()).to_multiset(),
            ),
    {
        let last = self.events.last_time();
        let mut k: usize = 0;
        let mut fit = true;
        while k < events.len()
            invariant
                k <= events@.len(),
                fit <==> forall|q: int| 0 <= q < k ==> (#[trigger] events@[q]).time <= u64::MAX - last,
            decreases events@.len() - k,
        {
            if events[k].time > u64::MAX - last {
                fit = false;
            }
            k = k + 1;
        }
        if fit {
            self.events.push_many(events);
            return;
        }
        let mut k: usize = 0;
        while k < events.len()
            invariant
                k <= events@.len(),
                self.wf(),
                same_but_queue(*old(self), *self),
            decreases events@.len() - k,
        {
            self.push(events[k]);
            k = k + 1;
        }
    }

    /// Queue the first events: the end of the warm-up, the end of the
    /// experiment, the first progress report, the first firing of every
    /// generator (link `k` after `first_delays_ns[k]`) and the first events
    /// of the applications. Fails, queueing nothing, unless there is one
    /// delay per link.
    pub fn start(&mut self, first_delays_ns: &Vec<u64>) -> (r: Result<(), SimError>)
        requires
            old(self).wf(),
            old(self).last_time_spec() == 0,
        ensures
            final(self).wf(),
            same_but_queue(*old(self), *final(self)),
            r is Ok <==> first_delays_ns@.len() == old(self).network_spec().links_spec().len(),
            r is Err ==> final(self).events_spec() == old(self).events_spec(),
            r is Ok ==> exists|init: Seq<Event>| #[trigger] started(*old(self), *final(self), first_delays_ns@, init),
    {
        let initial = match self.network.initial(first_delays_ns) {
            Ok(evs) => evs,
            Err(e) => {
                return Err(e);
            },
        };
        let ghost e0 = self.events@;
        self.push(Event::new(self.warmup_ns, EventType::WarmupPeriodEnd));
        self.push(Event::new(self.duration_ns, EventType::ExperimentEnd));
        self.push(Event::new(0, EventType::Progress(0)));
        let ghost init = initial@;
        proof {
            assert forall|q: int| 0 <= q < init.len() implies (#[trigger] init[q]).time <= u64::MAX - 0 by {}
            assert(shifted(init, 0) =~= init);
        }
        self.push_all(initial);
        proof {
            let se = start_events(self.warmup_ns, self.duration_ns);
            assert(se.to_multiset() =~= Multiset::empty().insert(se[0]).insert(se[1]).insert(se[2])) by {
                let s0 = Seq::<Event>::empty();
                assert(s0.to_multiset().len() == 0);
                assert(s0.to_multiset() =~= Multiset::empty());
                assert(se =~= s0.push(se[0]).push(se[1]).push(se[2]));
            }
            assert(self.events_spec() =~= old(self).events_spec().add(se.to_multiset()).add(init.to_multiset()));
            assert(started(*old(self), *self, first_delays_ns@, init));
        }
        Ok(())
    }

    /// Pop the earliest event, which is never earlier than the previous one,
    /// and count it.
    pub fn next_event(&mut self) -> (r: Option<Event>)
        requires
            old(self).wf(),
        ensures
            final(self).wf(),
            final(self).metrics_enabled_spec() == old(self).metrics_enabled_spec(),
            final(self).warmup_spec() == old(self).warmup_spec(),
            final(self).duration_spec() == old(self).duration_spec(),
            final(self).network_spec() == old(self).network_spec(),
            final(self).found_spec() == old(self).found_spec(),
            r is None ==> final(self).last_time_spec() == old(self).last_time_spec() && final(self).num_events_spec()
                == old(self).num_events_spec() && final(self).events_spec() == old(self).events_spec(),
            r matches Some(e) ==> e.time >= old(self).last_time_spec() && final(self).last_time_spec() == e.time
                && old(self).events_spec().contains(e) && final(self).events_spec() == old(self).events_spec().remove(e)
                && (forall|x: Event| #[trigger] old(self).events_spec().contains(x) ==> e.time <= x.time)
                && final(self).num_events_spec() == if old(self).num_events_spec() < u64::MAX {
                (old(self).num_events_spec() + 1) as u64
            } else {
                u64::MAX
            },
    {
        let e = self.events.pop();
        if e.is_some() && self.num_events < u64::MAX {
            self.num_events = self.num_events + 1;
        }
        e
    }

    /// Handle a popped event. The end of the warm-up starts the
    /// measurements; the end of the experiment finishes the replication; a
    /// progress report schedules the next one a hundredth of the duration
    /// later; any other event goes to the network, whose events are queued,
    /// and whose samples are returned once measurements have started.
    pub fn step(&mut self, event: Event, draws: Draws) -> (r: Result<(StepKind, Vec<Sample>), SimError>)
        requires
            old(self).wf(),
        ensures
            final(self).wf(),
            final(self).last_time_spec() == old(self).last_time_spec(),
            final(self).num_events_spec() == old(self).num_events_spec(),
            final(self).warmup_spec() == old(self).warmup_spec(),
            final(self).duration_spec() == old(self).duration_spec(),
            final(self).found_spec() == old(self).found_spec(),
            event.event_type is ExperimentEnd ==> r is Ok && r.unwrap().0 == StepKind::Finished && r.unwrap().1@.len() == 0,
            !(event.event_type is ExperimentEnd) ==> r is Err || r.unwrap().0 == StepKind::Continue,
            event.event_type is WarmupPeriodEnd ==> final(self).metrics_enabled_spec() == (old(self).metrics_enabled_spec()
                || old(self).last_time_spec() >= old(self).warmup_spec()),
            !(event.event_type is WarmupPeriodEnd) ==> final(self).metrics_enabled_spec() == old(self).metrics_enabled_spec(),
            r is Ok && r.unwrap().1@.len() > 0 ==> final(self).metrics_enabled_spec() && old(self).last_time_spec()
                >= old(self).warmup_spec(),
            is_control(event) ==> final(self).network_spec() == old(self).network_spec() && r is Ok && r.unwrap().1@.len() == 0,
            (event.event_type is WarmupPeriodEnd || event.event_type is ExperimentEnd) ==> final(self).events_spec()
                == old(self).events_spec(),
            event.event_type matches EventType::Progress(p) ==> progressed(*old(self), *final(self), p),
            !is_control(event) ==> exists|r0: Result<(Vec<Event>, Vec<Sample>), SimError>|
                #[trigger] dispatched(*old(self), *final(self), event, draws, r0, r),
    {
        let now = self.events.last_time();
        match event.event_type {
            EventType::WarmupPeriodEnd => {
                if now >= self.warmup_ns {
                    self.metrics_enabled = true;
                }
                Ok((StepKind::Continue, Vec::new()))
            },
            EventType::ExperimentEnd => Ok((StepKind::Finished, Vec::new())),
            EventType::Progress(p) => {
                if p < u16::MAX {
                    let next = Event::new(self.duration_ns / 100, EventType::Progress(p + 1));
                    self.push(next);
                }
                Ok((StepKind::Continue, Vec::new()))
            },
            _ => {
                let r0 = self.network.handle(now, event, draws);
                let ghost g = r0;
                match r0 {
                    Ok((events, samples)) => {
                        self.push_all(events);
                        let out = if self.metrics_enabled {
                            samples
                        } else {
                            Vec::new()
                        };
                        let r = Ok((StepKind::Continue, out));
                        assert(dispatched(*old(self), *self, event, draws, g, r));
                        r
                    },
                    Err(e) => {
                        let r = Err(e);
                        assert(dispatched(*old(self), *self, event, draws, g, r));
                        r
                    },
                }
            },
        }
    }
}

} // verus!
