use qnetsim::apps::ponger::Ponger;
use qnetsim::event::{
    AppEventData, EprFiveTuple, EsRequestData, Event, EventType, NodeEventData, OsEventData,
    Transfer,
};
use qnetsim::logical_topology::{LogicalTopology, PhysicalToLogicalPolicy};
use qnetsim::network::{Draws, Network, Sample};
use qnetsim::nic::Role;
use qnetsim::node::{Application, Node};
use qnetsim::physical_topology::{GridSize, NodeType, NodeWeight, PhysicalTopology};
use qnetsim::error::SimError;
use rand::SeedableRng;
use rand_distr::Distribution;

fn physical_topology_2_2() -> PhysicalTopology {
    PhysicalTopology::from_grid_static(
        GridSize {
            num_orbits: 2,
            orbit_length: 2,
        },
        NodeWeight {
            node_type: NodeType::SAT,
            memory_qubits: 10,
            detectors: 10,
            transmitters: 10,
            capacity_mpps: 1000,
        },
        NodeWeight {
            node_type: NodeType::OGS,
            memory_qubits: 20,
            detectors: 10,
            transmitters: 0,
            capacity_mpps: 0,
        },
    )
    .unwrap()
}

fn logical_topology_2_2() -> LogicalTopology {
    let mut rng = rand::rngs::StdRng::seed_from_u64(42);
    LogicalTopology::from_physical_topology(
        &PhysicalToLogicalPolicy::RandomGreedy,
        &physical_topology_2_2(),
        &mut rng,
    )
    .unwrap()
}

#[test]
fn test_network_from_logical_topology() {
    let logical_topology = logical_topology_2_2();
    let network = Network::new(logical_topology, vec![vec![0; 10]; 10], 0).unwrap();
    assert_eq!(10, network.num_nodes());
}

#[test]
fn test_expo_rv() {
    let mut rng = rand::rngs::StdRng::seed_from_u64(42);
    let rv = rand_distr::Exp::new(10.0).unwrap();
    let mut sum = 0.0;
    for i in 0..100 {
        let x = rv.sample(&mut rng);
        sum += x;
        println!("{}\t{}", i, x);
    }
    let rounded: f64 = (((sum / 100.0) * 10.0) as f64).round() / 10.0;
    assert!((0.1 - rounded).abs() < 1e-9);
}

#[test]
fn network_rejects_bad_latency_matrix() {
    assert_eq!(
        Some(SimError::ConfigInvalid),
        Network::new(logical_topology_2_2(), vec![vec![0; 10]; 9], 0).err()
    );
}

#[test]
fn generator_registers_pair_and_rearms() {
    let topo = logical_topology_2_2();
    let l = topo.links()[0];
    let mut net = Network::new(topo, vec![vec![7; 10]; 10], 0).unwrap();
    let first = net.initial(&vec![3; net_links(&net)]).unwrap();
    assert!(!first.is_empty());
    let g = qnetsim::event::EprGeneratedData {
        tx_node_id: l.weight.tx,
        master_node_id: l.master,
        slave_node_id: l.slave,
    };
    let draws = Draws {
        next_generation_ns: 123,
        fidelity_bits: Some(0.75_f64.to_bits()),
        corrections: 0,
        app_delay_ns: 0,
        swap_ok: true,
    };
    let (events, samples) = net
        .handle(500, Event::new(0, EventType::NodeEvent(NodeEventData::EprGenerated(g))), draws)
        .unwrap();
    assert_eq!(3, events.len());
    assert_eq!(123, events[2].time());
    assert_eq!(
        vec![Sample::GenFidelity {
            tx_node_id: l.weight.tx,
            fidelity_bits: 0.75_f64.to_bits()
        }],
        samples
    );
    // Deliver both notifications: each end stores the pair.
    for e in events.iter().take(2) {
        let (_, samples) = net.handle(500, *e, draws).unwrap();
        match samples[0] {
            Sample::Occupancy { occupied, .. } => assert_eq!(1, occupied),
            _ => panic!("wrong sample"),
        }
    }
    let m = net.node(l.master).unwrap().nic(Role::Master, l.slave).unwrap();
    assert_eq!(Some(0), m.newest_valid());
    let s = net.node(l.slave).unwrap().nic(Role::Slave, l.master).unwrap();
    assert_eq!(Some(0), s.newest_valid());
    // An unknown generator is refused.
    let bad = qnetsim::event::EprGeneratedData {
        tx_node_id: 99,
        master_node_id: 0,
        slave_node_id: 1,
    };
    assert!(net
        .handle(0, Event::new(0, EventType::NodeEvent(NodeEventData::EprGenerated(bad))), draws)
        .is_err());
}

fn net_links(net: &Network) -> usize {
    let mut n = 0;
    for i in 0..net.num_nodes() as u32 {
        let node = net.node(i).unwrap();
        for j in 0..net.num_nodes() as u32 {
            if node.nic(Role::Master, j).is_some() {
                n += 1;
            }
        }
    }
    n
}

#[test]
fn transfers_wait_for_the_channel() {
    let topo = logical_topology_2_2();
    let mut latency = vec![vec![0; 10]; 10];
    latency[4][5] = 1_000;
    let mut net = Network::new(topo, latency, 0).unwrap();
    let e = Event::new_transfer(EventType::ExperimentEnd, 4, 5);
    let draws = Draws {
        next_generation_ns: 0,
        fidelity_bits: None,
        corrections: 0,
        app_delay_ns: 0,
        swap_ok: true,
    };
    let (events, samples) = net.handle(10, e, draws).unwrap();
    assert!(samples.is_empty());
    assert_eq!(1_000, events[0].time());
    assert_eq!(
        Some(Transfer {
            src_node: 4,
            dst_node: 5,
            done: true
        }),
        events[0].transfer
    );
    let far = Event::new_transfer(EventType::ExperimentEnd, 4, 50);
    assert_eq!(Err(SimError::PathUnreachable), net.handle(10, far, draws));
}

#[test]
fn request_without_path_is_unreachable() {
    let topo = LogicalTopology::new();
    assert_eq!(0, topo.num_nodes());
    assert!(topo.path(0, 1).is_none());
    let mut net = Network::new(topo, vec![], 0).unwrap();
    let epr = EprFiveTuple::new(0, 0, 1, 0, 1);
    let draws = Draws {
        next_generation_ns: 0,
        fidelity_bits: None,
        corrections: 0,
        app_delay_ns: 0,
        swap_ok: true,
    };
    assert_eq!(
        Err(SimError::PathUnreachable),
        net.handle(0, Event::new(0, EventType::OsEvent(OsEventData::EprRequestApp(epr))), draws)
    );
}

#[test]
fn logical_paths_follow_links() {
    let topo = logical_topology_2_2();
    for a in 0..10 {
        for b in 0..10 {
            match topo.path(a, b) {
                None => assert!(topo.distance(a, b).is_none()),
                Some(p) => {
                    assert_eq!(a, p[0]);
                    assert_eq!(b, *p.last().unwrap());
                    assert_eq!(topo.distance(a, b).unwrap() as usize + 1, p.len());
                    for w in p.windows(2) {
                        assert!(topo.links().iter().any(|l| l.master == w[0] && l.slave == w[1]));
                    }
                }
            }
        }
    }
}

fn node_pair() -> (Node, Node) {
    let mut a = Node::new(1, 10);
    let mut b = Node::new(2, 10);
    assert!(a.add_nic(2, Role::Master, 1));
    assert!(b.add_nic(1, Role::Slave, 1));
    assert!(!b.add_nic(1, Role::Slave, 1));
    (a, b)
}

#[test]
fn single_hop_request_end_to_end() {
    let (mut a, mut b) = node_pair();
    assert!(b.add_application(Application::Ponger(Ponger::new(2, 7)), 7));
    assert!(!b.add_application(Application::Ponger(Ponger::new(2, 7)), 7));
    assert_eq!(Some(0), b.next_port());
    let epr = EprFiveTuple::new(1, 3, 2, 7, 1);
    // No pair yet: the request waits.
    let events = a.handle_epr_request_app(100, epr, vec![1, 2]).unwrap();
    assert!(events.is_empty());
    assert_eq!(1, a.num_pending());
    // A pair arrives at both ends: the request leaves.
    let events = a.epr_established(200, 2, Role::Master, 9).unwrap();
    assert!(b.epr_established(200, 1, Role::Slave, 9).unwrap().is_empty());
    assert_eq!(1, events.len());
    let data = match events[0].event_type {
        EventType::NodeEvent(NodeEventData::EsRequest(d)) => d,
        _ => panic!("wrong event"),
    };
    assert_eq!(9, data.local_pair_id);
    assert_eq!(1, data.hops);
    assert!(a.nic(Role::Master, 2).unwrap().memory_cells()[0].is_used());
    // The target locks its end and completes at once.
    let events = b.handle_es_request(data, 2).unwrap();
    assert_eq!(0, events[0].time());
    assert!(b.nic(Role::Slave, 1).unwrap().memory_cells()[0].is_used());
    let events = b.handle_es_local_complete(data).unwrap();
    assert_eq!(2, events.len());
    // The ponger gets its response.
    let (app_events, _) = b.handle_app_event(events[1], 0).unwrap();
    assert_eq!(1, app_events.len());
    // The source completes.
    let (events, sample) = a.handle_es_remote_complete(500, epr).unwrap();
    assert_eq!(400, sample.latency_ns);
    assert_eq!(1, sample.hops);
    assert_eq!(0, a.num_pending());
    match events[0].event_type {
        EventType::AppEvent(AppEventData::EprResponse(r)) => {
            assert!(r.is_source);
            assert_eq!(9, r.memory_cell.unwrap().local_pair_id);
        }
        _ => panic!("wrong event"),
    }
    assert_eq!(Err(SimError::ProtocolViolation), a.handle_es_remote_complete(600, epr).map(|_| ()));
    // The pair is released at both ends.
    assert!(a.consume(2, Role::Master, 9).is_some());
    assert!(b.consume(1, Role::Slave, 9).is_some());
    assert!(a.consume(2, Role::Master, 9).is_none());
}

#[test]
fn failed_hop_frees_pair_and_requeues() {
    // Path 1 -> 2 -> 3: node 2 is not the target and cannot swap.
    let (mut a, mut b) = node_pair();
    let epr = EprFiveTuple::new(1, 3, 3, 7, 1);
    a.epr_established(10, 2, Role::Master, 5).unwrap();
    b.epr_established(10, 1, Role::Slave, 5).unwrap();
    let events = a.handle_epr_request_app(50, epr, vec![1, 2, 3]).unwrap();
    assert_eq!(1, events.len());
    let data = match events[0].event_type {
        EventType::NodeEvent(NodeEventData::EsRequest(d)) => d,
        _ => panic!("wrong event"),
    };
    assert_eq!(2, data.hops);
    let back = b.handle_es_request(data, 0).unwrap();
    assert_eq!(1, back.len());
    let failed: EsRequestData = match back[0].event_type {
        EventType::NodeEvent(NodeEventData::EsFailure(d)) => d,
        _ => panic!("wrong event"),
    };
    assert_eq!(Some(Transfer { src_node: 2, dst_node: 1, done: false }), back[0].transfer);
    // The source frees its pair and queues the request again.
    let events = a.handle_es_failure(failed).unwrap();
    assert!(events.is_empty());
    assert_eq!(1, a.num_pending());
    assert!(a.nic(Role::Master, 2).unwrap().memory_cells()[0].is_empty());
    // No response was ever given to the source.
    assert!(a.handle_es_remote_complete(100, epr).is_err());
    // A failure for an unknown request changes nothing.
    let other = EsRequestData {
        epr: EprFiveTuple::new(1, 3, 3, 7, 2),
        ..failed
    };
    assert!(a.handle_es_failure(other).unwrap().is_empty());
    assert_eq!(1, a.num_pending());
}

#[test]
fn target_rejects_unknown_pair() {
    let (_, mut b) = node_pair();
    let data = EsRequestData {
        epr: EprFiveTuple::new(1, 3, 2, 7, 1),
        prev_hop: 1,
        next_hop: 2,
        hops: 3,
        local_pair_id: 42,
    };
    let events = b.handle_es_request(data, 1).unwrap();
    assert!(matches!(events[0].event_type, EventType::NodeEvent(NodeEventData::EsFailure(_))));
    b.epr_established(0, 1, Role::Slave, 42).unwrap();
    let events = b.handle_es_request(data, 2).unwrap();
    // Two corrections of 10 ns each on a path of three hops.
    assert_eq!(20, events[0].time());
    assert!(matches!(events[0].event_type, EventType::NodeEvent(NodeEventData::EsLocalComplete(_))));
    let wrong = EsRequestData { next_hop: 5, ..data };
    assert_eq!(Err(SimError::ProtocolViolation), b.handle_es_request(wrong, 0));
    let unknown_peer = EsRequestData { prev_hop: 8, ..data };
    assert_eq!(Err(SimError::PathUnreachable), b.handle_es_request(unknown_peer, 0));
}

#[test]
fn request_must_start_here() {
    let (mut a, _) = node_pair();
    let epr = EprFiveTuple::new(1, 3, 2, 7, 1);
    assert!(a.handle_epr_request_app(0, epr, vec![1]).is_err());
    assert!(a.handle_epr_request_app(0, epr, vec![2, 1]).is_err());
    let foreign = EprFiveTuple::new(4, 3, 2, 7, 1);
    assert!(a.handle_epr_request_app(0, foreign, vec![4, 2]).is_err());
    assert_eq!(0, a.num_pending());
    assert!(a.epr_established(0, 9, Role::Master, 1).is_err());
}

fn chain() -> (Node, Node, Node) {
    let mut a = Node::new(1, 10);
    let mut b = Node::new(2, 10);
    let mut c = Node::new(3, 10);
    a.add_nic(2, Role::Master, 1);
    b.add_nic(1, Role::Slave, 1);
    b.add_nic(3, Role::Master, 1);
    c.add_nic(2, Role::Slave, 1);
    a.epr_established(0, 2, Role::Master, 11).unwrap();
    b.epr_established(0, 1, Role::Slave, 11).unwrap();
    b.epr_established(0, 3, Role::Master, 12).unwrap();
    c.epr_established(0, 2, Role::Slave, 12).unwrap();
    (a, b, c)
}

fn first_hop(a: &mut Node, epr: EprFiveTuple) -> EsRequestData {
    let events = a.handle_epr_request_app(5, epr, vec![1, 2, 3]).unwrap();
    match events[0].event_type {
        EventType::NodeEvent(NodeEventData::EsRequest(d)) => d,
        _ => panic!("wrong event"),
    }
}

#[test]
fn swapping_forwards_request_over_next_pair() {
    let (mut a, mut b, mut c) = chain();
    let epr = EprFiveTuple::new(1, 3, 3, 7, 1);
    let d = first_hop(&mut a, epr);
    let events = b.handle_es_swap(d, true, 3).unwrap();
    assert_eq!(1, events.len());
    assert_eq!(
        Some(Transfer { src_node: 2, dst_node: 3, done: false }),
        events[0].transfer
    );
    let d2 = match events[0].event_type {
        EventType::NodeEvent(NodeEventData::EsRequest(d)) => d,
        _ => panic!("wrong event"),
    };
    assert_eq!(12, d2.local_pair_id);
    assert_eq!(2, d2.prev_hop);
    assert_eq!(3, d2.next_hop);
    // Both photons at the middle node were measured.
    assert!(b.nic(Role::Slave, 1).unwrap().memory_cells()[0].is_empty());
    assert!(b.nic(Role::Master, 3).unwrap().memory_cells()[0].is_empty());
    // The target completes after one correction.
    let events = c.handle_es_request(d2, 1).unwrap();
    assert_eq!(10, events[0].time());
}

#[test]
fn failed_swap_returns_to_source() {
    let (mut a, mut b, _) = chain();
    let epr = EprFiveTuple::new(1, 3, 3, 7, 1);
    let d = first_hop(&mut a, epr);
    let events = b.handle_es_swap(d, false, 3).unwrap();
    assert_eq!(
        Some(Transfer { src_node: 2, dst_node: 1, done: false }),
        events[0].transfer
    );
    let failed = match events[0].event_type {
        EventType::NodeEvent(NodeEventData::EsFailure(d)) => d,
        _ => panic!("wrong event"),
    };
    // The middle node freed the pair of the previous hop and kept the other.
    assert!(b.nic(Role::Slave, 1).unwrap().memory_cells()[0].is_empty());
    assert!(b.nic(Role::Master, 3).unwrap().memory_cells()[0].is_valid());
    // The source frees its pair and queues the request again.
    assert!(a.handle_es_failure(failed).unwrap().is_empty());
    assert_eq!(1, a.num_pending());
    assert!(a.nic(Role::Master, 2).unwrap().memory_cells()[0].is_empty());
    // The target of the request cannot swap.
    assert_eq!(Err(SimError::ProtocolViolation), b.handle_es_swap(EsRequestData { next_hop: 3, ..d }, true, 3));
}

#[test]
fn generator_without_fidelity_only_rearms() {
    let topo = logical_topology_2_2();
    let l = topo.links()[0];
    let mut net = Network::new(topo, vec![vec![0; 10]; 10], 0).unwrap();
    let g = qnetsim::event::EprGeneratedData {
        tx_node_id: l.weight.tx,
        master_node_id: l.master,
        slave_node_id: l.slave,
    };
    let draws = Draws {
        next_generation_ns: 9,
        fidelity_bits: None,
        corrections: 0,
        app_delay_ns: 0,
        swap_ok: true,
    };
    let (events, samples) = net
        .handle(1, Event::new(0, EventType::NodeEvent(NodeEventData::EprGenerated(g))), draws)
        .unwrap();
    assert_eq!(1, events.len());
    assert_eq!(9, events[0].time());
    assert!(samples.is_empty());
}
