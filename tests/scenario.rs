use qnetsim::apps::AppSample;
use qnetsim::config::{create_applications, ConfPing, SourceDestPairs};
use qnetsim::event::{EventType, NodeEventData};
use qnetsim::network::{Draws, Network, Sample};
use qnetsim::physical_topology::{NodeType, NodeWeight, PhysicalTopology};
use qnetsim::simulation::{derive_topology, Simulation, StepKind};
use qnetsim::logical_topology::PhysicalToLogicalPolicy;
use rand::SeedableRng;

/// One satellite that feeds two ground stations.
fn one_sat_two_ogs() -> PhysicalTopology {
    let sat = NodeWeight {
        node_type: NodeType::SAT,
        memory_qubits: 0,
        detectors: 0,
        transmitters: 2,
        capacity_mpps: 1_000_000,
    };
    let ogs = NodeWeight {
        node_type: NodeType::OGS,
        memory_qubits: 2,
        detectors: 2,
        transmitters: 0,
        capacity_mpps: 0,
    };
    PhysicalTopology::from_edges(vec![sat, ogs, ogs], vec![(0, 1), (0, 2)]).unwrap()
}

struct Run {
    rtts: Vec<u64>,
    sample_times: Vec<u64>,
    num_events: u64,
    fidelities: usize,
}

/// Run a replication with a generator firing every millisecond and a
/// classical delay of `latency` between any two nodes.
fn run(duration_ns: u64, warmup_ns: u64, latency: u64, max_requests: u64) -> Run {
    let physical = one_sat_two_ogs();
    let mut rng = rand::rngs::StdRng::seed_from_u64(42);
    let (logical, found) = derive_topology(&PhysicalToLogicalPolicy::RandomGreedy, &physical, &mut rng);
    assert!(found);
    let n = logical.num_nodes() as usize;
    let links = logical.links().len();
    let network = Network::new(logical, vec![vec![latency; n]; n], 0).unwrap();
    let mut sim = Simulation::new(network, duration_ns, warmup_ns, found).unwrap();
    let conf = ConfPing {
        source_dest_pairs: SourceDestPairs::Random(1),
        max_requests,
    };
    assert_eq!(Ok(1), create_applications(42, &conf, &physical.ogs_indices(), sim.network_mut()));
    sim.start(&vec![1_000_000; links]).unwrap();
    let mut out = Run {
        rtts: vec![],
        sample_times: vec![],
        num_events: 0,
        fidelities: 0,
    };
    let mut last = 0;
    while let Some(event) = sim.next_event() {
        assert!(event.time() >= last);
        last = event.time();
        let mut draws = Draws {
            next_generation_ns: 1_000_000,
            fidelity_bits: Some(0.9_f64.to_bits()),
            corrections: 0,
            app_delay_ns: 0,
            swap_ok: true,
        };
        if let EventType::NodeEvent(NodeEventData::EprGenerated(_)) = event.event_type {
            draws.next_generation_ns = 1_000_000;
        }
        let (kind, samples) = sim.step(event, draws).unwrap();
        if kind == StepKind::Finished {
            break;
        }
        for s in samples {
            out.sample_times.push(last);
            match s {
                Sample::App(AppSample::Rtt(r)) => out.rtts.push(r.rtt_ns),
                Sample::Fidelity { fidelity_bits, .. } => {
                    assert_eq!(0.9, f64::from_bits(fidelity_bits));
                    out.fidelities += 1;
                }
                _ => {}
            }
        }
    }
    out.num_events = sim.num_events();
    out
}

#[test]
fn single_hop_pinger_completes_max_requests() {
    let latency = 5_000;
    let r = run(2_000_000_000, 0, latency, 5);
    assert_eq!(5, r.rtts.len());
    for rtt in &r.rtts {
        assert!(*rtt > 0);
        assert!(*rtt >= 2 * latency);
    }
    // Both ends measure each pair.
    assert_eq!(10, r.fidelities);
}

#[test]
fn warmup_discards_early_samples() {
    let r = run(2_000_000_000, 1_000_000_000, 1_000, 1_000_000);
    assert!(!r.sample_times.is_empty());
    for t in &r.sample_times {
        assert!(*t >= 1_000_000_000);
    }
    let all = run(2_000_000_000, 0, 1_000, 1_000_000);
    assert_eq!(all.num_events, r.num_events);
}
