use qnetsim::logical_topology::LogicalTopology;
use qnetsim::network::{Draws, Network};
use qnetsim::simulation::{Simulation, StepKind};

#[test]
fn test_simulation_run() {
    // A replication without a logical topology only sees its own events.
    let network = Network::new(LogicalTopology::new(), vec![], 0).unwrap();
    assert!(Simulation::new(Network::new(LogicalTopology::new(), vec![], 0).unwrap(), 0, 0, false).is_err());
    let mut sim = Simulation::new(network, 1_000, 100, false).unwrap();
    sim.start(&vec![]).unwrap();
    let draws = Draws {
        next_generation_ns: 0,
        fidelity_bits: None,
        corrections: 0,
        app_delay_ns: 0,
        swap_ok: true,
    };
    let mut steps = 0;
    while let Some(e) = sim.next_event() {
        steps += 1;
        let (kind, samples) = sim.step(e, draws).unwrap();
        assert!(samples.is_empty());
        if kind == StepKind::Finished {
            assert_eq!(1_000, sim.now());
            break;
        }
    }
    // Warm-up end, progress reports every 10 ns up to 1000 ns, and the end.
    assert_eq!(steps, sim.num_events());
    assert!(steps >= 3);
    assert!(!sim.logical_topology_found());
}
