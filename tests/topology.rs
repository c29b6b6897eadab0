use qnetsim::config::{install_pair, AppKind};
use qnetsim::logical_topology::admit_greedy;
use qnetsim::network::Network;
use qnetsim::error::SimError;
use qnetsim::logical_topology::{
    find_paths, find_possible_logical_edges, is_valid, physical_to_logical_random_greedy,
    reachable, LogicalEdge, LogicalTopology, PhysicalToLogicalPolicy,
};
use qnetsim::physical_topology::{FidelityClass, GridSize, NodeType, NodeWeight, PhysicalTopology};
use rand::SeedableRng;

fn physical_topology_2_2() -> PhysicalTopology {
    PhysicalTopology::from_grid_static(
        GridSize {
            num_orbits: 2,
            orbit_length: 2,
        },
        NodeWeight {
            node_type: NodeType::SAT,
            memory_qubits: 10,
            detectors: 10,
            transmitters: 10,
            capacity_mpps: 1000,
        },
        NodeWeight {
            node_type: NodeType::OGS,
            memory_qubits: 20,
            detectors: 10,
            transmitters: 0,
            capacity_mpps: 0,
        },
    )
    .expect("invalid physical topology")
}

fn grid(num_orbits: u32, orbit_length: u32) -> Result<PhysicalTopology, SimError> {
    PhysicalTopology::from_grid_static(
        GridSize {
            num_orbits,
            orbit_length,
        },
        NodeWeight::default_sat(),
        NodeWeight::default_ogs(),
    )
}

#[test]
fn test_logical_topology_find_possible_logical_edges() {
    let physical_topology = physical_topology_2_2();
    let res = find_possible_logical_edges(&physical_topology);

    assert_eq!(168, res.len());

    let sat_indices: std::collections::HashSet<u32> =
        std::collections::HashSet::from_iter(physical_topology.sat_indices().iter().cloned());
    let ogs_indices: std::collections::HashSet<u32> =
        std::collections::HashSet::from_iter(physical_topology.ogs_indices().iter().cloned());
    for e in &res {
        assert!(sat_indices.contains(&e.tx));
        assert!(sat_indices.contains(&e.master) || ogs_indices.contains(&e.master));
        assert!(sat_indices.contains(&e.slave) || ogs_indices.contains(&e.slave));
    }
}

#[test]
fn test_logical_topology_physical_to_logical_random_greedy() {
    let mut rng = rand::rngs::StdRng::seed_from_u64(42);

    for _try in 0..10 {
        let physical_topology = physical_topology_2_2();
        let links = physical_to_logical_random_greedy(&physical_topology, &mut rng).unwrap();

        for l in &links {
            println!("{} -> {}, {:?}", l.master, l.slave, l.weight);
        }

        if is_valid(&links, &physical_topology).is_err() {
            continue;
        }

        let all_paths = find_paths(physical_topology.node_count() as u32, &links);
        assert_eq!(10, all_paths.len());

        for (source, paths) in all_paths.iter().enumerate() {
            let max_cost = paths.iter().map(|x| x.unwrap_or(u64::MAX / 2)).max().unwrap();
            assert!(max_cost <= 4);
            println!(
                "distances of {}: {}",
                source,
                paths
                    .iter()
                    .map(|x| format!("{:?}", x))
                    .collect::<Vec<String>>()
                    .join(",")
            );
        }

        return;
    }

    panic!("test failed");
}

#[test]
fn logical_topology_seed_42_connects_ground_stations() {
    let mut rng = rand::rngs::StdRng::seed_from_u64(42);
    let physical_topology = physical_topology_2_2();
    let topo = LogicalTopology::from_physical_topology(
        &PhysicalToLogicalPolicy::RandomGreedy,
        &physical_topology,
        &mut rng,
    )
    .unwrap();
    assert_eq!(10, topo.num_nodes());
    assert!(is_valid(topo.links(), &physical_topology).is_ok());
    let ogs = physical_topology.ogs_indices();
    for a in &ogs {
        for b in &ogs {
            let d = topo.distance(*a, *b).unwrap();
            assert!(d <= 4);
            assert_eq!(d == 0, a == b);
        }
    }
    // Every node stays within its resources.
    for (x, w) in physical_topology.nodes().iter().enumerate() {
        let x = x as u32;
        let mem: u32 = topo
            .links()
            .iter()
            .filter(|l| l.master == x || l.slave == x)
            .map(|l| l.weight.memory_qubits)
            .sum();
        assert!(mem <= w.memory_qubits);
        let cap: u64 = topo
            .links()
            .iter()
            .filter(|l| l.weight.tx == x)
            .map(|l| l.weight.capacity_mpps)
            .sum();
        assert!(cap <= w.capacity_mpps);
    }
}

#[test]
fn logical_topology_infeasible_without_transmitters() {
    let mut rng = rand::rngs::StdRng::seed_from_u64(1);
    let physical_topology = PhysicalTopology::from_grid_static(
        GridSize {
            num_orbits: 1,
            orbit_length: 2,
        },
        NodeWeight {
            node_type: NodeType::SAT,
            memory_qubits: 1,
            detectors: 1,
            transmitters: 0,
            capacity_mpps: 0,
        },
        NodeWeight::default_ogs(),
    )
    .unwrap();
    assert_eq!(
        Err(SimError::TopologyInfeasible),
        physical_to_logical_random_greedy(&physical_topology, &mut rng)
    );
    assert!(is_valid(&Vec::new(), &physical_topology).is_err());
    assert_eq!(0, LogicalTopology::default().num_nodes());
}

#[test]
fn test_physical_topology_from_grid() {
    // Invalid params
    assert!(grid(0, 1).is_err());
    assert!(grid(1, 0).is_err());

    // Valid 1x1 grid
    let graph = grid(1, 1).unwrap();
    assert_eq!((0..1).collect::<Vec<u32>>(), graph.sat_indices());
    assert_eq!((1..3).collect::<Vec<u32>>(), graph.ogs_indices());

    // Valid 1x2 grid
    let graph = grid(1, 2).unwrap();
    assert_eq!((0..2).collect::<Vec<u32>>(), graph.sat_indices());
    assert_eq!((2..6).collect::<Vec<u32>>(), graph.ogs_indices());

    // Valid 2x1 grid
    let graph = grid(2, 1).unwrap();
    assert_eq!((0..2).collect::<Vec<u32>>(), graph.sat_indices());
    assert_eq!((2..5).collect::<Vec<u32>>(), graph.ogs_indices());

    // Valid 2x2 grid
    let graph = grid(2, 2).unwrap();
    assert_eq!((0..4).collect::<Vec<u32>>(), graph.sat_indices());
    assert_eq!((4..10).collect::<Vec<u32>>(), graph.ogs_indices());

    // Valid 4x3 grid
    let graph = grid(3, 4).unwrap();
    assert_eq!((0..12).collect::<Vec<u32>>(), graph.sat_indices());
    assert_eq!((12..28).collect::<Vec<u32>>(), graph.ogs_indices());
    assert_eq!(28, graph.node_count());
}

#[test]
fn grid_links_follow_the_torus() {
    let graph = grid(3, 4).unwrap();
    // Along an orbit, wrapping around.
    assert!(graph.has_edge(0, 1));
    assert!(graph.has_edge(0, 3));
    assert!(!graph.has_edge(0, 2));
    // Across orbits, open at top and bottom.
    assert!(graph.has_edge(0, 4));
    assert!(graph.has_edge(4, 8));
    assert!(!graph.has_edge(0, 8));
    // Station 12 (band 0, column 0) sees satellites 0 and 3 only.
    let mut n = graph.neighbors(12);
    n.sort();
    assert_eq!(vec![0, 3], n);
    // Station 16 (band 1, column 0) sees 0, 3, 4 and 7.
    let mut n = graph.neighbors(16);
    n.sort();
    assert_eq!(vec![0, 3, 4, 7], n);
    // Each satellite: 4 satellites and 4 stations.
    let mut n = graph.neighbors(5);
    n.sort();
    assert_eq!(8, n.len());
    assert!(!graph.has_edge(12, 13));
}

#[test]
fn grid_rejects_invalid_weights() {
    let bad = NodeWeight {
        node_type: NodeType::SAT,
        memory_qubits: 0,
        detectors: 1,
        transmitters: 1,
        capacity_mpps: 1,
    };
    assert!(!bad.valid());
    assert_eq!(
        Err(SimError::ConfigInvalid),
        PhysicalTopology::from_grid_static(
            GridSize {
                num_orbits: 1,
                orbit_length: 1
            },
            bad,
            NodeWeight::default_ogs()
        )
        .map(|t| t.node_count())
    );
    assert!(PhysicalTopology::from_grid_static(
        GridSize {
            num_orbits: 1,
            orbit_length: 1
        },
        NodeWeight::default_ogs(),
        NodeWeight::default_sat()
    )
    .is_err());
}

#[test]
fn test_physical_topology_fidelities() {
    let types = [
        NodeType::SAT,
        NodeType::OGS,
        NodeType::OGS,
        NodeType::SAT,
        NodeType::SAT,
        NodeType::SAT,
    ];
    let nodes: Vec<NodeWeight> = types
        .iter()
        .map(|t| NodeWeight {
            node_type: *t,
            ..NodeWeight::default_sat()
        })
        .collect();
    let topo =
        PhysicalTopology::from_edges(nodes, vec![(0, 1), (0, 2), (0, 3), (0, 4), (4, 5)]).unwrap();

    assert_eq!(Ok(FidelityClass::O), topo.fidelity(0, 0, 3));
    assert_eq!(Ok(FidelityClass::O), topo.fidelity(0, 3, 0));
    assert_eq!(Ok(FidelityClass::G), topo.fidelity(0, 0, 1));
    assert_eq!(Ok(FidelityClass::G), topo.fidelity(0, 1, 0));
    assert_eq!(Ok(FidelityClass::OO), topo.fidelity(0, 3, 4));
    assert_eq!(Ok(FidelityClass::OG), topo.fidelity(0, 1, 3));
    assert_eq!(Ok(FidelityClass::GG), topo.fidelity(0, 1, 2));

    assert!(topo.fidelity(0, 0, 5).is_err());
    assert!(topo.fidelity(0, 5, 0).is_err());
    assert!(topo.fidelity(0, 1, 5).is_err());
    assert!(topo.fidelity(0, 1, 1).is_err());
    assert!(topo.fidelity(0, 0, 0).is_err());
    assert!(topo.fidelity(0, 99, 1).is_err());
    assert!(topo.fidelity(99, 1, 2).is_err());
}

#[test]
fn from_edges_rejects_bad_edges() {
    let nodes = vec![NodeWeight::default_sat(), NodeWeight::default_ogs()];
    assert_eq!(
        Some(SimError::ConfigInvalid),
        PhysicalTopology::from_edges(nodes.clone(), vec![(0, 2)]).err()
    );
    assert!(PhysicalTopology::from_edges(nodes.clone(), vec![(1, 1)]).is_err());
    assert!(PhysicalTopology::from_edges(nodes, vec![(1, 0)]).is_ok());
}

#[test]
fn reachability_over_directed_links() {
    let edges = vec![(0, 1), (1, 2)];
    assert!(reachable(3, &edges, &vec![0, 1, 2]) == false);
    assert!(reachable(3, &edges, &vec![0, 2]) == false);
    let cycle = vec![(0, 1), (1, 2), (2, 0)];
    assert!(reachable(3, &cycle, &vec![0, 1, 2]));
    assert!(reachable(3, &edges, &vec![1]));
}

#[test]
fn swap_master_slave_exchanges_ends() {
    let e = LogicalEdge {
        tx: 1,
        master: 2,
        slave: 3,
    };
    let s = e.swap_master_slave();
    assert_eq!(1, s.tx);
    assert_eq!(3, s.master);
    assert_eq!(2, s.slave);
}

#[test]
fn greedy_admission_in_given_order() {
    let physical_topology = physical_topology_2_2();
    let cands = find_possible_logical_edges(&physical_topology);
    let ogs = physical_topology.ogs_indices();
    let (links, mem, connected) = admit_greedy(&physical_topology, &cands, &ogs);
    let pairs: Vec<(u32, u32)> = links.iter().map(|l| (l.master, l.slave)).collect();
    assert_eq!(reachable(10, &pairs, &ogs), connected);
    assert!(!links.is_empty());
    for l in &links {
        assert_eq!(1, l.weight.memory_qubits);
        assert_eq!(0, l.weight.capacity_mpps);
    }
    // The first candidate can always be taken.
    assert_eq!(cands[0].master, links[0].master);
    assert_eq!(cands[0].slave, links[0].slave);
    assert_eq!(10, mem.len());
    // No duplicates among the candidates.
    for a in 0..cands.len() {
        for b in 0..a {
            assert!(cands[a] != cands[b]);
        }
    }
    // With no ground station to connect, the stations are trivially
    // connected.
    let (_, _, c) = admit_greedy(&physical_topology, &cands, &vec![]);
    assert!(c);
}

#[test]
fn install_pair_uses_lowest_free_ports() {
    let mut rng = rand::rngs::StdRng::seed_from_u64(42);
    let topo = LogicalTopology::from_physical_topology(
        &PhysicalToLogicalPolicy::RandomGreedy,
        &physical_topology_2_2(),
        &mut rng,
    )
    .unwrap();
    let mut net = Network::new(topo, vec![vec![0; 10]; 10], 0).unwrap();
    assert_eq!(Ok((0, 0)), install_pair(&mut net, 4, 5, AppKind::PingPong { max_requests: 3 }));
    assert_eq!(Ok((1, 0)), install_pair(&mut net, 4, 6, AppKind::PingPong { max_requests: 3 }));
    assert_eq!(Ok((1, 2)), install_pair(&mut net, 5, 4, AppKind::PingPong { max_requests: 3 }));
    assert_eq!(Err(SimError::ConfigInvalid), install_pair(&mut net, 4, 99, AppKind::PingPong { max_requests: 3 }));
}

#[test]
fn install_pair_client_server() {
    let mut rng = rand::rngs::StdRng::seed_from_u64(42);
    let topo = LogicalTopology::from_physical_topology(
        &PhysicalToLogicalPolicy::RandomGreedy,
        &physical_topology_2_2(),
        &mut rng,
    )
    .unwrap();
    let mut net = Network::new(topo, vec![vec![0; 10]; 10], 0).unwrap();
    assert_eq!(
        Ok((0, 0)),
        install_pair(&mut net, 7, 8, AppKind::ClientServer { first_delay_ns: 5 })
    );
    let init = net.node(7).unwrap().initial();
    assert_eq!(1, init.len());
    assert_eq!(5, init[0].time());
    assert!(net.node(8).unwrap().initial().is_empty());
}
