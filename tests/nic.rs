use qnetsim::nic::{MemoryCell, Nic, Role};

fn occupancy(nic: &Nic) -> f64 {
    if nic.len() == 0 {
        0.0
    } else {
        nic.occupied() as f64 / nic.len() as f64
    }
}

fn near(a: f64, b: f64) -> bool {
    (a - b).abs() < 1e-9
}

#[test]
fn test_nic_add_consume_epr_pairs() {
    let mut nic = Nic::new(Role::Master, 10);

    for cell in nic.memory_cells() {
        assert!(cell.is_empty());
    }

    assert!(near(0.0, occupancy(&nic)));

    assert!(nic.oldest_valid().is_none());
    assert!(nic.newest_valid().is_none());

    for i in 0..10 {
        nic.add_epr_pair(i + 100, i);
        assert_eq!(0, nic.oldest_valid().unwrap());
        assert_eq!(i, nic.newest_valid().unwrap());
        assert!(near(0.1 * (i + 1) as f64, occupancy(&nic)));
    }

    assert!(near(1.0, occupancy(&nic)));

    for cell in nic.memory_cells() {
        assert!(!cell.is_empty());
    }

    // Consume all the EPR pairs.
    assert!(nic.consume(10).is_none());
    for i in 0..10_u64 {
        let data = nic.consume(i).unwrap();

        assert_eq!(i + 100, data.created);
        assert_eq!(i, data.local_pair_id);

        assert!(near(1.0 - 0.1 * (i + 1) as f64, occupancy(&nic)));
    }

    for cell in nic.memory_cells() {
        assert!(cell.is_empty());
    }

    // Re-add them all.
    for i in 0..10 {
        nic.add_epr_pair(i + 100, i);
    }

    // Plus a new one.
    nic.add_epr_pair(999, 42);

    for cell in nic.memory_cells() {
        match cell {
            MemoryCell::Empty => panic!("invalid empty cell"),
            MemoryCell::Valid(data) => {
                assert!((data.created >= 101 && data.created <= 109) || data.created == 999);
                assert!(
                    (data.local_pair_id >= 1 && data.local_pair_id <= 9)
                        || data.local_pair_id == 42
                );
            }
            MemoryCell::Used(_data) => panic!("invalid used cell"),
        }
    }
}

#[test]
fn test_nic_use_consume_epr_pairs() {
    let mut nic = Nic::new(Role::Master, 10);

    // Make sure all the cells are empty.
    for cell in nic.memory_cells() {
        assert!(cell.is_empty());
    }

    assert!(near(0.0, occupancy(&nic)));

    // Try to use empty cells.
    for i in 0..10 {
        assert!(!nic.used(i));
    }

    // Make all the cells valid.
    for i in 0..10 {
        nic.add_epr_pair(i + 100, i);
        assert!(near(0.1 * (i + 1) as f64, occupancy(&nic)));
    }

    assert!(near(1.0, occupancy(&nic)));

    // None of the cells are empty or used.
    for cell in nic.memory_cells() {
        assert!(cell.is_valid());
        assert!(!cell.is_empty());
        assert!(!cell.is_used());
    }

    // Try to use an invalid pair.
    assert!(!nic.used(99));

    // Use all the EPR pairs.
    for i in 0..10 {
        assert!(nic.used(i));
    }
    assert!(nic.oldest_valid().is_none());
    assert!(nic.newest_valid().is_none());

    // Make sure all the cells are used.
    for cell in nic.memory_cells() {
        assert!(cell.is_used());
    }

    assert!(near(1.0, occupancy(&nic)));

    // Try to add a new pair.
    assert!(!nic.add_epr_pair(999, 999));

    // Cannot use cells already used.
    for i in 0..10 {
        assert!(!nic.used(i));
    }

    // Consume one pair.
    assert!(nic.consume(7).is_some());

    // New pairs can be added, they will overwrite the only valid one.
    for i in 0..100 {
        assert!(nic.add_epr_pair(1000 + i, 2000 + i));
    }

    // Consume all the EPR pairs.
    assert!(nic.consume(10).is_none());
    for i in 0..10_u64 {
        let local_pair_id = if i == 7 { 2099 } else { i };
        let exp_created = if i == 7 { 1099 } else { i + 100 };

        let data = nic.consume(local_pair_id).unwrap();
        assert_eq!(exp_created, data.created);
        assert_eq!(local_pair_id, data.local_pair_id);

        assert!(near(1.0 - 0.1 * (i + 1) as f64, occupancy(&nic)));
    }

    for cell in nic.memory_cells() {
        assert!(cell.is_empty());
    }
}

#[test]
fn test_nic_memory_cell_order() {
    assert!(MemoryCell::Empty == MemoryCell::Empty);
    assert!(MemoryCell::Empty <= MemoryCell::Empty);
    assert!(!(MemoryCell::Empty < MemoryCell::Empty));

    assert!(!(MemoryCell::Empty == MemoryCell::new(100, 0)));
    assert!(MemoryCell::Empty <= MemoryCell::new(100, 0));
    assert!(MemoryCell::Empty < MemoryCell::new(100, 0));

    assert!(!(MemoryCell::new(100, 0) == MemoryCell::Empty));
    assert!(!(MemoryCell::new(100, 0) <= MemoryCell::Empty));
    assert!(!(MemoryCell::new(100, 0) < MemoryCell::Empty));

    assert!(MemoryCell::new(100, 0) == MemoryCell::new(100, 0));
    assert!(MemoryCell::new(100, 0) <= MemoryCell::new(100, 0));
    assert!(!(MemoryCell::new(100, 0) < MemoryCell::new(100, 0)));

    assert!(!(MemoryCell::new(200, 0) == MemoryCell::new(100, 0)));
    assert!(!(MemoryCell::new(200, 0) <= MemoryCell::new(100, 0)));
    assert!(!(MemoryCell::new(200, 0) < MemoryCell::new(100, 0)));

    assert!(!(MemoryCell::new(100, 0) == MemoryCell::new(200, 0)));
    assert!(MemoryCell::new(100, 0) <= MemoryCell::new(200, 0));
    assert!(MemoryCell::new(100, 0) < MemoryCell::new(200, 0));
}

#[test]
fn nic_overwrites_oldest_valid_pair() {
    let mut nic = Nic::new(Role::Slave, 2);
    assert!(nic.add_epr_pair(100, 1));
    assert!(nic.add_epr_pair(200, 2));
    assert!(nic.add_epr_pair(300, 3));
    let mut ids: Vec<u64> = nic
        .memory_cells()
        .iter()
        .map(|c| c.local_pair_id().unwrap())
        .collect();
    ids.sort();
    assert_eq!(vec![2, 3], ids);
    assert!(nic.consume(1).is_none());
}

#[test]
fn nic_locked_cell_not_overwritten() {
    let mut nic = Nic::new(Role::Master, 1);
    assert!(nic.add_epr_pair(100, 1));
    assert!(nic.used(1));
    assert!(!nic.add_epr_pair(200, 2));
    assert_eq!(Some(1), nic.memory_cells()[0].local_pair_id());
    assert!(nic.memory_cells()[0].is_used());
}

#[test]
fn nic_consume_gives_pair_out_once() {
    let mut nic = Nic::new(Role::Master, 3);
    assert!(nic.consume(5).is_none());
    nic.add_epr_pair(10, 5);
    assert!(nic.used(5));
    let data = nic.consume(5).unwrap();
    assert_eq!(10, data.created);
    assert_eq!(5, data.local_pair_id);
    assert!(nic.consume(5).is_none());
    assert_eq!(0, nic.occupied());
    assert_eq!(3, nic.len());
}

#[test]
fn nic_oldest_and_newest_ties_and_roles() {
    let mut nic = Nic::new(Role::Slave, 4);
    nic.add_epr_pair(50, 1);
    nic.add_epr_pair(20, 2);
    nic.add_epr_pair(20, 3);
    nic.add_epr_pair(50, 4);
    // The first of the equally old cells, the last of the equally new ones.
    assert_eq!(Some(1), nic.oldest_valid());
    assert_eq!(Some(4), nic.newest_valid());
    assert_eq!(Role::Slave, nic.role());
    assert_eq!("S", nic.role().label());
    assert_eq!("M", Role::Master.label());
}

#[test]
fn memory_cell_take_and_lock() {
    let mut cell = MemoryCell::new(7, 9);
    cell.used();
    assert!(cell.is_used());
    let data = cell.take_data().unwrap();
    assert_eq!(7, data.created);
    assert_eq!(9, data.local_pair_id);
    assert!(cell.is_empty());
    assert!(cell.take_data().is_none());
    assert!(cell.data().is_none());
    let mut empty = MemoryCell::default();
    empty.used();
    assert!(empty.is_empty());
}
