use qnetsim::epr_register::{EprPair, EprRegister};

#[test]
fn test_epr_pair_consume() {
    let mut epr_pair = EprPair::new(1, 2, 999, 0.5_f64.to_bits());

    assert!(epr_pair.consume(42).is_none());

    let (updated, fidelity, remove) = epr_pair.consume(1).unwrap();
    assert_eq!(999, updated);
    assert_eq!(0.5, f64::from_bits(fidelity));
    assert!(!remove);

    assert!(epr_pair.consume(1).is_none());

    let (updated, fidelity, remove) = epr_pair.consume(2).unwrap();
    assert_eq!(999, updated);
    assert_eq!(0.5, f64::from_bits(fidelity));
    assert!(remove);

    assert!(epr_pair.consume(1).is_none());
    assert!(epr_pair.consume(2).is_none());
}

#[test]
fn test_epr_pair_register_single() {
    let mut register = EprRegister::default();
    assert_eq!(0, register.new_epr_pair(1, 2, 990, 0.42_f64.to_bits()));

    assert!(register.consume(0, 99).is_none());
    assert!(register.consume(1, 1).is_none());
    assert!(register.consume(1, 2).is_none());

    let (updated, fidelity) = register.consume(0, 1).unwrap();
    assert_eq!(990, updated);
    assert_eq!(0.42, f64::from_bits(fidelity));

    let (updated, fidelity) = register.consume(0, 2).unwrap();
    assert_eq!(990, updated);
    assert_eq!(0.42, f64::from_bits(fidelity));

    assert!(register.consume(0, 1).is_none());
    assert!(register.consume(0, 2).is_none());
}

#[test]
fn test_epr_pair_register_many() {
    let mut register = EprRegister::default();
    for i in 0..100_u64 {
        let alice_id = 1;
        let bob_id = 2;
        let updated = i;
        let fidelity = 0.42_f64.to_bits();
        assert_eq!(
            i,
            register.new_epr_pair(alice_id, bob_id, updated, fidelity)
        );
    }
    assert_eq!(100, register.len());

    assert!(register.consume(999, 1).is_none());
    for i in 0..100_u64 {
        let epr_pair = register.consume(i, 1);
        assert!(epr_pair.is_some());
        let (updated, fidelity) = epr_pair.unwrap();
        assert_eq!(i, updated);
        assert_eq!(0.42, f64::from_bits(fidelity));
    }

    assert!(register.consume(0, 1).is_none());
    assert!(register.consume(99, 1).is_none());
}

#[test]
fn register_removes_pair_after_both_ends() {
    let mut register = EprRegister::new();
    let id = register.new_epr_pair(3, 4, 10, 1.0_f64.to_bits());
    assert_eq!(1, register.len());
    assert!(register.consume(id, 3).is_some());
    assert_eq!(1, register.len());
    assert!(register.consume(id, 4).is_some());
    assert_eq!(0, register.len());
    assert_eq!(1, register.new_epr_pair(3, 4, 11, 1.0_f64.to_bits()));
}
