use plix::auralattice::{
    plix_auralattice_emit, plix_auralattice_init, PlixAuralattice, PlixPulse,
    PLIX_AURALATTICE_MAGIC, PLIX_MAX_REALMS,
};

fn pulse(target: u64) -> PlixPulse {
    PlixPulse { source: 0, target, verb: 7, payload: [1, 2, 3, 4] }
}

#[test]
fn uninitialized_fabric_refuses_pulses() {
    let mut f = PlixAuralattice::new();
    assert_eq!(f.magic, 0);
    assert_eq!(plix_auralattice_emit(&mut f, &pulse(0)), -1);
    assert_eq!(f.realm_count, 0);
    assert_eq!(f.realms[0].pulse_count, 0);
}

#[test]
fn init_roots_realm_zero() {
    let mut f = PlixAuralattice::new();
    plix_auralattice_init(&mut f);
    assert_eq!(f.magic, PLIX_AURALATTICE_MAGIC);
    assert_eq!(f.realm_count, 1);
    assert_eq!(f.reserved, 0);
    assert_eq!(f.realms.len(), PLIX_MAX_REALMS);
    assert_eq!(f.realms[0].root, 1);
    for i in 1..PLIX_MAX_REALMS {
        assert_eq!(f.realms[i].root, 0);
        assert_eq!(f.realms[i].epoch, 0);
    }
}

#[test]
fn emit_roots_a_new_realm_once() {
    let mut f = PlixAuralattice::new();
    plix_auralattice_init(&mut f);
    assert_eq!(plix_auralattice_emit(&mut f, &pulse(5)), 0);
    assert_eq!(f.realms[5].root, 6);
    assert_eq!(f.realms[5].epoch, 1);
    assert_eq!(f.realms[5].pulse_count, 1);
    assert_eq!(f.realm_count, 2);
    assert_eq!(plix_auralattice_emit(&mut f, &pulse(5)), 0);
    assert_eq!(f.realms[5].root, 6);
    assert_eq!(f.realms[5].epoch, 2);
    assert_eq!(f.realms[5].pulse_count, 2);
    assert_eq!(f.realm_count, 2);
}

#[test]
fn emit_to_realm_zero_keeps_count() {
    let mut f = PlixAuralattice::new();
    plix_auralattice_init(&mut f);
    assert_eq!(plix_auralattice_emit(&mut f, &pulse(0)), 0);
    assert_eq!(f.realm_count, 1);
    assert_eq!(f.realms[0].root, 1);
    assert_eq!(f.realms[0].pulse_count, 1);
}

#[test]
fn emit_out_of_range_is_refused() {
    let mut f = PlixAuralattice::new();
    plix_auralattice_init(&mut f);
    assert_eq!(plix_auralattice_emit(&mut f, &pulse(64)), -1);
    assert_eq!(plix_auralattice_emit(&mut f, &pulse(u64::MAX)), -1);
    assert_eq!(f.realm_count, 1);
    let last = plix_auralattice_emit(&mut f, &pulse(63));
    assert_eq!(last, 0);
    assert_eq!(f.realms[63].root, 64);
}

#[test]
fn realm_count_equals_rooted_realms() {
    let mut f = PlixAuralattice::new();
    plix_auralattice_init(&mut f);
    for t in [3u64, 3, 9, 0, 63, 9] {
        assert_eq!(plix_auralattice_emit(&mut f, &pulse(t)), 0);
    }
    let rooted = f.realms.iter().filter(|r| r.root != 0).count();
    assert_eq!(f.realm_count as usize, rooted);
    assert_eq!(f.realm_count, 4);
    for (i, r) in f.realms.iter().enumerate() {
        assert!(r.root == 0 || r.root == i as u64 + 1);
        assert_eq!(r.epoch, r.pulse_count);
    }
}
