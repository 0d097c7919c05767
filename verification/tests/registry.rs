use broadcast_relay::registry::Registry;

#[test]
fn register_returns_fresh_ids() {
    let mut reg = Registry::new();
    assert!(reg.can_register());
    let a = reg.register();
    let b = reg.register();
    let c = reg.register();
    assert_ne!(a, b);
    assert_ne!(a, c);
    assert_ne!(b, c);
    assert_eq!(reg.handles(), &vec![a, b, c]);
    assert_eq!(reg.count(), 3);
}

#[test]
fn prune_drops_failed_handle() {
    let mut reg = Registry::new();
    let a = reg.register();
    let b = reg.register();
    let c = reg.register();
    reg.prune(&vec![true, false, true]);
    assert_eq!(reg.handles(), &vec![a, c]);
    assert!(!reg.handles().contains(&b));
}

#[test]
fn prune_keeps_registration_order() {
    let mut reg = Registry::new();
    let ids: Vec<u64> = (0..5).map(|_| reg.register()).collect();
    reg.prune(&vec![false, true, true, false, true]);
    assert_eq!(reg.handles(), &vec![ids[1], ids[2], ids[4]]);
}

#[test]
fn prune_all_failed_empties_registry() {
    let mut reg = Registry::new();
    reg.register();
    reg.register();
    reg.prune(&vec![false, false]);
    assert_eq!(reg.count(), 0);
    assert!(reg.handles().is_empty());
}

#[test]
fn pruned_handle_stays_absent() {
    let mut reg = Registry::new();
    let a = reg.register();
    let b = reg.register();
    reg.prune(&vec![true, false]);
    // A later accept must not reuse the pruned id.
    let d = reg.register();
    assert_ne!(d, b);
    assert_eq!(reg.handles(), &vec![a, d]);
    reg.prune(&vec![true, true]);
    assert!(!reg.handles().contains(&b));
}

#[test]
fn prune_empty_registry() {
    let mut reg = Registry::new();
    reg.prune(&Vec::new());
    assert_eq!(reg.count(), 0);
}
