use canabi::poll::Registry;

#[test]
fn poll_returns_ready_positions_in_input_order() {
    let mut reg = Registry::new();
    let a = reg.subscribe(true);
    let b = reg.subscribe(false);
    let c = reg.subscribe(true);
    // Input order decides the order of positions, not readiness arrival.
    let got = reg.poll(&vec![c, b, a]).unwrap();
    assert_eq!(got, vec![0usize, 2]);
}

#[test]
fn poll_reports_would_suspend_when_nothing_is_ready() {
    let mut reg = Registry::new();
    let a = reg.subscribe(false);
    let b = reg.subscribe(false);
    assert!(reg.poll(&vec![a, b]).is_none());
    reg.set_ready(b);
    assert_eq!(reg.poll(&vec![a, b]).unwrap(), vec![1usize]);
}

#[test]
fn poll_returns_all_ready_in_one_pass() {
    let mut reg = Registry::new();
    let mut set = Vec::new();
    for i in 0..6usize {
        set.push(reg.subscribe(i % 2 == 0));
    }
    assert_eq!(reg.poll(&set).unwrap(), vec![0usize, 2, 4]);
}

#[test]
fn destroyed_resource_resolves_as_ready() {
    // Fail-fast over deadlock: retiring a condition makes its pollable
    // ready instead of hanging a waiter forever.
    let mut reg = Registry::new();
    let p = reg.subscribe(false);
    assert!(!reg.check(p));
    reg.retire(p);
    assert!(reg.check(p));
    assert_eq!(reg.poll(&vec![p]).unwrap(), vec![0usize]);
}

#[test]
fn block_is_poll_over_a_singleton() {
    let mut reg = Registry::new();
    let p = reg.subscribe(false);
    assert!(!reg.block(p));
    reg.set_ready(p);
    assert!(reg.block(p));
}
