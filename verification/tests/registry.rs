use tunnelium::tunnel::registry::TunnelRegistry;

#[test]
fn stop_removes_the_tunnel_from_the_registry() {
    let mut r: TunnelRegistry<&str> = TunnelRegistry::new();
    r.insert(7, "first");
    assert!(r.is_running(7));
    assert_eq!(r.take(7), Some("first"));
    assert!(!r.is_running(7));
    assert_eq!(r.take(7), None);
}

#[test]
fn start_replaces_and_lists_each_id_once() {
    let mut r: TunnelRegistry<u32> = TunnelRegistry::new();
    r.insert(1, 10);
    r.insert(2, 20);
    r.insert(1, 11);
    assert_eq!(r.running_ids(), vec![1, 2]);
    let mut all = r.take_all();
    all.sort();
    assert_eq!(all, vec![11, 20]);
    assert!(r.running_ids().is_empty());
    assert!(!r.is_running(1));
}
