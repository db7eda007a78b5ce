use line_relay::fanout::plan_broadcast;
use line_relay::registry::Registry;

#[test]
fn register_then_get() {
    let mut r: Registry<&str> = Registry::new();
    assert!(r.register(1, "one"));
    assert!(r.register(2, "two"));
    assert_eq!(r.len(), 2);
    assert!(r.contains(1));
    assert!(!r.contains(3));
    assert_eq!(r.get(1), Some(&"one"));
    assert_eq!(r.get(2), Some(&"two"));
    assert_eq!(r.get(3), None);
}

#[test]
fn duplicate_register_is_an_invariant_violation() {
    let mut r: Registry<u32> = Registry::new();
    assert!(r.register(7, 70));
    assert!(!r.register(7, 71));
    assert_eq!(r.len(), 1);
    assert_eq!(r.get(7), Some(&70));
}

#[test]
fn deregister_returns_the_handle_and_is_idempotent() {
    let mut r: Registry<u32> = Registry::new();
    r.register(1, 10);
    r.register(2, 20);
    assert_eq!(r.deregister(1), Some(10));
    assert_eq!(r.deregister(1), None);
    assert_eq!(r.len(), 1);
    assert!(!r.contains(1));
    assert!(r.contains(2));
}

#[test]
fn snapshot_skips_the_origin_and_keeps_order() {
    let mut r: Registry<u32> = Registry::new();
    r.register(5, 50);
    r.register(3, 30);
    r.register(9, 90);
    assert_eq!(r.snapshot_except(3), vec![5, 9]);
    assert_eq!(r.snapshot_except(5), vec![3, 9]);
    assert_eq!(r.snapshot_except(42), vec![5, 3, 9]);
}

#[test]
fn snapshot_after_departure_drops_the_id() {
    let mut r: Registry<u32> = Registry::new();
    r.register(1, 10);
    r.register(2, 20);
    r.register(3, 30);
    r.deregister(2);
    let plan = r.snapshot_except(1);
    assert_eq!(plan, vec![3]);
    assert!(!plan.contains(&2));
}

#[test]
fn planned_broadcast_carries_payload_and_recipients() {
    let mut r: Registry<u32> = Registry::new();
    r.register(1, 10);
    r.register(2, 20);
    let job = plan_broadcast(&r, 1, b"Message: hey\n".to_vec());
    assert_eq!(job.payload, b"Message: hey\n".to_vec());
    assert_eq!(job.recipients, vec![2]);
}
