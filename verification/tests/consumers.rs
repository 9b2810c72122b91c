use spnhub::consumers::ConsumerRegistry;

#[test]
fn connections_are_kept_by_consumer_and_id() {
    let mut registry = ConsumerRegistry::new();
    registry.add_connection("alice", 1, "c1");
    registry.add_connection("alice", 2, "c2");
    registry.add_connection("bob", 3, "c3");
    assert_eq!(registry.count(), 3);
    assert_eq!(registry.get("alice", 2), Some(&"c2"));
    assert_eq!(registry.get("alice", 3), None);
    assert_eq!(registry.list().len(), 3);
}

#[test]
fn joining_and_parting_cancel() {
    let mut registry = ConsumerRegistry::new();
    registry.add_connection("alice", 1, "c1");
    registry.add_connection("alice", 2, "c2");
    registry.remove_connection("alice", 2);
    registry.remove_connection("alice", 7);
    registry.remove_connection("nobody", 1);
    assert_eq!(registry.count(), 1);
    assert_eq!(registry.get("alice", 1), Some(&"c1"));
    registry.remove_connection("alice", 1);
    assert_eq!(registry.count(), 0);
    assert!(registry.list().is_empty());
}
