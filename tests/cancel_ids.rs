use llmcord::cancel::{build_id, parse_id, CancellationRegistry};

#[test]
fn id_round_trip() {
    let id = build_id(1234567890123, 42);
    assert_eq!(id, "cancel#1234567890123#42");
    assert_eq!(parse_id(&id), Some((1234567890123, 42)));
    assert_eq!(parse_id(&build_id(1, u64::MAX)), Some((1, u64::MAX)));
}

#[test]
fn malformed_ids_are_refused() {
    assert_eq!(parse_id("cancel#1"), None);
    assert_eq!(parse_id("cancel#1#2#3"), None);
    assert_eq!(parse_id("Cancel#1#2"), None);
    assert_eq!(parse_id("cancel##2"), None);
    assert_eq!(parse_id("cancel#1a#2"), None);
    assert_eq!(parse_id("cancel#1#18446744073709551616"), None);
    assert_eq!(parse_id("cancel#007#2"), Some((7, 2)));
    assert_eq!(parse_id("ok#1#2"), None);
    assert_eq!(parse_id("cancel#x#5"), None);
    assert_eq!(parse_id("cancel#0#5"), None);
    assert_eq!(parse_id("cancel#5#0"), None);
    assert_eq!(parse_id("cancel#000#5"), None);
}

#[test]
fn registry_drains_signals() {
    let registry = CancellationRegistry::new();
    registry.signal(3);
    registry.signal(4);
    assert!(registry.try_take(4));
    assert!(!registry.try_take(3));
    assert_eq!(registry.request_cancel("cancel#8#1", 2), None);
    assert_eq!(registry.request_cancel("cancel#8#1", 1), Some(8));
    assert_eq!(registry.drain(), vec![8]);
}
