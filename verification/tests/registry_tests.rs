use monitor::registry::SessionRegistry;

#[test]
fn register_and_unregister() {
    let mut reg: SessionRegistry<String> = SessionRegistry::new();
    let id = "abc".to_string();
    assert!(!reg.contains(&id));
    reg.register(id.clone(), "sink".to_string());
    assert!(reg.contains(&id));
    reg.unregister(&id);
    assert!(!reg.contains(&id));
}

#[test]
fn register_overwrites_prior_entry() {
    let mut reg: SessionRegistry<u32> = SessionRegistry::new();
    let id = "abc".to_string();
    reg.register(id.clone(), 1);
    reg.register(id.clone(), 2);
    assert!(reg.contains(&id));
    reg.unregister(&id);
    assert!(!reg.contains(&id));
}

#[test]
fn register_fresh_refuses_live_id() {
    let mut reg: SessionRegistry<u32> = SessionRegistry::new();
    let id = "abc".to_string();
    assert!(reg.register_fresh(id.clone(), 1));
    assert!(!reg.register_fresh(id.clone(), 2));
    reg.unregister(&id);
    assert!(reg.register_fresh(id.clone(), 3));
}

#[test]
fn unregister_absent_id_is_noop() {
    let mut reg: SessionRegistry<u32> = SessionRegistry::new();
    reg.register("a".to_string(), 1);
    reg.unregister(&"missing".to_string());
    assert!(reg.contains(&"a".to_string()));
}

#[test]
fn two_sessions_distinct_ids_and_independent_cleanup() {
    let mut reg: SessionRegistry<u32> = SessionRegistry::new();
    let id1 = "session-1".to_string();
    let id2 = "session-2".to_string();
    // both admitted while live: their ids must differ
    assert!(reg.register_fresh(id1.clone(), 1));
    assert!(reg.register_fresh(id2.clone(), 2));
    assert_ne!(id1, id2);
    // closing one leaves the other's entry intact
    reg.unregister(&id1);
    assert!(!reg.contains(&id1));
    assert!(reg.contains(&id2));
}
