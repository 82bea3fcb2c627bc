use monitor::util::{generate_server_id, new_session_id, server_id_from_parts};

#[test]
fn server_id_joins_host_and_id_prefix() {
    let id = server_id_from_parts(
        Some("host".to_string()),
        Some("abcdef0123456789".to_string()),
    );
    assert_eq!(id, "host-abcdef01");
}

#[test]
fn server_id_keeps_short_machine_id_whole() {
    let id = server_id_from_parts(Some("host".to_string()), Some("abc".to_string()));
    assert_eq!(id, "host-abc");
}

#[test]
fn server_id_fills_unknown_parts() {
    assert_eq!(server_id_from_parts(None, None), "unknown-unknown");
    assert_eq!(
        server_id_from_parts(None, Some("0123456789".to_string())),
        "unknown-01234567"
    );
}

#[test]
fn generated_server_id_has_the_joined_shape() {
    let id = generate_server_id();
    assert!(id.contains('-'));
}

#[test]
fn session_ids_are_uuid_shaped_and_fresh() {
    let a = new_session_id();
    let b = new_session_id();
    assert_eq!(a.len(), 36);
    assert_eq!(b.len(), 36);
    assert_ne!(a, b);
}
