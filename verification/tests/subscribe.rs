use api::routes::subscribe::{guard_lite, guard_subscriber_remove, DUP_SUBSCRIBE_MSG};

#[test]
fn dup_subscribe_message_matches_django() {
    assert_eq!(DUP_SUBSCRIBE_MSG, "User already subscribed to the issue.");
}

#[test]
fn lite_gate_passes_any_active_member_incl_guest() {
    assert!(guard_lite(Some(20)).is_ok());
    assert!(guard_lite(Some(15)).is_ok());
    assert!(guard_lite(Some(5)).is_ok());
    assert_eq!(guard_lite(None).unwrap_err(), "You don't have the required permissions.");
}

#[test]
fn subscriber_remove_gate_matches_entity_unsafe_branch() {
    assert!(guard_subscriber_remove(Some(20)).is_ok());
    assert!(guard_subscriber_remove(Some(15)).is_ok());
    assert!(guard_subscriber_remove(Some(5)).is_err());
    assert!(guard_subscriber_remove(None).is_err());
}

#[test]
fn lite_gate_passes_any_role_value() {
    assert!(guard_lite(Some(1)).is_ok());
}
