use api::routes::issue_common::project_gate_allows;
use api::routes::state::{
    guard_delete, guard_intake_state, guard_mark_default, validate_create, validate_patch,
    CreateState, PatchState, DELETE_DEFAULT_MSG, DELETE_NON_EMPTY_MSG, TRIAGE_MISS_MSG,
};

#[test]
fn mark_default_guard_allows_admin_only() {
    assert!(guard_mark_default(Some(20)).is_ok());
    assert!(guard_mark_default(Some(15)).is_err());
    assert!(guard_mark_default(Some(5)).is_err());
    assert!(guard_mark_default(None).is_err());
}

#[test]
fn triage_miss_msg_verbatim() {
    assert_eq!(TRIAGE_MISS_MSG, "Triage state not found");
}

#[test]
fn intake_gate_allows_admin_member_guest() {
    assert!(guard_intake_state(Some(20)).is_ok());
    assert!(guard_intake_state(Some(15)).is_ok());
    assert!(guard_intake_state(Some(5)).is_ok());
    assert!(guard_intake_state(None).is_err());
}

#[test]
fn state_create_rules_in_order() {
    let body = |n: &str, g: &str, c: &str| CreateState {
        name: n.to_string(),
        group: g.to_string(),
        color: c.to_string(),
    };
    assert_eq!(validate_create(&body("", "triage", "")).unwrap_err(), "name is required");
    assert_eq!(
        validate_create(&body(&"s".repeat(256), "backlog", "#fff")).unwrap_err(),
        "name max length 255"
    );
    assert_eq!(
        validate_create(&body("S", "triage", "#fff")).unwrap_err(),
        "Cannot create triage state"
    );
    assert_eq!(
        validate_create(&body("S", "doing", "#fff")).unwrap_err(),
        "unknown group doing"
    );
    assert_eq!(validate_create(&body("S", "started", " ")).unwrap_err(), "color is required");
    assert!(validate_create(&body("S", "completed", "#fff")).is_ok());
}

#[test]
fn state_patch_rules() {
    let p = |n: Option<&str>, g: Option<&str>| PatchState {
        name: n.map(|x| x.to_string()),
        group: g.map(|x| x.to_string()),
        color: None,
    };
    assert_eq!(validate_patch(&p(Some(" "), None)).unwrap_err(), "Invalid name");
    assert_eq!(validate_patch(&p(None, Some("triage"))).unwrap_err(), "Invalid group");
    assert_eq!(validate_patch(&p(None, Some("nope"))).unwrap_err(), "Invalid group");
    assert!(validate_patch(&p(Some("Doing"), Some("started"))).is_ok());
    assert!(validate_patch(&PatchState::default()).is_ok());
}

#[test]
fn delete_guard_messages() {
    assert_eq!(guard_delete(true, 0).unwrap_err(), DELETE_DEFAULT_MSG);
    assert_eq!(guard_delete(true, 3).unwrap_err(), DELETE_DEFAULT_MSG);
    assert_eq!(guard_delete(false, 3).unwrap_err(), DELETE_NON_EMPTY_MSG);
    assert!(guard_delete(false, 0).is_ok());
}

#[test]
fn intake_gate_with_workspace_admin_fallback() {
    assert!(project_gate_allows(guard_intake_state(Some(1)).is_ok(), true, true));
    assert!(!project_gate_allows(guard_intake_state(None).is_ok(), false, true));
}
