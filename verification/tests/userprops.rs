use api::routes::userprops::{
    guard_userprops, missing_prop_patch, INVALID_DETAIL_MSG, PAYLOAD_INVALID_MSG,
};

#[test]
fn gate_passes_admin_member_guest_only() {
    assert!(guard_userprops(Some(20)).is_ok());
    assert!(guard_userprops(Some(15)).is_ok());
    assert!(guard_userprops(Some(5)).is_ok());
    assert_eq!(
        guard_userprops(None).unwrap_err(),
        "You don't have the required permissions."
    );
    assert!(guard_userprops(Some(10)).is_err());
}

#[test]
fn missing_patch_distinguishes_project_autocreate_from_cycle_module_404() {
    assert_eq!(missing_prop_patch("project"), 200);
    assert_eq!(missing_prop_patch("cycle"), 404);
    assert_eq!(missing_prop_patch("module"), 404);
}

#[test]
fn userprops_messages_verbatim() {
    assert_eq!(INVALID_DETAIL_MSG, "Please provide valid detail");
    assert_eq!(PAYLOAD_INVALID_MSG, "The payload is not valid");
}
