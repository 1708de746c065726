use api::body::FieldValue;
use api::routes::themes::{
    check_theme_name, theme_gate, FIELD_BLANK_MSG, FIELD_NULL_MSG, FIELD_REQUIRED_MSG,
    NAME_TOO_LONG_MSG, NOT_A_STRING_MSG,
};

#[test]
fn workspace_theme_gate_is_admin_member_only() {
    assert!(theme_gate(Some(20)).is_ok());
    assert!(theme_gate(Some(15)).is_ok());
    assert!(theme_gate(Some(5)).is_err());
    assert!(theme_gate(None).is_err());
}

#[test]
fn theme_name_checks() {
    assert_eq!(check_theme_name(&FieldValue::Missing).unwrap_err(), FIELD_REQUIRED_MSG);
    assert_eq!(check_theme_name(&FieldValue::Null).unwrap_err(), FIELD_NULL_MSG);
    assert_eq!(check_theme_name(&FieldValue::Other).unwrap_err(), NOT_A_STRING_MSG);
    assert_eq!(check_theme_name(&FieldValue::Text(String::new())).unwrap_err(), FIELD_BLANK_MSG);
    assert_eq!(
        check_theme_name(&FieldValue::Text("t".repeat(301))).unwrap_err(),
        NAME_TOO_LONG_MSG
    );
    assert_eq!(check_theme_name(&FieldValue::Text(" Dark ".to_string())).unwrap(), " Dark ");
    assert!(check_theme_name(&FieldValue::Text("t".repeat(300))).is_ok());
}
