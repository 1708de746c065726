use api::routes::notification::{
    notification_order, notification_where, preference_patch_errors, validate_preference_patch,
    MarkAllRead, ASSIGNED_CLAUSE, CREATED_CLAUSE, NOTIF_WHERE_HEAD, PREFERENCE_KEYS,
    SUBSCRIBED_CLAUSE,
};

fn entries(v: &[(&str, bool)]) -> Vec<(String, bool)> {
    v.iter().map(|(k, b)| (k.to_string(), *b)).collect()
}

#[test]
fn patch_non_bool_is_400_errors_shape() {
    let errors = preference_patch_errors(&entries(&[("comment", false)]));
    assert_eq!(
        errors,
        vec![("comment".to_string(), "Must be a valid boolean.".to_string())]
    );
}

#[test]
fn patch_unknown_key_is_field_error() {
    let errors = preference_patch_errors(&entries(&[("telepathy", true)]));
    assert_eq!(errors.len(), 1);
    assert_eq!(errors[0].0, "telepathy");
    assert_eq!(errors[0].1, "unknown preference key: telepathy");
}

#[test]
fn patch_valid_is_empty_no_400() {
    let errors = preference_patch_errors(&entries(&[("comment", true), ("mention", true)]));
    assert!(errors.is_empty());
}

#[test]
fn first_wrong_entry_is_reported() {
    assert!(validate_preference_patch(&entries(&[("comment", true), ("mention", true)])).is_ok());
    assert_eq!(
        validate_preference_patch(&entries(&[("comment", true), ("x", true), ("mention", false)]))
            .unwrap_err(),
        "unknown preference key: x"
    );
    assert_eq!(
        validate_preference_patch(&entries(&[("state_change", false), ("x", true)])).unwrap_err(),
        "preference value must be boolean: state_change"
    );
    assert!(validate_preference_patch(&[]).is_ok());
}

#[test]
fn every_wrong_entry_listed_in_order() {
    let errors = preference_patch_errors(&entries(&[
        ("b", true),
        ("comment", true),
        ("issue_completed", false),
    ]));
    assert_eq!(
        errors,
        vec![
            ("b".to_string(), "unknown preference key: b".to_string()),
            ("issue_completed".to_string(), "Must be a valid boolean.".to_string()),
        ]
    );
}

#[test]
fn preference_keys_and_mark_all_read_default() {
    assert_eq!(
        PREFERENCE_KEYS,
        ["property_change", "state_change", "comment", "mention", "issue_completed"]
    );
    let m = MarkAllRead::default();
    assert!(!m.snoozed && !m.archived && m.type_.is_none());
}

#[test]
fn list_filters_default_and_flags() {
    let w = notification_where(None, None, None, None, None, 15).unwrap();
    assert_eq!(
        w,
        format!(
            "{}AND (n.snoozed_till >= now() OR n.snoozed_till IS NULL) AND n.archived_at IS NULL  AND n.sender NOT ILIKE '%mentioned%' ",
            NOTIF_WHERE_HEAD
        )
    );
    let w = notification_where(Some("true"), Some("true"), Some("false"), Some("false"), None, 5).unwrap();
    assert!(w.contains("n.snoozed_till < now()"));
    assert!(w.contains("AND n.archived_at IS NOT NULL"));
    assert!(w.contains("AND n.read_at IS NULL"));
    assert!(w.contains("AND n.sender ILIKE '%mentioned%'"));
    let w = notification_where(Some("yes"), None, Some("maybe"), Some(""), None, 5).unwrap();
    assert!(w.contains("n.snoozed_till >= now()"));
    assert!(!w.contains("read_at"));
    assert!(w.contains("NOT ILIKE"));
}

#[test]
fn list_type_clauses_and_guest_created() {
    let w = notification_where(None, None, None, None, Some("assigned,subscribed"), 15).unwrap();
    assert!(w.ends_with(&format!("AND ({} OR {})", SUBSCRIBED_CLAUSE, ASSIGNED_CLAUSE)));
    let w = notification_where(None, None, None, None, Some("created"), 20).unwrap();
    assert!(w.ends_with(&format!("AND ({})", CREATED_CLAUSE)));
    assert!(notification_where(None, None, None, None, Some("created,assigned"), 5).is_none());
    assert!(notification_where(None, None, None, None, Some("all"), 5).unwrap().ends_with(" "));
}

#[test]
fn list_order_allowlist() {
    assert_eq!(notification_order(None), "n.created_at DESC NULLS LAST, n.created_at DESC");
    assert_eq!(notification_order(Some("updated_at")), "n.updated_at ASC NULLS LAST, n.created_at DESC");
    assert_eq!(notification_order(Some("-updated_at")), "n.updated_at DESC NULLS LAST, n.created_at DESC");
    assert_eq!(notification_order(Some("--created_at")), "n.created_at DESC NULLS LAST, n.created_at DESC");
    assert_eq!(notification_order(Some("title")), "n.created_at DESC NULLS LAST, n.created_at DESC");
}
