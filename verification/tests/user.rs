use api::routes::user::{
    activity_order_column, activity_project_ids,
    session_token_candidates,
    deactivation_guard,
    coerce_bool_text, csv_line_quoted_all, parse_month, sanitize_activity_order_by,
    sanitize_csv_row, sanitize_csv_value, validate_name, validate_new_email, validate_update,
    UpdateUser, ACTIVITY_CSV_HEADER, DASHBOARD_KEYS, DEACTIVATE_INSTANCE_ADMIN_MSG,
    DEACTIVATE_SOLE_PROJECT_ADMIN_MSG, DEACTIVATE_SOLE_WORKSPACE_ADMIN_MSG, EMAIL_INVALID_MSG,
    EMAIL_REQUIRED_MSG, FIRST_NAME_URL_MSG, LAST_NAME_URL_MSG, USER_STATS_KEYS,
};

#[test]
fn name_url_guards_verbatim() {
    assert_eq!(FIRST_NAME_URL_MSG, "First name cannot contain a URL.");
    assert_eq!(LAST_NAME_URL_MSG, "Last name cannot contain a URL.");
    assert!(validate_name(Some("https://x.io a"), None).is_err());
    assert!(validate_name(None, Some("see www.x.io")).is_err());
    assert!(validate_name(Some("Ada"), Some("Lovelace")).is_ok());
}

#[test]
fn deactivate_guards_verbatim() {
    assert_eq!(
        DEACTIVATE_INSTANCE_ADMIN_MSG,
        "You cannot deactivate your account since you are an instance admin"
    );
    assert_eq!(
        DEACTIVATE_SOLE_PROJECT_ADMIN_MSG,
        "You cannot deactivate account as you are the only admin in some projects."
    );
    assert_eq!(
        DEACTIVATE_SOLE_WORKSPACE_ADMIN_MSG,
        "You cannot deactivate account as you are the only admin in some workspaces."
    );
}

#[test]
fn csv_header_and_sanitize_verbatim() {
    assert_eq!(
        ACTIVITY_CSV_HEADER,
        [
            "Actor name",
            "Issue ID",
            "Project",
            "Created at",
            "Updated at",
            "Action",
            "Field",
            "Old value",
            "New value",
        ]
    );
    assert_eq!(sanitize_csv_value("=cmd"), "'=cmd");
    assert_eq!(sanitize_csv_value("+1"), "'+1");
    assert_eq!(sanitize_csv_value("-2"), "'-2");
    assert_eq!(sanitize_csv_value("@x"), "'@x");
    assert_eq!(sanitize_csv_value("ok"), "ok");
    assert_eq!(sanitize_csv_value(""), "");
    let line = csv_line_quoted_all(&["a\"b".to_string(), "=c".to_string()]);
    assert_eq!(line, "\"a\"\"b\",\"'=c\"\r\n");
}

#[test]
fn export_body_is_raw_csv_not_json_string() {
    let header: Vec<String> = ACTIVITY_CSV_HEADER.iter().map(|s| s.to_string()).collect();
    let mut raw = csv_line_quoted_all(&header);
    raw.push_str(&csv_line_quoted_all(&[
        "Ada".to_string(),
        "PRJ - 1".to_string(),
        "Proj".to_string(),
        "2026-01-01T00:00:00+00:00".to_string(),
        "2026-01-02T00:00:00+00:00".to_string(),
        "created".to_string(),
        "".to_string(),
        "".to_string(),
        "".to_string(),
    ]));
    assert!(raw.starts_with("\"Actor name\",\"Issue ID\""), "body=\n{raw}");
    assert!(!raw.contains("\\\""), "{raw}");
    assert!(raw.contains("\r\n\""));
    let wrapped = serde_json::to_string(&raw).expect("json wrap");
    assert!(wrapped.starts_with("\"\\\""), "{wrapped}");
    assert_ne!(raw.as_bytes()[0], b'\\');
}

#[test]
fn stats_and_dashboard_key_sets() {
    assert_eq!(
        USER_STATS_KEYS,
        [
            "state_distribution",
            "priority_distribution",
            "created_issues",
            "assigned_issues",
            "completed_issues",
            "pending_issues",
            "subscribed_issues",
            "present_cycles",
            "upcoming_cycles",
        ]
    );
    assert_eq!(
        DASHBOARD_KEYS,
        [
            "issue_activities",
            "completed_issues",
            "assigned_issues_count",
            "pending_issues_count",
            "completed_issues_count",
            "issues_due_week_count",
            "state_distribution",
            "overdue_issues",
            "upcoming_issues",
        ]
    );
}

#[test]
fn activity_order_sanitize() {
    assert_eq!(sanitize_activity_order_by(None), "-created_at");
    assert_eq!(sanitize_activity_order_by(Some("created_at")), "created_at");
    assert_eq!(sanitize_activity_order_by(Some("-updated_at")), "-updated_at");
    assert_eq!(sanitize_activity_order_by(Some("name")), "-created_at");
    assert_eq!(sanitize_activity_order_by(Some("--created_at")), "-created_at");
}

#[test]
fn month_coercion_fail_open() {
    assert_eq!(parse_month(None, None), 1);
    assert_eq!(parse_month(Some("3"), None), 3);
    assert_eq!(parse_month(Some("garbage"), None), 1);
    assert_eq!(parse_month(Some("13"), None), 12);
}

#[test]
fn month_parsing_edges() {
    assert_eq!(parse_month(Some(" +4 "), None), 4);
    assert_eq!(parse_month(Some("-7"), None), 1);
    assert_eq!(parse_month(Some("   "), None), 1);
    assert_eq!(parse_month(Some("99999999999"), Some(i32::MAX)), 12);
    assert_eq!(parse_month(Some("3.0"), Some(3)), 3);
    assert_eq!(parse_month(Some("-2147483648"), None), 1);
    assert_eq!(parse_month(Some(""), None), 1);
}

#[test]
fn csv_rows_and_lines() {
    assert_eq!(
        sanitize_csv_row(&["=1".to_string(), "x".to_string(), "\tT".to_string()]),
        vec!["'=1", "x", "'\tT"]
    );
    assert_eq!(csv_line_quoted_all(&[]), "\r\n");
    assert_eq!(csv_line_quoted_all(&["\"".to_string()]), "\"\"\"\"\r\n");
    assert_eq!(sanitize_activity_order_by(Some("")), "-created_at");
    assert_eq!(sanitize_activity_order_by(Some("-")), "-created_at");
}

#[test]
fn update_checks_both_names() {
    let u = UpdateUser {
        first_name: Some("Ada".to_string()),
        last_name: Some("visit http://a.io".to_string()),
    };
    assert_eq!(validate_update(&u).unwrap_err(), LAST_NAME_URL_MSG);
    assert_eq!(
        validate_name(Some("www.x.com"), Some("www.y.com")).unwrap_err(),
        FIRST_NAME_URL_MSG
    );
}

#[test]
fn new_email_checks() {
    assert_eq!(validate_new_email("  ", true).unwrap_err(), EMAIL_REQUIRED_MSG);
    assert_eq!(validate_new_email("  ", false).unwrap_err(), EMAIL_REQUIRED_MSG);
    assert_eq!(validate_new_email("a@b", false).unwrap_err(), EMAIL_INVALID_MSG);
    assert!(validate_new_email(" a@b.io ", true).is_ok());
}

#[test]
fn bool_words_fail_open() {
    assert_eq!(coerce_bool_text("true", None), Some(true));
    assert_eq!(coerce_bool_text(" FALSE ", None), Some(false));
    assert_eq!(coerce_bool_text("1", None), Some(true));
    assert_eq!(coerce_bool_text("Off", Some(true)), Some(false));
    assert_eq!(coerce_bool_text("garbage", None), None);
    assert_eq!(coerce_bool_text("2.5", Some(true)), Some(true));
    assert_eq!(coerce_bool_text("0.0", Some(false)), Some(false));
}

#[test]
fn deactivation_guard_order() {
    assert_eq!(
        deactivation_guard(true, &[], &[]).unwrap_err(),
        DEACTIVATE_INSTANCE_ADMIN_MSG
    );
    assert_eq!(
        deactivation_guard(false, &[(1, 3), (0, 2)], &[(0, 5)]).unwrap_err(),
        DEACTIVATE_SOLE_PROJECT_ADMIN_MSG
    );
    assert_eq!(
        deactivation_guard(false, &[(0, 1)], &[(0, 5)]).unwrap_err(),
        DEACTIVATE_SOLE_WORKSPACE_ADMIN_MSG
    );
    assert!(deactivation_guard(false, &[(0, 1), (2, 9)], &[(1, 5)]).is_ok());
    assert!(deactivation_guard(false, &[], &[]).is_ok());
}

#[test]
fn session_tokens_in_try_order() {
    assert_eq!(
        session_token_candidates(Some("Bearer  abc "), Some("x=1; plane_at= def ;__Host-plane_at=ghi")),
        vec!["abc", "def", "ghi"]
    );
    assert!(session_token_candidates(Some("Basic abc"), None).is_empty());
    assert!(session_token_candidates(None, Some("a=b; plane_atx=1; noeq")).is_empty());
    assert_eq!(session_token_candidates(None, Some("plane_at=a=b")), vec!["a=b"]);
    assert_eq!(session_token_candidates(Some("Bearer "), None), vec![""]);
}

#[test]
fn activity_columns_and_project_filter() {
    assert_eq!(activity_order_column(None), ("a.created_at", true));
    assert_eq!(activity_order_column(Some("updated_at")), ("a.updated_at", false));
    assert_eq!(activity_order_column(Some("-updated_at")), ("a.updated_at", true));
    assert_eq!(activity_order_column(Some("created_at")), ("a.created_at", false));
    assert_eq!(activity_order_column(Some("bogus")), ("a.created_at", true));
    let ids = activity_project_ids(&[
        "550e8400-e29b-41d4-a716-446655440000".to_string(),
        "junk".to_string(),
        "00000000-0000-0000-0000-000000000001".to_string(),
    ]);
    assert_eq!(ids, vec![0x550e8400_e29b_41d4_a716_446655440000u128, 1]);
    assert!(activity_project_ids(&[]).is_empty());
}

use api::routes::user::{bool_word, priority_sorted, profile_writes, ProfileField, ProfileWrite};

#[test]
fn bool_word_lists_then_numeric() {
    assert_eq!(bool_word("yes", None), Some(true));
    assert_eq!(bool_word("on", Some(false)), Some(true));
    assert_eq!(bool_word("off", Some(true)), Some(false));
    assert_eq!(bool_word("0", None), Some(false));
    assert_eq!(bool_word("2.5", Some(true)), Some(true));
    assert_eq!(bool_word("maybe", None), None);
    assert_eq!(bool_word("YES", None), None);
}

#[test]
fn priority_rows_in_bucket_order() {
    let rows: Vec<(String, i64)> = vec![
        ("low".to_string(), 1),
        ("none".to_string(), 2),
        ("weird".to_string(), 7),
        ("urgent".to_string(), 3),
        ("high".to_string(), 5),
        ("medium".to_string(), 6),
        ("other".to_string(), 8),
    ];
    let got: Vec<(String, i64)> = priority_sorted(&rows);
    let names: Vec<&str> = got.iter().map(|(n, _)| n.as_str()).collect();
    assert_eq!(names, vec!["urgent", "high", "medium", "low", "none", "weird", "other"]);
    assert_eq!(got[0].1, 3);
    assert_eq!(got[6].1, 8);
    assert!(priority_sorted(&[]).is_empty());
}

fn text(s: &str) -> ProfileField {
    ProfileField::Text { text: s.to_string(), numeric: None }
}

#[test]
fn profile_writes_by_column_kind() {
    let id = "550e8400-e29b-41d4-a716-446655440000";
    let u = uuid::Uuid::parse_str(id).unwrap().as_u128();
    let entries: Vec<(String, ProfileField)> = vec![
        ("user".to_string(), text("someone")),
        ("last_workspace_id".to_string(), text(id)),
        ("role".to_string(), ProfileField::Null),
        ("theme".to_string(), ProfileField::Other),
        ("is_onboarded".to_string(), text(" Yes ")),
        ("is_tour_completed".to_string(), ProfileField::Number { whole: Some(0), nonzero: false }),
        ("is_app_rail_docked".to_string(), text("maybe")),
        ("language".to_string(), ProfileField::Number { whole: Some(1), nonzero: true }),
        ("company_name".to_string(), text("Acme")),
        ("start_of_the_week".to_string(), text(" 3 ")),
        ("user_id".to_string(), ProfileField::Bool(true)),
    ];
    assert_eq!(
        profile_writes(&entries),
        vec![
            ProfileWrite::Json("theme".to_string()),
            ProfileWrite::Bool("is_tour_completed".to_string(), false),
            ProfileWrite::Bool("is_onboarded".to_string(), true),
            ProfileWrite::Text("role".to_string(), None),
            ProfileWrite::Text("company_name".to_string(), Some("Acme".to_string())),
            ProfileWrite::StartOfWeek(3),
            ProfileWrite::LastWorkspace(Some(u)),
        ]
    );
}

#[test]
fn profile_week_and_workspace_edges() {
    let one = |k: &str, f: ProfileField| profile_writes(&[(k.to_string(), f)]);
    assert_eq!(
        one("start_of_the_week", ProfileField::Number { whole: Some(-2), nonzero: true }),
        vec![ProfileWrite::StartOfWeek(-2)]
    );
    assert!(one("start_of_the_week", ProfileField::Number { whole: Some(40000), nonzero: true })
        .is_empty());
    assert!(one("start_of_the_week", ProfileField::Number { whole: None, nonzero: true }).is_empty());
    assert!(one("start_of_the_week", text("40000")).is_empty());
    assert!(one("start_of_the_week", text("x")).is_empty());
    assert_eq!(one("start_of_the_week", text("-32768")), vec![ProfileWrite::StartOfWeek(-32768)]);
    assert_eq!(one("last_workspace_id", ProfileField::Null), vec![ProfileWrite::LastWorkspace(None)]);
    assert!(one("last_workspace_id", text("bad")).is_empty());
    assert!(one("last_workspace_id", ProfileField::Bool(true)).is_empty());
    assert_eq!(
        one("goals", ProfileField::Null),
        vec![ProfileWrite::Json("goals".to_string())]
    );
    assert_eq!(
        one("is_onboarded", text("2")),
        vec![]
    );
    assert_eq!(
        one("is_onboarded", ProfileField::Text { text: "2".to_string(), numeric: Some(true) }),
        vec![ProfileWrite::Bool("is_onboarded".to_string(), true)]
    );
}

#[test]
fn profile_user_keys_change_nothing() {
    let base: Vec<(String, ProfileField)> = vec![
        ("role".to_string(), text("dev")),
        ("is_onboarded".to_string(), ProfileField::Bool(true)),
    ];
    let mut with_user = base.clone();
    with_user.insert(1, ("user".to_string(), text("x")));
    with_user.push(("user_id".to_string(), text("y")));
    assert_eq!(profile_writes(&with_user), profile_writes(&base));
    assert_eq!(profile_writes(&base).len(), 2);
}
