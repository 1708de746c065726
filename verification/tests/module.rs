use api::routes::module::{
    check_module_create, check_module_patch_fields, check_module_patch_name, DateInput,
    FIELD_BLANK_MSG, FIELD_REQUIRED_MSG, NAME_TOO_LONG_MSG, VALID_DETAIL_MSG,
    count_sub, guard_am, guard_amg, guard_archive_status, guard_date_order, guard_dup_name,
    guard_entity_write, guard_issues_present, guard_lite, guard_patch, guard_safe_member,
    invalid_choice, module_select, normalize_link_url, normalize_status, parse_fields,
    points_issue_join, points_sub, valid_link_url, validate_create, CreateModule,
    ModuleIssuesQuery, ARCHIVED_IMMUTABLE_MSG, ARCHIVE_STATUS_MSG, DUP_NAME_MSG, GROUP_DUP_MSG,
    INVALID_URL_MSG, ISSUES_REQUIRED_MSG, MODULE_NOT_FOUND_MSG, START_EXCEEDS_TARGET_MSG,
    URL_EXISTS_ISSUE_MSG, URL_EXISTS_MSG,
};

#[test]
fn dup_name_const_verbatim() {
    assert_eq!(DUP_NAME_MSG, "Module with this name already exists");
    assert!(guard_dup_name(true).is_err());
    assert_eq!(guard_dup_name(true).unwrap_err(), DUP_NAME_MSG);
    assert!(guard_dup_name(false).is_ok());
}

#[test]
fn url_dup_consts_verbatim_incl_sic() {
    assert_eq!(URL_EXISTS_MSG, "URL already exists.");
    assert_eq!(URL_EXISTS_ISSUE_MSG, "URL already exists for this Issue");
    assert_ne!(URL_EXISTS_MSG, URL_EXISTS_ISSUE_MSG);
    assert_eq!(INVALID_URL_MSG, "Invalid URL format.");
}

#[test]
fn archived_gate_const_verbatim() {
    assert_eq!(ARCHIVED_IMMUTABLE_MSG, "Archived module cannot be updated");
    assert!(guard_patch(true).is_err());
    assert!(guard_patch(false).is_ok());
}

#[test]
fn status_and_estimate_shape() {
    assert_eq!(normalize_status(None).unwrap(), "planned");
    assert_eq!(normalize_status(Some("completed")).unwrap(), "completed");
    assert!(normalize_status(Some("archived")).is_err());
    assert_eq!(
        ARCHIVE_STATUS_MSG,
        "Only completed or cancelled modules can be archived"
    );
    assert!(guard_archive_status("completed").is_ok());
    assert!(guard_archive_status("cancelled").is_ok());
    assert!(guard_archive_status("planned").is_err());
    assert!(guard_archive_status("in-progress").is_err());
}

#[test]
fn link_url_normalize_and_validate() {
    assert_eq!(normalize_link_url("example.com/x"), "http://example.com/x");
    assert_eq!(normalize_link_url("https://a.b"), "https://a.b");
    assert_eq!(normalize_link_url("http://a.b"), "http://a.b");
    assert_eq!(normalize_link_url(""), "");
    assert!(valid_link_url("http://example.com/x"));
    assert!(!valid_link_url("not a url"));
    assert!(!valid_link_url(""));
}

#[test]
fn guards_roles_and_issues() {
    assert!(guard_amg(Some(20)).is_ok());
    assert!(guard_amg(Some(15)).is_ok());
    assert!(guard_amg(Some(5)).is_ok());
    assert!(guard_amg(Some(10)).is_err());
    assert!(guard_amg(None).is_err());
    assert!(guard_am(Some(20)).is_ok());
    assert!(guard_am(Some(15)).is_ok());
    assert!(guard_am(Some(5)).is_err());
    assert_eq!(ISSUES_REQUIRED_MSG, "Issues are required");
    assert!(guard_issues_present(0).is_err());
    assert!(guard_issues_present(2).is_ok());
    assert_eq!(
        GROUP_DUP_MSG,
        "Group by and sub group by cannot have same parameters"
    );
    assert_eq!(MODULE_NOT_FOUND_MSG, "Module not found");
    assert_eq!(START_EXCEEDS_TARGET_MSG, "Start date cannot exceed target date");
}

#[test]
fn invalid_status_message_quotes_the_value() {
    assert_eq!(invalid_choice("x"), "\"x\" is not a valid choice.");
    assert_eq!(
        normalize_status(Some("archived")).unwrap_err(),
        "\"archived\" is not a valid choice."
    );
    for s in ["backlog", "planned", "in-progress", "paused", "completed", "cancelled"] {
        assert_eq!(normalize_status(Some(s)).unwrap(), s);
    }
}

#[test]
fn date_order_guard() {
    assert!(guard_date_order(Some(3), Some(2)).is_err());
    assert_eq!(
        guard_date_order(Some(3), Some(2)).unwrap_err(),
        START_EXCEEDS_TARGET_MSG
    );
    assert!(guard_date_order(Some(2), Some(2)).is_ok());
    assert!(guard_date_order(Some(2), None).is_ok());
    assert!(guard_date_order(None, Some(2)).is_ok());
}

#[test]
fn membership_and_write_gates() {
    assert!(guard_safe_member(true).is_ok());
    assert!(guard_safe_member(false).is_err());
    assert!(guard_lite(true).is_ok());
    assert!(guard_lite(false).is_err());
    assert!(guard_entity_write(Some(20)).is_ok());
    assert!(guard_entity_write(Some(15)).is_ok());
    assert!(guard_entity_write(Some(5)).is_err());
    assert!(guard_entity_write(None).is_err());
}

#[test]
fn fields_split_trim_and_drop_empty() {
    assert_eq!(parse_fields(Some(" name , status,,")), vec!["name", "status"]);
    assert!(parse_fields(None).is_empty());
    assert!(parse_fields(Some("")).is_empty());
}

#[test]
fn create_validation_order() {
    let body = |name: &str, s: Option<i32>, t: Option<i32>| CreateModule {
        name: name.to_string(),
        start_date: s,
        target_date: t,
    };
    assert_eq!(validate_create(&body("  ", Some(5), Some(1))).unwrap_err(), "name is required");
    assert_eq!(
        validate_create(&body(&"m".repeat(256), None, None)).unwrap_err(),
        "name max length 255"
    );
    assert_eq!(
        validate_create(&body("M", Some(5), Some(1))).unwrap_err(),
        START_EXCEEDS_TARGET_MSG
    );
    assert!(validate_create(&body(&"m".repeat(255), Some(1), Some(5))).is_ok());
}

#[test]
fn grouping_conflict_rejected() {
    let q = |g: Option<&str>, s: Option<&str>| ModuleIssuesQuery {
        group_by: g.map(|x| x.to_string()),
        sub_group_by: s.map(|x| x.to_string()),
        ..Default::default()
    };
    assert_eq!(q(Some("state"), Some("state")).check_grouping().unwrap_err(), GROUP_DUP_MSG);
    assert!(q(Some("state"), Some("priority")).check_grouping().is_ok());
    assert!(q(Some(""), Some("")).check_grouping().is_ok());
    assert!(q(Some("state"), None).check_grouping().is_ok());
    assert!(q(None, None).check_grouping().is_ok());
}

#[test]
fn select_builders_embed_filters() {
    let j = points_issue_join("AND s.group = 'completed'");
    assert!(j.ends_with("AND s.group = 'completed'"));
    let c = count_sub("completed_issues", "AND s.group = 'completed'");
    assert!(c.contains("AND s.group = 'completed'"));
    assert!(c.ends_with("completed_issues"));
    let p = points_sub("total_estimate_points", "");
    assert!(p.ends_with("total_estimate_points"));
    let all = module_select(false);
    let archived = module_select(true);
    assert_ne!(all, archived);
    assert!(all.starts_with("SELECT m.id"));
}

fn text(raw: &str, parsed: Option<i32>) -> DateInput {
    DateInput::Text { raw: raw.to_string(), parsed }
}

#[test]
fn module_create_field_checks_in_order() {
    let none = DateInput::Missing;
    let err = |r: Result<_, (String, String)>| r.err().unwrap();
    assert_eq!(
        err(check_module_create(None, &none, &none, None)),
        ("name".to_string(), FIELD_REQUIRED_MSG.to_string())
    );
    assert_eq!(
        err(check_module_create(Some("  "), &text("x", None), &none, None)),
        ("name".to_string(), FIELD_BLANK_MSG.to_string())
    );
    assert_eq!(
        err(check_module_create(Some(&"n".repeat(256)), &none, &none, None)),
        ("name".to_string(), NAME_TOO_LONG_MSG.to_string())
    );
    assert_eq!(
        err(check_module_create(Some("M"), &text("soon", None), &none, Some("bogus"))),
        ("error".to_string(), VALID_DETAIL_MSG.to_string())
    );
    assert_eq!(
        err(check_module_create(Some("M"), &text("2026-02-01", Some(20)), &text("2026-01-01", Some(10)), None)),
        ("non_field_errors".to_string(), START_EXCEEDS_TARGET_MSG.to_string())
    );
    assert_eq!(
        err(check_module_create(Some("M"), &none, &none, Some("archived"))),
        ("status".to_string(), "\"archived\" is not a valid choice.".to_string())
    );
    let d = check_module_create(Some("M"), &text("", None), &text("2026-01-01", Some(10)), None).unwrap();
    assert_eq!(d.name, "M");
    assert_eq!(d.start_date, None);
    assert_eq!(d.target_date, Some(10));
    assert_eq!(d.status, "planned");
    let d = check_module_create(Some("M"), &DateInput::NotText, &none, Some("paused")).unwrap();
    assert_eq!(d.status, "paused");
}

#[test]
fn module_patch_field_checks() {
    assert!(check_module_patch_name(None).is_ok());
    assert!(check_module_patch_name(Some("New")).is_ok());
    assert_eq!(
        check_module_patch_name(Some(" ")).unwrap_err(),
        ("name".to_string(), FIELD_BLANK_MSG.to_string())
    );
    let keep = DateInput::Missing;
    assert_eq!(
        check_module_patch_fields(Some(1), Some(9), &keep, &keep, None).unwrap(),
        (Some(1), Some(9))
    );
    assert_eq!(
        check_module_patch_fields(Some(1), Some(9), &text("  ", None), &DateInput::NotText, None).unwrap(),
        (None, Some(9))
    );
    assert_eq!(
        check_module_patch_fields(Some(1), Some(9), &text("2026-03-01", Some(50)), &keep, None).unwrap(),
        (Some(50), Some(9))
    );
    assert_eq!(
        check_module_patch_fields(Some(1), Some(9), &text("2026-03-01", Some(50)), &DateInput::NotText, None)
            .unwrap_err()
            .0,
        "non_field_errors"
    );
    assert_eq!(
        check_module_patch_fields(None, None, &text("bad", None), &keep, None).unwrap_err(),
        ("error".to_string(), VALID_DETAIL_MSG.to_string())
    );
    assert_eq!(
        check_module_patch_fields(None, None, &keep, &keep, Some("nope")).unwrap_err().0,
        "status"
    );
}

use api::body::FieldValue;
use api::routes::module::{check_module_lead, parse_body_date, text_date_input};
use chrono::Datelike;

fn day(y: i32, m: u32, d: u32) -> i32 {
    chrono::NaiveDate::from_ymd_opt(y, m, d).unwrap().num_days_from_ce()
}

#[test]
fn module_lead_blank_null_id_or_error() {
    assert_eq!(check_module_lead(&FieldValue::Missing), Ok(None));
    assert_eq!(check_module_lead(&FieldValue::Null), Ok(None));
    assert_eq!(check_module_lead(&FieldValue::Text("   ".to_string())), Ok(None));
    let id = "550e8400-e29b-41d4-a716-446655440000";
    let want = uuid::Uuid::parse_str(id).unwrap().as_u128();
    assert_eq!(check_module_lead(&FieldValue::Text(id.to_string())), Ok(Some(want)));
    assert_eq!(
        check_module_lead(&FieldValue::Text("nope".to_string())),
        Err(VALID_DETAIL_MSG.to_string())
    );
    assert_eq!(check_module_lead(&FieldValue::Other), Err(VALID_DETAIL_MSG.to_string()));
}

#[test]
fn body_date_reads_date_and_drops_time() {
    assert_eq!(parse_body_date("2026-01-02"), Some(day(2026, 1, 2)));
    assert_eq!(parse_body_date("  2026-01-02\n"), Some(day(2026, 1, 2)));
    assert_eq!(parse_body_date("2026-01-02T10:11:12Z"), Some(day(2026, 1, 2)));
    assert_eq!(parse_body_date("2026-01-02T10:11:12+07:00"), Some(day(2026, 1, 2)));
    assert_eq!(parse_body_date("2026-01-02 10:11:12"), Some(day(2026, 1, 2)));
    assert_eq!(parse_body_date("2026-13-01"), None);
    assert_eq!(parse_body_date("2026-02-30"), None);
    assert_eq!(parse_body_date(""), None);
    assert_eq!(parse_body_date("soon"), None);
    assert_eq!(day(1, 1, 1), 1);
}

#[test]
fn text_date_input_keeps_raw_text() {
    match text_date_input(" 2026-03-04 ") {
        DateInput::Text { raw, parsed } => {
            assert_eq!(raw, " 2026-03-04 ");
            assert_eq!(parsed, Some(day(2026, 3, 4)));
        }
        _ => panic!("expected text"),
    }
    match text_date_input("") {
        DateInput::Text { raw, parsed } => {
            assert_eq!(raw, "");
            assert_eq!(parsed, None);
        }
        _ => panic!("expected text"),
    }
}
