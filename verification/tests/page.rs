use api::routes::page::{
    check_decoded_binary, clean_description_html, decode_description_binary, guard_access_change,
    guard_am, guard_archive_owner, guard_delete_archived, guard_delete_owner, page_perm_decision,
    sanitize_html_content, sanitize_page_order_by, strip_tags_text, validate_binary_bytes,
    validate_create, CreatePage, PagePerm, ACCESS_QUIRK_MSG, BINARY_SUSPICIOUS_MSG,
    BINARY_TOO_LARGE_MSG, BINARY_TOO_SHORT_MSG, DESC_DECODE_MSG, DUPLICATE_DENY_MSG,
    HTML_TOO_LARGE_MSG, PAGE_ARCHIVED_CODE, PAGE_LOCKED_CODE, PAGE_NOT_FOUND_MSG,
};
use api::body::{int_to_text, FieldValue, IntValue};
use api::routes::page::{check_page_patch, check_page_patch_parent, check_page_create, COLOR_TOO_LONG_MSG, INTEGER_REQUIRED_MSG, NOT_A_STRING_MSG, VALID_DETAIL_MSG};
use base64::Engine;

#[test]
fn perm_matrix_owner_bypass_private_deny_public_roles() {
    for method in ["GET", "POST", "PUT", "PATCH", "DELETE"] {
        assert_eq!(page_perm_decision(true, true, method, Some(5)), PagePerm::Allow);
        assert_eq!(page_perm_decision(true, false, method, None), PagePerm::Deny);
    }
    for method in ["GET", "POST", "PUT", "PATCH", "DELETE"] {
        for role in [Some(20), Some(15), Some(5)] {
            assert_eq!(page_perm_decision(false, true, method, role), PagePerm::Deny);
        }
    }
    assert_eq!(page_perm_decision(false, false, "GET", None), PagePerm::Deny);
    assert_eq!(page_perm_decision(false, false, "POST", Some(20)), PagePerm::Allow);
    assert_eq!(page_perm_decision(false, false, "POST", Some(15)), PagePerm::Allow);
    assert_eq!(page_perm_decision(false, false, "POST", Some(5)), PagePerm::Deny);
    for method in ["GET", "HEAD", "OPTIONS"] {
        for role in [Some(20), Some(15), Some(5)] {
            assert_eq!(page_perm_decision(false, false, method, role), PagePerm::Allow);
        }
    }
    assert_eq!(page_perm_decision(false, false, "GET", Some(1)), PagePerm::Deny);
    for method in ["PUT", "PATCH"] {
        assert_eq!(page_perm_decision(false, false, method, Some(20)), PagePerm::Allow);
        assert_eq!(page_perm_decision(false, false, method, Some(15)), PagePerm::Allow);
        assert_eq!(page_perm_decision(false, false, method, Some(5)), PagePerm::Deny);
    }
    assert_eq!(page_perm_decision(false, false, "DELETE", Some(20)), PagePerm::Allow);
    assert_eq!(page_perm_decision(false, false, "DELETE", Some(15)), PagePerm::Deny);
    assert_eq!(page_perm_decision(false, false, "DELETE", Some(5)), PagePerm::Deny);
    assert_eq!(page_perm_decision(false, false, "TRACE", Some(20)), PagePerm::Deny);
}

#[test]
fn order_by_sanitized_to_allowlist() {
    assert_eq!(sanitize_page_order_by("-created_at"), ("p.created_at", true));
    assert_eq!(sanitize_page_order_by("name"), ("p.name", false));
    assert_eq!(sanitize_page_order_by("-sort_order"), ("p.sort_order", true));
    assert_eq!(sanitize_page_order_by("updated_at"), ("p.updated_at", false));
    assert_eq!(sanitize_page_order_by("description_html"), ("p.created_at", true));
    assert_eq!(sanitize_page_order_by("--created_at"), ("p.created_at", true));
    assert_eq!(sanitize_page_order_by(""), ("p.created_at", true));
    assert_eq!(sanitize_page_order_by("-is_favorite"), ("p.created_at", true));
}

#[test]
fn access_quirk_preserved() {
    assert_eq!(guard_access_change(0, Some(1), false).unwrap_err(), ACCESS_QUIRK_MSG);
    assert!(guard_access_change(0, Some(1), true).is_ok());
    assert!(guard_access_change(0, Some(0), false).is_ok());
    assert!(guard_access_change(1, None, false).is_ok());
}

#[test]
fn archive_owner_admin_gates() {
    assert_eq!(
        guard_archive_owner(false, true, false).unwrap_err(),
        "Only the owner or admin can archive the page"
    );
    assert_eq!(
        guard_archive_owner(false, true, true).unwrap_err(),
        "Only the owner or admin can un archive the page"
    );
    assert!(guard_archive_owner(true, true, false).is_ok());
    assert!(guard_archive_owner(false, false, false).is_ok());
    assert!(guard_archive_owner(true, false, true).is_ok());
}

#[test]
fn delete_gates() {
    assert_eq!(
        guard_delete_archived(false).unwrap_err(),
        "The page should be archived before deleting"
    );
    assert!(guard_delete_archived(true).is_ok());
    assert_eq!(
        guard_delete_owner(false, false).unwrap_err(),
        "Only admin or owner can delete the page"
    );
    assert!(guard_delete_owner(true, false).is_ok());
    assert!(guard_delete_owner(false, true).is_ok());
}

#[test]
fn error_code_consts_match_django() {
    assert_eq!(PAGE_LOCKED_CODE, 4701);
    assert_eq!(PAGE_ARCHIVED_CODE, 4702);
}

#[test]
fn binary_validation_cases() {
    assert!(validate_binary_bytes(b"").is_ok());
    assert_eq!(
        validate_binary_bytes(b"abc").unwrap_err(),
        "Binary data too short to be valid document format"
    );
    assert!(validate_binary_bytes(&vec![0u8; 10 * 1024 * 1024 + 1])
        .unwrap_err()
        .contains("10MB"));
    assert!(validate_binary_bytes(b"%PDF-1.4 binary content here").is_ok());
    assert!(validate_binary_bytes(b"<script>alert(1)</script> padding")
        .unwrap_err()
        .contains("suspicious"));
    assert!(validate_binary_bytes(b"<!DOCTYPE html> padding pad")
        .unwrap_err()
        .contains("suspicious"));
    assert_eq!(
        decode_description_binary("!!!not-base64!!!").unwrap_err(),
        "Failed to decode base64 data"
    );
    let enc = base64::engine::general_purpose::STANDARD.encode(b"%PDF-body-bytes");
    assert_eq!(decode_description_binary(&enc).unwrap(), b"%PDF-body-bytes".to_vec());
    let evil = base64::engine::general_purpose::STANDARD.encode(b"<html>evil");
    assert!(decode_description_binary(&evil)
        .unwrap_err()
        .starts_with("Invalid binary data: "));
}

#[test]
fn html_sanitize_strips_danger_keeps_markup() {
    let clean = sanitize_html_content("<p>Hello <b>world</b></p>");
    assert!(clean.contains("<p>"));
    assert!(clean.contains("<b>world</b>"));
    let evil = sanitize_html_content(
        "<p onclick=\"alert(1)\">x</p><script>alert(2)</script><a href=\"javascript:alert(3)\">y</a>",
    );
    assert!(!evil.contains("onclick"));
    assert!(!evil.contains("<script"));
    assert!(!evil.contains("alert(2)"));
    assert!(!evil.contains("javascript:"));
    assert!(evil.contains(">x</p>"));
    assert!(evil.contains(">y</a>"));
    let big = "a".repeat(10 * 1024 * 1024 + 1);
    assert!(clean_description_html(&big).unwrap_err().contains("10MB"));
    assert_eq!(clean_description_html("").unwrap(), "");
}

#[test]
fn duplicate_and_version_shapes() {
    assert_eq!(format!("{} (Copy)", "Spec"), "Spec (Copy)");
    assert_eq!(DUPLICATE_DENY_MSG, "Permission denied");
    assert_eq!(PAGE_NOT_FOUND_MSG, "Page not found");
}

#[test]
fn binary_messages_exact() {
    assert_eq!(validate_binary_bytes(&vec![0u8; 10 * 1024 * 1024 + 1]).unwrap_err(), BINARY_TOO_LARGE_MSG);
    assert_eq!(validate_binary_bytes(b"abc").unwrap_err(), BINARY_TOO_SHORT_MSG);
    assert!(validate_binary_bytes(b"abcd").is_ok());
    assert_eq!(
        validate_binary_bytes(b"xx<SCRIPT>yyy").unwrap_err(),
        BINARY_SUSPICIOUS_MSG
    );
    assert_eq!(
        validate_binary_bytes(b"xx javascript: yy").unwrap_err(),
        BINARY_SUSPICIOUS_MSG
    );
}

#[test]
fn decoded_outcome_finishing() {
    assert_eq!(check_decoded_binary(None).unwrap_err(), DESC_DECODE_MSG);
    assert_eq!(
        check_decoded_binary(Some(b"abc".to_vec())).unwrap_err(),
        format!("Invalid binary data: {}", BINARY_TOO_SHORT_MSG)
    );
    assert_eq!(
        check_decoded_binary(Some(b"0123456789".to_vec())).unwrap(),
        b"0123456789".to_vec()
    );
    assert!(decode_description_binary("").unwrap().is_empty());
    let enc = base64::engine::general_purpose::STANDARD.encode(b"0123456789");
    assert_eq!(
        decode_description_binary(&format!("  {}\n", enc)).unwrap(),
        b"0123456789".to_vec()
    );
}

#[test]
fn sanitizer_keeps_plain_text_and_drops_comments() {
    assert_eq!(sanitize_html_content("plain text"), "plain text");
    assert_eq!(sanitize_html_content("a<!-- hidden -->b"), "ab");
    assert_eq!(sanitize_html_content("a<style>p{}</style>b"), "ab");
    let out = sanitize_html_content("<img src=\"data:text/html,x\" alt=\"k\">");
    assert!(!out.contains("data:"));
    assert!(out.contains("alt=\"k\""));
    assert_eq!(
        clean_description_html("<p>ok</p>").unwrap(),
        sanitize_html_content("<p>ok</p>")
    );
    assert_eq!(
        clean_description_html(&"a".repeat(10 * 1024 * 1024 + 1)).unwrap_err(),
        HTML_TOO_LARGE_MSG
    );
}

#[test]
fn tags_stripped_to_text() {
    assert_eq!(strip_tags_text("<p>Hello <b>world</b></p>"), "Hello world");
    assert_eq!(strip_tags_text("a > b"), "a  b");
    assert_eq!(strip_tags_text("x<unclosed"), "x");
}

#[test]
fn page_create_validation_and_am_gate() {
    let body = |access: Option<i16>, color: Option<String>| CreatePage {
        name: Some("P".to_string()),
        access,
        color,
    };
    assert_eq!(
        validate_create(&body(Some(2), None)).unwrap_err(),
        "access must be 0 (Public) or 1 (Private)"
    );
    assert_eq!(
        validate_create(&body(Some(0), Some("c".repeat(256)))).unwrap_err(),
        "color max length 255"
    );
    assert!(validate_create(&body(Some(1), Some("c".repeat(255)))).is_ok());
    assert!(validate_create(&body(None, None)).is_ok());
    assert!(guard_am(Some(20)).is_ok());
    assert!(guard_am(Some(15)).is_ok());
    assert!(guard_am(Some(5)).is_err());
}

fn text_of(v: Vec<char>) -> String {
    v.into_iter().collect()
}

#[test]
fn integers_as_text() {
    assert_eq!(text_of(int_to_text(0)), "0");
    assert_eq!(text_of(int_to_text(42)), "42");
    assert_eq!(text_of(int_to_text(-7)), "-7");
    assert_eq!(text_of(int_to_text(i64::MIN)), "-9223372036854775808");
    assert_eq!(text_of(int_to_text(i64::MAX)), "9223372036854775807");
}

#[test]
fn page_create_fields_in_order() {
    let t = |s: &str| FieldValue::Text(s.to_string());
    let d = check_page_create(&FieldValue::Missing, IntValue::Null, &FieldValue::Null, &FieldValue::Missing).unwrap();
    assert_eq!((d.name.as_str(), d.access, d.color.as_str(), d.parent), ("", 0, "", None));
    let d = check_page_create(&t("Spec"), IntValue::Int(1), &t("#fff"), &t("00000000-0000-0000-0000-00000000000a")).unwrap();
    assert_eq!((d.name.as_str(), d.access, d.color.as_str(), d.parent), ("Spec", 1, "#fff", Some(10)));
    let e = |r: Result<_, (String, String)>| r.err().unwrap();
    assert_eq!(
        e(check_page_create(&FieldValue::Other, IntValue::Int(9), &FieldValue::Other, &FieldValue::Other)),
        ("name".to_string(), NOT_A_STRING_MSG.to_string())
    );
    assert_eq!(
        e(check_page_create(&t("P"), IntValue::Int(3), &FieldValue::Other, &FieldValue::Other)),
        ("access".to_string(), "\"3\" is not a valid choice.".to_string())
    );
    assert_eq!(
        e(check_page_create(&t("P"), IntValue::Other, &t("c"), &FieldValue::Missing)),
        ("access".to_string(), INTEGER_REQUIRED_MSG.to_string())
    );
    assert_eq!(
        e(check_page_create(&t("P"), IntValue::Missing, &FieldValue::Other, &FieldValue::Missing)),
        ("color".to_string(), NOT_A_STRING_MSG.to_string())
    );
    assert_eq!(
        e(check_page_create(&t("P"), IntValue::Missing, &t(&"c".repeat(256)), &FieldValue::Missing)),
        ("color".to_string(), COLOR_TOO_LONG_MSG.to_string())
    );
    assert_eq!(
        e(check_page_create(&t("P"), IntValue::Missing, &t("c"), &t("not-an-id"))),
        ("error".to_string(), VALID_DETAIL_MSG.to_string())
    );
    assert_eq!(
        e(check_page_create(&t("P"), IntValue::Missing, &t("c"), &FieldValue::Other)),
        ("error".to_string(), VALID_DETAIL_MSG.to_string())
    );
}

#[test]
fn page_patch_parent_reading() {
    let t = |s: &str| FieldValue::Text(s.to_string());
    assert_eq!(check_page_patch_parent(&FieldValue::Missing), Ok(None));
    assert_eq!(check_page_patch_parent(&FieldValue::Null), Ok(Some(None)));
    assert_eq!(check_page_patch_parent(&t("")), Ok(Some(None)));
    assert_eq!(
        check_page_patch_parent(&t("00000000-0000-0000-0000-000000000005")),
        Ok(Some(Some(5)))
    );
    assert_eq!(check_page_patch_parent(&t("x")), Err(()));
    assert_eq!(check_page_patch_parent(&FieldValue::Other), Err(()));
}

#[test]
fn page_patch_fields_in_order() {
    let t = |s: &str| FieldValue::Text(s.to_string());
    let m = FieldValue::Missing;
    let e = |r: Result<_, (String, String)>| r.err().unwrap();
    assert_eq!(
        e(check_page_patch(0, true, IntValue::Null, &m, &m, &m)),
        ("error".to_string(), VALID_DETAIL_MSG.to_string())
    );
    assert_eq!(
        e(check_page_patch(0, false, IntValue::Int(1), &m, &m, &m)),
        ("error".to_string(), ACCESS_QUIRK_MSG.to_string())
    );
    assert_eq!(
        e(check_page_patch(0, false, IntValue::Missing, &FieldValue::Null, &m, &m)),
        ("name".to_string(), NOT_A_STRING_MSG.to_string())
    );
    assert_eq!(
        e(check_page_patch(0, false, IntValue::Int(0), &t("N"), &t(&"c".repeat(256)), &m)),
        ("color".to_string(), COLOR_TOO_LONG_MSG.to_string())
    );
    assert_eq!(
        e(check_page_patch(0, false, IntValue::Missing, &m, &m, &FieldValue::Other)),
        ("description_html".to_string(), NOT_A_STRING_MSG.to_string())
    );
    let p = check_page_patch(0, true, IntValue::Int(65537), &t("N"), &FieldValue::Null, &t("<p>x</p>")).unwrap();
    assert_eq!(p.access, Some(1));
    assert_eq!(p.name.as_deref(), Some("N"));
    assert_eq!(p.color, None);
    assert_eq!(p.description_html.as_deref(), Some("<p>x</p>"));
    let p = check_page_patch(1, false, IntValue::Int(1), &m, &m, &m).unwrap();
    assert_eq!((p.access, p.name, p.color, p.description_html), (Some(1), None, None, None));
}

#[test]
fn joined_text_never_forms_a_script_element() {
    let out = sanitize_html_content("<scr<script></script>ipt>alert(1)</script>");
    assert!(!out.to_lowercase().contains("<script"), "{out}");
    let out = sanitize_html_content("<sty<STYLE>x</style>le>p{}</style>ok");
    assert!(!out.to_lowercase().contains("<style"), "{out}");
    assert!(out.ends_with("ok"));
    let out = sanitize_html_content("<scr<!-- c -->ipt>x</script>y");
    assert!(!out.to_lowercase().contains("<script"), "{out}");
    assert_eq!(sanitize_html_content("<scripts>kept</scripts>"), "<scripts>kept</scripts>");
}

use api::routes::page::{check_page_description_binary, check_page_description_html};

#[test]
fn create_description_html_defaults_and_refuses_non_text() {
    assert_eq!(check_page_description_html(&FieldValue::Missing).unwrap(), "<p></p>");
    assert_eq!(check_page_description_html(&FieldValue::Null).unwrap(), "<p></p>");
    assert_eq!(
        check_page_description_html(&FieldValue::Text("<p>hi</p>".to_string())).unwrap(),
        "<p>hi</p>"
    );
    assert_eq!(check_page_description_html(&FieldValue::Text(String::new())).unwrap(), "");
    assert_eq!(
        check_page_description_html(&FieldValue::Other).unwrap_err(),
        ("description_html".to_string(), NOT_A_STRING_MSG.to_string())
    );
}

#[test]
fn create_description_binary_cases() {
    assert_eq!(check_page_description_binary(&FieldValue::Missing).unwrap(), None);
    assert_eq!(check_page_description_binary(&FieldValue::Null).unwrap(), None);
    assert_eq!(check_page_description_binary(&FieldValue::Text(String::new())).unwrap(), None);
    let enc = base64::engine::general_purpose::STANDARD.encode(b"%PDF-body-bytes");
    assert_eq!(
        check_page_description_binary(&FieldValue::Text(enc)).unwrap(),
        Some(b"%PDF-body-bytes".to_vec())
    );
    assert_eq!(
        check_page_description_binary(&FieldValue::Text("!!!not-base64!!!".to_string()))
            .unwrap_err(),
        ("description_binary".to_string(), DESC_DECODE_MSG.to_string())
    );
    let evil = base64::engine::general_purpose::STANDARD.encode(b"<html>evil");
    let (key, msg) = check_page_description_binary(&FieldValue::Text(evil)).unwrap_err();
    assert_eq!(key, "description_binary");
    assert!(msg.starts_with("Invalid binary data: "));
    assert_eq!(
        check_page_description_binary(&FieldValue::Other).unwrap_err(),
        ("error".to_string(), VALID_DETAIL_MSG.to_string())
    );
}
