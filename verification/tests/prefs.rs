use api::routes::prefs::{
    nav_pref_error,
    guard_amg, guard_slug_present, normalize_link_url, recent_row_visible, sidebar_pinned,
    slug_available, unsplash_url, validate_link_url, HOME_KEYS, INVALID_URL_MSG,
    RESTRICTED_WORKSPACE_SLUGS, SIDEBAR_KEYS,
};

#[test]
fn quick_link_url_prepend_and_validate() {
    assert_eq!(normalize_link_url("example.com/x"), "http://example.com/x");
    assert_eq!(normalize_link_url("https://a.b"), "https://a.b");
    assert!(validate_link_url("http://example.com").is_ok());
    assert!(validate_link_url("notaurl").is_err());
    assert_eq!(validate_link_url("notaurl").unwrap_err(), "Invalid URL format.");
}

#[test]
fn slug_check_guards_and_status() {
    assert!(guard_slug_present(None).is_err());
    assert!(guard_slug_present(Some("")).is_err());
    assert_eq!(guard_slug_present(None).unwrap_err(), "Workspace Slug is required");
    assert_eq!(guard_slug_present(Some("")).unwrap_err(), "Workspace Slug is required");
    assert_eq!(guard_slug_present(Some("  ")).unwrap(), "  ".to_string());
    assert!(slug_available(false, "fresh-slug"));
    assert!(!slug_available(true, "fresh-slug"));
    assert!(!slug_available(false, "admin"));
    assert!(!slug_available(false, "chat"));
}

#[test]
fn unsplash_url_fixes_dollar_page_bug() {
    let u = unsplash_url(Some("cats"), "2", "20", "K");
    assert!(u.contains("&page=2&"), "{u}");
    assert!(!u.contains("${"), "{u}");
    let u2 = unsplash_url(None, "1", "20", "K");
    assert!(u2.contains("/photos/?"), "{u2}");
    let u3 = unsplash_url(Some(""), "1", "20", "K");
    assert!(u3.contains("/photos/?"), "{u3}");
}

#[test]
fn recent_filter_forces_allowlist() {
    assert!(recent_row_visible(None, "issue"));
    assert!(recent_row_visible(Some("page"), "page"));
    assert!(!recent_row_visible(Some("page"), "issue"));
    assert!(!recent_row_visible(Some("cycle"), "cycle"));
    assert!(!recent_row_visible(None, "cycle"));
}

#[test]
fn amg_gate_roles() {
    assert!(guard_amg(Some(20)).is_ok());
    assert!(guard_amg(Some(15)).is_ok());
    assert!(guard_amg(Some(5)).is_ok());
    assert!(guard_amg(Some(10)).is_err());
    assert!(guard_amg(None).is_err());
}

#[test]
fn unsplash_urls_exact() {
    assert_eq!(
        unsplash_url(Some("cats"), "2", "20", "K"),
        "https://api.unsplash.com/search/photos/?client_id=K&query=cats&page=2&per_page=20"
    );
    assert_eq!(
        unsplash_url(Some("   "), "1", "20", "K"),
        "https://api.unsplash.com/photos/?client_id=K&page=1&per_page=20"
    );
}

#[test]
fn link_url_trim_and_host_rules() {
    assert_eq!(normalize_link_url("  example.com  "), "http://example.com");
    assert_eq!(normalize_link_url(""), "http://");
    assert!(validate_link_url("https://user@host.io:8080/p").is_ok());
    assert_eq!(validate_link_url("http://").unwrap_err(), INVALID_URL_MSG);
    assert_eq!(validate_link_url("http://a b").unwrap_err(), INVALID_URL_MSG);
    assert_eq!(validate_link_url("http://:80").unwrap_err(), INVALID_URL_MSG);
}

#[test]
fn sidebar_pins_and_key_sets() {
    assert!(sidebar_pinned("drafts"));
    assert!(sidebar_pinned("your_work"));
    assert!(sidebar_pinned("stickies"));
    assert!(!sidebar_pinned("projects"));
    assert_eq!(SIDEBAR_KEYS.len(), 7);
    assert_eq!(HOME_KEYS, ["quick_links", "recents", "my_stickies"]);
    assert!(RESTRICTED_WORKSPACE_SLUGS.contains(&"admin"));
    assert!(slug_available(false, "Admin"));
}

#[test]
fn navigation_choice_messages() {
    assert_eq!(nav_pref_error(Some("ACCORDION"), "\"ACCORDION\""), None);
    assert_eq!(nav_pref_error(Some("TABBED"), "\"TABBED\""), None);
    assert_eq!(
        nav_pref_error(Some("tabbed"), "\"tabbed\"").unwrap(),
        "\"tabbed\" is not a valid choice."
    );
    assert_eq!(nav_pref_error(None, "3").unwrap(), "\"3\" is not a valid choice.");
}

#[test]
fn nav_pref_bad_choice_uses_drf_message() {
    let text = |v: &serde_json::Value| nav_pref_error(v.as_str(), &v.to_string());
    assert_eq!(
        text(&serde_json::Value::String("FOO".to_string())),
        Some("\"FOO\" is not a valid choice.".to_string())
    );
    assert_eq!(text(&serde_json::Value::String("ACCORDION".to_string())), None);
    assert_eq!(text(&serde_json::Value::String("TABBED".to_string())), None);
}
