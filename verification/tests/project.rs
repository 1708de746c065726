use api::routes::project::{
    default_states_seed, guard_identifier_unique, guard_leave, guard_name_unique, guard_patch,
    has_forbidden, normalize_identifier, patch_identifier, patch_name, state_slug,
    validate_create, CreateProject, FORBIDDEN_MSG, INVALID_IDENTIFIER_MSG, INVALID_NAME_MSG,
    NOT_FOUND_MSG,
};

#[test]
fn forbidden_message_matches_django() {
    assert_eq!(FORBIDDEN_MSG, "You don't have the required permissions.");
}

#[test]
fn not_found_message_matches_django() {
    assert_eq!(NOT_FOUND_MSG, "The required object does not exist.");
}

#[test]
fn sole_admin_guard() {
    assert!(guard_leave(true, 1).is_err());
    assert!(guard_leave(true, 2).is_ok());
    assert!(guard_leave(false, 1).is_ok());
}

#[test]
fn default_states_seed_count() {
    let seed = default_states_seed();
    assert_eq!(seed.len(), 6);
    assert_eq!(seed.iter().filter(|s| s.default).count(), 1);
}

#[test]
fn seed_rows_in_order() {
    let seed = default_states_seed();
    let names: Vec<&str> = seed.iter().map(|s| s.name).collect();
    assert_eq!(names, ["Backlog", "Todo", "In Progress", "Done", "Cancelled", "Triage"]);
    let seqs: Vec<u32> = seed.iter().map(|s| s.sequence).collect();
    assert_eq!(seqs, [15000, 25000, 35000, 45000, 55000, 65000]);
    assert!(seed[0].default);
    assert_eq!(seed[5].group, "triage");
}

#[test]
fn create_validation_errors_in_order() {
    let body = |n: &str, i: &str| CreateProject {
        name: n.to_string(),
        identifier: i.to_string(),
        project_lead: None,
    };
    assert_eq!(validate_create(&body(" ", "")).unwrap_err(), "name is required");
    assert_eq!(validate_create(&body("P", " ")).unwrap_err(), "identifier is required");
    assert_eq!(
        validate_create(&body(&"p".repeat(256), "ID")).unwrap_err(),
        "name max length 255"
    );
    assert_eq!(
        validate_create(&body("P", "ABCDEFGHIJKLM")).unwrap_err(),
        "identifier max length 12"
    );
    assert_eq!(
        validate_create(&body("P&Q", "ID")).unwrap_err(),
        "PROJECT_NAME_CANNOT_CONTAIN_SPECIAL_CHARACTERS"
    );
    assert_eq!(
        validate_create(&body("P", "I-D")).unwrap_err(),
        "PROJECT_IDENTIFIER_CANNOT_CONTAIN_SPECIAL_CHARACTERS"
    );
    assert!(validate_create(&body(&"p".repeat(255), "ABCDEFGHIJKL")).is_ok());
}

#[test]
fn archive_and_uniqueness_guards() {
    assert!(guard_patch(true).is_err());
    assert!(guard_patch(false).is_ok());
    assert!(guard_name_unique(true).is_err());
    assert!(guard_name_unique(false).is_ok());
    assert!(guard_identifier_unique(true).is_err());
    assert!(guard_identifier_unique(false).is_ok());
}

#[test]
fn forbidden_characters() {
    assert!(has_forbidden("a/b"));
    assert!(has_forbidden("x!"));
    assert!(!has_forbidden("Plain name_1"));
}

#[test]
fn identifiers_normalised_and_checked() {
    assert_eq!(normalize_identifier("  abc "), "ABC");
    assert_eq!(patch_identifier(" web ").unwrap(), "WEB");
    assert_eq!(patch_identifier("   ").unwrap_err(), INVALID_IDENTIFIER_MSG);
    assert_eq!(patch_identifier("abcdefghijklm").unwrap_err(), INVALID_IDENTIFIER_MSG);
    assert_eq!(patch_identifier("a.b").unwrap_err(), INVALID_IDENTIFIER_MSG);
    assert_eq!(patch_identifier("abcdefghijkl").unwrap(), "ABCDEFGHIJKL");
}

#[test]
fn patched_names_checked() {
    assert!(patch_name("Roadmap").is_ok());
    assert_eq!(patch_name("  ").unwrap_err(), INVALID_NAME_MSG);
    assert_eq!(patch_name(&"n".repeat(256)).unwrap_err(), INVALID_NAME_MSG);
    assert_eq!(patch_name("a@b").unwrap_err(), INVALID_NAME_MSG);
}

#[test]
fn state_slugs() {
    assert_eq!(state_slug("In Progress"), "in-progress");
    assert_eq!(state_slug("Backlog"), "backlog");
}

use api::routes::project::{check_stored_identifier, slug_of_lowercased};

#[test]
fn stored_identifier_checks() {
    assert_eq!(check_stored_identifier("ABC"), Ok(()));
    assert_eq!(check_stored_identifier("ABCDEFGHIJKL"), Ok(()));
    assert_eq!(check_stored_identifier(""), Err(INVALID_IDENTIFIER_MSG.to_string()));
    assert_eq!(check_stored_identifier("ABCDEFGHIJKLM"), Err(INVALID_IDENTIFIER_MSG.to_string()));
    assert_eq!(check_stored_identifier("A/B"), Err(INVALID_IDENTIFIER_MSG.to_string()));
    assert_eq!(check_stored_identifier("ÄBC"), Ok(()));
}

#[test]
fn slug_of_lowercased_dashes_spaces_only() {
    assert_eq!(slug_of_lowercased("in progress"), "in-progress");
    assert_eq!(slug_of_lowercased("In Progress"), "In-Progress");
    assert_eq!(slug_of_lowercased("  "), "--");
    assert_eq!(slug_of_lowercased(""), "");
}
