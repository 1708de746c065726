use api::routes::issue_common::project_gate_allows;
use api::routes::reactions::{
    guard_reactions, reaction_scope_ok, validate_reaction, ReactionBody, COMMENT_DUP_MSG,
    ISSUE_DUP_MSG, REACTION_BLANK_MSG, REACTION_REQUIRED_MSG,
};

#[test]
fn issue_dup_message_matches_django_base_handler() {
    assert_eq!(ISSUE_DUP_MSG, "The payload is not valid");
}

#[test]
fn comment_dup_message_matches_django_explicit_catch() {
    assert_eq!(COMMENT_DUP_MSG, "Reaction already exists for the user");
}

#[test]
fn reaction_scope_ok_pins_actor_scoping() {
    let user = uuid::Uuid::nil().as_u128();
    let other = uuid::Uuid::max().as_u128();
    assert!(reaction_scope_ok(user, user));
    assert!(!reaction_scope_ok(other, user));
}

#[test]
fn guard_reactions_is_admin_member_guest() {
    assert!(guard_reactions(Some(20)).is_ok());
    assert!(guard_reactions(Some(15)).is_ok());
    assert!(guard_reactions(Some(5)).is_ok());
    assert!(guard_reactions(Some(10)).is_err());
    assert_eq!(
        guard_reactions(None).unwrap_err(),
        "You don't have the required permissions."
    );
}

#[test]
fn validate_reaction_mirrors_drf_required_and_blank() {
    assert_eq!(
        validate_reaction(&ReactionBody { reaction: None }).unwrap_err(),
        REACTION_REQUIRED_MSG
    );
    assert_eq!(REACTION_REQUIRED_MSG, "This field is required.");
    assert_eq!(
        validate_reaction(&ReactionBody {
            reaction: Some("   ".to_string())
        })
        .unwrap_err(),
        REACTION_BLANK_MSG
    );
    assert_eq!(REACTION_BLANK_MSG, "This field may not be blank.");
    assert_eq!(
        validate_reaction(&ReactionBody {
            reaction: Some("heart".to_string())
        })
        .unwrap(),
        "heart"
    );
}

#[test]
fn ws_admin_fallback_covers_roleless_member() {
    assert!(project_gate_allows(guard_reactions(Some(10)).is_ok(), true, true));
    assert!(!project_gate_allows(guard_reactions(Some(10)).is_ok(), true, false));
    assert!(!project_gate_allows(guard_reactions(None).is_ok(), false, true));
}

#[test]
fn role_pass_needs_no_fallback() {
    assert!(project_gate_allows(guard_reactions(Some(5)).is_ok(), true, false));
    assert!(!project_gate_allows(false, false, false));
}
