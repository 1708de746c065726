use api::routes::service::{
    normalize_name, validate_enum, would_create_cycle, SERVICE_CRITICALITIES, SERVICE_STATUSES,
    SERVICE_TYPES,
};
use uuid::Uuid;

#[test]
fn normalize_name_trims_and_lowercases() {
    assert_eq!(normalize_name("  Web API "), "web api");
}

#[test]
fn validate_enum_accepts_known_and_rejects_unknown() {
    assert!(validate_enum("status", "active", &SERVICE_STATUSES).is_ok());
    assert_eq!(
        validate_enum("status", "bogus", &SERVICE_STATUSES).unwrap_err(),
        "Invalid status"
    );
    assert_eq!(
        validate_enum("criticality", "nope", &SERVICE_CRITICALITIES).unwrap_err(),
        "Invalid criticality"
    );
    assert_eq!(
        validate_enum("type", "nope", &SERVICE_TYPES).unwrap_err(),
        "Invalid type"
    );
}

#[test]
fn cycle_detection_self_and_transitive() {
    let a = Uuid::from_u128(1).as_u128();
    let b = Uuid::from_u128(2).as_u128();
    let c = Uuid::from_u128(3).as_u128();
    let edges = vec![(a, b), (b, c)];
    assert!(would_create_cycle(&edges, a, a));
    assert!(would_create_cycle(&edges, c, a));
    assert!(!would_create_cycle(&edges, a, c));
}

#[test]
fn cycle_detection_branches_and_empty_graph() {
    let edges = vec![(1u128, 2u128), (2, 3), (2, 4), (4, 5)];
    assert!(would_create_cycle(&edges, 5, 1));
    assert!(would_create_cycle(&edges, 3, 2));
    assert!(!would_create_cycle(&edges, 1, 5));
    assert!(!would_create_cycle(&edges, 3, 4));
    assert!(!would_create_cycle(&[], 1, 2));
    assert!(would_create_cycle(&[], 7, 7));
}

#[test]
fn names_fold_unicode_case() {
    assert_eq!(normalize_name("\tÉCOLE\n"), "école");
}
