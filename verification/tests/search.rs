use api::routes::search::{integer_tokens, like_pattern, parse_entities, SEARCH_ENTITIES};

#[test]
fn entities_picked_or_all() {
    assert_eq!(parse_entities(Some(" issue , page,bogus")), vec!["issue", "page"]);
    assert_eq!(parse_entities(Some("bogus")), SEARCH_ENTITIES.to_vec());
    assert_eq!(parse_entities(None), SEARCH_ENTITIES.to_vec());
    assert_eq!(parse_entities(Some("")), SEARCH_ENTITIES.to_vec());
}

#[test]
fn like_patterns_strip_wildcards() {
    assert_eq!(like_pattern(Some("a%b_c")), "%abc%");
    assert_eq!(like_pattern(Some("  ")), "%");
    assert_eq!(like_pattern(None), "%");
    assert_eq!(like_pattern(Some(" x ")), "% x %");
}

#[test]
fn integer_runs_extracted() {
    assert_eq!(integer_tokens(Some("PRJ-12 and 7")), vec![12, 7]);
    assert_eq!(integer_tokens(Some("abc")), Vec::<i64>::new());
    assert_eq!(integer_tokens(None), Vec::<i64>::new());
    assert_eq!(integer_tokens(Some("99999999999999999999 5")), vec![5]);
    assert_eq!(integer_tokens(Some("007")), vec![7]);
}
