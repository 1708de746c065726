use api::ids::parse_id_list;

#[test]
fn id_lists_all_or_nothing() {
    let some = |s: &str| Some(s.to_string());
    assert_eq!(
        parse_id_list(&[some("00000000-0000-0000-0000-000000000002"), some("00000000000000000000000000000003")]),
        Some(vec![2u128, 3])
    );
    assert_eq!(parse_id_list(&[some("00000000-0000-0000-0000-000000000002"), some("nope")]), None);
    assert_eq!(parse_id_list(&[None]), None);
    assert_eq!(parse_id_list(&[]), Some(vec![]));
}
