use url_store::store::{
    is_alias_unique_violation, is_code_unique_violation, DatabaseError, UrlStore,
};

#[test]
fn upsert_then_upsert_dedups() {
    let mut s = UrlStore::new();
    let (o1, u1) = s.insert_url("code01", "https://example.com/a").unwrap();
    let (o2, u2) = s.insert_url("code02", "https://example.com/a").unwrap();
    assert!(o1.created);
    assert!(!o2.created);
    assert_eq!(o1.id, o2.id);
    assert_eq!(u1.id, u2.id);
    assert_eq!(u1.code, "code01");
    assert_eq!(u2.code, "code01");
}

#[test]
fn duplicate_code_is_an_error_and_changes_nothing() {
    let mut s = UrlStore::new();
    s.insert_url("code01", "https://example.com/a").unwrap();
    let r = s.insert_url("code01", "https://example.com/b");
    assert!(matches!(r, Err(DatabaseError::Duplicate)));
    assert_eq!(s.get_url("code01").unwrap(), "https://example.com/a");
    assert!(matches!(s.get_id_by_url("https://example.com/b"), Err(DatabaseError::NotFound)));
}

#[test]
fn get_id_by_url_finds_the_record() {
    let mut s = UrlStore::new();
    let (o, _) = s.insert_url("code01", "https://example.com/a").unwrap();
    let found = s.get_id_by_url("https://example.com/a").unwrap();
    assert_eq!(found.id, o.id);
    assert_eq!(found.code, "code01");
    assert!(matches!(s.get_id_by_url("https://example.com/x"), Err(DatabaseError::NotFound)));
}

#[test]
fn alias_resolves_like_canonical_code() {
    let mut s = UrlStore::new();
    let (o, u) = s.insert_url("code01", "https://example.com/a").unwrap();
    s.insert_alias("alias1", o.id).unwrap();
    assert_eq!(s.get_url("alias1").unwrap(), s.get_url(&u.code).unwrap());
    assert_eq!(s.get_url("alias1").unwrap(), "https://example.com/a");
}

#[test]
fn second_alias_insert_fails_and_first_mapping_stays() {
    let mut s = UrlStore::new();
    let (o1, _) = s.insert_url("code01", "https://example.com/a").unwrap();
    let (o2, _) = s.insert_url("code02", "https://example.com/b").unwrap();
    s.insert_alias("alias1", o1.id).unwrap();
    let r = s.insert_alias("alias1", o2.id);
    assert!(matches!(r, Err(DatabaseError::Duplicate)));
    assert_eq!(s.get_url("alias1").unwrap(), "https://example.com/a");
}

#[test]
fn alias_spelled_like_a_canonical_code_is_rejected() {
    let mut s = UrlStore::new();
    let (o1, _) = s.insert_url("code01", "https://example.com/a").unwrap();
    let (o2, _) = s.insert_url("code02", "https://example.com/b").unwrap();
    assert_ne!(o1.id, o2.id);
    let r = s.insert_alias("code01", o2.id);
    assert!(matches!(r, Err(DatabaseError::Duplicate)));
    assert_eq!(s.get_url("code01").unwrap(), "https://example.com/a");
}

#[test]
fn canonical_code_spelled_like_an_alias_is_rejected() {
    let mut s = UrlStore::new();
    let (o1, _) = s.insert_url("code01", "https://example.com/a").unwrap();
    s.insert_alias("alias1", o1.id).unwrap();
    let r = s.insert_url("alias1", "https://example.com/b");
    assert!(matches!(r, Err(DatabaseError::Duplicate)));
    assert!(matches!(s.get_id_by_url("https://example.com/b"), Err(DatabaseError::NotFound)));
    assert_eq!(s.get_url("alias1").unwrap(), "https://example.com/a");
}

#[test]
fn error_message_classifiers_match_the_constraint_texts() {
    let code_msg = "error returned from database: (code: 2067) UNIQUE constraint failed: urls.code";
    let alias_msg = "error returned from database: UNIQUE constraint failed: aliases.alias";
    assert!(is_code_unique_violation(code_msg));
    assert!(!is_alias_unique_violation(code_msg));
    assert!(is_alias_unique_violation(alias_msg));
    assert!(!is_code_unique_violation(alias_msg));
    assert!(!is_code_unique_violation("UNIQUE constraint failed: urls.url_hash"));
    assert!(!is_code_unique_violation(""));
}

#[test]
fn alias_to_missing_target_is_a_query_error() {
    let mut s = UrlStore::new();
    let r = s.insert_alias("alias1", 7);
    assert!(matches!(r, Err(DatabaseError::QueryError(_))));
    assert!(matches!(s.get_url("alias1"), Err(DatabaseError::NotFound)));
}

#[test]
fn resolve_nonexistent_is_not_found() {
    let s = UrlStore::new();
    assert!(matches!(s.get_url("nonexistent"), Err(DatabaseError::NotFound)));
}

#[test]
fn list_short_codes_unions_both_namespaces_in_insertion_order() {
    let mut s = UrlStore::new();
    let (o1, _) = s.insert_url("code01", "https://example.com/a").unwrap();
    s.insert_url("code02", "https://example.com/b").unwrap();
    s.insert_alias("alias1", o1.id).unwrap();
    let all = s.list_short_codes(0, 10).unwrap();
    assert_eq!(all, vec!["code01".to_string(), "code02".to_string(), "alias1".to_string()]);
    let window = s.list_short_codes(1, 1).unwrap();
    assert_eq!(window, vec!["code02".to_string()]);
    let past_the_end = s.list_short_codes(5, 10).unwrap();
    assert!(past_the_end.is_empty());
    let none = s.list_short_codes(0, 0).unwrap();
    assert!(none.is_empty());
}

#[test]
fn save_is_full_replacement() {
    let mut s = UrlStore::new();
    s.save_bloom_snapshot("filterA", &[1, 2, 3], 10).unwrap();
    s.save_bloom_snapshot("filterA", &[9, 9], 20).unwrap();
    let loaded = s.load_bloom_snapshot("filterA").unwrap();
    assert_eq!(loaded, Some(vec![9u8, 9u8]));
}

#[test]
fn snapshots_are_independent_per_name() {
    let mut s = UrlStore::new();
    s.save_bloom_snapshot("filterA", &[1], 10).unwrap();
    s.save_bloom_snapshot("filterB", &[2], 11).unwrap();
    assert_eq!(s.load_bloom_snapshot("filterA").unwrap(), Some(vec![1u8]));
    assert_eq!(s.load_bloom_snapshot("filterB").unwrap(), Some(vec![2u8]));
}

#[test]
fn load_never_saved_is_explicit_absence() {
    let s = UrlStore::new();
    let loaded = s.load_bloom_snapshot("neverSaved").unwrap();
    assert_eq!(loaded, None);
}

#[test]
fn end_to_end_example() {
    let mut s = UrlStore::new();
    let (o1, u1) = s.insert_url("aaa111", "https://example.com").unwrap();
    assert!(o1.created);
    assert_eq!(o1.id, 1);
    assert_eq!(u1.code, "aaa111");
    let (o2, u2) = s.insert_url("bbb222", "https://example.com").unwrap();
    assert!(!o2.created);
    assert_eq!(o2.id, 1);
    assert_eq!(u2.code, "aaa111");
    s.insert_alias("ccc333", 1).unwrap();
    assert_eq!(s.get_url("ccc333").unwrap(), "https://example.com");
    assert!(matches!(s.get_url("bbb222"), Err(DatabaseError::NotFound)));
}
