use pictallion::search::{join_with, search_query, signed_decimal_text, SearchFilters};

fn none() -> SearchFilters {
    SearchFilters { person_id: None, tag_id: None, tier: None, date_from: None, date_to: None }
}

#[test]
fn unfiltered_search_excludes_trash() {
    let q = search_query(&none());
    assert_eq!(
        q.sql,
        "SELECT DISTINCT p.id as id, p.storage_path as storage_path, p.tier as tier FROM photos p WHERE p.deleted_at IS NULL ORDER BY p.updated_at DESC"
    );
    assert!(q.args.is_empty());
}

#[test]
fn every_filter_adds_condition_and_argument() {
    let f = SearchFilters {
        person_id: Some("per".to_string()),
        tag_id: Some("tag".to_string()),
        tier: Some("gold".to_string()),
        date_from: Some(-5),
        date_to: Some(1700000000),
    };
    let q = search_query(&f);
    assert_eq!(
        q.sql,
        "SELECT DISTINCT p.id as id, p.storage_path as storage_path, p.tier as tier FROM photos p JOIN faces f ON f.photo_id = p.id JOIN photo_tags pt ON pt.photo_id = p.id WHERE f.person_id = ? AND p.tier = ? AND pt.tag_id = ? AND p.created_at >= ? AND p.created_at <= ? AND p.deleted_at IS NULL ORDER BY p.updated_at DESC"
    );
    assert_eq!(q.args, vec!["per", "gold", "tag", "-5", "1700000000"]);
}

#[test]
fn tier_only_search() {
    let mut f = none();
    f.tier = Some("silver".to_string());
    let q = search_query(&f);
    assert!(q.sql.ends_with("WHERE p.tier = ? AND p.deleted_at IS NULL ORDER BY p.updated_at DESC"));
    assert_eq!(q.args, vec!["silver"]);
}

#[test]
fn signed_decimals() {
    for n in [0i64, -1, 42, i64::MIN, i64::MAX] {
        assert_eq!(signed_decimal_text(n), n.to_string());
    }
}

#[test]
fn join_with_separator() {
    let parts = vec!["a".to_string(), "b".to_string(), "c".to_string()];
    assert_eq!(join_with(&parts, ", "), "a, b, c");
    assert_eq!(join_with(&vec![], ", "), "");
}

use pictallion::grouping::PhotoManager;
use pictallion::search::PhotoSearchFilters;

#[test]
fn metadata_search_without_filters() {
    let f = PhotoSearchFilters { date_start: None, date_end: None, camera: None, tags: None, ai_confidence_min: None, location: None };
    let q = PhotoManager::search_photos_query(&f);
    assert_eq!(q.sql, "SELECT id, file_path, tier FROM file_versions WHERE 1=1");
    assert!(q.args.is_empty());
}

#[test]
fn metadata_search_with_all_filters() {
    let f = PhotoSearchFilters {
        date_start: Some("2024-01-01".to_string()),
        date_end: Some("2024-12-31".to_string()),
        camera: Some("Canon".to_string()),
        tags: Some(vec!["beach".to_string(), "sun".to_string()]),
        ai_confidence_min: Some(80),
        location: Some("Oslo".to_string()),
    };
    let q = PhotoManager::search_photos_query(&f);
    assert_eq!(
        q.sql,
        "SELECT id, file_path, tier FROM file_versions WHERE 1=1 AND created_at >= ? AND created_at <= ? AND metadata LIKE ? AND keywords LIKE ? AND keywords LIKE ? AND metadata LIKE ? AND location LIKE ?"
    );
    assert_eq!(
        q.args,
        vec!["2024-01-01", "2024-12-31", "%Canon%", "%beach%", "%sun%", "%\"confidence\":80%", "%Oslo%"]
    );
}

#[test]
fn metadata_search_with_empty_tag_list() {
    let f = PhotoSearchFilters { date_start: None, date_end: None, camera: None, tags: Some(vec![]), ai_confidence_min: Some(-3), location: None };
    let q = PhotoManager::search_photos_query(&f);
    assert_eq!(q.sql, "SELECT id, file_path, tier FROM file_versions WHERE 1=1 AND metadata LIKE ?");
    assert_eq!(q.args, vec!["%\"confidence\":-3%"]);
}
