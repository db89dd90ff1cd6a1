use pictallion::hashing::ContentHasher;
use pictallion::store::{DeletePlan, IngestPlan, MediaStore, Photo, PromotePlan, StoreError};
use pictallion::tier::Tier;

fn store() -> MediaStore {
    MediaStore::new(
        "data/media".to_string(),
        "data/trash".to_string(),
        "data/cache/thumbs".to_string(),
    )
}

fn digest(bytes: &[u8]) -> String {
    let mut h = ContentHasher::new();
    h.update(bytes);
    h.finish()
}

fn ingest(s: &mut MediaStore, id: &str, source: &str, hash: &str, taken: &Vec<String>) -> Result<bool, StoreError> {
    match s.plan_ingest(source, hash, taken)? {
        IngestPlan::Duplicate => Ok(false),
        IngestPlan::CopyTo { dest } => {
            s.commit_ingest(id.to_string(), source.to_string(), dest, hash.to_string(), 100)?;
            Ok(true)
        }
    }
}

fn promote(s: &mut MediaStore, id: &str, tier: &str, now: i64) -> Result<String, StoreError> {
    let plan = s.plan_promote(id, tier, &vec![])?;
    s.commit_promote(&plan, now)?;
    Ok(plan.to)
}

#[test]
fn scenario_ingest_dedup_promote_trash() {
    let bytes = [7u8; 32];
    let h1 = digest(&bytes);
    let mut s = store();
    assert_eq!(ingest(&mut s, "p1", "/home/u/a.jpg", &h1, &vec![]), Ok(true));
    let row = s.get("p1").unwrap();
    assert_eq!(row.tier, Tier::Bronze);
    assert_eq!(row.storage_path, "data/media/bronze/a.jpg");
    assert_eq!(row.original_path, "/home/u/a.jpg");

    assert_eq!(ingest(&mut s, "p2", "/home/u/b.jpg", &digest(&bytes), &vec!["a.jpg".to_string()]), Ok(false));
    assert_eq!(s.len(), 1);
    assert_eq!(s.list_active().len(), 1);
    assert_eq!(s.list_active()[0].hash, h1);

    assert_eq!(promote(&mut s, "p1", "archive", 200), Ok("data/media/archive/a.jpg".to_string()));
    let row = s.get("p1").unwrap();
    assert_eq!(row.tier, Tier::Archive);
    assert_eq!(row.storage_path, "data/media/archive/a.jpg");
    assert_eq!(row.updated_at, 200);

    let plan = s.plan_delete("p1", false, &vec![]).unwrap();
    match &plan {
        DeletePlan::Trash { from, to, .. } => {
            assert_eq!(from, "data/media/archive/a.jpg");
            assert_eq!(to, "data/trash/a.jpg");
        }
        DeletePlan::Remove { .. } => panic!("expected a move to the trash"),
    }
    assert_eq!(s.commit_delete(&plan, 300), Ok(()));
    let row = s.get("p1").unwrap();
    assert_eq!(row.deleted_at, Some(300));
    assert_eq!(row.storage_path, "data/trash/a.jpg");
    assert_eq!(s.list_active().len(), 0);
    assert_eq!(s.len(), 1);
}

#[test]
fn same_bytes_under_new_name_is_duplicate() {
    let mut s = store();
    let h = digest(b"same");
    assert_eq!(ingest(&mut s, "x", "in/one.png", &h, &vec![]), Ok(true));
    assert_eq!(s.plan_ingest("elsewhere/two.png", &h, &vec![]).map(|p| matches!(p, IngestPlan::Duplicate)), Ok(true));
    assert_eq!(ingest(&mut s, "y", "elsewhere/two.png", &h, &vec![]), Ok(false));
    assert_eq!(s.len(), 1);
}

#[test]
fn ingest_avoids_names_in_intake() {
    let s = store();
    let taken = vec!["a.jpg".to_string(), "a (1).jpg".to_string()];
    match s.plan_ingest("x/a.jpg", "h", &taken) {
        Ok(IngestPlan::CopyTo { dest }) => assert_eq!(dest, "data/media/bronze/a (2).jpg"),
        _ => panic!("expected a copy"),
    }
    assert!(matches!(s.plan_ingest("x/", "h", &taken), Err(StoreError::InvalidPath)));
}

#[test]
fn promotion_round_trip_restores_path() {
    let mut s = store();
    ingest(&mut s, "p", "src/pic.jpg", "h", &vec![]).unwrap();
    let before = s.get("p").unwrap();
    promote(&mut s, "p", "gold", 10).unwrap();
    assert_eq!(s.get("p").unwrap().storage_path, "data/media/gold/pic.jpg");
    promote(&mut s, "p", "bronze", 20).unwrap();
    let after = s.get("p").unwrap();
    assert_eq!(after.storage_path, before.storage_path);
    assert_eq!(after.tier, Tier::Bronze);
    assert_eq!(after.hash, before.hash);
    assert_eq!(s.len(), 1);
}

#[test]
fn promotion_errors() {
    let mut s = store();
    ingest(&mut s, "p", "src/pic.jpg", "h", &vec![]).unwrap();
    assert!(matches!(s.plan_promote("p", "platinum", &vec![]), Err(StoreError::InvalidTier)));
    assert!(matches!(s.plan_promote("nope", "gold", &vec![]), Err(StoreError::NotFound)));
    // an invalid tier is reported before a missing photo
    assert!(matches!(s.plan_promote("nope", "platinum", &vec![]), Err(StoreError::InvalidTier)));
    let plan = s.plan_promote("p", "silver", &vec![]).unwrap();
    let del = s.plan_delete("p", true, &vec![]).unwrap();
    s.commit_delete(&del, 5).unwrap();
    assert_eq!(s.commit_promote(&plan, 6), Err(StoreError::NotFound));
}

#[test]
fn trashed_photo_is_not_found() {
    let mut s = store();
    ingest(&mut s, "p", "src/pic.jpg", "h", &vec![]).unwrap();
    let plan = s.plan_delete("p", false, &vec!["pic.jpg".to_string()]).unwrap();
    match &plan {
        DeletePlan::Trash { to, .. } => assert_eq!(to, "data/trash/pic (1).jpg"),
        DeletePlan::Remove { .. } => panic!("expected a move to the trash"),
    }
    s.commit_delete(&plan, 9).unwrap();
    assert!(matches!(s.plan_promote("p", "gold", &vec![]), Err(StoreError::NotFound)));
    assert!(matches!(s.plan_delete("p", true, &vec![]), Err(StoreError::NotFound)));
    assert!(matches!(s.plan_thumbnail("p"), Err(StoreError::NotFound)));
    // its bytes may be ingested again: the trashed row no longer counts
    assert_eq!(ingest(&mut s, "q", "src/pic.jpg", "h", &vec![]), Ok(true));
    assert_eq!(s.len(), 2);
}

#[test]
fn permanent_delete_removes_row() {
    let mut s = store();
    ingest(&mut s, "p", "src/pic.jpg", "h1", &vec![]).unwrap();
    ingest(&mut s, "q", "src/other.jpg", "h2", &vec![]).unwrap();
    let plan = s.plan_delete("p", true, &vec![]).unwrap();
    match &plan {
        DeletePlan::Remove { path, .. } => assert_eq!(path, "data/media/bronze/pic.jpg"),
        DeletePlan::Trash { .. } => panic!("expected a removal"),
    }
    s.commit_delete(&plan, 1).unwrap();
    assert!(s.get("p").is_none());
    assert!(s.get("q").is_some());
    assert_eq!(s.len(), 1);
    assert_eq!(s.commit_delete(&plan, 2), Err(StoreError::NotFound));
}

#[test]
fn insert_refuses_duplicates() {
    let mut s = store();
    let row = |id: &str, hash: &str, deleted: Option<i64>| Photo {
        id: id.to_string(),
        original_path: "o".to_string(),
        storage_path: "data/media/bronze/o".to_string(),
        tier: Tier::Bronze,
        hash: hash.to_string(),
        created_at: 1,
        updated_at: 1,
        deleted_at: deleted,
    };
    assert_eq!(s.insert(row("a", "h", None)), Ok(()));
    assert_eq!(s.insert(row("a", "other", None)), Err(StoreError::DuplicateId));
    assert_eq!(s.insert(row("b", "h", None)), Err(StoreError::DuplicateContent));
    assert_eq!(s.insert(row("b", "h", Some(5))), Ok(()));
    assert_eq!(s.commit_ingest("c".to_string(), "s".to_string(), "d".to_string(), "h".to_string(), 3), Err(StoreError::DuplicateContent));
    assert_eq!(s.len(), 2);
}

#[test]
fn thumbnail_plan_uses_id() {
    let mut s = store();
    ingest(&mut s, "abc", "src/pic.jpg", "h", &vec![]).unwrap();
    let plan = s.plan_thumbnail("abc").unwrap();
    assert_eq!(plan.source, "data/media/bronze/pic.jpg");
    assert_eq!(plan.dest, "data/cache/thumbs/abc.jpg");
    assert!(matches!(s.plan_thumbnail("zzz"), Err(StoreError::NotFound)));
}

#[test]
fn promotion_refuses_same_named_file_in_target() {
    let mut s = store();
    ingest(&mut s, "p", "src/pic.jpg", "h", &vec![]).unwrap();
    let taken = vec!["pic.jpg".to_string()];
    assert!(matches!(s.plan_promote("p", "gold", &taken), Err(StoreError::DestinationExists)));
    assert_eq!(s.get("p").unwrap().tier, Tier::Bronze);
    // its own file in its own tier is no obstacle
    let plan = s.plan_promote("p", "bronze", &taken).unwrap();
    assert_eq!(plan.to, plan.from);
    // other names in the target directory are fine
    assert!(s.plan_promote("p", "gold", &vec!["other.jpg".to_string()]).is_ok());
}

#[test]
fn listing_is_most_recently_updated_first() {
    let mut s = store();
    for (id, hash, at) in [("a", "h1", 5), ("b", "h2", 9), ("c", "h3", 5), ("d", "h4", 7)] {
        s.insert(Photo {
            id: id.to_string(),
            original_path: "o".to_string(),
            storage_path: format!("data/media/bronze/{id}.jpg"),
            tier: Tier::Bronze,
            hash: hash.to_string(),
            created_at: 1,
            updated_at: at,
            deleted_at: None,
        })
        .unwrap();
    }
    let ids: Vec<String> = s.list_active().into_iter().map(|p| p.id).collect();
    assert_eq!(ids, vec!["b", "d", "a", "c"]);
    promote(&mut s, "a", "gold", 20).unwrap();
    let ids: Vec<String> = s.list_active().into_iter().map(|p| p.id).collect();
    assert_eq!(ids, vec!["a", "b", "d", "c"]);
}

#[test]
fn active_rows_must_sit_in_their_tier_directory() {
    let mut s = store();
    let row = |id: &str, path: &str, tier: Tier, deleted: Option<i64>| Photo {
        id: id.to_string(),
        original_path: "o".to_string(),
        storage_path: path.to_string(),
        tier,
        hash: id.to_string(),
        created_at: 1,
        updated_at: 1,
        deleted_at: deleted,
    };
    assert_eq!(s.insert(row("a", "elsewhere/x.jpg", Tier::Bronze, None)), Err(StoreError::InvalidPath));
    assert_eq!(s.insert(row("b", "data/media/gold/x.jpg", Tier::Bronze, None)), Err(StoreError::InvalidPath));
    assert_eq!(s.insert(row("c", "data/media/gold/x.jpg", Tier::Gold, None)), Ok(()));
    // a trashed row lives in the trash
    assert_eq!(s.insert(row("d", "data/trash/y.jpg", Tier::Silver, Some(3))), Ok(()));
    let forged = PromotePlan {
        id: "c".to_string(),
        from: "data/media/gold/x.jpg".to_string(),
        to: "data/media/bronze/x.jpg".to_string(),
        tier: Tier::Silver,
    };
    assert_eq!(s.commit_promote(&forged, 9), Err(StoreError::InvalidPath));
    assert_eq!(s.get("c").unwrap().tier, Tier::Gold);
}
