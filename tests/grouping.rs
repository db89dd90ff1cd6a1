use pictallion::grouping::{HashedPhoto, PhotoInfo, PhotoManager, TimedPhoto};

fn info(id: &str, path: &str) -> PhotoInfo {
    PhotoInfo { id: id.to_string(), file_path: path.to_string(), tier: "bronze".to_string() }
}

fn timed(id: &str, path: &str, modified: u64) -> TimedPhoto {
    TimedPhoto { photo: info(id, path), modified }
}

fn ids(groups: &[Vec<PhotoInfo>]) -> Vec<Vec<String>> {
    groups.iter().map(|g| g.iter().map(|p| p.id.clone()).collect()).collect()
}

#[test]
fn scenario_burst_of_two_and_singleton() {
    let photos = vec![
        timed("1", "m/IMG_001.jpg", 0),
        timed("2", "m/IMG_002.jpg", 5),
        timed("3", "m/IMG_999.jpg", 5000),
    ];
    let groups = PhotoManager::detect_bursts(&photos);
    assert_eq!(ids(&groups), vec![vec!["1", "2"]]);
    assert_eq!(groups[0][0].file_path, "m/IMG_001.jpg");
}

#[test]
fn bursts_follow_time_order_not_input_order() {
    let photos = vec![
        timed("c", "x/IMG_3.jpg", 108),
        timed("a", "x/IMG_1.jpg", 100),
        timed("b", "x/IMG_2.jpg", 104),
    ];
    assert_eq!(ids(&PhotoManager::detect_bursts(&photos)), vec![vec!["a", "b", "c"]]);
}

#[test]
fn bursts_break_on_prefix_or_gap() {
    let photos = vec![
        timed("a", "x/IMG_1.jpg", 0),
        timed("b", "x/DSC_1.jpg", 1),
        timed("c", "x/DSC_2.jpg", 11),
        timed("d", "x/DSC_3.jpg", 22),
        timed("e", "x/DSC_4.jpg", 23),
    ];
    assert_eq!(ids(&PhotoManager::detect_bursts(&photos)), vec![vec!["b", "c"], vec!["d", "e"]]);
    assert!(PhotoManager::detect_bursts(&vec![]).is_empty());
}

#[test]
fn prefix_uses_file_name_only() {
    let photos = vec![timed("a", "my_dir/IMG_1.jpg", 0), timed("b", "other/IMG_2.jpg", 3)];
    assert_eq!(ids(&PhotoManager::detect_bursts(&photos)), vec![vec!["a", "b"]]);
}

fn hashed(id: &str, digest: &str) -> HashedPhoto {
    HashedPhoto { photo: info(id, &format!("p/{}.jpg", id)), digest: digest.to_string() }
}

#[test]
fn duplicates_grouped_by_digest() {
    let photos = vec![
        hashed("a", "h1"),
        hashed("b", "h2"),
        hashed("c", "h1"),
        hashed("d", "h3"),
        hashed("e", "h2"),
        hashed("f", "h1"),
    ];
    assert_eq!(
        ids(&PhotoManager::detect_duplicates(&photos)),
        vec![vec!["a", "c", "f"], vec!["b", "e"]]
    );
}

#[test]
fn no_duplicates_among_distinct() {
    let photos = vec![hashed("a", "h1"), hashed("b", "h2")];
    assert!(PhotoManager::detect_duplicates(&photos).is_empty());
    assert!(PhotoManager::detect_duplicates(&vec![]).is_empty());
}
