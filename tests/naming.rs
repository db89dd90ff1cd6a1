use pictallion::naming::{decimal_text, unique_path};
use pictallion::paths::{file_name, join_path};
use pictallion::tier::{all_tiers, is_valid_tier, parse_tier, tier_dir, Tier};

fn names(v: &[&str]) -> Vec<String> {
    v.iter().map(|s| s.to_string()).collect()
}

#[test]
fn free_name_is_kept() {
    assert_eq!(unique_path("data/media/bronze/a.jpg", &names(&["b.jpg"])), "data/media/bronze/a.jpg");
    assert_eq!(unique_path("a.jpg", &vec![]), "a.jpg");
}

#[test]
fn taken_name_gets_first_free_number() {
    assert_eq!(unique_path("dir/a.jpg", &names(&["a.jpg"])), "dir/a (1).jpg");
    assert_eq!(
        unique_path("dir/a.jpg", &names(&["a.jpg", "a (1).jpg", "a (2).jpg"])),
        "dir/a (3).jpg"
    );
    assert_eq!(unique_path("dir/a.jpg", &names(&["a.jpg", "a (2).jpg"])), "dir/a (1).jpg");
}

#[test]
fn extension_handling() {
    assert_eq!(unique_path("d/README", &names(&["README"])), "d/README (1)");
    assert_eq!(unique_path("d/.bashrc", &names(&[".bashrc"])), "d/.bashrc (1)");
    assert_eq!(unique_path("d/a.tar.gz", &names(&["a.tar.gz"])), "d/a.tar (1).gz");
    assert_eq!(unique_path("d/a.", &names(&["a."])), "d/a (1)");
}

#[test]
fn exhausted_probes_fall_back_to_target() {
    let mut taken = names(&["a.jpg"]);
    for i in 1..1000 {
        taken.push(format!("a ({}).jpg", i));
    }
    assert_eq!(unique_path("d/a.jpg", &taken), "d/a.jpg");
    taken.pop();
    assert_eq!(unique_path("d/a.jpg", &taken), "d/a (999).jpg");
}

#[test]
fn repeated_allocation_gives_distinct_paths() {
    let mut taken: Vec<String> = Vec::new();
    let mut got: Vec<String> = Vec::new();
    for _ in 0..5 {
        let p = unique_path("dir/IMG.jpg", &taken);
        assert!(!got.contains(&p));
        taken.push(p.rsplit('/').next().unwrap().to_string());
        got.push(p);
    }
    assert_eq!(got[0], "dir/IMG.jpg");
    assert_eq!(got[4], "dir/IMG (4).jpg");
}

#[test]
fn decimal_text_matches_display() {
    for n in [0u64, 7, 10, 99, 100, 4_294_967_295, u64::MAX] {
        assert_eq!(decimal_text(n), n.to_string());
    }
}

#[test]
fn joins_and_file_names() {
    assert_eq!(join_path("data/media", "gold"), "data/media/gold");
    assert_eq!(join_path("data/media/", "gold"), "data/media/gold");
    assert_eq!(join_path("", "gold"), "gold");
    assert_eq!(file_name("a/b/c.jpg"), Some("c.jpg".to_string()));
    assert_eq!(file_name("c.jpg"), Some("c.jpg".to_string()));
    assert_eq!(file_name("a/b/"), None);
    assert_eq!(file_name("a/.."), None);
    assert_eq!(file_name(""), None);
}

#[test]
fn tiers_are_a_closed_ordered_set() {
    assert_eq!(parse_tier("gold"), Some(Tier::Gold));
    assert_eq!(parse_tier("archive"), Some(Tier::Archive));
    assert_eq!(parse_tier("Gold"), None);
    assert!(is_valid_tier("silver"));
    assert!(!is_valid_tier("platinum"));
    assert_eq!(all_tiers(), vec![Tier::Bronze, Tier::Silver, Tier::Gold, Tier::Archive]);
    assert!(Tier::Bronze.rank() < Tier::Archive.rank());
    assert_eq!(Tier::Silver.name(), "silver");
    assert_eq!(tier_dir("data/media", "bronze"), "data/media/bronze");
}
