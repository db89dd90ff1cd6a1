use pictallion::bulk::tally;
use pictallion::clock::{now_ts, ts_from_reading};

#[test]
fn test_basic_functionality() {
    assert_eq!(2 + 2, 4);
}

#[test]
fn test_log_level_filter() {
    let level = log::LevelFilter::Info;
    assert_eq!(level, log::LevelFilter::Info);
}

#[test]
fn tally_counts_successes_and_failures() {
    let r = tally(&vec![true, false, true, true, false]);
    assert_eq!(r.ok, 3);
    assert_eq!(r.fail, 2);
    let empty = tally(&vec![]);
    assert_eq!((empty.ok, empty.fail), (0, 0));
}

#[test]
fn clock_reads_after_epoch() {
    // 2020-01-01T00:00:00Z
    assert!(now_ts() > 1_577_836_800);
}

#[test]
fn clock_reading_conversion() {
    assert_eq!(ts_from_reading(Some(1_700_000_000)), 1_700_000_000);
    assert_eq!(ts_from_reading(Some(i64::MAX as u64)), i64::MAX);
    assert_eq!(ts_from_reading(Some(u64::MAX)), i64::MAX);
    assert_eq!(ts_from_reading(None), 0);
}
