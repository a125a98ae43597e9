use keyr::counts::{hour_floor, KeystrokesStats};
use keyr::local::LocalStore;
use keyr::counts::StoreError;
use keyr::types::Summary;

const TEN: i64 = 1_599_998_400;
const ELEVEN: i64 = TEN + 3600;

#[test]
fn zero_delta_creates_no_row() {
    let mut s = LocalStore::new();
    assert_eq!(s.upsert_hour_count(TEN, 0), Ok(0));
    assert!(s.staging_area().is_empty());
    s.upsert_hour_count(TEN, 4).unwrap();
    assert_eq!(s.upsert_hour_count(TEN, 0), Ok(0));
    assert_eq!(s.staging_area(), vec![(TEN, 4)]);
}

#[test]
fn upsert_truncates_to_the_hour_and_accumulates() {
    let mut s = LocalStore::new();
    assert_eq!(s.upsert_hour_count(TEN + 59 * 60 + 59, 5), Ok(5));
    assert_eq!(s.upsert_hour_count(TEN + 1, 2), Ok(7));
    assert_eq!(s.upsert_hour_count(ELEVEN, 3), Ok(3));
    assert_eq!(s.staging_area(), vec![(TEN, 7), (ELEVEN, 3)]);
    assert_eq!(s.get_global_count(), 10);
}

#[test]
fn hour_floor_of_negative_timestamps() {
    assert_eq!(hour_floor(-1), Some(-3600));
    assert_eq!(hour_floor(-3600), Some(-3600));
    assert_eq!(hour_floor(3599), Some(0));
    assert_eq!(hour_floor(i64::MIN), None);
}

#[test]
fn upsert_rejects_an_hour_out_of_range() {
    let mut s = LocalStore::new();
    assert_eq!(s.upsert_hour_count(i64::MIN + 1, 1), Err(StoreError::InvalidTimestamp));
    assert!(s.staging_area().is_empty());
}

#[test]
fn upsert_rejects_an_hour_count_overflow() {
    let mut s = LocalStore::new();
    s.upsert_hour_count(TEN, u32::MAX).unwrap();
    assert_eq!(s.upsert_hour_count(TEN, 1), Err(StoreError::CountOverflow));
    assert_eq!(s.staging_area(), vec![(TEN, u32::MAX)]);
}

#[test]
fn upsert_rejects_a_global_count_overflow() {
    let mut s = LocalStore::new();
    s.set_summary(TEN, u64::MAX - 1, TEN, 0).unwrap();
    assert_eq!(s.upsert_hour_count(TEN, 2), Err(StoreError::CountOverflow));
    assert_eq!(s.upsert_hour_count(TEN, 1), Ok(1));
    assert_eq!(s.get_global_count(), u64::MAX);
}

#[test]
fn counts_combine_staging_and_summary() {
    let mut s = LocalStore::new();
    s.upsert_hour_count(TEN - 86_400, 100).unwrap();
    s.upsert_hour_count(TEN, 5).unwrap();
    s.upsert_hour_count(ELEVEN, 3).unwrap();
    assert_eq!(s.get_global_count(), 108);
    assert_eq!(s.get_today_count(TEN), 8);
    s.set_summary(TEN - 7 * 86_400, 1000, TEN, 20).unwrap();
    assert_eq!(s.get_global_count(), 1108);
    assert_eq!(s.get_today_count(TEN), 28);
    assert_eq!(s.get_today_count(ELEVEN), 3);
}

#[test]
fn absent_rows_count_zero() {
    let s = LocalStore::new();
    assert_eq!(s.get_global_count(), 0);
    assert_eq!(s.get_today_count(TEN), 0);
    assert_eq!(s.summary(), None);
}

#[test]
fn set_summary_replaces_and_drop_summary_forgets() {
    let mut s = LocalStore::new();
    s.set_summary(1, 2, 3, 4).unwrap();
    s.set_summary(TEN, 50, TEN, 10).unwrap();
    assert_eq!(
        s.summary(),
        Some(Summary { oldest_timestamp: TEN, global_count: 50, today_timestamp: TEN, today_count: 10 })
    );
    s.drop_summary();
    assert_eq!(s.summary(), None);
    assert_eq!(s.get_global_count(), 0);
}

#[test]
fn set_summary_rejects_an_overflow() {
    let mut s = LocalStore::new();
    s.upsert_hour_count(TEN, 1).unwrap();
    assert_eq!(s.set_summary(TEN, u64::MAX, TEN, 0), Err(StoreError::CountOverflow));
    assert_eq!(s.summary(), None);
}

#[test]
fn failed_commit_keeps_the_staging_area() {
    let mut s = LocalStore::new();
    s.upsert_hour_count(TEN, 5).unwrap();
    s.set_summary(TEN - 3600, 7, TEN, 0).unwrap();
    let before = s.get_global_count();
    let r: Result<Summary, &str> = s.commit(TEN, |req| {
        assert_eq!(req.staging_area, vec![(TEN, 5)]);
        assert_eq!(req.today, TEN);
        Err("hub unreachable")
    });
    assert_eq!(r, Err("hub unreachable"));
    assert_eq!(s.get_global_count(), before);
    assert_eq!(s.get_today_count(TEN), 5);
    assert_eq!(s.staging_area(), vec![(TEN, 5)]);
}

#[test]
fn successful_commit_clears_and_stores_the_summary() {
    let mut s = LocalStore::new();
    s.upsert_hour_count(TEN, 5).unwrap();
    let sum = Summary { oldest_timestamp: 0, global_count: 99, today_timestamp: TEN, today_count: 5 };
    let r: Result<Summary, ()> = s.commit(TEN, |_| Ok(sum));
    assert_eq!(r, Ok(sum));
    assert!(s.staging_area().is_empty());
    assert_eq!(s.summary(), Some(sum));
    assert_eq!(s.get_global_count(), 99);
}

#[test]
fn apply_revert_replays_and_drops_the_summary() {
    let mut s = LocalStore::new();
    s.upsert_hour_count(TEN, 1).unwrap();
    s.set_summary(TEN, 40, TEN, 1).unwrap();
    let export: KeystrokesStats = vec![(TEN, 10), (ELEVEN + 17, 30)];
    assert_eq!(s.apply_revert(&export), Ok(()));
    assert_eq!(s.staging_area(), vec![(TEN, 11), (ELEVEN, 30)]);
    assert_eq!(s.summary(), None);
    assert_eq!(s.get_global_count(), 41);
}

#[test]
fn apply_revert_is_all_or_nothing() {
    let mut s = LocalStore::new();
    s.upsert_hour_count(TEN, 1).unwrap();
    s.set_summary(TEN, 40, TEN, 1).unwrap();
    let export: KeystrokesStats = vec![(ELEVEN, 10), (TEN, u32::MAX)];
    assert_eq!(s.apply_revert(&export), Err(StoreError::CountOverflow));
    assert_eq!(s.staging_area(), vec![(TEN, 1)]);
    assert!(s.summary().is_some());
    let bad: KeystrokesStats = vec![(ELEVEN, 1), (i64::MIN, 1)];
    assert_eq!(s.apply_revert(&bad), Err(StoreError::InvalidTimestamp));
    assert_eq!(s.staging_area(), vec![(TEN, 1)]);
}

#[test]
fn from_parts_checks_the_rows() {
    assert!(LocalStore::from_parts(vec![(TEN, 1), (ELEVEN, 2)], None).is_ok());
    assert_eq!(LocalStore::from_parts(vec![(TEN, 1), (TEN, 2)], None).err(), Some(StoreError::MalformedRows));
    assert_eq!(LocalStore::from_parts(vec![(TEN + 1, 1)], None).err(), Some(StoreError::MalformedRows));
    assert_eq!(LocalStore::from_parts(vec![(TEN, 0)], None).err(), Some(StoreError::MalformedRows));
    let sum = Summary { oldest_timestamp: 0, global_count: u64::MAX, today_timestamp: 0, today_count: 0 };
    assert_eq!(LocalStore::from_parts(vec![(TEN, 1)], Some(sum)).err(), Some(StoreError::CountOverflow));
    let s = LocalStore::from_parts(vec![(TEN, 1)], None).unwrap();
    assert_eq!(s.get_global_count(), 1);
}
