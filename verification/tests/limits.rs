use ankicollab::clock::Timestamp;
use ankicollab::rate_limiter::{
    share_of, storage_limit, ClientIp, QuotaRow, RateLimiter, StorageMonitor, MAX_STORAGE_BYTES,
    MAX_USER_STORAGE_BYTES,
};

const DAY: i64 = 86_400;

fn at(day: i64) -> Timestamp {
    Timestamp { secs: day * DAY + 3600, nanos: 0 }
}

fn limiter() -> RateLimiter {
    RateLimiter::new(0, 1_000_000_000_000, at(0))
}

const HOME: ClientIp = ClientIp::V4(0x7f00_0001);
const ELSEWHERE: ClientIp = ClientIp::V6(1);

#[test]
fn days_are_counted_in_utc() {
    let before = Timestamp { secs: DAY - 1, nanos: 999_999_999 };
    let after = Timestamp { secs: DAY, nanos: 0 };
    assert!(after.is_on_later_day(&before));
    assert!(!before.is_on_later_day(&after));
    assert!(!before.is_on_later_day(&before));
    let first = Timestamp { secs: -1, nanos: 0 };
    let second = Timestamp { secs: 0, nanos: 0 };
    assert!(second.is_on_later_day(&first));
    assert!(!Timestamp { secs: -1, nanos: 0 }.is_on_later_day(&Timestamp { secs: -DAY, nanos: 0 }));
}

#[test]
fn moments_are_moved() {
    assert_eq!(at(0).plus_days(30), at(30));
    assert_eq!(
        Timestamp { secs: 5, nanos: 7 }.plus_minutes(15),
        Timestamp { secs: 905, nanos: 7 }
    );
}

#[test]
fn months_of_the_calendar() {
    let end_of_january = Timestamp { secs: 31 * DAY - 1, nanos: 0 };
    let february = Timestamp { secs: 31 * DAY, nanos: 0 };
    assert!(february.is_in_other_month(&end_of_january));
    assert!(!end_of_january.is_in_other_month(&at(0)));
    let same_month_next_year = Timestamp { secs: 365 * DAY, nanos: 0 };
    assert!(same_month_next_year.is_in_other_month(&at(0)));
}

#[test]
fn settings_of_the_storage_limit() {
    assert_eq!(storage_limit(None), MAX_STORAGE_BYTES);
    assert_eq!(storage_limit(Some("12345")), 12345);
    assert_eq!(storage_limit(Some("+7")), 7);
    assert_eq!(storage_limit(Some("007")), 7);
    assert_eq!(storage_limit(Some("")), MAX_STORAGE_BYTES);
    assert_eq!(storage_limit(Some("+")), MAX_STORAGE_BYTES);
    assert_eq!(storage_limit(Some("-1")), MAX_STORAGE_BYTES);
    assert_eq!(storage_limit(Some("12 ")), MAX_STORAGE_BYTES);
    assert_eq!(storage_limit(Some("18446744073709551615")), u64::MAX);
    assert_eq!(storage_limit(Some("18446744073709551616")), MAX_STORAGE_BYTES);
    assert_eq!(MAX_STORAGE_BYTES, 536_870_912_000);
}

#[test]
fn a_new_monitor_knows_the_thresholds_passed() {
    assert_eq!(StorageMonitor::new(0, 100).last_announced(), 0);
    assert_eq!(StorageMonitor::new(24, 100).last_announced(), 10);
    assert_eq!(StorageMonitor::new(80, 100).last_announced(), 80);
    let full = StorageMonitor::new(100, 100);
    assert_eq!(full.last_announced(), 98);
    assert!(!full.get_usage().2);
    assert!(!StorageMonitor::new(0, 0).get_usage().2);
    assert_eq!(StorageMonitor::new(0, 0).last_announced(), 0);
    assert!(!StorageMonitor::new(5, 0).get_usage().2);
    assert_eq!(StorageMonitor::new(5, 0).last_announced(), 98);
    assert_eq!(StorageMonitor::new(7, 7).get_usage(), (7, 7, false));
    assert_eq!(StorageMonitor::new(u64::MAX, 1).last_announced(), 98);
    assert!(StorageMonitor::new(99, 100).get_usage().2);
}

#[test]
fn thresholds_are_announced_one_by_one() {
    let mut monitor = StorageMonitor::new(0, 100);
    assert!(monitor.check_operation(60));
    assert_eq!(monitor.last_announced(), 10);
    assert!(monitor.check_operation(60));
    assert_eq!(monitor.last_announced(), 25);
    assert!(monitor.check_operation(60));
    assert_eq!(monitor.last_announced(), 50);
    assert!(monitor.check_operation(60));
    assert_eq!(monitor.last_announced(), 50);
    assert_eq!(monitor.get_usage(), (0, 100, true));
}

#[test]
fn an_overfull_storage_closes_for_good() {
    let mut monitor = StorageMonitor::new(50, 100);
    assert!(monitor.check_operation(50));
    assert!(!monitor.check_operation(51));
    assert_eq!(monitor.get_usage(), (50, 100, false));
    assert!(!monitor.check_operation(0));
    assert!(!monitor.check_operation(1));
}

#[test]
fn stored_bytes_are_tracked() {
    let mut monitor = StorageMonitor::new(1, 100);
    monitor.track_operation(41);
    assert_eq!(monitor.get_usage(), (42, 100, true));
    monitor.track_operation(u64::MAX);
    assert_eq!(monitor.get_usage().0, 41);
    let mut limiter = limiter();
    limiter.storage_monitor().track_operation(9);
    assert_eq!(limiter.storage_monitor().get_usage().0, 9);
    let handle = limiter.storage_monitor();
    handle.track_operation(1);
    assert!(!handle.check_operation(u64::MAX - 10));
    let seen = handle.get_usage();
    assert_eq!(limiter.storage_monitor().get_usage(), seen);
    assert_eq!((seen.0, seen.2), (10, false));
}

#[test]
fn downloads_stay_below_the_daily_limit() {
    let mut limiter = limiter();
    assert!(limiter.check_user_download_allowed(1, HOME, 49_999, at(0)));
    limiter.track_user_download(1, HOME, 49_999);
    assert!(!limiter.check_user_download_allowed(1, HOME, 1, at(0)));
    assert!(limiter.check_user_download_allowed(1, HOME, 0, at(0)));
    assert!(!limiter.check_user_download_allowed(2, HOME, 1, at(0)));
    assert!(!limiter.check_user_download_allowed(1, ELSEWHERE, 1, at(0)));
    assert!(limiter.check_user_download_allowed(2, ELSEWHERE, 1, at(0)));
    assert_eq!(limiter.get_user_quota(1).unwrap().downloads_today, 49_999);
}

#[test]
fn uploads_stay_below_the_daily_limit() {
    let mut limiter = limiter();
    assert!(!limiter.check_user_upload_allowed(1, HOME, 20_000, 0, at(0)));
    assert!(limiter.check_user_upload_allowed(1, HOME, 19_999, 5, at(0)));
    limiter.track_user_upload(1, HOME, 5, 19_998);
    assert!(!limiter.check_user_upload_allowed(1, HOME, 2, 0, at(0)));
    assert!(limiter.check_user_upload_allowed(1, HOME, 1, 0, at(0)));
    let info = limiter.get_user_quota(1).unwrap();
    assert_eq!((info.storage_used, info.uploads_today), (5, 19_998));
    assert_eq!(info.storage_limit, MAX_USER_STORAGE_BYTES);
    assert_eq!(limiter.get_user_quota(2), None);
}

#[test]
fn a_users_storage_is_limited() {
    let mut limiter = limiter();
    assert!(limiter.check_user_upload_allowed(1, HOME, 1, MAX_USER_STORAGE_BYTES, at(0)));
    assert!(!limiter.check_user_upload_allowed(1, HOME, 1, MAX_USER_STORAGE_BYTES + 1, at(0)));
    limiter.track_user_upload(1, HOME, MAX_USER_STORAGE_BYTES, 1);
    assert!(!limiter.check_user_upload_allowed(1, HOME, 1, 1, at(0)));
    assert!(!limiter.check_user_upload_allowed(1, HOME, 1, 1, at(1)));
    assert!(limiter.check_user_upload_allowed(1, HOME, 1, 0, at(1)));
}

#[test]
fn a_new_day_begins_at_zero() {
    let mut limiter = limiter();
    assert!(limiter.check_user_download_allowed(1, HOME, 10, at(0)));
    limiter.track_user_download(1, HOME, 40_000);
    assert!(!limiter.check_user_download_allowed(1, HOME, 10_000, at(0)));
    assert!(limiter.check_user_download_allowed(1, HOME, 10_000, at(1)));
    assert_eq!(limiter.get_user_quota(1).unwrap().downloads_today, 0);
    assert!(limiter.check_user_download_allowed(1, HOME, 49_999, at(0)));
}

#[test]
fn nothing_is_counted_for_who_was_never_seen() {
    let mut limiter = limiter();
    limiter.track_user_download(1, HOME, 49_999);
    limiter.track_user_upload(1, HOME, 7, 7);
    assert_eq!(limiter.get_user_quota(1), None);
    assert!(limiter.check_user_download_allowed(1, HOME, 49_999, at(0)));
}

#[test]
fn an_address_has_limits_of_its_own() {
    let mut limiter = limiter();
    assert!(limiter.check_ip_download_allowed(HOME, 49_999, at(0)));
    assert!(!limiter.check_ip_download_allowed(HOME, 50_000, at(0)));
    assert!(limiter.check_ip_upload_allowed(HOME, 19_999, 0, at(0)));
    assert!(!limiter.check_ip_upload_allowed(HOME, 20_000, 0, at(0)));
}

#[test]
fn counts_that_would_leave_their_range_are_noticed() {
    let mut limiter = limiter();
    assert!(limiter.downloads_countable(1, HOME, u32::MAX, at(0)));
    assert!(limiter.check_ip_download_allowed(HOME, 1, at(0)));
    limiter.track_user_download(1, HOME, 1);
    assert!(!limiter.downloads_countable(1, HOME, u32::MAX, at(0)));
    assert!(limiter.downloads_countable(1, HOME, u32::MAX, at(1)));
    assert!(limiter.download_trackable(HOME, u32::MAX - 1));
    assert!(!limiter.download_trackable(HOME, u32::MAX));
    assert!(limiter.download_trackable(ELSEWHERE, u32::MAX));
    limiter.track_user_upload(1, HOME, 0, 2);
    assert!(limiter.upload_trackable(HOME, u32::MAX - 2));
    assert!(!limiter.upload_trackable(HOME, u32::MAX - 1));
    assert!(limiter.upload_trackable(ELSEWHERE, u32::MAX));
    assert!(limiter.uploads_countable(1, HOME, u32::MAX, u64::MAX, at(1)));
    limiter.storage_monitor().track_operation(1);
    assert!(!limiter.uploads_countable(1, HOME, 1, u64::MAX, at(0)));
    assert!(limiter.uploads_countable(1, HOME, u32::MAX, u64::MAX - 1, at(0)));
    let closed = RateLimiter::new(100, 100, at(0));
    assert!(closed.uploads_countable(1, HOME, u32::MAX, u64::MAX, at(0)));
}

#[test]
fn operations_are_counted_by_the_month() {
    let mut limiter = limiter();
    assert!(limiter.check_global_operation());
    assert!(limiter.check_ip_download_allowed(HOME, 1, at(0)));
    assert!(limiter.check_user_download_allowed(1, HOME, 1, at(0)));
    assert_eq!(limiter.operations(), 3);
    assert!(!limiter.run_hourly_upkeep(at(30)));
    assert_eq!(limiter.operations(), 3);
    assert!(limiter.run_hourly_upkeep(at(31)));
    assert_eq!(limiter.operations(), 0);
    assert!(!limiter.run_hourly_upkeep(at(32)));
}

#[test]
fn upkeep_forgets_only_past_days() {
    let mut limiter = limiter();
    assert!(limiter.check_ip_download_allowed(HOME, 1, at(0)));
    assert!(limiter.check_ip_download_allowed(ELSEWHERE, 1, at(1)));
    limiter.track_user_download(1, HOME, 49_999);
    limiter.track_user_download(1, ELSEWHERE, 49_999);
    limiter.run_hourly_upkeep(at(1));
    assert!(!limiter.check_ip_download_allowed(ELSEWHERE, 1, at(1)));
    assert!(limiter.check_ip_download_allowed(HOME, 1, at(0)));
}

#[test]
fn a_closed_storage_refuses_uploads() {
    let mut limiter = RateLimiter::new(90, 100, at(0));
    assert!(!limiter.check_user_upload_allowed(1, HOME, 1, 11, at(0)));
    assert!(!limiter.check_user_upload_allowed(1, HOME, 1, 1, at(0)));
    assert!(limiter.check_user_download_allowed(1, HOME, 1, at(0)));
    assert!(!limiter.storage_monitor().get_usage().2);
}

#[test]
fn quotas_survive_the_database() {
    let mut limiter = limiter();
    limiter.check_user_upload_allowed(7, HOME, 3, 100, at(0));
    limiter.track_user_upload(7, HOME, 100, 3);
    limiter.check_user_download_allowed(-2, ELSEWHERE, 5, at(0));
    limiter.track_user_download(-2, ELSEWHERE, 5);
    let mut rows = limiter.persist_user_quotas(at(0));
    rows.sort_by_key(|r| r.user_id);
    assert_eq!(rows.len(), 2);
    assert_eq!(
        rows[1],
        QuotaRow {
            user_id: 7,
            storage_used: 100,
            upload_count: 3,
            download_count: 0,
            last_reset: at(0)
        }
    );
    let mut other = RateLimiter::new(0, 100, at(0));
    other.load_user_quotas(&rows);
    assert_eq!(other.get_user_quota(7), limiter.get_user_quota(7));
    assert_eq!(other.get_user_quota(-2), limiter.get_user_quota(-2));
}

#[test]
fn later_rows_take_the_place_of_earlier_ones() {
    let row = |storage_used: i64| QuotaRow {
        user_id: 1,
        storage_used,
        upload_count: -1,
        download_count: 0,
        last_reset: at(0),
    };
    let mut limiter = limiter();
    limiter.load_user_quotas(&vec![row(1), row(2)]);
    let info = limiter.get_user_quota(1).unwrap();
    assert_eq!(info.storage_used, 2);
    assert_eq!(info.uploads_today, u32::MAX);
}

#[test]
fn shares_in_whole_percent() {
    assert_eq!(share_of(0, 0), None);
    assert_eq!(share_of(1, 0), Some(u64::MAX));
    assert_eq!(share_of(0, 3), Some(0));
    assert_eq!(share_of(2, 3), Some(66));
    assert_eq!(share_of(98, 100), Some(98));
    assert_eq!(share_of(999, 1000), Some(99));
    assert_eq!(share_of(3, 3), Some(100));
    assert_eq!(share_of(u64::MAX - 1, u64::MAX), Some(99));
    assert_eq!(share_of(u64::MAX, 1), Some(u64::MAX));
    assert_eq!(share_of(u64::MAX, 200), Some(u64::MAX / 2));
}
