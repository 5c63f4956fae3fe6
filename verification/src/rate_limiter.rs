//! Limits on storage, on uploads and downloads per day, and on operations per month.
use std::collections::HashMap;
use vstd::prelude::*;

use crate::clock::Timestamp;
use crate::outside;
use crate::text;

verus! {

broadcast use vstd::std_specs::hash::group_hash_axioms;

/// The storage that the service may fill where nothing else is configured.
pub const MAX_STORAGE_BYTES: u64 = 500 * 1024 * 1024 * 1024;

/// The storage that a user may fill.
pub const MAX_USER_STORAGE_BYTES: u64 = 10000 * 1024 * 1024;

/// The uploads of a user or an address on one day stay below this number.
pub const MAX_USER_DAILY_UPLOADS: u32 = 20_000;

/// The downloads of a user or an address on one day stay below this number.
pub const MAX_USER_DAILY_DOWNLOADS: u32 = 50_000;

/// The operations that the service performs in one month.
pub const MAX_MONTHLY_OPERATIONS: u64 = 10_000_000;

/// The address that a request came from.
#[derive(Clone, Copy, Debug, PartialEq, Eq, Structural)]
pub enum ClientIp {
    V4(u32),
    V6(u128),
}

/// What an address has used on the day of `reset_at`.
#[derive(Clone, Copy, Debug, PartialEq, Eq, Structural)]
pub struct IpUsageCounter {
    pub downloads: u32,
    pub uploads: u32,
    pub reset_at: Timestamp,
}

/// What a user has stored, and what the user has used on the day of `last_reset`.
#[derive(Debug, PartialEq, Eq, Structural)]
pub struct UserQuota {
    pub storage_used: u64,
    pub upload_count: u32,
    pub download_count: u32,
    pub last_reset: Timestamp,
}

/// How full the storage is, whether it still takes anything, and which share of it was announced
/// last.
pub struct MonitorState {
    pub enabled: bool,
    pub current_bytes: u64,
    pub max_bytes: u64,
    pub last_logged_percent: u64,
}

/// Watches how full the storage is. There is one monitor of a storage: it is handed on by
/// reference, and there are no copies of it.
#[derive(Debug)]
pub struct StorageMonitor {
    enabled: bool,
    current_bytes: u64,
    max_bytes: u64,
    last_logged_percent: u64,
}

impl View for StorageMonitor {
    type V = MonitorState;

    closed spec fn view(&self) -> MonitorState {
        MonitorState {
            enabled: self.enabled,
            current_bytes: self.current_bytes,
            max_bytes: self.max_bytes,
            last_logged_percent: self.last_logged_percent,
        }
    }
}

/// A user's quota, for reports. The share of the limit in percent is left to the report.
#[derive(Clone, Copy, Debug, PartialEq, Eq, Structural)]
pub struct UserQuotaInfo {
    pub user_id: i32,
    pub storage_used: u64,
    pub storage_limit: u64,
    pub uploads_today: u32,
    pub downloads_today: u32,
}

/// A user's quota as the database holds it.
#[derive(Clone, Copy, Debug, PartialEq, Eq, Structural)]
pub struct QuotaRow {
    pub user_id: i32,
    pub storage_used: i64,
    pub upload_count: i32,
    pub download_count: i32,
    pub last_reset: Timestamp,
}

/// The shares of the storage, in percent, that are announced when they are reached.
pub open spec fn thresholds() -> Seq<u64> {
    seq![10u64, 25, 50, 75, 80, 90, 95, 98]
}

/// The last of the first `n` thresholds that `percent` reaches, or zero.
pub open spec fn last_reached(percent: u64, n: int) -> u64
    decreases n,
{
    if n <= 0 {
        0
    } else if percent >= thresholds()[n - 1] {
        thresholds()[n - 1]
    } else {
        last_reached(percent, n - 1)
    }
}

/// The first threshold from number `n` on that `percent` reaches and that lies above `logged`.
pub open spec fn next_alert(percent: u64, logged: u64, n: int) -> Option<u64>
    decreases thresholds().len() - n,
{
    if n < 0 || n >= thresholds().len() {
        None
    } else if percent >= thresholds()[n] && logged < thresholds()[n] {
        Some(thresholds()[n])
    } else {
        next_alert(percent, logged, n + 1)
    }
}

/// The share of the whole that a part is, in whole percent. There is none where both are nothing,
/// and it is beyond all bounds where only the whole is.
pub open spec fn share(part: u64, whole: u64) -> Option<u64> {
    if whole == 0 {
        if part == 0 {
            None
        } else {
            Some(u64::MAX)
        }
    } else {
        let percent = (100 * part as int) / (whole as int);
        Some(
            if percent < u64::MAX {
                percent as u64
            } else {
                u64::MAX
            },
        )
    }
}

/// The share of the whole that a part is, in whole percent.
pub fn share_of(part: u64, whole: u64) -> (r: Option<u64>)
    ensures
        r == share(part, whole),
{
    if whole == 0 {
        if part == 0 {
            None
        } else {
            Some(u64::MAX)
        }
    } else {
        let percent: u128 = (100 * part as u128) / (whole as u128);
        if percent < u64::MAX as u128 {
            Some(percent as u64)
        } else {
            Some(u64::MAX)
        }
    }
}

/// A share lies below a hundred percent exactly where the part is smaller than the whole.
pub proof fn law_shares_below_a_hundred(part: u64, whole: u64)
    ensures
        (share(part, whole) matches Some(percent) && percent < 100) <==> part < whole,
{
    if whole > 0 {
        let a = 100 * part as int;
        let w = whole as int;
        assert(a / w < 100 <==> a < 100 * w) by (nonlinear_arith)
            requires
                w > 0,
        ;
    }
}

/// The thresholds, as a list.
fn threshold_list() -> (r: Vec<u64>)
    ensures
        r@ == thresholds(),
{
    let r: Vec<u64> = vec![10, 25, 50, 75, 80, 90, 95, 98];
    assert(r@ =~= thresholds());
    r
}

impl MonitorState {
    /// The share of the storage, in whole percent, that is filled with `bytes` more; zero where
    /// there is no such share.
    pub open spec fn percent_with(self, bytes: u64) -> u64 {
        match share((self.current_bytes + bytes) as u64, self.max_bytes) {
            Some(percent) => percent,
            None => 0,
        }
    }

    /// The monitor of a storage that holds `current_bucket_size` bytes. It takes nothing if it is
    /// full already, and the last threshold that it has reached counts as announced.
    pub open spec fn initial(current_bucket_size: u64, max_bytes: u64) -> MonitorState {
        MonitorState {
            enabled: current_bucket_size < max_bytes,
            current_bytes: current_bucket_size,
            max_bytes,
            last_logged_percent: match share(current_bucket_size, max_bytes) {
                Some(percent) => last_reached(percent, thresholds().len() as int),
                None => 0,
            },
        }
    }

    /// The monitor after an operation of `bytes` was asked for.
    pub open spec fn checked(self, bytes: u64) -> MonitorState {
        if !self.enabled {
            self
        } else if self.current_bytes + bytes > self.max_bytes {
            MonitorState { enabled: false, ..self }
        } else {
            match next_alert(self.percent_with(bytes), self.last_logged_percent, 0) {
                Some(threshold) => MonitorState { last_logged_percent: threshold, ..self },
                None => self,
            }
        }
    }

    /// Whether the storage takes `bytes` more.
    pub open spec fn takes(self, bytes: u64) -> bool {
        self.enabled && self.current_bytes + bytes <= self.max_bytes
    }

    /// The monitor after `bytes` were stored.
    pub open spec fn with_stored(self, bytes: u64) -> MonitorState {
        MonitorState { current_bytes: self.current_bytes.wrapping_add(bytes), ..self }
    }
}

impl StorageMonitor {
    /// The monitor of a storage that holds `current_bucket_size` bytes. It takes nothing if it is
    /// full already.
    pub fn new(current_bucket_size: u64, max_bytes: u64) -> (r: Self)
        ensures
            r@ == MonitorState::initial(current_bucket_size, max_bytes),
    {
        proof {
            law_shares_below_a_hundred(current_bucket_size, max_bytes);
        }
        let list = threshold_list();
        let mut last_passed: u64 = 0;
        let mut enabled = false;
        if let Some(p) = share_of(current_bucket_size, max_bytes) {
            enabled = p < 100;
            let mut i: usize = 0;
            while i < list.len()
                invariant
                    list@ == thresholds(),
                    i <= list@.len(),
                    last_passed == last_reached(p, i as int),
                decreases list@.len() - i,
            {
                if p >= list[i] {
                    last_passed = list[i];
                }
                i += 1;
            }
        }
        StorageMonitor {
            enabled,
            current_bytes: current_bucket_size,
            max_bytes,
            last_logged_percent: last_passed,
        }
    }

    /// Whether an operation of `bytes` is allowed. The first one that is too large closes the
    /// storage.
    pub fn check_operation(&mut self, bytes: u64) -> (r: bool)
        requires
            old(self)@.enabled ==> old(self)@.current_bytes + bytes <= u64::MAX,
        ensures
            r == old(self)@.takes(bytes),
            final(self)@ == old(self)@.checked(bytes),
    {
        if !self.enabled {
            return false;
        }
        let new_total: u64 = self.current_bytes + bytes;
        if new_total > self.max_bytes {
            self.enabled = false;
            return false;
        }
        let percent_used: u64 = match share_of(new_total, self.max_bytes) {
            Some(percent) => percent,
            None => 0,
        };
        let list = threshold_list();
        let last_logged = self.last_logged_percent;
        let mut i: usize = 0;
        while i < list.len()
            invariant
                list@ == thresholds(),
                i <= list@.len(),
                *self == *old(self),
                last_logged == old(self).last_logged_percent,
                percent_used == old(self)@.percent_with(bytes),
                old(self)@.takes(bytes),
                next_alert(percent_used, last_logged, 0) == next_alert(
                    percent_used,
                    last_logged,
                    i as int,
                ),
            decreases list@.len() - i,
        {
            if percent_used >= list[i] && last_logged < list[i] {
                self.last_logged_percent = list[i];
                return true;
            }
            i += 1;
        }
        true
    }

    /// Records that `bytes` were stored.
    pub fn track_operation(&mut self, bytes: u64)
        ensures
            final(self)@ == old(self)@.with_stored(bytes),
    {
        self.current_bytes = self.current_bytes.wrapping_add(bytes);
    }

    /// The bytes stored, the bytes that fit, and whether anything is taken. The share in percent
    /// is left to the report.
    pub fn get_usage(&self) -> (r: (u64, u64, bool))
        ensures
            r == (self@.current_bytes, self@.max_bytes, self@.enabled),
    {
        (self.current_bytes, self.max_bytes, self.enabled)
    }

    /// The share of the storage, in percent, that was announced last; zero where none was.
    pub fn last_announced(&self) -> (r: u64)
        ensures
            r == self@.last_logged_percent,
    {
        self.last_logged_percent
    }
}

/// A quota with the same counts.
fn same_quota(quota: &UserQuota) -> (r: UserQuota)
    ensures
        r == *quota,
{
    UserQuota {
        storage_used: quota.storage_used,
        upload_count: quota.upload_count,
        download_count: quota.download_count,
        last_reset: quota.last_reset,
    }
}

/// A counter as of `now`: a new one where there was none, or where its day is over.
pub open spec fn current_counter(counter: Option<IpUsageCounter>, now: Timestamp) -> IpUsageCounter {
    let fresh = IpUsageCounter { downloads: 0, uploads: 0, reset_at: now };
    match counter {
        Some(c) => if now.day() > c.reset_at.day() {
            fresh
        } else {
            c
        },
        None => fresh,
    }
}

/// A quota as of `now`: a new one where there was none; where its day is over, the counts begin
/// again and the storage stays.
pub open spec fn current_quota(quota: Option<UserQuota>, now: Timestamp) -> UserQuota {
    match quota {
        Some(q) => if now.day() > q.last_reset.day() {
            UserQuota { upload_count: 0, download_count: 0, last_reset: now, ..q }
        } else {
            q
        },
        None => UserQuota { storage_used: 0, upload_count: 0, download_count: 0, last_reset: now },
    }
}

/// The value that a map gives to a key, if any.
pub open spec fn lookup<K, V>(m: Map<K, V>, k: K) -> Option<V> {
    if m.contains_key(k) {
        Some(m[k])
    } else {
        None
    }
}

/// The counters of the addresses.
pub struct IpUsage {
    v4: HashMap<u32, IpUsageCounter>,
    v6: HashMap<u128, IpUsageCounter>,
}

impl View for IpUsage {
    type V = Map<ClientIp, IpUsageCounter>;

    closed spec fn view(&self) -> Map<ClientIp, IpUsageCounter> {
        Map::new(
            |ip: ClientIp|
                match ip {
                    ClientIp::V4(a) => self.v4@.contains_key(a),
                    ClientIp::V6(a) => self.v6@.contains_key(a),
                },
            |ip: ClientIp|
                match ip {
                    ClientIp::V4(a) => self.v4@[a],
                    ClientIp::V6(a) => self.v6@[a],
                },
        )
    }
}

impl IpUsage {
    /// No counters.
    pub fn new() -> (r: Self)
        ensures
            r@ == Map::<ClientIp, IpUsageCounter>::empty(),
    {
        let r = IpUsage { v4: HashMap::new(), v6: HashMap::new() };
        assert(r@ =~= Map::<ClientIp, IpUsageCounter>::empty());
        r
    }

    /// The counter of an address.
    pub fn get(&self, ip: ClientIp) -> (r: Option<IpUsageCounter>)
        ensures
            r == lookup(self@, ip),
    {
        match ip {
            ClientIp::V4(a) => match self.v4.get(&a) {
                Some(c) => Some(*c),
                None => None,
            },
            ClientIp::V6(a) => match self.v6.get(&a) {
                Some(c) => Some(*c),
                None => None,
            },
        }
    }

    /// Sets the counter of an address.
    pub fn put(&mut self, ip: ClientIp, counter: IpUsageCounter)
        ensures
            final(self)@ == old(self)@.insert(ip, counter),
    {
        match ip {
            ClientIp::V4(a) => {
                self.v4.insert(a, counter);
            },
            ClientIp::V6(a) => {
                self.v6.insert(a, counter);
            },
        }
        assert(self@ =~= old(self)@.insert(ip, counter));
    }

    /// Drops the counters whose day is over.
    pub fn retain_current(&mut self, now: Timestamp)
        ensures
            final(self)@ == old(self)@.restrict(
                Set::new(|ip: ClientIp| now.day() <= old(self)@[ip].reset_at.day()),
            ),
    {
        let v4 = current_only(&self.v4, now);
        let v6 = current_only(&self.v6, now);
        self.v4 = v4;
        self.v6 = v6;
        assert(self@ =~= old(self)@.restrict(
            Set::new(|ip: ClientIp| now.day() <= old(self)@[ip].reset_at.day()),
        ));
    }
}

/// The counters of `counters` whose day is not over.
fn current_only<K: Copy + Eq + std::hash::Hash>(
    counters: &HashMap<K, IpUsageCounter>,
    now: Timestamp,
) -> (r: HashMap<K, IpUsageCounter>)
    requires
        vstd::std_specs::hash::obeys_key_model::<K>(),
    ensures
        r@ == counters@.restrict(Set::new(|k: K| now.day() <= counters@[k].reset_at.day())),
{
    let mut kept: HashMap<K, IpUsageCounter> = HashMap::new();
    for k in it: counters.keys()
        invariant
            vstd::std_specs::hash::obeys_key_model::<K>(),
            it.seq().unref().to_set() == counters@.dom(),
            it.index() == it.seq().len() ==> forall|k: K| #[trigger]
                counters@.contains_key(k) ==> it.seq().unref().take(it.index()).contains(k),
            kept@ == counters@.restrict(
                Set::new(
                    |k: K|
                        it.seq().unref().take(it.index()).contains(k) && now.day()
                            <= counters@[k].reset_at.day(),
                ),
            ),
    {
        let ghost keys = it.seq().unref();
        let ghost n = it.index();
        assert(keys[n] == *k);
        assert(keys.to_set().contains(*k));
        assert(keys.take(n + 1) =~= keys.take(n).push(*k));
        assert forall|x: K| #[trigger]
            keys.take(n + 1).contains(x) <==> x == *k || keys.take(n).contains(x) by {
            vstd::seq_lib::lemma_seq_contains_after_push(keys.take(n), *k, x);
        }
        assert(n + 1 == keys.len() ==> keys.take(n + 1) =~= keys);
        assert forall|x: K| #[trigger] counters@.contains_key(x) implies keys.contains(x) by {
            assert(keys.to_set().contains(x));
        }
        if let Some(c) = counters.get(k) {
            if !now.is_on_later_day(&c.reset_at) {
                kept.insert(*k, *c);
            }
        }
        assert(kept@ =~= counters@.restrict(
            Set::new(
                |k: K| keys.take(n + 1).contains(k) && now.day() <= counters@[k].reset_at.day(),
            ),
        ));
    }
    assert(kept@ =~= counters@.restrict(
        Set::new(|k: K| now.day() <= counters@[k].reset_at.day()),
    ));
    kept
}

/// What has been used of the limits.
pub struct Usage {
    pub monitor: MonitorState,
    pub operations: u64,
    pub operations_since: Timestamp,
    pub ips: Map<ClientIp, IpUsageCounter>,
    pub quotas: Map<i32, UserQuota>,
}

impl Usage {
    /// The counter of an address as of `now`.
    pub open spec fn counter_at(self, ip: ClientIp, now: Timestamp) -> IpUsageCounter {
        current_counter(lookup(self.ips, ip), now)
    }

    /// The quota of a user as of `now`.
    pub open spec fn quota_at(self, user_id: i32, now: Timestamp) -> UserQuota {
        current_quota(lookup(self.quotas, user_id), now)
    }

    /// Whether the month has room for another operation.
    pub open spec fn month_has_room(self) -> bool {
        self.operations < MAX_MONTHLY_OPERATIONS
    }

    /// The usage with one more operation.
    pub open spec fn with_operation(self) -> Usage {
        Usage { operations: self.operations.wrapping_add(1), ..self }
    }

    /// Whether an address may download `file_count` files.
    pub open spec fn ip_may_download(self, ip: ClientIp, file_count: u32, now: Timestamp) -> bool {
        self.month_has_room() && self.counter_at(ip, now).downloads + file_count
            < MAX_USER_DAILY_DOWNLOADS
    }

    /// The usage after an address asked to download: an operation is counted, and where the month
    /// has room for it, the address has a counter of the day.
    pub open spec fn ip_download_checked(self, ip: ClientIp, now: Timestamp) -> Usage {
        if self.month_has_room() {
            Usage {
                ips: self.ips.insert(ip, self.counter_at(ip, now)),
                ..self.with_operation()
            }
        } else {
            self.with_operation()
        }
    }

    /// Whether a user may download `file_count` files from an address.
    pub open spec fn user_may_download(
        self,
        user_id: i32,
        ip: ClientIp,
        file_count: u32,
        now: Timestamp,
    ) -> bool {
        self.ip_may_download(ip, file_count, now) && self.quota_at(user_id, now).download_count
            + file_count < MAX_USER_DAILY_DOWNLOADS
    }

    /// The usage after a user asked to download from an address: as after the address asked;
    /// where the address may download, the user has a quota of the day.
    pub open spec fn user_download_checked(
        self,
        user_id: i32,
        ip: ClientIp,
        file_count: u32,
        now: Timestamp,
    ) -> Usage {
        let checked = self.ip_download_checked(ip, now);
        if self.ip_may_download(ip, file_count, now) {
            Usage {
                quotas: self.quotas.insert(user_id, self.quota_at(user_id, now)),
                ..checked
            }
        } else {
            checked
        }
    }

    /// Whether an address may upload `file_count` files of `bytes`.
    pub open spec fn ip_may_upload(
        self,
        ip: ClientIp,
        file_count: u32,
        bytes: u64,
        now: Timestamp,
    ) -> bool {
        self.month_has_room() && self.monitor.takes(bytes) && self.counter_at(ip, now).uploads
            + file_count < MAX_USER_DAILY_UPLOADS
    }

    /// The usage after an address asked to upload `bytes`: an operation is counted; where the month
    /// has room for it, the storage has been asked; where that takes the bytes, the address has a
    /// counter of the day.
    pub open spec fn ip_upload_checked(self, ip: ClientIp, bytes: u64, now: Timestamp) -> Usage {
        if self.month_has_room() {
            Usage {
                monitor: self.monitor.checked(bytes),
                ips: if self.monitor.takes(bytes) {
                    self.ips.insert(ip, self.counter_at(ip, now))
                } else {
                    self.ips
                },
                ..self.with_operation()
            }
        } else {
            self.with_operation()
        }
    }

    /// Whether a user may upload `file_count` files of `bytes` from an address.
    pub open spec fn user_may_upload(
        self,
        user_id: i32,
        ip: ClientIp,
        file_count: u32,
        bytes: u64,
        now: Timestamp,
    ) -> bool {
        let quota = self.quota_at(user_id, now);
        &&& self.ip_may_upload(ip, file_count, bytes, now)
        &&& quota.storage_used + bytes <= MAX_USER_STORAGE_BYTES
        &&& quota.upload_count + file_count < MAX_USER_DAILY_UPLOADS
    }

    /// The usage after a user asked to upload from an address: as after the address asked; where
    /// the address may upload, the user has a quota of the day.
    pub open spec fn user_upload_checked(
        self,
        user_id: i32,
        ip: ClientIp,
        file_count: u32,
        bytes: u64,
        now: Timestamp,
    ) -> Usage {
        let checked = self.ip_upload_checked(ip, bytes, now);
        if self.ip_may_upload(ip, file_count, bytes, now) {
            Usage {
                quotas: self.quotas.insert(user_id, self.quota_at(user_id, now)),
                ..checked
            }
        } else {
            checked
        }
    }

    /// The usage after an upload was counted, for a user and an address that have been seen
    /// before.
    pub open spec fn upload_tracked(
        self,
        user_id: i32,
        ip: ClientIp,
        bytes: u64,
        file_count: u32,
    ) -> Usage {
        Usage {
            quotas: match lookup(self.quotas, user_id) {
                Some(q) => self.quotas.insert(
                    user_id,
                    UserQuota {
                        storage_used: q.storage_used.wrapping_add(bytes),
                        upload_count: q.upload_count.wrapping_add(file_count),
                        ..q
                    },
                ),
                None => self.quotas,
            },
            ips: match lookup(self.ips, ip) {
                Some(c) => self.ips.insert(
                    ip,
                    IpUsageCounter { uploads: (c.uploads + file_count) as u32, ..c },
                ),
                None => self.ips,
            },
            ..self
        }
    }

    /// The usage after a download was counted, for a user and an address that have been seen
    /// before.
    pub open spec fn download_tracked(
        self,
        user_id: i32,
        ip: ClientIp,
        file_count: u32,
    ) -> Usage {
        Usage {
            quotas: match lookup(self.quotas, user_id) {
                Some(q) => self.quotas.insert(
                    user_id,
                    UserQuota { download_count: q.download_count.wrapping_add(file_count), ..q },
                ),
                None => self.quotas,
            },
            ips: match lookup(self.ips, ip) {
                Some(c) => self.ips.insert(
                    ip,
                    IpUsageCounter { downloads: (c.downloads + file_count) as u32, ..c },
                ),
                None => self.ips,
            },
            ..self
        }
    }

    /// Whether `file_count` downloads can be added to the count of an address without leaving its
    /// range, if it comes to that.
    pub open spec fn ip_downloads_fit(self, ip: ClientIp, file_count: u32, now: Timestamp) -> bool {
        self.month_has_room() ==> self.counter_at(ip, now).downloads + file_count <= u32::MAX
    }

    /// Whether `file_count` downloads can be added to the counts without leaving their range, as
    /// far as it comes to that.
    pub open spec fn can_count_downloads(
        self,
        user_id: i32,
        ip: ClientIp,
        file_count: u32,
        now: Timestamp,
    ) -> bool {
        &&& self.ip_downloads_fit(ip, file_count, now)
        &&& self.ip_may_download(ip, file_count, now) ==> self.quota_at(
            user_id,
            now,
        ).download_count + file_count <= u32::MAX
    }

    /// Whether `bytes` can be added to what is stored, and `file_count` uploads to the count of an
    /// address, without leaving the range, as far as it comes to that.
    pub open spec fn ip_uploads_fit(
        self,
        ip: ClientIp,
        file_count: u32,
        bytes: u64,
        now: Timestamp,
    ) -> bool {
        self.month_has_room() ==> {
            &&& self.monitor.enabled ==> self.monitor.current_bytes + bytes <= u64::MAX
            &&& self.monitor.takes(bytes) ==> self.counter_at(ip, now).uploads + file_count
                <= u32::MAX
        }
    }

    /// Whether `file_count` uploads of `bytes` can be added to the counts without leaving their
    /// range, as far as it comes to that.
    pub open spec fn can_count_uploads(
        self,
        user_id: i32,
        ip: ClientIp,
        file_count: u32,
        bytes: u64,
        now: Timestamp,
    ) -> bool {
        let quota = self.quota_at(user_id, now);
        &&& self.ip_uploads_fit(ip, file_count, bytes, now)
        &&& self.ip_may_upload(ip, file_count, bytes, now) ==> quota.storage_used + bytes
            <= u64::MAX && (quota.storage_used + bytes <= MAX_USER_STORAGE_BYTES
            ==> quota.upload_count + file_count <= u32::MAX)
    }

    /// The usage after the hourly upkeep: the counters of past days are gone, and in a new month
    /// the count of operations begins again.
    pub open spec fn upkept(self, now: Timestamp) -> Usage {
        let ips = self.ips.restrict(
            Set::new(|ip: ClientIp| now.day() <= self.ips[ip].reset_at.day()),
        );
        if outside::calendar_month(now.secs as int) != outside::calendar_month(
            self.operations_since.secs as int,
        ) {
            Usage { ips, operations: 0, operations_since: now, ..self }
        } else {
            Usage { ips, ..self }
        }
    }

    /// No count and no user's storage has reached its limit.
    pub open spec fn within_limits(self) -> bool {
        &&& forall|ip: ClientIp| #[trigger]
            self.ips.contains_key(ip) ==> self.ips[ip].downloads < MAX_USER_DAILY_DOWNLOADS
                && self.ips[ip].uploads < MAX_USER_DAILY_UPLOADS
        &&& forall|user_id: i32| #[trigger]
            self.quotas.contains_key(user_id) ==> self.quotas[user_id].download_count
                < MAX_USER_DAILY_DOWNLOADS && self.quotas[user_id].upload_count
                < MAX_USER_DAILY_UPLOADS && self.quotas[user_id].storage_used
                <= MAX_USER_STORAGE_BYTES
    }
}

/// A quota as it is written to the database at `now`.
pub open spec fn quota_row(user_id: i32, quota: UserQuota, now: Timestamp) -> QuotaRow {
    QuotaRow {
        user_id,
        storage_used: quota.storage_used as i64,
        upload_count: quota.upload_count as i32,
        download_count: quota.download_count as i32,
        last_reset: now,
    }
}

/// A quota as it is read from the database.
pub open spec fn stored_quota(row: QuotaRow) -> UserQuota {
    UserQuota {
        storage_used: row.storage_used as u64,
        upload_count: row.upload_count as u32,
        download_count: row.download_count as u32,
        last_reset: row.last_reset,
    }
}

/// The quotas after some rows were read into them, in order.
pub open spec fn quotas_with_rows(
    quotas: Map<i32, UserQuota>,
    rows: Seq<QuotaRow>,
) -> Map<i32, UserQuota>
    decreases rows.len(),
{
    if rows.len() == 0 {
        quotas
    } else {
        quotas_with_rows(quotas, rows.drop_last()).insert(
            rows.last().user_id,
            stored_quota(rows.last()),
        )
    }
}

/// `rows` holds one row for each quota, and nothing else.
pub open spec fn are_rows_of(
    rows: Seq<QuotaRow>,
    quotas: Map<i32, UserQuota>,
    now: Timestamp,
) -> bool {
    &&& forall|i: int|
        0 <= i < rows.len() ==> quotas.contains_key((#[trigger] rows[i]).user_id) && rows[i]
            == quota_row(rows[i].user_id, quotas[rows[i].user_id], now)
    &&& forall|i: int, j: int|
        0 <= i < j < rows.len() ==> (#[trigger] rows[i]).user_id != (#[trigger] rows[j]).user_id
    &&& forall|user_id: i32| #[trigger]
        quotas.contains_key(user_id) ==> exists|i: int|
            0 <= i < rows.len() && (#[trigger] rows[i]).user_id == user_id
}

/// The storage limit that a setting asks for; the default where there is none, or where it is not
/// a number that fits.
pub fn storage_limit(setting: Option<&str>) -> (r: u64)
    ensures
        r as nat == match setting {
            Some(s) => match text::number(s@) {
                Some(n) => if n <= u64::MAX {
                    n
                } else {
                    MAX_STORAGE_BYTES as nat
                },
                None => MAX_STORAGE_BYTES as nat,
            },
            None => MAX_STORAGE_BYTES as nat,
        },
        setting is None ==> r == 536_870_912_000,
{
    match setting {
        Some(s) => match text::parse_number(s) {
            Some(n) => n,
            None => MAX_STORAGE_BYTES,
        },
        None => MAX_STORAGE_BYTES,
    }
}

/// The limits of the service, and what has been used of them.
pub struct RateLimiter {
    storage_monitor: StorageMonitor,
    ip_usage_counters: IpUsage,
    operation_count: u64,
    operation_reset_time: Timestamp,
    user_quotas: HashMap<i32, UserQuota>,
}

impl View for RateLimiter {
    type V = Usage;

    closed spec fn view(&self) -> Usage {
        Usage {
            monitor: self.storage_monitor@,
            operations: self.operation_count,
            operations_since: self.operation_reset_time,
            ips: self.ip_usage_counters@,
            quotas: self.user_quotas@,
        }
    }
}

impl RateLimiter {
    /// A limiter that has counted nothing yet, for a storage of `max_storage_bytes`.
    pub fn new(current_bucket_size: u64, max_storage_bytes: u64, now: Timestamp) -> (r: Self)
        ensures
            r@ == (Usage {
                monitor: MonitorState::initial(current_bucket_size, max_storage_bytes),
                operations: 0,
                operations_since: now,
                ips: Map::empty(),
                quotas: Map::empty(),
            }),
    {
        RateLimiter {
            storage_monitor: StorageMonitor::new(current_bucket_size, max_storage_bytes),
            ip_usage_counters: IpUsage::new(),
            operation_count: 0,
            operation_reset_time: now,
            user_quotas: HashMap::new(),
        }
    }

    /// The monitor of the storage itself: what is done with it is done with that of the limiter.
    pub fn storage_monitor(&mut self) -> (r: &mut StorageMonitor)
        ensures
            r@ == old(self)@.monitor,
            final(self)@ == (Usage { monitor: final(r)@, ..old(self)@ }),
    {
        &mut self.storage_monitor
    }

    /// Counts an operation, and says whether the month had room for it.
    pub fn check_global_operation(&mut self) -> (r: bool)
        ensures
            r == old(self)@.month_has_room(),
            final(self)@ == old(self)@.with_operation(),
    {
        let ops_count = self.operation_count;
        self.operation_count = ops_count.wrapping_add(1);
        ops_count < MAX_MONTHLY_OPERATIONS
    }

    /// The operations counted in this month.
    pub fn operations(&self) -> (r: u64)
        ensures
            r == self@.operations,
    {
        self.operation_count
    }

    /// The counter of an address as of `now`.
    fn counter(&self, ip: ClientIp, now: Timestamp) -> (r: IpUsageCounter)
        ensures
            r == self@.counter_at(ip, now),
    {
        let fresh = IpUsageCounter { downloads: 0, uploads: 0, reset_at: now };
        match self.ip_usage_counters.get(ip) {
            Some(c) => if now.is_on_later_day(&c.reset_at) {
                fresh
            } else {
                c
            },
            None => fresh,
        }
    }

    /// The quota of a user as of `now`.
    fn quota(&self, user_id: i32, now: Timestamp) -> (r: UserQuota)
        ensures
            r == self@.quota_at(user_id, now),
    {
        match self.user_quotas.get(&user_id) {
            Some(q) => if now.is_on_later_day(&q.last_reset) {
                UserQuota {
                    storage_used: q.storage_used,
                    upload_count: 0,
                    download_count: 0,
                    last_reset: now,
                }
            } else {
                same_quota(q)
            },
            None => UserQuota {
                storage_used: 0,
                upload_count: 0,
                download_count: 0,
                last_reset: now,
            },
        }
    }

    /// Whether `file_count` downloads can be added to the counts without leaving their range, as
    /// far as it comes to that.
    pub fn downloads_countable(
        &self,
        user_id: i32,
        ip: ClientIp,
        file_count: u32,
        now: Timestamp,
    ) -> (r: bool)
        ensures
            r == self@.can_count_downloads(user_id, ip, file_count, now),
    {
        if self.operation_count >= MAX_MONTHLY_OPERATIONS {
            return true;
        }
        let counter = self.counter(ip, now);
        if counter.downloads > u32::MAX - file_count {
            return false;
        }
        let quota = self.quota(user_id, now);
        counter.downloads + file_count >= MAX_USER_DAILY_DOWNLOADS || quota.download_count
            <= u32::MAX - file_count
    }

    /// Whether `file_count` uploads of `bytes` can be added to the counts without leaving their
    /// range, as far as it comes to that.
    pub fn uploads_countable(
        &self,
        user_id: i32,
        ip: ClientIp,
        file_count: u32,
        bytes: u64,
        now: Timestamp,
    ) -> (r: bool)
        ensures
            r == self@.can_count_uploads(user_id, ip, file_count, bytes, now),
    {
        if self.operation_count >= MAX_MONTHLY_OPERATIONS || !self.storage_monitor.enabled {
            return true;
        }
        if self.storage_monitor.current_bytes > u64::MAX - bytes {
            return false;
        }
        if self.storage_monitor.current_bytes + bytes > self.storage_monitor.max_bytes {
            return true;
        }
        let counter = self.counter(ip, now);
        if counter.uploads > u32::MAX - file_count {
            return false;
        }
        if counter.uploads + file_count >= MAX_USER_DAILY_UPLOADS {
            return true;
        }
        let quota = self.quota(user_id, now);
        quota.storage_used <= u64::MAX - bytes && (quota.storage_used + bytes
            > MAX_USER_STORAGE_BYTES || quota.upload_count <= u32::MAX - file_count)
    }

    /// Whether an address may download `file_count` files.
    pub fn check_ip_download_allowed(
        &mut self,
        ip: ClientIp,
        file_count: u32,
        now: Timestamp,
    ) -> (r: bool)
        requires
            old(self)@.ip_downloads_fit(ip, file_count, now),
        ensures
            r == old(self)@.ip_may_download(ip, file_count, now),
            final(self)@ == old(self)@.ip_download_checked(ip, now),
    {
        if !self.check_global_operation() {
            return false;
        }
        let counter = self.counter(ip, now);
        self.ip_usage_counters.put(ip, counter);
        counter.downloads + file_count < MAX_USER_DAILY_DOWNLOADS
    }

    /// Whether an address may upload `file_count` files of `content_bytes`.
    pub fn check_ip_upload_allowed(
        &mut self,
        ip: ClientIp,
        file_count: u32,
        content_bytes: u64,
        now: Timestamp,
    ) -> (r: bool)
        requires
            old(self)@.ip_uploads_fit(ip, file_count, content_bytes, now),
        ensures
            r == old(self)@.ip_may_upload(ip, file_count, content_bytes, now),
            final(self)@ == old(self)@.ip_upload_checked(ip, content_bytes, now),
    {
        if !self.check_global_operation() {
            return false;
        }
        if !self.storage_monitor.check_operation(content_bytes) {
            return false;
        }
        let counter = self.counter(ip, now);
        self.ip_usage_counters.put(ip, counter);
        counter.uploads + file_count < MAX_USER_DAILY_UPLOADS
    }

    /// Whether a user may upload `file_count` files of `bytes` from an address. Nothing is counted
    /// as uploaded.
    pub fn check_user_upload_allowed(
        &mut self,
        user_id: i32,
        ip: ClientIp,
        file_count: u32,
        bytes: u64,
        now: Timestamp,
    ) -> (r: bool)
        requires
            old(self)@.can_count_uploads(user_id, ip, file_count, bytes, now),
        ensures
            r == old(self)@.user_may_upload(user_id, ip, file_count, bytes, now),
            final(self)@ == old(self)@.user_upload_checked(
                user_id,
                ip,
                file_count,
                bytes,
                now,
            ),
    {
        if !self.check_ip_upload_allowed(ip, file_count, bytes, now) {
            return false;
        }
        let quota = self.quota(user_id, now);
        let storage_used = quota.storage_used;
        let upload_count = quota.upload_count;
        self.user_quotas.insert(user_id, quota);
        if storage_used + bytes > MAX_USER_STORAGE_BYTES {
            return false;
        }
        upload_count + file_count < MAX_USER_DAILY_UPLOADS
    }

    /// Whether a user may download `file_count` files from an address. Nothing is counted as
    /// downloaded.
    pub fn check_user_download_allowed(
        &mut self,
        user_id: i32,
        ip: ClientIp,
        file_count: u32,
        now: Timestamp,
    ) -> (r: bool)
        requires
            old(self)@.can_count_downloads(user_id, ip, file_count, now),
        ensures
            r == old(self)@.user_may_download(user_id, ip, file_count, now),
            final(self)@ == old(self)@.user_download_checked(user_id, ip, file_count, now),
    {
        if !self.check_ip_download_allowed(ip, file_count, now) {
            return false;
        }
        let quota = self.quota(user_id, now);
        let download_count = quota.download_count;
        self.user_quotas.insert(user_id, quota);
        download_count + file_count < MAX_USER_DAILY_DOWNLOADS
    }

    /// Whether `file_count` uploads can be counted for an address without leaving the range.
    pub fn upload_trackable(&self, ip: ClientIp, file_count: u32) -> (r: bool)
        ensures
            r == (lookup(self@.ips, ip) matches Some(c) ==> c.uploads + file_count <= u32::MAX),
    {
        match self.ip_usage_counters.get(ip) {
            Some(c) => c.uploads <= u32::MAX - file_count,
            None => true,
        }
    }

    /// Whether `file_count` downloads can be counted for an address without leaving the range.
    pub fn download_trackable(&self, ip: ClientIp, file_count: u32) -> (r: bool)
        ensures
            r == (lookup(self@.ips, ip) matches Some(c) ==> c.downloads + file_count <= u32::MAX),
    {
        match self.ip_usage_counters.get(ip) {
            Some(c) => c.downloads <= u32::MAX - file_count,
            None => true,
        }
    }

    /// Counts an upload, for a user and for an address that have been seen before. What is stored
    /// in all is counted when the upload is confirmed.
    pub fn track_user_upload(&mut self, user_id: i32, ip: ClientIp, bytes: u64, file_count: u32)
        requires
            lookup(old(self)@.ips, ip) matches Some(c) ==> c.uploads + file_count <= u32::MAX,
        ensures
            final(self)@ == old(self)@.upload_tracked(user_id, ip, bytes, file_count),
    {
        let known = match self.user_quotas.get(&user_id) {
            Some(q) => Some(same_quota(q)),
            None => None,
        };
        if let Some(q) = known {
            self.user_quotas.insert(
                user_id,
                UserQuota {
                    storage_used: q.storage_used.wrapping_add(bytes),
                    upload_count: q.upload_count.wrapping_add(file_count),
                    download_count: q.download_count,
                    last_reset: q.last_reset,
                },
            );
        }
        if let Some(c) = self.ip_usage_counters.get(ip) {
            self.ip_usage_counters.put(
                ip,
                IpUsageCounter {
                    downloads: c.downloads,
                    uploads: c.uploads + file_count,
                    reset_at: c.reset_at,
                },
            );
        }
    }

    /// Counts a download, for a user and for an address that have been seen before.
    pub fn track_user_download(&mut self, user_id: i32, ip: ClientIp, file_count: u32)
        requires
            lookup(old(self)@.ips, ip) matches Some(c) ==> c.downloads + file_count <= u32::MAX,
        ensures
            final(self)@ == old(self)@.download_tracked(user_id, ip, file_count),
    {
        let known = match self.user_quotas.get(&user_id) {
            Some(q) => Some(same_quota(q)),
            None => None,
        };
        if let Some(q) = known {
            self.user_quotas.insert(
                user_id,
                UserQuota {
                    storage_used: q.storage_used,
                    upload_count: q.upload_count,
                    download_count: q.download_count.wrapping_add(file_count),
                    last_reset: q.last_reset,
                },
            );
        }
        if let Some(c) = self.ip_usage_counters.get(ip) {
            self.ip_usage_counters.put(
                ip,
                IpUsageCounter {
                    downloads: c.downloads + file_count,
                    uploads: c.uploads,
                    reset_at: c.reset_at,
                },
            );
        }
    }

    /// A user's quota, where the user has one.
    pub fn get_user_quota(&self, user_id: i32) -> (r: Option<UserQuotaInfo>)
        ensures
            r == match lookup(self@.quotas, user_id) {
                Some(q) => Some(
                    UserQuotaInfo {
                        user_id,
                        storage_used: q.storage_used,
                        storage_limit: MAX_USER_STORAGE_BYTES,
                        uploads_today: q.upload_count,
                        downloads_today: q.download_count,
                    },
                ),
                None => None,
            },
            r matches Some(info) ==> info.storage_limit == 10_485_760_000,
    {
        match self.user_quotas.get(&user_id) {
            Some(q) => Some(
                UserQuotaInfo {
                    user_id,
                    storage_used: q.storage_used,
                    storage_limit: MAX_USER_STORAGE_BYTES,
                    uploads_today: q.upload_count,
                    downloads_today: q.download_count,
                },
            ),
            None => None,
        }
    }

    /// The quotas as they are written to the database at `now`, in no particular order.
    pub fn persist_user_quotas(&self, now: Timestamp) -> (r: Vec<QuotaRow>)
        ensures
            are_rows_of(r@, self@.quotas, now),
    {
        let mut rows: Vec<QuotaRow> = Vec::new();
        let ghost quotas = self.user_quotas@;
        for user_id in it: self.user_quotas.keys()
            invariant
                quotas == self.user_quotas@,
                it.seq().unref().to_set() == quotas.dom(),
                it.seq().unref().no_duplicates(),
                rows@.len() == it.index(),
                forall|i: int|
                    0 <= i < rows@.len() ==> (#[trigger] rows@[i]) == quota_row(
                        it.seq().unref()[i],
                        quotas[it.seq().unref()[i]],
                        now,
                    ) && quotas.contains_key(it.seq().unref()[i]),
                it.index() == it.seq().len() ==> forall|u: i32| #[trigger]
                    quotas.contains_key(u) ==> exists|i: int|
                        0 <= i < rows@.len() && (#[trigger] rows@[i]).user_id == u,
                forall|i: int, j: int|
                    0 <= i < j < rows@.len() ==> (#[trigger] rows@[i]).user_id != (
                    #[trigger] rows@[j]).user_id,
        {
            let ghost keys = it.seq().unref();
            let ghost n = it.index();
            assert(keys[n] == *user_id);
            assert(keys.to_set().contains(*user_id));
            assert forall|i: int| 0 <= i < n implies keys[i] != keys[n] by {}
            if let Some(q) = self.user_quotas.get(user_id) {
                rows.push(
                    QuotaRow {
                        user_id: *user_id,
                        storage_used: q.storage_used as i64,
                        upload_count: q.upload_count as i32,
                        download_count: q.download_count as i32,
                        last_reset: now,
                    },
                );
            }
            assert forall|u: i32|
                n + 1 == keys.len() && #[trigger] quotas.contains_key(u) implies exists|i: int|
                0 <= i < rows@.len() && (#[trigger] rows@[i]).user_id == u by {
                assert(keys.to_set().contains(u));
                let i = choose|i: int| 0 <= i < keys.len() && keys[i] == u;
                assert(rows@[i].user_id == u);
            }
        }
        rows
    }

    /// Takes over the quotas that the database holds.
    pub fn load_user_quotas(&mut self, rows: &Vec<QuotaRow>)
        ensures
            final(self)@ == (Usage {
                quotas: quotas_with_rows(old(self)@.quotas, rows@),
                ..old(self)@
            }),
    {
        let mut i: usize = 0;
        assert(rows@.take(0) =~= Seq::<QuotaRow>::empty());
        while i < rows.len()
            invariant
                i <= rows@.len(),
                self@ == (Usage {
                    quotas: quotas_with_rows(old(self)@.quotas, rows@.take(i as int)),
                    ..old(self)@
                }),
            decreases rows@.len() - i,
        {
            let row = rows[i];
            self.user_quotas.insert(
                row.user_id,
                UserQuota {
                    storage_used: row.storage_used as u64,
                    upload_count: row.upload_count as u32,
                    download_count: row.download_count as u32,
                    last_reset: row.last_reset,
                },
            );
            assert(rows@.take(i + 1).drop_last() =~= rows@.take(i as int));
            i += 1;
        }
        assert(rows@.take(rows@.len() as int) =~= rows@);
    }

    /// The hourly upkeep. Says whether the count of operations began again.
    pub fn run_hourly_upkeep(&mut self, now: Timestamp) -> (r: bool)
        ensures
            r == (outside::calendar_month(now.secs as int) != outside::calendar_month(
                old(self)@.operations_since.secs as int,
            )),
            final(self)@ == old(self)@.upkept(now),
    {
        self.ip_usage_counters.retain_current(now);
        let new_month = now.is_in_other_month(&self.operation_reset_time);
        if new_month {
            self.operation_count = 0;
            self.operation_reset_time = now;
        }
        new_month
    }
}

/// A download that was asked for and, where it was allowed, counted, leaves everything within its
/// limits, whether it was allowed or not.
pub proof fn law_downloads_stay_within_limits(
    usage: Usage,
    user_id: i32,
    ip: ClientIp,
    file_count: u32,
    now: Timestamp,
)
    requires
        usage.within_limits(),
    ensures
        usage.user_download_checked(user_id, ip, file_count, now).within_limits(),
        usage.user_may_download(user_id, ip, file_count, now)
            ==> usage.user_download_checked(user_id, ip, file_count, now).download_tracked(
            user_id,
            ip,
            file_count,
        ).within_limits(),
{
    let checked = usage.user_download_checked(user_id, ip, file_count, now);
    assert(usage.counter_at(ip, now).downloads < MAX_USER_DAILY_DOWNLOADS);
    assert(usage.counter_at(ip, now).uploads < MAX_USER_DAILY_UPLOADS);
    assert(usage.quota_at(user_id, now).download_count < MAX_USER_DAILY_DOWNLOADS);
    assert(checked.within_limits());
}

/// An upload that was asked for and, where it was allowed, counted with no more files than were
/// asked for, leaves everything within its limits, whether it was allowed or not.
pub proof fn law_uploads_stay_within_limits(
    usage: Usage,
    user_id: i32,
    ip: ClientIp,
    file_count: u32,
    bytes: u64,
    counted: u32,
    now: Timestamp,
)
    requires
        usage.within_limits(),
        counted <= file_count,
    ensures
        usage.user_upload_checked(
            user_id,
            ip,
            file_count,
            bytes,
            now,
        ).within_limits(),
        usage.user_may_upload(user_id, ip, file_count, bytes, now) ==> usage.user_upload_checked(
            user_id,
            ip,
            file_count,
            bytes,
            now,
        ).upload_tracked(user_id, ip, bytes, counted).within_limits(),
{
    let checked = usage.user_upload_checked(user_id, ip, file_count, bytes, now);
    assert(usage.counter_at(ip, now).uploads < MAX_USER_DAILY_UPLOADS);
    assert(usage.counter_at(ip, now).downloads < MAX_USER_DAILY_DOWNLOADS);
    assert(usage.quota_at(user_id, now).upload_count < MAX_USER_DAILY_UPLOADS);
    assert(usage.quota_at(user_id, now).storage_used <= MAX_USER_STORAGE_BYTES);
    assert(checked.within_limits());
}

/// A storage that is full from the beginning takes nothing, and one that is not takes what fits.
pub proof fn law_full_storage_starts_closed(current_bucket_size: u64, max_bytes: u64, bytes: u64)
    ensures
        ({
            let monitor = MonitorState::initial(current_bucket_size, max_bytes);
            &&& monitor.enabled <==> current_bucket_size < max_bytes
            &&& current_bucket_size >= max_bytes ==> !monitor.takes(bytes)
            &&& current_bucket_size < max_bytes ==> (monitor.takes(bytes) <==> current_bucket_size
                + bytes <= max_bytes)
        }),
{
}

/// A storage that takes nothing more never takes anything again, however often it is asked and
/// whatever is stored meanwhile.
pub proof fn law_closed_storage_stays_closed(
    monitor: MonitorState,
    bytes: u64,
    stored: u64,
    later_bytes: u64,
)
    requires
        !monitor.enabled,
    ensures
        monitor.checked(bytes) == monitor,
        !monitor.with_stored(stored).enabled,
        !monitor.with_stored(stored).takes(later_bytes),
{
}

/// An operation that does not fit closes the storage.
pub proof fn law_overfull_storage_closes(monitor: MonitorState, bytes: u64)
    requires
        monitor.current_bytes + bytes > monitor.max_bytes,
    ensures
        !monitor.takes(bytes),
        !monitor.checked(bytes).enabled,
{
}

/// A threshold is announced at most once, and only when it is reached: what a check announces lies
/// above all that was announced before, and what was announced is never taken back. A check stores
/// nothing.
pub proof fn law_alerts_only_rise(monitor: MonitorState, bytes: u64)
    ensures
        next_alert(monitor.percent_with(bytes), monitor.last_logged_percent, 0) matches Some(t)
            ==> t > monitor.last_logged_percent && t <= monitor.percent_with(bytes),
        monitor.checked(bytes).last_logged_percent >= monitor.last_logged_percent,
        monitor.checked(bytes).max_bytes == monitor.max_bytes,
        monitor.checked(bytes).current_bytes == monitor.current_bytes,
{
    lemma_next_alert(monitor.percent_with(bytes), monitor.last_logged_percent, 0);
}

proof fn lemma_next_alert(percent: u64, logged: u64, n: int)
    ensures
        next_alert(percent, logged, n) matches Some(t) ==> t > logged && t <= percent,
    decreases thresholds().len() - n,
{
    if 0 <= n < thresholds().len() && !(percent >= thresholds()[n] && logged < thresholds()[n]) {
        lemma_next_alert(percent, logged, n + 1);
    }
}

/// A new day begins with no downloads and no uploads, and with the storage that the user had.
pub proof fn law_new_day_begins_at_zero(
    usage: Usage,
    user_id: i32,
    ip: ClientIp,
    now: Timestamp,
)
    requires
        lookup(usage.quotas, user_id) matches Some(q) ==> now.day() > q.last_reset.day(),
        lookup(usage.ips, ip) matches Some(c) ==> now.day() > c.reset_at.day(),
    ensures
        usage.counter_at(ip, now).downloads == 0,
        usage.counter_at(ip, now).uploads == 0,
        usage.quota_at(user_id, now).download_count == 0,
        usage.quota_at(user_id, now).upload_count == 0,
        usage.quota_at(user_id, now).storage_used == match lookup(usage.quotas, user_id) {
            Some(q) => q.storage_used,
            None => 0,
        },
{
}

/// What one user does from one address changes neither the quotas of other users nor the counters of
/// other addresses.
pub proof fn law_others_are_unaffected(
    usage: Usage,
    user_id: i32,
    ip: ClientIp,
    file_count: u32,
    bytes: u64,
    now: Timestamp,
    other_user: i32,
    other_ip: ClientIp,
)
    requires
        other_user != user_id,
        other_ip != ip,
    ensures
        ({
            let uploaded = usage.user_upload_checked(
                user_id,
                ip,
                file_count,
                bytes,
                now,
            ).upload_tracked(user_id, ip, bytes, file_count);
            let downloaded = usage.user_download_checked(
                user_id,
                ip,
                file_count,
                now,
            ).download_tracked(user_id, ip, file_count);
            &&& lookup(uploaded.quotas, other_user) == lookup(usage.quotas, other_user)
            &&& lookup(uploaded.ips, other_ip) == lookup(usage.ips, other_ip)
            &&& lookup(downloaded.quotas, other_user) == lookup(usage.quotas, other_user)
            &&& lookup(downloaded.ips, other_ip) == lookup(usage.ips, other_ip)
        }),
{
}

/// The upkeep forgets nothing of the day: the counter of each address as of that moment or of any
/// later one is the same with it and without it.
pub proof fn law_upkeep_forgets_only_past_days(
    usage: Usage,
    ip: ClientIp,
    now: Timestamp,
    later: Timestamp,
)
    requires
        now.day() <= later.day(),
    ensures
        usage.upkept(now).counter_at(ip, later) == usage.counter_at(ip, later),
        usage.upkept(now).quotas == usage.quotas,
{
}

/// What is written to the database and read back into an empty limiter are the same counts for
/// the same users.
pub proof fn law_quotas_survive_the_database(
    quotas: Map<i32, UserQuota>,
    rows: Seq<QuotaRow>,
    now: Timestamp,
)
    requires
        are_rows_of(rows, quotas, now),
    ensures
        ({
            let loaded = quotas_with_rows(Map::empty(), rows);
            &&& loaded.dom() == quotas.dom()
            &&& forall|user_id: i32| #[trigger]
                quotas.contains_key(user_id) ==> loaded[user_id] == (UserQuota {
                    last_reset: now,
                    ..quotas[user_id]
                })
        }),
{
    lemma_loaded(quotas, rows, now, rows.len() as int);
    assert(rows.take(rows.len() as int) =~= rows);
    let loaded = quotas_with_rows(Map::empty(), rows);
    assert forall|u: i32| #[trigger] quotas.contains_key(u) implies loaded.contains_key(u) by {
        let i = choose|i: int| 0 <= i < rows.len() && (#[trigger] rows[i]).user_id == u;
        assert(loaded.contains_key(rows[i].user_id));
    }
    assert(loaded.dom() =~= quotas.dom());
}

proof fn lemma_loaded(quotas: Map<i32, UserQuota>, rows: Seq<QuotaRow>, now: Timestamp, n: int)
    requires
        are_rows_of(rows, quotas, now),
        0 <= n <= rows.len(),
    ensures
        ({
            let loaded = quotas_with_rows(Map::empty(), rows.take(n));
            &&& forall|i: int| 0 <= i < n ==> loaded.contains_key((#[trigger] rows[i]).user_id)
            &&& forall|u: i32| #[trigger]
                loaded.contains_key(u) ==> quotas.contains_key(u) && loaded[u] == (UserQuota {
                    last_reset: now,
                    ..quotas[u]
                })
        }),
    decreases n,
{
    if n > 0 {
        lemma_loaded(quotas, rows, now, n - 1);
        let row = rows[n - 1];
        assert(rows.take(n).drop_last() =~= rows.take(n - 1));
        assert(rows.take(n).last() == row);
        let q = quotas[row.user_id];
        let storage = q.storage_used;
        let uploads = q.upload_count;
        let downloads = q.download_count;
        assert((storage as i64) as u64 == storage) by (bit_vector);
        assert((uploads as i32) as u32 == uploads) by (bit_vector);
        assert((downloads as i32) as u32 == downloads) by (bit_vector);
        assert(row == quota_row(row.user_id, q, now));
        assert(stored_quota(row) == (UserQuota { last_reset: now, ..q }));
        let before = quotas_with_rows(Map::empty(), rows.take(n - 1));
        let after = quotas_with_rows(Map::empty(), rows.take(n));
        assert(after == before.insert(row.user_id, stored_quota(row)));
        assert forall|i: int| 0 <= i < n implies after.contains_key(
            (#[trigger] rows[i]).user_id,
        ) by {
            assert(i < n - 1 ==> before.contains_key(rows[i].user_id));
        }
    }
}

/// The share of the storage in percent is announced.
pub open spec fn is_announced(percent: u64) -> bool {
    percent == 10 || percent == 25 || percent == 50 || percent == 75 || percent == 80 || percent
        == 90 || percent == 95 || percent == 98
}

/// What counts as announced at the beginning is the greatest of the announced shares that has been
/// reached: no other one that has been reached lies above it.
pub proof fn law_the_greatest_share_counts_as_announced(percent: u64, other: u64)
    ensures
        ({
            let last = last_reached(percent, thresholds().len() as int);
            &&& last == 0 || (is_announced(last) && last <= percent)
            &&& is_announced(other) && other <= percent ==> other <= last
        }),
{
    reveal_with_fuel(last_reached, 9);
}

/// What is announced next is the smallest of the shares that have been reached and lie above what was
/// announced; nothing is announced only where there is none.
pub proof fn law_the_smallest_share_is_announced_next(percent: u64, logged: u64, other: u64)
    ensures
        match next_alert(percent, logged, 0) {
            Some(next) => {
                &&& is_announced(next) && logged < next <= percent
                &&& is_announced(other) && logged < other <= percent ==> next <= other
            },
            None => !(is_announced(other) && logged < other <= percent),
        },
{
    reveal_with_fuel(next_alert, 9);
}

/// A share of `p` percent means that a hundred parts are `p` wholes at least, and less than one whole
/// more; a share of nothing is none, or beyond all bounds.
pub proof fn law_shares_in_whole_percent(part: u64, whole: u64)
    ensures
        whole > 0 ==> (share(part, whole) matches Some(p) && p * whole <= 100 * part && (p
            < u64::MAX ==> 100 * part < (p + 1) * whole)),
        whole == 0 ==> share(part, whole) == if part == 0 {
            None
        } else {
            Some(u64::MAX)
        },
{
    if whole > 0 {
        let percent = (100 * part as int) / (whole as int);
        vstd::arithmetic::div_mod::lemma_fundamental_div_mod(100 * part as int, whole as int);
        vstd::arithmetic::div_mod::lemma_mod_bound(100 * part as int, whole as int);
        assert(whole as int * percent == percent * whole as int) by (nonlinear_arith);
        assert((percent + 1) * whole == percent * whole + whole) by (nonlinear_arith);
        let p = share(part, whole)->0;
        assert(p <= percent);
        assert(p * whole <= percent * whole) by (nonlinear_arith)
            requires
                p <= percent,
        ;
    }
}

/// On the day of a counter or of a quota nothing of it changes by the time alone.
pub proof fn law_counts_of_the_day_stay(usage: Usage, user_id: i32, ip: ClientIp, now: Timestamp)
    ensures
        usage.quotas.contains_key(user_id) && now.day() <= usage.quotas[user_id].last_reset.day()
            ==> usage.quota_at(user_id, now) == usage.quotas[user_id],
        usage.ips.contains_key(ip) && now.day() <= usage.ips[ip].reset_at.day() ==> usage.counter_at(
            ip,
            now,
        ) == usage.ips[ip],
        !(usage.quotas.contains_key(user_id) && now.day() <= usage.quotas[user_id].last_reset.day())
            ==> usage.quota_at(user_id, now).last_reset == now,
        !(usage.ips.contains_key(ip) && now.day() <= usage.ips[ip].reset_at.day())
            ==> usage.counter_at(ip, now).reset_at == now,
{
}

/// What may be uploaded, in plain numbers, by a user and from an address with counts of the day: there
/// have been fewer than ten million operations in the month, the storage is open and has room, both
/// counts stay below twenty thousand, and the user's storage within ten thousand MiB.
pub proof fn law_upload_limits_in_plain_numbers(
    usage: Usage,
    user_id: i32,
    ip: ClientIp,
    file_count: u32,
    bytes: u64,
    now: Timestamp,
)
    requires
        usage.quotas.contains_key(user_id),
        usage.ips.contains_key(ip),
        now.day() <= usage.quotas[user_id].last_reset.day(),
        now.day() <= usage.ips[ip].reset_at.day(),
    ensures
        usage.ip_may_upload(ip, file_count, bytes, now) <==> usage.operations < 10_000_000
            && usage.monitor.enabled && usage.monitor.current_bytes + bytes
            <= usage.monitor.max_bytes && usage.ips[ip].uploads + file_count < 20_000,
        usage.user_may_upload(user_id, ip, file_count, bytes, now) <==> usage.operations
            < 10_000_000 && usage.monitor.enabled && usage.monitor.current_bytes + bytes
            <= usage.monitor.max_bytes && usage.ips[ip].uploads + file_count < 20_000
            && usage.quotas[user_id].upload_count + file_count < 20_000
            && usage.quotas[user_id].storage_used + bytes <= 10_485_760_000,
{
}

/// What may be downloaded, in plain numbers, by a user and from an address with counts of the day: there
/// have been fewer than ten million operations in the month, and both counts stay below fifty
/// thousand.
pub proof fn law_download_limits_in_plain_numbers(
    usage: Usage,
    user_id: i32,
    ip: ClientIp,
    file_count: u32,
    now: Timestamp,
)
    requires
        usage.quotas.contains_key(user_id),
        usage.ips.contains_key(ip),
        now.day() <= usage.quotas[user_id].last_reset.day(),
        now.day() <= usage.ips[ip].reset_at.day(),
    ensures
        usage.ip_may_download(ip, file_count, now) <==> usage.operations < 10_000_000
            && usage.ips[ip].downloads + file_count < 50_000,
        usage.user_may_download(user_id, ip, file_count, now) <==> usage.operations < 10_000_000
            && usage.ips[ip].downloads + file_count < 50_000
            && usage.quotas[user_id].download_count + file_count < 50_000,
{
}

/// To ask counts as one operation, allowed or not, and changes none of the counts as of that moment.
pub proof fn law_to_ask_is_one_operation(
    usage: Usage,
    user_id: i32,
    ip: ClientIp,
    file_count: u32,
    bytes: u64,
    now: Timestamp,
    any_user: i32,
    any_ip: ClientIp,
)
    requires
        usage.operations < u64::MAX,
    ensures
        ({
            let up = usage.user_upload_checked(user_id, ip, file_count, bytes, now);
            &&& up.operations == usage.operations + 1
            &&& up.operations_since == usage.operations_since
            &&& up.quota_at(any_user, now) == usage.quota_at(any_user, now)
            &&& up.counter_at(any_ip, now) == usage.counter_at(any_ip, now)
            &&& up.monitor.current_bytes == usage.monitor.current_bytes
        }),
        ({
            let down = usage.user_download_checked(user_id, ip, file_count, now);
            &&& down.operations == usage.operations + 1
            &&& down.operations_since == usage.operations_since
            &&& down.quota_at(any_user, now) == usage.quota_at(any_user, now)
            &&& down.counter_at(any_ip, now) == usage.counter_at(any_ip, now)
            &&& down.monitor == usage.monitor
        }),
{
}

/// Who was allowed to upload or to download has a counter and a quota to count it in.
pub proof fn law_who_is_allowed_is_counted(
    usage: Usage,
    user_id: i32,
    ip: ClientIp,
    file_count: u32,
    bytes: u64,
    now: Timestamp,
)
    ensures
        usage.user_may_upload(user_id, ip, file_count, bytes, now) ==> {
            let up = usage.user_upload_checked(user_id, ip, file_count, bytes, now);
            up.quotas.contains_key(user_id) && up.ips.contains_key(ip)
        },
        usage.user_may_download(user_id, ip, file_count, now) ==> {
            let down = usage.user_download_checked(user_id, ip, file_count, now);
            down.quotas.contains_key(user_id) && down.ips.contains_key(ip)
        },
{
}

/// What is counted is added, neither more nor less: an upload to the uploads and the storage of the user
/// and to the uploads of the address, a download to the downloads of both. Nothing else changes.
pub proof fn law_what_is_counted_is_added(
    usage: Usage,
    user_id: i32,
    ip: ClientIp,
    bytes: u64,
    file_count: u32,
)
    requires
        usage.quotas.contains_key(user_id),
        usage.ips.contains_key(ip),
        usage.quotas[user_id].storage_used + bytes <= u64::MAX,
        usage.quotas[user_id].upload_count + file_count <= u32::MAX,
        usage.quotas[user_id].download_count + file_count <= u32::MAX,
        usage.ips[ip].uploads + file_count <= u32::MAX,
        usage.ips[ip].downloads + file_count <= u32::MAX,
    ensures
        ({
            let up = usage.upload_tracked(user_id, ip, bytes, file_count);
            &&& up.quotas[user_id].storage_used == usage.quotas[user_id].storage_used + bytes
            &&& up.quotas[user_id].upload_count == usage.quotas[user_id].upload_count + file_count
            &&& up.quotas[user_id].download_count == usage.quotas[user_id].download_count
            &&& up.quotas[user_id].last_reset == usage.quotas[user_id].last_reset
            &&& up.ips[ip].uploads == usage.ips[ip].uploads + file_count
            &&& up.ips[ip].downloads == usage.ips[ip].downloads
            &&& up.ips[ip].reset_at == usage.ips[ip].reset_at
            &&& up.operations == usage.operations
            &&& up.monitor == usage.monitor
        }),
        ({
            let down = usage.download_tracked(user_id, ip, file_count);
            &&& down.quotas[user_id].storage_used == usage.quotas[user_id].storage_used
            &&& down.quotas[user_id].upload_count == usage.quotas[user_id].upload_count
            &&& down.quotas[user_id].download_count == usage.quotas[user_id].download_count
                + file_count
            &&& down.quotas[user_id].last_reset == usage.quotas[user_id].last_reset
            &&& down.ips[ip].uploads == usage.ips[ip].uploads
            &&& down.ips[ip].downloads == usage.ips[ip].downloads + file_count
            &&& down.ips[ip].reset_at == usage.ips[ip].reset_at
            &&& down.operations == usage.operations
            &&& down.monitor == usage.monitor
        }),
{
}

/// Where a user or an address has not been seen, nothing is counted for them.
pub proof fn law_strangers_are_not_counted(
    usage: Usage,
    user_id: i32,
    ip: ClientIp,
    bytes: u64,
    file_count: u32,
)
    ensures
        !usage.quotas.contains_key(user_id) ==> usage.upload_tracked(
            user_id,
            ip,
            bytes,
            file_count,
        ).quotas == usage.quotas && usage.download_tracked(user_id, ip, file_count).quotas
            == usage.quotas,
        !usage.ips.contains_key(ip) ==> usage.upload_tracked(
            user_id,
            ip,
            bytes,
            file_count,
        ).ips == usage.ips && usage.download_tracked(user_id, ip, file_count).ips == usage.ips,
{
}

/// The upkeep keeps the counters of the day as they are and no others, begins to count the operations
/// anew exactly where another month has come, and leaves the storage as it is.
pub proof fn law_upkeep_in_plain_terms(usage: Usage, ip: ClientIp, now: Timestamp)
    ensures
        usage.upkept(now).ips.contains_key(ip) <==> usage.ips.contains_key(ip) && now.day()
            <= usage.ips[ip].reset_at.day(),
        usage.upkept(now).ips.contains_key(ip) ==> usage.upkept(now).ips[ip] == usage.ips[ip],
        usage.upkept(now).monitor == usage.monitor,
        outside::calendar_month(now.secs as int) == outside::calendar_month(
            usage.operations_since.secs as int,
        ) ==> usage.upkept(now).operations == usage.operations && usage.upkept(now).operations_since
            == usage.operations_since,
        outside::calendar_month(now.secs as int) != outside::calendar_month(
            usage.operations_since.secs as int,
        ) ==> usage.upkept(now).operations == 0 && usage.upkept(now).operations_since == now,
{
}

/// Where several rows of a user are read, the last one counts; a user without a row keeps the quota that
/// was there.
pub proof fn law_the_last_row_of_a_user_counts(
    quotas: Map<i32, UserQuota>,
    rows: Seq<QuotaRow>,
    user_id: i32,
    i: int,
)
    requires
        i < rows.len(),
        0 <= i ==> rows[i].user_id == user_id,
        forall|j: int| 0 <= j < rows.len() && i < j ==> (#[trigger] rows[j]).user_id != user_id,
    ensures
        i < 0 ==> lookup(quotas_with_rows(quotas, rows), user_id) == lookup(quotas, user_id),
        0 <= i ==> {
            &&& quotas_with_rows(quotas, rows).contains_key(user_id)
            &&& quotas_with_rows(quotas, rows)[user_id].storage_used == rows[i].storage_used as u64
            &&& quotas_with_rows(quotas, rows)[user_id].upload_count == rows[i].upload_count as u32
            &&& quotas_with_rows(quotas, rows)[user_id].download_count
                == rows[i].download_count as u32
            &&& quotas_with_rows(quotas, rows)[user_id].last_reset == rows[i].last_reset
        },
    decreases rows.len(),
{
    if rows.len() > 0 && i < rows.len() - 1 {
        let shorter = rows.drop_last();
        assert forall|j: int| 0 <= j < shorter.len() implies #[trigger] shorter[j] == rows[j] by {}
        assert(rows[rows.len() - 1].user_id != user_id);
        law_the_last_row_of_a_user_counts(quotas, shorter, user_id, i);
    }
}

proof fn lemma_share_reached(part: u64, whole: u64, percent: u64)
    requires
        whole > 0,
        percent <= 100,
    ensures
        share(part, whole)->0 >= percent <==> 100 * part >= percent * whole,
{
    law_shares_in_whole_percent(part, whole);
    let p = share(part, whole)->0;
    if p >= percent {
        assert(p * whole >= percent * whole) by (nonlinear_arith)
            requires
                p >= percent,
        ;
    } else {
        assert((p + 1) * whole <= percent * whole) by (nonlinear_arith)
            requires
                p + 1 <= percent,
        ;
    }
}

/// A storage starts with what it holds. Of the shares that are announced, exactly those that it has
/// reached count as announced: those of which a hundredth part of the whole is filled so many times.
pub proof fn law_reached_shares_count_as_announced(
    current_bucket_size: u64,
    max_bytes: u64,
    percent: u64,
)
    requires
        max_bytes > 0,
        is_announced(percent),
    ensures
        ({
            let monitor = MonitorState::initial(current_bucket_size, max_bytes);
            &&& monitor.current_bytes == current_bucket_size
            &&& monitor.max_bytes == max_bytes
            &&& percent <= monitor.last_logged_percent <==> 100 * current_bucket_size >= percent
                * max_bytes
        }),
{
    lemma_share_reached(current_bucket_size, max_bytes, percent);
    law_shares_in_whole_percent(current_bucket_size, max_bytes);
    law_the_greatest_share_counts_as_announced(
        share(current_bucket_size, max_bytes)->0,
        percent,
    );
}

/// What a check of an open storage announces, where the bytes fit: the smallest share that is reached
/// with them and was not announced yet. Nothing is announced only where there is no such share, or
/// where the bytes do not fit.
pub proof fn law_each_share_is_announced_in_turn(monitor: MonitorState, bytes: u64, percent: u64)
    requires
        monitor.enabled,
        monitor.max_bytes > 0,
        is_announced(percent),
    ensures
        ({
            let before = monitor.last_logged_percent;
            let after = monitor.checked(bytes).last_logged_percent;
            &&& after == before || (is_announced(after) && before < after)
            &&& monitor.takes(bytes) && before < percent && 100 * (monitor.current_bytes + bytes)
                >= percent * monitor.max_bytes ==> before < after <= percent
            &&& before < percent == after ==> monitor.takes(bytes) && 100 * (monitor.current_bytes
                + bytes) >= percent * monitor.max_bytes
        }),
{
    if monitor.takes(bytes) {
        let part = (monitor.current_bytes + bytes) as u64;
        lemma_share_reached(part, monitor.max_bytes, percent);
        law_shares_in_whole_percent(part, monitor.max_bytes);
        law_the_smallest_share_is_announced_next(
            monitor.percent_with(bytes),
            monitor.last_logged_percent,
            percent,
        );
    }
}

/// Where no limit has been reached, everything can be counted that is not beyond all measure, and so be
/// asked for.
pub proof fn law_usual_requests_can_be_counted(
    usage: Usage,
    user_id: i32,
    ip: ClientIp,
    file_count: u32,
    bytes: u64,
    now: Timestamp,
)
    requires
        usage.within_limits(),
        file_count <= u32::MAX - 50_000,
        bytes <= u64::MAX - 10_485_760_000,
        usage.monitor.current_bytes + bytes <= u64::MAX,
    ensures
        usage.can_count_downloads(user_id, ip, file_count, now),
        usage.can_count_uploads(user_id, ip, file_count, bytes, now),
        usage.ip_downloads_fit(ip, file_count, now),
        usage.ip_uploads_fit(ip, file_count, bytes, now),
{
}

/// Bytes that were stored are added to what the storage holds; how much it may hold, whether it is open
/// and what was announced stay.
pub proof fn law_stored_bytes_add_up(monitor: MonitorState, some: u64, more: u64)
    requires
        monitor.current_bytes + some + more <= u64::MAX,
    ensures
        monitor.with_stored(some).current_bytes == monitor.current_bytes + some,
        monitor.with_stored(some).max_bytes == monitor.max_bytes,
        monitor.with_stored(some).enabled == monitor.enabled,
        monitor.with_stored(some).last_logged_percent == monitor.last_logged_percent,
        monitor.with_stored(some).with_stored(more) == monitor.with_stored((some + more) as u64),
{
}

} // verus!
