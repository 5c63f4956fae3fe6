//! Moments in time, in UTC.
use vstd::prelude::*;

use crate::outside;

verus! {

/// The number of seconds of a day.
pub const SECONDS_PER_DAY: i64 = 86_400;

/// The number of seconds of a minute.
pub const SECONDS_PER_MINUTE: i64 = 60;

/// A moment: whole seconds since the beginning of 1970, and the nanoseconds that have passed
/// since then.
#[derive(Clone, Copy, Debug, PartialEq, Eq, Structural)]
pub struct Timestamp {
    pub secs: i64,
    pub nanos: u32,
}

impl Timestamp {
    /// The day, counted from the first of January 1970.
    pub open spec fn day(self) -> int {
        self.secs as int / 86_400
    }

    /// The moment `secs` seconds later.
    pub open spec fn later(self, secs: int) -> Timestamp {
        Timestamp { secs: (self.secs + secs) as i64, nanos: self.nanos }
    }

    /// This moment lies before `other`.
    pub open spec fn is_before(self, other: Timestamp) -> bool {
        self.secs < other.secs || (self.secs == other.secs && self.nanos < other.nanos)
    }

    /// Whether this moment lies on a later day than `other`.
    pub fn is_on_later_day(&self, other: &Timestamp) -> (r: bool)
        ensures
            r == (self.day() > other.day()),
    {
        day_number(self.secs) > day_number(other.secs)
    }

    /// The moment `days` days later.
    pub fn plus_days(&self, days: i64) -> (r: Timestamp)
        requires
            0 <= days <= 1_000_000,
            self.secs + days * 86_400 <= i64::MAX,
        ensures
            r == self.later(days * 86_400),
    {
        Timestamp { secs: self.secs + days * SECONDS_PER_DAY, nanos: self.nanos }
    }

    /// The moment `minutes` minutes later.
    pub fn plus_minutes(&self, minutes: i64) -> (r: Timestamp)
        requires
            0 <= minutes <= 1_000_000,
            self.secs + minutes * 60 <= i64::MAX,
        ensures
            r == self.later(minutes * 60),
    {
        Timestamp { secs: self.secs + minutes * SECONDS_PER_MINUTE, nanos: self.nanos }
    }

    /// Whether the two moments lie in different months of the calendar.
    pub fn is_in_other_month(&self, other: &Timestamp) -> (r: bool)
        ensures
            r == (outside::calendar_month(self.secs as int) != outside::calendar_month(
                other.secs as int,
            )),
    {
        let mine = outside::year_and_month(self.secs);
        let theirs = outside::year_and_month(other.secs);
        match mine {
            Some((year, month)) => match theirs {
                Some((other_year, other_month)) => year != other_year || month != other_month,
                None => true,
            },
            None => theirs.is_some(),
        }
    }
}

/// The day on which a second lies, counted from the first of January 1970.
fn day_number(secs: i64) -> (r: i64)
    ensures
        r == secs as int / 86_400,
{
    if secs >= 0 {
        secs / SECONDS_PER_DAY
    } else {
        // The day on which `secs` lies began at a multiple of a day at or below it.
        let back: i64 = -(secs + 1);
        -(back / SECONDS_PER_DAY) - 1
    }
}

/// A day lasts 86400 seconds: the moments of a day are those from its beginning to that of the next.
pub proof fn law_days_have_equal_lengths(t: Timestamp, day: int)
    ensures
        t.day() == day <==> 86_400 * day <= t.secs < 86_400 * (day + 1),
        t.secs + 86_400 <= i64::MAX ==> t.later(86_400).day() == t.day() + 1,
{
}

/// Of two moments that differ one lies before the other, and not the other way round; no moment lies
/// before itself; and what lies before a moment that lies before a third one lies before that one.
pub proof fn law_moments_stand_in_one_order(a: Timestamp, b: Timestamp, c: Timestamp)
    ensures
        a.is_before(b) || b.is_before(a) || (a.secs == b.secs && a.nanos == b.nanos),
        a.is_before(b) ==> !b.is_before(a),
        a.is_before(b) && b.is_before(c) ==> a.is_before(c),
        a.is_before(b) ==> a.day() <= b.day(),
        a.secs < b.secs ==> a.is_before(b),
{
}

/// A moment that comes later by some seconds and by some more comes later by both together, and lies
/// behind the first one.
pub proof fn law_seconds_add_up(t: Timestamp, some: int, more: int)
    requires
        0 <= some,
        0 < more,
        t.secs + some + more <= i64::MAX,
    ensures
        t.later(some).later(more) == t.later(some + more),
        t.later(0) == t,
        t.is_before(t.later(more)),
        t.later(some + more).secs == t.secs + some + more,
        t.later(some + more).nanos == t.nanos,
{
}

} // verus!
