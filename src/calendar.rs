//! UTC instants as calendar fields, the two-years-ago cutoff and recency.

use chrono::{Datelike, Timelike};
use vstd::prelude::*;

verus! {

/// Earliest year that chrono's dates reach.
pub const MIN_YEAR: i32 = -262143;

/// Latest year that chrono's dates reach.
pub const MAX_YEAR: i32 = 262142;

/// An instant in UTC, held as its calendar fields.
#[derive(Clone, Copy, Debug, PartialEq, Eq, Structural)]
pub struct UtcDateTime {
    pub year: i32,
    pub month: u32,
    pub day: u32,
    pub hour: u32,
    pub minute: u32,
    pub second: u32,
    /// Above 999_999_999 only during a leap second.
    pub nanosecond: u32,
}

/// The fields of an instant, from the year down to the nanosecond.
pub type DateFields = (i32, u32, u32, u32, u32, u32, u32);

impl UtcDateTime {
    pub open spec fn fields(self) -> DateFields {
        (self.year, self.month, self.day, self.hour, self.minute, self.second, self.nanosecond)
    }

    /// Every field lies in the range that chrono gives it.
    pub open spec fn is_valid(self) -> bool {
        &&& MIN_YEAR <= self.year <= MAX_YEAR
        &&& 1 <= self.month <= 12
        &&& 1 <= self.day <= 31
        &&& self.hour < 24
        &&& self.minute < 60
        &&& self.second < 60
        &&& self.nanosecond < 2_000_000_000
    }

    /// In UTC one instant precedes another exactly when its fields come first,
    /// compared from the year down.
    pub open spec fn spec_before(self, other: Self) -> bool {
        if self.year != other.year {
            self.year < other.year
        } else if self.month != other.month {
            self.month < other.month
        } else if self.day != other.day {
            self.day < other.day
        } else if self.hour != other.hour {
            self.hour < other.hour
        } else if self.minute != other.minute {
            self.minute < other.minute
        } else if self.second != other.second {
            self.second < other.second
        } else {
            self.nanosecond < other.nanosecond
        }
    }

    pub fn is_before(&self, other: &Self) -> (r: bool)
        ensures
            r == self.spec_before(*other),
    {
        if self.year != other.year {
            self.year < other.year
        } else if self.month != other.month {
            self.month < other.month
        } else if self.day != other.day {
            self.day < other.day
        } else if self.hour != other.hour {
            self.hour < other.hour
        } else if self.minute != other.minute {
            self.minute < other.minute
        } else if self.second != other.second {
            self.second < other.second
        } else {
            self.nanosecond < other.nanosecond
        }
    }
}

/// What chrono reads from an RFC 3339 text, moved to UTC; `None` where it
/// refuses the text.
pub uninterp spec fn rfc3339_utc(s: Seq<char>) -> Option<DateFields>;

/// Relies on chrono's `DateTime::parse_from_rfc3339` followed by
/// `with_timezone(&Utc)`, read through chrono's `Datelike` and `Timelike`
/// accessors: the result depends on the text alone, and the fields keep
/// the ranges that chrono documents for them.
#[verifier::external_body]
pub(crate) fn parse_rfc3339_utc(s: &String) -> (r: Option<UtcDateTime>)
    ensures
        r is None <==> rfc3339_utc(s@) is None,
        r matches Some(d) ==> rfc3339_utc(s@) == Some(d.fields()) && d.is_valid(),
{
    let u = chrono::DateTime::parse_from_rfc3339(s).ok()?.with_timezone(&chrono::Utc);
    Some(UtcDateTime {
        year: u.year(), month: u.month(), day: u.day(),
        hour: u.hour(), minute: u.minute(), second: u.second(), nanosecond: u.nanosecond(),
    })
}

/// Relies on chrono's `Utc::now`: the current time, whose fields keep the
/// ranges that chrono documents. Nothing else is known of it.
#[verifier::external_body]
fn utc_now() -> (r: UtcDateTime)
    ensures
        r.is_valid(),
{
    let u = chrono::Utc::now();
    UtcDateTime {
        year: u.year(), month: u.month(), day: u.day(),
        hour: u.hour(), minute: u.minute(), second: u.second(), nanosecond: u.nanosecond(),
    }
}

/// The instant two calendar years before `now`: the year less two, the rest
/// of the date and the time of day kept, fractions of a second dropped. The
/// 29th of February, which the earlier year lacks, becomes the 28th.
pub open spec fn spec_two_years_before(now: UtcDateTime) -> UtcDateTime {
    UtcDateTime {
        year: (now.year - 2) as i32,
        month: now.month,
        day: if now.month == 2 && now.day == 29 { 28 } else { now.day },
        hour: now.hour,
        minute: now.minute,
        second: now.second,
        nanosecond: 0,
    }
}

/// The recency cutoff for a run that starts at `now`.
pub fn two_years_before(now: &UtcDateTime) -> (r: UtcDateTime)
    requires
        now.is_valid(),
    ensures
        r == spec_two_years_before(*now),
{
    let day = if now.month == 2 && now.day == 29 {
        28
    } else {
        now.day
    };
    UtcDateTime {
        year: now.year - 2,
        month: now.month,
        day,
        hour: now.hour,
        minute: now.minute,
        second: now.second,
        nanosecond: 0,
    }
}

/// The cutoff for a run that starts now; computed once per run by the
/// caller and held for the rest of it.
pub fn current_cutoff() -> (r: UtcDateTime)
    ensures
        exists|now: UtcDateTime| now.is_valid() && r == spec_two_years_before(now),
{
    let now = utc_now();
    two_years_before(&now)
}

/// A commit is recent when it is not earlier than the cutoff: a commit at
/// the cutoff itself is recent.
pub open spec fn spec_is_recent(commit: UtcDateTime, cutoff: UtcDateTime) -> bool {
    !commit.spec_before(cutoff)
}

pub fn is_recent(commit: &UtcDateTime, cutoff: &UtcDateTime) -> (r: bool)
    ensures
        r == spec_is_recent(*commit, *cutoff),
        *commit == *cutoff ==> r,
{
    !commit.is_before(cutoff)
}

} // verus!
