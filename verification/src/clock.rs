//! The clock: the present instant, and the calendar dates that the store
//! derives from it. All dates are in UTC.

use vstd::prelude::*;

verus! {

/// The number of milliseconds of a day.
pub const MILLIS_PER_DAY: i64 = 86_400_000;

/// The calendar date in UTC of the instant that lies `millis` milliseconds
/// after the start of 1970, written as year, month and day with hyphens
/// between them (`YYYY-MM-DD` for the years of four digits); `None` for an
/// instant outside the range of dates that can be represented.
pub uninterp spec fn utc_date(millis: int) -> Option<Seq<char>>;

/// `DateTime::from_timestamp_millis` of chrono, and `format` with the pattern
/// `%Y-%m-%d` on what it returns. The calendar is not restated: the result is
/// `utc_date(millis)` by name.
#[verifier::external_body]
pub(crate) fn utc_date_of(millis: i64) -> (r: Option<String>)
    ensures
        r.deep_view() == utc_date(millis as int),
{
    match chrono::DateTime::from_timestamp_millis(millis) {
        Some(t) => Some(t.format("%Y-%m-%d").to_string()),
        None => None,
    }
}

/// `Utc::now` of chrono, as `timestamp_millis` gives it: the present
/// instant in milliseconds after the start of 1970. Nothing is claimed of it.
#[verifier::external_body]
pub(crate) fn now_millis() -> (r: i64) {
    chrono::Utc::now().timestamp_millis()
}

/// `Utc::now` of chrono, as `to_rfc3339` writes it: the present instant as
/// an RFC 3339 timestamp with offset. Nothing is claimed of it.
#[verifier::external_body]
pub(crate) fn now_rfc3339() -> (r: String) {
    chrono::Utc::now().to_rfc3339()
}

/// The dates from which a note counts as changed today, within the last
/// week, and within the last month.
#[derive(Debug)]
pub struct DayBounds {
    /// The date of today.
    pub today: String,
    /// The date seven days ago.
    pub week_start: String,
    /// The date thirty days ago.
    pub month_start: String,
}

/// The view of a `DayBounds`.
pub struct DayBoundsView {
    pub today: Seq<char>,
    pub week_start: Seq<char>,
    pub month_start: Seq<char>,
}

impl View for DayBounds {
    type V = DayBoundsView;

    open spec fn view(&self) -> DayBoundsView {
        DayBoundsView {
            today: self.today@,
            week_start: self.week_start@,
            month_start: self.month_start@,
        }
    }
}

/// The day bounds of the instant `now`, if `now` and the instants seven and
/// thirty days before it have a date.
pub open spec fn day_bounds_of(now: int) -> Option<DayBoundsView> {
    if now - 30 * MILLIS_PER_DAY >= i64::MIN && utc_date(now) is Some && utc_date(
        now - 7 * MILLIS_PER_DAY,
    ) is Some && utc_date(now - 30 * MILLIS_PER_DAY) is Some {
        Some(
            DayBoundsView {
                today: utc_date(now)->0,
                week_start: utc_date(now - 7 * MILLIS_PER_DAY)->0,
                month_start: utc_date(now - 30 * MILLIS_PER_DAY)->0,
            },
        )
    } else {
        None
    }
}

/// The day bounds of the instant `now_millis`, in milliseconds after the
/// start of 1970.
pub fn day_bounds_at(now_millis: i64) -> (r: Option<DayBounds>)
    ensures
        match r {
            Some(b) => day_bounds_of(now_millis as int) == Some(b@),
            None => day_bounds_of(now_millis as int) is None,
        },
{
    if now_millis < i64::MIN + 30 * MILLIS_PER_DAY {
        return None;
    }
    let today = utc_date_of(now_millis);
    let week = utc_date_of(now_millis - 7 * MILLIS_PER_DAY);
    let month = utc_date_of(now_millis - 30 * MILLIS_PER_DAY);
    match (today, week, month) {
        (Some(today), Some(week_start), Some(month_start)) => Some(
            DayBounds { today, week_start, month_start },
        ),
        _ => None,
    }
}

/// The day bounds of the present instant. Which instant that is, no contract
/// can say: the bounds are those of some instant, and there are none only
/// where some instant has none.
pub fn day_bounds_now() -> (r: Option<DayBounds>)
    ensures
        r matches Some(b) ==> exists|now: int| day_bounds_of(now) == Some(b@),
        r is None ==> exists|now: int| (#[trigger] day_bounds_of(now)) is None,
{
    let now = now_millis();
    let r = day_bounds_at(now);
    proof {
        if r is None {
            assert(day_bounds_of(now as int) is None);
        }
    }
    r
}

/// The date of today: the date of some instant, and none only where some
/// instant has none.
pub fn today() -> (r: Option<String>)
    ensures
        r matches Some(d) ==> exists|now: int| utc_date(now) == Some(d@),
        r is None ==> exists|now: int| (#[trigger] utc_date(now)) is None,
{
    let now = now_millis();
    let r = utc_date_of(now);
    proof {
        if r is None {
            assert(utc_date(now as int) is None);
        }
    }
    r
}

} // verus!
