//! Points in time and calendar days as plain numbers.
use vstd::prelude::*;

verus! {

/// Seconds in a day.
pub const SECS_PER_DAY: i64 = 86400;

/// A point in time and the UTC offset it was recorded in: whole seconds
/// since the Unix epoch, the nanoseconds past that second, and the offset
/// east of UTC in seconds (zero for UTC).
#[derive(Debug, Clone, Copy, PartialEq, Eq, Structural)]
pub struct Moment {
    pub secs: i64,
    pub nanos: u32,
    pub offset_secs: i32,
}

/// Whether two moments are the same instant (offsets aside).
pub open spec fn same_instant(a: Moment, b: Moment) -> bool {
    a.secs == b.secs && a.nanos == b.nanos
}

/// Whether `a` is not later than `b`.
pub open spec fn not_later(a: Moment, b: Moment) -> bool {
    a.secs < b.secs || (a.secs == b.secs && a.nanos <= b.nanos)
}

/// The calendar day, counted from 1970-01-01 (day 0), that the moment falls
/// on in its own offset.
pub open spec fn local_day(m: Moment) -> int {
    (m.secs + m.offset_secs) / (SECS_PER_DAY as int)
}

impl Moment {
    /// Whether this is the same instant as `other`.
    pub fn same_instant_as(&self, other: &Moment) -> (res: bool)
        ensures
            res == same_instant(*self, *other),
    {
        self.secs == other.secs && self.nanos == other.nanos
    }

    /// Whether this is not later than `other`.
    pub fn not_later_than(&self, other: &Moment) -> (res: bool)
        ensures
            res == not_later(*self, *other),
    {
        self.secs < other.secs || (self.secs == other.secs && self.nanos <= other.nanos)
    }

    /// The calendar day (days since 1970-01-01) in the moment's own offset.
    pub fn local_day(&self) -> (res: i64)
        ensures
            res == local_day(*self),
    {
        let t: i128 = self.secs as i128 + self.offset_secs as i128;
        let q: i128 = if t >= 0 { t / 86400 } else { -((-t + 86399) / 86400) };
        proof {
            let ti: int = t as int;
            if t < 0 {
                let m: int = (-ti + 86399) / 86400;
                assert(-m == ti / 86400) by (nonlinear_arith)
                    requires
                        ti < 0,
                        m == (-ti + 86399) / 86400,
                ;
            }
            assert(q as int == ti / 86400);
            assert(-9223372036854775808 <= ti / 86400 <= 9223372036854775807) by (nonlinear_arith)
                requires
                    -9223372036854775808 - 2147483648 <= ti <= 9223372036854775807 + 2147483647,
            ;
        }
        q as i64
    }
}

/// The formats the library renders moments and days with: clock time,
/// ISO date, the compact stamp of note filenames, the stamp of conflict
/// copies and the stamp of task filenames.
pub open spec fn is_stamp_format(f: Seq<char>) -> bool {
    ||| f == "%H:%M:%S"@
    ||| f == "%Y-%m-%d"@
    ||| f == "%Y%m%d_%H%M%S"@
    ||| f == "%Y%m%d-%H%M%S"@
    ||| f == "%Y%m%d_%H%M%S_%3f"@
}

/// Two decimal digits of `n` (below 100), zero-padded.
pub open spec fn two_digits(n: int) -> Seq<char> {
    seq![(48 + n / 10) as char, (48 + n % 10) as char]
}

/// The clock time `HH:MM:SS` of the local time `t` (seconds since the
/// epoch, already shifted by the offset).
pub open spec fn clock_text(t: int) -> Seq<char> {
    let d = t % 86400;
    two_digits(d / 3600) + seq![':'] + two_digits((d / 60) % 60) + seq![':'] + two_digits(d % 60)
}

/// What chrono renders, in the strftime format `fmt`, for the moment
/// given by seconds and nanoseconds since the Unix epoch, seen at the
/// given UTC offset; none when chrono cannot represent that moment.
pub uninterp spec fn rendered_moment(secs: i64, nanos: u32, offset_secs: i32, fmt: Seq<char>) -> Option<Seq<char>>;

/// Renders a moment in its own offset (chrono `DateTime::format`, after
/// `DateTime::from_timestamp`, `FixedOffset::east_opt` and
/// `DateTime::with_timezone` turn the plain values into chrono's types).
/// The contract names the text; for the clock format `%H:%M:%S` (and no
/// leap second) it also states what chrono documents: the zero-padded
/// hour, minute and second of the local time.
#[verifier::external_body]
pub(crate) fn format_moment(m: Moment, fmt: &str) -> (res: Option<String>)
    requires
        is_stamp_format(fmt@),
    ensures
        match res {
            Some(s) => rendered_moment(m.secs, m.nanos, m.offset_secs, fmt@) == Some(s@),
            None => rendered_moment(m.secs, m.nanos, m.offset_secs, fmt@) is None,
        },
        fmt@ == "%H:%M:%S"@ && m.nanos < 1_000_000_000 ==> match res {
            Some(s) => s@ == clock_text(m.secs + m.offset_secs),
            None => true,
        },
{
    match (chrono::DateTime::from_timestamp(m.secs, m.nanos), chrono::FixedOffset::east_opt(m.offset_secs)) {
        (Some(utc), Some(offset)) => Some(utc.with_timezone(&offset).format(fmt).to_string()),
        _ => None,
    }
}

/// What chrono renders, in the strftime format `fmt`, for the calendar day
/// `day` (days since 1970-01-01); none when chrono cannot represent it.
pub uninterp spec fn rendered_day(day: i32, fmt: Seq<char>) -> Option<Seq<char>>;

/// Renders a calendar day (chrono `NaiveDate::format`, after
/// `NaiveDate::from_epoch_days`) in the ISO date format `%Y-%m-%d`, which
/// has date items only: a date alone has no time of day to render. The
/// contract names the text.
#[verifier::external_body]
pub(crate) fn format_day(day: i32, fmt: &str) -> (res: Option<String>)
    requires
        fmt@ == "%Y-%m-%d"@,
    ensures
        match res {
            Some(s) => rendered_day(day, fmt@) == Some(s@),
            None => rendered_day(day, fmt@) is None,
        },
{
    match chrono::NaiveDate::from_epoch_days(day) {
        Some(date) => Some(date.format(fmt).to_string()),
        None => None,
    }
}

/// The calendar day (days since 1970-01-01) chrono reads from `s` in the
/// strftime format `fmt`; none when `s` does not parse.
pub uninterp spec fn parsed_day(s: Seq<char>, fmt: Seq<char>) -> Option<i32>;

/// Reads a calendar day (chrono `NaiveDate::parse_from_str`, then
/// `NaiveDate::to_epoch_days`). The contract names the result.
#[verifier::external_body]
pub(crate) fn parse_day(s: &str, fmt: &str) -> (res: Option<i32>)
    ensures
        res == parsed_day(s@, fmt@),
{
    match chrono::NaiveDate::parse_from_str(s, fmt) {
        Ok(date) => Some(date.to_epoch_days()),
        Err(_) => None,
    }
}

} // verus!
