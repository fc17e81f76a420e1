use vstd::prelude::*;

verus! {

/// Largest timestamp (whole seconds since the UNIX epoch) for which a
/// calendar date is promised below: the last second of year 9999.
pub const MAX_DATE_SECS: i64 = 253402300799;

/// The "%Y-%m-%d" rendering of a UNIX timestamp, exactly as chrono produces
/// it. The rendering depends on the timestamp alone.
pub uninterp spec fn yyyy_mm_dd_of(secs: int) -> Seq<char>;

/// Relies on chrono's `TimeZone::timestamp_opt` for `Utc` together with
/// `DateTime::format("%Y-%m-%d")`: the formatted text is a function of the
/// timestamp alone, and every timestamp from the epoch through year 9999 is
/// in chrono's representable range, so it maps to a date rather than to
/// `LocalResult::None`.
#[verifier::external_body]
fn format_yyyy_mm_dd(secs: i64) -> (r: Option<String>)
    ensures
        r matches Some(s) ==> s@ == yyyy_mm_dd_of(secs as int),
        0 <= secs <= MAX_DATE_SECS ==> r is Some,
{
    match chrono::TimeZone::timestamp_opt(&chrono::Utc, secs, 0) {
        chrono::LocalResult::Single(dt) => Some(dt.format("%Y-%m-%d").to_string()),
        _ => None,
    }
}

/// The "%Y-%m-%d" rendering of a timestamp, when it lies in chrono's
/// representable range.
pub fn yyyy_mm_dd_format(secs: i64) -> (r: Option<String>)
    ensures
        r matches Some(s) ==> s@ == yyyy_mm_dd_of(secs as int),
        0 <= secs <= MAX_DATE_SECS ==> r is Some,
{
    format_yyyy_mm_dd(secs)
}

/// A point in time, held as whole seconds since the UNIX epoch.
#[derive(Debug, Clone, Copy, PartialEq, Eq, Structural)]
pub struct DateTimeWrap(pub i64);

impl From<i64> for DateTimeWrap {
    fn from(value: i64) -> (r: Self) {
        DateTimeWrap(value)
    }
}

impl vstd::std_specs::convert::FromSpecImpl<i64> for DateTimeWrap {
    open spec fn obeys_from_spec() -> bool {
        true
    }

    open spec fn from_spec(value: i64) -> Self {
        DateTimeWrap(value)
    }
}

impl DateTimeWrap {
    /// The "%Y-%m-%d" rendering of this point in time, when it lies in
    /// chrono's representable range.
    pub fn yyyy_mm_dd_format(&self) -> (r: Option<String>)
        ensures
            r matches Some(s) ==> s@ == yyyy_mm_dd_of(self.0 as int),
            0 <= self.0 <= MAX_DATE_SECS ==> r is Some,
    {
        format_yyyy_mm_dd(self.0)
    }
}

} // verus!
