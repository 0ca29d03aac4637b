//! Instants in UTC and their text forms, as chrono writes them.
use vstd::prelude::*;
use crate::config::opt_view;

verus! {

/// An instant: seconds since the Unix epoch and nanoseconds within the second.
#[derive(Clone, Copy)]
pub struct Timestamp {
    pub secs: i64,
    pub nanos: u32,
}

/// The text chrono's `DateTime::<Utc>::format` gives for the instant and
/// pattern; none where `DateTime::from_timestamp` has no instant for it.
pub uninterp spec fn utc_format(secs: i64, nanos: u32, pattern: Seq<char>) -> Option<Seq<char>>;

/// The text chrono's `DateTime::<Utc>::to_rfc3339` gives for the instant;
/// none where `DateTime::from_timestamp` has no instant for it.
pub uninterp spec fn utc_rfc3339(secs: i64, nanos: u32) -> Option<Seq<char>>;

/// The strftime patterns the library formats instants with: a day, and a
/// stamp to the nanosecond for file names.
pub open spec fn known_pattern(p: Seq<char>) -> bool {
    p == "%Y-%m-%d"@ || p == "%Y%m%d_%H%M%S_%f"@
}

/// Calls chrono's `DateTime::<Utc>::from_timestamp` and formats the instant
/// with `DateTime::format`; claims only that the text is chrono's for these
/// arguments. The pattern is one of the library's, which chrono accepts, so
/// writing it out does not fail.
#[verifier::external_body]
pub(crate) fn format_utc(secs: i64, nanos: u32, pattern: &str) -> (r: Option<String>)
    requires
        known_pattern(pattern@),
    ensures
        opt_view(r) == utc_format(secs, nanos, pattern@),
{
    match chrono::DateTime::from_timestamp(secs, nanos) {
        Some(t) => Some(t.format(pattern).to_string()),
        None => None,
    }
}

/// Calls chrono's `DateTime::<Utc>::from_timestamp` and writes the instant
/// with `DateTime::to_rfc3339`; claims that the text is chrono's for these
/// arguments, and that it is one line: chrono writes it from digits, signs,
/// `-`, `T`, `:`, `.` and the offset, and no line end.
#[verifier::external_body]
pub(crate) fn rfc3339_utc(secs: i64, nanos: u32) -> (r: Option<String>)
    ensures
        opt_view(r) == utc_rfc3339(secs, nanos),
        r matches Some(t) ==> !t@.contains('\n'),
{
    match chrono::DateTime::from_timestamp(secs, nanos) {
        Some(t) => Some(t.to_rfc3339()),
        None => None,
    }
}

impl Timestamp {
    /// The instant as RFC 3339 text.
    pub fn rfc3339(&self) -> (r: Option<String>)
        ensures
            opt_view(r) == utc_rfc3339(self.secs, self.nanos),
            r matches Some(t) ==> !t@.contains('\n'),
    {
        rfc3339_utc(self.secs, self.nanos)
    }

    /// The day of the instant, `YYYY-MM-DD`.
    pub fn day(&self) -> (r: Option<String>)
        ensures
            opt_view(r) == utc_format(self.secs, self.nanos, "%Y-%m-%d"@),
    {
        format_utc(self.secs, self.nanos, "%Y-%m-%d")
    }

    /// The instant to the nanosecond, `YYYYMMDD_HHMMSS_NNNNNNNNN`.
    pub fn file_stamp(&self) -> (r: Option<String>)
        ensures
            opt_view(r) == utc_format(self.secs, self.nanos, "%Y%m%d_%H%M%S_%f"@),
    {
        format_utc(self.secs, self.nanos, "%Y%m%d_%H%M%S_%f")
    }
}

} // verus!
