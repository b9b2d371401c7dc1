//! The local time of a request, read from text by `chrono`.

use vstd::prelude::*;

verus! {

/// The format in which the server writes the local time of a request, as in
/// `22/Jan/2021:17:24:17 +0000`.
pub const NGINX_LOCAL_TIME_FMT: &'static str = "%d/%b/%Y:%H:%M:%S %z";

/// A point in time together with the offset of the time zone it was written
/// in.
#[derive(Clone, Copy, Debug, PartialEq, Eq, Structural)]
pub struct LocalTime {
    /// Seconds from 1970-01-01 00:00:00 UTC, leap seconds not counted.
    pub timestamp: i64,
    /// Nanoseconds after that second; a thousand million or more inside a leap
    /// second.
    pub nanos: u32,
    /// Seconds that the local time is ahead of UTC.
    pub offset: i32,
}

#[verifier::external_type_specification]
#[verifier::external_body]
pub struct ExParseError(chrono::ParseError);

/// What `chrono::DateTime::parse_from_str` reads from `text` under `format`:
/// the timestamp, the nanoseconds after it and the offset in seconds east of
/// UTC; `None` where it gives an error.
pub uninterp spec fn datetime_of(text: Seq<char>, format: Seq<char>) -> Option<(i64, u32, i32)>;

/// Calls `chrono::DateTime::parse_from_str`. The contract names what it
/// returns, which depends on the two texts alone, and claims nothing else of
/// it: a date and time with a fixed offset as timestamp, nanoseconds and
/// offset, or the error.
#[verifier::external_body]
fn parse_from_str(text: &str, format: &str) -> (r: Result<(i64, u32, i32), chrono::ParseError>)
    ensures
        r is Ok ==> datetime_of(text@, format@) == Some(r->Ok_0),
        r is Err ==> datetime_of(text@, format@) is None,
{
    match chrono::DateTime::parse_from_str(text, format) {
        Ok(t) => Ok((t.timestamp(), t.timestamp_subsec_nanos(), t.offset().local_minus_utc())),
        Err(e) => Err(e),
    }
}

/// The local time that `text` states in the server's format.
pub open spec fn local_time(text: Seq<char>) -> Option<LocalTime> {
    match datetime_of(text, NGINX_LOCAL_TIME_FMT@) {
        Some(t) => Some(LocalTime { timestamp: t.0, nanos: t.1, offset: t.2 }),
        None => None,
    }
}

impl LocalTime {
    /// Reads a local time in the server's format; `None` if `text` is not in
    /// that format or states no time that exists.
    pub fn parse(text: &str) -> (r: Option<LocalTime>)
        ensures
            r == local_time(text@),
    {
        match parse_from_str(text, NGINX_LOCAL_TIME_FMT) {
            Ok(t) => Some(LocalTime { timestamp: t.0, nanos: t.1, offset: t.2 }),
            Err(_) => None,
        }
    }
}

} // verus!
