//! Points in time, as the library's own plain type, and the calls into `chrono`.
use vstd::prelude::*;

verus! {

/// The largest number of seconds after the Unix epoch that `chrono` can represent
/// (the last second of the year 262142).
pub const MAX_TIMESTAMP_SECS: i64 = 8210266876799;

/// The first second of the year 10000: below it, years print with four digits.
pub const YEAR_10000_SECS: i64 = 253402300800;

/// A point in time: whole seconds since the Unix epoch and the nanoseconds after them
/// (at least one billion only during a leap second).
#[derive(Clone, Copy, Debug, PartialEq, Eq, Structural)]
pub struct Timestamp {
    pub secs: i64,
    pub nanos: u32,
}

/// Nanoseconds since the Unix epoch.
pub open spec fn total_nanos(t: Timestamp) -> int {
    t.secs * 1_000_000_000 + t.nanos
}

/// `t` is a time that the system clock can give: from the Unix epoch up to
/// `MAX_TIMESTAMP_SECS`, with a sub-second part below one second.
pub open spec fn is_clock_time(t: Timestamp) -> bool {
    0 <= t.secs <= MAX_TIMESTAMP_SECS && t.nanos < 1_000_000_000
}

/// The current time (`chrono::Utc::now`). What it returns depends on the clock;
/// the contract states only the range that `Utc::now` guarantees: it panics before
/// the Unix epoch, and it builds its result from a duration whose sub-second part is
/// below one second.
#[verifier::external_body]
pub fn utc_now() -> (t: Timestamp)
    ensures
        is_clock_time(t),
{
    let now = chrono::Utc::now();
    Timestamp { secs: now.timestamp(), nanos: now.timestamp_subsec_nanos() }
}

/// The format of the time stamps in archive names: `YYYYMMDDTHHMMSSZ`, in UTC.
pub const STAMP_FORMAT: &'static str = "%Y%m%dT%H%M%SZ";

/// What `chrono` prints for the second `secs` after the epoch with the format `fmt`.
pub uninterp spec fn time_text(secs: int, fmt: Seq<char>) -> Seq<char>;

/// What `chrono::NaiveDateTime::parse_from_str` with the format `fmt` gives for `s`, as
/// (seconds since the epoch, nanoseconds), or `None` where it fails.
pub uninterp spec fn time_parsed(s: Seq<char>, fmt: Seq<char>) -> Option<(i64, u32)>;

/// The stamp of the second `secs` after the epoch.
pub open spec fn compact_stamp_text(secs: int) -> Seq<char> {
    time_text(secs, STAMP_FORMAT@)
}

/// The time that the stamp `s` reads as, or `None`.
pub open spec fn compact_stamp_parsed(s: Seq<char>) -> Option<(i64, u32)> {
    time_parsed(s, STAMP_FORMAT@)
}

/// `c` is an ASCII decimal digit.
pub open spec fn is_digit(c: char) -> bool {
    '0' <= c <= '9'
}

/// `s` has the shape `YYYYMMDDTHHMMSSZ`: sixteen characters, digits but for a `T`
/// at position 8 and a `Z` at the end.
pub open spec fn is_compact_stamp_shape(s: Seq<char>) -> bool {
    &&& s.len() == 16
    &&& s[8] == 'T'
    &&& s[15] == 'Z'
    &&& forall|i: int| 0 <= i < 16 && i != 8 && i != 15 ==> is_digit(#[trigger] s[i])
}

/// Prints the second `secs` after the epoch with the format `fmt`
/// (`chrono::DateTime::format`). The result is named by `time_text`. Rendering panics on
/// a format that `chrono` cannot print, so the one format admitted is the stamp format;
/// for years before 10000 its fields are zero-padded to their fixed widths, which gives
/// the shape stated below. For any year it prints only digits, a sign before a year past
/// 9999, `T` and `Z`, so never a `/`.
#[verifier::external_body]
pub fn format_time(secs: i64, fmt: &str) -> (s: String)
    requires
        0 <= secs <= MAX_TIMESTAMP_SECS,
        fmt@ == STAMP_FORMAT@,
    ensures
        s@ == time_text(secs as int, fmt@),
        secs < YEAR_10000_SECS ==> is_compact_stamp_shape(s@),
        forall|i: int| 0 <= i < s@.len() ==> s@[i] != '/',
{
    chrono::DateTime::from_timestamp(secs, 0).unwrap().format(fmt).to_string()
}

/// Parses `s` as a UTC time with the format `fmt` (`chrono::NaiveDateTime::parse_from_str`).
/// The result is named by `time_parsed`; the one fact stated of it is that, with the stamp
/// format, the parser reads back at whole seconds what `format_time` printed for a year
/// before 10000.
#[verifier::external_body]
pub fn parse_time(s: &str, fmt: &str) -> (r: Option<(i64, u32)>)
    ensures
        r == time_parsed(s@, fmt@),
        fmt@ == STAMP_FORMAT@ ==> forall|secs: int|
            0 <= secs < YEAR_10000_SECS && s@ == #[trigger] time_text(secs, fmt@) ==> r == Some(
                (secs as i64, 0u32),
            ),
{
    match chrono::NaiveDateTime::parse_from_str(s, fmt) {
        Ok(dt) => Some((dt.and_utc().timestamp(), dt.and_utc().timestamp_subsec_nanos())),
        Err(_) => None,
    }
}

} // verus!
