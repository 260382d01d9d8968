//! Instants in UTC and the prefix-scanning timestamp heuristic.
use vstd::prelude::*;
use vstd::string::StrSliceExecFns;

use crate::text::{chars_of, trim, trim_bounds};

verus! {

/// The format in which log lines start by default.
pub const DEFAULT_DATE_FORMAT: &'static str = "%Y-%m-%d %H:%M:%S";

/// An instant in UTC: whole seconds since the Unix epoch and the nanoseconds
/// past that second.
#[derive(Clone, Copy, Debug, PartialEq, Eq, Structural)]
pub struct Instant {
    pub secs: i64,
    pub nanos: u32,
}

/// `a` is not later than `b`.
pub open spec fn instant_le(a: Instant, b: Instant) -> bool {
    a.secs < b.secs || (a.secs == b.secs && a.nanos <= b.nanos)
}

pub fn instant_le_exec(a: Instant, b: Instant) -> (r: bool)
    ensures
        r == instant_le(a, b),
{
    a.secs < b.secs || (a.secs == b.secs && a.nanos <= b.nanos)
}

/// What chrono's offset-aware parse gives for `ts` under `fmt`, as
/// `(seconds, nanoseconds)` in UTC.
pub uninterp spec fn zoned_parse(ts: Seq<char>, fmt: Seq<char>) -> Option<(i64, u32)>;

/// What chrono's timezone-less parse gives for `ts` under `fmt`, read as UTC.
pub uninterp spec fn naive_parse(ts: Seq<char>, fmt: Seq<char>) -> Option<(i64, u32)>;

/// Relies on `chrono::DateTime::parse_from_str`, which depends on its
/// arguments alone; the instant is taken in UTC.
#[verifier::external_body]
fn parse_zoned(ts: &str, fmt: &str) -> (r: Option<(i64, u32)>)
    ensures
        r == zoned_parse(ts@, fmt@),
{
    match chrono::DateTime::parse_from_str(ts, fmt) {
        Ok(dt) => Some((dt.timestamp(), dt.timestamp_subsec_nanos())),
        Err(_) => None,
    }
}

/// Relies on `chrono::NaiveDateTime::parse_from_str`, which depends on its
/// arguments alone; the wall-clock time is read as UTC.
#[verifier::external_body]
fn parse_naive(ts: &str, fmt: &str) -> (r: Option<(i64, u32)>)
    ensures
        r == naive_parse(ts@, fmt@),
{
    match chrono::NaiveDateTime::parse_from_str(ts, fmt) {
        Ok(dt) => Some((dt.and_utc().timestamp(), dt.and_utc().timestamp_subsec_nanos())),
        Err(_) => None,
    }
}

/// The instant that `ts` denotes under `fmt`: offset-aware first, then
/// timezone-less as UTC.
pub open spec fn parsed_instant(ts: Seq<char>, fmt: Seq<char>) -> Option<Instant> {
    match zoned_parse(ts, fmt) {
        Some(p) => Some(Instant { secs: p.0, nanos: p.1 }),
        None => match naive_parse(ts, fmt) {
            Some(p) => Some(Instant { secs: p.0, nanos: p.1 }),
            None => None,
        },
    }
}

/// Parses the whole of `ts` under `format`.
pub fn parse_datetime(ts: &str, format: &str) -> (r: Option<Instant>)
    ensures
        r == parsed_instant(ts@, format@),
{
    match parse_zoned(ts, format) {
        Some(p) => Some(Instant { secs: p.0, nanos: p.1 }),
        None => match parse_naive(ts, format) {
            Some(p) => Some(Instant { secs: p.0, nanos: p.1 }),
            None => None,
        },
    }
}

pub open spec fn min_int(a: int, b: int) -> int {
    if a < b { a } else { b }
}

/// The longest prefix that is tried.
pub open spec fn scan_limit(line: Seq<char>) -> int {
    min_int(line.len() as int, 40)
}

/// The first prefix length from `len` up to the limit whose trimmed prefix
/// parses, and its instant.
pub open spec fn scan_from(line: Seq<char>, fmt: Seq<char>, len: int) -> Option<Instant>
    decreases 41 - len,
{
    if len > scan_limit(line) || len < 0 {
        None
    } else {
        match parsed_instant(trim(line.subrange(0, len)), fmt) {
            Some(t) => Some(t),
            None => scan_from(line, fmt, len + 1),
        }
    }
}

/// The timestamp found at the start of `line`: the shortest prefix of 10 to
/// 40 characters that parses, trimmed; none for a line under 10 characters.
pub open spec fn extracted_timestamp(line: Seq<char>, fmt: Seq<char>) -> Option<Instant> {
    if line.len() < 10 {
        None
    } else {
        scan_from(line, fmt, 10)
    }
}

/// Scans growing prefixes of `line` for a timestamp in `date_format`.
pub fn extract_log_timestamp(line: &str, date_format: &str) -> (r: Option<Instant>)
    ensures
        r == extracted_timestamp(line@, date_format@),
        line@.len() < 10 ==> r is None,
{
    let cs = chars_of(line);
    let n = cs.len();
    let max_len: usize = if n < 40 { n } else { 40 };
    if max_len < 10 {
        return None;
    }
    let mut end: usize = 10;
    while end <= max_len
        invariant
            cs@ == line@,
            n == cs@.len(),
            max_len as int == scan_limit(line@),
            10 <= end <= max_len + 1,
            scan_from(line@, date_format@, 10) == scan_from(line@, date_format@, end as int),
        decreases max_len + 1 - end,
    {
        let (a, b) = trim_bounds(&cs, end);
        let candidate = line.substring_char(a, b);
        assert(candidate@ == trim(line@.subrange(0, end as int)));
        if let Some(ts) = parse_datetime(candidate, date_format) {
            return Some(ts);
        }
        end = end + 1;
    }
    None
}

} // verus!
