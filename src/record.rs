//! Enriched log lines.
use vstd::prelude::*;

use crate::level::{detect_level, detected_level};
use crate::timestamp::{extract_log_timestamp, extracted_timestamp, Instant};

verus! {

/// One trimmed line with its source label, timestamp and severity.
#[derive(Debug)]
pub struct LogLine {
    source: String,
    raw: String,
    timestamp: Option<Instant>,
    level: Option<String>,
}

impl LogLine {
    pub closed spec fn source_view(&self) -> Seq<char> {
        self.source@
    }

    pub closed spec fn raw_view(&self) -> Seq<char> {
        self.raw@
    }

    pub closed spec fn timestamp_view(&self) -> Option<Instant> {
        self.timestamp
    }

    /// The level as characters.
    pub closed spec fn level_view(&self) -> Option<Seq<char>> {
        match self.level {
            Some(s) => Some(s@),
            None => None,
        }
    }

    pub fn new(
        source: String,
        raw: String,
        timestamp: Option<Instant>,
        level: Option<String>,
    ) -> (r: Self)
        ensures
            r.source_view() == source@,
            r.raw_view() == raw@,
            r.timestamp_view() == timestamp,
            r.level_view() == (match level {
                Some(s) => Some(s@),
                None => None::<Seq<char>>,
            }),
    {
        LogLine { source, raw, timestamp, level }
    }

    pub fn source(&self) -> (r: &str)
        ensures
            r@ == self.source_view(),
    {
        self.source.as_str()
    }

    pub fn raw(&self) -> (r: &str)
        ensures
            r@ == self.raw_view(),
    {
        self.raw.as_str()
    }

    pub fn timestamp(&self) -> (r: Option<Instant>)
        ensures
            r == self.timestamp_view(),
    {
        self.timestamp
    }

    pub fn level(&self) -> (r: Option<&str>)
        ensures
            r is Some <==> self.level_view() is Some,
            r matches Some(l) ==> self.level_view() == Some(l@),
    {
        match &self.level {
            Some(l) => Some(l.as_str()),
            None => None,
        }
    }
}

/// `rec` is `raw` enriched: timestamp and level derived from its text.
pub open spec fn is_enriched(rec: LogLine, source: Seq<char>, raw: Seq<char>, fmt: Seq<char>) -> bool {
    &&& rec.source_view() == source
    &&& rec.raw_view() == raw
    &&& rec.timestamp_view() == extracted_timestamp(raw, fmt)
    &&& rec.level_view() == detected_level(raw)
}

/// Attaches the timestamp and level found in `raw` to it.
pub fn enrich(source: &str, raw: String, date_format: &str) -> (r: LogLine)
    ensures
        is_enriched(r, source@, raw@, date_format@),
{
    let timestamp = extract_log_timestamp(raw.as_str(), date_format);
    let level = detect_level(raw.as_str());
    LogLine::new(source.to_owned(), raw, timestamp, level)
}

} // verus!
