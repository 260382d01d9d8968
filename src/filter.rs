//! Filter construction and evaluation.
use vstd::prelude::*;

use crate::error::LogError;
use crate::record::LogLine;
use crate::text::{chars_of, contains, contains_exec};
use crate::timestamp::{instant_le, instant_le_exec, parse_datetime, parsed_instant, Instant};

verus! {

#[verifier::external_type_specification]
#[verifier::external_body]
pub struct ExRegex(regex::Regex);

/// Whether the regex crate accepts `pattern`.
pub uninterp spec fn regex_compiles(pattern: Seq<char>) -> bool;

/// Whether the regex built from `pattern` matches somewhere in `text`.
pub uninterp spec fn regex_finds(pattern: Seq<char>, text: Seq<char>) -> bool;

/// Relies on `regex::Regex::new`, whose success depends on the pattern alone.
#[verifier::external_body]
fn compile_regex(pattern: &str) -> (r: Option<regex::Regex>)
    ensures
        r is Some <==> regex_compiles(pattern@),
{
    match regex::Regex::new(pattern) {
        Ok(re) => Some(re),
        Err(_) => None,
    }
}

/// A compiled regular expression together with the text it was built from.
pub struct Pattern {
    source: String,
    compiled: regex::Regex,
}

impl View for Pattern {
    type V = Seq<char>;

    closed spec fn view(&self) -> Seq<char> {
        self.source@
    }
}

/// Relies on `regex::Regex::is_match`; `compiled` was built from `source` by
/// `Pattern::compile`, the only way to make a `Pattern`.
#[verifier::external_body]
fn regex_is_match(p: &Pattern, text: &str) -> (r: bool)
    ensures
        r == regex_finds(p@, text@),
{
    p.compiled.is_match(text)
}

impl Pattern {
    pub fn compile(pattern: &str) -> (r: Option<Pattern>)
        ensures
            r is Some <==> regex_compiles(pattern@),
            r matches Some(p) ==> p@ == pattern@,
    {
        match compile_regex(pattern) {
            Some(compiled) => Some(Pattern { source: pattern.to_owned(), compiled }),
            None => None,
        }
    }

    pub fn as_str(&self) -> (r: &str)
        ensures
            r@ == self@,
    {
        self.source.as_str()
    }

    /// Whether the pattern matches somewhere in `text`.
    pub fn is_match(&self, text: &str) -> (r: bool)
        ensures
            r == regex_finds(self@, text@),
    {
        regex_is_match(self, text)
    }
}

/// Raw filter settings, as a user gives them.
#[derive(Debug)]
pub struct CommonOpts {
    pub date_format: String,
    pub from_ts: Option<String>,
    pub to_ts: Option<String>,
    pub levels: Vec<String>,
    pub substring_match: Option<String>,
    pub regex: Option<String>,
}

/// Compiled filters; an absent field imposes no constraint.
pub struct LogFilters {
    pub from_ts: Option<Instant>,
    pub to_ts: Option<Instant>,
    pub regex: Option<Pattern>,
    pub levels: Vec<String>,
    pub substring_match: Option<String>,
}

/// A bound given as text fails to parse under `fmt`.
pub open spec fn bound_unparseable(ts: Option<String>, fmt: Seq<char>) -> bool {
    ts matches Some(s) && parsed_instant(s@, fmt) is None
}

/// The pattern given as text fails to compile.
pub open spec fn pattern_invalid(p: Option<String>) -> bool {
    p matches Some(s) && !regex_compiles(s@)
}

/// The bound that `ts` gives once parsed.
pub open spec fn parsed_bound(ts: Option<String>, fmt: Seq<char>) -> Option<Instant> {
    match ts {
        Some(s) => parsed_instant(s@, fmt),
        None => None,
    }
}

/// The error that `build_filters` reports, the first bad field in the order
/// `from_ts`, `to_ts`, `regex`.
pub open spec fn config_error(c: CommonOpts) -> Option<(Seq<char>, Seq<char>)> {
    if bound_unparseable(c.from_ts, c.date_format@) {
        Some(("--from-ts"@, c.from_ts->0@))
    } else if bound_unparseable(c.to_ts, c.date_format@) {
        Some(("--to-ts"@, c.to_ts->0@))
    } else if pattern_invalid(c.regex) {
        Some(("--regex"@, c.regex->0@))
    } else {
        None
    }
}

pub open spec fn option_view(o: Option<String>) -> Option<Seq<char>> {
    match o {
        Some(s) => Some(s@),
        None => None,
    }
}

/// `f` is what `c` compiles to.
pub open spec fn built_from(f: LogFilters, c: CommonOpts) -> bool {
    &&& f.from_ts == parsed_bound(c.from_ts, c.date_format@)
    &&& f.to_ts == parsed_bound(c.to_ts, c.date_format@)
    &&& f.levels.deep_view() == c.levels.deep_view()
    &&& option_view(f.substring_match) == option_view(c.substring_match)
    &&& (f.regex is Some <==> c.regex is Some)
    &&& (f.regex matches Some(p) ==> p@ == c.regex->0@)
}

fn parse_bound(ts: &Option<String>, format: &String, field: &str) -> (r: Result<Option<Instant>, LogError>)
    ensures
        r is Err <==> bound_unparseable(*ts, format@),
        r matches Ok(b) ==> b == parsed_bound(*ts, format@),
        r matches Err(LogError::Config { field: f, raw_value: v }) ==> f@ == field@ && v@ == ts->0@,
        r matches Err(e) ==> e is Config,
{
    match ts {
        Some(s) => match parse_datetime(s.as_str(), format.as_str()) {
            Some(t) => Ok(Some(t)),
            None => Err(LogError::Config { field: field.to_owned(), raw_value: s.clone() }),
        },
        None => Ok(None),
    }
}

fn copy_strings(v: &Vec<String>) -> (r: Vec<String>)
    ensures
        r.deep_view() == v.deep_view(),
{
    let mut r: Vec<String> = Vec::new();
    let mut i: usize = 0;
    while i < v.len()
        invariant
            i <= v@.len(),
            r@.len() == i,
            forall|j: int| 0 <= j < i ==> #[trigger] r@[j]@ == v@[j]@,
        decreases v@.len() - i,
    {
        let s = v[i].clone();
        r.push(s);
        i = i + 1;
    }
    assert(r.deep_view() =~= v.deep_view());
    r
}

fn copy_option(o: &Option<String>) -> (r: Option<String>)
    ensures
        option_view(r) == option_view(*o),
{
    match o {
        Some(s) => Some(s.clone()),
        None => None,
    }
}

/// Compiles the raw settings: bounds are parsed under the date format and the
/// pattern is compiled; the first field that fails gives a configuration error.
pub fn build_filters(common: &CommonOpts) -> (r: Result<LogFilters, LogError>)
    ensures
        r is Ok <==> config_error(*common) is None,
        r matches Ok(f) ==> built_from(f, *common),
        r matches Err(e) ==> (e matches LogError::Config { field, raw_value }
            && config_error(*common) == Some((field@, raw_value@))),
{
    proof {
        reveal_strlit("--from-ts");
        reveal_strlit("--to-ts");
        reveal_strlit("--regex");
    }
    let from_ts = match parse_bound(&common.from_ts, &common.date_format, "--from-ts") {
        Ok(b) => b,
        Err(e) => return Err(e),
    };
    let to_ts = match parse_bound(&common.to_ts, &common.date_format, "--to-ts") {
        Ok(b) => b,
        Err(e) => return Err(e),
    };
    let regex = match &common.regex {
        Some(p) => match Pattern::compile(p.as_str()) {
            Some(c) => Some(c),
            None => {
                return Err(LogError::Config { field: "--regex".to_owned(), raw_value: p.clone() });
            },
        },
        None => None,
    };
    Ok(LogFilters {
        from_ts,
        to_ts,
        regex,
        levels: copy_strings(&common.levels),
        substring_match: copy_option(&common.substring_match),
    })
}

/// The time bounds accept a record with timestamp `ts`.
pub open spec fn time_accepts(f: LogFilters, ts: Option<Instant>) -> bool {
    (f.from_ts is None && f.to_ts is None) || (ts matches Some(t) && (f.from_ts matches Some(
        lo,
    ) ==> instant_le(lo, t)) && (f.to_ts matches Some(hi) ==> instant_le(t, hi)))
}

/// The level set accepts a record with level `level`.
pub open spec fn level_accepts(f: LogFilters, level: Option<Seq<char>>) -> bool {
    f.levels@.len() == 0 || (level matches Some(l) && f.levels.deep_view().contains(l))
}

/// The substring filter accepts the text `raw`.
pub open spec fn substring_accepts(f: LogFilters, raw: Seq<char>) -> bool {
    f.substring_match matches Some(s) ==> contains(raw, s@)
}

/// The pattern accepts the text `raw`.
pub open spec fn pattern_accepts(f: LogFilters, raw: Seq<char>) -> bool {
    f.regex matches Some(p) ==> regex_finds(p@, raw)
}

/// Every configured filter accepts the record.
pub open spec fn accepts(f: LogFilters, rec: LogLine) -> bool {
    &&& time_accepts(f, rec.timestamp_view())
    &&& level_accepts(f, rec.level_view())
    &&& substring_accepts(f, rec.raw_view())
    &&& pattern_accepts(f, rec.raw_view())
}

fn chars_equal(a: &Vec<char>, b: &Vec<char>) -> (r: bool)
    ensures
        r == (a@ == b@),
{
    if a.len() != b.len() {
        return false;
    }
    let mut i: usize = 0;
    while i < a.len()
        invariant
            a@.len() == b@.len(),
            i <= a@.len(),
            forall|j: int| 0 <= j < i ==> a@[j] == b@[j],
        decreases a@.len() - i,
    {
        if a[i] != b[i] {
            return false;
        }
        i = i + 1;
    }
    assert(a@ =~= b@);
    true
}

impl LogFilters {
    fn level_listed(&self, level: &str) -> (r: bool)
        ensures
            r == self.levels.deep_view().contains(level@),
    {
        let l = chars_of(level);
        let mut i: usize = 0;
        while i < self.levels.len()
            invariant
                l@ == level@,
                i <= self.levels@.len(),
                forall|j: int| 0 <= j < i ==> self.levels.deep_view()[j] != level@,
            decreases self.levels@.len() - i,
        {
            let c = chars_of(self.levels[i].as_str());
            if chars_equal(&c, &l) {
                assert(self.levels.deep_view()[i as int] == level@);
                return true;
            }
            i = i + 1;
        }
        false
    }

    /// Whether `record` passes every configured filter.
    pub fn matches(&self, record: &LogLine) -> (r: bool)
        ensures
            r == accepts(*self, *record),
    {
        if self.from_ts.is_some() || self.to_ts.is_some() {
            match record.timestamp() {
                None => return false,
                Some(t) => {
                    if let Some(lo) = self.from_ts {
                        if !instant_le_exec(lo, t) {
                            return false;
                        }
                    }
                    if let Some(hi) = self.to_ts {
                        if !instant_le_exec(t, hi) {
                            return false;
                        }
                    }
                },
            }
        }
        if self.levels.len() > 0 {
            match record.level() {
                None => return false,
                Some(l) => {
                    if !self.level_listed(l) {
                        return false;
                    }
                },
            }
        }
        if let Some(s) = &self.substring_match {
            let raw = chars_of(record.raw());
            let sub = chars_of(s.as_str());
            if !contains_exec(&raw, &sub) {
                return false;
            }
        }
        if let Some(p) = &self.regex {
            if !p.is_match(record.raw()) {
                return false;
            }
        }
        true
    }
}

/// A record without a timestamp fails whenever a time bound is set; one
/// without a level fails whenever levels are listed; and a record passes only
/// if it passes every configured filter, so failing any one of them rejects it.
pub proof fn lemma_filters_conjoin(f: LogFilters, rec: LogLine)
    ensures
        (f.from_ts is Some || f.to_ts is Some) && rec.timestamp_view() is None ==> !accepts(f, rec),
        f.levels@.len() > 0 && rec.level_view() is None ==> !accepts(f, rec),
        accepts(f, rec) <==> time_accepts(f, rec.timestamp_view()) && level_accepts(f, rec.level_view())
            && substring_accepts(f, rec.raw_view()) && pattern_accepts(f, rec.raw_view()),
{
}

} // verus!
