use std::io::Write;

use logz_rs::error::LogError;
use logz_rs::filter::{build_filters, CommonOpts, LogFilters, Pattern};
use logz_rs::ingest::{apply_filters, get_log_lines, SourceData};
use logz_rs::level::detect_level;
use logz_rs::lines::{read_lines, split_lines, LineReader};
use logz_rs::record::{enrich, LogLine};
use logz_rs::source::{is_gzip_path, source_label, DirEntry, PathKind, SourceFile, Walker};
use logz_rs::tail::{TailAction, TailSession};
use logz_rs::timestamp::{extract_log_timestamp, parse_datetime, Instant, DEFAULT_DATE_FORMAT};

fn opts() -> CommonOpts {
    CommonOpts {
        date_format: DEFAULT_DATE_FORMAT.to_string(),
        from_ts: None,
        to_ts: None,
        levels: Vec::new(),
        substring_match: None,
        regex: None,
    }
}

fn no_filters() -> LogFilters {
    build_filters(&opts()).ok().unwrap()
}

fn collect(mut r: LineReader) -> Vec<Result<String, LogError>> {
    let mut out = Vec::new();
    while let Some(item) = r.next() {
        out.push(item);
    }
    out
}

fn texts(r: LineReader) -> Vec<String> {
    collect(r).into_iter().map(|x| x.ok().unwrap()).collect()
}

fn gz(data: &[u8]) -> Vec<u8> {
    let mut e = flate2::write::GzEncoder::new(Vec::new(), flate2::Compression::default());
    e.write_all(data).unwrap();
    e.finish().unwrap()
}

#[test]
fn short_lines_have_no_timestamp() {
    assert_eq!(extract_log_timestamp("", DEFAULT_DATE_FORMAT), None);
    assert_eq!(extract_log_timestamp("2024-01-0", DEFAULT_DATE_FORMAT), None);
    assert_eq!(extract_log_timestamp("123456789", "%s"), None);
}

#[test]
fn shortest_parsing_prefix_wins() {
    // chrono reads a one-digit second, so the 18-character prefix already parses.
    let t = extract_log_timestamp("2024-01-02 03:04:05Z rest of message", DEFAULT_DATE_FORMAT);
    assert_eq!(t, Some(Instant { secs: 1704164640, nanos: 0 }));
    let whole = parse_datetime("2024-01-02 03:04:05", DEFAULT_DATE_FORMAT);
    assert_eq!(whole, Some(Instant { secs: 1704164645, nanos: 0 }));
}

#[test]
fn leading_spaces_are_trimmed_from_prefixes() {
    let t = extract_log_timestamp("2024-01-02 something happened", "%Y-%m-%d %H:%M");
    assert_eq!(t, None);
    let t = extract_log_timestamp("   2024-01-02 03:14 x", "%Y-%m-%d %H:%M");
    assert_eq!(t, Some(Instant { secs: 1704164460, nanos: 0 }));
}

#[test]
fn offset_aware_parse_comes_first() {
    let t = parse_datetime("2024-01-02 03:04:05 +0100", "%Y-%m-%d %H:%M:%S %z");
    assert_eq!(t, Some(Instant { secs: 1704164645 - 3600, nanos: 0 }));
    assert_eq!(parse_datetime("garbage", DEFAULT_DATE_FORMAT), None);
}

#[test]
fn levels_are_found_in_fixed_order() {
    assert_eq!(detect_level("an error happened"), Some("ERROR".to_string()));
    assert_eq!(detect_level("debug: info here"), Some("DEBUG".to_string()));
    assert_eq!(detect_level("Critical failure"), Some("CRITICAL".to_string()));
    assert_eq!(detect_level("nothing here"), None);
    assert_eq!(detect_level(""), None);
}

#[test]
fn warning_is_reported_as_warn() {
    assert_eq!(detect_level("2024 WARNING disk low"), Some("WARN".to_string()));
    assert_eq!(detect_level("warning: disk low"), Some("WARN".to_string()));
}

#[test]
fn build_rejects_bad_from_bound() {
    let mut o = opts();
    o.from_ts = Some("yesterday".to_string());
    match build_filters(&o) {
        Err(LogError::Config { field, raw_value }) => {
            assert_eq!(field, "--from-ts");
            assert_eq!(raw_value, "yesterday");
        }
        _ => panic!("expected a configuration error"),
    }
}

#[test]
fn build_rejects_bad_to_bound() {
    let mut o = opts();
    o.to_ts = Some("2024-13-45 99:00:00".to_string());
    match build_filters(&o) {
        Err(LogError::Config { field, .. }) => assert_eq!(field, "--to-ts"),
        _ => panic!("expected a configuration error"),
    }
}

#[test]
fn build_rejects_bad_regex() {
    let mut o = opts();
    o.regex = Some("(unclosed".to_string());
    match build_filters(&o) {
        Err(LogError::Config { field, raw_value }) => {
            assert_eq!(field, "--regex");
            assert_eq!(raw_value, "(unclosed");
        }
        _ => panic!("expected a configuration error"),
    }
}

#[test]
fn build_accepts_valid_settings() {
    let mut o = opts();
    o.from_ts = Some("2024-01-01 00:00:00".to_string());
    o.to_ts = Some("2024-01-31 23:59:59".to_string());
    o.regex = Some("user=\\d+".to_string());
    o.levels = vec!["ERROR".to_string()];
    o.substring_match = Some("login".to_string());
    let f = build_filters(&o).ok().unwrap();
    assert_eq!(f.from_ts, Some(Instant { secs: 1704067200, nanos: 0 }));
    assert_eq!(f.to_ts, Some(Instant { secs: 1706745599, nanos: 0 }));
    assert_eq!(f.levels, vec!["ERROR".to_string()]);
    assert_eq!(f.substring_match, Some("login".to_string()));
    assert_eq!(f.regex.as_ref().unwrap().as_str(), "user=\\d+");
}

fn line(raw: &str) -> LogLine {
    enrich("app.log", raw.to_string(), DEFAULT_DATE_FORMAT)
}

#[test]
fn missing_timestamp_fails_time_bounds() {
    let mut o = opts();
    o.from_ts = Some("2024-01-01 00:00:00".to_string());
    let f = build_filters(&o).ok().unwrap();
    assert!(!f.matches(&line("ERROR no time here")));
    assert!(f.matches(&line("2024-01-02 03:04:05 ERROR x")));
    assert!(!f.matches(&line("2023-12-31 23:59:59 ERROR x")));
}

#[test]
fn bounds_are_inclusive() {
    let mut o = opts();
    o.from_ts = Some("2024-01-02 03:04:00".to_string());
    o.to_ts = Some("2024-01-02 03:04:00".to_string());
    let f = build_filters(&o).ok().unwrap();
    assert!(f.matches(&line("2024-01-02 03:04:0 x")));
}

#[test]
fn missing_level_fails_level_filter() {
    let mut o = opts();
    o.levels = vec!["ERROR".to_string(), "WARN".to_string()];
    let f = build_filters(&o).ok().unwrap();
    assert!(!f.matches(&line("plain message")));
    assert!(f.matches(&line("warning: low disk")));
    assert!(!f.matches(&line("info: started")));
}

#[test]
fn empty_filters_accept_everything() {
    let f = no_filters();
    assert!(f.matches(&line("")));
    assert!(f.matches(&line("anything at all")));
}

#[test]
fn configured_filters_are_conjoined() {
    let mut o = opts();
    o.from_ts = Some("2024-01-01 00:00:00".to_string());
    o.levels = vec!["ERROR".to_string()];
    o.substring_match = Some("login".to_string());
    o.regex = Some("user=\\d+".to_string());
    let f = build_filters(&o).ok().unwrap();
    assert!(f.matches(&line("2024-01-02 03:04:05 ERROR login user=42")));
    assert!(!f.matches(&line("2023-01-02 03:04:05 ERROR login user=42")));
    assert!(!f.matches(&line("2024-01-02 03:04:05 INFO login user=42")));
    assert!(!f.matches(&line("2024-01-02 03:04:05 ERROR Login user=42")));
    assert!(!f.matches(&line("2024-01-02 03:04:05 ERROR login user=x")));
}

#[test]
fn pattern_matches_anywhere() {
    let p = Pattern::compile("b+c").unwrap();
    assert!(p.is_match("aaabbbcdd"));
    assert!(!p.is_match("aaa"));
    assert!(Pattern::compile("[").is_none());
}

#[test]
fn directory_walk_is_ordered_depth_first() {
    let mut w = Walker::start("logs", PathKind::Dir).ok().unwrap();
    assert_eq!(w.step(), Some("logs".to_string()));
    let entries = vec![
        DirEntry { name: "b.log".to_string(), is_dir: false },
        DirEntry { name: "sub".to_string(), is_dir: true },
        DirEntry { name: "a.log".to_string(), is_dir: false },
    ];
    w.enter_dir("/data/logs", entries).ok().unwrap();
    assert_eq!(w.step(), Some("logs/sub".to_string()));
    w.enter_dir("/data/logs/sub", vec![DirEntry { name: "c.log".to_string(), is_dir: false }])
        .ok()
        .unwrap();
    assert_eq!(w.step(), None);
    let files: Vec<String> = w.into_files().into_iter().map(|f| f.path).collect();
    assert_eq!(files, vec!["logs/a.log", "logs/b.log", "logs/sub/c.log"]);
}

#[test]
fn subdirectory_before_later_file() {
    let mut w = Walker::start("r/", PathKind::Dir).ok().unwrap();
    assert_eq!(w.step(), Some("r/".to_string()));
    let entries = vec![
        DirEntry { name: "z.log".to_string(), is_dir: false },
        DirEntry { name: "m".to_string(), is_dir: true },
    ];
    w.enter_dir("/r", entries).ok().unwrap();
    assert_eq!(w.step(), Some("r/m".to_string()));
    w.enter_dir("/r/m", vec![]).ok().unwrap();
    assert_eq!(w.step(), None);
    let files: Vec<String> = w.into_files().into_iter().map(|f| f.path).collect();
    assert_eq!(files, vec!["r/z.log"]);
}

#[test]
fn empty_directory_gives_no_files() {
    let mut w = Walker::start("empty", PathKind::Dir).ok().unwrap();
    assert_eq!(w.step(), Some("empty".to_string()));
    w.enter_dir("/empty", vec![]).ok().unwrap();
    assert_eq!(w.step(), None);
    assert!(w.into_files().is_empty());
}

#[test]
fn single_file_and_missing_path() {
    let mut w = Walker::start("x/app.LOG.GZ", PathKind::File).ok().unwrap();
    assert_eq!(w.step(), None);
    let files = w.into_files();
    assert_eq!(files.len(), 1);
    assert!(files[0].gzip);
    match Walker::start("nope", PathKind::Missing) {
        Err(LogError::NotFound { path }) => assert_eq!(path, "nope"),
        _ => panic!("expected not found"),
    }
}

#[test]
fn revisited_directory_is_a_cycle() {
    let mut w = Walker::start("a", PathKind::Dir).ok().unwrap();
    assert_eq!(w.step(), Some("a".to_string()));
    w.enter_dir("/a", vec![DirEntry { name: "loop".to_string(), is_dir: true }]).ok().unwrap();
    assert_eq!(w.step(), Some("a/loop".to_string()));
    match w.enter_dir("/a", vec![]) {
        Err(LogError::CycleDetected { path }) => assert_eq!(path, "a/loop"),
        _ => panic!("expected a cycle"),
    }
}

#[test]
fn gzip_flag_follows_extension() {
    assert!(is_gzip_path("a.gz"));
    assert!(is_gzip_path("dir/a.log.GZ"));
    assert!(is_gzip_path("..gz"));
    assert!(!is_gzip_path(".gz"));
    assert!(!is_gzip_path("a.gzip"));
    assert!(!is_gzip_path("gz"));
    assert!(SourceFile::new("x.Gz").gzip);
}

#[test]
fn labels_name_the_file() {
    assert_eq!(source_label("var/log/app.log", false), "app.log");
    assert_eq!(source_label("var/log/", false), "log");
    assert_eq!(source_label("var/log/app.log", true), "stdin");
    assert_eq!(source_label("..", false), "unknown");
    assert_eq!(source_label("", false), "unknown");
}

#[test]
fn lines_are_trimmed_and_last_fragment_kept() {
    let r = read_lines("f", b"  one  \r\n\ntwo\n   three", false);
    assert_eq!(texts(r), vec!["one", "", "two", "three"]);
    let r = read_lines("f", b"a\n", false);
    assert_eq!(texts(r), vec!["a"]);
    let r = read_lines("f", b"", false);
    assert!(texts(r).is_empty());
}

#[test]
fn invalid_utf8_line_is_an_error_item() {
    let r = read_lines("bad.log", b"ok\n\xff\xfe\nafter\n", false);
    let items = collect(r);
    assert_eq!(items.len(), 3);
    assert!(items[0].is_ok());
    match &items[1] {
        Err(LogError::Io { path }) => assert_eq!(path, "bad.log"),
        _ => panic!("expected an error"),
    }
    assert_eq!(items[2].as_ref().ok().unwrap(), "after");
}

#[test]
fn gzip_round_trip_gives_same_lines() {
    let plain = b"first line\n  second \nthird";
    let packed = gz(plain);
    assert_ne!(packed.as_slice(), &plain[..]);
    let a = texts(read_lines("p.log", plain, false));
    let b = texts(read_lines("p.log.gz", &packed, true));
    assert_eq!(a, b);
    assert_eq!(a, vec!["first line", "second", "third"]);
}

#[test]
fn damaged_gzip_yields_one_error() {
    let mut packed = gz(b"some text\n");
    packed.truncate(packed.len() / 2);
    let items = collect(read_lines("d.gz", &packed, true));
    assert_eq!(items.len(), 1);
    assert!(items[0].is_err());
}

#[test]
fn split_keeps_fragment() {
    let (lines, rest) = split_lines(b"ab\ncd\nef");
    assert_eq!(lines, vec![b"ab".to_vec(), b"cd".to_vec()]);
    assert_eq!(rest, b"ef".to_vec());
}

#[test]
fn batch_ingestion_enriches_in_order() {
    let inputs = vec![
        SourceData { file: SourceFile::new("logs/a.log"), data: b"2024-01-02 03:04:05 INFO up\n".to_vec() },
        SourceData { file: SourceFile::new("logs/b.log.gz"), data: gz(b"ERROR down\n") },
    ];
    let recs = get_log_lines(&inputs, false, DEFAULT_DATE_FORMAT).ok().unwrap();
    assert_eq!(recs.len(), 2);
    assert_eq!(recs[0].source(), "a.log");
    assert_eq!(recs[0].raw(), "2024-01-02 03:04:05 INFO up");
    assert_eq!(recs[0].timestamp(), Some(Instant { secs: 1704164640, nanos: 0 }));
    assert_eq!(recs[0].level(), Some("INFO"));
    assert_eq!(recs[1].source(), "b.log.gz");
    assert_eq!(recs[1].timestamp(), None);
    assert_eq!(recs[1].level(), Some("ERROR"));
    let mut o = opts();
    o.levels = vec!["ERROR".to_string()];
    let f = build_filters(&o).ok().unwrap();
    let kept = apply_filters(&f, recs);
    assert_eq!(kept.len(), 1);
    assert_eq!(kept[0].raw(), "ERROR down");
}

#[test]
fn batch_ingestion_stops_at_bad_file() {
    let inputs = vec![
        SourceData { file: SourceFile::new("a.log"), data: b"fine\n".to_vec() },
        SourceData { file: SourceFile::new("b.gz"), data: b"not gzip".to_vec() },
    ];
    match get_log_lines(&inputs, true, DEFAULT_DATE_FORMAT) {
        Err(LogError::Io { path }) => assert_eq!(path, "b.gz"),
        _ => panic!("expected an error"),
    }
}

fn raws(v: Vec<LogLine>) -> Vec<String> {
    v.iter().map(|l| l.raw().to_string()).collect()
}

#[test]
fn tail_skips_existing_content_and_completes_split_lines() {
    let f = no_filters();
    let mut s = TailSession::start("app.log".to_string(), false, 100);
    assert_eq!(s.offset(), 100);
    assert_eq!(s.poll(100), TailAction::Wait);
    assert_eq!(s.poll(112), TailAction::Read { from: 100, to: 112 });
    let out = s.feed(b"first\nsecon", DEFAULT_DATE_FORMAT, &f).ok().unwrap();
    assert_eq!(raws(out), vec!["first"]);
    assert_eq!(s.offset(), 111);
    assert_eq!(s.poll(111), TailAction::Wait);
    assert_eq!(s.poll(119), TailAction::Read { from: 111, to: 119 });
    let out = s.feed(b"d\nthird\n", DEFAULT_DATE_FORMAT, &f).ok().unwrap();
    assert_eq!(raws(out), vec!["second", "third"]);
}

#[test]
fn tail_from_start_reads_everything() {
    let f = no_filters();
    let mut s = TailSession::start("app.log".to_string(), true, 6);
    assert!(s.from_start());
    assert_eq!(s.path(), "app.log");
    assert_eq!(s.poll(6), TailAction::Read { from: 0, to: 6 });
    let out = s.feed(b"a\nbb\n", DEFAULT_DATE_FORMAT, &f).ok().unwrap();
    assert_eq!(raws(out), vec!["a", "bb"]);
}

#[test]
fn tail_restarts_after_truncation() {
    let f = no_filters();
    let mut s = TailSession::start("app.log".to_string(), true, 0);
    assert_eq!(s.poll(9), TailAction::Read { from: 0, to: 9 });
    let out = s.feed(b"old\nstale", DEFAULT_DATE_FORMAT, &f).ok().unwrap();
    assert_eq!(raws(out), vec!["old"]);
    assert_eq!(s.poll(4), TailAction::Restarted);
    assert_eq!(s.offset(), 0);
    assert_eq!(s.poll(4), TailAction::Read { from: 0, to: 4 });
    let out = s.feed(b"new\n", DEFAULT_DATE_FORMAT, &f).ok().unwrap();
    assert_eq!(raws(out), vec!["new"]);
}

#[test]
fn tail_applies_filters() {
    let mut o = opts();
    o.substring_match = Some("keep".to_string());
    let f = build_filters(&o).ok().unwrap();
    let mut s = TailSession::start("app.log".to_string(), true, 0);
    let out = s.feed(b"keep 1\ndrop\nkeep 2\n", DEFAULT_DATE_FORMAT, &f).ok().unwrap();
    assert_eq!(raws(out), vec!["keep 1", "keep 2"]);
}

#[test]
fn tail_reports_undecodable_line() {
    let f = no_filters();
    let mut s = TailSession::start("app.log".to_string(), true, 0);
    assert!(s.feed(b"\xff\n", DEFAULT_DATE_FORMAT, &f).is_err());
    assert_eq!(s.offset(), 2);
}

#[test]
fn record_accessors() {
    let r = LogLine::new("s".to_string(), "x".to_string(), None, Some("INFO".to_string()));
    assert_eq!(r.source(), "s");
    assert_eq!(r.raw(), "x");
    assert_eq!(r.level(), Some("INFO"));
    assert_eq!(r.timestamp(), None);
}
