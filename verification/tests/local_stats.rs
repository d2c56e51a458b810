use claude_usage_meter::local_stats::collect::today_local;
use claude_usage_meter::local_stats::days::{bucket_dated, entry_date, DayRow};
use claude_usage_meter::local_stats::file_cache::{
    read_stats_cache_cached, FileStamp, Reading, ScannedFile, StatsFile, StatsReading,
};
use claude_usage_meter::local_stats::history::{
    checked_sum, is_countable, CachedDay, DailyModelTokens, StatsCache,
};
use claude_usage_meter::local_stats::summary::{find_cached, find_day, summarize};
use claude_usage_meter::local_stats::transcripts::{
    count_line, line_text, Line, RawLine, RawMessage,
};
use claude_usage_meter::local_stats::walk::{recent_cutoff, DirEntry, Walk};
use claude_usage_meter::local_stats::{
    bucket_by_day, collect_local_stats, load_recent_entries, parse_jsonl_file, read_stats_cache,
    recent_transcripts, DayAgg, Entry, FileCache, Usage,
};
use claude_usage_meter::snapshot::{BlendedRate, DayCost, TotalCost, Usd};

fn line(id: &str, request: &str, timestamp: &str, usage: Usage) -> Line {
    Line::Parsed(RawLine {
        kind: Some("assistant".to_string()),
        timestamp: Some(timestamp.to_string()),
        request_id: Some(request.to_string()),
        message: Some(RawMessage {
            id: Some(id.to_string()),
            model: Some("sonnet-4-6".to_string()),
            usage: Some(usage),
        }),
    })
}

fn usage(input: u64, output: u64, write: u64, read: u64) -> Usage {
    Usage {
        input_tokens: input,
        output_tokens: output,
        cache_creation_input_tokens: write,
        cache_read_input_tokens: read,
    }
}

/// Three lines of the assistant, the third a copy of the first, a malformed one, and one of the
/// user.
fn transcript() -> Vec<Line> {
    let first = || line("msg_1", "req_1", "2026-06-10T08:00:00Z", usage(100, 50, 0, 1000));
    vec![
        first(),
        line("msg_2", "req_2", "2026-06-10T09:00:00Z", usage(200, 30, 0, 0)),
        first(),
        Line::Malformed,
        Line::Parsed(RawLine {
            kind: Some("user".to_string()),
            timestamp: None,
            request_id: None,
            message: None,
        }),
    ]
}

fn stats_cache() -> StatsCache {
    let day = |date: &str, tokens: Vec<u64>| DailyModelTokens {
        date: date.to_string(),
        tokens_by_model: tokens,
    };
    StatsCache {
        daily_model_tokens: vec![
            day("2026-06-09", vec![750_000]),
            day("2026-06-08", vec![600_000, 400_000]),
        ],
    }
}

fn stats_file() -> Option<StatsFile> {
    Some(StatsFile {
        stamp: FileStamp { mtime_nanos: 1, len: 1 },
        reading: StatsReading::Read(Some(stats_cache())),
    })
}

fn stamp(n: i128) -> FileStamp {
    FileStamp { mtime_nanos: n, len: 10 }
}

fn scanned(path: &str, n: i128, lines: Option<Vec<Line>>) -> ScannedFile {
    ScannedFile { path: path.to_string(), stamp: stamp(n), reading: Reading::Read(lines) }
}

fn unread(path: &str, n: i128) -> ScannedFile {
    ScannedFile { path: path.to_string(), stamp: stamp(n), reading: Reading::NotRead }
}

/// The local date of a moment.
fn local_date(ts: &str) -> String {
    chrono::DateTime::parse_from_rfc3339(ts)
        .unwrap()
        .with_timezone(&chrono::Local)
        .format("%Y-%m-%d")
        .to_string()
}

#[test]
fn parses_stats_cache_daily_tokens() {
    let days = read_stats_cache(Some(stats_cache())).unwrap();
    assert_eq!(days.len(), 2);
    assert_eq!(days[0].date, "2026-06-08");
    assert_eq!(days[0].tokens, 1_000_000);
    assert_eq!(days[1].tokens, 750_000);
    assert!(read_stats_cache(None).is_none());
}

#[test]
fn days_of_one_date_keep_their_order() {
    let day = |date: &str, n: u64| DailyModelTokens {
        date: date.to_string(),
        tokens_by_model: vec![n],
    };
    let days = read_stats_cache(Some(StatsCache {
        daily_model_tokens: vec![day("b", 1), day("a", 2), day("b", 3), day("", 4), day("a", 5)],
    }))
    .unwrap();
    let seen: Vec<(&str, u64)> = days.iter().map(|d| (d.date.as_str(), d.tokens)).collect();
    assert_eq!(seen, vec![("", 4), ("a", 2), ("a", 5), ("b", 1), ("b", 3)]);
    assert_eq!(find_cached(&days, "b"), Some(3));
    assert_eq!(find_cached(&days, "c"), None);
}

#[test]
fn sums_that_do_not_fit_are_seen() {
    assert_eq!(checked_sum(&vec![]), Some(0));
    assert_eq!(checked_sum(&vec![u64::MAX]), Some(u64::MAX));
    assert_eq!(checked_sum(&vec![u64::MAX, 1]), None);
    let cache = |tokens: Vec<u64>| StatsCache {
        daily_model_tokens: vec![DailyModelTokens { date: "d".into(), tokens_by_model: tokens }],
    };
    assert!(is_countable(&cache(vec![1, 2])));
    assert!(!is_countable(&cache(vec![u64::MAX, 2])));
}

#[test]
fn jsonl_parse_dedupes_and_skips_bad_lines() {
    let pairs = parse_jsonl_file(&Some(transcript()));
    assert_eq!(pairs.len(), 3);
    let e = &pairs[0].1;
    assert_eq!(e.model, "sonnet-4-6");
    assert_eq!(e.usage.input_tokens, 100);
    assert_eq!(e.usage.cache_read_input_tokens, 1000);
    assert_eq!(pairs[0].0, "msg_1:req_1");
    assert_eq!(pairs[2].0, "msg_1:req_1");
    assert!(parse_jsonl_file(&None).is_empty());
}

#[test]
fn lines_that_are_no_utf8_are_skipped() {
    let lines = vec![
        line("m1", "r1", "", Usage::default()),
        Line::Unreadable,
        Line::Malformed,
        line("m2", "r2", "", Usage::default()),
    ];
    let pairs = parse_jsonl_file(&Some(lines));
    let keys: Vec<&str> = pairs.iter().map(|p| p.0.as_str()).collect();
    assert_eq!(keys, vec!["m1:r1", "m2:r2"]);
}

#[test]
fn lines_without_id_model_or_usage_do_not_count() {
    let with = |id: Option<&str>, model: Option<&str>, u: Option<Usage>| {
        Line::Parsed(RawLine {
            kind: Some("assistant".to_string()),
            timestamp: None,
            request_id: None,
            message: Some(RawMessage {
                id: id.map(str::to_string),
                model: model.map(str::to_string),
                usage: u,
            }),
        })
    };
    let u = Some(Usage::default());
    assert!(count_line(&with(None, Some("m"), u)).is_none());
    assert!(count_line(&with(Some("i"), None, u)).is_none());
    assert!(count_line(&with(Some("i"), Some("m"), None)).is_none());
    let (key, entry) = count_line(&with(Some("i"), Some("m"), u)).unwrap();
    assert_eq!(key, "i:");
    assert_eq!(entry.timestamp, "");
}

#[test]
fn aggregates_entries_into_day_buckets() {
    let mut cache = FileCache::default();
    let entries = load_recent_entries(&vec![scanned("t", 1, Some(transcript()))], &mut cache);
    let expected_date = local_date("2026-06-10T08:00:00Z");
    let days = bucket_by_day(&entries).unwrap();
    assert_eq!(days.len(), 1);
    assert_eq!(days[0].date, expected_date);
    assert_eq!(days[0].agg.tokens, 1380);
    assert!(days[0].agg.cost_usd.units > 0);
    assert_eq!(days[0].agg.cost_usd.units, 300 * 30_000 + 80 * 150_000 + 1000 * 3_000);
}

#[test]
fn collect_merges_live_window_with_cached_history() {
    let today = local_date("2026-06-10T08:00:00Z");
    let mut cache = FileCache::default();
    let files = vec![scanned("t", 1, Some(transcript()))];
    let stats = collect_local_stats(&today, &files, stats_file(), &mut cache).unwrap();
    assert_eq!(stats.days.last().unwrap().date, today);
    assert_eq!(stats.today_tokens, 1380);
    assert!(stats.today_cost_usd.units > 0);
    assert_eq!(stats.total_30d_tokens, 1_000_000 + 750_000 + 1380);
    assert!(stats.cost_is_estimate);
    assert_eq!(stats.days.len(), 7);
    assert!(!stats.stale);
    assert!(chrono::DateTime::parse_from_rfc3339(&stats.fetched_at).is_ok());
    assert!(stats.fetched_at.ends_with("+00:00"));
    assert!(stats.days.iter().map(|d| d.tokens).sum::<u64>() <= stats.total_30d_tokens);
    assert!(stats.today_tokens <= stats.days[6].tokens);
}

#[test]
fn dedupes_across_files() {
    let mut cache = FileCache::default();
    let files = vec![
        scanned("a", 1, Some(transcript())),
        scanned("b", 1, Some(transcript())),
    ];
    let entries = load_recent_entries(&files, &mut cache);
    assert_eq!(entries.len(), 2);
}

#[test]
fn file_cache_skips_unchanged_files() {
    let mut cache = FileCache::default();
    assert!(cache.needs_read("a", stamp(1)));
    let first = load_recent_entries(&vec![scanned("a", 1, Some(transcript()))], &mut cache);
    assert!(!cache.needs_read("a", stamp(1)));
    let second = load_recent_entries(&vec![unread("a", 1)], &mut cache);
    assert_eq!(first.len(), second.len());
    assert_eq!(cache.file_count(), 1);
}

#[test]
fn changed_and_vanished_files_leave_the_cache() {
    let mut cache = FileCache::default();
    let files = vec![
        scanned("a", 1, Some(transcript())),
        scanned("b", 1, Some(vec![line("x", "y", "", usage(1, 0, 0, 0))])),
    ];
    assert_eq!(load_recent_entries(&files, &mut cache).len(), 3);
    assert_eq!(cache.file_count(), 2);
    assert!(cache.needs_read("b", stamp(2)));
    assert!(cache.needs_read("b", FileStamp { mtime_nanos: 1, len: 11 }));
    let entries = load_recent_entries(&vec![scanned("b", 2, None)], &mut cache);
    assert!(entries.is_empty());
    assert_eq!(cache.file_count(), 1);
    assert!(cache.needs_read("a", stamp(1)));
    assert!(!cache.needs_read("b", stamp(2)));
}

#[test]
fn old_entries_in_recent_files_do_not_pollute_totals() {
    let old_line = line("msg_old", "req_old", "2026-01-01T08:00:00Z", usage(999999, 0, 0, 0));
    let mut cache = FileCache::default();
    let files = vec![scanned("old", 1, Some(vec![old_line]))];
    let stats = collect_local_stats("2026-06-10", &files, stats_file(), &mut cache).unwrap();
    assert_eq!(stats.total_30d_tokens, 1_750_000);
    assert_eq!(stats.today_tokens, 0);
}

#[test]
fn history_is_read_again_only_when_it_changed() {
    let mut cache = FileCache::default();
    let at = |n: i128, reading: StatsReading| Some(StatsFile { stamp: stamp(n), reading });
    assert!(cache.stats_needs_read(stamp(1)));
    let days = read_stats_cache_cached(
        at(1, StatsReading::Read(Some(stats_cache()))),
        &mut cache,
    );
    assert_eq!(days.len(), 2);
    assert!(!cache.stats_needs_read(stamp(1)));
    let again = read_stats_cache_cached(at(1, StatsReading::NotRead), &mut cache);
    assert_eq!(again.len(), 2);
    assert_eq!(again[0].date, "2026-06-08");
    let broken = read_stats_cache_cached(at(2, StatsReading::Read(None)), &mut cache);
    assert!(broken.is_empty());
    assert!(!cache.stats_needs_read(stamp(2)));
    assert!(read_stats_cache_cached(None, &mut cache).is_empty());
    assert!(cache.stats_needs_read(stamp(2)));
}

#[test]
fn unknown_times_count_as_the_epoch() {
    assert_eq!(FileStamp::new(None, 7), FileStamp { mtime_nanos: 0, len: 7 });
    assert_eq!(FileStamp::new(Some(-3), 7), FileStamp { mtime_nanos: -3, len: 7 });
}

fn entry(timestamp: &str, model: &str, u: Usage) -> Entry {
    Entry { timestamp: timestamp.to_string(), model: model.to_string(), usage: u }
}

#[test]
fn unreadable_timestamps_have_no_date() {
    assert_eq!(entry_date(&entry("yesterday", "sonnet", Usage::default())), None);
    assert_eq!(entry_date(&entry("2026-06-10", "sonnet", Usage::default())), None);
    assert_eq!(
        entry_date(&entry("2026-06-10T12:00:00Z", "sonnet", Usage::default())),
        Some(local_date("2026-06-10T12:00:00Z"))
    );
    let days = bucket_by_day(&[entry("never", "sonnet", usage(5, 0, 0, 0))]).unwrap();
    assert!(days.is_empty());
}

#[test]
fn tables_add_up_by_date() {
    let entries = vec![
        entry("", "sonnet", usage(10, 0, 0, 0)),
        entry("", "zeppelin", usage(5, 5, 5, 5)),
        entry("", "sonnet", usage(0, 1, 0, 0)),
        entry("", "sonnet", usage(100, 0, 0, 0)),
    ];
    let day = |d: &str| Some(d.to_string());
    let dates = vec![day("2026-06-02"), day("2026-06-01"), day("2026-06-02"), None];
    let rows = bucket_dated(&entries, &dates).unwrap();
    assert_eq!(rows.len(), 2);
    assert_eq!(rows[0].date, "2026-06-01");
    assert_eq!(
        rows[0].agg,
        DayAgg { tokens: 20, cost_usd: Usd { units: 0 }, priced_tokens: 0 }
    );
    assert_eq!(rows[1].date, "2026-06-02");
    assert_eq!(
        rows[1].agg,
        DayAgg { tokens: 11, cost_usd: Usd { units: 450_000 }, priced_tokens: 11 }
    );
    assert_eq!(find_day(&rows, "2026-06-02"), Some(rows[1].agg));
    assert_eq!(find_day(&rows, "2026-06-03"), None);
}

#[test]
fn too_many_tokens_give_no_table() {
    let day = |d: &str| Some(d.to_string());
    let many = vec![entry("", "x", usage(u64::MAX, 1, 0, 0))];
    assert!(bucket_dated(&many, &vec![day("a")]).is_none());
    assert!(bucket_dated(&many, &vec![None]).unwrap().is_empty());
    let two = vec![
        entry("", "x", usage(u64::MAX, 0, 0, 0)),
        entry("", "x", usage(1, 0, 0, 0)),
    ];
    assert!(bucket_dated(&two, &vec![day("a"), day("a")]).is_none());
    assert_eq!(bucket_dated(&two, &vec![day("a"), day("b")]).unwrap().len(), 2);
}

/// June 10 of 2026 as a day number.
const TODAY: i32 = 739_777;

fn row(date: &str, tokens: u64, units: u128, priced: u64) -> DayRow {
    DayRow {
        date: date.to_string(),
        agg: DayAgg { tokens, cost_usd: Usd { units }, priced_tokens: priced },
    }
}

fn cached(date: &str, tokens: u64) -> CachedDay {
    CachedDay { date: date.to_string(), tokens }
}

#[test]
fn summary_of_a_window() {
    let rows = vec![
        row("2026-06-03", 900, 9, 900),
        row("2026-06-04", 40, 400, 30),
        row("2026-06-10", 60, 600, 20),
    ];
    let history = vec![
        cached("2026-05-11", 7),
        cached("2026-05-12", 1000),
        cached("2026-06-05", 200),
        cached("2026-06-10", 5000),
    ];
    let s = summarize(&rows, &history, TODAY, "2026-06-10", "now".to_string()).unwrap();
    let dates: Vec<&str> = s.days.iter().map(|d| d.date.as_str()).collect();
    assert_eq!(
        dates,
        vec![
            "2026-06-04",
            "2026-06-05",
            "2026-06-06",
            "2026-06-07",
            "2026-06-08",
            "2026-06-09",
            "2026-06-10",
        ]
    );
    let rate = BlendedRate { cost: Usd { units: 1000 }, tokens: 50 };
    assert_eq!(s.days[0].cost_usd, Some(DayCost::Exact(Usd { units: 400 })));
    assert_eq!(s.days[1].tokens, 200);
    assert_eq!(s.days[1].cost_usd, Some(DayCost::Estimate { tokens: 200, rate }));
    assert_eq!(s.days[2].tokens, 0);
    assert_eq!(s.days[2].cost_usd, Some(DayCost::Exact(Usd { units: 0 })));
    assert_eq!(s.days[6].tokens, 60);
    assert_eq!(s.today_tokens, 60);
    assert_eq!(s.today_cost_usd, Usd { units: 600 });
    assert_eq!(s.total_30d_tokens, 1000 + 200 + 40 + 60);
    assert_eq!(
        s.total_30d_cost_usd,
        TotalCost { live: Usd { units: 1000 }, estimated_tokens: 1200, rate }
    );
    assert!(s.cost_is_estimate);
    assert_eq!(s.fetched_at, "now");
}

#[test]
fn history_without_a_rate_has_no_cost() {
    let s = summarize(
        &vec![],
        &vec![cached("2026-06-09", 5)],
        TODAY,
        "2026-06-10",
        String::new(),
    )
    .unwrap();
    assert_eq!(s.days[5].tokens, 5);
    assert_eq!(s.days[5].cost_usd, None);
    assert!(s.cost_is_estimate);
    let s = summarize(&vec![], &vec![], TODAY, "2026-06-10", String::new()).unwrap();
    assert!(!s.cost_is_estimate);
    assert_eq!(s.total_30d_tokens, 0);
}

#[test]
fn totals_that_do_not_fit_give_no_summary() {
    let rows = vec![row("2026-06-10", u64::MAX, 0, 0)];
    let none = vec![];
    assert!(summarize(&rows, &none, TODAY, "2026-06-10", String::new()).is_some());
    let one = vec![cached("2026-06-09", 1)];
    assert!(summarize(&rows, &one, TODAY, "2026-06-10", String::new()).is_none());
    let old = vec![cached("2026-05-11", 1)];
    assert!(summarize(&rows, &old, TODAY, "2026-06-10", String::new()).is_some());
}

#[test]
fn day_that_is_no_date_means_the_clock() {
    let mut cache = FileCache::default();
    let stats = collect_local_stats("today", &vec![], None, &mut cache).unwrap();
    assert_eq!(stats.days.len(), 7);
    assert_eq!(stats.today_tokens, 0);
    let last = chrono::NaiveDate::parse_from_str(&stats.days[6].date, "%Y-%m-%d").unwrap();
    let now = chrono::Local::now().date_naive();
    assert!((now - last).num_days().abs() <= 1);
}

#[test]
fn first_days_of_the_calendar_give_no_summary() {
    let mut cache = FileCache::default();
    assert!(collect_local_stats("-262143-01-05", &vec![], None, &mut cache).is_none());
    let stats = collect_local_stats("-262143-02-05", &vec![], None, &mut cache).unwrap();
    assert_eq!(stats.days[6].date, "-262143-02-05");
}

fn dir(path: &'static str) -> DirEntry<&'static str> {
    DirEntry { path, is_dir: true, extension: None, modified: Some(0) }
}

fn file(path: &'static str, ext: &str, modified: Option<i128>) -> DirEntry<&'static str> {
    DirEntry { path, is_dir: false, extension: Some(ext.to_string()), modified }
}

#[test]
fn walk_keeps_recent_transcripts() {
    let day: i128 = 86_400_000_000_000;
    let mut walk: Walk<&'static str> = recent_transcripts("root", 10 * day, 8);
    assert_eq!(walk.cutoff, 2 * day);
    assert_eq!(walk.next_directory(), Some("root"));
    walk.take_listing(Some(vec![
        dir("a"),
        file("new.jsonl", "jsonl", Some(2 * day)),
        file("old.jsonl", "jsonl", Some(2 * day - 1)),
        file("unknown.jsonl", "jsonl", None),
        file("note.txt", "txt", Some(3 * day)),
        dir("b.jsonl"),
    ]));
    assert_eq!(walk.next_directory(), Some("b.jsonl"));
    walk.take_listing(None);
    assert_eq!(walk.next_directory(), Some("a"));
    walk.take_listing(Some(vec![file("deep.jsonl", "jsonl", Some(9 * day))]));
    assert_eq!(walk.next_directory(), None);
    assert_eq!(walk.found, vec!["new.jsonl", "deep.jsonl"]);
    assert_eq!(recent_cutoff(5, 0), 5);
}

#[test]
fn today_is_a_date_of_the_clock() {
    let today = chrono::NaiveDate::parse_from_str(&today_local(), "%Y-%m-%d").unwrap();
    assert!((chrono::Local::now().date_naive() - today).num_days().abs() <= 1);
}

#[test]
fn week_is_within_the_thirty_days() {
    let history = vec![
        cached("2026-05-12", 1),
        cached("2026-06-04", 10),
        cached("2026-06-05", 100),
        cached("2026-06-05", 50),
        cached("2026-06-10", 1000),
    ];
    let rows = vec![row("2026-06-10", 7, 0, 0)];
    let s = summarize(&rows, &history, TODAY, "2026-06-10", String::new()).unwrap();
    let week: u64 = s.days.iter().map(|d| d.tokens).sum();
    assert_eq!(week, 10 + 50 + 7);
    assert_eq!(s.total_30d_tokens, 1 + 10 + 100 + 50 + 7);
}

#[test]
fn first_days_of_the_year_zero_are_in_order() {
    let mut cache = FileCache::default();
    let stats = collect_local_stats("0000-01-03", &vec![], None, &mut cache).unwrap();
    let dates: Vec<&str> = stats.days.iter().map(|d| d.date.as_str()).collect();
    assert_eq!(dates[0], "-0001-12-28");
    assert_eq!(dates[3], "-0001-12-31");
    assert_eq!(dates[4], "0000-01-01");
    assert!(dates.windows(2).all(|w| w[0] < w[1]));
}

#[test]
fn line_ends_are_taken_off() {
    let text = |b: &[u8]| line_text(b.to_vec());
    assert_eq!(text(b"abc\n").as_deref(), Some("abc"));
    assert_eq!(text(b"abc\r\n").as_deref(), Some("abc"));
    assert_eq!(text(b"abc\r").as_deref(), Some("abc\r"));
    assert_eq!(text(b"\n").as_deref(), Some(""));
    assert_eq!(text(b"").as_deref(), Some(""));
    assert_eq!(text("ä\n".as_bytes()).as_deref(), Some("ä"));
    assert_eq!(text(&[0xff, 0x0a]), None);
}

#[test]
fn fractions_and_leap_seconds_have_dates() {
    for ts in [
        "2026-06-10T23:59:59.999999999Z",
        "2016-12-31T23:59:60Z",
        "2016-12-31T23:59:60.5+01:30",
        "0000-01-01T00:00:00+23:59",
        "9999-12-31T23:59:59.9-23:59",
    ] {
        let e = entry(ts, "sonnet", Usage::default());
        assert_eq!(entry_date(&e), Some(local_date(ts)), "{ts}");
    }
}
