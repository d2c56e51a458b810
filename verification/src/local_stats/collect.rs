//! From files to figures: the transcripts and the history become the summary.
use crate::dates::{date_number, date_text, format_date, is_utc_time, local_today, parse_date, plain_day,
    utc_now_rfc3339, EPOCH_DAY, MAX_DAY, MIN_DAY};
use crate::local_stats::days::{are_local_dates, bucket_by_day, is_table_of, lemma_totals_bounded,
    rows_of, totals_of, totals_on, uncountable, DayAgg, DayRow};
use crate::local_stats::cache_laws::law_first_entry_of_each_key_counts;
use crate::local_stats::file_cache::{after_files, first_of_each, has_key, history_of,
    load_recent_entries, paths_of, read_stats_cache_cached, readings_suffice, stats_after, stats_suffice, values_of,
    visited, FileCache, FileCacheView, ScannedFile, StatsFile};
use crate::local_stats::history::{cached_days, CachedDayView};
use crate::local_stats::summary::{dates_ascend, sound_rows, summarize, summary, thirty_day_tokens,
    tokens_of_days};
use crate::local_stats::transcripts::EntryView;
use crate::pricing::MAX_RATE;
use crate::snapshot::LocalStats;
use vstd::prelude::*;

verus! {

/// What the machine decided in one collection: the local date of each entry, the table of the
/// entries, the history, the day that counts as today, and the time.
pub ghost struct Collection {
    pub dates: Seq<Option<Seq<char>>>,
    pub rows: Seq<(Seq<char>, DayAgg)>,
    pub cached: Seq<CachedDayView>,
    pub day: i32,
    pub fetched_at: Seq<char>,
}

/// The entries that count in a scan.
pub open spec fn scanned_entries(cache: FileCacheView, list: Seq<ScannedFile>) -> Seq<EntryView> {
    values_of(first_of_each(visited(cache.files, list)))
}

/// Whether a day can count as today: the date that the text gives, or else that of the clock.
pub open spec fn counts_as_today(today: Seq<char>, day: i32) -> bool {
    match date_number(today) {
        Some(d) => day == d && MIN_DAY <= d <= MAX_DAY,
        None => EPOCH_DAY - 1 <= day <= MAX_DAY,
    }
}

/// Whether a collection is one of these files on that day.
pub open spec fn collects(
    c: Collection,
    cache: FileCacheView,
    today: Seq<char>,
    list: Seq<ScannedFile>,
    stats_file: Option<StatsFile>,
) -> bool {
    &&& are_local_dates(scanned_entries(cache, list), c.dates)
    &&& history_of(cache.stats, stats_file, c.cached)
    &&& counts_as_today(today, c.day)
    &&& is_utc_time(c.fetched_at)
}

/// Whether no figure is too large: the window of days exists, and all tokens can be counted.
pub open spec fn collectable(c: Collection, entries: Seq<EntryView>) -> bool {
    &&& is_table_of(c.rows, c.dates, entries)
    &&& MIN_DAY + 29 <= c.day
    &&& thirty_day_tokens(c.rows, c.cached, c.day) <= u64::MAX
}

/// Whether some figure is too large: a date has more tokens than can be counted, the window of days
/// does not exist, or the thirty days have more tokens than can be counted.
pub open spec fn uncollectable(c: Collection, entries: Seq<EntryView>) -> bool {
    ||| uncountable(c.dates, entries)
    ||| c.day < MIN_DAY + 29
    ||| is_table_of(c.rows, c.dates, entries) && thirty_day_tokens(c.rows, c.cached, c.day)
        > u64::MAX
}

/// The cache after a collection.
pub open spec fn cache_after(
    c: Collection,
    cache: FileCacheView,
    list: Seq<ScannedFile>,
    stats_file: Option<StatsFile>,
) -> FileCacheView {
    FileCacheView {
        files: after_files(cache.files, list).restrict(paths_of(list)),
        stats: stats_after(stats_file, c.cached),
    }
}

/// The rows of a table of entries are sound.
pub proof fn lemma_table_sound(
    rows: Seq<(Seq<char>, DayAgg)>,
    dates: Seq<Option<Seq<char>>>,
    entries: Seq<EntryView>,
)
    requires
        is_table_of(rows, dates, entries),
    ensures
        sound_rows(rows),
{
    assert forall|i: int| 0 <= i < rows.len() implies {
        &&& (#[trigger] rows[i]).1.priced_tokens <= rows[i].1.tokens
        &&& rows[i].1.cost_usd.units <= MAX_RATE * rows[i].1.priced_tokens
    } by {
        lemma_totals_bounded(dates, entries, rows[i].0);
        assert(totals_of(rows[i].1) == totals_on(dates, entries, rows[i].0));
    }
}

/// Whether a text is the date of a day that a clock can show.
pub open spec fn is_clock_date(text: Seq<char>) -> bool {
    exists|day: i32| EPOCH_DAY - 1 <= day <= MAX_DAY && text == #[trigger] date_text(day)
}

/// Today's local date, YYYY-MM-DD.
pub fn today_local() -> (r: String)
    ensures
        is_clock_date(r@),
{
    let day: i32 = local_today();
    format_date(day)
}

/// The rows of a table, where there is one.
spec fn rows_in(table: Option<Vec<DayRow>>) -> Seq<(Seq<char>, DayAgg)> {
    match table {
        Some(rows) => rows_of(rows@),
        None => Seq::empty(),
    }
}

/// The summary of the local files; `today` is the local date, YYYY-MM-DD. Nothing where a figure is
/// too large.
pub fn collect_local_stats(
    today: &str,
    list: &Vec<ScannedFile>,
    stats_file: Option<StatsFile>,
    cache: &mut FileCache,
) -> (r: Option<LocalStats>)
    requires
        old(cache).wf(),
        readings_suffice(old(cache)@.files, list@),
        stats_suffice(old(cache)@.stats, stats_file),
    ensures
        final(cache).wf(),
        exists|c: Collection| #[trigger]
            collects(c, old(cache)@, today@, list@, stats_file) && final(cache)@ == cache_after(
                c,
                old(cache)@,
                list@,
                stats_file,
            ) && match r {
                Some(stats) => {
                    &&& collectable(c, scanned_entries(old(cache)@, list@))
                    &&& stats@ == summary(c.rows, c.cached, c.day, today@, c.fetched_at)
                    &&& plain_day((c.day - 29) as i32) && plain_day(c.day) ==> {
                        &&& dates_ascend(stats@.days)
                        &&& tokens_of_days(stats@.days) <= stats@.total_30d_tokens
                    }
                },
                None => uncollectable(c, scanned_entries(old(cache)@, list@)),
            },
{
    let ghost before = cache@;
    let ghost all = scanned_entries(before, list@);
    let entries = load_recent_entries(list, cache);
    let cached = read_stats_cache_cached(stats_file, cache);
    let day: i32 = match parse_date(today) {
        Some(day) => day,
        None => local_today(),
    };
    let table = bucket_by_day(entries.as_slice());
    let fetched_at = utc_now_rfc3339();
    let ghost dates = choose|dates: Seq<Option<Seq<char>>>| #[trigger]
        are_local_dates(all, dates) && match table {
            Some(rows) => is_table_of(rows_of(rows@), dates, all),
            None => uncountable(dates, all),
        };
    let ghost c = Collection {
        dates,
        rows: rows_in(table),
        cached: cached_days(cached@),
        day,
        fetched_at: fetched_at@,
    };
    assert(collects(c, before, today@, list@, stats_file));
    assert(cache@ == cache_after(c, before, list@, stats_file));
    let rows = match table {
        Some(rows) => rows,
        None => {
            return None;
        },
    };
    if day < MIN_DAY + 29 {
        return None;
    }
    proof {
        lemma_table_sound(rows_of(rows@), dates, all);
    }
    summarize(&rows, &cached, day, today, fetched_at)
}

/// Today is the date that its text gives, and only a text that gives none leaves it to the clock.
pub proof fn law_today_is_as_given(today: Seq<char>, day: i32)
    requires
        counts_as_today(today, day),
    ensures
        date_number(today) matches Some(d) ==> day == d,
        date_number(today) is None ==> 719_162 <= day,
{
}

/// The entries of a scan are those that its files hold, in the order of the files; of several with the
/// same key only the first one is among them.
pub proof fn law_scan_counts_each_entry_once(
    cache: FileCacheView,
    list: Seq<ScannedFile>,
    k: int,
)
    requires
        0 <= k < scanned_entries(cache, list).len(),
    ensures
        exists|i: int|
            0 <= i < visited(cache.files, list).len() && (#[trigger] visited(cache.files, list)[i]).1
                == scanned_entries(cache, list)[k] && !has_key(
                visited(cache.files, list).take(i),
                visited(cache.files, list)[i].0,
            ),
        scanned_entries(cache, list).len() == first_of_each(visited(cache.files, list)).len(),
        scanned_entries(cache, list)[k] == first_of_each(visited(cache.files, list))[k].1,
{
    let pairs = visited(cache.files, list);
    law_first_entry_of_each_key_counts(pairs);
    let first = first_of_each(pairs);
    assert(scanned_entries(cache, list)[k] == first[k].1);
    let i = choose|i: int|
        0 <= i < pairs.len() && #[trigger] pairs[i] == first[k] && !has_key(
            pairs.take(i),
            pairs[i].0,
        );
    assert(pairs[i].1 == first[k].1);
}

/// A collection leaves in the cache the files of its scan and no others.
pub proof fn law_cache_holds_the_scan(
    c: Collection,
    cache: FileCacheView,
    list: Seq<ScannedFile>,
    stats_file: Option<StatsFile>,
    path: Seq<char>,
)
    ensures
        cache_after(c, cache, list, stats_file).files.contains_key(path) ==> exists|i: int|
            0 <= i < list.len() && (#[trigger] list[i]).path@ == path,
        cache_after(c, cache, list, stats_file).stats == match stats_file {
            Some(f) => Some((f.stamp, c.cached)),
            None => None,
        },
{
}

} // verus!
