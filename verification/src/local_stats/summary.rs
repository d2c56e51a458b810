//! The summary of the last days: seven of them one by one, and thirty together.
use crate::dates::{date_text, format_date, plain_day, MAX_DAY, MIN_DAY};
use crate::local_stats::days::{ascending, empty_day, rows_of, totals_of, DayAgg, DayRow, Totals};
use crate::local_stats::history::{cached_days, CachedDay, CachedDayView};
use crate::pricing::MAX_RATE;
use crate::snapshot::{day_stats, BlendedRate, DayCost, DayStat, DayStatView, LocalStats,
    LocalStatsView, TotalCost, Usd};
use crate::text::{comes_before, lemma_text_order_irreflexive, lemma_text_order_transitive,
    text_before};
use vstd::prelude::*;

verus! {

/// The rows that are not older than a date.
pub open spec fn in_window(
    rows: Seq<(Seq<char>, DayAgg)>,
    start: Seq<char>,
) -> Seq<(Seq<char>, DayAgg)> {
    rows.filter(|r: (Seq<char>, DayAgg)| !text_before(r.0, start))
}

/// What the rows of a table add up to.
pub open spec fn table_totals(rows: Seq<(Seq<char>, DayAgg)>) -> Totals
    decreases rows.len(),
{
    if rows.len() == 0 {
        Totals { tokens: 0, cost: 0, priced: 0 }
    } else {
        let rest = table_totals(rows.drop_last());
        let day = totals_of(rows.last().1);
        Totals {
            tokens: rest.tokens + day.tokens,
            cost: rest.cost + day.cost,
            priced: rest.priced + day.priced,
        }
    }
}

/// What a table says of a date.
pub open spec fn day_in(rows: Seq<(Seq<char>, DayAgg)>, date: Seq<char>) -> Option<DayAgg>
    decreases rows.len(),
{
    if rows.len() == 0 {
        None
    } else if rows.last().0 == date {
        Some(rows.last().1)
    } else {
        day_in(rows.drop_last(), date)
    }
}

/// What the history says of a date: its last day of that date counts.
pub open spec fn cached_tokens_on(cached: Seq<CachedDayView>, date: Seq<char>) -> Option<u64>
    decreases cached.len(),
{
    if cached.len() == 0 {
        None
    } else if cached.last().date == date {
        Some(cached.last().tokens)
    } else {
        cached_tokens_on(cached.drop_last(), date)
    }
}

/// The tokens of the days of the history that are not older than `cutoff` and that the table has no
/// row for.
pub open spec fn cached_tokens_since(
    cached: Seq<CachedDayView>,
    live: Seq<(Seq<char>, DayAgg)>,
    cutoff: Seq<char>,
) -> int
    decreases cached.len(),
{
    if cached.len() == 0 {
        0
    } else {
        let rest = cached_tokens_since(cached.drop_last(), live, cutoff);
        let day = cached.last();
        if !text_before(day.date, cutoff) && day_in(live, day.date) is None {
            rest + day.tokens
        } else {
            rest
        }
    }
}

/// What one token of the table costs on average, over the tokens with a price.
pub open spec fn rate_of(live: Seq<(Seq<char>, DayAgg)>) -> BlendedRate {
    BlendedRate {
        cost: Usd { units: table_totals(live).cost as u128 },
        tokens: table_totals(live).priced as u64,
    }
}

/// One of the seven days: what the table says, or else the history at the blended rate, or else
/// nothing used.
pub open spec fn day_stat(
    date: Seq<char>,
    live: Seq<(Seq<char>, DayAgg)>,
    cached: Seq<CachedDayView>,
) -> DayStatView {
    match day_in(live, date) {
        Some(agg) => DayStatView {
            date,
            tokens: agg.tokens,
            cost_usd: Some(DayCost::Exact(agg.cost_usd)),
        },
        None => match cached_tokens_on(cached, date) {
            Some(tokens) => DayStatView {
                date,
                tokens,
                cost_usd: if rate_of(live).positive() {
                    Some(DayCost::Estimate { tokens, rate: rate_of(live) })
                } else {
                    None
                },
            },
            None => DayStatView {
                date,
                tokens: 0,
                cost_usd: Some(DayCost::Exact(Usd { units: 0 })),
            },
        },
    }
}

/// The seven days that end on a day, oldest first.
pub open spec fn seven_days(
    day: i32,
    live: Seq<(Seq<char>, DayAgg)>,
    cached: Seq<CachedDayView>,
) -> Seq<DayStatView> {
    Seq::new(7, |k: int| day_stat(date_text((day - 6 + k) as i32), live, cached))
}

/// The rows of the seven days that end on a day.
pub open spec fn live_rows(rows: Seq<(Seq<char>, DayAgg)>, day: i32) -> Seq<(Seq<char>, DayAgg)> {
    in_window(rows, date_text((day - 6) as i32))
}

/// The tokens that only the history knows of, within the thirty days that end on a day.
pub open spec fn history_tokens(
    rows: Seq<(Seq<char>, DayAgg)>,
    cached: Seq<CachedDayView>,
    day: i32,
) -> int {
    cached_tokens_since(cached, live_rows(rows, day), date_text((day - 29) as i32))
}

/// The tokens of the thirty days that end on a day.
pub open spec fn thirty_day_tokens(
    rows: Seq<(Seq<char>, DayAgg)>,
    cached: Seq<CachedDayView>,
    day: i32,
) -> int {
    history_tokens(rows, cached, day) + table_totals(live_rows(rows, day)).tokens
}

/// The summary of the days up to `day`, the date that the text `today` stands for.
pub open spec fn summary(
    rows: Seq<(Seq<char>, DayAgg)>,
    cached: Seq<CachedDayView>,
    day: i32,
    today: Seq<char>,
    fetched_at: Seq<char>,
) -> LocalStatsView {
    let live = live_rows(rows, day);
    let history = history_tokens(rows, cached, day);
    let agg = match day_in(live, today) {
        Some(agg) => agg,
        None => empty_day(),
    };
    LocalStatsView {
        today_tokens: agg.tokens,
        today_cost_usd: agg.cost_usd,
        days: seven_days(day, live, cached),
        total_30d_tokens: thirty_day_tokens(rows, cached, day) as u64,
        total_30d_cost_usd: TotalCost {
            live: rate_of(live).cost,
            estimated_tokens: history as u64,
            rate: rate_of(live),
        },
        cost_is_estimate: history > 0,
        fetched_at,
        stale: false,
    }
}

/// Whether no row has more tokens with a price than tokens, nor a price above the highest rate.
pub open spec fn sound_rows(rows: Seq<(Seq<char>, DayAgg)>) -> bool {
    forall|i: int|
        0 <= i < rows.len() ==> {
            &&& (#[trigger] rows[i]).1.priced_tokens <= rows[i].1.tokens
            &&& rows[i].1.cost_usd.units <= MAX_RATE * rows[i].1.priced_tokens
        }
}

/// A sound table is sound without its last row.
proof fn lemma_sound_without_last(rows: Seq<(Seq<char>, DayAgg)>)
    requires
        sound_rows(rows),
        rows.len() > 0,
    ensures
        sound_rows(rows.drop_last()),
{
    let rest = rows.drop_last();
    assert forall|i: int| 0 <= i < rest.len() implies {
        &&& (#[trigger] rest[i]).1.priced_tokens <= rest[i].1.tokens
        &&& rest[i].1.cost_usd.units <= MAX_RATE * rest[i].1.priced_tokens
    } by {
        assert(rest[i] == rows[i]);
    }
}

proof fn lemma_table_totals_bounded(rows: Seq<(Seq<char>, DayAgg)>, n: int)
    requires
        sound_rows(rows),
        0 <= n <= rows.len(),
    ensures
        0 <= table_totals(rows.take(n)).priced <= table_totals(rows.take(n)).tokens,
        0 <= table_totals(rows.take(n)).cost <= MAX_RATE * table_totals(rows.take(n)).priced,
        table_totals(rows.take(n)).tokens <= table_totals(rows).tokens,
    decreases rows.len(), n,
{
    if n == rows.len() {
        assert(rows.take(n) =~= rows);
        if n > 0 {
            let rest = rows.drop_last();
            lemma_sound_without_last(rows);
            lemma_table_totals_bounded(rest, n - 1);
            assert(rest.take(n - 1) =~= rest);
            assert(rows[n - 1] == rows.last());
        }
    } else {
        let rest = rows.drop_last();
        lemma_sound_without_last(rows);
        lemma_table_totals_bounded(rest, n);
        assert(rest.take(n) =~= rows.take(n));
    }
}

/// The rows that are not older than a date.
fn keep_window(rows: &Vec<DayRow>, start: &str) -> (r: Vec<DayRow>)
    ensures
        rows_of(r@) == in_window(rows_of(rows@), start@),
{
    let ghost all = rows_of(rows@);
    let ghost pred = |r: (Seq<char>, DayAgg)| !text_before(r.0, start@);
    let mut kept: Vec<DayRow> = Vec::new();
    let mut i: usize = 0;
    proof {
        reveal(Seq::filter);
        assert(rows_of(kept@) =~= all.take(0).filter(pred));
    }
    while i < rows.len()
        invariant
            i <= rows@.len(),
            all == rows_of(rows@),
            pred == (|r: (Seq<char>, DayAgg)| !text_before(r.0, start@)),
            rows_of(kept@) == all.take(i as int).filter(pred),
        decreases rows@.len() - i,
    {
        let ghost before = rows_of(kept@);
        proof {
            reveal(Seq::filter);
            assert(all.take(i + 1).drop_last() =~= all.take(i as int));
            assert(all.take(i + 1).last() == rows@[i as int]@);
        }
        if !comes_before(rows[i].date.as_str(), start) {
            kept.push(DayRow { date: rows[i].date.clone(), agg: rows[i].agg });
            assert(rows_of(kept@) =~= before.push(rows@[i as int]@));
        }
        i = i + 1;
    }
    assert(all.take(i as int) =~= all);
    kept
}

/// What the rows of a table add up to; nothing where the tokens cannot be counted.
fn checked_totals(rows: &Vec<DayRow>) -> (r: Option<DayAgg>)
    requires
        sound_rows(rows_of(rows@)),
    ensures
        match r {
            Some(sum) => totals_of(sum) == table_totals(rows_of(rows@)),
            None => table_totals(rows_of(rows@)).tokens > u64::MAX,
        },
{
    let ghost all = rows_of(rows@);
    let mut sum = DayAgg::default();
    let mut i: usize = 0;
    while i < rows.len()
        invariant
            i <= rows@.len(),
            all == rows_of(rows@),
            sound_rows(all),
            totals_of(sum) == table_totals(all.take(i as int)),
        decreases rows@.len() - i,
    {
        proof {
            assert(all.take(i + 1).drop_last() =~= all.take(i as int));
            assert(all.take(i + 1).last() == rows@[i as int]@);
            assert(all[i as int] == rows@[i as int]@);
            lemma_table_totals_bounded(all, i as int);
            lemma_table_totals_bounded(all, i + 1);
        }
        let day: DayAgg = rows[i].agg;
        match sum.tokens.checked_add(day.tokens) {
            Some(tokens) => {
                sum = DayAgg {
                    tokens,
                    cost_usd: Usd { units: sum.cost_usd.units + day.cost_usd.units },
                    priced_tokens: sum.priced_tokens + day.priced_tokens,
                };
            },
            None => {
                return None;
            },
        }
        i = i + 1;
    }
    assert(all.take(i as int) =~= all);
    Some(sum)
}

/// What a table says of a date.
pub fn find_day(rows: &Vec<DayRow>, date: &str) -> (r: Option<DayAgg>)
    ensures
        r == day_in(rows_of(rows@), date@),
{
    let wanted = date.to_owned();
    let ghost all = rows_of(rows@);
    let mut i: usize = rows.len();
    assert(all.take(i as int) =~= all);
    while i > 0
        invariant
            i <= rows@.len(),
            wanted@ == date@,
            all == rows_of(rows@),
            day_in(all.take(i as int), date@) == day_in(all, date@),
        decreases i,
    {
        proof {
            assert(all.take(i as int).drop_last() =~= all.take(i - 1));
            assert(all.take(i as int).last() == rows@[i - 1]@);
        }
        if rows[i - 1].date == wanted {
            return Some(rows[i - 1].agg);
        }
        i = i - 1;
    }
    None
}

/// What the history says of a date.
pub fn find_cached(cached: &Vec<CachedDay>, date: &str) -> (r: Option<u64>)
    ensures
        r == cached_tokens_on(cached_days(cached@), date@),
{
    let wanted = date.to_owned();
    let ghost all = cached_days(cached@);
    let mut i: usize = cached.len();
    assert(all.take(i as int) =~= all);
    while i > 0
        invariant
            i <= cached@.len(),
            wanted@ == date@,
            all == cached_days(cached@),
            cached_tokens_on(all.take(i as int), date@) == cached_tokens_on(all, date@),
        decreases i,
    {
        proof {
            assert(all.take(i as int).drop_last() =~= all.take(i - 1));
            assert(all.take(i as int).last() == cached@[i - 1]@);
        }
        if cached[i - 1].date == wanted {
            return Some(cached[i - 1].tokens);
        }
        i = i - 1;
    }
    None
}

proof fn lemma_history_grows(
    cached: Seq<CachedDayView>,
    live: Seq<(Seq<char>, DayAgg)>,
    cutoff: Seq<char>,
    n: int,
)
    requires
        0 <= n <= cached.len(),
    ensures
        0 <= cached_tokens_since(cached.take(n), live, cutoff) <= cached_tokens_since(
            cached,
            live,
            cutoff,
        ),
    decreases cached.len(), n,
{
    if n == cached.len() {
        assert(cached.take(n) =~= cached);
        if n > 0 {
            lemma_history_grows(cached.drop_last(), live, cutoff, n - 1);
        }
    } else {
        lemma_history_grows(cached.drop_last(), live, cutoff, n);
        assert(cached.drop_last().take(n) =~= cached.take(n));
    }
}

/// The tokens of the history since `cutoff` that the table has no row for; nothing where they
/// cannot be counted.
fn checked_history(cached: &Vec<CachedDay>, live: &Vec<DayRow>, cutoff: &str) -> (r: Option<u64>)
    ensures
        match r {
            Some(n) => n == cached_tokens_since(cached_days(cached@), rows_of(live@), cutoff@),
            None => cached_tokens_since(cached_days(cached@), rows_of(live@), cutoff@) > u64::MAX,
        },
{
    let ghost all = cached_days(cached@);
    let mut total: u64 = 0;
    let mut i: usize = 0;
    while i < cached.len()
        invariant
            i <= cached@.len(),
            all == cached_days(cached@),
            total == cached_tokens_since(all.take(i as int), rows_of(live@), cutoff@),
        decreases cached@.len() - i,
    {
        proof {
            assert(all.take(i + 1).drop_last() =~= all.take(i as int));
            assert(all.take(i + 1).last() == cached@[i as int]@);
            lemma_history_grows(all, rows_of(live@), cutoff@, i + 1);
        }
        let date = cached[i].date.as_str();
        if !comes_before(date, cutoff) && find_day(live, date).is_none() {
            match total.checked_add(cached[i].tokens) {
                Some(n) => {
                    total = n;
                },
                None => {
                    return None;
                },
            }
        }
        i = i + 1;
    }
    assert(all.take(i as int) =~= all);
    Some(total)
}

/// One of the seven days.
fn make_day(
    date: String,
    live: &Vec<DayRow>,
    cached: &Vec<CachedDay>,
    rate: BlendedRate,
) -> (r: DayStat)
    requires
        rate == rate_of(rows_of(live@)),
    ensures
        r@ == day_stat(date@, rows_of(live@), cached_days(cached@)),
{
    match find_day(live, date.as_str()) {
        Some(agg) => DayStat {
            date,
            tokens: agg.tokens,
            cost_usd: Some(DayCost::Exact(agg.cost_usd)),
        },
        None => match find_cached(cached, date.as_str()) {
            Some(tokens) => DayStat {
                date,
                tokens,
                cost_usd: if rate.is_positive() {
                    Some(DayCost::Estimate { tokens, rate })
                } else {
                    None
                },
            },
            None => DayStat {
                date,
                tokens: 0,
                cost_usd: Some(DayCost::Exact(Usd { units: 0 })),
            },
        },
    }
}

/// Whether the dates of some days ascend.
pub open spec fn dates_ascend(days: Seq<DayStatView>) -> bool {
    forall|i: int, j: int|
        0 <= i < j < days.len() ==> text_before((#[trigger] days[i]).date, (#[trigger] days[j]).date)
}

/// The seven days that end on a day, oldest first. From the year -1 to the year 9999 their dates
/// ascend.
fn make_days(
    day: i32,
    live: &Vec<DayRow>,
    cached: &Vec<CachedDay>,
    rate: BlendedRate,
) -> (r: Vec<DayStat>)
    requires
        MIN_DAY + 29 <= day <= MAX_DAY,
        rate == rate_of(rows_of(live@)),
    ensures
        day_stats(r@) == seven_days(day, rows_of(live@), cached_days(cached@)),
        plain_day((day - 6) as i32) && plain_day(day) ==> dates_ascend(day_stats(r@)),
        plain_day((day - 6) as i32) && plain_day(day) ==> forall|i: int, j: int|
            0 <= i < j < 7 ==> text_before(
                #[trigger] week_dates(day)[i],
                #[trigger] week_dates(day)[j],
            ),
{
    let mut days: Vec<DayStat> = Vec::new();
    let mut k: i32 = 0;
    while k < 7
        invariant
            0 <= k <= 7,
            MIN_DAY + 29 <= day <= MAX_DAY,
            rate == rate_of(rows_of(live@)),
            days@.len() == k,
            forall|j: int|
                0 <= j < k ==> (#[trigger] days@[j])@ == day_stat(
                    date_text((day - 6 + j) as i32),
                    rows_of(live@),
                    cached_days(cached@),
                ),
            plain_day((day - 6) as i32) && plain_day(day) ==> forall|i: int, j: int|
                0 <= i < j < k ==> text_before(
                    #[trigger] date_text((day - 6 + i) as i32),
                    #[trigger] date_text((day - 6 + j) as i32),
                ),
        decreases 7 - k,
    {
        let date = format_date(day - 6 + k);
        days.push(make_day(date, live, cached, rate));
        k = k + 1;
    }
    proof {
        let views = day_stats(days@);
        assert(views =~= seven_days(day, rows_of(live@), cached_days(cached@)));
        if plain_day((day - 6) as i32) && plain_day(day) {
            assert forall|i: int, j: int| 0 <= i < j < views.len() implies text_before(
                (#[trigger] views[i]).date,
                (#[trigger] views[j]).date,
            ) by {
                assert(views[i].date == date_text((day - 6 + i) as i32));
                assert(views[j].date == date_text((day - 6 + j) as i32));
            }
        }
    }
    days
}

proof fn lemma_window_sound(rows: Seq<(Seq<char>, DayAgg)>, start: Seq<char>)
    requires
        sound_rows(rows),
    ensures
        sound_rows(in_window(rows, start)),
    decreases rows.len(),
{
    reveal(Seq::filter);
    if rows.len() > 0 {
        let rest = rows.drop_last();
        lemma_sound_without_last(rows);
        lemma_window_sound(rest, start);
        assert(rows[rows.len() - 1] == rows.last());
        let kept = in_window(rest, start);
        let all = in_window(rows, start);
        assert forall|i: int| 0 <= i < all.len() implies {
            &&& (#[trigger] all[i]).1.priced_tokens <= all[i].1.tokens
            &&& all[i].1.cost_usd.units <= MAX_RATE * all[i].1.priced_tokens
        } by {
            if i < kept.len() {
                assert(all[i] == kept[i]);
            }
        }
    }
}

/// The tokens of some days together.
pub open spec fn tokens_of_days(days: Seq<DayStatView>) -> int
    decreases days.len(),
{
    if days.len() == 0 {
        0
    } else {
        tokens_of_days(days.drop_last()) + days.last().tokens
    }
}

/// The dates of the seven days that end on a day.
pub open spec fn week_dates(day: i32) -> Seq<Seq<char>> {
    Seq::new(7, |k: int| date_text((day - 6 + k) as i32))
}

/// Whether the seven dates that end on a day are in order and none of them is before the first of the
/// thirty.
pub open spec fn week_in_order(day: i32) -> bool {
    &&& forall|i: int, j: int|
        0 <= i < j < 7 ==> text_before(
            #[trigger] week_dates(day)[i],
            #[trigger] week_dates(day)[j],
        )
    &&& forall|k: int|
        0 <= k < 7 ==> !text_before(
            #[trigger] week_dates(day)[k],
            date_text((day - 29) as i32),
        )
}

/// The tokens that the table has for some dates.
spec fn live_part(rows: Seq<(Seq<char>, DayAgg)>, dates: Seq<Seq<char>>) -> int
    decreases dates.len(),
{
    if dates.len() == 0 {
        0
    } else {
        live_part(rows, dates.drop_last()) + match day_in(rows, dates.last()) {
            Some(agg) => agg.tokens as int,
            None => 0,
        }
    }
}

/// The tokens that the history has for those of some dates that the table has no row for.
spec fn cached_part(
    cached: Seq<CachedDayView>,
    live: Seq<(Seq<char>, DayAgg)>,
    dates: Seq<Seq<char>>,
) -> int
    decreases dates.len(),
{
    if dates.len() == 0 {
        0
    } else {
        cached_part(cached, live, dates.drop_last()) + match cached_tokens_on(
            cached,
            dates.last(),
        ) {
            Some(tokens) => if day_in(live, dates.last()) is None {
                tokens as int
            } else {
                0
            },
            None => 0,
        }
    }
}

proof fn lemma_distinct_without_last(dates: Seq<Seq<char>>)
    requires
        dates.no_duplicates(),
        dates.len() > 0,
    ensures
        dates.drop_last().no_duplicates(),
        !dates.drop_last().contains(dates.last()),
        forall|d: Seq<char>|
            #[trigger] dates.contains(d) == (dates.drop_last().contains(d) || d == dates.last()),
{
    let rest = dates.drop_last();
    let n = rest.len() as int;
    assert forall|i: int, j: int|
        0 <= i < rest.len() && 0 <= j < rest.len() && i != j implies rest[i] != rest[j] by {
        assert(dates[i] != dates[j]);
    }
    assert forall|i: int| 0 <= i < rest.len() implies rest[i] != dates.last() by {
        assert(dates[i] != dates[n]);
    }
    assert forall|d: Seq<char>|
        #[trigger] dates.contains(d) == (rest.contains(d) || d == dates.last()) by {
        if rest.contains(d) {
            let i = choose|i: int| 0 <= i < rest.len() && rest[i] == d;
            assert(dates[i] == d);
        }
        if d == dates.last() {
            assert(dates[n] == d);
        }
        if dates.contains(d) && d != dates.last() {
            let i = choose|i: int| 0 <= i < dates.len() && dates[i] == d;
            assert(rest[i] == d);
        }
    }
}

/// One more row adds no more than its tokens, to one date at most.
proof fn lemma_live_part_row(rows: Seq<(Seq<char>, DayAgg)>, dates: Seq<Seq<char>>)
    requires
        rows.len() > 0,
        dates.no_duplicates(),
    ensures
        live_part(rows, dates) <= live_part(rows.drop_last(), dates) + (if dates.contains(
            rows.last().0,
        ) {
            rows.last().1.tokens as int
        } else {
            0
        }),
    decreases dates.len(),
{
    if dates.len() > 0 {
        lemma_distinct_without_last(dates);
        lemma_live_part_row(rows, dates.drop_last());
        assert(dates.contains(rows.last().0) == (dates.drop_last().contains(rows.last().0)
            || rows.last().0 == dates.last()));
    }
}

proof fn lemma_live_part(rows: Seq<(Seq<char>, DayAgg)>, dates: Seq<Seq<char>>)
    requires
        dates.no_duplicates(),
    ensures
        live_part(rows, dates) <= table_totals(rows).tokens,
    decreases rows.len(), dates.len(),
{
    if rows.len() == 0 {
        if dates.len() > 0 {
            lemma_distinct_without_last(dates);
            lemma_live_part(rows, dates.drop_last());
        }
    } else {
        lemma_live_part(rows.drop_last(), dates);
        lemma_live_part_row(rows, dates);
    }
}

/// One more day of the history adds no more than its tokens, to one date at most, and nothing where
/// the table has a row for its date.
proof fn lemma_cached_part_day(
    cached: Seq<CachedDayView>,
    live: Seq<(Seq<char>, DayAgg)>,
    dates: Seq<Seq<char>>,
)
    requires
        cached.len() > 0,
        dates.no_duplicates(),
    ensures
        cached_part(cached, live, dates) <= cached_part(cached.drop_last(), live, dates) + (
        if dates.contains(cached.last().date) && day_in(live, cached.last().date) is None {
            cached.last().tokens as int
        } else {
            0
        }),
    decreases dates.len(),
{
    if dates.len() > 0 {
        lemma_distinct_without_last(dates);
        lemma_cached_part_day(cached, live, dates.drop_last());
        assert(dates.contains(cached.last().date) == (dates.drop_last().contains(
            cached.last().date,
        ) || cached.last().date == dates.last()));
    }
}

proof fn lemma_cached_part(
    cached: Seq<CachedDayView>,
    live: Seq<(Seq<char>, DayAgg)>,
    dates: Seq<Seq<char>>,
    cutoff: Seq<char>,
)
    requires
        dates.no_duplicates(),
        forall|k: int| 0 <= k < dates.len() ==> !text_before(#[trigger] dates[k], cutoff),
    ensures
        cached_part(cached, live, dates) <= cached_tokens_since(cached, live, cutoff),
    decreases cached.len(), dates.len(),
{
    if cached.len() == 0 {
        if dates.len() > 0 {
            lemma_distinct_without_last(dates);
            assert forall|k: int| 0 <= k < dates.drop_last().len() implies !text_before(
                #[trigger] dates.drop_last()[k],
                cutoff,
            ) by {
                assert(dates.drop_last()[k] == dates[k]);
            }
            lemma_cached_part(cached, live, dates.drop_last(), cutoff);
        }
    } else {
        lemma_cached_part(cached.drop_last(), live, dates, cutoff);
        lemma_cached_part_day(cached, live, dates);
        if dates.contains(cached.last().date) {
            let k = choose|k: int| 0 <= k < dates.len() && dates[k] == cached.last().date;
            assert(!text_before(dates[k], cutoff));
        }
    }
}

/// The days of some dates take what the table and the history have for the dates.
proof fn lemma_days_split(
    days: Seq<DayStatView>,
    dates: Seq<Seq<char>>,
    live: Seq<(Seq<char>, DayAgg)>,
    cached: Seq<CachedDayView>,
)
    requires
        days.len() == dates.len(),
        forall|k: int|
            0 <= k < days.len() ==> #[trigger] days[k] == day_stat(dates[k], live, cached),
    ensures
        tokens_of_days(days) == live_part(live, dates) + cached_part(cached, live, dates),
    decreases days.len(),
{
    if days.len() > 0 {
        let (d, t) = (days.drop_last(), dates.drop_last());
        assert forall|k: int| 0 <= k < d.len() implies #[trigger] d[k] == day_stat(
            t[k],
            live,
            cached,
        ) by {
            assert(d[k] == days[k] && t[k] == dates[k]);
        }
        lemma_days_split(d, t, live, cached);
        assert(days[days.len() - 1] == day_stat(dates[dates.len() - 1], live, cached));
    }
}

/// The seven days together have no more tokens than the thirty.
pub proof fn law_week_within_thirty_days(
    rows: Seq<(Seq<char>, DayAgg)>,
    cached: Seq<CachedDayView>,
    day: i32,
)
    requires
        week_in_order(day),
    ensures
        tokens_of_days(seven_days(day, live_rows(rows, day), cached)) <= thirty_day_tokens(
            rows,
            cached,
            day,
        ),
{
    let live = live_rows(rows, day);
    let dates = week_dates(day);
    let days = seven_days(day, live, cached);
    assert forall|i: int, j: int|
        0 <= i < dates.len() && 0 <= j < dates.len() && i != j implies dates[i] != dates[j] by {
        lemma_text_order_irreflexive(dates[i]);
        if i < j {
            assert(text_before(week_dates(day)[i], week_dates(day)[j]));
        } else {
            assert(text_before(week_dates(day)[j], week_dates(day)[i]));
        }
    }
    assert(dates.no_duplicates());
    assert forall|k: int| 0 <= k < days.len() implies #[trigger] days[k] == day_stat(
        dates[k],
        live,
        cached,
    ) by {}
    lemma_days_split(days, dates, live, cached);
    lemma_live_part(live, dates);
    lemma_cached_part(cached, live, dates, date_text((day - 29) as i32));
}

/// The parts of the thirty days are not negative.
pub proof fn lemma_thirty_days_bounded(
    rows: Seq<(Seq<char>, DayAgg)>,
    cached: Seq<CachedDayView>,
    day: i32,
)
    requires
        sound_rows(rows),
    ensures
        history_tokens(rows, cached, day) >= 0,
        0 <= table_totals(live_rows(rows, day)).priced <= table_totals(live_rows(rows, day)).tokens,
        0 <= table_totals(live_rows(rows, day)).cost <= MAX_RATE * table_totals(
            live_rows(rows, day),
        ).priced,
{
    let live = live_rows(rows, day);
    lemma_window_sound(rows, date_text((day - 6) as i32));
    lemma_table_totals_bounded(live, live.len() as int);
    assert(live.take(live.len() as int) =~= live);
    lemma_history_grows(cached, live, date_text((day - 29) as i32), cached.len() as int);
    assert(cached.take(cached.len() as int) =~= cached);
}

/// The summary of the days up to `day`, the date that `today` stands for; nothing where the tokens
/// of the thirty days cannot be counted.
pub fn summarize(
    rows: &Vec<DayRow>,
    cached: &Vec<CachedDay>,
    day: i32,
    today: &str,
    fetched_at: String,
) -> (r: Option<LocalStats>)
    requires
        MIN_DAY + 29 <= day <= MAX_DAY,
        ascending(rows_of(rows@)),
        sound_rows(rows_of(rows@)),
    ensures
        match r {
            Some(stats) => {
                &&& thirty_day_tokens(rows_of(rows@), cached_days(cached@), day) <= u64::MAX
                &&& stats@ == summary(
                    rows_of(rows@),
                    cached_days(cached@),
                    day,
                    today@,
                    fetched_at@,
                )
                &&& plain_day((day - 6) as i32) && plain_day(day) ==> dates_ascend(stats@.days)
                &&& plain_day((day - 29) as i32) && plain_day(day) ==> tokens_of_days(stats@.days)
                    <= stats@.total_30d_tokens
            },
            None => thirty_day_tokens(rows_of(rows@), cached_days(cached@), day) > u64::MAX,
        },
{
    let window_start = format_date(day - 6);
    let live = keep_window(rows, window_start.as_str());
    let ghost live_view = rows_of(live@);
    proof {
        lemma_window_sound(rows_of(rows@), window_start@);
        lemma_table_totals_bounded(live_view, live_view.len() as int);
        assert(live_view.take(live_view.len() as int) =~= live_view);
    }
    let cutoff = format_date(day - 29);
    proof {
        lemma_history_grows(
            cached_days(cached@),
            live_view,
            cutoff@,
            cached@.len() as int,
        );
    }
    let totals = match checked_totals(&live) {
        Some(totals) => totals,
        None => {
            return None;
        },
    };
    let history: u64 = match checked_history(cached, &live, cutoff.as_str()) {
        Some(n) => n,
        None => {
            return None;
        },
    };
    let total: u64 = match history.checked_add(totals.tokens) {
        Some(n) => n,
        None => {
            return None;
        },
    };
    let rate = BlendedRate { cost: totals.cost_usd, tokens: totals.priced_tokens };
    let days = make_days(day, &live, cached, rate);
    proof {
        if plain_day((day - 29) as i32) && plain_day(day) {
            assert forall|k: int| 0 <= k < 7 implies !text_before(
                #[trigger] week_dates(day)[k],
                cutoff@,
            ) by {
                let date = week_dates(day)[k];
                assert(text_before(cutoff@, date_text((day - 6 + k) as i32)));
                if text_before(date, cutoff@) {
                    lemma_text_order_transitive(date, cutoff@, date);
                    lemma_text_order_irreflexive(date);
                }
            }
            law_week_within_thirty_days(rows_of(rows@), cached_days(cached@), day);
        }
    }
    let agg = match find_day(&live, today) {
        Some(agg) => agg,
        None => DayAgg::default(),
    };
    Some(
        LocalStats {
            today_tokens: agg.tokens,
            today_cost_usd: agg.cost_usd,
            days,
            total_30d_tokens: total,
            total_30d_cost_usd: TotalCost {
                live: totals.cost_usd,
                estimated_tokens: history,
                rate,
            },
            cost_is_estimate: history > 0,
            fetched_at,
            stale: false,
        },
    )
}

} // verus!
