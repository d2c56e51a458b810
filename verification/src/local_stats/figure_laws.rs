//! Laws of the figures: what each number of the summary is made of, in terms of the rows, the days of
//! the history and the entries.
use crate::dates::{date_text, MAX_DAY, MIN_DAY};
use crate::local_stats::days::{entry_cost, totals_on, uncountable, DayAgg};
use crate::local_stats::history::CachedDayView;
use crate::local_stats::summary::{cached_tokens_on, cached_tokens_since, day_in, in_window,
    lemma_thirty_days_bounded, live_rows, sound_rows, summary, table_totals, thirty_day_tokens};
use crate::local_stats::transcripts::EntryView;
use crate::pricing::rates_for;
use crate::snapshot::{DayCost, TotalCost};
use crate::text::text_before;
use vstd::prelude::*;

verus! {

/// An entry of a date adds its four counts to the tokens of the date, and nothing to those of any
/// other. Where its model has rates, the tokens count as priced and each count costs its own rate;
/// otherwise neither the cost nor the priced tokens change.
pub proof fn law_entry_adds_to_its_date(
    dates: Seq<Option<Seq<char>>>,
    entries: Seq<EntryView>,
    at: Option<Seq<char>>,
    entry: EntryView,
    date: Seq<char>,
)
    requires
        dates.len() == entries.len(),
    ensures
        totals_on(Seq::empty(), Seq::empty(), date).tokens == 0,
        totals_on(Seq::empty(), Seq::empty(), date).cost == 0,
        totals_on(Seq::empty(), Seq::empty(), date).priced == 0,
        ({
            let before = totals_on(dates, entries, date);
            let after = totals_on(dates.push(at), entries.push(entry), date);
            let u = entry.usage;
            let tokens = u.input_tokens + u.output_tokens + u.cache_creation_input_tokens
                + u.cache_read_input_tokens;
            if at != Some(date) {
                after == before
            } else {
                &&& after.tokens - before.tokens == tokens
                &&& match rates_for(entry.model) {
                    Some(rates) => {
                        &&& after.priced - before.priced == tokens
                        &&& after.cost - before.cost == u.input_tokens * rates.input
                            + u.output_tokens * rates.output + u.cache_creation_input_tokens
                            * rates.cache_write + u.cache_read_input_tokens * rates.cache_read
                    },
                    None => after.priced == before.priced && after.cost == before.cost,
                }
            }
        }),
{
    assert(dates.push(at).drop_last() =~= dates);
    assert(entries.push(entry).drop_last() =~= entries);
}

/// What an entry costs is what its four counts cost at the rates of its model, each at the rate of its
/// own kind.
pub proof fn law_entry_costs_its_counts(entry: EntryView)
    ensures
        match rates_for(entry.model) {
            Some(rates) => entry_cost(entry) == Some(
                entry.usage.input_tokens * rates.input + entry.usage.output_tokens * rates.output
                    + entry.usage.cache_creation_input_tokens * rates.cache_write
                    + entry.usage.cache_read_input_tokens * rates.cache_read,
            ),
            None => entry_cost(entry) is None,
        },
{
}

/// The rows of the seven days are the rows of the table that are not older than six days before the
/// day, and no others.
pub proof fn law_week_has_the_recent_rows(
    rows: Seq<(Seq<char>, DayAgg)>,
    day: i32,
    row: (Seq<char>, DayAgg),
)
    ensures
        live_rows(rows, day).contains(row) <==> rows.contains(row) && !text_before(
            row.0,
            date_text((day - 6) as i32),
        ),
{
    lemma_window_contains(rows, date_text((day - 6) as i32), row);
}

proof fn lemma_window_contains(
    rows: Seq<(Seq<char>, DayAgg)>,
    start: Seq<char>,
    row: (Seq<char>, DayAgg),
)
    ensures
        in_window(rows, start).contains(row) <==> rows.contains(row) && !text_before(row.0, start),
    decreases rows.len(),
{
    reveal(Seq::filter);
    if rows.len() > 0 {
        let rest = rows.drop_last();
        let kept = in_window(rest, start);
        let all = in_window(rows, start);
        lemma_window_contains(rest, start, row);
        assert(rows[rows.len() - 1] == rows.last());
        if kept.contains(row) {
            let i = choose|i: int| 0 <= i < kept.len() && kept[i] == row;
            assert(all[i] == row);
        }
        if rest.contains(row) {
            let i = choose|i: int| 0 <= i < rest.len() && rest[i] == row;
            assert(rows[i] == row);
        }
        if !text_before(rows.last().0, start) {
            assert(all[kept.len() as int] == rows.last());
        }
        if rows.contains(row) && rows.last() != row {
            let i = choose|i: int| 0 <= i < rows.len() && rows[i] == row;
            assert(rest[i] == row);
        }
        if all.contains(row) && !kept.contains(row) {
            let i = choose|i: int| 0 <= i < all.len() && all[i] == row;
            if i < kept.len() {
                assert(kept[i] == row);
            }
        }
    }
}

/// What a table says of a date is a row of that date; it says nothing only where there is none.
pub proof fn law_day_is_a_row(rows: Seq<(Seq<char>, DayAgg)>, date: Seq<char>)
    ensures
        match day_in(rows, date) {
            Some(agg) => rows.contains((date, agg)),
            None => forall|i: int| 0 <= i < rows.len() ==> (#[trigger] rows[i]).0 != date,
        },
    decreases rows.len(),
{
    if rows.len() > 0 {
        let rest = rows.drop_last();
        law_day_is_a_row(rest, date);
        assert(rows[rows.len() - 1] == rows.last());
        if rows.last().0 != date {
            match day_in(rest, date) {
                Some(agg) => {
                    let i = choose|i: int| 0 <= i < rest.len() && rest[i] == (date, agg);
                    assert(rows[i] == (date, agg));
                },
                None => {
                    assert forall|i: int| 0 <= i < rows.len() implies (#[trigger] rows[i]).0
                        != date by {
                        if i < rest.len() {
                            assert(rest[i] == rows[i]);
                        }
                    }
                },
            }
        }
    }
}

/// What the history says of a date is the last of its days with that date; it says nothing only where
/// there is none.
pub proof fn law_last_cached_day_counts(cached: Seq<CachedDayView>, date: Seq<char>)
    ensures
        match cached_tokens_on(cached, date) {
            Some(tokens) => exists|i: int|
                0 <= i < cached.len() && (#[trigger] cached[i]) == (CachedDayView { date, tokens })
                    && forall|j: int| i < j < cached.len() ==> (#[trigger] cached[j]).date != date,
            None => forall|i: int| 0 <= i < cached.len() ==> (#[trigger] cached[i]).date != date,
        },
    decreases cached.len(),
{
    if cached.len() > 0 {
        let rest = cached.drop_last();
        let n = cached.len() - 1;
        law_last_cached_day_counts(rest, date);
        assert(cached[n] == cached.last());
        if cached.last().date == date {
            assert(cached[n] == (CachedDayView { date, tokens: cached.last().tokens }));
        } else {
            match cached_tokens_on(rest, date) {
                Some(tokens) => {
                    let i = choose|i: int|
                        0 <= i < rest.len() && (#[trigger] rest[i]) == (CachedDayView {
                            date,
                            tokens,
                        }) && forall|j: int|
                            i < j < rest.len() ==> (#[trigger] rest[j]).date != date;
                    assert(cached[i] == rest[i]);
                    assert forall|j: int| i < j < cached.len() implies (#[trigger] cached[j]).date
                        != date by {
                        if j < rest.len() {
                            assert(rest[j] == cached[j]);
                        }
                    }
                },
                None => {
                    assert forall|j: int| 0 <= j < cached.len() implies (#[trigger] cached[j]).date
                        != date by {
                        if j < rest.len() {
                            assert(rest[j] == cached[j]);
                        }
                    }
                },
            }
        }
    }
}

/// One more row adds its tokens, its cost and its priced tokens to the totals of a table, each to its
/// own; a table without rows has none.
pub proof fn law_row_adds_to_the_table(rows: Seq<(Seq<char>, DayAgg)>, row: (Seq<char>, DayAgg))
    ensures
        table_totals(Seq::empty()).tokens == 0,
        table_totals(Seq::empty()).cost == 0,
        table_totals(Seq::empty()).priced == 0,
        table_totals(rows.push(row)).tokens - table_totals(rows).tokens == row.1.tokens,
        table_totals(rows.push(row)).cost - table_totals(rows).cost == row.1.cost_usd.units,
        table_totals(rows.push(row)).priced - table_totals(rows).priced == row.1.priced_tokens,
{
    assert(rows.push(row).drop_last() =~= rows);
}

/// One more day of the history adds its tokens exactly where it is not older than the cutoff and the
/// table has no row of its date; otherwise it adds nothing.
pub proof fn law_cached_day_adds_its_tokens(
    cached: Seq<CachedDayView>,
    live: Seq<(Seq<char>, DayAgg)>,
    cutoff: Seq<char>,
    day: CachedDayView,
)
    ensures
        cached_tokens_since(Seq::empty(), live, cutoff) == 0,
        !text_before(day.date, cutoff) && (forall|i: int|
            0 <= i < live.len() ==> (#[trigger] live[i]).0 != day.date) ==> cached_tokens_since(
            cached.push(day),
            live,
            cutoff,
        ) - cached_tokens_since(cached, live, cutoff) == day.tokens,
        text_before(day.date, cutoff) || (exists|i: int|
            0 <= i < live.len() && (#[trigger] live[i]).0 == day.date) ==> cached_tokens_since(
            cached.push(day),
            live,
            cutoff,
        ) == cached_tokens_since(cached, live, cutoff),
{
    assert(cached.push(day).drop_last() =~= cached);
    law_day_is_a_row(live, day.date);
    if let Some(agg) = day_in(live, day.date) {
        let i = choose|i: int| 0 <= i < live.len() && live[i] == (day.date, agg);
        assert(live[i].0 == day.date);
    }
}

/// Each of the seven days shows what the rows of the week say of its date: the tokens of the row and
/// their cost. Without a row it shows the tokens of the history, with a cost only where some live token
/// has one: the tokens at the live cost over the live priced tokens. Without either it shows zero.
pub proof fn law_each_day_shows_its_date(
    rows: Seq<(Seq<char>, DayAgg)>,
    cached: Seq<CachedDayView>,
    day: i32,
    today: Seq<char>,
    fetched_at: Seq<char>,
    k: int,
)
    requires
        MIN_DAY + 29 <= day <= MAX_DAY,
        sound_rows(rows),
        thirty_day_tokens(rows, cached, day) <= u64::MAX,
        0 <= k < 7,
    ensures
        ({
            let shown = summary(rows, cached, day, today, fetched_at).days[k];
            let date = date_text((day - 6 + k) as i32);
            let live = live_rows(rows, day);
            let totals = table_totals(live);
            &&& shown.date == date
            &&& match (day_in(live, date), cached_tokens_on(cached, date)) {
                (Some(agg), _) => shown.tokens == agg.tokens && shown.cost_usd == Some(
                    DayCost::Exact(agg.cost_usd),
                ),
                (None, Some(tokens)) => shown.tokens == tokens && (if totals.cost > 0
                    && totals.priced > 0 {
                    shown.cost_usd matches Some(DayCost::Estimate { tokens: n, rate }) && n == tokens
                        && rate.cost.units == totals.cost && rate.tokens == totals.priced
                } else {
                    shown.cost_usd is None
                }),
                (None, None) => shown.tokens == 0 && (shown.cost_usd matches Some(
                    DayCost::Exact(usd),
                ) && usd.units == 0),
            }
        }),
{
    lemma_live_fits(rows, cached, day);
}

/// The totals of the live rows can be held.
proof fn lemma_live_fits(rows: Seq<(Seq<char>, DayAgg)>, cached: Seq<CachedDayView>, day: i32)
    requires
        sound_rows(rows),
        thirty_day_tokens(rows, cached, day) <= u64::MAX,
    ensures
        0 <= table_totals(live_rows(rows, day)).priced <= u64::MAX,
        0 <= table_totals(live_rows(rows, day)).cost <= u128::MAX,
        cached_tokens_since(cached, live_rows(rows, day), date_text((day - 29) as i32)) >= 0,
{
    lemma_thirty_days_bounded(rows, cached, day);
}

/// The figures of the thirty days: the tokens are those of the rows of the week and those that the
/// history adds since twenty-nine days before the day; the cost is that of the rows, and the tokens of
/// the history at the live cost over the live priced tokens. Today's figures are those of today's row,
/// and zero without one.
pub proof fn law_thirty_days_are_rows_and_history(
    rows: Seq<(Seq<char>, DayAgg)>,
    cached: Seq<CachedDayView>,
    day: i32,
    today: Seq<char>,
    fetched_at: Seq<char>,
)
    requires
        MIN_DAY + 29 <= day <= MAX_DAY,
        sound_rows(rows),
        thirty_day_tokens(rows, cached, day) <= u64::MAX,
    ensures
        ({
            let s = summary(rows, cached, day, today, fetched_at);
            let live = live_rows(rows, day);
            let totals = table_totals(live);
            let history = cached_tokens_since(cached, live, date_text((day - 29) as i32));
            &&& s.total_30d_tokens == totals.tokens + history
            &&& s.total_30d_cost_usd.live.units == totals.cost
            &&& s.total_30d_cost_usd.estimated_tokens == history
            &&& s.total_30d_cost_usd.rate.cost.units == totals.cost
            &&& s.total_30d_cost_usd.rate.tokens == totals.priced
            &&& s.cost_is_estimate <==> history > 0
            &&& match day_in(live, today) {
                Some(agg) => s.today_tokens == agg.tokens && s.today_cost_usd == agg.cost_usd,
                None => s.today_tokens == 0 && s.today_cost_usd.units == 0,
            }
            &&& s.fetched_at == fetched_at
            &&& !s.stale
        }),
{
    lemma_live_fits(rows, cached, day);
    lemma_thirty_days_bounded(rows, cached, day);
}

/// The cost of a period is the live cost and the estimated tokens at the rate: over the tokens of the
/// rate the two add up, and without a rate the live cost is all.
pub proof fn law_estimate_is_tokens_at_the_rate(c: TotalCost)
    ensures
        c.denominator() > 0,
        c.rate.tokens > 0 ==> c.denominator() == c.rate.tokens && c.numerator() - c.live.units
            * c.rate.tokens == c.estimated_tokens * c.rate.cost.units,
        c.rate.tokens == 0 ==> c.denominator() == 1 && c.numerator() == c.live.units,
{
}

/// One more row is a row of the week exactly if it is not older than six days before the day, and it
/// stands behind the others.
pub proof fn law_row_joins_the_week(
    rows: Seq<(Seq<char>, DayAgg)>,
    day: i32,
    row: (Seq<char>, DayAgg),
)
    ensures
        live_rows(Seq::empty(), day).len() == 0,
        live_rows(rows.push(row), day) == (if text_before(row.0, date_text((day - 6) as i32)) {
            live_rows(rows, day)
        } else {
            live_rows(rows, day).push(row)
        }),
{
    reveal(Seq::filter);
    assert(rows.push(row).drop_last() =~= rows);
}

/// The tokens of the thirty days are those of the rows of the week and those of the days of the history
/// since twenty-nine days before the day that the week has no row for.
pub proof fn law_thirty_days_tokens(
    rows: Seq<(Seq<char>, DayAgg)>,
    cached: Seq<CachedDayView>,
    day: i32,
)
    ensures
        thirty_day_tokens(rows, cached, day) == table_totals(live_rows(rows, day)).tokens
            + cached_tokens_since(cached, live_rows(rows, day), date_text((day - 29) as i32)),
{
}

/// Some date cannot be counted exactly if its tokens are more than can be held.
pub proof fn law_uncountable_is_too_many(
    dates: Seq<Option<Seq<char>>>,
    entries: Seq<EntryView>,
    date: Seq<char>,
)
    ensures
        totals_on(dates, entries, date).tokens > u64::MAX ==> uncountable(dates, entries),
        uncountable(dates, entries) ==> exists|d: Seq<char>|
            (#[trigger] totals_on(dates, entries, d)).tokens > u64::MAX,
{
}

} // verus!
