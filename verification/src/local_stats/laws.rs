//! What holds of the tables and summaries as a whole.
use crate::dates::{date_text, MAX_DAY, MIN_DAY};
use crate::local_stats::collect::{collectable, uncollectable, Collection};
use crate::local_stats::days::{ascending, has_row, is_table_of, lemma_no_entries_no_tokens,
    totals_of, totals_on, with_entry, DayAgg, Totals};
use crate::local_stats::history::CachedDayView;
use crate::local_stats::summary::{day_in, in_window, lemma_thirty_days_bounded, live_rows,
    sound_rows, summary, table_totals, thirty_day_tokens};
use crate::local_stats::transcripts::EntryView;
use crate::snapshot::DayCost;
use crate::text::{lemma_text_order_irreflexive, lemma_text_order_transitive, text_before};
use vstd::prelude::*;

verus! {

/// There is only one table of some dated entries.
pub proof fn law_table_is_determined(
    a: Seq<(Seq<char>, DayAgg)>,
    b: Seq<(Seq<char>, DayAgg)>,
    dates: Seq<Option<Seq<char>>>,
    entries: Seq<EntryView>,
)
    requires
        is_table_of(a, dates, entries),
        is_table_of(b, dates, entries),
    ensures
        a == b,
{
    assert forall|date: Seq<char>| #[trigger] has_row(a, date) == has_row(b, date) by {
        assert(has_row(a, date) == dates.contains(Some(date)));
        assert(has_row(b, date) == dates.contains(Some(date)));
    }
    assert forall|i: int, j: int|
        0 <= i < a.len() && 0 <= j < b.len() && (#[trigger] a[i]).0 == (
        #[trigger] b[j]).0 implies a[i].1 == b[j].1 by {
        assert(totals_of(a[i].1) == totals_on(dates, entries, a[i].0));
        assert(totals_of(b[j].1) == totals_on(dates, entries, b[j].0));
    }
    lemma_same_rows(a, b);
}

proof fn lemma_drop_last_rows(rows: Seq<(Seq<char>, DayAgg)>)
    requires
        ascending(rows),
        rows.len() > 0,
    ensures
        ascending(rows.drop_last()),
        forall|date: Seq<char>|
            #[trigger] has_row(rows.drop_last(), date) == (has_row(rows, date) && date
                != rows.last().0),
{
    let rest = rows.drop_last();
    let n = rest.len() as int;
    assert forall|i: int, j: int| 0 <= i < j < rest.len() implies text_before(
        (#[trigger] rest[i]).0,
        (#[trigger] rest[j]).0,
    ) by {
        assert(text_before(rows[i].0, rows[j].0));
    }
    assert forall|date: Seq<char>|
        #[trigger] has_row(rest, date) == (has_row(rows, date) && date != rows.last().0) by {
        if has_row(rest, date) {
            let i = choose|i: int| 0 <= i < rest.len() && (#[trigger] rest[i]).0 == date;
            assert(rows[i].0 == date);
            assert(text_before(rows[i].0, rows[n].0));
            lemma_text_order_irreflexive(date);
        }
        if has_row(rows, date) && date != rows.last().0 {
            let i = choose|i: int| 0 <= i < rows.len() && (#[trigger] rows[i]).0 == date;
            assert(rest[i].0 == date);
        }
    }
}

proof fn lemma_last_is_latest(rows: Seq<(Seq<char>, DayAgg)>, date: Seq<char>)
    requires
        ascending(rows),
        has_row(rows, date),
    ensures
        rows.len() > 0,
        date == rows.last().0 || text_before(date, rows.last().0),
{
    let i = choose|i: int| 0 <= i < rows.len() && (#[trigger] rows[i]).0 == date;
    if i < rows.len() - 1 {
        assert(text_before(rows[i].0, rows[rows.len() - 1].0));
    }
}

proof fn lemma_same_rows(a: Seq<(Seq<char>, DayAgg)>, b: Seq<(Seq<char>, DayAgg)>)
    requires
        ascending(a),
        ascending(b),
        forall|date: Seq<char>| #[trigger] has_row(a, date) == has_row(b, date),
        forall|i: int, j: int|
            0 <= i < a.len() && 0 <= j < b.len() && (#[trigger] a[i]).0 == (#[trigger] b[j]).0
                ==> a[i].1 == b[j].1,
    ensures
        a == b,
    decreases a.len(),
{
    if a.len() == 0 {
        if b.len() > 0 {
            assert(b[0].0 == b[0].0);
            assert(has_row(b, b[0].0));
            assert(has_row(a, b[0].0) == has_row(b, b[0].0));
        }
        assert(a =~= b);
    } else {
        let x = a[a.len() - 1];
        assert(has_row(a, x.0));
        assert(has_row(a, x.0) == has_row(b, x.0));
        lemma_last_is_latest(b, x.0);
        let y = b[b.len() - 1];
        assert(has_row(b, y.0));
        assert(has_row(a, y.0) == has_row(b, y.0));
        lemma_last_is_latest(a, y.0);
        if x.0 != y.0 {
            lemma_text_order_transitive(x.0, y.0, x.0);
            lemma_text_order_irreflexive(x.0);
        }
        lemma_drop_last_rows(a);
        lemma_drop_last_rows(b);
        let c = a.drop_last();
        let d = b.drop_last();
        assert forall|date: Seq<char>| #[trigger] has_row(c, date) == has_row(d, date) by {
            assert(has_row(a, date) == has_row(b, date));
        }
        assert forall|i: int, j: int|
            0 <= i < c.len() && 0 <= j < d.len() && (#[trigger] c[i]).0 == (
            #[trigger] d[j]).0 implies c[i].1 == d[j].1 by {
            assert(a[i].0 == b[j].0);
        }
        lemma_same_rows(c, d);
        assert(a =~= c.push(x));
        assert(b =~= d.push(y));
    }
}

/// The sums of all entries that have a date.
pub open spec fn totals_dated(dates: Seq<Option<Seq<char>>>, entries: Seq<EntryView>) -> Totals
    decreases entries.len(),
{
    if entries.len() == 0 {
        Totals { tokens: 0, cost: 0, priced: 0 }
    } else {
        let rest = totals_dated(dates.drop_last(), entries.drop_last());
        if dates.last() is Some {
            with_entry(rest, entries.last())
        } else {
            rest
        }
    }
}

/// The sums of some dates.
spec fn totals_over(
    rows: Seq<(Seq<char>, DayAgg)>,
    dates: Seq<Option<Seq<char>>>,
    entries: Seq<EntryView>,
) -> Totals
    decreases rows.len(),
{
    if rows.len() == 0 {
        Totals { tokens: 0, cost: 0, priced: 0 }
    } else {
        let rest = totals_over(rows.drop_last(), dates, entries);
        let day = totals_on(dates, entries, rows.last().0);
        Totals {
            tokens: rest.tokens + day.tokens,
            cost: rest.cost + day.cost,
            priced: rest.priced + day.priced,
        }
    }
}

proof fn lemma_over_nothing(rows: Seq<(Seq<char>, DayAgg)>, dates: Seq<Option<Seq<char>>>)
    ensures
        totals_over(rows, dates, Seq::empty()) == (Totals { tokens: 0, cost: 0, priced: 0 }),
    decreases rows.len(),
{
    if rows.len() > 0 {
        lemma_over_nothing(rows.drop_last(), dates);
    }
}

/// One more entry adds to the sum of one row, the one of its date.
proof fn lemma_over_one_more(
    rows: Seq<(Seq<char>, DayAgg)>,
    dates: Seq<Option<Seq<char>>>,
    entries: Seq<EntryView>,
)
    requires
        ascending(rows),
        entries.len() > 0,
    ensures
        ({
            let rest = totals_over(rows, dates.drop_last(), entries.drop_last());
            totals_over(rows, dates, entries) == (match dates.last() {
                Some(date) => if has_row(rows, date) {
                    with_entry(rest, entries.last())
                } else {
                    rest
                },
                None => rest,
            })
        }),
    decreases rows.len(),
{
    if rows.len() > 0 {
        lemma_drop_last_rows(rows);
        lemma_over_one_more(rows.drop_last(), dates, entries);
        assert(rows[rows.len() - 1].0 == rows.last().0);
        if let Some(date) = dates.last() {
            assert(has_row(rows.drop_last(), date) == (has_row(rows, date) && date
                != rows.last().0));
            if date == rows.last().0 {
                assert(has_row(rows, date));
            }
        }
    }
}

proof fn lemma_over_all(
    rows: Seq<(Seq<char>, DayAgg)>,
    dates: Seq<Option<Seq<char>>>,
    entries: Seq<EntryView>,
)
    requires
        ascending(rows),
        dates.len() == entries.len(),
        forall|i: int|
            0 <= i < dates.len() && (#[trigger] dates[i]) is Some ==> has_row(
                rows,
                dates[i]->Some_0,
            ),
    ensures
        totals_over(rows, dates, entries) == totals_dated(dates, entries),
    decreases entries.len(),
{
    if entries.len() == 0 {
        assert(entries =~= Seq::empty());
        lemma_over_nothing(rows, dates);
    } else {
        let rest = dates.drop_last();
        assert forall|i: int| 0 <= i < rest.len() && (#[trigger] rest[i]) is Some implies has_row(
            rows,
            rest[i]->Some_0,
        ) by {
            assert(rest[i] == dates[i]);
        }
        lemma_over_all(rows, rest, entries.drop_last());
        lemma_over_one_more(rows, dates, entries);
        assert(dates[dates.len() - 1] == dates.last());
    }
}

proof fn lemma_over_table(
    rows: Seq<(Seq<char>, DayAgg)>,
    dates: Seq<Option<Seq<char>>>,
    entries: Seq<EntryView>,
)
    requires
        forall|i: int|
            0 <= i < rows.len() ==> totals_of((#[trigger] rows[i]).1) == totals_on(
                dates,
                entries,
                rows[i].0,
            ),
    ensures
        totals_over(rows, dates, entries) == table_totals(rows),
    decreases rows.len(),
{
    if rows.len() > 0 {
        let rest = rows.drop_last();
        assert forall|i: int| 0 <= i < rest.len() implies totals_of((#[trigger] rest[i]).1)
            == totals_on(dates, entries, rest[i].0) by {
            assert(rest[i] == rows[i]);
        }
        lemma_over_table(rest, dates, entries);
        assert(rows[rows.len() - 1] == rows.last());
    }
}

/// A table loses nothing and counts nothing twice: its rows add up to what the dated entries add up
/// to.
pub proof fn law_table_adds_up(
    rows: Seq<(Seq<char>, DayAgg)>,
    dates: Seq<Option<Seq<char>>>,
    entries: Seq<EntryView>,
)
    requires
        dates.len() == entries.len(),
        is_table_of(rows, dates, entries),
    ensures
        table_totals(rows) == totals_dated(dates, entries),
{
    assert forall|i: int| 0 <= i < dates.len() && (#[trigger] dates[i]) is Some implies has_row(
        rows,
        dates[i]->Some_0,
    ) by {
        assert(has_row(rows, dates[i]->Some_0) == dates.contains(Some(dates[i]->Some_0)));
    }
    lemma_over_all(rows, dates, entries);
    lemma_over_table(rows, dates, entries);
}

/// The dates that are not older than `start`, as if the older entries had none.
pub open spec fn windowed(
    dates: Seq<Option<Seq<char>>>,
    start: Seq<char>,
) -> Seq<Option<Seq<char>>> {
    dates.map_values(
        |d: Option<Seq<char>>|
            match d {
                Some(date) => if text_before(date, start) {
                    None
                } else {
                    Some(date)
                },
                None => None,
            },
    )
}

proof fn lemma_totals_windowed(
    dates: Seq<Option<Seq<char>>>,
    entries: Seq<EntryView>,
    start: Seq<char>,
    date: Seq<char>,
)
    requires
        dates.len() == entries.len(),
        !text_before(date, start),
    ensures
        totals_on(windowed(dates, start), entries, date) == totals_on(dates, entries, date),
    decreases entries.len(),
{
    if entries.len() > 0 {
        lemma_totals_windowed(dates.drop_last(), entries.drop_last(), start, date);
        assert(windowed(dates, start).drop_last() =~= windowed(dates.drop_last(), start));
        assert(windowed(dates, start).last() == windowed(dates, start)[dates.len() - 1]);
    }
}

proof fn lemma_in_window(rows: Seq<(Seq<char>, DayAgg)>, start: Seq<char>)
    requires
        ascending(rows),
    ensures
        ascending(in_window(rows, start)),
        forall|date: Seq<char>|
            #[trigger] has_row(in_window(rows, start), date) == (has_row(rows, date)
                && !text_before(date, start)),
        forall|k: int|
            0 <= k < in_window(rows, start).len() ==> rows.contains(
                #[trigger] in_window(rows, start)[k],
            ),
    decreases rows.len(),
{
    reveal(Seq::filter);
    if rows.len() > 0 {
        let rest = rows.drop_last();
        let last = rows.last();
        let n = rest.len() as int;
        lemma_drop_last_rows(rows);
        lemma_in_window(rest, start);
        let kept = in_window(rest, start);
        let all = in_window(rows, start);
        assert(rows[n] == last);
        assert forall|k: int| 0 <= k < all.len() implies rows.contains(#[trigger] all[k]) by {
            if k < kept.len() {
                assert(rest.contains(kept[k]));
                let i = choose|i: int| 0 <= i < rest.len() && rest[i] == kept[k];
                assert(rows[i] == all[k]);
            }
        }
        assert forall|date: Seq<char>|
            #[trigger] has_row(all, date) == (has_row(rows, date) && !text_before(date, start)) by {
            assert(has_row(kept, date) == (has_row(rest, date) && !text_before(date, start)));
            assert(has_row(rest, date) == (has_row(rows, date) && date != last.0));
            if has_row(kept, date) {
                let i = choose|i: int| 0 <= i < kept.len() && (#[trigger] kept[i]).0 == date;
                assert(all[i].0 == date);
            }
            if !text_before(last.0, start) {
                assert(all[kept.len() as int] == last);
            }
            if has_row(all, date) {
                let i = choose|i: int| 0 <= i < all.len() && (#[trigger] all[i]).0 == date;
                if i < kept.len() {
                    assert(kept[i].0 == date);
                }
            }
        }
        assert forall|i: int, j: int| 0 <= i < j < all.len() implies text_before(
            (#[trigger] all[i]).0,
            (#[trigger] all[j]).0,
        ) by {
            if j < kept.len() {
                assert(text_before(kept[i].0, kept[j].0));
            } else {
                assert(rest.contains(kept[i]));
                let m = choose|m: int| 0 <= m < rest.len() && rest[m] == kept[i];
                assert(text_before(rows[m].0, rows[n].0));
            }
        }
    }
}

/// The rows of a window are the table of the entries of the window.
pub proof fn law_window_is_the_table_of_its_entries(
    rows: Seq<(Seq<char>, DayAgg)>,
    dates: Seq<Option<Seq<char>>>,
    entries: Seq<EntryView>,
    start: Seq<char>,
)
    requires
        dates.len() == entries.len(),
        is_table_of(rows, dates, entries),
    ensures
        is_table_of(in_window(rows, start), windowed(dates, start), entries),
{
    let live = in_window(rows, start);
    let near = windowed(dates, start);
    lemma_in_window(rows, start);
    assert forall|date: Seq<char>| #[trigger] has_row(live, date) == near.contains(Some(date)) by {
        assert(has_row(rows, date) == dates.contains(Some(date)));
        if dates.contains(Some(date)) && !text_before(date, start) {
            let i = choose|i: int| 0 <= i < dates.len() && dates[i] == Some(date);
            assert(near[i] == Some(date));
        }
        if near.contains(Some(date)) {
            let i = choose|i: int| 0 <= i < near.len() && near[i] == Some(date);
            assert(dates[i] == Some(date));
        }
    }
    assert forall|k: int| 0 <= k < live.len() implies totals_of((#[trigger] live[k]).1)
        == totals_on(near, entries, live[k].0) by {
        assert(rows.contains(live[k]));
        let i = choose|i: int| 0 <= i < rows.len() && rows[i] == live[k];
        assert(totals_of(rows[i].1) == totals_on(dates, entries, rows[i].0));
        assert(has_row(live, live[k].0));
        lemma_totals_windowed(dates, entries, start, live[k].0);
    }
}

/// The figures of the window are those of the entries of the window, each counted once.
pub proof fn law_window_adds_up(
    rows: Seq<(Seq<char>, DayAgg)>,
    dates: Seq<Option<Seq<char>>>,
    entries: Seq<EntryView>,
    start: Seq<char>,
)
    requires
        dates.len() == entries.len(),
        is_table_of(rows, dates, entries),
    ensures
        table_totals(in_window(rows, start)) == totals_dated(windowed(dates, start), entries),
{
    law_window_is_the_table_of_its_entries(rows, dates, entries, start);
    law_table_adds_up(in_window(rows, start), windowed(dates, start), entries);
}

proof fn lemma_window_of_window(rows: Seq<(Seq<char>, DayAgg)>, start: Seq<char>)
    ensures
        in_window(in_window(rows, start), start) == in_window(rows, start),
    decreases rows.len(),
{
    reveal(Seq::filter);
    if rows.len() > 0 {
        lemma_window_of_window(rows.drop_last(), start);
        let kept = in_window(rows.drop_last(), start);
        if !text_before(rows.last().0, start) {
            assert(kept.push(rows.last()).drop_last() =~= kept);
        }
    }
}

/// Entries from before the window do not count: the summary is the same as if they were not there,
/// whatever the files that hold them.
pub proof fn law_old_entries_do_not_count(
    rows: Seq<(Seq<char>, DayAgg)>,
    recent: Seq<(Seq<char>, DayAgg)>,
    dates: Seq<Option<Seq<char>>>,
    entries: Seq<EntryView>,
    cached: Seq<CachedDayView>,
    day: i32,
    today: Seq<char>,
    fetched_at: Seq<char>,
)
    requires
        MIN_DAY + 29 <= day <= MAX_DAY,
        dates.len() == entries.len(),
        is_table_of(rows, dates, entries),
        is_table_of(recent, windowed(dates, date_text((day - 6) as i32)), entries),
    ensures
        summary(rows, cached, day, today, fetched_at) == summary(
            recent,
            cached,
            day,
            today,
            fetched_at,
        ),
{
    let start = date_text((day - 6) as i32);
    law_window_is_the_table_of_its_entries(rows, dates, entries, start);
    law_table_is_determined(in_window(rows, start), recent, windowed(dates, start), entries);
    lemma_window_of_window(rows, start);
}

/// There are always seven days, one after the other, the last of them today, and they are fresh. Where
/// the table has a row for today, today's figures and the last day's are the same; otherwise today's
/// are zero.
pub proof fn law_last_day_is_today(
    rows: Seq<(Seq<char>, DayAgg)>,
    cached: Seq<CachedDayView>,
    day: i32,
    fetched_at: Seq<char>,
)
    requires
        MIN_DAY + 29 <= day <= MAX_DAY,
    ensures
        ({
            let s = summary(rows, cached, day, date_text(day), fetched_at);
            &&& s.days.len() == 7
            &&& forall|k: int|
                0 <= k < 7 ==> (#[trigger] s.days[k]).date == date_text((day - 6 + k) as i32)
            &&& s.days.last().date == date_text(day)
            &&& s.today_tokens <= s.days.last().tokens
            &&& !s.stale
            &&& day_in(live_rows(rows, day), date_text(day)) is Some ==> {
                &&& s.days.last().tokens == s.today_tokens
                &&& s.days.last().cost_usd == Some(DayCost::Exact(s.today_cost_usd))
            }
            &&& day_in(live_rows(rows, day), date_text(day)) is None ==> {
                &&& s.today_tokens == 0
                &&& s.today_cost_usd.units == 0
            }
        }),
{
}

/// A figure for the thirty days is marked as an estimate exactly if tokens of the history are in
/// it; otherwise the cost is that of the entries alone.
pub proof fn law_estimates_are_marked(
    rows: Seq<(Seq<char>, DayAgg)>,
    cached: Seq<CachedDayView>,
    day: i32,
    today: Seq<char>,
    fetched_at: Seq<char>,
)
    requires
        MIN_DAY + 29 <= day <= MAX_DAY,
        thirty_day_tokens(rows, cached, day) <= u64::MAX,
        sound_rows(rows),
    ensures
        ({
            let s = summary(rows, cached, day, today, fetched_at);
            &&& s.cost_is_estimate == (s.total_30d_cost_usd.estimated_tokens > 0)
            &&& s.total_30d_tokens == table_totals(live_rows(rows, day)).tokens
                + s.total_30d_cost_usd.estimated_tokens
            &&& !s.cost_is_estimate ==> s.total_30d_cost_usd.numerator()
                == s.total_30d_cost_usd.live.units * s.total_30d_cost_usd.denominator()
        }),
{
    lemma_thirty_days_bounded(rows, cached, day);
    let s = summary(rows, cached, day, today, fetched_at);
    let t = s.total_30d_cost_usd;
    if t.estimated_tokens == 0 {
        assert(t.estimated_tokens * t.rate.cost.units == 0) by (nonlinear_arith)
            requires
                t.estimated_tokens == 0,
        ;
        assert(t.live.units * 1 == t.live.units) by (nonlinear_arith);
    }
}

/// A collection either gives a summary or has a figure that is too large, never both.
pub proof fn law_summary_or_too_large(a: Collection, b: Collection, entries: Seq<EntryView>)
    requires
        a.dates.len() == entries.len(),
        a.dates == b.dates,
        a.cached == b.cached,
        a.day == b.day,
        collectable(a, entries),
    ensures
        !uncollectable(b, entries),
{
    assert forall|date: Seq<char>| (#[trigger] totals_on(b.dates, entries, date)).tokens
        <= u64::MAX by {
        assert(has_row(a.rows, date) == a.dates.contains(Some(date)));
        if has_row(a.rows, date) {
            let i = choose|i: int| 0 <= i < a.rows.len() && (#[trigger] a.rows[i]).0 == date;
            assert(totals_of(a.rows[i].1) == totals_on(a.dates, entries, a.rows[i].0));
        } else {
            lemma_no_entries_no_tokens(a.dates, entries, date);
        }
    }
    if is_table_of(b.rows, b.dates, entries) {
        law_table_is_determined(a.rows, b.rows, a.dates, entries);
    }
}

} // verus!
