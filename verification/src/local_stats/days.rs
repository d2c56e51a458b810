//! The entries of the transcripts added up by local date.
use crate::dates::{date_in_some_zone, date_text, format_date, local_date, moment_of, parse_moment,
    shifted_date, EPOCH_DAY, MAX_DAY, MIN_DAY};
use crate::local_stats::transcripts::{entries_of, Entry, EntryView};
use crate::pricing::{cost_of, cost_usd, lemma_cost_bounded, lemma_rates_bounded, price_list,
    rates_for, MAX_RATE};
use crate::snapshot::{opt_text, Usd};
use crate::text::{comes_before, lemma_text_order_irreflexive, lemma_text_order_total,
    lemma_text_order_transitive, text_before};
use vstd::prelude::*;

verus! {

/// What a day adds up to.
#[derive(Debug, Clone, Copy, PartialEq, Eq, Structural)]
pub struct DayAgg {
    pub tokens: u64,
    pub cost_usd: Usd,
    /// The tokens of models with a price.
    pub priced_tokens: u64,
}

impl Default for DayAgg {
    fn default() -> (r: Self)
        ensures
            r == empty_day(),
    {
        DayAgg { tokens: 0, cost_usd: Usd { units: 0 }, priced_tokens: 0 }
    }
}

/// A day without entries.
pub open spec fn empty_day() -> DayAgg {
    DayAgg { tokens: 0, cost_usd: Usd { units: 0 }, priced_tokens: 0 }
}

/// A date and what it adds up to.
#[derive(Debug)]
pub struct DayRow {
    /// Local date, YYYY-MM-DD.
    pub date: String,
    pub agg: DayAgg,
}

impl View for DayRow {
    type V = (Seq<char>, DayAgg);

    open spec fn view(&self) -> (Seq<char>, DayAgg) {
        (self.date@, self.agg)
    }
}

/// The views of some rows.
pub open spec fn rows_of(rows: Seq<DayRow>) -> Seq<(Seq<char>, DayAgg)> {
    rows.map_values(|r: DayRow| r@)
}

/// The views of some dates.
pub open spec fn date_views(dates: Seq<Option<String>>) -> Seq<Option<Seq<char>>> {
    dates.map_values(|d: Option<String>| opt_text(d))
}

/// Whether each date comes before those behind it.
pub open spec fn ascending(rows: Seq<(Seq<char>, DayAgg)>) -> bool {
    forall|i: int, j: int|
        0 <= i < j < rows.len() ==> text_before((#[trigger] rows[i]).0, (#[trigger] rows[j]).0)
}

/// Whether there is a row for a date.
pub open spec fn has_row(rows: Seq<(Seq<char>, DayAgg)>, date: Seq<char>) -> bool {
    exists|i: int| 0 <= i < rows.len() && (#[trigger] rows[i]).0 == date
}

/// Sums of a date or of a table.
pub ghost struct Totals {
    pub tokens: int,
    pub cost: int,
    pub priced: int,
}

/// What an entry costs, where its model has a price.
pub open spec fn entry_cost(e: EntryView) -> Option<int> {
    cost_of(
        e.model,
        e.usage.input_tokens,
        e.usage.output_tokens,
        e.usage.cache_creation_input_tokens,
        e.usage.cache_read_input_tokens,
    )
}

/// Sums with one more entry.
pub open spec fn with_entry(t: Totals, e: EntryView) -> Totals {
    match entry_cost(e) {
        Some(c) => Totals {
            tokens: t.tokens + e.usage.total(),
            cost: t.cost + c,
            priced: t.priced + e.usage.total(),
        },
        None => Totals { tokens: t.tokens + e.usage.total(), cost: t.cost, priced: t.priced },
    }
}

/// What the entries of one date add up to; `dates` gives the date of each entry.
pub open spec fn totals_on(
    dates: Seq<Option<Seq<char>>>,
    entries: Seq<EntryView>,
    date: Seq<char>,
) -> Totals
    decreases entries.len(),
{
    if entries.len() == 0 {
        Totals { tokens: 0, cost: 0, priced: 0 }
    } else {
        let rest = totals_on(dates.drop_last(), entries.drop_last(), date);
        if dates.last() == Some(date) {
            with_entry(rest, entries.last())
        } else {
            rest
        }
    }
}

/// The sums of a day.
pub open spec fn totals_of(agg: DayAgg) -> Totals {
    Totals {
        tokens: agg.tokens as int,
        cost: agg.cost_usd.units as int,
        priced: agg.priced_tokens as int,
    }
}

/// Whether some rows are the table of the dated entries: one row for each date that an entry has,
/// in the order of dates, with what the entries of the date add up to.
pub open spec fn is_table_of(
    rows: Seq<(Seq<char>, DayAgg)>,
    dates: Seq<Option<Seq<char>>>,
    entries: Seq<EntryView>,
) -> bool {
    &&& ascending(rows)
    &&& forall|date: Seq<char>| #[trigger] has_row(rows, date) == dates.contains(Some(date))
    &&& forall|i: int|
        0 <= i < rows.len() ==> totals_of((#[trigger] rows[i]).1) == totals_on(
            dates,
            entries,
            rows[i].0,
        )
}

/// Whether the tokens of some date cannot be counted.
pub open spec fn uncountable(dates: Seq<Option<Seq<char>>>, entries: Seq<EntryView>) -> bool {
    exists|date: Seq<char>| (#[trigger] totals_on(dates, entries, date)).tokens > u64::MAX
}

/// An entry with a price does not cost more than the highest rate for each token.
pub proof fn lemma_entry_cost_bounded(e: EntryView)
    ensures
        e.usage.total() >= 0,
        entry_cost(e) matches Some(c) ==> 0 <= c <= MAX_RATE * e.usage.total(),
{
    lemma_rates_bounded(price_list(), e.model);
    if let Some(rates) = rates_for(e.model) {
        lemma_cost_bounded(
            rates,
            e.usage.input_tokens as int,
            e.usage.output_tokens as int,
            e.usage.cache_creation_input_tokens as int,
            e.usage.cache_read_input_tokens as int,
        );
    }
}

/// Not all tokens have a price, and no price is above the highest rate.
pub proof fn lemma_totals_bounded(
    dates: Seq<Option<Seq<char>>>,
    entries: Seq<EntryView>,
    date: Seq<char>,
)
    ensures
        0 <= totals_on(dates, entries, date).priced <= totals_on(dates, entries, date).tokens,
        0 <= totals_on(dates, entries, date).cost <= MAX_RATE * totals_on(
            dates,
            entries,
            date,
        ).priced,
    decreases entries.len(),
{
    if entries.len() > 0 {
        lemma_totals_bounded(dates.drop_last(), entries.drop_last(), date);
        lemma_entry_cost_bounded(entries.last());
    }
}

/// More entries do not make the tokens of a date fewer.
proof fn lemma_totals_grow(
    dates: Seq<Option<Seq<char>>>,
    entries: Seq<EntryView>,
    date: Seq<char>,
    n: int,
)
    requires
        dates.len() == entries.len(),
        0 <= n <= entries.len(),
    ensures
        totals_on(dates.take(n), entries.take(n), date).tokens <= totals_on(
            dates,
            entries,
            date,
        ).tokens,
    decreases entries.len(),
{
    if n == entries.len() {
        assert(dates.take(n) =~= dates);
        assert(entries.take(n) =~= entries);
    } else {
        lemma_totals_grow(dates.drop_last(), entries.drop_last(), date, n);
        assert(dates.drop_last().take(n) =~= dates.take(n));
        assert(entries.drop_last().take(n) =~= entries.take(n));
        lemma_entry_cost_bounded(entries.last());
    }
}

/// A date that no entry has adds up to nothing.
pub proof fn lemma_no_entries_no_tokens(
    dates: Seq<Option<Seq<char>>>,
    entries: Seq<EntryView>,
    date: Seq<char>,
)
    requires
        dates.len() == entries.len(),
        !dates.contains(Some(date)),
    ensures
        totals_on(dates, entries, date) == (Totals { tokens: 0, cost: 0, priced: 0 }),
    decreases entries.len(),
{
    if entries.len() > 0 {
        assert(dates[dates.len() - 1] != Some(date));
        assert forall|i: int| 0 <= i < dates.drop_last().len() implies dates.drop_last()[i] != Some(
            date,
        ) by {
            assert(dates[i] != Some(date));
        }
        lemma_no_entries_no_tokens(dates.drop_last(), entries.drop_last(), date);
    }
}

/// Where the row of a date stands.
fn find_row(rows: &Vec<DayRow>, date: &String) -> (r: Option<usize>)
    ensures
        match r {
            Some(i) => i < rows@.len() && rows@[i as int].date@ == date@,
            None => !has_row(rows_of(rows@), date@),
        },
{
    let mut i: usize = 0;
    while i < rows.len()
        invariant
            i <= rows@.len(),
            forall|j: int| 0 <= j < i ==> (#[trigger] rows@[j]).date@ != date@,
        decreases rows@.len() - i,
    {
        if rows[i].date == *date {
            return Some(i);
        }
        i = i + 1;
    }
    assert forall|j: int| 0 <= j < rows_of(rows@).len() implies (#[trigger] rows_of(rows@)[j]).0
        != date@ by {
        assert(rows@[j].date@ != date@);
    }
    None
}

/// Where a new date belongs: behind all dates that come before it.
fn place_for_row(rows: &Vec<DayRow>, date: &String) -> (r: usize)
    requires
        ascending(rows_of(rows@)),
        !has_row(rows_of(rows@), date@),
    ensures
        r <= rows@.len(),
        forall|i: int| 0 <= i < r ==> text_before((#[trigger] rows@[i]).date@, date@),
        forall|i: int| r <= i < rows@.len() ==> text_before(date@, (#[trigger] rows@[i]).date@),
{
    let mut r: usize = 0;
    let ghost views = rows_of(rows@);
    while r < rows.len()
        invariant
            r <= rows@.len(),
            views == rows_of(rows@),
            ascending(views),
            !has_row(views, date@),
            forall|i: int| 0 <= i < r ==> text_before((#[trigger] rows@[i]).date@, date@),
        decreases rows@.len() - r,
    {
        if !comes_before(rows[r].date.as_str(), date.as_str()) {
            proof {
                assert(views[r as int] == rows@[r as int]@);
                lemma_text_order_total(rows@[r as int].date@, date@);
                assert forall|i: int| r <= i < rows@.len() implies text_before(
                    date@,
                    (#[trigger] rows@[i]).date@,
                ) by {
                    if i > r {
                        assert(views[i] == rows@[i]@);
                        assert(text_before(views[r as int].0, views[i].0));
                        lemma_text_order_transitive(
                            date@,
                            rows@[r as int].date@,
                            rows@[i].date@,
                        );
                    }
                }
            }
            return r;
        }
        r = r + 1;
    }
    r
}

/// A day with one more entry; nothing where its tokens cannot be counted.
fn add_entry(agg: DayAgg, entry: &Entry) -> (r: Option<DayAgg>)
    requires
        agg.priced_tokens <= agg.tokens,
        agg.cost_usd.units <= MAX_RATE * agg.priced_tokens,
    ensures
        match r {
            Some(sum) => totals_of(sum) == with_entry(totals_of(agg), entry@),
            None => with_entry(totals_of(agg), entry@).tokens > u64::MAX,
        },
{
    proof {
        lemma_entry_cost_bounded(entry@);
    }
    let count: u64 = match entry.usage.checked_total() {
        Some(n) => n,
        None => {
            return None;
        },
    };
    let tokens: u64 = match agg.tokens.checked_add(count) {
        Some(n) => n,
        None => {
            return None;
        },
    };
    match cost_usd(
        entry.model.as_str(),
        entry.usage.input_tokens,
        entry.usage.output_tokens,
        entry.usage.cache_creation_input_tokens,
        entry.usage.cache_read_input_tokens,
    ) {
        Some(cost) => Some(
            DayAgg {
                tokens,
                cost_usd: Usd { units: agg.cost_usd.units + cost.units },
                priced_tokens: agg.priced_tokens + count,
            },
        ),
        None => Some(
            DayAgg { tokens, cost_usd: agg.cost_usd, priced_tokens: agg.priced_tokens },
        ),
    }
}

proof fn lemma_contains_push<A>(s: Seq<A>, x: A, y: A)
    ensures
        s.push(x).contains(y) == (s.contains(y) || x == y),
{
    if s.contains(y) {
        let i = choose|i: int| 0 <= i < s.len() && s[i] == y;
        assert(s.push(x)[i] == y);
    }
    if x == y {
        assert(s.push(x)[s.len() as int] == y);
    }
}

proof fn lemma_totals_push(
    dates: Seq<Option<Seq<char>>>,
    entries: Seq<EntryView>,
    d: Option<Seq<char>>,
    e: EntryView,
    date: Seq<char>,
)
    ensures
        totals_on(dates.push(d), entries.push(e), date) == (if d == Some(date) {
            with_entry(totals_on(dates, entries, date), e)
        } else {
            totals_on(dates, entries, date)
        }),
{
    assert(dates.push(d).drop_last() =~= dates);
    assert(entries.push(e).drop_last() =~= entries);
}

/// An entry without a date does not change the table.
proof fn lemma_table_skip(
    rows: Seq<(Seq<char>, DayAgg)>,
    dates: Seq<Option<Seq<char>>>,
    entries: Seq<EntryView>,
    e: EntryView,
)
    requires
        is_table_of(rows, dates, entries),
    ensures
        is_table_of(rows, dates.push(None), entries.push(e)),
{
    assert forall|date: Seq<char>| #[trigger] has_row(rows, date) == dates.push(None).contains(
        Some(date),
    ) by {
        lemma_contains_push(dates, None, Some(date));
    }
    assert forall|i: int| 0 <= i < rows.len() implies totals_of((#[trigger] rows[i]).1)
        == totals_on(dates.push(None), entries.push(e), rows[i].0) by {
        lemma_totals_push(dates, entries, None, e, rows[i].0);
    }
}

/// An entry of a date that has a row changes that row.
proof fn lemma_table_update(
    rows: Seq<(Seq<char>, DayAgg)>,
    dates: Seq<Option<Seq<char>>>,
    entries: Seq<EntryView>,
    place: int,
    e: EntryView,
    agg: DayAgg,
)
    requires
        is_table_of(rows, dates, entries),
        0 <= place < rows.len(),
        totals_of(agg) == with_entry(totals_of(rows[place].1), e),
    ensures
        is_table_of(
            rows.update(place, (rows[place].0, agg)),
            dates.push(Some(rows[place].0)),
            entries.push(e),
        ),
{
    let date = rows[place].0;
    let next = rows.update(place, (date, agg));
    assert forall|i: int, j: int| 0 <= i < j < next.len() implies text_before(
        (#[trigger] next[i]).0,
        (#[trigger] next[j]).0,
    ) by {
        assert(text_before(rows[i].0, rows[j].0));
    }
    assert forall|d: Seq<char>| #[trigger] has_row(next, d) == dates.push(Some(date)).contains(
        Some(d),
    ) by {
        lemma_contains_push(dates, Some(date), Some(d));
        if has_row(rows, d) {
            let i = choose|i: int| 0 <= i < rows.len() && (#[trigger] rows[i]).0 == d;
            assert(next[i].0 == d);
        }
        if has_row(next, d) {
            let i = choose|i: int| 0 <= i < next.len() && (#[trigger] next[i]).0 == d;
            assert(rows[i].0 == d);
        }
        assert(has_row(rows, d) == dates.contains(Some(d)));
        assert(has_row(rows, date));
    }
    assert forall|i: int| 0 <= i < next.len() implies totals_of((#[trigger] next[i]).1)
        == totals_on(dates.push(Some(date)), entries.push(e), next[i].0) by {
        lemma_totals_push(dates, entries, Some(date), e, next[i].0);
        if i != place {
            lemma_text_order_irreflexive(date);
            if i < place {
                assert(text_before(rows[i].0, rows[place].0));
            } else {
                assert(text_before(rows[place].0, rows[i].0));
            }
        }
    }
}

/// An entry of a new date adds a row.
proof fn lemma_table_insert(
    rows: Seq<(Seq<char>, DayAgg)>,
    dates: Seq<Option<Seq<char>>>,
    entries: Seq<EntryView>,
    place: int,
    date: Seq<char>,
    e: EntryView,
    agg: DayAgg,
)
    requires
        is_table_of(rows, dates, entries),
        dates.len() == entries.len(),
        !has_row(rows, date),
        0 <= place <= rows.len(),
        forall|i: int| 0 <= i < place ==> text_before((#[trigger] rows[i]).0, date),
        forall|i: int| place <= i < rows.len() ==> text_before(date, (#[trigger] rows[i]).0),
        totals_of(agg) == with_entry(totals_of(empty_day()), e),
    ensures
        is_table_of(rows.insert(place, (date, agg)), dates.push(Some(date)), entries.push(e)),
{
    let next = rows.insert(place, (date, agg));
    assert forall|i: int, j: int| 0 <= i < j < next.len() implies text_before(
        (#[trigger] next[i]).0,
        (#[trigger] next[j]).0,
    ) by {
        let a = if i < place { i } else { i - 1 };
        let b = if j < place { j } else { j - 1 };
        if i == place {
            assert(next[j] == rows[b]);
        } else if j == place {
            assert(next[i] == rows[a]);
        } else {
            assert(next[i] == rows[a] && next[j] == rows[b]);
            assert(text_before(rows[a].0, rows[b].0));
        }
    }
    assert forall|d: Seq<char>| #[trigger] has_row(next, d) == dates.push(Some(date)).contains(
        Some(d),
    ) by {
        lemma_contains_push(dates, Some(date), Some(d));
        assert(next[place].0 == date);
        if has_row(rows, d) {
            let i = choose|i: int| 0 <= i < rows.len() && (#[trigger] rows[i]).0 == d;
            let k = if i < place { i } else { i + 1 };
            assert(next[k] == rows[i]);
        }
        if has_row(next, d) && d != date {
            let k = choose|k: int| 0 <= k < next.len() && (#[trigger] next[k]).0 == d;
            let i = if k < place { k } else { k - 1 };
            assert(next[k] == rows[i]);
        }
        assert(has_row(rows, d) == dates.contains(Some(d)));
    }
    assert(!dates.contains(Some(date)));
    lemma_no_entries_no_tokens(dates, entries, date);
    assert forall|i: int| 0 <= i < next.len() implies totals_of((#[trigger] next[i]).1)
        == totals_on(dates.push(Some(date)), entries.push(e), next[i].0) by {
        lemma_totals_push(dates, entries, Some(date), e, next[i].0);
        if i != place {
            let k = if i < place { i } else { i - 1 };
            assert(next[i] == rows[k]);
            lemma_text_order_irreflexive(date);
        }
    }
}

/// The table of some entries whose dates are known; nothing where the tokens of a date cannot be
/// counted.
pub fn bucket_dated(entries: &[Entry], dates: &Vec<Option<String>>) -> (r: Option<Vec<DayRow>>)
    requires
        dates@.len() == entries@.len(),
    ensures
        match r {
            Some(rows) => is_table_of(rows_of(rows@), date_views(dates@), entries_of(entries@)),
            None => uncountable(date_views(dates@), entries_of(entries@)),
        },
{
    let ghost all_dates = date_views(dates@);
    let ghost all = entries_of(entries@);
    let mut rows: Vec<DayRow> = Vec::new();
    let mut i: usize = 0;
    proof {
        let none = rows_of(rows@);
        assert forall|date: Seq<char>| #[trigger] has_row(none, date) == all_dates.take(0).contains(
            Some(date),
        ) by {}
        assert(is_table_of(none, all_dates.take(0), all.take(0)));
    }
    while i < entries.len()
        invariant
            i <= entries@.len(),
            dates@.len() == entries@.len(),
            all_dates == date_views(dates@),
            all == entries_of(entries@),
            is_table_of(rows_of(rows@), all_dates.take(i as int), all.take(i as int)),
        decreases entries@.len() - i,
    {
        let ghost past_dates = all_dates.take(i as int);
        let ghost past = all.take(i as int);
        let ghost before = rows_of(rows@);
        let ghost e = all[i as int];
        assert(all_dates.take(i + 1) =~= past_dates.push(all_dates[i as int]));
        assert(all.take(i + 1) =~= past.push(e));
        assert(e == entries@[i as int]@);
        match &dates[i] {
            Some(date) => {
                assert(all_dates[i as int] == Some(date@));
                match find_row(&rows, date) {
                    Some(k) => {
                        let agg: DayAgg = rows[k].agg;
                        assert(before[k as int] == (date@, agg));
                        proof {
                            lemma_totals_bounded(past_dates, past, date@);
                            lemma_totals_push(past_dates, past, Some(date@), e, date@);
                        }
                        match add_entry(agg, &entries[i]) {
                            Some(sum) => {
                                rows.set(k, DayRow { date: date.clone(), agg: sum });
                                assert(rows_of(rows@) =~= before.update(k as int, (date@, sum)));
                                proof {
                                    lemma_table_update(before, past_dates, past, k as int, e, sum);
                                }
                            },
                            None => {
                                proof {
                                    lemma_totals_grow(all_dates, all, date@, i + 1);
                                }
                                return None;
                            },
                        }
                    },
                    None => {
                        let place: usize = place_for_row(&rows, date);
                        proof {
                            assert(!past_dates.contains(Some(date@)));
                            lemma_no_entries_no_tokens(past_dates, past, date@);
                            lemma_totals_push(past_dates, past, Some(date@), e, date@);
                            assert forall|j: int| 0 <= j < place implies text_before(
                                (#[trigger] before[j]).0,
                                date@,
                            ) by {
                                assert(before[j] == rows@[j]@);
                            }
                            assert forall|j: int| place <= j < before.len() implies text_before(
                                date@,
                                (#[trigger] before[j]).0,
                            ) by {
                                assert(before[j] == rows@[j]@);
                            }
                        }
                        match add_entry(DayAgg::default(), &entries[i]) {
                            Some(sum) => {
                                rows.insert(place, DayRow { date: date.clone(), agg: sum });
                                assert(rows_of(rows@) =~= before.insert(
                                    place as int,
                                    (date@, sum),
                                ));
                                proof {
                                    lemma_table_insert(
                                        before,
                                        past_dates,
                                        past,
                                        place as int,
                                        date@,
                                        e,
                                        sum,
                                    );
                                }
                            },
                            None => {
                                proof {
                                    lemma_totals_grow(all_dates, all, date@, i + 1);
                                }
                                return None;
                            },
                        }
                    },
                }
            },
            None => {
                assert(all_dates[i as int] == None::<Seq<char>>);
                proof {
                    lemma_table_skip(before, past_dates, past, e);
                }
            },
        }
        i = i + 1;
    }
    assert(all_dates.take(i as int) =~= all_dates);
    assert(all.take(i as int) =~= all);
    Some(rows)
}

/// Whether `date` is the local date of an entry in some time zone; an entry whose timestamp is not
/// RFC 3339 has none.
pub open spec fn is_local_date(entry: EntryView, date: Option<Seq<char>>) -> bool {
    match moment_of(entry.timestamp) {
        Some(moment) => exists|day: i32|
            #[trigger] date_in_some_zone(moment.0, day) && date == Some(date_text(day)),
        None => date is None,
    }
}

/// Whether `dates` gives the local date of each entry.
pub open spec fn are_local_dates(entries: Seq<EntryView>, dates: Seq<Option<Seq<char>>>) -> bool {
    &&& dates.len() == entries.len()
    &&& forall|i: int| 0 <= i < entries.len() ==> is_local_date(#[trigger] entries[i], dates[i])
}

/// The local date of an entry, where its timestamp can be read.
pub fn entry_date(entry: &Entry) -> (r: Option<String>)
    ensures
        is_local_date(entry@, opt_text(r)),
{
    match parse_moment(entry.timestamp.as_str()) {
        Some((seconds, nanos)) => {
            let day: i32 = local_date(seconds, nanos);
            assert(MIN_DAY <= day <= MAX_DAY) by {
                let offset = choose|offset: int|
                    -86400 < offset < 86400 && #[trigger] shifted_date(seconds as int, offset)
                        == day;
                assert(shifted_date(seconds as int, offset) == (seconds + offset) / 86400
                    + EPOCH_DAY);
            }
            Some(format_date(day))
        },
        None => None,
    }
}

/// The table of some entries by local date; entries whose timestamp cannot be read are passed over.
/// Nothing where the tokens of a date cannot be counted.
pub fn bucket_by_day(entries: &[Entry]) -> (r: Option<Vec<DayRow>>)
    ensures
        exists|dates: Seq<Option<Seq<char>>>| #[trigger]
            are_local_dates(entries_of(entries@), dates) && match r {
                Some(rows) => is_table_of(rows_of(rows@), dates, entries_of(entries@)),
                None => uncountable(dates, entries_of(entries@)),
            },
{
    let mut dates: Vec<Option<String>> = Vec::new();
    let mut i: usize = 0;
    while i < entries.len()
        invariant
            i <= entries@.len(),
            dates@.len() == i,
            forall|j: int|
                0 <= j < i ==> is_local_date((#[trigger] entries@[j])@, opt_text(dates@[j])),
        decreases entries@.len() - i,
    {
        dates.push(entry_date(&entries[i]));
        i = i + 1;
    }
    proof {
        let views = entries_of(entries@);
        assert forall|j: int| 0 <= j < views.len() implies is_local_date(
            #[trigger] views[j],
            date_views(dates@)[j],
        ) by {
            assert(views[j] == entries@[j]@);
        }
        assert(are_local_dates(views, date_views(dates@)));
    }
    bucket_dated(entries, &dates)
}

/// The table has a row for the date of every dated entry, with what the entries of the date add up to in
/// tokens, cost and priced tokens, and no row besides. Its dates ascend.
pub proof fn law_every_dated_entry_has_its_row(
    rows: Seq<(Seq<char>, DayAgg)>,
    dates: Seq<Option<Seq<char>>>,
    entries: Seq<EntryView>,
    k: int,
    i: int,
    j: int,
)
    requires
        is_table_of(rows, dates, entries),
    ensures
        0 <= k < dates.len() && dates[k] is Some ==> exists|r: int|
            0 <= r < rows.len() && (#[trigger] rows[r]).0 == dates[k]->0,
        0 <= i < rows.len() ==> {
            let sums = totals_on(dates, entries, rows[i].0);
            &&& dates.contains(Some(rows[i].0))
            &&& rows[i].1.tokens == sums.tokens
            &&& rows[i].1.cost_usd.units == sums.cost
            &&& rows[i].1.priced_tokens == sums.priced
        },
        0 <= i < j < rows.len() ==> text_before(rows[i].0, rows[j].0),
{
    if 0 <= k < dates.len() && dates[k] is Some {
        assert(dates.contains(Some(dates[k]->0)));
        assert(has_row(rows, dates[k]->0));
    }
    if 0 <= i < rows.len() {
        assert(has_row(rows, rows[i].0));
        assert(totals_of(rows[i].1) == totals_on(dates, entries, rows[i].0));
    }
}

/// An entry has a date exactly if its time can be read, and its date is less than a day away from that
/// of its time in UTC.
pub proof fn law_date_is_near_the_time(entry: EntryView, date: Option<Seq<char>>)
    requires
        is_local_date(entry, date),
    ensures
        date is Some <==> moment_of(entry.timestamp) is Some,
        moment_of(entry.timestamp) matches Some((seconds, _)) ==> exists|day: i32|
            date == Some(#[trigger] date_text(day)) && (day - 719_163) * 86_400 - 86_400 < seconds
                < (day - 719_163) * 86_400 + 2 * 86_400,
{
    if let Some((seconds, _)) = moment_of(entry.timestamp) {
        let day = choose|day: i32|
            #[trigger] date_in_some_zone(seconds, day) && date == Some(date_text(day));
        let offset = choose|offset: int|
            -86400 < offset < 86400 && #[trigger] shifted_date(seconds as int, offset) == day;
        assert((seconds + offset) / 86400 + 719_163 == day);
    }
}

/// The views of a table are those of its rows, one for one.
pub proof fn law_rows_one_for_one(rows: Seq<DayRow>, i: int)
    requires
        0 <= i < rows.len(),
    ensures
        rows_of(rows).len() == rows.len(),
        rows_of(rows)[i].0 == rows[i].date@,
        rows_of(rows)[i].1 == rows[i].agg,
{
}

} // verus!
