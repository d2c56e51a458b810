//! The cached history: how many tokens each past day took, over all models.
use crate::text::{comes_before, lemma_text_order_irreflexive, lemma_text_order_transitive,
    lemma_text_order_total, text_before};
use vstd::prelude::*;

verus! {

/// A day of the history.
#[derive(Debug)]
pub struct CachedDay {
    /// Local date, YYYY-MM-DD.
    pub date: String,
    pub tokens: u64,
}

pub ghost struct CachedDayView {
    pub date: Seq<char>,
    pub tokens: u64,
}

impl View for CachedDay {
    type V = CachedDayView;

    open spec fn view(&self) -> CachedDayView {
        CachedDayView { date: self.date@, tokens: self.tokens }
    }
}

impl Clone for CachedDay {
    fn clone(&self) -> (r: Self)
        ensures
            r@ == self@,
    {
        CachedDay { date: self.date.clone(), tokens: self.tokens }
    }
}

/// The views of the days of a list.
pub open spec fn cached_days(days: Seq<CachedDay>) -> Seq<CachedDayView> {
    days.map_values(|d: CachedDay| d@)
}

/// A copy of a list of days.
pub fn clone_days(days: &Vec<CachedDay>) -> (r: Vec<CachedDay>)
    ensures
        cached_days(r@) == cached_days(days@),
{
    let mut r: Vec<CachedDay> = Vec::new();
    let mut i: usize = 0;
    while i < days.len()
        invariant
            i <= days@.len(),
            r@.len() == i,
            forall|j: int| 0 <= j < i ==> (#[trigger] r@[j])@ == days@[j]@,
        decreases days@.len() - i,
    {
        r.push(days[i].clone());
        i = i + 1;
    }
    assert(cached_days(r@) =~= cached_days(days@));
    r
}

/// A day of the statistics file: the tokens that each model took, in any order.
pub struct DailyModelTokens {
    pub date: String,
    pub tokens_by_model: Vec<u64>,
}

/// What is read from the statistics file.
pub struct StatsCache {
    pub daily_model_tokens: Vec<DailyModelTokens>,
}

/// The sum of some counts.
pub open spec fn sum_of(counts: Seq<u64>) -> int
    decreases counts.len(),
{
    if counts.len() == 0 {
        0
    } else {
        sum_of(counts.drop_last()) + counts.last()
    }
}

/// Whether the tokens of each day can be counted.
pub open spec fn countable(cache: StatsCache) -> bool {
    forall|i: int|
        0 <= i < cache.daily_model_tokens@.len() ==> sum_of(
            (#[trigger] cache.daily_model_tokens@[i]).tokens_by_model@,
        ) <= u64::MAX
}

/// The days of the file in the order of the file.
pub open spec fn days_in_file(cache: StatsCache) -> Seq<CachedDayView> {
    cache.daily_model_tokens@.map_values(
        |d: DailyModelTokens|
            CachedDayView { date: d.date@, tokens: sum_of(d.tokens_by_model@) as u64 },
    )
}

/// Whether no day comes after one of a later date.
pub open spec fn in_date_order(days: Seq<CachedDayView>) -> bool {
    forall|i: int, j: int|
        0 <= i < j < days.len() ==> !text_before((#[trigger] days[j]).date, (#[trigger] days[i]).date)
}

/// The days of one date.
pub open spec fn of_date(days: Seq<CachedDayView>, date: Seq<char>) -> Seq<CachedDayView> {
    days.filter(|d: CachedDayView| d.date == date)
}

/// Whether two lists hold the same days of each date, in the same order within the date.
pub open spec fn same_by_date(a: Seq<CachedDayView>, b: Seq<CachedDayView>) -> bool {
    forall|date: Seq<char>| #[trigger] of_date(a, date) == of_date(b, date)
}

/// Whether `sorted` is the stable sort by date of `days`.
pub open spec fn sorted_by_date(days: Seq<CachedDayView>, sorted: Seq<CachedDayView>) -> bool {
    in_date_order(sorted) && same_by_date(days, sorted)
}

proof fn lemma_sum_grows(counts: Seq<u64>, n: int)
    requires
        0 <= n <= counts.len(),
    ensures
        0 <= sum_of(counts.take(n)) <= sum_of(counts),
    decreases counts.len(),
{
    if n == counts.len() {
        assert(counts.take(n) =~= counts);
        if n > 0 {
            lemma_sum_grows(counts.drop_last(), n - 1);
        }
    } else {
        lemma_sum_grows(counts.drop_last(), n);
        assert(counts.drop_last().take(n) =~= counts.take(n));
    }
}

/// The sum of some counts, where it can be counted.
pub fn checked_sum(counts: &Vec<u64>) -> (r: Option<u64>)
    ensures
        match r {
            Some(n) => n == sum_of(counts@),
            None => sum_of(counts@) > u64::MAX,
        },
{
    let mut total: u64 = 0;
    let mut i: usize = 0;
    assert(counts@.take(0) =~= Seq::empty());
    while i < counts.len()
        invariant
            i <= counts@.len(),
            total == sum_of(counts@.take(i as int)),
        decreases counts@.len() - i,
    {
        assert(counts@.take(i + 1).drop_last() =~= counts@.take(i as int));
        assert(counts@.take(i + 1).last() == counts@[i as int]);
        match total.checked_add(counts[i]) {
            Some(n) => {
                total = n;
            },
            None => {
                proof {
                    lemma_sum_grows(counts@, i + 1);
                }
                return None;
            },
        }
        i = i + 1;
    }
    assert(counts@.take(i as int) =~= counts@);
    Some(total)
}

/// Whether the tokens of each day can be counted.
pub fn is_countable(cache: &StatsCache) -> (r: bool)
    ensures
        r == countable(*cache),
{
    let mut i: usize = 0;
    while i < cache.daily_model_tokens.len()
        invariant
            i <= cache.daily_model_tokens@.len(),
            forall|j: int|
                0 <= j < i ==> sum_of((#[trigger] cache.daily_model_tokens@[j]).tokens_by_model@)
                    <= u64::MAX,
        decreases cache.daily_model_tokens@.len() - i,
    {
        let sum = checked_sum(&cache.daily_model_tokens[i].tokens_by_model);
        if sum.is_none() {
            assert(sum_of(cache.daily_model_tokens@[i as int].tokens_by_model@) > u64::MAX);
            return false;
        }
        i = i + 1;
    }
    true
}

/// Where a day belongs in a list in the order of dates: behind all that are not later.
fn place_for(days: &Vec<CachedDay>, day: &CachedDay) -> (r: usize)
    requires
        in_date_order(cached_days(days@)),
    ensures
        r <= days@.len(),
        forall|i: int| 0 <= i < r ==> !text_before(day@.date, (#[trigger] days@[i])@.date),
        forall|i: int| r <= i < days@.len() ==> text_before(day@.date, (#[trigger] days@[i])@.date),
{
    let mut r: usize = days.len();
    while r > 0
        invariant_except_break
            r <= days@.len(),
            forall|i: int|
                r <= i < days@.len() ==> text_before(day@.date, (#[trigger] days@[i])@.date),
            in_date_order(cached_days(days@)),
        ensures
            r <= days@.len(),
            forall|i: int| 0 <= i < r ==> !text_before(day@.date, (#[trigger] days@[i])@.date),
            forall|i: int|
                r <= i < days@.len() ==> text_before(day@.date, (#[trigger] days@[i])@.date),
        decreases r,
    {
        if !comes_before(day.date.as_str(), days[r - 1].date.as_str()) {
            proof {
                let views = cached_days(days@);
                assert forall|i: int| 0 <= i < r implies !text_before(
                    day@.date,
                    (#[trigger] days@[i])@.date,
                ) by {
                    assert(views[i] == days@[i]@ && views[r - 1] == days@[r - 1]@);
                    if text_before(day@.date, views[i].date) {
                        lemma_text_order_total(views[i].date, views[r - 1].date);
                        if text_before(views[i].date, views[r - 1].date) {
                            lemma_text_order_transitive(
                                day@.date,
                                views[i].date,
                                views[r - 1].date,
                            );
                        }
                    }
                }
            }
            break;
        }
        r = r - 1;
    }
    r
}

proof fn lemma_filter_none(days: Seq<CachedDayView>, date: Seq<char>)
    requires
        forall|i: int| 0 <= i < days.len() ==> (#[trigger] days[i]).date != date,
    ensures
        of_date(days, date) == Seq::<CachedDayView>::empty(),
    decreases days.len(),
{
    reveal(Seq::filter);
    if days.len() > 0 {
        lemma_filter_none(days.drop_last(), date);
    }
}

/// Putting a day behind all that are not later keeps the order, and the order within each date.
proof fn lemma_placed(days: Seq<CachedDayView>, place: int, day: CachedDayView)
    requires
        in_date_order(days),
        0 <= place <= days.len(),
        forall|i: int| 0 <= i < place ==> !text_before(day.date, (#[trigger] days[i]).date),
        forall|i: int| place <= i < days.len() ==> text_before(day.date, (#[trigger] days[i]).date),
    ensures
        in_date_order(days.insert(place, day)),
        same_by_date(days.push(day), days.insert(place, day)),
{
    let put = days.insert(place, day);
    assert forall|i: int, j: int| 0 <= i < j < put.len() implies !text_before(
        (#[trigger] put[j]).date,
        (#[trigger] put[i]).date,
    ) by {
        if j == place {
            assert(put[i] == days[i]);
        } else if i == place {
            assert(put[j] == days[j - 1]);
            if text_before(put[j].date, day.date) {
                lemma_text_order_transitive(put[j].date, day.date, put[j].date);
                lemma_text_order_irreflexive(put[j].date);
            }
        } else {
            let a = if i < place { i } else { i - 1 };
            let b = if j < place { j } else { j - 1 };
            assert(put[i] == days[a] && put[j] == days[b] && a < b);
        }
    }
    assert forall|date: Seq<char>| #[trigger] of_date(days.push(day), date) == of_date(
        put,
        date,
    ) by {
        let pred = |d: CachedDayView| d.date == date;
        let front = days.take(place);
        let back = days.skip(place);
        let one = seq![day];
        assert(days.push(day) =~= front + back + one);
        assert(put =~= front + one + back);
        Seq::filter_distributes_over_add(front + back, one, pred);
        Seq::filter_distributes_over_add(front, back, pred);
        Seq::filter_distributes_over_add(front + one, back, pred);
        Seq::filter_distributes_over_add(front, one, pred);
        if day.date == date {
            assert forall|i: int| 0 <= i < back.len() implies (#[trigger] back[i]).date != date by {
                assert(back[i] == days[place + i]);
                lemma_text_order_irreflexive(date);
            }
            lemma_filter_none(back, date);
            assert(back.filter(pred) =~= Seq::empty());
        } else {
            lemma_filter_none(one, date);
            assert(one.filter(pred) =~= Seq::empty());
        }
        assert(days.push(day).filter(pred) =~= put.filter(pred));
    }
}

/// The days of the file in the order of their dates; nothing where the file could not be read.
pub fn read_stats_cache(file: Option<StatsCache>) -> (r: Option<Vec<CachedDay>>)
    requires
        file matches Some(cache) ==> countable(cache),
    ensures
        r is Some == file is Some,
        r matches Some(days) ==> sorted_by_date(days_in_file(file->Some_0), cached_days(days@)),
{
    let cache = match file {
        Some(cache) => cache,
        None => {
            return None;
        },
    };
    let ghost all = days_in_file(cache);
    let mut days: Vec<CachedDay> = Vec::new();
    let mut i: usize = 0;
    assert(cached_days(days@) =~= all.take(0));
    while i < cache.daily_model_tokens.len()
        invariant
            i <= cache.daily_model_tokens@.len(),
            countable(cache),
            all == days_in_file(cache),
            sorted_by_date(all.take(i as int), cached_days(days@)),
        decreases cache.daily_model_tokens@.len() - i,
    {
        let source = &cache.daily_model_tokens[i];
        assert(countable(cache) && *source == cache.daily_model_tokens@[i as int]);
        let tokens: u64 = match checked_sum(&source.tokens_by_model) {
            Some(n) => n,
            None => 0,
        };
        let day = CachedDay { date: source.date.clone(), tokens };
        let place: usize = place_for(&days, &day);
        let ghost before = cached_days(days@);
        let ghost view = day@;
        proof {
            assert(view == all[i as int]);
            assert forall|k: int| 0 <= k < place implies !text_before(
                view.date,
                (#[trigger] before[k]).date,
            ) by {
                assert(before[k] == days@[k]@);
            }
            assert forall|k: int| place <= k < before.len() implies text_before(
                view.date,
                (#[trigger] before[k]).date,
            ) by {
                assert(before[k] == days@[k]@);
            }
            lemma_placed(before, place as int, view);
        }
        days.insert(place, day);
        proof {
            assert(cached_days(days@) =~= before.insert(place as int, view));
            let next = all.take(i + 1);
            assert(next =~= all.take(i as int).push(view));
            assert forall|date: Seq<char>| #[trigger] of_date(next, date) == of_date(
                cached_days(days@),
                date,
            ) by {
                let pred = |d: CachedDayView| d.date == date;
                assert(of_date(all.take(i as int), date) == of_date(before, date));
                Seq::filter_distributes_over_add(all.take(i as int), seq![view], pred);
                Seq::filter_distributes_over_add(before, seq![view], pred);
                assert(next =~= all.take(i as int) + seq![view]);
                assert(before.push(view) =~= before + seq![view]);
                assert(of_date(before.push(view), date) == of_date(
                    before.insert(place as int, view),
                    date,
                ));
            }
        }
        i = i + 1;
    }
    assert(all.take(i as int) =~= all);
    Some(days)
}

/// There is only one list that holds the same days of each date and is in the order of dates.
pub proof fn law_sorting_is_determined(
    days: Seq<CachedDayView>,
    a: Seq<CachedDayView>,
    b: Seq<CachedDayView>,
)
    requires
        sorted_by_date(days, a),
        sorted_by_date(days, b),
    ensures
        a == b,
{
    assert forall|date: Seq<char>| #[trigger] of_date(a, date) == of_date(b, date) by {
        assert(of_date(days, date) == of_date(a, date));
        assert(of_date(days, date) == of_date(b, date));
    }
    lemma_same_sorted(a, b);
}

proof fn lemma_same_sorted(a: Seq<CachedDayView>, b: Seq<CachedDayView>)
    requires
        in_date_order(a),
        in_date_order(b),
        same_by_date(a, b),
    ensures
        a == b,
    decreases a.len(),
{
    reveal(Seq::filter);
    if a.len() == 0 {
        if b.len() > 0 {
            assert(of_date(a, b.last().date) == of_date(b, b.last().date));
            assert(of_date(b, b.last().date).last() == b.last());
            assert(of_date(a, b.last().date).len() == 0);
        }
        assert(a =~= b);
    } else {
        let x = a.last();
        assert(of_date(a, x.date) == of_date(b, x.date));
        assert(of_date(a, x.date).last() == x);
        if b.len() == 0 {
            assert(of_date(b, x.date).len() == 0);
            assert(false);
        }
        let y = b.last();
        assert(of_date(a, y.date) == of_date(b, y.date));
        assert(of_date(b, y.date).last() == y);
        lemma_not_after_last(a, y.date);
        lemma_not_after_last(b, x.date);
        lemma_text_order_total(x.date, y.date);
        assert(x == y);
        assert forall|date: Seq<char>| #[trigger] of_date(a.drop_last(), date) == of_date(
            b.drop_last(),
            date,
        ) by {
            assert(of_date(a, date) == of_date(b, date));
            if x.date == date {
                assert(of_date(a, date).drop_last() =~= of_date(a.drop_last(), date));
                assert(of_date(b, date).drop_last() =~= of_date(b.drop_last(), date));
            }
        }
        lemma_same_sorted(a.drop_last(), b.drop_last());
        assert(a =~= a.drop_last().push(x));
        assert(b =~= b.drop_last().push(y));
    }
}

/// A date that a list in order has is not after its last one.
proof fn lemma_not_after_last(days: Seq<CachedDayView>, date: Seq<char>)
    requires
        in_date_order(days),
        of_date(days, date).len() > 0,
    ensures
        days.len() > 0,
        !text_before(days.last().date, date),
{
    if forall|i: int| 0 <= i < days.len() ==> (#[trigger] days[i]).date != date {
        lemma_filter_none(days, date);
    }
    let i = choose|i: int| 0 <= i < days.len() && (#[trigger] days[i]).date == date;
    if i == days.len() - 1 {
        lemma_text_order_irreflexive(date);
    } else {
        assert(!text_before(days[days.len() - 1].date, days[i].date));
    }
}

/// The sum of two lists of counts together is the sum of their sums; one count is its own sum.
pub proof fn law_sums_add_up(a: Seq<u64>, b: Seq<u64>, n: u64)
    ensures
        sum_of(a + b) == sum_of(a) + sum_of(b),
        sum_of(seq![n]) == n,
        sum_of(Seq::empty()) == 0,
    decreases b.len(),
{
    if b.len() == 0 {
        assert(a + b =~= a);
    } else {
        assert((a + b).drop_last() =~= a + b.drop_last());
        law_sums_add_up(a, b.drop_last(), n);
    }
    assert(seq![n].drop_last() =~= Seq::<u64>::empty());
    assert(sum_of(seq![n].drop_last()) == 0);
}

/// Every day of the file is a day of the history, with its date and all of its models' tokens.
pub proof fn law_day_has_all_its_tokens(cache: StatsCache, i: int)
    requires
        countable(cache),
        0 <= i < cache.daily_model_tokens@.len(),
    ensures
        days_in_file(cache).len() == cache.daily_model_tokens@.len(),
        days_in_file(cache)[i].date == cache.daily_model_tokens@[i].date@,
        days_in_file(cache)[i].tokens == sum_of(cache.daily_model_tokens@[i].tokens_by_model@),
{
    let counts = cache.daily_model_tokens@[i].tokens_by_model@;
    lemma_sum_grows(counts, counts.len() as int);
    assert(counts.take(counts.len() as int) =~= counts);
    assert(sum_of(cache.daily_model_tokens@[i].tokens_by_model@) <= u64::MAX);
}

/// Sorting keeps every day and adds none, the days of one date stay as they were among each other, and no
/// day stands behind one of a later date.
pub proof fn law_sorting_keeps_every_day(
    days: Seq<CachedDayView>,
    sorted: Seq<CachedDayView>,
    day: CachedDayView,
    i: int,
    j: int,
)
    requires
        sorted_by_date(days, sorted),
    ensures
        sorted.contains(day) <==> days.contains(day),
        sorted.filter(|d: CachedDayView| d.date == day.date) == days.filter(
            |d: CachedDayView| d.date == day.date,
        ),
        0 <= i < j < sorted.len() ==> !text_before(sorted[j].date, sorted[i].date),
{
    lemma_of_date_contains(days, day);
    lemma_of_date_contains(sorted, day);
    assert(of_date(days, day.date) == of_date(sorted, day.date));
    assert(of_date(days, day.date) == days.filter(|d: CachedDayView| d.date == day.date));
    assert(of_date(sorted, day.date) == sorted.filter(|d: CachedDayView| d.date == day.date));
}

proof fn lemma_of_date_contains(days: Seq<CachedDayView>, day: CachedDayView)
    ensures
        of_date(days, day.date).contains(day) <==> days.contains(day),
    decreases days.len(),
{
    reveal(Seq::filter);
    if days.len() > 0 {
        let rest = days.drop_last();
        let kept = of_date(rest, day.date);
        let all = of_date(days, day.date);
        lemma_of_date_contains(rest, day);
        assert(days[days.len() - 1] == days.last());
        if kept.contains(day) {
            let i = choose|i: int| 0 <= i < kept.len() && kept[i] == day;
            assert(all[i] == day);
        }
        if rest.contains(day) {
            let i = choose|i: int| 0 <= i < rest.len() && rest[i] == day;
            assert(days[i] == day);
        }
        if days.last() == day {
            assert(all[kept.len() as int] == day);
        }
        if days.contains(day) && days.last() != day {
            let i = choose|i: int| 0 <= i < days.len() && days[i] == day;
            assert(rest[i] == day);
        }
        if all.contains(day) && days.last() != day {
            let i = choose|i: int| 0 <= i < all.len() && all[i] == day;
            assert(kept[i] == day);
        }
    }
}

/// The days of a file can be counted exactly if none of them has more tokens than can be held.
pub proof fn law_countable_day_by_day(cache: StatsCache, days: Seq<CachedDay>, i: int)
    ensures
        countable(cache) && 0 <= i < cache.daily_model_tokens@.len() ==> sum_of(
            cache.daily_model_tokens@[i].tokens_by_model@,
        ) <= u64::MAX,
        !countable(cache) ==> exists|k: int|
            0 <= k < cache.daily_model_tokens@.len() && sum_of(
                (#[trigger] cache.daily_model_tokens@[k]).tokens_by_model@,
            ) > u64::MAX,
        cached_days(days).len() == days.len(),
        0 <= i < days.len() ==> cached_days(days)[i].date == days[i].date@ && cached_days(
            days,
        )[i].tokens == days[i].tokens,
{
}

} // verus!
