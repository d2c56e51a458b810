//! The organization's spend since the month began, from the pages of the cost report.
use crate::dates::{is_utc_time, is_year_month, utc_now_rfc3339, utc_year_month};
use crate::http::{field, fields, is_success, success, Field, GetRequest, GetRequestView};
use crate::snapshot::opt_text;
use crate::text::{is_white, join2, law_trimming_takes_white_space_alone, same_text, texts, trim,
    trimmed};
use vstd::prelude::*;

verus! {

/// The address of the cost report.
pub const ADMIN_BASE: &'static str = "https://api.anthropic.com";

/// How many pages are asked for at most.
pub const MAX_PAGES: usize = 50;

/// A line of the report.
pub struct CostResult {
    /// A decimal number of cents.
    pub amount: String,
}

/// The lines of a period.
pub struct CostBucket {
    pub results: Vec<CostResult>,
}

/// A page of the report.
pub struct CostReport {
    pub data: Vec<CostBucket>,
    pub has_more: bool,
    pub next_page: Option<String>,
}

/// What the server's answer to a request for a page comes to: a page, or why there is none.
pub enum PageEvent {
    Page(CostReport),
    Failed(String),
}

/// The report while its pages are asked for.
pub struct SpendQuery {
    pub base: String,
    pub admin_key: String,
    pub starting_at: String,
    pub ending_at: String,
    /// The page to ask for; the first one has no name.
    pub page: Option<String>,
    pub page_count: usize,
    /// The amounts of the pages so far.
    pub amounts: Vec<String>,
}

#[verifier::ext_equal]
pub ghost struct SpendQueryView {
    pub base: Seq<char>,
    pub admin_key: Seq<char>,
    pub starting_at: Seq<char>,
    pub ending_at: Seq<char>,
    pub page: Option<Seq<char>>,
    pub page_count: usize,
    pub amounts: Seq<Seq<char>>,
}

impl View for SpendQuery {
    type V = SpendQueryView;

    open spec fn view(&self) -> SpendQueryView {
        SpendQueryView {
            base: self.base@,
            admin_key: self.admin_key@,
            starting_at: self.starting_at@,
            ending_at: self.ending_at@,
            page: opt_text(self.page),
            page_count: self.page_count,
            amounts: texts(self.amounts@),
        }
    }
}

/// What follows an answer: another page, the amounts of all pages, or an error.
pub enum SpendStep {
    Ask(SpendQuery),
    Done(Vec<String>),
    Failed(String),
}

pub ghost enum SpendStepView {
    Ask(SpendQueryView),
    Done(Seq<Seq<char>>),
    Failed(Seq<char>),
}

impl View for SpendStep {
    type V = SpendStepView;

    open spec fn view(&self) -> SpendStepView {
        match self {
            SpendStep::Ask(q) => SpendStepView::Ask(q@),
            SpendStep::Done(amounts) => SpendStepView::Done(texts(amounts@)),
            SpendStep::Failed(e) => SpendStepView::Failed(e@),
        }
    }
}

/// The amounts of a bucket.
pub open spec fn amounts_of(results: Seq<CostResult>) -> Seq<Seq<char>> {
    results.map_values(|r: CostResult| r.amount@)
}

/// The amounts of a page, bucket by bucket.
pub open spec fn page_amounts(data: Seq<CostBucket>) -> Seq<Seq<char>>
    decreases data.len(),
{
    if data.len() == 0 {
        Seq::empty()
    } else {
        page_amounts(data.drop_last()) + amounts_of(data.last().results@)
    }
}

/// What follows a page: the page that it names, if it says that there are more and the limit is not
/// reached, and otherwise the end.
pub open spec fn after_page(q: SpendQueryView, report: CostReport) -> SpendStepView {
    let amounts = q.amounts + page_amounts(report.data@);
    let count = (q.page_count + 1) as usize;
    if count < MAX_PAGES && report.has_more && report.next_page is Some {
        SpendStepView::Ask(
            SpendQueryView {
                page: opt_text(report.next_page),
                page_count: count,
                amounts,
                ..q
            },
        )
    } else {
        SpendStepView::Done(amounts)
    }
}

/// What follows an answer.
pub open spec fn after_answer(q: SpendQueryView, event: PageEvent) -> SpendStepView {
    match event {
        PageEvent::Page(report) => after_page(q, report),
        PageEvent::Failed(e) => SpendStepView::Failed(e@),
    }
}

/// The parameters of the request for a page.
pub open spec fn page_query(q: SpendQueryView) -> Seq<(Seq<char>, Seq<char>)> {
    let window = seq![("starting_at"@, q.starting_at), ("ending_at"@, q.ending_at)];
    match q.page {
        Some(p) => window.push(("page"@, p)),
        None => window,
    }
}

/// Starts the query for the amounts of a period.
pub fn fetch_month_to_date(
    base: &str,
    admin_key: &str,
    starting_at: &str,
    ending_at: &str,
) -> (r: SpendQuery)
    ensures
        r@ == (SpendQueryView {
            base: base@,
            admin_key: admin_key@,
            starting_at: starting_at@,
            ending_at: ending_at@,
            page: None,
            page_count: 0,
            amounts: Seq::empty(),
        }),
{
    let r = SpendQuery {
        base: base.to_owned(),
        admin_key: admin_key.to_owned(),
        starting_at: starting_at.to_owned(),
        ending_at: ending_at.to_owned(),
        page: None,
        page_count: 0,
        amounts: Vec::new(),
    };
    assert(texts(r.amounts@) =~= Seq::empty());
    r
}

/// What the status of the server's answer amounts to; `line` is the status as it is shown.
pub fn check_report_status(code: u16, line: &str) -> (r: Result<(), String>)
    ensures
        match r {
            Ok(_) => success(code),
            Err(e) => !success(code) && e@ == "cost_report status "@ + line@,
        },
{
    if is_success(code) {
        Ok(())
    } else {
        Err(join2("cost_report status ", line))
    }
}

/// Adds the amounts of a page.
fn add_page(amounts: &mut Vec<String>, data: &Vec<CostBucket>)
    ensures
        texts(final(amounts)@) == texts(old(amounts)@) + page_amounts(data@),
{
    let ghost before = texts(amounts@);
    let mut i: usize = 0;
    assert(before + page_amounts(data@.take(0)) =~= before);
    while i < data.len()
        invariant
            i <= data@.len(),
            texts(amounts@) == before + page_amounts(data@.take(i as int)),
        decreases data@.len() - i,
    {
        let results = &data[i].results;
        let ghost past = texts(amounts@);
        let mut j: usize = 0;
        assert(past + amounts_of(results@.take(0)) =~= past);
        while j < results.len()
            invariant
                j <= results@.len(),
                texts(amounts@) == past + amounts_of(results@.take(j as int)),
            decreases results@.len() - j,
        {
            let ghost now = texts(amounts@);
            amounts.push(results[j].amount.clone());
            assert(texts(amounts@) =~= now.push(results@[j as int].amount@));
            assert(amounts_of(results@.take(j + 1)) =~= amounts_of(results@.take(j as int)).push(
                results@[j as int].amount@,
            ));
            assert(past + amounts_of(results@.take(j + 1)) =~= texts(amounts@));
            j = j + 1;
        }
        assert(results@.take(j as int) =~= results@);
        assert(data@.take(i + 1).drop_last() =~= data@.take(i as int));
        assert(data@.take(i + 1).last() == data@[i as int]);
        assert(before + page_amounts(data@.take(i + 1)) =~= texts(amounts@));
        i = i + 1;
    }
    assert(data@.take(i as int) =~= data@);
}

impl SpendQuery {
    /// The request for the page that is to be asked for.
    pub fn request(&self) -> (r: GetRequest)
        ensures
            r@ == (GetRequestView {
                url: self@.base + "/v1/organizations/cost_report"@,
                query: page_query(self@),
                headers: seq![
                    ("x-api-key"@, self@.admin_key),
                    ("anthropic-version"@, "2023-06-01"@),
                ],
            }),
    {
        let mut headers: Vec<Field> = Vec::new();
        headers.push(field("x-api-key", self.admin_key.as_str()));
        headers.push(field("anthropic-version", "2023-06-01"));
        let mut query: Vec<Field> = Vec::new();
        query.push(field("starting_at", self.starting_at.as_str()));
        query.push(field("ending_at", self.ending_at.as_str()));
        if let Some(p) = &self.page {
            query.push(field("page", p.as_str()));
        }
        assert(fields(query@) =~= page_query(self@));
        assert(fields(headers@) =~= seq![
            ("x-api-key"@, self@.admin_key),
            ("anthropic-version"@, "2023-06-01"@),
        ]);
        GetRequest {
            url: join2(self.base.as_str(), "/v1/organizations/cost_report"),
            query,
            headers,
        }
    }

    /// Takes an answer.
    pub fn step(self, event: PageEvent) -> (r: SpendStep)
        requires
            self@.page_count < MAX_PAGES,
        ensures
            r@ == after_answer(self@, event),
            r matches SpendStep::Ask(q) ==> q@.page_count < MAX_PAGES,
    {
        let report = match event {
            PageEvent::Page(report) => report,
            PageEvent::Failed(e) => {
                return SpendStep::Failed(e);
            },
        };
        let mut q = self;
        add_page(&mut q.amounts, &report.data);
        q.page_count = q.page_count + 1;
        if q.page_count < MAX_PAGES && report.has_more && report.next_page.is_some() {
            q.page = report.next_page;
            SpendStep::Ask(q)
        } else {
            SpendStep::Done(q.amounts)
        }
    }
}

/// The query after some pages, where each of them led to the next one.
pub open spec fn after_pages(q: SpendQueryView, pages: Seq<CostReport>) -> Option<SpendStepView>
    decreases pages.len(),
{
    if pages.len() == 0 {
        Some(SpendStepView::Ask(q))
    } else {
        match after_pages(q, pages.drop_last()) {
            Some(SpendStepView::Ask(next)) => Some(after_page(next, pages.last())),
            _ => None,
        }
    }
}

/// All amounts of some pages.
pub open spec fn all_amounts(pages: Seq<CostReport>) -> Seq<Seq<char>>
    decreases pages.len(),
{
    if pages.len() == 0 {
        Seq::empty()
    } else {
        all_amounts(pages.drop_last()) + page_amounts(pages.last().data@)
    }
}

/// No more pages than the limit are asked for, every page but the last names the one that is asked
/// for next, and the amounts are those of all pages, in their order.
pub proof fn law_pages_are_followed(q: SpendQueryView, pages: Seq<CostReport>)
    requires
        q.page_count == 0,
        q.amounts == Seq::<Seq<char>>::empty(),
        after_pages(q, pages) is Some,
    ensures
        pages.len() <= MAX_PAGES,
        match after_pages(q, pages)->Some_0 {
            SpendStepView::Ask(next) => {
                &&& pages.len() < MAX_PAGES
                &&& next.page_count == pages.len()
                &&& next.amounts == all_amounts(pages)
                &&& pages.len() > 0 ==> pages.last().has_more && pages.last().next_page is Some
                    && next.page == opt_text(pages.last().next_page)
                &&& next.base == q.base && next.admin_key == q.admin_key
                &&& next.starting_at == q.starting_at && next.ending_at == q.ending_at
            },
            SpendStepView::Done(amounts) => {
                &&& amounts == all_amounts(pages)
                &&& pages.len() == MAX_PAGES || !pages.last().has_more
                    || pages.last().next_page is None
            },
            SpendStepView::Failed(_) => false,
        },
    decreases pages.len(),
{
    if pages.len() > 0 {
        law_pages_are_followed(q, pages.drop_last());
    }
}

/// The first moment of a month that is given as `%Y-%m`.
pub fn month_start(year_month: &str) -> (r: String)
    ensures
        r@ == year_month@ + "-01T00:00:00Z"@,
{
    join2(year_month, "-01T00:00:00Z")
}

/// The first moment of the current month in UTC, as RFC 3339.
pub fn month_start_utc() -> (r: String)
    ensures
        exists|month: Seq<char>| #[trigger]
            is_year_month(month) && r@ == month + "-01T00:00:00Z"@,
{
    let month = utc_year_month();
    month_start(month.as_str())
}

/// Starts the query for the amounts from the beginning of the current month until now.
pub fn query_this_month(base: &str, admin_key: &str) -> (r: SpendQuery)
    ensures
        r@.base == base@,
        r@.admin_key == admin_key@,
        r@.page is None,
        r@.page_count == 0,
        r@.amounts == Seq::<Seq<char>>::empty(),
        exists|month: Seq<char>| #[trigger]
            is_year_month(month) && r@.starting_at == month + "-01T00:00:00Z"@,
        is_utc_time(r@.ending_at),
{
    let start = month_start_utc();
    let end = utc_now_rfc3339();
    fetch_month_to_date(base, admin_key, start.as_str(), end.as_str())
}

/// What is to be done with a new admin key.
pub enum KeyAction {
    Clear,
    Save(String),
}

pub ghost enum KeyActionView {
    Clear,
    Save(Seq<char>),
}

impl View for KeyAction {
    type V = KeyActionView;

    open spec fn view(&self) -> KeyActionView {
        match self {
            KeyAction::Clear => KeyActionView::Clear,
            KeyAction::Save(k) => KeyActionView::Save(k@),
        }
    }
}

/// What is to be done with a new admin key: a blank one clears the key, any other is saved without
/// the white space around it.
pub open spec fn key_action(key: Seq<char>) -> KeyActionView {
    if trimmed(key).len() == 0 {
        KeyActionView::Clear
    } else {
        KeyActionView::Save(trimmed(key))
    }
}

/// What is to be done with a new admin key.
pub fn set_admin_key(key: &str) -> (r: KeyAction)
    ensures
        r@ == key_action(key@),
{
    let bare = trim(key);
    proof {
        reveal_strlit("");
        if trimmed(key@).len() == 0 {
            assert(bare@ =~= ""@);
        }
    }
    if same_text(bare, "") {
        KeyAction::Clear
    } else {
        KeyAction::Save(bare.to_owned())
    }
}

/// What the credential manager of the machine made of a request; where it did not do it, with a
/// message.
pub enum KeyOutcome {
    Done,
    /// There is no key.
    NoEntry(String),
    Failed(String),
}

pub ghost enum KeyOutcomeView {
    Done,
    NoEntry(Seq<char>),
    Failed(Seq<char>),
}

impl View for KeyOutcome {
    type V = KeyOutcomeView;

    open spec fn view(&self) -> KeyOutcomeView {
        match self {
            KeyOutcome::Done => KeyOutcomeView::Done,
            KeyOutcome::NoEntry(e) => KeyOutcomeView::NoEntry(e@),
            KeyOutcome::Failed(e) => KeyOutcomeView::Failed(e@),
        }
    }
}

/// What the removal of the admin key amounts to: a key that was not there is as good as removed.
pub fn clear_admin_key(outcome: KeyOutcome) -> (r: Result<(), String>)
    ensures
        key_result(r) == change_result(KeyActionView::Clear, outcome@),
{
    match outcome {
        KeyOutcome::Done => Ok(()),
        KeyOutcome::NoEntry(_) => Ok(()),
        KeyOutcome::Failed(e) => Err(e),
    }
}

/// What the saving of the admin key amounts to.
pub fn save_admin_key(outcome: KeyOutcome) -> (r: Result<(), String>)
    ensures
        forall|key: Seq<char>|
            key_result(r) == #[trigger] change_result(KeyActionView::Save(key), outcome@),
{
    match outcome {
        KeyOutcome::Done => Ok(()),
        KeyOutcome::NoEntry(e) => Err(e),
        KeyOutcome::Failed(e) => Err(e),
    }
}

/// The key that is stored, by what the credential manager gave; any failure counts as none.
pub fn load_admin_key(reading: Result<String, String>) -> (r: Option<String>)
    ensures
        opt_text(r) == match reading {
            Ok(key) => Some(key@),
            Err(_) => None,
        },
{
    match reading {
        Ok(key) => Some(key),
        Err(_) => None,
    }
}

/// The result of a change of the key, by its view.
pub open spec fn key_result(r: Result<(), String>) -> Result<(), Seq<char>> {
    match r {
        Ok(u) => Ok(u),
        Err(e) => Err(e@),
    }
}

/// What a change of the key amounts to: a failure is an error, and so is a missing entry, but for a
/// key that is to be cleared.
pub open spec fn change_result(action: KeyActionView, outcome: KeyOutcomeView) -> Result<
    (),
    Seq<char>,
> {
    match outcome {
        KeyOutcomeView::Done => Ok(()),
        KeyOutcomeView::NoEntry(e) => match action {
            KeyActionView::Clear => Ok(()),
            KeyActionView::Save(_) => Err(e),
        },
        KeyOutcomeView::Failed(e) => Err(e),
    }
}

/// What follows a change of the key: the spend is refreshed once, or there is an error.
pub enum KeyStep {
    RefreshSpend,
    Failed(String),
}

/// What follows a change of the key: after a success the spend is refreshed, after a failure it is
/// not, and the error is passed on.
pub fn after_key_change(result: Result<(), String>) -> (r: KeyStep)
    ensures
        match result {
            Ok(_) => r is RefreshSpend,
            Err(e) => r matches KeyStep::Failed(m) && m@ == e@,
        },
{
    match result {
        Ok(_) => KeyStep::RefreshSpend,
        Err(e) => KeyStep::Failed(e),
    }
}

/// Whether the credential manager can answer an action with an outcome and turn one stored key into
/// another: a key that was saved is stored, a key that was removed is not, and a failure changes
/// nothing.
pub open spec fn stored_after(
    action: KeyActionView,
    before: Option<Seq<char>>,
    outcome: KeyOutcomeView,
    after: Option<Seq<char>>,
) -> bool {
    match outcome {
        KeyOutcomeView::Done => after == match action {
            KeyActionView::Clear => None,
            KeyActionView::Save(k) => Some(k),
        },
        KeyOutcomeView::NoEntry(_) => before is None && after is None,
        KeyOutcomeView::Failed(_) => after == before,
    }
}

/// What a successful change of the key stores is what is loaded afterwards: the key without the white
/// space around it, and none for a blank one.
pub proof fn law_key_is_loaded_as_it_was_set(
    key: Seq<char>,
    before: Option<Seq<char>>,
    outcome: KeyOutcomeView,
    after: Option<Seq<char>>,
)
    requires
        stored_after(key_action(key), before, outcome, after),
    ensures
        change_result(key_action(key), outcome) is Ok ==> after == (if trimmed(key).len() == 0 {
            None
        } else {
            Some(trimmed(key))
        }),
        change_result(key_action(key), outcome) is Err ==> after == before,
{
}

/// A blank key can be set any number of times: where the credential manager does not fail, clearing
/// is a success whether there is a key or not.
pub proof fn law_clearing_again_succeeds(outcome: KeyOutcomeView)
    requires
        !(outcome is Failed),
    ensures
        change_result(KeyActionView::Clear, outcome) is Ok,
{
}

/// The amounts of a page are those of its lines: one more bucket adds the amounts of its lines behind
/// the others, each as it stands, and a page without buckets has none.
pub proof fn law_bucket_adds_its_amounts(data: Seq<CostBucket>, bucket: CostBucket)
    ensures
        page_amounts(Seq::empty()).len() == 0,
        page_amounts(data.push(bucket)).len() == page_amounts(data).len() + bucket.results@.len(),
        page_amounts(data).is_prefix_of(page_amounts(data.push(bucket))),
        forall|i: int|
            0 <= i < bucket.results@.len() ==> #[trigger] page_amounts(data.push(bucket))[page_amounts(
                data,
            ).len() + i] == bucket.results@[i].amount@,
{
    assert(data.push(bucket).drop_last() =~= data);
}

/// A page leads to the page that it names exactly if it says that there are more, names one, and is not
/// the fiftieth; the period, the key and the server stay the same. Otherwise the query ends. Either way
/// the amounts are those so far and behind them those of the page.
pub proof fn law_page_leads_to_the_named_one(q: SpendQueryView, report: CostReport)
    requires
        q.page_count < 50,
    ensures
        match after_answer(q, PageEvent::Page(report)) {
            SpendStepView::Ask(next) => {
                &&& report.has_more && report.next_page is Some && q.page_count < 49
                &&& next.page == Some(report.next_page->0@)
                &&& next.page_count == q.page_count + 1
                &&& next.amounts == q.amounts + page_amounts(report.data@)
                &&& next.base == q.base && next.admin_key == q.admin_key
                &&& next.starting_at == q.starting_at && next.ending_at == q.ending_at
            },
            SpendStepView::Done(amounts) => {
                &&& !report.has_more || report.next_page is None || q.page_count == 49
                &&& amounts == q.amounts + page_amounts(report.data@)
            },
            SpendStepView::Failed(_) => false,
        },
        forall|e: String| #[trigger]
            after_answer(q, PageEvent::Failed(e)) == SpendStepView::Failed(e@),
{
}

/// A request asks for the period, and for the page where it has a name, each under its own name.
pub proof fn law_request_asks_for_period_and_page(q: SpendQueryView)
    ensures
        page_query(q)[0] == ("starting_at"@, q.starting_at),
        page_query(q)[1] == ("ending_at"@, q.ending_at),
        match q.page {
            Some(p) => page_query(q).len() == 3 && page_query(q)[2] == ("page"@, p),
            None => page_query(q).len() == 2,
        },
{
}

/// A key is saved with no white space around it and nothing else missing: what is around the saved key
/// in the given one is white space alone. A key is cleared exactly if it is white space alone.
pub proof fn law_saved_key_stands_in_the_given_one(key: Seq<char>)
    ensures
        match key_action(key) {
            KeyActionView::Save(k) => k.len() > 0 && !is_white(k.first()) && !is_white(k.last())
                && exists|before: Seq<char>, after: Seq<char>|
                key == #[trigger] (before + k + after) && (forall|i: int|
                    0 <= i < before.len() ==> is_white(#[trigger] before[i])) && (forall|i: int|
                    0 <= i < after.len() ==> is_white(#[trigger] after[i])),
            KeyActionView::Clear => forall|i: int|
                0 <= i < key.len() ==> is_white(#[trigger] key[i]),
        },
{
    law_trimming_takes_white_space_alone(key);
    let (before, after) = choose|before: Seq<char>, after: Seq<char>|
        key == #[trigger] (before + trimmed(key) + after) && (forall|i: int|
            0 <= i < before.len() ==> is_white(#[trigger] before[i])) && (forall|i: int|
            0 <= i < after.len() ==> is_white(#[trigger] after[i]));
    assert(key == before + trimmed(key) + after);
    if trimmed(key).len() == 0 {
        assert(key.len() == before.len() + after.len());
        assert forall|i: int| 0 <= i < key.len() implies is_white(#[trigger] key[i]) by {
            if i < before.len() {
                assert(key[i] == before[i]);
            } else {
                assert(key[i] == after[i - before.len()]);
            }
        }
    }
}

/// What the credential manager reports is the result: a failure is an error with its message, and a
/// missing entry is one for a key that was to be saved.
pub proof fn law_failure_is_reported(action: KeyActionView, message: Seq<char>)
    ensures
        change_result(action, KeyOutcomeView::Done) is Ok,
        change_result(action, KeyOutcomeView::Failed(message)) == Err::<(), Seq<char>>(message),
        action is Save ==> change_result(action, KeyOutcomeView::NoEntry(message)) == Err::<
            (),
            Seq<char>,
        >(message),
{
}

/// A query is seen as it is, field by field.
pub proof fn law_query_is_seen_as_it_is(q: SpendQuery)
    ensures
        q@.base == q.base@,
        q@.admin_key == q.admin_key@,
        q@.starting_at == q.starting_at@,
        q@.ending_at == q.ending_at@,
        match q.page {
            Some(p) => q@.page == Some(p@),
            None => q@.page is None,
        },
        q@.page_count == q.page_count,
        q@.amounts == texts(q.amounts@),
{
}

} // verus!
