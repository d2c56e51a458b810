//! What a refresh does to the figures, and when the tray icon is drawn anew.
use crate::dates::{is_utc_time, utc_now_rfc3339};
use crate::limits::LimitsError;
use crate::local_stats::file_cache::{FileCache, FileCacheView};
use crate::snapshot::{opt_text, ApiSpend, ApiSpendView, DollarBits, Limits, LimitsView, LocalStats,
    Percent, UsageSnapshot, UsageSnapshotView};
use crate::percent_text::{percent_text, text_of};
use crate::text::{join3, same_text};
use crate::tray_icon::{lemma_rounded_in_range, rounded_percent};
use vstd::prelude::*;

verus! {

/// How many seconds lie between two refreshes of the limits.
pub const LIMITS_PERIOD_SECS: u64 = 60;

/// How many seconds lie between two refreshes of the local figures.
pub const LOCAL_PERIOD_SECS: u64 = 30;

/// How many seconds lie between two refreshes of the spend.
pub const SPEND_PERIOD_SECS: u64 = 600;

/// What the tray icon shows: the rounded percentage of the session and the tooltip.
#[derive(Debug)]
pub struct TrayRecord {
    /// -1 where nothing was drawn or nothing is known.
    pub pct_key: i8,
    pub tooltip: String,
}

impl View for TrayRecord {
    type V = (i8, Seq<char>);

    open spec fn view(&self) -> (i8, Seq<char>) {
        (self.pct_key, self.tooltip@)
    }
}

/// What the program knows.
pub struct AppState {
    pub snapshot: UsageSnapshot,
    pub file_cache: FileCache,
    pub last_tray: TrayRecord,
}

impl AppState {
    /// What the program knows when it starts: nothing.
    pub fn new() -> (r: Self)
        ensures
            r.snapshot@ == (UsageSnapshotView { limits: None, local: None, api_spend: None }),
            r.file_cache.wf(),
            r.file_cache@ == (FileCacheView { files: Map::empty(), stats: None }),
            r.last_tray@ == (-1i8, Seq::<char>::empty()),
    {
        AppState {
            snapshot: UsageSnapshot::default(),
            file_cache: FileCache::default(),
            last_tray: TrayRecord { pct_key: -1, tooltip: String::new() },
        }
    }
}

/// The limits after a refresh: the new ones, or the last good ones marked as stale.
pub open spec fn limits_after(
    limits: Option<LimitsView>,
    result: Result<Limits, LimitsError>,
) -> Option<LimitsView> {
    match result {
        Ok(l) => Some(l@),
        Err(_) => match limits {
            Some(l) => Some(LimitsView { stale: true, ..l }),
            None => None,
        },
    }
}

/// Takes the result of a query for the limits. After a failure the last good figures stay, marked as
/// stale.
pub fn refresh_limits(snapshot: &mut UsageSnapshot, result: Result<Limits, LimitsError>)
    ensures
        final(snapshot)@ == (UsageSnapshotView {
            limits: limits_after(old(snapshot)@.limits, result),
            ..old(snapshot)@
        }),
{
    match result {
        Ok(l) => {
            snapshot.limits = Some(l);
        },
        Err(_) => {
            let mut last: Option<Limits> = None;
            std::mem::swap(&mut last, &mut snapshot.limits);
            snapshot.limits = match last {
                Some(mut l) => {
                    l.stale = true;
                    Some(l)
                },
                None => None,
            };
        },
    }
}

/// Takes the cache for a collection; an empty one stays behind.
pub fn take_file_cache(cache: &mut FileCache) -> (r: FileCache)
    ensures
        r == *old(cache),
        final(cache).wf(),
        final(cache)@ == (FileCacheView { files: Map::empty(), stats: None }),
{
    let mut taken = FileCache::default();
    std::mem::swap(&mut taken, cache);
    taken
}

/// Takes the result of a collection and the cache that it worked with. After a failure the last good
/// figures stay, and the cache starts anew.
pub fn refresh_local(
    snapshot: &mut UsageSnapshot,
    cache: &mut FileCache,
    result: Option<(LocalStats, FileCache)>,
)
    ensures
        match result {
            Some((stats, used)) => {
                &&& final(snapshot)@ == (UsageSnapshotView {
                    local: Some(stats@),
                    ..old(snapshot)@
                })
                &&& *final(cache) == used
            },
            None => final(snapshot)@ == old(snapshot)@ && *final(cache) == *old(cache),
        },
{
    if let Some((stats, used)) = result {
        *cache = used;
        snapshot.local = Some(stats);
    }
}

/// The spend after a refresh at some time: none without a key, the new one, or the last good one
/// marked as stale.
pub open spec fn spend_after(
    spend: Option<ApiSpendView>,
    result: Option<Result<DollarBits, String>>,
    fetched_at: Seq<char>,
) -> Option<ApiSpendView> {
    match result {
        None => None,
        Some(Ok(usd)) => Some(ApiSpendView { month_to_date_usd: usd, fetched_at, stale: false }),
        Some(Err(_)) => match spend {
            Some(s) => Some(ApiSpendView { stale: true, ..s }),
            None => None,
        },
    }
}

/// The figures after a refresh of the spend at some time.
pub open spec fn with_spend(
    snapshot: UsageSnapshotView,
    result: Option<Result<DollarBits, String>>,
    fetched_at: Seq<char>,
) -> UsageSnapshotView {
    UsageSnapshotView {
        api_spend: spend_after(snapshot.api_spend, result, fetched_at),
        ..snapshot
    }
}

/// Takes the result of a query for the spend, none where there is no key. After a failure the last
/// good figure stays, marked as stale; without a key there is none.
pub fn apply_spend(
    snapshot: &mut UsageSnapshot,
    result: Option<Result<DollarBits, String>>,
    fetched_at: String,
)
    ensures
        final(snapshot)@ == with_spend(old(snapshot)@, result, fetched_at@),
{
    match result {
        None => {
            snapshot.api_spend = None;
        },
        Some(Ok(usd)) => {
            snapshot.api_spend = Some(
                ApiSpend { month_to_date_usd: usd, fetched_at, stale: false },
            );
        },
        Some(Err(_)) => {
            let mut last: Option<ApiSpend> = None;
            std::mem::swap(&mut last, &mut snapshot.api_spend);
            snapshot.api_spend = match last {
                Some(mut s) => {
                    s.stale = true;
                    Some(s)
                },
                None => None,
            };
        },
    }
}

/// Takes the result of a query for the spend that has just ended.
pub fn refresh_spend(snapshot: &mut UsageSnapshot, result: Option<Result<DollarBits, String>>)
    ensures
        exists|at: Seq<char>|
            final(snapshot)@ == #[trigger] with_spend(old(snapshot)@, result, at) && is_utc_time(at),
{
    apply_spend(snapshot, result, utc_now_rfc3339());
}

/// What the tray icon should show; `name` is the name of the program, which stands in for the
/// percentages while they are not known.
pub open spec fn tray_of(limits: Option<LimitsView>, name: Seq<char>) -> (i8, Seq<char>) {
    match limits {
        Some(l) => (
            l.session_pct.rounded() as i8,
            "Session "@ + text_of(l.session_pct) + "% · Weekly "@ + text_of(l.weekly_pct) + "%"@,
        ),
        None => (-1i8, name),
    }
}

/// The percentage that the ring is drawn for.
pub open spec fn drawn_pct(limits: Option<LimitsView>) -> Option<Percent> {
    match limits {
        Some(l) => Some(l.session_pct),
        None => None,
    }
}

/// A new tray icon: the percentage to draw and the tooltip.
pub struct TrayUpdate {
    pub pct: Option<Percent>,
    pub tooltip: String,
}

impl View for TrayUpdate {
    type V = (Option<Percent>, Seq<char>);

    open spec fn view(&self) -> (Option<Percent>, Seq<char>) {
        (self.pct, self.tooltip@)
    }
}

/// What a publication does: the tray icon is changed if there is an update for it, and the windows
/// get the figures once in any case.
pub struct Publication {
    pub tray: Option<TrayUpdate>,
    pub event: UsageSnapshot,
}

pub ghost struct PublicationView {
    pub tray: Option<(Option<Percent>, Seq<char>)>,
    pub event: UsageSnapshotView,
}

impl View for Publication {
    type V = PublicationView;

    open spec fn view(&self) -> PublicationView {
        PublicationView {
            tray: match self.tray {
                Some(u) => Some(u@),
                None => None,
            },
            event: self.event@,
        }
    }
}

/// What the publication of some figures does, when the tray icon was last drawn for `last`: the icon
/// and the tooltip are set only if the rounded percentage or the tooltip has changed.
pub open spec fn publication_of(
    snapshot: UsageSnapshotView,
    name: Seq<char>,
    last: (i8, Seq<char>),
) -> PublicationView {
    let now = tray_of(snapshot.limits, name);
    PublicationView {
        tray: if now != last {
            Some((drawn_pct(snapshot.limits), now.1))
        } else {
            None
        },
        event: snapshot,
    }
}

/// Publishes the figures: the windows get them, and the tray icon is drawn anew only if the rounded
/// percentage or the tooltip has changed. `name` is the name of the program.
pub fn publish(snapshot: &UsageSnapshot, name: &str, last: &mut TrayRecord) -> (r: Publication)
    ensures
        final(last)@ == tray_of(snapshot@.limits, name@),
        r@ == publication_of(snapshot@, name@, old(last)@),
        r.tray matches Some(u) ==> match snapshot.limits {
            Some(l) => u.pct == Some(l.session_pct),
            None => u.pct is None,
        },
        match snapshot.limits {
            Some(l) => final(last).pct_key as int == l.session_pct.rounded(),
            None => final(last).pct_key == -1 && final(last).tooltip@ == name@,
        },
        snapshot.limits matches Some(l) ==> final(last).tooltip@ == "Session "@ + text_of(
            l.session_pct,
        ) + "% · Weekly "@ + text_of(l.weekly_pct) + "%"@,
        r.tray matches Some(u) ==> u.tooltip@ == final(last).tooltip@,
        r.tray is Some <==> final(last).pct_key != old(last).pct_key || final(last).tooltip@ != old(
            last,
        ).tooltip@,
        r.event@ == snapshot@,
{
    let event = snapshot.clone();
    let (pct, pct_key, tooltip) = match &snapshot.limits {
        Some(l) => {
            let session = percent_text(l.session_pct);
            let weekly = percent_text(l.weekly_pct);
            let start = join3("Session ", session.as_str(), "% · Weekly ");
            (
                Some(l.session_pct),
                rounded_percent(l.session_pct),
                join3(start.as_str(), weekly.as_str(), "%"),
            )
        },
        None => (None, -1i8, name.to_owned()),
    };
    if pct_key == last.pct_key && same_text(tooltip.as_str(), last.tooltip.as_str()) {
        return Publication { tray: None, event };
    }
    last.pct_key = pct_key;
    last.tooltip = tooltip.clone();
    Publication { tray: Some(TrayUpdate { pct, tooltip }), event }
}

/// The tray icon and the events that the windows got.
pub ghost struct Shown {
    pub pct: Option<Percent>,
    pub tooltip: Seq<char>,
    pub events: Seq<UsageSnapshotView>,
}

/// What is shown after a publication.
pub open spec fn after_publication(shown: Shown, p: PublicationView) -> Shown {
    Shown {
        pct: match p.tray {
            Some(u) => u.0,
            None => shown.pct,
        },
        tooltip: match p.tray {
            Some(u) => u.1,
            None => shown.tooltip,
        },
        events: shown.events.push(p.event),
    }
}

/// Whether the tray shows what a record says: the tooltip, and a percentage that rounds to the key.
pub open spec fn in_step(shown: Shown, last: (i8, Seq<char>)) -> bool {
    &&& shown.tooltip == last.1
    &&& match shown.pct {
        Some(p) => p.rounded() == last.0,
        None => last.0 == -1,
    }
}

/// A publication leaves the tray in step with the record, which is that of the published figures,
/// and the windows get the figures exactly once. It does so for a tray that was in step before, and
/// for one that nothing was drawn on yet where the name of the program is not empty.
pub proof fn law_publication_shows_the_figures(
    shown: Shown,
    snapshot: UsageSnapshotView,
    name: Seq<char>,
    last: (i8, Seq<char>),
)
    requires
        in_step(shown, last) || (name.len() > 0 && last == (-1i8, Seq::<char>::empty())),
    ensures
        ({
            let after = after_publication(shown, publication_of(snapshot, name, last));
            &&& in_step(after, tray_of(snapshot.limits, name))
            &&& after.tooltip == tray_of(snapshot.limits, name).1
            &&& after.events == shown.events.push(snapshot)
        }),
{
    if name.len() > 0 {
        law_first_publication_draws(snapshot.limits, name);
    }
    if let Some(l) = snapshot.limits {
        assert(-128 <= l.session_pct.rounded() <= 127) by {
            lemma_rounded_in_range(l.session_pct);
        }
    }
}

/// A second publication of the same figures sets no icon and no tooltip, but the windows get the
/// figures again.
pub proof fn law_second_publication_only_emits(
    shown: Shown,
    snapshot: UsageSnapshotView,
    name: Seq<char>,
)
    ensures
        ({
            let again = publication_of(snapshot, name, tray_of(snapshot.limits, name));
            let after = after_publication(shown, again);
            &&& again.tray is None
            &&& after.pct == shown.pct
            &&& after.tooltip == shown.tooltip
            &&& after.events == shown.events.push(snapshot)
        }),
{
}

/// A failed query for the limits leaves every figure as it was and only marks it as stale; a figure
/// that was never fetched stays unknown. Nothing else is touched.
pub proof fn law_failure_keeps_the_last_good_limits(
    limits: Option<LimitsView>,
    error: LimitsError,
)
    ensures
        match (limits, limits_after(limits, Err(error))) {
            (Some(before), Some(after)) => {
                &&& after.stale
                &&& after.session_pct == before.session_pct
                &&& after.session_resets_at == before.session_resets_at
                &&& after.weekly_pct == before.weekly_pct
                &&& after.weekly_resets_at == before.weekly_resets_at
                &&& after.fetched_at == before.fetched_at
            },
            (None, None) => true,
            _ => false,
        },
{
}

/// A failed query for the spend leaves the figure as it was and only marks it as stale.
pub proof fn law_failure_keeps_the_last_good_spend(
    spend: Option<ApiSpendView>,
    error: String,
    fetched_at: Seq<char>,
)
    ensures
        match (spend, spend_after(spend, Some(Err(error)), fetched_at)) {
            (Some(before), Some(after)) => {
                &&& after.stale
                &&& after.month_to_date_usd == before.month_to_date_usd
                &&& after.fetched_at == before.fetched_at
            },
            (None, None) => true,
            _ => false,
        },
{
}

/// The icon is drawn the first time that something is published, as its tooltip is never empty.
pub proof fn law_first_publication_draws(limits: Option<LimitsView>, name: Seq<char>)
    requires
        name.len() > 0,
    ensures
        tray_of(limits, name) != (-1i8, Seq::<char>::empty()),
{
    reveal_strlit("Session ");
    assert("Session "@.len() == 8);
    assert(tray_of(limits, name).1.len() > 0);
}

/// Marking the limits as stale does not draw the icon anew.
pub proof fn law_staleness_does_not_draw(
    limits: Option<LimitsView>,
    error: LimitsError,
    name: Seq<char>,
)
    ensures
        tray_of(limits_after(limits, Err(error)), name) == tray_of(limits, name),
{
}

/// The ring is the session's: whenever the publication of some limits draws, it hands over the
/// percentage of the session in them, and the record that stays behind holds that percentage rounded.
/// Without limits no percentage is handed over and the record holds -1.
pub proof fn law_ring_is_the_session(
    snapshot: UsageSnapshotView,
    name: Seq<char>,
    last: (i8, Seq<char>),
)
    ensures
        publication_of(snapshot, name, last).tray matches Some((pct, tooltip)) ==> {
            &&& tooltip == tray_of(snapshot.limits, name).1
            &&& match snapshot.limits {
                Some(l) => pct == Some(l.session_pct),
                None => pct is None && tooltip == name,
            }
        },
        match snapshot.limits {
            Some(l) => tray_of(snapshot.limits, name).0 as int == l.session_pct.rounded(),
            None => tray_of(snapshot.limits, name).0 == -1,
        },
{
    if let Some(l) = snapshot.limits {
        lemma_rounded_in_range(l.session_pct);
    }
}

/// The week does not move the ring: limits that differ in the weekly figures, the reset times and their
/// age alone have the same key, and wherever both are drawn it is the same ring.
pub proof fn law_week_does_not_move_the_ring(
    a: UsageSnapshotView,
    b: UsageSnapshotView,
    name: Seq<char>,
    last_a: (i8, Seq<char>),
    last_b: (i8, Seq<char>),
)
    requires
        a.limits is Some,
        b.limits is Some,
        a.limits->0.session_pct == b.limits->0.session_pct,
    ensures
        tray_of(a.limits, name).0 == tray_of(b.limits, name).0,
        publication_of(a, name, last_a).tray matches Some(u) ==> (publication_of(
            b,
            name,
            last_b,
        ).tray matches Some(v) ==> u.0 == v.0),
{
}

/// The tooltip names the session first and the week second, each with its own percentage.
pub proof fn law_tooltip_names_both_windows(l: LimitsView, name: Seq<char>)
    ensures
        tray_of(Some(l), name).1 == "Session "@ + text_of(l.session_pct) + "% · Weekly "@ + text_of(
            l.weekly_pct,
        ) + "%"@,
{
}

/// The icon is drawn anew exactly where the key or the tooltip is another one than last time, and the
/// windows get the published figures, all of them, in any case.
pub proof fn law_draws_exactly_on_change(
    snapshot: UsageSnapshotView,
    name: Seq<char>,
    last: (i8, Seq<char>),
)
    ensures
        publication_of(snapshot, name, last).tray is Some <==> {
            ||| tray_of(snapshot.limits, name).0 != last.0
            ||| tray_of(snapshot.limits, name).1 != last.1
        },
        publication_of(snapshot, name, last).event.limits == snapshot.limits,
        publication_of(snapshot, name, last).event.local == snapshot.local,
        publication_of(snapshot, name, last).event.api_spend == snapshot.api_spend,
{
}

/// After a query that succeeded, the limits are the new ones, whatever was known before.
pub proof fn law_new_limits_replace_the_old(limits: Option<LimitsView>, new: Limits)
    ensures
        limits_after(limits, Ok(new)) matches Some(l) && l.session_pct == new.session_pct
            && l.weekly_pct == new.weekly_pct && l.session_resets_at == opt_text(
            new.session_resets_at,
        ) && l.weekly_resets_at == opt_text(new.weekly_resets_at) && l.fetched_at == new.fetched_at@
            && l.stale == new.stale,
{
}

/// After a query that succeeded, the spend is the new sum as of the time of the query, whatever was
/// known before; without a key there is none. The limits and the local figures stay.
pub proof fn law_new_spend_replaces_the_old(
    snapshot: UsageSnapshotView,
    usd: DollarBits,
    fetched_at: Seq<char>,
    result: Option<Result<DollarBits, String>>,
)
    ensures
        with_spend(snapshot, Some(Ok(usd)), fetched_at).api_spend matches Some(s)
            && s.month_to_date_usd == usd && s.fetched_at == fetched_at && !s.stale,
        with_spend(snapshot, None, fetched_at).api_spend is None,
        with_spend(snapshot, result, fetched_at).limits == snapshot.limits,
        with_spend(snapshot, result, fetched_at).local == snapshot.local,
{
}

/// The local figures are refreshed most often, every thirty seconds; the limits half as often, and the
/// spend a tenth as often as the limits.
pub proof fn law_periods()
    ensures
        LOCAL_PERIOD_SECS == 30,
        LIMITS_PERIOD_SECS == 2 * LOCAL_PERIOD_SECS,
        SPEND_PERIOD_SECS == 10 * LIMITS_PERIOD_SECS,
{
}

} // verus!
