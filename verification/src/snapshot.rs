//! The figures that the meter shows, and what a refresh does to them.
use vstd::prelude::*;

verus! {

/// A percentage in the IEEE 754 single-precision format, held by its bits.
#[derive(Debug, Clone, Copy, PartialEq, Eq, Structural)]
pub struct Percent {
    pub bits: u32,
}

/// A dollar amount in the IEEE 754 double-precision format, held by its bits.
#[derive(Debug, Clone, Copy, PartialEq, Eq, Structural)]
pub struct DollarBits {
    pub bits: u64,
}

/// An exact dollar amount, counted in units of a ten-billionth of a dollar.
#[derive(Debug, Clone, Copy, PartialEq, Eq, Structural)]
pub struct Usd {
    pub units: u128,
}

/// What one token costs on average: `cost / tokens`, and nothing where no token has a price.
#[derive(Debug, Clone, Copy, PartialEq, Eq, Structural)]
pub struct BlendedRate {
    pub cost: Usd,
    pub tokens: u64,
}

impl BlendedRate {
    /// Whether the rate is above zero.
    pub open spec fn positive(self) -> bool {
        self.tokens > 0 && self.cost.units > 0
    }

    /// Whether the rate is above zero.
    pub fn is_positive(&self) -> (r: bool)
        ensures
            r == self.positive(),
    {
        self.tokens > 0 && self.cost.units > 0
    }
}

/// The cost of a day: known from its entries, or its tokens taken at the blended rate.
#[derive(Debug, Clone, Copy, PartialEq, Eq, Structural)]
pub enum DayCost {
    Exact(Usd),
    Estimate { tokens: u64, rate: BlendedRate },
}

/// The cost of a period: `live` plus `estimated_tokens` taken at the blended rate.
#[derive(Debug, Clone, Copy, PartialEq, Eq, Structural)]
pub struct TotalCost {
    pub live: Usd,
    pub estimated_tokens: u64,
    pub rate: BlendedRate,
}

impl TotalCost {
    /// The denominator of the cost in units.
    pub open spec fn denominator(self) -> int {
        if self.rate.tokens == 0 {
            1
        } else {
            self.rate.tokens as int
        }
    }

    /// The numerator of the cost in units.
    pub open spec fn numerator(self) -> int {
        if self.rate.tokens == 0 {
            self.live.units as int
        } else {
            self.live.units * self.rate.tokens + self.estimated_tokens * self.rate.cost.units
        }
    }
}

/// The text of an optional string.
pub open spec fn opt_text(s: Option<String>) -> Option<Seq<char>> {
    match s {
        Some(t) => Some(t@),
        None => None,
    }
}

/// A copy of an optional string.
pub fn clone_opt_text(s: &Option<String>) -> (r: Option<String>)
    ensures
        opt_text(r) == opt_text(*s),
{
    match s {
        Some(t) => Some(t.clone()),
        None => None,
    }
}

/// How far the session and the week are used up.
#[derive(Debug)]
pub struct Limits {
    pub session_pct: Percent,
    /// ISO 8601.
    pub session_resets_at: Option<String>,
    pub weekly_pct: Percent,
    pub weekly_resets_at: Option<String>,
    pub fetched_at: String,
    pub stale: bool,
}

pub ghost struct LimitsView {
    pub session_pct: Percent,
    pub session_resets_at: Option<Seq<char>>,
    pub weekly_pct: Percent,
    pub weekly_resets_at: Option<Seq<char>>,
    pub fetched_at: Seq<char>,
    pub stale: bool,
}

impl View for Limits {
    type V = LimitsView;

    open spec fn view(&self) -> LimitsView {
        LimitsView {
            session_pct: self.session_pct,
            session_resets_at: opt_text(self.session_resets_at),
            weekly_pct: self.weekly_pct,
            weekly_resets_at: opt_text(self.weekly_resets_at),
            fetched_at: self.fetched_at@,
            stale: self.stale,
        }
    }
}

impl Clone for Limits {
    fn clone(&self) -> (r: Self)
        ensures
            r@ == self@,
    {
        Limits {
            session_pct: self.session_pct,
            session_resets_at: clone_opt_text(&self.session_resets_at),
            weekly_pct: self.weekly_pct,
            weekly_resets_at: clone_opt_text(&self.weekly_resets_at),
            fetched_at: self.fetched_at.clone(),
            stale: self.stale,
        }
    }
}

/// One day of the seven that the meter draws.
#[derive(Debug)]
pub struct DayStat {
    /// Local date, YYYY-MM-DD.
    pub date: String,
    pub tokens: u64,
    /// `None` where not even an estimate is possible.
    pub cost_usd: Option<DayCost>,
}

pub ghost struct DayStatView {
    pub date: Seq<char>,
    pub tokens: u64,
    pub cost_usd: Option<DayCost>,
}

impl View for DayStat {
    type V = DayStatView;

    open spec fn view(&self) -> DayStatView {
        DayStatView { date: self.date@, tokens: self.tokens, cost_usd: self.cost_usd }
    }
}

impl Clone for DayStat {
    fn clone(&self) -> (r: Self)
        ensures
            r@ == self@,
    {
        DayStat { date: self.date.clone(), tokens: self.tokens, cost_usd: self.cost_usd }
    }
}

/// The views of the days of a list.
pub open spec fn day_stats(days: Seq<DayStat>) -> Seq<DayStatView> {
    days.map_values(|d: DayStat| d@)
}

/// What the local transcripts say.
#[derive(Debug)]
pub struct LocalStats {
    pub today_tokens: u64,
    pub today_cost_usd: Usd,
    /// The last seven days, oldest first, today last.
    pub days: Vec<DayStat>,
    pub total_30d_tokens: u64,
    /// An estimate at the blended rate where cached history is part of it.
    pub total_30d_cost_usd: TotalCost,
    pub cost_is_estimate: bool,
    pub fetched_at: String,
    pub stale: bool,
}

pub ghost struct LocalStatsView {
    pub today_tokens: u64,
    pub today_cost_usd: Usd,
    pub days: Seq<DayStatView>,
    pub total_30d_tokens: u64,
    pub total_30d_cost_usd: TotalCost,
    pub cost_is_estimate: bool,
    pub fetched_at: Seq<char>,
    pub stale: bool,
}

impl View for LocalStats {
    type V = LocalStatsView;

    open spec fn view(&self) -> LocalStatsView {
        LocalStatsView {
            today_tokens: self.today_tokens,
            today_cost_usd: self.today_cost_usd,
            days: day_stats(self.days@),
            total_30d_tokens: self.total_30d_tokens,
            total_30d_cost_usd: self.total_30d_cost_usd,
            cost_is_estimate: self.cost_is_estimate,
            fetched_at: self.fetched_at@,
            stale: self.stale,
        }
    }
}

impl Clone for LocalStats {
    fn clone(&self) -> (r: Self)
        ensures
            r@ == self@,
    {
        let mut days: Vec<DayStat> = Vec::new();
        let mut i: usize = 0;
        while i < self.days.len()
            invariant
                i <= self.days@.len(),
                days@.len() == i,
                forall|j: int| 0 <= j < i ==> (#[trigger] days@[j])@ == self.days@[j]@,
            decreases self.days@.len() - i,
        {
            days.push(self.days[i].clone());
            i = i + 1;
        }
        assert(day_stats(days@) =~= day_stats(self.days@));
        LocalStats {
            today_tokens: self.today_tokens,
            today_cost_usd: self.today_cost_usd,
            days,
            total_30d_tokens: self.total_30d_tokens,
            total_30d_cost_usd: self.total_30d_cost_usd,
            cost_is_estimate: self.cost_is_estimate,
            fetched_at: self.fetched_at.clone(),
            stale: self.stale,
        }
    }
}

/// What the organization has spent since the month began.
#[derive(Debug)]
pub struct ApiSpend {
    pub month_to_date_usd: DollarBits,
    pub fetched_at: String,
    pub stale: bool,
}

pub ghost struct ApiSpendView {
    pub month_to_date_usd: DollarBits,
    pub fetched_at: Seq<char>,
    pub stale: bool,
}

impl View for ApiSpend {
    type V = ApiSpendView;

    open spec fn view(&self) -> ApiSpendView {
        ApiSpendView {
            month_to_date_usd: self.month_to_date_usd,
            fetched_at: self.fetched_at@,
            stale: self.stale,
        }
    }
}

impl Clone for ApiSpend {
    fn clone(&self) -> (r: Self)
        ensures
            r@ == self@,
    {
        ApiSpend {
            month_to_date_usd: self.month_to_date_usd,
            fetched_at: self.fetched_at.clone(),
            stale: self.stale,
        }
    }
}

/// Everything the meter shows; a part is `None` until it was first fetched.
#[derive(Debug)]
pub struct UsageSnapshot {
    pub limits: Option<Limits>,
    pub local: Option<LocalStats>,
    pub api_spend: Option<ApiSpend>,
}

pub ghost struct UsageSnapshotView {
    pub limits: Option<LimitsView>,
    pub local: Option<LocalStatsView>,
    pub api_spend: Option<ApiSpendView>,
}

impl View for UsageSnapshot {
    type V = UsageSnapshotView;

    open spec fn view(&self) -> UsageSnapshotView {
        UsageSnapshotView {
            limits: match self.limits {
                Some(l) => Some(l@),
                None => None,
            },
            local: match self.local {
                Some(l) => Some(l@),
                None => None,
            },
            api_spend: match self.api_spend {
                Some(s) => Some(s@),
                None => None,
            },
        }
    }
}

impl Default for UsageSnapshot {
    fn default() -> (r: Self)
        ensures
            r@ == (UsageSnapshotView { limits: None, local: None, api_spend: None }),
    {
        UsageSnapshot { limits: None, local: None, api_spend: None }
    }
}

impl Clone for UsageSnapshot {
    fn clone(&self) -> (r: Self)
        ensures
            r@ == self@,
    {
        UsageSnapshot {
            limits: match &self.limits {
                Some(l) => Some(l.clone()),
                None => None,
            },
            local: match &self.local {
                Some(l) => Some(l.clone()),
                None => None,
            },
            api_spend: match &self.api_spend {
                Some(s) => Some(s.clone()),
                None => None,
            },
        }
    }
}

/// The limits are seen as they are, field by field: the session's under the session's names, the week's
/// under the week's.
pub proof fn law_limits_are_seen_as_they_are(l: Limits)
    ensures
        l@.session_pct == l.session_pct,
        l@.weekly_pct == l.weekly_pct,
        match l.session_resets_at {
            Some(t) => l@.session_resets_at == Some(t@),
            None => l@.session_resets_at is None,
        },
        match l.weekly_resets_at {
            Some(t) => l@.weekly_resets_at == Some(t@),
            None => l@.weekly_resets_at is None,
        },
        l@.fetched_at == l.fetched_at@,
        l@.stale == l.stale,
{
}

/// The local figures are seen as they are, field by field and day by day.
pub proof fn law_local_figures_are_seen_as_they_are(s: LocalStats, i: int)
    ensures
        s@.today_tokens == s.today_tokens,
        s@.today_cost_usd == s.today_cost_usd,
        s@.days.len() == s.days@.len(),
        0 <= i < s.days@.len() ==> s@.days[i].date == s.days@[i].date@ && s@.days[i].tokens
            == s.days@[i].tokens && s@.days[i].cost_usd == s.days@[i].cost_usd,
        s@.total_30d_tokens == s.total_30d_tokens,
        s@.total_30d_cost_usd == s.total_30d_cost_usd,
        s@.cost_is_estimate == s.cost_is_estimate,
        s@.fetched_at == s.fetched_at@,
        s@.stale == s.stale,
{
}

/// The spend and the whole of the figures are seen as they are; a part that is not there is seen as not
/// there.
pub proof fn law_figures_are_seen_as_they_are(spend: ApiSpend, all: UsageSnapshot)
    ensures
        spend@.month_to_date_usd == spend.month_to_date_usd,
        spend@.fetched_at == spend.fetched_at@,
        spend@.stale == spend.stale,
        match all.limits {
            Some(l) => all@.limits == Some(l@),
            None => all@.limits is None,
        },
        match all.local {
            Some(l) => all@.local == Some(l@),
            None => all@.local is None,
        },
        match all.api_spend {
            Some(s) => all@.api_spend == Some(s@),
            None => all@.api_spend is None,
        },
{
}

} // verus!
