//! A whole query of the limits: the stored token is tried, a rejected one is looked up again and
//! then renewed once, and the query is repeated once.
use crate::json::{json_document, string_at};
use crate::limits::{
    credentials_of_reading, read_credentials, Credentials, CredentialsView, LimitsError,
    LimitsErrorView,
};
use crate::refresh::{
    limits_view, Action, ActionView, Event, EventView, RefreshFlow, RefreshFlowView, RefreshStep,
    RefreshStepView,
};
use crate::snapshot::{Limits, LimitsView};
use crate::text::{same_text, trimmed};
use vstd::prelude::*;

verus! {

/// Where a query of the limits stands.
pub enum LimitsFlow {
    /// The store is being read for the first token.
    Reading,
    /// The usage endpoint is being asked with the token of these credentials.
    Fetching { creds: Credentials },
    /// The token was rejected; the store is being read for a newer one.
    Rereading { creds: Credentials },
    /// The credentials are being renewed.
    Refreshing(RefreshFlow),
    /// The usage endpoint is being asked for the last time.
    Retrying,
}

pub ghost enum LimitsFlowView {
    Reading,
    Fetching { creds: CredentialsView },
    Rereading { creds: CredentialsView },
    Refreshing(RefreshFlowView),
    Retrying,
}

impl View for LimitsFlow {
    type V = LimitsFlowView;

    open spec fn view(&self) -> LimitsFlowView {
        match self {
            LimitsFlow::Reading => LimitsFlowView::Reading,
            LimitsFlow::Fetching { creds } => LimitsFlowView::Fetching { creds: creds@ },
            LimitsFlow::Rereading { creds } => LimitsFlowView::Rereading { creds: creds@ },
            LimitsFlow::Refreshing(f) => LimitsFlowView::Refreshing(f@),
            LimitsFlow::Retrying => LimitsFlowView::Retrying,
        }
    }
}

/// What a step of a query leads to: more to be done, or the result.
pub enum LimitsStep {
    Wait { flow: LimitsFlow, action: Action },
    Done(Result<Limits, LimitsError>),
}

pub ghost enum LimitsStepView {
    Wait { flow: LimitsFlowView, action: ActionView },
    Done(Result<LimitsView, LimitsErrorView>),
}

impl View for LimitsStep {
    type V = LimitsStepView;

    open spec fn view(&self) -> LimitsStepView {
        match self {
            LimitsStep::Wait { flow, action } => LimitsStepView::Wait {
                flow: flow@,
                action: action@,
            },
            LimitsStep::Done(r) => LimitsStepView::Done(limits_view(*r)),
        }
    }
}

impl LimitsFlowView {
    /// A renewal under way is a well-formed one.
    pub open spec fn wf(self) -> bool {
        match self {
            LimitsFlowView::Refreshing(f) => f.wf(),
            _ => true,
        }
    }

    /// Whether the event is the one that this stage waits for.
    pub open spec fn accepts(self, event: EventView) -> bool {
        match (self, event) {
            (LimitsFlowView::Reading, EventView::StoreRead { .. }) => true,
            (LimitsFlowView::Fetching { .. }, EventView::Usage(_)) => true,
            (LimitsFlowView::Rereading { .. }, EventView::StoreRead { .. }) => true,
            (LimitsFlowView::Refreshing(f), _) => f.accepts(event),
            (LimitsFlowView::Retrying, EventView::Usage(_)) => true,
            _ => false,
        }
    }

    /// What an accepted event leads to.
    pub open spec fn next(self, event: EventView) -> LimitsStepView {
        match (self, event) {
            (
                LimitsFlowView::Reading,
                EventView::StoreRead { raw, .. },
            ) => match credentials_of_reading(raw) {
                Ok(creds) => LimitsStepView::Wait {
                    flow: LimitsFlowView::Fetching { creds },
                    action: ActionView::FetchUsage { access_token: creds.access_token },
                },
                Err(e) => LimitsStepView::Done(Err(e)),
            },
            (LimitsFlowView::Fetching { creds }, EventView::Usage(reply)) => match reply {
                Err(LimitsErrorView::Unauthorized) => LimitsStepView::Wait {
                    flow: LimitsFlowView::Rereading { creds },
                    action: ActionView::ReadStore,
                },
                other => LimitsStepView::Done(other),
            },
            (
                LimitsFlowView::Rereading { creds },
                EventView::StoreRead { raw, .. },
            ) => match credentials_of_reading(raw) {
                Ok(latest) => if latest.access_token != creds.access_token {
                    LimitsStepView::Wait {
                        flow: LimitsFlowView::Retrying,
                        action: ActionView::FetchUsage { access_token: latest.access_token },
                    }
                } else {
                    LimitsStepView::Wait {
                        flow: LimitsFlowView::Refreshing(RefreshFlowView::Reading),
                        action: ActionView::ReadStore,
                    }
                },
                Err(_) => LimitsStepView::Wait {
                    flow: LimitsFlowView::Refreshing(RefreshFlowView::Reading),
                    action: ActionView::ReadStore,
                },
            },
            (LimitsFlowView::Refreshing(f), _) => match f.next(event) {
                RefreshStepView::Wait { flow, action } => LimitsStepView::Wait {
                    flow: LimitsFlowView::Refreshing(flow),
                    action,
                },
                RefreshStepView::Done(Ok(fresh)) => LimitsStepView::Wait {
                    flow: LimitsFlowView::Retrying,
                    action: ActionView::FetchUsage { access_token: fresh.access_token },
                },
                RefreshStepView::Done(Err(e)) => LimitsStepView::Done(Err(e)),
            },
            (LimitsFlowView::Retrying, EventView::Usage(reply)) => LimitsStepView::Done(reply),
            _ => LimitsStepView::Done(Err(LimitsErrorView::NoCredentials)),
        }
    }

    /// Whether `json` is what may be written when the event comes at this stage.
    pub open spec fn writes(self, event: EventView, json: Seq<char>) -> bool {
        match self {
            LimitsFlowView::Refreshing(f) => f.writes(event, json),
            _ => false,
        }
    }
}

/// Begins a query of the limits: the store is to be read.
pub fn get_limits() -> (r: (LimitsFlow, Action))
    ensures
        r.0@ == LimitsFlowView::Reading,
        r.0@.wf(),
        r.1@ == ActionView::ReadStore,
{
    (LimitsFlow::Reading, Action::ReadStore)
}

impl LimitsFlow {
    /// Whether the event is the one that this stage waits for.
    pub fn accepts(&self, event: &Event) -> (r: bool)
        ensures
            r == self@.accepts(event@),
    {
        match (self, event) {
            (LimitsFlow::Reading, Event::StoreRead { .. }) => true,
            (LimitsFlow::Fetching { .. }, Event::Usage(_)) => true,
            (LimitsFlow::Rereading { .. }, Event::StoreRead { .. }) => true,
            (LimitsFlow::Refreshing(f), _) => f.accepts(event),
            (LimitsFlow::Retrying, Event::Usage(_)) => true,
            _ => false,
        }
    }

    /// Takes the step that an accepted event leads to.
    pub fn step(self, event: Event) -> (r: LimitsStep)
        requires
            self@.wf(),
            self@.accepts(event@),
        ensures
            r@ == self@.next(event@),
            r matches LimitsStep::Wait { flow, action } ==> flow@.wf() && (
            action matches Action::WriteStore { json } ==> self@.writes(event@, json@)),
    {
        match (self, event) {
            (LimitsFlow::Reading, Event::StoreRead { raw, .. }) => match read_credentials(raw) {
                Ok(creds) => {
                    let access_token = creds.access_token.clone();
                    LimitsStep::Wait {
                        flow: LimitsFlow::Fetching { creds },
                        action: Action::FetchUsage { access_token },
                    }
                },
                Err(e) => LimitsStep::Done(Err(e)),
            },
            (LimitsFlow::Fetching { creds }, Event::Usage(reply)) => match reply {
                Err(LimitsError::Unauthorized) => LimitsStep::Wait {
                    flow: LimitsFlow::Rereading { creds },
                    action: Action::ReadStore,
                },
                other => LimitsStep::Done(other),
            },
            (LimitsFlow::Rereading { creds }, Event::StoreRead { raw, .. }) => {
                match read_credentials(raw) {
                    Ok(latest) => {
                        if same_text(latest.access_token.as_str(), creds.access_token.as_str()) {
                            LimitsStep::Wait {
                                flow: LimitsFlow::Refreshing(RefreshFlow::Reading),
                                action: Action::ReadStore,
                            }
                        } else {
                            LimitsStep::Wait {
                                flow: LimitsFlow::Retrying,
                                action: Action::FetchUsage { access_token: latest.access_token },
                            }
                        }
                    },
                    Err(_) => LimitsStep::Wait {
                        flow: LimitsFlow::Refreshing(RefreshFlow::Reading),
                        action: Action::ReadStore,
                    },
                }
            },
            (LimitsFlow::Refreshing(f), event) => match f.step(event) {
                RefreshStep::Wait { flow, action } => LimitsStep::Wait {
                    flow: LimitsFlow::Refreshing(flow),
                    action,
                },
                RefreshStep::Done(Ok(fresh)) => LimitsStep::Wait {
                    flow: LimitsFlow::Retrying,
                    action: Action::FetchUsage { access_token: fresh.access_token },
                },
                RefreshStep::Done(Err(e)) => LimitsStep::Done(Err(e)),
            },
            (LimitsFlow::Retrying, Event::Usage(reply)) => LimitsStep::Done(reply),
            _ => LimitsStep::Done(Err(LimitsError::NoCredentials)),
        }
    }

    /// Takes the step that an event leads to, or gives `None` where the event is not accepted.
    pub fn try_step(self, event: Event) -> (r: Option<LimitsStep>)
        requires
            self@.wf(),
        ensures
            match r {
                Some(s) => self@.accepts(event@) && s@ == self@.next(event@) && (
                s matches LimitsStep::Wait { flow, action } ==> flow@.wf() && (
                action matches Action::WriteStore { json } ==> self@.writes(event@, json@))),
                None => !self@.accepts(event@),
            },
    {
        if self.accepts(&event) {
            Some(self.step(event))
        } else {
            None
        }
    }
}

/// A query of the limits as it stands after a number of events: its last step, and everything
/// that it has asked for so far, in order.
pub ghost struct LimitsRun {
    pub step: LimitsStepView,
    pub asked: Seq<ActionView>,
}

/// A query after the given events.
pub open spec fn limits_run(events: Seq<EventView>) -> LimitsRun
    decreases events.len(),
{
    if events.len() == 0 {
        LimitsRun {
            step: LimitsStepView::Wait {
                flow: LimitsFlowView::Reading,
                action: ActionView::ReadStore,
            },
            asked: seq![ActionView::ReadStore],
        }
    } else {
        let before = limits_run(events.drop_last());
        match before.step {
            LimitsStepView::Wait { flow, .. } => {
                let step = flow.next(events.last());
                LimitsRun {
                    step,
                    asked: match step {
                        LimitsStepView::Wait { action, .. } => before.asked.push(action),
                        LimitsStepView::Done(_) => before.asked,
                    },
                }
            },
            LimitsStepView::Done(_) => before,
        }
    }
}

/// Whether each of the events was accepted when it came.
pub open spec fn limits_run_accepted(events: Seq<EventView>) -> bool
    decreases events.len(),
{
    events.len() == 0 || (limits_run_accepted(events.drop_last()) && (limits_run(
        events.drop_last(),
    ).step matches LimitsStepView::Wait { flow, .. } && flow.accepts(events.last())))
}

/// How many requests for the usage endpoint stand in a list of actions.
pub open spec fn usage_requests(asked: Seq<ActionView>) -> nat {
    asked.filter(|a: ActionView| a is FetchUsage).len()
}

/// How many requests for the token endpoint stand in a list of actions.
pub open spec fn token_requests(asked: Seq<ActionView>) -> nat {
    asked.filter(|a: ActionView| a is PostToken).len()
}

/// How many writings of the store stand in a list of actions.
pub open spec fn store_writes(asked: Seq<ActionView>) -> nat {
    asked.filter(|a: ActionView| a is WriteStore).len()
}

/// How many more events a query can take, and how often each kind of request was made by then.
spec fn run_bounds(events: Seq<EventView>, run: LimitsRun) -> bool {
    let usage = usage_requests(run.asked);
    let token = token_requests(run.asked);
    let writes = store_writes(run.asked);
    match run.step {
        LimitsStepView::Wait { flow, .. } => match flow {
            LimitsFlowView::Reading => events.len() == 0 && usage == 0 && token == 0 && writes == 0,
            LimitsFlowView::Fetching { .. } => events.len() == 1 && usage == 1 && token == 0
                && writes == 0,
            LimitsFlowView::Rereading { .. } => events.len() == 2 && usage == 1 && token == 0
                && writes == 0 && rejected(events),
            LimitsFlowView::Refreshing(f) => rejected(events) && usage == 1 && match f {
                RefreshFlowView::Reading => events.len() == 3 && token == 0 && writes == 0,
                RefreshFlowView::Posting { .. } => events.len() == 4 && token == 1 && writes == 0,
                RefreshFlowView::Rereading { .. } => events.len() == 5 && token == 1 && writes == 0,
                RefreshFlowView::Writing { .. } => events.len() == 6 && token == 1 && writes == 1,
            },
            LimitsFlowView::Retrying => rejected(events) && events.len() <= 7 && usage == 2
                && token <= 1 && writes <= 1,
        },
        LimitsStepView::Done(_) => events.len() <= 8 && usage <= 2 && token <= 1 && writes <= 1 && (
        usage == 2 || token >= 1 || writes >= 1 ==> rejected(events)),
    }
}

/// Whether the first answer of the usage endpoint was that the token is no longer good.
pub open spec fn rejected(events: Seq<EventView>) -> bool {
    events.len() >= 2 && events[1] == EventView::Usage(Err(LimitsErrorView::Unauthorized))
}

proof fn lemma_counts_push(asked: Seq<ActionView>, a: ActionView)
    ensures
        usage_requests(asked.push(a)) == usage_requests(asked) + (if a is FetchUsage {
            1nat
        } else {
            0
        }),
        token_requests(asked.push(a)) == token_requests(asked) + (if a is PostToken {
            1nat
        } else {
            0
        }),
        store_writes(asked.push(a)) == store_writes(asked) + (if a is WriteStore {
            1nat
        } else {
            0
        }),
{
    reveal(Seq::filter);
    assert(asked.push(a).drop_last() =~= asked);
}

proof fn lemma_run_bounds(events: Seq<EventView>)
    requires
        limits_run_accepted(events),
    ensures
        run_bounds(events, limits_run(events)),
    decreases events.len(),
{
    if events.len() == 0 {
        lemma_counts_push(Seq::empty(), ActionView::ReadStore);
        assert(Seq::<ActionView>::empty().push(ActionView::ReadStore) =~= seq![
            ActionView::ReadStore,
        ]);
        reveal(Seq::filter);
    } else {
        lemma_run_bounds(events.drop_last());
        let before = limits_run(events.drop_last());
        let after = limits_run(events);
        if let LimitsStepView::Wait { action, .. } = after.step {
            lemma_counts_push(before.asked, action);
        }
        assert(rejected(events.drop_last()) ==> rejected(events));
    }
}

/// However the outside answers, a query asks the usage endpoint at most twice, the token endpoint
/// at most once, and writes the store at most once.
pub proof fn law_one_refresh_one_retry(events: Seq<EventView>)
    requires
        limits_run_accepted(events),
    ensures
        usage_requests(limits_run(events).asked) <= 2,
        token_requests(limits_run(events).asked) <= 1,
        store_writes(limits_run(events).asked) <= 1,
{
    lemma_run_bounds(events);
}

/// A query ends after at most eight events.
pub proof fn law_query_ends(events: Seq<EventView>)
    requires
        limits_run_accepted(events),
    ensures
        events.len() <= 8,
        events.len() == 8 ==> limits_run(events).step is Done,
{
    lemma_run_bounds(events);
}

/// Only the answer that the token is no longer good leads to a renewal or a second query: after any
/// other first answer, that of denied access included, the query is over with that answer.
pub proof fn law_only_rejection_refreshes(events: Seq<EventView>)
    requires
        limits_run_accepted(events),
        !rejected(events),
    ensures
        usage_requests(limits_run(events).asked) <= 1,
        token_requests(limits_run(events).asked) == 0,
        store_writes(limits_run(events).asked) == 0,
        events.len() >= 2 ==> (events[1] matches EventView::Usage(reply) && limits_run(events).step
            == LimitsStepView::Done(reply)),
    decreases events.len(),
{
    lemma_run_bounds(events);
    if events.len() > 2 {
        assert(!rejected(events.drop_last()));
        law_only_rejection_refreshes(events.drop_last());
    } else if events.len() == 2 {
        lemma_run_bounds(events.drop_last());
    }
}

/// A query asks with the access token that the store holds. A store that holds none ends it.
pub proof fn law_asks_with_the_stored_token(raw: Seq<char>, now_ms: i64)
    ensures
        ({
            let step = LimitsFlowView::Reading.next(EventView::StoreRead { raw: Ok(raw), now_ms });
            let doc = json_document(trimmed(raw));
            match string_at(doc->0, "claudeAiOauth"@, "accessToken"@) {
                Some(t) => if doc is Some {
                    step matches LimitsStepView::Wait {
                        flow: LimitsFlowView::Fetching { creds },
                        action,
                    } && creds.access_token == t && action == (ActionView::FetchUsage {
                        access_token: t,
                    })
                } else {
                    step == LimitsStepView::Done(Err(LimitsErrorView::NoCredentials))
                },
                None => step == LimitsStepView::Done(Err(LimitsErrorView::NoCredentials)),
            }
        }),
        forall|e: LimitsErrorView| #[trigger]
            LimitsFlowView::Reading.next(EventView::StoreRead { raw: Err(e), now_ms })
                == LimitsStepView::Done(Err(e)),
{
}

/// The first answer ends a query, whatever it is, unless it says that the token is no longer good: then
/// the store is read once more.
pub proof fn law_first_answer(creds: CredentialsView, reply: Result<LimitsView, LimitsErrorView>)
    ensures
        ({
            let step = (LimitsFlowView::Fetching { creds }).next(EventView::Usage(reply));
            if reply is Err && reply->Err_0 is Unauthorized {
                step == (LimitsStepView::Wait {
                    flow: LimitsFlowView::Rereading { creds },
                    action: ActionView::ReadStore,
                })
            } else {
                step == LimitsStepView::Done(reply)
            }
        }),
        LimitsFlowView::Retrying.next(EventView::Usage(reply)) == LimitsStepView::Done(reply),
{
}

/// After a rejection the second reading decides: another access token in the store is tried at once,
/// without a renewal; the same one, or none, is renewed.
pub proof fn law_second_reading_decides(
    creds: CredentialsView,
    raw: Result<Seq<char>, LimitsErrorView>,
    now_ms: i64,
)
    ensures
        ({
            let step = (LimitsFlowView::Rereading { creds }).next(
                EventView::StoreRead { raw, now_ms },
            );
            match credentials_of_reading(raw) {
                Ok(latest) => if latest.access_token == creds.access_token {
                    step == (LimitsStepView::Wait {
                        flow: LimitsFlowView::Refreshing(RefreshFlowView::Reading),
                        action: ActionView::ReadStore,
                    })
                } else {
                    step == (LimitsStepView::Wait {
                        flow: LimitsFlowView::Retrying,
                        action: ActionView::FetchUsage { access_token: latest.access_token },
                    })
                },
                Err(_) => step == (LimitsStepView::Wait {
                    flow: LimitsFlowView::Refreshing(RefreshFlowView::Reading),
                    action: ActionView::ReadStore,
                }),
            }
        }),
{
}

/// A renewal within a query goes its own way: its actions are the query's. Its failure ends the query,
/// and its success leads to the last question, asked with the fresh access token.
pub proof fn law_renewal_within_a_query(flow: RefreshFlowView, event: EventView)
    ensures
        match (flow.next(event), LimitsFlowView::Refreshing(flow).next(event)) {
            (
                RefreshStepView::Wait { flow: f, action: a },
                LimitsStepView::Wait { flow: g, action: b },
            ) => g == LimitsFlowView::Refreshing(f) && a == b,
            (
                RefreshStepView::Done(Ok(fresh)),
                LimitsStepView::Wait { flow: g, action: b },
            ) => g == LimitsFlowView::Retrying && b == (ActionView::FetchUsage {
                access_token: fresh.access_token,
            }),
            (RefreshStepView::Done(Err(e)), LimitsStepView::Done(r)) => r == Err::<
                LimitsView,
                LimitsErrorView,
            >(e),
            _ => false,
        },
        LimitsFlowView::Refreshing(flow).accepts(event) == flow.accepts(event),
        forall|json: Seq<char>| #[trigger]
            LimitsFlowView::Refreshing(flow).writes(event, json) == flow.writes(event, json),
{
}

/// Outside a renewal the stages take the events that they wait for, and no others.
pub proof fn law_query_takes_its_events(creds: CredentialsView, event: EventView)
    ensures
        LimitsFlowView::Reading.accepts(event) <==> event is StoreRead,
        (LimitsFlowView::Fetching { creds }).accepts(event) <==> event is Usage,
        (LimitsFlowView::Rereading { creds }).accepts(event) <==> event is StoreRead,
        LimitsFlowView::Retrying.accepts(event) <==> event is Usage,
{
}

} // verus!
