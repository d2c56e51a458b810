use claude_usage_meter::limits::{
    check_usage_status, get_limits, limits_from_usage, refresh_credentials, LimitsError,
    UsageResponse, UsageWindow,
};
use claude_usage_meter::limits_flow::{LimitsFlow, LimitsStep};
use claude_usage_meter::refresh::{
    expiry_in_range, Action, Event, RefreshFlow, RefreshStep, TokenResponse,
};
use claude_usage_meter::snapshot::{Limits, Percent};

const STORED: &str = r#"{"claudeAiOauth":{"accessToken":"sk-ant-oat01-test","refreshToken":"sk-ant-ort01-test","expiresAt":1781092800000,"subscriptionType":"max"},"other":{"kept":[1,2]}}"#;

fn stored(raw: &str) -> Event {
    Event::StoreRead { raw: Ok(raw.to_string()), now_ms: 1_000 }
}

fn token() -> Event {
    Event::Token(Ok(TokenResponse {
        access_token: "new-access".to_string(),
        refresh_token: Some("new-refresh".to_string()),
        expires_in: Some(3600),
    }))
}

fn limits(session: f32, weekly: f32) -> Limits {
    let window = |p: f32| {
        Some(UsageWindow { utilization: Some(Percent { bits: p.to_bits() }), resets_at: None })
    };
    limits_from_usage(
        UsageResponse { five_hour: window(session), seven_day: window(weekly) },
        "now".to_string(),
    )
}

fn refuse(code: u16) -> Event {
    Event::Usage(Err(check_usage_status(code, "refused").unwrap_err()))
}

fn more(step: Option<LimitsStep>) -> (LimitsFlow, Action) {
    match step {
        Some(LimitsStep::Wait { flow, action }) => (flow, action),
        _ => panic!("the query is over"),
    }
}

fn renewing(step: Option<RefreshStep>) -> (RefreshFlow, Action) {
    match step {
        Some(RefreshStep::Wait { flow, action }) => (flow, action),
        _ => panic!("the renewal is over"),
    }
}

fn posted() -> RefreshFlow {
    let (flow, action) = refresh_credentials();
    assert!(matches!(action, Action::ReadStore));
    let (flow, action) = renewing(flow.try_step(stored(STORED)));
    assert!(matches!(action, Action::PostToken { refresh_token } if refresh_token == "sk-ant-ort01-test"));
    flow
}

#[test]
fn refresh_token_round_trip_updates_credentials_file() {
    let (flow, action) = renewing(posted().try_step(token()));
    assert!(matches!(action, Action::ReadStore));
    let (flow, action) = renewing(flow.try_step(stored(STORED)));
    let Action::WriteStore { json } = action else { panic!("nothing to write") };
    let Some(RefreshStep::Done(Ok(creds))) = flow.try_step(Event::Written) else {
        panic!("no credentials")
    };
    assert_eq!(creds.access_token, "new-access");

    let raw: serde_json::Value = serde_json::from_str(&json).unwrap();
    assert_eq!(raw["claudeAiOauth"]["accessToken"], "new-access");
    assert_eq!(raw["claudeAiOauth"]["refreshToken"], "new-refresh");
    assert_eq!(raw["claudeAiOauth"]["subscriptionType"], "max");
    assert_eq!(raw["claudeAiOauth"]["expiresAt"], 3_601_000);
    assert_eq!(raw["other"]["kept"][1], 2);
}

#[test]
fn get_limits_refreshes_once_on_401_and_retries() {
    let (flow, action) = get_limits();
    assert!(matches!(action, Action::ReadStore));
    let (flow, action) = more(flow.try_step(stored(STORED)));
    assert!(matches!(action, Action::FetchUsage { access_token } if access_token == "sk-ant-oat01-test"));
    let (flow, action) = more(flow.try_step(refuse(401)));
    assert!(matches!(action, Action::ReadStore));
    let (flow, action) = more(flow.try_step(stored(STORED)));
    assert!(matches!(action, Action::ReadStore));
    let (flow, action) = more(flow.try_step(stored(STORED)));
    assert!(matches!(action, Action::PostToken { .. }));
    let (flow, action) = more(flow.try_step(token()));
    assert!(matches!(action, Action::ReadStore));
    let (flow, action) = more(flow.try_step(stored(STORED)));
    let Action::WriteStore { json } = action else { panic!("nothing to write") };
    let (flow, action) = more(flow.try_step(Event::Written));
    assert!(matches!(action, Action::FetchUsage { access_token } if access_token == "new-access"));
    let Some(LimitsStep::Done(Ok(limits))) = flow.try_step(Event::Usage(Ok(limits(10.0, 5.0))))
    else {
        panic!("no limits")
    };
    assert_eq!(f32::from_bits(limits.session_pct.bits), 10.0);
    let raw: serde_json::Value = serde_json::from_str(&json).unwrap();
    assert_eq!(raw["claudeAiOauth"]["accessToken"], "new-access");
}

#[test]
fn forbidden_does_not_trigger_refresh() {
    let (flow, _) = get_limits();
    let (flow, _) = more(flow.try_step(stored(STORED)));
    let Some(LimitsStep::Done(Err(err))) = flow.try_step(refuse(403)) else {
        panic!("the query goes on")
    };
    assert!(matches!(err, LimitsError::Forbidden));
}

#[test]
fn empty_refresh_token_fails_fast() {
    let (flow, _) = refresh_credentials();
    let raw = r#"{"claudeAiOauth":{"accessToken":"x","refreshToken":""}}"#;
    let Some(RefreshStep::Done(Err(err))) = flow.try_step(stored(raw)) else {
        panic!("something is posted")
    };
    assert!(matches!(err, LimitsError::NoRefreshToken));
}

#[test]
fn newer_stored_token_is_tried_without_a_refresh() {
    let (flow, _) = get_limits();
    let (flow, _) = more(flow.try_step(stored(STORED)));
    let (flow, _) = more(flow.try_step(refuse(401)));
    let newer = r#"{"claudeAiOauth":{"accessToken":"newer","refreshToken":"r"}}"#;
    let (flow, action) = more(flow.try_step(stored(newer)));
    assert!(matches!(action, Action::FetchUsage { access_token } if access_token == "newer"));
    let Some(LimitsStep::Done(Err(err))) = flow.try_step(refuse(401)) else {
        panic!("the query goes on")
    };
    assert!(matches!(err, LimitsError::Unauthorized));
}

#[test]
fn store_without_credentials_ends_the_query() {
    let (flow, _) = get_limits();
    let event = Event::StoreRead { raw: Err(LimitsError::NoCredentials), now_ms: 0 };
    assert!(matches!(
        flow.try_step(event),
        Some(LimitsStep::Done(Err(LimitsError::NoCredentials)))
    ));
}

#[test]
fn other_writer_is_not_overwritten() {
    let (flow, _) = renewing(posted().try_step(token()));
    let theirs = r#"{"claudeAiOauth":{"accessToken":"theirs","refreshToken":"their-refresh"}}"#;
    let Some(RefreshStep::Done(Ok(creds))) = flow.try_step(stored(theirs)) else {
        panic!("something is written")
    };
    assert_eq!(creds.access_token, "new-access");
    assert_eq!(creds.refresh_token, "new-refresh");
}

#[test]
fn fresh_credentials_survive_an_unreadable_store() {
    for raw in [Err(LimitsError::NoCredentials), Ok("not json".to_string())] {
        let (flow, _) = renewing(posted().try_step(token()));
        let step = flow.try_step(Event::StoreRead { raw, now_ms: 0 });
        assert!(matches!(step, Some(RefreshStep::Done(Ok(c))) if c.access_token == "new-access"));
    }
}

#[test]
fn refused_renewal_is_an_error() {
    let step = posted().try_step(Event::Token(Err(LimitsError::Unauthorized)));
    assert!(matches!(step, Some(RefreshStep::Done(Err(LimitsError::Unauthorized)))));
}

#[test]
fn old_refresh_token_stays_where_no_new_one_comes() {
    let reply = Event::Token(Ok(TokenResponse {
        access_token: "new-access".to_string(),
        refresh_token: None,
        expires_in: None,
    }));
    let (flow, _) = renewing(posted().try_step(reply));
    let (_, action) = renewing(flow.try_step(stored(STORED)));
    let Action::WriteStore { json } = action else { panic!("nothing to write") };
    let raw: serde_json::Value = serde_json::from_str(&json).unwrap();
    assert_eq!(raw["claudeAiOauth"]["accessToken"], "new-access");
    assert_eq!(raw["claudeAiOauth"]["refreshToken"], "sk-ant-ort01-test");
    assert_eq!(raw["claudeAiOauth"]["expiresAt"], 1_781_092_800_000u64);
}

#[test]
fn what_is_written_is_read_back() {
    let (flow, _) = renewing(posted().try_step(token()));
    let (_, action) = renewing(flow.try_step(stored(STORED)));
    let Action::WriteStore { json } = action else { panic!("nothing to write") };
    let creds = claude_usage_meter::limits::parse_credentials(&json).ok().unwrap();
    assert_eq!(creds.access_token, "new-access");
    assert_eq!(creds.refresh_token, "new-refresh");
}

#[test]
fn unexpected_events_are_refused() {
    let (flow, _) = get_limits();
    assert!(flow.try_step(Event::Written).is_none());
    let (flow, _) = refresh_credentials();
    assert!(flow.try_step(token()).is_none());
}

#[test]
fn expiry_beyond_the_clock_is_refused() {
    assert!(expiry_in_range(1_000, 3600));
    assert!(!expiry_in_range(1_000, i64::MAX as u64));
    assert!(!expiry_in_range(i64::MAX, 1));
    let reply = Event::Token(Ok(TokenResponse {
        access_token: "a".to_string(),
        refresh_token: None,
        expires_in: Some(i64::MAX as u64),
    }));
    let (flow, _) = renewing(posted().try_step(reply));
    assert!(flow.try_step(stored(STORED)).is_none());
}
