use claude_usage_meter::api_spend::{
    after_key_change, check_report_status, clear_admin_key, fetch_month_to_date, load_admin_key,
    month_start, month_start_utc, query_this_month, save_admin_key, set_admin_key, CostBucket,
    CostReport, CostResult, KeyAction, KeyOutcome, KeyStep, PageEvent, SpendQuery, SpendStep,
    MAX_PAGES,
};

fn report(buckets: &[&[&str]], next_page: Option<&str>, has_more: bool) -> PageEvent {
    let bucket = |amounts: &&[&str]| CostBucket {
        results: amounts.iter().map(|a| CostResult { amount: a.to_string() }).collect(),
    };
    PageEvent::Page(CostReport {
        data: buckets.iter().map(bucket).collect(),
        has_more,
        next_page: next_page.map(str::to_string),
    })
}

fn done(step: SpendStep) -> Vec<String> {
    match step {
        SpendStep::Done(amounts) => amounts,
        _ => panic!("not the end"),
    }
}

fn ask(step: SpendStep) -> SpendQuery {
    match step {
        SpendStep::Ask(q) => q,
        _ => panic!("no further page"),
    }
}

fn dollars(amounts: &[String]) -> f64 {
    amounts.iter().map(|a| a.parse::<f64>().unwrap_or(0.0)).sum::<f64>() / 100.0
}

fn query(q: &SpendQuery) -> Vec<(String, String)> {
    q.request().query.into_iter().map(|f| (f.name, f.value)).collect()
}

fn pair(name: &str, value: &str) -> (String, String) {
    (name.to_string(), value.to_string())
}

#[test]
fn sums_cost_report_amounts_in_cents() {
    let q = fetch_month_to_date(
        "http://server",
        "sk-ant-admin-test",
        "2026-06-01T00:00:00Z",
        "2026-06-10T00:00:00Z",
    );
    let request = q.request();
    assert_eq!(request.url, "http://server/v1/organizations/cost_report");
    let headers: Vec<(&str, &str)> =
        request.headers.iter().map(|f| (f.name.as_str(), f.value.as_str())).collect();
    assert_eq!(
        headers,
        vec![("x-api-key", "sk-ant-admin-test"), ("anthropic-version", "2023-06-01")]
    );
    assert_eq!(
        query(&q),
        vec![
            pair("starting_at", "2026-06-01T00:00:00Z"),
            pair("ending_at", "2026-06-10T00:00:00Z"),
        ]
    );
    assert!(check_report_status(200, "200 OK").is_ok());
    let amounts = done(q.step(report(&[&["1234.56"], &["100", "5.5"]], None, false)));
    assert_eq!(amounts, vec!["1234.56", "100", "5.5"]);
    assert!((dollars(&amounts) - 13.4006).abs() < 1e-9);
}

#[test]
fn follows_pagination() {
    let q = fetch_month_to_date("http://server", "k", "a", "b");
    let q = ask(q.step(report(&[&["100"]], Some("p2"), true)));
    assert_eq!(
        query(&q),
        vec![pair("starting_at", "a"), pair("ending_at", "b"), pair("page", "p2")]
    );
    let amounts = done(q.step(report(&[&["100"]], None, false)));
    assert!((dollars(&amounts) - 2.0).abs() < 1e-9);
}

#[test]
fn pages_end_without_a_next_one() {
    let q = || fetch_month_to_date("s", "k", "a", "b");
    assert_eq!(done(q().step(report(&[&["1"]], None, true))), vec!["1"]);
    assert_eq!(done(q().step(report(&[&["1"]], Some("p2"), false))), vec!["1"]);
    assert!(done(q().step(report(&[], None, false))).is_empty());
}

#[test]
fn no_more_than_fifty_pages_are_asked_for() {
    let mut q = fetch_month_to_date("s", "k", "a", "b");
    for _ in 0..49 {
        q = ask(q.step(report(&[&["1"]], Some("next"), true)));
    }
    assert_eq!(MAX_PAGES, 50);
    let amounts = done(q.step(report(&[&["1"]], Some("next"), true)));
    assert_eq!(amounts.len(), 50);
}

#[test]
fn failures_are_passed_on() {
    let err = check_report_status(500, "500 Internal Server Error").unwrap_err();
    assert_eq!(err, "cost_report status 500 Internal Server Error");
    let q = fetch_month_to_date("s", "k", "a", "b");
    assert!(matches!(q.step(PageEvent::Failed(err.clone())), SpendStep::Failed(e) if e == err));
}

#[test]
fn month_starts_on_its_first_day() {
    assert_eq!(month_start("2026-06"), "2026-06-01T00:00:00Z");
    let start = chrono::DateTime::parse_from_rfc3339(&month_start_utc()).unwrap();
    let age = chrono::Utc::now().signed_duration_since(start);
    assert!(age.num_days() <= 31);
    assert!(age.num_seconds() >= 0);
}

#[test]
fn blank_key_clears() {
    assert!(matches!(set_admin_key(""), KeyAction::Clear));
    assert!(matches!(set_admin_key(" \t\n"), KeyAction::Clear));
    assert!(matches!(set_admin_key(" key "), KeyAction::Save(k) if k == "key"));
}

#[test]
fn this_month_ends_now() {
    let q = query_this_month("http://server", "k");
    assert_eq!(q.base, "http://server");
    assert_eq!(q.admin_key, "k");
    assert!(q.page.is_none());
    let start = chrono::DateTime::parse_from_rfc3339(&q.starting_at).unwrap();
    let end = chrono::DateTime::parse_from_rfc3339(&q.ending_at).unwrap();
    assert!(start <= end);
    assert!(q.ending_at.ends_with("+00:00"));
    assert!((chrono::Utc::now().signed_duration_since(end)).num_minutes() < 5);
    assert!((end - start).num_days() <= 31);
}

#[test]
fn missing_key_is_as_good_as_removed() {
    assert_eq!(clear_admin_key(KeyOutcome::Done), Ok(()));
    assert_eq!(clear_admin_key(KeyOutcome::NoEntry("none".into())), Ok(()));
    assert_eq!(clear_admin_key(KeyOutcome::Failed("locked".into())), Err("locked".to_string()));
    assert_eq!(save_admin_key(KeyOutcome::Done), Ok(()));
    assert_eq!(save_admin_key(KeyOutcome::NoEntry("none".into())), Err("none".to_string()));
    assert_eq!(save_admin_key(KeyOutcome::Failed("locked".into())), Err("locked".to_string()));
    assert_eq!(load_admin_key(Ok("k".into())).as_deref(), Some("k"));
    assert_eq!(load_admin_key(Err("none".into())), None);
}

/// Sets a key in a store that is a plain variable; says whether the spend was refreshed.
fn set_key(store: &mut Option<String>, key: &str) -> bool {
    let result = match set_admin_key(key) {
        KeyAction::Clear => clear_admin_key(match store.take() {
            Some(_) => KeyOutcome::Done,
            None => KeyOutcome::NoEntry("none".to_string()),
        }),
        KeyAction::Save(k) => {
            *store = Some(k);
            save_admin_key(KeyOutcome::Done)
        }
    };
    matches!(after_key_change(result), KeyStep::RefreshSpend)
}

#[test]
fn key_is_loaded_as_it_was_set() {
    let mut store = None;
    assert!(set_key(&mut store, " key\n"));
    assert_eq!(store.as_deref(), Some("key"));
    assert!(set_key(&mut store, "  "));
    assert_eq!(store, None);
    assert!(set_key(&mut store, ""));
    assert_eq!(store, None);
    assert!(matches!(after_key_change(Err("x".into())), KeyStep::Failed(e) if e == "x"));
}
