use claude_usage_meter::cred_store::{
    keychain_account, keychain_lookup_command, keychain_write, keychain_write_command,
    parse_keychain_account, CommandOutput, CredStore, FileWrite, FileWriteAction, FileWriteStep,
    RawRead,
};
use claude_usage_meter::http::Field;
use claude_usage_meter::limits::{
    check_token_status, check_usage_status, fetch_limits, limits_from_usage, parse_credentials,
    read_credentials, token_request, usage_request, LimitsError, UsageResponse, UsageWindow,
    CLIENT_ID,
};
use claude_usage_meter::snapshot::Percent;

const STORED: &str = r#"{"claudeAiOauth":{"accessToken":"sk-ant-oat01-test","refreshToken":"sk-ant-ort01-test","expiresAt":1781092800000,"subscriptionType":"max"}}"#;

fn percent(p: f32) -> Percent {
    Percent { bits: p.to_bits() }
}

fn pairs(list: &[Field]) -> Vec<(&str, &str)> {
    list.iter().map(|f| (f.name.as_str(), f.value.as_str())).collect()
}

#[test]
fn reads_credentials_file() {
    let raw = CredStore::read_raw(RawRead::File(Some(STORED.to_string())));
    let creds = read_credentials(raw).ok().unwrap();
    assert_eq!(creds.access_token, "sk-ant-oat01-test");
    assert_eq!(creds.refresh_token, "sk-ant-ort01-test");
}

#[test]
fn parses_keychain_account_from_security_output() {
    let out = "keychain: \"/Users/me/Library/Keychains/login.keychain-db\"\n\
               class: \"genp\"\n\
               attributes:\n    \
               \"acct\"<blob>=\"cyberstudio\"\n    \
               \"svce\"<blob>=\"credentials\"\n";
    assert_eq!(parse_keychain_account(out).as_deref(), Some("cyberstudio"));
    assert_eq!(parse_keychain_account("no account here"), None);
}

#[test]
fn keychain_account_of_odd_lines() {
    assert_eq!(parse_keychain_account(""), None);
    assert_eq!(parse_keychain_account("\"acct\"<blob>=<NULL>"), None);
    assert_eq!(parse_keychain_account("\"acct\"<blob>=\""), None);
    assert_eq!(parse_keychain_account("x \"acct\"<blob>=\"no\""), None);
    assert_eq!(parse_keychain_account("\t\"acct\"<blob>=\"a\"b\" \r\n").as_deref(), Some("a\"b"));
    assert_eq!(
        parse_keychain_account("\"acct\"=nothing\n\"acct\"=\"second\"").as_deref(),
        Some("second")
    );
}

#[test]
fn store_readings_that_fail_give_no_credentials() {
    let failures = vec![
        RawRead::File(None),
        RawRead::Command(None),
        RawRead::Command(Some(CommandOutput { success: false, stdout: STORED.into() })),
        RawRead::Command(Some(CommandOutput { success: true, stdout: vec![0xff, 0xfe] })),
    ];
    for f in failures {
        assert!(matches!(CredStore::read_raw(f), Err(LimitsError::NoCredentials)));
    }
    let ok = RawRead::Command(Some(CommandOutput {
        success: true,
        stdout: format!("{STORED}\n").into_bytes(),
    }));
    let creds = read_credentials(CredStore::read_raw(ok)).ok().unwrap();
    assert_eq!(creds.access_token, "sk-ant-oat01-test");
}

#[test]
fn credentials_need_an_access_token() {
    assert!(matches!(parse_credentials("not json"), Err(LimitsError::NoCredentials)));
    assert!(matches!(parse_credentials("{}"), Err(LimitsError::NoCredentials)));
    assert!(matches!(
        parse_credentials(r#"{"claudeAiOauth":{"accessToken":7}}"#),
        Err(LimitsError::NoCredentials)
    ));
    let creds = parse_credentials("  {\"claudeAiOauth\":{\"accessToken\":\"a\"}} \n").ok().unwrap();
    assert_eq!(creds.access_token, "a");
    assert_eq!(creds.refresh_token, "");
    assert!(matches!(
        read_credentials(Err(LimitsError::Bad("x".into()))),
        Err(LimitsError::Bad(m)) if m == "x"
    ));
}

#[test]
fn fetches_limits_from_usage_endpoint() {
    let request = usage_request("http://server", "sk-ant-oat01-test");
    assert_eq!(request.url, "http://server/api/oauth/usage");
    assert!(request.query.is_empty());
    assert_eq!(
        pairs(&request.headers),
        vec![
            ("authorization", "Bearer sk-ant-oat01-test"),
            ("anthropic-beta", "oauth-2025-04-20"),
        ]
    );
    assert!(check_usage_status(200, "200 OK").is_ok());
    let limits = fetch_limits(Ok(UsageResponse {
        five_hour: Some(UsageWindow {
            utilization: Some(percent(62.0)),
            resets_at: Some("2026-06-10T21:20:00+00:00".to_string()),
        }),
        seven_day: Some(UsageWindow {
            utilization: Some(percent(34.5)),
            resets_at: Some("2026-06-15T11:00:00+00:00".to_string()),
        }),
    }))
    .unwrap();
    assert_eq!(f32::from_bits(limits.session_pct.bits), 62.0);
    assert_eq!(f32::from_bits(limits.weekly_pct.bits), 34.5);
    assert!(limits.session_resets_at.unwrap().starts_with("2026-06-10"));
    assert!(!limits.stale);
    assert!(chrono::DateTime::parse_from_rfc3339(&limits.fetched_at).is_ok());
}

#[test]
fn unauthorized_returns_unauthorized_error() {
    let err = check_usage_status(401, "401 Unauthorized").unwrap_err();
    assert!(matches!(err, LimitsError::Unauthorized));
    let err = fetch_limits(Err(err)).unwrap_err();
    assert!(matches!(err, LimitsError::Unauthorized));
}

#[test]
fn statuses_of_the_endpoints() {
    assert!(check_usage_status(299, "299").is_ok());
    assert!(matches!(check_usage_status(403, "403 Forbidden"), Err(LimitsError::Forbidden)));
    assert!(matches!(
        check_usage_status(500, "500 Internal Server Error"),
        Err(LimitsError::Bad(m)) if m == "status 500 Internal Server Error"
    ));
    assert!(check_token_status(204, "204 No Content").is_ok());
    assert!(matches!(check_token_status(400, "400"), Err(LimitsError::Unauthorized)));
    assert!(matches!(check_token_status(401, "401"), Err(LimitsError::Unauthorized)));
    assert!(matches!(
        check_token_status(403, "403 Forbidden"),
        Err(LimitsError::Bad(m)) if m == "token endpoint status 403 Forbidden"
    ));
}

#[test]
fn missing_windows_count_as_unused() {
    let limits = limits_from_usage(
        UsageResponse {
            five_hour: None,
            seven_day: Some(UsageWindow { utilization: None, resets_at: Some("soon".into()) }),
        },
        "now".to_string(),
    );
    assert_eq!(limits.session_pct, percent(0.0));
    assert_eq!(limits.session_resets_at, None);
    assert_eq!(limits.weekly_pct, percent(0.0));
    assert_eq!(limits.weekly_resets_at.as_deref(), Some("soon"));
    assert_eq!(limits.fetched_at, "now");
}

#[test]
fn token_request_carries_the_refresh_token() {
    let request = token_request("http://server", "rt");
    assert_eq!(request.url, "http://server/v1/oauth/token");
    assert_eq!(
        pairs(&request.body),
        vec![
            ("grant_type", "refresh_token"),
            ("refresh_token", "rt"),
            ("client_id", "9d1c250a-e61b-44d9-88ed-5944d1962f5e"),
        ]
    );
    assert_eq!(CLIENT_ID, "9d1c250a-e61b-44d9-88ed-5944d1962f5e");
}

#[test]
fn errors_say_what_is_wrong() {
    assert_eq!(LimitsError::NoCredentials.message(), "credentials file missing or unreadable");
    assert_eq!(LimitsError::Unauthorized.message(), "unauthorized (token expired)");
    assert_eq!(LimitsError::Forbidden.message(), "forbidden (access denied)");
    assert_eq!(LimitsError::NoRefreshToken.message(), "no refresh token available");
    assert_eq!(LimitsError::Http("down".into()).message(), "network/http error: down");
    assert_eq!(LimitsError::Bad("odd".into()).message(), "unexpected response: odd");
}

#[test]
fn keychain_commands() {
    let store = CredStore::Keychain { service: "svc".to_string() };
    assert_eq!(store.read_command().unwrap(), vec!["find-generic-password", "-s", "svc", "-w"]);
    assert!(CredStore::File("x".into()).read_command().is_none());
    assert_eq!(keychain_lookup_command("svc"), vec!["find-generic-password", "-s", "svc"]);
    let lookup = CommandOutput { success: true, stdout: b"\"acct\"<blob>=\"me\"\n\xff".to_vec() };
    let account = keychain_account(Some(lookup));
    assert_eq!(account.as_deref(), Some("me"));
    let lossy = CommandOutput { success: true, stdout: b"\"acct\"<blob>=\"m\xff\"".to_vec() };
    assert_eq!(keychain_account(Some(lossy)).as_deref(), Some("m\u{fffd}"));
    let failed = CommandOutput { success: false, stdout: b"\"acct\"=\"me\"".to_vec() };
    assert_eq!(keychain_account(Some(failed)), None);
    assert_eq!(keychain_account(None), None);
    assert_eq!(
        keychain_write_command(account, "svc", "{}").unwrap(),
        vec!["add-generic-password", "-U", "-a", "me", "-s", "svc", "-w", "{}"]
    );
    assert!(matches!(
        keychain_write_command(None, "svc", "{}"),
        Err(LimitsError::Bad(m)) if m == "keychain account not found"
    ));
    assert!(keychain_write(Ok(true)).is_ok());
    assert!(matches!(
        keychain_write(Ok(false)),
        Err(LimitsError::Bad(m)) if m == "keychain update failed"
    ));
    assert!(matches!(keychain_write(Err("gone".into())), Err(LimitsError::Bad(m)) if m == "gone"));
}

#[test]
fn file_is_replaced_by_a_renaming() {
    let (flow, action) = FileWrite::start();
    assert_eq!(action, FileWriteAction::WriteTemp);
    let FileWriteStep::Wait { flow, action } = flow.step(Ok(())) else { panic!("not over yet") };
    assert_eq!(action, FileWriteAction::Rename);
    assert!(matches!(flow.step(Ok(())), FileWriteStep::Done(Ok(()))));
}

#[test]
fn failed_renaming_removes_the_temporary_file() {
    let (flow, _) = FileWrite::start();
    let FileWriteStep::Wait { flow, .. } = flow.step(Ok(())) else { panic!("not over yet") };
    let FileWriteStep::Wait { flow, action } = flow.step(Err("busy".into())) else {
        panic!("not over yet")
    };
    assert_eq!(action, FileWriteAction::RemoveTemp);
    assert!(matches!(
        flow.step(Ok(())),
        FileWriteStep::Done(Err(LimitsError::Bad(m))) if m == "busy"
    ));
    let (flow, _) = FileWrite::start();
    assert!(matches!(
        flow.step(Err("full".into())),
        FileWriteStep::Done(Err(LimitsError::Bad(m))) if m == "full"
    ));
}

/// Runs the replacement of one file by another on two texts.
fn replace(json: &str, renaming_works: bool) -> (Result<(), LimitsError>, String, Option<String>) {
    let mut file = "old".to_string();
    let mut temp: Option<String> = None;
    let (mut flow, mut action) = FileWrite::start();
    loop {
        let outcome = match action {
            FileWriteAction::WriteTemp => {
                temp = Some(json.to_string());
                Ok(())
            }
            FileWriteAction::Rename if renaming_works => {
                file = temp.take().unwrap();
                Ok(())
            }
            FileWriteAction::Rename => Err("busy".to_string()),
            FileWriteAction::RemoveTemp => {
                temp = None;
                Ok(())
            }
        };
        match flow.step(outcome) {
            FileWriteStep::Wait { flow: next, action: what } => {
                flow = next;
                action = what;
            }
            FileWriteStep::Done(result) => return (result, file, temp),
        }
    }
}

#[test]
fn file_holds_the_new_or_the_old_text() {
    let (result, file, temp) = replace("new", true);
    assert!(result.is_ok());
    assert_eq!(CredStore::read_raw(RawRead::File(Some(file))).unwrap(), "new");
    assert_eq!(temp, None);
    let (result, file, temp) = replace("new", false);
    assert!(matches!(result, Err(LimitsError::Bad(m)) if m == "busy"));
    assert_eq!(file, "old");
    assert_eq!(temp, None);
}
