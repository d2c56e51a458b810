//! Session and weekly limits: the stored OAuth credentials, and what the usage endpoint and the token
//! endpoint are asked and answer.
use crate::dates::{is_utc_time, utc_now_rfc3339};
use crate::http::{field, fields, is_success, success, Field, GetRequest, GetRequestView,
    PostRequest, PostRequestView};
use crate::json::{as_string, json_document, member, parse_document, string_at};
use crate::snapshot::{opt_text, Limits, LimitsView, Percent};
use crate::text::{join2, trim, trimmed};
use vstd::prelude::*;

pub use crate::cred_store::{parse_keychain_account, CredStore};
pub use crate::limits_flow::get_limits;
pub use crate::refresh::refresh_credentials;

verus! {

/// Why no limits could be had.
#[derive(Debug)]
pub enum LimitsError {
    NoCredentials,
    Unauthorized,
    Forbidden,
    NoRefreshToken,
    Http(String),
    Bad(String),
}

pub ghost enum LimitsErrorView {
    NoCredentials,
    Unauthorized,
    Forbidden,
    NoRefreshToken,
    Http(Seq<char>),
    Bad(Seq<char>),
}

impl View for LimitsError {
    type V = LimitsErrorView;

    open spec fn view(&self) -> LimitsErrorView {
        match self {
            LimitsError::NoCredentials => LimitsErrorView::NoCredentials,
            LimitsError::Unauthorized => LimitsErrorView::Unauthorized,
            LimitsError::Forbidden => LimitsErrorView::Forbidden,
            LimitsError::NoRefreshToken => LimitsErrorView::NoRefreshToken,
            LimitsError::Http(m) => LimitsErrorView::Http(m@),
            LimitsError::Bad(m) => LimitsErrorView::Bad(m@),
        }
    }
}

impl LimitsErrorView {
    /// What the error says to a reader.
    pub open spec fn message(self) -> Seq<char> {
        match self {
            LimitsErrorView::NoCredentials => "credentials file missing or unreadable"@,
            LimitsErrorView::Unauthorized => "unauthorized (token expired)"@,
            LimitsErrorView::Forbidden => "forbidden (access denied)"@,
            LimitsErrorView::NoRefreshToken => "no refresh token available"@,
            LimitsErrorView::Http(m) => "network/http error: "@ + m,
            LimitsErrorView::Bad(m) => "unexpected response: "@ + m,
        }
    }
}

impl LimitsError {
    /// What the error says to a reader.
    pub fn message(&self) -> (r: String)
        ensures
            r@ == self@.message(),
    {
        match self {
            LimitsError::NoCredentials => "credentials file missing or unreadable".to_owned(),
            LimitsError::Unauthorized => "unauthorized (token expired)".to_owned(),
            LimitsError::Forbidden => "forbidden (access denied)".to_owned(),
            LimitsError::NoRefreshToken => "no refresh token available".to_owned(),
            LimitsError::Http(m) => join2("network/http error: ", m.as_str()),
            LimitsError::Bad(m) => join2("unexpected response: ", m.as_str()),
        }
    }
}

/// OAuth credentials. They cannot be printed for debugging, so that no token ends up in a log.
pub struct Credentials {
    pub access_token: String,
    pub refresh_token: String,
}

pub ghost struct CredentialsView {
    pub access_token: Seq<char>,
    pub refresh_token: Seq<char>,
}

impl View for Credentials {
    type V = CredentialsView;

    open spec fn view(&self) -> CredentialsView {
        CredentialsView {
            access_token: self.access_token@,
            refresh_token: self.refresh_token@,
        }
    }
}

impl Clone for Credentials {
    fn clone(&self) -> (r: Self)
        ensures
            r@ == self@,
    {
        Credentials {
            access_token: self.access_token.clone(),
            refresh_token: self.refresh_token.clone(),
        }
    }
}

/// The credentials in a result, or its error, by their views.
pub open spec fn credentials_view(r: Result<Credentials, LimitsError>) -> Result<
    CredentialsView,
    LimitsErrorView,
> {
    match r {
        Ok(c) => Ok(c@),
        Err(e) => Err(e@),
    }
}

/// The credentials that the two token fields of a document make: the access token must be there,
/// a missing refresh token counts as an empty one.
pub open spec fn credentials_of_fields(
    access: Option<Seq<char>>,
    refresh: Option<Seq<char>>,
) -> Result<CredentialsView, LimitsErrorView> {
    match access {
        Some(a) => Ok(
            CredentialsView {
                access_token: a,
                refresh_token: match refresh {
                    Some(r) => r,
                    None => Seq::empty(),
                },
            },
        ),
        None => Err(LimitsErrorView::NoCredentials),
    }
}

/// The credentials in a document.
pub open spec fn credentials_of_document(v: serde_json::Value) -> Result<
    CredentialsView,
    LimitsErrorView,
> {
    credentials_of_fields(
        string_at(v, "claudeAiOauth"@, "accessToken"@),
        string_at(v, "claudeAiOauth"@, "refreshToken"@),
    )
}

/// The credentials in a text.
pub open spec fn credentials_of_text(raw: Seq<char>) -> Result<CredentialsView, LimitsErrorView> {
    match json_document(trimmed(raw)) {
        Some(v) => credentials_of_document(v),
        None => Err(LimitsErrorView::NoCredentials),
    }
}

/// The credentials that a reading of the store gives.
pub open spec fn credentials_of_reading(raw: Result<Seq<char>, LimitsErrorView>) -> Result<
    CredentialsView,
    LimitsErrorView,
> {
    match raw {
        Ok(text) => credentials_of_text(text),
        Err(e) => Err(e),
    }
}

/// What a reading of the store gave, by its view.
pub open spec fn reading_view(raw: Result<String, LimitsError>) -> Result<
    Seq<char>,
    LimitsErrorView,
> {
    match raw {
        Ok(text) => Ok(text@),
        Err(e) => Err(e@),
    }
}

/// Makes credentials of the two token fields of a document.
pub fn credentials_from_fields(access: Option<&str>, refresh: Option<&str>) -> (r: Result<
    Credentials,
    LimitsError,
>)
    ensures
        credentials_view(r) == credentials_of_fields(
            match access {
                Some(a) => Some(a@),
                None => None,
            },
            match refresh {
                Some(t) => Some(t@),
                None => None,
            },
        ),
        r is Ok <==> access is Some,
        r matches Ok(c) ==> c.access_token@ == access->0@ && (refresh matches Some(t)
            ==> c.refresh_token@ == t@) && (refresh is None ==> c.refresh_token@.len() == 0),
{
    match access {
        Some(a) => Ok(
            Credentials {
                access_token: a.to_owned(),
                refresh_token: match refresh {
                    Some(t) => t.to_owned(),
                    None => String::new(),
                },
            },
        ),
        None => Err(LimitsError::NoCredentials),
    }
}

/// The string that stands in the object member `outer` under the name `inner`.
pub(crate) fn string_in<'a>(v: &'a serde_json::Value, outer: &str, inner: &str) -> (r: Option<&'a str>)
    ensures
        match r {
            Some(t) => string_at(*v, outer@, inner@) == Some(t@),
            None => string_at(*v, outer@, inner@) is None,
        },
{
    match member(v, outer) {
        Some(o) => match member(o, inner) {
            Some(w) => as_string(w),
            None => None,
        },
        None => None,
    }
}

/// Reads the credentials out of a document.
pub fn credentials_in(v: &serde_json::Value) -> (r: Result<Credentials, LimitsError>)
    ensures
        credentials_view(r) == credentials_of_document(*v),
{
    credentials_from_fields(
        string_in(v, "claudeAiOauth", "accessToken"),
        string_in(v, "claudeAiOauth", "refreshToken"),
    )
}

/// Reads the credentials out of the text that the store holds.
pub fn parse_credentials(raw: &str) -> (r: Result<Credentials, LimitsError>)
    ensures
        credentials_view(r) == credentials_of_text(raw@),
        r matches Ok(c) ==> json_document(trimmed(raw@)) is Some && string_at(
            json_document(trimmed(raw@))->0,
            "claudeAiOauth"@,
            "accessToken"@,
        ) == Some(c.access_token@) && (string_at(
            json_document(trimmed(raw@))->0,
            "claudeAiOauth"@,
            "refreshToken"@,
        ) matches Some(t) ==> c.refresh_token@ == t),
{
    match parse_document(trim(raw)) {
        Some(v) => credentials_in(&v),
        None => Err(LimitsError::NoCredentials),
    }
}

/// The credentials that a reading of the store gives: `raw` is what `CredStore::read_raw` made of
/// it, and its error is passed on.
pub fn read_credentials(raw: Result<String, LimitsError>) -> (r: Result<Credentials, LimitsError>)
    ensures
        credentials_view(r) == credentials_of_reading(reading_view(raw)),
{
    match raw {
        Ok(text) => parse_credentials(text.as_str()),
        Err(e) => Err(e),
    }
}

/// The address of the usage endpoint.
pub const USAGE_BASE: &'static str = "https://api.anthropic.com";

/// The address of the token endpoint.
pub const TOKEN_BASE: &'static str = "https://console.anthropic.com";

/// The public OAuth client id.
pub const CLIENT_ID: &'static str = "9d1c250a-e61b-44d9-88ed-5944d1962f5e";

/// The beta header that the usage endpoint asks for.
pub const OAUTH_BETA: &'static str = "oauth-2025-04-20";

/// The request for the usage of the account that the token belongs to.
pub fn usage_request(base: &str, access_token: &str) -> (r: GetRequest)
    ensures
        r@ == (GetRequestView {
            url: base@ + "/api/oauth/usage"@,
            query: Seq::empty(),
            headers: seq![
                ("authorization"@, "Bearer "@ + access_token@),
                ("anthropic-beta"@, OAUTH_BETA@),
            ],
        }),
{
    let bearer = join2("Bearer ", access_token);
    let mut headers: Vec<Field> = Vec::new();
    headers.push(field("authorization", bearer.as_str()));
    headers.push(field("anthropic-beta", OAUTH_BETA));
    let query: Vec<Field> = Vec::new();
    assert(fields(query@) =~= Seq::empty());
    assert(fields(headers@) =~= seq![
        ("authorization"@, "Bearer "@ + access_token@),
        ("anthropic-beta"@, OAUTH_BETA@),
    ]);
    GetRequest { url: join2(base, "/api/oauth/usage"), query, headers }
}

/// The request that renews the credentials with a refresh token.
pub fn token_request(token_base: &str, refresh_token: &str) -> (r: PostRequest)
    ensures
        r@ == (PostRequestView {
            url: token_base@ + "/v1/oauth/token"@,
            body: seq![
                ("grant_type"@, "refresh_token"@),
                ("refresh_token"@, refresh_token@),
                ("client_id"@, CLIENT_ID@),
            ],
        }),
{
    let mut body: Vec<Field> = Vec::new();
    body.push(field("grant_type", "refresh_token"));
    body.push(field("refresh_token", refresh_token));
    body.push(field("client_id", CLIENT_ID));
    assert(fields(body@) =~= seq![
        ("grant_type"@, "refresh_token"@),
        ("refresh_token"@, refresh_token@),
        ("client_id"@, CLIENT_ID@),
    ]);
    PostRequest { url: join2(token_base, "/v1/oauth/token"), body }
}

/// What a status amounts to, by its view.
pub open spec fn status_view(r: Result<(), LimitsError>) -> Result<(), LimitsErrorView> {
    match r {
        Ok(u) => Ok(u),
        Err(e) => Err(e@),
    }
}

/// What the status of the usage endpoint's answer amounts to; `line` is the status as it is shown.
pub fn check_usage_status(code: u16, line: &str) -> (r: Result<(), LimitsError>)
    ensures
        status_view(r) == (if success(code) {
            Ok::<(), LimitsErrorView>(())
        } else if code == 401 {
            Err(LimitsErrorView::Unauthorized)
        } else if code == 403 {
            Err(LimitsErrorView::Forbidden)
        } else {
            Err(LimitsErrorView::Bad("status "@ + line@))
        }),
{
    if code == 401 {
        return Err(LimitsError::Unauthorized);
    }
    if code == 403 {
        return Err(LimitsError::Forbidden);
    }
    if !is_success(code) {
        return Err(LimitsError::Bad(join2("status ", line)));
    }
    Ok(())
}

/// What the status of the token endpoint's answer amounts to; `line` is the status as it is shown.
pub fn check_token_status(code: u16, line: &str) -> (r: Result<(), LimitsError>)
    ensures
        status_view(r) == (if success(code) {
            Ok::<(), LimitsErrorView>(())
        } else if code == 400 || code == 401 {
            Err(LimitsErrorView::Unauthorized)
        } else {
            Err(LimitsErrorView::Bad("token endpoint status "@ + line@))
        }),
{
    if !is_success(code) {
        if code == 400 || code == 401 {
            return Err(LimitsError::Unauthorized);
        }
        return Err(LimitsError::Bad(join2("token endpoint status ", line)));
    }
    Ok(())
}

/// One window of the usage endpoint's answer.
pub struct UsageWindow {
    pub utilization: Option<Percent>,
    pub resets_at: Option<String>,
}

/// The usage endpoint's answer.
pub struct UsageResponse {
    pub five_hour: Option<UsageWindow>,
    pub seven_day: Option<UsageWindow>,
}

/// How far a window is used up; zero where the answer does not say.
pub open spec fn window_percent(w: Option<UsageWindow>) -> Percent {
    match w {
        Some(u) => match u.utilization {
            Some(p) => p,
            None => Percent { bits: 0 },
        },
        None => Percent { bits: 0 },
    }
}

/// When a window starts anew, where the answer says so.
pub open spec fn window_reset(w: Option<UsageWindow>) -> Option<Seq<char>> {
    match w {
        Some(u) => opt_text(u.resets_at),
        None => None,
    }
}

/// The limits that an answer gives.
pub open spec fn limits_of(body: UsageResponse, fetched_at: Seq<char>) -> LimitsView {
    LimitsView {
        session_pct: window_percent(body.five_hour),
        session_resets_at: window_reset(body.five_hour),
        weekly_pct: window_percent(body.seven_day),
        weekly_resets_at: window_reset(body.seven_day),
        fetched_at,
        stale: false,
    }
}

fn window_parts(w: Option<UsageWindow>) -> (r: (Percent, Option<String>))
    ensures
        r.0 == window_percent(w),
        opt_text(r.1) == window_reset(w),
{
    match w {
        Some(u) => (
            match u.utilization {
                Some(p) => p,
                None => Percent { bits: 0 },
            },
            u.resets_at,
        ),
        None => (Percent { bits: 0 }, None),
    }
}

/// The limits that an answer gives, as of `fetched_at`.
pub fn limits_from_usage(body: UsageResponse, fetched_at: String) -> (r: Limits)
    ensures
        r@ == limits_of(body, fetched_at@),
        body.seven_day matches Some(w) ==> (w.resets_at matches Some(t) ==> r.weekly_resets_at matches
            Some(u) && u@ == t@),
        body.five_hour matches Some(w) ==> (w.resets_at matches Some(t) ==> r.session_resets_at matches
            Some(u) && u@ == t@),
        body.seven_day matches Some(w) ==> (w.utilization matches Some(p) ==> r.weekly_pct == p),
        body.five_hour matches Some(w) ==> (w.utilization matches Some(p) ==> r.session_pct == p),
        r.fetched_at@ == fetched_at@,
        !r.stale,
{
    let (session_pct, session_resets_at) = window_parts(body.five_hour);
    let (weekly_pct, weekly_resets_at) = window_parts(body.seven_day);
    Limits {
        session_pct,
        session_resets_at,
        weekly_pct,
        weekly_resets_at,
        fetched_at,
        stale: false,
    }
}

/// The limits that an answer gives, as of now; an error is passed on.
pub fn fetch_limits(reply: Result<UsageResponse, LimitsError>) -> (r: Result<Limits, LimitsError>)
    ensures
        match reply {
            Ok(body) => r is Ok && exists|at: Seq<char>|
                r->Ok_0@ == #[trigger] limits_of(body, at) && is_utc_time(at),
            Err(e) => r is Err && r->Err_0@ == e@,
        },
{
    match reply {
        Ok(body) => {
            let at = utc_now_rfc3339();
            Ok(limits_from_usage(body, at))
        },
        Err(e) => Err(e),
    }
}

/// The figures of a session come from the five-hour window alone and those of a week from the
/// seven-day window alone: two answers that agree on a window give the same figures for it, whatever
/// the other window holds and whenever they were fetched.
pub proof fn law_windows_do_not_mix(a: UsageResponse, b: UsageResponse, at: Seq<char>, bt: Seq<char>)
    ensures
        a.seven_day == b.seven_day ==> limits_of(a, at).weekly_pct == limits_of(b, bt).weekly_pct
            && limits_of(a, at).weekly_resets_at == limits_of(b, bt).weekly_resets_at,
        a.five_hour == b.five_hour ==> limits_of(a, at).session_pct == limits_of(b, bt).session_pct
            && limits_of(a, at).session_resets_at == limits_of(b, bt).session_resets_at,
        a.five_hour == b.seven_day ==> limits_of(a, at).session_pct == limits_of(b, bt).weekly_pct
            && limits_of(a, at).session_resets_at == limits_of(b, bt).weekly_resets_at,
{
}

/// A figure that a window holds is taken over as it stands, and one that it lacks is zero or unknown.
/// The limits bear the time that they were fetched at and are not stale.
pub proof fn law_figures_are_taken_over(body: UsageResponse, at: Seq<char>)
    ensures
        ({
            let l = limits_of(body, at);
            &&& body.seven_day matches Some(w) ==> (w.utilization matches Some(p) ==> l.weekly_pct == p)
            &&& body.seven_day matches Some(w) ==> (w.resets_at matches Some(t) ==> l.weekly_resets_at
                == Some(t@))
            &&& body.five_hour matches Some(w) ==> (w.utilization matches Some(p) ==> l.session_pct
                == p)
            &&& body.five_hour matches Some(w) ==> (w.resets_at matches Some(t) ==> l.session_resets_at
                == Some(t@))
            &&& body.seven_day is None || body.seven_day->0.utilization is None ==> l.weekly_pct.bits
                == 0
            &&& body.seven_day is None || body.seven_day->0.resets_at is None ==> l.weekly_resets_at
                is None
            &&& body.five_hour is None || body.five_hour->0.utilization is None ==> l.session_pct.bits
                == 0
            &&& body.five_hour is None || body.five_hour->0.resets_at is None ==> l.session_resets_at
                is None
            &&& l.fetched_at == at
            &&& !l.stale
        }),
{
}

/// The credentials in a text are the strings that stand in its `claudeAiOauth` object under the names
/// of the two tokens. Without the access token there are none; without the refresh token it is empty.
pub proof fn law_credentials_stand_in_the_document(raw: Seq<char>)
    ensures
        ({
            let doc = json_document(trimmed(raw));
            let access = string_at(doc->0, "claudeAiOauth"@, "accessToken"@);
            let refresh = string_at(doc->0, "claudeAiOauth"@, "refreshToken"@);
            match credentials_of_reading(Ok(raw)) {
                Ok(c) => doc is Some && access == Some(c.access_token) && (match refresh {
                    Some(t) => c.refresh_token == t,
                    None => c.refresh_token.len() == 0,
                }),
                Err(e) => e is NoCredentials && (doc is None || access is None),
            }
        }),
{
}

/// A reading that failed gives no credentials but its own error.
pub proof fn law_failed_reading_is_passed_on(error: LimitsErrorView)
    ensures
        credentials_of_reading(Err(error)) == Err::<CredentialsView, LimitsErrorView>(error),
{
}

/// The messages of two errors of the endpoints end with what was said there, after a start that tells
/// them apart.
pub proof fn law_message_holds_the_cause(cause: Seq<char>)
    ensures
        LimitsErrorView::Http(cause).message() == "network/http error: "@ + cause,
        LimitsErrorView::Bad(cause).message() == "unexpected response: "@ + cause,
{
}

/// Credentials are seen as they are, each token under its own name.
pub proof fn law_credentials_are_seen_as_they_are(c: Credentials)
    ensures
        c@.access_token == c.access_token@,
        c@.refresh_token == c.refresh_token@,
{
}

/// The endpoints and what is told to them.
pub proof fn law_endpoints()
    ensures
        USAGE_BASE@ == "https://api.anthropic.com"@,
        TOKEN_BASE@ == "https://console.anthropic.com"@,
        CLIENT_ID@ == "9d1c250a-e61b-44d9-88ed-5944d1962f5e"@,
        OAUTH_BETA@ == "oauth-2025-04-20"@,
{
}

/// Errors are seen as they are, with their texts, and so are the results that hold them.
pub proof fn law_errors_are_seen_as_they_are(
    error: LimitsError,
    creds: Result<Credentials, LimitsError>,
    raw: Result<String, LimitsError>,
    status: Result<(), LimitsError>,
)
    ensures
        error is NoCredentials <==> error@ is NoCredentials,
        error is Unauthorized <==> error@ is Unauthorized,
        error is Forbidden <==> error@ is Forbidden,
        error is NoRefreshToken <==> error@ is NoRefreshToken,
        error matches LimitsError::Http(m) ==> error@ == LimitsErrorView::Http(m@),
        error matches LimitsError::Bad(m) ==> error@ == LimitsErrorView::Bad(m@),
        match creds {
            Ok(c) => credentials_view(creds) == Ok::<CredentialsView, LimitsErrorView>(c@),
            Err(e) => credentials_view(creds) == Err::<CredentialsView, LimitsErrorView>(e@),
        },
        match raw {
            Ok(t) => reading_view(raw) == Ok::<Seq<char>, LimitsErrorView>(t@),
            Err(e) => reading_view(raw) == Err::<Seq<char>, LimitsErrorView>(e@),
        },
        match status {
            Ok(_) => status_view(status) is Ok,
            Err(e) => status_view(status) == Err::<(), LimitsErrorView>(e@),
        },
{
}

} // verus!
