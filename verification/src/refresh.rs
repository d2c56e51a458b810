//! Renewal of the OAuth credentials: what the token endpoint's answer does to the stored document,
//! and the steps of a renewal.
use crate::json::{
    integer_value, json_depth, json_document, json_fractional, json_integer, json_members,
    json_rendering, json_string, member_mut, member_of, parse_document, render, string_at,
    string_value,
};
use crate::limits::{
    credentials_of_reading, credentials_of_text, credentials_view,
    read_credentials, reading_view, string_in, Credentials, CredentialsView, LimitsError,
    LimitsErrorView,
};
use crate::snapshot::{opt_text, Limits, LimitsView};
use crate::text::{same_text, trim, trimmed};
use vstd::prelude::*;

verus! {

/// What the token endpoint answers to a renewal.
pub struct TokenResponse {
    pub access_token: String,
    pub refresh_token: Option<String>,
    /// Seconds.
    pub expires_in: Option<u64>,
}

pub ghost struct TokenResponseView {
    pub access_token: Seq<char>,
    pub refresh_token: Option<Seq<char>>,
    pub expires_in: Option<u64>,
}

impl View for TokenResponse {
    type V = TokenResponseView;

    open spec fn view(&self) -> TokenResponseView {
        TokenResponseView {
            access_token: self.access_token@,
            refresh_token: opt_text(self.refresh_token),
            expires_in: self.expires_in,
        }
    }
}

/// The credentials after a renewal: the old refresh token stays where no new one was given.
pub open spec fn fresh_of(old: CredentialsView, token: TokenResponseView) -> CredentialsView {
    CredentialsView {
        access_token: token.access_token,
        refresh_token: match token.refresh_token {
            Some(t) => t,
            None => old.refresh_token,
        },
    }
}

/// Makes the credentials after a renewal.
pub fn fresh_credentials(old: &Credentials, token: &TokenResponse) -> (r: Credentials)
    ensures
        r@ == fresh_of(old@, token@),
        r.access_token@ == token.access_token@,
        match token.refresh_token {
            Some(t) => r.refresh_token@ == t@,
            None => r.refresh_token@ == old.refresh_token@,
        },
{
    Credentials {
        access_token: token.access_token.clone(),
        refresh_token: match &token.refresh_token {
            Some(t) => t.clone(),
            None => old.refresh_token.clone(),
        },
    }
}

/// When a token expires, in milliseconds since the epoch, if it lives `expires_in` seconds from
/// `now_ms` on.
pub open spec fn expiry(now_ms: i64, expires_in: u64) -> int {
    now_ms + (expires_in as i64) * 1000
}

/// Whether that moment can be computed within `i64`.
pub open spec fn expiry_fits(now_ms: i64, expires_in: u64) -> bool {
    &&& i64::MIN <= (expires_in as i64) * 1000 <= i64::MAX
    &&& i64::MIN <= expiry(now_ms, expires_in) <= i64::MAX
}

/// Whether the expiry of a token can be computed within `i64`.
pub fn expiry_in_range(now_ms: i64, expires_in: u64) -> (r: bool)
    ensures
        r == expiry_fits(now_ms, expires_in),
        expires_in <= i64::MAX ==> r == (1000 * expires_in <= i64::MAX && now_ms + 1000 * expires_in
            <= i64::MAX),
{
    match (expires_in as i64).checked_mul(1000) {
        Some(life) => now_ms.checked_add(life).is_some(),
        None => false,
    }
}

/// Whether two objects have the same member, or none, under the name `key`.
pub open spec fn same_member(
    a: Map<Seq<char>, serde_json::Value>,
    b: Map<Seq<char>, serde_json::Value>,
    key: Seq<char>,
) -> bool {
    &&& a.dom().contains(key) == b.dom().contains(key)
    &&& a.dom().contains(key) ==> a[key] == b[key]
}

/// Whether the object `new` is the object `old` with the fields of a token put in: the access
/// token, the refresh token and the expiry as far as they were given, and nothing else changed.
pub open spec fn token_put_in(
    old: Map<Seq<char>, serde_json::Value>,
    new: Map<Seq<char>, serde_json::Value>,
    token: TokenResponseView,
    now_ms: i64,
) -> bool {
    &&& new.dom().contains("accessToken"@)
    &&& json_string(new["accessToken"@]) == Some(token.access_token)
    &&& match token.refresh_token {
        Some(t) => new.dom().contains("refreshToken"@) && json_string(new["refreshToken"@])
            == Some(t),
        None => same_member(old, new, "refreshToken"@),
    }
    &&& match token.expires_in {
        Some(s) => new.dom().contains("expiresAt"@) && json_integer(new["expiresAt"@]) == Some(
            expiry(now_ms, s) as i64,
        ),
        None => same_member(old, new, "expiresAt"@),
    }
    &&& forall|key: Seq<char>|
        key != "accessToken"@ && key != "refreshToken"@ && key != "expiresAt"@
            ==> #[trigger] same_member(old, new, key)
}

/// Whether the document `new` is the document `old` after a renewal: the token is put into the
/// `claudeAiOauth` object, and every field that a renewal does not set is as it was.
pub open spec fn renewed_document(
    old: serde_json::Value,
    new: serde_json::Value,
    token: TokenResponseView,
    now_ms: i64,
) -> bool {
    &&& json_members(old) matches Some(m)
    &&& json_members(new) matches Some(n)
    &&& m.dom().contains("claudeAiOauth"@)
    &&& n.dom() == m.dom()
    &&& forall|key: Seq<char>|
        key != "claudeAiOauth"@ ==> #[trigger] same_member(m, n, key)
    &&& json_members(m["claudeAiOauth"@]) matches Some(o)
    &&& json_members(n["claudeAiOauth"@]) matches Some(p)
    &&& token_put_in(o, p, token, now_ms)
}

/// The members of the `claudeAiOauth` object of a document.
pub open spec fn oauth_members(v: serde_json::Value) -> Option<Map<Seq<char>, serde_json::Value>> {
    match member_of(v, "claudeAiOauth"@) {
        Some(o) => json_members(o),
        None => None,
    }
}

/// Puts a string or a number into the `claudeAiOauth` object of a document.
fn put_oauth(v: &mut serde_json::Value, key: &str, item: serde_json::Value)
    requires
        oauth_members(*old(v)) is Some,
        json_depth(item) == 0,
        !json_fractional(item),
    ensures
        oauth_members(*final(v)) == Some(oauth_members(*old(v))->0.insert(key@, item)),
        json_members(*final(v)) is Some,
        json_members(*final(v))->0.dom() == json_members(*old(v))->0.dom(),
        forall|k: Seq<char>|
            k != "claudeAiOauth"@ ==> #[trigger] same_member(
                json_members(*old(v))->0,
                json_members(*final(v))->0,
                k,
            ),
        json_depth(*final(v)) <= json_depth(*old(v)),
        json_fractional(*final(v)) ==> json_fractional(*old(v)),
{
    let ghost before = *v;
    let oauth = member_mut(v, "claudeAiOauth");
    *member_mut(oauth, key) = item;
    proof {
        assert(json_members(*v)->0.dom() =~= json_members(before)->0.dom());
    }
}

/// Puts a token into a document that holds a refresh token.
fn renew_document(doc: serde_json::Value, token: &TokenResponse, now_ms: i64) -> (new:
    serde_json::Value)
    requires
        string_at(doc, "claudeAiOauth"@, "refreshToken"@) is Some,
        token@.expires_in matches Some(s) ==> expiry_fits(now_ms, s),
    ensures
        renewed_document(doc, new, token@, now_ms),
        token.expires_in matches Some(s) ==> (s <= i64::MAX ==> (json_integer(
            json_members(json_members(new)->0["claudeAiOauth"@])->0["expiresAt"@],
        ) matches Some(ms) && ms - now_ms == 1000 * s)),
        json_depth(new) <= json_depth(doc),
        json_fractional(new) ==> json_fractional(doc),
{
    proof {
        reveal_strlit("accessToken");
        reveal_strlit("refreshToken");
        reveal_strlit("expiresAt");
        assert("accessToken"@.len() == 11 && "refreshToken"@.len() == 12 && "expiresAt"@.len() == 9);
    }
    let mut v = doc;
    put_oauth(&mut v, "accessToken", string_value(token.access_token.as_str()));
    let ghost first = v;
    match &token.refresh_token {
        Some(t) => put_oauth(&mut v, "refreshToken", string_value(t.as_str())),
        None => {},
    }
    let ghost second = v;
    match token.expires_in {
        Some(s) => {
            let ms: i64 = now_ms + (s as i64) * 1000;
            put_oauth(&mut v, "expiresAt", integer_value(ms));
        },
        None => {},
    }
    proof {
        let m = json_members(doc)->0;
        let n = json_members(v)->0;
        assert forall|key: Seq<char>| key != "claudeAiOauth"@ implies #[trigger] same_member(
            m,
            n,
            key,
        ) by {
            assert(same_member(m, json_members(first)->0, key));
            assert(second == first || same_member(
                json_members(first)->0,
                json_members(second)->0,
                key,
            ));
            assert(v == second || same_member(json_members(second)->0, n, key));
        }
        assert(token_put_in(oauth_members(doc)->0, oauth_members(v)->0, token@, now_ms));
    }
    v
}

/// The refresh token in a document; a missing one counts as empty.
pub open spec fn stored_refresh_token(doc: serde_json::Value) -> Seq<char> {
    match string_at(doc, "claudeAiOauth"@, "refreshToken"@) {
        Some(t) => t,
        None => Seq::empty(),
    }
}

/// Whether a renewal that started from `old` is written back over the stored text `raw`: the text
/// is a document, and its refresh token is still the one that the renewal used up. Otherwise
/// another writer was faster.
pub open spec fn writes_back(raw: Seq<char>, old: CredentialsView) -> bool {
    match json_document(trimmed(raw)) {
        Some(doc) => stored_refresh_token(doc) == old.refresh_token,
        None => false,
    }
}

/// Whether `text` is what a renewal stores in place of the document `doc`: the text of the renewed
/// document. It is read back as that document where all its numbers are integers, and with the same
/// strings in its objects where it is read back at all.
pub open spec fn stored_text(
    doc: serde_json::Value,
    token: TokenResponseView,
    now_ms: i64,
    text: Seq<char>,
) -> bool {
    exists|new: serde_json::Value| #[trigger]
        renewed_document(doc, new, token, now_ms) && text == json_rendering(new) && (
        !json_fractional(doc) ==> json_document(trimmed(text)) == Some(new)) && (json_document(
            trimmed(text),
        ) matches Some(w) ==> forall|outer: Seq<char>, inner: Seq<char>| #[trigger]
            string_at(w, outer, inner) == string_at(new, outer, inner))
}

/// The text that a renewal stores over `raw`, or `None` where it must not write. Whoever reads the
/// credentials out of that text finds the fresh ones.
pub(crate) fn renewed_text(
    raw: &str,
    old_creds: &Credentials,
    token: &TokenResponse,
    now_ms: i64,
) -> (r: Option<String>)
    requires
        old_creds@.refresh_token.len() > 0,
        writes_back(raw@, old_creds@) ==> (token@.expires_in matches Some(s) ==> expiry_fits(
            now_ms,
            s,
        )),
    ensures
        match r {
            Some(t) => {
                &&& writes_back(raw@, old_creds@)
                &&& stored_text(json_document(trimmed(raw@))->0, token@, now_ms, t@)
                &&& json_document(trimmed(t@)) is Some ==> credentials_of_text(t@) == Ok::<
                    CredentialsView,
                    LimitsErrorView,
                >(fresh_of(old_creds@, token@))
            },
            None => !writes_back(raw@, old_creds@),
        },
{
    let doc = match parse_document(trim(raw)) {
        Some(v) => v,
        None => return None,
    };
    let unchanged = match string_in(&doc, "claudeAiOauth", "refreshToken") {
        Some(t) => same_text(t, old_creds.refresh_token.as_str()),
        None => false,
    };
    if !unchanged {
        return None;
    }
    let ghost before = doc;
    let new = renew_document(doc, token, now_ms);
    let text = render(&new);
    proof {
        assert(renewed_document(before, new, token@, now_ms));
        let a = string_at(new, "claudeAiOauth"@, "accessToken"@);
        let b = string_at(new, "claudeAiOauth"@, "refreshToken"@);
        assert(a == Some(token@.access_token));
        assert(b == Some(fresh_of(old_creds@, token@).refresh_token));
        if json_document(trimmed(text@)) is Some {
            let w = json_document(trimmed(text@))->0;
            assert(string_at(w, "claudeAiOauth"@, "accessToken"@) == a);
            assert(string_at(w, "claudeAiOauth"@, "refreshToken"@) == b);
        }
    }
    Some(text)
}

/// Something that happened outside while a query of the limits or a renewal was under way.
pub enum Event {
    /// The credential store was read, at the given time in milliseconds since the epoch.
    StoreRead { raw: Result<String, LimitsError>, now_ms: i64 },
    /// The usage endpoint was asked.
    Usage(Result<Limits, LimitsError>),
    /// The token endpoint was asked.
    Token(Result<TokenResponse, LimitsError>),
    /// The credential store was written, with success or not.
    Written,
}

pub ghost enum EventView {
    StoreRead { raw: Result<Seq<char>, LimitsErrorView>, now_ms: i64 },
    Usage(Result<LimitsView, LimitsErrorView>),
    Token(Result<TokenResponseView, LimitsErrorView>),
    Written,
}

/// What the usage endpoint gave, by its view.
pub open spec fn limits_view(r: Result<Limits, LimitsError>) -> Result<
    LimitsView,
    LimitsErrorView,
> {
    match r {
        Ok(l) => Ok(l@),
        Err(e) => Err(e@),
    }
}

/// What the token endpoint gave, by its view.
pub open spec fn token_view(r: Result<TokenResponse, LimitsError>) -> Result<
    TokenResponseView,
    LimitsErrorView,
> {
    match r {
        Ok(t) => Ok(t@),
        Err(e) => Err(e@),
    }
}

impl View for Event {
    type V = EventView;

    open spec fn view(&self) -> EventView {
        match self {
            Event::StoreRead { raw, now_ms } => EventView::StoreRead {
                raw: reading_view(*raw),
                now_ms: *now_ms,
            },
            Event::Usage(r) => EventView::Usage(limits_view(*r)),
            Event::Token(r) => EventView::Token(token_view(*r)),
            Event::Written => EventView::Written,
        }
    }
}

/// Something to be done outside; the event that tells of it is handed to the next step.
pub enum Action {
    ReadStore,
    FetchUsage { access_token: String },
    PostToken { refresh_token: String },
    /// Best effort: the outcome of the writing changes nothing.
    WriteStore { json: String },
}

/// An action by its view; the text to be written is described where the step is.
pub ghost enum ActionView {
    ReadStore,
    FetchUsage { access_token: Seq<char> },
    PostToken { refresh_token: Seq<char> },
    WriteStore,
}

impl View for Action {
    type V = ActionView;

    open spec fn view(&self) -> ActionView {
        match self {
            Action::ReadStore => ActionView::ReadStore,
            Action::FetchUsage { access_token } => ActionView::FetchUsage {
                access_token: access_token@,
            },
            Action::PostToken { refresh_token } => ActionView::PostToken {
                refresh_token: refresh_token@,
            },
            Action::WriteStore { .. } => ActionView::WriteStore,
        }
    }
}

/// Where a renewal stands.
pub enum RefreshFlow {
    /// The store is being read for the credentials to renew.
    Reading,
    /// The token endpoint is being asked.
    Posting { creds: Credentials },
    /// The store is being read again, to see whether someone else renewed meanwhile.
    Rereading { creds: Credentials, token: TokenResponse },
    /// The renewed document is being written.
    Writing { fresh: Credentials },
}

pub ghost enum RefreshFlowView {
    Reading,
    Posting { creds: CredentialsView },
    Rereading { creds: CredentialsView, token: TokenResponseView },
    Writing { fresh: CredentialsView },
}

impl View for RefreshFlow {
    type V = RefreshFlowView;

    open spec fn view(&self) -> RefreshFlowView {
        match self {
            RefreshFlow::Reading => RefreshFlowView::Reading,
            RefreshFlow::Posting { creds } => RefreshFlowView::Posting { creds: creds@ },
            RefreshFlow::Rereading { creds, token } => RefreshFlowView::Rereading {
                creds: creds@,
                token: token@,
            },
            RefreshFlow::Writing { fresh } => RefreshFlowView::Writing { fresh: fresh@ },
        }
    }
}

/// What a step of a renewal leads to: more to be done, or the result.
pub enum RefreshStep {
    Wait { flow: RefreshFlow, action: Action },
    Done(Result<Credentials, LimitsError>),
}

pub ghost enum RefreshStepView {
    Wait { flow: RefreshFlowView, action: ActionView },
    Done(Result<CredentialsView, LimitsErrorView>),
}

impl View for RefreshStep {
    type V = RefreshStepView;

    open spec fn view(&self) -> RefreshStepView {
        match self {
            RefreshStep::Wait { flow, action } => RefreshStepView::Wait {
                flow: flow@,
                action: action@,
            },
            RefreshStep::Done(r) => RefreshStepView::Done(credentials_view(*r)),
        }
    }
}

impl RefreshFlowView {
    /// Only a renewal with a refresh token gets past the first reading.
    pub open spec fn wf(self) -> bool {
        match self {
            RefreshFlowView::Reading => true,
            RefreshFlowView::Posting { creds } => creds.refresh_token.len() > 0,
            RefreshFlowView::Rereading { creds, token } => creds.refresh_token.len() > 0,
            RefreshFlowView::Writing { fresh } => true,
        }
    }

    /// Whether the event is the one that this stage waits for, and the expiry of the token, where
    /// it is to be written, can be computed.
    pub open spec fn accepts(self, event: EventView) -> bool {
        match (self, event) {
            (RefreshFlowView::Reading, EventView::StoreRead { .. }) => true,
            (RefreshFlowView::Posting { .. }, EventView::Token(_)) => true,
            (
                RefreshFlowView::Rereading { creds, token },
                EventView::StoreRead { raw, now_ms },
            ) => match raw {
                Ok(text) => writes_back(text, creds) ==> (token.expires_in matches Some(s)
                    ==> expiry_fits(now_ms, s)),
                Err(_) => true,
            },
            (RefreshFlowView::Writing { .. }, EventView::Written) => true,
            _ => false,
        }
    }

    /// What an accepted event leads to.
    pub open spec fn next(self, event: EventView) -> RefreshStepView {
        match (self, event) {
            (
                RefreshFlowView::Reading,
                EventView::StoreRead { raw, .. },
            ) => match credentials_of_reading(raw) {
                Ok(creds) => if creds.refresh_token.len() == 0 {
                    RefreshStepView::Done(Err(LimitsErrorView::NoRefreshToken))
                } else {
                    RefreshStepView::Wait {
                        flow: RefreshFlowView::Posting { creds },
                        action: ActionView::PostToken { refresh_token: creds.refresh_token },
                    }
                },
                Err(e) => RefreshStepView::Done(Err(e)),
            },
            (RefreshFlowView::Posting { creds }, EventView::Token(reply)) => match reply {
                Ok(token) => RefreshStepView::Wait {
                    flow: RefreshFlowView::Rereading { creds, token },
                    action: ActionView::ReadStore,
                },
                Err(e) => RefreshStepView::Done(Err(e)),
            },
            (
                RefreshFlowView::Rereading { creds, token },
                EventView::StoreRead { raw, .. },
            ) => match raw {
                Ok(text) => if writes_back(text, creds) {
                    RefreshStepView::Wait {
                        flow: RefreshFlowView::Writing { fresh: fresh_of(creds, token) },
                        action: ActionView::WriteStore,
                    }
                } else {
                    RefreshStepView::Done(Ok(fresh_of(creds, token)))
                },
                Err(_) => RefreshStepView::Done(Ok(fresh_of(creds, token))),
            },
            (RefreshFlowView::Writing { fresh }, _) => RefreshStepView::Done(Ok(fresh)),
            _ => RefreshStepView::Done(Err(LimitsErrorView::NoCredentials)),
        }
    }

    /// Whether `json` is what may be written when the event comes at this stage.
    pub open spec fn writes(self, event: EventView, json: Seq<char>) -> bool {
        match (self, event) {
            (
                RefreshFlowView::Rereading { creds, token },
                EventView::StoreRead { raw: Ok(text), now_ms },
            ) => {
                &&& writes_back(text, creds)
                &&& stored_text(json_document(trimmed(text))->0, token, now_ms, json)
                &&& json_document(trimmed(json)) is Some ==> credentials_of_text(json) == Ok::<
                    CredentialsView,
                    LimitsErrorView,
                >(fresh_of(creds, token))
            },
            _ => false,
        }
    }
}

/// Begins a renewal of the stored credentials: the store is to be read.
pub fn refresh_credentials() -> (r: (RefreshFlow, Action))
    ensures
        r.0@ == RefreshFlowView::Reading,
        r.0@.wf(),
        r.1@ == ActionView::ReadStore,
{
    (RefreshFlow::Reading, Action::ReadStore)
}

impl RefreshFlow {
    /// Whether the event is the one that this stage waits for, and the expiry of the token, where
    /// it is to be written, can be computed.
    pub fn accepts(&self, event: &Event) -> (r: bool)
        ensures
            r == self@.accepts(event@),
    {
        match (self, event) {
            (RefreshFlow::Reading, Event::StoreRead { .. }) => true,
            (RefreshFlow::Posting { .. }, Event::Token(_)) => true,
            (RefreshFlow::Rereading { creds, token }, Event::StoreRead { raw, now_ms }) => {
                match (raw, token.expires_in) {
                    (Ok(text), Some(s)) => expiry_in_range(*now_ms, s) || !would_write(
                        text.as_str(),
                        creds,
                    ),
                    _ => true,
                }
            },
            (RefreshFlow::Writing { .. }, Event::Written) => true,
            _ => false,
        }
    }

    /// Takes the step that an accepted event leads to.
    ///
    /// A renewal without a refresh token fails before anything is posted. Once the token endpoint
    /// has answered with a token, the renewal ends with the fresh credentials, whether the store
    /// could be read again, was changed by someone else, or could be written.
    pub fn step(self, event: Event) -> (r: RefreshStep)
        requires
            self@.wf(),
            self@.accepts(event@),
        ensures
            r@ == self@.next(event@),
            r matches RefreshStep::Wait { flow, action } ==> flow@.wf() && (
            action matches Action::WriteStore { json } ==> self@.writes(event@, json@)),
    {
        match (self, event) {
            (RefreshFlow::Reading, Event::StoreRead { raw, .. }) => match read_credentials(raw) {
                Ok(creds) => {
                    if creds.refresh_token.as_str().is_empty() {
                        RefreshStep::Done(Err(LimitsError::NoRefreshToken))
                    } else {
                        let refresh_token = creds.refresh_token.clone();
                        RefreshStep::Wait {
                            flow: RefreshFlow::Posting { creds },
                            action: Action::PostToken { refresh_token },
                        }
                    }
                },
                Err(e) => RefreshStep::Done(Err(e)),
            },
            (RefreshFlow::Posting { creds }, Event::Token(reply)) => match reply {
                Ok(token) => RefreshStep::Wait {
                    flow: RefreshFlow::Rereading { creds, token },
                    action: Action::ReadStore,
                },
                Err(e) => RefreshStep::Done(Err(e)),
            },
            (RefreshFlow::Rereading { creds, token }, Event::StoreRead { raw, now_ms }) => {
                let fresh = fresh_credentials(&creds, &token);
                match raw {
                    Ok(text) => match renewed_text(text.as_str(), &creds, &token, now_ms) {
                        Some(json) => RefreshStep::Wait {
                            flow: RefreshFlow::Writing { fresh },
                            action: Action::WriteStore { json },
                        },
                        None => RefreshStep::Done(Ok(fresh)),
                    },
                    Err(_) => RefreshStep::Done(Ok(fresh)),
                }
            },
            (RefreshFlow::Writing { fresh }, _) => RefreshStep::Done(Ok(fresh)),
            _ => RefreshStep::Done(Err(LimitsError::NoCredentials)),
        }
    }

    /// Takes the step that an event leads to, or gives `None` where the event is not accepted.
    pub fn try_step(self, event: Event) -> (r: Option<RefreshStep>)
        requires
            self@.wf(),
        ensures
            match r {
                Some(s) => self@.accepts(event@) && s@ == self@.next(event@) && (
                s matches RefreshStep::Wait { flow, action } ==> flow@.wf() && (
                action matches Action::WriteStore { json } ==> self@.writes(event@, json@))),
                None => !self@.accepts(event@),
            },
    {
        if self.accepts(&event) {
            Some(self.step(event))
        } else {
            None
        }
    }
}

/// Whether a renewal that started from `creds` is written back over the stored text `raw`.
fn would_write(raw: &str, creds: &Credentials) -> (r: bool)
    ensures
        r == writes_back(raw@, creds@),
{
    match parse_document(trim(raw)) {
        Some(doc) => match string_in(&doc, "claudeAiOauth", "refreshToken") {
            Some(t) => same_text(t, creds.refresh_token.as_str()),
            None => {
                assert(creds@.refresh_token.len() == 0 ==> creds@.refresh_token =~= Seq::empty());
                creds.refresh_token.as_str().is_empty()
            },
        },
        None => false,
    }
}

/// A renewal posts nothing without a refresh token, and with one it posts that token and no other.
pub proof fn law_posts_the_stored_token(raw: Result<Seq<char>, LimitsErrorView>, now_ms: i64)
    ensures
        RefreshFlowView::Reading.next(EventView::StoreRead { raw, now_ms }) matches
            RefreshStepView::Wait { action, .. } ==> (credentials_of_reading(raw) matches Ok(c)
            && c.refresh_token.len() > 0 && action == (ActionView::PostToken {
            refresh_token: c.refresh_token,
        })),
{
}

/// Once the token endpoint has given a token, the renewal ends with the fresh credentials: whether
/// the store can be read again or not, whether it is written or not, and whatever comes of the
/// writing.
pub proof fn law_fresh_whatever_the_store(
    creds: CredentialsView,
    token: TokenResponseView,
    event: EventView,
)
    requires
        (RefreshFlowView::Rereading { creds, token }).accepts(event),
    ensures
        match (RefreshFlowView::Rereading { creds, token }).next(event) {
            RefreshStepView::Done(r) => r == Ok::<CredentialsView, LimitsErrorView>(
                fresh_of(creds, token),
            ),
            RefreshStepView::Wait { flow, action } => action is WriteStore && flow.next(
                EventView::Written,
            ) == RefreshStepView::Done(Ok(fresh_of(creds, token))),
        },
{
}

/// A renewal never overwrites the work of another writer: where the stored refresh token is no
/// longer the one that was used up, nothing is written.
pub proof fn law_never_clobbers(
    creds: CredentialsView,
    token: TokenResponseView,
    raw: Seq<char>,
    now_ms: i64,
)
    requires
        json_document(trimmed(raw)) matches Some(doc) ==> stored_refresh_token(doc)
            != creds.refresh_token,
    ensures
        (RefreshFlowView::Rereading { creds, token }).next(
            EventView::StoreRead { raw: Ok(raw), now_ms },
        ) == RefreshStepView::Done(Ok(fresh_of(creds, token))),
        forall|json: Seq<char>|
            !#[trigger] (RefreshFlowView::Rereading { creds, token }).writes(
                EventView::StoreRead { raw: Ok(raw), now_ms },
                json,
            ),
{
}

/// What a renewal writes is what the next reading gives back: the fresh credentials. The text can
/// be read where the numbers of the document were integers.
pub proof fn law_read_gives_back_the_write(
    creds: CredentialsView,
    token: TokenResponseView,
    raw: Seq<char>,
    now_ms: i64,
    json: Seq<char>,
)
    requires
        (RefreshFlowView::Rereading { creds, token }).writes(
            EventView::StoreRead { raw: Ok(raw), now_ms },
            json,
        ),
    ensures
        !json_fractional(json_document(trimmed(raw))->0) ==> json_document(trimmed(json)) is Some,
        json_document(trimmed(json)) is Some ==> credentials_of_reading(Ok(json)) == Ok::<
            CredentialsView,
            LimitsErrorView,
        >(fresh_of(creds, token)),
{
}

/// The fields that a renewal does not set survive it, beside the credentials and among them.
pub proof fn law_other_fields_survive(
    doc: serde_json::Value,
    token: TokenResponseView,
    now_ms: i64,
    text: Seq<char>,
    key: Seq<char>,
)
    requires
        stored_text(doc, token, now_ms, text),
        !json_fractional(doc),
    ensures
        json_document(trimmed(text)) matches Some(new) && {
            &&& key != "claudeAiOauth"@ ==> member_of(new, key) == member_of(doc, key)
            &&& key != "accessToken"@ && key != "refreshToken"@ && key != "expiresAt"@ ==> member_of(
                member_of(new, "claudeAiOauth"@)->0,
                key,
            ) == member_of(member_of(doc, "claudeAiOauth"@)->0, key)
        },
{
    let new = choose|new: serde_json::Value| #[trigger]
        renewed_document(doc, new, token, now_ms) && text == json_rendering(new) && (
        !json_fractional(doc) ==> json_document(trimmed(text)) == Some(new)) && (json_document(
            trimmed(text),
        ) matches Some(w) ==> forall|outer: Seq<char>, inner: Seq<char>| #[trigger]
            string_at(w, outer, inner) == string_at(new, outer, inner));
    assert(key != "claudeAiOauth"@ ==> same_member(
        json_members(doc)->0,
        json_members(new)->0,
        key,
    ));
    assert(key != "accessToken"@ && key != "refreshToken"@ && key != "expiresAt"@ ==> same_member(
        oauth_members(doc)->0,
        oauth_members(new)->0,
        key,
    ));
}

/// A lifetime is counted from now on, a second as a thousand milliseconds: no lifetime at all ends
/// now, and `more` seconds of life end that much later, whatever was granted before them.
pub proof fn law_every_second_counts(now_ms: i64, granted: u64, more: u64)
    requires
        granted + more <= i64::MAX,
    ensures
        expiry(now_ms, 0) == now_ms,
        expiry(now_ms, (granted + more) as u64) - expiry(now_ms, granted) == 1000 * more,
        expiry_fits(now_ms, granted) <==> 1000 * granted <= i64::MAX && now_ms + 1000 * granted
            <= i64::MAX,
{
}

/// What a renewal stores says when the token expires: the stored moment lies a thousand times the
/// granted seconds of life after now. It says so for every lifetime that fits, and without a granted
/// lifetime the stored moment is the one that stood there before.
pub proof fn law_stored_expiry_is_the_granted_life(
    doc: serde_json::Value,
    token: TokenResponseView,
    now_ms: i64,
    text: Seq<char>,
)
    requires
        stored_text(doc, token, now_ms, text),
        !json_fractional(doc),
    ensures
        json_document(trimmed(text)) matches Some(new) && {
            let before = json_members(json_members(doc)->0["claudeAiOauth"@])->0;
            let after = json_members(json_members(new)->0["claudeAiOauth"@])->0;
            match token.expires_in {
                Some(s) => s <= i64::MAX && 1000 * s <= i64::MAX && now_ms + 1000 * s <= i64::MAX
                    ==> after.dom().contains("expiresAt"@) && (json_integer(
                    after["expiresAt"@],
                ) matches Some(ms) && ms - now_ms == 1000 * s),
                None => after.dom().contains("expiresAt"@) == before.dom().contains("expiresAt"@)
                    && (before.dom().contains("expiresAt"@) ==> after["expiresAt"@]
                    == before["expiresAt"@]),
            }
        },
{
    let _ = lemma_stored(doc, token, now_ms, text);
}

/// What a renewal stores holds the tokens that were given: the access token, and the refresh token
/// where a new one came with it. Without one the refresh token that stood there stays.
pub proof fn law_stored_tokens_are_the_given_ones(
    doc: serde_json::Value,
    token: TokenResponseView,
    now_ms: i64,
    text: Seq<char>,
)
    requires
        stored_text(doc, token, now_ms, text),
        !json_fractional(doc),
    ensures
        json_document(trimmed(text)) matches Some(new) && {
            let before = json_members(json_members(doc)->0["claudeAiOauth"@])->0;
            let after = json_members(json_members(new)->0["claudeAiOauth"@])->0;
            &&& after.dom().contains("accessToken"@)
            &&& json_string(after["accessToken"@]) == Some(token.access_token)
            &&& match token.refresh_token {
                Some(t) => after.dom().contains("refreshToken"@) && json_string(
                    after["refreshToken"@],
                ) == Some(t),
                None => after.dom().contains("refreshToken"@) == before.dom().contains(
                    "refreshToken"@,
                ) && (before.dom().contains("refreshToken"@) ==> after["refreshToken"@]
                    == before["refreshToken"@]),
            }
        },
{
    let _ = lemma_stored(doc, token, now_ms, text);
}

/// The document that a stored text is read back as.
proof fn lemma_stored(
    doc: serde_json::Value,
    token: TokenResponseView,
    now_ms: i64,
    text: Seq<char>,
) -> (new: serde_json::Value)
    requires
        stored_text(doc, token, now_ms, text),
        !json_fractional(doc),
    ensures
        json_document(trimmed(text)) == Some(new),
        renewed_document(doc, new, token, now_ms),
{
    choose|new: serde_json::Value| #[trigger]
        renewed_document(doc, new, token, now_ms) && text == json_rendering(new) && (
        !json_fractional(doc) ==> json_document(trimmed(text)) == Some(new)) && (json_document(
            trimmed(text),
        ) matches Some(w) ==> forall|outer: Seq<char>, inner: Seq<char>| #[trigger]
            string_at(w, outer, inner) == string_at(new, outer, inner))
}

/// Once the token endpoint has given a token, the renewal ends with the access token that it gave. The
/// refresh token is the given one, and the one that was used where none was given.
pub proof fn law_renewal_ends_with_the_given_tokens(
    creds: CredentialsView,
    token: TokenResponseView,
    event: EventView,
)
    ensures
        (RefreshFlowView::Rereading { creds, token }).accepts(event) ==> match (
        RefreshFlowView::Rereading { creds, token }).next(event) {
            RefreshStepView::Done(r) => r matches Ok(c) && c.access_token == token.access_token && (
            match token.refresh_token {
                Some(t) => c.refresh_token == t,
                None => c.refresh_token == creds.refresh_token,
            }),
            RefreshStepView::Wait { flow, .. } => flow matches RefreshFlowView::Writing { fresh: c }
                && c.access_token == token.access_token && (match token.refresh_token {
                Some(t) => c.refresh_token == t,
                None => c.refresh_token == creds.refresh_token,
            }),
        },
        (RefreshFlowView::Writing { fresh: creds }).next(EventView::Written)
            == RefreshStepView::Done(Ok(creds)),
{
}

/// A failure before the token has come, of the first reading or of the token endpoint, ends a renewal with
/// that failure. A token leads to the second reading of the store.
pub proof fn law_failure_before_the_token_ends_the_renewal(
    creds: CredentialsView,
    token: TokenResponseView,
    error: LimitsErrorView,
    now_ms: i64,
)
    ensures
        RefreshFlowView::Reading.next(EventView::StoreRead { raw: Err(error), now_ms })
            == RefreshStepView::Done(Err(error)),
        (RefreshFlowView::Posting { creds }).next(EventView::Token(Err(error)))
            == RefreshStepView::Done(Err(error)),
        (RefreshFlowView::Posting { creds }).next(EventView::Token(Ok(token))) == (
        RefreshStepView::Wait {
            flow: RefreshFlowView::Rereading { creds, token },
            action: ActionView::ReadStore,
        }),
{
}

/// What the first reading of the store leads to, in terms of the document that was read: the refresh
/// token in it is posted; a document with an access token and no refresh token, or an empty one, ends
/// the renewal for want of one; and whatever has no access token holds no credentials.
pub proof fn law_first_reading_decides(raw: Seq<char>, now_ms: i64)
    ensures
        ({
            let step = RefreshFlowView::Reading.next(EventView::StoreRead { raw: Ok(raw), now_ms });
            let doc = json_document(trimmed(raw));
            let access = string_at(doc->0, "claudeAiOauth"@, "accessToken"@);
            let refresh = string_at(doc->0, "claudeAiOauth"@, "refreshToken"@);
            if doc is None || access is None {
                step == RefreshStepView::Done(Err(LimitsErrorView::NoCredentials))
            } else if refresh is None || refresh->0.len() == 0 {
                step == RefreshStepView::Done(Err(LimitsErrorView::NoRefreshToken))
            } else {
                step == (RefreshStepView::Wait {
                    flow: RefreshFlowView::Posting {
                        creds: CredentialsView { access_token: access->0, refresh_token: refresh->0 },
                    },
                    action: ActionView::PostToken { refresh_token: refresh->0 },
                })
            }
        }),
{
}

/// The store is written back exactly where the second reading gives a document whose refresh token is
/// the one that the renewal used up.
pub proof fn law_written_back_exactly_where_unchanged(
    creds: CredentialsView,
    token: TokenResponseView,
    raw: Result<Seq<char>, LimitsErrorView>,
    now_ms: i64,
)
    requires
        creds.refresh_token.len() > 0,
    ensures
        (RefreshFlowView::Rereading { creds, token }).next(
            EventView::StoreRead { raw, now_ms },
        ) is Wait <==> (raw matches Ok(text) && json_document(trimmed(text)) matches Some(doc)
            && string_at(doc, "claudeAiOauth"@, "refreshToken"@) == Some(creds.refresh_token)),
        (RefreshFlowView::Rereading { creds, token }).next(
            EventView::StoreRead { raw, now_ms },
        ) matches RefreshStepView::Wait { action, .. } ==> action is WriteStore,
{
}

/// The stages take the events that they wait for and no others; only a lifetime that cannot be
/// computed, of a token that would be written, is turned away as well.
pub proof fn law_stages_take_their_events(
    creds: CredentialsView,
    token: TokenResponseView,
    event: EventView,
)
    requires
        creds.refresh_token.len() > 0,
    ensures
        RefreshFlowView::Reading.accepts(event) <==> event is StoreRead,
        (RefreshFlowView::Posting { creds }).accepts(event) <==> event is Token,
        (RefreshFlowView::Writing { fresh: creds }).accepts(event) <==> event is Written,
        (RefreshFlowView::Rereading { creds, token }).accepts(event) ==> event is StoreRead,
        event is StoreRead && (token.expires_in matches Some(s) ==> 1000 * s <= i64::MAX
            && event->now_ms + 1000 * s <= i64::MAX) ==> (RefreshFlowView::Rereading {
            creds,
            token,
        }).accepts(event),
        (RefreshFlowView::Rereading { creds, token }).next(event) is Done && event is StoreRead ==> (
        RefreshFlowView::Rereading { creds, token }).accepts(event),
{
}

/// What a renewal stores is the text of the renewed document and nothing besides.
pub proof fn law_stored_text_is_the_document(
    doc: serde_json::Value,
    token: TokenResponseView,
    now_ms: i64,
    text: Seq<char>,
)
    requires
        stored_text(doc, token, now_ms, text),
    ensures
        exists|new: serde_json::Value| #[trigger]
            renewed_document(doc, new, token, now_ms) && text == json_rendering(new),
        !json_fractional(doc) ==> json_document(trimmed(text)) is Some && text == json_rendering(
            json_document(trimmed(text))->0,
        ),
{
}

/// A token is seen as it is, field by field.
pub proof fn law_tokens_are_seen_as_they_are(t: TokenResponse)
    ensures
        t@.access_token == t.access_token@,
        match t.refresh_token {
            Some(r) => t@.refresh_token == Some(r@),
            None => t@.refresh_token is None,
        },
        t@.expires_in == t.expires_in,
{
}

/// Events and actions are seen as they are, each as its own kind and with what it carries.
pub proof fn law_events_are_seen_as_they_are(event: Event, action: Action)
    ensures
        match event {
            Event::StoreRead { raw, now_ms } => event@ == (EventView::StoreRead {
                raw: reading_view(raw),
                now_ms,
            }),
            Event::Usage(Ok(l)) => event@ == EventView::Usage(Ok(l@)),
            Event::Usage(Err(e)) => event@ == EventView::Usage(Err(e@)),
            Event::Token(Ok(t)) => event@ == EventView::Token(Ok(t@)),
            Event::Token(Err(e)) => event@ == EventView::Token(Err(e@)),
            Event::Written => event@ == EventView::Written,
        },
        match action {
            Action::ReadStore => action@ == ActionView::ReadStore,
            Action::FetchUsage { access_token } => action@ == (ActionView::FetchUsage {
                access_token: access_token@,
            }),
            Action::PostToken { refresh_token } => action@ == (ActionView::PostToken {
                refresh_token: refresh_token@,
            }),
            Action::WriteStore { .. } => action@ == ActionView::WriteStore,
        },
{
}

/// A lifetime of more seconds than a signed number holds counts as the negative number with the same
/// bits.
pub proof fn law_long_lives_wrap(now_ms: i64, granted: u64)
    requires
        granted > i64::MAX,
    ensures
        expiry(now_ms, granted) - now_ms == 1000 * (granted - 0x1_0000_0000_0000_0000),
{
    assert(granted > 0x7fff_ffff_ffff_ffffu64 ==> (granted as i64) + ((!granted) as i64) == -1)
        by (bit_vector);
    assert(!granted == 0xffff_ffff_ffff_ffffu64 - granted) by (bit_vector);
}

} // verus!
