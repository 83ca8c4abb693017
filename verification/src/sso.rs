//! Single sign-on over HTTP: starting the redirect, completing the callback,
//! and linking or creating the account of an identity.
//!
//! The steps that reach the session store, the tables or the provider are
//! performed by the caller, who hands back how they went.
use vstd::prelude::*;
use vstd::string::*;

use crate::federated_users::MappingKey;
use crate::json;
use crate::oidc::{OidcClaims, OidcLoginState};
use crate::oidc_storage;
use crate::oidc_storage::{OidcProvider, ProviderView};
use crate::sso_pages;
use crate::text;

verus! {

/// Session key of the transient login state.
pub const SSO_STATE_KEY: &'static str = "oidc_login_state";

/// Session key of the identity that awaits a decision.
pub const PENDING_KEY: &'static str = "oidc_pending";

/// An error answer: a status and what is told to the user.
#[derive(Debug)]
pub struct HandlerError {
    pub status: u16,
    pub message: String,
}

/// The data in a [`HandlerError`].
pub struct HandlerErrorView {
    pub status: u16,
    pub message: Seq<char>,
}

impl View for HandlerError {
    type V = HandlerErrorView;

    open spec fn view(&self) -> HandlerErrorView {
        HandlerErrorView { status: self.status, message: self.message@ }
    }
}

fn refuse(status: u16, message: &str) -> (r: HandlerError)
    ensures
        r@ == (HandlerErrorView { status, message: message@ }),
{
    HandlerError { status, message: message.to_owned() }
}

/// Why a request is refused. What went wrong inside is not told.
#[derive(Debug, Clone, Copy, PartialEq, Eq, Structural)]
pub enum SsoRefusal {
    Internal,
    /// There is no enabled provider with the slug.
    UnknownProvider,
    /// The provider could not be asked.
    CannotStart,
    /// No login is in progress in the session.
    NoLogin,
    /// The provider was removed during the login.
    ProviderGone,
    /// The identity could not be validated.
    NotValidated,
    /// Accounts are not created by themselves.
    CreationDisabled,
    /// The name or the password is missing.
    CredentialsMissing,
    /// The user is unknown or the password wrong: the answer is the same.
    BadCredentials,
}

/// The answer to a refused request.
pub open spec fn answer_to(refusal: SsoRefusal, slug: Seq<char>) -> HandlerErrorView {
    match refusal {
        SsoRefusal::Internal => HandlerErrorView { status: 500, message: "internal error"@ },
        SsoRefusal::UnknownProvider => HandlerErrorView {
            status: 404,
            message: "unknown or disabled SSO provider: "@ + slug,
        },
        SsoRefusal::CannotStart => HandlerErrorView {
            status: 502,
            message: "could not start SSO with that provider"@,
        },
        SsoRefusal::NoLogin => HandlerErrorView {
            status: 400,
            message: "no SSO login in progress (session expired?) — start again"@,
        },
        SsoRefusal::ProviderGone => HandlerErrorView {
            status: 400,
            message: "SSO provider no longer exists"@,
        },
        SsoRefusal::NotValidated => HandlerErrorView {
            status: 401,
            message: "SSO validation failed"@,
        },
        SsoRefusal::CreationDisabled => HandlerErrorView {
            status: 403,
            message: "account creation is disabled"@,
        },
        SsoRefusal::CredentialsMissing => HandlerErrorView {
            status: 400,
            message: "username and password are required"@,
        },
        SsoRefusal::BadCredentials => HandlerErrorView {
            status: 401,
            message: "invalid username or password"@,
        },
    }
}

/// The answer to a refused request; a login names its provider by the slug.
pub fn refusal_answer(refusal: SsoRefusal, slug: &str) -> (r: HandlerError)
    ensures
        r@ == answer_to(refusal, slug@),
{
    match refusal {
        SsoRefusal::Internal => refuse(500, "internal error"),
        SsoRefusal::UnknownProvider => HandlerError {
            status: 404,
            message: "unknown or disabled SSO provider: ".to_owned().concat(slug),
        },
        SsoRefusal::CannotStart => refuse(502, "could not start SSO with that provider"),
        SsoRefusal::NoLogin => refuse(
            400,
            "no SSO login in progress (session expired?) — start again",
        ),
        SsoRefusal::ProviderGone => refuse(400, "SSO provider no longer exists"),
        SsoRefusal::NotValidated => refuse(401, "SSO validation failed"),
        SsoRefusal::CreationDisabled => refuse(403, "account creation is disabled"),
        SsoRefusal::CredentialsMissing => refuse(400, "username and password are required"),
        SsoRefusal::BadCredentials => refuse(401, "invalid username or password"),
    }
}

/// The text, or a default.
pub open spec fn text_or(s: Option<Seq<char>>, default: Seq<char>) -> Seq<char> {
    match s {
        Some(t) => t,
        None => default,
    }
}

/// The characters of an optional string slice.
pub open spec fn opt_str(s: Option<&str>) -> Option<Seq<char>> {
    match s {
        Some(t) => Some(t@),
        None => None,
    }
}

/// The `redirect_uri`, derived from the headers that the browser sent and the
/// configured prefix: it must match what is registered with the provider.
pub fn build_redirect_uri(
    host: Option<&str>,
    forwarded_proto: Option<&str>,
    url_prefix: Option<&str>,
) -> (r: String)
    ensures
        r@ == text_or(opt_str(forwarded_proto), "http"@) + "://"@ + text_or(
            opt_str(host),
            "localhost:3000"@,
        ) + (match url_prefix {
            Some(p) => "/"@ + p@,
            None => ""@,
        }) + "/sso/callback"@,
{
    let host = match host {
        Some(h) => h,
        None => "localhost:3000",
    };
    let scheme = match forwarded_proto {
        Some(p) => p,
        None => "http",
    };
    let prefix = match url_prefix {
        Some(p) => "/".to_owned().concat(p),
        None => "".to_owned(),
    };
    scheme.to_owned().concat("://").concat(host).concat(prefix.as_str()).concat("/sso/callback")
}

/// Where a login that is being started stands: what is to be done next, with
/// what it takes.
#[derive(Debug)]
pub enum LoginStage {
    /// Look up the provider with the slug.
    LoadProvider { slug: String, redirect_uri: String },
    /// Decrypt the provider's client secret.
    DecryptSecret { provider: OidcProvider, redirect_uri: String },
    /// Build the authorize address and the transient login state.
    BeginLogin { provider: OidcProvider, redirect_uri: String },
    /// Put the login state into the session.
    StashState { address: String, login: OidcLoginState },
    /// Send the browser to the address.
    Redirect { address: String },
    Refuse(SsoRefusal),
}

/// What a step of starting a login gave.
#[derive(Debug)]
pub enum LoginReply {
    Provider(OidcProvider),
    Begun { address: String, login: OidcLoginState },
    /// It worked.
    Done,
    /// What was asked for is not there.
    Absent,
    /// It failed.
    Failed,
}

/// Where a reply leads when a login is started. A provider that is not enabled
/// counts as none.
pub open spec fn login_next(stage: LoginStage, reply: LoginReply) -> LoginStage {
    match (stage, reply) {
        (
            LoginStage::LoadProvider { redirect_uri, .. },
            LoginReply::Provider(provider),
        ) => if provider.enabled {
            LoginStage::DecryptSecret { provider, redirect_uri }
        } else {
            LoginStage::Refuse(SsoRefusal::UnknownProvider)
        },
        (LoginStage::LoadProvider { .. }, LoginReply::Absent) => LoginStage::Refuse(
            SsoRefusal::UnknownProvider,
        ),
        (LoginStage::DecryptSecret { provider, redirect_uri }, LoginReply::Done) => {
            LoginStage::BeginLogin { provider, redirect_uri }
        },
        (LoginStage::BeginLogin { .. }, LoginReply::Begun { address, login }) => {
            LoginStage::StashState { address, login }
        },
        (LoginStage::BeginLogin { .. }, _) => LoginStage::Refuse(SsoRefusal::CannotStart),
        (LoginStage::StashState { address, .. }, LoginReply::Done) => LoginStage::Redirect {
            address,
        },
        (LoginStage::Redirect { address }, _) => LoginStage::Redirect { address },
        (LoginStage::Refuse(e), _) => LoginStage::Refuse(e),
        _ => LoginStage::Refuse(SsoRefusal::Internal),
    }
}

/// Decides where a reply leads when a login is started, from
/// [`LoginStage::LoadProvider`] on.
pub fn handle_sso_login(stage: LoginStage, reply: LoginReply) -> (r: LoginStage)
    ensures
        r == login_next(stage, reply),
{
    match (stage, reply) {
        (
            LoginStage::LoadProvider { redirect_uri, .. },
            LoginReply::Provider(provider),
        ) => if provider.enabled {
            LoginStage::DecryptSecret { provider, redirect_uri }
        } else {
            LoginStage::Refuse(SsoRefusal::UnknownProvider)
        },
        (LoginStage::LoadProvider { .. }, LoginReply::Absent) => LoginStage::Refuse(
            SsoRefusal::UnknownProvider,
        ),
        (LoginStage::DecryptSecret { provider, redirect_uri }, LoginReply::Done) => {
            LoginStage::BeginLogin { provider, redirect_uri }
        },
        (LoginStage::BeginLogin { .. }, LoginReply::Begun { address, login }) => {
            LoginStage::StashState { address, login }
        },
        (LoginStage::BeginLogin { .. }, _) => LoginStage::Refuse(SsoRefusal::CannotStart),
        (LoginStage::StashState { address, .. }, LoginReply::Done) => LoginStage::Redirect {
            address,
        },
        (LoginStage::Redirect { address }, _) => LoginStage::Redirect { address },
        (LoginStage::Refuse(e), _) => LoginStage::Refuse(e),
        _ => LoginStage::Refuse(SsoRefusal::Internal),
    }
}

/// Where the replies lead when a login is started.
pub open spec fn login_after(
    slug: String,
    redirect_uri: String,
    replies: Seq<LoginReply>,
) -> LoginStage
    decreases replies.len(),
{
    if replies.len() == 0 {
        LoginStage::LoadProvider { slug, redirect_uri }
    } else {
        login_next(login_after(slug, redirect_uri, replies.drop_last()), replies.last())
    }
}

/// What a stage of starting a login tells of the replies that led to it.
spec fn login_history(
    slug: String,
    redirect_uri: String,
    replies: Seq<LoginReply>,
    stage: LoginStage,
) -> bool {
    match stage {
        LoginStage::LoadProvider { slug: s, redirect_uri: r } => replies.len() == 0 && s == slug
            && r == redirect_uri,
        LoginStage::DecryptSecret { provider, redirect_uri: r } => replies.len() == 1
            && provider.enabled && r == redirect_uri && replies[0] == LoginReply::Provider(
            provider,
        ),
        LoginStage::BeginLogin { provider, redirect_uri: r } => replies.len() == 2
            && provider.enabled && r == redirect_uri && replies[0] == LoginReply::Provider(
            provider,
        ),
        LoginStage::StashState { address, login } => replies.len() == 3 && (
        replies[0] matches LoginReply::Provider(p) && p.enabled) && replies[2]
            == (LoginReply::Begun { address, login }),
        LoginStage::Redirect { address } => replies.len() > 3 && (
        replies[0] matches LoginReply::Provider(p) && p.enabled) && (
        replies[2] matches LoginReply::Begun { address: built, .. } && built == address)
            && replies[3] == LoginReply::Done,
        LoginStage::Refuse(_) => true,
    }
}

proof fn login_stage_is_explained(slug: String, redirect_uri: String, replies: Seq<LoginReply>)
    ensures
        login_history(slug, redirect_uri, replies, login_after(slug, redirect_uri, replies)),
    decreases replies.len(),
{
    if replies.len() > 0 {
        let before = replies.drop_last();
        login_stage_is_explained(slug, redirect_uri, before);
        assert(forall|i: int| 0 <= i < before.len() ==> before[i] == replies[i]);
    }
}

/// The browser is sent to a provider only if that one is enabled and the login
/// state is kept in the session. The address is the one that was built with
/// that state, for that provider and the redirect address of the request.
pub proof fn redirects_leave_a_login_behind(
    slug: String,
    redirect_uri: String,
    replies: Seq<LoginReply>,
    address: String,
)
    requires
        login_after(slug, redirect_uri, replies) == (LoginStage::Redirect { address }),
    ensures
        replies.len() > 3,
        replies[0] matches LoginReply::Provider(provider) && provider.enabled && login_after(
            slug,
            redirect_uri,
            replies.take(2),
        ) == (LoginStage::BeginLogin { provider, redirect_uri }),
        replies[2] matches LoginReply::Begun { address: built, login } && built == address
            && login_after(slug, redirect_uri, replies.take(3)) == (LoginStage::StashState {
            address,
            login,
        }),
        replies[3] == LoginReply::Done,
    decreases replies.len(),
{
    login_stage_is_explained(slug, redirect_uri, replies);
    let before = replies.drop_last();
    if replies.len() > 4 {
        login_stage_is_explained(slug, redirect_uri, before);
        assert(login_after(slug, redirect_uri, before) == (LoginStage::Redirect { address }));
        redirects_leave_a_login_behind(slug, redirect_uri, before, address);
        assert(before.take(3) =~= replies.take(3));
        assert(before.take(2) =~= replies.take(2));
    } else {
        assert(before =~= replies.take(3));
        login_stage_is_explained(slug, redirect_uri, before);
        assert(before[2] == replies[2]);
        assert(before.drop_last() =~= replies.take(2));
        login_stage_is_explained(slug, redirect_uri, replies.take(2));
        assert(replies.take(2)[0] == replies[0]);
    }
}

/// The query of the callback.
#[derive(Debug)]
pub struct CallbackQuery {
    pub code: Option<String>,
    pub state: Option<String>,
    pub error: Option<String>,
    pub error_description: Option<String>,
}

/// What a callback's query gives: the code and the state, or a refusal.
pub open spec fn callback_params(q: CallbackQuery) -> Result<
    (Seq<char>, Seq<char>),
    HandlerErrorView,
> {
    match (q.error, q.code, q.state) {
        (Some(e), _, _) => Err(
            HandlerErrorView {
                status: 400,
                message: "identity provider returned an error: "@ + e@ + " "@ + text_or(
                    json::opt_text(q.error_description),
                    ""@,
                ),
            },
        ),
        (None, None, _) => Err(HandlerErrorView { status: 400, message: "missing 'code'"@ }),
        (None, Some(_), None) => Err(HandlerErrorView { status: 400, message: "missing 'state'"@ }),
        (None, Some(code), Some(state)) => Ok((code@, state@)),
    }
}

/// Reads the query of a callback.
pub fn check_callback(q: CallbackQuery) -> (r: Result<(String, String), HandlerError>)
    ensures
        match r {
            Ok((code, state)) => callback_params(q) == Ok::<_, HandlerErrorView>((code@, state@)),
            Err(e) => callback_params(q) == Err::<(Seq<char>, Seq<char>), _>(e@),
        },
{
    if let Some(e) = q.error {
        let description = match q.error_description {
            Some(d) => d,
            None => "".to_owned(),
        };
        return Err(
            HandlerError {
                status: 400,
                message: "identity provider returned an error: ".to_owned().concat(
                    e.as_str(),
                ).concat(" ").concat(description.as_str()),
            },
        );
    }
    let code = match q.code {
        Some(c) => c,
        None => {
            return Err(refuse(400, "missing 'code'"));
        },
    };
    match q.state {
        Some(state) => Ok((code, state)),
        None => Err(refuse(400, "missing 'state'")),
    }
}

/// A user of the proxy: the id, the name and the key that clients sign in with.
#[derive(Debug, Clone)]
pub struct Account {
    pub id: String,
    pub username: String,
    pub virtual_key: String,
}

/// What the provider sent the browser back with.
#[derive(Debug)]
pub struct Returned {
    pub code: String,
    pub state: String,
}

/// Where a callback stands: what is to be done next, with what it takes.
#[derive(Debug)]
pub enum CallbackStage {
    /// Read the login state out of the session.
    LoadState { returned: Returned },
    /// Remove the login state from the session: it serves once.
    ClearState { login: OidcLoginState, returned: Returned },
    /// Look up the provider of the login state.
    LoadProvider { login: OidcLoginState, returned: Returned },
    /// Decrypt the provider's client secret.
    DecryptSecret { provider: OidcProvider, login: OidcLoginState, returned: Returned },
    /// Exchange the code and validate the identity.
    CompleteLogin {
        provider: OidcProvider,
        secret: String,
        login: OidcLoginState,
        returned: Returned,
    },
    /// Give the session another id.
    RotateSession { claims: OidcClaims },
    /// Look up the identity by its issuer and subject.
    FindIdentity { claims: OidcClaims },
    /// Look up the user that the identity is linked to.
    FindUser { user_id: String },
    /// Renew the tokens of the user's backend sessions.
    RefreshSessions { account: Account },
    /// Put the identity into the session until its user decides.
    StashPending { claims: OidcClaims },
    /// Sign the user in.
    SignIn { account: Account },
    /// Offer to link or create an account.
    OfferLink { claims: OidcClaims },
    Refuse(SsoRefusal),
}

/// What a step of a callback gave.
#[derive(Debug)]
pub enum CallbackReply {
    Login(OidcLoginState),
    Provider(OidcProvider),
    Secret(String),
    Claims(OidcClaims),
    /// The id of the user that the identity is linked to.
    Identity(String),
    User(Account),
    /// It worked.
    Done,
    /// What was asked for is not there.
    Absent,
    /// It failed.
    Failed,
}

/// Where a reply leads in a callback. Whether the login state could be removed
/// and the session id changed, and whether any token was renewed, does not
/// matter to the rest.
pub open spec fn callback_next(stage: CallbackStage, reply: CallbackReply) -> CallbackStage {
    match (stage, reply) {
        (CallbackStage::LoadState { returned }, CallbackReply::Login(login)) => {
            CallbackStage::ClearState { login, returned }
        },
        (CallbackStage::LoadState { .. }, CallbackReply::Absent) => CallbackStage::Refuse(
            SsoRefusal::NoLogin,
        ),
        (CallbackStage::ClearState { login, returned }, _) => CallbackStage::LoadProvider {
            login,
            returned,
        },
        (CallbackStage::LoadProvider { login, returned }, CallbackReply::Provider(provider)) => {
            CallbackStage::DecryptSecret { provider, login, returned }
        },
        (CallbackStage::LoadProvider { .. }, CallbackReply::Absent) => CallbackStage::Refuse(
            SsoRefusal::ProviderGone,
        ),
        (
            CallbackStage::DecryptSecret { provider, login, returned },
            CallbackReply::Secret(secret),
        ) => CallbackStage::CompleteLogin { provider, secret, login, returned },
        (CallbackStage::CompleteLogin { .. }, CallbackReply::Claims(claims)) => {
            CallbackStage::RotateSession { claims }
        },
        (CallbackStage::CompleteLogin { .. }, _) => CallbackStage::Refuse(SsoRefusal::NotValidated),
        (CallbackStage::RotateSession { claims }, _) => CallbackStage::FindIdentity { claims },
        (CallbackStage::FindIdentity { .. }, CallbackReply::Identity(user_id)) => {
            CallbackStage::FindUser { user_id }
        },
        (CallbackStage::FindIdentity { claims }, CallbackReply::Absent) => {
            CallbackStage::StashPending { claims }
        },
        (CallbackStage::FindUser { .. }, CallbackReply::User(account)) => {
            CallbackStage::RefreshSessions { account }
        },
        (CallbackStage::RefreshSessions { account }, _) => CallbackStage::SignIn { account },
        (CallbackStage::StashPending { claims }, CallbackReply::Done) => CallbackStage::OfferLink {
            claims,
        },
        (CallbackStage::SignIn { account }, _) => CallbackStage::SignIn { account },
        (CallbackStage::OfferLink { claims }, _) => CallbackStage::OfferLink { claims },
        (CallbackStage::Refuse(e), _) => CallbackStage::Refuse(e),
        _ => CallbackStage::Refuse(SsoRefusal::Internal),
    }
}

/// Decides where a reply leads in a callback, from
/// [`CallbackStage::LoadState`] on.
pub fn handle_sso_callback(stage: CallbackStage, reply: CallbackReply) -> (r: CallbackStage)
    ensures
        r == callback_next(stage, reply),
{
    match (stage, reply) {
        (CallbackStage::LoadState { returned }, CallbackReply::Login(login)) => {
            CallbackStage::ClearState { login, returned }
        },
        (CallbackStage::LoadState { .. }, CallbackReply::Absent) => CallbackStage::Refuse(
            SsoRefusal::NoLogin,
        ),
        (CallbackStage::ClearState { login, returned }, _) => CallbackStage::LoadProvider {
            login,
            returned,
        },
        (CallbackStage::LoadProvider { login, returned }, CallbackReply::Provider(provider)) => {
            CallbackStage::DecryptSecret { provider, login, returned }
        },
        (CallbackStage::LoadProvider { .. }, CallbackReply::Absent) => CallbackStage::Refuse(
            SsoRefusal::ProviderGone,
        ),
        (
            CallbackStage::DecryptSecret { provider, login, returned },
            CallbackReply::Secret(secret),
        ) => CallbackStage::CompleteLogin { provider, secret, login, returned },
        (CallbackStage::CompleteLogin { .. }, CallbackReply::Claims(claims)) => {
            CallbackStage::RotateSession { claims }
        },
        (CallbackStage::CompleteLogin { .. }, _) => CallbackStage::Refuse(SsoRefusal::NotValidated),
        (CallbackStage::RotateSession { claims }, _) => CallbackStage::FindIdentity { claims },
        (CallbackStage::FindIdentity { .. }, CallbackReply::Identity(user_id)) => {
            CallbackStage::FindUser { user_id }
        },
        (CallbackStage::FindIdentity { claims }, CallbackReply::Absent) => {
            CallbackStage::StashPending { claims }
        },
        (CallbackStage::FindUser { .. }, CallbackReply::User(account)) => {
            CallbackStage::RefreshSessions { account }
        },
        (CallbackStage::RefreshSessions { account }, _) => CallbackStage::SignIn { account },
        (CallbackStage::StashPending { claims }, CallbackReply::Done) => CallbackStage::OfferLink {
            claims,
        },
        (CallbackStage::SignIn { account }, _) => CallbackStage::SignIn { account },
        (CallbackStage::OfferLink { claims }, _) => CallbackStage::OfferLink { claims },
        (CallbackStage::Refuse(e), _) => CallbackStage::Refuse(e),
        _ => CallbackStage::Refuse(SsoRefusal::Internal),
    }
}

/// Where the replies lead in a callback.
pub open spec fn callback_after(returned: Returned, replies: Seq<CallbackReply>) -> CallbackStage
    decreases replies.len(),
{
    if replies.len() == 0 {
        CallbackStage::LoadState { returned }
    } else {
        callback_next(callback_after(returned, replies.drop_last()), replies.last())
    }
}

/// What a stage of a callback tells of the replies that led to it.
spec fn callback_history(
    returned: Returned,
    replies: Seq<CallbackReply>,
    stage: CallbackStage,
) -> bool {
    match stage {
        CallbackStage::LoadState { returned: back } => replies.len() == 0 && back == returned,
        CallbackStage::ClearState { login, returned: back } => replies.len() == 1 && replies[0]
            == CallbackReply::Login(login) && back == returned,
        CallbackStage::LoadProvider { login, returned: back } => replies.len() == 2 && replies[0]
            == CallbackReply::Login(login) && back == returned,
        CallbackStage::DecryptSecret { provider, login, returned: back } => replies.len() == 3
            && replies[0] == CallbackReply::Login(login) && replies[2] == CallbackReply::Provider(
            provider,
        ) && back == returned,
        CallbackStage::CompleteLogin { provider, secret, login, returned: back } => replies.len()
            == 4 && replies[0] == CallbackReply::Login(login) && replies[2]
            == CallbackReply::Provider(provider) && replies[3] == CallbackReply::Secret(secret)
            && back == returned,
        CallbackStage::RotateSession { claims } => replies.len() == 5 && replies[4]
            == CallbackReply::Claims(claims),
        CallbackStage::FindIdentity { claims } => replies.len() == 6 && replies[4]
            == CallbackReply::Claims(claims),
        CallbackStage::FindUser { user_id } => replies.len() == 7 && replies[4] is Claims
            && replies[6] == CallbackReply::Identity(user_id),
        CallbackStage::RefreshSessions { account } => replies.len() == 8 && replies[4] is Claims
            && replies[6] is Identity && replies[7] == CallbackReply::User(account),
        CallbackStage::StashPending { claims } => replies.len() == 7 && replies[4]
            == CallbackReply::Claims(claims) && replies[6] == CallbackReply::Absent,
        CallbackStage::SignIn { account } => replies.len() > 8 && replies[4] is Claims
            && replies[6] is Identity && replies[7] == CallbackReply::User(account),
        CallbackStage::OfferLink { claims } => replies.len() > 7 && replies[4]
            == CallbackReply::Claims(claims) && replies[6] == CallbackReply::Absent,
        CallbackStage::Refuse(_) => true,
    }
}

proof fn callback_stage_is_explained(returned: Returned, replies: Seq<CallbackReply>)
    ensures
        callback_history(returned, replies, callback_after(returned, replies)),
    decreases replies.len(),
{
    if replies.len() > 0 {
        let before = replies.drop_last();
        callback_stage_is_explained(returned, before);
        assert(forall|i: int| 0 <= i < before.len() ==> before[i] == replies[i]);
    }
}

/// The login state serves once: by the time a code is exchanged it has been
/// removed from the session, whatever comes of the exchange. The exchange is
/// made with that login state, the provider that was found for it and its
/// secret, and with what the browser came back with.
pub proof fn login_state_serves_once(
    returned: Returned,
    replies: Seq<CallbackReply>,
    provider: OidcProvider,
    secret: String,
    login: OidcLoginState,
    back: Returned,
)
    requires
        callback_after(returned, replies) == (CallbackStage::CompleteLogin {
            provider,
            secret,
            login,
            returned: back,
        }),
    ensures
        replies.len() == 4,
        callback_after(returned, replies.take(1)) == (CallbackStage::ClearState {
            login,
            returned,
        }),
        replies[2] == CallbackReply::Provider(provider),
        replies[3] == CallbackReply::Secret(secret),
        back == returned,
{
    callback_stage_is_explained(returned, replies);
    assert(replies.take(1).drop_last() =~= Seq::<CallbackReply>::empty());
    assert(callback_after(returned, Seq::<CallbackReply>::empty())
        == (CallbackStage::LoadState { returned }));
    assert(replies.take(1).last() == replies[0]);
}

/// The identity that is looked up is the one that was validated.
pub proof fn looked_up_identity_is_validated(
    returned: Returned,
    replies: Seq<CallbackReply>,
    claims: OidcClaims,
)
    requires
        callback_after(returned, replies) == (CallbackStage::FindIdentity { claims }),
    ensures
        replies.len() == 6,
        replies[4] == CallbackReply::Claims(claims),
        callback_after(returned, replies.take(4)) is CompleteLogin,
{
    callback_stage_is_explained(returned, replies);
    assert(replies.drop_last() =~= replies.take(5));
    assert(replies.take(5).drop_last() =~= replies.take(4));
    callback_stage_is_explained(returned, replies.take(5));
    callback_stage_is_explained(returned, replies.take(4));
    assert(replies.take(5).last() == replies[4]);
}

/// Nobody is signed in, or offered an account, without a validated identity: a
/// sign-in is for the user that was found for it, an offer is for that
/// identity, which is linked to no user.
pub proof fn only_validated_identities_sign_in(returned: Returned, replies: Seq<CallbackReply>)
    ensures
        match callback_after(returned, replies) {
            CallbackStage::SignIn { account } => replies.len() > 7 && replies[4] is Claims
                && replies[6] is Identity && replies[7] == CallbackReply::User(account),
            CallbackStage::OfferLink { claims } => replies.len() > 7 && replies[4]
                == CallbackReply::Claims(claims) && replies[6] == CallbackReply::Absent,
            _ => true,
        },
{
    callback_stage_is_explained(returned, replies);
}

/// A validated identity that awaits a decision about its account.
#[derive(Debug, Clone)]
pub struct PendingLink {
    pub issuer: String,
    pub subject: String,
    pub email: Option<String>,
}

/// The form by which an identity is linked, or an account created for it.
#[derive(Debug)]
pub struct LinkForm {
    pub username: Option<String>,
    pub password: Option<String>,
    pub create: Option<String>,
}

/// What a link form asks for.
#[derive(Debug)]
pub enum LinkPlan {
    /// A new account.
    Create,
    /// The existing account of this user, proved by this password.
    Link { username: String, password: String },
    Refuse(SsoRefusal),
}

/// The data in a [`LinkPlan`].
pub enum LinkPlanView {
    Create,
    Link { username: Seq<char>, password: Seq<char> },
    Refuse(SsoRefusal),
}

impl View for LinkPlan {
    type V = LinkPlanView;

    open spec fn view(&self) -> LinkPlanView {
        match self {
            LinkPlan::Create => LinkPlanView::Create,
            LinkPlan::Link { username, password } => LinkPlanView::Link {
                username: username@,
                password: password@,
            },
            LinkPlan::Refuse(e) => LinkPlanView::Refuse(*e),
        }
    }
}

/// What a link form asks for: a new account only where that is allowed.
pub open spec fn link_plan_of(form: LinkForm, auto_provision: bool) -> LinkPlanView {
    let username = text::trimmed(text_or(json::opt_text(form.username), ""@));
    let password = text_or(json::opt_text(form.password), ""@);
    if json::opt_text(form.create) == Some("1"@) {
        if auto_provision {
            LinkPlanView::Create
        } else {
            LinkPlanView::Refuse(SsoRefusal::CreationDisabled)
        }
    } else if username.len() == 0 || password.len() == 0 {
        LinkPlanView::Refuse(SsoRefusal::CredentialsMissing)
    } else {
        LinkPlanView::Link { username, password }
    }
}

/// Reads a link form.
pub fn link_plan(form: LinkForm, auto_provision: bool) -> (r: LinkPlan)
    ensures
        r@ == link_plan_of(form, auto_provision),
{
    let create = match &form.create {
        Some(c) => text::str_eq(c.as_str(), "1"),
        None => false,
    };
    if create {
        if auto_provision {
            return LinkPlan::Create;
        }
        return LinkPlan::Refuse(SsoRefusal::CreationDisabled);
    }
    let given = match form.username {
        Some(u) => u,
        None => "".to_owned(),
    };
    let username = text::trim(given.as_str());
    let password = match form.password {
        Some(p) => p,
        None => "".to_owned(),
    };
    if username.as_str().is_empty() || password.as_str().is_empty() {
        return LinkPlan::Refuse(SsoRefusal::CredentialsMissing);
    }
    LinkPlan::Link { username, password }
}

/// Where the linking of an identity stands: what is to be done next, with what
/// it takes. The name of a new account follows from the identity and the number
/// of names that were taken.
#[derive(Debug)]
pub enum LinkStage {
    /// Read the pending identity out of the session.
    LoadPending { plan: LinkPlan },
    /// Ask whether the name of this attempt is taken.
    TryName { pending: PendingLink, attempt: u32 },
    /// Generate the password of the new account.
    DrawPassword { pending: PendingLink, attempt: u32 },
    /// Create the account under the name of the attempt.
    CreateUser { pending: PendingLink, attempt: u32, password: String },
    /// Link the identity to the new account.
    LinkNew { pending: PendingLink, attempt: u32, password: String, account: Account },
    /// Create the account on the backends.
    ProvisionBackends { pending: PendingLink, attempt: u32, password: String, account: Account },
    /// Look up the user by name.
    FindUser { pending: PendingLink, username: String, password: String },
    /// Check the password against the user's.
    VerifyPassword { pending: PendingLink, account: Account, password: String },
    /// List the user's backend passwords.
    ListMappings { pending: PendingLink, account: Account, password: String },
    /// Decrypt the backend password at this place with the user's, and store it
    /// encrypted under the key.
    Rekey {
        pending: PendingLink,
        account: Account,
        password: String,
        at: usize,
        total: usize,
        key: MappingKey,
    },
    /// Link the identity to the user.
    LinkIdentity { pending: PendingLink, account: Account },
    /// Remove the pending identity from the session.
    ClearPending { account: Account },
    /// Sign the user in.
    SignIn { account: Account },
    Refuse(SsoRefusal),
}

/// What a step of linking gave.
#[derive(Debug)]
pub enum LinkReply {
    Pending(PendingLink),
    User(Account),
    Password(String),
    /// How many backend passwords the user has.
    Mappings(usize),
    /// It worked, or what was asked for is there.
    Done,
    /// What was asked for is not there.
    Absent,
    /// It failed.
    Failed,
}

/// The way from a backend password to the next one, or on to the link. Logins
/// without a password need the master key.
pub open spec fn rekey_from(
    pending: PendingLink,
    account: Account,
    password: String,
    at: usize,
    total: usize,
) -> LinkStage {
    if at < total {
        LinkStage::Rekey { pending, account, password, at, total, key: MappingKey::MasterKey }
    } else {
        LinkStage::LinkIdentity { pending, account }
    }
}

/// Where a form leads once the pending identity is there.
pub open spec fn planned(plan: LinkPlan, pending: PendingLink) -> LinkStage {
    match plan {
        LinkPlan::Create => LinkStage::TryName { pending, attempt: 0 },
        LinkPlan::Link { username, password } => LinkStage::FindUser {
            pending,
            username,
            password,
        },
        LinkPlan::Refuse(e) => LinkStage::Refuse(e),
    }
}

/// Where a reply leads in linking. A backend password that cannot be encrypted
/// anew is left; what becomes of a new account on the backends, and whether the
/// pending identity could be removed, does not matter to the rest.
pub open spec fn link_next(stage: LinkStage, reply: LinkReply) -> LinkStage {
    match (stage, reply) {
        (LinkStage::LoadPending { plan }, LinkReply::Pending(pending)) => planned(plan, pending),
        (LinkStage::LoadPending { .. }, LinkReply::Absent) => LinkStage::Refuse(
            SsoRefusal::NoLogin,
        ),
        (LinkStage::TryName { pending, attempt }, LinkReply::Absent) => LinkStage::DrawPassword {
            pending,
            attempt,
        },
        (LinkStage::TryName { pending, attempt }, LinkReply::Done) => if attempt
            < sso_pages::MAX_NAME_ATTEMPTS {
            LinkStage::TryName { pending, attempt: (attempt + 1) as u32 }
        } else {
            LinkStage::Refuse(SsoRefusal::Internal)
        },
        (LinkStage::DrawPassword { pending, attempt }, LinkReply::Password(password)) => {
            LinkStage::CreateUser { pending, attempt, password }
        },
        (LinkStage::CreateUser { pending, attempt, password }, LinkReply::User(account)) => {
            LinkStage::LinkNew { pending, attempt, password, account }
        },
        (LinkStage::LinkNew { pending, attempt, password, account }, LinkReply::Done) => {
            LinkStage::ProvisionBackends { pending, attempt, password, account }
        },
        (LinkStage::ProvisionBackends { account, .. }, _) => LinkStage::ClearPending { account },
        (LinkStage::FindUser { pending, password, .. }, LinkReply::User(account)) => {
            LinkStage::VerifyPassword { pending, account, password }
        },
        (LinkStage::FindUser { .. }, LinkReply::Absent) => LinkStage::Refuse(
            SsoRefusal::BadCredentials,
        ),
        (LinkStage::VerifyPassword { pending, account, password }, LinkReply::Done) => {
            LinkStage::ListMappings { pending, account, password }
        },
        (LinkStage::VerifyPassword { .. }, _) => LinkStage::Refuse(SsoRefusal::BadCredentials),
        (LinkStage::ListMappings { pending, account, password }, LinkReply::Mappings(total)) => {
            rekey_from(pending, account, password, 0, total)
        },
        (LinkStage::Rekey { pending, account, password, at, total, .. }, _) => if at < total {
            rekey_from(pending, account, password, (at + 1) as usize, total)
        } else {
            LinkStage::LinkIdentity { pending, account }
        },
        (LinkStage::LinkIdentity { account, .. }, LinkReply::Done) => LinkStage::ClearPending {
            account,
        },
        (LinkStage::ClearPending { account }, _) => LinkStage::SignIn { account },
        (LinkStage::SignIn { account }, _) => LinkStage::SignIn { account },
        (LinkStage::Refuse(e), _) => LinkStage::Refuse(e),
        _ => LinkStage::Refuse(SsoRefusal::Internal),
    }
}

fn rekey_next(
    pending: PendingLink,
    account: Account,
    password: String,
    at: usize,
    total: usize,
) -> (r: LinkStage)
    ensures
        r == rekey_from(pending, account, password, at, total),
{
    if at < total {
        LinkStage::Rekey { pending, account, password, at, total, key: MappingKey::MasterKey }
    } else {
        LinkStage::LinkIdentity { pending, account }
    }
}

/// Starts creating a brand-new account for an identity. No existing account is
/// ever adopted: a name that is taken is given up for another one.
fn provision_new_user(pending: PendingLink) -> (r: LinkStage)
    ensures
        r == (LinkStage::TryName { pending, attempt: 0 }),
{
    LinkStage::TryName { pending, attempt: 0 }
}

/// Decides where a reply leads in linking, from [`LinkStage::LoadPending`] on.
pub fn handle_sso_link(stage: LinkStage, reply: LinkReply) -> (r: LinkStage)
    ensures
        r == link_next(stage, reply),
{
    match (stage, reply) {
        (LinkStage::LoadPending { plan }, LinkReply::Pending(pending)) => match plan {
            LinkPlan::Create => provision_new_user(pending),
            LinkPlan::Link { username, password } => LinkStage::FindUser {
                pending,
                username,
                password,
            },
            LinkPlan::Refuse(e) => LinkStage::Refuse(e),
        },
        (LinkStage::LoadPending { .. }, LinkReply::Absent) => LinkStage::Refuse(
            SsoRefusal::NoLogin,
        ),
        (LinkStage::TryName { pending, attempt }, LinkReply::Absent) => LinkStage::DrawPassword {
            pending,
            attempt,
        },
        (LinkStage::TryName { pending, attempt }, LinkReply::Done) => if attempt
            < sso_pages::MAX_NAME_ATTEMPTS {
            let next: u32 = attempt + 1;
            LinkStage::TryName { pending, attempt: next }
        } else {
            LinkStage::Refuse(SsoRefusal::Internal)
        },
        (LinkStage::DrawPassword { pending, attempt }, LinkReply::Password(password)) => {
            LinkStage::CreateUser { pending, attempt, password }
        },
        (LinkStage::CreateUser { pending, attempt, password }, LinkReply::User(account)) => {
            LinkStage::LinkNew { pending, attempt, password, account }
        },
        (LinkStage::LinkNew { pending, attempt, password, account }, LinkReply::Done) => {
            LinkStage::ProvisionBackends { pending, attempt, password, account }
        },
        (LinkStage::ProvisionBackends { account, .. }, _) => LinkStage::ClearPending { account },
        (LinkStage::FindUser { pending, password, .. }, LinkReply::User(account)) => {
            LinkStage::VerifyPassword { pending, account, password }
        },
        (LinkStage::FindUser { .. }, LinkReply::Absent) => LinkStage::Refuse(
            SsoRefusal::BadCredentials,
        ),
        (LinkStage::VerifyPassword { pending, account, password }, LinkReply::Done) => {
            LinkStage::ListMappings { pending, account, password }
        },
        (LinkStage::VerifyPassword { .. }, _) => LinkStage::Refuse(SsoRefusal::BadCredentials),
        (LinkStage::ListMappings { pending, account, password }, LinkReply::Mappings(total)) => {
            rekey_next(pending, account, password, 0, total)
        },
        (LinkStage::Rekey { pending, account, password, at, total, .. }, _) => if at < total {
            let next: usize = at + 1;
            rekey_next(pending, account, password, next, total)
        } else {
            LinkStage::LinkIdentity { pending, account }
        },
        (LinkStage::LinkIdentity { account, .. }, LinkReply::Done) => LinkStage::ClearPending {
            account,
        },
        (LinkStage::ClearPending { account }, _) => LinkStage::SignIn { account },
        (LinkStage::SignIn { account }, _) => LinkStage::SignIn { account },
        (LinkStage::Refuse(e), _) => LinkStage::Refuse(e),
        _ => LinkStage::Refuse(SsoRefusal::Internal),
    }
}

/// Where the replies lead in linking.
pub open spec fn link_after(plan: LinkPlan, replies: Seq<LinkReply>) -> LinkStage
    decreases replies.len(),
{
    if replies.len() == 0 {
        LinkStage::LoadPending { plan }
    } else {
        link_next(link_after(plan, replies.drop_last()), replies.last())
    }
}

/// Whether the replies brought the user with this name and, for the password
/// of the form, its confirmation.
pub open spec fn proved(
    plan: LinkPlan,
    replies: Seq<LinkReply>,
    pending: PendingLink,
    account: Account,
) -> bool {
    &&& plan is Link
    &&& replies.len() > 2
    &&& replies[0] == LinkReply::Pending(pending)
    &&& replies[1] == LinkReply::User(account)
    &&& replies[2] == LinkReply::Done
}

/// Whether the first names were taken and the one of the attempt was free.
pub open spec fn name_was_free(
    plan: LinkPlan,
    replies: Seq<LinkReply>,
    pending: PendingLink,
    attempt: u32,
) -> bool {
    &&& plan is Create
    &&& replies.len() > attempt + 1
    &&& replies[0] == LinkReply::Pending(pending)
    &&& forall|i: int| 1 <= i <= attempt ==> #[trigger] replies[i] == LinkReply::Done
    &&& replies[attempt + 1] == LinkReply::Absent
}

/// What a stage of linking tells of the replies that led to it.
spec fn link_history(plan: LinkPlan, replies: Seq<LinkReply>, stage: LinkStage) -> bool {
    match stage {
        LinkStage::LoadPending { plan: p } => replies.len() == 0 && p == plan,
        LinkStage::TryName { pending, attempt } => plan is Create && replies.len() == attempt + 1
            && replies[0] == LinkReply::Pending(pending) && forall|i: int|
            1 <= i <= attempt ==> #[trigger] replies[i] == LinkReply::Done,
        LinkStage::DrawPassword { pending, attempt } => replies.len() == attempt + 2
            && name_was_free(plan, replies, pending, attempt),
        LinkStage::CreateUser { pending, attempt, password } => replies.len() == attempt + 3
            && name_was_free(plan, replies, pending, attempt) && replies[attempt + 2]
            == LinkReply::Password(password),
        LinkStage::LinkNew { pending, attempt, password, account } => replies.len() == attempt + 4
            && name_was_free(plan, replies, pending, attempt) && replies[attempt + 2]
            == LinkReply::Password(password) && replies[attempt + 3] == LinkReply::User(account),
        LinkStage::ProvisionBackends { pending, attempt, password, account } => replies.len()
            == attempt + 5 && name_was_free(plan, replies, pending, attempt) && replies[attempt + 2]
            == LinkReply::Password(password) && replies[attempt + 3] == LinkReply::User(account)
            && replies[attempt + 4] == LinkReply::Done,
        LinkStage::FindUser { pending, username, password } => replies.len() == 1 && replies[0]
            == LinkReply::Pending(pending) && plan == (LinkPlan::Link { username, password }),
        LinkStage::VerifyPassword { pending, account, password } => replies.len() == 2
            && replies[0] == LinkReply::Pending(pending) && replies[1] == LinkReply::User(account)
            && (plan matches LinkPlan::Link { password: p, .. } && p == password),
        LinkStage::ListMappings { pending, account, password } => replies.len() == 3 && proved(
            plan,
            replies,
            pending,
            account,
        ) && (plan matches LinkPlan::Link { password: p, .. } && p == password),
        LinkStage::Rekey { pending, account, password, at, total, key } => at < total && key
            == MappingKey::MasterKey && replies.len() == 4 + at && proved(plan, replies, pending, account) && replies[3]
            == LinkReply::Mappings(total) && (plan matches LinkPlan::Link { password: p, .. } && p
            == password),
        LinkStage::LinkIdentity { pending, account } => replies.len() > 3 && proved(
            plan,
            replies,
            pending,
            account,
        ) && (replies[3] matches LinkReply::Mappings(total) && replies.len() == 4 + total),
        LinkStage::ClearPending { account } => signed_in_for_a_reason(plan, replies, account),
        LinkStage::SignIn { account } => signed_in_for_a_reason(plan, replies, account),
        LinkStage::Refuse(_) => true,
    }
}

/// Whether the account is the user whose password was confirmed, or was just
/// created.
pub open spec fn signed_in_for_a_reason(
    plan: LinkPlan,
    replies: Seq<LinkReply>,
    account: Account,
) -> bool {
    ||| exists|pending: PendingLink| #[trigger] proved(plan, replies, pending, account)
    ||| exists|pending: PendingLink, attempt: u32| #[trigger]
        name_was_free(plan, replies, pending, attempt) && replies.len() > attempt + 3
            && replies[attempt + 3] == LinkReply::User(account)
}

proof fn link_stage_is_explained(plan: LinkPlan, replies: Seq<LinkReply>)
    ensures
        link_history(plan, replies, link_after(plan, replies)),
    decreases replies.len(),
{
    if replies.len() > 0 {
        let before = replies.drop_last();
        link_stage_is_explained(plan, before);
        assert(forall|i: int| 0 <= i < before.len() ==> before[i] == replies[i]);
        match link_after(plan, before) {
            LinkStage::ProvisionBackends { pending, attempt, password, account } => {
                assert(name_was_free(plan, replies, pending, attempt));
            },
            LinkStage::LinkIdentity { pending, account } => {
                assert(proved(plan, replies, pending, account));
            },
            LinkStage::ClearPending { account } => {
                reason_stays(plan, before, replies, account);
            },
            LinkStage::SignIn { account } => {
                reason_stays(plan, before, replies, account);
            },
            _ => {},
        }
    }
}

proof fn reason_stays(
    plan: LinkPlan,
    before: Seq<LinkReply>,
    replies: Seq<LinkReply>,
    account: Account,
)
    requires
        signed_in_for_a_reason(plan, before, account),
        before.len() < replies.len(),
        forall|i: int| 0 <= i < before.len() ==> before[i] == replies[i],
    ensures
        signed_in_for_a_reason(plan, replies, account),
{
    if exists|pending: PendingLink| #[trigger] proved(plan, before, pending, account) {
        let pending = choose|pending: PendingLink| #[trigger]
            proved(plan, before, pending, account);
        assert(proved(plan, replies, pending, account));
    } else {
        let (pending, attempt) = choose|pending: PendingLink, attempt: u32| #[trigger]
            name_was_free(plan, before, pending, attempt) && before.len() > attempt + 3
                && before[attempt + 3] == LinkReply::User(account);
        assert(name_was_free(plan, replies, pending, attempt));
    }
}

/// An identity is linked to an existing account only after the password of
/// that account was verified: the identity is the pending one, the account the
/// one found for the name in the form.
pub proof fn linking_needs_the_password(
    plan: LinkPlan,
    replies: Seq<LinkReply>,
    pending: PendingLink,
    account: Account,
)
    requires
        link_after(plan, replies) == (LinkStage::LinkIdentity { pending, account }),
    ensures
        proved(plan, replies, pending, account),
        plan matches LinkPlan::Link { username, password } && link_after(plan, replies.take(2))
            == (LinkStage::VerifyPassword { pending, account, password }),
{
    link_stage_is_explained(plan, replies);
    assert(replies.take(2).drop_last() =~= replies.take(1));
    assert(replies.take(1).drop_last() =~= Seq::<LinkReply>::empty());
    assert(link_after(plan, Seq::<LinkReply>::empty()) == (LinkStage::LoadPending { plan }));
    assert(replies.take(1).last() == replies[0]);
    assert(replies.take(2).last() == replies[1]);
    assert(link_after(plan, replies.take(1)) == planned(plan, pending));
    assert(link_after(plan, replies.take(2)) == link_next(planned(plan, pending), replies[1]));
}

/// Every backend password of a user who is linked is taken in turn, so that
/// logins without a password can use them: the link comes only after as many
/// replies as there are passwords.
pub proof fn every_password_is_rekeyed(
    plan: LinkPlan,
    replies: Seq<LinkReply>,
    pending: PendingLink,
    account: Account,
)
    requires
        link_after(plan, replies) == (LinkStage::LinkIdentity { pending, account }),
    ensures
        replies[3] matches LinkReply::Mappings(total) && replies.len() == 4 + total,
{
    link_stage_is_explained(plan, replies);
}

/// A backend password is only taken once the user's own was confirmed, it is
/// read with that one, and it ends under the master key.
pub proof fn passwords_end_under_the_master_key(plan: LinkPlan, replies: Seq<LinkReply>)
    ensures
        link_after(plan, replies) matches LinkStage::Rekey {
            pending,
            account,
            password,
            at,
            total,
            key,
        } ==> {
            &&& key == MappingKey::MasterKey
            &&& proved(plan, replies, pending, account)
            &&& plan matches LinkPlan::Link { password: p, .. } && p == password
            &&& replies[3] == LinkReply::Mappings(total)
            &&& at == replies.len() - 4
        },
{
    link_stage_is_explained(plan, replies);
}

/// A new account never adopts an existing user's name: it is created only
/// under a name that was found free, after all the names before it were taken,
/// and the pending identity is the one linked to it.
pub proof fn new_accounts_have_free_names(plan: LinkPlan, replies: Seq<LinkReply>)
    ensures
        match link_after(plan, replies) {
            LinkStage::CreateUser { pending, attempt, .. } => name_was_free(
                plan,
                replies,
                pending,
                attempt,
            ),
            LinkStage::LinkNew { pending, attempt, account, .. } => name_was_free(
                plan,
                replies,
                pending,
                attempt,
            ) && replies[attempt + 3] == LinkReply::User(account),
            _ => true,
        },
{
    link_stage_is_explained(plan, replies);
}

/// Linking signs in nobody but the user whose password was confirmed, or the
/// one that was just created.
pub proof fn links_sign_in_for_a_reason(plan: LinkPlan, replies: Seq<LinkReply>, account: Account)
    requires
        link_after(plan, replies) == (LinkStage::SignIn { account }),
    ensures
        signed_in_for_a_reason(plan, replies, account),
{
    link_stage_is_explained(plan, replies);
}

/// No account is created where creation is disabled, whatever the form says.
pub proof fn creation_can_be_disabled(form: LinkForm, plan: LinkPlan, replies: Seq<LinkReply>)
    requires
        plan@ == link_plan_of(form, false),
    ensures
        !(link_after(plan, replies) is TryName),
        !(link_after(plan, replies) is CreateUser),
{
    link_stage_is_explained(plan, replies);
}

/// A wrong password and an unknown user get the same answer.
pub proof fn credentials_are_refused_alike(
    pending: PendingLink,
    account: Account,
    username: String,
    password: String,
)
    ensures
        link_next(LinkStage::FindUser { pending, username, password }, LinkReply::Absent)
            == link_next(
            LinkStage::VerifyPassword { pending, account, password },
            LinkReply::Absent,
        ),
{
}

/// What the login picker shows of a provider: names only, no secrets.
#[derive(Debug)]
pub struct ProviderInfo {
    pub slug: String,
    pub display_name: String,
}

/// The names of providers.
pub open spec fn provider_names(v: Seq<ProviderInfo>) -> Seq<(Seq<char>, Seq<char>)> {
    v.map_values(|p: ProviderInfo| (p.slug@, p.display_name@))
}

/// What the login picker shows of the enabled providers.
pub fn list_sso_providers(providers: &Vec<OidcProvider>) -> (r: Vec<ProviderInfo>)
    ensures
        provider_names(r@) == oidc_storage::providers_in(providers@).map_values(
            |p: ProviderView| (p.slug, p.display_name),
        ),
        r.len() == providers.len(),
        forall|i: int|
            0 <= i < r.len() ==> (#[trigger] r[i]).slug@ == providers[i].slug@ && r[i].display_name@
                == providers[i].display_name@,
{
    let ghost shown = oidc_storage::providers_in(providers@).map_values(
        |p: ProviderView| (p.slug, p.display_name),
    );
    let mut out: Vec<ProviderInfo> = Vec::new();
    for i in 0..providers.len()
        invariant
            shown == oidc_storage::providers_in(providers@).map_values(
                |p: ProviderView| (p.slug, p.display_name),
            ),
            provider_names(out@) == shown.take(i as int),
            out.len() == i,
            forall|k: int|
                0 <= k < i ==> (#[trigger] out[k]).slug@ == providers[k].slug@
                    && out[k].display_name@ == providers[k].display_name@,
    {
        let ghost before = provider_names(out@);
        let info = ProviderInfo {
            slug: providers[i].slug.clone(),
            display_name: providers[i].display_name.clone(),
        };
        let ghost names = (info.slug@, info.display_name@);
        out.push(info);
        assert(provider_names(out@) =~= before.push(names));
        assert(names == shown[i as int]);
        assert(provider_names(out@) =~= shown.take(i + 1));
    }
    assert(shown.take(providers.len() as int) =~= shown);
    out
}

/// Refusals have the status of their kind: what the browser got wrong is a bad
/// request, what proves nothing is unauthorized, and what is not there is not
/// found. Only an unknown provider is named in the answer.
pub proof fn refusals_have_their_status(refusal: SsoRefusal, slug: Seq<char>, other: Seq<char>)
    ensures
        answer_to(refusal, slug).status == 500 <==> refusal == SsoRefusal::Internal,
        answer_to(refusal, slug).status == 404 <==> refusal == SsoRefusal::UnknownProvider,
        answer_to(refusal, slug).status == 502 <==> refusal == SsoRefusal::CannotStart,
        answer_to(refusal, slug).status == 403 <==> refusal == SsoRefusal::CreationDisabled,
        answer_to(refusal, slug).status == 401 <==> refusal == SsoRefusal::NotValidated || refusal
            == SsoRefusal::BadCredentials,
        answer_to(refusal, slug).status == 400 <==> refusal == SsoRefusal::NoLogin || refusal
            == SsoRefusal::ProviderGone || refusal == SsoRefusal::CredentialsMissing,
        refusal != SsoRefusal::UnknownProvider ==> answer_to(refusal, slug) == answer_to(
            refusal,
            other,
        ),
        refusal == SsoRefusal::UnknownProvider ==> answer_to(refusal, slug).message
            == "unknown or disabled SSO provider: "@ + slug,
{
}

/// What each stage of starting a login comes after: the secret is decrypted for
/// an enabled provider only, the address is built once that worked, the login is
/// kept once it was built, and the browser is sent away once it was kept. A
/// provider that is missing or disabled is refused as unknown, one that cannot
/// be asked as such, and any other failure as internal.
pub proof fn login_stages_follow_each_other(stage: LoginStage, reply: LoginReply)
    ensures
        ({
            let next = login_next(stage, reply);
            let over = stage is Redirect || stage is Refuse;
            &&& !(next is LoadProvider)
            &&& next is DecryptSecret <==> stage is LoadProvider && (
            reply matches LoginReply::Provider(p) && p.enabled)
            &&& next is BeginLogin <==> stage is DecryptSecret && reply is Done
            &&& next is StashState <==> stage is BeginLogin && reply is Begun
            &&& next is Redirect <==> stage is Redirect || (stage is StashState && reply is Done)
            &&& over ==> next == stage
            &&& !over ==> (next == LoginStage::Refuse(SsoRefusal::UnknownProvider) <==> stage
                is LoadProvider && (reply is Absent || (reply matches LoginReply::Provider(p)
                && !p.enabled)))
            &&& !over ==> (next == LoginStage::Refuse(SsoRefusal::CannotStart) <==> stage
                is BeginLogin && !(reply is Begun))
            &&& !over && next is Refuse ==> next == LoginStage::Refuse(SsoRefusal::UnknownProvider)
                || next == LoginStage::Refuse(SsoRefusal::CannotStart) || next
                == LoginStage::Refuse(SsoRefusal::Internal)
        }),
{
}

/// A callback is read where it brings a code and a state and no error; an error
/// counts first, then a missing code and then a missing state.
pub proof fn callbacks_bring_a_code_and_a_state(q: CallbackQuery)
    ensures
        callback_params(q) is Ok <==> q.error is None && q.code is Some && q.state is Some,
        callback_params(q) matches Ok((code, state)) ==> code == (q.code->0)@ && state == (
        q.state->0)@,
        callback_params(q) matches Err(e) ==> e.status == 400,
        q.error is None && q.code is None ==> callback_params(q) == Err::<
            (Seq<char>, Seq<char>),
            _,
        >(HandlerErrorView { status: 400, message: "missing 'code'"@ }),
        q.error is None && q.code is Some && q.state is None ==> callback_params(q) == Err::<
            (Seq<char>, Seq<char>),
            _,
        >(HandlerErrorView { status: 400, message: "missing 'state'"@ }),
        q.error matches Some(e) ==> (callback_params(q) matches Err(a) && a.message
            == "identity provider returned an error: "@ + e@ + seq![' '] + match q.error_description {
            Some(d) => d@,
            None => Seq::empty(),
        }),
{
    reveal_strlit(" ");
    reveal_strlit("");
    assert(" "@ =~= seq![' ']);
    assert(""@ =~= Seq::<char>::empty());
}

/// What each stage of a callback comes after. The login state is removed once it
/// was read, whatever comes of it; the code is exchanged with the provider and
/// its secret; the identity is looked up once it was validated; its user is
/// signed in once found, and an identity without a user is kept and then
/// offered an account.
pub proof fn callback_stages_follow_each_other(stage: CallbackStage, reply: CallbackReply)
    ensures
        ({
            let next = callback_next(stage, reply);
            let over = stage is SignIn || stage is OfferLink || stage is Refuse;
            &&& over ==> next == stage
            &&& !(next is LoadState)
            &&& next is ClearState <==> stage is LoadState && reply is Login
            &&& next is LoadProvider <==> stage is ClearState
            &&& next is DecryptSecret <==> stage is LoadProvider && reply is Provider
            &&& next is CompleteLogin <==> stage is DecryptSecret && reply is Secret
            &&& next is RotateSession <==> stage is CompleteLogin && reply is Claims
            &&& next is FindIdentity <==> stage is RotateSession
            &&& next is FindUser <==> stage is FindIdentity && reply is Identity
            &&& next is StashPending <==> stage is FindIdentity && reply is Absent
            &&& next is RefreshSessions <==> stage is FindUser && reply is User
            &&& next is SignIn <==> stage is SignIn || stage is RefreshSessions
            &&& next is OfferLink <==> stage is OfferLink || (stage is StashPending && reply
                is Done)
            &&& !over ==> (next == CallbackStage::Refuse(SsoRefusal::NoLogin) <==> stage
                is LoadState && reply is Absent)
            &&& !over ==> (next == CallbackStage::Refuse(SsoRefusal::ProviderGone) <==> stage
                is LoadProvider && reply is Absent)
            &&& !over ==> (next == CallbackStage::Refuse(SsoRefusal::NotValidated) <==> stage
                is CompleteLogin && !(reply is Claims))
            &&& !over && next is Refuse ==> next == CallbackStage::Refuse(SsoRefusal::NoLogin)
                || next == CallbackStage::Refuse(SsoRefusal::ProviderGone) || next
                == CallbackStage::Refuse(SsoRefusal::NotValidated) || next
                == CallbackStage::Refuse(SsoRefusal::Internal)
        }),
{
}

/// What a link form asks for: a new account where it says so and that is
/// allowed; otherwise the account with the name, white space around it aside,
/// and the password as it is, neither of them empty.
pub proof fn forms_ask_for_one_thing(form: LinkForm, auto_provision: bool)
    ensures
        ({
            let wants_new = form.create matches Some(c) && c@ == seq!['1'];
            let name = match form.username {
                Some(u) => text::trimmed(u@),
                None => Seq::empty(),
            };
            let password = match form.password {
                Some(p) => p@,
                None => Seq::empty(),
            };
            let complete = name.len() > 0 && password.len() > 0;
            let r = link_plan_of(form, auto_provision);
            &&& r is Create <==> wants_new && auto_provision
            &&& r == LinkPlanView::Refuse(SsoRefusal::CreationDisabled) <==> wants_new
                && !auto_provision
            &&& r == LinkPlanView::Refuse(SsoRefusal::CredentialsMissing) <==> !wants_new
                && !complete
            &&& r is Link <==> !wants_new && complete
            &&& r matches LinkPlanView::Link { username, password: p } ==> username == name && p
                == password
        }),
{
    reveal_strlit("1");
    reveal_strlit("");
    assert("1"@ =~= seq!['1']);
    assert(""@ =~= Seq::<char>::empty());
    let nothing = Seq::<char>::empty();
    assert(text::trimmed(nothing) =~= nothing) by {
        let from = text::only_outer_white_space_goes(nothing);
    }
}

/// What each stage of linking comes after. A new account: names are tried from
/// the first on until one is free, six more at most, a password is drawn, the
/// account is made and linked. An existing one: the user is found, the password
/// verified, every backend password taken in turn, and the identity linked.
/// Nobody is signed in before the pending identity was removed.
pub proof fn link_stages_follow_each_other(stage: LinkStage, reply: LinkReply)
    ensures
        ({
            let next = link_next(stage, reply);
            let over = stage is SignIn || stage is Refuse;
            let bad = LinkStage::Refuse(SsoRefusal::BadCredentials);
            &&& over ==> next == stage
            &&& !(next is LoadPending)
            &&& next is TryName <==> {
                ||| (stage matches LinkStage::LoadPending { plan } && plan is Create) && reply
                    is Pending
                ||| (stage matches LinkStage::TryName { attempt, .. } && attempt < 6) && reply
                    is Done
            }
            &&& next matches LinkStage::TryName { attempt: n, .. } ==> if stage is TryName {
                n == stage->TryName_attempt + 1
            } else {
                n == 0
            }
            &&& next is DrawPassword <==> stage is TryName && reply is Absent
            &&& next is CreateUser <==> stage is DrawPassword && reply is Password
            &&& next is LinkNew <==> stage is CreateUser && reply is User
            &&& next is ProvisionBackends <==> stage is LinkNew && reply is Done
            &&& next is FindUser <==> (stage matches LinkStage::LoadPending { plan } && plan
                is Link) && reply is Pending
            &&& next is VerifyPassword <==> stage is FindUser && reply is User
            &&& next is ListMappings <==> stage is VerifyPassword && reply is Done
            &&& next is ClearPending <==> stage is ProvisionBackends || (stage is LinkIdentity
                && reply is Done)
            &&& next is SignIn <==> stage is SignIn || stage is ClearPending
            &&& !over ==> (next == bad <==> {
                ||| stage is FindUser && reply is Absent
                ||| stage is VerifyPassword && !(reply is Done)
                ||| (stage matches LinkStage::LoadPending { plan } && plan == LinkPlan::Refuse(
                    SsoRefusal::BadCredentials,
                )) && reply is Pending
            })
            &&& stage is LoadPending && reply is Absent ==> next == LinkStage::Refuse(
                SsoRefusal::NoLogin,
            )
        }),
{
}

/// Backend passwords are taken from the first to the last: a listing of so many
/// leads to the first of them, each leads to the next, and the last, or an empty
/// listing, to the link.
pub proof fn passwords_are_taken_in_turn(
    pending: PendingLink,
    account: Account,
    password: String,
    at: usize,
    total: usize,
    key: MappingKey,
    reply: LinkReply,
)
    ensures
        ({
            let listed = link_next(
                LinkStage::ListMappings { pending, account, password },
                LinkReply::Mappings(total),
            );
            if total > 0 {
                listed == (LinkStage::Rekey {
                    pending,
                    account,
                    password,
                    at: 0,
                    total,
                    key: MappingKey::MasterKey,
                })
            } else {
                listed == (LinkStage::LinkIdentity { pending, account })
            }
        }),
        ({
            let next = link_next(
                LinkStage::Rekey { pending, account, password, at, total, key },
                reply,
            );
            if at + 1 < total {
                next == (LinkStage::Rekey {
                    pending,
                    account,
                    password,
                    at: (at + 1) as usize,
                    total,
                    key: MappingKey::MasterKey,
                })
            } else {
                next == (LinkStage::LinkIdentity { pending, account })
            }
        }),
{
}

}
