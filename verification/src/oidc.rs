//! What an OpenID Connect login asks for, and what it proves: who the user is.
//!
//! A login yields a validated issuer and subject, nothing more. Talking to the
//! provider is left to the caller.
use std::str::FromStr;

use chrono::DateTime;
use jsonwebtoken::jwk::{Jwk, JwkSet};
use jsonwebtoken::{decode, decode_header, DecodingKey, Validation};
use openidconnect::{
    AuthUrl, ClientId, ClientSecret, CsrfToken, IssuerUrl, JsonWebKeySet, Nonce,
    PkceCodeChallenge, PkceCodeVerifier, RedirectUrl, Scope,
};
use vstd::prelude::*;
use vstd::string::*;
use vstd::utf8::*;

use crate::json;
use crate::json::{Json, JsonView};
use crate::oidc_storage::OidcProvider;
use crate::sorting;
use crate::sso_pages;
use crate::text;
use crate::urls;

verus! {

/// Why a login could not be started or completed.
#[derive(Debug)]
pub enum OidcError {
    Discovery(String),
    Url(String),
    Exchange(String),
    MissingIdToken,
    Claims(String),
    StateMismatch,
}

/// The data in an [`OidcError`].
pub enum OidcErrorView {
    Discovery(Seq<char>),
    Url(Seq<char>),
    Exchange(Seq<char>),
    MissingIdToken,
    Claims(Seq<char>),
    StateMismatch,
}

impl View for OidcError {
    type V = OidcErrorView;

    open spec fn view(&self) -> OidcErrorView {
        match self {
            OidcError::Discovery(e) => OidcErrorView::Discovery(e@),
            OidcError::Url(e) => OidcErrorView::Url(e@),
            OidcError::Exchange(e) => OidcErrorView::Exchange(e@),
            OidcError::MissingIdToken => OidcErrorView::MissingIdToken,
            OidcError::Claims(e) => OidcErrorView::Claims(e@),
            OidcError::StateMismatch => OidcErrorView::StateMismatch,
        }
    }
}

/// The words of an error.
pub open spec fn oidc_message(e: OidcErrorView) -> Seq<char> {
    match e {
        OidcErrorView::Discovery(m) => "provider discovery failed: "@ + m,
        OidcErrorView::Url(m) => "invalid url: "@ + m,
        OidcErrorView::Exchange(m) => "token exchange failed: "@ + m,
        OidcErrorView::MissingIdToken => "no id_token in token response"@,
        OidcErrorView::Claims(m) => "id_token validation failed: "@ + m,
        OidcErrorView::StateMismatch => "oauth state mismatch (possible CSRF)"@,
    }
}

impl OidcError {
    /// The words of the error.
    pub fn message(&self) -> (r: String)
        ensures
            r@ == oidc_message(self@),
    {
        match self {
            OidcError::Discovery(m) => "provider discovery failed: ".to_owned().concat(
                m.as_str(),
            ),
            OidcError::Url(m) => "invalid url: ".to_owned().concat(m.as_str()),
            OidcError::Exchange(m) => "token exchange failed: ".to_owned().concat(m.as_str()),
            OidcError::MissingIdToken => "no id_token in token response".to_owned(),
            OidcError::Claims(m) => "id_token validation failed: ".to_owned().concat(m.as_str()),
            OidcError::StateMismatch => "oauth state mismatch (possible CSRF)".to_owned(),
        }
    }
}

/// What a login keeps in the session between the redirect and the callback.
/// The secrets in it must not leave the server.
#[derive(Debug, Clone)]
pub struct OidcLoginState {
    pub provider_slug: String,
    pub csrf: String,
    pub nonce: String,
    pub pkce_verifier: String,
    pub redirect_uri: String,
}

/// A validated identity. Issuer and subject are the key; the email is
/// informational only.
#[derive(Debug, Clone)]
pub struct OidcClaims {
    pub issuer: String,
    pub subject: String,
    pub email: Option<String>,
}

/// The data in an [`OidcClaims`].
pub struct ClaimsView {
    pub issuer: Seq<char>,
    pub subject: Seq<char>,
    pub email: Option<Seq<char>>,
}

impl View for OidcClaims {
    type V = ClaimsView;

    open spec fn view(&self) -> ClaimsView {
        ClaimsView {
            issuer: self.issuer@,
            subject: self.subject@,
            email: json::opt_text(self.email),
        }
    }
}

/// The data in the result of a validation.
pub open spec fn verdict(r: Result<OidcClaims, OidcError>) -> Result<ClaimsView, OidcErrorView> {
    match r {
        Ok(c) => Ok(c@),
        Err(e) => Err(e@),
    }
}

/// The complete words of a text, and the one at its end that may go on.
pub open spec fn word_state(s: Seq<char>) -> (Seq<Seq<char>>, Seq<char>)
    decreases s.len(),
{
    if s.len() == 0 {
        (Seq::empty(), Seq::empty())
    } else {
        let (done, open) = word_state(s.drop_last());
        if !text::is_white_space(s.last()) {
            (done, open.push(s.last()))
        } else if open.len() > 0 {
            (done.push(open), Seq::empty())
        } else {
            (done, open)
        }
    }
}

/// The words of a text, with white space between them.
pub open spec fn words(s: Seq<char>) -> Seq<Seq<char>> {
    let (done, open) = word_state(s);
    if open.len() > 0 {
        done.push(open)
    } else {
        done
    }
}

/// Whether a scope is asked for by name: `openid` goes without saying.
pub open spec fn named_scope() -> spec_fn(Seq<char>) -> bool {
    |s: Seq<char>| !text::same_ignoring_case(s, "openid"@)
}

fn split_words(s: &str) -> (r: Vec<String>)
    ensures
        text::texts(r@) == words(s@),
{
    let chars = text::chars_of(s);
    let mut done: Vec<String> = Vec::new();
    let mut open = String::new();
    assert(text::texts(done@) =~= word_state(chars@.take(0)).0);
    for i in 0..chars.len()
        invariant
            chars@ == s@,
            (text::texts(done@), open@) == word_state(chars@.take(i as int)),
    {
        assert(chars@.take(i + 1).drop_last() =~= chars@.take(i as int));
        let ghost before = text::texts(done@);
        let ghost word = open@;
        if !text::white_space(chars[i]) {
            open.push(chars[i]);
        } else if !open.as_str().is_empty() {
            done.push(open);
            open = String::new();
            assert(text::texts(done@) =~= before.push(word));
        }
    }
    assert(chars@.take(chars.len() as int) =~= chars@);
    let ghost before = text::texts(done@);
    let ghost word = open@;
    if !open.as_str().is_empty() {
        done.push(open);
        assert(text::texts(done@) =~= before.push(word));
    }
    done
}

/// The scopes that an authorization asks for, out of a provider's scope list.
pub fn requested_scopes(scopes: &str) -> (r: Vec<String>)
    ensures
        text::texts(r@) == words(scopes@).filter(named_scope()),
{
    let all = split_words(scopes);
    let ghost listed = text::texts(all@);
    let mut out: Vec<String> = Vec::new();
    proof {
        reveal(Seq::filter);
    }
    assert(text::texts(out@) =~= listed.take(0).filter(named_scope()));
    for i in 0..all.len()
        invariant
            listed == text::texts(all@),
            text::texts(out@) == listed.take(i as int).filter(named_scope()),
    {
        proof {
            reveal(Seq::filter);
        }
        let ghost before = text::texts(out@);
        assert(listed.take(i + 1).drop_last() =~= listed.take(i as int));
        assert(listed.take(i + 1).last() == all[i as int]@);
        if !text::eq_ignoring_case(all[i].as_str(), "openid") {
            out.push(all[i].clone());
            assert(text::texts(out@) =~= before.push(all[i as int]@));
        }
    }
    assert(listed.take(all.len() as int) =~= listed);
    out
}

/// Whether a word is not empty and holds no white space.
pub open spec fn is_word(w: Seq<char>) -> bool {
    w.len() > 0 && forall|i: int| 0 <= i < w.len() ==> !text::is_white_space(#[trigger] w[i])
}

/// Every scope that is read from a list is a word.
pub proof fn scopes_are_words(s: Seq<char>)
    ensures
        forall|i: int| 0 <= i < words(s).len() ==> is_word(#[trigger] words(s)[i]),
        forall|i: int|
            0 <= i < word_state(s).1.len() ==> !text::is_white_space(#[trigger] word_state(s).1[i]),
        forall|i: int| 0 <= i < word_state(s).0.len() ==> is_word(#[trigger] word_state(s).0[i]),
    decreases s.len(),
{
    if s.len() > 0 {
        scopes_are_words(s.drop_last());
        let (done0, open0) = word_state(s.drop_last());
        let (done, open) = word_state(s);
        assert forall|i: int| 0 <= i < open.len() implies !text::is_white_space(
            #[trigger] open[i],
        ) by {
            if i < open0.len() {
                assert(open[i] == open0[i]);
            }
        }
        assert forall|i: int| 0 <= i < done.len() implies is_word(#[trigger] done[i]) by {
            if i < done0.len() {
                assert(done[i] == done0[i]);
            } else {
                assert(done[i] == open0);
            }
        }
        assert forall|i: int| 0 <= i < words(s).len() implies is_word(#[trigger] words(s)[i]) by {
            if i < done.len() {
                assert(words(s)[i] == done[i]);
            } else {
                assert(words(s)[i] == open);
            }
        }
    }
}

/// What an authorization asks for: who the user is, and the scopes that a
/// provider lists.
pub open spec fn scope_text(scopes: Seq<char>) -> Seq<char> {
    text::join(seq!["openid"@] + words(scopes).filter(named_scope()), " "@)
}

/// The secrets of one login.
#[derive(Debug, Clone)]
pub struct LoginSecrets {
    pub csrf: String,
    pub nonce: String,
    pub pkce_verifier: String,
}

/// The sixty-four characters of base64 for addresses.
pub open spec fn base64url_alphabet() -> Seq<char> {
    "ABCDEFGHIJKLMNOPQRSTUVWXYZabcdefghijklmnopqrstuvwxyz0123456789-_"@
}

/// The byte at a place, zero behind the end.
pub open spec fn byte_at(bytes: Seq<u8>, i: int) -> int {
    if 0 <= i < bytes.len() {
        bytes[i] as int
    } else {
        0
    }
}

/// Six bits of bytes, from bit `6 * i` on.
pub open spec fn six_bits(bytes: Seq<u8>, i: int) -> int {
    let pair = 256 * byte_at(bytes, 6 * i / 8) + byte_at(bytes, 6 * i / 8 + 1);
    if 6 * i % 8 == 0 {
        pair / 1024 % 64
    } else if 6 * i % 8 == 2 {
        pair / 256 % 64
    } else if 6 * i % 8 == 4 {
        pair / 64 % 64
    } else {
        pair / 16 % 64
    }
}

/// Bytes in base64 for addresses, without padding.
pub open spec fn base64url(bytes: Seq<u8>) -> Seq<char> {
    Seq::new(
        ((8 * bytes.len() + 5) / 6) as nat,
        |i: int| base64url_alphabet()[six_bits(bytes, i)],
    )
}

/// Whether a text is base64 for addresses, `n` characters long.
pub open spec fn is_base64url(s: Seq<char>, n: nat) -> bool {
    s.len() == n && forall|i: int|
        0 <= i < s.len() ==> base64url_alphabet().contains(#[trigger] s[i])
}

proof fn base64url_characters_are_plain(k: int)
    requires
        0 <= k < base64url_alphabet().len(),
    ensures
        ({
            let c = base64url_alphabet()[k];
            'A' <= c <= 'Z' || 'a' <= c <= 'z' || '0' <= c <= '9' || c == '-' || c == '_'
        }),
{
    reveal_strlit("ABCDEFGHIJKLMNOPQRSTUVWXYZabcdefghijklmnopqrstuvwxyz0123456789-_");
}

/// A text in base64 for addresses takes a byte for each character in a query.
proof fn base64url_is_written_as_it_is(s: Seq<char>, n: nat)
    requires
        is_base64url(s, n),
    ensures
        urls::form_size(encode_utf8(s)) == n,
    decreases n,
{
    assert forall|i: int| 0 <= i < s.len() implies ({
        let c = #[trigger] s[i];
        'A' <= c <= 'Z' || 'a' <= c <= 'z' || '0' <= c <= '9' || c == '-' || c == '_'
    }) by {
        let k = base64url_alphabet().index_of(s[i]);
        assert(base64url_alphabet().contains(s[i]));
        base64url_characters_are_plain(k);
    }
    is_ascii_chars_encode_utf8(s);
    plain_bytes_are_kept(encode_utf8(s));
}

proof fn plain_bytes_are_kept(bytes: Seq<u8>)
    requires
        forall|i: int| 0 <= i < bytes.len() ==> urls::form_cost(#[trigger] bytes[i]) == 1,
    ensures
        urls::form_size(bytes) == bytes.len(),
    decreases bytes.len(),
{
    if bytes.len() > 0 {
        assert forall|i: int| 0 <= i < bytes.drop_last().len() implies urls::form_cost(
            #[trigger] bytes.drop_last()[i],
        ) == 1 by {
            assert(bytes.drop_last()[i] == bytes[i]);
        }
        plain_bytes_are_kept(bytes.drop_last());
    }
}

/// `CsrfToken::new_random`: sixteen random bytes in base64 for addresses, a
/// byte for each character.
#[verifier::external_body]
fn random_csrf() -> (r: String)
    ensures
        is_base64url(r@, 22),
        encode_utf8(r@).len() == 22,
{
    CsrfToken::new_random().into_secret()
}

/// `Nonce::new_random`: sixteen random bytes in base64 for addresses, a byte
/// for each character.
#[verifier::external_body]
fn random_nonce() -> (r: String)
    ensures
        is_base64url(r@, 22),
        encode_utf8(r@).len() == 22,
{
    Nonce::new_random().secret().clone()
}

/// `PkceCodeChallenge::new_random_sha256`, of which the verifier is kept:
/// thirty-two random bytes in base64 for addresses, a byte for each character.
#[verifier::external_body]
fn random_verifier() -> (r: String)
    ensures
        is_base64url(r@, 43),
        encode_utf8(r@).len() == 43,
{
    PkceCodeChallenge::new_random_sha256().1.into_secret()
}

/// What an authorization tells the provider.
pub open spec fn authorization_pairs(
    client_id: Seq<char>,
    redirect_uri: Seq<char>,
    scope: Seq<char>,
    csrf: Seq<char>,
    nonce: Seq<char>,
    pkce_verifier: Seq<char>,
) -> Seq<(Seq<char>, Seq<char>)> {
    seq![
        ("response_type"@, "code"@),
        ("client_id"@, client_id),
        ("state"@, csrf),
        ("code_challenge"@, base64url(sso_pages::sha256_of(encode_utf8(pkce_verifier)))),
        ("code_challenge_method"@, "S256"@),
        ("redirect_uri"@, redirect_uri),
        ("scope"@, scope),
        ("nonce"@, nonce),
    ]
}

/// The address of an authorization endpoint with pairs added to its query.
pub uninterp spec fn authorization_address(
    endpoint: Seq<char>,
    pairs: Seq<(Seq<char>, Seq<char>)>,
) -> Seq<char>;

/// Whether the query of an address is that of another one with pairs added.
pub open spec fn query_extended(
    from: Seq<char>,
    pairs: Seq<(Seq<char>, Seq<char>)>,
    address: Seq<char>,
) -> bool {
    urls::url_query_pairs(from) matches Some(own) && urls::url_query_pairs(address) == Some(
        own + pairs,
    )
}

/// The words for the first of a login's addresses that is invalid.
pub open spec fn unusable_address(
    issuer: Seq<char>,
    endpoint: Seq<char>,
    redirect_uri: Seq<char>,
) -> Option<Seq<char>> {
    match (
        urls::url_parsed(issuer),
        urls::url_parsed(endpoint),
        urls::url_parsed(redirect_uri),
    ) {
        (Err(e), _, _) => Some(e),
        (_, Err(e), _) => Some(e),
        (_, _, Err(e)) => Some(e),
        _ => None,
    }
}

/// How many bytes the fixed parts of a request take: the names, the method, the
/// digest of the verifier and what stands between names, values and pairs.
pub const FIXED_SIZE: u64 = 150;

/// How many bytes a request takes in the query of the endpoint's address, with
/// so many for the state and the nonce.
pub open spec fn request_size(
    client_id: Seq<char>,
    redirect_uri: Seq<char>,
    scope: Seq<char>,
    secrets: nat,
) -> nat {
    FIXED_SIZE as nat + urls::form_size(encode_utf8(client_id)) + urls::form_size(
        encode_utf8(redirect_uri),
    ) + urls::form_size(encode_utf8(scope)) + secrets
}

/// How many bytes the state and the nonce take in a query.
pub open spec fn secrets_size(csrf: Seq<char>, nonce: Seq<char>) -> nat {
    urls::form_size(encode_utf8(csrf)) + urls::form_size(encode_utf8(nonce))
}

/// `CoreClient::authorize_url` for the authorization code flow, and
/// `AuthorizationRequest::url` of the request with its scopes and the challenge
/// of the verifier. The addresses must be valid. The result is the endpoint's
/// address with the pairs of an authorization added to its query, from which
/// `Url::query_pairs` reads them; the scope `openid` comes first, then those
/// that are given. The challenge is the SHA-256 digest of the verifier in
/// base64 for addresses.
#[verifier::external_body]
fn authorize(
    issuer: String,
    endpoint: String,
    client_id: String,
    redirect_uri: String,
    scopes: Vec<String>,
    secrets: LoginSecrets,
) -> (r: String)
    requires
        unusable_address(issuer@, endpoint@, redirect_uri@) is None,
        43 <= encode_utf8(secrets.pkce_verifier@).len() <= 128,
        urls::can_append(
            endpoint@,
            request_size(
                client_id@,
                redirect_uri@,
                text::join(seq!["openid"@] + text::texts(scopes@), " "@),
                secrets_size(secrets.csrf@, secrets.nonce@),
            ),
        ),
    ensures
        r@ == authorization_address(
            endpoint@,
            authorization_pairs(
                client_id@,
                redirect_uri@,
                text::join(seq!["openid"@] + text::texts(scopes@), " "@),
                secrets.csrf@,
                secrets.nonce@,
                secrets.pkce_verifier@,
            ),
        ),
        query_extended(
            endpoint@,
            authorization_pairs(
                client_id@,
                redirect_uri@,
                text::join(seq!["openid"@] + text::texts(scopes@), " "@),
                secrets.csrf@,
                secrets.nonce@,
                secrets.pkce_verifier@,
            ),
            r@,
        ),
{
    let (client_id, issuer) = (ClientId::new(client_id), IssuerUrl::new(issuer).unwrap());
    let client = openidconnect::core::CoreClient::new(client_id, issuer, JsonWebKeySet::default())
        .set_auth_uri(AuthUrl::new(endpoint).unwrap())
        .set_redirect_uri(RedirectUrl::new(redirect_uri).unwrap());
    let (csrf, nonce) = (CsrfToken::new(secrets.csrf), Nonce::new(secrets.nonce));
    let verifier = PkceCodeVerifier::new(secrets.pkce_verifier);
    let request = client
        .authorize_url(openidconnect::core::CoreAuthenticationFlow::AuthorizationCode, || csrf, || nonce)
        .add_scopes(scopes.into_iter().map(Scope::new))
        .set_pkce_challenge(PkceCodeChallenge::from_code_verifier_sha256(&verifier));
    request.url().0.to_string()
}

/// The words for the first of a login's addresses that is invalid.
fn first_unusable(issuer: &str, endpoint: &str, redirect_uri: &str) -> (r: Option<String>)
    ensures
        json::opt_text(r) == unusable_address(issuer@, endpoint@, redirect_uri@),
{
    if let Err(e) = urls::parse_url(issuer) {
        return Some(e);
    }
    if let Err(e) = urls::parse_url(endpoint) {
        return Some(e);
    }
    if let Err(e) = urls::parse_url(redirect_uri) {
        return Some(e);
    }
    None
}

/// Whether the address that starts a login, and what is kept of the login, are
/// those for the secrets.
pub open spec fn login_started(
    provider: OidcProvider,
    endpoint: Seq<char>,
    redirect_uri: Seq<char>,
    address: Seq<char>,
    login: OidcLoginState,
) -> bool {
    let pairs = authorization_pairs(
        provider.client_id@,
        redirect_uri,
        scope_text(provider.scopes@),
        login.csrf@,
        login.nonce@,
        login.pkce_verifier@,
    );
    &&& address == authorization_address(endpoint, pairs)
    &&& query_extended(endpoint, pairs, address)
    &&& login.provider_slug@ == provider.slug@
    &&& login.redirect_uri@ == redirect_uri
}

/// Why a login cannot be started: an address is invalid, or the one to send the
/// browser to would be longer than `url` can hold. The state and the nonce take
/// so many bytes together.
pub open spec fn unusable_login(
    provider: OidcProvider,
    endpoint: Seq<char>,
    redirect_uri: Seq<char>,
    secrets: nat,
) -> Option<Seq<char>> {
    match unusable_address(provider.issuer_url@, endpoint, redirect_uri) {
        Some(e) => Some(e),
        None => if urls::can_append(
            endpoint,
            request_size(
                provider.client_id@,
                redirect_uri,
                scope_text(provider.scopes@),
                secrets,
            ),
        ) {
            None
        } else {
            Some(urls::too_long())
        },
    }
}

/// The scopes of a request as one text.
fn joined_scopes(scopes: &Vec<String>) -> (r: String)
    ensures
        r@ == text::join(seq!["openid"@] + text::texts(scopes@), " "@),
{
    let mut all: Vec<String> = Vec::new();
    all.push("openid".to_owned());
    assert(text::texts(all@) =~= seq!["openid"@] + text::texts(scopes@).take(0));
    for i in 0..scopes.len()
        invariant
            text::texts(all@) == seq!["openid"@] + text::texts(scopes@).take(i as int),
    {
        let ghost before = text::texts(all@);
        all.push(scopes[i].clone());
        assert(text::texts(all@) =~= before.push(scopes[i as int]@));
        assert(text::texts(all@) =~= seq!["openid"@] + text::texts(scopes@).take(i + 1));
    }
    assert(text::texts(scopes@).take(scopes.len() as int) =~= text::texts(scopes@));
    text::join_strings(&all, " ")
}

/// Whether the endpoint has room for a request.
fn request_fits(
    endpoint: &str,
    client_id: &str,
    redirect_uri: &str,
    scope: &str,
    secrets: &LoginSecrets,
) -> (r: bool)
    ensures
        r == urls::can_append(
            endpoint@,
            request_size(
                client_id@,
                redirect_uri@,
                scope@,
                secrets_size(secrets.csrf@, secrets.nonce@),
            ),
        ),
{
    let sizes = (
        urls::size_of_text(client_id),
        urls::size_of_text(redirect_uri),
        urls::size_of_text(scope),
        urls::size_of_text(secrets.csrf.as_str()),
        urls::size_of_text(secrets.nonce.as_str()),
    );
    match sizes {
        (Some(a), Some(b), Some(c), Some(d), Some(e)) => urls::room_to_append(
            endpoint,
            Some(FIXED_SIZE + a + b + c + d + e),
        ),
        _ => urls::room_to_append(endpoint, None),
    }
}

/// Starts a login with the given secrets: the address to send the browser to,
/// and what to keep until it is back.
pub fn start_login(
    provider: &OidcProvider,
    endpoint: &str,
    redirect_uri: &str,
    secrets: LoginSecrets,
) -> (r: Result<(String, OidcLoginState), OidcError>)
    requires
        43 <= encode_utf8(secrets.pkce_verifier@).len() <= 128,
    ensures
        ({
            let unusable = unusable_login(
                *provider,
                endpoint@,
                redirect_uri@,
                secrets_size(secrets.csrf@, secrets.nonce@),
            );
            match r {
                Err(e) => unusable matches Some(m) && e@ == OidcErrorView::Url(m),
                Ok((address, login)) => {
                    &&& unusable is None
                    &&& login_started(*provider, endpoint@, redirect_uri@, address@, login)
                    &&& login.csrf@ == secrets.csrf@
                    &&& login.nonce@ == secrets.nonce@
                    &&& login.pkce_verifier@ == secrets.pkce_verifier@
                },
            }
        }),
{
    if let Some(e) = first_unusable(provider.issuer_url.as_str(), endpoint, redirect_uri) {
        return Err(OidcError::Url(e));
    }
    let scopes = requested_scopes(provider.scopes.as_str());
    let scope = joined_scopes(&scopes);
    if !request_fits(
        endpoint,
        provider.client_id.as_str(),
        redirect_uri,
        scope.as_str(),
        &secrets,
    ) {
        return Err(OidcError::Url(urls::too_long_text()));
    }
    let login = OidcLoginState {
        provider_slug: provider.slug.clone(),
        csrf: secrets.csrf.clone(),
        nonce: secrets.nonce.clone(),
        pkce_verifier: secrets.pkce_verifier.clone(),
        redirect_uri: redirect_uri.to_owned(),
    };
    let address = authorize(
        provider.issuer_url.clone(),
        endpoint.to_owned(),
        provider.client_id.clone(),
        redirect_uri.to_owned(),
        scopes,
        secrets,
    );
    Ok((address, login))
}

/// Starts a login with fresh random secrets.
pub fn begin_login(provider: &OidcProvider, endpoint: &str, redirect_uri: &str) -> (r: Result<
    (String, OidcLoginState),
    OidcError,
>)
    ensures
        match r {
            Err(e) => unusable_login(*provider, endpoint@, redirect_uri@, 44) matches Some(m) && e@
                == OidcErrorView::Url(m),
            Ok((address, login)) => {
                &&& unusable_login(*provider, endpoint@, redirect_uri@, 44) is None
                &&& login_started(*provider, endpoint@, redirect_uri@, address@, login)
                &&& is_base64url(login.csrf@, 22)
                &&& is_base64url(login.nonce@, 22)
                &&& is_base64url(login.pkce_verifier@, 43)
            },
        },
{
    let secrets = LoginSecrets {
        csrf: random_csrf(),
        nonce: random_nonce(),
        pkce_verifier: random_verifier(),
    };
    proof {
        base64url_is_written_as_it_is(secrets.csrf@, 22);
        base64url_is_written_as_it_is(secrets.nonce@, 22);
    }
    start_login(provider, endpoint, redirect_uri, secrets)
}

/// The first check of a callback: the state that came back is the one that was
/// sent.
pub fn check_state(login: &OidcLoginState, returned_state: &str) -> (r: Result<(), OidcError>)
    ensures
        r is Ok <==> returned_state@ == login.csrf@,
        r matches Err(e) ==> e is StateMismatch,
{
    if text::str_eq(returned_state, login.csrf.as_str()) {
        Ok(())
    } else {
        Err(OidcError::StateMismatch)
    }
}

/// The request that exchanges a code for tokens.
#[derive(Debug)]
pub struct CodeExchange {
    pub code: String,
    pub pkce_verifier: String,
    pub redirect_uri: String,
}

/// The request to exchange the code that came back, with the verifier and the
/// redirect address that were kept. A code that came back with another state
/// is not exchanged.
pub fn exchange_of(login: &OidcLoginState, returned_state: &str, code: &str) -> (r: Result<
    CodeExchange,
    OidcError,
>)
    ensures
        match r {
            Ok(x) => {
                &&& returned_state@ == login.csrf@
                &&& x.code@ == code@
                &&& x.pkce_verifier@ == login.pkce_verifier@
                &&& x.redirect_uri@ == login.redirect_uri@
            },
            Err(e) => returned_state@ != login.csrf@ && e is StateMismatch,
        },
{
    match check_state(login, returned_state) {
        Ok(()) => Ok(
            CodeExchange {
                code: code.to_owned(),
                pkce_verifier: login.pkce_verifier.clone(),
                redirect_uri: login.redirect_uri.clone(),
            },
        ),
        Err(e) => Err(e),
    }
}

/// How the exchange of the code ended.
#[derive(Debug)]
pub enum Exchange {
    /// The provider's metadata could not be had.
    NoMetadata(OidcError),
    /// The redirect address is invalid.
    BadRedirect(String),
    /// The exchange failed.
    Failed(String),
    /// The token endpoint answered, but not as expected: its raw answer.
    Unreadable(Vec<u8>),
    /// There is no ID token in the answer.
    NoIdToken,
    /// The ID token of the answer, the key set of the provider as JSON, and the
    /// names of the algorithms that it signs with.
    Token { id_token: String, keys: String, algorithms: Vec<String> },
}

/// Where an exchange leads: to the end, or to reading the raw answer once more
/// with less strictness.
#[derive(Debug)]
pub enum AfterExchange {
    End(Result<OidcClaims, OidcError>),
    Lenient(Vec<u8>),
}

/// The claims of an ID token, as JSON, where it is valid for the client, the
/// issuer and the nonce at a time, and signed by one of the keys or with the
/// client's secret, with one of the algorithms.
pub uninterp spec fn verified_claims(
    id_token: Seq<char>,
    client_id: Seq<char>,
    client_secret: Seq<char>,
    issuer: Seq<char>,
    keys: Seq<char>,
    algorithms: Seq<Seq<char>>,
    nonce: Seq<char>,
    now: i64,
) -> Option<Seq<char>>;

/// What is known of verified claims: they are the issuer's, for the client, not
/// expired, and name a subject, and a nonce with the digest of the expected one.
pub open spec fn vouched(
    claims: JsonView,
    client_id: Seq<char>,
    issuer: Seq<char>,
    nonce: Seq<char>,
    now: i64,
) -> bool {
    &&& json::text_field(claims, "iss"@) == Some(issuer)
    &&& json::text_field(claims, "sub"@) is Some
    &&& optional_text(claims, "email"@) is Ok
    &&& meant_for(claims, client_id)
    &&& json::text_field(claims, "nonce"@) matches Some(n)
    &&& sso_pages::sha256_of(encode_utf8(n)) == sso_pages::sha256_of(encode_utf8(nonce))
    &&& json::int_field(claims, "exp"@) matches Some(exp)
    &&& now < (exp + 1) * 1_000_000_000
}

/// The signature of a token: what stands behind its last dot.
pub open spec fn signature_part(token: Seq<char>) -> Seq<char> {
    text::split_on(token, '.').last()
}

/// Whether the signature of a token can be one of the algorithm. With a shared
/// secret it has the size of the digest, in base64 for addresses.
pub open spec fn signature_fits(algorithm: Seq<char>, token: Seq<char>) -> bool {
    &&& algorithm == "HS256"@ ==> signature_part(token).len() == 43
    &&& algorithm == "HS384"@ ==> signature_part(token).len() == 64
    &&& algorithm == "HS512"@ ==> signature_part(token).len() == 86
}

/// The algorithms that the signature of a token can be of.
pub open spec fn fitting(algorithms: Seq<Seq<char>>, token: Seq<char>) -> Seq<Seq<char>> {
    algorithms.filter(|a: Seq<char>| signature_fits(a, token))
}

/// Leaves out the algorithms that the signature of a token cannot be of.
fn fitting_algorithms(algorithms: &Vec<String>, token: &str) -> (r: Vec<String>)
    ensures
        text::texts(r@) == fitting(text::texts(algorithms@), token@),
        forall|i: int| 0 <= i < r.len() ==> signature_fits((#[trigger] r[i])@, token@),
{
    let ghost all = text::texts(algorithms@);
    let ghost keep = |a: Seq<char>| signature_fits(a, token@);
    let parts = text::split(token, '.');
    assert(text::texts(parts@).last() == parts[parts.len() - 1]@);
    let size: usize = parts[parts.len() - 1].as_str().unicode_len();
    let mut out: Vec<String> = Vec::new();
    proof {
        reveal(Seq::filter);
    }
    assert(text::texts(out@) =~= all.take(0).filter(keep));
    for i in 0..algorithms.len()
        invariant
            all == text::texts(algorithms@),
            keep == (|a: Seq<char>| signature_fits(a, token@)),
            size == signature_part(token@).len(),
            text::texts(out@) == all.take(i as int).filter(keep),
            forall|k: int| 0 <= k < out.len() ==> signature_fits((#[trigger] out[k])@, token@),
    {
        proof {
            reveal(Seq::filter);
        }
        let ghost before = text::texts(out@);
        assert(all.take(i + 1).drop_last() =~= all.take(i as int));
        assert(all.take(i + 1).last() == algorithms[i as int]@);
        let a = algorithms[i].as_str();
        if (!text::str_eq(a, "HS256") || size == 43) && (!text::str_eq(a, "HS384") || size == 64)
            && (!text::str_eq(a, "HS512") || size == 86) {
            out.push(algorithms[i].clone());
            assert(text::texts(out@) =~= before.push(algorithms[i as int]@));
        }
    }
    assert(all.take(algorithms.len() as int) =~= all);
    out
}

/// `IdToken::claims` with the `IdTokenVerifier` of a confidential client, for
/// the keys, the algorithms and the time in nanoseconds, and the claims printed
/// by `serde_json`. The claims are a function of the arguments and have what
/// [`vouched`] says; their expiry is printed in whole seconds. The words of an
/// error are not stated: they list the algorithms in any order. A signature of
/// another size than that of a digest must not be checked against a shared
/// secret: the comparison asserts the size.
#[verifier::external_body]
fn verify_token(
    id_token: &str,
    client_id: String,
    client_secret: String,
    issuer: String,
    keys: &str,
    algorithms: Vec<String>,
    nonce: String,
    now: i64,
) -> (r: Result<String, String>)
    requires
        forall|i: int|
            0 <= i < algorithms.len() ==> signature_fits((#[trigger] algorithms[i])@, id_token@),
    ensures
        (match r {
            Ok(claims) => Some(claims@),
            Err(_) => None,
        }) == verified_claims(
            id_token@,
            client_id@,
            client_secret@,
            issuer@,
            keys@,
            text::texts(algorithms@),
            nonce@,
            now,
        ),
        r matches Ok(claims) ==> (json::json_parsed(encode_utf8(claims@)) matches Ok(v) && vouched(
            v,
            client_id@,
            issuer@,
            nonce@,
            now,
        )),
{
    let words = |e: serde_json::Error| e.to_string();
    let keys = serde_json::from_str(keys).map_err(words)?;
    let algorithms: Vec<_> = serde_json::from_value(algorithms.into()).map_err(words)?;
    let issuer = IssuerUrl::new(issuer).map_err(|e| e.to_string())?;
    let verifier = openidconnect::core::CoreIdTokenVerifier::new_confidential_client(
        ClientId::new(client_id), ClientSecret::new(client_secret), issuer, keys,
    ).set_allowed_algs(algorithms).set_time_fn(move || DateTime::from_timestamp_nanos(now));
    let token = openidconnect::core::CoreIdToken::from_str(id_token).map_err(words)?;
    let claims = token.claims(&verifier, &Nonce::new(nonce)).map_err(|e| e.to_string())?;
    serde_json::to_string(claims).map_err(words)
}

/// The identity that claims state.
pub open spec fn stated_identity(claims: JsonView) -> Result<ClaimsView, Seq<char>> {
    match (
        required_text(claims, "iss"@),
        required_text(claims, "sub"@),
        optional_text(claims, "email"@),
    ) {
        (Ok(issuer), Ok(subject), Ok(email)) => Ok(ClaimsView { issuer, subject, email }),
        (Err(e), _, _) => Err(e),
        (_, Err(e), _) => Err(e),
        (_, _, Err(e)) => Err(e),
    }
}

/// Takes the identity out of verified claims.
pub fn identity_of(claims: &Result<Json, String>) -> (r: Result<OidcClaims, OidcError>)
    ensures
        verdict(r) == (match json::parse_contents(*claims) {
            Ok(v) => match stated_identity(v) {
                Ok(c) => Ok(c),
                Err(e) => Err(OidcErrorView::Claims(e)),
            },
            Err(e) => Err(OidcErrorView::Claims(e)),
        }),
{
    let claims = match claims {
        Ok(v) => v,
        Err(e) => {
            return Err(OidcError::Claims(e.clone()));
        },
    };
    let issuer = match read_required(claims, "iss") {
        Ok(s) => s,
        Err(e) => {
            return Err(OidcError::Claims(e));
        },
    };
    let subject = match read_required(claims, "sub") {
        Ok(s) => s,
        Err(e) => {
            return Err(OidcError::Claims(e));
        },
    };
    match read_optional(claims, "email") {
        Ok(email) => Ok(OidcClaims { issuer, subject, email }),
        Err(e) => Err(OidcError::Claims(e)),
    }
}

/// Whether a token proves an identity of the issuer, to the client and for the
/// login with the nonce.
pub open spec fn proves(
    claims: Option<Seq<char>>,
    client_id: Seq<char>,
    issuer: Seq<char>,
    nonce: Seq<char>,
    now: i64,
    identity: ClaimsView,
) -> bool {
    &&& claims matches Some(c)
    &&& json::json_parsed(encode_utf8(c)) matches Ok(v)
    &&& vouched(v, client_id, issuer, nonce, now)
    &&& stated_identity(v) == Ok::<_, Seq<char>>(identity)
    &&& identity.issuer == issuer
}

/// Validates an ID token: signature, issuer, audience, expiry and nonce.
fn strict_validate(
    provider: &OidcProvider,
    plain_secret: &str,
    nonce: &str,
    id_token: &str,
    keys: &str,
    algorithms: &Vec<String>,
    now: i64,
) -> (r: Result<OidcClaims, OidcError>)
    ensures
        ({
            let claims = verified_claims(
                id_token@,
                provider.client_id@,
                plain_secret@,
                provider.issuer_url@,
                keys@,
                fitting(text::texts(algorithms@), id_token@),
                nonce@,
                now,
            );
            match r {
                Ok(c) => proves(
                    claims,
                    provider.client_id@,
                    provider.issuer_url@,
                    nonce@,
                    now,
                    c@,
                ),
                Err(e) => claims is None && e is Claims,
            }
        }),
{
    match verify_token(
        id_token,
        provider.client_id.clone(),
        plain_secret.to_owned(),
        provider.issuer_url.clone(),
        keys,
        fitting_algorithms(algorithms, id_token),
        nonce.to_owned(),
        now,
    ) {
        Ok(claims) => identity_of(&json::parse_json(claims.as_str().as_bytes())),
        Err(e) => Err(OidcError::Claims(e)),
    }
}

/// Decides where an exchange leads, once the state was checked. The time is in
/// nanoseconds.
pub fn complete_login(
    provider: &OidcProvider,
    plain_secret: &str,
    login: &OidcLoginState,
    returned_state: &str,
    exchange: Exchange,
    now: i64,
) -> (r: AfterExchange)
    ensures
        if returned_state@ != login.csrf@ {
            r matches AfterExchange::End(Err(e)) && e@ == OidcErrorView::StateMismatch
        } else {
            match exchange {
                Exchange::NoMetadata(e) => r == AfterExchange::End(Err(e)),
                Exchange::BadRedirect(m) => r matches AfterExchange::End(Err(e)) && e@
                    == OidcErrorView::Url(m@),
                Exchange::Failed(m) => r matches AfterExchange::End(Err(e)) && e@
                    == OidcErrorView::Exchange(m@),
                Exchange::Unreadable(raw) => r == AfterExchange::Lenient(raw),
                Exchange::NoIdToken => r matches AfterExchange::End(Err(e)) && e@
                    == OidcErrorView::MissingIdToken,
                Exchange::Token { id_token, keys, algorithms } => {
                    let claims = verified_claims(
                        id_token@,
                        provider.client_id@,
                        plain_secret@,
                        provider.issuer_url@,
                        keys@,
                        fitting(text::texts(algorithms@), id_token@),
                        login.nonce@,
                        now,
                    );
                    match r {
                        AfterExchange::End(Ok(c)) => proves(
                            claims,
                            provider.client_id@,
                            provider.issuer_url@,
                            login.nonce@,
                            now,
                            c@,
                        ),
                        AfterExchange::End(Err(e)) => claims is None && e is Claims,
                        AfterExchange::Lenient(_) => false,
                    }
                },
            }
        },
{
    if let Err(e) = check_state(login, returned_state) {
        return AfterExchange::End(Err(e));
    }
    match exchange {
        Exchange::NoMetadata(e) => AfterExchange::End(Err(e)),
        Exchange::BadRedirect(m) => AfterExchange::End(Err(OidcError::Url(m))),
        Exchange::Failed(m) => AfterExchange::End(Err(OidcError::Exchange(m))),
        Exchange::Unreadable(raw) => AfterExchange::Lenient(raw),
        Exchange::NoIdToken => AfterExchange::End(Err(OidcError::MissingIdToken)),
        Exchange::Token { id_token, keys, algorithms } => AfterExchange::End(
            strict_validate(
                provider,
                plain_secret,
                login.nonce.as_str(),
                id_token.as_str(),
                keys.as_str(),
                &algorithms,
                now,
            ),
        ),
    }
}

/// The key id in the header of a token, where it names one, or the words of
/// the error.
pub uninterp spec fn token_key_id(token: Seq<char>) -> Result<Option<Seq<char>>, Seq<char>>;

/// The key with an id in a key set, as JSON, or the words of the error.
pub uninterp spec fn key_in_set(
    key_set: Seq<u8>,
    key_id: Seq<char>,
) -> Result<Option<Seq<char>>, Seq<char>>;

/// The claims of a token, as JSON, where its signature is valid under the key.
pub uninterp spec fn signed_claims(token: Seq<char>, key: Seq<char>) -> Option<Seq<char>>;

/// An optional text or the words of an error.
pub open spec fn found_view(r: Result<Option<String>, String>) -> Result<
    Option<Seq<char>>,
    Seq<char>,
> {
    match r {
        Ok(s) => Ok(json::opt_text(s)),
        Err(e) => Err(e@),
    }
}

/// `jsonwebtoken::decode_header`: the key id of the token's header. A function
/// of the token.
#[verifier::external_body]
fn header_key_id(token: &str) -> (r: Result<Option<String>, String>)
    ensures
        found_view(r) == token_key_id(token@),
{
    decode_header(token).map(|h| h.kid).map_err(|e| e.to_string())
}

/// `JwkSet::find` in a key set read by `serde_json`: the first key with the id.
/// A function of the bytes and the id.
#[verifier::external_body]
fn find_key(key_set: &[u8], key_id: &str) -> (r: Result<Option<String>, String>)
    ensures
        found_view(r) == key_in_set(key_set@, key_id@),
{
    let set: JwkSet = serde_json::from_slice(key_set).map_err(|e| e.to_string())?;
    set.find(key_id).map(|k| serde_json::to_string(k).map_err(|e| e.to_string())).transpose()
}

/// Why a token was not accepted.
#[derive(Debug)]
pub enum TokenFault {
    /// The key cannot be used.
    BadKey(String),
    /// The token is not valid: signature, expiry, issuer or audience.
    Invalid(String),
}

/// Whether the issuer that claims name, as one text, is the given one.
pub open spec fn issuer_agrees(claims: JsonView, issuer: Seq<char>) -> bool {
    json::text_field(claims, "iss"@) matches Some(iss) ==> iss == issuer
}

/// Whether the audience that claims name, as one text, is the given one.
pub open spec fn audience_agrees(claims: JsonView, audience: Seq<char>) -> bool {
    json::text_field(claims, "aud"@) matches Some(aud) ==> aud == audience
}

/// What a token is checked against: the key that it must be signed with, the
/// audience that it must be for and the issuer that it must be from.
#[derive(Debug)]
pub struct TokenCheck {
    pub token: String,
    pub key: String,
    pub audience: String,
    pub issuer: String,
}

/// `jsonwebtoken::decode` with the key made by `DecodingKey::from_jwk`, under a
/// `Validation` for the algorithm in the token's header, the audience and the
/// issuer. Whether a token is accepted depends on the time too, so only this is
/// stated: the claims of an accepted token are those of its payload, its
/// signature is valid under the key, and an issuer or audience that they name
/// as one text is the given one. A claim that occurs twice counts by its last
/// value.
#[verifier::external_body]
fn decode_token(check: &TokenCheck) -> (r: Result<String, TokenFault>)
    ensures
        r matches Ok(claims) ==> signed_claims(check.token@, check.key@) == Some(claims@),
        r matches Ok(claims) ==> (json::json_parsed(encode_utf8(claims@)) matches Ok(v)
            ==> issuer_agrees(v, check.issuer@) && audience_agrees(v, check.audience@)),
{
    let jwk: Jwk = serde_json::from_str(&check.key).map_err(|e| TokenFault::BadKey(e.to_string()))?;
    let key = DecodingKey::from_jwk(&jwk).map_err(|e| TokenFault::BadKey(e.to_string()))?;
    let header = decode_header(&check.token).map_err(|e| TokenFault::Invalid(e.to_string()))?;
    let mut validation = Validation::new(header.alg);
    validation.set_audience(&[&check.audience]);
    validation.set_issuer(&[&check.issuer]);
    let data = decode::<serde_json::Value>(&check.token, &key, &validation);
    data.map(|d| d.claims.to_string()).map_err(|e| TokenFault::Invalid(e.to_string()))
}

/// An ID token and the id of the key that signed it.
#[derive(Debug)]
pub struct LenientToken {
    pub id_token: String,
    pub key_id: String,
}

/// An error of the lenient validation.
pub open spec fn lenient_error(m: Seq<char>) -> OidcErrorView {
    OidcErrorView::Claims("lenient: "@ + m)
}

fn lenient_fault(heading: &str, e: &str) -> (r: OidcError)
    ensures
        r@ == lenient_error(heading@ + e@),
{
    let r = OidcError::Claims("lenient: ".to_owned().concat(heading).concat(e));
    assert("lenient: "@ + heading@ + e@ =~= "lenient: "@ + (heading@ + e@));
    r
}

/// The ID token in an answer of the token endpoint.
pub open spec fn id_token_in(
    answer: Result<JsonView, Seq<char>>,
) -> Result<Seq<char>, OidcErrorView> {
    match answer {
        Err(e) => Err(lenient_error("token response not JSON: "@ + e)),
        Ok(v) => match json::text_field(v, "id_token"@) {
            Some(t) => Ok(t),
            None => Err(OidcErrorView::MissingIdToken),
        },
    }
}

/// The key id that a token must name.
pub open spec fn key_id_of(
    header: Result<Option<Seq<char>>, Seq<char>>,
) -> Result<Seq<char>, OidcErrorView> {
    match header {
        Err(e) => Err(lenient_error("bad JWT header: "@ + e)),
        Ok(Some(kid)) => Ok(kid),
        Ok(None) => Err(lenient_error("id_token has no 'kid'"@)),
    }
}

/// The ID token of an answer and its key id.
pub open spec fn lenient_token_in(
    answer: Result<JsonView, Seq<char>>,
) -> Result<(Seq<char>, Seq<char>), OidcErrorView> {
    match id_token_in(answer) {
        Err(e) => Err(e),
        Ok(token) => match key_id_of(token_key_id(token)) {
            Err(e) => Err(e),
            Ok(kid) => Ok((token, kid)),
        },
    }
}

/// Picks the ID token out of a parsed answer.
pub fn id_token(answer: &Result<Json, String>) -> (r: Result<String, OidcError>)
    ensures
        match r {
            Ok(t) => id_token_in(json::parse_contents(*answer)) == Ok::<_, OidcErrorView>(t@),
            Err(e) => id_token_in(json::parse_contents(*answer)) == Err::<Seq<char>, _>(e@),
        },
{
    match answer {
        Err(e) => Err(lenient_fault("token response not JSON: ", e.as_str())),
        Ok(v) => match v.get_text("id_token") {
            Some(t) => Ok(t),
            None => Err(OidcError::MissingIdToken),
        },
    }
}

/// Picks the key id out of a decoded header.
pub fn key_id(header: Result<Option<String>, String>) -> (r: Result<String, OidcError>)
    ensures
        match r {
            Ok(k) => key_id_of(found_view(header)) == Ok::<_, OidcErrorView>(k@),
            Err(e) => key_id_of(found_view(header)) == Err::<Seq<char>, _>(e@),
        },
{
    match header {
        Err(e) => Err(lenient_fault("bad JWT header: ", e.as_str())),
        Ok(Some(kid)) => Ok(kid),
        Ok(None) => {
            let r = OidcError::Claims("lenient: ".to_owned().concat("id_token has no 'kid'"));
            Err(r)
        },
    }
}

/// Reads the raw answer of a token endpoint: its ID token and the id of the key
/// that signed it.
pub fn lenient_token(raw_token_response: &[u8]) -> (r: Result<LenientToken, OidcError>)
    ensures
        match r {
            Ok(t) => lenient_token_in(json::json_parsed(raw_token_response@)) == Ok::<
                _,
                OidcErrorView,
            >((t.id_token@, t.key_id@)),
            Err(e) => lenient_token_in(json::json_parsed(raw_token_response@)) == Err::<
                (Seq<char>, Seq<char>),
                _,
            >(e@),
        },
{
    let answer = json::parse_json(raw_token_response);
    let id_token = match id_token(&answer) {
        Ok(t) => t,
        Err(e) => {
            return Err(e);
        },
    };
    match key_id(header_key_id(id_token.as_str())) {
        Ok(key_id) => Ok(LenientToken { id_token, key_id }),
        Err(e) => Err(e),
    }
}

/// A claim that may be missing or null, but is a text otherwise.
pub open spec fn optional_text(
    claims: JsonView,
    name: Seq<char>,
) -> Result<Option<Seq<char>>, Seq<char>> {
    match json::field(claims, name) {
        None => Ok(None),
        Some(JsonView::Null) => Ok(None),
        Some(JsonView::Text(s)) => Ok(Some(s)),
        Some(_) => Err("JSON error: expected a string: "@ + name),
    }
}

/// A claim that must be a text.
pub open spec fn required_text(
    claims: JsonView,
    name: Seq<char>,
) -> Result<Seq<char>, Seq<char>> {
    match json::field(claims, name) {
        Some(JsonView::Text(s)) => Ok(s),
        _ => Err("JSON error: expected a string: "@ + name),
    }
}

/// Whether claims are meant for the audience: they name it, alone or in a list.
pub open spec fn meant_for(claims: JsonView, audience: Seq<char>) -> bool {
    match json::field(claims, "aud"@) {
        Some(JsonView::Text(a)) => a == audience,
        Some(JsonView::List(l)) => exists|i: int|
            0 <= i < l.len() && #[trigger] l[i] == JsonView::Text(audience),
        _ => false,
    }
}

fn is_meant_for(claims: &Json, audience: &str) -> (r: bool)
    ensures
        r == meant_for(json::contents(*claims), audience@),
{
    match claims.get("aud") {
        Some(Json::Text(a)) => text::str_eq(a.as_str(), audience),
        Some(Json::List(l)) => {
            let ghost all = json::contents(Json::List(*l))->List_0;
            for i in 0..l.len()
                invariant
                    all == json::contents(Json::List(*l))->List_0,
                    all.len() == l.len(),
                    json::field(json::contents(*claims), "aud"@) == Some(JsonView::List(all)),
                    forall|k: int|
                        0 <= k < i ==> #[trigger] all[k] != JsonView::Text(audience@),
            {
                assert(all[i as int] == json::contents(l[i as int]));
                if let Json::Text(a) = &l[i] {
                    if text::str_eq(a.as_str(), audience) {
                        assert(all[i as int] == JsonView::Text(audience@));
                        return true;
                    }
                }
            }
            false
        },
        _ => false,
    }
}

/// The identity in validated claims, where they are meant for the audience and
/// have the expected nonce.
pub open spec fn identity_in(
    claims: JsonView,
    audience: Seq<char>,
    expected_nonce: Seq<char>,
) -> Result<ClaimsView, OidcErrorView> {
    match (
        required_text(claims, "iss"@),
        required_text(claims, "sub"@),
        optional_text(claims, "email"@),
        optional_text(claims, "nonce"@),
    ) {
        (Ok(issuer), Ok(subject), Ok(email), Ok(nonce)) => if !meant_for(claims, audience) {
            Err(lenient_error("id_token validation failed: "@ + "InvalidAudience"@))
        } else if nonce == Some(expected_nonce) {
            Ok(ClaimsView { issuer, subject, email })
        } else {
            Err(lenient_error("nonce mismatch"@))
        },
        (Err(e), _, _, _) => Err(lenient_error("id_token validation failed: "@ + e)),
        (_, Err(e), _, _) => Err(lenient_error("id_token validation failed: "@ + e)),
        (_, _, Err(e), _) => Err(lenient_error("id_token validation failed: "@ + e)),
        (_, _, _, Err(e)) => Err(lenient_error("id_token validation failed: "@ + e)),
    }
}

fn read_required(claims: &Json, name: &str) -> (r: Result<String, String>)
    ensures
        json::print_contents(r) == required_text(json::contents(*claims), name@),
{
    match claims.get(name) {
        Some(Json::Text(s)) => Ok(s.clone()),
        _ => Err("JSON error: expected a string: ".to_owned().concat(name)),
    }
}

fn read_optional(claims: &Json, name: &str) -> (r: Result<Option<String>, String>)
    ensures
        found_view(r) == optional_text(json::contents(*claims), name@),
{
    match claims.get(name) {
        None => Ok(None),
        Some(Json::Null) => Ok(None),
        Some(Json::Text(s)) => Ok(Some(s.clone())),
        Some(_) => Err("JSON error: expected a string: ".to_owned().concat(name)),
    }
}

/// Takes the identity out of validated claims. They must be meant for this
/// client, and the nonce binds them to this login; claims of other shapes are
/// ignored.
pub fn identity_from(claims: &Json, audience: &str, expected_nonce: &str) -> (r: Result<
    OidcClaims,
    OidcError,
>)
    ensures
        verdict(r) == identity_in(json::contents(*claims), audience@, expected_nonce@),
{
    let issuer = match read_required(claims, "iss") {
        Ok(s) => s,
        Err(e) => {
            return Err(lenient_fault("id_token validation failed: ", e.as_str()));
        },
    };
    let subject = match read_required(claims, "sub") {
        Ok(s) => s,
        Err(e) => {
            return Err(lenient_fault("id_token validation failed: ", e.as_str()));
        },
    };
    let email = match read_optional(claims, "email") {
        Ok(s) => s,
        Err(e) => {
            return Err(lenient_fault("id_token validation failed: ", e.as_str()));
        },
    };
    let nonce = match read_optional(claims, "nonce") {
        Ok(s) => s,
        Err(e) => {
            return Err(lenient_fault("id_token validation failed: ", e.as_str()));
        },
    };
    if !is_meant_for(claims, audience) {
        return Err(lenient_fault("id_token validation failed: ", "InvalidAudience"));
    }
    let bound = match &nonce {
        Some(n) => text::str_eq(n.as_str(), expected_nonce),
        None => false,
    };
    if bound {
        Ok(OidcClaims { issuer, subject, email })
    } else {
        Err(OidcError::Claims("lenient: ".to_owned().concat("nonce mismatch")))
    }
}

/// The signing key of a token in a key set.
pub open spec fn signing_key(
    found: Result<Option<Seq<char>>, Seq<char>>,
) -> Result<Seq<char>, OidcErrorView> {
    match found {
        Err(e) => Err(OidcErrorView::Discovery("lenient: JWKS parse failed: "@ + e)),
        Ok(Some(key)) => Ok(key),
        Ok(None) => Err(lenient_error("signing key not in JWKS"@)),
    }
}

/// Picks the signing key out of the result of a lookup.
pub fn signing_key_of(found: Result<Option<String>, String>) -> (r: Result<String, OidcError>)
    ensures
        match r {
            Ok(k) => signing_key(found_view(found)) == Ok::<_, OidcErrorView>(k@),
            Err(e) => signing_key(found_view(found)) == Err::<Seq<char>, _>(e@),
        },
{
    match found {
        Err(e) => Err(
            OidcError::Discovery("lenient: JWKS parse failed: ".to_owned().concat(e.as_str())),
        ),
        Ok(Some(key)) => Ok(key),
        Ok(None) => {
            Err(OidcError::Claims("lenient: ".to_owned().concat("signing key not in JWKS")))
        },
    }
}

/// The claims of a token whose signature is valid under the key of that id in
/// the key set.
pub open spec fn proved_claims(
    key_set: Seq<u8>,
    key_id: Seq<char>,
    token: Seq<char>,
) -> Option<JsonView> {
    match key_in_set(key_set, key_id) {
        Ok(Some(key)) => match signed_claims(token, key) {
            Some(claims) => match json::json_parsed(encode_utf8(claims)) {
                Ok(v) => Some(v),
                Err(_) => None,
            },
            None => None,
        },
        _ => None,
    }
}

/// The words for a token that was not accepted.
pub open spec fn fault_error(fault: TokenFault) -> OidcErrorView {
    match fault {
        TokenFault::BadKey(e) => lenient_error("unusable JWK: "@ + e@),
        TokenFault::Invalid(e) => lenient_error("id_token validation failed: "@ + e@),
    }
}

/// Says why a token was not accepted.
pub fn token_error(fault: TokenFault) -> (r: OidcError)
    ensures
        r@ == fault_error(fault),
{
    match fault {
        TokenFault::BadKey(e) => lenient_fault("unusable JWK: ", e.as_str()),
        TokenFault::Invalid(e) => lenient_fault("id_token validation failed: ", e.as_str()),
    }
}

/// The identity in the claims of a decoded token, given as JSON.
pub open spec fn claimed_identity(
    claims: Seq<char>,
    client_id: Seq<char>,
    expected_nonce: Seq<char>,
) -> Result<ClaimsView, OidcErrorView> {
    match json::json_parsed(encode_utf8(claims)) {
        Err(e) => Err(lenient_error("id_token validation failed: "@ + e)),
        Ok(v) => identity_in(v, client_id, expected_nonce),
    }
}

proof fn not_the_missing_key(m: Seq<char>)
    requires
        m.len() > 0,
        m[0] != 's',
    ensures
        lenient_error(m) != lenient_error("signing key not in JWKS"@),
{
    reveal_strlit("lenient: ");
    reveal_strlit("signing key not in JWKS");
    let all = "lenient: "@ + m;
    let other = "lenient: "@ + "signing key not in JWKS"@;
    assert(all[9] == m[0]);
    assert(other[9] == 's');
}

/// No fault of the decoder and no claims are reported as a missing key or an
/// unreadable key set.
proof fn decoded_errors_are_told_apart(
    decoded: Result<String, TokenFault>,
    shape: Result<(), String>,
    client_id: Seq<char>,
    expected_nonce: Seq<char>,
)
    ensures
        decoded_identity(decoded, shape, client_id, expected_nonce) != Err::<ClaimsView, _>(
            lenient_error("signing key not in JWKS"@),
        ),
        !(decoded_identity(decoded, shape, client_id, expected_nonce) matches Err(
            OidcErrorView::Discovery(_),
        )),
{
    reveal_strlit("unusable JWK: ");
    reveal_strlit("id_token validation failed: ");
    reveal_strlit("nonce mismatch");
    not_the_missing_key("nonce mismatch"@);
    assert forall|e: Seq<char>|
        #![trigger lenient_error("id_token validation failed: "@ + e)]
        lenient_error("id_token validation failed: "@ + e) != lenient_error(
            "signing key not in JWKS"@,
        ) by {
        not_the_missing_key("id_token validation failed: "@ + e);
    }
    if let Err(TokenFault::BadKey(e)) = decoded {
        not_the_missing_key("unusable JWK: "@ + e@);
    }
}

/// The identity in the claims of a decoded token, once it is known whether each
/// of the claims that count has the right shape and stands there once.
pub open spec fn shaped_identity(
    claims: Seq<char>,
    shape: Result<(), String>,
    client_id: Seq<char>,
    expected_nonce: Seq<char>,
) -> Result<ClaimsView, OidcErrorView> {
    match shape {
        Err(e) => Err(lenient_error("id_token validation failed: "@ + e@)),
        Ok(()) => claimed_identity(claims, client_id, expected_nonce),
    }
}

/// What follows from the decoder's result: its fault in words, or the identity
/// in the claims.
pub open spec fn decoded_identity(
    decoded: Result<String, TokenFault>,
    shape: Result<(), String>,
    client_id: Seq<char>,
    expected_nonce: Seq<char>,
) -> Result<ClaimsView, OidcErrorView> {
    match decoded {
        Err(fault) => Err(fault_error(fault)),
        Ok(claims) => shaped_identity(claims@, shape, client_id, expected_nonce),
    }
}

/// Takes the identity out of what the decoder gave. `shape` says whether the
/// claims `iss`, `sub`, `email` and `nonce` read as texts, each at most once
/// and the first two not missing, or the words of the error.
pub fn lenient_identity(
    decoded: Result<String, TokenFault>,
    shape: &Result<(), String>,
    client_id: &str,
    expected_nonce: &str,
) -> (r: Result<OidcClaims, OidcError>)
    ensures
        verdict(r) == decoded_identity(decoded, *shape, client_id@, expected_nonce@),
{
    let claims = match decoded {
        Ok(c) => c,
        Err(fault) => {
            return Err(token_error(fault));
        },
    };
    if let Err(e) = shape {
        return Err(lenient_fault("id_token validation failed: ", e.as_str()));
    }
    match json::parse_json(claims.as_str().as_bytes()) {
        Ok(parsed) => identity_from(&parsed, client_id, expected_nonce),
        Err(e) => Err(lenient_fault("id_token validation failed: ", e.as_str())),
    }
}

/// Whether a verdict follows from a result that the decoder may have given: a
/// fault, or the claims of the token with a signature that is valid under the
/// key.
pub open spec fn follows_from_decoding(
    r: Result<ClaimsView, OidcErrorView>,
    check: TokenCheck,
    shape: Result<(), String>,
    expected_nonce: Seq<char>,
) -> bool {
    ||| exists|fault: TokenFault| r == Err::<ClaimsView, _>(#[trigger] fault_error(fault))
    ||| signed_claims(check.token@, check.key@) matches Some(claims) && r == shaped_identity(
        claims,
        shape,
        check.audience@,
        expected_nonce,
    )
}

/// Whether a token is checked against the provider's key with its id, for the
/// client and the issuer.
pub open spec fn checks(
    check: TokenCheck,
    issuer_url: Seq<char>,
    client_id: Seq<char>,
    token: LenientToken,
    key: Seq<char>,
) -> bool {
    &&& check.token@ == token.id_token@
    &&& check.key@ == key
    &&& check.audience@ == client_id
    &&& check.issuer@ == issuer_url
}

/// What a token is checked against, where its key is in the key set.
pub fn token_check(issuer_url: &str, client_id: &str, token: &LenientToken, key_set: &[u8]) -> (r:
    Result<TokenCheck, OidcError>)
    ensures
        match (r, signing_key(key_in_set(key_set@, token.key_id@))) {
            (Ok(check), Ok(key)) => checks(check, issuer_url@, client_id@, *token, key),
            (Err(e), Err(f)) => e@ == f,
            _ => false,
        },
{
    match signing_key_of(find_key(key_set, token.key_id.as_str())) {
        Ok(key) => Ok(
            TokenCheck {
                token: token.id_token.clone(),
                key,
                audience: client_id.to_owned(),
                issuer: issuer_url.to_owned(),
            },
        ),
        Err(e) => Err(e),
    }
}

/// Validates an ID token of a provider whose answers do not have the standard
/// shape. Signature, issuer, audience, expiry and nonce are all verified; only
/// the shape of claims that are not needed is tolerated. Without a signing key
/// the error says so. With one the verdict is that of [`lenient_identity`] on
/// what the decoder gave for [`token_check`]; the decoder reads the clock.
pub fn lenient_validate(
    issuer_url: &str,
    client_id: &str,
    token: &LenientToken,
    key_set: &[u8],
    shape: &Result<(), String>,
    expected_nonce: &str,
) -> (r: Result<OidcClaims, OidcError>)
    ensures
        match signing_key(key_in_set(key_set@, token.key_id@)) {
            Err(e) => verdict(r) == Err::<ClaimsView, _>(e),
            Ok(key) => exists|check: TokenCheck| #[trigger]
                checks(check, issuer_url@, client_id@, *token, key) && follows_from_decoding(
                    verdict(r),
                    check,
                    *shape,
                    expected_nonce@,
                ),
        },
        // a missing key set or key is reported exactly where it is missing
        verdict(r) matches Err(OidcErrorView::Discovery(_)) <==> key_in_set(
            key_set@,
            token.key_id@,
        ) is Err,
        verdict(r) == Err::<ClaimsView, _>(lenient_error("signing key not in JWKS"@))
            <==> key_in_set(key_set@, token.key_id@) == Ok::<Option<Seq<char>>, Seq<char>>(None),
        verdict(r) matches Ok(c) ==> {
            &&& c.issuer == issuer_url@
            &&& *shape is Ok
            &&& proved_claims(key_set@, token.key_id@, token.id_token@) matches Some(v)
            &&& meant_for(v, client_id@)
            &&& identity_in(v, client_id@, expected_nonce@) == Ok::<_, OidcErrorView>(c)
        },
{
    let check = match token_check(issuer_url, client_id, token, key_set) {
        Ok(check) => check,
        Err(e) => {
            return Err(e);
        },
    };
    let decoded = decode_token(&check);
    let r = lenient_identity(decoded, shape, client_id, expected_nonce);
    proof {
        decoded_errors_are_told_apart(decoded, *shape, client_id@, expected_nonce@);
        let key = signing_key(key_in_set(key_set@, token.key_id@))->Ok_0;
        assert(checks(check, issuer_url@, client_id@, *token, key));
    }
    r
}

/// The address that starts a login carries what binds the login: the state and
/// the nonce that are kept, the place to come back to, and only the digest of
/// the verifier.
pub proof fn address_carries_the_login(
    provider: OidcProvider,
    endpoint: Seq<char>,
    redirect_uri: Seq<char>,
    address: Seq<char>,
    login: OidcLoginState,
)
    requires
        login_started(provider, endpoint, redirect_uri, address, login),
    ensures
        urls::url_query_pairs(address) matches Some(pairs) && {
            &&& pairs.contains(("state"@, login.csrf@))
            &&& pairs.contains(("nonce"@, login.nonce@))
            &&& pairs.contains(("redirect_uri"@, login.redirect_uri@))
            &&& pairs.contains(("code_challenge_method"@, "S256"@))
            &&& pairs.contains(
                (
                    "code_challenge"@,
                    base64url(sso_pages::sha256_of(encode_utf8(login.pkce_verifier@))),
                ),
            )
        },
{
    let own = urls::url_query_pairs(endpoint)->Some_0;
    let asked = authorization_pairs(
        provider.client_id@,
        redirect_uri,
        scope_text(provider.scopes@),
        login.csrf@,
        login.nonce@,
        login.pkce_verifier@,
    );
    let pairs = own + asked;
    let n: int = own.len() as int;
    assert(pairs[n + 2] == asked[2]);
    assert(pairs[n + 3] == asked[3]);
    assert(pairs[n + 4] == asked[4]);
    assert(pairs[n + 5] == asked[5]);
    assert(pairs[n + 7] == asked[7]);
}

/// Claims that do not name the expected nonce are refused: a token of another
/// login, or of none, proves nothing.
pub proof fn nonce_binds_the_login(
    claims: JsonView,
    audience: Seq<char>,
    expected_nonce: Seq<char>,
)
    requires
        json::text_field(claims, "nonce"@) != Some(expected_nonce),
    ensures
        identity_in(claims, audience, expected_nonce) is Err,
{
}

/// Claims that are not meant for this client are refused.
pub proof fn audience_binds_the_client(
    claims: JsonView,
    audience: Seq<char>,
    expected_nonce: Seq<char>,
)
    requires
        !meant_for(claims, audience),
    ensures
        identity_in(claims, audience, expected_nonce) is Err,
{
}

proof fn words_go_on(a: Seq<char>, c: char, b: Seq<char>)
    requires
        text::is_white_space(c),
    ensures
        word_state(a.push(c) + b) == (words(a) + word_state(b).0, word_state(b).1),
    decreases b.len(),
{
    let s = a.push(c) + b;
    if b.len() == 0 {
        assert(s =~= a.push(c));
        assert(s.drop_last() =~= a);
        assert(words(a) + word_state(b).0 =~= words(a));
        assert(word_state(s).1 =~= word_state(b).1);
    } else {
        words_go_on(a, c, b.drop_last());
        assert(s.drop_last() =~= a.push(c) + b.drop_last());
        assert(s.last() == b.last());
        assert(word_state(s).0 =~= words(a) + word_state(b).0);
    }
}

proof fn one_word_stays_open(w: Seq<char>)
    requires
        forall|i: int| 0 <= i < w.len() ==> !text::is_white_space(#[trigger] w[i]),
    ensures
        word_state(w) == (Seq::<Seq<char>>::empty(), w),
    decreases w.len(),
{
    if w.len() > 0 {
        assert forall|i: int| 0 <= i < w.drop_last().len() implies !text::is_white_space(
            #[trigger] w.drop_last()[i],
        ) by {
            assert(w.drop_last()[i] == w[i]);
        }
        one_word_stays_open(w.drop_last());
        assert(w.drop_last().push(w.last()) =~= w);
    } else {
        assert(w =~= Seq::<char>::empty());
    }
}

/// A text without white space is one word, or none where it is empty; at every
/// white space character the words before it end and those behind it begin.
pub proof fn words_end_at_white_space(w: Seq<char>, a: Seq<char>, c: char, b: Seq<char>)
    ensures
        words(Seq::empty()) == Seq::<Seq<char>>::empty(),
        is_word(w) ==> words(w) == seq![w],
        text::is_white_space(c) ==> words(a.push(c) + b) == words(a) + words(b),
{
    if is_word(w) {
        one_word_stays_open(w);
        assert(words(w) =~= seq![w]);
    }
    if text::is_white_space(c) {
        words_go_on(a, c, b);
        assert(words(a.push(c) + b) =~= words(a) + words(b));
    }
}

/// What is asked for, parted at the spaces, is `openid` and then all the scopes
/// of the list in their order, but for any further `openid` in capitals or
/// small letters.
pub proof fn listed_scopes_are_asked_for(scopes: Seq<char>)
    ensures
        text::split_on(scope_text(scopes), ' ') == seq![seq!['o', 'p', 'e', 'n', 'i', 'd']]
            + words(scopes).filter(
            |w: Seq<char>| !text::letters_agree(w, seq!['o', 'p', 'e', 'n', 'i', 'd']),
        ),
{
    reveal_strlit("openid");
    reveal_strlit(" ");
    let name = seq!['o', 'p', 'e', 'n', 'i', 'd'];
    assert("openid"@ =~= name);
    assert(" "@ =~= seq![' ']);
    let keep = |w: Seq<char>| !text::letters_agree(w, name);
    assert forall|w: Seq<char>| #[trigger] named_scope()(w) == keep(w) by {
        text::ignoring_case_is_letter_by_letter(w, name);
    }
    assert(named_scope() =~= keep);
    let asked = words(scopes).filter(keep);
    let parts = seq![name] + asked;
    scopes_are_words(scopes);
    assert forall|i: int| 0 <= i < parts.len() implies !(#[trigger] parts[i]).contains(' ') by {
        if i > 0 {
            assert(parts[i] == asked[i - 1]);
            let at = sorting::kept_places(words(scopes), keep);
            assert(asked[i - 1] == words(scopes)[at[i - 1]]);
            assert(is_word(words(scopes)[at[i - 1]]));
        }
    }
    text::split_of_join(parts, ' ');
}

/// An authorization asks for a code, names the client and the scopes, and adds
/// to the endpoint's query eight pairs in all and takes nothing out of it.
pub proof fn authorizations_ask_for_a_code(
    provider: OidcProvider,
    endpoint: Seq<char>,
    redirect_uri: Seq<char>,
    address: Seq<char>,
    login: OidcLoginState,
)
    requires
        login_started(provider, endpoint, redirect_uri, address, login),
    ensures
        urls::url_query_pairs(endpoint) matches Some(own) && (urls::url_query_pairs(address)
            matches Some(pairs) && {
            let added = pairs.skip(own.len() as int);
            &&& pairs.len() == own.len() + 8
            &&& pairs.take(own.len() as int) == own
            &&& added.contains(("response_type"@, "code"@))
            &&& added.contains(("client_id"@, provider.client_id@))
            &&& added.contains(("redirect_uri"@, redirect_uri))
            &&& added.contains(("scope"@, scope_text(provider.scopes@)))
            &&& added.contains(("state"@, login.csrf@))
            &&& added.contains(("nonce"@, login.nonce@))
            &&& login.provider_slug@ == provider.slug@
            &&& login.redirect_uri@ == redirect_uri
        }),
{
    let own = urls::url_query_pairs(endpoint)->Some_0;
    let asked = authorization_pairs(
        provider.client_id@,
        redirect_uri,
        scope_text(provider.scopes@),
        login.csrf@,
        login.nonce@,
        login.pkce_verifier@,
    );
    let pairs = own + asked;
    let added = pairs.skip(own.len() as int);
    assert(added =~= asked);
    assert(pairs.take(own.len() as int) =~= own);
    assert(asked[0] == ("response_type"@, "code"@));
    assert(asked[1] == ("client_id"@, provider.client_id@));
    assert(asked[2] == ("state"@, login.csrf@));
    assert(asked[5] == ("redirect_uri"@, redirect_uri));
    assert(asked[6] == ("scope"@, scope_text(provider.scopes@)));
    assert(asked[7] == ("nonce"@, login.nonce@));
}

/// A login needs three valid addresses and room for the request; the issuer's
/// fault counts first, then the endpoint's, then that of the address to come
/// back to, and a request that is too long last.
pub proof fn logins_need_valid_addresses(
    provider: OidcProvider,
    endpoint: Seq<char>,
    redirect_uri: Seq<char>,
    secrets: nat,
)
    ensures
        ({
            let a = urls::url_parsed(provider.issuer_url@);
            let b = urls::url_parsed(endpoint);
            let c = urls::url_parsed(redirect_uri);
            let room = urls::can_append(
                endpoint,
                request_size(
                    provider.client_id@,
                    redirect_uri,
                    scope_text(provider.scopes@),
                    secrets,
                ),
            );
            let r = unusable_login(provider, endpoint, redirect_uri, secrets);
            &&& r is None <==> a is Ok && b is Ok && c is Ok && room
            &&& a matches Err(e) ==> r == Some(e)
            &&& a is Ok && b is Err ==> r == Some(b->Err_0)
            &&& a is Ok && b is Ok && c is Err ==> r == Some(c->Err_0)
            &&& a is Ok && b is Ok && c is Ok && !room ==> r == Some(urls::too_long())
        }),
{
}

/// A request takes the bytes of its texts and a hundred and fifty more.
pub proof fn sizes_of_requests_add_up(
    client_id: Seq<char>,
    redirect_uri: Seq<char>,
    scope: Seq<char>,
    csrf: Seq<char>,
    nonce: Seq<char>,
)
    ensures
        request_size(client_id, redirect_uri, scope, secrets_size(csrf, nonce)) == 150
            + urls::form_size(encode_utf8(client_id)) + urls::form_size(encode_utf8(redirect_uri))
            + urls::form_size(encode_utf8(scope)) + urls::form_size(encode_utf8(csrf))
            + urls::form_size(encode_utf8(nonce)),
{
}

/// The signature of a token is all that stands behind its last dot.
pub proof fn signatures_stand_behind_the_last_dot(head: Seq<char>, signature: Seq<char>)
    requires
        !signature.contains('.'),
    ensures
        signature_part(head.push('.') + signature) == signature,
        signature_part(signature) == signature,
    decreases signature.len(),
{
    let s = head.push('.') + signature;
    if signature.len() == 0 {
        assert(s =~= head.push('.'));
        assert(signature =~= Seq::<char>::empty());
    } else {
        let shorter = signature.drop_last();
        assert forall|i: int| 0 <= i < shorter.len() implies shorter[i] != '.' by {
            assert(signature.contains(signature[i]));
        }
        assert(signature.contains(signature.last()));
        signatures_stand_behind_the_last_dot(head, shorter);
        assert(s.drop_last() =~= head.push('.') + shorter);
        assert(s.last() == signature.last());
        text::split_on_nonempty(s.drop_last(), '.');
        text::split_on_nonempty(shorter, '.');
        assert(shorter.push(signature.last()) =~= signature);
    }
}

/// Only an algorithm with a shared secret is left out, and only where the
/// signature has another size than its digest; all the others stay, in their
/// order.
pub proof fn only_signatures_of_another_size_rule_out(
    algorithms: Seq<Seq<char>>,
    token: Seq<char>,
    i: int,
)
    requires
        0 <= i < algorithms.len(),
    ensures
        ({
            let a = algorithms[i];
            let n = signature_part(token).len();
            let out = {
                ||| a == seq!['H', 'S', '2', '5', '6'] && n != 43
                ||| a == seq!['H', 'S', '3', '8', '4'] && n != 64
                ||| a == seq!['H', 'S', '5', '1', '2'] && n != 86
            };
            fitting(algorithms, token).contains(a) <==> !out
        }),
        forall|k: int|
            0 <= k < fitting(algorithms, token).len() ==> algorithms.contains(
                #[trigger] fitting(algorithms, token)[k],
            ),
{
    reveal_strlit("HS256");
    reveal_strlit("HS384");
    reveal_strlit("HS512");
    assert("HS256"@ =~= seq!['H', 'S', '2', '5', '6']);
    assert("HS384"@ =~= seq!['H', 'S', '3', '8', '4']);
    assert("HS512"@ =~= seq!['H', 'S', '5', '1', '2']);
    let keep = |a: Seq<char>| signature_fits(a, token);
    let kept = algorithms.filter(keep);
    let at = sorting::kept_places(algorithms, keep);
    assert forall|k: int| 0 <= k < kept.len() implies algorithms.contains(#[trigger] kept[k]) by {
        assert(kept[k] == algorithms[at[k]]);
    }
    let a = algorithms[i];
    if keep(a) {
        algorithms.lemma_filter_contains(keep, i);
    }
    if kept.contains(a) {
        let k = kept.index_of(a);
        algorithms.lemma_filter_pred(keep, k);
    }
}

/// Claims state an identity where the issuer and the subject are texts, and the
/// email is a text, null or missing; the identity is made of these. The first
/// of the three that is not so is named in the error.
pub proof fn identities_are_read_claim_by_claim(claims: JsonView)
    ensures
        ({
            let iss = json::field(claims, "iss"@);
            let sub = json::field(claims, "sub"@);
            let email = json::field(claims, "email"@);
            let good = email is None || email == Some(JsonView::Null) || (email matches Some(
                JsonView::Text(_),
            ));
            let r = stated_identity(claims);
            &&& r is Ok <==> (iss matches Some(JsonView::Text(_))) && (sub matches Some(
                JsonView::Text(_),
            )) && good
            &&& r matches Ok(c) ==> {
                &&& iss == Some(JsonView::Text(c.issuer))
                &&& sub == Some(JsonView::Text(c.subject))
                &&& c.email is Some <==> (email matches Some(JsonView::Text(_)))
                &&& c.email matches Some(m) ==> email == Some(JsonView::Text(m))
            }
            &&& !(iss matches Some(JsonView::Text(_))) ==> r == Err::<ClaimsView, _>(
                "JSON error: expected a string: "@ + "iss"@,
            )
            &&& (iss matches Some(JsonView::Text(_))) && !(sub matches Some(JsonView::Text(_)))
                ==> r == Err::<ClaimsView, _>("JSON error: expected a string: "@ + "sub"@)
            &&& (iss matches Some(JsonView::Text(_))) && (sub matches Some(JsonView::Text(_)))
                && !good ==> r == Err::<ClaimsView, _>(
                "JSON error: expected a string: "@ + "email"@,
            )
        }),
{
}

/// The claims of a decoded token prove the identity that they state, exactly
/// where they name the client as their audience, alone or in a list, and the
/// nonce of the login as a text.
pub proof fn claims_prove_what_they_state(
    claims: JsonView,
    audience: Seq<char>,
    expected_nonce: Seq<char>,
)
    ensures
        ({
            let aud = json::field(claims, "aud"@);
            let named = aud == Some(JsonView::Text(audience)) || (aud matches Some(
                JsonView::List(l),
            ) && l.contains(JsonView::Text(audience)));
            let bound = json::field(claims, "nonce"@) == Some(JsonView::Text(expected_nonce));
            &&& identity_in(claims, audience, expected_nonce) is Ok <==> stated_identity(
                claims,
            ) is Ok && named && bound
            &&& identity_in(claims, audience, expected_nonce) matches Ok(c) ==> stated_identity(
                claims,
            ) == Ok::<_, Seq<char>>(c)
            &&& meant_for(claims, audience) <==> named
        }),
{
    if let Some(JsonView::List(l)) = json::field(claims, "aud"@) {
        if l.contains(JsonView::Text(audience)) {
            let i = l.index_of(JsonView::Text(audience));
            assert(l[i] == JsonView::Text(audience));
        }
    }
}

/// Claims that state an identity for this client are refused for the nonce
/// alone, and claims that do not are refused as invalid whatever nonce they name.
pub proof fn refused_claims_say_why(
    claims: JsonView,
    audience: Seq<char>,
    expected_nonce: Seq<char>,
)
    ensures
        ({
            let r = identity_in(claims, audience, expected_nonce);
            let nonce = json::field(claims, "nonce"@);
            let readable = nonce is None || nonce == Some(JsonView::Null) || (nonce matches Some(
                JsonView::Text(_),
            ));
            let heading = "lenient: "@;
            &&& stated_identity(claims) matches Err(e) ==> r == Err::<ClaimsView, _>(
                OidcErrorView::Claims(heading + ("id_token validation failed: "@ + e)),
            )
            &&& stated_identity(claims) is Ok && !readable ==> r == Err::<ClaimsView, _>(
                OidcErrorView::Claims(
                    heading + ("id_token validation failed: "@
                        + ("JSON error: expected a string: "@ + "nonce"@)),
                ),
            )
            &&& stated_identity(claims) is Ok && readable && !meant_for(claims, audience) ==> r
                == Err::<ClaimsView, _>(
                OidcErrorView::Claims(
                    heading + ("id_token validation failed: "@ + "InvalidAudience"@),
                ),
            )
            &&& stated_identity(claims) is Ok && readable && meant_for(claims, audience) && nonce
                != Some(JsonView::Text(expected_nonce)) ==> r == Err::<ClaimsView, _>(
                OidcErrorView::Claims(heading + "nonce mismatch"@),
            )
        }),
{
}

/// An answer gives its ID token where it is JSON with a text under that name,
/// and the token its key id where the header can be read and names one.
pub proof fn tokens_are_read_from_the_answer(
    answer: Result<JsonView, Seq<char>>,
    header: Result<Option<Seq<char>>, Seq<char>>,
    found: Result<Option<Seq<char>>, Seq<char>>,
)
    ensures
        id_token_in(answer) is Ok <==> (answer matches Ok(v) && (json::field(v, "id_token"@)
            matches Some(JsonView::Text(_)))),
        id_token_in(answer) matches Ok(t) ==> json::field(answer->Ok_0, "id_token"@) == Some(
            JsonView::Text(t),
        ),
        id_token_in(answer) == Err::<Seq<char>, _>(OidcErrorView::MissingIdToken) <==> answer is Ok
            && !(json::field(answer->Ok_0, "id_token"@) matches Some(JsonView::Text(_))),
        key_id_of(header) is Ok <==> (header matches Ok(k) && k is Some),
        key_id_of(header) matches Ok(k) ==> header == Ok::<_, Seq<char>>(Some(k)),
        signing_key(found) is Ok <==> (found matches Ok(k) && k is Some),
        signing_key(found) matches Ok(k) ==> found == Ok::<_, Seq<char>>(Some(k)),
        signing_key(found) matches Err(OidcErrorView::Discovery(_)) <==> found is Err,
        lenient_token_in(answer) is Ok <==> id_token_in(answer) is Ok && key_id_of(
            token_key_id(id_token_in(answer)->Ok_0),
        ) is Ok,
        lenient_token_in(answer) matches Ok((t, k)) ==> id_token_in(answer) == Ok::<
            _,
            OidcErrorView,
        >(t) && token_key_id(t) == Ok::<_, Seq<char>>(Some(k)),
        id_token_in(answer) matches Err(e) ==> lenient_token_in(answer) == Err::<
            (Seq<char>, Seq<char>),
            _,
        >(e),
{
}

/// A verdict on a decoded token is an identity only where the decoder gave
/// claims, their shape was right, and they are JSON that proves it.
pub proof fn verdicts_need_decoded_claims(
    decoded: Result<String, TokenFault>,
    shape: Result<(), String>,
    client_id: Seq<char>,
    expected_nonce: Seq<char>,
)
    ensures
        ({
            let r = decoded_identity(decoded, shape, client_id, expected_nonce);
            &&& r is Ok <==> decoded is Ok && shape is Ok && (json::json_parsed(
                encode_utf8((decoded->Ok_0)@),
            ) matches Ok(v) && identity_in(v, client_id, expected_nonce) is Ok)
            &&& r matches Ok(c) ==> identity_in(
                json::json_parsed(encode_utf8((decoded->Ok_0)@))->Ok_0,
                client_id,
                expected_nonce,
            ) == Ok::<_, OidcErrorView>(c)
        }),
{
}

/// Three bytes become four characters whose places in the alphabet, read as
/// digits of base sixty-four, spell the number that the bytes spell; bytes
/// behind the end count as zero.
pub proof fn three_bytes_become_four_characters(bytes: Seq<u8>, i: int)
    requires
        0 <= i,
    ensures
        65536 * byte_at(bytes, 3 * i) + 256 * byte_at(bytes, 3 * i + 1) + byte_at(
            bytes,
            3 * i + 2,
        ) == 262144 * six_bits(bytes, 4 * i) + 4096 * six_bits(bytes, 4 * i + 1) + 64 * six_bits(
            bytes,
            4 * i + 2,
        ) + six_bits(bytes, 4 * i + 3),
        0 <= six_bits(bytes, 4 * i) < 64,
        0 <= six_bits(bytes, 4 * i + 1) < 64,
        0 <= six_bits(bytes, 4 * i + 2) < 64,
        0 <= six_bits(bytes, 4 * i + 3) < 64,
{
    let a = byte_at(bytes, 3 * i);
    let b = byte_at(bytes, 3 * i + 1);
    let c = byte_at(bytes, 3 * i + 2);
    let d = byte_at(bytes, 3 * i + 3);
    assert(six_bits(bytes, 4 * i) == (256 * a + b) / 1024 % 64) by {
        assert(6 * (4 * i) == 8 * (3 * i));
    }
    assert(six_bits(bytes, 4 * i + 1) == (256 * a + b) / 16 % 64) by {
        assert(6 * (4 * i + 1) == 8 * (3 * i) + 6);
    }
    assert(six_bits(bytes, 4 * i + 2) == (256 * b + c) / 64 % 64) by {
        assert(6 * (4 * i + 2) == 8 * (3 * i + 1) + 4);
    }
    assert(six_bits(bytes, 4 * i + 3) == (256 * c + d) / 256 % 64) by {
        assert(6 * (4 * i + 3) == 8 * (3 * i + 2) + 2);
    }
    four_digits_of_three_bytes(a, b, c, d);
}

proof fn four_digits_of_three_bytes(a: int, b: int, c: int, d: int)
    requires
        0 <= a < 256,
        0 <= b < 256,
        0 <= c < 256,
        0 <= d < 256,
    ensures
        (256 * a + b) / 1024 % 64 == a / 4,
        (256 * a + b) / 16 % 64 == 16 * (a % 4) + b / 16,
        (256 * b + c) / 64 % 64 == 4 * (b % 16) + c / 64,
        (256 * c + d) / 256 % 64 == c % 64,
{
    assert((256 * a + b) / 1024 == a / 4);
    assert((256 * a + b) / 16 == 64 * (a / 4) + 16 * (a % 4) + b / 16);
    assert((256 * b + c) / 64 == 64 * (b / 16) + 4 * (b % 16) + c / 64);
    assert((256 * c + d) / 256 == c);
}

}
