use jellyswarrm::json::Json;
use jellyswarrm::oidc::{
    begin_login, check_state, complete_login, exchange_of, id_token, identity_from, identity_of,
    key_id, lenient_identity, lenient_token, lenient_validate, requested_scopes, signing_key_of,
    start_login, token_check, token_error,
    AfterExchange, Exchange, LenientToken, LoginSecrets, OidcClaims, OidcError, OidcLoginState,
    TokenFault, FIXED_SIZE,
};
use jellyswarrm::oidc_storage::OidcProvider;
use jellyswarrm::urls::size_of_text;
use jsonwebtoken::{encode, EncodingKey, Header};

const ISSUER: &str = "https://idp.example";
const CLIENT: &str = "client-1";

/// The key set of a provider with one symmetric key, the base64 form of `secret`.
const KEYS: &[u8] =
    br#"{"keys":[{"kty":"oct","kid":"k1","alg":"HS256","use":"sig","k":"c2VjcmV0"}]}"#;

fn now() -> u64 {
    std::time::SystemTime::now().duration_since(std::time::UNIX_EPOCH).unwrap().as_secs()
}

fn signed(secret: &[u8], key_id: Option<&str>, claims: &str) -> String {
    let claims: serde_json::Value = serde_json::from_str(claims).unwrap();
    let mut header = Header::default();
    header.kid = key_id.map(String::from);
    encode(&header, &claims, &EncodingKey::from_secret(secret)).unwrap()
}

fn claims(iss: &str, aud: &str, exp: u64, nonce: &str) -> String {
    format!(
        "{{\"iss\":\"{}\",\"aud\":{},\"exp\":{},\"sub\":\"s1\",\"email\":\"a@b\",\"nonce\":\"{}\",\"address\":[1]}}",
        iss, aud, exp, nonce
    )
}

fn answer(token: &str) -> Vec<u8> {
    format!("{{\"id_token\":\"{}\"}}", token).into_bytes()
}

fn validate(token: String) -> Result<OidcClaims, OidcError> {
    let token = lenient_token(&answer(&token))?;
    lenient_validate(ISSUER, CLIENT, &token, KEYS, &Ok(()), "n1")
}

fn words(r: Result<OidcClaims, OidcError>) -> String {
    r.unwrap_err().message()
}

fn good(exp: u64) -> String {
    claims(ISSUER, "\"client-1\"", exp, "n1")
}

#[test]
fn odd_claim_shapes_are_tolerated() {
    let c = validate(signed(b"secret", Some("k1"), &good(now() + 600))).unwrap();
    assert_eq!(c.issuer, ISSUER);
    assert_eq!(c.subject, "s1");
    assert_eq!(c.email.as_deref(), Some("a@b"));
    let listed = claims(ISSUER, "[\"other\",\"client-1\"]", now() + 600, "n1");
    assert!(validate(signed(b"secret", Some("k1"), &listed)).is_ok());
}

#[test]
fn signature_is_verified() {
    assert_eq!(
        words(validate(signed(b"forged", Some("k1"), &good(now() + 600)))),
        "id_token validation failed: lenient: id_token validation failed: InvalidSignature"
    );
}

#[test]
fn expiry_is_verified() {
    assert_eq!(
        words(validate(signed(b"secret", Some("k1"), &good(now() - 600)))),
        "id_token validation failed: lenient: id_token validation failed: ExpiredSignature"
    );
}

#[test]
fn issuer_is_verified() {
    let c = claims("https://evil.example", "\"client-1\"", now() + 600, "n1");
    assert_eq!(
        words(validate(signed(b"secret", Some("k1"), &c))),
        "id_token validation failed: lenient: id_token validation failed: InvalidIssuer"
    );
}

#[test]
fn audience_is_verified() {
    let c = claims(ISSUER, "\"client-2\"", now() + 600, "n1");
    assert_eq!(
        words(validate(signed(b"secret", Some("k1"), &c))),
        "id_token validation failed: lenient: id_token validation failed: InvalidAudience"
    );
    let none = format!("{{\"iss\":\"{}\",\"exp\":{},\"sub\":\"s1\",\"nonce\":\"n1\"}}", ISSUER, now() + 600);
    assert_eq!(
        words(validate(signed(b"secret", Some("k1"), &none))),
        "id_token validation failed: lenient: id_token validation failed: InvalidAudience"
    );
}

#[test]
fn nonce_is_verified() {
    let c = claims(ISSUER, "\"client-1\"", now() + 600, "n2");
    assert_eq!(
        words(validate(signed(b"secret", Some("k1"), &c))),
        "id_token validation failed: lenient: nonce mismatch"
    );
}

#[test]
fn keys_must_be_known() {
    assert_eq!(
        words(validate(signed(b"secret", Some("k2"), &good(now() + 600)))),
        "id_token validation failed: lenient: signing key not in JWKS"
    );
    assert_eq!(
        words(validate(signed(b"secret", None, &good(now() + 600)))),
        "id_token validation failed: lenient: id_token has no 'kid'"
    );
    let token = LenientToken {
        id_token: signed(b"secret", Some("k1"), &good(now() + 600)),
        key_id: "k1".to_string(),
    };
    match lenient_validate(ISSUER, CLIENT, &token, b"nonsense", &Ok(()), "n1") {
        Err(OidcError::Discovery(m)) => assert!(m.starts_with("lenient: JWKS parse failed: ")),
        other => panic!("{:?}", other),
    }
}

#[test]
fn unreadable_answers_are_refused() {
    match lenient_token(b"not json") {
        Err(OidcError::Claims(m)) => assert!(m.starts_with("lenient: token response not JSON: ")),
        other => panic!("{:?}", other),
    }
    assert!(matches!(lenient_token(b"{}"), Err(OidcError::MissingIdToken)));
    assert!(matches!(lenient_token(br#"{"id_token":5}"#), Err(OidcError::MissingIdToken)));
    match lenient_token(br#"{"id_token":"x"}"#) {
        Err(OidcError::Claims(m)) => assert_eq!(m, "lenient: bad JWT header: InvalidToken"),
        other => panic!("{:?}", other),
    }
}

#[test]
fn results_of_lookups_are_told_apart() {
    assert_eq!(key_id(Ok(Some("k".to_string()))).unwrap(), "k");
    assert_eq!(
        key_id(Err("broken".to_string())).unwrap_err().message(),
        "id_token validation failed: lenient: bad JWT header: broken"
    );
    assert_eq!(signing_key_of(Ok(Some("key".to_string()))).unwrap(), "key");
    assert_eq!(
        signing_key_of(Err("e".to_string())).unwrap_err().message(),
        "provider discovery failed: lenient: JWKS parse failed: e"
    );
    assert_eq!(
        token_error(TokenFault::BadKey("odd".to_string())).message(),
        "id_token validation failed: lenient: unusable JWK: odd"
    );
    assert_eq!(
        id_token(&Err("e".to_string())).unwrap_err().message(),
        "id_token validation failed: lenient: token response not JSON: e"
    );
}

#[test]
fn decoded_claims_become_an_identity() {
    let decoded = |claims: &str| lenient_identity(Ok(claims.to_string()), &Ok(()), "c", "n");
    let c = decoded(r#"{"iss":"i","sub":"s","aud":["x","c"],"nonce":"n","email":"e"}"#).unwrap();
    assert_eq!((c.issuer.as_str(), c.subject.as_str()), ("i", "s"));
    assert_eq!(c.email.as_deref(), Some("e"));
    assert_eq!(
        words(decoded(r#"{"iss":"i","sub":"s","aud":"c","nonce":"other"}"#)),
        "id_token validation failed: lenient: nonce mismatch"
    );
    assert_eq!(
        words(decoded(r#"{"iss":"i","sub":"s","aud":"x","nonce":"n"}"#)),
        "id_token validation failed: lenient: id_token validation failed: InvalidAudience"
    );
    assert!(words(decoded("nonsense"))
        .starts_with("id_token validation failed: lenient: id_token validation failed: "));
    let twice = Err("duplicate field `sub`".to_string());
    let claims = r#"{"iss":"i","sub":"s","aud":"c","nonce":"n"}"#.to_string();
    assert_eq!(
        words(lenient_identity(Ok(claims), &twice, "c", "n")),
        "id_token validation failed: lenient: id_token validation failed: duplicate field `sub`"
    );
    let fault = |f| words(lenient_identity(Err(f), &twice, "c", "n"));
    assert_eq!(
        fault(TokenFault::BadKey("odd".to_string())),
        "id_token validation failed: lenient: unusable JWK: odd"
    );
    assert_eq!(
        fault(TokenFault::Invalid("ExpiredSignature".to_string())),
        "id_token validation failed: lenient: id_token validation failed: ExpiredSignature"
    );
}

#[test]
fn claims_without_a_subject_are_refused() {
    let object = |entries: Vec<(&str, Json)>| {
        Json::Object(entries.into_iter().map(|(k, v)| (k.to_string(), v)).collect())
    };
    let text = |s: &str| Json::Text(s.to_string());
    let whole = object(vec![
        ("iss", text("i")),
        ("sub", text("s")),
        ("aud", text("c")),
        ("nonce", text("n")),
        ("email", Json::Null),
    ]);
    let c = identity_from(&whole, "c", "n").unwrap();
    assert_eq!((c.issuer.as_str(), c.subject.as_str(), c.email), ("i", "s", None));
    let part = object(vec![("iss", text("i")), ("aud", text("c")), ("nonce", text("n"))]);
    assert!(matches!(identity_from(&part, "c", "n"), Err(OidcError::Claims(_))));
    let odd = object(vec![
        ("iss", text("i")),
        ("sub", text("s")),
        ("aud", text("c")),
        ("nonce", text("n")),
        ("email", Json::Bool(true)),
    ]);
    assert!(matches!(identity_from(&odd, "c", "n"), Err(OidcError::Claims(_))));
}

fn login() -> OidcLoginState {
    OidcLoginState {
        provider_slug: "p".to_string(),
        csrf: "st".to_string(),
        nonce: "n1".to_string(),
        pkce_verifier: "v".to_string(),
        redirect_uri: "https://h/sso/callback".to_string(),
    }
}

fn provider() -> OidcProvider {
    OidcProvider {
        id: 1,
        slug: "p".to_string(),
        display_name: "P".to_string(),
        issuer_url: ISSUER.to_string(),
        client_id: CLIENT.to_string(),
        client_secret: "enc".to_string(),
        scopes: "openid profile email".to_string(),
        enabled: true,
        server_id: None,
        created_at: 0,
        updated_at: 0,
    }
}

/// A time in nanoseconds.
const NOW: i64 = 1_700_000_000_000_000_000;

/// No public keys.
const NONE: &str = r#"{"keys":[]}"#;

/// Signatures with the client's secret.
const SHARED: &[&str] = &["HS256"];

fn complete(state: &str, exchange: Exchange) -> AfterExchange {
    complete_login(&provider(), "secret", &login(), state, exchange, NOW)
}

fn names(algorithms: &[&str]) -> Vec<String> {
    algorithms.iter().map(|a| a.to_string()).collect()
}

fn verified(
    id_token: String,
    keys: &str,
    algorithms: &[&str],
    now: i64,
) -> Result<OidcClaims, OidcError> {
    let exchange =
        Exchange::Token { id_token, keys: keys.to_string(), algorithms: names(algorithms) };
    match complete_login(&provider(), "secret", &login(), "st", exchange, now) {
        AfterExchange::End(end) => end,
        other => panic!("{:?}", other),
    }
}

fn issued(iss: &str, aud: &str, exp: i64, nonce: &str) -> String {
    let claims = format!(
        "{{\"iss\":\"{}\",\"aud\":{},\"exp\":{},\"iat\":1699999000,\"sub\":\"s1\",\"email\":\"a@b\",\"nonce\":\"{}\"}}",
        iss, aud, exp, nonce
    );
    signed(b"secret", None, &claims)
}

const EXPIRY: i64 = 1_700_000_600;

#[test]
fn state_must_come_back() {
    assert!(check_state(&login(), "st").is_ok());
    assert_eq!(
        check_state(&login(), "ST").unwrap_err().message(),
        "oauth state mismatch (possible CSRF)"
    );
    let token = || Exchange::Token {
        id_token: issued(ISSUER, "\"client-1\"", EXPIRY, "n1"),
        keys: NONE.to_string(),
        algorithms: names(SHARED),
    };
    assert!(matches!(complete("", token()), AfterExchange::End(Err(OidcError::StateMismatch))));
    match complete("st", token()) {
        AfterExchange::End(Ok(c)) => assert_eq!(c.subject, "s1"),
        other => panic!("{:?}", other),
    }
}

#[test]
fn exchanges_end_in_their_errors() {
    let end = |e: Exchange| match complete("st", e) {
        AfterExchange::End(Err(e)) => e.message(),
        other => panic!("{:?}", other),
    };
    assert_eq!(
        end(Exchange::NoMetadata(OidcError::Discovery("d".to_string()))),
        "provider discovery failed: d"
    );
    assert_eq!(end(Exchange::BadRedirect("u".to_string())), "invalid url: u");
    assert_eq!(end(Exchange::Failed("f".to_string())), "token exchange failed: f");
    assert_eq!(end(Exchange::NoIdToken), "no id_token in token response");
    match complete("st", Exchange::Unreadable(vec![1, 2])) {
        AfterExchange::Lenient(raw) => assert_eq!(raw, vec![1, 2]),
        other => panic!("{:?}", other),
    }
}

#[test]
fn tokens_prove_an_identity() {
    let c = verified(issued(ISSUER, "\"client-1\"", EXPIRY, "n1"), NONE, SHARED, NOW).unwrap();
    assert_eq!(c.issuer, ISSUER);
    assert_eq!(c.subject, "s1");
    assert_eq!(c.email.as_deref(), Some("a@b"));
    let without = signed(
        b"secret",
        None,
        "{\"iss\":\"https://idp.example\",\"aud\":[\"client-1\"],\"exp\":1700000600,\"iat\":1,\"sub\":\"s2\",\"nonce\":\"n1\"}",
    );
    let c = verified(without, NONE, SHARED, NOW).unwrap();
    assert_eq!((c.subject.as_str(), c.email), ("s2", None));
}

#[test]
fn tokens_are_verified() {
    let refused = |token: String, now: i64| match verified(token, NONE, SHARED, now) {
        Err(OidcError::Claims(m)) => m,
        other => panic!("{:?}", other),
    };
    let token = |iss: &str, aud: &str, nonce: &str| issued(iss, aud, EXPIRY, nonce);
    assert!(refused(token("https://evil.example", "\"client-1\"", "n1"), NOW).contains("issuer"));
    assert!(refused(token(ISSUER, "\"client-2\"", "n1"), NOW).contains("audience"));
    assert!(refused(token(ISSUER, "[\"client-1\",\"client-2\"]", "n1"), NOW).contains("audience"));
    assert!(refused(token(ISSUER, "\"client-1\"", "n2"), NOW).contains("nonce"));
    let good = token(ISSUER, "\"client-1\"", "n1");
    assert!(refused(good.clone(), EXPIRY * 1_000_000_000).contains("expired"));
    assert!(verified(good.clone(), NONE, SHARED, EXPIRY * 1_000_000_000 - 1).is_ok());
    let forged = signed(
        b"forged",
        None,
        "{\"iss\":\"https://idp.example\",\"aud\":[\"client-1\"],\"exp\":1700000600,\"iat\":1,\"sub\":\"s2\",\"nonce\":\"n1\"}",
    );
    assert!(refused(forged, NOW).contains("ignature"));
    assert!(verified(good.clone(), NONE, &["RS256"], NOW).is_err());
    assert!(verified(good, "nonsense", SHARED, NOW).is_err());
    assert!(verified("x".to_string(), NONE, SHARED, NOW).is_err());
}

#[test]
fn signatures_must_have_the_size_of_their_digest() {
    let good = issued(ISSUER, "\"client-1\"", EXPIRY, "n1");
    let unsigned = good[..good.rfind('.').unwrap() + 1].to_string();
    let short = good[..good.len() - 4].to_string();
    let long = format!("{}AAAA", good);
    for token in [unsigned, short, long] {
        assert!(matches!(verified(token, NONE, SHARED, NOW), Err(OidcError::Claims(_))));
    }
    let all = &["HS256", "HS384", "HS512", "RS256"];
    assert_eq!(verified(good, NONE, all, NOW).unwrap().subject, "s1");
    let with = |alg: jsonwebtoken::Algorithm| {
        let claims = "{\"iss\":\"https://idp.example\",\"aud\":[\"client-1\"],\"exp\":1700000600,\"iat\":1,\"sub\":\"s2\",\"nonce\":\"n1\"}";
        let claims: serde_json::Value = serde_json::from_str(claims).unwrap();
        encode(&Header::new(alg), &claims, &EncodingKey::from_secret(b"secret")).unwrap()
    };
    for alg in [jsonwebtoken::Algorithm::HS384, jsonwebtoken::Algorithm::HS512] {
        assert_eq!(verified(with(alg), NONE, all, NOW).unwrap().subject, "s2");
        let token = with(alg);
        let cut = token[..token.len() - 1].to_string();
        assert!(matches!(verified(cut, NONE, all, NOW), Err(OidcError::Claims(_))));
    }
}

#[test]
fn codes_are_exchanged_with_what_was_kept() {
    let x = exchange_of(&login(), "st", "the code").unwrap();
    assert_eq!(x.code, "the code");
    assert_eq!(x.pkce_verifier, "v");
    assert_eq!(x.redirect_uri, "https://h/sso/callback");
    assert!(matches!(exchange_of(&login(), "other", "c"), Err(OidcError::StateMismatch)));
}

#[test]
fn tokens_are_checked_for_the_client() {
    let token = LenientToken { id_token: "t".to_string(), key_id: "k1".to_string() };
    let check = token_check(ISSUER, CLIENT, &token, KEYS).unwrap();
    assert_eq!((check.token.as_str(), check.audience.as_str()), ("t", CLIENT));
    assert_eq!(check.issuer, ISSUER);
    assert!(check.key.contains("c2VjcmV0"));
    let other = LenientToken { id_token: "t".to_string(), key_id: "k2".to_string() };
    assert_eq!(
        token_check(ISSUER, CLIENT, &other, KEYS).unwrap_err().message(),
        "id_token validation failed: lenient: signing key not in JWKS"
    );
}

/// A token that was signed with RS256 and expires in the year 2100.
const SIGNED: &str =
    "eyJhbGciOiJSUzI1NiIsImtpZCI6InIxIiwidHlwIjoiSldUIn0.eyJpc3MiOiJodHRwczovL2lkcC5leGFtcGxl\
     IiwiYXVkIjoiY2xpZW50LTEiLCJleHAiOjQxMDI0NDQ4MDAsImlhdCI6MTcwMDAwMDAwMCwic3ViIjoiczEiLCJl\
     bWFpbCI6ImFAYiIsIm5vbmNlIjoibjEifQ.C40j5cmWeF87ACfMZJsjR8DDADwUU6v-N30alI2FwgYD1O1R6SYJ5\
     7YuLrZ4ZUqGXgBFI4HSGTutQYrxOLydyzRhy4BdODFrVRJuQrYLad06BpTLsqYpFofyJcwBbus5X0fF01LLzKYGI\
     hezh3o9TStW_2wbTLoqlaR_YC5Rur1iqIT3-xNggemrAaDykYT14UYP5R1DVY8UmEJch9I1pK_iyy0NuNcbWEgpj\
     aQHn2PKNX4_jzroJLKQCh9Hs46bFQD3ENfJTrBoKHeKzFchVFZWt0r9MH-FxcGQChWJWAjB-F9QqnLkW327svSsO\
     HRSnGloaOyf8_m_WpF88q333g";

/// The public part of the key that signed it.
const PUBLIC: &str = r#"{"keys":[{"kty":"RSA","use":"sig","alg":"RS256","kid":"r1","e":"AQAB","n":"0EgWUtZ07BU63QrFWiqmnD87DORf4AkMJ651Hqe8V7XH94WcG3iSxQ53rUHyQUZoCd39vS7IPhprYOk2FuLrFrMKX-WZKQY0JLlQq1AFIbAhz-Ci_FJQvDl-ll4e_rVuUpu3ytE-3c9nWYpOxfLsSWPlHBsKh3PmHWOprlO7sV-BCM9TuJmaQ-IJlLd0v8YltKtaiU-VA-akqOStrQoske196PKHG19rq0UaJSyrXtRmzoKLRLoNZlOZ-NnI74ZLF695H8eg4e0Xdvowl-mD7UC0zd6-8XNrUaHHSotdsGZxcoudnlkdL7cZSPKqhQB2C0zkbrzYw4l7zVldir04GQ"}]}"#;

#[test]
fn public_keys_verify_tokens() {
    let c = verified(SIGNED.to_string(), PUBLIC, &["RS256"], NOW).unwrap();
    assert_eq!((c.issuer.as_str(), c.subject.as_str()), (ISSUER, "s1"));
    assert!(verified(SIGNED.to_string(), NONE, &["RS256"], NOW).is_err());
    let mut broken = SIGNED.to_string();
    let end = broken.split_off(broken.len() - 8);
    let end: String = end.chars().rev().collect();
    assert!(verified(broken + &end, PUBLIC, &["RS256"], NOW).is_err());
}

#[test]
fn verified_claims_state_an_identity() {
    let text = |s: &str| Json::Text(s.to_string());
    let whole =
        Json::Object(vec![("iss".to_string(), text("i")), ("sub".to_string(), text("s"))]);
    let c = identity_of(&Ok(whole)).unwrap();
    assert_eq!((c.issuer.as_str(), c.subject.as_str(), c.email), ("i", "s", None));
    let part = Json::Object(vec![("iss".to_string(), text("i"))]);
    assert_eq!(
        identity_of(&Ok(part)).unwrap_err().message(),
        "id_token validation failed: JSON error: expected a string: sub"
    );
    assert_eq!(
        identity_of(&Err("odd".to_string())).unwrap_err().message(),
        "id_token validation failed: odd"
    );
}

#[test]
fn logins_start_at_the_provider() {
    let secrets = LoginSecrets {
        csrf: "st".to_string(),
        nonce: "n 1".to_string(),
        pkce_verifier: "dBjftJeZ4CVP-mB92K27uhbUJU1p1r_wW1gFWFOEjXk".to_string(),
    };
    let (address, kept) = start_login(
        &provider(),
        "https://idp.example/authorize?tenant=a",
        "https://h/sso/callback",
        secrets,
    )
    .unwrap();
    assert_eq!(
        address,
        "https://idp.example/authorize?tenant=a&response_type=code&client_id=client-1&state=st\
         &code_challenge=E9Melhoa2OwvFrEMTJguCHaoeK1t8URWbuGJSstw-cM&code_challenge_method=S256\
         &redirect_uri=https%3A%2F%2Fh%2Fsso%2Fcallback&scope=openid+profile+email&nonce=n+1"
    );
    let texts = ["client-1", "st", "https://h/sso/callback", "openid profile email", "n 1"];
    let size: u64 = texts.iter().map(|t| size_of_text(t).unwrap()).sum();
    let endpoint = "https://idp.example/authorize?tenant=a";
    assert_eq!(address.len() as u64, endpoint.len() as u64 + 1 + FIXED_SIZE + size);
    assert_eq!(kept.provider_slug, "p");
    assert_eq!(kept.csrf, "st");
    assert_eq!(kept.nonce, "n 1");
    assert_eq!(kept.pkce_verifier, "dBjftJeZ4CVP-mB92K27uhbUJU1p1r_wW1gFWFOEjXk");
    assert_eq!(kept.redirect_uri, "https://h/sso/callback");
}

#[test]
fn every_login_has_its_own_secrets() {
    let begin = || begin_login(&provider(), "https://idp.example/a", "https://h/c").unwrap();
    let (address, one) = begin();
    let (_, two) = begin();
    assert_eq!((one.csrf.len(), one.nonce.len(), one.pkce_verifier.len()), (22, 22, 43));
    assert!(address.contains(&format!("&state={}&", one.csrf)));
    assert!(address.ends_with(&format!("&nonce={}", one.nonce)));
    assert!(!address.contains(&one.pkce_verifier));
    assert_ne!(one.csrf, two.csrf);
    assert_ne!(one.nonce, two.nonce);
    assert_ne!(one.pkce_verifier, two.pkce_verifier);
}

#[test]
fn logins_need_valid_addresses() {
    let words = |p: &OidcProvider, endpoint: &str, redirect: &str| {
        begin_login(p, endpoint, redirect).unwrap_err().message()
    };
    let relative = "invalid url: relative URL without a base";
    assert_eq!(words(&provider(), "https://idp.example/a", "callback"), relative);
    assert_eq!(words(&provider(), "authorize", "https://h/c"), relative);
    let mut odd = provider();
    odd.issuer_url = "https://".to_string();
    assert_eq!(words(&odd, "https://idp.example/a", "https://h/c"), "invalid url: empty host");
}

#[test]
fn openid_is_not_asked_for_by_name() {
    assert_eq!(requested_scopes(" openid  profile\temail "), vec!["profile", "email"]);
    assert_eq!(requested_scopes("OpenID groups"), vec!["groups"]);
    assert_eq!(requested_scopes(""), Vec::<String>::new());
}
