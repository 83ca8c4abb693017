use jellyswarrm::federated_users::MappingKey;
use jellyswarrm::oidc::{OidcClaims, OidcLoginState};
use jellyswarrm::oidc_storage::{LinkError, OidcIdentity, OidcProvider, OidcStorageService};
use jellyswarrm::sso::{
    build_redirect_uri, check_callback, handle_sso_callback, handle_sso_link, handle_sso_login,
    link_plan, list_sso_providers, refusal_answer, Account, CallbackQuery, CallbackReply,
    CallbackStage, LinkForm, LinkPlan, LinkReply, LinkStage, LoginReply, LoginStage, PendingLink,
    Returned, SsoRefusal,
};
use jellyswarrm::sso_pages::{
    attempt_name, candidate_name, completing_page_of, derive_username, esc, link_page,
    login_complete_page,
};

#[test]
fn provider_roundtrip_and_enabled_filter() {
    let mut s = OidcStorageService::new();
    s.upsert_provider(
        "authentik",
        "Authentik",
        "https://auth.example/application/o/js/",
        "client-123",
        "enc-secret",
        "openid profile email",
        true,
        None,
        10,
    );

    let p = s.get_provider_by_slug("authentik").unwrap();
    assert_eq!(p.display_name, "Authentik");
    assert_eq!(p.client_secret.as_str(), "enc-secret");
    assert!(p.enabled);
    assert_eq!(p.server_id, None);

    // upsert by slug updates in place and can disable
    s.upsert_provider(
        "authentik",
        "Authentik (prod)",
        "https://auth.example/application/o/js/",
        "client-123",
        "enc-secret",
        "openid profile email",
        false,
        None,
        20,
    );
    assert_eq!(s.list_providers().len(), 1);
    assert!(s.list_enabled_providers().is_empty());
    let q = s.get_provider_by_slug("authentik").unwrap();
    assert_eq!((q.id, q.created_at, q.updated_at), (p.id, 10, 20));
    assert_eq!(q.display_name, "Authentik (prod)");
}

/// Users with these ids.
fn known(ids: &[&str]) -> Vec<(String, String)> {
    ids.iter().map(|id| (id.to_string(), format!("name of {}", id))).collect()
}

fn link(
    s: &mut OidcStorageService,
    user_id: &str,
    issuer: &str,
    subject: &str,
    email: Option<&str>,
    now: i64,
) {
    let email = email.map(String::from);
    s.link_identity(&known(&["u", "v", "w"]), user_id, issuer, subject, email, now).unwrap();
}

#[test]
fn identity_keyed_on_issuer_subject() {
    let mut s = OidcStorageService::new();
    // identities belong to users
    let users = known(&["user-1"]);
    s.link_identity(
        &users,
        "user-1",
        "https://idp/",
        "sub-abc",
        Some("b@example.com".to_string()),
        1,
    )
    .unwrap();

    let got = s.get_identity("https://idp/", "sub-abc").unwrap();
    assert_eq!(got.user_id, "user-1");
    // same subject under a different issuer is a distinct identity
    assert!(s.get_identity("https://other/", "sub-abc").is_none());
}

#[test]
fn issuers_are_told_apart_without_trailing_slashes() {
    let mut s = OidcStorageService::new();
    link(&mut s, "u", "https://idp/", "s", None, 1);
    assert_eq!(s.get_identity("https://idp", "s").unwrap().issuer, "https://idp");
    link(&mut s, "v", "https://idp", "s", None, 2);
    assert_eq!(s.get_identity("https://idp//", "s").unwrap().user_id, "v");
    assert_eq!(s.list_identities(&vec![]).len(), 1);
}

#[test]
fn linking_is_idempotent_and_unlinking_says_so() {
    let mut s = OidcStorageService::new();
    link(&mut s, "u", "i", "a", None, 1);
    link(&mut s, "u", "i", "a", Some("m"), 5);
    link(&mut s, "u", "i", "b", None, 3);
    link(&mut s, "w", "i", "c", None, 2);
    let users = vec![("u".to_string(), "Uma".to_string())];
    let all = s.list_identities(&users);
    let got: Vec<(&str, Option<&str>)> =
        all.iter().map(|i| (i.subject.as_str(), i.username.as_deref())).collect();
    assert_eq!(got, vec![("b", Some("Uma")), ("c", None), ("a", Some("Uma"))]);
    let own = s.list_identities_for_user("u");
    let subjects: Vec<&str> = own.iter().map(|i| i.subject.as_str()).collect();
    assert_eq!(subjects, vec!["a", "b"]);
    assert_eq!(own[0].email.as_deref(), Some("m"));
    let id = own[0].id;
    assert!(s.unlink_identity(id));
    assert!(!s.unlink_identity(id));
    assert!(s.get_identity("i", "a").is_none());
}

#[test]
fn identities_belong_to_known_users() {
    let mut s = OidcStorageService::new();
    let users = known(&["u", "v"]);
    assert_eq!(
        s.link_identity(&users, "gone", "https://idp", "s", None, 1),
        Err(LinkError::UnknownUser)
    );
    assert!(s.get_identity("https://idp", "s").is_none());
    assert_eq!(s.link_identity(&users, "u", "https://idp", "s", None, 1), Ok(()));
    assert_eq!(
        s.link_identity(&users, "gone", "https://idp", "s", None, 2),
        Err(LinkError::UnknownUser)
    );
    assert_eq!(s.get_identity("https://idp", "s").unwrap().user_id, "u");
    assert!(s.link_identity(&vec![], "u", "https://idp", "t", None, 3).is_err());
}

fn add(s: &mut OidcStorageService, slug: &str, name: &str, enabled: bool, server: Option<i64>) {
    assert!(s.has_room());
    s.upsert_provider(slug, name, "https://i", "c", "x", "openid", enabled, server, 1);
}

#[test]
fn providers_are_listed_by_server_and_name() {
    let mut s = OidcStorageService::new();
    add(&mut s, "z", "Zed", true, None);
    add(&mut s, "b", "B", true, Some(2));
    add(&mut s, "a", "A", false, Some(2));
    add(&mut s, "c", "C", true, Some(1));
    add(&mut s, "g", "Ghost", true, Some(99));
    add(&mut s, "y", "Yak", true, None);
    let names: Vec<String> = s.list_providers().iter().map(|p| p.display_name.clone()).collect();
    assert_eq!(names, vec!["A", "B", "C", "Ghost", "Yak", "Zed"]);
    let servers = vec![(1, "Two".to_string()), (2, "One".to_string())];
    let rows = s.list_providers_with_server(&servers);
    let got: Vec<(&str, Option<&str>)> =
        rows.iter().map(|r| (r.slug.as_str(), r.server_name.as_deref())).collect();
    assert_eq!(
        got,
        vec![
            ("g", None),
            ("a", Some("One")),
            ("b", Some("One")),
            ("c", Some("Two")),
            ("y", None),
            ("z", None),
        ]
    );
    assert_eq!(s.list_enabled_providers_with_server(&servers).len(), 5);
    let id = s.get_provider_by_slug("g").unwrap().id;
    assert!(s.delete_provider(id));
    assert!(!s.delete_provider(id));
    assert!(s.get_provider_by_slug("g").is_none());
}

#[test]
fn stored_tables_are_restored() {
    let mut s = OidcStorageService::new();
    add(&mut s, "z", "Zed", true, None);
    let providers = s.list_providers();
    let identity = |id: i64, issuer: &str| OidcIdentity {
        id,
        user_id: "u".to_string(),
        issuer: issuer.to_string(),
        subject: "s".to_string(),
        email: None,
        created_at: 0,
    };
    let stored = vec![identity(4, "https://i/")];
    let again = OidcStorageService::restore(providers.clone(), stored, 1, 4);
    assert_eq!(again.get_identity("https://i", "s").unwrap().id, 4);
    assert_eq!(again.list_providers().len(), 1);

    // of rows that stand for one identity the latest stays
    let rows = vec![identity(4, "https://i/"), identity(5, "https://j"), identity(6, "https://i")];
    let kept = OidcStorageService::restore(providers.clone(), rows, 0, 0);
    assert_eq!(kept.get_identity("https://i/", "s").unwrap().id, 6);
    assert_eq!(kept.get_identity("https://j", "s").unwrap().id, 5);
    assert_eq!(kept.list_identities(&vec![]).len(), 2);

    let full = OidcStorageService::restore(vec![], vec![identity(i64::MAX, "https://i")], 0, 0);
    assert!(full.get_identity("https://i", "s").is_some());
    assert!(!full.has_room());
    let twice: Vec<OidcProvider> = providers.iter().chain(providers.iter()).cloned().collect();
    assert_eq!(OidcStorageService::restore(twice, vec![], 0, 0).list_providers().len(), 1);
}

#[test]
fn ids_of_deleted_rows_are_not_given_again() {
    let mut s = OidcStorageService::restore(vec![], vec![], 7, 9);
    add(&mut s, "z", "Zed", true, None);
    assert_eq!(s.get_provider_by_slug("z").unwrap().id, 8);
    link(&mut s, "u", "https://i", "s", None, 1);
    assert_eq!(s.get_identity("https://i", "s").unwrap().id, 10);
    let mut lost = OidcStorageService::restore(s.list_providers(), vec![], 2, i64::MAX);
    assert!(!lost.has_room());
    assert!(lost.delete_provider(8));
}

fn load_provider(slug: &str) -> LoginStage {
    LoginStage::LoadProvider { slug: slug.to_string(), redirect_uri: "https://h/cb".to_string() }
}

#[test]
fn disabled_providers_are_not_used() {
    let mut s = OidcStorageService::new();
    add(&mut s, "on", "On", true, None);
    add(&mut s, "off", "Off", false, None);
    let load = |slug| {
        let found = s.get_provider_by_slug(slug).map(LoginReply::Provider);
        handle_sso_login(load_provider(slug), found.unwrap_or(LoginReply::Absent))
    };
    assert!(
        matches!(load("on"), LoginStage::DecryptSecret { provider, .. } if provider.slug == "on")
    );
    assert!(matches!(load("off"), LoginStage::Refuse(SsoRefusal::UnknownProvider)));
    assert!(matches!(load("none"), LoginStage::Refuse(SsoRefusal::UnknownProvider)));
    let shown = list_sso_providers(&s.list_enabled_providers());
    assert_eq!(shown.len(), 1);
    assert_eq!((shown[0].slug.as_str(), shown[0].display_name.as_str()), ("on", "On"));
}

#[test]
fn redirect_uri_follows_the_browser() {
    assert_eq!(build_redirect_uri(None, None, None), "http://localhost:3000/sso/callback");
    assert_eq!(
        build_redirect_uri(Some("h.example"), Some("https"), Some("js")),
        "https://h.example/js/sso/callback"
    );
}

fn provider(slug: &str) -> OidcProvider {
    let mut s = OidcStorageService::new();
    add(&mut s, slug, "Dex", true, None);
    s.get_provider_by_slug(slug).unwrap()
}

fn login() -> OidcLoginState {
    OidcLoginState {
        provider_slug: "dex".to_string(),
        csrf: "st".to_string(),
        nonce: "no".to_string(),
        pkce_verifier: "ve".to_string(),
        redirect_uri: "https://js/sso/callback".to_string(),
    }
}

fn answer(refusal: SsoRefusal) -> (u16, String) {
    let e = refusal_answer(refusal, "dex");
    (e.status, e.message)
}

#[test]
fn refusals_are_answered() {
    let told: Vec<(u16, String)> = [
        SsoRefusal::Internal,
        SsoRefusal::UnknownProvider,
        SsoRefusal::CannotStart,
        SsoRefusal::NoLogin,
        SsoRefusal::ProviderGone,
        SsoRefusal::NotValidated,
        SsoRefusal::CreationDisabled,
        SsoRefusal::CredentialsMissing,
        SsoRefusal::BadCredentials,
    ]
    .into_iter()
    .map(answer)
    .collect();
    let expected = [
        (500, "internal error"),
        (404, "unknown or disabled SSO provider: dex"),
        (502, "could not start SSO with that provider"),
        (400, "no SSO login in progress (session expired?) — start again"),
        (400, "SSO provider no longer exists"),
        (401, "SSO validation failed"),
        (403, "account creation is disabled"),
        (400, "username and password are required"),
        (401, "invalid username or password"),
    ];
    let expected: Vec<(u16, String)> =
        expected.into_iter().map(|(status, text)| (status, text.to_string())).collect();
    assert_eq!(told, expected);
}

#[test]
fn login_steps() {
    let stage = handle_sso_login(load_provider("dex"), LoginReply::Provider(provider("dex")));
    assert!(matches!(&stage, LoginStage::DecryptSecret { .. }));
    let stage = handle_sso_login(stage, LoginReply::Done);
    match &stage {
        LoginStage::BeginLogin { provider, redirect_uri } => {
            assert_eq!((provider.slug.as_str(), redirect_uri.as_str()), ("dex", "https://h/cb"))
        }
        other => panic!("{:?}", other),
    }
    let begun = LoginReply::Begun { address: "https://idp/auth".to_string(), login: login() };
    let stage = handle_sso_login(stage, begun);
    match &stage {
        LoginStage::StashState { address, login } => {
            assert_eq!(address, "https://idp/auth");
            assert_eq!(login.csrf, "st");
        }
        other => panic!("{:?}", other),
    }
    let stage = handle_sso_login(stage, LoginReply::Done);
    assert!(matches!(&stage, LoginStage::Redirect { address } if address == "https://idp/auth"));

    let refused = |stage, reply| match handle_sso_login(stage, reply) {
        LoginStage::Refuse(e) => e,
        other => panic!("{:?}", other),
    };
    assert_eq!(refused(load_provider("dex"), LoginReply::Failed), SsoRefusal::Internal);
    let redirect_uri = || "https://h/cb".to_string();
    let decrypt =
        LoginStage::DecryptSecret { provider: provider("dex"), redirect_uri: redirect_uri() };
    assert_eq!(refused(decrypt, LoginReply::Failed), SsoRefusal::Internal);
    let begin = LoginStage::BeginLogin { provider: provider("dex"), redirect_uri: redirect_uri() };
    assert_eq!(refused(begin, LoginReply::Failed), SsoRefusal::CannotStart);
    let stash = LoginStage::StashState { address: String::new(), login: login() };
    assert_eq!(refused(stash, LoginReply::Failed), SsoRefusal::Internal);
}

fn query(code: Option<&str>, state: Option<&str>, error: Option<&str>) -> CallbackQuery {
    CallbackQuery {
        code: code.map(String::from),
        state: state.map(String::from),
        error: error.map(String::from),
        error_description: None,
    }
}

#[test]
fn callback_needs_code_and_state() {
    let ok = check_callback(query(Some("c"), Some("s"), None)).unwrap();
    assert_eq!(ok, ("c".to_string(), "s".to_string()));
    let no_code = check_callback(query(None, None, None)).unwrap_err();
    assert_eq!((no_code.status, no_code.message.as_str()), (400, "missing 'code'"));
    let no_state = check_callback(query(Some("c"), None, None)).unwrap_err();
    assert_eq!((no_state.status, no_state.message.as_str()), (400, "missing 'state'"));
    let mut q = query(Some("c"), Some("s"), Some("denied"));
    q.error_description = Some("by user".to_string());
    let e = check_callback(q).unwrap_err();
    assert_eq!(
        (e.status, e.message.as_str()),
        (400, "identity provider returned an error: denied by user")
    );
}

fn returned() -> Returned {
    Returned { code: "co".to_string(), state: "st".to_string() }
}

fn claims() -> OidcClaims {
    OidcClaims {
        issuer: "https://idp".to_string(),
        subject: "sub".to_string(),
        email: Some("ann@example.com".to_string()),
    }
}

fn account(id: &str) -> Account {
    Account { id: id.to_string(), username: "ann".to_string(), virtual_key: "key".to_string() }
}

#[test]
fn callback_runs_to_a_sign_in() {
    let stage = CallbackStage::LoadState { returned: returned() };
    let stage = handle_sso_callback(stage, CallbackReply::Login(login()));
    assert!(matches!(&stage, CallbackStage::ClearState { .. }));
    // whether the session could be cleared does not matter
    let stage = handle_sso_callback(stage, CallbackReply::Failed);
    assert!(
        matches!(&stage, CallbackStage::LoadProvider { login, .. } if login.provider_slug == "dex")
    );
    let stage = handle_sso_callback(stage, CallbackReply::Provider(provider("dex")));
    assert!(matches!(&stage, CallbackStage::DecryptSecret { .. }));
    let stage = handle_sso_callback(stage, CallbackReply::Secret("pw".to_string()));
    match &stage {
        CallbackStage::CompleteLogin { provider, secret, login, returned } => {
            assert_eq!((provider.slug.as_str(), secret.as_str()), ("dex", "pw"));
            assert_eq!((login.nonce.as_str(), returned.code.as_str()), ("no", "co"));
            assert_eq!(returned.state, "st");
        }
        other => panic!("{:?}", other),
    }
    let stage = handle_sso_callback(stage, CallbackReply::Claims(claims()));
    assert!(matches!(&stage, CallbackStage::RotateSession { .. }));
    let stage = handle_sso_callback(stage, CallbackReply::Done);
    assert!(matches!(&stage, CallbackStage::FindIdentity { claims } if claims.subject == "sub"));
    let stage = handle_sso_callback(stage, CallbackReply::Identity("u1".to_string()));
    assert!(matches!(&stage, CallbackStage::FindUser { user_id } if user_id == "u1"));
    let stage = handle_sso_callback(stage, CallbackReply::User(account("u1")));
    assert!(matches!(&stage, CallbackStage::RefreshSessions { account } if account.id == "u1"));
    let stage = handle_sso_callback(stage, CallbackReply::Failed);
    assert!(matches!(&stage, CallbackStage::SignIn { account } if account.id == "u1"));
}

#[test]
fn callback_refusals() {
    let refused = |stage, reply| match handle_sso_callback(stage, reply) {
        CallbackStage::Refuse(e) => e,
        other => panic!("{:?}", other),
    };
    let load = || CallbackStage::LoadState { returned: returned() };
    assert_eq!(refused(load(), CallbackReply::Absent), SsoRefusal::NoLogin);
    assert_eq!(refused(load(), CallbackReply::Failed), SsoRefusal::Internal);
    let find_provider = || CallbackStage::LoadProvider { login: login(), returned: returned() };
    assert_eq!(refused(find_provider(), CallbackReply::Absent), SsoRefusal::ProviderGone);
    assert_eq!(refused(find_provider(), CallbackReply::Failed), SsoRefusal::Internal);
    let complete = CallbackStage::CompleteLogin {
        provider: provider("dex"),
        secret: "pw".to_string(),
        login: login(),
        returned: returned(),
    };
    assert_eq!(refused(complete, CallbackReply::Failed), SsoRefusal::NotValidated);
    let find_user = CallbackStage::FindUser { user_id: "u1".to_string() };
    assert_eq!(refused(find_user, CallbackReply::Absent), SsoRefusal::Internal);
}

#[test]
fn unknown_identities_are_offered_an_account() {
    let stage = CallbackStage::FindIdentity { claims: claims() };
    let stage = handle_sso_callback(stage, CallbackReply::Absent);
    assert!(matches!(&stage, CallbackStage::StashPending { claims } if claims.subject == "sub"));
    let stage = handle_sso_callback(stage, CallbackReply::Done);
    match stage {
        CallbackStage::OfferLink { claims } => {
            assert_eq!(claims.email.as_deref(), Some("ann@example.com"))
        }
        other => panic!("{:?}", other),
    }
    let stash = CallbackStage::StashPending { claims: claims() };
    assert!(matches!(
        handle_sso_callback(stash, CallbackReply::Failed),
        CallbackStage::Refuse(SsoRefusal::Internal)
    ));
}

fn form(username: Option<&str>, password: Option<&str>, create: Option<&str>) -> LinkForm {
    LinkForm {
        username: username.map(String::from),
        password: password.map(String::from),
        create: create.map(String::from),
    }
}

#[test]
fn link_forms() {
    match link_plan(form(Some(" bob "), Some(" p "), None), false) {
        LinkPlan::Link { username, password } => {
            assert_eq!((username.as_str(), password.as_str()), ("bob", " p "))
        }
        other => panic!("{:?}", other),
    }
    assert!(matches!(link_plan(form(None, None, Some("1")), true), LinkPlan::Create));
    assert!(matches!(
        link_plan(form(None, None, Some("1")), false),
        LinkPlan::Refuse(SsoRefusal::CreationDisabled)
    ));
    assert!(matches!(
        link_plan(form(Some("  "), Some("p"), Some("0")), true),
        LinkPlan::Refuse(SsoRefusal::CredentialsMissing)
    ));
}

fn pending() -> PendingLink {
    PendingLink {
        issuer: "https://idp".to_string(),
        subject: "sub".to_string(),
        email: Some("ann@example.com".to_string()),
    }
}

#[test]
fn linking_verifies_the_password_first() {
    let plan = link_plan(form(Some("bob"), Some("p"), None), true);
    let stage = handle_sso_link(LinkStage::LoadPending { plan }, LinkReply::Pending(pending()));
    match &stage {
        LinkStage::FindUser { pending, username, password } => {
            assert_eq!(pending.subject, "sub");
            assert_eq!((username.as_str(), password.as_str()), ("bob", "p"));
        }
        other => panic!("{:?}", other),
    }
    let stage = handle_sso_link(stage, LinkReply::User(account("u1")));
    match &stage {
        LinkStage::VerifyPassword { account, password, .. } => {
            assert_eq!((account.id.as_str(), password.as_str()), ("u1", "p"))
        }
        other => panic!("{:?}", other),
    }
    let stage = handle_sso_link(stage, LinkReply::Done);
    assert!(matches!(&stage, LinkStage::ListMappings { .. }));
    let mut stage = handle_sso_link(stage, LinkReply::Mappings(2));
    for expected in 0..2 {
        match &stage {
            LinkStage::Rekey { account, password, at, total: 2, key, .. } => {
                assert_eq!((account.id.as_str(), password.as_str()), ("u1", "p"));
                assert_eq!((*at, *key), (expected, MappingKey::MasterKey));
            }
            other => panic!("{:?}", other),
        }
        // one that cannot be stored is left
        stage = handle_sso_link(stage, LinkReply::Failed);
    }
    match &stage {
        LinkStage::LinkIdentity { pending, account } => {
            assert_eq!((pending.subject.as_str(), account.id.as_str()), ("sub", "u1"))
        }
        other => panic!("{:?}", other),
    }
    let stage = handle_sso_link(stage, LinkReply::Done);
    assert!(matches!(&stage, LinkStage::ClearPending { .. }));
    let stage = handle_sso_link(stage, LinkReply::Failed);
    assert!(matches!(&stage, LinkStage::SignIn { account } if account.id == "u1"));
}

#[test]
fn link_refusals() {
    let refused = |stage, reply| match handle_sso_link(stage, reply) {
        LinkStage::Refuse(e) => e,
        other => panic!("{:?}", other),
    };
    let load = |plan| LinkStage::LoadPending { plan };
    assert_eq!(refused(load(LinkPlan::Create), LinkReply::Absent), SsoRefusal::NoLogin);
    assert_eq!(refused(load(LinkPlan::Create), LinkReply::Failed), SsoRefusal::Internal);
    let no_creation = LinkPlan::Refuse(SsoRefusal::CreationDisabled);
    assert_eq!(
        refused(load(no_creation), LinkReply::Pending(pending())),
        SsoRefusal::CreationDisabled
    );
    let find = LinkStage::FindUser {
        pending: pending(),
        username: "bob".to_string(),
        password: "p".to_string(),
    };
    assert_eq!(refused(find, LinkReply::Absent), SsoRefusal::BadCredentials);
    let verify = LinkStage::VerifyPassword {
        pending: pending(),
        account: account("u1"),
        password: "p".to_string(),
    };
    assert_eq!(refused(verify, LinkReply::Absent), SsoRefusal::BadCredentials);
    let list = LinkStage::ListMappings {
        pending: pending(),
        account: account("u1"),
        password: "p".to_string(),
    };
    assert_eq!(refused(list, LinkReply::Failed), SsoRefusal::Internal);
    let link = LinkStage::LinkIdentity { pending: pending(), account: account("u1") };
    assert_eq!(refused(link, LinkReply::Failed), SsoRefusal::Internal);
}

#[test]
fn new_accounts_take_a_free_name() {
    let load = LinkStage::LoadPending { plan: LinkPlan::Create };
    let stage = handle_sso_link(load, LinkReply::Pending(pending()));
    assert!(matches!(&stage, LinkStage::TryName { attempt: 0, .. }));
    let stage = handle_sso_link(stage, LinkReply::Done);
    assert!(matches!(&stage, LinkStage::TryName { attempt: 1, .. }));
    let stage = handle_sso_link(stage, LinkReply::Absent);
    assert!(matches!(&stage, LinkStage::DrawPassword { attempt: 1, .. }));
    let stage = handle_sso_link(stage, LinkReply::Password("random".to_string()));
    assert!(
        matches!(&stage, LinkStage::CreateUser { attempt: 1, password, .. } if password == "random")
    );
    let stage = handle_sso_link(stage, LinkReply::User(account("new")));
    match &stage {
        LinkStage::LinkNew { pending, account, .. } => {
            assert_eq!((pending.subject.as_str(), account.id.as_str()), ("sub", "new"))
        }
        other => panic!("{:?}", other),
    }
    let stage = handle_sso_link(stage, LinkReply::Done);
    assert!(matches!(&stage, LinkStage::ProvisionBackends { .. }));
    let stage = handle_sso_link(stage, LinkReply::Done);
    assert!(matches!(&stage, LinkStage::ClearPending { .. }));
    let stage = handle_sso_link(stage, LinkReply::Done);
    assert!(matches!(&stage, LinkStage::SignIn { account } if account.id == "new"));
}

#[test]
fn names_run_out() {
    let mut stage = LinkStage::TryName { pending: pending(), attempt: 0 };
    for _ in 0..6 {
        stage = handle_sso_link(stage, LinkReply::Done);
    }
    assert!(matches!(&stage, LinkStage::TryName { attempt: 6, .. }));
    let stage = handle_sso_link(stage, LinkReply::Done);
    assert!(matches!(stage, LinkStage::Refuse(SsoRefusal::Internal)));
}

#[test]
fn usernames_are_derived() {
    let mail = |s: &str| Some(s.to_string());
    assert_eq!(derive_username(&mail("ann.lee+x@example.com"), "sub"), "ann.leex");
    assert_eq!(derive_username(&mail("@example.com"), "s-1"), "s-1");
    assert_eq!(derive_username(&None, "auth0|abc"), "auth0abc");
    assert_eq!(derive_username(&None, "ééééééééééééééé"), "sso-");
    assert_eq!(derive_username(&mail("ü@x"), "äö"), "sso-");
    assert_eq!(derive_username(&None, "++/"), "sso-");
    assert_eq!(derive_username(&mail("ü@x"), "auth0|0123456789"), "sso-auth00123456");
}

#[test]
fn texts_are_escaped() {
    assert_eq!(esc("<a href=\"x\">&'</a>"), "&lt;a href=&quot;x&quot;&gt;&amp;&#x27;&lt;/a&gt;");
    assert_eq!(esc("plain é"), "plain é");
    assert_eq!(esc("&amp;"), "&amp;amp;");
    assert_eq!(esc("a&"), "a&amp;");
    assert_eq!(esc("a&") + &esc("lt;"), esc("a&lt;"));
}

#[test]
fn link_page_offers_an_account_where_allowed() {
    let open = link_page(Some("<b>@x"), true);
    assert!(open.contains("Signed in as <strong>&lt;b&gt;@x</strong> via SSO."));
    assert!(open.contains("<input type=hidden name=create value=1>"));
    let closed = link_page(None, false);
    assert!(closed.contains("<strong>your SSO account</strong>"));
    assert!(!closed.contains("name=create"));
    assert!(closed.ends_with("</form></body></html>"));
}

#[test]
fn completing_page_embeds_safe_credentials() {
    let page = login_complete_page("srv", "</script><b>", "user", "tok\"en");
    let start = page.find("var c=").unwrap() + 6;
    let end = page.find(";c.Servers[0].ManualAddress").unwrap();
    let creds = &page[start..end];
    assert!(!creds.contains('<'));
    assert_eq!(
        creds,
        "{\"Servers\":[{\"AccessToken\":\"tok\\\"en\",\"DateLastAccessed\":0,\"Id\":\"srv\",\"LastConnectionMode\":1,\"ManualAddress\":\"\",\"Name\":\"\\u003c/script>\\u003cb>\",\"UserId\":\"user\"}]}"
    );
    let parsed: serde_json::Value = serde_json::from_str(creds).unwrap();
    assert_eq!(parsed["Servers"][0]["Name"], "</script><b>");
}

#[test]
fn completing_page_without_credentials() {
    let page = completing_page_of(Err("no".to_string()));
    assert!(page.contains("var c={\"Servers\":[]};c.Servers"));
}

#[test]
fn names_are_told_apart_by_the_identity() {
    let name = |attempt| candidate_name("https://idp", "sub-é", &None, attempt);
    assert_eq!(name(0), "sub-");
    assert_eq!(name(1), "sub--94a35080");
    assert_eq!(name(2), "sub--d655bf41");
}

#[test]
fn later_names_carry_eight_digits() {
    assert_eq!(attempt_name("bob", 0, &vec![1, 2, 3, 4]), "bob");
    assert_eq!(attempt_name("bob", 3, &vec![0xde, 0xad, 0xbe, 0x0f, 9]), "bob-deadbe0f");
}
