use jellyswarrm::admin_sso::{
    add_identity, add_provider, after_saving, delete_identity, delete_provider, identity_lookups,
    link_failed, AddIdentityForm, AddProviderForm, Removal, SaveOutcome,
};
use jellyswarrm::rate_limiter::{client_position, extract_client_ip, AuthRateLimiter};

fn form() -> AddProviderForm {
    AddProviderForm {
        slug: " dex_1 ".to_string(),
        display_name: " Dex ".to_string(),
        issuer_url: " https://dex.example ".to_string(),
        client_id: "c".to_string(),
        client_secret: " s ".to_string(),
        scopes: None,
    }
}

#[test]
fn provider_forms_are_trimmed() {
    let p = add_provider(&form()).unwrap();
    assert_eq!(p.slug, "dex_1");
    assert_eq!(p.display_name, "Dex");
    assert_eq!(p.issuer_url, "https://dex.example");
    assert_eq!(p.client_id, "c");
    assert_eq!(p.client_secret, "s");
    assert_eq!(p.scopes, "openid profile email");
    assert!(p.enabled);
    let mut f = form();
    f.scopes = Some("  openid groups ".to_string());
    assert_eq!(add_provider(&f).unwrap().scopes, "openid groups");
    f.scopes = Some("   ".to_string());
    assert_eq!(add_provider(&f).unwrap().scopes, "openid profile email");
}

#[test]
fn provider_forms_are_checked() {
    let refused = |f: AddProviderForm| {
        let a = add_provider(&f).unwrap_err();
        assert_eq!(a.status, 400);
        a.html
    };
    for slug in ["", "  ", "a b", "é", "a/b"] {
        let mut f = form();
        f.slug = slug.to_string();
        assert_eq!(
            refused(f),
            "<div class=\"alert alert-error\">Slug must be non-empty and url-safe (letters, digits, - or _).</div>"
        );
    }
    let mut f = form();
    f.client_secret = " ".to_string();
    assert_eq!(
        refused(f),
        "<div class=\"alert alert-error\">Display name, issuer URL, client ID and client secret are required.</div>"
    );
    let mut f = form();
    f.issuer_url = "ftp://x".to_string();
    assert_eq!(
        refused(f),
        "<div class=\"alert alert-error\">Issuer URL must start with http:// or https://</div>"
    );
    let mut f = form();
    f.issuer_url = "http://x".to_string();
    assert!(add_provider(&f).is_ok());
}

#[test]
fn identity_forms_are_checked_in_order() {
    let f = AddIdentityForm {
        username: " ann ".to_string(),
        provider_slug: " dex ".to_string(),
        subject: " sub ".to_string(),
    };
    assert_eq!(identity_lookups(&f), ("dex".to_string(), "ann".to_string()));
    let issuer = || Some("https://idp".to_string());
    let user = || Some("u1".to_string());
    let link = add_identity(&f, issuer(), user()).unwrap();
    assert_eq!((link.user_id.as_str(), link.issuer.as_str()), ("u1", "https://idp"));
    assert_eq!(link.subject, "sub");
    let html = |i, u| add_identity(&f, i, u).unwrap_err().html;
    assert_eq!(html(None, user()), "<div class=\"alert alert-error\">Unknown provider slug.</div>");
    assert_eq!(html(issuer(), None), "<div class=\"alert alert-error\">No such Jellyswarrm user.</div>");
    let empty = AddIdentityForm { subject: " ".to_string(), ..f };
    assert_eq!(
        add_identity(&empty, issuer(), user()).unwrap_err().html,
        "<div class=\"alert alert-error\">Subject is required.</div>"
    );
    assert_eq!(link_failed().status, 500);
}

#[test]
fn outcomes_become_answers() {
    assert!(after_saving(SaveOutcome::Saved).is_none());
    assert_eq!(
        after_saving(SaveOutcome::NotEncrypted).unwrap().html,
        "<div class=\"alert alert-error\">Failed to encrypt client secret.</div>"
    );
    assert_eq!(
        after_saving(SaveOutcome::NotSaved).unwrap().html,
        "<div class=\"alert alert-error\">Failed to save provider.</div>"
    );
    assert!(delete_identity(Removal::Removed).is_none());
    assert_eq!(delete_identity(Removal::Missing).unwrap().status, 404);
    assert_eq!(delete_identity(Removal::Failed).unwrap().status, 500);
    assert!(delete_provider(Removal::Removed).is_none());
    assert_eq!(
        delete_provider(Removal::Missing).unwrap().html,
        "<div class=\"alert alert-error\">Provider not found</div>"
    );
    assert_eq!(
        delete_provider(Removal::Failed).unwrap().html,
        "<div class=\"alert alert-error\">Failed to delete provider</div>"
    );
}

#[test]
fn limits_of_a_client() {
    let l = AuthRateLimiter::new(0, 3);
    assert_eq!((l.max_requests, l.window_secs, l.idle_secs), (5, 3, 30));
    let l = AuthRateLimiter::new(2, 10);
    assert_eq!((l.max_requests, l.window_secs, l.idle_secs), (2, 10, 100));
    let d = AuthRateLimiter::default_auth_limiter();
    assert_eq!((d.max_requests, d.window_secs, d.idle_secs), (5, 10, 100));
}

#[test]
fn forwarded_address_counts_first() {
    assert_eq!(
        extract_client_ip(Some(" 10.0.0.1 , 10.0.0.2"), Some(" 10.0.0.3 ")),
        vec!["10.0.0.1", "10.0.0.3"]
    );
    assert_eq!(extract_client_ip(None, Some("::1")), vec!["::1"]);
    assert_eq!(extract_client_ip(Some(""), None), vec![""]);
    assert!(extract_client_ip(None, None).is_empty());
}

#[test]
fn first_address_names_the_client() {
    assert_eq!(client_position(&vec![false, true]), Some(1));
    assert_eq!(client_position(&vec![true, true]), Some(0));
    assert_eq!(client_position(&vec![false, false]), None);
    assert_eq!(client_position(&vec![]), None);
}
