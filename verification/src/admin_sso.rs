//! The admin pages for identity providers and linked identities.
use vstd::prelude::*;
use vstd::string::*;

use crate::json;
use crate::oidc_storage::{OidcIdentityWithUser, OidcProvider};
use crate::text;

verus! {

/// What the providers page shows.
#[derive(Debug)]
pub struct SsoPageTemplate {
    pub ui_route: String,
}

/// What the list of providers shows.
#[derive(Debug)]
pub struct SsoListTemplate {
    pub providers: Vec<OidcProvider>,
    pub ui_route: String,
}

/// What the list of identities shows.
#[derive(Debug)]
pub struct SsoIdentityListTemplate {
    pub identities: Vec<OidcIdentityWithUser>,
    pub ui_route: String,
}

/// The form that registers a provider.
#[derive(Debug)]
pub struct AddProviderForm {
    pub slug: String,
    pub display_name: String,
    pub issuer_url: String,
    pub client_id: String,
    pub client_secret: String,
    pub scopes: Option<String>,
}

/// The form that links an identity to a user.
#[derive(Debug)]
pub struct AddIdentityForm {
    pub username: String,
    pub provider_slug: String,
    pub subject: String,
}

/// An answer that is not the list: a status and an alert.
#[derive(Debug)]
pub struct Alert {
    pub status: u16,
    pub html: String,
}

/// The data in an [`Alert`].
pub struct AlertView {
    pub status: u16,
    pub html: Seq<char>,
}

impl View for Alert {
    type V = AlertView;

    open spec fn view(&self) -> AlertView {
        AlertView { status: self.status, html: self.html@ }
    }
}

fn alert(status: u16, html: &str) -> (r: Alert)
    ensures
        r@ == (AlertView { status, html: html@ }),
{
    Alert { status, html: html.to_owned() }
}

/// A registration as it is stored, the secret still in the clear. It is enabled
/// at once.
#[derive(Debug)]
pub struct Registration {
    pub slug: String,
    pub display_name: String,
    pub issuer_url: String,
    pub client_id: String,
    pub client_secret: String,
    pub scopes: String,
    pub enabled: bool,
}

/// The data in a [`Registration`].
pub struct RegistrationView {
    pub slug: Seq<char>,
    pub display_name: Seq<char>,
    pub issuer_url: Seq<char>,
    pub client_id: Seq<char>,
    pub client_secret: Seq<char>,
    pub scopes: Seq<char>,
    pub enabled: bool,
}

impl View for Registration {
    type V = RegistrationView;

    open spec fn view(&self) -> RegistrationView {
        RegistrationView {
            slug: self.slug@,
            display_name: self.display_name@,
            issuer_url: self.issuer_url@,
            client_id: self.client_id@,
            client_secret: self.client_secret@,
            scopes: self.scopes@,
            enabled: self.enabled,
        }
    }
}

/// The characters of a slug.
pub open spec fn slug_char(c: char) -> bool {
    ('a' <= c && c <= 'z') || ('A' <= c && c <= 'Z') || ('0' <= c && c <= '9') || c == '-' || c
        == '_'
}

/// Whether a slug is not empty and can stand in a URL.
pub open spec fn is_slug(s: Seq<char>) -> bool {
    s.len() > 0 && forall|i: int| 0 <= i < s.len() ==> slug_char(#[trigger] s[i])
}

fn valid_slug(s: &str) -> (r: bool)
    ensures
        r == is_slug(s@),
{
    let chars = text::chars_of(s);
    if chars.len() == 0 {
        return false;
    }
    for i in 0..chars.len()
        invariant
            chars@ == s@,
            forall|j: int| 0 <= j < i ==> slug_char(#[trigger] chars[j]),
    {
        let c = chars[i];
        if !(('a' <= c && c <= 'z') || ('A' <= c && c <= 'Z') || ('0' <= c && c <= '9') || c == '-'
            || c == '_') {
            assert(!slug_char(s@[i as int]));
            return false;
        }
    }
    true
}

/// Whether a text starts with another.
pub open spec fn starts_with(s: Seq<char>, head: Seq<char>) -> bool {
    text::occurs_at(s, head, 0)
}

/// Whether an address is one of the web.
pub open spec fn is_web_address(s: Seq<char>) -> bool {
    starts_with(s, "https://"@) || starts_with(s, "http://"@)
}

/// The scopes of a form, or the usual ones.
pub open spec fn scopes_or_default(scopes: Option<Seq<char>>) -> Seq<char> {
    match scopes {
        Some(s) => if text::trimmed(s).len() > 0 {
            text::trimmed(s)
        } else {
            "openid profile email"@
        },
        None => "openid profile email"@,
    }
}

/// What a provider form gives: a registration with everything trimmed, or an
/// alert that says what is wrong.
pub open spec fn checked_provider(form: AddProviderForm) -> Result<RegistrationView, AlertView> {
    let slug = text::trimmed(form.slug@);
    let display_name = text::trimmed(form.display_name@);
    let issuer_url = text::trimmed(form.issuer_url@);
    let client_id = text::trimmed(form.client_id@);
    let client_secret = text::trimmed(form.client_secret@);
    if !is_slug(slug) {
        Err(
            AlertView {
                status: 400,
                html: "<div class=\"alert alert-error\">Slug must be non-empty and url-safe (letters, digits, - or _).</div>"@,
            },
        )
    } else if display_name.len() == 0 || issuer_url.len() == 0 || client_id.len() == 0
        || client_secret.len() == 0 {
        Err(
            AlertView {
                status: 400,
                html: "<div class=\"alert alert-error\">Display name, issuer URL, client ID and client secret are required.</div>"@,
            },
        )
    } else if !is_web_address(issuer_url) {
        Err(
            AlertView {
                status: 400,
                html: "<div class=\"alert alert-error\">Issuer URL must start with http:// or https://</div>"@,
            },
        )
    } else {
        Ok(
            RegistrationView {
                slug,
                display_name,
                issuer_url,
                client_id,
                client_secret,
                scopes: scopes_or_default(json::opt_text(form.scopes)),
                enabled: true,
            },
        )
    }
}

/// Checks the form that registers a provider.
pub fn add_provider(form: &AddProviderForm) -> (r: Result<Registration, Alert>)
    ensures
        match r {
            Ok(p) => checked_provider(*form) == Ok::<_, AlertView>(p@),
            Err(a) => checked_provider(*form) == Err::<RegistrationView, _>(a@),
        },
{
    let slug = text::trim(form.slug.as_str());
    if !valid_slug(slug.as_str()) {
        return Err(
            alert(
                400,
                "<div class=\"alert alert-error\">Slug must be non-empty and url-safe (letters, digits, - or _).</div>",
            ),
        );
    }
    let display_name = text::trim(form.display_name.as_str());
    let issuer_url = text::trim(form.issuer_url.as_str());
    let client_id = text::trim(form.client_id.as_str());
    let client_secret = text::trim(form.client_secret.as_str());
    if display_name.as_str().is_empty() || issuer_url.as_str().is_empty()
        || client_id.as_str().is_empty() || client_secret.as_str().is_empty() {
        return Err(
            alert(
                400,
                "<div class=\"alert alert-error\">Display name, issuer URL, client ID and client secret are required.</div>",
            ),
        );
    }
    let chars = text::chars_of(issuer_url.as_str());
    if !(text::found_at(&chars, &text::chars_of("https://"), 0) || text::found_at(
        &chars,
        &text::chars_of("http://"),
        0,
    )) {
        return Err(
            alert(
                400,
                "<div class=\"alert alert-error\">Issuer URL must start with http:// or https://</div>",
            ),
        );
    }
    let given = match &form.scopes {
        Some(s) => text::trim(s.as_str()),
        None => String::new(),
    };
    let scopes = if given.as_str().is_empty() {
        "openid profile email".to_owned()
    } else {
        given
    };
    Ok(
        Registration {
            slug,
            display_name,
            issuer_url,
            client_id,
            client_secret,
            scopes,
            enabled: true,
        },
    )
}

/// Every provider that a form registers has a slug that can stand in a URL,
/// an issuer on the web, and nothing that is empty.
pub proof fn registrations_are_complete(form: AddProviderForm)
    ensures
        checked_provider(form) matches Ok(p) ==> is_slug(p.slug) && is_web_address(p.issuer_url)
            && p.display_name.len() > 0 && p.client_id.len() > 0 && p.client_secret.len() > 0
            && p.scopes.len() > 0,
{
    reveal_strlit("openid profile email");
}

/// What became of saving a provider.
#[derive(Debug, Clone, Copy, PartialEq, Eq, Structural)]
pub enum SaveOutcome {
    Saved,
    NotEncrypted,
    NotSaved,
}

/// The answer after saving a provider: the list, or an alert.
pub fn after_saving(outcome: SaveOutcome) -> (r: Option<Alert>)
    ensures
        match outcome {
            SaveOutcome::Saved => r is None,
            SaveOutcome::NotEncrypted => r matches Some(a) && a@ == (AlertView {
                status: 500,
                html: "<div class=\"alert alert-error\">Failed to encrypt client secret.</div>"@,
            }),
            SaveOutcome::NotSaved => r matches Some(a) && a@ == (AlertView {
                status: 500,
                html: "<div class=\"alert alert-error\">Failed to save provider.</div>"@,
            }),
        },
{
    match outcome {
        SaveOutcome::Saved => None,
        SaveOutcome::NotEncrypted => Some(
            alert(
                500,
                "<div class=\"alert alert-error\">Failed to encrypt client secret.</div>",
            ),
        ),
        SaveOutcome::NotSaved => Some(
            alert(500, "<div class=\"alert alert-error\">Failed to save provider.</div>"),
        ),
    }
}

/// An identity to link: the user and the issuer and subject it is known by.
#[derive(Debug)]
pub struct IdentityLink {
    pub user_id: String,
    pub issuer: String,
    pub subject: String,
}

/// The data in an [`IdentityLink`].
pub struct IdentityLinkView {
    pub user_id: Seq<char>,
    pub issuer: Seq<char>,
    pub subject: Seq<char>,
}

impl View for IdentityLink {
    type V = IdentityLinkView;

    open spec fn view(&self) -> IdentityLinkView {
        IdentityLinkView {
            user_id: self.user_id@,
            issuer: self.issuer@,
            subject: self.subject@,
        }
    }
}

/// The identity to link, or an alert that says what is wrong: the provider, the
/// user and the subject are checked in this order.
pub open spec fn checked_identity(
    form: AddIdentityForm,
    issuer: Option<Seq<char>>,
    user_id: Option<Seq<char>>,
) -> Result<IdentityLinkView, AlertView> {
    match (issuer, user_id) {
        (None, _) => Err(
            AlertView {
                status: 400,
                html: "<div class=\"alert alert-error\">Unknown provider slug.</div>"@,
            },
        ),
        (Some(_), None) => Err(
            AlertView {
                status: 400,
                html: "<div class=\"alert alert-error\">No such Jellyswarrm user.</div>"@,
            },
        ),
        (Some(issuer), Some(user_id)) => if text::trimmed(form.subject@).len() == 0 {
            Err(
                AlertView {
                    status: 400,
                    html: "<div class=\"alert alert-error\">Subject is required.</div>"@,
                },
            )
        } else {
            Ok(IdentityLinkView { user_id, issuer, subject: text::trimmed(form.subject@) })
        },
    }
}

/// Checks the form that links an identity, given its provider's issuer and its
/// user as far as they were found.
pub fn add_identity(
    form: &AddIdentityForm,
    issuer: Option<String>,
    user_id: Option<String>,
) -> (r: Result<IdentityLink, Alert>)
    ensures
        match r {
            Ok(l) => checked_identity(*form, json::opt_text(issuer), json::opt_text(user_id))
                == Ok::<_, AlertView>(l@),
            Err(a) => checked_identity(*form, json::opt_text(issuer), json::opt_text(user_id))
                == Err::<IdentityLinkView, _>(a@),
        },
{
    match (issuer, user_id) {
        (None, _) => Err(
            alert(400, "<div class=\"alert alert-error\">Unknown provider slug.</div>"),
        ),
        (Some(_), None) => Err(
            alert(400, "<div class=\"alert alert-error\">No such Jellyswarrm user.</div>"),
        ),
        (Some(issuer), Some(user_id)) => {
            let subject = text::trim(form.subject.as_str());
            if subject.as_str().is_empty() {
                return Err(
                    alert(400, "<div class=\"alert alert-error\">Subject is required.</div>"),
                );
            }
            Ok(IdentityLink { user_id, issuer, subject })
        },
    }
}

/// The names under which the provider and the user of an identity form are
/// looked up.
pub fn identity_lookups(form: &AddIdentityForm) -> (r: (String, String))
    ensures
        r.0@ == text::trimmed(form.provider_slug@),
        r.1@ == text::trimmed(form.username@),
{
    (text::trim(form.provider_slug.as_str()), text::trim(form.username.as_str()))
}

/// The answer when linking failed.
pub fn link_failed() -> (r: Alert)
    ensures
        r@ == (AlertView {
            status: 500,
            html: "<div class=\"alert alert-error\">Failed to link identity.</div>"@,
        }),
{
    alert(500, "<div class=\"alert alert-error\">Failed to link identity.</div>")
}

/// What became of removing a row: it was there or not, or removing failed.
#[derive(Debug, Clone, Copy, PartialEq, Eq, Structural)]
pub enum Removal {
    Removed,
    Missing,
    Failed,
}

/// The answer after unlinking an identity: the list, or an alert.
pub fn delete_identity(removal: Removal) -> (r: Option<Alert>)
    ensures
        match removal {
            Removal::Removed => r is None,
            Removal::Missing => r matches Some(a) && a@ == (AlertView {
                status: 404,
                html: "<div class=\"alert alert-error\">Identity not found</div>"@,
            }),
            Removal::Failed => r matches Some(a) && a@ == (AlertView {
                status: 500,
                html: "<div class=\"alert alert-error\">Failed to unlink</div>"@,
            }),
        },
{
    match removal {
        Removal::Removed => None,
        Removal::Missing => Some(
            alert(404, "<div class=\"alert alert-error\">Identity not found</div>"),
        ),
        Removal::Failed => Some(
            alert(500, "<div class=\"alert alert-error\">Failed to unlink</div>"),
        ),
    }
}

/// The answer after deleting a provider: the list, or an alert.
pub fn delete_provider(removal: Removal) -> (r: Option<Alert>)
    ensures
        match removal {
            Removal::Removed => r is None,
            Removal::Missing => r matches Some(a) && a@ == (AlertView {
                status: 404,
                html: "<div class=\"alert alert-error\">Provider not found</div>"@,
            }),
            Removal::Failed => r matches Some(a) && a@ == (AlertView {
                status: 500,
                html: "<div class=\"alert alert-error\">Failed to delete provider</div>"@,
            }),
        },
{
    match removal {
        Removal::Removed => None,
        Removal::Missing => Some(
            alert(404, "<div class=\"alert alert-error\">Provider not found</div>"),
        ),
        Removal::Failed => Some(
            alert(500, "<div class=\"alert alert-error\">Failed to delete provider</div>"),
        ),
    }
}

/// Whether a text is not empty and made up of letters and digits of ASCII,
/// hyphens and underscores.
pub open spec fn can_stand_in_a_path(s: Seq<char>) -> bool {
    s.len() > 0 && forall|i: int|
        0 <= i < s.len() ==> {
            let c = #[trigger] s[i] as int;
            97 <= c <= 122 || 65 <= c <= 90 || 48 <= c <= 57 || c == 45 || c == 95
        }
}

/// Whether the text begins with the characters.
pub open spec fn begins_with(s: Seq<char>, head: Seq<char>) -> bool {
    s.len() >= head.len() && s.take(head.len() as int) == head
}

proof fn slugs_can_stand_in_a_path(s: Seq<char>)
    ensures
        is_slug(s) <==> can_stand_in_a_path(s),
{
    if is_slug(s) {
        assert forall|i: int| 0 <= i < s.len() implies {
            let c = #[trigger] s[i] as int;
            97 <= c <= 122 || 65 <= c <= 90 || 48 <= c <= 57 || c == 45 || c == 95
        } by {
            assert(slug_char(s[i]));
        }
    }
    if can_stand_in_a_path(s) {
        assert forall|i: int| 0 <= i < s.len() implies slug_char(#[trigger] s[i]) by {
            let c = s[i] as int;
            assert(97 <= c <= 122 || 65 <= c <= 90 || 48 <= c <= 57 || c == 45 || c == 95);
        }
    }
}

proof fn web_addresses_begin_with_their_scheme(s: Seq<char>)
    ensures
        is_web_address(s) <==> begins_with(s, "https://"@) || begins_with(s, "http://"@),
{
    reveal_strlit("https://");
    reveal_strlit("http://");
    if s.len() >= 8 {
        assert(s.take(8) =~= s.subrange(0, 8));
    }
    if s.len() >= 7 {
        assert(s.take(7) =~= s.subrange(0, 7));
    }
}

/// A provider is registered exactly where its slug can stand in a path, nothing
/// it needs is empty and its issuer is an address of the web, white space around
/// each aside. It is registered with what the form holds, enabled, and with the
/// usual scopes where the form has none.
pub proof fn complete_forms_are_registered(form: AddProviderForm)
    ensures
        checked_provider(form) is Ok <==> {
            &&& can_stand_in_a_path(text::trimmed(form.slug@))
            &&& text::trimmed(form.display_name@).len() > 0
            &&& text::trimmed(form.client_id@).len() > 0
            &&& text::trimmed(form.client_secret@).len() > 0
            &&& begins_with(text::trimmed(form.issuer_url@), "https://"@) || begins_with(
                text::trimmed(form.issuer_url@),
                "http://"@,
            )
        },
        checked_provider(form) matches Ok(p) ==> {
            &&& p.slug == text::trimmed(form.slug@)
            &&& p.display_name == text::trimmed(form.display_name@)
            &&& p.issuer_url == text::trimmed(form.issuer_url@)
            &&& p.client_id == text::trimmed(form.client_id@)
            &&& p.client_secret == text::trimmed(form.client_secret@)
            &&& p.enabled
            &&& form.scopes is None ==> p.scopes == "openid profile email"@
            &&& form.scopes matches Some(s) ==> p.scopes == if text::trimmed(s@).len() == 0 {
                "openid profile email"@
            } else {
                text::trimmed(s@)
            }
        },
        checked_provider(form) matches Err(a) ==> a.status == 400,
{
    reveal_strlit("https://");
    reveal_strlit("http://");
    slugs_can_stand_in_a_path(text::trimmed(form.slug@));
    web_addresses_begin_with_their_scheme(text::trimmed(form.issuer_url@));
}

/// What is wrong with a form is said of the slug first, then of what is missing,
/// and then of the issuer.
pub proof fn what_is_wrong_is_said_in_order(form: AddProviderForm)
    ensures
        ({
            let bad_slug = !can_stand_in_a_path(text::trimmed(form.slug@));
            let missing = text::trimmed(form.display_name@).len() == 0 || text::trimmed(
                form.issuer_url@,
            ).len() == 0 || text::trimmed(form.client_id@).len() == 0 || text::trimmed(
                form.client_secret@,
            ).len() == 0;
            checked_provider(form) matches Err(a) ==> a.html == if bad_slug {
                "<div class=\"alert alert-error\">Slug must be non-empty and url-safe (letters, digits, - or _).</div>"@
            } else if missing {
                "<div class=\"alert alert-error\">Display name, issuer URL, client ID and client secret are required.</div>"@
            } else {
                "<div class=\"alert alert-error\">Issuer URL must start with http:// or https://</div>"@
            }
        }),
{
    slugs_can_stand_in_a_path(text::trimmed(form.slug@));
}

/// An identity is linked exactly where its provider and its user are known and
/// it has a subject, white space around it aside; it is linked for that user
/// and that issuer.
pub proof fn known_identities_are_linked(
    form: AddIdentityForm,
    issuer: Option<Seq<char>>,
    user_id: Option<Seq<char>>,
)
    ensures
        ({
            let subject = text::trimmed(form.subject@);
            let r = checked_identity(form, issuer, user_id);
            &&& r is Ok <==> issuer is Some && user_id is Some && subject.len() > 0
            &&& r matches Ok(l) ==> Some(l.issuer) == issuer && Some(l.user_id) == user_id
                && l.subject == subject
            &&& r matches Err(a) ==> a.status == 400 && a.html == if issuer is None {
                "<div class=\"alert alert-error\">Unknown provider slug.</div>"@
            } else if user_id is None {
                "<div class=\"alert alert-error\">No such Jellyswarrm user.</div>"@
            } else {
                "<div class=\"alert alert-error\">Subject is required.</div>"@
            }
        }),
{
}

}
