//! Registered identity providers, and the links from external identities to
//! local users.
//!
//! An identity is keyed on issuer and subject, never on email. Only registered
//! providers are trusted. The tables are plain data here; storing them is left
//! to the caller. Times are in seconds.
use vstd::prelude::*;
use vstd::relations::*;
use vstd::seq_lib::*;
use vstd::string::*;

use crate::json;
use crate::sorting;
use crate::text;

verus! {

/// An OpenID Connect identity provider that an admin registered.
#[derive(Debug, Clone)]
pub struct OidcProvider {
    pub id: i64,
    /// Identifier used in routes and in the login picker.
    pub slug: String,
    pub display_name: String,
    pub issuer_url: String,
    pub client_id: String,
    /// Encrypted under the master key.
    pub client_secret: String,
    /// The scopes with spaces between.
    pub scopes: String,
    pub enabled: bool,
    /// The backend that this provider signs in to; `None` for all servers.
    pub server_id: Option<i64>,
    pub created_at: i64,
    pub updated_at: i64,
}

/// The data in an [`OidcProvider`].
pub struct ProviderView {
    pub id: i64,
    pub slug: Seq<char>,
    pub display_name: Seq<char>,
    pub issuer_url: Seq<char>,
    pub client_id: Seq<char>,
    pub client_secret: Seq<char>,
    pub scopes: Seq<char>,
    pub enabled: bool,
    pub server_id: Option<i64>,
    pub created_at: i64,
    pub updated_at: i64,
}

impl View for OidcProvider {
    type V = ProviderView;

    open spec fn view(&self) -> ProviderView {
        ProviderView {
            id: self.id,
            slug: self.slug@,
            display_name: self.display_name@,
            issuer_url: self.issuer_url@,
            client_id: self.client_id@,
            client_secret: self.client_secret@,
            scopes: self.scopes@,
            enabled: self.enabled,
            server_id: self.server_id,
            created_at: self.created_at,
            updated_at: self.updated_at,
        }
    }
}

/// The data in a list of providers.
pub open spec fn providers_in(v: Seq<OidcProvider>) -> Seq<ProviderView> {
    v.map_values(|p: OidcProvider| p@)
}

/// A provider with the name of its server, for the login picker and the admin
/// list.
#[derive(Debug, Clone)]
pub struct OidcProviderRow {
    pub id: i64,
    pub slug: String,
    pub display_name: String,
    pub issuer_url: String,
    pub enabled: bool,
    pub server_id: Option<i64>,
    pub server_name: Option<String>,
}

/// The data in an [`OidcProviderRow`].
pub struct ProviderRowView {
    pub id: i64,
    pub slug: Seq<char>,
    pub display_name: Seq<char>,
    pub issuer_url: Seq<char>,
    pub enabled: bool,
    pub server_id: Option<i64>,
    pub server_name: Option<Seq<char>>,
}

impl View for OidcProviderRow {
    type V = ProviderRowView;

    open spec fn view(&self) -> ProviderRowView {
        ProviderRowView {
            id: self.id,
            slug: self.slug@,
            display_name: self.display_name@,
            issuer_url: self.issuer_url@,
            enabled: self.enabled,
            server_id: self.server_id,
            server_name: json::opt_text(self.server_name),
        }
    }
}

/// The data in a list of provider rows.
pub open spec fn rows_in(v: Seq<OidcProviderRow>) -> Seq<ProviderRowView> {
    v.map_values(|p: OidcProviderRow| p@)
}

/// A link from an external identity to a local user.
#[derive(Debug, Clone)]
pub struct OidcIdentity {
    pub id: i64,
    pub user_id: String,
    /// The issuer without trailing slashes.
    pub issuer: String,
    pub subject: String,
    /// Informational only, never used to authenticate.
    pub email: Option<String>,
    pub created_at: i64,
}

/// The data in an [`OidcIdentity`].
pub struct IdentityView {
    pub id: i64,
    pub user_id: Seq<char>,
    pub issuer: Seq<char>,
    pub subject: Seq<char>,
    pub email: Option<Seq<char>>,
    pub created_at: i64,
}

impl View for OidcIdentity {
    type V = IdentityView;

    open spec fn view(&self) -> IdentityView {
        IdentityView {
            id: self.id,
            user_id: self.user_id@,
            issuer: self.issuer@,
            subject: self.subject@,
            email: json::opt_text(self.email),
            created_at: self.created_at,
        }
    }
}

/// The data in a list of identities.
pub open spec fn identities_in(v: Seq<OidcIdentity>) -> Seq<IdentityView> {
    v.map_values(|i: OidcIdentity| i@)
}

/// An identity with the name of its user, for admin display.
#[derive(Debug, Clone)]
pub struct OidcIdentityWithUser {
    pub id: i64,
    pub user_id: String,
    pub issuer: String,
    pub subject: String,
    pub email: Option<String>,
    pub username: Option<String>,
}

/// The data in an [`OidcIdentityWithUser`].
pub struct NamedIdentityView {
    pub id: i64,
    pub user_id: Seq<char>,
    pub issuer: Seq<char>,
    pub subject: Seq<char>,
    pub email: Option<Seq<char>>,
    pub username: Option<Seq<char>>,
}

impl View for OidcIdentityWithUser {
    type V = NamedIdentityView;

    open spec fn view(&self) -> NamedIdentityView {
        NamedIdentityView {
            id: self.id,
            user_id: self.user_id@,
            issuer: self.issuer@,
            subject: self.subject@,
            email: json::opt_text(self.email),
            username: json::opt_text(self.username),
        }
    }
}

/// The data in a list of named identities.
pub open spec fn named_in(v: Seq<OidcIdentityWithUser>) -> Seq<NamedIdentityView> {
    v.map_values(|i: OidcIdentityWithUser| i@)
}

fn copy_text(s: &Option<String>) -> (r: Option<String>)
    ensures
        json::opt_text(r) == json::opt_text(*s),
{
    match s {
        Some(t) => Some(t.clone()),
        None => None,
    }
}

impl OidcProvider {
    /// The same provider once more.
    pub fn copy(&self) -> (r: Self)
        ensures
            r@ == self@,
    {
        OidcProvider {
            id: self.id,
            slug: self.slug.clone(),
            display_name: self.display_name.clone(),
            issuer_url: self.issuer_url.clone(),
            client_id: self.client_id.clone(),
            client_secret: self.client_secret.clone(),
            scopes: self.scopes.clone(),
            enabled: self.enabled,
            server_id: self.server_id,
            created_at: self.created_at,
            updated_at: self.updated_at,
        }
    }
}

impl OidcIdentity {
    /// The same identity once more.
    pub fn copy(&self) -> (r: Self)
        ensures
            r@ == self@,
    {
        OidcIdentity {
            id: self.id,
            user_id: self.user_id.clone(),
            issuer: self.issuer.clone(),
            subject: self.subject.clone(),
            email: copy_text(&self.email),
            created_at: self.created_at,
        }
    }
}

/// An issuer in its canonical form: without trailing slashes.
pub open spec fn canonical_issuer(issuer: Seq<char>) -> Seq<char> {
    text::without_trailing(issuer, '/')
}

/// The name under an id in a table of ids and names.
pub open spec fn name_of_id(names: Seq<(i64, Seq<char>)>, id: i64) -> Option<Seq<char>>
    decreases names.len(),
{
    if names.len() == 0 {
        None
    } else {
        match name_of_id(names.drop_last(), id) {
            Some(n) => Some(n),
            None => if names.last().0 == id {
                Some(names.last().1)
            } else {
                None
            },
        }
    }
}

/// The ids and names of servers.
pub open spec fn server_names(servers: Seq<(i64, String)>) -> Seq<(i64, Seq<char>)> {
    servers.map_values(|s: (i64, String)| (s.0, s.1@))
}

proof fn name_in_prefix(names: Seq<(i64, Seq<char>)>, id: i64, n: int)
    requires
        0 <= n <= names.len(),
        name_of_id(names.take(n), id) is Some,
    ensures
        name_of_id(names, id) == name_of_id(names.take(n), id),
    decreases names.len(),
{
    if n == names.len() {
        assert(names.take(n) =~= names);
    } else {
        assert(names.drop_last().take(n) =~= names.take(n));
        name_in_prefix(names.drop_last(), id, n);
    }
}

fn server_name(servers: &Vec<(i64, String)>, id: i64) -> (r: Option<String>)
    ensures
        json::opt_text(r) == name_of_id(server_names(servers@), id),
{
    let ghost all = server_names(servers@);
    for i in 0..servers.len()
        invariant
            all == server_names(servers@),
            name_of_id(all.take(i as int), id) is None,
    {
        assert(all.take(i + 1).drop_last() =~= all.take(i as int));
        assert(all.take(i + 1).last() == (servers[i as int].0, servers[i as int].1@));
        if servers[i].0 == id {
            proof {
                name_in_prefix(all, id, i + 1);
            }
            return Some(servers[i].1.clone());
        }
    }
    assert(all.take(servers.len() as int) =~= all);
    None
}

/// The name of a user.
pub open spec fn name_of_user(
    users: Seq<(Seq<char>, Seq<char>)>,
    id: Seq<char>,
) -> Option<Seq<char>>
    decreases users.len(),
{
    if users.len() == 0 {
        None
    } else {
        match name_of_user(users.drop_last(), id) {
            Some(n) => Some(n),
            None => if users.last().0 == id {
                Some(users.last().1)
            } else {
                None
            },
        }
    }
}

/// The ids and names of users.
pub open spec fn user_names(users: Seq<(String, String)>) -> Seq<(Seq<char>, Seq<char>)> {
    users.map_values(|u: (String, String)| (u.0@, u.1@))
}

proof fn user_in_prefix(users: Seq<(Seq<char>, Seq<char>)>, id: Seq<char>, n: int)
    requires
        0 <= n <= users.len(),
        name_of_user(users.take(n), id) is Some,
    ensures
        name_of_user(users, id) == name_of_user(users.take(n), id),
    decreases users.len(),
{
    if n == users.len() {
        assert(users.take(n) =~= users);
    } else {
        assert(users.drop_last().take(n) =~= users.take(n));
        user_in_prefix(users.drop_last(), id, n);
    }
}

fn user_name(users: &Vec<(String, String)>, id: &str) -> (r: Option<String>)
    ensures
        json::opt_text(r) == name_of_user(user_names(users@), id@),
{
    let ghost all = user_names(users@);
    for i in 0..users.len()
        invariant
            all == user_names(users@),
            name_of_user(all.take(i as int), id@) is None,
    {
        assert(all.take(i + 1).drop_last() =~= all.take(i as int));
        assert(all.take(i + 1).last() == (users[i as int].0@, users[i as int].1@));
        if text::str_eq(users[i].0.as_str(), id) {
            proof {
                user_in_prefix(all, id@, i + 1);
            }
            return Some(users[i].1.clone());
        }
    }
    assert(all.take(users.len() as int) =~= all);
    None
}

/// The order of providers by the name that is shown.
pub open spec fn by_display_name() -> spec_fn(ProviderView, ProviderView) -> bool {
    |a: ProviderView, b: ProviderView| text::lex_le(a.display_name, b.display_name)
}

/// Whether a provider is offered to users.
pub open spec fn is_enabled() -> spec_fn(ProviderView) -> bool {
    |p: ProviderView| p.enabled
}

/// The row of a provider, given the servers' names.
pub open spec fn row_of(p: ProviderView, servers: Seq<(i64, Seq<char>)>) -> ProviderRowView {
    ProviderRowView {
        id: p.id,
        slug: p.slug,
        display_name: p.display_name,
        issuer_url: p.issuer_url,
        enabled: p.enabled,
        server_id: p.server_id,
        server_name: match p.server_id {
            Some(id) => name_of_id(servers, id),
            None => None,
        },
    }
}

/// The rows of providers.
pub open spec fn rows_of(
    ps: Seq<ProviderView>,
    servers: Seq<(i64, Seq<char>)>,
) -> Seq<ProviderRowView> {
    ps.map_values(|p: ProviderView| row_of(p, servers))
}

/// Names in order, missing ones first.
pub open spec fn opt_le(a: Option<Seq<char>>, b: Option<Seq<char>>) -> bool {
    match (a, b) {
        (None, _) => true,
        (Some(_), None) => false,
        (Some(x), Some(y)) => text::lex_le(x, y),
    }
}

/// The order of rows: those of a server first, by the server's name, then by
/// the name that is shown.
pub open spec fn row_le(a: ProviderRowView, b: ProviderRowView) -> bool {
    if (a.server_id is None) != (b.server_id is None) {
        a.server_id is Some
    } else if a.server_name != b.server_name {
        opt_le(a.server_name, b.server_name)
    } else {
        text::lex_le(a.display_name, b.display_name)
    }
}

/// The order of rows, as a relation.
pub open spec fn by_server() -> spec_fn(ProviderRowView, ProviderRowView) -> bool {
    |a: ProviderRowView, b: ProviderRowView| row_le(a, b)
}

fn opt_text_eq(a: &Option<String>, b: &Option<String>) -> (r: bool)
    ensures
        r == (json::opt_text(*a) == json::opt_text(*b)),
{
    match (a, b) {
        (None, None) => true,
        (Some(x), Some(y)) => text::str_eq(x.as_str(), y.as_str()),
        _ => false,
    }
}

fn row_not_above(a: &OidcProviderRow, b: &OidcProviderRow) -> (r: bool)
    ensures
        r == row_le(a@, b@),
{
    if a.server_id.is_none() != b.server_id.is_none() {
        a.server_id.is_some()
    } else if !opt_text_eq(&a.server_name, &b.server_name) {
        match (&a.server_name, &b.server_name) {
            (None, _) => true,
            (Some(_), None) => false,
            (Some(x), Some(y)) => text::str_le(x.as_str(), y.as_str()),
        }
    } else {
        text::str_le(a.display_name.as_str(), b.display_name.as_str())
    }
}

/// The order of identities by age.
pub open spec fn oldest_first() -> spec_fn(IdentityView, IdentityView) -> bool {
    |a: IdentityView, b: IdentityView| a.created_at <= b.created_at
}

/// The order of identities by age, the other way round.
pub open spec fn newest_first() -> spec_fn(IdentityView, IdentityView) -> bool {
    |a: IdentityView, b: IdentityView| b.created_at <= a.created_at
}

/// An identity with its user's name.
pub open spec fn named(i: IdentityView, users: Seq<(Seq<char>, Seq<char>)>) -> NamedIdentityView {
    NamedIdentityView {
        id: i.id,
        user_id: i.user_id,
        issuer: i.issuer,
        subject: i.subject,
        email: i.email,
        username: name_of_user(users, i.user_id),
    }
}

/// Whether no two providers have the same slug.
pub open spec fn slugs_differ(ps: Seq<ProviderView>) -> bool {
    forall|i: int, j: int|
        0 <= i < j < ps.len() ==> (#[trigger] ps[i]).slug != (#[trigger] ps[j]).slug
}

/// Whether no two identities have the same issuer and subject.
pub open spec fn identities_differ(ids: Seq<IdentityView>) -> bool {
    forall|i: int, j: int|
        0 <= i < j < ids.len() ==> !((#[trigger] ids[i]).issuer == (#[trigger] ids[j]).issuer
            && ids[i].subject == ids[j].subject)
}

/// The ids of providers.
pub open spec fn provider_ids(ps: Seq<ProviderView>) -> Seq<i64> {
    ps.map_values(|p: ProviderView| p.id)
}

/// The ids of identities.
pub open spec fn identity_ids(ids: Seq<IdentityView>) -> Seq<i64> {
    ids.map_values(|i: IdentityView| i.id)
}

/// Whether no two rows have the same id, and every id is below `next`, unless
/// that is the last one, which no row is given.
pub open spec fn ids_below(ids: Seq<i64>, next: i64) -> bool {
    &&& forall|i: int| 0 <= i < ids.len() ==> #[trigger] ids[i] < next || next == i64::MAX
    &&& forall|i: int, j: int| 0 <= i < j < ids.len() ==> #[trigger] ids[i] != #[trigger] ids[j]
}

/// The next id once a row with an id is there.
pub open spec fn id_after(next: i64, id: i64) -> i64 {
    if next > id {
        next
    } else if id == i64::MAX {
        i64::MAX
    } else {
        (id + 1) as i64
    }
}

fn next_id(next: i64, id: i64) -> (r: i64)
    ensures
        r == id_after(next, id),
{
    if next > id {
        next
    } else if id == i64::MAX {
        i64::MAX
    } else {
        id + 1
    }
}

/// The id that a new row gets beside stored ones.
pub open spec fn next_after(ids: Seq<i64>) -> i64
    decreases ids.len(),
{
    if ids.len() == 0 {
        1
    } else {
        id_after(next_after(ids.drop_last()), ids.last())
    }
}

/// The table of providers with one more, to which those give way that have the
/// same slug or id.
pub open spec fn with_provider(ps: Seq<ProviderView>, new: ProviderView) -> Seq<ProviderView> {
    ps.filter(|p: ProviderView| !(p.id == new.id || p.slug == new.slug)).push(new)
}

/// What remains of stored providers: of those that clash the latest.
pub open spec fn kept_providers(ps: Seq<ProviderView>) -> Seq<ProviderView>
    decreases ps.len(),
{
    if ps.len() == 0 {
        Seq::empty()
    } else {
        with_provider(kept_providers(ps.drop_last()), ps.last())
    }
}

/// The table of identities with one more, to which those give way that have
/// the same issuer and subject or the same id.
pub open spec fn with_identity(ids: Seq<IdentityView>, new: IdentityView) -> Seq<IdentityView> {
    ids.filter(
        |i: IdentityView| !(i.id == new.id || (i.issuer == new.issuer && i.subject == new.subject)),
    ).push(new)
}

/// What remains of stored identities: of those that clash the latest, as a
/// later link replaces an earlier one.
pub open spec fn kept_identities(ids: Seq<IdentityView>) -> Seq<IdentityView>
    decreases ids.len(),
{
    if ids.len() == 0 {
        Seq::empty()
    } else {
        with_identity(kept_identities(ids.drop_last()), ids.last())
    }
}

/// Whether every issuer is in its canonical form.
pub open spec fn issuers_are_canonical(ids: Seq<IdentityView>) -> bool {
    forall|i: int|
        0 <= i < ids.len() ==> (#[trigger] ids[i]).issuer == canonical_issuer(ids[i].issuer)
}

/// Identities with their issuers in canonical form.
pub open spec fn with_canonical_issuers(ids: Seq<IdentityView>) -> Seq<IdentityView> {
    ids.map_values(
        |i: IdentityView| (IdentityView { issuer: canonical_issuer(i.issuer), ..i }),
    )
}

/// Whether a provider has the slug.
pub open spec fn has_slug(ps: Seq<ProviderView>, slug: Seq<char>) -> bool {
    exists|i: int| 0 <= i < ps.len() && (#[trigger] ps[i]).slug == slug
}

/// What is registered of a provider.
pub struct RegistrationView {
    pub slug: Seq<char>,
    pub display_name: Seq<char>,
    pub issuer_url: Seq<char>,
    pub client_id: Seq<char>,
    pub client_secret: Seq<char>,
    pub scopes: Seq<char>,
    pub enabled: bool,
    pub server_id: Option<i64>,
}

/// A provider with what is registered, under an id and a time of creation.
pub open spec fn provider_of(r: RegistrationView, id: i64, created_at: i64, now: i64) -> ProviderView {
    ProviderView {
        id,
        slug: r.slug,
        display_name: r.display_name,
        issuer_url: r.issuer_url,
        client_id: r.client_id,
        client_secret: r.client_secret,
        scopes: r.scopes,
        enabled: r.enabled,
        server_id: r.server_id,
        created_at,
        updated_at: now,
    }
}

/// The providers after one was registered: the one with the same slug is
/// replaced in place, or a new one is added.
pub open spec fn upserted(
    ps: Seq<ProviderView>,
    next: i64,
    r: RegistrationView,
    now: i64,
) -> Seq<ProviderView> {
    if has_slug(ps, r.slug) {
        ps.map_values(
            |p: ProviderView|
                if p.slug == r.slug {
                    provider_of(r, p.id, p.created_at, now)
                } else {
                    p
                },
        )
    } else {
        ps.push(provider_of(r, next, now, now))
    }
}

/// Whether an identity is the one of the issuer and the subject.
pub open spec fn is_identity(i: IdentityView, issuer: Seq<char>, subject: Seq<char>) -> bool {
    i.issuer == canonical_issuer(issuer) && i.subject == subject
}

/// Whether the identity is linked.
pub open spec fn is_linked(ids: Seq<IdentityView>, issuer: Seq<char>, subject: Seq<char>) -> bool {
    exists|i: int| 0 <= i < ids.len() && is_identity(#[trigger] ids[i], issuer, subject)
}

/// The identities after one was linked: the link of the same issuer and
/// subject is changed in place, or a new one is added.
pub open spec fn linked(
    ids: Seq<IdentityView>,
    next: i64,
    user_id: Seq<char>,
    issuer: Seq<char>,
    subject: Seq<char>,
    email: Option<Seq<char>>,
    now: i64,
) -> Seq<IdentityView> {
    if is_linked(ids, issuer, subject) {
        ids.map_values(
            |i: IdentityView|
                if is_identity(i, issuer, subject) {
                    IdentityView { user_id, email, ..i }
                } else {
                    i
                },
        )
    } else {
        ids.push(
            IdentityView {
                id: next,
                user_id,
                issuer: canonical_issuer(issuer),
                subject,
                email,
                created_at: now,
            },
        )
    }
}

/// Why an identity is not linked.
#[derive(Debug, Clone, Copy, PartialEq, Eq, Structural)]
pub enum LinkError {
    /// There is no user with the id.
    UnknownUser,
}

/// The tables of providers and identities.
#[derive(Debug)]
pub struct OidcStorageService {
    providers: Vec<OidcProvider>,
    identities: Vec<OidcIdentity>,
    next_provider: i64,
    next_identity: i64,
}

impl OidcStorageService {
    /// The registered providers.
    pub closed spec fn providers(self) -> Seq<ProviderView> {
        providers_in(self.providers@)
    }

    /// The linked identities.
    pub closed spec fn identities(self) -> Seq<IdentityView> {
        identities_in(self.identities@)
    }

    /// The id of the next new provider.
    pub closed spec fn next_provider(self) -> i64 {
        self.next_provider
    }

    /// The id of the next new identity.
    pub closed spec fn next_identity(self) -> i64 {
        self.next_identity
    }

    /// One provider per slug and per id, one identity per issuer and subject
    /// and per id, issuers in canonical form.
    pub open spec fn well_formed(self) -> bool {
        &&& slugs_differ(self.providers())
        &&& identities_differ(self.identities())
        &&& issuers_are_canonical(self.identities())
        &&& ids_below(provider_ids(self.providers()), self.next_provider())
        &&& ids_below(identity_ids(self.identities()), self.next_identity())
    }

    /// Empty tables.
    pub fn new() -> (r: Self)
        ensures
            r.well_formed(),
            r.providers() == Seq::<ProviderView>::empty(),
            r.identities() == Seq::<IdentityView>::empty(),
            r.next_provider() == 1,
            r.next_identity() == 1,
    {
        let r = OidcStorageService {
            providers: Vec::new(),
            identities: Vec::new(),
            next_provider: 1,
            next_identity: 1,
        };
        assert(r.providers() =~= Seq::<ProviderView>::empty());
        assert(r.identities() =~= Seq::<IdentityView>::empty());
        r
    }

    /// The tables with the given rows, as they were stored; issuers are brought
    /// to their canonical form. A provider gives way to a later one with the
    /// same slug or id, an identity to a later one with the same issuer and
    /// subject or the same id. The last ids that were given, whether or not
    /// their rows are still there, are not given again.
    pub fn restore(
        providers: Vec<OidcProvider>,
        identities: Vec<OidcIdentity>,
        last_provider: i64,
        last_identity: i64,
    ) -> (r: Self)
        ensures
            r.well_formed(),
            r.providers() == kept_providers(providers_in(providers@)),
            r.identities() == kept_identities(with_canonical_issuers(identities_in(identities@))),
            r.next_provider() == id_after(
                next_after(provider_ids(providers_in(providers@))),
                last_provider,
            ),
            r.next_identity() == id_after(
                next_after(identity_ids(identities_in(identities@))),
                last_identity,
            ),
    {
        let ghost ps = providers_in(providers@);
        let ghost wanted = with_canonical_issuers(identities_in(identities@));
        let mut r = OidcStorageService::new();
        assert(r.providers() =~= kept_providers(ps.take(0)));
        assert(r.identities() =~= kept_identities(wanted.take(0)));
        for j in 0..providers.len()
            invariant
                ps == providers_in(providers@),
                r.well_formed(),
                r.providers() == kept_providers(ps.take(j as int)),
                r.next_provider() == next_after(provider_ids(ps.take(j as int))),
                r.identities() == kept_identities(wanted.take(0)),
                r.next_identity() == 1,
        {
            assert(ps.take(j + 1).drop_last() =~= ps.take(j as int));
            assert(ps.take(j + 1).last() == providers[j as int]@);
            assert(provider_ids(ps.take(j + 1)).drop_last() =~= provider_ids(ps.take(j as int)));
            r.put_back_provider(providers[j].copy());
        }
        assert(ps.take(providers.len() as int) =~= ps);
        for j in 0..identities.len()
            invariant
                wanted == with_canonical_issuers(identities_in(identities@)),
                r.well_formed(),
                r.providers() == kept_providers(ps),
                r.next_provider() == next_after(provider_ids(ps)),
                r.identities() == kept_identities(wanted.take(j as int)),
                r.next_identity() == next_after(identity_ids(wanted.take(j as int))),
        {
            let row = OidcIdentity {
                id: identities[j].id,
                user_id: identities[j].user_id.clone(),
                issuer: text::trim_end_char(identities[j].issuer.as_str(), '/'),
                subject: identities[j].subject.clone(),
                email: copy_text(&identities[j].email),
                created_at: identities[j].created_at,
            };
            assert(row@ == wanted[j as int]);
            assert(wanted.take(j + 1).drop_last() =~= wanted.take(j as int));
            assert(wanted.take(j + 1).last() == row@);
            assert(identity_ids(wanted.take(j + 1)).drop_last() =~= identity_ids(
                wanted.take(j as int),
            ));
            proof {
                canonical_is_canonical(identities[j as int].issuer@);
            }
            r.put_back_identity(row);
        }
        assert(wanted.take(identities.len() as int) =~= wanted);
        assert(identity_ids(wanted) =~= identity_ids(identities_in(identities@)));
        r.next_provider = next_id(r.next_provider, last_provider);
        r.next_identity = next_id(r.next_identity, last_identity);
        r
    }

    fn put_back_provider(&mut self, new: OidcProvider)
        requires
            old(self).well_formed(),
        ensures
            final(self).well_formed(),
            final(self).providers() == with_provider(old(self).providers(), new@),
            final(self).next_provider() == id_after(old(self).next_provider(), new@.id),
            final(self).identities() == old(self).identities(),
            final(self).next_identity() == old(self).next_identity(),
    {
        let ghost all = self.providers();
        let ghost added = new@;
        let ghost keep = |p: ProviderView| !(p.id == added.id || p.slug == added.slug);
        let mut out: Vec<OidcProvider> = Vec::new();
        proof {
            reveal(Seq::filter);
        }
        assert(providers_in(out@) =~= all.take(0).filter(keep));
        for i in 0..self.providers.len()
            invariant
                *self == *old(self),
                added == new@,
                keep == (|p: ProviderView| !(p.id == added.id || p.slug == added.slug)),
                all == providers_in(self.providers@),
                providers_in(out@) == all.take(i as int).filter(keep),
        {
            proof {
                reveal(Seq::filter);
            }
            let ghost before = providers_in(out@);
            assert(all.take(i + 1).drop_last() =~= all.take(i as int));
            assert(all.take(i + 1).last() == self.providers[i as int]@);
            if !(self.providers[i].id == new.id || text::str_eq(
                self.providers[i].slug.as_str(),
                new.slug.as_str(),
            )) {
                out.push(self.providers[i].copy());
                assert(providers_in(out@) =~= before.push(self.providers[i as int]@));
            }
        }
        assert(all.take(self.providers.len() as int) =~= all);
        let ghost kept = all.filter(keep);
        proof {
            fewer_providers_differ(all, keep, self.next_provider);
        }
        self.next_provider = next_id(self.next_provider, new.id);
        out.push(new);
        self.providers = out;
        assert(self.providers() =~= kept.push(added));
        proof {
            let after = self.providers();
            let ids = provider_ids(after);
            let next = self.next_provider;
            assert forall|x: int| 0 <= x < kept.len() implies keep(#[trigger] kept[x]) by {
                all.lemma_filter_pred(keep, x);
            }
            assert forall|x: int, y: int| 0 <= x < y < after.len() implies (
            #[trigger] after[x]).slug != (#[trigger] after[y]).slug && after[x].id
                != after[y].id by {
                assert(after[x] == kept[x] && keep(kept[x]));
                assert(provider_ids(kept)[x] == kept[x].id);
                if y < kept.len() {
                    assert(after[y] == kept[y]);
                    assert(provider_ids(kept)[y] == kept[y].id);
                }
            }
            assert forall|x: int, y: int| 0 <= x < y < ids.len() implies #[trigger] ids[x]
                != #[trigger] ids[y] by {
                assert(after[x].id != after[y].id);
            }
            assert forall|x: int| 0 <= x < ids.len() implies #[trigger] ids[x] < next || next
                == i64::MAX by {
                if x < kept.len() {
                    assert(provider_ids(kept)[x] == ids[x]);
                }
            }
        }
    }

    fn put_back_identity(&mut self, new: OidcIdentity)
        requires
            old(self).well_formed(),
            new@.issuer == canonical_issuer(new@.issuer),
        ensures
            final(self).well_formed(),
            final(self).identities() == with_identity(old(self).identities(), new@),
            final(self).next_identity() == id_after(old(self).next_identity(), new@.id),
            final(self).providers() == old(self).providers(),
            final(self).next_provider() == old(self).next_provider(),
    {
        let ghost all = self.identities();
        let ghost added = new@;
        let ghost keep = |i: IdentityView|
            !(i.id == added.id || (i.issuer == added.issuer && i.subject == added.subject));
        let mut out: Vec<OidcIdentity> = Vec::new();
        proof {
            reveal(Seq::filter);
        }
        assert(identities_in(out@) =~= all.take(0).filter(keep));
        for i in 0..self.identities.len()
            invariant
                *self == *old(self),
                added == new@,
                keep == (|i: IdentityView|
                    !(i.id == added.id || (i.issuer == added.issuer && i.subject
                        == added.subject))),
                all == identities_in(self.identities@),
                identities_in(out@) == all.take(i as int).filter(keep),
        {
            proof {
                reveal(Seq::filter);
            }
            let ghost before = identities_in(out@);
            assert(all.take(i + 1).drop_last() =~= all.take(i as int));
            assert(all.take(i + 1).last() == self.identities[i as int]@);
            if !(self.identities[i].id == new.id || (text::str_eq(
                self.identities[i].issuer.as_str(),
                new.issuer.as_str(),
            ) && text::str_eq(self.identities[i].subject.as_str(), new.subject.as_str()))) {
                out.push(self.identities[i].copy());
                assert(identities_in(out@) =~= before.push(self.identities[i as int]@));
            }
        }
        assert(all.take(self.identities.len() as int) =~= all);
        let ghost kept = all.filter(keep);
        proof {
            fewer_identities_differ(all, keep, self.next_identity);
        }
        self.next_identity = next_id(self.next_identity, new.id);
        out.push(new);
        self.identities = out;
        assert(self.identities() =~= kept.push(added));
        proof {
            let after = self.identities();
            let ids = identity_ids(after);
            let next = self.next_identity;
            assert forall|x: int| 0 <= x < kept.len() implies keep(#[trigger] kept[x]) by {
                all.lemma_filter_pred(keep, x);
            }
            assert forall|x: int, y: int| 0 <= x < y < after.len() implies !((
            #[trigger] after[x]).issuer == (#[trigger] after[y]).issuer && after[x].subject
                == after[y].subject) && after[x].id != after[y].id by {
                assert(after[x] == kept[x] && keep(kept[x]));
                assert(identity_ids(kept)[x] == kept[x].id);
                if y < kept.len() {
                    assert(after[y] == kept[y]);
                    assert(identity_ids(kept)[y] == kept[y].id);
                }
            }
            assert forall|x: int| 0 <= x < after.len() implies (#[trigger] after[x]).issuer
                == canonical_issuer(after[x].issuer) by {
                if x < kept.len() {
                    assert(after[x] == kept[x]);
                }
            }
            assert forall|x: int, y: int| 0 <= x < y < ids.len() implies #[trigger] ids[x]
                != #[trigger] ids[y] by {
                assert(after[x].id != after[y].id);
            }
            assert forall|x: int| 0 <= x < ids.len() implies #[trigger] ids[x] < next || next
                == i64::MAX by {
                if x < kept.len() {
                    assert(identity_ids(kept)[x] == ids[x]);
                }
            }
        }
    }

    /// Whether another provider and another identity can be given an id.
    pub fn has_room(&self) -> (r: bool)
        ensures
            r == (self.next_provider() < i64::MAX && self.next_identity() < i64::MAX),
    {
        self.next_provider < i64::MAX && self.next_identity < i64::MAX
    }

    fn provider_list(&self, enabled_only: bool) -> (r: Vec<OidcProvider>)
        ensures
            providers_in(r@) == (if enabled_only {
                self.providers().filter(is_enabled())
            } else {
                self.providers()
            }),
    {
        let ghost all = self.providers();
        let mut out: Vec<OidcProvider> = Vec::new();
        proof {
            reveal(Seq::filter);
        }
        assert(providers_in(out@) =~= all.take(0).filter(is_enabled()));
        assert(providers_in(out@) =~= all.take(0));
        for i in 0..self.providers.len()
            invariant
                all == providers_in(self.providers@),
                providers_in(out@) == (if enabled_only {
                    all.take(i as int).filter(is_enabled())
                } else {
                    all.take(i as int)
                }),
        {
            proof {
                reveal(Seq::filter);
            }
            let ghost before = providers_in(out@);
            assert(all.take(i + 1).drop_last() =~= all.take(i as int));
            assert(all.take(i + 1).last() == self.providers[i as int]@);
            if !enabled_only || self.providers[i].enabled {
                out.push(self.providers[i].copy());
                assert(providers_in(out@) =~= before.push(self.providers[i as int]@));
                assert(all.take(i + 1) =~= all.take(i as int).push(self.providers[i as int]@));
            }
        }
        assert(all.take(self.providers.len() as int) =~= all);
        out
    }

    /// All providers, by the name that is shown.
    pub fn list_providers(&self) -> (r: Vec<OidcProvider>)
        ensures
            providers_in(r@) == sorting::in_order(self.providers(), by_display_name()),
    {
        sort_providers(&self.provider_list(false))
    }

    /// The enabled providers, which the login picker offers, by the name that
    /// is shown.
    pub fn list_enabled_providers(&self) -> (r: Vec<OidcProvider>)
        ensures
            providers_in(r@) == sorting::in_order(
                self.providers().filter(is_enabled()),
                by_display_name(),
            ),
    {
        sort_providers(&self.provider_list(true))
    }

    /// The provider with the slug.
    pub fn get_provider_by_slug(&self, slug: &str) -> (r: Option<OidcProvider>)
        ensures
            match r {
                Some(p) => p@.slug == slug@ && self.providers().contains(p@),
                None => !has_slug(self.providers(), slug@),
            },
    {
        for i in 0..self.providers.len()
            invariant
                forall|j: int| 0 <= j < i ==> (#[trigger] self.providers()[j]).slug != slug@,
        {
            assert(self.providers()[i as int] == self.providers[i as int]@);
            if text::str_eq(self.providers[i].slug.as_str(), slug) {
                return Some(self.providers[i].copy());
            }
        }
        None
    }

    /// Registers a provider, or replaces the one with the same slug. The
    /// client secret must be encrypted already.
    pub fn upsert_provider(
        &mut self,
        slug: &str,
        display_name: &str,
        issuer_url: &str,
        client_id: &str,
        client_secret: &str,
        scopes: &str,
        enabled: bool,
        server_id: Option<i64>,
        now: i64,
    )
        requires
            old(self).well_formed(),
            old(self).next_provider() < i64::MAX,
        ensures
            final(self).well_formed(),
            final(self).providers() == upserted(
                old(self).providers(),
                old(self).next_provider(),
                (RegistrationView {
                    slug: slug@,
                    display_name: display_name@,
                    issuer_url: issuer_url@,
                    client_id: client_id@,
                    client_secret: client_secret@,
                    scopes: scopes@,
                    enabled,
                    server_id,
                }),
                now,
            ),
            final(self).identities() == old(self).identities(),
            final(self).next_identity() == old(self).next_identity(),
            final(self).next_provider() == (if has_slug(old(self).providers(), slug@) {
                old(self).next_provider() as int
            } else {
                old(self).next_provider() + 1
            }),
    {
        let ghost before = self.providers();
        let ghost reg = RegistrationView {
            slug: slug@,
            display_name: display_name@,
            issuer_url: issuer_url@,
            client_id: client_id@,
            client_secret: client_secret@,
            scopes: scopes@,
            enabled,
            server_id,
        };
        let n: usize = self.providers.len();
        let mut place: Option<usize> = None;
        for i in 0..n
            invariant
                n == self.providers.len(),
                *self == *old(self),
                before == self.providers(),
                match place {
                    Some(p) => p < i && before[p as int].slug == slug@,
                    None => forall|j: int| 0 <= j < i ==> (#[trigger] before[j]).slug != slug@,
                },
        {
            assert(before[i as int] == self.providers[i as int]@);
            if text::str_eq(self.providers[i].slug.as_str(), slug) {
                place = Some(i);
            }
        }
        let mut row = OidcProvider {
            id: self.next_provider,
            slug: slug.to_owned(),
            display_name: display_name.to_owned(),
            issuer_url: issuer_url.to_owned(),
            client_id: client_id.to_owned(),
            client_secret: client_secret.to_owned(),
            scopes: scopes.to_owned(),
            enabled,
            server_id,
            created_at: now,
            updated_at: now,
        };
        match place {
            Some(p) => {
                assert(before[p as int] == self.providers[p as int]@);
                row.id = self.providers[p].id;
                row.created_at = self.providers[p].created_at;
                let ghost r = row@;
                self.providers.set(p, row);
                assert(self.providers() =~= before.update(p as int, r));
                assert(provider_ids(self.providers()) =~= provider_ids(before));
                assert(has_slug(before, slug@));
                assert(self.providers() =~= upserted(before, self.next_provider(), reg, now)) by {
                    assert forall|j: int| 0 <= j < before.len() implies self.providers()[j]
                        == upserted(before, self.next_provider(), reg, now)[j] by {
                        if j < p {
                            assert(before[j].slug != before[p as int].slug);
                        }
                        if p < j {
                            assert(before[p as int].slug != before[j].slug);
                        }
                    }
                }
                assert(slugs_differ(self.providers())) by {
                    assert forall|x: int, y: int| 0 <= x < y < before.len() implies (
                    #[trigger] self.providers()[x]).slug != (#[trigger] self.providers()[y]).slug by {
                        assert(before[x].slug != before[y].slug);
                    }
                }
            },
            None => {
                let ghost r = row@;
                self.providers.push(row);
                self.next_provider = self.next_provider + 1;
                assert(self.providers() =~= before.push(r));
                proof {
                    new_id_is_below(provider_ids(before), r.id);
                }
                assert(provider_ids(self.providers()) =~= provider_ids(before).push(r.id));
                assert(!has_slug(before, slug@));
                assert(slugs_differ(self.providers())) by {
                    assert forall|x: int, y: int| 0 <= x < y < before.len() + 1 implies (
                    #[trigger] self.providers()[x]).slug != (#[trigger] self.providers()[y]).slug by {
                        if y < before.len() {
                            assert(before[x].slug != before[y].slug);
                        }
                    }
                }
            },
        }
    }

    /// All providers with their servers' names: those of a server first, by
    /// server. `servers` are the ids and names of the servers.
    pub fn list_providers_with_server(&self, servers: &Vec<(i64, String)>) -> (r: Vec<
        OidcProviderRow,
    >)
        ensures
            rows_in(r@) == sorting::in_order(
                rows_of(self.providers(), server_names(servers@)),
                by_server(),
            ),
    {
        sort_rows(&make_rows(&self.provider_list(false), servers))
    }

    /// The enabled providers with their servers' names, as the login picker
    /// groups them.
    pub fn list_enabled_providers_with_server(&self, servers: &Vec<(i64, String)>) -> (r: Vec<
        OidcProviderRow,
    >)
        ensures
            rows_in(r@) == sorting::in_order(
                rows_of(self.providers().filter(is_enabled()), server_names(servers@)),
                by_server(),
            ),
    {
        sort_rows(&make_rows(&self.provider_list(true), servers))
    }

    /// Removes the provider with the id; says whether there was one.
    pub fn delete_provider(&mut self, id: i64) -> (r: bool)
        ensures
            final(self).providers() == old(self).providers().filter(|p: ProviderView| p.id != id),
            r == exists|i: int|
                0 <= i < old(self).providers().len() && (#[trigger] old(self).providers()[i]).id
                    == id,
            final(self).identities() == old(self).identities(),
            final(self).next_provider() == old(self).next_provider(),
            final(self).next_identity() == old(self).next_identity(),
            old(self).well_formed() ==> final(self).well_formed(),
    {
        let ghost all = self.providers();
        let ghost keep = |p: ProviderView| p.id != id;
        let mut out: Vec<OidcProvider> = Vec::new();
        let mut found = false;
        proof {
            reveal(Seq::filter);
        }
        assert(providers_in(out@) =~= all.take(0).filter(keep));
        for i in 0..self.providers.len()
            invariant
                *self == *old(self),
                keep == (|p: ProviderView| p.id != id),
                all == providers_in(self.providers@),
                providers_in(out@) == all.take(i as int).filter(keep),
                found == exists|j: int| 0 <= j < i && (#[trigger] all[j]).id == id,
        {
            proof {
                reveal(Seq::filter);
            }
            let ghost before = providers_in(out@);
            assert(all.take(i + 1).drop_last() =~= all.take(i as int));
            assert(all.take(i + 1).last() == self.providers[i as int]@);
            assert(all[i as int] == self.providers[i as int]@);
            if self.providers[i].id != id {
                out.push(self.providers[i].copy());
                assert(providers_in(out@) =~= before.push(self.providers[i as int]@));
            } else {
                found = true;
            }
        }
        assert(all.take(self.providers.len() as int) =~= all);
        self.providers = out;
        proof {
            fewer_providers_differ(all, keep, self.next_provider);
        }
        found
    }

    /// Resolves an external identity to a local user.
    pub fn get_identity(&self, issuer: &str, subject: &str) -> (r: Option<OidcIdentity>)
        ensures
            match r {
                Some(i) => is_identity(i@, issuer@, subject@) && self.identities().contains(i@),
                None => !is_linked(self.identities(), issuer@, subject@),
            },
    {
        let canonical = text::trim_end_char(issuer, '/');
        for i in 0..self.identities.len()
            invariant
                canonical@ == canonical_issuer(issuer@),
                forall|j: int|
                    0 <= j < i ==> !is_identity(
                        #[trigger] self.identities()[j],
                        issuer@,
                        subject@,
                    ),
        {
            assert(self.identities()[i as int] == self.identities[i as int]@);
            if text::str_eq(self.identities[i].issuer.as_str(), canonical.as_str())
                && text::str_eq(self.identities[i].subject.as_str(), subject) {
                return Some(self.identities[i].copy());
            }
        }
        None
    }

    /// The identities of a user, the oldest first.
    pub fn list_identities_for_user(&self, user_id: &str) -> (r: Vec<OidcIdentity>)
        ensures
            identities_in(r@) == sorting::in_order(
                self.identities().filter(|i: IdentityView| i.user_id == user_id@),
                oldest_first(),
            ),
    {
        let ghost all = self.identities();
        let ghost own = |i: IdentityView| i.user_id == user_id@;
        let mut found: Vec<OidcIdentity> = Vec::new();
        proof {
            reveal(Seq::filter);
        }
        assert(identities_in(found@) =~= all.take(0).filter(own));
        for i in 0..self.identities.len()
            invariant
                own == (|i: IdentityView| i.user_id == user_id@),
                all == identities_in(self.identities@),
                identities_in(found@) == all.take(i as int).filter(own),
        {
            proof {
                reveal(Seq::filter);
            }
            let ghost before = identities_in(found@);
            assert(all.take(i + 1).drop_last() =~= all.take(i as int));
            assert(all.take(i + 1).last() == self.identities[i as int]@);
            if text::str_eq(self.identities[i].user_id.as_str(), user_id) {
                found.push(self.identities[i].copy());
                assert(identities_in(found@) =~= before.push(self.identities[i as int]@));
            }
        }
        assert(all.take(self.identities.len() as int) =~= all);
        sort_identities(&found, false)
    }

    /// All identities with their users' names, the newest first. `users` are
    /// the ids and names of the users.
    pub fn list_identities(&self, users: &Vec<(String, String)>) -> (r: Vec<OidcIdentityWithUser>)
        ensures
            named_in(r@) == sorting::in_order(self.identities(), newest_first()).map_values(
                |i: IdentityView| named(i, user_names(users@)),
            ),
    {
        let sorted = sort_identities(&self.identities, true);
        let ghost all = identities_in(sorted@);
        let ghost name = |i: IdentityView| named(i, user_names(users@));
        let mut out: Vec<OidcIdentityWithUser> = Vec::new();
        for i in 0..sorted.len()
            invariant
                name == (|i: IdentityView| named(i, user_names(users@))),
                all == identities_in(sorted@),
                named_in(out@) == all.map_values(name).take(i as int),
        {
            let ghost before = named_in(out@);
            assert(all[i as int] == sorted[i as int]@);
            let row = OidcIdentityWithUser {
                id: sorted[i].id,
                user_id: sorted[i].user_id.clone(),
                issuer: sorted[i].issuer.clone(),
                subject: sorted[i].subject.clone(),
                email: copy_text(&sorted[i].email),
                username: user_name(users, sorted[i].user_id.as_str()),
            };
            let ghost r = row@;
            out.push(row);
            assert(named_in(out@) =~= before.push(r));
            assert(named_in(out@) =~= all.map_values(name).take(i + 1));
        }
        assert(all.map_values(name).take(sorted.len() as int) =~= all.map_values(name));
        out
    }

    /// Links an external identity to a local user; a link that exists is
    /// changed. `users` are the ids and names of the users. An id that is not
    /// among them is refused, and nothing changes.
    pub fn link_identity(
        &mut self,
        users: &Vec<(String, String)>,
        user_id: &str,
        issuer: &str,
        subject: &str,
        email: Option<String>,
        now: i64,
    ) -> (r: Result<(), LinkError>)
        requires
            old(self).well_formed(),
            old(self).next_identity() < i64::MAX,
        ensures
            final(self).well_formed(),
            match r {
                Ok(()) => {
                    &&& name_of_user(user_names(users@), user_id@) is Some
                    &&& final(self).identities() == linked(
                        old(self).identities(),
                        old(self).next_identity(),
                        user_id@,
                        issuer@,
                        subject@,
                        json::opt_text(email),
                        now,
                    )
                    &&& final(self).next_identity() == (if is_linked(
                        old(self).identities(),
                        issuer@,
                        subject@,
                    ) {
                        old(self).next_identity() as int
                    } else {
                        old(self).next_identity() + 1
                    })
                },
                Err(LinkError::UnknownUser) => {
                    &&& name_of_user(user_names(users@), user_id@) is None
                    &&& final(self).identities() == old(self).identities()
                    &&& final(self).next_identity() == old(self).next_identity()
                },
            },
            final(self).providers() == old(self).providers(),
            final(self).next_provider() == old(self).next_provider(),
    {
        if user_name(users, user_id).is_none() {
            return Err(LinkError::UnknownUser);
        }
        self.put_identity(user_id, issuer, subject, email, now);
        Ok(())
    }

    fn put_identity(
        &mut self,
        user_id: &str,
        issuer: &str,
        subject: &str,
        email: Option<String>,
        now: i64,
    )
        requires
            old(self).well_formed(),
            old(self).next_identity() < i64::MAX,
        ensures
            final(self).well_formed(),
            final(self).identities() == linked(
                old(self).identities(),
                old(self).next_identity(),
                user_id@,
                issuer@,
                subject@,
                json::opt_text(email),
                now,
            ),
            final(self).providers() == old(self).providers(),
            final(self).next_provider() == old(self).next_provider(),
            final(self).next_identity() == (if is_linked(
                old(self).identities(),
                issuer@,
                subject@,
            ) {
                old(self).next_identity() as int
            } else {
                old(self).next_identity() + 1
            }),
    {
        let ghost before = self.identities();
        let ghost mail = json::opt_text(email);
        let canonical = text::trim_end_char(issuer, '/');
        proof {
            canonical_is_canonical(issuer@);
        }
        let n: usize = self.identities.len();
        let mut place: Option<usize> = None;
        for i in 0..n
            invariant
                n == self.identities.len(),
                *self == *old(self),
                before == self.identities(),
                canonical@ == canonical_issuer(issuer@),
                match place {
                    Some(p) => p < i && is_identity(before[p as int], issuer@, subject@),
                    None => forall|j: int|
                        0 <= j < i ==> !is_identity(#[trigger] before[j], issuer@, subject@),
                },
        {
            assert(before[i as int] == self.identities[i as int]@);
            if text::str_eq(self.identities[i].issuer.as_str(), canonical.as_str())
                && text::str_eq(self.identities[i].subject.as_str(), subject) {
                place = Some(i);
            }
        }
        match place {
            Some(p) => {
                let row = OidcIdentity {
                    id: self.identities[p].id,
                    user_id: user_id.to_owned(),
                    issuer: canonical,
                    subject: subject.to_owned(),
                    email,
                    created_at: self.identities[p].created_at,
                };
                let ghost r = row@;
                assert(before[p as int] == self.identities[p as int]@);
                self.identities.set(p, row);
                assert(self.identities() =~= before.update(p as int, r));
                assert(identity_ids(self.identities()) =~= identity_ids(before));
                assert(is_linked(before, issuer@, subject@));
                assert(self.identities() =~= linked(
                    before,
                    self.next_identity(),
                    user_id@,
                    issuer@,
                    subject@,
                    mail,
                    now,
                )) by {
                    assert forall|j: int| 0 <= j < before.len() implies self.identities()[j]
                        == linked(
                        before,
                        self.next_identity(),
                        user_id@,
                        issuer@,
                        subject@,
                        mail,
                        now,
                    )[j] by {
                        if j < p {
                            assert(!(before[j].issuer == before[p as int].issuer
                                && before[j].subject == before[p as int].subject));
                        }
                        if p < j {
                            assert(!(before[p as int].issuer == before[j].issuer
                                && before[p as int].subject == before[j].subject));
                        }
                    }
                }
                assert(identities_differ(self.identities())) by {
                    assert forall|x: int, y: int| 0 <= x < y < before.len() implies !((
                    #[trigger] self.identities()[x]).issuer == (
                    #[trigger] self.identities()[y]).issuer && self.identities()[x].subject
                        == self.identities()[y].subject) by {
                        assert(!(before[x].issuer == before[y].issuer && before[x].subject
                            == before[y].subject));
                    }
                }
                assert(issuers_are_canonical(self.identities())) by {
                    assert forall|x: int| 0 <= x < before.len() implies (
                    #[trigger] self.identities()[x]).issuer == canonical_issuer(
                        self.identities()[x].issuer,
                    ) by {
                        assert(before[x].issuer == canonical_issuer(before[x].issuer));
                    }
                }
            },
            None => {
                let row = OidcIdentity {
                    id: self.next_identity,
                    user_id: user_id.to_owned(),
                    issuer: canonical,
                    subject: subject.to_owned(),
                    email,
                    created_at: now,
                };
                let ghost r = row@;
                self.identities.push(row);
                self.next_identity = self.next_identity + 1;
                assert(self.identities() =~= before.push(r));
                proof {
                    new_id_is_below(identity_ids(before), r.id);
                }
                assert(identity_ids(self.identities()) =~= identity_ids(before).push(r.id));
                assert(!is_linked(before, issuer@, subject@));
                assert(identities_differ(self.identities())) by {
                    assert forall|x: int, y: int| 0 <= x < y < before.len() + 1 implies !((
                    #[trigger] self.identities()[x]).issuer == (
                    #[trigger] self.identities()[y]).issuer && self.identities()[x].subject
                        == self.identities()[y].subject) by {
                        if y < before.len() {
                            assert(!(before[x].issuer == before[y].issuer && before[x].subject
                                == before[y].subject));
                        } else {
                            assert(!is_identity(before[x], issuer@, subject@));
                        }
                    }
                }
                assert(issuers_are_canonical(self.identities())) by {
                    assert forall|x: int| 0 <= x < before.len() + 1 implies (
                    #[trigger] self.identities()[x]).issuer == canonical_issuer(
                        self.identities()[x].issuer,
                    ) by {
                        if x < before.len() {
                            assert(before[x].issuer == canonical_issuer(before[x].issuer));
                        }
                    }
                }
            },
        }
    }

    /// Removes the identity with the id; says whether there was one.
    pub fn unlink_identity(&mut self, id: i64) -> (r: bool)
        ensures
            final(self).identities() == old(self).identities().filter(
                |i: IdentityView| i.id != id,
            ),
            r == exists|i: int|
                0 <= i < old(self).identities().len() && (#[trigger] old(self).identities()[i]).id
                    == id,
            final(self).providers() == old(self).providers(),
            final(self).next_provider() == old(self).next_provider(),
            final(self).next_identity() == old(self).next_identity(),
            old(self).well_formed() ==> final(self).well_formed(),
    {
        let ghost all = self.identities();
        let ghost keep = |i: IdentityView| i.id != id;
        let mut out: Vec<OidcIdentity> = Vec::new();
        let mut found = false;
        proof {
            reveal(Seq::filter);
        }
        assert(identities_in(out@) =~= all.take(0).filter(keep));
        for i in 0..self.identities.len()
            invariant
                *self == *old(self),
                keep == (|i: IdentityView| i.id != id),
                all == identities_in(self.identities@),
                identities_in(out@) == all.take(i as int).filter(keep),
                found == exists|j: int| 0 <= j < i && (#[trigger] all[j]).id == id,
        {
            proof {
                reveal(Seq::filter);
            }
            let ghost before = identities_in(out@);
            assert(all.take(i + 1).drop_last() =~= all.take(i as int));
            assert(all.take(i + 1).last() == self.identities[i as int]@);
            assert(all[i as int] == self.identities[i as int]@);
            if self.identities[i].id != id {
                out.push(self.identities[i].copy());
                assert(identities_in(out@) =~= before.push(self.identities[i as int]@));
            } else {
                found = true;
            }
        }
        assert(all.take(self.identities.len() as int) =~= all);
        self.identities = out;
        proof {
            fewer_identities_differ(all, keep, self.next_identity);
        }
        found
    }
}

fn sort_providers(v: &Vec<OidcProvider>) -> (r: Vec<OidcProvider>)
    ensures
        providers_in(r@) == sorting::in_order(providers_in(v@), by_display_name()),
{
    let ghost all = providers_in(v@);
    let le = |a: usize, b: usize| -> (o: bool)
        requires
            a < v.len(),
            b < v.len(),
        ensures
            o == text::lex_le(v[a as int].display_name@, v[b as int].display_name@),
        { text::str_le(v[a].display_name.as_str(), v[b].display_name.as_str()) };
    let order = sorting::sort_positions(
        v.len(),
        le,
        Ghost(sorting::by_element(all, by_display_name())),
    );
    let ghost at = sorting::as_positions(order@);
    proof {
        sorting::in_order_at_positions(all, sorting::positions(all.len()), by_display_name());
        sorting::all_positions(all);
    }
    let mut out: Vec<OidcProvider> = Vec::new();
    for i in 0..order.len()
        invariant
            all == providers_in(v@),
            at == sorting::as_positions(order@),
            forall|k: int| 0 <= k < order.len() ==> #[trigger] order[k] < v.len(),
            providers_in(out@) == sorting::at_positions(all, at).take(i as int),
    {
        let ghost before = providers_in(out@);
        out.push(v[order[i]].copy());
        assert(providers_in(out@) =~= before.push(all[at[i as int]]));
        assert(providers_in(out@) =~= sorting::at_positions(all, at).take(i + 1));
    }
    assert(sorting::at_positions(all, at).take(order.len() as int) =~= sorting::at_positions(
        all,
        at,
    ));
    out
}

impl OidcProviderRow {
    /// The same row once more.
    pub fn copy(&self) -> (r: Self)
        ensures
            r@ == self@,
    {
        OidcProviderRow {
            id: self.id,
            slug: self.slug.clone(),
            display_name: self.display_name.clone(),
            issuer_url: self.issuer_url.clone(),
            enabled: self.enabled,
            server_id: self.server_id,
            server_name: copy_text(&self.server_name),
        }
    }
}

fn make_rows(v: &Vec<OidcProvider>, servers: &Vec<(i64, String)>) -> (r: Vec<OidcProviderRow>)
    ensures
        rows_in(r@) == rows_of(providers_in(v@), server_names(servers@)),
{
    let ghost all = rows_of(providers_in(v@), server_names(servers@));
    let mut out: Vec<OidcProviderRow> = Vec::new();
    for i in 0..v.len()
        invariant
            all == rows_of(providers_in(v@), server_names(servers@)),
            rows_in(out@) == all.take(i as int),
    {
        let ghost before = rows_in(out@);
        let server_name = match v[i].server_id {
            Some(id) => server_name(servers, id),
            None => None,
        };
        let row = OidcProviderRow {
            id: v[i].id,
            slug: v[i].slug.clone(),
            display_name: v[i].display_name.clone(),
            issuer_url: v[i].issuer_url.clone(),
            enabled: v[i].enabled,
            server_id: v[i].server_id,
            server_name,
        };
        let ghost r = row@;
        out.push(row);
        assert(rows_in(out@) =~= before.push(r));
        assert(r == all[i as int]);
        assert(rows_in(out@) =~= all.take(i + 1));
    }
    assert(all.take(v.len() as int) =~= all);
    out
}

fn sort_rows(v: &Vec<OidcProviderRow>) -> (r: Vec<OidcProviderRow>)
    ensures
        rows_in(r@) == sorting::in_order(rows_in(v@), by_server()),
{
    let ghost all = rows_in(v@);
    let le = |a: usize, b: usize| -> (o: bool)
        requires
            a < v.len(),
            b < v.len(),
        ensures
            o == row_le(v[a as int]@, v[b as int]@),
        { row_not_above(&v[a], &v[b]) };
    let order = sorting::sort_positions(
        v.len(),
        le,
        Ghost(sorting::by_element(all, by_server())),
    );
    let ghost at = sorting::as_positions(order@);
    proof {
        sorting::in_order_at_positions(all, sorting::positions(all.len()), by_server());
        sorting::all_positions(all);
    }
    let mut out: Vec<OidcProviderRow> = Vec::new();
    for i in 0..order.len()
        invariant
            all == rows_in(v@),
            at == sorting::as_positions(order@),
            forall|k: int| 0 <= k < order.len() ==> #[trigger] order[k] < v.len(),
            rows_in(out@) == sorting::at_positions(all, at).take(i as int),
    {
        let ghost before = rows_in(out@);
        out.push(v[order[i]].copy());
        assert(rows_in(out@) =~= before.push(all[at[i as int]]));
        assert(rows_in(out@) =~= sorting::at_positions(all, at).take(i + 1));
    }
    assert(sorting::at_positions(all, at).take(order.len() as int) =~= sorting::at_positions(
        all,
        at,
    ));
    out
}

/// The order of identities by age, one way or the other.
pub open spec fn by_age(newest: bool) -> spec_fn(IdentityView, IdentityView) -> bool {
    if newest {
        newest_first()
    } else {
        oldest_first()
    }
}

fn sort_identities(v: &Vec<OidcIdentity>, newest: bool) -> (r: Vec<OidcIdentity>)
    ensures
        identities_in(r@) == sorting::in_order(identities_in(v@), by_age(newest)),
{
    let ghost all = identities_in(v@);
    let le = |a: usize, b: usize| -> (o: bool)
        requires
            a < v.len(),
            b < v.len(),
        ensures
            o == by_age(newest)(v[a as int]@, v[b as int]@),
        {
            if newest {
                v[b].created_at <= v[a].created_at
            } else {
                v[a].created_at <= v[b].created_at
            }
        };
    let order = sorting::sort_positions(
        v.len(),
        le,
        Ghost(sorting::by_element(all, by_age(newest))),
    );
    let ghost at = sorting::as_positions(order@);
    proof {
        sorting::in_order_at_positions(all, sorting::positions(all.len()), by_age(newest));
        sorting::all_positions(all);
    }
    let mut out: Vec<OidcIdentity> = Vec::new();
    for i in 0..order.len()
        invariant
            all == identities_in(v@),
            at == sorting::as_positions(order@),
            forall|k: int| 0 <= k < order.len() ==> #[trigger] order[k] < v.len(),
            identities_in(out@) == sorting::at_positions(all, at).take(i as int),
    {
        let ghost before = identities_in(out@);
        out.push(v[order[i]].copy());
        assert(identities_in(out@) =~= before.push(all[at[i as int]]));
        assert(identities_in(out@) =~= sorting::at_positions(all, at).take(i + 1));
    }
    assert(sorting::at_positions(all, at).take(order.len() as int) =~= sorting::at_positions(
        all,
        at,
    ));
    out
}

/// The canonical form of an issuer is its own canonical form.
pub proof fn canonical_is_canonical(issuer: Seq<char>)
    ensures
        canonical_issuer(canonical_issuer(issuer)) == canonical_issuer(issuer),
    decreases issuer.len(),
{
    if issuer.len() > 0 && issuer.last() == '/' {
        canonical_is_canonical(issuer.drop_last());
    }
}

/// Providers with different slugs and ids are restored as they were stored.
pub proof fn providers_that_agree_are_restored(ps: Seq<ProviderView>)
    requires
        forall|i: int, j: int|
            0 <= i < j < ps.len() ==> (#[trigger] ps[i]).slug != (#[trigger] ps[j]).slug && ps[i].id
                != ps[j].id,
    ensures
        kept_providers(ps) == ps,
    decreases ps.len(),
{
    if ps.len() > 0 {
        let head = ps.drop_last();
        let new = ps.last();
        assert forall|i: int, j: int| 0 <= i < j < head.len() implies (#[trigger] head[i]).slug != (
        #[trigger] head[j]).slug && head[i].id != head[j].id by {
            assert(head[i] == ps[i] && head[j] == ps[j]);
        }
        providers_that_agree_are_restored(head);
        let keep = |p: ProviderView| !(p.id == new.id || p.slug == new.slug);
        assert forall|i: int| 0 <= i < head.len() implies keep(#[trigger] head[i]) by {
            assert(ps[i].slug != ps[ps.len() - 1].slug);
        }
        sorting::nothing_left_out(head, keep);
        assert(head.push(new) =~= ps);
    } else {
        assert(kept_providers(ps) =~= ps);
    }
}

/// Identities with different keys and ids are restored as they were stored.
pub proof fn identities_that_agree_are_restored(ids: Seq<IdentityView>)
    requires
        identities_differ(ids),
        forall|i: int, j: int|
            0 <= i < j < ids.len() ==> (#[trigger] ids[i]).id != (#[trigger] ids[j]).id,
    ensures
        kept_identities(ids) == ids,
    decreases ids.len(),
{
    if ids.len() > 0 {
        let head = ids.drop_last();
        let new = ids.last();
        assert forall|i: int, j: int| 0 <= i < j < head.len() implies !((#[trigger] head[i]).issuer
            == (#[trigger] head[j]).issuer && head[i].subject == head[j].subject) && head[i].id
            != head[j].id by {
            assert(head[i] == ids[i] && head[j] == ids[j]);
        }
        identities_that_agree_are_restored(head);
        let keep = |i: IdentityView|
            !(i.id == new.id || (i.issuer == new.issuer && i.subject == new.subject));
        assert forall|i: int| 0 <= i < head.len() implies keep(#[trigger] head[i]) by {
            assert(ids[i].id != ids[ids.len() - 1].id);
        }
        sorting::nothing_left_out(head, keep);
        assert(head.push(new) =~= ids);
    } else {
        assert(kept_identities(ids) =~= ids);
    }
}

proof fn fewer_providers_differ(
    ps: Seq<ProviderView>,
    keep: spec_fn(ProviderView) -> bool,
    next: i64,
)
    ensures
        slugs_differ(ps) ==> slugs_differ(ps.filter(keep)),
        ids_below(provider_ids(ps), next) ==> ids_below(provider_ids(ps.filter(keep)), next),
{
    let at = sorting::kept_places(ps, keep);
    let kept = ps.filter(keep);
    assert forall|i: int, j: int| slugs_differ(ps) && 0 <= i < j < kept.len() implies (
    #[trigger] kept[i]).slug != (#[trigger] kept[j]).slug by {
        assert(at[i] < at[j]);
        assert(ps[at[i]].slug != ps[at[j]].slug);
    }
    fewer_ids_below(provider_ids(ps), provider_ids(kept), at, next);
}

proof fn fewer_identities_differ(
    ids: Seq<IdentityView>,
    keep: spec_fn(IdentityView) -> bool,
    next: i64,
)
    ensures
        identities_differ(ids) ==> identities_differ(ids.filter(keep)),
        issuers_are_canonical(ids) ==> issuers_are_canonical(ids.filter(keep)),
        ids_below(identity_ids(ids), next) ==> ids_below(identity_ids(ids.filter(keep)), next),
{
    let at = sorting::kept_places(ids, keep);
    let kept = ids.filter(keep);
    assert forall|i: int, j: int| identities_differ(ids) && 0 <= i < j < kept.len() implies !((
    #[trigger] kept[i]).issuer == (#[trigger] kept[j]).issuer && kept[i].subject
        == kept[j].subject) by {
        assert(at[i] < at[j]);
        assert(!(ids[at[i]].issuer == ids[at[j]].issuer && ids[at[i]].subject
            == ids[at[j]].subject));
    }
    assert forall|i: int| issuers_are_canonical(ids) && 0 <= i < kept.len() implies (
    #[trigger] kept[i]).issuer == canonical_issuer(kept[i].issuer) by {
        assert(ids[at[i]].issuer == canonical_issuer(ids[at[i]].issuer));
    }
    fewer_ids_below(identity_ids(ids), identity_ids(kept), at, next);
}

proof fn fewer_ids_below(all: Seq<i64>, kept: Seq<i64>, at: Seq<int>, next: i64)
    requires
        at.len() == kept.len(),
        forall|k: int|
            0 <= k < at.len() ==> 0 <= #[trigger] at[k] < all.len() && kept[k] == all[at[k]],
        forall|j: int, k: int| 0 <= j < k < at.len() ==> #[trigger] at[j] < #[trigger] at[k],
    ensures
        ids_below(all, next) ==> ids_below(kept, next),
{
    if ids_below(all, next) {
        assert forall|i: int| 0 <= i < kept.len() implies #[trigger] kept[i] < next || next
            == i64::MAX by {
            assert(all[at[i]] < next || next == i64::MAX);
        }
        assert forall|i: int, j: int| 0 <= i < j < kept.len() implies #[trigger] kept[i]
            != #[trigger] kept[j] by {
            assert(at[i] < at[j]);
            assert(all[at[i]] != all[at[j]]);
        }
    }
}

proof fn new_id_is_below(ids: Seq<i64>, next: i64)
    requires
        ids_below(ids, next),
        next < i64::MAX,
    ensures
        ids_below(ids.push(next), (next + 1) as i64),
{
}

/// Unlinking by id removes one row: the identity with that id. Every other row
/// stays, in its order.
pub proof fn unlinking_takes_one_row(ids: Seq<IdentityView>, next: i64, at: int)
    requires
        ids_below(identity_ids(ids), next),
        0 <= at < ids.len(),
    ensures
        ids.filter(|i: IdentityView| i.id != ids[at].id) == ids.remove(at),
{
    let id = ids[at].id;
    let keep = |i: IdentityView| i.id != id;
    assert forall|j: int| 0 <= j < ids.len() && j != at implies keep(#[trigger] ids[j]) by {
        assert(identity_ids(ids)[j] == ids[j].id && identity_ids(ids)[at] == id);
    }
    filter_without_one(ids, keep, at);
}

proof fn filter_without_one(ids: Seq<IdentityView>, keep: spec_fn(IdentityView) -> bool, at: int)
    requires
        0 <= at < ids.len(),
        !keep(ids[at]),
        forall|j: int| 0 <= j < ids.len() && j != at ==> keep(#[trigger] ids[j]),
    ensures
        ids.filter(keep) == ids.remove(at),
    decreases ids.len(),
{
    reveal(Seq::filter);
    let head = ids.drop_last();
    if at == ids.len() - 1 {
        filter_of_all(head, keep);
        assert(ids.remove(at) =~= head);
    } else {
        filter_without_one(head, keep, at);
        assert(ids.remove(at) =~= head.remove(at).push(ids.last()));
    }
}

proof fn filter_of_all(ids: Seq<IdentityView>, keep: spec_fn(IdentityView) -> bool)
    requires
        forall|j: int| 0 <= j < ids.len() ==> keep(#[trigger] ids[j]),
    ensures
        ids.filter(keep) == ids,
    decreases ids.len(),
{
    reveal(Seq::filter);
    if ids.len() > 0 {
        filter_of_all(ids.drop_last(), keep);
        assert(ids.drop_last().push(ids.last()) =~= ids);
    } else {
        assert(ids.filter(keep) =~= ids);
    }
}

/// An identity that was unlinked does not resolve any more, and every other
/// identity resolves as before.
pub proof fn unlinked_identity_is_gone(
    ids: Seq<IdentityView>,
    next: i64,
    at: int,
    issuer: Seq<char>,
    subject: Seq<char>,
)
    requires
        identities_differ(ids),
        issuers_are_canonical(ids),
        ids_below(identity_ids(ids), next),
        0 <= at < ids.len(),
    ensures
        is_linked(ids.filter(|i: IdentityView| i.id != ids[at].id), issuer, subject) == (is_linked(
            ids,
            issuer,
            subject,
        ) && !is_identity(ids[at], issuer, subject)),
{
    unlinking_takes_one_row(ids, next, at);
    let after = ids.remove(at);
    if is_linked(after, issuer, subject) {
        let k = choose|k: int|
            0 <= k < after.len() && is_identity(#[trigger] after[k], issuer, subject);
        let j = if k < at {
            k
        } else {
            k + 1
        };
        assert(ids[j] == after[k]);
        if j < at {
            assert(!(ids[j].issuer == ids[at].issuer && ids[j].subject == ids[at].subject));
        } else {
            assert(!(ids[at].issuer == ids[j].issuer && ids[at].subject == ids[j].subject));
        }
    }
    if is_linked(ids, issuer, subject) && !is_identity(ids[at], issuer, subject) {
        let j = choose|j: int| 0 <= j < ids.len() && is_identity(#[trigger] ids[j], issuer, subject);
        if j < at {
            assert(after[j] == ids[j]);
        } else {
            assert(after[j - 1] == ids[j]);
        }
    }
}

/// An identity that was linked resolves to its user: it is linked, and every
/// link of that issuer and subject is to that user. Every other identity is
/// linked as it was before.
pub proof fn linked_identity_resolves(
    ids: Seq<IdentityView>,
    next: i64,
    user_id: Seq<char>,
    issuer: Seq<char>,
    subject: Seq<char>,
    email: Option<Seq<char>>,
    now: i64,
)
    ensures
        ({
            let after = linked(ids, next, user_id, issuer, subject, email, now);
            &&& is_linked(after, issuer, subject)
            &&& forall|i: int|
                0 <= i < after.len() && is_identity(#[trigger] after[i], issuer, subject)
                    ==> after[i].user_id == user_id
            &&& forall|i: int|
                0 <= i < ids.len() && !is_identity(#[trigger] ids[i], issuer, subject) ==> after[i]
                    == ids[i]
            &&& after.len() <= ids.len() + 1
        }),
{
    let after = linked(ids, next, user_id, issuer, subject, email, now);
    if is_linked(ids, issuer, subject) {
        let i = choose|i: int| 0 <= i < ids.len() && is_identity(#[trigger] ids[i], issuer, subject);
        assert(is_identity(after[i], issuer, subject));
    } else {
        assert(is_identity(after[ids.len() as int], issuer, subject)) by {
            canonical_is_canonical(issuer);
        }
    }
}

/// Whether every identity is linked to a user.
pub open spec fn users_exist(
    ids: Seq<IdentityView>,
    users: Seq<(Seq<char>, Seq<char>)>,
) -> bool {
    forall|i: int|
        0 <= i < ids.len() ==> name_of_user(users, (#[trigger] ids[i]).user_id) is Some
}

/// Identities are linked to users only: a link to a user keeps that every
/// identity is.
pub proof fn identities_belong_to_users(
    ids: Seq<IdentityView>,
    users: Seq<(Seq<char>, Seq<char>)>,
    next: i64,
    user_id: Seq<char>,
    issuer: Seq<char>,
    subject: Seq<char>,
    email: Option<Seq<char>>,
    now: i64,
)
    requires
        users_exist(ids, users),
        name_of_user(users, user_id) is Some,
    ensures
        users_exist(linked(ids, next, user_id, issuer, subject, email, now), users),
{
    let after = linked(ids, next, user_id, issuer, subject, email, now);
    assert forall|i: int| 0 <= i < after.len() implies name_of_user(
        users,
        (#[trigger] after[i]).user_id,
    ) is Some by {
        if i < ids.len() {
            assert(name_of_user(users, ids[i].user_id) is Some);
        }
    }
}

/// A new row gets an id that was not given before: it is above every stored id
/// and above the last one that was given, until the ids are used up.
pub proof fn ids_are_not_given_twice(ids: Seq<i64>, last: i64)
    ensures
        ({
            let next = id_after(next_after(ids), last);
            next == i64::MAX || (next > last && forall|i: int|
                0 <= i < ids.len() ==> next > #[trigger] ids[i])
        }),
    decreases ids.len(),
{
    if ids.len() > 0 {
        ids_are_not_given_twice(ids.drop_last(), last);
        let next = id_after(next_after(ids), last);
        assert forall|i: int| next < i64::MAX && 0 <= i < ids.len() implies next
            > #[trigger] ids[i] by {
            if i < ids.len() - 1 {
                assert(ids.drop_last()[i] == ids[i]);
            }
        }
    }
}

/// The same subject at another issuer is another identity: linking one does
/// not link the other.
pub proof fn issuers_keep_subjects_apart(
    ids: Seq<IdentityView>,
    next: i64,
    user_id: Seq<char>,
    issuer: Seq<char>,
    other: Seq<char>,
    subject: Seq<char>,
    email: Option<Seq<char>>,
    now: i64,
)
    requires
        canonical_issuer(issuer) != canonical_issuer(other),
    ensures
        is_linked(
            linked(ids, next, user_id, issuer, subject, email, now),
            other,
            subject,
        ) == is_linked(ids, other, subject),
{
    let after = linked(ids, next, user_id, issuer, subject, email, now);
    if is_linked(after, other, subject) {
        let i = choose|i: int| 0 <= i < after.len() && is_identity(#[trigger] after[i], other, subject);
        assert(i < ids.len());
        assert(is_identity(ids[i], other, subject));
    }
    if is_linked(ids, other, subject) {
        let i = choose|i: int| 0 <= i < ids.len() && is_identity(#[trigger] ids[i], other, subject);
        assert(is_identity(after[i], other, subject));
    }
}

/// The email of an identity plays no part in resolving it: whatever email a
/// link carries, the same identities are linked.
pub proof fn email_is_no_key(
    ids: Seq<IdentityView>,
    next: i64,
    user_id: Seq<char>,
    issuer: Seq<char>,
    subject: Seq<char>,
    email1: Option<Seq<char>>,
    email2: Option<Seq<char>>,
    now: i64,
    some_issuer: Seq<char>,
    some_subject: Seq<char>,
)
    ensures
        is_linked(
            linked(ids, next, user_id, issuer, subject, email1, now),
            some_issuer,
            some_subject,
        ) == is_linked(
            linked(ids, next, user_id, issuer, subject, email2, now),
            some_issuer,
            some_subject,
        ),
{
    let a = linked(ids, next, user_id, issuer, subject, email1, now);
    let b = linked(ids, next, user_id, issuer, subject, email2, now);
    assert(a.len() == b.len());
    if is_linked(a, some_issuer, some_subject) {
        let i = choose|i: int|
            0 <= i < a.len() && is_identity(#[trigger] a[i], some_issuer, some_subject);
        assert(is_identity(b[i], some_issuer, some_subject));
    }
    if is_linked(b, some_issuer, some_subject) {
        let i = choose|i: int|
            0 <= i < b.len() && is_identity(#[trigger] b[i], some_issuer, some_subject);
        assert(is_identity(a[i], some_issuer, some_subject));
    }
}

/// A provider that was registered is the one under its slug, and no other
/// provider changes; registering a known slug adds none.
pub proof fn registered_provider_is_found(
    ps: Seq<ProviderView>,
    next: i64,
    r: RegistrationView,
    now: i64,
)
    ensures
        ({
            let after = upserted(ps, next, r, now);
            &&& has_slug(after, r.slug)
            &&& forall|i: int|
                0 <= i < after.len() && (#[trigger] after[i]).slug == r.slug ==> after[i]
                    == provider_of(r, after[i].id, after[i].created_at, now)
            &&& forall|i: int|
                0 <= i < ps.len() && (#[trigger] ps[i]).slug != r.slug ==> after[i] == ps[i]
            &&& has_slug(ps, r.slug) ==> after.len() == ps.len()
        }),
{
    let after = upserted(ps, next, r, now);
    if has_slug(ps, r.slug) {
        let i = choose|i: int| 0 <= i < ps.len() && (#[trigger] ps[i]).slug == r.slug;
        assert(after[i].slug == r.slug);
    } else {
        assert(after[ps.len() as int].slug == r.slug);
    }
}

/// The login picker offers enabled providers only.
pub proof fn only_enabled_providers_are_offered(ps: Seq<ProviderView>)
    ensures
        ({
            let offered = sorting::in_order(ps.filter(is_enabled()), by_display_name());
            forall|i: int|
                0 <= i < offered.len() ==> (#[trigger] offered[i]).enabled && ps.contains(
                    offered[i],
                )
        }),
{
    let left = ps.filter(is_enabled());
    let offered = sorting::in_order(left, by_display_name());
    sorting::in_order_keeps(left, by_display_name());
    assert forall|i: int| 0 <= i < offered.len() implies (#[trigger] offered[i]).enabled
        && ps.contains(offered[i]) by {
        broadcast use group_to_multiset_ensures;

        let x = offered[i];
        assert(offered.to_multiset().count(x) > 0);
        assert(left.contains(x));
        let k = choose|k: int| 0 <= k < left.len() && left[k] == x;
        ps.lemma_filter_pred(is_enabled(), k);
        ps.lemma_filter_contains_rev(is_enabled(), x);
    }
}

/// Issuers are the same up to slashes at their end: the canonical form is the
/// issuer without these, and does not end with one.
pub proof fn issuers_are_told_apart_up_to_slashes(issuer: Seq<char>)
    ensures
        canonical_issuer(issuer).len() <= issuer.len(),
        canonical_issuer(issuer) == issuer.take(canonical_issuer(issuer).len() as int),
        canonical_issuer(issuer).len() > 0 ==> canonical_issuer(issuer).last() != '/',
        forall|i: int|
            canonical_issuer(issuer).len() <= i < issuer.len() ==> #[trigger] issuer[i] == '/',
{
    text::only_the_trailing_character_goes(issuer, '/');
}

/// The name under an id is the first one there is, and missing where there is
/// none.
pub proof fn first_name_counts(names: Seq<(i64, Seq<char>)>, id: i64)
    ensures
        match name_of_id(names, id) {
            Some(n) => exists|i: int|
                0 <= i < names.len() && #[trigger] names[i] == (id, n) && forall|j: int|
                    0 <= j < i ==> (#[trigger] names[j]).0 != id,
            None => forall|i: int| 0 <= i < names.len() ==> (#[trigger] names[i]).0 != id,
        },
    decreases names.len(),
{
    if names.len() > 0 {
        let head = names.drop_last();
        let n = names.len() - 1;
        first_name_counts(head, id);
        assert forall|j: int| 0 <= j < n implies #[trigger] names[j] == head[j] by {}
        match name_of_id(head, id) {
            Some(name) => {
                let i = choose|i: int|
                    0 <= i < head.len() && #[trigger] head[i] == (id, name) && forall|j: int|
                        0 <= j < i ==> (#[trigger] head[j]).0 != id;
                assert(names[i] == (id, name));
            },
            None => {
                if names.last().0 == id {
                    assert(names[n] == (id, names.last().1));
                }
            },
        }
    }
}

/// The name of a user is the first one under the id, and missing where there is
/// none.
pub proof fn first_user_counts(users: Seq<(Seq<char>, Seq<char>)>, id: Seq<char>)
    ensures
        match name_of_user(users, id) {
            Some(n) => exists|i: int|
                0 <= i < users.len() && #[trigger] users[i] == (id, n) && forall|j: int|
                    0 <= j < i ==> (#[trigger] users[j]).0 != id,
            None => forall|i: int| 0 <= i < users.len() ==> (#[trigger] users[i]).0 != id,
        },
    decreases users.len(),
{
    if users.len() > 0 {
        let head = users.drop_last();
        let n = users.len() - 1;
        first_user_counts(head, id);
        assert forall|j: int| 0 <= j < n implies #[trigger] users[j] == head[j] by {}
        match name_of_user(head, id) {
            Some(name) => {
                let i = choose|i: int|
                    0 <= i < head.len() && #[trigger] head[i] == (id, name) && forall|j: int|
                        0 <= j < i ==> (#[trigger] head[j]).0 != id;
                assert(users[i] == (id, name));
            },
            None => {
                if users.last().0 == id {
                    assert(users[n] == (id, users.last().1));
                }
            },
        }
    }
}

/// Providers are listed by the name that is shown, all of them and each once;
/// the login picker lists the enabled ones, and leaves out none of them.
pub proof fn providers_are_listed_by_name(ps: Seq<ProviderView>)
    ensures
        ({
            let all = sorting::in_order(ps, by_display_name());
            let offered = sorting::in_order(ps.filter(is_enabled()), by_display_name());
            &&& all.to_multiset() == ps.to_multiset()
            &&& offered.to_multiset() == ps.filter(|p: ProviderView| p.enabled).to_multiset()
            &&& forall|i: int, j: int|
                0 <= i < j < all.len() ==> text::lex_le(
                    (#[trigger] all[i]).display_name,
                    (#[trigger] all[j]).display_name,
                )
            &&& forall|i: int, j: int|
                0 <= i < j < offered.len() ==> text::lex_le(
                    (#[trigger] offered[i]).display_name,
                    (#[trigger] offered[j]).display_name,
                )
            &&& forall|i: int|
                0 <= i < ps.len() && (#[trigger] ps[i]).enabled ==> offered.contains(ps[i])
        }),
{
    broadcast use group_to_multiset_ensures;

    let leq = by_display_name();
    names_order_providers();
    let left = ps.filter(is_enabled());
    let all = sorting::in_order(ps, leq);
    let offered = sorting::in_order(left, leq);
    sorting::in_order_sorted(ps, leq);
    sorting::in_order_sorted(left, leq);
    assert(is_enabled() =~= (|p: ProviderView| p.enabled));
    assert forall|i: int, j: int| 0 <= i < j < all.len() implies text::lex_le(
        (#[trigger] all[i]).display_name,
        (#[trigger] all[j]).display_name,
    ) by {
        assert(leq(all[i], all[j]));
    }
    assert forall|i: int, j: int| 0 <= i < j < offered.len() implies text::lex_le(
        (#[trigger] offered[i]).display_name,
        (#[trigger] offered[j]).display_name,
    ) by {
        assert(leq(offered[i], offered[j]));
    }
    assert forall|i: int| 0 <= i < ps.len() && (#[trigger] ps[i]).enabled implies offered.contains(
        ps[i],
    ) by {
        ps.lemma_filter_contains(is_enabled(), i);
        assert(left.contains(ps[i]));
        assert(offered.to_multiset().count(ps[i]) > 0);
    }
}

proof fn names_order_providers()
    ensures
        transitive(by_display_name()),
        strongly_connected(by_display_name()),
{
    let leq = by_display_name();
    assert forall|a: ProviderView, b: ProviderView, c: ProviderView| #[trigger]
        leq(a, b) && #[trigger] leq(b, c) implies leq(a, c) by {
        text::lex_le_transitive(a.display_name, b.display_name, c.display_name);
    }
    assert forall|a: ProviderView, b: ProviderView| #[trigger] leq(a, b) || #[trigger] leq(b, a) by {
        text::lex_le_total(a.display_name, b.display_name);
    }
}

proof fn servers_order_rows()
    ensures
        transitive(by_server()),
        strongly_connected(by_server()),
{
    let leq = by_server();
    assert forall|a: ProviderRowView, b: ProviderRowView, c: ProviderRowView| #[trigger]
        leq(a, b) && #[trigger] leq(b, c) implies leq(a, c) by {
        if text::lex_le(a.display_name, b.display_name) && text::lex_le(
            b.display_name,
            c.display_name,
        ) {
            text::lex_le_transitive(a.display_name, b.display_name, c.display_name);
        }
        if a.server_name is Some && b.server_name is Some && c.server_name is Some {
            let x = a.server_name->0;
            let y = b.server_name->0;
            let z = c.server_name->0;
            if text::lex_le(x, y) && text::lex_le(y, z) {
                text::lex_le_transitive(x, y, z);
            }
            if text::lex_le(x, z) && text::lex_le(z, x) {
                text::lex_le_antisymmetric(x, z);
            }
            if text::lex_le(x, y) && text::lex_le(y, x) {
                text::lex_le_antisymmetric(x, y);
            }
            if text::lex_le(y, z) && text::lex_le(z, y) {
                text::lex_le_antisymmetric(y, z);
            }
        }
    }
    assert forall|a: ProviderRowView, b: ProviderRowView| #[trigger] leq(a, b) || #[trigger] leq(
        b,
        a,
    ) by {
        text::lex_le_total(a.display_name, b.display_name);
        if a.server_name is Some && b.server_name is Some {
            text::lex_le_total(a.server_name->0, b.server_name->0);
        }
    }
}

/// Rows of providers are listed once each, those of a server first; among these
/// and among the others, missing names of servers come first and then the names
/// in order, and rows of one server stand by the name that is shown.
pub proof fn rows_are_listed_by_server(rows: Seq<ProviderRowView>)
    ensures
        ({
            let all = sorting::in_order(rows, by_server());
            &&& all.to_multiset() == rows.to_multiset()
            &&& forall|i: int, j: int|
                0 <= i < j < all.len() ==> {
                    let a = #[trigger] all[i];
                    let b = #[trigger] all[j];
                    &&& a.server_id is None ==> b.server_id is None
                    &&& a.server_id is Some == b.server_id is Some ==> {
                        &&& a.server_name is Some ==> b.server_name is Some && text::lex_le(
                            a.server_name->0,
                            b.server_name->0,
                        )
                        &&& a.server_name == b.server_name ==> text::lex_le(
                            a.display_name,
                            b.display_name,
                        )
                    }
                }
        }),
{
    let leq = by_server();
    servers_order_rows();
    sorting::in_order_sorted(rows, leq);
    let all = sorting::in_order(rows, leq);
    assert forall|i: int, j: int| 0 <= i < j < all.len() implies {
        let a = #[trigger] all[i];
        let b = #[trigger] all[j];
        &&& a.server_id is None ==> b.server_id is None
        &&& a.server_id is Some == b.server_id is Some ==> {
            &&& a.server_name is Some ==> b.server_name is Some && text::lex_le(
                a.server_name->0,
                b.server_name->0,
            )
            &&& a.server_name == b.server_name ==> text::lex_le(a.display_name, b.display_name)
        }
    } by {
        assert(leq(all[i], all[j]));
        if all[i].server_name is Some {
            text::lex_le_reflexive(all[i].server_name->0);
        }
    }
}

/// A row shows its provider as it is, with the name of its server where it has
/// one that is known.
pub proof fn rows_show_their_provider(p: ProviderView, servers: Seq<(i64, Seq<char>)>)
    ensures
        ({
            let row = row_of(p, servers);
            &&& row.id == p.id && row.slug == p.slug && row.display_name == p.display_name
            &&& row.issuer_url == p.issuer_url && row.enabled == p.enabled && row.server_id
                == p.server_id
            &&& p.server_id is None ==> row.server_name is None
            &&& p.server_id matches Some(id) ==> match row.server_name {
                Some(n) => servers.contains((id, n)),
                None => forall|i: int|
                    0 <= i < servers.len() ==> (#[trigger] servers[i]).0 != id,
            }
        }),
{
    if let Some(id) = p.server_id {
        first_name_counts(servers, id);
    }
}

proof fn ages_order_identities()
    ensures
        transitive(oldest_first()),
        strongly_connected(oldest_first()),
        transitive(newest_first()),
        strongly_connected(newest_first()),
{
}

/// A user's identities are listed once each and the oldest first, and no other
/// user's are; all identities are listed the newest first.
pub proof fn identities_are_listed_by_age(ids: Seq<IdentityView>, user_id: Seq<char>)
    ensures
        ({
            let own = ids.filter(|i: IdentityView| i.user_id == user_id);
            let listed = sorting::in_order(own, oldest_first());
            &&& listed.to_multiset() == own.to_multiset()
            &&& forall|i: int, j: int|
                0 <= i < j < listed.len() ==> (#[trigger] listed[i]).created_at <= (
                #[trigger] listed[j]).created_at
        }),
        ({
            let listed = sorting::in_order(ids, newest_first());
            &&& listed.to_multiset() == ids.to_multiset()
            &&& forall|i: int, j: int|
                0 <= i < j < listed.len() ==> (#[trigger] listed[i]).created_at >= (
                #[trigger] listed[j]).created_at
        }),
{
    ages_order_identities();
    let own = ids.filter(|i: IdentityView| i.user_id == user_id);
    sorting::in_order_sorted(own, oldest_first());
    sorting::in_order_sorted(ids, newest_first());
    let a = sorting::in_order(own, oldest_first());
    let b = sorting::in_order(ids, newest_first());
    assert forall|i: int, j: int| 0 <= i < j < a.len() implies (#[trigger] a[i]).created_at <= (
    #[trigger] a[j]).created_at by {
        assert(oldest_first()(a[i], a[j]));
    }
    assert forall|i: int, j: int| 0 <= i < j < b.len() implies (#[trigger] b[i]).created_at >= (
    #[trigger] b[j]).created_at by {
        assert(newest_first()(b[i], b[j]));
    }
}

/// A listed identity is shown as it is, with the first name under its user's id.
pub proof fn listed_identities_name_their_user(
    i: IdentityView,
    users: Seq<(Seq<char>, Seq<char>)>,
)
    ensures
        ({
            let n = named(i, users);
            &&& n.id == i.id && n.user_id == i.user_id && n.issuer == i.issuer && n.subject
                == i.subject && n.email == i.email
            &&& match n.username {
                Some(name) => users.contains((i.user_id, name)),
                None => forall|k: int|
                    0 <= k < users.len() ==> (#[trigger] users[k]).0 != i.user_id,
            }
        }),
{
    first_user_counts(users, i.user_id);
}

/// Registering a provider again keeps its place, its id and the time it was
/// created; a new one stands at the end, with the next id, and was created now.
pub proof fn registering_again_keeps_the_id(
    ps: Seq<ProviderView>,
    next: i64,
    r: RegistrationView,
    now: i64,
)
    ensures
        ({
            let after = upserted(ps, next, r, now);
            let known = exists|i: int| 0 <= i < ps.len() && (#[trigger] ps[i]).slug == r.slug;
            &&& after.len() == ps.len() + if known {
                0int
            } else {
                1
            }
            &&& forall|i: int|
                0 <= i < ps.len() ==> (#[trigger] after[i]).id == ps[i].id && after[i].slug
                    == ps[i].slug && after[i].created_at == ps[i].created_at
            &&& forall|i: int|
                0 <= i < ps.len() && ps[i].slug != r.slug ==> #[trigger] after[i] == ps[i]
            &&& forall|i: int|
                0 <= i < after.len() && (#[trigger] after[i]).slug == r.slug
                    ==> after[i].display_name == r.display_name && after[i].issuer_url
                    == r.issuer_url && after[i].client_id == r.client_id && after[i].client_secret
                    == r.client_secret && after[i].scopes == r.scopes && after[i].enabled
                    == r.enabled && after[i].server_id == r.server_id && after[i].updated_at == now
            &&& !known ==> after.last().slug == r.slug && after.last().id == next
                && after.last().created_at == now
        }),
{
}

/// Linking an identity again changes its user and email in place and nothing
/// else; a new link stands at the end, with the next id, and was made now.
pub proof fn linking_again_keeps_the_id(
    ids: Seq<IdentityView>,
    next: i64,
    user_id: Seq<char>,
    issuer: Seq<char>,
    subject: Seq<char>,
    email: Option<Seq<char>>,
    now: i64,
)
    ensures
        ({
            let after = linked(ids, next, user_id, issuer, subject, email, now);
            let same = |i: IdentityView|
                i.issuer == canonical_issuer(issuer) && i.subject == subject;
            let known = exists|i: int| 0 <= i < ids.len() && same(#[trigger] ids[i]);
            &&& after.len() == ids.len() + if known {
                0int
            } else {
                1
            }
            &&& forall|i: int|
                0 <= i < ids.len() && !same(ids[i]) ==> #[trigger] after[i] == ids[i]
            &&& forall|i: int|
                0 <= i < ids.len() && same(ids[i]) ==> #[trigger] after[i] == (IdentityView {
                    user_id,
                    email,
                    ..ids[i]
                })
            &&& !known ==> after.last() == (IdentityView {
                id: next,
                user_id,
                issuer: canonical_issuer(issuer),
                subject,
                email,
                created_at: now,
            })
        }),
{
    let same = |i: IdentityView| i.issuer == canonical_issuer(issuer) && i.subject == subject;
    assert forall|i: int| 0 <= i < ids.len() implies same(#[trigger] ids[i]) == is_identity(
        ids[i],
        issuer,
        subject,
    ) by {}
    if exists|i: int| 0 <= i < ids.len() && same(#[trigger] ids[i]) {
        let i = choose|i: int| 0 <= i < ids.len() && same(#[trigger] ids[i]);
        assert(is_identity(ids[i], issuer, subject));
    }
}

/// Whether no later provider has the slug or the id of the one at `i`.
pub open spec fn provider_stays(ps: Seq<ProviderView>, i: int) -> bool {
    forall|j: int|
        i < j < ps.len() ==> (#[trigger] ps[j]).id != ps[i].id && ps[j].slug != ps[i].slug
}

/// Of stored providers exactly those are restored whose slug and id no later one
/// has, in their order. Gives the places that they had.
pub proof fn later_providers_replace_earlier_ones(ps: Seq<ProviderView>) -> (at: Seq<int>)
    ensures
        at.len() == kept_providers(ps).len(),
        forall|k: int|
            0 <= k < at.len() ==> 0 <= #[trigger] at[k] < ps.len() && provider_stays(ps, at[k])
                && kept_providers(ps)[k] == ps[at[k]],
        forall|j: int, k: int| 0 <= j < k < at.len() ==> #[trigger] at[j] < #[trigger] at[k],
        forall|i: int|
            0 <= i < ps.len() && #[trigger] provider_stays(ps, i) ==> at.contains(i),
    decreases ps.len(),
{
    if ps.len() == 0 {
        Seq::empty()
    } else {
        let head = ps.drop_last();
        let n = ps.len() - 1;
        let new = ps.last();
        let before = later_providers_replace_earlier_ones(head);
        let rows = kept_providers(head);
        let keep = |p: ProviderView| !(p.id == new.id || p.slug == new.slug);
        let picked = sorting::kept_places(rows, keep);
        let at = picked.map_values(|k: int| before[k]).push(n);
        let kept = rows.filter(keep);
        assert forall|k: int| 0 <= k < at.len() implies 0 <= #[trigger] at[k] < ps.len()
            && provider_stays(ps, at[k]) && kept_providers(ps)[k] == ps[at[k]] by {
            if k < kept.len() {
                assert(at[k] == before[picked[k]]);
                assert(rows[picked[k]] == head[before[picked[k]]]);
                rows.lemma_filter_pred(keep, k);
                assert(provider_stays(head, before[picked[k]]));
                assert forall|j: int| at[k] < j < ps.len() implies (#[trigger] ps[j]).id
                    != ps[at[k]].id && ps[j].slug != ps[at[k]].slug by {
                    if j < n {
                        assert(head[j] == ps[j]);
                    }
                }
            }
        }
        assert forall|j: int, k: int| 0 <= j < k < at.len() implies #[trigger] at[j]
            < #[trigger] at[k] by {
            assert(at[j] == before[picked[j]]);
            if k < kept.len() {
                assert(at[k] == before[picked[k]]);
                assert(picked[j] < picked[k]);
            }
        }
        assert forall|i: int| 0 <= i < ps.len() && #[trigger] provider_stays(
            ps,
            i,
        ) implies at.contains(i) by {
            if i == n {
                assert(at[kept.len() as int] == n);
            } else {
                assert(provider_stays(head, i)) by {
                    assert forall|j: int| i < j < head.len() implies (#[trigger] head[j]).id
                        != head[i].id && head[j].slug != head[i].slug by {
                        assert(head[j] == ps[j]);
                    }
                }
                let k = choose|k: int| 0 <= k < before.len() && before[k] == i;
                assert(rows[k] == ps[i]);
                assert(ps[n].id != ps[i].id);
                assert(keep(rows[k]));
                let p = choose|p: int| 0 <= p < picked.len() && picked[p] == k;
                assert(at[p] == i);
            }
        }
        at
    }
}

/// Whether no later identity has the id, or the issuer and subject, of the one at
/// `i`.
pub open spec fn identity_stays(ids: Seq<IdentityView>, i: int) -> bool {
    forall|j: int|
        i < j < ids.len() ==> (#[trigger] ids[j]).id != ids[i].id && !(ids[j].issuer
            == ids[i].issuer && ids[j].subject == ids[i].subject)
}

/// Of stored identities exactly those are restored whose id, and whose issuer
/// and subject, no later one has, in their order. Gives the places that they
/// had.
pub proof fn later_identities_replace_earlier_ones(ids: Seq<IdentityView>) -> (at: Seq<int>)
    ensures
        at.len() == kept_identities(ids).len(),
        forall|k: int|
            0 <= k < at.len() ==> 0 <= #[trigger] at[k] < ids.len() && identity_stays(ids, at[k])
                && kept_identities(ids)[k] == ids[at[k]],
        forall|j: int, k: int| 0 <= j < k < at.len() ==> #[trigger] at[j] < #[trigger] at[k],
        forall|i: int|
            0 <= i < ids.len() && #[trigger] identity_stays(ids, i) ==> at.contains(i),
    decreases ids.len(),
{
    if ids.len() == 0 {
        Seq::empty()
    } else {
        let head = ids.drop_last();
        let n = ids.len() - 1;
        let new = ids.last();
        let before = later_identities_replace_earlier_ones(head);
        let rows = kept_identities(head);
        let keep = |i: IdentityView|
            !(i.id == new.id || (i.issuer == new.issuer && i.subject == new.subject));
        let picked = sorting::kept_places(rows, keep);
        let at = picked.map_values(|k: int| before[k]).push(n);
        let kept = rows.filter(keep);
        assert forall|k: int| 0 <= k < at.len() implies 0 <= #[trigger] at[k] < ids.len()
            && identity_stays(ids, at[k]) && kept_identities(ids)[k] == ids[at[k]] by {
            if k < kept.len() {
                assert(at[k] == before[picked[k]]);
                assert(rows[picked[k]] == head[before[picked[k]]]);
                rows.lemma_filter_pred(keep, k);
                assert(identity_stays(head, before[picked[k]]));
                assert forall|j: int| at[k] < j < ids.len() implies (#[trigger] ids[j]).id
                    != ids[at[k]].id && !(ids[j].issuer == ids[at[k]].issuer && ids[j].subject
                    == ids[at[k]].subject) by {
                    if j < n {
                        assert(head[j] == ids[j]);
                    }
                }
            }
        }
        assert forall|j: int, k: int| 0 <= j < k < at.len() implies #[trigger] at[j]
            < #[trigger] at[k] by {
            assert(at[j] == before[picked[j]]);
            if k < kept.len() {
                assert(at[k] == before[picked[k]]);
                assert(picked[j] < picked[k]);
            }
        }
        assert forall|i: int| 0 <= i < ids.len() && #[trigger] identity_stays(
            ids,
            i,
        ) implies at.contains(i) by {
            if i == n {
                assert(at[kept.len() as int] == n);
            } else {
                assert(identity_stays(head, i)) by {
                    assert forall|j: int| i < j < head.len() implies (#[trigger] head[j]).id
                        != head[i].id && !(head[j].issuer == head[i].issuer && head[j].subject
                        == head[i].subject) by {
                        assert(head[j] == ids[j]);
                    }
                }
                let k = choose|k: int| 0 <= k < before.len() && before[k] == i;
                assert(rows[k] == ids[i]);
                assert(ids[n].id != ids[i].id);
                assert(keep(rows[k]));
                let p = choose|p: int| 0 <= p < picked.len() && picked[p] == k;
                assert(at[p] == i);
            }
        }
        at
    }
}

/// The next id is no greater than it has to be: it is one, or follows on an id
/// that was given, as far as ids go.
pub proof fn ids_are_given_one_after_the_other(ids: Seq<i64>)
    ensures
        next_after(ids) >= 1,
        next_after(ids) > 1 ==> exists|i: int|
            0 <= i < ids.len() && (#[trigger] ids[i] == next_after(ids) - 1 || ids[i] == i64::MAX),
    decreases ids.len(),
{
    if ids.len() > 0 {
        let head = ids.drop_last();
        let n = ids.len() - 1;
        ids_are_given_one_after_the_other(head);
        if next_after(ids) > 1 {
            if next_after(head) > ids[n] {
                let i = choose|i: int|
                    0 <= i < head.len() && (#[trigger] head[i] == next_after(head) - 1 || head[i]
                        == i64::MAX);
                assert(ids[i] == head[i]);
            } else {
                assert(ids[n] == next_after(ids) - 1 || ids[n] == i64::MAX);
            }
        }
    }
}

}
