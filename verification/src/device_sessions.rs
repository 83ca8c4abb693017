//! Backend sessions of a user: opening them for a device that has none, and
//! renewing their tokens at a login.
use vstd::hash_map::*;
use vstd::prelude::*;
use vstd::string::*;

use crate::client::{ClientInfo, ClientInfoView};
use crate::federated_users::FederatedUserService;
use crate::json;
use crate::text;

verus! {

/// A server address without trailing slashes, by which servers are told apart.
pub open spec fn server_key(url: Seq<char>) -> Seq<char> {
    text::without_trailing(url, '/')
}

/// The place of the first address of the same server.
pub open spec fn place_of_server(urls: Seq<Seq<char>>, url: Seq<char>) -> Option<int>
    decreases urls.len(),
{
    if urls.len() == 0 {
        None
    } else {
        match place_of_server(urls.drop_last(), url) {
            Some(i) => Some(i),
            None => if server_key(urls.last()) == server_key(url) {
                Some(urls.len() - 1)
            } else {
                None
            },
        }
    }
}

proof fn place_in_prefix(urls: Seq<Seq<char>>, url: Seq<char>, n: int)
    requires
        0 <= n <= urls.len(),
        place_of_server(urls.take(n), url) is Some,
    ensures
        place_of_server(urls, url) == place_of_server(urls.take(n), url),
    decreases urls.len(),
{
    if n == urls.len() {
        assert(urls.take(n) =~= urls);
    } else {
        assert(urls.drop_last().take(n) =~= urls.take(n));
        place_in_prefix(urls.drop_last(), url, n);
    }
}

/// The place that is found holds an address of the same server.
pub proof fn place_is_of_server(urls: Seq<Seq<char>>, url: Seq<char>)
    ensures
        place_of_server(urls, url) matches Some(i) ==> 0 <= i < urls.len() && server_key(urls[i])
            == server_key(url),
        place_of_server(urls, url) is None ==> forall|i: int|
            0 <= i < urls.len() ==> server_key(#[trigger] urls[i]) != server_key(url),
    decreases urls.len(),
{
    if urls.len() > 0 {
        place_is_of_server(urls.drop_last(), url);
        assert forall|i: int|
            place_of_server(urls, url) is None && 0 <= i < urls.len() implies server_key(
            #[trigger] urls[i],
        ) != server_key(url) by {
            if i < urls.len() - 1 {
                assert(urls.drop_last()[i] == urls[i]);
            }
        }
    }
}

/// Finds the first address of the same server.
pub fn find_server(urls: &Vec<String>, url: &str) -> (r: Option<usize>)
    ensures
        match r {
            Some(i) => i < urls.len() && place_of_server(text::texts(urls@), url@) == Some(i as int),
            None => place_of_server(text::texts(urls@), url@) is None,
        },
{
    let ghost all = text::texts(urls@);
    let key = text::trim_end_char(url, '/');
    for i in 0..urls.len()
        invariant
            all == text::texts(urls@),
            key@ == server_key(url@),
            place_of_server(all.take(i as int), url@) is None,
    {
        assert(all.take(i + 1).drop_last() =~= all.take(i as int));
        assert(all.take(i + 1).last() == urls[i as int]@);
        if text::str_eq(text::trim_end_char(urls[i].as_str(), '/').as_str(), key.as_str()) {
            proof {
                place_in_prefix(all, url@, i + 1);
            }
            return Some(i);
        }
    }
    assert(all.take(urls.len() as int) =~= all);
    None
}

/// How far the mapping at hand is.
#[derive(Debug, Clone, Copy, PartialEq, Eq, Structural)]
pub enum SessionStep {
    /// A client for the server is wanted.
    Client,
    /// The sign-in is wanted.
    SignIn,
    /// The session is to be stored.
    Store,
}

/// What is to be done next for a device.
#[derive(Debug, Clone)]
pub enum DeviceAction {
    /// Build a client for the configured server at this place.
    Client { server: usize },
    /// Sign in there with the name, and with the password of the mapping at
    /// this place.
    SignIn { mapping: usize, server: usize, name: String },
    /// Store the session. It belongs to the user and the device, and carries no
    /// token of the device.
    Store {
        user_id: String,
        server_url: String,
        device: ClientInfo,
        token: Option<String>,
        access_token: String,
        remote_user_id: String,
    },
}

/// The data in a [`DeviceAction`].
pub enum DeviceActionView {
    Client { server: int },
    SignIn { mapping: int, server: int, name: Seq<char> },
    Store {
        user_id: Seq<char>,
        server_url: Seq<char>,
        device: ClientInfoView,
        token: Option<Seq<char>>,
        access_token: Seq<char>,
        remote_user_id: Seq<char>,
    },
}

impl View for DeviceAction {
    type V = DeviceActionView;

    open spec fn view(&self) -> DeviceActionView {
        match *self {
            DeviceAction::Client { server } => DeviceActionView::Client { server: server as int },
            DeviceAction::SignIn { mapping, server, name } => DeviceActionView::SignIn {
                mapping: mapping as int,
                server: server as int,
                name: name@,
            },
            DeviceAction::Store {
                user_id,
                server_url,
                device,
                token,
                access_token,
                remote_user_id,
            } => DeviceActionView::Store {
                user_id: user_id@,
                server_url: server_url@,
                device: device@,
                token: json::opt_text(token),
                access_token: access_token@,
                remote_user_id: remote_user_id@,
            },
        }
    }
}

/// What performing a device's action gave.
#[derive(Debug, Clone)]
pub enum DeviceReply {
    Done,
    SignedIn { access_token: String, user_id: String },
    Failed,
}

/// The data in a [`DeviceReply`].
pub enum DeviceReplyView {
    Done,
    SignedIn { access_token: Seq<char>, user_id: Seq<char> },
    Failed,
}

impl View for DeviceReply {
    type V = DeviceReplyView;

    open spec fn view(&self) -> DeviceReplyView {
        match *self {
            DeviceReply::Done => DeviceReplyView::Done,
            DeviceReply::SignedIn { access_token, user_id } => DeviceReplyView::SignedIn {
                access_token: access_token@,
                user_id: user_id@,
            },
            DeviceReply::Failed => DeviceReplyView::Failed,
        }
    }
}

/// Opening one session per mapped backend for a device.
pub struct DeviceSessions {
    user_id: String,
    device: ClientInfo,
    mappings: Vec<(String, String)>,
    servers: Vec<String>,
    position: usize,
    step: SessionStep,
    signed_in: Option<(String, String)>,
    created: usize,
}

/// The state of opening sessions: the user and the device, the mappings as
/// server address and name, the addresses of the configured servers, the
/// mapping at hand, its step, the token and user id that the sign-in gave, and
/// how many sessions were stored.
pub struct DeviceSessionsView {
    pub user_id: Seq<char>,
    pub device: ClientInfoView,
    pub mappings: Seq<(Seq<char>, Seq<char>)>,
    pub servers: Seq<Seq<char>>,
    pub position: int,
    pub step: SessionStep,
    pub signed_in: Option<(Seq<char>, Seq<char>)>,
    pub created: int,
}

/// The server addresses and names of mappings.
pub open spec fn mapping_views(mappings: Seq<(String, String)>) -> Seq<(Seq<char>, Seq<char>)> {
    mappings.map_values(|m: (String, String)| (m.0@, m.1@))
}

/// The first mapping from `position` on whose server is configured.
pub open spec fn next_mapped(
    mappings: Seq<(Seq<char>, Seq<char>)>,
    servers: Seq<Seq<char>>,
    position: int,
) -> int
    decreases mappings.len() - position,
{
    if position < 0 || position >= mappings.len() || place_of_server(
        servers,
        mappings[position].0,
    ) is Some {
        position
    } else {
        next_mapped(mappings, servers, position + 1)
    }
}

/// Before anything was done.
pub open spec fn device_start(
    user_id: Seq<char>,
    device: ClientInfoView,
    mappings: Seq<(Seq<char>, Seq<char>)>,
    servers: Seq<Seq<char>>,
) -> DeviceSessionsView {
    DeviceSessionsView {
        user_id,
        device,
        mappings,
        servers,
        position: next_mapped(mappings, servers, 0),
        step: SessionStep::Client,
        signed_in: None,
        created: 0,
    }
}

/// What is to be done next, while a mapping is at hand.
pub open spec fn device_action_of(v: DeviceSessionsView) -> DeviceActionView {
    let (server_url, name) = v.mappings[v.position];
    let server = place_of_server(v.servers, server_url)->0;
    let (access_token, remote_user_id) = v.signed_in->0;
    match v.step {
        SessionStep::Client => DeviceActionView::Client { server },
        SessionStep::SignIn => DeviceActionView::SignIn { mapping: v.position, server, name },
        SessionStep::Store => DeviceActionView::Store {
            user_id: v.user_id,
            server_url,
            device: v.device,
            token: None,
            access_token,
            remote_user_id,
        },
    }
}

/// The state with the next mapping at hand.
pub open spec fn device_moved_on(v: DeviceSessionsView) -> DeviceSessionsView {
    DeviceSessionsView {
        position: next_mapped(v.mappings, v.servers, v.position + 1),
        step: SessionStep::Client,
        signed_in: None,
        ..v
    }
}

/// After a reply to the action. Anything but what the action asks for is a
/// failure, and the mapping is left.
pub open spec fn device_advanced(
    v: DeviceSessionsView,
    reply: DeviceReplyView,
) -> DeviceSessionsView {
    if v.position >= v.mappings.len() {
        v
    } else {
        match (v.step, reply) {
            (SessionStep::Client, DeviceReplyView::Done) => DeviceSessionsView {
                step: SessionStep::SignIn,
                ..v
            },
            (
                SessionStep::SignIn,
                DeviceReplyView::SignedIn { access_token, user_id },
            ) => DeviceSessionsView {
                step: SessionStep::Store,
                signed_in: Some((access_token, user_id)),
                ..v
            },
            (SessionStep::Store, DeviceReplyView::Done) => DeviceSessionsView {
                created: v.created + 1,
                ..device_moved_on(v)
            },
            _ => device_moved_on(v),
        }
    }
}

impl View for DeviceSessions {
    type V = DeviceSessionsView;

    closed spec fn view(&self) -> DeviceSessionsView {
        DeviceSessionsView {
            user_id: self.user_id@,
            device: self.device@,
            mappings: mapping_views(self.mappings@),
            servers: text::texts(self.servers@),
            position: self.position as int,
            step: self.step,
            signed_in: token_view(self.signed_in),
            created: self.created as int,
        }
    }
}

fn skip_unmapped(mappings: &Vec<(String, String)>, servers: &Vec<String>, position: usize) -> (r:
    usize)
    requires
        position <= mappings.len(),
    ensures
        r as int == next_mapped(mapping_views(mappings@), text::texts(servers@), position as int),
        position <= r <= mappings.len(),
{
    let mut p: usize = position;
    while p < mappings.len()
        invariant
            position <= p <= mappings.len(),
            next_mapped(mapping_views(mappings@), text::texts(servers@), p as int) == next_mapped(
                mapping_views(mappings@),
                text::texts(servers@),
                position as int,
            ),
        decreases mappings.len() - p,
    {
        if find_server(servers, mappings[p].0.as_str()).is_some() {
            return p;
        }
        p = p + 1;
    }
    p
}

/// A copy of a device.
fn copied(device: &ClientInfo) -> (r: ClientInfo)
    ensures
        r@ == device@,
{
    ClientInfo {
        client: device.client.clone(),
        device: device.device.clone(),
        device_id: device.device_id.clone(),
        version: device.version.clone(),
    }
}

impl DeviceSessions {
    /// The session count never passes the mapping at hand, which is always
    /// one whose server is configured. A session is stored after a sign-in.
    #[verifier::type_invariant]
    spec fn well_formed(self) -> bool {
        &&& self.created <= self.position <= self.mappings.len()
        &&& self.position < self.mappings.len() ==> place_of_server(
            text::texts(self.servers@),
            mapping_views(self.mappings@)[self.position as int].0,
        ) is Some
        &&& self.step == SessionStep::Store ==> self.signed_in is Some
    }

    /// What is to be done next; `None` when every mapping is done.
    pub fn action(&self) -> (r: Option<DeviceAction>)
        ensures
            match r {
                Some(a) => self@.position < self@.mappings.len() && a@ == device_action_of(self@),
                None => self@.position >= self@.mappings.len(),
            },
    {
        proof {
            use_type_invariant(self);
        }
        if self.position >= self.mappings.len() {
            return None;
        }
        let (server_url, name) = &self.mappings[self.position];
        let server = match find_server(&self.servers, server_url.as_str()) {
            Some(s) => s,
            None => {
                return None;
            },
        };
        match (self.step, &self.signed_in) {
            (SessionStep::Client, _) => Some(DeviceAction::Client { server }),
            (SessionStep::SignIn, _) => Some(
                DeviceAction::SignIn { mapping: self.position, server, name: name.clone() },
            ),
            (SessionStep::Store, Some((access_token, remote_user_id))) => Some(
                DeviceAction::Store {
                    user_id: self.user_id.clone(),
                    server_url: server_url.clone(),
                    device: copied(&self.device),
                    token: None,
                    access_token: access_token.clone(),
                    remote_user_id: remote_user_id.clone(),
                },
            ),
            (SessionStep::Store, None) => None,
        }
    }

    /// Leaves the mapping at hand for the next one.
    fn move_on(&mut self, stored: bool)
        requires
            old(self)@.position < old(self)@.mappings.len(),
        ensures
            final(self)@ == (DeviceSessionsView {
                created: if stored {
                    old(self)@.created + 1
                } else {
                    old(self)@.created
                },
                ..device_moved_on(old(self)@)
            }),
    {
        proof {
            use_type_invariant(&*self);
            next_mapped_is_mapped(
                mapping_views(self.mappings@),
                text::texts(self.servers@),
                self.position + 1,
            );
        }
        let position = skip_unmapped(&self.mappings, &self.servers, self.position + 1);
        self.position = position;
        self.step = SessionStep::Client;
        self.signed_in = None;
        if stored {
            self.created = self.created + 1;
        }
    }

    /// Takes the reply to the action.
    pub fn reply(&mut self, reply: DeviceReply)
        ensures
            final(self)@ == device_advanced(old(self)@, reply@),
    {
        proof {
            use_type_invariant(&*self);
        }
        if self.position >= self.mappings.len() {
            return ;
        }
        match (self.step, reply) {
            (SessionStep::Client, DeviceReply::Done) => {
                self.step = SessionStep::SignIn;
            },
            (SessionStep::SignIn, DeviceReply::SignedIn { access_token, user_id }) => {
                self.signed_in = Some((access_token, user_id));
                self.step = SessionStep::Store;
            },
            (SessionStep::Store, DeviceReply::Done) => {
                self.move_on(true);
            },
            _ => {
                self.move_on(false);
            },
        }
    }

    /// How many sessions were stored.
    pub fn created(&self) -> (r: usize)
        ensures
            r == self@.created,
    {
        self.created
    }
}

proof fn next_mapped_is_mapped(
    mappings: Seq<(Seq<char>, Seq<char>)>,
    servers: Seq<Seq<char>>,
    position: int,
)
    requires
        0 <= position <= mappings.len(),
    ensures
        position <= next_mapped(mappings, servers, position) <= mappings.len(),
        next_mapped(mappings, servers, position) < mappings.len() ==> place_of_server(
            servers,
            mappings[next_mapped(mappings, servers, position)].0,
        ) is Some,
    decreases mappings.len() - position,
{
    if position < mappings.len() && place_of_server(servers, mappings[position].0) is None {
        next_mapped_is_mapped(mappings, servers, position + 1);
    }
}

/// The state after a list of replies.
pub open spec fn device_after(
    v: DeviceSessionsView,
    replies: Seq<DeviceReplyView>,
) -> DeviceSessionsView
    decreases replies.len(),
{
    if replies.len() == 0 {
        v
    } else {
        device_advanced(device_after(v, replies.drop_last()), replies.last())
    }
}

/// However the steps turn out, a mapping yields at most one session: the count
/// never passes the number of mappings left behind. The user, the device, the
/// mappings and the servers stay as they were given.
pub proof fn one_session_per_mapping(
    user_id: Seq<char>,
    device: ClientInfoView,
    mappings: Seq<(Seq<char>, Seq<char>)>,
    servers: Seq<Seq<char>>,
    replies: Seq<DeviceReplyView>,
)
    ensures
        ({
            let v = device_after(device_start(user_id, device, mappings, servers), replies);
            &&& v.user_id == user_id && v.device == device
            &&& v.mappings == mappings && v.servers == servers
            &&& 0 <= v.created <= v.position <= mappings.len()
            &&& v.position < mappings.len() ==> place_of_server(
                servers,
                mappings[v.position].0,
            ) is Some
        }),
    decreases replies.len(),
{
    next_mapped_is_mapped(mappings, servers, 0);
    if replies.len() > 0 {
        one_session_per_mapping(user_id, device, mappings, servers, replies.drop_last());
        let before = device_after(
            device_start(user_id, device, mappings, servers),
            replies.drop_last(),
        );
        if before.position < mappings.len() {
            next_mapped_is_mapped(mappings, servers, before.position + 1);
        }
    }
}

/// A session that is stored is that of the sign-in just before it: the action
/// before signed in on the mapping's server under the mapping's name, and the
/// session carries the token and the user id that came back. It is stored for
/// the caller's user and device under the mapping's address, and whatever the
/// caller holds as its own token is not part of it.
pub proof fn sessions_are_those_of_their_sign_in(
    user_id: Seq<char>,
    device: ClientInfoView,
    mappings: Seq<(Seq<char>, Seq<char>)>,
    servers: Seq<Seq<char>>,
    replies: Seq<DeviceReplyView>,
)
    ensures
        ({
            let start = device_start(user_id, device, mappings, servers);
            let before = device_after(start, replies.drop_last());
            let v = device_after(start, replies);
            v.position < mappings.len() && device_action_of(v) is Store ==> {
                &&& replies.len() > 0
                &&& before.position == v.position
                &&& place_of_server(servers, mappings[v.position].0) matches Some(server)
                    && device_action_of(before) == (DeviceActionView::SignIn {
                    mapping: v.position,
                    server,
                    name: mappings[v.position].1,
                })
                &&& replies.last() matches DeviceReplyView::SignedIn {
                    access_token,
                    user_id: remote_user_id,
                } && device_action_of(v) == (DeviceActionView::Store {
                    user_id,
                    server_url: mappings[v.position].0,
                    device,
                    token: None,
                    access_token,
                    remote_user_id,
                })
            }
        }),
{
    one_session_per_mapping(user_id, device, mappings, servers, replies);
    if replies.len() > 0 {
        one_session_per_mapping(user_id, device, mappings, servers, replies.drop_last());
    }
}

/// A session of a user: the address of its server as it is configured, the
/// address that the session is stored under, and the device it belongs to.
#[derive(Debug, Clone)]
pub struct OpenSession {
    pub url: String,
    pub server_url: String,
    pub device: ClientInfo,
}

/// The data in an [`OpenSession`].
pub struct OpenSessionView {
    pub url: Seq<char>,
    pub server_url: Seq<char>,
    pub device: ClientInfoView,
}

impl View for OpenSession {
    type V = OpenSessionView;

    open spec fn view(&self) -> OpenSessionView {
        OpenSessionView { url: self.url@, server_url: self.server_url@, device: self.device@ }
    }
}

/// The data in sessions.
pub open spec fn session_views(sessions: Seq<OpenSession>) -> Seq<OpenSessionView> {
    sessions.map_values(|s: OpenSession| s@)
}

/// What is to be done next at a token refresh.
#[derive(Debug, Clone)]
pub enum RefreshStep {
    /// Sign in to the server of the session at this place, under the name and
    /// with the password of the mapping at this place.
    SignIn { session: usize, mapping: usize, url: String, name: String },
    /// Store the fresh token in the session, which keeps its address and its
    /// device and carries no token of the device.
    Store {
        user_id: String,
        server_url: String,
        device: ClientInfo,
        token: Option<String>,
        access_token: String,
        remote_user_id: String,
    },
}

/// What performing a refresh step gave.
#[derive(Debug, Clone)]
pub enum RefreshReply {
    SignedIn { token: String, user_id: String },
    Stored,
    Failed,
}

/// The token and user id of a sign-in.
pub open spec fn token_view(t: Option<(String, String)>) -> Option<(Seq<char>, Seq<char>)> {
    match t {
        Some((token, user_id)) => Some((token@, user_id@)),
        None => None,
    }
}

/// The data in a [`RefreshStep`].
pub enum RefreshStepView {
    SignIn { session: int, mapping: int, url: Seq<char>, name: Seq<char> },
    Store {
        user_id: Seq<char>,
        server_url: Seq<char>,
        device: ClientInfoView,
        token: Option<Seq<char>>,
        access_token: Seq<char>,
        remote_user_id: Seq<char>,
    },
}

/// The data in a step.
pub open spec fn refresh_step_view(s: RefreshStep) -> RefreshStepView {
    match s {
        RefreshStep::SignIn { session, mapping, url, name } => RefreshStepView::SignIn {
            session: session as int,
            mapping: mapping as int,
            url: url@,
            name: name@,
        },
        RefreshStep::Store {
            user_id,
            server_url,
            device,
            token,
            access_token,
            remote_user_id,
        } => RefreshStepView::Store {
            user_id: user_id@,
            server_url: server_url@,
            device: device@,
            token: json::opt_text(token),
            access_token: access_token@,
            remote_user_id: remote_user_id@,
        },
    }
}

/// The data in a [`RefreshReply`].
pub enum RefreshReplyView {
    SignedIn { token: Seq<char>, user_id: Seq<char> },
    Stored,
    Failed,
}

/// The data in a reply.
pub open spec fn refresh_reply_view(r: RefreshReply) -> RefreshReplyView {
    match r {
        RefreshReply::SignedIn { token, user_id } => RefreshReplyView::SignedIn {
            token: token@,
            user_id: user_id@,
        },
        RefreshReply::Stored => RefreshReplyView::Stored,
        RefreshReply::Failed => RefreshReplyView::Failed,
    }
}

/// Renewing the tokens of a user's sessions, signing in to each backend once.
pub struct SessionRefresh {
    user_id: String,
    sessions: Vec<OpenSession>,
    mappings: Vec<(String, String)>,
    position: usize,
    attempts: StringHashMap<Option<(String, String)>>,
    refreshed: usize,
}

/// The state of a refresh: the user, their sessions, their mappings as server
/// address and name, the session at hand, what signing in to each backend gave,
/// and how many sessions were renewed.
pub struct RefreshView {
    pub user_id: Seq<char>,
    pub sessions: Seq<OpenSessionView>,
    pub mappings: Seq<(Seq<char>, Seq<char>)>,
    pub position: int,
    pub attempts: Map<Seq<char>, Option<(Seq<char>, Seq<char>)>>,
    pub refreshed: int,
}

/// The server addresses of mappings.
pub open spec fn addresses(mappings: Seq<(Seq<char>, Seq<char>)>) -> Seq<Seq<char>> {
    mappings.map_values(|m: (Seq<char>, Seq<char>)| m.0)
}

/// Finds the first mapping of the same server.
fn find_mapping(mappings: &Vec<(String, String)>, url: &str) -> (r: Option<usize>)
    ensures
        match r {
            Some(i) => i < mappings.len() && place_of_server(
                addresses(mapping_views(mappings@)),
                url@,
            ) == Some(i as int),
            None => place_of_server(addresses(mapping_views(mappings@)), url@) is None,
        },
{
    let ghost all = addresses(mapping_views(mappings@));
    let key = text::trim_end_char(url, '/');
    for i in 0..mappings.len()
        invariant
            all == addresses(mapping_views(mappings@)),
            key@ == server_key(url@),
            place_of_server(all.take(i as int), url@) is None,
    {
        assert(all.take(i + 1).drop_last() =~= all.take(i as int));
        assert(all.take(i + 1).last() == mappings[i as int].0@);
        if text::str_eq(text::trim_end_char(mappings[i].0.as_str(), '/').as_str(), key.as_str()) {
            proof {
                place_in_prefix(all, url@, i + 1);
            }
            return Some(i);
        }
    }
    assert(all.take(mappings.len() as int) =~= all);
    None
}

/// Whether there is nothing to do for the session at a position: signing in
/// to its backend failed before, or no mapping tells how.
pub open spec fn nothing_to_do(v: RefreshView, position: int) -> bool {
    let key = server_key(v.sessions[position].url);
    if v.attempts.contains_key(key) {
        v.attempts[key] is None
    } else {
        place_of_server(addresses(v.mappings), v.sessions[position].url) is None
    }
}

/// The first session from `position` on for which there is something to do.
pub open spec fn next_session(v: RefreshView, position: int) -> int
    decreases v.sessions.len() - position,
{
    if position < 0 || position >= v.sessions.len() || !nothing_to_do(v, position) {
        position
    } else {
        next_session(v, position + 1)
    }
}

/// The state with the position moved to the next session at or after it.
pub open spec fn settled(v: RefreshView, position: int) -> RefreshView {
    RefreshView { position: next_session(v, position), ..v }
}

/// Before anything was done.
pub open spec fn refresh_start(
    user_id: Seq<char>,
    sessions: Seq<OpenSessionView>,
    mappings: Seq<(Seq<char>, Seq<char>)>,
) -> RefreshView {
    settled(
        RefreshView {
            user_id,
            sessions,
            mappings,
            position: 0,
            attempts: Map::empty(),
            refreshed: 0,
        },
        0,
    )
}

/// What is to be done next.
pub open spec fn refresh_pending(v: RefreshView) -> Option<RefreshStepView> {
    if v.position >= v.sessions.len() {
        None
    } else {
        let session = v.sessions[v.position];
        let key = server_key(session.url);
        if v.attempts.contains_key(key) {
            match v.attempts[key] {
                Some((access_token, remote_user_id)) => Some(
                    RefreshStepView::Store {
                        user_id: v.user_id,
                        server_url: session.server_url,
                        device: session.device,
                        token: None,
                        access_token,
                        remote_user_id,
                    },
                ),
                None => None,
            }
        } else {
            match place_of_server(addresses(v.mappings), session.url) {
                Some(mapping) => Some(
                    RefreshStepView::SignIn {
                        session: v.position,
                        mapping,
                        url: session.url,
                        name: v.mappings[mapping].1,
                    },
                ),
                None => None,
            }
        }
    }
}

/// After a reply to the pending step.
pub open spec fn refresh_advanced(v: RefreshView, reply: RefreshReplyView) -> RefreshView {
    match refresh_pending(v) {
        None => v,
        Some(RefreshStepView::SignIn { .. }) => {
            let given = match reply {
                RefreshReplyView::SignedIn { token, user_id } => Some((token, user_id)),
                _ => None,
            };
            let w = RefreshView {
                attempts: v.attempts.insert(server_key(v.sessions[v.position].url), given),
                ..v
            };
            settled(w, v.position)
        },
        Some(RefreshStepView::Store { .. }) => settled(
            RefreshView {
                refreshed: if reply is Stored {
                    v.refreshed + 1
                } else {
                    v.refreshed
                },
                ..v
            },
            v.position + 1,
        ),
    }
}

impl View for SessionRefresh {
    type V = RefreshView;

    closed spec fn view(&self) -> RefreshView {
        RefreshView {
            user_id: self.user_id@,
            sessions: session_views(self.sessions@),
            mappings: mapping_views(self.mappings@),
            position: self.position as int,
            attempts: self.attempts@.map_values(|t: Option<(String, String)>| token_view(t)),
            refreshed: self.refreshed as int,
        }
    }
}

impl SessionRefresh {
    /// The renewed sessions are among those left behind.
    pub closed spec fn well_formed(self) -> bool {
        self.refreshed <= self.position <= self.sessions.len()
    }

    /// Moves on to the next session, from `position` on, for which there is
    /// something to do.
    fn settle(&mut self, position: usize)
        requires
            position <= old(self).sessions.len(),
            old(self).refreshed <= position,
        ensures
            final(self)@ == settled(old(self)@, position as int),
            final(self).well_formed(),
    {
        let mut p: usize = position;
        let ghost start = self@;
        while p < self.sessions.len()
            invariant_except_break
                next_session(start, p as int) == next_session(start, position as int),
            invariant
                position <= p <= self.sessions.len(),
                self@ == start,
                *self == *old(self),
            ensures
                p as int == next_session(start, position as int),
            decreases self.sessions.len() - p,
        {
            let key = text::trim_end_char(self.sessions[p].url.as_str(), '/');
            let idle = match self.attempts.get(key.as_str()) {
                Some(given) => given.is_none(),
                None => find_mapping(&self.mappings, self.sessions[p].url.as_str()).is_none(),
            };
            assert(idle == nothing_to_do(start, p as int));
            if !idle {
                break;
            }
            p = p + 1;
        }
        self.position = p;
    }

    /// What is to be done next; `None` when every session is done.
    pub fn pending(&self) -> (r: Option<RefreshStep>)
        ensures
            match r {
                Some(s) => refresh_pending(self@) == Some(refresh_step_view(s)),
                None => refresh_pending(self@) is None,
            },
    {
        if self.position >= self.sessions.len() {
            return None;
        }
        let session = &self.sessions[self.position];
        let key = text::trim_end_char(session.url.as_str(), '/');
        match self.attempts.get(key.as_str()) {
            Some(Some((token, user_id))) => Some(
                RefreshStep::Store {
                    user_id: self.user_id.clone(),
                    server_url: session.server_url.clone(),
                    device: copied(&session.device),
                    token: None,
                    access_token: token.clone(),
                    remote_user_id: user_id.clone(),
                },
            ),
            Some(None) => None,
            None => match find_mapping(&self.mappings, session.url.as_str()) {
                Some(mapping) => Some(
                    RefreshStep::SignIn {
                        session: self.position,
                        mapping,
                        url: session.url.clone(),
                        name: self.mappings[mapping].1.clone(),
                    },
                ),
                None => None,
            },
        }
    }

    /// Takes the reply to the pending step.
    pub fn reply(&mut self, reply: RefreshReply)
        requires
            old(self).well_formed(),
        ensures
            final(self).well_formed(),
            final(self)@ == refresh_advanced(old(self)@, refresh_reply_view(reply)),
    {
        let ghost before = self@;
        match self.pending() {
            None => {},
            Some(RefreshStep::SignIn { .. }) => {
                let key = text::trim_end_char(self.sessions[self.position].url.as_str(), '/');
                let given = match reply {
                    RefreshReply::SignedIn { token, user_id } => Some((token, user_id)),
                    _ => None,
                };
                let ghost g = token_view(given);
                self.attempts.insert(key, given);
                assert(self@.attempts =~= before.attempts.insert(key@, g));
                let position = self.position;
                self.settle(position);
            },
            Some(RefreshStep::Store { .. }) => {
                if let RefreshReply::Stored = reply {
                    self.refreshed = self.refreshed + 1;
                }
                let position = self.position + 1;
                self.settle(position);
            },
        }
    }

    /// How many sessions were renewed.
    pub fn refreshed(&self) -> (r: usize)
        ensures
            r == self@.refreshed,
    {
        self.refreshed
    }
}

impl FederatedUserService {
    /// Opens backend sessions for a device of the user from the user's
    /// mappings. A mapping is a server's address and the name that the user has
    /// there. One whose server is not among the configured addresses is passed
    /// over.
    pub fn ensure_device_sessions(
        user_id: String,
        device: ClientInfo,
        mappings: Vec<(String, String)>,
        servers: Vec<String>,
    ) -> (r: DeviceSessions)
        ensures
            r@ == device_start(
                user_id@,
                device@,
                mapping_views(mappings@),
                text::texts(servers@),
            ),
    {
        let position = skip_unmapped(&mappings, &servers, 0);
        proof {
            next_mapped_is_mapped(mapping_views(mappings@), text::texts(servers@), 0);
        }
        DeviceSessions {
            user_id,
            device,
            mappings,
            servers,
            position,
            step: SessionStep::Client,
            signed_in: None,
            created: 0,
        }
    }

    /// Renews the tokens of a user's sessions in place: each backend is signed
    /// in to once, and all of the user's sessions there get the fresh token. A
    /// mapping is a server's address and the name that the user has there.
    pub fn refresh_user_sessions(
        user_id: String,
        sessions: Vec<OpenSession>,
        mappings: Vec<(String, String)>,
    ) -> (r: SessionRefresh)
        ensures
            r.well_formed(),
            r@ == refresh_start(user_id@, session_views(sessions@), mapping_views(mappings@)),
    {
        let mut r = SessionRefresh {
            user_id,
            sessions,
            mappings,
            position: 0,
            attempts: StringHashMap::new(),
            refreshed: 0,
        };
        assert(r@.attempts =~= Map::<Seq<char>, Option<(Seq<char>, Seq<char>)>>::empty());
        r.settle(0);
        r
    }
}

/// The state after a list of replies.
pub open spec fn refresh_after(v: RefreshView, replies: Seq<RefreshReplyView>) -> RefreshView
    decreases replies.len(),
{
    if replies.len() == 0 {
        v
    } else {
        refresh_advanced(refresh_after(v, replies.drop_last()), replies.last())
    }
}

/// The backend that the pending step signs in to.
pub open spec fn signing_in_to(v: RefreshView) -> Option<Seq<char>> {
    match refresh_pending(v) {
        Some(RefreshStepView::SignIn { .. }) => Some(server_key(v.sessions[v.position].url)),
        _ => None,
    }
}

proof fn attempts_are_kept(
    v: RefreshView,
    replies: Seq<RefreshReplyView>,
    n: int,
    key: Seq<char>,
)
    requires
        0 <= n <= replies.len(),
        refresh_after(v, replies.take(n)).attempts.contains_key(key),
    ensures
        refresh_after(v, replies).attempts.contains_key(key),
    decreases replies.len(),
{
    if n == replies.len() {
        assert(replies.take(n) =~= replies);
    } else {
        assert(replies.drop_last().take(n) =~= replies.take(n));
        attempts_are_kept(v, replies.drop_last(), n, key);
    }
}

/// Each backend is signed in to at most once in a refresh, whatever the
/// replies are: a later step never signs in to the same backend again, not
/// even after a failure.
pub proof fn each_backend_is_signed_in_to_once(
    v: RefreshView,
    replies: Seq<RefreshReplyView>,
    n: int,
)
    requires
        0 <= n < replies.len(),
        signing_in_to(refresh_after(v, replies.take(n))) is Some,
    ensures
        signing_in_to(refresh_after(v, replies)) != signing_in_to(
            refresh_after(v, replies.take(n)),
        ),
{
    let at = refresh_after(v, replies.take(n));
    let key = signing_in_to(at)->0;
    assert(replies.take(n + 1).drop_last() =~= replies.take(n));
    assert(refresh_after(v, replies.take(n + 1)).attempts.contains_key(key));
    attempts_are_kept(v, replies, n + 1, key);
}

/// Every session of a backend that was signed in to is offered the token of
/// that one sign-in, and is otherwise stored as it was: for the same user,
/// under the same address, for the same device.
pub proof fn sessions_share_the_fresh_token(v: RefreshView)
    ensures
        refresh_pending(v) matches Some(
            RefreshStepView::Store {
                user_id,
                server_url,
                device,
                token,
                access_token,
                remote_user_id,
            },
        ) ==> {
            let session = v.sessions[v.position];
            &&& v.attempts.contains_key(server_key(session.url))
            &&& v.attempts[server_key(session.url)] == Some((access_token, remote_user_id))
            &&& user_id == v.user_id && server_url == session.server_url
            &&& device == session.device && token is None
        },
{
}

/// Two addresses are of one server exactly where they are the same but for
/// slashes at the end.
pub proof fn servers_are_told_apart_up_to_slashes(a: Seq<char>, b: Seq<char>)
    ensures
        server_key(a).len() <= a.len(),
        server_key(a) == a.take(server_key(a).len() as int),
        server_key(a).len() > 0 ==> server_key(a).last() != '/',
        forall|i: int| server_key(a).len() <= i < a.len() ==> #[trigger] a[i] == '/',
        server_key(a.push('/')) == server_key(a),
        !(a.len() > 0 && a.last() == '/') && !(b.len() > 0 && b.last() == '/') ==> (server_key(a)
            == server_key(b) <==> a == b),
{
    text::only_the_trailing_character_goes(a, '/');
    assert(a.push('/').drop_last() =~= a);
}

/// Whether the place is that of the first address of the server.
pub open spec fn is_first_of_server(urls: Seq<Seq<char>>, url: Seq<char>, i: int) -> bool {
    &&& 0 <= i < urls.len()
    &&& server_key(urls[i]) == server_key(url)
    &&& forall|j: int| 0 <= j < i ==> server_key(#[trigger] urls[j]) != server_key(url)
}

/// The first address of a server is the one that is found.
pub proof fn the_first_address_of_a_server_counts(urls: Seq<Seq<char>>, url: Seq<char>, i: int)
    ensures
        place_of_server(urls, url) == Some(i) <==> is_first_of_server(urls, url, i),
    decreases urls.len(),
{
    place_is_of_server(urls, url);
    if urls.len() > 0 {
        let head = urls.drop_last();
        let n = urls.len() - 1;
        the_first_address_of_a_server_counts(head, url, i);
        place_is_of_server(head, url);
        assert forall|j: int| 0 <= j < n implies #[trigger] urls[j] == head[j] by {}
        if is_first_of_server(urls, url, i) && i < n {
            assert forall|j: int| 0 <= j < i implies server_key(#[trigger] head[j]) != server_key(
                url,
            ) by {
                assert(urls[j] == head[j]);
            }
            assert(is_first_of_server(head, url, i));
        }
        if is_first_of_server(urls, url, i) && i == n {
            if let Some(k) = place_of_server(head, url) {
                assert(server_key(urls[k]) != server_key(url));
            }
        }
        if place_of_server(urls, url) == Some(i) {
            if place_of_server(head, url) is Some {
                assert(is_first_of_server(head, url, i));
                assert forall|j: int| 0 <= j < i implies server_key(#[trigger] urls[j])
                    != server_key(url) by {
                    assert(urls[j] == head[j]);
                }
            } else {
                assert forall|j: int| 0 <= j < i implies server_key(#[trigger] urls[j])
                    != server_key(url) by {
                    assert(urls[j] == head[j]);
                }
            }
        }
    }
}

/// Whether some configured server is the one of the address.
pub open spec fn is_configured(servers: Seq<Seq<char>>, url: Seq<char>) -> bool {
    exists|i: int| 0 <= i < servers.len() && server_key(#[trigger] servers[i]) == server_key(url)
}

proof fn passed_mappings_are_unmapped(
    mappings: Seq<(Seq<char>, Seq<char>)>,
    servers: Seq<Seq<char>>,
    position: int,
)
    requires
        0 <= position <= mappings.len(),
    ensures
        ({
            let next = next_mapped(mappings, servers, position);
            &&& position <= next <= mappings.len()
            &&& next < mappings.len() ==> is_configured(servers, mappings[next].0)
            &&& forall|k: int|
                position <= k < next ==> !is_configured(servers, (#[trigger] mappings[k]).0)
        }),
    decreases mappings.len() - position,
{
    if position < mappings.len() {
        place_is_of_server(servers, mappings[position].0);
        if place_of_server(servers, mappings[position].0) is None {
            passed_mappings_are_unmapped(mappings, servers, position + 1);
        }
    }
}

/// No mapping of a configured server is passed over: opening sessions begins
/// with the first such mapping, and goes on to the next one whatever came of
/// the one at hand.
pub proof fn no_configured_server_is_passed_over(
    user_id: Seq<char>,
    device: ClientInfoView,
    mappings: Seq<(Seq<char>, Seq<char>)>,
    servers: Seq<Seq<char>>,
    v: DeviceSessionsView,
    reply: DeviceReplyView,
)
    requires
        0 <= v.position <= v.mappings.len(),
    ensures
        ({
            let start = device_start(user_id, device, mappings, servers);
            &&& 0 <= start.position <= mappings.len()
            &&& start.position < mappings.len() ==> is_configured(
                servers,
                mappings[start.position].0,
            )
            &&& forall|k: int|
                0 <= k < start.position ==> !is_configured(servers, (#[trigger] mappings[k]).0)
            &&& start.step == SessionStep::Client && start.created == 0
        }),
        ({
            let after = device_advanced(v, reply);
            &&& after.position == v.position || after.position > v.position && after.step
                == SessionStep::Client && after.signed_in is None
            &&& after.position < v.mappings.len() && after.position != v.position
                ==> is_configured(v.servers, v.mappings[after.position].0)
            &&& forall|k: int|
                v.position < k < after.position ==> !is_configured(
                    v.servers,
                    (#[trigger] v.mappings[k]).0,
                )
        }),
{
    passed_mappings_are_unmapped(mappings, servers, 0);
    if v.position < v.mappings.len() {
        passed_mappings_are_unmapped(v.mappings, v.servers, v.position + 1);
    }
}

/// What a mapping is taken through: a client, the sign-in and the storing of the
/// session, which alone counts one session more. Any other reply leaves the
/// mapping.
pub proof fn mappings_are_taken_step_by_step(v: DeviceSessionsView, reply: DeviceReplyView)
    requires
        0 <= v.position < v.mappings.len(),
    ensures
        ({
            let after = device_advanced(v, reply);
            let stays = after.position == v.position;
            &&& stays && after.step == SessionStep::SignIn <==> v.step == SessionStep::Client
                && reply is Done
            &&& stays && after.step == SessionStep::Store <==> v.step == SessionStep::SignIn
                && reply is SignedIn
            &&& v.step == SessionStep::SignIn && reply is SignedIn ==> after.signed_in == Some(
                (reply->access_token, reply->user_id),
            )
            &&& after.created == v.created + if v.step == SessionStep::Store && reply is Done {
                1int
            } else {
                0
            }
            &&& !stays <==> !(v.step == SessionStep::Client && reply is Done) && !(v.step
                == SessionStep::SignIn && reply is SignedIn)
        }),
{
    passed_mappings_are_unmapped(v.mappings, v.servers, v.position + 1);
}

/// Whether there is a mapping of the server that a session is on.
pub open spec fn is_mapped(v: RefreshView, position: int) -> bool {
    exists|i: int|
        0 <= i < v.mappings.len() && server_key((#[trigger] v.mappings[i]).0) == server_key(
            v.sessions[position].url,
        )
}

proof fn nothing_to_do_without_mapping_or_token(v: RefreshView, position: int)
    ensures
        ({
            let key = server_key(v.sessions[position].url);
            nothing_to_do(v, position) <==> (v.attempts.contains_key(key) && v.attempts[key] is None)
                || (!v.attempts.contains_key(key) && !is_mapped(v, position))
        }),
{
    let url = v.sessions[position].url;
    let urls = addresses(v.mappings);
    place_is_of_server(urls, url);
    if let Some(i) = place_of_server(urls, url) {
        assert(server_key(v.mappings[i].0) == server_key(url));
    } else if is_mapped(v, position) {
        let i = choose|i: int|
            0 <= i < v.mappings.len() && server_key((#[trigger] v.mappings[i]).0) == server_key(url);
        assert(urls[i] == v.mappings[i].0);
    }
}

proof fn passed_sessions_have_nothing_to_do(v: RefreshView, position: int)
    requires
        0 <= position <= v.sessions.len(),
    ensures
        ({
            let next = next_session(v, position);
            &&& position <= next <= v.sessions.len()
            &&& next < v.sessions.len() ==> !nothing_to_do(v, next)
            &&& forall|k: int| position <= k < next ==> #[trigger] nothing_to_do(v, k)
        }),
    decreases v.sessions.len() - position,
{
    if position < v.sessions.len() && nothing_to_do(v, position) {
        passed_sessions_have_nothing_to_do(v, position + 1);
    }
}

/// A session is passed over only where signing in to its backend failed before,
/// or where nothing was tried there and no mapping is of its server; where the
/// refresh stands there is something to do.
pub proof fn sessions_are_passed_over_for_a_reason(v: RefreshView, from: int, k: int)
    requires
        0 <= from <= v.sessions.len(),
    ensures
        ({
            let after = settled(v, from);
            let key = |i: int| server_key(v.sessions[i].url);
            let idle = |i: int|
                (v.attempts.contains_key(key(i)) && v.attempts[key(i)] is None) || (
                !v.attempts.contains_key(key(i)) && !is_mapped(v, i));
            &&& after.sessions == v.sessions && after.mappings == v.mappings && after.attempts
                == v.attempts && after.refreshed == v.refreshed
            &&& from <= after.position <= v.sessions.len()
            &&& after.position < v.sessions.len() ==> !idle(after.position)
            &&& from <= k < after.position ==> idle(k)
        }),
{
    passed_sessions_have_nothing_to_do(v, from);
    nothing_to_do_without_mapping_or_token(v, k);
    nothing_to_do_without_mapping_or_token(v, next_session(v, from));
    if from <= k < next_session(v, from) {
        assert(nothing_to_do(v, k));
    }
}

/// What is done for the session at hand: it is stored with the token of the one
/// sign-in to its backend, where there was one; where none was tried, its
/// backend is signed in to under the name of the first mapping of its server.
pub proof fn sessions_are_stored_once_signed_in(v: RefreshView, i: int)
    requires
        0 <= v.position < v.sessions.len(),
    ensures
        ({
            let session = v.sessions[v.position];
            let key = server_key(session.url);
            &&& v.attempts.contains_key(key) && v.attempts[key] is Some ==> refresh_pending(v)
                is Some && refresh_pending(v)->0 is Store
            &&& v.attempts.contains_key(key) && v.attempts[key] is None ==> refresh_pending(v)
                is None
            &&& !v.attempts.contains_key(key) && is_first_of_server(
                addresses(v.mappings),
                session.url,
                i,
            ) ==> refresh_pending(v) == Some(
                RefreshStepView::SignIn {
                    session: v.position,
                    mapping: i,
                    url: session.url,
                    name: v.mappings[i].1,
                },
            )
            &&& !v.attempts.contains_key(key) && !is_mapped(v, v.position) ==> refresh_pending(v)
                is None
        }),
{
    the_first_address_of_a_server_counts(addresses(v.mappings), v.sessions[v.position].url, i);
    nothing_to_do_without_mapping_or_token(v, v.position);
}

/// What a reply changes: a sign-in is put on record for its backend alone, and
/// the same session is looked at again; a stored session counts as renewed
/// exactly where it was stored, and the refresh goes on behind it.
pub proof fn replies_are_put_on_record(v: RefreshView, reply: RefreshReplyView)
    requires
        0 <= v.position < v.sessions.len(),
        refresh_pending(v) is Some,
    ensures
        ({
            let after = refresh_advanced(v, reply);
            let key = server_key(v.sessions[v.position].url);
            &&& refresh_pending(v)->0 is SignIn ==> {
                &&& after.refreshed == v.refreshed
                &&& after.attempts == v.attempts.insert(
                    key,
                    if reply is SignedIn {
                        Some((reply->token, reply->user_id))
                    } else {
                        None
                    },
                )
                &&& reply is SignedIn ==> after.position == v.position
                &&& !(reply is SignedIn) ==> after.position > v.position
            }
            &&& refresh_pending(v)->0 is Store ==> {
                &&& after.attempts == v.attempts
                &&& after.position > v.position
                &&& after.refreshed == v.refreshed + if reply is Stored {
                    1int
                } else {
                    0
                }
            }
        }),
{
    let key = server_key(v.sessions[v.position].url);
    if refresh_pending(v)->0 is SignIn {
        let given = match reply {
            RefreshReplyView::SignedIn { token, user_id } => Some((token, user_id)),
            _ => None,
        };
        let w = RefreshView { attempts: v.attempts.insert(key, given), ..v };
        passed_sessions_have_nothing_to_do(w, v.position);
        nothing_to_do_without_mapping_or_token(w, v.position);
        if reply is SignedIn {
            assert(!nothing_to_do(w, v.position));
        } else {
            assert(nothing_to_do(w, v.position));
        }
    } else {
        let w = RefreshView {
            refreshed: if reply is Stored {
                v.refreshed + 1
            } else {
                v.refreshed
            },
            ..v
        };
        passed_sessions_have_nothing_to_do(w, v.position + 1);
    }
}

/// A refresh begins with the first session of whose server there is a mapping;
/// nothing was tried and nothing refreshed before.
pub proof fn refreshes_begin_with_the_first_mapped_session(
    user_id: Seq<char>,
    sessions: Seq<OpenSessionView>,
    mappings: Seq<(Seq<char>, Seq<char>)>,
    k: int,
)
    ensures
        ({
            let v = refresh_start(user_id, sessions, mappings);
            let mapped = |i: int|
                exists|j: int|
                    0 <= j < mappings.len() && server_key((#[trigger] mappings[j]).0) == server_key(
                        sessions[i].url,
                    );
            &&& v.user_id == user_id && v.sessions == sessions && v.mappings == mappings
            &&& v.attempts == Map::<Seq<char>, Option<(Seq<char>, Seq<char>)>>::empty()
            &&& v.refreshed == 0
            &&& 0 <= v.position <= sessions.len()
            &&& v.position < sessions.len() ==> mapped(v.position)
            &&& 0 <= k < v.position ==> !mapped(k)
        }),
{
    let before = RefreshView {
        user_id,
        sessions,
        mappings,
        position: 0,
        attempts: Map::empty(),
        refreshed: 0,
    };
    sessions_are_passed_over_for_a_reason(before, 0, k);
}

}
