//! Keeping one user's accounts on every backend: creating, provisioning and
//! deleting them, and keeping backend sessions alive.
//!
//! Each task walks the servers one by one. A run says which [`Step`] is to be
//! performed on which server; the caller performs it and hands back a
//! [`Reply`], until no step is left.
use vstd::prelude::*;
use vstd::string::*;

use crate::client::{ClientInfo, ClientInfoView};
use crate::device_sessions;
use crate::json;
use crate::text;

verus! {

/// What became of a user on one server.
#[derive(Debug, Clone, Copy, PartialEq, Eq, Structural)]
pub enum SyncStatus {
    Created,
    AlreadyExists,
    ExistsWithDifferentPassword,
    Failed,
    Skipped,
    Deleted,
    NotFound,
}

/// What a run has to say of one server.
#[derive(Debug, Clone)]
pub struct ServerSyncResult {
    pub server_name: String,
    pub status: SyncStatus,
    pub message: Option<String>,
}

/// The data in a [`ServerSyncResult`].
pub struct ResultView {
    pub server_name: Seq<char>,
    pub status: SyncStatus,
    pub message: Option<Seq<char>>,
}

/// The data in a list of results.
pub open spec fn result_views(results: Seq<ServerSyncResult>) -> Seq<ResultView> {
    results.map_values(
        |r: ServerSyncResult|
            (ResultView {
                server_name: r.server_name@,
                status: r.status,
                message: json::opt_text(r.message),
            }),
    )
}

/// What is done with the user on every server.
#[derive(Debug, Clone, Copy, PartialEq, Eq, Structural)]
pub enum Task {
    /// Create the account where it is missing; never touch an existing one.
    Sync,
    /// Create the account of a single sign-on user and open a session.
    Provision,
    /// Delete the account.
    Delete,
}

/// The key under which a stored backend password is encrypted.
#[derive(Debug, Clone, Copy, PartialEq, Eq, Structural)]
pub enum MappingKey {
    UserPassword,
    MasterKey,
}

/// Single sign-on logins carry no password, so their mappings are encrypted
/// under the master key; others under the user's own password.
pub open spec fn mapping_key_of(task: Task) -> MappingKey {
    if task == Task::Provision {
        MappingKey::MasterKey
    } else {
        MappingKey::UserPassword
    }
}

/// The key under which the mappings of a task are encrypted.
pub fn mapping_key(task: Task) -> (r: MappingKey)
    ensures
        r == mapping_key_of(task),
{
    match task {
        Task::Provision => MappingKey::MasterKey,
        _ => MappingKey::UserPassword,
    }
}

/// The device under which the first session of a single sign-on user is stored.
pub open spec fn sso_device_of(user_id: Seq<char>, version: Seq<char>) -> ClientInfoView {
    ClientInfoView {
        client: "Jellyswarrm SSO"@,
        device: "Web"@,
        device_id: "sso-"@ + user_id,
        version,
    }
}

/// The device under which the first session of a single sign-on user is stored.
pub fn sso_device(user_id: &str, version: &str) -> (r: ClientInfo)
    ensures
        r@ == sso_device_of(user_id@, version@),
{
    ClientInfo {
        client: "Jellyswarrm SSO".to_owned(),
        device: "Web".to_owned(),
        device_id: "sso-".to_owned().concat(user_id),
        version: version.to_owned(),
    }
}

/// What is to be done next on the current server.
#[derive(Debug, Clone, Copy, PartialEq, Eq, Structural)]
pub enum Step {
    /// Look up the admin credentials of the server.
    AdminCredentials,
    /// Decrypt the admin password.
    AdminPassword,
    /// Build a client for the server.
    AdminClient,
    /// Sign in as the admin.
    AdminSignIn,
    /// List the accounts of the server.
    ListUsers,
    /// Create the account with the task's password.
    CreateUser,
    /// Ask whether a mapping of this user and server is stored already.
    CheckMapping { existed: bool },
    /// Build a client for signing in as the user.
    UserClient { existed: bool, managed: bool },
    /// Sign in as the user with the task's password.
    UserSignIn { existed: bool, managed: bool, reset: bool },
    /// Set the password of the existing account.
    ResetPassword,
    /// Store the mapping of the user and the server.
    SaveMapping { existed: bool },
    /// Store the session that the sign-in gave.
    StoreSession,
    /// Delete the account.
    DeleteUser,
}

/// An account on a backend.
#[derive(Debug, Clone)]
pub struct RemoteUser {
    pub id: String,
    pub name: String,
}

/// What performing a step gave.
#[derive(Debug, Clone)]
pub enum Reply {
    /// It worked; what was asked for is there.
    Done,
    /// It worked; what was asked for is not there.
    Absent,
    /// The accounts of the server.
    Users(Vec<RemoteUser>),
    /// The token and the user id that signing in as the user gave.
    SignedIn { access_token: String, user_id: String },
    /// It failed, with the error's text.
    Failed(String),
}

/// The data in a [`Reply`]; an account is a pair of id and name.
pub enum ReplyView {
    Done,
    Absent,
    Users(Seq<(Seq<char>, Seq<char>)>),
    SignedIn { access_token: Seq<char>, user_id: Seq<char> },
    Failed(Seq<char>),
}

/// The ids and names of accounts.
pub open spec fn accounts(users: Seq<RemoteUser>) -> Seq<(Seq<char>, Seq<char>)> {
    users.map_values(|u: RemoteUser| (u.id@, u.name@))
}

/// The data in a reply.
pub open spec fn reply_view(r: Reply) -> ReplyView {
    match r {
        Reply::Done => ReplyView::Done,
        Reply::Absent => ReplyView::Absent,
        Reply::Users(users) => ReplyView::Users(accounts(users@)),
        Reply::SignedIn { access_token, user_id } => ReplyView::SignedIn {
            access_token: access_token@,
            user_id: user_id@,
        },
        Reply::Failed(e) => ReplyView::Failed(e@),
    }
}

/// The id of the first account with the name, letter case aside.
pub open spec fn account_named(
    users: Seq<(Seq<char>, Seq<char>)>,
    username: Seq<char>,
) -> Option<Seq<char>>
    decreases users.len(),
{
    if users.len() == 0 {
        None
    } else {
        match account_named(users.drop_last(), username) {
            Some(id) => Some(id),
            None => if text::same_ignoring_case(users.last().1, username) {
                Some(users.last().0)
            } else {
                None
            },
        }
    }
}

proof fn account_named_in_prefix(
    users: Seq<(Seq<char>, Seq<char>)>,
    username: Seq<char>,
    n: int,
)
    requires
        0 <= n <= users.len(),
        account_named(users.take(n), username) is Some,
    ensures
        account_named(users, username) == account_named(users.take(n), username),
    decreases users.len(),
{
    if n == users.len() {
        assert(users.take(n) =~= users);
    } else {
        assert(users.drop_last().take(n) =~= users.take(n));
        account_named_in_prefix(users.drop_last(), username, n);
    }
}

/// Finds the account of the user among those of a server.
pub fn find_account(users: &Vec<RemoteUser>, username: &str) -> (r: Option<String>)
    ensures
        json::opt_text(r) == account_named(accounts(users@), username@),
        match r {
            Some(id) => exists|i: int|
                0 <= i < users.len() && (#[trigger] users[i]).id@ == id@ && text::letters_agree(
                    users[i].name@,
                    username@,
                ) && forall|j: int|
                    0 <= j < i ==> !text::letters_agree((#[trigger] users[j]).name@, username@),
            None => forall|i: int|
                0 <= i < users.len() ==> !text::letters_agree(
                    (#[trigger] users[i]).name@,
                    username@,
                ),
        },
{
    let ghost all = accounts(users@);
    for i in 0..users.len()
        invariant
            all == accounts(users@),
            account_named(all.take(i as int), username@) is None,
            forall|j: int|
                0 <= j < i ==> !text::letters_agree((#[trigger] users[j]).name@, username@),
    {
        proof {
            text::ignoring_case_is_letter_by_letter(users[i as int].name@, username@);
        }
        assert(all.take(i + 1).drop_last() =~= all.take(i as int));
        assert(all.take(i + 1).last() == (users[i as int].id@, users[i as int].name@));
        if text::eq_ignoring_case(users[i].name.as_str(), username) {
            proof {
                account_named_in_prefix(all, username@, i + 1);
            }
            return Some(users[i].id.clone());
        }
    }
    assert(all.take(users.len() as int) =~= all);
    None
}

/// Whether the account at a place is the first one with the name, letter for
/// letter, ASCII case aside.
pub open spec fn is_first_named(
    users: Seq<(Seq<char>, Seq<char>)>,
    username: Seq<char>,
    i: int,
) -> bool {
    &&& 0 <= i < users.len()
    &&& text::letters_agree(users[i].1, username)
    &&& forall|j: int| 0 <= j < i ==> !text::letters_agree((#[trigger] users[j]).1, username)
}

/// The account of a user is the first whose name is the user's, letter for
/// letter, ASCII case aside; a name that merely holds the user's is another
/// person's. There is none only where no account has the name.
pub proof fn accounts_are_found_by_the_whole_name(
    users: Seq<(Seq<char>, Seq<char>)>,
    username: Seq<char>,
)
    ensures
        match account_named(users, username) {
            Some(id) => exists|i: int|
                #![trigger users[i]]
                is_first_named(users, username, i) && users[i].0 == id,
            None => forall|i: int|
                0 <= i < users.len() ==> !text::letters_agree((#[trigger] users[i]).1, username),
        },
    decreases users.len(),
{
    if users.len() > 0 {
        let head = users.drop_last();
        accounts_are_found_by_the_whole_name(head, username);
        text::ignoring_case_is_letter_by_letter(users.last().1, username);
        let last = users.len() - 1;
        match account_named(head, username) {
            Some(id) => {
                let i = choose|i: int|
                    #![trigger head[i]]
                    is_first_named(head, username, i) && head[i].0 == id;
                assert(users[i] == head[i]);
                assert forall|j: int| 0 <= j < i implies !text::letters_agree(
                    (#[trigger] users[j]).1,
                    username,
                ) by {
                    assert(head[j] == users[j]);
                }
                assert(is_first_named(users, username, i));
            },
            None => {
                assert forall|j: int| 0 <= j < last implies !text::letters_agree(
                    (#[trigger] users[j]).1,
                    username,
                ) by {
                    assert(head[j] == users[j]);
                }
                if text::letters_agree(users[last].1, username) {
                    assert(is_first_named(users, username, last));
                }
            },
        }
    }
}

/// Where a reply leads: to another step on the same server, to the end of the
/// server with a result, or to its end without one.
pub enum OutcomeView {
    Go(Step),
    Finish(SyncStatus, Option<Seq<char>>),
    Silent,
}

/// A failure with the text of the error behind a heading.
pub open spec fn failure(heading: Seq<char>, e: Seq<char>) -> OutcomeView {
    OutcomeView::Finish(SyncStatus::Failed, Some(heading + e))
}

/// Where the list of accounts leads.
pub open spec fn outcome_of_listing(task: Task, found: bool) -> OutcomeView {
    match task {
        Task::Sync => if found {
            OutcomeView::Go(Step::UserClient { existed: true, managed: false })
        } else {
            OutcomeView::Go(Step::CreateUser)
        },
        Task::Provision => if found {
            OutcomeView::Go(Step::CheckMapping { existed: true })
        } else {
            OutcomeView::Go(Step::CreateUser)
        },
        Task::Delete => if found {
            OutcomeView::Go(Step::DeleteUser)
        } else {
            OutcomeView::Finish(SyncStatus::NotFound, None)
        },
    }
}

/// Where a failed sign-in as the user leads.
pub open spec fn outcome_of_refused_sign_in(
    task: Task,
    existed: bool,
    managed: bool,
    reset: bool,
) -> OutcomeView {
    if task == Task::Sync {
        OutcomeView::Finish(
            SyncStatus::ExistsWithDifferentPassword,
            Some("User exists with different password"@),
        )
    } else if existed && !reset && !managed {
        OutcomeView::Finish(
            SyncStatus::Skipped,
            Some("Username collides with a pre-existing backend account; not reset (safety)."@),
        )
    } else if existed && !reset {
        OutcomeView::Go(Step::ResetPassword)
    } else {
        OutcomeView::Finish(SyncStatus::Failed, Some("Could not establish backend session"@))
    }
}

/// Where a reply to a step leads.
pub open spec fn outcome(task: Task, username: Seq<char>, step: Step, reply: ReplyView) -> OutcomeView {
    match step {
        Step::AdminCredentials => match reply {
            ReplyView::Failed(e) => failure("Failed to get admin creds: "@, e),
            ReplyView::Absent => OutcomeView::Finish(
                SyncStatus::Skipped,
                Some("No admin credentials"@),
            ),
            _ => OutcomeView::Go(Step::AdminPassword),
        },
        Step::AdminPassword => match reply {
            ReplyView::Failed(_) => OutcomeView::Finish(
                SyncStatus::Failed,
                Some("Failed to decrypt admin password"@),
            ),
            _ => OutcomeView::Go(Step::AdminClient),
        },
        Step::AdminClient => match reply {
            ReplyView::Failed(e) => failure("Client error: "@, e),
            _ => OutcomeView::Go(Step::AdminSignIn),
        },
        Step::AdminSignIn => match reply {
            ReplyView::Failed(e) => failure("Admin auth failed: "@, e),
            _ => OutcomeView::Go(Step::ListUsers),
        },
        Step::ListUsers => match reply {
            ReplyView::Failed(e) => failure("Failed to list users: "@, e),
            ReplyView::Users(users) => outcome_of_listing(
                task,
                account_named(users, username) is Some,
            ),
            _ => outcome_of_listing(task, false),
        },
        Step::CreateUser => match reply {
            ReplyView::Failed(e) => if task == Task::Provision {
                failure("create_user failed: "@, e)
            } else {
                failure("Sync failed: "@, e)
            },
            _ => if task == Task::Provision {
                OutcomeView::Go(Step::CheckMapping { existed: false })
            } else {
                OutcomeView::Go(Step::SaveMapping { existed: false })
            },
        },
        Step::CheckMapping { existed } => OutcomeView::Go(
            Step::UserClient { existed, managed: reply is Done },
        ),
        Step::UserClient { existed, managed } => match reply {
            ReplyView::Failed(_) => OutcomeView::Silent,
            _ => OutcomeView::Go(Step::UserSignIn { existed, managed, reset: false }),
        },
        Step::UserSignIn { existed, managed, reset } => match reply {
            ReplyView::SignedIn { .. } => OutcomeView::Go(Step::SaveMapping { existed }),
            _ => outcome_of_refused_sign_in(task, existed, managed, reset),
        },
        Step::ResetPassword => match reply {
            ReplyView::Failed(_) => OutcomeView::Finish(
                SyncStatus::Failed,
                Some("Could not establish backend session"@),
            ),
            _ => OutcomeView::Go(Step::UserSignIn { existed: true, managed: true, reset: true }),
        },
        Step::SaveMapping { existed } => match reply {
            ReplyView::Failed(e) => if task == Task::Provision {
                failure("mapping failed: "@, e)
            } else {
                failure("Failed to save local mapping: "@, e)
            },
            _ => if task == Task::Provision {
                OutcomeView::Go(Step::StoreSession)
            } else if existed {
                OutcomeView::Finish(SyncStatus::AlreadyExists, None)
            } else {
                OutcomeView::Finish(SyncStatus::Created, None)
            },
        },
        Step::StoreSession => match reply {
            ReplyView::Failed(e) => failure("session store failed: "@, e),
            _ => OutcomeView::Finish(SyncStatus::Created, None),
        },
        Step::DeleteUser => match reply {
            ReplyView::Failed(e) => failure("Delete failed: "@, e),
            _ => OutcomeView::Finish(SyncStatus::Deleted, None),
        },
    }
}

/// The account that the current server was found to have.
pub open spec fn remote_after(
    username: Seq<char>,
    step: Step,
    reply: ReplyView,
    before: Option<Seq<char>>,
) -> Option<Seq<char>> {
    if step == Step::ListUsers {
        match reply {
            ReplyView::Users(users) => account_named(users, username),
            _ => None,
        }
    } else {
        before
    }
}

/// What signing in as the user on the current server gave.
pub open spec fn signed_in_after(
    step: Step,
    reply: ReplyView,
    before: Option<(Seq<char>, Seq<char>)>,
) -> Option<(Seq<char>, Seq<char>)> {
    match (step, reply) {
        (Step::UserSignIn { .. }, ReplyView::SignedIn { access_token, user_id }) => Some(
            (access_token, user_id),
        ),
        _ => before,
    }
}

/// Where a reply leads.
pub enum Outcome {
    Go(Step),
    Finish(SyncStatus, Option<String>),
    Silent,
}

/// The data in an outcome.
pub open spec fn outcome_view(o: Outcome) -> OutcomeView {
    match o {
        Outcome::Go(s) => OutcomeView::Go(s),
        Outcome::Finish(status, message) => OutcomeView::Finish(status, json::opt_text(message)),
        Outcome::Silent => OutcomeView::Silent,
    }
}

fn failed(heading: &str, e: &String) -> (r: Outcome)
    ensures
        outcome_view(r) == failure(heading@, e@),
{
    Outcome::Finish(SyncStatus::Failed, Some(heading.to_owned().concat(e.as_str())))
}

fn after_listing(task: Task, found: bool) -> (r: Outcome)
    ensures
        outcome_view(r) == outcome_of_listing(task, found),
{
    match task {
        Task::Sync => if found {
            Outcome::Go(Step::UserClient { existed: true, managed: false })
        } else {
            Outcome::Go(Step::CreateUser)
        },
        Task::Provision => if found {
            Outcome::Go(Step::CheckMapping { existed: true })
        } else {
            Outcome::Go(Step::CreateUser)
        },
        Task::Delete => if found {
            Outcome::Go(Step::DeleteUser)
        } else {
            Outcome::Finish(SyncStatus::NotFound, None)
        },
    }
}

fn after_refused_sign_in(task: Task, existed: bool, managed: bool, reset: bool) -> (r: Outcome)
    ensures
        outcome_view(r) == outcome_of_refused_sign_in(task, existed, managed, reset),
{
    if task == Task::Sync {
        Outcome::Finish(
            SyncStatus::ExistsWithDifferentPassword,
            Some("User exists with different password".to_owned()),
        )
    } else if existed && !reset && !managed {
        // The account was there before and is not ours: it belongs to a real
        // user of that backend, whose password is never reset.
        Outcome::Finish(
            SyncStatus::Skipped,
            Some(
                "Username collides with a pre-existing backend account; not reset (safety).".to_owned(),
            ),
        )
    } else if existed && !reset {
        Outcome::Go(Step::ResetPassword)
    } else {
        Outcome::Finish(
            SyncStatus::Failed,
            Some("Could not establish backend session".to_owned()),
        )
    }
}

/// Decides where a reply to a step leads.
pub fn decide(task: Task, username: &str, step: Step, reply: &Reply) -> (r: Outcome)
    ensures
        outcome_view(r) == outcome(task, username@, step, reply_view(*reply)),
{
    match step {
        Step::AdminCredentials => match reply {
            Reply::Failed(e) => failed("Failed to get admin creds: ", e),
            Reply::Absent => Outcome::Finish(
                SyncStatus::Skipped,
                Some("No admin credentials".to_owned()),
            ),
            _ => Outcome::Go(Step::AdminPassword),
        },
        Step::AdminPassword => match reply {
            Reply::Failed(_) => Outcome::Finish(
                SyncStatus::Failed,
                Some("Failed to decrypt admin password".to_owned()),
            ),
            _ => Outcome::Go(Step::AdminClient),
        },
        Step::AdminClient => match reply {
            Reply::Failed(e) => failed("Client error: ", e),
            _ => Outcome::Go(Step::AdminSignIn),
        },
        Step::AdminSignIn => match reply {
            Reply::Failed(e) => failed("Admin auth failed: ", e),
            _ => Outcome::Go(Step::ListUsers),
        },
        Step::ListUsers => match reply {
            Reply::Failed(e) => failed("Failed to list users: ", e),
            Reply::Users(users) => after_listing(task, find_account(users, username).is_some()),
            _ => after_listing(task, false),
        },
        Step::CreateUser => match reply {
            Reply::Failed(e) => if task == Task::Provision {
                failed("create_user failed: ", e)
            } else {
                failed("Sync failed: ", e)
            },
            _ => if task == Task::Provision {
                Outcome::Go(Step::CheckMapping { existed: false })
            } else {
                Outcome::Go(Step::SaveMapping { existed: false })
            },
        },
        Step::CheckMapping { existed } => match reply {
            Reply::Done => Outcome::Go(Step::UserClient { existed, managed: true }),
            _ => Outcome::Go(Step::UserClient { existed, managed: false }),
        },
        Step::UserClient { existed, managed } => match reply {
            Reply::Failed(_) => Outcome::Silent,
            _ => Outcome::Go(Step::UserSignIn { existed, managed, reset: false }),
        },
        Step::UserSignIn { existed, managed, reset } => match reply {
            Reply::SignedIn { .. } => Outcome::Go(Step::SaveMapping { existed }),
            _ => after_refused_sign_in(task, existed, managed, reset),
        },
        Step::ResetPassword => match reply {
            Reply::Failed(_) => Outcome::Finish(
                SyncStatus::Failed,
                Some("Could not establish backend session".to_owned()),
            ),
            _ => Outcome::Go(Step::UserSignIn { existed: true, managed: true, reset: true }),
        },
        Step::SaveMapping { existed } => match reply {
            Reply::Failed(e) => if task == Task::Provision {
                failed("mapping failed: ", e)
            } else {
                failed("Failed to save local mapping: ", e)
            },
            _ => if task == Task::Provision {
                Outcome::Go(Step::StoreSession)
            } else if existed {
                Outcome::Finish(SyncStatus::AlreadyExists, None)
            } else {
                Outcome::Finish(SyncStatus::Created, None)
            },
        },
        Step::StoreSession => match reply {
            Reply::Failed(e) => failed("session store failed: ", e),
            _ => Outcome::Finish(SyncStatus::Created, None),
        },
        Step::DeleteUser => match reply {
            Reply::Failed(e) => failed("Delete failed: ", e),
            _ => Outcome::Finish(SyncStatus::Deleted, None),
        },
    }
}

/// A task in progress over a list of servers.
pub struct FederatedUserService {
    task: Task,
    username: String,
    user_id: String,
    password: String,
    version: String,
    servers: Vec<String>,
    position: usize,
    step: Step,
    remote: Option<String>,
    signed_in: Option<(String, String)>,
    results: Vec<ServerSyncResult>,
}

/// The state of a run: the user, the password of the task, the version that
/// sessions are opened with, the servers by name, the one at hand, the step to
/// be performed there, the account found there, the token and user id that
/// signing in there gave, and the results so far.
pub struct RunView {
    pub task: Task,
    pub username: Seq<char>,
    pub user_id: Seq<char>,
    pub password: Seq<char>,
    pub version: Seq<char>,
    pub servers: Seq<Seq<char>>,
    pub position: int,
    pub step: Step,
    pub remote: Option<Seq<char>>,
    pub signed_in: Option<(Seq<char>, Seq<char>)>,
    pub results: Seq<ResultView>,
}

/// A run that has not begun.
pub open spec fn run_start(
    task: Task,
    username: Seq<char>,
    user_id: Seq<char>,
    password: Seq<char>,
    version: Seq<char>,
    servers: Seq<Seq<char>>,
) -> RunView {
    RunView {
        task,
        username,
        user_id,
        password,
        version,
        servers,
        position: 0,
        step: Step::AdminCredentials,
        remote: None,
        signed_in: None,
        results: Seq::empty(),
    }
}

/// The run after it left the current server with these results.
pub open spec fn next_server(v: RunView, results: Seq<ResultView>) -> RunView {
    RunView {
        position: v.position + 1,
        step: Step::AdminCredentials,
        remote: None,
        signed_in: None,
        results,
        ..v
    }
}

/// The run after a reply. A run over all servers stays as it is.
pub open spec fn advanced(v: RunView, reply: ReplyView) -> RunView {
    if v.position >= v.servers.len() {
        v
    } else {
        match outcome(v.task, v.username, v.step, reply) {
            OutcomeView::Go(step) => RunView {
                step,
                remote: remote_after(v.username, v.step, reply, v.remote),
                signed_in: signed_in_after(v.step, reply, v.signed_in),
                ..v
            },
            OutcomeView::Finish(status, message) => next_server(
                v,
                v.results.push(
                    ResultView { server_name: v.servers[v.position], status, message },
                ),
            ),
            OutcomeView::Silent => next_server(v, v.results),
        }
    }
}

impl View for FederatedUserService {
    type V = RunView;

    closed spec fn view(&self) -> RunView {
        RunView {
            task: self.task,
            username: self.username@,
            user_id: self.user_id@,
            password: self.password@,
            version: self.version@,
            servers: text::texts(self.servers@),
            position: self.position as int,
            step: self.step,
            remote: json::opt_text(self.remote),
            signed_in: device_sessions::token_view(self.signed_in),
            results: result_views(self.results@),
        }
    }
}

/// What performing the pending step takes, beside the server: whom to create
/// or sign in, which account to change, what to store.
#[derive(Debug, Clone)]
pub enum Action {
    AdminCredentials,
    AdminPassword,
    AdminClient,
    AdminSignIn,
    ListUsers,
    CreateUser { name: String, password: String },
    CheckMapping { user_id: String },
    UserClient,
    UserSignIn { name: String, password: String },
    SetPassword { account: String, password: String },
    SaveMapping { user_id: String, name: String, password: String, key: MappingKey },
    /// The session is stored without a token of the device.
    StoreSession {
        user_id: String,
        device: ClientInfo,
        token: Option<String>,
        access_token: String,
        remote_user_id: String,
    },
    DeleteUser { account: String },
}

/// The data in an [`Action`].
pub enum ActionView {
    AdminCredentials,
    AdminPassword,
    AdminClient,
    AdminSignIn,
    ListUsers,
    CreateUser { name: Seq<char>, password: Seq<char> },
    CheckMapping { user_id: Seq<char> },
    UserClient,
    UserSignIn { name: Seq<char>, password: Seq<char> },
    SetPassword { account: Seq<char>, password: Seq<char> },
    SaveMapping { user_id: Seq<char>, name: Seq<char>, password: Seq<char>, key: MappingKey },
    StoreSession {
        user_id: Seq<char>,
        device: ClientInfoView,
        token: Option<Seq<char>>,
        access_token: Seq<char>,
        remote_user_id: Seq<char>,
    },
    DeleteUser { account: Seq<char> },
}

impl View for Action {
    type V = ActionView;

    open spec fn view(&self) -> ActionView {
        match self {
            Action::AdminCredentials => ActionView::AdminCredentials,
            Action::AdminPassword => ActionView::AdminPassword,
            Action::AdminClient => ActionView::AdminClient,
            Action::AdminSignIn => ActionView::AdminSignIn,
            Action::ListUsers => ActionView::ListUsers,
            Action::CreateUser { name, password } => ActionView::CreateUser {
                name: name@,
                password: password@,
            },
            Action::CheckMapping { user_id } => ActionView::CheckMapping { user_id: user_id@ },
            Action::UserClient => ActionView::UserClient,
            Action::UserSignIn { name, password } => ActionView::UserSignIn {
                name: name@,
                password: password@,
            },
            Action::SetPassword { account, password } => ActionView::SetPassword {
                account: account@,
                password: password@,
            },
            Action::SaveMapping { user_id, name, password, key } => ActionView::SaveMapping {
                user_id: user_id@,
                name: name@,
                password: password@,
                key: *key,
            },
            Action::StoreSession {
                user_id,
                device,
                token,
                access_token,
                remote_user_id,
            } => ActionView::StoreSession {
                user_id: user_id@,
                device: device@,
                token: json::opt_text(*token),
                access_token: access_token@,
                remote_user_id: remote_user_id@,
            },
            Action::DeleteUser { account } => ActionView::DeleteUser { account: account@ },
        }
    }
}

/// What performing the step of a run takes.
pub open spec fn action_of(v: RunView) -> ActionView {
    match v.step {
        Step::AdminCredentials => ActionView::AdminCredentials,
        Step::AdminPassword => ActionView::AdminPassword,
        Step::AdminClient => ActionView::AdminClient,
        Step::AdminSignIn => ActionView::AdminSignIn,
        Step::ListUsers => ActionView::ListUsers,
        Step::CreateUser => ActionView::CreateUser { name: v.username, password: v.password },
        Step::CheckMapping { .. } => ActionView::CheckMapping { user_id: v.user_id },
        Step::UserClient { .. } => ActionView::UserClient,
        Step::UserSignIn { .. } => ActionView::UserSignIn {
            name: v.username,
            password: v.password,
        },
        Step::ResetPassword => ActionView::SetPassword {
            account: v.remote->Some_0,
            password: v.password,
        },
        Step::SaveMapping { .. } => ActionView::SaveMapping {
            user_id: v.user_id,
            name: v.username,
            password: v.password,
            key: mapping_key_of(v.task),
        },
        Step::StoreSession => {
            let (access_token, remote_user_id) = v.signed_in->Some_0;
            ActionView::StoreSession {
                user_id: v.user_id,
                device: sso_device_of(v.user_id, v.version),
                token: None,
                access_token,
                remote_user_id,
            }
        },
        Step::DeleteUser => ActionView::DeleteUser { account: v.remote->Some_0 },
    }
}

/// Whether a step deals with an account that was on the server before.
pub open spec fn deals_with_account(step: Step) -> bool {
    match step {
        Step::CheckMapping { existed } => existed,
        Step::UserClient { existed, .. } => existed,
        Step::UserSignIn { existed, .. } => existed,
        Step::ResetPassword => true,
        Step::DeleteUser => true,
        _ => false,
    }
}

/// Whether a step comes after signing in as the user.
pub open spec fn has_session(task: Task, step: Step) -> bool {
    match step {
        Step::SaveMapping { .. } => task == Task::Provision,
        Step::StoreSession => true,
        _ => false,
    }
}

/// The account that a step deals with is known, and so is the session that it
/// stores.
pub open spec fn informed(v: RunView) -> bool {
    &&& deals_with_account(v.step) ==> v.remote is Some
    &&& has_session(v.task, v.step) ==> v.signed_in is Some
}

impl FederatedUserService {
    /// A run of a task over the servers.
    fn start(
        task: Task,
        username: String,
        user_id: String,
        password: String,
        version: String,
        servers: Vec<String>,
    ) -> (r: Self)
        ensures
            informed(r@),
            r@ == run_start(
                task,
                username@,
                user_id@,
                password@,
                version@,
                text::texts(servers@),
            ),
    {
        let r = FederatedUserService {
            task,
            username,
            user_id,
            password,
            version,
            servers,
            position: 0,
            step: Step::AdminCredentials,
            remote: None,
            signed_in: None,
            results: Vec::new(),
        };
        assert(r@.results =~= Seq::<ResultView>::empty());
        r
    }

    /// Syncs a user to all servers where an admin account is available: the
    /// account is created where it is missing and never changed where it
    /// exists.
    pub fn sync_user_to_all_servers(
        username: String,
        password: String,
        user_id: String,
        servers: Vec<String>,
    ) -> (r: Self)
        ensures
            informed(r@),
            r@ == run_start(
                Task::Sync,
                username@,
                user_id@,
                password@,
                Seq::empty(),
                text::texts(servers@),
            ),
    {
        let version = String::new();
        assert(version@ =~= Seq::<char>::empty());
        Self::start(Task::Sync, username, user_id, password, version, servers)
    }

    /// Provisions a single sign-on user on every server that has admin
    /// credentials, and opens an initial session on each, under this version.
    pub fn provision_sso_user(
        username: String,
        user_id: String,
        password: String,
        version: String,
        servers: Vec<String>,
    ) -> (r: Self)
        ensures
            informed(r@),
            r@ == run_start(
                Task::Provision,
                username@,
                user_id@,
                password@,
                version@,
                text::texts(servers@),
            ),
    {
        Self::start(Task::Provision, username, user_id, password, version, servers)
    }

    /// Deletes a user from every server that has admin credentials.
    pub fn delete_user_from_all_servers(username: String, servers: Vec<String>) -> (r: Self)
        ensures
            informed(r@),
            r@ == run_start(
                Task::Delete,
                username@,
                Seq::empty(),
                Seq::empty(),
                Seq::empty(),
                text::texts(servers@),
            ),
    {
        let (user_id, password, version) = (String::new(), String::new(), String::new());
        assert(user_id@ =~= Seq::<char>::empty());
        Self::start(Task::Delete, username, user_id, password, version, servers)
    }

    /// The index of the server at hand and the step to perform there; `None`
    /// when the run is over.
    pub fn pending(&self) -> (r: Option<(usize, Step)>)
        ensures
            r == (if self@.position >= self@.servers.len() {
                None::<(usize, Step)>
            } else {
                Some((self@.position as usize, self@.step))
            }),
    {
        if self.position >= self.servers.len() {
            None
        } else {
            Some((self.position, self.step))
        }
    }

    /// The index of the server at hand and what performing its step takes;
    /// `None` when the run is over.
    pub fn action(&self) -> (r: Option<(usize, Action)>)
        requires
            informed(self@),
        ensures
            match r {
                Some((at, action)) => self@.position < self@.servers.len() && at == self@.position
                    && action@ == action_of(self@),
                None => self@.position >= self@.servers.len(),
            },
    {
        if self.position >= self.servers.len() {
            return None;
        }
        let action = match self.step {
            Step::AdminCredentials => Action::AdminCredentials,
            Step::AdminPassword => Action::AdminPassword,
            Step::AdminClient => Action::AdminClient,
            Step::AdminSignIn => Action::AdminSignIn,
            Step::ListUsers => Action::ListUsers,
            Step::CreateUser => Action::CreateUser {
                name: self.username.clone(),
                password: self.password.clone(),
            },
            Step::CheckMapping { .. } => Action::CheckMapping { user_id: self.user_id.clone() },
            Step::UserClient { .. } => Action::UserClient,
            Step::UserSignIn { .. } => Action::UserSignIn {
                name: self.username.clone(),
                password: self.password.clone(),
            },
            Step::ResetPassword => Action::SetPassword {
                account: self.known_account(),
                password: self.password.clone(),
            },
            Step::SaveMapping { .. } => Action::SaveMapping {
                user_id: self.user_id.clone(),
                name: self.username.clone(),
                password: self.password.clone(),
                key: mapping_key(self.task),
            },
            Step::StoreSession => {
                let (access_token, remote_user_id) = self.known_session();
                Action::StoreSession {
                    user_id: self.user_id.clone(),
                    device: sso_device(self.user_id.as_str(), self.version.as_str()),
                    token: None,
                    access_token,
                    remote_user_id,
                }
            },
            Step::DeleteUser => Action::DeleteUser { account: self.known_account() },
        };
        Some((self.position, action))
    }

    /// The account that was found on the server at hand.
    fn known_account(&self) -> (r: String)
        requires
            self@.remote is Some,
        ensures
            self@.remote == Some(r@),
    {
        self.remote.as_ref().unwrap().clone()
    }

    /// What signing in on the server at hand gave.
    fn known_session(&self) -> (r: (String, String))
        requires
            self@.signed_in is Some,
        ensures
            self@.signed_in == Some((r.0@, r.1@)),
    {
        let (access_token, user_id) = self.signed_in.as_ref().unwrap();
        (access_token.clone(), user_id.clone())
    }

    /// Takes the reply to the pending step.
    pub fn reply(&mut self, reply: &Reply)
        ensures
            informed(old(self)@) ==> informed(final(self)@),
            final(self)@ == advanced(old(self)@, reply_view(*reply)),
    {
        if self.position >= self.servers.len() {
            return ;
        }
        let ghost before = self@;
        match decide(self.task, self.username.as_str(), self.step, reply) {
            Outcome::Go(step) => {
                if self.step == Step::ListUsers {
                    self.remote = match reply {
                        Reply::Users(users) => find_account(users, self.username.as_str()),
                        _ => None,
                    };
                }
                match (self.step, reply) {
                    (Step::UserSignIn { .. }, Reply::SignedIn { access_token, user_id }) => {
                        self.signed_in = Some((access_token.clone(), user_id.clone()));
                    },
                    _ => {},
                }
                self.step = step;
                assert(self@ == advanced(before, reply_view(*reply)));
            },
            Outcome::Finish(status, message) => {
                let server_name = self.servers[self.position].clone();
                self.results.push(ServerSyncResult { server_name, status, message });
                self.position = self.position + 1;
                self.step = Step::AdminCredentials;
                self.remote = None;
                self.signed_in = None;
                assert(self@.results =~= advanced(before, reply_view(*reply)).results);
            },
            Outcome::Silent => {
                self.position = self.position + 1;
                self.step = Step::AdminCredentials;
                self.remote = None;
                self.signed_in = None;
            },
        }
    }

    /// The results of the run, one per server at most, in server order.
    pub fn results(self) -> (r: Vec<ServerSyncResult>)
        ensures
            result_views(r@) == self@.results,
    {
        self.results
    }
}

/// Where the replies of one server, from the first on, lead.
pub open spec fn server_after(task: Task, username: Seq<char>, replies: Seq<ReplyView>) -> OutcomeView
    decreases replies.len(),
{
    if replies.len() == 0 {
        OutcomeView::Go(Step::AdminCredentials)
    } else {
        match server_after(task, username, replies.drop_last()) {
            OutcomeView::Go(step) => outcome(task, username, step, replies.last()),
            end => end,
        }
    }
}

/// Whether the replies so far show that the account was on the server before.
pub open spec fn account_was_listed(username: Seq<char>, replies: Seq<ReplyView>) -> bool {
    replies.len() > 4 && match replies[4] {
        ReplyView::Users(users) => account_named(users, username) is Some,
        _ => false,
    }
}

/// What a pending step tells of the replies that led to it.
spec fn explained(task: Task, username: Seq<char>, replies: Seq<ReplyView>, step: Step) -> bool {
    match step {
        Step::AdminCredentials => replies.len() == 0,
        Step::AdminPassword => replies.len() == 1,
        Step::AdminClient => replies.len() == 2,
        Step::AdminSignIn => replies.len() == 3,
        Step::ListUsers => replies.len() == 4,
        Step::CreateUser => replies.len() == 5 && task != Task::Delete && !account_was_listed(
            username,
            replies,
        ),
        Step::CheckMapping { existed } => task == Task::Provision && if existed {
            replies.len() == 5 && account_was_listed(username, replies)
        } else {
            replies.len() == 6 && !account_was_listed(username, replies)
        },
        Step::UserClient { existed, managed } => task != Task::Delete && replies.len() > 4 && (existed
            == account_was_listed(username, replies)) && (managed ==> task == Task::Provision) && (
        existed && managed ==> replies.len() == 6 && replies[5] is Done) && (existed && task
            == Task::Provision ==> replies.len() == 6) && (task == Task::Sync ==> existed),
        Step::UserSignIn { existed, managed, reset } => task != Task::Delete && replies.len() > 4 && (existed
            == account_was_listed(username, replies)) && (managed ==> task == Task::Provision) && (
        existed && managed ==> replies[5] is Done && replies.len() > 6) && (existed && task
            == Task::Provision && !reset ==> replies.len() == 7) && (reset ==> replies.len() == 9
            && !(replies[7] is SignedIn) && existed && managed) && (task == Task::Sync ==> existed),
        Step::ResetPassword => task == Task::Provision && replies.len() == 8 && account_was_listed(
            username,
            replies,
        ) && replies[5] is Done && !(replies[7] is SignedIn),
        Step::SaveMapping { existed } => task != Task::Delete && replies.len() > 4 && (existed == account_was_listed(
            username,
            replies,
        )),
        Step::StoreSession => task == Task::Provision,
        Step::DeleteUser => task == Task::Delete && replies.len() == 5 && account_was_listed(
            username,
            replies,
        ),
    }
}

proof fn step_is_explained(task: Task, username: Seq<char>, replies: Seq<ReplyView>)
    ensures
        server_after(task, username, replies) matches OutcomeView::Go(step) ==> explained(
            task,
            username,
            replies,
            step,
        ),
    decreases replies.len(),
{
    if replies.len() > 0 {
        let before = replies.drop_last();
        step_is_explained(task, username, before);
        assert(replies.len() > 5 ==> before[4] == replies[4]);
        assert(replies.len() > 6 ==> before[5] == replies[5]);
        assert(replies.len() > 8 ==> before[7] == replies[7]);
    }
}

/// A stranger's password is never reset. A reset is asked for only when a
/// single sign-on user is provisioned, the account was on the server before,
/// the library's own mapping shows that it manages that account, and signing
/// in with the known password failed.
pub proof fn only_managed_accounts_are_reset(
    task: Task,
    username: Seq<char>,
    replies: Seq<ReplyView>,
)
    requires
        server_after(task, username, replies) == OutcomeView::Go(Step::ResetPassword),
    ensures
        task == Task::Provision,
        replies.len() == 8,
        account_was_listed(username, replies),
        server_after(task, username, replies.take(5)) == OutcomeView::Go(
            Step::CheckMapping { existed: true },
        ),
        replies[5] is Done,
        !(replies[7] is SignedIn),
{
    step_is_explained(task, username, replies);
    assert(replies.drop_last() =~= replies.take(7));
    assert(replies.take(7).drop_last() =~= replies.take(6));
    assert(replies.take(6).drop_last() =~= replies.take(5));
    assert(server_after(task, username, replies.take(7)) is Go);
    assert(server_after(task, username, replies.take(6)) is Go);
    assert(server_after(task, username, replies.take(5)) is Go);
    step_is_explained(task, username, replies.take(5));
    step_is_explained(task, username, replies.take(6));
    step_is_explained(task, username, replies.take(7));
}

/// Accounts are created only where none was listed and deleted only where one
/// was; syncing neither deletes nor resets, deleting neither creates nor
/// resets.
pub proof fn accounts_are_touched_as_the_task_says(
    task: Task,
    username: Seq<char>,
    replies: Seq<ReplyView>,
    step: Step,
)
    requires
        server_after(task, username, replies) == OutcomeView::Go(step),
    ensures
        step == Step::CreateUser ==> task != Task::Delete && !account_was_listed(username, replies),
        step == Step::DeleteUser ==> task == Task::Delete && account_was_listed(username, replies),
        step == Step::ResetPassword ==> task == Task::Provision,
{
    step_is_explained(task, username, replies);
}

/// A stored mapping is known to work: wherever one is stored for an account
/// that was there before, and for every single sign-on user, signing in with
/// the task's password had just succeeded. Otherwise the account was just
/// created with that password.
pub proof fn mappings_prove_the_password(
    task: Task,
    username: Seq<char>,
    replies: Seq<ReplyView>,
    existed: bool,
)
    requires
        server_after(task, username, replies) == OutcomeView::Go(Step::SaveMapping { existed }),
    ensures
        replies.len() > 0,
        !(replies.last() is Failed),
        ({
            let before = server_after(task, username, replies.drop_last());
            if existed || task == Task::Provision {
                before matches OutcomeView::Go(Step::UserSignIn { .. }) && replies.last() is SignedIn
            } else {
                before == OutcomeView::Go(Step::CreateUser)
            }
        }),
{
    step_is_explained(task, username, replies.drop_last());
}

/// Success is reported only once everything was stored: a server on which the
/// user was created or found has its mapping, and a provisioned one its
/// session too.
pub proof fn success_means_all_is_stored(
    task: Task,
    username: Seq<char>,
    replies: Seq<ReplyView>,
    status: SyncStatus,
    message: Option<Seq<char>>,
) -> (n: int)
    requires
        server_after(task, username, replies) == OutcomeView::Finish(status, message),
        status == SyncStatus::Created || status == SyncStatus::AlreadyExists,
    ensures
        0 <= n < replies.len(),
        server_after(task, username, replies.take(n)) matches OutcomeView::Go(
            Step::SaveMapping { .. },
        ),
        !(replies[n] is Failed),
        task == Task::Provision ==> n + 1 < replies.len() && !(replies[n + 1] is Failed)
            && server_after(task, username, replies.take(n + 1)) == OutcomeView::Go(
            Step::StoreSession,
        ),
    decreases replies.len(),
{
    let before = replies.drop_last();
    step_is_explained(task, username, before);
    if server_after(task, username, before) is Go {
        let last = replies.len() - 1;
        assert(before =~= replies.take(last));
        if task == Task::Provision {
            assert(before.drop_last() =~= replies.take(last - 1));
            assert(replies.take(last).last() == replies[last - 1]);
            last - 1
        } else {
            last
        }
    } else {
        let n = success_means_all_is_stored(task, username, before, status, message);
        assert(before.take(n) =~= replies.take(n));
        assert(task == Task::Provision ==> before.take(n + 1) =~= replies.take(n + 1));
        n
    }
}

/// How many replies a server may still take, at most.
pub open spec fn steps_left(step: Step) -> int {
    match step {
        Step::AdminCredentials => 13,
        Step::AdminPassword => 12,
        Step::AdminClient => 11,
        Step::AdminSignIn => 10,
        Step::ListUsers => 9,
        Step::CreateUser => 8,
        Step::CheckMapping { .. } => 7,
        Step::UserClient { .. } => 6,
        Step::UserSignIn { reset, .. } => if reset {
            3
        } else {
            5
        },
        Step::ResetPassword => 4,
        Step::SaveMapping { .. } => 2,
        Step::StoreSession => 1,
        Step::DeleteUser => 1,
    }
}

/// Every reply makes progress: it brings the server at hand nearer to its end
/// or moves on to the next server, so every run ends.
pub proof fn replies_make_progress(v: RunView, reply: ReplyView)
    requires
        v.position < v.servers.len(),
    ensures
        advanced(v, reply).servers == v.servers,
        advanced(v, reply).position == v.position + 1 || (advanced(v, reply).position == v.position
            && 0 <= steps_left(advanced(v, reply).step) < steps_left(v.step)),
{
}

/// The run after a list of replies.
pub open spec fn run_after(v: RunView, replies: Seq<ReplyView>) -> RunView
    decreases replies.len(),
{
    if replies.len() == 0 {
        v
    } else {
        advanced(run_after(v, replies.drop_last()), replies.last())
    }
}

/// The account that the replies of one server name.
pub open spec fn listed_account(username: Seq<char>, replies: Seq<ReplyView>) -> Option<Seq<char>> {
    if replies.len() > 4 {
        match replies[4] {
            ReplyView::Users(users) => account_named(users, username),
            _ => None,
        }
    } else {
        None
    }
}

/// The session that the replies of one server give: that of the sign-in as the
/// user, which nothing but the storing of the mapping and the session follows.
pub open spec fn session_gained(
    task: Task,
    username: Seq<char>,
    replies: Seq<ReplyView>,
) -> Option<(Seq<char>, Seq<char>)>
    decreases replies.len(),
{
    if replies.len() == 0 {
        None
    } else {
        match server_after(task, username, replies.drop_last()) {
            OutcomeView::Go(step) => signed_in_after(
                step,
                replies.last(),
                session_gained(task, username, replies.drop_last()),
            ),
            _ => None,
        }
    }
}

/// A run treats each server by the replies of that server alone: from its
/// first step on it asks for the step that these replies lead to and knows the
/// account that they name, so that what is reset or deleted is the account
/// that was listed.
pub proof fn servers_are_treated_one_by_one(v: RunView, replies: Seq<ReplyView>)
    requires
        0 <= v.position < v.servers.len(),
        v.step == Step::AdminCredentials,
        v.remote is None,
        v.signed_in is None,
        server_after(v.task, v.username, replies) is Go,
    ensures
        run_after(v, replies) == (RunView {
            step: server_after(v.task, v.username, replies)->Go_0,
            remote: listed_account(v.username, replies),
            signed_in: session_gained(v.task, v.username, replies),
            ..v
        }),
    decreases replies.len(),
{
    if replies.len() > 0 {
        let before = replies.drop_last();
        servers_are_treated_one_by_one(v, before);
        step_is_explained(v.task, v.username, before);
        step_is_explained(v.task, v.username, replies);
        assert(replies.len() > 5 ==> before[4] == replies[4]);
    }
}

/// The account whose password is set, or that is deleted, is the one that the
/// server listed under the user's name; it is given the task's password.
pub proof fn only_the_listed_account_is_changed(v: RunView, replies: Seq<ReplyView>)
    requires
        0 <= v.position < v.servers.len(),
        v.step == Step::AdminCredentials,
        v.remote is None,
        v.signed_in is None,
        server_after(v.task, v.username, replies) is Go,
    ensures
        match action_of(run_after(v, replies)) {
            ActionView::SetPassword { account, password } => listed_account(v.username, replies)
                == Some(account) && password == v.password,
            ActionView::DeleteUser { account } => listed_account(v.username, replies) == Some(
                account,
            ),
            _ => true,
        },
{
    servers_are_treated_one_by_one(v, replies);
    step_is_explained(v.task, v.username, replies);
}

/// Nobody else's account is touched: the account whose password is set, or that
/// is deleted, stands in the list that the server gave, under the user's own
/// name, letter for letter, ASCII case aside, and no account before it does.
pub proof fn no_other_account_is_touched(v: RunView, replies: Seq<ReplyView>, account: Seq<char>)
    requires
        0 <= v.position < v.servers.len(),
        v.step == Step::AdminCredentials,
        v.remote is None,
        v.signed_in is None,
        server_after(v.task, v.username, replies) is Go,
        action_of(run_after(v, replies)) == (ActionView::DeleteUser { account }) || action_of(
            run_after(v, replies),
        ) == (ActionView::SetPassword { account, password: v.password }),
    ensures
        replies.len() > 4,
        replies[4] matches ReplyView::Users(users) && exists|i: int|
            #![trigger users[i]]
            is_first_named(users, v.username, i) && users[i].0 == account,
{
    only_the_listed_account_is_changed(v, replies);
    servers_are_treated_one_by_one(v, replies);
    step_is_explained(v.task, v.username, replies);
    accounts_are_found_by_the_whole_name(replies[4]->Users_0, v.username);
}

/// The session that is stored for a single sign-on user is the one that the
/// sign-in two replies before gave: it carries that token and that user id,
/// belongs to the user and stands under the device that is made up for them.
pub proof fn stored_sessions_are_those_of_the_sign_in(v: RunView, replies: Seq<ReplyView>)
    requires
        0 <= v.position < v.servers.len(),
        v.step == Step::AdminCredentials,
        v.remote is None,
        v.signed_in is None,
        server_after(v.task, v.username, replies) == OutcomeView::Go(Step::StoreSession),
    ensures
        replies.len() >= 2,
        server_after(v.task, v.username, replies.take(replies.len() - 2)) matches OutcomeView::Go(
            Step::UserSignIn { .. },
        ),
        replies[replies.len() - 2] matches ReplyView::SignedIn { access_token, user_id }
            && action_of(run_after(v, replies)) == (ActionView::StoreSession {
            user_id: v.user_id,
            device: sso_device_of(v.user_id, v.version),
            token: None,
            access_token,
            remote_user_id: user_id,
        }),
{
    servers_are_treated_one_by_one(v, replies);
    step_is_explained(v.task, v.username, replies);
    let before = replies.drop_last();
    step_is_explained(v.task, v.username, before);
    let existed = match server_after(v.task, v.username, before) {
        OutcomeView::Go(Step::SaveMapping { existed }) => existed,
        _ => true,
    };
    mappings_prove_the_password(v.task, v.username, before, existed);
    assert(before.drop_last() =~= replies.take(replies.len() - 2));
    assert(before.last() == replies[replies.len() - 2]);
    assert(session_gained(v.task, v.username, replies) == session_gained(
        v.task,
        v.username,
        before,
    ));
}

/// The reply that ends a server adds its result, if it has one, and leads to
/// the first step of the next server.
pub proof fn servers_end_with_their_result(v: RunView, replies: Seq<ReplyView>)
    requires
        0 <= v.position < v.servers.len(),
        v.step == Step::AdminCredentials,
        v.remote is None,
        v.signed_in is None,
        replies.len() > 0,
        server_after(v.task, v.username, replies.drop_last()) is Go,
    ensures
        match server_after(v.task, v.username, replies) {
            OutcomeView::Go(_) => true,
            OutcomeView::Finish(status, message) => run_after(v, replies) == next_server(
                v,
                v.results.push(
                    ResultView { server_name: v.servers[v.position], status, message },
                ),
            ),
            OutcomeView::Silent => run_after(v, replies) == next_server(v, v.results),
        },
{
    servers_are_treated_one_by_one(v, replies.drop_last());
}

/// Whether the results name servers that were visited, in their order and
/// each at most once: `at` gives the place of the server of each result.
pub open spec fn in_server_order(v: RunView, at: Seq<int>) -> bool {
    &&& at.len() == v.results.len()
    &&& forall|k: int|
        0 <= k < at.len() ==> 0 <= #[trigger] at[k] < v.position && v.results[k].server_name
            == v.servers[at[k]]
    &&& forall|j: int, k: int| 0 <= j < k < at.len() ==> #[trigger] at[j] < #[trigger] at[k]
}

/// At every point of every run the results name the servers passed, in their
/// order and each at most once.
pub proof fn results_follow_the_servers(
    task: Task,
    username: Seq<char>,
    user_id: Seq<char>,
    password: Seq<char>,
    version: Seq<char>,
    servers: Seq<Seq<char>>,
    replies: Seq<ReplyView>,
)
    ensures
        exists|at: Seq<int>|
            in_server_order(
                run_after(run_start(task, username, user_id, password, version, servers), replies),
                at,
            ),
        run_after(run_start(task, username, user_id, password, version, servers), replies).position
            <= servers.len(),
    decreases replies.len(),
{
    let start = run_start(task, username, user_id, password, version, servers);
    run_keeps_its_inputs(start, replies);
    if replies.len() == 0 {
        assert(in_server_order(start, Seq::empty()));
    } else {
        results_follow_the_servers(
            task,
            username,
            user_id,
            password,
            version,
            servers,
            replies.drop_last(),
        );
        run_keeps_its_inputs(start, replies.drop_last());
        let before = run_after(start, replies.drop_last());
        let after = run_after(start, replies);
        let at = choose|at: Seq<int>| in_server_order(before, at);
        if after.results.len() == before.results.len() {
            assert(in_server_order(after, at));
        } else {
            assert(in_server_order(after, at.push(before.position)));
        }
    }
}

/// Whether a step belongs to a deletion.
pub open spec fn deletion_step(step: Step) -> bool {
    match step {
        Step::AdminCredentials => true,
        Step::AdminPassword => true,
        Step::AdminClient => true,
        Step::AdminSignIn => true,
        Step::ListUsers => true,
        Step::DeleteUser => true,
        _ => false,
    }
}

/// A deletion reports on every server: at every point there is exactly one
/// result for each server passed, in their order.
pub proof fn deletions_report_on_every_server(
    username: Seq<char>,
    user_id: Seq<char>,
    password: Seq<char>,
    version: Seq<char>,
    servers: Seq<Seq<char>>,
    replies: Seq<ReplyView>,
)
    ensures
        ({
            let v = run_after(
                run_start(Task::Delete, username, user_id, password, version, servers),
                replies,
            );
            &&& v.task == Task::Delete
            &&& v.servers == servers
            &&& deletion_step(v.step)
            &&& 0 <= v.position <= servers.len()
            &&& v.results.len() == v.position
            &&& forall|k: int|
                0 <= k < v.results.len() ==> (#[trigger] v.results[k]).server_name == servers[k]
        }),
    decreases replies.len(),
{
    if replies.len() > 0 {
        deletions_report_on_every_server(
            username,
            user_id,
            password,
            version,
            servers,
            replies.drop_last(),
        );
    }
}

proof fn run_keeps_its_inputs(v: RunView, replies: Seq<ReplyView>)
    requires
        v.position >= 0,
    ensures
        run_after(v, replies).servers == v.servers,
        run_after(v, replies).position >= 0,
    decreases replies.len(),
{
    if replies.len() > 0 {
        run_keeps_its_inputs(v, replies.drop_last());
    }
}

/// What each step of a server comes after: the admin is found, decrypted,
/// connected and signed in one after the other, and then the accounts are
/// listed. No step is asked for where the one before it failed.
pub proof fn steps_follow_each_other(
    task: Task,
    username: Seq<char>,
    step: Step,
    reply: ReplyView,
    next: Step,
)
    ensures
        outcome(task, username, step, reply) == OutcomeView::Go(next) <==> {
            let worked = !(reply is Failed);
            let found = reply matches ReplyView::Users(users) && exists|i: int|
                #![trigger users[i]]
                0 <= i < users.len() && text::letters_agree(users[i].1, username);
            match next {
                Step::AdminCredentials => false,
                Step::AdminPassword => step == Step::AdminCredentials && worked
                    && !(reply is Absent),
                Step::AdminClient => step == Step::AdminPassword && worked,
                Step::AdminSignIn => step == Step::AdminClient && worked,
                Step::ListUsers => step == Step::AdminSignIn && worked,
                Step::CreateUser => step == Step::ListUsers && worked && !found && task
                    != Task::Delete,
                Step::DeleteUser => step == Step::ListUsers && found && task == Task::Delete,
                Step::CheckMapping { existed } => task == Task::Provision && if existed {
                    step == Step::ListUsers && found
                } else {
                    step == Step::CreateUser && worked
                },
                Step::UserClient { existed, managed } => {
                    ||| step == (Step::CheckMapping { existed }) && managed == reply is Done
                    ||| step == Step::ListUsers && found && task == Task::Sync && existed
                        && !managed
                },
                Step::UserSignIn { existed, managed, reset } => {
                    ||| step == (Step::UserClient { existed, managed }) && worked && !reset
                    ||| step == Step::ResetPassword && worked && existed && managed && reset
                },
                Step::ResetPassword => step == (Step::UserSignIn {
                    existed: true,
                    managed: true,
                    reset: false,
                }) && !(reply is SignedIn) && task != Task::Sync,
                Step::SaveMapping { existed } => {
                    ||| (step matches Step::UserSignIn { existed: before, .. } && before == existed)
                        && reply is SignedIn
                    ||| step == Step::CreateUser && worked && task != Task::Provision && !existed
                },
                Step::StoreSession => (step matches Step::SaveMapping { .. }) && worked && task
                    == Task::Provision,
            }
        },
{
    if let ReplyView::Users(users) = reply {
        accounts_are_found_by_the_whole_name(users, username);
        if account_named(users, username) is Some {
            let i = choose|i: int|
                #![trigger users[i]]
                is_first_named(users, username, i) && users[i].0 == account_named(
                    users,
                    username,
                )->0;
            assert(0 <= i < users.len() && text::letters_agree(users[i].1, username));
        }
    }
}

/// What each result means: created or found once all is stored, deleted or not
/// found in a deletion, another password where a sync was refused, skipped
/// without an admin or where a stranger has the name, and failed otherwise.
pub proof fn results_mean_what_they_say(
    task: Task,
    username: Seq<char>,
    step: Step,
    reply: ReplyView,
)
    ensures
        ({
            let worked = !(reply is Failed);
            let found = reply matches ReplyView::Users(users) && account_named(
                users,
                username,
            ) is Some;
            let refused = (step matches Step::UserSignIn { .. }) && !(reply is SignedIn);
            let stored = worked && task != Task::Provision;
            let o = outcome(task, username, step, reply);
            &&& o is Silent <==> (step matches Step::UserClient { .. }) && !worked
            &&& (o matches OutcomeView::Finish(s, _) && s == SyncStatus::Created) <==> {
                ||| step == (Step::SaveMapping { existed: false }) && stored
                ||| step == Step::StoreSession && worked
            }
            &&& (o matches OutcomeView::Finish(s, _) && s == SyncStatus::AlreadyExists) <==> step
                == (Step::SaveMapping { existed: true }) && stored
            &&& (o matches OutcomeView::Finish(s, _) && s == SyncStatus::Deleted) <==> step
                == Step::DeleteUser && worked
            &&& (o matches OutcomeView::Finish(s, _) && s == SyncStatus::NotFound) <==> step
                == Step::ListUsers && worked && !found && task == Task::Delete
            &&& (o matches OutcomeView::Finish(s, _) && s
                == SyncStatus::ExistsWithDifferentPassword) <==> refused && task == Task::Sync
            &&& (o matches OutcomeView::Finish(s, _) && s == SyncStatus::Skipped) <==> {
                ||| step == Step::AdminCredentials && reply is Absent
                ||| refused && task != Task::Sync && step == (Step::UserSignIn {
                    existed: true,
                    managed: false,
                    reset: false,
                })
            }
            &&& (o matches OutcomeView::Finish(_, m) && m is None) ==> worked
        }),
{
}

/// The words of a failure end with those of the error that was met, behind a
/// heading that says what failed.
pub proof fn failures_tell_their_error(
    task: Task,
    username: Seq<char>,
    step: Step,
    e: Seq<char>,
)
    ensures
        ({
            let heading = match step {
                Step::AdminCredentials => Some("Failed to get admin creds: "@),
                Step::AdminClient => Some("Client error: "@),
                Step::AdminSignIn => Some("Admin auth failed: "@),
                Step::ListUsers => Some("Failed to list users: "@),
                Step::CreateUser => Some(
                    if task == Task::Provision {
                        "create_user failed: "@
                    } else {
                        "Sync failed: "@
                    },
                ),
                Step::SaveMapping { .. } => Some(
                    if task == Task::Provision {
                        "mapping failed: "@
                    } else {
                        "Failed to save local mapping: "@
                    },
                ),
                Step::StoreSession => Some("session store failed: "@),
                Step::DeleteUser => Some("Delete failed: "@),
                _ => None,
            };
            heading matches Some(h) ==> outcome(task, username, step, ReplyView::Failed(e))
                == OutcomeView::Finish(SyncStatus::Failed, Some(h + e))
        }),
{
}

/// Only the mappings of single sign-on users are kept under the master key, and
/// the device that is made up for such a user is theirs alone.
pub proof fn single_sign_on_users_have_their_own_device(
    task: Task,
    a: Seq<char>,
    b: Seq<char>,
    version: Seq<char>,
)
    ensures
        mapping_key_of(task) == MappingKey::MasterKey <==> task == Task::Provision,
        sso_device_of(a, version).device_id == seq!['s', 's', 'o', '-'] + a,
        sso_device_of(a, version).version == version,
        sso_device_of(a, version) == sso_device_of(b, version) <==> a == b,
{
    reveal_strlit("sso-");
    assert("sso-"@ =~= seq!['s', 's', 'o', '-']);
    if sso_device_of(a, version) == sso_device_of(b, version) {
        let x = "sso-"@ + a;
        let y = "sso-"@ + b;
        assert(x == y);
        assert(a =~= x.skip(4));
        assert(b =~= y.skip(4));
    }
}

}
