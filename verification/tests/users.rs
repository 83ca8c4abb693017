use jellyswarrm::client::ClientInfo;
use jellyswarrm::device_sessions::{
    DeviceAction, DeviceReply, OpenSession, RefreshReply, RefreshStep,
};
use jellyswarrm::federated_users::{
    find_account, mapping_key, sso_device, Action, FederatedUserService, MappingKey, RemoteUser, Reply,
    ServerSyncResult, Step, SyncStatus, Task,
};

fn names(n: &[&str]) -> Vec<String> {
    n.iter().map(|s| s.to_string()).collect()
}

fn user(id: &str, name: &str) -> RemoteUser {
    RemoteUser { id: id.to_string(), name: name.to_string() }
}

fn failed(e: &str) -> Reply {
    Reply::Failed(e.to_string())
}

fn syncing(username: &str, servers: &[&str]) -> FederatedUserService {
    FederatedUserService::sync_user_to_all_servers(
        username.to_string(),
        "pw".to_string(),
        "u1".to_string(),
        names(servers),
    )
}

fn provisioning(username: &str, servers: &[&str]) -> FederatedUserService {
    FederatedUserService::provision_sso_user(
        username.to_string(),
        "u1".to_string(),
        "pw".to_string(),
        "1.2".to_string(),
        names(servers),
    )
}

fn signed_in() -> Reply {
    Reply::SignedIn { access_token: "t1".to_string(), user_id: "r1".to_string() }
}

/// What a step is answered with when it works.
fn answer(step: Step) -> Reply {
    match step {
        Step::UserSignIn { .. } => signed_in(),
        _ => Reply::Done,
    }
}

fn action(run: &FederatedUserService) -> String {
    format!("{:?}", run.action().unwrap().1)
}

/// Signs in as the admin and lists the users.
fn up_to_users(run: &mut FederatedUserService, users: Vec<RemoteUser>) {
    for step in [Step::AdminCredentials, Step::AdminPassword, Step::AdminClient, Step::AdminSignIn] {
        assert_eq!(run.pending().unwrap().1, step);
        run.reply(&Reply::Done);
    }
    assert_eq!(run.pending().unwrap().1, Step::ListUsers);
    run.reply(&Reply::Users(users));
}

fn only(run: FederatedUserService) -> ServerSyncResult {
    assert!(run.pending().is_none());
    let mut results = run.results();
    assert_eq!(results.len(), 1);
    results.remove(0)
}

#[test]
fn missing_account_is_created_and_mapped() {
    let mut run = syncing("bob", &["A"]);
    up_to_users(&mut run, vec![user("1", "alice")]);
    assert_eq!(run.pending(), Some((0, Step::CreateUser)));
    run.reply(&Reply::Done);
    assert_eq!(run.pending(), Some((0, Step::SaveMapping { existed: false })));
    run.reply(&Reply::Done);
    let r = only(run);
    assert_eq!(r.server_name, "A");
    assert_eq!(r.status, SyncStatus::Created);
    assert_eq!(r.message, None);
}

#[test]
fn existing_account_is_checked_not_changed() {
    let mut run = syncing("Bob", &["A"]);
    up_to_users(&mut run, vec![user("7", "bOB")]);
    assert_eq!(run.pending(), Some((0, Step::UserClient { existed: true, managed: false })));
    run.reply(&Reply::Done);
    run.reply(&failed("bad password"));
    let r = only(run);
    assert_eq!(r.status, SyncStatus::ExistsWithDifferentPassword);
    assert_eq!(r.message.as_deref(), Some("User exists with different password"));

    let mut run = syncing("Bob", &["A"]);
    up_to_users(&mut run, vec![user("7", "bOB")]);
    run.reply(&Reply::Done);
    run.reply(&signed_in());
    assert_eq!(run.pending(), Some((0, Step::SaveMapping { existed: true })));
    run.reply(&Reply::Done);
    assert_eq!(only(run).status, SyncStatus::AlreadyExists);
}

#[test]
fn failures_name_their_cause() {
    let cases: Vec<(Vec<Reply>, SyncStatus, &str)> = vec![
        (vec![failed("db")], SyncStatus::Failed, "Failed to get admin creds: db"),
        (vec![Reply::Absent], SyncStatus::Skipped, "No admin credentials"),
        (vec![Reply::Done, failed("x")], SyncStatus::Failed, "Failed to decrypt admin password"),
        (vec![Reply::Done, Reply::Done, failed("u")], SyncStatus::Failed, "Client error: u"),
        (
            vec![Reply::Done, Reply::Done, Reply::Done, failed("401")],
            SyncStatus::Failed,
            "Admin auth failed: 401",
        ),
        (
            vec![Reply::Done, Reply::Done, Reply::Done, Reply::Done, failed("500")],
            SyncStatus::Failed,
            "Failed to list users: 500",
        ),
        (
            vec![
                Reply::Done,
                Reply::Done,
                Reply::Done,
                Reply::Done,
                Reply::Users(vec![]),
                failed("no"),
            ],
            SyncStatus::Failed,
            "Sync failed: no",
        ),
        (
            vec![
                Reply::Done,
                Reply::Done,
                Reply::Done,
                Reply::Done,
                Reply::Users(vec![]),
                Reply::Done,
                failed("disk"),
            ],
            SyncStatus::Failed,
            "Failed to save local mapping: disk",
        ),
    ];
    for (replies, status, message) in cases {
        let mut run = syncing("b", &["A"]);
        for r in &replies {
            run.reply(r);
        }
        let r = only(run);
        assert_eq!(r.status, status);
        assert_eq!(r.message.as_deref(), Some(message));
    }
}

#[test]
fn client_failure_leaves_no_result() {
    let mut run = syncing("b", &["A", "B"]);
    up_to_users(&mut run, vec![user("1", "b")]);
    run.reply(&failed("client"));
    assert_eq!(run.pending(), Some((1, Step::AdminCredentials)));
    run.reply(&Reply::Absent);
    let r = only(run);
    assert_eq!(r.server_name, "B");
}

#[test]
fn strangers_password_is_never_reset() {
    let mut run = provisioning("bob", &["A"]);
    up_to_users(&mut run, vec![user("7", "bob")]);
    assert_eq!(run.pending(), Some((0, Step::CheckMapping { existed: true })));
    run.reply(&Reply::Absent);
    run.reply(&Reply::Done);
    run.reply(&failed("401"));
    let r = only(run);
    assert_eq!(r.status, SyncStatus::Skipped);
    assert_eq!(
        r.message.as_deref(),
        Some("Username collides with a pre-existing backend account; not reset (safety).")
    );
}

#[test]
fn managed_account_is_reset_once() {
    let mut run = provisioning("bob", &["A"]);
    up_to_users(&mut run, vec![user("7", "bob")]);
    run.reply(&Reply::Done);
    run.reply(&Reply::Done);
    run.reply(&failed("401"));
    assert_eq!(run.pending(), Some((0, Step::ResetPassword)));
    assert_eq!(
        action(&run),
        "SetPassword { account: \"7\", password: \"pw\" }"
    );
    run.reply(&Reply::Done);
    assert_eq!(
        run.pending(),
        Some((0, Step::UserSignIn { existed: true, managed: true, reset: true }))
    );
    run.reply(&failed("401"));
    let r = only(run);
    assert_eq!(r.status, SyncStatus::Failed);
    assert_eq!(r.message.as_deref(), Some("Could not establish backend session"));
}

#[test]
fn provisioning_opens_a_session() {
    let mut run = provisioning("bob", &["A"]);
    up_to_users(&mut run, vec![]);
    for step in [
        Step::CreateUser,
        Step::CheckMapping { existed: false },
        Step::UserClient { existed: false, managed: true },
        Step::UserSignIn { existed: false, managed: true, reset: false },
        Step::SaveMapping { existed: false },
        Step::StoreSession,
    ] {
        assert_eq!(run.pending(), Some((0, step)));
        run.reply(&answer(step));
    }
    assert_eq!(only(run).status, SyncStatus::Created);

    let mut run = provisioning("bob", &["A"]);
    up_to_users(&mut run, vec![]);
    for taken in [
        "CreateUser { name: \"bob\", password: \"pw\" }",
        "CheckMapping { user_id: \"u1\" }",
        "UserClient",
        "UserSignIn { name: \"bob\", password: \"pw\" }",
        "SaveMapping { user_id: \"u1\", name: \"bob\", password: \"pw\", key: MasterKey }",
    ] {
        assert_eq!(action(&run), taken);
        let step = run.pending().unwrap().1;
        run.reply(&answer(step));
    }
    match run.action() {
        Some((0, Action::StoreSession { user_id, device, token, access_token, remote_user_id })) => {
            assert_eq!(user_id, "u1");
            assert_eq!(device, sso_device("u1", "1.2"));
            assert_eq!(token, None);
            assert_eq!((access_token.as_str(), remote_user_id.as_str()), ("t1", "r1"));
        }
        other => panic!("{:?}", other),
    }
    run.reply(&Reply::Done);
    assert!(run.action().is_none());

    // a fresh account that cannot sign in is a failure, never a reset
    let mut run = provisioning("bob", &["A"]);
    up_to_users(&mut run, vec![]);
    run.reply(&Reply::Done);
    run.reply(&failed("mapping lookup"));
    run.reply(&Reply::Done);
    run.reply(&failed("401"));
    assert_eq!(only(run).message.as_deref(), Some("Could not establish backend session"));
}

#[test]
fn provisioning_failures() {
    let steps: Vec<(usize, &str)> = vec![
        (0, "create_user failed: e"),
        (4, "mapping failed: e"),
        (5, "session store failed: e"),
    ];
    for (n, message) in steps {
        let mut run = provisioning("bob", &["A"]);
        up_to_users(&mut run, vec![]);
        for _ in 0..n {
            let step = run.pending().unwrap().1;
            run.reply(&answer(step));
        }
        run.reply(&failed("e"));
        assert_eq!(only(run).message.as_deref(), Some(message));
    }
}

#[test]
fn deleting_reports_what_happened() {
    let mut run = FederatedUserService::delete_user_from_all_servers(
        "bob".into(),
        names(&["A", "B", "C"]),
    );
    up_to_users(&mut run, vec![user("9", "BOB")]);
    assert_eq!(run.pending(), Some((0, Step::DeleteUser)));
    assert_eq!(action(&run), "DeleteUser { account: \"9\" }");
    run.reply(&Reply::Done);
    up_to_users(&mut run, vec![user("9", "other")]);
    up_to_users(&mut run, vec![user("9", "bob")]);
    run.reply(&failed("403"));
    assert!(run.pending().is_none());
    let r = run.results();
    let got: Vec<(&str, SyncStatus)> =
        r.iter().map(|x| (x.server_name.as_str(), x.status)).collect();
    assert_eq!(
        got,
        vec![
            ("A", SyncStatus::Deleted),
            ("B", SyncStatus::NotFound),
            ("C", SyncStatus::Failed),
        ]
    );
    assert_eq!(r[2].message.as_deref(), Some("Delete failed: 403"));
}

#[test]
fn finished_runs_take_no_more_replies() {
    let mut run = FederatedUserService::delete_user_from_all_servers("b".into(), vec![]);
    assert!(run.pending().is_none());
    run.reply(&Reply::Done);
    assert!(run.results().is_empty());
}

#[test]
fn accounts_are_found_ignoring_case() {
    let users = vec![user("1", "Ada"), user("2", "BOB"), user("3", "bob")];
    assert_eq!(find_account(&users, "bob").as_deref(), Some("2"));
    assert_eq!(find_account(&users, "ada").as_deref(), Some("1"));
    assert_eq!(find_account(&users, "eve"), None);
}

#[test]
fn first_sessions_are_those_of_a_made_up_device() {
    let d = sso_device("u1", "1.2");
    assert_eq!(
        (d.client.as_str(), d.device.as_str(), d.device_id.as_str(), d.version.as_str()),
        ("Jellyswarrm SSO", "Web", "sso-u1", "1.2")
    );
}

#[test]
fn sso_mappings_use_the_master_key() {
    assert_eq!(mapping_key(Task::Provision), MappingKey::MasterKey);
    assert_eq!(mapping_key(Task::Sync), MappingKey::UserPassword);
}

fn device() -> ClientInfo {
    ClientInfo {
        client: "Web".into(),
        device: "Browser".into(),
        device_id: "d1".into(),
        version: "1.0".into(),
    }
}

fn mapped(rows: &[(&str, &str)]) -> Vec<(String, String)> {
    rows.iter().map(|(url, name)| (url.to_string(), name.to_string())).collect()
}

#[test]
fn device_sessions_are_opened_for_mapped_servers() {
    let mut s = FederatedUserService::ensure_device_sessions(
        "u1".into(),
        device(),
        mapped(&[("http://gone", "x"), ("http://a/", "ada"), ("http://b", "bob")]),
        names(&["http://b//", "http://a"]),
    );
    assert!(matches!(s.action(), Some(DeviceAction::Client { server: 1 })));
    s.reply(DeviceReply::Done);
    match s.action() {
        Some(DeviceAction::SignIn { mapping, server, name }) => {
            assert_eq!((mapping, server, name.as_str()), (1, 1, "ada"));
        }
        other => panic!("{:?}", other),
    }
    s.reply(DeviceReply::SignedIn { access_token: "t".into(), user_id: "r1".into() });
    match s.action() {
        Some(DeviceAction::Store {
            user_id,
            server_url,
            device: stored_for,
            token,
            access_token,
            remote_user_id,
        }) => {
            assert_eq!((user_id.as_str(), server_url.as_str()), ("u1", "http://a/"));
            assert_eq!(stored_for, device());
            assert_eq!(token, None);
            assert_eq!((access_token.as_str(), remote_user_id.as_str()), ("t", "r1"));
        }
        other => panic!("{:?}", other),
    }
    s.reply(DeviceReply::Done);
    assert_eq!(s.created(), 1);
    assert!(matches!(s.action(), Some(DeviceAction::Client { server: 0 })));
    s.reply(DeviceReply::Done);
    s.reply(DeviceReply::Failed);
    assert!(s.action().is_none());
    s.reply(DeviceReply::Done);
    assert_eq!(s.created(), 1);
}

#[test]
fn a_session_is_only_stored_after_its_own_sign_in() {
    let mut s = FederatedUserService::ensure_device_sessions(
        "u1".into(),
        device(),
        mapped(&[("http://a", "ada"), ("http://b", "bob")]),
        names(&["http://a", "http://b"]),
    );
    s.reply(DeviceReply::Done);
    s.reply(DeviceReply::SignedIn { access_token: "t1".into(), user_id: "r1".into() });
    s.reply(DeviceReply::Failed);
    assert_eq!(s.created(), 0);
    s.reply(DeviceReply::Done);
    s.reply(DeviceReply::SignedIn { access_token: "t2".into(), user_id: "r2".into() });
    match s.action() {
        Some(DeviceAction::Store { server_url, access_token, remote_user_id, .. }) => {
            assert_eq!(server_url, "http://b");
            assert_eq!((access_token.as_str(), remote_user_id.as_str()), ("t2", "r2"));
        }
        other => panic!("{:?}", other),
    }
    s.reply(DeviceReply::Done);
    assert_eq!(s.created(), 1);
    assert!(s.action().is_none());
}

#[test]
fn each_backend_is_signed_in_to_once() {
    let open = |url: &str, id: &str| OpenSession {
        url: url.to_string(),
        server_url: format!("{}?stored", url),
        device: ClientInfo { device_id: id.to_string(), ..device() },
    };
    let mut s = FederatedUserService::refresh_user_sessions(
        "u1".into(),
        vec![
            open("http://a", "d0"),
            open("http://b/", "d1"),
            open("http://a/", "d2"),
            open("http://c", "d3"),
            open("http://b", "d4"),
        ],
        mapped(&[("http://b", "bob"), ("http://a", "ada")]),
    );
    match s.pending() {
        Some(RefreshStep::SignIn { session, mapping, url, name }) => {
            assert_eq!((session, mapping), (0, 1));
            assert_eq!((url.as_str(), name.as_str()), ("http://a", "ada"));
        }
        other => panic!("{:?}", other),
    }
    s.reply(RefreshReply::SignedIn { token: "t".into(), user_id: "u".into() });
    match s.pending() {
        Some(RefreshStep::Store {
            user_id,
            server_url,
            device,
            token,
            access_token,
            remote_user_id,
        }) => {
            assert_eq!((user_id.as_str(), server_url.as_str()), ("u1", "http://a?stored"));
            assert_eq!((device.client.as_str(), device.device_id.as_str()), ("Web", "d0"));
            assert_eq!(token, None);
            assert_eq!((access_token.as_str(), remote_user_id.as_str()), ("t", "u"));
        }
        other => panic!("{:?}", other),
    }
    s.reply(RefreshReply::Stored);
    assert!(matches!(s.pending(), Some(RefreshStep::SignIn { session: 1, mapping: 0, .. })));
    s.reply(RefreshReply::Failed);
    // the second session of the first backend gets the same token; the failed
    // backend is not asked again, and one without a mapping is passed over
    match s.pending() {
        Some(RefreshStep::Store { device, access_token, .. }) => {
            assert_eq!((device.device_id.as_str(), access_token.as_str()), ("d2", "t"));
        }
        other => panic!("{:?}", other),
    }
    s.reply(RefreshReply::Failed);
    assert!(s.pending().is_none());
    assert_eq!(s.refreshed(), 1);
}
