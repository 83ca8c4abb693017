use jellyswarrm::match_key::{ItemUserData, MatchKey};
use jellyswarrm::sync_queue::QueueEntry;
use jellyswarrm::sync_runs::{
    start_drain, start_fan_out, DrainAction, DrainReply, DrainRunStep, FanOutAction, FanOutReply,
    FanOutRun, FanOutStep, PeerAction, PeerAnswer,
};
use jellyswarrm::watched_sync::{PeerStep, QueueAction, UserSessions};

fn movie(id: &str) -> MatchKey {
    MatchKey::Provider(vec![(id.to_string(), "tt1".to_string())])
}

fn seen() -> ItemUserData {
    ItemUserData { played: true, play_count: 3, ..ItemUserData::default() }
}

fn source() -> FanOutReply {
    FanOutReply::Source { key: movie("Imdb"), user_data: seen() }
}

fn told(answer: PeerAnswer) -> FanOutReply {
    FanOutReply::Peer(answer)
}

fn present() -> PeerAnswer {
    PeerAnswer::Title(Some("item9".to_string()))
}

fn start(servers: Vec<i64>) -> FanOutRun {
    start_fan_out(servers, 1, "item1".to_string())
}

#[test]
fn every_peer_of_a_fan_out_is_settled() {
    let mut run = start(vec![2, 1, 3, 2, 4]);
    assert_eq!(run.pending(), Some((1, FanOutStep::SourceClient)));
    run.reply(FanOutReply::Done);
    assert_eq!(run.pending(), Some((1, FanOutStep::ReadSource)));
    run.reply(source());

    // the first peer knows the title
    assert_eq!(run.pending(), Some((0, FanOutStep::Peer(PeerStep::Client))));
    run.reply(told(PeerAnswer::Done));
    run.reply(told(present()));
    assert_eq!(run.pending(), Some((0, FanOutStep::Peer(PeerStep::Apply))));
    run.reply(told(PeerAnswer::Done));
    assert_eq!(run.pending(), Some((0, FanOutStep::Queue(QueueAction::Remove))));
    run.reply(FanOutReply::Done);

    // the second does not have it
    run.reply(told(PeerAnswer::Done));
    run.reply(told(PeerAnswer::Unknown));
    run.reply(told(PeerAnswer::Title(None)));
    assert_eq!(run.pending(), Some((2, FanOutStep::Peer(PeerStep::Remember { present: false }))));
    run.reply(told(PeerAnswer::Done));
    assert_eq!(run.pending(), Some((2, FanOutStep::Queue(QueueAction::Remove))));
    run.reply(FanOutReply::Done);

    // the third takes too long
    assert_eq!(run.pending(), Some((4, FanOutStep::Peer(PeerStep::Client))));
    run.reply(told(PeerAnswer::Done));
    run.reply(FanOutReply::TimedOut);
    assert_eq!(run.pending(), Some((4, FanOutStep::Queue(QueueAction::Enqueue))));
    run.reply(FanOutReply::Done);
    assert_eq!(run.pending(), None);
    assert!(run.action().is_none());
}

#[test]
fn peers_get_what_the_source_had() {
    let mut run = start(vec![2, 1, 3]);
    assert!(matches!(run.action(), Some(FanOutAction::SourceClient { session: 1 })));
    run.reply(FanOutReply::Done);
    match run.action() {
        Some(FanOutAction::ReadSource { session, item }) => {
            assert_eq!((session, item.as_str()), (1, "item1"));
        }
        other => panic!("{:?}", other),
    }
    run.reply(source());

    let peer = |run: &FanOutRun| match run.action() {
        Some(FanOutAction::Peer { session: 0, server_id: 2, action }) => action,
        other => panic!("{:?}", other),
    };
    assert!(matches!(peer(&run), PeerAction::Client));
    run.reply(told(PeerAnswer::Done));
    match peer(&run) {
        PeerAction::AskCache { title } => assert_eq!(title, "imdb.tt1"),
        other => panic!("{:?}", other),
    }
    run.reply(told(PeerAnswer::Unknown));
    match peer(&run) {
        PeerAction::Search { key } => assert_eq!(key, movie("Imdb")),
        other => panic!("{:?}", other),
    }
    run.reply(told(present()));
    match peer(&run) {
        PeerAction::Remember { title, item } => {
            assert_eq!((title.as_str(), item.as_deref()), ("imdb.tt1", Some("item9")));
        }
        other => panic!("{:?}", other),
    }
    run.reply(told(PeerAnswer::Done));
    match peer(&run) {
        PeerAction::Apply { item, user_data } => {
            assert_eq!(item, "item9");
            assert_eq!(user_data, seen());
        }
        other => panic!("{:?}", other),
    }
    run.reply(told(PeerAnswer::Done));
    match run.action() {
        Some(FanOutAction::Remove { session, server_id, title }) => {
            assert_eq!((session, server_id, title.as_str()), (0, 2, "imdb.tt1"));
        }
        other => panic!("{:?}", other),
    }
    run.reply(FanOutReply::Done);

    // the other peer cannot be reached: the same change is queued for it
    run.reply(told(PeerAnswer::Failed));
    match run.action() {
        Some(FanOutAction::Enqueue { session, server_id, change }) => {
            assert_eq!((session, server_id), (2, 3));
            assert_eq!(change.title, "imdb.tt1");
            assert_eq!(change.key, movie("Imdb"));
            assert_eq!(change.user_data, seen());
        }
        other => panic!("{:?}", other),
    }
}

#[test]
fn fan_outs_may_have_nothing_to_do() {
    assert_eq!(start(vec![2, 3]).pending(), None);
    assert_eq!(start(vec![1, 1]).pending(), None);
    let mut run = start(vec![1, 2]);
    run.reply(FanOutReply::Failed);
    assert_eq!(run.pending(), None);
    let nameless = FanOutReply::Source { key: movie("TmdbCollection"), user_data: seen() };
    for reply in [FanOutReply::Failed, nameless] {
        let mut run = start(vec![1, 2]);
        run.reply(FanOutReply::Done);
        run.reply(reply);
        assert_eq!(run.pending(), None);
    }
}

fn queued(server_id: i64) -> QueueEntry {
    QueueEntry {
        id: 100 + server_id,
        user_id: format!("u{}", server_id),
        server_id,
        title_key: "imdb.tt1".to_string(),
        match_key: movie("Imdb"),
        user_data: seen(),
        attempts: 0,
        updated_at: 0,
    }
}

#[test]
fn drains_deal_with_every_entry() {
    let mut run = start_drain((1..6).map(queued).collect());
    // ejected: left alone
    assert_eq!(run.pending(), Some((0, DrainRunStep::Health)));
    assert!(matches!(run.action(), Some((0, DrainAction::Health { server_id: 1 }))));
    run.reply(DrainReply::Ejected(true));
    // the user is gone: removed
    assert_eq!(run.pending(), Some((1, DrainRunStep::Health)));
    run.reply(DrainReply::Ejected(false));
    assert_eq!(run.pending(), Some((1, DrainRunStep::Sessions)));
    match run.action() {
        Some((1, DrainAction::Sessions { user_id })) => assert_eq!(user_id, "u2"),
        other => panic!("{:?}", other),
    }
    run.reply(DrainReply::Sessions(UserSessions::Gone));
    assert_eq!(run.pending(), Some((1, DrainRunStep::Act(QueueAction::Remove))));
    run.reply(DrainReply::Done);
    // no session: an attempt is counted
    run.reply(DrainReply::Ejected(false));
    run.reply(DrainReply::Sessions(UserSessions::Servers(vec![1])));
    assert_eq!(run.pending(), Some((2, DrainRunStep::Act(QueueAction::Bump))));
    match run.action() {
        Some((2, DrainAction::Act { id, action })) => {
            assert_eq!((id, action), (103, QueueAction::Bump));
        }
        other => panic!("{:?}", other),
    }
    run.reply(DrainReply::Done);
    // sessions cannot be read: left alone
    run.reply(DrainReply::Ejected(false));
    run.reply(DrainReply::Sessions(UserSessions::Unreadable));
    // tried, and failed
    run.reply(DrainReply::Ejected(false));
    run.reply(DrainReply::Sessions(UserSessions::Servers(vec![1, 5, 5])));
    assert_eq!(
        run.pending(),
        Some((4, DrainRunStep::Peer { session: 1, step: PeerStep::Client }))
    );
    run.reply(DrainReply::Peer(PeerAnswer::Done));
    run.reply(DrainReply::Peer(present()));
    match run.action() {
        Some((
            4,
            DrainAction::Peer {
                session: 1,
                server_id: 5,
                action: PeerAction::Apply { item, user_data },
            },
        )) => {
            assert_eq!(item, "item9");
            assert_eq!(user_data, seen());
        }
        other => panic!("{:?}", other),
    }
    run.reply(DrainReply::Peer(PeerAnswer::Failed));
    assert_eq!(run.pending(), Some((4, DrainRunStep::Act(QueueAction::Bump))));
    run.reply(DrainReply::Done);
    assert_eq!(run.pending(), None);
    run.reply(DrainReply::Done);
    assert_eq!(run.pending(), None);
    assert!(run.action().is_none());
}
