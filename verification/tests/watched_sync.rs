use jellyswarrm::match_key::{ItemUserData, MatchKey};
use jellyswarrm::sync_queue::{WatchedSyncQueue, DRAIN_LIMIT, MAX_RETRY_ATTEMPTS};
use jellyswarrm::watched_sync::{
    after_drain, after_fan_out, drain_queue, fan_out, favorite_item_id_from_path,
    is_playing_report_path, played_item_id_from_path, retry_interval, sync_one_peer, sync_title,
    user_action_item_id, DrainStep, PeerOutcome, PeerProgress, PeerReply, PeerStep, QueueAction,
    UserSessions,
};

#[test]
fn parses_played_items_path() {
    assert_eq!(
        played_item_id_from_path("/Users/abc123/PlayedItems/item789"),
        Some("item789")
    );
}

#[test]
fn parses_favorite_items_path() {
    assert_eq!(favorite_item_id_from_path("/Users/abc/FavoriteItems/xyz"), Some("xyz"));
    assert_eq!(played_item_id_from_path("/Users/abc/FavoriteItems/xyz"), None);
}

#[test]
fn rejects_unrelated_paths() {
    assert_eq!(played_item_id_from_path("/Users/abc/Items/xyz"), None);
    assert_eq!(played_item_id_from_path("/Users/abc/PlayedItems/"), None);
    assert_eq!(played_item_id_from_path("/Users/abc/PlayedItems/x/extra"), None);
    assert_eq!(played_item_id_from_path("/System/Info"), None);
}

#[test]
fn recognizes_playing_report_paths() {
    assert!(is_playing_report_path("/Sessions/Playing"));
    assert!(is_playing_report_path("/Sessions/Playing/Progress"));
    assert!(is_playing_report_path("/Sessions/Playing/Stopped"));
    assert!(!is_playing_report_path("/Sessions/Playing/Ping"));
    assert!(!is_playing_report_path("/Items"));
}

#[test]
fn report_paths_may_end_with_slashes() {
    assert!(is_playing_report_path("/Sessions/Playing//"));
    assert!(!is_playing_report_path("Sessions/Playing"));
}

#[test]
fn action_paths_edge_cases() {
    assert_eq!(user_action_item_id("/Users//PlayedItems/x", "PlayedItems"), Some("x"));
    assert_eq!(user_action_item_id("/Users/ü/PlayedItems/é1", "PlayedItems"), Some("é1"));
    assert_eq!(user_action_item_id("/Users/a/PlayedItems", "PlayedItems"), None);
    assert_eq!(user_action_item_id("/Users/a/PlayedItemsX/b", "PlayedItems"), None);
    assert_eq!(user_action_item_id("/users/a/PlayedItems/b", "PlayedItems"), None);
    assert_eq!(user_action_item_id("/Users/a", "PlayedItems"), None);
    assert_eq!(user_action_item_id("", "PlayedItems"), None);
}

#[test]
fn fan_out_takes_one_session_per_server() {
    let f = fan_out(&vec![3, 1, 3, 2, 1, 2], 1).unwrap();
    assert_eq!(f.source, 1);
    assert_eq!(f.peers, vec![0, 3]);
}

#[test]
fn fan_out_needs_a_source_and_a_peer() {
    assert!(fan_out(&vec![2, 3], 1).is_none());
    assert!(fan_out(&vec![1, 1], 1).is_none());
    assert!(fan_out(&vec![], 1).is_none());
}

#[test]
fn only_matchable_titles_are_synced() {
    let key = MatchKey::Provider(vec![("Imdb".into(), "tt1".into())]);
    assert_eq!(sync_title(&key).as_deref(), Some("imdb.tt1"));
    let collection = MatchKey::Provider(vec![("TmdbCollection".into(), "1".into())]);
    assert_eq!(sync_title(&collection), None);
}

#[test]
fn failed_lookup_is_not_cached() {
    assert_eq!(
        sync_one_peer(PeerStep::Client, PeerReply::Done),
        PeerProgress::Go(PeerStep::AskCache)
    );
    assert_eq!(
        sync_one_peer(PeerStep::AskCache, PeerReply::Unknown),
        PeerProgress::Go(PeerStep::Search)
    );
    assert_eq!(
        sync_one_peer(PeerStep::Search, PeerReply::Failed),
        PeerProgress::End(PeerOutcome::Failed)
    );
    assert_eq!(
        sync_one_peer(PeerStep::Search, PeerReply::Title { present: false }),
        PeerProgress::Go(PeerStep::Remember { present: false })
    );
    assert_eq!(
        sync_one_peer(PeerStep::Remember { present: false }, PeerReply::Done),
        PeerProgress::End(PeerOutcome::NoMatch)
    );
}

#[test]
fn known_title_is_applied() {
    assert_eq!(
        sync_one_peer(PeerStep::AskCache, PeerReply::Title { present: true }),
        PeerProgress::Go(PeerStep::Apply)
    );
    assert_eq!(
        sync_one_peer(PeerStep::Apply, PeerReply::Done),
        PeerProgress::End(PeerOutcome::Synced)
    );
    assert_eq!(
        sync_one_peer(PeerStep::Apply, PeerReply::Failed),
        PeerProgress::End(PeerOutcome::Failed)
    );
    assert_eq!(
        sync_one_peer(PeerStep::Client, PeerReply::Failed),
        PeerProgress::End(PeerOutcome::Failed)
    );
}

#[test]
fn outcomes_drive_the_queue() {
    assert_eq!(after_fan_out(PeerOutcome::Synced), QueueAction::Remove);
    assert_eq!(after_fan_out(PeerOutcome::NoMatch), QueueAction::Remove);
    assert_eq!(after_fan_out(PeerOutcome::Failed), QueueAction::Enqueue);
    assert_eq!(after_drain(PeerOutcome::Synced), QueueAction::Remove);
    assert_eq!(after_drain(PeerOutcome::NoMatch), QueueAction::Remove);
    assert_eq!(after_drain(PeerOutcome::Failed), QueueAction::Bump);
}

#[test]
fn draining_decides_by_user_and_backend() {
    let servers = UserSessions::Servers(vec![4, 9, 7, 9]);
    assert_eq!(drain_queue(false, &servers, 9), DrainStep::Try(1));
    assert_eq!(drain_queue(true, &servers, 9), DrainStep::Settle(QueueAction::Keep));
    assert_eq!(drain_queue(false, &servers, 5), DrainStep::Settle(QueueAction::Bump));
    assert_eq!(
        drain_queue(false, &UserSessions::Gone, 9),
        DrainStep::Settle(QueueAction::Remove)
    );
    assert_eq!(
        drain_queue(false, &UserSessions::Unreadable, 9),
        DrainStep::Settle(QueueAction::Keep)
    );
}

#[test]
fn interval_is_five_seconds_at_least() {
    assert_eq!(retry_interval(0), 5);
    assert_eq!(retry_interval(4), 5);
    assert_eq!(retry_interval(60), 60);
}

fn key(id: &str) -> MatchKey {
    MatchKey::Provider(vec![("Imdb".into(), id.into())])
}

fn data(ticks: i64) -> ItemUserData {
    ItemUserData { playback_position_ticks: ticks, ..ItemUserData::default() }
}

#[test]
fn newer_intent_overwrites_and_resets_attempts() {
    let mut q = WatchedSyncQueue::new();
    q.enqueue("u", 1, "t", &key("tt1"), &data(10), 100);
    let id = q.list_pending()[0].id;
    q.bump(id, 110);
    q.bump(id, 120);
    assert_eq!(q.list_pending()[0].attempts, 2);
    q.enqueue("u", 1, "t", &key("tt2"), &data(20), 130);
    let rows = q.list_pending();
    assert_eq!(rows.len(), 1);
    assert_eq!(rows[0].id, id);
    assert_eq!(rows[0].attempts, 0);
    assert_eq!(rows[0].updated_at, 130);
    assert_eq!(rows[0].user_data, data(20));
    assert_eq!(rows[0].match_key, key("tt2"));
}

#[test]
fn rows_are_drained_longest_unchanged_first() {
    let mut q = WatchedSyncQueue::new();
    q.enqueue("u", 1, "a", &key("tt1"), &data(1), 300);
    q.enqueue("u", 2, "a", &key("tt1"), &data(1), 100);
    q.enqueue("v", 1, "a", &key("tt1"), &data(1), 200);
    let order: Vec<i64> = q.list_pending().iter().map(|r| r.updated_at).collect();
    assert_eq!(order, vec![100, 200, 300]);
    q.remove("u", 2, "a");
    assert_eq!(q.list_pending().len(), 2);
    let id = q.list_pending()[0].id;
    q.remove_by_id(id);
    assert_eq!(q.list_pending()[0].user_id, "u");
}

#[test]
fn exhausted_rows_are_given_up() {
    let mut q = WatchedSyncQueue::new();
    q.enqueue("u", 1, "a", &key("tt1"), &data(1), 0);
    let id = q.list_pending()[0].id;
    for _ in 0..(MAX_RETRY_ATTEMPTS - 1) {
        q.bump(id, 1);
    }
    assert_eq!(q.list_pending().len(), 1);
    q.bump(id, 2);
    assert!(q.list_pending().is_empty());
    q.purge_exhausted();
    q.enqueue("u", 1, "a", &key("tt1"), &data(1), 3);
    assert_eq!(q.list_pending()[0].id, id + 1);
}

#[test]
fn one_drain_takes_a_limited_number() {
    let mut q = WatchedSyncQueue::new();
    for i in 0..(DRAIN_LIMIT as i64 + 3) {
        assert!(q.has_room());
        q.enqueue("u", i, "a", &key("tt1"), &data(1), i);
    }
    assert_eq!(q.list_pending().len(), 500);
}

#[test]
fn stored_rows_are_restored() {
    let mut q = WatchedSyncQueue::new();
    q.enqueue("u", 1, "a", &key("tt1"), &data(1), 10);
    q.enqueue("u", 1, "b", &key("tt2"), &data(2), 20);
    let rows = q.list_pending();
    let mut again = WatchedSyncQueue::restore(rows.iter().map(|r| r.copy()).collect());
    assert_eq!(again.list_pending().len(), 2);
    again.enqueue("u", 1, "c", &key("tt3"), &data(3), 30);
    assert_eq!(again.list_pending()[2].id, rows[1].id + 1);
}

#[test]
fn stored_rows_give_way_to_later_ones() {
    let mut q = WatchedSyncQueue::new();
    q.enqueue("u", 1, "a", &key("tt1"), &data(1), 10);
    q.enqueue("u", 1, "b", &key("tt2"), &data(2), 20);
    let rows = q.list_pending();
    let mut newer = rows[0].copy();
    newer.id = 9;
    newer.updated_at = 30;
    let all = rows.iter().map(|r| r.copy()).chain(vec![newer]).collect();
    let kept = WatchedSyncQueue::restore(all).list_pending();
    let got: Vec<(i64, &str)> = kept.iter().map(|r| (r.id, r.title_key.as_str())).collect();
    assert_eq!(got, vec![(rows[1].id, "b"), (9, "a")]);
    let mut last = rows[0].copy();
    last.id = i64::MAX;
    let full = WatchedSyncQueue::restore(vec![last]);
    assert_eq!(full.list_pending().len(), 1);
    assert!(!full.has_room());
}
