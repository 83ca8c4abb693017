use jellyswarrm::items::{
    item_segment, media_source_id, pin_to_media_source, pinned_target, post_playback_info,
    rewrite_item_segment, source_of, version_identity, ItemKind, VersionIdentity,
};
use jellyswarrm::json::Json;
use jellyswarrm::match_key::MatchKey;
use jellyswarrm::versions::{
    aggregate_versions, SourcePlace, VersionAction, VersionReply, VersionStep,
};

#[test]
fn item_segment_follows_items_or_videos() {
    assert_eq!(item_segment("/Items/abc/PlaybackInfo").as_deref(), Some("abc"));
    assert_eq!(item_segment("/videos/xyz/stream").as_deref(), Some("xyz"));
    assert_eq!(item_segment("/Users/u/Items/abc").as_deref(), Some("abc"));
    assert_eq!(item_segment("/Items/"), None);
    assert_eq!(item_segment("/Items"), None);
    assert_eq!(item_segment("/Items//Videos/v").as_deref(), Some("v"));
    assert_eq!(item_segment("/System/Info"), None);
}

#[test]
fn rewriting_replaces_the_item_only() {
    assert_eq!(
        rewrite_item_segment("/Items/abc/PlaybackInfo", "new").as_deref(),
        Some("/Items/new/PlaybackInfo")
    );
    assert_eq!(
        rewrite_item_segment("/Videos/a/Items/b", "n").as_deref(),
        Some("/Videos/n/Items/b")
    );
    assert_eq!(rewrite_item_segment("/System", "n"), None);
    let p = rewrite_item_segment("/x/VIDEOS/old/stream.mp4", "fresh").unwrap();
    assert_eq!(item_segment(&p).as_deref(), Some("fresh"));
}

#[test]
fn media_source_in_query_counts_first() {
    let body = br#"{"MediaSourceId":"from-body"}"#;
    assert_eq!(
        media_source_id(Some("a=1&mediasourceid=from%2Dquery"), body).as_deref(),
        Some("from-query")
    );
    assert_eq!(media_source_id(Some("a=1"), body).as_deref(), Some("from-body"));
    assert_eq!(media_source_id(None, body).as_deref(), Some("from-body"));
    assert_eq!(media_source_id(Some("MediaSourceId="), body), None);
    assert_eq!(media_source_id(None, br#"{"MediaSourceId":""}"#), None);
    assert_eq!(media_source_id(None, br#"{"MediaSourceId":5}"#), None);
    assert_eq!(media_source_id(None, b"not json"), None);
    assert_eq!(media_source_id(None, b""), None);
}

#[test]
fn source_of_plain_values() {
    let pairs = vec![("MEDIASOURCEID".to_string(), "q".to_string())];
    let body = Json::Object(vec![("MediaSourceId".to_string(), Json::Text("b".to_string()))]);
    assert_eq!(source_of(Some(&pairs), Some(&body)).as_deref(), Some("q"));
    assert_eq!(source_of(None, Some(&body)).as_deref(), Some("b"));
    assert_eq!(source_of(None, None), None);
}

#[test]
fn only_another_source_is_looked_up() {
    assert_eq!(
        pin_to_media_source("/Items/a/PlaybackInfo", Some("b".to_string())),
        Some(("a".to_string(), "b".to_string()))
    );
    assert_eq!(pin_to_media_source("/Items/a", Some("a".to_string())), None);
    assert_eq!(pin_to_media_source("/Items/a", Some(String::new())), None);
    assert_eq!(pin_to_media_source("/Items/a", None), None);
    assert_eq!(pin_to_media_source("/System", Some("b".to_string())), None);
}

#[test]
fn routing_is_pinned_to_another_backend_only() {
    assert_eq!(
        pinned_target("/Items/a/PlaybackInfo", Some("x=1"), "b", Some(2), Some(1)).as_deref(),
        Some("/Items/b/PlaybackInfo?x=1")
    );
    assert_eq!(
        pinned_target("/Videos/a/stream", None, "b", Some(2), None).as_deref(),
        Some("/Videos/b/stream")
    );
    assert_eq!(pinned_target("/Items/a", None, "b", Some(1), Some(1)), None);
    assert_eq!(pinned_target("/Items/a", None, "b", None, Some(1)), None);
    assert_eq!(pinned_target("/Items/a", None, "b", None, None), None);
}

#[test]
fn versions_are_found_by_identity() {
    let ids = Json::Object(vec![("Imdb".to_string(), Json::Text("tt1".to_string()))]);
    match version_identity(ItemKind::Movie, Some(&ids)) {
        VersionIdentity::Known(k) => assert_eq!(k.cache_key(), "imdb.tt1"),
        other => panic!("{:?}", other),
    }
    assert!(matches!(
        version_identity(ItemKind::Movie, None),
        VersionIdentity::Unversioned
    ));
    assert!(matches!(version_identity(ItemKind::Episode, None), VersionIdentity::AskHome));
    assert!(matches!(
        version_identity(ItemKind::Other, Some(&ids)),
        VersionIdentity::Unversioned
    ));
}

fn sessions() -> Vec<(i64, String)> {
    [(1, "Home"), (2, "Two"), (1, "Home"), (3, "Three")]
        .iter()
        .map(|(id, name)| (*id, name.to_string()))
        .collect()
}

fn virtual_id() -> String {
    "virtual".to_string()
}

fn item(id: &str) -> VersionReply {
    VersionReply::Item(id.to_string())
}

/// What a step is answered with when it works.
fn answer(step: VersionStep) -> VersionReply {
    match step {
        VersionStep::HomeMapping | VersionStep::Search => item("there"),
        _ => VersionReply::Done,
    }
}

fn imdb() -> Json {
    Json::Object(vec![("Imdb".to_string(), Json::Text("tt1".to_string()))])
}

#[test]
fn versions_are_collected_elsewhere() {
    let mut v = aggregate_versions(virtual_id(), ItemKind::Movie, Some(&imdb()), 1, sessions());
    assert!(v.key().is_some());
    for step in [VersionStep::Client, VersionStep::Search, VersionStep::Sources] {
        assert_eq!(v.pending(), Some((1, step)));
        v.reply(answer(step));
    }
    assert_eq!(v.pending(), Some((1, VersionStep::Collect)));
    v.reply(VersionReply::Collected(vec![Some(7), None, Some(8)]));
    for step in [VersionStep::Client, VersionStep::Search, VersionStep::Sources] {
        assert_eq!(v.pending(), Some((3, step)));
        v.reply(answer(step));
    }
    v.reply(VersionReply::Collected(vec![Some(9)]));
    assert_eq!(v.pending(), None);
    let sources = v.labelled_sources(2, "Home").unwrap();
    let sources: Vec<(SourcePlace, &str)> =
        sources.iter().map(|(s, n)| (*s, n.as_str())).collect();
    assert_eq!(
        sources,
        vec![
            (SourcePlace::Own(0), "Home"),
            (SourcePlace::Own(1), "Home"),
            (SourcePlace::Added(7), "Two"),
            (SourcePlace::Added(8), "Two"),
            (SourcePlace::Added(9), "Three"),
        ]
    );
}

#[test]
fn sources_are_read_of_the_title_that_was_found() {
    let mut v = aggregate_versions(virtual_id(), ItemKind::Movie, Some(&imdb()), 1, sessions());
    assert!(matches!(v.action(), Some(VersionAction::Client { session: 1 })));
    v.reply(VersionReply::Done);
    match v.action() {
        Some(VersionAction::Search { session, key }) => {
            assert_eq!((session, key.cache_key().as_str()), (1, "imdb.tt1"))
        }
        other => panic!("{:?}", other),
    }
    v.reply(item("on two"));
    match v.action() {
        Some(VersionAction::Sources { session, item }) => {
            assert_eq!((session, item.as_str()), (1, "on two"))
        }
        other => panic!("{:?}", other),
    }
    v.reply(VersionReply::Done);
    match v.action() {
        Some(VersionAction::Collect { session, name }) => {
            assert_eq!((session, name.as_str()), (1, "Two"))
        }
        other => panic!("{:?}", other),
    }
    v.reply(VersionReply::Collected(vec![]));
    // a lookup that names nothing is a failure
    v.reply(VersionReply::Done);
    v.reply(VersionReply::Done);
    assert!(v.action().is_none());
}

#[test]
fn a_failed_step_skips_the_backend() {
    for n in 0..3 {
        let mut v = aggregate_versions(virtual_id(), ItemKind::Movie, Some(&imdb()), 1, sessions());
        for _ in 0..n {
            let step = v.pending().unwrap().1;
            v.reply(answer(step));
        }
        v.reply(VersionReply::Failed);
        assert_eq!(v.pending(), Some((3, VersionStep::Client)));
        v.reply(VersionReply::Failed);
        assert_eq!(v.pending(), None);
        assert!(v.labelled_sources(0, "Home").unwrap().is_empty());
    }
}

#[test]
fn episodes_are_known_by_their_own_backend() {
    let key = |id: &str| MatchKey::Episode {
        series: vec![(id.to_string(), "x".to_string())],
        season: 1,
        episode: 2,
    };
    let mut v = aggregate_versions(virtual_id(), ItemKind::Episode, None, 1, sessions());
    assert!(v.key().is_none());
    assert_eq!(v.pending(), Some((0, VersionStep::HomeMapping)));
    match v.action() {
        Some(VersionAction::HomeMapping { item }) => assert_eq!(item, "virtual"),
        other => panic!("{:?}", other),
    }
    v.reply(item("at home"));
    assert_eq!(v.pending(), Some((0, VersionStep::HomeClient)));
    v.reply(VersionReply::Done);
    assert_eq!(v.pending(), Some((0, VersionStep::HomeKey)));
    match v.action() {
        Some(VersionAction::HomeKey { session, item }) => {
            assert_eq!((session, item.as_str()), (0, "at home"))
        }
        other => panic!("{:?}", other),
    }
    v.reply(VersionReply::Key(key("Tvdb")));
    assert_eq!(v.key(), Some(&key("Tvdb")));
    assert_eq!(v.pending(), Some((1, VersionStep::Client)));

    // a key without identifying ids, or none at all, ends the collection
    for reply in [VersionReply::Key(key("TmdbCollection")), VersionReply::Failed, VersionReply::Done] {
        let mut v = aggregate_versions(virtual_id(), ItemKind::Episode, None, 1, sessions());
        v.reply(item("at home"));
        v.reply(VersionReply::Done);
        v.reply(reply);
        assert_eq!(v.pending(), None);
        assert!(v.key().is_none());
    }
    let mut v = aggregate_versions(virtual_id(), ItemKind::Episode, None, 9, sessions());
    v.reply(item("at home"));
    assert_eq!(v.pending(), None);
}

#[test]
fn other_items_have_no_versions() {
    let mut v = aggregate_versions(virtual_id(), ItemKind::Other, Some(&imdb()), 1, sessions());
    assert_eq!(v.pending(), None);
    v.reply(VersionReply::Collected(vec![Some(1)]));
    assert!(v.labelled_sources(1, "Home").is_none());
    let v = aggregate_versions(virtual_id(), ItemKind::Movie, None, 1, sessions());
    assert_eq!(v.pending(), None);
    assert!(v.labelled_sources(1, "Home").is_none());
}

#[test]
fn playback_ids_are_those_of_the_backend() {
    let s = |t: &str| Some(t.to_string());
    assert_eq!(post_playback_info(s("u"), s("virt"), "real", s("orig")), (s("real"), s("orig")));
    assert_eq!(post_playback_info(s("u"), s("virt"), "real", None), (s("real"), s("virt")));
    assert_eq!(post_playback_info(None, None, "real", s("orig")), (None, None));
}
