use jellyswarrm::backend_health::{BackendHealth, CallFailure};
use jellyswarrm::federated::{
    add_provider_ids, address_for_backend, after_call, ensure_provider_ids_field,
    get_items_from_all_servers_if_not_restricted, is_restricted, parent_id_from_query,
    parent_override, replace_parent, route, scope_server_id, sessions_to_ask, set_parent_id,
    CallEnd, HealthNote, Refusal, Route,
};
use jellyswarrm::items::{find_value, ItemKind};
use jellyswarrm::merging::{
    get_items_from_all_servers, interleave, order_arrivals, MediaItem, Shape,
};
use jellyswarrm::server_nav::{list_servers, scope_value};
use jellyswarrm::urls::{
    pairs_of, room_to_append, room_to_grow, resolve, size_of_text, with_query, MAX_BYTES,
};
use jellyswarrm::view_merge::ViewMergeRegistry;

fn pairs(p: &[(&str, &str)]) -> Vec<(String, String)> {
    p.iter().map(|(k, v)| (k.to_string(), v.to_string())).collect()
}

#[test]
fn restricted_queries() {
    assert!(is_restricted("userId=1&ParentId=abc"));
    assert!(is_restricted("SERIESID=1"));
    assert!(is_restricted("xPaReNtIdx"));
    assert!(is_restricted("\u{17f}erie\u{17f}id=1"));
    assert!(!is_restricted("userId=1&Recursive=true"));
    assert!(!is_restricted("parent_id=1"));
    assert!(!is_restricted("par\u{e9}ntid=1"));
    assert!(!is_restricted(""));
}

#[test]
fn parent_is_read_from_the_query() {
    assert_eq!(parent_id_from_query("a=1&parentid=x%20y&ParentId=z").as_deref(), Some("x y"));
    assert_eq!(parent_id_from_query("a=1"), None);
}

#[test]
fn merged_libraries_fan_out() {
    let mut registry = ViewMergeRegistry::new();
    registry.register(
        "v".to_string(),
        vec![(1, "v".to_string()), (2, "w".to_string())],
    );
    match get_items_from_all_servers_if_not_restricted(Some("ParentId=v"), &registry) {
        Route::Members(m) => assert_eq!(m, vec![(1, "v".to_string()), (2, "w".to_string())]),
        other => panic!("{:?}", other),
    }
    assert!(matches!(
        get_items_from_all_servers_if_not_restricted(Some("ParentId=q"), &registry),
        Route::OneServer
    ));
    assert!(matches!(
        get_items_from_all_servers_if_not_restricted(Some("SeriesId=v"), &registry),
        Route::OneServer
    ));
    assert!(matches!(
        get_items_from_all_servers_if_not_restricted(Some("Recursive=true"), &registry),
        Route::AllServers
    ));
    assert!(matches!(
        get_items_from_all_servers_if_not_restricted(None, &registry),
        Route::AllServers
    ));
    assert!(matches!(route(false, Some("v"), &registry), Route::AllServers));
    assert!(matches!(route(true, None, &registry), Route::OneServer));
}

#[test]
fn each_backend_browses_its_own_library() {
    let members = vec![(1, "a".to_string()), (2, "b".to_string()), (1, "c".to_string())];
    assert_eq!(parent_override(&members, 1).as_deref(), Some("c"));
    assert_eq!(parent_override(&members, 2).as_deref(), Some("b"));
    assert_eq!(parent_override(&members, 3), None);
}

#[test]
fn scope_is_a_server_id() {
    assert_eq!(scope_server_id(Some("7")), Some(7));
    assert_eq!(scope_server_id(Some("-7")), Some(-7));
    assert_eq!(scope_server_id(Some("")), None);
    assert_eq!(scope_server_id(Some("x7")), None);
    assert_eq!(scope_server_id(Some("99999999999999999999")), None);
    assert_eq!(scope_server_id(None), None);
}

#[test]
fn switcher_values_scope_to_their_backend() {
    for id in [0, 1, -1, 42, i64::MAX, i64::MIN] {
        assert_eq!(scope_server_id(Some(&scope_value(id))), Some(id));
    }
    let shown = list_servers(&vec![(3, "Alpha".to_string())]);
    assert_eq!((shown[0].id, shown[0].name.as_str()), (3, "Alpha"));
}

#[test]
fn ejected_backends_are_not_asked() {
    let now = 5_000_000_000_000;
    let mut health = BackendHealth::new();
    for _ in 0..5 {
        health.record_failure(2, now);
    }
    let servers = vec![1, 2, 3];
    assert_eq!(sessions_to_ask(&servers, &mut health, None, now), Ok(vec![0, 2]));
    assert_eq!(sessions_to_ask(&servers, &mut health, Some(3), now), Ok(vec![2]));
    assert_eq!(sessions_to_ask(&servers, &mut health, Some(2), now), Err(Refusal::Unavailable));
    assert_eq!(sessions_to_ask(&vec![2], &mut health, None, now), Err(Refusal::Unavailable));
    assert_eq!(sessions_to_ask(&vec![], &mut health, None, now), Err(Refusal::Unauthorized));
}

#[test]
fn calls_are_noted() {
    assert_eq!(after_call(CallEnd::Items), HealthNote::Success);
    assert_eq!(after_call(CallEnd::Unprocessable), HealthNote::Nothing);
    assert_eq!(after_call(CallEnd::Failed(CallFailure::Timeout)), HealthNote::Failure);
    assert_eq!(after_call(CallEnd::Failed(CallFailure::Status(502))), HealthNote::Failure);
    assert_eq!(after_call(CallEnd::Failed(CallFailure::Status(403))), HealthNote::Nothing);
}

#[test]
fn provider_ids_are_asked_for() {
    assert_eq!(
        add_provider_ids(&pairs(&[("a", "1")])),
        pairs(&[("a", "1"), ("Fields", "ProviderIds")])
    );
    assert_eq!(
        add_provider_ids(&pairs(&[("fields", "Path"), ("FIELDS", "providerIDS")])),
        pairs(&[("fields", "Path,ProviderIds"), ("FIELDS", "providerIDS")])
    );
    assert_eq!(
        ensure_provider_ids_field("http://h/Items?Fields=Path&x=1#f").as_deref(),
        Some("http://h/Items?Fields=Path%2CProviderIds&x=1#f")
    );
    assert_eq!(
        ensure_provider_ids_field("http://h/Items").as_deref(),
        Some("http://h/Items?Fields=ProviderIds")
    );
    assert_eq!(ensure_provider_ids_field("nonsense"), None);
}

#[test]
fn parent_is_replaced() {
    assert_eq!(
        replace_parent(&pairs(&[("parentid", "a"), ("x", "1"), ("ParentId", "b")]), "c"),
        pairs(&[("x", "1"), ("ParentId", "c")])
    );
    let url = set_parent_id("http://h/Items?ParentId=a&x=1", "b c").unwrap();
    assert_eq!(url, "http://h/Items?x=1&ParentId=b+c");
    assert_eq!(
        find_value(&replace_parent(&pairs(&[("PARENTID", "a")]), "z"), "ParentId").as_deref(),
        Some("z")
    );
    assert_eq!(set_parent_id("nonsense", "a"), None);
}

#[test]
fn queries_may_be_long() {
    let long = vec![("k".to_string(), "v".repeat(20_000_000))];
    let address = with_query("http://h/?a=b#c", &long).unwrap();
    assert_eq!(address.len(), "http://h/?k=".len() + 20_000_000 + "#c".len());
    assert_eq!(
        with_query("http://h/", &pairs(&[("k", "v")])).as_deref(),
        Some("http://h/?k=v")
    );
    assert_eq!(with_query("nonsense", &pairs(&[])), None);
    assert_eq!(pairs_of("http://h/?a=b+c#d"), Some(pairs(&[("a", "b c")])));
    assert_eq!(pairs_of("nonsense"), None);
}

#[test]
fn sizes_are_those_of_what_is_written() {
    assert_eq!(size_of_text("aZ09*-._ "), Some(9));
    assert_eq!(size_of_text("~&="), Some(9));
    assert_eq!(size_of_text("\u{e9}"), Some(6));
    for text in ["", "a b", "~!@#$%^&*()", "\u{20ac}x"] {
        let written = with_query("http://h/", &pairs(&[("k", text)])).unwrap();
        let size = "http://h/?k=".len() as u64 + size_of_text(text).unwrap();
        assert_eq!(written.len() as u64, size);
    }
}

#[test]
fn only_what_is_counted_is_bounded() {
    // without a fragment nothing stands behind the query
    assert!(room_to_append("http://h/?a", None));
    assert!(room_to_append("http://h/?a", Some(MAX_BYTES)));
    // with one its place must be countable
    assert!(!room_to_append("http://h/?a#f", None));
    assert!(!room_to_append("http://h/?a#f", Some(MAX_BYTES)));
    assert!(room_to_append("http://h/?a#f", Some(MAX_BYTES - 12)));
    assert!(!room_to_append("http://h/?a#f", Some(MAX_BYTES - 11)));
    // an empty query needs no mark before the pairs
    assert!(room_to_append("http://h/?#f", Some(MAX_BYTES - 10)));
    assert!(!room_to_append("http://h/?#f", Some(MAX_BYTES - 9)));
    assert!(room_to_grow("http://h/a", MAX_BYTES - 10));
    assert!(!room_to_grow("http://h/a", MAX_BYTES - 9));
    assert!(!room_to_grow("http://h/a#f", MAX_BYTES - 9));
    assert!(room_to_grow("mailto:a", MAX_BYTES));
    assert_eq!(resolve("http://h/a/b", "c?d").as_deref(), Ok("http://h/a/c?d"));
    assert!(resolve("mailto:a", "c").is_err());
}

fn movie(id: &str) -> MediaItem {
    MediaItem {
        source: 0,
        id: id.to_string(),
        name: None,
        item_type: ItemKind::Movie,
        collection_type: None,
        provider_ids: None,
    }
}

#[test]
fn answers_are_put_in_server_order() {
    let arrived = vec![(2, true), (0, true), (3, false), (1, true)];
    assert_eq!(order_arrivals(&arrived), vec![1, 3, 0]);
    assert_eq!(order_arrivals(&vec![]), Vec::<usize>::new());
}

#[test]
fn listings_without_dedup_keep_everything() {
    let answers = vec![(1, vec![movie("a")]), (2, vec![movie("a")])];
    let mut registry = ViewMergeRegistry::new();
    let (items, shape) = get_items_from_all_servers(
        interleave(&answers),
        None,
        &vec![true, false],
        &mut registry,
    );
    assert_eq!(items.len(), 2);
    assert_eq!(shape, Shape::WithCount { total_record_count: 2, start_index: 0 });
    let servers = vec![Some(1), Some(2)];
    let (items, shape) = get_items_from_all_servers(
        interleave(&answers),
        Some(&servers),
        &vec![false, false],
        &mut registry,
    );
    assert_eq!(items.len(), 2);
    assert_eq!(shape, Shape::Bare);
}

#[test]
fn backends_are_asked_for_their_own_library() {
    let members = vec![(1, "a".to_string()), (2, "b".to_string())];
    let url = "http://h/Items?ParentId=m&x=1";
    assert_eq!(
        address_for_backend(url, true, Some(&members), 2),
        "http://h/Items?x=1&Fields=ProviderIds&ParentId=b"
    );
    assert_eq!(address_for_backend(url, false, Some(&members), 3), url);
    assert_eq!(
        address_for_backend(url, true, None, 2),
        "http://h/Items?ParentId=m&x=1&Fields=ProviderIds"
    );
    assert_eq!(address_for_backend("nonsense", true, Some(&members), 1), "nonsense");
}
