use jellyswarrm::items::ItemKind;
use jellyswarrm::json::Json;
use jellyswarrm::merging::{
    base_name_of, dedup_and_register_views, dedup_movies_by_provider, interleave, movie_dedup_key,
    response_shape, MediaItem, Shape,
};
use jellyswarrm::view_merge::ViewMergeRegistry;

fn plain(id: &str, kind: ItemKind) -> MediaItem {
    MediaItem {
        source: 0,
        id: id.to_string(),
        name: None,
        item_type: kind,
        collection_type: None,
        provider_ids: None,
    }
}

fn ids(pairs: &[(&str, Json)]) -> Option<Json> {
    Some(Json::Object(pairs.iter().map(|(k, v)| (k.to_string(), v.copy())).collect()))
}

fn movie(id: &str, imdb: Option<&str>) -> MediaItem {
    let mut m = plain(id, ItemKind::Movie);
    if let Some(i) = imdb {
        m.provider_ids = ids(&[("Imdb", Json::Text(i.to_string()))]);
    }
    m
}

fn library(id: &str, name: &str, kind: &str) -> MediaItem {
    MediaItem {
        source: 0,
        id: id.to_string(),
        name: Some(name.to_string()),
        item_type: ItemKind::UserView,
        collection_type: Some(kind.to_string()),
        provider_ids: None,
    }
}

#[test]
fn keeps_highest_priority_copy_and_passes_through_rest() {
    let items = vec![
        (movie("a-lo", Some("tt1")), 50), // Movies2-ish (lower)
        (movie("a-hi", Some("tt1")), 100), // Movies (higher)
        (movie("b", Some("tt2")), 50),     // unique movie
        (movie("c-noid", None), 50),       // movie w/o provider id -> kept
    ];
    let out = dedup_movies_by_provider(items);
    let ids: Vec<&str> = out.iter().map(|m| m.id.as_str()).collect();
    // tt1 collapsed to the priority-100 copy, in tt1's first position
    assert_eq!(ids, vec!["a-hi", "b", "c-noid"]);
}

#[test]
fn first_copy_wins_among_equals() {
    let items = vec![
        (movie("a", Some("tt1")), 50),
        (movie("x", None), 1),
        (movie("b", Some("tt1")), 50),
        (movie("c", Some("tt1")), 49),
        (movie("x", None), 1),
    ];
    let out = dedup_movies_by_provider(items);
    let ids: Vec<&str> = out.iter().map(|m| m.id.as_str()).collect();
    assert_eq!(ids, vec!["a", "x", "x"]);
}

#[test]
fn strongest_provider_id_is_the_key() {
    let mut m = plain("m", ItemKind::Movie);
    m.provider_ids = ids(&[
        ("Tvdb", Json::Text("3".into())),
        ("TMDB", Json::Text("2".into())),
        ("Imdb", Json::Number(Some(1))),
    ]);
    assert_eq!(movie_dedup_key(&m).as_deref(), Some("tmdb:2"));
    m.provider_ids = ids(&[("imdb", Json::Text("tt9".into())), ("Tmdb", Json::Text("2".into()))]);
    assert_eq!(movie_dedup_key(&m).as_deref(), Some("imdb:tt9"));
    m.provider_ids = ids(&[("Other", Json::Text("2".into()))]);
    assert_eq!(movie_dedup_key(&m), None);
    m.provider_ids = ids(&[("Tvdb", Json::Text("5".into()))]);
    assert_eq!(movie_dedup_key(&m).as_deref(), Some("tvdb:5"));
    m.item_type = ItemKind::Episode;
    assert_eq!(movie_dedup_key(&m), None);
}

#[test]
fn items_are_taken_in_turns() {
    let answers = vec![
        (10, vec![movie("a1", None), movie("a2", None), movie("a3", None)]),
        (20, vec![movie("b1", None)]),
        (30, vec![]),
        (40, vec![movie("d1", None), movie("d2", None)]),
    ];
    let out = interleave(&answers);
    let got: Vec<(&str, i32)> = out.iter().map(|(m, p)| (m.id.as_str(), *p)).collect();
    assert_eq!(
        got,
        vec![("a1", 10), ("b1", 20), ("d1", 40), ("a2", 10), ("d2", 40), ("a3", 10)]
    );
}

#[test]
fn one_live_tv_library_remains() {
    let answers = vec![
        (1, vec![library("m1", "Movies", "Movies"), library("tv1", "Live TV", "LiveTv")]),
        (2, vec![library("tv2", "Live TV", "LiveTv"), library("m2", "Movies", "Movies")]),
    ];
    let out = interleave(&answers);
    let got: Vec<&str> = out.iter().map(|(m, _)| m.id.as_str()).collect();
    assert_eq!(got, vec!["m1", "tv2", "m2"]);
}

#[test]
fn same_libraries_are_merged_and_registered() {
    let items = vec![
        (library("m1", "Movies [Alpha]", "Movies"), 10),
        (library("s1", "Shows [Alpha]", "TvShows"), 10),
        (library("m2", "MOVIES [Beta]", "Movies"), 20),
        (library("k1", "Movies [Gamma]", "HomeVideos"), 5),
        (movie("film", None), 1),
        (library("m3", "Movies [Delta]", "Movies"), 20),
        (library("lost", "Movies [?]", "Movies"), 99),
    ];
    let servers = vec![Some(1), Some(1), Some(2), Some(3), Some(1), Some(4), None];
    let mut registry = ViewMergeRegistry::new();
    let out = dedup_and_register_views(&items, &servers, &mut registry);
    let got: Vec<&str> = out.iter().map(|(m, _)| m.id.as_str()).collect();
    assert_eq!(got, vec!["m2", "s1", "k1", "film", "lost"]);
    assert_eq!(
        registry.members("m2"),
        Some(vec![(1, "m1".to_string()), (2, "m2".to_string()), (4, "m3".to_string())])
    );
    assert_eq!(registry.members("s1"), None);
    assert_eq!(registry.members("m1"), None);
}

#[test]
fn base_names_lose_the_last_bracket() {
    assert_eq!(base_name_of("Movies [Alpha]"), "Movies");
    assert_eq!(base_name_of("Movies [4K] [Alpha]"), "Movies [4K]");
    assert_eq!(base_name_of("Movies[Alpha]"), "Movies[Alpha]");
    assert_eq!(base_name_of(" ["), "");
    assert_eq!(base_name_of(""), "");
}

#[test]
fn any_counted_answer_makes_a_counted_listing() {
    assert_eq!(response_shape(&vec![false, false], 3), Shape::Bare);
    assert_eq!(response_shape(&vec![], 0), Shape::Bare);
    assert_eq!(
        response_shape(&vec![false, true], 3),
        Shape::WithCount { total_record_count: 3, start_index: 0 }
    );
}

#[test]
fn registry_keeps_groups_of_several_backends() {
    let mut r = ViewMergeRegistry::new();
    assert_eq!(r.members("v"), None);
    r.register("v".to_string(), vec![(1, "a".to_string()), (2, "b".to_string())]);
    assert_eq!(r.members("v"), Some(vec![(1, "a".to_string()), (2, "b".to_string())]));
    r.register("w".to_string(), vec![(1, "c".to_string())]);
    assert_eq!(r.members("w"), None);
    r.register("v".to_string(), vec![(1, "a".to_string())]);
    assert_eq!(r.members("v"), None);
}
