use jellyswarrm::json::Json;
use jellyswarrm::match_key::{
    first_episode_match, first_provider_match, identifying_want, is_identifying_provider_key,
    providers_from, ItemUserData, MatchKey,
};

fn text(s: &str) -> Json {
    Json::Text(s.to_string())
}

fn object(entries: Vec<(&str, Json)>) -> Json {
    Json::Object(entries.into_iter().map(|(k, v)| (k.to_string(), v)).collect())
}

fn ids(pairs: &[(&str, &str)]) -> Json {
    object(pairs.iter().map(|(k, v)| (*k, text(v))).collect())
}

fn item(id: &str, pairs: &[(&str, &str)]) -> Json {
    object(vec![("Id", text(id)), ("ProviderIds", ids(pairs))])
}

fn want(pairs: &[(&str, &str)]) -> Vec<(String, String)> {
    pairs.iter().map(|(k, v)| (k.to_lowercase(), v.to_string())).collect()
}

fn pairs(p: &[(&str, &str)]) -> Vec<(String, String)> {
    p.iter().map(|(k, v)| (k.to_string(), v.to_string())).collect()
}

#[test]
fn identifying_key_excludes_collections() {
    assert!(is_identifying_provider_key("Imdb"));
    assert!(is_identifying_provider_key("Tmdb"));
    assert!(is_identifying_provider_key("Tvdb"));
    assert!(!is_identifying_provider_key("TmdbCollection"));
    assert!(!is_identifying_provider_key("tvdbcollection"));
}

#[test]
fn matches_strong_id_not_collection_sibling() {
    // Source = "Iron Man". The peer lists the SIBLING "Iron Man 2" FIRST
    // (same TmdbCollection, different Imdb), then the correct "Iron Man".
    let items = vec![
        item("sibling", &[("Imdb", "tt1228705"), ("Tmdb", "10138"), ("TmdbCollection", "131292")]),
        item("correct", &[("Imdb", "tt0371746"), ("Tmdb", "1726"), ("TmdbCollection", "131292")]),
    ];
    let w = want(&[("Imdb", "tt0371746"), ("Tmdb", "1726"), ("TmdbCollection", "131292")]);
    assert_eq!(first_provider_match(&items, &w).as_deref(), Some("correct"));
}

#[test]
fn collection_only_overlap_does_not_match() {
    // The only shared id is a collection: refuse, it would be a guess.
    let items = vec![item("sibling", &[("Imdb", "tt9999999"), ("TmdbCollection", "131292")])];
    assert_eq!(first_provider_match(&items, &want(&[("TmdbCollection", "131292")])), None);
    assert_eq!(
        first_provider_match(&items, &want(&[("Imdb", "tt0371746"), ("TmdbCollection", "131292")])),
        None
    );
}

#[test]
fn exact_match_and_miss() {
    let items = vec![item("a", &[("Imdb", "tt1")]), item("b", &[("Tmdb", "22")])];
    assert_eq!(first_provider_match(&items, &want(&[("Tmdb", "22")])).as_deref(), Some("b"));
    // case-insensitive key
    assert_eq!(first_provider_match(&items, &want(&[("tmdb", "22")])).as_deref(), Some("b"));
    assert_eq!(first_provider_match(&items, &want(&[("Imdb", "nope")])), None);
}

#[test]
fn tolerates_malformed_items() {
    let items = vec![
        object(vec![("Id", text("noproviders"))]),
        object(vec![("ProviderIds", ids(&[("Imdb", "tt1")]))]), // matches but has no Id
        object(vec![
            ("Id", text("nullval")),
            ("ProviderIds", object(vec![("Imdb", Json::Null), ("Tmdb", Json::Number(Some(5)))])),
        ]), // non-string values
        text("not even an object"),
        item("good", &[("Imdb", "tt7")]),
    ];
    assert_eq!(first_provider_match(&items, &want(&[("Imdb", "tt7")])).as_deref(), Some("good"));
    // a matching item with no Id is skipped, nothing else matches tt1 -> None
    assert_eq!(first_provider_match(&items, &want(&[("Imdb", "tt1")])), None);
    // empty input
    assert_eq!(first_provider_match(&vec![], &want(&[("Imdb", "tt7")])), None);
}

#[test]
fn cache_key_is_order_independent() {
    let a = MatchKey::Provider(vec![
        ("Imdb".into(), "tt1".into()),
        ("Tmdb".into(), "22".into()),
    ]);
    let b = MatchKey::Provider(vec![
        ("Tmdb".into(), "22".into()),
        ("Imdb".into(), "tt1".into()),
    ]);
    assert_eq!(a.cache_key(), b.cache_key());
    assert_eq!(a.cache_key(), "imdb.tt1,tmdb.22");
}

#[test]
fn episode_cache_key_includes_season_episode() {
    let k = MatchKey::Episode {
        series: vec![("Tvdb".into(), "999".into())],
        season: 2,
        episode: 5,
    };
    assert_eq!(k.cache_key(), "tvdb.999|s2e5");
    assert!(!k.is_empty());
}

#[test]
fn episode_order_does_not_change_the_key() {
    let a = MatchKey::Episode {
        series: pairs(&[("Tvdb", "9"), ("Imdb", "tt3")]),
        season: -1,
        episode: 0,
    };
    let b = MatchKey::Episode {
        series: pairs(&[("Imdb", "tt3"), ("Tvdb", "9")]),
        season: -1,
        episode: 0,
    };
    assert_eq!(a.cache_key(), "imdb.tt3,tvdb.9|s-1e0");
    assert_eq!(a.cache_key(), b.cache_key());
}

#[test]
fn keys_without_identifying_ids_are_empty() {
    assert!(MatchKey::Provider(vec![]).is_empty());
    assert!(MatchKey::Provider(pairs(&[("TmdbCollection", "1")])).is_empty());
    assert!(!MatchKey::Provider(pairs(&[("TmdbCollection", "1"), ("Imdb", "tt1")])).is_empty());
}

#[test]
fn wanted_ids_are_lowercased_and_filtered() {
    let w = identifying_want(&pairs(&[("IMDB", "TT1"), ("TmdbCollection", "7"), ("ÄKey", "x")]));
    assert_eq!(w, pairs(&[("imdb", "TT1"), ("äkey", "x")]));
}

#[test]
fn providers_are_the_string_entries() {
    let v = object(vec![("Imdb", text("tt1")), ("Tmdb", Json::Number(Some(3))), ("Tvdb", text("9"))]);
    assert_eq!(providers_from(Some(&v)), pairs(&[("Imdb", "tt1"), ("Tvdb", "9")]));
    assert_eq!(providers_from(Some(&Json::Null)), vec![]);
    assert_eq!(providers_from(None), vec![]);
}

#[test]
fn episodes_match_by_numbers() {
    let ep = |id: Option<&str>, s: i64, e: i64| {
        let mut entries =
            vec![("ParentIndexNumber", Json::Number(Some(s))), ("IndexNumber", Json::Number(Some(e)))];
        if let Some(id) = id {
            entries.push(("Id", text(id)));
        }
        object(entries)
    };
    let eps = vec![ep(Some("a"), 1, 1), ep(None, 1, 2), ep(Some("b"), 1, 2)];
    assert_eq!(first_episode_match(&eps, 1, 2).as_deref(), Some("b"));
    assert_eq!(first_episode_match(&eps, 1, 1).as_deref(), Some("a"));
    assert_eq!(first_episode_match(&eps, 2, 1), None);
}

#[test]
fn user_data_takes_defaults_for_what_is_missing() {
    assert_eq!(ItemUserData::from_value(None), ItemUserData::default());
    let ud = object(vec![
        ("Played", Json::Bool(true)),
        ("PlaybackPositionTicks", Json::Number(Some(77))),
        ("PlayCount", text("not a number")),
        ("LastPlayedDate", text("2024-01-01")),
    ]);
    assert_eq!(
        ItemUserData::from_value(Some(&ud)),
        ItemUserData {
            played: true,
            playback_position_ticks: 77,
            play_count: 0,
            is_favorite: false,
            last_played_date: Some("2024-01-01".to_string()),
        }
    );
}

#[test]
fn cache_keys_ignore_the_case_of_provider_keys() {
    let upper = MatchKey::Provider(pairs(&[("IMDB", "tt1"), ("Tmdb", "22")]));
    let lower = MatchKey::Provider(pairs(&[("imdb", "tt1"), ("tMDB", "22")]));
    assert_eq!(upper.cache_key(), lower.cache_key());
    let other = MatchKey::Provider(pairs(&[("imdb", "TT1"), ("tmdb", "22")]));
    assert_ne!(upper.cache_key(), other.cache_key());
}

#[test]
fn cache_keys_tell_episodes_apart() {
    let of = |season, episode| {
        MatchKey::Episode { series: pairs(&[("Tvdb", "9|s1e1")]), season, episode }.cache_key()
    };
    assert_eq!(of(1, 12), "tvdb.9|s1e1|s1e12");
    assert_ne!(of(1, 12), of(11, 2));
    assert_ne!(of(1, 12), of(1, 1));
    assert_ne!(of(1, 12), of(-1, 12));
}
